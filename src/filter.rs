//! The entry filters: by kind, by name pattern and by size.

use vstd::prelude::*;
use crate::size::pow1024;
use crate::text::{all_digits, capped, digits_value, magnitude_cap, read_digits};

verus! {

/// What a directory entry is.
pub enum EntryKind {
    Dir,
    File,
    Symlink,
    Other,
}

/// The comparison a size filter makes.
pub enum SizeSign {
    /// no sign: the size must equal the threshold
    Exact,
    /// `+`: the size must exceed the threshold
    Greater,
    /// `-`: the size must be below the threshold
    Less,
}

/// A parsed size filter such as `+10K`.
///
/// `factor` is the written magnitude, saturated at 2^64 (no file size reaches
/// it, so saturation changes no comparison); `multiplier` is the unit's
/// power of 1024.
pub struct SizeSpec {
    pub sign: SizeSign,
    pub factor: u128,
    pub multiplier: u64,
}

pub open spec fn is_sign(c: char) -> bool {
    c == '+' || c == '-'
}

/// The rank of a unit letter (K is 1 up to P is 5), 0 for any other char.
pub open spec fn unit_rank_of(c: char) -> nat {
    if c == 'K' {
        1
    } else if c == 'M' {
        2
    } else if c == 'G' {
        3
    } else if c == 'T' {
        4
    } else if c == 'P' {
        5
    } else {
        0
    }
}

pub open spec fn has_sign(s: Seq<char>) -> bool {
    s.len() > 0 && is_sign(s[0])
}

pub open spec fn has_unit(s: Seq<char>) -> bool {
    s.len() > 0 && unit_rank_of(s.last()) > 0
}

/// What stands between the optional sign and the optional unit letter.
pub open spec fn magnitude_digits(s: Seq<char>) -> Seq<char> {
    s.subrange(
        if has_sign(s) { 1 } else { 0 },
        s.len() - if has_unit(s) { 1int } else { 0int },
    )
}

/// `s` has the form `[+-]?[0-9]+[KMGTP]?`.
pub open spec fn size_spec_valid(s: Seq<char>) -> bool {
    magnitude_digits(s).len() > 0 && all_digits(magnitude_digits(s))
}

pub open spec fn sign_of(s: Seq<char>) -> SizeSign {
    if has_sign(s) {
        if s[0] == '+' {
            SizeSign::Greater
        } else {
            SizeSign::Less
        }
    } else {
        SizeSign::Exact
    }
}

pub open spec fn unit_rank_of_spec(s: Seq<char>) -> nat {
    if has_unit(s) {
        unit_rank_of(s.last())
    } else {
        0
    }
}

/// The number of bytes a valid spec compares against.
pub open spec fn threshold_of(s: Seq<char>) -> nat {
    digits_value(magnitude_digits(s)) * pow1024(unit_rank_of_spec(s))
}

/// Whether `size` passes a comparison against `threshold`.
pub open spec fn size_passes(sign: SizeSign, threshold: nat, size: nat) -> bool {
    match sign {
        SizeSign::Exact => size == threshold,
        SizeSign::Greater => size > threshold,
        SizeSign::Less => size < threshold,
    }
}

/// Whether a file of `size` bytes passes the size filter written `s`;
/// a malformed filter passes nothing.
pub open spec fn size_text_accepts(s: Seq<char>, size: nat) -> bool {
    size_spec_valid(s) && size_passes(sign_of(s), threshold_of(s), size)
}

impl SizeSpec {
    /// The threshold this filter compares against.
    pub open spec fn threshold(&self) -> nat {
        self.factor as nat * self.multiplier as nat
    }

    /// Parses a size filter `[+-]?digits[KMGTP]?`; `None` when malformed.
    pub fn parse(s: &str) -> (r: Option<SizeSpec>)
        ensures
            r is Some <==> size_spec_valid(s@),
            r matches Some(spec) ==> {
                &&& spec.sign == sign_of(s@)
                &&& spec.multiplier == pow1024(unit_rank_of_spec(s@))
                &&& spec.factor == capped(digits_value(magnitude_digits(s@)))
            },
    {
        let n = s.unicode_len();
        if n == 0 {
            return None;
        }
        let first = s.get_char(0);
        let last = s.get_char(n - 1);
        let start: usize = if first == '+' || first == '-' { 1 } else { 0 };
        let rank: u32 = if last == 'K' {
            1
        } else if last == 'M' {
            2
        } else if last == 'G' {
            3
        } else if last == 'T' {
            4
        } else if last == 'P' {
            5
        } else {
            0
        };
        let end: usize = if rank > 0 { n - 1 } else { n };
        if start >= end {
            return None;
        }
        let factor = match read_digits(s, start, end) {
            Some(v) => v,
            None => return None,
        };
        let sign = if first == '+' {
            SizeSign::Greater
        } else if first == '-' {
            SizeSign::Less
        } else {
            SizeSign::Exact
        };
        proof {
            crate::size::lemma_pow1024_values();
            reveal_with_fuel(pow1024, 2);
        }
        let multiplier: u64 = if rank == 1 {
            1024
        } else if rank == 2 {
            1048576
        } else if rank == 3 {
            1073741824
        } else if rank == 4 {
            1099511627776
        } else if rank == 5 {
            1125899906842624
        } else {
            1
        };
        Some(SizeSpec { sign, factor, multiplier })
    }

    /// Whether a file of `size` bytes passes this filter.
    pub fn accepts(&self, size: u64) -> (r: bool)
        ensures
            r == size_passes(self.sign, self.threshold(), size as nat),
    {
        let sz = size as u128;
        match self.factor.checked_mul(self.multiplier as u128) {
            Some(t) => match self.sign {
                SizeSign::Exact => sz == t,
                SizeSign::Greater => sz > t,
                SizeSign::Less => sz < t,
            },
            None => match self.sign {
                SizeSign::Exact => false,
                SizeSign::Greater => false,
                SizeSign::Less => true,
            },
        }
    }
}

/// A magnitude saturated at 2^64 compares with any file size as the
/// written magnitude does.
pub proof fn lemma_saturation_keeps_comparison(sign: SizeSign, v: nat, m: nat, size: nat)
    requires
        m >= 1,
        size < magnitude_cap(),
    ensures
        size_passes(sign, capped(v) * m, size)
            == size_passes(sign, v * m, size),
{
    if v >= magnitude_cap() {
        assert(v * m >= magnitude_cap()) by (nonlinear_arith)
            requires
                v >= magnitude_cap(),
                m >= 1,
        ;
        assert(magnitude_cap() * m >= magnitude_cap()) by (nonlinear_arith)
            requires
                m >= 1,
        ;
    }
}

/// The size filter of a run: no filter passes every size; a malformed filter
/// passes none.
pub fn get_size_filter(size: &Option<String>, file_size: u64) -> (r: bool)
    ensures
        r == match size {
            None => true,
            Some(s) => size_text_accepts(s@, file_size as nat),
        },
{
    match size {
        None => true,
        Some(s) => match SizeSpec::parse(s.as_str()) {
            None => false,
            Some(spec) => {
                proof {
                    crate::size::lemma_pow1024_values();
                    reveal_with_fuel(pow1024, 1);
                    lemma_saturation_keeps_comparison(
                        spec.sign,
                        digits_value(magnitude_digits(s@)),
                        pow1024(unit_rank_of_spec(s@)),
                        file_size as nat,
                    );
                }
                spec.accepts(file_size)
            },
        },
    }
}

} // verus!
