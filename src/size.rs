//! Rendering of byte counts, as a raw number or with a binary unit.

use vstd::prelude::*;
use crate::text::{decimal, decimal_string, digit_char, digit_str, pad_left, pad_left_string};

verus! {

/// A power-of-1024 unit: K is 1024 bytes, P is 1024 to the fifth.
pub enum SizeUnit {
    K,
    M,
    G,
    T,
    P,
}

/// How sizes are shown: raw bytes, or with a unit letter.
pub enum SizePrinter {
    Bytes,
    Human,
}

/// 1024 to the power `k`.
pub open spec fn pow1024(k: nat) -> nat
    decreases k,
{
    if k == 0 {
        1
    } else {
        1024 * pow1024((k - 1) as nat)
    }
}

/// The letter of the unit of rank `k` (1 for K up to 5 for P).
pub open spec fn unit_letter(k: nat) -> char {
    seq!['B', 'K', 'M', 'G', 'T', 'P'][k as int]
}

/// `a / b` rounded to the nearest integer, ties to the even one.
pub open spec fn round_half_even(a: nat, b: nat) -> nat
    recommends
        b > 0,
{
    let q = a / b;
    let r = a % b;
    if 2 * r > b || (2 * r == b && q % 2 == 1) {
        q + 1
    } else {
        q
    }
}

/// The unit rank at which human formatting stops, starting from rank `k`:
/// the first rank whose value is below 1024, or P.
pub open spec fn human_rank_from(size: nat, k: nat) -> nat
    decreases 5 - k,
{
    if k >= 5 || size < pow1024(k + 1) {
        k
    } else {
        human_rank_from(size, k + 1)
    }
}

/// Tenths of `size` expressed in the unit of rank `k`, rounded.
pub open spec fn tenths(size: nat, k: nat) -> nat {
    round_half_even(size * 10, pow1024(k))
}

/// A count of tenths written with one decimal digit, such as `1.5`.
pub open spec fn one_decimal(t: nat) -> Seq<char> {
    decimal(t / 10) + seq!['.', digit_char(t % 10)]
}

/// `size` in the unit of rank `k`, with one decimal and the unit letter.
pub open spec fn scaled_text(size: nat, k: nat) -> Seq<char> {
    one_decimal(tenths(size, k)).push(unit_letter(k))
}

/// Human-readable size: the plain number below 1024, else a scaled value.
pub open spec fn human_text(size: nat) -> Seq<char> {
    if size < 1024 {
        decimal(size)
    } else {
        scaled_text(size, human_rank_from(size, 1))
    }
}

/// The size field as a printer shows it.
pub open spec fn size_text(p: SizePrinter, size: nat) -> Seq<char> {
    match p {
        SizePrinter::Bytes => pad_left(decimal(size), 11),
        SizePrinter::Human => pad_left(human_text(size), 4),
    }
}

pub proof fn lemma_pow1024_values()
    ensures
        pow1024(1) == 1024,
        pow1024(2) == 1048576,
        pow1024(3) == 1073741824,
        pow1024(4) == 1099511627776,
        pow1024(5) == 1125899906842624,
        pow1024(6) == 1152921504606846976,
{
    reveal_with_fuel(pow1024, 7);
}

impl SizeUnit {
    /// The rank of the unit: 1 for K up to 5 for P.
    pub open spec fn rank(&self) -> nat {
        match self {
            SizeUnit::K => 1,
            SizeUnit::M => 2,
            SizeUnit::G => 3,
            SizeUnit::T => 4,
            SizeUnit::P => 5,
        }
    }

    /// The next larger unit; P stays P.
    pub fn next_unit(&self) -> (r: SizeUnit)
        ensures
            r.rank() == if self.rank() < 5 { self.rank() + 1 } else { 5 },
    {
        match self {
            SizeUnit::K => SizeUnit::M,
            SizeUnit::M => SizeUnit::G,
            SizeUnit::G => SizeUnit::T,
            SizeUnit::T => SizeUnit::P,
            SizeUnit::P => SizeUnit::P,
        }
    }

    /// The unit's letter.
    pub fn to_string(&self) -> (r: String)
        ensures
            r@ == seq![unit_letter(self.rank())],
    {
        let letters = "BKMGTP";
        proof {
            reveal_strlit("BKMGTP");
        }
        let k: usize = match self {
            SizeUnit::K => 1,
            SizeUnit::M => 2,
            SizeUnit::G => 3,
            SizeUnit::T => 4,
            SizeUnit::P => 5,
        };
        let r = String::from_str(letters.substring_char(k, k + 1));
        assert(r@ =~= seq![unit_letter(self.rank())]);
        r
    }
}

/// `size` scaled down by `divisor`, rounded to tenths and written as `d.d`.
fn scaled_value(size: u64, divisor: u64) -> (r: String)
    requires
        divisor >= 1,
    ensures
        r@ == one_decimal(round_half_even(size as nat * 10, divisor as nat)),
{
    let a: u128 = size as u128 * 10;
    let d: u128 = divisor as u128;
    let q: u128 = a / d;
    let rem: u128 = a % d;
    let t: u128 = if 2 * rem > d || (2 * rem == d && q % 2 == 1) {
        q + 1
    } else {
        q
    };
    proof {
        assert(q <= a) by (nonlinear_arith)
            requires
                d >= 1,
                q == a / d,
        ;
    }
    let whole = (t / 10) as u64;
    let mut s = decimal_string(whole);
    proof {
        reveal_strlit(".");
    }
    s.append(".");
    s.append(digit_str((t % 10) as u64));
    assert(s@ =~= one_decimal(round_half_even(size as nat * 10, divisor as nat)));
    s
}

/// Divides `size` by 1024 until the value is below 1024 or the unit is P,
/// then writes it with one decimal and the unit letter.
fn evaluate_size(size: u64, unit: SizeUnit, divisor: u64) -> (r: String)
    requires
        divisor == pow1024(unit.rank()),
    ensures
        r@ == scaled_text(size as nat, human_rank_from(size as nat, unit.rank())),
    decreases 5 - unit.rank(),
{
    proof {
        lemma_pow1024_values();
    }
    let last = match unit {
        SizeUnit::P => true,
        _ => false,
    };
    if last || (size as u128) < (divisor as u128) * 1024 {
        proof {
            reveal_with_fuel(pow1024, 7);
        }
        let mut s = scaled_value(size, divisor);
        let letter = unit.to_string();
        s.append(letter.as_str());
        assert(s@ =~= scaled_text(size as nat, human_rank_from(size as nat, unit.rank())));
        s
    } else {
        proof {
            reveal_with_fuel(pow1024, 7);
        }
        evaluate_size(size, unit.next_unit(), divisor * 1024)
    }
}

impl SizePrinter {
    /// The size field for `size` bytes: right-justified in 11 columns for raw
    /// bytes, in 4 for the human form.
    pub fn get_file_size(&self, size: u64) -> (r: String)
        ensures
            r@ == size_text(*self, size as nat),
    {
        match self {
            SizePrinter::Bytes => {
                let d = decimal_string(size);
                pad_left_string(d.as_str(), 11)
            },
            SizePrinter::Human => {
                if size < 1024 {
                    let d = decimal_string(size);
                    pad_left_string(d.as_str(), 4)
                } else {
                    proof {
                        lemma_pow1024_values();
                    }
                    let h = evaluate_size(size, SizeUnit::K, 1024);
                    pad_left_string(h.as_str(), 4)
                }
            },
        }
    }
}

} // verus!
