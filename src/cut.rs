//! Selections of the cut utility: positions, and the characters or bytes
//! they pick out of a line.

use vstd::prelude::*;
use std::ops::Range;
use vstd::string::StringSliceAdditionalSpecFns;
use crate::fortune::quoted;
use crate::num::{integer_in, integer_value, is_negative_text, read_integer_in};
use crate::text::{decimal, decimal_string, is_digit, split_on};

verus! {

/// Zero-based, half-open position ranges.
pub type PositionList = Vec<Range<usize>>;

/// What to extract from each line.
pub enum Extract {
    Fields(PositionList),
    Bytes(PositionList),
    Chars(PositionList),
}

impl Extract {
    /// Whether bytes are extracted.
    pub fn is_bytes(&self) -> (r: bool)
        ensures
            r == self is Bytes,
    {
        match self {
            Extract::Bytes(_) => true,
            _ => false,
        }
    }
}

/// The elements of `s` at the positions `lo..hi` that exist.
pub open spec fn range_part<T>(s: Seq<T>, lo: int, hi: int) -> Seq<T> {
    let a = if lo < s.len() { lo } else { s.len() as int };
    let b = if hi < lo { a } else if hi < s.len() { hi } else { s.len() as int };
    s.subrange(a, b)
}

/// The elements of `s` picked by each range in turn.
pub open spec fn picked<T>(s: Seq<T>, ranges: Seq<Range<usize>>) -> Seq<T>
    decreases ranges.len(),
{
    if ranges.len() == 0 {
        Seq::empty()
    } else {
        picked(s, ranges.drop_last()) + range_part(
            s,
            ranges.last().start as int,
            ranges.last().end as int,
        )
    }
}

/// The text that `String::from_utf8_lossy` makes of `bytes`.
pub uninterp spec fn lossy_text(bytes: Seq<u8>) -> Seq<char>;

/// Relies on `String::from_utf8_lossy`: the text of `bytes`, each invalid
/// sequence replaced by U+FFFD; a function of the bytes alone.
#[verifier::external_body]
fn utf8_lossy(bytes: &Vec<u8>) -> (r: String)
    ensures
        r@ == lossy_text(bytes@),
{
    String::from_utf8_lossy(bytes).into_owned()
}

/// The bounds `a..b` of `range_part` for a sequence of length `len`.
fn clamp_range(lo: usize, hi: usize, len: usize) -> (r: (usize, usize))
    ensures
        r.0 == (if lo < len { lo } else { len }),
        r.1 == (if hi < lo { r.0 } else if hi < len { hi } else { len }),
{
    let a = if lo < len { lo } else { len };
    let b = if hi < lo { a } else if hi < len { hi } else { len };
    (a, b)
}

/// The characters of `line` at the given positions, range by range.
pub fn extract_chars(line: &str, char_pos: &[Range<usize>]) -> (r: String)
    ensures
        r@ == picked(line@, char_pos@),
{
    let n = line.unicode_len();
    let mut s = String::new();
    let mut i: usize = 0;
    assert(char_pos@.subrange(0, 0) =~= Seq::<Range<usize>>::empty());
    while i < char_pos.len()
        invariant
            n == line@.len(),
            i <= char_pos@.len(),
            s@ == picked(line@, char_pos@.subrange(0, i as int)),
        decreases char_pos@.len() - i,
    {
        let (a, b) = clamp_range(char_pos[i].start, char_pos[i].end, n);
        let part = line.substring_char(a, b);
        s.append(part);
        let ghost pre = char_pos@.subrange(0, i as int);
        let ghost next = char_pos@.subrange(0, i + 1);
        assert(next.drop_last() =~= pre);
        i = i + 1;
    }
    assert(char_pos@.subrange(0, char_pos@.len() as int) =~= char_pos@);
    s
}

/// The bytes of `line` at the given positions, range by range, read back as
/// text with invalid sequences replaced.
pub fn extract_bytes(line: &str, byte_pos: &[Range<usize>]) -> (r: String)
    ensures
        r@ == lossy_text(picked(line.spec_bytes(), byte_pos@)),
{
    let bytes = line.as_bytes_vec();
    let n = bytes.len();
    let mut out: Vec<u8> = Vec::new();
    let mut i: usize = 0;
    assert(byte_pos@.subrange(0, 0) =~= Seq::<Range<usize>>::empty());
    assert(out@ =~= picked(bytes@, byte_pos@.subrange(0, 0)));
    while i < byte_pos.len()
        invariant
            n == bytes@.len(),
            i <= byte_pos@.len(),
            out@ == picked(bytes@, byte_pos@.subrange(0, i as int)),
        decreases byte_pos@.len() - i,
    {
        let (a, b) = clamp_range(byte_pos[i].start, byte_pos[i].end, n);
        let ghost before = out@;
        let mut k: usize = a;
        while k < b
            invariant
                a <= k <= b,
                b <= n,
                n == bytes@.len(),
                out@ == before + bytes@.subrange(a as int, k as int),
            decreases b - k,
        {
            out.push(bytes[k]);
            k = k + 1;
            assert(out@ =~= before + bytes@.subrange(a as int, k as int));
        }
        let ghost pre = byte_pos@.subrange(0, i as int);
        let ghost next = byte_pos@.subrange(0, i + 1);
        assert(next.drop_last() =~= pre);
        i = i + 1;
    }
    assert(byte_pos@.subrange(0, byte_pos@.len() as int) =~= byte_pos@);
    utf8_lossy(&out)
}

/// The message for a position that is not a positive integer.
pub open spec fn illegal_value_message(input: Seq<char>) -> Seq<char> {
    "illegal list value: "@ + quoted(input)
}

/// Parses a one-based position (digits only, no sign) into a zero-based
/// index.
pub fn parse_index(input: &str) -> (r: Result<usize, String>)
    ensures
        r is Ok <==> input@.len() > 0 && input@[0] != '+' && !is_negative_text(input@)
            && integer_in(input@, 1, usize::MAX as int),
        r matches Ok(i) ==> i == integer_value(input@) - 1,
        r matches Err(e) ==> e@ == illegal_value_message(input@),
{
    let signed = input.unicode_len() > 0 && (input.get_char(0) == '+' || input.get_char(0) == '-');
    let parsed = if signed {
        None
    } else {
        read_integer_in(input, 1, usize::MAX as i128)
    };
    match parsed {
        Some(v) => Ok((v - 1) as usize),
        None => {
            proof {
                reveal_strlit("illegal list value: \"");
                reveal_strlit("illegal list value: ");
                reveal_strlit("\"");
            }
            let mut e = String::from_str("illegal list value: \"");
            e.append(input);
            e.append("\"");
            assert(e@ =~= illegal_value_message(input@));
            Err(e)
        },
    }
}

/// The zero-based index that a one-based position text names.
pub open spec fn index_of(s: Seq<char>) -> Result<int, Seq<char>> {
    if s.len() > 0 && s[0] != '+' && !is_negative_text(s) && integer_in(s, 1, usize::MAX as int) {
        Ok(integer_value(s) - 1)
    } else {
        Err(illegal_value_message(s))
    }
}

/// `p` is two runs of digits joined by the dash at `i`.
pub open spec fn dash_range_at(p: Seq<char>, i: int) -> bool {
    &&& 0 < i < p.len() - 1
    &&& p[i] == '-'
    &&& forall|j: int| 0 <= j < p.len() && j != i ==> is_digit(#[trigger] p[j])
}

pub open spec fn is_dash_range(p: Seq<char>) -> bool {
    exists|i: int| dash_range_at(p, i)
}

/// The message for a range whose ends are out of order (one-based).
pub open spec fn order_message(a: nat, b: nat) -> Seq<char> {
    "First number in range ("@ + decimal(a) + ") must be lower than second number ("@ + decimal(b)
        + ")"@
}

/// The zero-based, half-open range that one part of a list names: a single
/// position, or two ascending positions joined by a dash.
pub open spec fn position_of(p: Seq<char>) -> Result<(int, int), Seq<char>> {
    match index_of(p) {
        Ok(n) => Ok((n, n + 1)),
        Err(e) => if !is_dash_range(p) {
            Err(e)
        } else {
            let i = choose|i: int| dash_range_at(p, i);
            match index_of(p.subrange(0, i)) {
                Err(e1) => Err(e1),
                Ok(n1) => match index_of(p.subrange(i + 1, p.len() as int)) {
                    Err(e2) => Err(e2),
                    Ok(n2) => if n1 >= n2 {
                        Err(order_message((n1 + 1) as nat, (n2 + 1) as nat))
                    } else {
                        Ok((n1, n2 + 1))
                    },
                },
            }
        },
    }
}

/// The ranges of the parts in order, or the error of the first bad part.
pub open spec fn positions(parts: Seq<Seq<char>>) -> Result<Seq<(int, int)>, Seq<char>>
    decreases parts.len(),
{
    if parts.len() == 0 {
        Ok(Seq::empty())
    } else {
        match positions(parts.drop_last()) {
            Err(e) => Err(e),
            Ok(v) => match position_of(parts.last()) {
                Err(e) => Err(e),
                Ok(r) => Ok(v.push(r)),
            },
        }
    }
}

pub open spec fn bounds_of(rs: Seq<Range<usize>>) -> Seq<(int, int)> {
    rs.map_values(|r: Range<usize>| (r.start as int, r.end as int))
}

proof fn lemma_dash_unique(p: Seq<char>, i: int, k: int)
    requires
        dash_range_at(p, i),
        0 <= k < p.len(),
        p[k] == '-',
    ensures
        k == i,
{
    if k != i {
        assert(is_digit(p[k]));
    }
}

/// The range that one part of a position list names.
fn parse_position(p: &str) -> (r: Result<Range<usize>, String>)
    ensures
        match position_of(p@) {
            Ok(v) => r matches Ok(x) && x.start == v.0 && x.end == v.1,
            Err(e) => r matches Err(x) && x@ == e,
        },
{
    let e = match parse_index(p) {
        Ok(n) => return Ok(Range { start: n, end: n + 1 }),
        Err(e) => e,
    };
    let n = p.unicode_len();
    let mut dash: usize = n;
    let mut ok = true;
    let mut i: usize = 0;
    while i < n
        invariant
            n == p@.len(),
            i <= n,
            dash <= n,
            dash < n ==> dash < i && p@[dash as int] == '-',
            dash == n ==> forall|j: int| 0 <= j < i ==> p@[j] != '-',
            ok ==> forall|j: int| 0 <= j < i && j != dash ==> is_digit(#[trigger] p@[j]),
            !ok ==> !is_dash_range(p@),
        decreases n - i,
    {
        let c = p.get_char(i);
        if c == '-' && dash == n {
            dash = i;
        } else if !('0' <= c && c <= '9') {
            if ok {
                proof {
                    if is_dash_range(p@) {
                        let d = choose|d: int| dash_range_at(p@, d);
                        if c == '-' {
                            lemma_dash_unique(p@, d, i as int);
                            lemma_dash_unique(p@, d, dash as int);
                        } else {
                            assert(is_digit(p@[i as int]) || i == d);
                        }
                    }
                }
            }
            ok = false;
        }
        i = i + 1;
    }
    if !ok || dash == n || dash == 0 || dash + 1 == n {
        proof {
            if is_dash_range(p@) {
                let d = choose|d: int| dash_range_at(p@, d);
                if dash < n {
                    lemma_dash_unique(p@, d, dash as int);
                } else {
                    assert(p@[d] == '-');
                }
            }
        }
        return Err(e);
    }
    proof {
        assert(dash_range_at(p@, dash as int));
        let d = choose|d: int| dash_range_at(p@, d);
        lemma_dash_unique(p@, d, dash as int);
    }
    let a = p.substring_char(0, dash);
    let b = p.substring_char(dash + 1, n);
    let n1 = match parse_index(a) {
        Ok(v) => v,
        Err(e1) => return Err(e1),
    };
    let n2 = match parse_index(b) {
        Ok(v) => v,
        Err(e2) => return Err(e2),
    };
    if n1 >= n2 {
        proof {
            reveal_strlit("First number in range (");
            reveal_strlit(") must be lower than second number (");
            reveal_strlit(")");
        }
        let mut m = String::from_str("First number in range (");
        let d1 = decimal_string((n1 + 1) as u64);
        m.append(d1.as_str());
        m.append(") must be lower than second number (");
        let d2 = decimal_string((n2 + 1) as u64);
        m.append(d2.as_str());
        m.append(")");
        assert(m@ =~= order_message((n1 + 1) as nat, (n2 + 1) as nat));
        return Err(m);
    }
    Ok(Range { start: n1, end: n2 + 1 })
}

/// The bounds of the parts of `s` cut at every comma.
fn comma_parts(s: &str) -> (r: Vec<(usize, usize)>)
    ensures
        r@.len() == split_on(s@, ',').len(),
        forall|k: int|
            0 <= k < r@.len() ==> {
                &&& (#[trigger] r@[k]).0 <= r@[k].1 <= s@.len()
                &&& s@.subrange(r@[k].0 as int, r@[k].1 as int) == split_on(s@, ',')[k]
            },
{
    let ghost t = s@;
    let n = s.unicode_len();
    let mut out: Vec<(usize, usize)> = Vec::new();
    let mut start: usize = 0;
    let mut i: usize = 0;
    assert(t.subrange(0, 0) =~= Seq::<char>::empty());
    while i < n
        invariant
            n == t.len(),
            t == s@,
            start <= i <= n,
            split_on(t.subrange(0, i as int), ',').len() == out@.len() + 1,
            split_on(t.subrange(0, i as int), ',')[out@.len() as int] == t.subrange(
                start as int,
                i as int,
            ),
            forall|k: int|
                0 <= k < out@.len() ==> {
                    &&& (#[trigger] out@[k]).0 <= out@[k].1 <= start
                    &&& t.subrange(out@[k].0 as int, out@[k].1 as int) == split_on(
                        t.subrange(0, i as int),
                        ',',
                    )[k]
                },
        decreases n - i,
    {
        let ghost pre = t.subrange(0, i as int);
        let ghost next = t.subrange(0, i + 1);
        assert(next.drop_last() =~= pre);
        if s.get_char(i) == ',' {
            out.push((start, i));
            i = i + 1;
            start = i;
            assert(t.subrange(start as int, i as int) =~= Seq::<char>::empty());
        } else {
            assert(t.subrange(start as int, i + 1) =~= t.subrange(start as int, i as int).push(
                t[i as int],
            ));
            i = i + 1;
        }
    }
    out.push((start, n));
    assert(t.subrange(0, n as int) =~= t);
    out
}

proof fn lemma_positions_err_extend(parts: Seq<Seq<char>>, k: int)
    requires
        0 <= k <= parts.len(),
        positions(parts.subrange(0, k)) is Err,
    ensures
        positions(parts) == positions(parts.subrange(0, k)),
    decreases parts.len() - k,
{
    if k == parts.len() {
        assert(parts.subrange(0, k) =~= parts);
    } else {
        assert(parts.subrange(0, k + 1).drop_last() =~= parts.subrange(0, k));
        lemma_positions_err_extend(parts, k + 1);
    }
}

/// Parses a comma-separated list of one-based positions and ranges `a-b`
/// (with `a` below `b`) into zero-based, half-open ranges, in order; the
/// first bad part gives the error.
pub fn parse_pos(range: &str) -> (r: Result<PositionList, String>)
    ensures
        match positions(split_on(range@, ',')) {
            Ok(v) => r matches Ok(x) && bounds_of(x@) == v,
            Err(e) => r matches Err(x) && x@ == e,
        },
{
    let ghost parts = split_on(range@, ',');
    let bounds = comma_parts(range);
    let mut out: Vec<Range<usize>> = Vec::new();
    let mut k: usize = 0;
    assert(parts.subrange(0, 0) =~= Seq::<Seq<char>>::empty());
    assert(bounds_of(out@) =~= Seq::empty());
    while k < bounds.len()
        invariant
            k <= bounds@.len(),
            bounds@.len() == parts.len(),
            parts == split_on(range@, ','),
            forall|j: int|
                0 <= j < bounds@.len() ==> {
                    &&& (#[trigger] bounds@[j]).0 <= bounds@[j].1 <= range@.len()
                    &&& range@.subrange(bounds@[j].0 as int, bounds@[j].1 as int) == parts[j]
                },
            positions(parts.subrange(0, k as int)) == Ok::<Seq<(int, int)>, Seq<char>>(
                bounds_of(out@),
            ),
        decreases bounds@.len() - k,
    {
        let (a, b) = bounds[k];
        let part = range.substring_char(a, b);
        assert(part@ == parts[k as int]);
        let ghost next = parts.subrange(0, k + 1);
        assert(next.drop_last() =~= parts.subrange(0, k as int));
        match parse_position(part) {
            Ok(r) => {
                let ghost old_out = out@;
                out.push(r);
                assert(bounds_of(out@) =~= bounds_of(old_out).push((r.start as int, r.end as int)));
            },
            Err(e) => {
                proof {
                    lemma_positions_err_extend(parts, k + 1);
                }
                return Err(e);
            },
        }
        k = k + 1;
    }
    assert(parts.subrange(0, bounds@.len() as int) =~= parts);
    Ok(out)
}

} // verus!
