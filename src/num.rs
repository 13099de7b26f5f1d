//! Integers written in decimal, as Rust's integer parsing reads them: an
//! optional sign, then one or more ASCII digits.

use vstd::prelude::*;
use crate::text::{all_digits, capped, digits_value, read_digits};

verus! {

pub open spec fn sign_len(s: Seq<char>) -> int {
    if s.len() > 0 && (s[0] == '+' || s[0] == '-') {
        1
    } else {
        0
    }
}

/// The digits after the optional sign.
pub open spec fn integer_digits(s: Seq<char>) -> Seq<char> {
    s.subrange(sign_len(s), s.len() as int)
}

/// `s` is an optional sign followed by one or more digits.
pub open spec fn is_integer_text(s: Seq<char>) -> bool {
    integer_digits(s).len() > 0 && all_digits(integer_digits(s))
}

pub open spec fn is_negative_text(s: Seq<char>) -> bool {
    s.len() > 0 && s[0] == '-'
}

/// The value of an integer text.
pub open spec fn integer_value(s: Seq<char>) -> int {
    if is_negative_text(s) {
        -(digits_value(integer_digits(s)) as int)
    } else {
        digits_value(integer_digits(s)) as int
    }
}

/// Reads an integer text: whether it is negative, and its magnitude
/// saturated at 2^64. `None` when `s` is not an integer text.
pub fn read_integer(s: &str) -> (r: Option<(bool, u128)>)
    ensures
        r is Some <==> is_integer_text(s@),
        r matches Some((neg, m)) ==> neg == is_negative_text(s@) && m == capped(
            digits_value(integer_digits(s@)),
        ),
{
    let n = s.unicode_len();
    if n == 0 {
        return None;
    }
    let first = s.get_char(0);
    let start: usize = if first == '+' || first == '-' { 1 } else { 0 };
    if start >= n {
        return None;
    }
    match read_digits(s, start, n) {
        Some(m) => Some((first == '-', m)),
        None => None,
    }
}

/// The value of `s` when it is an integer text whose value lies in
/// `lo..=hi`.
pub open spec fn integer_in(s: Seq<char>, lo: int, hi: int) -> bool {
    is_integer_text(s) && lo <= integer_value(s) <= hi
}

/// Reads an integer text whose value lies in `lo..=hi`, where both bounds
/// are within 2^64 of zero.
pub fn read_integer_in(s: &str, lo: i128, hi: i128) -> (r: Option<i128>)
    requires
        -0x1_0000_0000_0000_0000 < lo,
        hi < 0x1_0000_0000_0000_0000,
    ensures
        r is Some <==> integer_in(s@, lo as int, hi as int),
        r matches Some(v) ==> v == integer_value(s@),
{
    match read_integer(s) {
        None => None,
        Some((neg, m)) => {
            if neg {
                if m <= 0x1_0000_0000_0000_0000u128 && -(m as i128) >= lo && -(m as i128) <= hi {
                    Some(-(m as i128))
                } else {
                    None
                }
            } else {
                if m < 0x1_0000_0000_0000_0000u128 && (m as i128) >= lo && (m as i128) <= hi {
                    Some(m as i128)
                } else {
                    None
                }
            }
        },
    }
}

} // verus!
