//! Where the tail utility starts printing.

use vstd::prelude::*;
use crate::num::{integer_digits, is_integer_text, read_integer};
use crate::text::digits_value;

verus! {

/// How many lines or bytes to take: `+0` (everything), or a count, positive
/// from the start and negative from the end.
#[derive(Debug, Clone, Copy, PartialEq, Eq, Structural)]
pub enum TakeValue {
    PlusZero,
    TakeNum(i64),
}

/// The index of the first line or byte to print out of `total`, if any.
pub open spec fn start_index(t: TakeValue, total: int) -> Option<int> {
    match t {
        TakeValue::PlusZero => if total > 0 {
            Some(0)
        } else {
            None
        },
        TakeValue::TakeNum(v) => if v == 0 {
            None
        } else if v > 0 {
            if v <= total {
                Some(v - 1)
            } else {
                None
            }
        } else if v + total >= 0 {
            Some(v + total)
        } else {
            Some(0)
        },
    }
}

/// The index of the first line or byte to print out of `total`, if any.
pub fn get_start_index(take_val: &TakeValue, total: i64) -> (r: Option<i64>)
    ensures
        r is None <==> start_index(*take_val, total as int) is None,
        r matches Some(i) ==> start_index(*take_val, total as int) == Some(i as int),
{
    match take_val {
        TakeValue::PlusZero => {
            if total > 0 {
                Some(0)
            } else {
                None
            }
        },
        TakeValue::TakeNum(val) => {
            let val = *val;
            if val == 0 {
                None
            } else if val > 0 {
                if val <= total {
                    Some(val - 1)
                } else {
                    None
                }
            } else if (val as i128) + (total as i128) >= 0 {
                Some(val + total)
            } else {
                Some(0)
            }
        },
    }
}

/// What a count option means: an optional sign and digits; without a sign
/// the count is taken from the end (negative), and `+0` means everything.
pub open spec fn take_value_of(s: Seq<char>) -> Option<TakeValue> {
    if !is_integer_text(s) {
        None
    } else {
        let d = digits_value(integer_digits(s)) as int;
        let v = if s[0] == '+' {
            d
        } else {
            -d
        };
        if !(i64::MIN <= v <= i64::MAX) {
            None
        } else if s[0] == '+' && v == 0 {
            Some(TakeValue::PlusZero)
        } else {
            Some(TakeValue::TakeNum(v as i64))
        }
    }
}

/// Parses a count option; the error is the input itself.
pub fn parse_num(val: &str) -> (r: Result<TakeValue, String>)
    ensures
        r is Ok <==> take_value_of(val@) is Some,
        r matches Ok(t) ==> take_value_of(val@) == Some(t),
        r matches Err(e) ==> e@ == val@,
{
    match read_integer(val) {
        None => Err(String::from_str(val)),
        Some((_, m)) => {
            let plus = val.get_char(0) == '+';
            if plus {
                if m == 0 {
                    Ok(TakeValue::PlusZero)
                } else if m <= 0x7fff_ffff_ffff_ffffu128 {
                    Ok(TakeValue::TakeNum(m as i64))
                } else {
                    Err(String::from_str(val))
                }
            } else if m <= 0x8000_0000_0000_0000u128 {
                Ok(TakeValue::TakeNum((-(m as i128)) as i64))
            } else {
                Err(String::from_str(val))
            }
        },
    }
}

} // verus!
