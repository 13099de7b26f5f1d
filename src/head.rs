//! The count options of the head utility.

use vstd::prelude::*;
use crate::num::{integer_in, integer_value, read_integer_in};

verus! {

/// Parses a non-zero count that fits an `isize`; the error is the input
/// itself.
pub fn parse_positive_int(value: &str) -> (r: Result<isize, String>)
    ensures
        r is Ok <==> integer_in(value@, isize::MIN as int, isize::MAX as int) && integer_value(value@)
            != 0,
        r matches Ok(v) ==> v == integer_value(value@),
        r matches Err(e) ==> e@ == value@,
{
    match read_integer_in(value, isize::MIN as i128, isize::MAX as i128) {
        Some(v) => {
            if v != 0 {
                Ok(v as isize)
            } else {
                Err(String::from_str(value))
            }
        },
        None => Err(String::from_str(value)),
    }
}

} // verus!
