//! Fortunes and the seed option of the fortune picker.

use vstd::prelude::*;
use crate::num::{integer_in, integer_value, is_negative_text, read_integer_in};

verus! {

/// One fortune: the file it came from and its text.
pub struct Fortune {
    pub source: String,
    pub text: String,
}

/// `s` between double quotes.
pub open spec fn quoted(s: Seq<char>) -> Seq<char> {
    seq!['"'] + s + seq!['"']
}

/// Parses an unsigned 64-bit integer (an optional `+`, then digits).
pub fn parse_u64(val: &str) -> (r: Result<u64, String>)
    ensures
        r is Ok <==> !is_negative_text(val@) && integer_in(val@, 0, u64::MAX as int),
        r matches Ok(v) ==> v == integer_value(val@),
        r matches Err(e) ==> e@ == quoted(val@) + " not a valid integer"@,
{
    let negative = val.unicode_len() > 0 && val.get_char(0) == '-';
    let parsed = if negative {
        None
    } else {
        read_integer_in(val, 0, 0xffff_ffff_ffff_ffffi128)
    };
    match parsed {
        Some(v) => Ok(v as u64),
        None => {
            proof {
                reveal_strlit("\"");
                reveal_strlit("\" not a valid integer");
                reveal_strlit(" not a valid integer");
            }
            let mut e = String::from_str("\"");
            e.append(val);
            e.append("\" not a valid integer");
            assert(e@ =~= quoted(val@) + " not a valid integer"@);
            Err(e)
        },
    }
}

} // verus!
