//! UTF-8 conversions for path fields carried inside wire records.

use vstd::prelude::*;
use vstd::string::StrSliceExecFns;
use vstd::utf8::{encode_utf8, valid_utf8};

verus! {

/// The UTF-8 bytes of a string.
pub fn string_bytes(s: &String) -> (r: Vec<u8>)
    ensures
        r@ == encode_utf8(s@),
{
    s.as_str().as_bytes_vec()
}

/// Relies on str::from_utf8: it returns a string exactly on valid UTF-8
/// input, and that string's bytes are the input.
#[verifier::external_body]
pub fn bytes_to_string(b: &Vec<u8>) -> (r: Option<String>)
    ensures
        match r {
            Some(s) => valid_utf8(b@) && encode_utf8(s@) == b@,
            None => !valid_utf8(b@),
        },
{
    match std::str::from_utf8(b.as_slice()) {
        Ok(s) => Some(s.to_string()),
        Err(_) => None,
    }
}

} // verus!
