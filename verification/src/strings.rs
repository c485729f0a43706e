//! The one place the codec leans on the standard library's UTF-8
//! validation. Encoding a string's bytes is fully specified by vstd's
//! `encode_utf8`; only the validating constructor is taken on trust.

use vstd::prelude::*;

use vstd::utf8::{decode_utf8, encode_utf8, valid_utf8};

verus! {

/// Relies on `String::from_utf8`: it succeeds exactly on valid UTF-8,
/// and the returned string is the decoding of those bytes (its
/// `as_bytes` gives the input back unchanged).
#[verifier::external_body]
pub(crate) fn string_from_utf8(bytes: Vec<u8>) -> (r: Option<String>)
    ensures
        match r {
            Some(s) => valid_utf8(bytes@) && s@ == decode_utf8(bytes@),
            None => !valid_utf8(bytes@),
        },
{
    match String::from_utf8(bytes) {
        Ok(s) => Some(s),
        Err(_) => None,
    }
}

/// The byte length of a string's UTF-8 form.
pub fn str_byte_len(s: &str) -> (n: usize)
    ensures
        n == encode_utf8(s@).len(),
{
    s.as_bytes().len()
}

} // verus!
