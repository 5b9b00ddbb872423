//! UTF-8 conversions between byte vectors and strings.
//!
//! The store keeps text as UTF-8 byte cells and the codec writes UTF-8
//! bytes on the wire; both sides convert through these two functions and
//! reason with vstd's UTF-8 model, whose encode/decode round-trip lemmas
//! close the loop.

use vstd::prelude::*;
use vstd::string::StrSliceExecFns;
use vstd::utf8::{decode_utf8, encode_utf8, valid_utf8};

verus! {

/// The UTF-8 encoding of `s`, as an owned byte vector.
pub fn str_to_bytes(s: &str) -> (r: Vec<u8>)
    ensures
        r@ == encode_utf8(s@),
{
    s.as_bytes_vec()
}

/// Relies on `String::from_utf8`: it returns the decoded string exactly
/// when the bytes are valid UTF-8, and rejects all other inputs.
#[verifier::external_body]
pub fn bytes_to_string(b: Vec<u8>) -> (r: Option<String>)
    ensures
        r is Some <==> valid_utf8(b@),
        r matches Some(s) ==> s@ == decode_utf8(b@),
{
    String::from_utf8(b).ok()
}

} // verus!
