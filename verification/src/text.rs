//! Text from bytes.

use vstd::prelude::*;
use vstd::utf8::encode_utf8;
use vstd::utf8::valid_utf8;

verus! {

/// `String::from_utf8` of the standard library. Trusted, not proved: where
/// the bytes are valid UTF-8 the result is the string that has exactly these
/// bytes as its encoding, and where they are not there is no result.
#[verifier::external_body]
pub(crate) fn string_from_utf8(bytes: Vec<u8>) -> (r: Option<String>)
    ensures
        match r {
            Some(s) => encode_utf8(s@) == bytes@,
            None => !valid_utf8(bytes@),
        },
{
    String::from_utf8(bytes).ok()
}

/// The text that `bytes` encode, where they encode one.
pub fn decode_text(bytes: Vec<u8>) -> (r: Option<String>)
    ensures
        match r {
            Some(s) => valid_utf8(bytes@) && s@ == vstd::utf8::decode_utf8(bytes@),
            None => !valid_utf8(bytes@),
        },
{
    let r = string_from_utf8(bytes);
    proof {
        if r is Some {
            vstd::utf8::encode_utf8_valid_utf8(r->0@);
            vstd::utf8::encode_utf8_decode_utf8(r->0@);
        }
    }
    r
}

} // verus!
