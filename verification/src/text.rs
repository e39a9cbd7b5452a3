//! Text from bytes.

use vstd::prelude::*;
use vstd::string::StringSliceAdditionalSpecFns;
use vstd::utf8::valid_utf8;
use vstd::utf8::decode_utf8;
use vstd::utf8::encode_utf8_decode_utf8;
use crate::error::DecodeError;

verus! {

/// `core::str::from_utf8`: the bytes as a string slice. The contract claims
/// that it succeeds on exactly the byte strings that are valid UTF-8, and that
/// the slice it gives is made of the bytes it was given.
#[verifier::external_body]
fn from_utf8<'a>(bytes: &'a [u8]) -> (text: Option<&'a str>)
    ensures
        text is Some <==> valid_utf8(bytes@),
        text matches Some(s) ==> s.spec_bytes() == bytes@,
{
    match core::str::from_utf8(bytes) {
        Ok(s) => Some(s),
        Err(_) => None,
    }
}

/// What reading `bytes` as text gives: the characters that they encode, or
/// the error, where they are not valid UTF-8.
pub open spec fn spec_text(bytes: Seq<u8>) -> Result<Seq<char>, DecodeError> {
    if valid_utf8(bytes) {
        Ok(decode_utf8(bytes))
    } else {
        Err(DecodeError::StringEncodingError)
    }
}

/// Reads `bytes` as text.
pub fn text(bytes: &[u8]) -> (r: Result<String, DecodeError>)
    ensures
        match r {
            Ok(s) => spec_text(bytes@) == Ok::<Seq<char>, DecodeError>(s@),
            Err(e) => spec_text(bytes@) == Err::<Seq<char>, DecodeError>(e),
        },
{
    match from_utf8(bytes) {
        Some(s) => {
            proof {
                encode_utf8_decode_utf8(s@);
            }
            Ok(s.to_owned())
        },
        None => Err(DecodeError::StringEncodingError),
    }
}

} // verus!
