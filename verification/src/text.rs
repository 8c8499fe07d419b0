//! Bytes as UTF-8 text.

use core::str::Utf8Error;
use vstd::prelude::*;
use vstd::string::StringSliceAdditionalSpecFns;
use vstd::utf8::{decode_utf8, encode_utf8_decode_utf8, valid_utf8};

use crate::error::ChunkError;

verus! {

/// `core::str::Utf8Error`, carried from the decoder to the place that turns
/// it into an error of this library.
#[verifier::external_type_specification]
#[verifier::external_body]
pub struct ExUtf8Error(Utf8Error);

/// Trusted, not proved: `core::str::from_utf8` accepts exactly the byte
/// sequences that are well-formed UTF-8, and the text it returns is made of
/// the very bytes it was given.
pub assume_specification[ core::str::from_utf8 ](bytes: &[u8]) -> (text: Result<&str, Utf8Error>)
    ensures
        text is Ok <==> valid_utf8(bytes@),
        text matches Ok(s) ==> s.spec_bytes() == bytes@,
;

/// What `bytes` read as UTF-8 text: the characters they encode, or
/// `EncodingError` where they are not well-formed UTF-8.
pub open spec fn text_of(bytes: Seq<u8>) -> Result<Seq<char>, ChunkError> {
    if valid_utf8(bytes) {
        Ok(decode_utf8(bytes))
    } else {
        Err(ChunkError::EncodingError)
    }
}

/// Decodes `bytes` as UTF-8 into an owned string.
pub fn decode_text(bytes: &[u8]) -> (text: Result<String, ChunkError>)
    ensures
        text matches Ok(s) ==> text_of(bytes@) == Ok::<Seq<char>, ChunkError>(s@),
        text matches Err(e) ==> text_of(bytes@) == Err::<Seq<char>, ChunkError>(e),
{
    match core::str::from_utf8(bytes) {
        Ok(s) => {
            proof {
                encode_utf8_decode_utf8(s@);
            }
            Ok(s.to_owned())
        },
        Err(_) => Err(ChunkError::EncodingError),
    }
}

} // verus!
