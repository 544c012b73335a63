//! Codec for text.
//!
//! Text travels as its raw UTF-8 bytes, with no length prefix: the byte
//! sequence for text is its content, and framing is the caller's concern.
//! Decode validates the whole input as UTF-8 and rejects anything else.

use crate::codec::BytesConvertable;
use crate::codec::DecodeError;
use vstd::prelude::*;
use vstd::slice::slice_to_vec;
use vstd::utf8::decode_utf8;
use vstd::utf8::encode_utf8;
use vstd::utf8::encode_utf8_decode_utf8;
use vstd::utf8::encode_utf8_valid_utf8;
use vstd::utf8::valid_utf8;

verus! {

/// Relies on `String::from_utf8`: succeeds exactly on valid UTF-8 input,
/// returning the text whose UTF-8 form is that input.
#[verifier::external_body]
fn string_from_utf8(bytes: Vec<u8>) -> (r: Option<String>)
    ensures
        r is Some <==> valid_utf8(bytes@),
        (match r {
            Some(s) => s@ == decode_utf8(bytes@),
            None => true,
        }),
{
    match String::from_utf8(bytes) {
        Ok(s) => Some(s),
        Err(_) => None,
    }
}

/// Text encodes to its UTF-8 bytes and decodes from exactly the valid UTF-8
/// inputs; anything else is rejected with a malformed-text error.
impl BytesConvertable for String {
    open spec fn spec_into_bytes(self) -> Seq<u8> {
        encode_utf8(self@)
    }

    open spec fn decode_spec(bytes: Seq<u8>, r: Result<Self, DecodeError>) -> bool {
        match r {
            Ok(s) => valid_utf8(bytes) && s@ == decode_utf8(bytes),
            Err(e) => !valid_utf8(bytes) && e == DecodeError::MalformedText,
        }
    }

    open spec fn same(self, other: Self) -> bool {
        self@ == other@
    }

    fn into_bytes(self) -> (r: Vec<u8>) {
        let b: &[u8] = self.as_str().as_bytes();
        slice_to_vec(b)
    }

    fn from_bytes(bytes: Vec<u8>) -> (r: Result<Self, DecodeError>) {
        match string_from_utf8(bytes) {
            Some(s) => Ok(s),
            None => Err(DecodeError::MalformedText),
        }
    }

    proof fn lemma_round_trip(self, r: Result<Self, DecodeError>) {
        encode_utf8_valid_utf8(self@);
        encode_utf8_decode_utf8(self@);
    }
}

} // verus!
