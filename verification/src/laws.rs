//! Cross-cutting laws of the codec catalog.
//!
//! The round-trip law is `BytesConvertable::lemma_round_trip`, and the
//! fixed-width and truncation laws are `FixedWidthBytes::lemma_fixed_width`
//! and `FixedWidthBytes::lemma_truncated`, each proved per type. The laws
//! here hold across types or concern one codec's failure behaviour.

use crate::be::be_value;
use crate::codec::BytesConvertable;
use crate::codec::DecodeError;
use vstd::prelude::*;
use vstd::utf8::char_is_scalar;
use vstd::utf8::valid_utf8;

verus! {

/// Determinism law: the wire form is a function of the value alone, so two
/// encodings of one value are the same byte sequence, on any host.
pub proof fn lemma_encode_deterministic<T: BytesConvertable>(v: T, b1: Seq<u8>, b2: Seq<u8>)
    requires
        b1 == v.spec_into_bytes(),
        b2 == v.spec_into_bytes(),
    ensures
        b1 == b2,
{
}

/// Malformed-text law: decoding input that is not valid UTF-8 as text fails
/// with exactly the malformed-text error.
pub proof fn lemma_text_rejects_invalid_utf8(bytes: Seq<u8>, r: Result<String, DecodeError>)
    requires
        !valid_utf8(bytes),
        <String as BytesConvertable>::decode_spec(bytes, r),
    ensures
        r == Err::<String, DecodeError>(DecodeError::MalformedText),
{
}

/// Surrogate-rejection law: a 4-byte window carrying a UTF-16 surrogate
/// code point (0xD800 through 0xDFFF, illegal as a Unicode scalar value)
/// decodes as a `char` to exactly the invalid-scalar error.
pub proof fn lemma_char_rejects_surrogate(bytes: Seq<u8>, r: Result<char, DecodeError>)
    requires
        bytes.len() >= 4,
        0xD800 <= be_value(bytes.take(4)) <= 0xDFFF,
        <char as BytesConvertable>::decode_spec(bytes, r),
    ensures
        r == Err::<char, DecodeError>(DecodeError::InvalidScalar),
{
    match r {
        Ok(c) => {
            char_is_scalar(c);
        },
        Err(_) => {},
    }
}

} // verus!
