//! The codec contract: every supported type encodes to a byte sequence and
//! decodes back, and decoding an encoding recovers the original value.

use vstd::prelude::*;

verus! {

/// Why a `from_bytes` call rejected its input.
#[derive(Clone, Copy, Debug, PartialEq, Eq, Structural)]
pub enum DecodeError {
    /// Fewer bytes were supplied than the fixed-width type requires.
    TruncatedInput,
    /// The decoded 32-bit value is not a legal Unicode scalar value.
    InvalidScalar,
    /// The input is not valid UTF-8.
    MalformedText,
}

impl DecodeError {
    /// The description `message` returns for each variant.
    pub open spec fn spec_message(self) -> Seq<char> {
        match self {
            DecodeError::TruncatedInput => "truncated input"@,
            DecodeError::InvalidScalar => "invalid scalar"@,
            DecodeError::MalformedText => "malformed text"@,
        }
    }

    /// A short description naming the violated contract, for error reports.
    pub fn message(&self) -> (r: String)
        ensures
            r@ == self.spec_message(),
    {
        match self {
            DecodeError::TruncatedInput => "truncated input".to_owned(),
            DecodeError::InvalidScalar => "invalid scalar".to_owned(),
            DecodeError::MalformedText => "malformed text".to_owned(),
        }
    }
}

/// A type with a deterministic, reversible byte encoding.
///
/// `spec_into_bytes` is the wire form, a function of the value alone, so the
/// encoding is deterministic. `decode_spec` says exactly which result
/// `from_bytes` returns on each input, errors included. `lemma_round_trip`
/// is the reversibility law: on the encoding of `v`, decoding can only
/// return `Ok` with `v` itself.
pub trait BytesConvertable: Sized {
    /// The wire form of this value.
    spec fn spec_into_bytes(self) -> Seq<u8>;

    /// The exact result `from_bytes` returns on the given input.
    spec fn decode_spec(bytes: Seq<u8>, r: Result<Self, DecodeError>) -> bool;

    /// Logical equality of values: plain equality, or view equality for
    /// heap-backed types such as `String` and `Vec`.
    spec fn same(self, other: Self) -> bool;

    /// Serialize this value to its wire form.
    fn into_bytes(self) -> (r: Vec<u8>)
        ensures
            r@ == self.spec_into_bytes(),
    ;

    /// Deserialize a value from its wire form, or report exactly why the
    /// input is rejected.
    fn from_bytes(bytes: Vec<u8>) -> (r: Result<Self, DecodeError>)
        ensures
            Self::decode_spec(bytes@, r),
    ;

    /// Round-trip law: on the encoding of `self`, decoding succeeds and
    /// gives back `self`.
    proof fn lemma_round_trip(self, r: Result<Self, DecodeError>)
        requires
            Self::decode_spec(self.spec_into_bytes(), r),
        ensures
            (match r {
                Ok(v) => self.same(v),
                Err(_) => false,
            }),
    ;
}

/// A scalar type whose wire form has one constant width.
pub trait FixedWidthBytes: BytesConvertable {
    /// The byte width of this type's wire form.
    spec fn byte_width() -> nat;

    /// Fixed-width law: every encoding has exactly `byte_width` bytes.
    proof fn lemma_fixed_width(self)
        ensures
            self.spec_into_bytes().len() == Self::byte_width(),
    ;

    /// Truncation law: an input shorter than `byte_width` is rejected with
    /// a truncated-input error.
    proof fn lemma_truncated(bytes: Seq<u8>, r: Result<Self, DecodeError>)
        requires
            bytes.len() < Self::byte_width(),
            Self::decode_spec(bytes, r),
        ensures
            r == Err::<Self, DecodeError>(DecodeError::TruncatedInput),
    ;
}

/// The unit value encodes to the empty byte sequence, and any input decodes
/// back to it: there is nothing to read.
impl BytesConvertable for () {
    open spec fn spec_into_bytes(self) -> Seq<u8> {
        Seq::empty()
    }

    open spec fn decode_spec(bytes: Seq<u8>, r: Result<Self, DecodeError>) -> bool {
        r is Ok
    }

    open spec fn same(self, other: Self) -> bool {
        true
    }

    fn into_bytes(self) -> (r: Vec<u8>) {
        let r: Vec<u8> = Vec::new();
        assert(r@ =~= Seq::<u8>::empty());
        r
    }

    fn from_bytes(bytes: Vec<u8>) -> (r: Result<Self, DecodeError>) {
        Ok(())
    }

    proof fn lemma_round_trip(self, r: Result<Self, DecodeError>) {
    }
}

} // verus!
