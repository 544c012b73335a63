//! Codecs for the fixed-width scalar types: signed and unsigned integers of
//! 8 to 128 bits, `bool`, and `char`.
//!
//! Integers travel as big-endian two's-complement windows of their storage
//! width. A `bool` is one byte, `1` for true; on decode any byte other than
//! the true-sentinel `1` is read as false (this lenient policy is deliberate
//! and documented, not an accident of implementation). A `char` travels as
//! its Unicode scalar value in a 32-bit unsigned window, and decode rejects
//! 32-bit values that are not legal scalar values.

use crate::be::be_bytes;
use crate::be::be_value;
use crate::be::lemma_be_bytes_len;
use crate::be::lemma_be_round_trip;
use crate::be::lemma_pow256_vals;
use crate::be::lemma_to_unsigned_bound;
use crate::be::lemma_to_unsigned_injective;
use crate::be::signed_to_unsigned;
use crate::be::to_unsigned;
use crate::be::u128_from_be_prefix;
use crate::be::u128_to_be;
use crate::be::unsigned_to_signed;
use crate::codec::BytesConvertable;
use crate::codec::DecodeError;
use crate::codec::FixedWidthBytes;
use vstd::prelude::*;
use vstd::utf8::char_is_scalar;
use vstd::utf8::char_u32_cast;
use vstd::utf8::is_scalar;

verus! {

impl BytesConvertable for u8 {
    open spec fn spec_into_bytes(self) -> Seq<u8> {
        be_bytes(self as nat, 1)
    }

    open spec fn decode_spec(bytes: Seq<u8>, r: Result<Self, DecodeError>) -> bool {
        match r {
            Ok(v) => bytes.len() >= 1 && v as nat == be_value(bytes.take(1)),
            Err(e) => bytes.len() < 1 && e == DecodeError::TruncatedInput,
        }
    }

    open spec fn same(self, other: Self) -> bool {
        self == other
    }

    fn into_bytes(self) -> (r: Vec<u8>) {
        proof {
            lemma_pow256_vals();
        }
        u128_to_be(self as u128, 1)
    }

    fn from_bytes(bytes: Vec<u8>) -> (r: Result<Self, DecodeError>) {
        if bytes.len() < 1 {
            Err(DecodeError::TruncatedInput)
        } else {
            let x = u128_from_be_prefix(&bytes, 1);
            proof {
                lemma_pow256_vals();
            }
            Ok(x as u8)
        }
    }

    proof fn lemma_round_trip(self, r: Result<Self, DecodeError>) {
        lemma_pow256_vals();
        lemma_be_bytes_len(self as nat, 1);
        lemma_be_round_trip(self as nat, 1);
        assert(be_bytes(self as nat, 1).take(1) =~= be_bytes(self as nat, 1));
    }
}

impl FixedWidthBytes for u8 {
    open spec fn byte_width() -> nat {
        1
    }

    proof fn lemma_fixed_width(self) {
        lemma_be_bytes_len(self as nat, 1);
    }

    proof fn lemma_truncated(bytes: Seq<u8>, r: Result<Self, DecodeError>) {
    }
}

impl BytesConvertable for u16 {
    open spec fn spec_into_bytes(self) -> Seq<u8> {
        be_bytes(self as nat, 2)
    }

    open spec fn decode_spec(bytes: Seq<u8>, r: Result<Self, DecodeError>) -> bool {
        match r {
            Ok(v) => bytes.len() >= 2 && v as nat == be_value(bytes.take(2)),
            Err(e) => bytes.len() < 2 && e == DecodeError::TruncatedInput,
        }
    }

    open spec fn same(self, other: Self) -> bool {
        self == other
    }

    fn into_bytes(self) -> (r: Vec<u8>) {
        proof {
            lemma_pow256_vals();
        }
        u128_to_be(self as u128, 2)
    }

    fn from_bytes(bytes: Vec<u8>) -> (r: Result<Self, DecodeError>) {
        if bytes.len() < 2 {
            Err(DecodeError::TruncatedInput)
        } else {
            let x = u128_from_be_prefix(&bytes, 2);
            proof {
                lemma_pow256_vals();
            }
            Ok(x as u16)
        }
    }

    proof fn lemma_round_trip(self, r: Result<Self, DecodeError>) {
        lemma_pow256_vals();
        lemma_be_bytes_len(self as nat, 2);
        lemma_be_round_trip(self as nat, 2);
        assert(be_bytes(self as nat, 2).take(2) =~= be_bytes(self as nat, 2));
    }
}

impl FixedWidthBytes for u16 {
    open spec fn byte_width() -> nat {
        2
    }

    proof fn lemma_fixed_width(self) {
        lemma_be_bytes_len(self as nat, 2);
    }

    proof fn lemma_truncated(bytes: Seq<u8>, r: Result<Self, DecodeError>) {
    }
}

impl BytesConvertable for u32 {
    open spec fn spec_into_bytes(self) -> Seq<u8> {
        be_bytes(self as nat, 4)
    }

    open spec fn decode_spec(bytes: Seq<u8>, r: Result<Self, DecodeError>) -> bool {
        match r {
            Ok(v) => bytes.len() >= 4 && v as nat == be_value(bytes.take(4)),
            Err(e) => bytes.len() < 4 && e == DecodeError::TruncatedInput,
        }
    }

    open spec fn same(self, other: Self) -> bool {
        self == other
    }

    fn into_bytes(self) -> (r: Vec<u8>) {
        proof {
            lemma_pow256_vals();
        }
        u128_to_be(self as u128, 4)
    }

    fn from_bytes(bytes: Vec<u8>) -> (r: Result<Self, DecodeError>) {
        if bytes.len() < 4 {
            Err(DecodeError::TruncatedInput)
        } else {
            let x = u128_from_be_prefix(&bytes, 4);
            proof {
                lemma_pow256_vals();
            }
            Ok(x as u32)
        }
    }

    proof fn lemma_round_trip(self, r: Result<Self, DecodeError>) {
        lemma_pow256_vals();
        lemma_be_bytes_len(self as nat, 4);
        lemma_be_round_trip(self as nat, 4);
        assert(be_bytes(self as nat, 4).take(4) =~= be_bytes(self as nat, 4));
    }
}

impl FixedWidthBytes for u32 {
    open spec fn byte_width() -> nat {
        4
    }

    proof fn lemma_fixed_width(self) {
        lemma_be_bytes_len(self as nat, 4);
    }

    proof fn lemma_truncated(bytes: Seq<u8>, r: Result<Self, DecodeError>) {
    }
}

impl BytesConvertable for u64 {
    open spec fn spec_into_bytes(self) -> Seq<u8> {
        be_bytes(self as nat, 8)
    }

    open spec fn decode_spec(bytes: Seq<u8>, r: Result<Self, DecodeError>) -> bool {
        match r {
            Ok(v) => bytes.len() >= 8 && v as nat == be_value(bytes.take(8)),
            Err(e) => bytes.len() < 8 && e == DecodeError::TruncatedInput,
        }
    }

    open spec fn same(self, other: Self) -> bool {
        self == other
    }

    fn into_bytes(self) -> (r: Vec<u8>) {
        proof {
            lemma_pow256_vals();
        }
        u128_to_be(self as u128, 8)
    }

    fn from_bytes(bytes: Vec<u8>) -> (r: Result<Self, DecodeError>) {
        if bytes.len() < 8 {
            Err(DecodeError::TruncatedInput)
        } else {
            let x = u128_from_be_prefix(&bytes, 8);
            proof {
                lemma_pow256_vals();
            }
            Ok(x as u64)
        }
    }

    proof fn lemma_round_trip(self, r: Result<Self, DecodeError>) {
        lemma_pow256_vals();
        lemma_be_bytes_len(self as nat, 8);
        lemma_be_round_trip(self as nat, 8);
        assert(be_bytes(self as nat, 8).take(8) =~= be_bytes(self as nat, 8));
    }
}

impl FixedWidthBytes for u64 {
    open spec fn byte_width() -> nat {
        8
    }

    proof fn lemma_fixed_width(self) {
        lemma_be_bytes_len(self as nat, 8);
    }

    proof fn lemma_truncated(bytes: Seq<u8>, r: Result<Self, DecodeError>) {
    }
}

impl BytesConvertable for u128 {
    open spec fn spec_into_bytes(self) -> Seq<u8> {
        be_bytes(self as nat, 16)
    }

    open spec fn decode_spec(bytes: Seq<u8>, r: Result<Self, DecodeError>) -> bool {
        match r {
            Ok(v) => bytes.len() >= 16 && v as nat == be_value(bytes.take(16)),
            Err(e) => bytes.len() < 16 && e == DecodeError::TruncatedInput,
        }
    }

    open spec fn same(self, other: Self) -> bool {
        self == other
    }

    fn into_bytes(self) -> (r: Vec<u8>) {
        proof {
            lemma_pow256_vals();
        }
        u128_to_be(self, 16)
    }

    fn from_bytes(bytes: Vec<u8>) -> (r: Result<Self, DecodeError>) {
        if bytes.len() < 16 {
            Err(DecodeError::TruncatedInput)
        } else {
            let x = u128_from_be_prefix(&bytes, 16);
            Ok(x)
        }
    }

    proof fn lemma_round_trip(self, r: Result<Self, DecodeError>) {
        lemma_pow256_vals();
        lemma_be_bytes_len(self as nat, 16);
        lemma_be_round_trip(self as nat, 16);
        assert(be_bytes(self as nat, 16).take(16) =~= be_bytes(self as nat, 16));
    }
}

impl FixedWidthBytes for u128 {
    open spec fn byte_width() -> nat {
        16
    }

    proof fn lemma_fixed_width(self) {
        lemma_be_bytes_len(self as nat, 16);
    }

    proof fn lemma_truncated(bytes: Seq<u8>, r: Result<Self, DecodeError>) {
    }
}

impl BytesConvertable for i8 {
    open spec fn spec_into_bytes(self) -> Seq<u8> {
        be_bytes(to_unsigned(self as int, 1) as nat, 1)
    }

    open spec fn decode_spec(bytes: Seq<u8>, r: Result<Self, DecodeError>) -> bool {
        match r {
            Ok(v) => bytes.len() >= 1 && to_unsigned(v as int, 1) == be_value(bytes.take(1)),
            Err(e) => bytes.len() < 1 && e == DecodeError::TruncatedInput,
        }
    }

    open spec fn same(self, other: Self) -> bool {
        self == other
    }

    fn into_bytes(self) -> (r: Vec<u8>) {
        proof {
            lemma_pow256_vals();
        }
        let u = signed_to_unsigned(self as i128, 1);
        u128_to_be(u, 1)
    }

    fn from_bytes(bytes: Vec<u8>) -> (r: Result<Self, DecodeError>) {
        if bytes.len() < 1 {
            Err(DecodeError::TruncatedInput)
        } else {
            proof {
                lemma_pow256_vals();
            }
            let x = u128_from_be_prefix(&bytes, 1);
            let s = unsigned_to_signed(x, 1);
            Ok(s as i8)
        }
    }

    proof fn lemma_round_trip(self, r: Result<Self, DecodeError>) {
        lemma_pow256_vals();
        let tu = to_unsigned(self as int, 1);
        lemma_to_unsigned_bound(self as int, 1);
        lemma_be_bytes_len(tu as nat, 1);
        lemma_be_round_trip(tu as nat, 1);
        assert(be_bytes(tu as nat, 1).take(1) =~= be_bytes(tu as nat, 1));
        match r {
            Ok(v) => lemma_to_unsigned_injective(v as int, self as int, 1),
            Err(_) => (),
        }
    }
}

impl FixedWidthBytes for i8 {
    open spec fn byte_width() -> nat {
        1
    }

    proof fn lemma_fixed_width(self) {
        lemma_be_bytes_len(to_unsigned(self as int, 1) as nat, 1);
    }

    proof fn lemma_truncated(bytes: Seq<u8>, r: Result<Self, DecodeError>) {
    }
}

impl BytesConvertable for i16 {
    open spec fn spec_into_bytes(self) -> Seq<u8> {
        be_bytes(to_unsigned(self as int, 2) as nat, 2)
    }

    open spec fn decode_spec(bytes: Seq<u8>, r: Result<Self, DecodeError>) -> bool {
        match r {
            Ok(v) => bytes.len() >= 2 && to_unsigned(v as int, 2) == be_value(bytes.take(2)),
            Err(e) => bytes.len() < 2 && e == DecodeError::TruncatedInput,
        }
    }

    open spec fn same(self, other: Self) -> bool {
        self == other
    }

    fn into_bytes(self) -> (r: Vec<u8>) {
        proof {
            lemma_pow256_vals();
        }
        let u = signed_to_unsigned(self as i128, 2);
        u128_to_be(u, 2)
    }

    fn from_bytes(bytes: Vec<u8>) -> (r: Result<Self, DecodeError>) {
        if bytes.len() < 2 {
            Err(DecodeError::TruncatedInput)
        } else {
            proof {
                lemma_pow256_vals();
            }
            let x = u128_from_be_prefix(&bytes, 2);
            let s = unsigned_to_signed(x, 2);
            Ok(s as i16)
        }
    }

    proof fn lemma_round_trip(self, r: Result<Self, DecodeError>) {
        lemma_pow256_vals();
        let tu = to_unsigned(self as int, 2);
        lemma_to_unsigned_bound(self as int, 2);
        lemma_be_bytes_len(tu as nat, 2);
        lemma_be_round_trip(tu as nat, 2);
        assert(be_bytes(tu as nat, 2).take(2) =~= be_bytes(tu as nat, 2));
        match r {
            Ok(v) => lemma_to_unsigned_injective(v as int, self as int, 2),
            Err(_) => (),
        }
    }
}

impl FixedWidthBytes for i16 {
    open spec fn byte_width() -> nat {
        2
    }

    proof fn lemma_fixed_width(self) {
        lemma_be_bytes_len(to_unsigned(self as int, 2) as nat, 2);
    }

    proof fn lemma_truncated(bytes: Seq<u8>, r: Result<Self, DecodeError>) {
    }
}

impl BytesConvertable for i32 {
    open spec fn spec_into_bytes(self) -> Seq<u8> {
        be_bytes(to_unsigned(self as int, 4) as nat, 4)
    }

    open spec fn decode_spec(bytes: Seq<u8>, r: Result<Self, DecodeError>) -> bool {
        match r {
            Ok(v) => bytes.len() >= 4 && to_unsigned(v as int, 4) == be_value(bytes.take(4)),
            Err(e) => bytes.len() < 4 && e == DecodeError::TruncatedInput,
        }
    }

    open spec fn same(self, other: Self) -> bool {
        self == other
    }

    fn into_bytes(self) -> (r: Vec<u8>) {
        proof {
            lemma_pow256_vals();
        }
        let u = signed_to_unsigned(self as i128, 4);
        u128_to_be(u, 4)
    }

    fn from_bytes(bytes: Vec<u8>) -> (r: Result<Self, DecodeError>) {
        if bytes.len() < 4 {
            Err(DecodeError::TruncatedInput)
        } else {
            proof {
                lemma_pow256_vals();
            }
            let x = u128_from_be_prefix(&bytes, 4);
            let s = unsigned_to_signed(x, 4);
            Ok(s as i32)
        }
    }

    proof fn lemma_round_trip(self, r: Result<Self, DecodeError>) {
        lemma_pow256_vals();
        let tu = to_unsigned(self as int, 4);
        lemma_to_unsigned_bound(self as int, 4);
        lemma_be_bytes_len(tu as nat, 4);
        lemma_be_round_trip(tu as nat, 4);
        assert(be_bytes(tu as nat, 4).take(4) =~= be_bytes(tu as nat, 4));
        match r {
            Ok(v) => lemma_to_unsigned_injective(v as int, self as int, 4),
            Err(_) => (),
        }
    }
}

impl FixedWidthBytes for i32 {
    open spec fn byte_width() -> nat {
        4
    }

    proof fn lemma_fixed_width(self) {
        lemma_be_bytes_len(to_unsigned(self as int, 4) as nat, 4);
    }

    proof fn lemma_truncated(bytes: Seq<u8>, r: Result<Self, DecodeError>) {
    }
}

impl BytesConvertable for i64 {
    open spec fn spec_into_bytes(self) -> Seq<u8> {
        be_bytes(to_unsigned(self as int, 8) as nat, 8)
    }

    open spec fn decode_spec(bytes: Seq<u8>, r: Result<Self, DecodeError>) -> bool {
        match r {
            Ok(v) => bytes.len() >= 8 && to_unsigned(v as int, 8) == be_value(bytes.take(8)),
            Err(e) => bytes.len() < 8 && e == DecodeError::TruncatedInput,
        }
    }

    open spec fn same(self, other: Self) -> bool {
        self == other
    }

    fn into_bytes(self) -> (r: Vec<u8>) {
        proof {
            lemma_pow256_vals();
        }
        let u = signed_to_unsigned(self as i128, 8);
        u128_to_be(u, 8)
    }

    fn from_bytes(bytes: Vec<u8>) -> (r: Result<Self, DecodeError>) {
        if bytes.len() < 8 {
            Err(DecodeError::TruncatedInput)
        } else {
            proof {
                lemma_pow256_vals();
            }
            let x = u128_from_be_prefix(&bytes, 8);
            let s = unsigned_to_signed(x, 8);
            Ok(s as i64)
        }
    }

    proof fn lemma_round_trip(self, r: Result<Self, DecodeError>) {
        lemma_pow256_vals();
        let tu = to_unsigned(self as int, 8);
        lemma_to_unsigned_bound(self as int, 8);
        lemma_be_bytes_len(tu as nat, 8);
        lemma_be_round_trip(tu as nat, 8);
        assert(be_bytes(tu as nat, 8).take(8) =~= be_bytes(tu as nat, 8));
        match r {
            Ok(v) => lemma_to_unsigned_injective(v as int, self as int, 8),
            Err(_) => (),
        }
    }
}

impl FixedWidthBytes for i64 {
    open spec fn byte_width() -> nat {
        8
    }

    proof fn lemma_fixed_width(self) {
        lemma_be_bytes_len(to_unsigned(self as int, 8) as nat, 8);
    }

    proof fn lemma_truncated(bytes: Seq<u8>, r: Result<Self, DecodeError>) {
    }
}

impl BytesConvertable for i128 {
    open spec fn spec_into_bytes(self) -> Seq<u8> {
        be_bytes(to_unsigned(self as int, 16) as nat, 16)
    }

    open spec fn decode_spec(bytes: Seq<u8>, r: Result<Self, DecodeError>) -> bool {
        match r {
            Ok(v) => bytes.len() >= 16 && to_unsigned(v as int, 16) == be_value(bytes.take(16)),
            Err(e) => bytes.len() < 16 && e == DecodeError::TruncatedInput,
        }
    }

    open spec fn same(self, other: Self) -> bool {
        self == other
    }

    fn into_bytes(self) -> (r: Vec<u8>) {
        proof {
            lemma_pow256_vals();
        }
        let u = signed_to_unsigned(self, 16);
        u128_to_be(u, 16)
    }

    fn from_bytes(bytes: Vec<u8>) -> (r: Result<Self, DecodeError>) {
        if bytes.len() < 16 {
            Err(DecodeError::TruncatedInput)
        } else {
            proof {
                lemma_pow256_vals();
            }
            let x = u128_from_be_prefix(&bytes, 16);
            let s = unsigned_to_signed(x, 16);
            Ok(s)
        }
    }

    proof fn lemma_round_trip(self, r: Result<Self, DecodeError>) {
        lemma_pow256_vals();
        let tu = to_unsigned(self as int, 16);
        lemma_to_unsigned_bound(self as int, 16);
        lemma_be_bytes_len(tu as nat, 16);
        lemma_be_round_trip(tu as nat, 16);
        assert(be_bytes(tu as nat, 16).take(16) =~= be_bytes(tu as nat, 16));
        match r {
            Ok(v) => lemma_to_unsigned_injective(v as int, self as int, 16),
            Err(_) => (),
        }
    }
}

impl FixedWidthBytes for i128 {
    open spec fn byte_width() -> nat {
        16
    }

    proof fn lemma_fixed_width(self) {
        lemma_be_bytes_len(to_unsigned(self as int, 16) as nat, 16);
    }

    proof fn lemma_truncated(bytes: Seq<u8>, r: Result<Self, DecodeError>) {
    }
}

/// A `bool` travels as one byte: `1` for true, `0` for false. Decode reads
/// the first byte and treats any value other than the true-sentinel `1` as
/// false; malformed boolean payloads are accepted under this policy rather
/// than rejected.
impl BytesConvertable for bool {
    open spec fn spec_into_bytes(self) -> Seq<u8> {
        if self {
            seq![1u8]
        } else {
            seq![0u8]
        }
    }

    open spec fn decode_spec(bytes: Seq<u8>, r: Result<Self, DecodeError>) -> bool {
        match r {
            Ok(v) => bytes.len() >= 1 && v == (bytes[0] == 1),
            Err(e) => bytes.len() == 0 && e == DecodeError::TruncatedInput,
        }
    }

    open spec fn same(self, other: Self) -> bool {
        self == other
    }

    fn into_bytes(self) -> (r: Vec<u8>) {
        let mut r: Vec<u8> = Vec::new();
        if self {
            r.push(1u8);
        } else {
            r.push(0u8);
        }
        proof {
            assert(r@ =~= self.spec_into_bytes());
        }
        r
    }

    fn from_bytes(bytes: Vec<u8>) -> (r: Result<Self, DecodeError>) {
        if bytes.len() == 0 {
            Err(DecodeError::TruncatedInput)
        } else {
            Ok(bytes[0] == 1)
        }
    }

    proof fn lemma_round_trip(self, r: Result<Self, DecodeError>) {
    }
}

impl FixedWidthBytes for bool {
    open spec fn byte_width() -> nat {
        1
    }

    proof fn lemma_fixed_width(self) {
    }

    proof fn lemma_truncated(bytes: Seq<u8>, r: Result<Self, DecodeError>) {
    }
}

/// A 32-bit value read from the wire is a legal `char` payload exactly when
/// it is a Unicode scalar value.
pub open spec fn is_scalar_value(v: nat) -> bool {
    v < 0x1_0000_0000 && is_scalar(v as u32)
}

/// Relies on `char::from_u32`: returns `Some` exactly on Unicode scalar
/// values, and the resulting `char` has the given scalar value.
pub assume_specification[ char::from_u32 ](i: u32) -> (r: Option<char>)
    ensures
        r is Some <==> is_scalar(i),
        (match r {
            Some(c) => c as u32 == i,
            None => true,
        }),
;

/// A `char` travels as its Unicode scalar value in a 4-byte big-endian
/// window. Decode validates that the 32-bit value is a legal scalar value
/// (surrogates and out-of-range values are rejected).
impl BytesConvertable for char {
    open spec fn spec_into_bytes(self) -> Seq<u8> {
        be_bytes((self as u32) as nat, 4)
    }

    open spec fn decode_spec(bytes: Seq<u8>, r: Result<Self, DecodeError>) -> bool {
        match r {
            Ok(c) => bytes.len() >= 4 && (c as u32) as nat == be_value(bytes.take(4)),
            Err(e) => (bytes.len() < 4 && e == DecodeError::TruncatedInput) || (bytes.len() >= 4
                && !is_scalar_value(be_value(bytes.take(4))) && e == DecodeError::InvalidScalar),
        }
    }

    open spec fn same(self, other: Self) -> bool {
        self == other
    }

    fn into_bytes(self) -> (r: Vec<u8>) {
        proof {
            lemma_pow256_vals();
        }
        let u: u32 = self as u32;
        u128_to_be(u as u128, 4)
    }

    fn from_bytes(bytes: Vec<u8>) -> (r: Result<Self, DecodeError>) {
        if bytes.len() < 4 {
            Err(DecodeError::TruncatedInput)
        } else {
            proof {
                lemma_pow256_vals();
            }
            let x = u128_from_be_prefix(&bytes, 4);
            let u: u32 = x as u32;
            match char::from_u32(u) {
                Some(c) => Ok(c),
                None => Err(DecodeError::InvalidScalar),
            }
        }
    }

    proof fn lemma_round_trip(self, r: Result<Self, DecodeError>) {
        lemma_pow256_vals();
        let u = (self as u32) as nat;
        lemma_be_bytes_len(u, 4);
        lemma_be_round_trip(u, 4);
        assert(be_bytes(u, 4).take(4) =~= be_bytes(u, 4));
        match r {
            Ok(c) => {
                char_u32_cast(c, c as u32);
                char_u32_cast(self, self as u32);
            },
            Err(_) => {
                char_is_scalar(self);
            },
        }
    }
}

impl FixedWidthBytes for char {
    open spec fn byte_width() -> nat {
        4
    }

    proof fn lemma_fixed_width(self) {
        lemma_be_bytes_len((self as u32) as nat, 4);
    }

    proof fn lemma_truncated(bytes: Seq<u8>, r: Result<Self, DecodeError>) {
    }
}

} // verus!
