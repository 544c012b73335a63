//! Codecs for homogeneous vectors of the fixed-width scalar types.
//!
//! Numeric element types share the generic window layout of `words`. Three
//! element types are special, as the layout rules demand: byte vectors are
//! the identity fast path (no windowing, no copy of the layout logic),
//! boolean vectors reuse the one-byte sentinel convention element-wise, and
//! character vectors are the `u32` vector codec composed with the scalar
//! validation of `char`.

use crate::be::be_value;
use crate::be::lemma_be_round_trip;
use crate::be::lemma_pow256_vals;
use crate::be::pow256;
use crate::codec::BytesConvertable;
use crate::codec::DecodeError;
use crate::scalars::is_scalar_value;
use crate::words::concat_words;
use crate::words::decode_elems;
use crate::words::decode_words;
use crate::words::encode_elems;
use crate::words::encode_words;
use crate::words::lemma_concat_words_len;
use crate::words::lemma_concat_words_window;
use crate::words::lemma_vec_round_trip;
use crate::words::vec_enc;
use crate::words::vec_decode_spec;
use vstd::arithmetic::div_mod::lemma_fundamental_div_mod_converse;
use vstd::prelude::*;
use vstd::utf8::char_is_scalar;
use vstd::utf8::char_u32_cast;

verus! {

impl BytesConvertable for Vec<u16> {
    open spec fn spec_into_bytes(self) -> Seq<u8> {
        vec_enc(self@)
    }

    open spec fn decode_spec(bytes: Seq<u8>, r: Result<Self, DecodeError>) -> bool {
        vec_decode_spec(bytes, r)
    }

    open spec fn same(self, other: Self) -> bool {
        self@ == other@
    }

    fn into_bytes(self) -> (r: Vec<u8>) {
        encode_elems(self)
    }

    fn from_bytes(bytes: Vec<u8>) -> (r: Result<Self, DecodeError>) {
        Ok(decode_elems(&bytes))
    }

    proof fn lemma_round_trip(self, r: Result<Self, DecodeError>) {
        lemma_vec_round_trip(self, r);
    }
}

impl BytesConvertable for Vec<u32> {
    open spec fn spec_into_bytes(self) -> Seq<u8> {
        vec_enc(self@)
    }

    open spec fn decode_spec(bytes: Seq<u8>, r: Result<Self, DecodeError>) -> bool {
        vec_decode_spec(bytes, r)
    }

    open spec fn same(self, other: Self) -> bool {
        self@ == other@
    }

    fn into_bytes(self) -> (r: Vec<u8>) {
        encode_elems(self)
    }

    fn from_bytes(bytes: Vec<u8>) -> (r: Result<Self, DecodeError>) {
        Ok(decode_elems(&bytes))
    }

    proof fn lemma_round_trip(self, r: Result<Self, DecodeError>) {
        lemma_vec_round_trip(self, r);
    }
}

impl BytesConvertable for Vec<u64> {
    open spec fn spec_into_bytes(self) -> Seq<u8> {
        vec_enc(self@)
    }

    open spec fn decode_spec(bytes: Seq<u8>, r: Result<Self, DecodeError>) -> bool {
        vec_decode_spec(bytes, r)
    }

    open spec fn same(self, other: Self) -> bool {
        self@ == other@
    }

    fn into_bytes(self) -> (r: Vec<u8>) {
        encode_elems(self)
    }

    fn from_bytes(bytes: Vec<u8>) -> (r: Result<Self, DecodeError>) {
        Ok(decode_elems(&bytes))
    }

    proof fn lemma_round_trip(self, r: Result<Self, DecodeError>) {
        lemma_vec_round_trip(self, r);
    }
}

impl BytesConvertable for Vec<u128> {
    open spec fn spec_into_bytes(self) -> Seq<u8> {
        vec_enc(self@)
    }

    open spec fn decode_spec(bytes: Seq<u8>, r: Result<Self, DecodeError>) -> bool {
        vec_decode_spec(bytes, r)
    }

    open spec fn same(self, other: Self) -> bool {
        self@ == other@
    }

    fn into_bytes(self) -> (r: Vec<u8>) {
        encode_elems(self)
    }

    fn from_bytes(bytes: Vec<u8>) -> (r: Result<Self, DecodeError>) {
        Ok(decode_elems(&bytes))
    }

    proof fn lemma_round_trip(self, r: Result<Self, DecodeError>) {
        lemma_vec_round_trip(self, r);
    }
}

impl BytesConvertable for Vec<i8> {
    open spec fn spec_into_bytes(self) -> Seq<u8> {
        vec_enc(self@)
    }

    open spec fn decode_spec(bytes: Seq<u8>, r: Result<Self, DecodeError>) -> bool {
        vec_decode_spec(bytes, r)
    }

    open spec fn same(self, other: Self) -> bool {
        self@ == other@
    }

    fn into_bytes(self) -> (r: Vec<u8>) {
        encode_elems(self)
    }

    fn from_bytes(bytes: Vec<u8>) -> (r: Result<Self, DecodeError>) {
        Ok(decode_elems(&bytes))
    }

    proof fn lemma_round_trip(self, r: Result<Self, DecodeError>) {
        lemma_vec_round_trip(self, r);
    }
}

impl BytesConvertable for Vec<i16> {
    open spec fn spec_into_bytes(self) -> Seq<u8> {
        vec_enc(self@)
    }

    open spec fn decode_spec(bytes: Seq<u8>, r: Result<Self, DecodeError>) -> bool {
        vec_decode_spec(bytes, r)
    }

    open spec fn same(self, other: Self) -> bool {
        self@ == other@
    }

    fn into_bytes(self) -> (r: Vec<u8>) {
        encode_elems(self)
    }

    fn from_bytes(bytes: Vec<u8>) -> (r: Result<Self, DecodeError>) {
        Ok(decode_elems(&bytes))
    }

    proof fn lemma_round_trip(self, r: Result<Self, DecodeError>) {
        lemma_vec_round_trip(self, r);
    }
}

impl BytesConvertable for Vec<i32> {
    open spec fn spec_into_bytes(self) -> Seq<u8> {
        vec_enc(self@)
    }

    open spec fn decode_spec(bytes: Seq<u8>, r: Result<Self, DecodeError>) -> bool {
        vec_decode_spec(bytes, r)
    }

    open spec fn same(self, other: Self) -> bool {
        self@ == other@
    }

    fn into_bytes(self) -> (r: Vec<u8>) {
        encode_elems(self)
    }

    fn from_bytes(bytes: Vec<u8>) -> (r: Result<Self, DecodeError>) {
        Ok(decode_elems(&bytes))
    }

    proof fn lemma_round_trip(self, r: Result<Self, DecodeError>) {
        lemma_vec_round_trip(self, r);
    }
}

impl BytesConvertable for Vec<i64> {
    open spec fn spec_into_bytes(self) -> Seq<u8> {
        vec_enc(self@)
    }

    open spec fn decode_spec(bytes: Seq<u8>, r: Result<Self, DecodeError>) -> bool {
        vec_decode_spec(bytes, r)
    }

    open spec fn same(self, other: Self) -> bool {
        self@ == other@
    }

    fn into_bytes(self) -> (r: Vec<u8>) {
        encode_elems(self)
    }

    fn from_bytes(bytes: Vec<u8>) -> (r: Result<Self, DecodeError>) {
        Ok(decode_elems(&bytes))
    }

    proof fn lemma_round_trip(self, r: Result<Self, DecodeError>) {
        lemma_vec_round_trip(self, r);
    }
}

impl BytesConvertable for Vec<i128> {
    open spec fn spec_into_bytes(self) -> Seq<u8> {
        vec_enc(self@)
    }

    open spec fn decode_spec(bytes: Seq<u8>, r: Result<Self, DecodeError>) -> bool {
        vec_decode_spec(bytes, r)
    }

    open spec fn same(self, other: Self) -> bool {
        self@ == other@
    }

    fn into_bytes(self) -> (r: Vec<u8>) {
        encode_elems(self)
    }

    fn from_bytes(bytes: Vec<u8>) -> (r: Result<Self, DecodeError>) {
        Ok(decode_elems(&bytes))
    }

    proof fn lemma_round_trip(self, r: Result<Self, DecodeError>) {
        lemma_vec_round_trip(self, r);
    }
}

/// The byte-vector fast path: the wire form of a byte vector is the vector
/// itself, so encode and decode are the identity and never copy or window.
impl BytesConvertable for Vec<u8> {
    open spec fn spec_into_bytes(self) -> Seq<u8> {
        self@
    }

    open spec fn decode_spec(bytes: Seq<u8>, r: Result<Self, DecodeError>) -> bool {
        match r {
            Ok(v) => v@ == bytes,
            Err(_) => false,
        }
    }

    open spec fn same(self, other: Self) -> bool {
        self@ == other@
    }

    fn into_bytes(self) -> (r: Vec<u8>) {
        self
    }

    fn from_bytes(bytes: Vec<u8>) -> (r: Result<Self, DecodeError>) {
        Ok(bytes)
    }

    proof fn lemma_round_trip(self, r: Result<Self, DecodeError>) {
    }
}

/// A boolean vector uses the one-byte sentinel convention element-wise:
/// byte `i` is `1` when element `i` is true. Decode reads every byte, and a
/// byte other than the true-sentinel `1` reads as false.
impl BytesConvertable for Vec<bool> {
    open spec fn spec_into_bytes(self) -> Seq<u8> {
        self@.map_values(|b: bool| if b { 1u8 } else { 0u8 })
    }

    open spec fn decode_spec(bytes: Seq<u8>, r: Result<Self, DecodeError>) -> bool {
        match r {
            Ok(v) => v@.len() == bytes.len() && (forall|i: int|
                0 <= i < v@.len() ==> #[trigger] v@[i] == (bytes[i] == 1)),
            Err(_) => false,
        }
    }

    open spec fn same(self, other: Self) -> bool {
        self@ == other@
    }

    fn into_bytes(self) -> (r: Vec<u8>) {
        let n: usize = self.len();
        let mut r: Vec<u8> = Vec::new();
        let mut i: usize = 0;
        while i < n
            invariant
                i <= n == self@.len(),
                r@.len() == i,
                forall|j: int| 0 <= j < i ==> #[trigger] r@[j] == (if self@[j] { 1u8 } else { 0u8 }),
            decreases n - i,
        {
            if self[i] {
                r.push(1u8);
            } else {
                r.push(0u8);
            }
            i = i + 1;
        }
        proof {
            assert(r@ =~= self@.map_values(|b: bool| if b { 1u8 } else { 0u8 }));
        }
        r
    }

    fn from_bytes(bytes: Vec<u8>) -> (r: Result<Self, DecodeError>) {
        let n: usize = bytes.len();
        let mut out: Vec<bool> = Vec::new();
        let mut i: usize = 0;
        while i < n
            invariant
                i <= n == bytes@.len(),
                out@.len() == i,
                forall|j: int| 0 <= j < i ==> #[trigger] out@[j] == (bytes@[j] == 1),
            decreases n - i,
        {
            out.push(bytes[i] == 1);
            i = i + 1;
        }
        Ok(out)
    }

    proof fn lemma_round_trip(self, r: Result<Self, DecodeError>) {
        match r {
            Ok(v) => {
                assert(v@ =~= self@);
            },
            Err(_) => {},
        }
    }
}

/// A character vector is the `u32` vector codec applied to the elements'
/// Unicode scalar values. Decode validates each 32-bit window and rejects
/// the input if any window is not a legal scalar value.
impl BytesConvertable for Vec<char> {
    open spec fn spec_into_bytes(self) -> Seq<u8> {
        concat_words(self@.map_values(|c: char| (c as u32) as u128), 4)
    }

    open spec fn decode_spec(bytes: Seq<u8>, r: Result<Self, DecodeError>) -> bool {
        match r {
            Ok(v) => v@.len() == bytes.len() as int / 4 && (forall|i: int|
                0 <= i < v@.len() ==> ((#[trigger] v@[i] as u32) as nat) == be_value(
                    bytes.subrange(i * 4, i * 4 + 4),
                )),
            Err(e) => e == DecodeError::InvalidScalar && (exists|i: int|
                0 <= i < bytes.len() as int / 4 && !is_scalar_value(
                    be_value(#[trigger] bytes.subrange(i * 4, i * 4 + 4)),
                )),
        }
    }

    open spec fn same(self, other: Self) -> bool {
        self@ == other@
    }

    fn into_bytes(self) -> (r: Vec<u8>) {
        let n: usize = self.len();
        let mut words: Vec<u128> = Vec::new();
        let mut i: usize = 0;
        while i < n
            invariant
                i <= n == self@.len(),
                words@.len() == i,
                forall|j: int| 0 <= j < i ==> #[trigger] words@[j] == (self@[j] as u32) as u128,
            decreases n - i,
        {
            let c: char = self[i];
            words.push((c as u32) as u128);
            i = i + 1;
        }
        proof {
            lemma_pow256_vals();
            assert(words@ =~= self@.map_values(|c: char| (c as u32) as u128));
        }
        encode_words(&words, 4)
    }

    fn from_bytes(bytes: Vec<u8>) -> (r: Result<Self, DecodeError>) {
        proof {
            lemma_pow256_vals();
        }
        let words = decode_words(&bytes, 4);
        let n: usize = words.len();
        let mut out: Vec<char> = Vec::new();
        let mut i: usize = 0;
        while i < n
            invariant
                i <= n == words@.len(),
                n == bytes@.len() as int / 4,
                forall|j: int|
                    0 <= j < n ==> (#[trigger] words@[j] as nat) == be_value(
                        bytes@.subrange(j * 4, j * 4 + 4),
                    ),
                forall|j: int| 0 <= j < n ==> (#[trigger] words@[j] as nat) < pow256(4),
                pow256(4) == 0x1_0000_0000,
                out@.len() == i,
                forall|j: int|
                    0 <= j < i ==> ((#[trigger] out@[j] as u32) as u128) == words@[j],
            decreases n - i,
        {
            let u: u32 = words[i] as u32;
            match char::from_u32(u) {
                Some(c) => {
                    out.push(c);
                },
                None => {
                    proof {
                        assert(!is_scalar_value(be_value(bytes@.subrange(
                            i as int * 4,
                            i as int * 4 + 4,
                        ))));
                    }
                    return Err(DecodeError::InvalidScalar);
                },
            }
            i = i + 1;
        }
        Ok(out)
    }

    proof fn lemma_round_trip(self, r: Result<Self, DecodeError>) {
        lemma_pow256_vals();
        let ws = self@.map_values(|c: char| (c as u32) as u128);
        let enc = concat_words(ws, 4);
        lemma_concat_words_len(ws, 4);
        lemma_fundamental_div_mod_converse((ws.len() * 4) as int, 4, ws.len() as int, 0);
        match r {
            Ok(v) => {
                assert forall|i: int| 0 <= i < v@.len() implies v@[i] == self@[i] by {
                    lemma_concat_words_window(ws, 4, i);
                    lemma_be_round_trip(ws[i] as nat, 4);
                    char_u32_cast(v@[i], v@[i] as u32);
                    char_u32_cast(self@[i], self@[i] as u32);
                }
                assert(v@ =~= self@);
            },
            Err(_) => {
                let i = choose|i: int|
                    0 <= i < enc.len() as int / 4 && !is_scalar_value(
                        be_value(#[trigger] enc.subrange(i * 4, i * 4 + 4)),
                    );
                lemma_concat_words_window(ws, 4, i);
                lemma_be_round_trip(ws[i] as nat, 4);
                char_is_scalar(self@[i]);
            },
        }
    }
}

} // verus!
