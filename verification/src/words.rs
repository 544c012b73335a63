//! The generic vector layout: a vector of fixed-width scalars travels as the
//! concatenation of its elements' windows, in order, with no separators and
//! no length prefix. The element count is implicit in
//! `total length / element width`; a trailing partial window is dropped.
//!
//! `WordCodec` maps each supported element type onto the unsigned word its
//! window carries, so one encoder and one decoder serve every width.

use crate::be::be_bytes;
use crate::be::be_value;
use crate::be::lemma_be_bytes_len;
use crate::be::lemma_be_round_trip;
use crate::be::lemma_be_value_bound;
use crate::be::lemma_pow256_vals;
use crate::be::lemma_to_unsigned_bound;
use crate::be::lemma_to_unsigned_injective;
use crate::be::pow256;
use crate::be::signed_to_unsigned;
use crate::be::to_unsigned;
use crate::be::u128_from_be;
use crate::be::u128_to_be;
use crate::be::unsigned_to_signed;
use crate::codec::DecodeError;
use vstd::arithmetic::div_mod::lemma_fundamental_div_mod;
use vstd::arithmetic::div_mod::lemma_fundamental_div_mod_converse;
use vstd::arithmetic::div_mod::lemma_mod_division_less_than_divisor;
use vstd::prelude::*;

verus! {

/// The concatenated `w`-byte windows of the given words, in order.
pub open spec fn concat_words(vs: Seq<u128>, w: nat) -> Seq<u8>
    decreases vs.len(),
{
    if vs.len() == 0 {
        Seq::empty()
    } else {
        concat_words(vs.drop_last(), w) + be_bytes(vs.last() as nat, w)
    }
}

pub proof fn lemma_concat_words_len(vs: Seq<u128>, w: nat)
    ensures
        concat_words(vs, w).len() == vs.len() * w,
    decreases vs.len(),
{
    if vs.len() > 0 {
        lemma_concat_words_len(vs.drop_last(), w);
        lemma_be_bytes_len(vs.last() as nat, w);
        assert((vs.len() - 1) * w + w == vs.len() * w) by (nonlinear_arith);
    }
}

/// Window `i` of the concatenation is exactly element `i`'s window.
pub proof fn lemma_concat_words_window(vs: Seq<u128>, w: nat, i: int)
    requires
        0 <= i < vs.len(),
    ensures
        concat_words(vs, w).subrange(i * (w as int), i * (w as int) + (w as int)) == be_bytes(
            vs[i] as nat,
            w,
        ),
    decreases vs.len(),
{
    lemma_concat_words_len(vs, w);
    lemma_concat_words_len(vs.drop_last(), w);
    lemma_be_bytes_len(vs.last() as nat, w);
    if i == vs.len() - 1 {
        assert(i * (w as int) == (vs.len() - 1) * (w as int)) by (nonlinear_arith)
            requires
                i == vs.len() - 1,
        ;
        assert(concat_words(vs, w).subrange(i * (w as int), i * (w as int) + (w as int))
            =~= be_bytes(vs[i] as nat, w));
    } else {
        lemma_concat_words_window(vs.drop_last(), w, i);
        assert(i * (w as int) + (w as int) == (i + 1) * (w as int)) by (nonlinear_arith);
        assert((i + 1) * (w as int) <= (vs.len() - 1) * (w as int)) by (nonlinear_arith)
            requires
                i + 1 <= vs.len() - 1,
                0 <= w as int,
        ;
        assert(concat_words(vs, w).subrange(i * (w as int), i * (w as int) + (w as int))
            =~= concat_words(vs.drop_last(), w).subrange(
            i * (w as int),
            i * (w as int) + (w as int),
        ));
    }
}

/// Encodes each word into the next `w`-byte window of a fresh buffer.
pub fn encode_words(vals: &Vec<u128>, w: usize) -> (r: Vec<u8>)
    requires
        1 <= w <= 16,
        forall|i: int| 0 <= i < vals@.len() ==> (#[trigger] vals@[i] as nat) < pow256(w as nat),
    ensures
        r@ == concat_words(vals@, w as nat),
{
    let n: usize = vals.len();
    let mut r: Vec<u8> = Vec::new();
    let mut i: usize = 0;
    proof {
        assert(vals@.take(0) =~= Seq::<u128>::empty());
    }
    while i < n
        invariant
            i <= n == vals@.len(),
            1 <= w <= 16,
            forall|j: int| 0 <= j < vals@.len() ==> (#[trigger] vals@[j] as nat) < pow256(w as nat),
            r@ == concat_words(vals@.take(i as int), w as nat),
        decreases n - i,
    {
        let mut b = u128_to_be(vals[i], w);
        proof {
            let pre = vals@.take(i as int);
            let post = vals@.take(i as int + 1);
            assert(post.drop_last() =~= pre);
            assert(post.last() == vals@[i as int]);
            assert(concat_words(post, w as nat) == concat_words(pre, w as nat) + be_bytes(
                vals@[i as int] as nat,
                w as nat,
            ));
        }
        r.append(&mut b);
        i = i + 1;
    }
    proof {
        assert(vals@.take(n as int) =~= vals@);
    }
    r
}

/// Splits the input into `w`-byte windows and reads each as one word.
/// A trailing partial window of fewer than `w` bytes is dropped.
pub fn decode_words(bytes: &Vec<u8>, w: usize) -> (r: Vec<u128>)
    requires
        1 <= w <= 16,
    ensures
        r@.len() == bytes@.len() as int / w as int,
        forall|i: int|
            0 <= i < r@.len() ==> (#[trigger] r@[i] as nat) == be_value(
                bytes@.subrange(i * (w as int), i * (w as int) + (w as int)),
            ),
        forall|i: int| 0 <= i < r@.len() ==> (#[trigger] r@[i] as nat) < pow256(w as nat),
{
    let len: usize = bytes.len();
    let n: usize = len / w;
    proof {
        lemma_fundamental_div_mod(len as int, w as int);
        lemma_mod_division_less_than_divisor(len as int, w as int);
        assert((n as int) * (w as int) <= len as int) by (nonlinear_arith)
            requires
                len as int == (w as int) * (n as int) + (len as int % w as int),
                0 <= len as int % w as int,
        ;
    }
    let mut r: Vec<u128> = Vec::new();
    let mut i: usize = 0;
    while i < n
        invariant
            i <= n,
            1 <= w <= 16,
            len == bytes@.len(),
            n == len as int / w as int,
            (n as int) * (w as int) <= len as int,
            r@.len() == i,
            forall|j: int|
                0 <= j < i ==> (#[trigger] r@[j] as nat) == be_value(
                    bytes@.subrange(j * (w as int), j * (w as int) + (w as int)),
                ),
            forall|j: int| 0 <= j < i ==> (#[trigger] r@[j] as nat) < pow256(w as nat),
        decreases n - i,
    {
        proof {
            assert((i as int) * (w as int) >= 0) by (nonlinear_arith)
                requires
                    0 <= i as int,
                    0 <= w as int,
            ;
            assert((i as int) * (w as int) + (w as int) == (i as int + 1) * (w as int))
                by (nonlinear_arith);
            assert((i as int + 1) * (w as int) <= (n as int) * (w as int)) by (nonlinear_arith)
                requires
                    i as int + 1 <= n as int,
                    0 <= w as int,
            ;
        }
        let off: usize = i * w;
        let x = u128_from_be(bytes, off, w);
        proof {
            lemma_be_value_bound(bytes@.subrange(off as int, off as int + w as int));
        }
        r.push(x);
        i = i + 1;
    }
    r
}

/// A scalar type whose wire form is one `width`-byte big-endian window
/// carrying the unsigned word `as_word`.
pub trait WordCodec: Sized {
    /// The unsigned word this value travels as.
    spec fn as_word(self) -> u128;

    /// The byte width of this type's window.
    spec fn width() -> nat;

    proof fn lemma_width()
        ensures
            1 <= Self::width() <= 16,
    ;

    /// Every word fits its window.
    proof fn lemma_word_bound(self)
        ensures
            (self.as_word() as nat) < pow256(Self::width()),
    ;

    /// The word determines the value.
    proof fn lemma_word_injective(self, other: Self)
        requires
            self.as_word() == other.as_word(),
        ensures
            self == other,
    ;

    fn width_exec() -> (w: usize)
        ensures
            w as nat == Self::width(),
    ;

    fn to_word(self) -> (r: u128)
        ensures
            r == self.as_word(),
    ;

    fn of_word(x: u128) -> (r: Self)
        requires
            (x as nat) < pow256(Self::width()),
        ensures
            r.as_word() == x,
    ;
}

/// The wire form of a vector: its elements' windows, concatenated in order.
pub open spec fn vec_enc<T: WordCodec>(s: Seq<T>) -> Seq<u8> {
    concat_words(s.map_values(|x: T| x.as_word()), T::width())
}

/// The exact result of decoding a vector of fixed-width scalars: decoding
/// always succeeds, reads `len / width` whole windows in order, and drops a
/// trailing partial window.
pub open spec fn vec_decode_spec<T: WordCodec>(
    bytes: Seq<u8>,
    r: Result<Vec<T>, DecodeError>,
) -> bool {
    match r {
        Ok(v) => {
            &&& v@.len() == bytes.len() as int / T::width() as int
            &&& forall|i: int|
                0 <= i < v@.len() ==> (#[trigger] v@[i].as_word() as nat) == be_value(
                    bytes.subrange(
                        i * (T::width() as int),
                        i * (T::width() as int) + (T::width() as int),
                    ),
                )
        },
        Err(_) => false,
    }
}

/// Encodes a vector of fixed-width scalars.
pub fn encode_elems<T: WordCodec + Copy>(items: Vec<T>) -> (r: Vec<u8>)
    ensures
        r@ == vec_enc(items@),
{
    let n: usize = items.len();
    let mut words: Vec<u128> = Vec::new();
    let mut i: usize = 0;
    while i < n
        invariant
            i <= n == items@.len(),
            words@.len() == i,
            forall|j: int| 0 <= j < i ==> #[trigger] words@[j] == items@[j].as_word(),
        decreases n - i,
    {
        let x = items[i].to_word();
        words.push(x);
        i = i + 1;
    }
    proof {
        T::lemma_width();
        assert(words@ =~= items@.map_values(|x: T| x.as_word()));
        assert forall|j: int| 0 <= j < words@.len() implies (#[trigger] words@[j] as nat) < pow256(
            T::width(),
        ) by {
            items@[j].lemma_word_bound();
        }
    }
    let w = T::width_exec();
    encode_words(&words, w)
}

/// Decodes a vector of fixed-width scalars; never fails, by I4's windowing
/// rule (the element count is `len / width`, the tail is dropped).
pub fn decode_elems<T: WordCodec + Copy>(bytes: &Vec<u8>) -> (r: Vec<T>)
    ensures
        vec_decode_spec(bytes@, Ok::<Vec<T>, DecodeError>(r)),
{
    proof {
        T::lemma_width();
    }
    let w = T::width_exec();
    let words = decode_words(bytes, w);
    let n: usize = words.len();
    let mut out: Vec<T> = Vec::new();
    let mut i: usize = 0;
    while i < n
        invariant
            i <= n == words@.len(),
            w as nat == T::width(),
            out@.len() == i,
            forall|j: int| 0 <= j < n ==> (#[trigger] words@[j] as nat) < pow256(T::width()),
            forall|j: int| 0 <= j < i ==> (#[trigger] out@[j].as_word()) == words@[j],
        decreases n - i,
    {
        let t = T::of_word(words[i]);
        out.push(t);
        i = i + 1;
    }
    out
}

/// Round-trip law for vectors: decoding the encoding of a vector can only
/// return `Ok` with an element-wise equal vector.
pub proof fn lemma_vec_round_trip<T: WordCodec>(orig: Vec<T>, r: Result<Vec<T>, DecodeError>)
    requires
        vec_decode_spec(vec_enc(orig@), r),
    ensures
        (match r {
            Ok(v) => v@ == orig@,
            Err(_) => false,
        }),
{
    T::lemma_width();
    let w = T::width();
    let ws = orig@.map_values(|x: T| x.as_word());
    lemma_concat_words_len(ws, w);
    lemma_fundamental_div_mod_converse((ws.len() * w) as int, w as int, ws.len() as int, 0);
    match r {
        Ok(v) => {
            assert(v@.len() == orig@.len());
            assert forall|i: int| 0 <= i < v@.len() implies v@[i] == orig@[i] by {
                lemma_concat_words_window(ws, w, i);
                orig@[i].lemma_word_bound();
                lemma_be_round_trip(ws[i] as nat, w);
                v@[i].lemma_word_injective(orig@[i]);
            }
            assert(v@ =~= orig@);
        },
        Err(_) => {},
    }
}

impl WordCodec for u16 {
    open spec fn as_word(self) -> u128 {
        self as u128
    }

    open spec fn width() -> nat {
        2
    }

    proof fn lemma_width() {
    }

    proof fn lemma_word_bound(self) {
        lemma_pow256_vals();
    }

    proof fn lemma_word_injective(self, other: Self) {
    }

    fn width_exec() -> (w: usize) {
        2
    }

    fn to_word(self) -> (r: u128) {
        self as u128
    }

    fn of_word(x: u128) -> (r: Self) {
        proof {
            lemma_pow256_vals();
        }
        x as u16
    }
}

impl WordCodec for u32 {
    open spec fn as_word(self) -> u128 {
        self as u128
    }

    open spec fn width() -> nat {
        4
    }

    proof fn lemma_width() {
    }

    proof fn lemma_word_bound(self) {
        lemma_pow256_vals();
    }

    proof fn lemma_word_injective(self, other: Self) {
    }

    fn width_exec() -> (w: usize) {
        4
    }

    fn to_word(self) -> (r: u128) {
        self as u128
    }

    fn of_word(x: u128) -> (r: Self) {
        proof {
            lemma_pow256_vals();
        }
        x as u32
    }
}

impl WordCodec for u64 {
    open spec fn as_word(self) -> u128 {
        self as u128
    }

    open spec fn width() -> nat {
        8
    }

    proof fn lemma_width() {
    }

    proof fn lemma_word_bound(self) {
        lemma_pow256_vals();
    }

    proof fn lemma_word_injective(self, other: Self) {
    }

    fn width_exec() -> (w: usize) {
        8
    }

    fn to_word(self) -> (r: u128) {
        self as u128
    }

    fn of_word(x: u128) -> (r: Self) {
        proof {
            lemma_pow256_vals();
        }
        x as u64
    }
}

impl WordCodec for u128 {
    open spec fn as_word(self) -> u128 {
        self
    }

    open spec fn width() -> nat {
        16
    }

    proof fn lemma_width() {
    }

    proof fn lemma_word_bound(self) {
        lemma_pow256_vals();
    }

    proof fn lemma_word_injective(self, other: Self) {
    }

    fn width_exec() -> (w: usize) {
        16
    }

    fn to_word(self) -> (r: u128) {
        self
    }

    fn of_word(x: u128) -> (r: Self) {
        x
    }
}

impl WordCodec for i8 {
    open spec fn as_word(self) -> u128 {
        to_unsigned(self as int, 1) as u128
    }

    open spec fn width() -> nat {
        1
    }

    proof fn lemma_width() {
    }

    proof fn lemma_word_bound(self) {
        lemma_pow256_vals();
        lemma_to_unsigned_bound(self as int, 1);
    }

    proof fn lemma_word_injective(self, other: Self) {
        lemma_pow256_vals();
        lemma_to_unsigned_bound(self as int, 1);
        lemma_to_unsigned_bound(other as int, 1);
        lemma_to_unsigned_injective(self as int, other as int, 1);
    }

    fn width_exec() -> (w: usize) {
        1
    }

    fn to_word(self) -> (r: u128) {
        proof {
            lemma_pow256_vals();
        }
        signed_to_unsigned(self as i128, 1)
    }

    fn of_word(x: u128) -> (r: Self) {
        proof {
            lemma_pow256_vals();
        }
        let s = unsigned_to_signed(x, 1);
        s as i8
    }
}

impl WordCodec for i16 {
    open spec fn as_word(self) -> u128 {
        to_unsigned(self as int, 2) as u128
    }

    open spec fn width() -> nat {
        2
    }

    proof fn lemma_width() {
    }

    proof fn lemma_word_bound(self) {
        lemma_pow256_vals();
        lemma_to_unsigned_bound(self as int, 2);
    }

    proof fn lemma_word_injective(self, other: Self) {
        lemma_pow256_vals();
        lemma_to_unsigned_bound(self as int, 2);
        lemma_to_unsigned_bound(other as int, 2);
        lemma_to_unsigned_injective(self as int, other as int, 2);
    }

    fn width_exec() -> (w: usize) {
        2
    }

    fn to_word(self) -> (r: u128) {
        proof {
            lemma_pow256_vals();
        }
        signed_to_unsigned(self as i128, 2)
    }

    fn of_word(x: u128) -> (r: Self) {
        proof {
            lemma_pow256_vals();
        }
        let s = unsigned_to_signed(x, 2);
        s as i16
    }
}

impl WordCodec for i32 {
    open spec fn as_word(self) -> u128 {
        to_unsigned(self as int, 4) as u128
    }

    open spec fn width() -> nat {
        4
    }

    proof fn lemma_width() {
    }

    proof fn lemma_word_bound(self) {
        lemma_pow256_vals();
        lemma_to_unsigned_bound(self as int, 4);
    }

    proof fn lemma_word_injective(self, other: Self) {
        lemma_pow256_vals();
        lemma_to_unsigned_bound(self as int, 4);
        lemma_to_unsigned_bound(other as int, 4);
        lemma_to_unsigned_injective(self as int, other as int, 4);
    }

    fn width_exec() -> (w: usize) {
        4
    }

    fn to_word(self) -> (r: u128) {
        proof {
            lemma_pow256_vals();
        }
        signed_to_unsigned(self as i128, 4)
    }

    fn of_word(x: u128) -> (r: Self) {
        proof {
            lemma_pow256_vals();
        }
        let s = unsigned_to_signed(x, 4);
        s as i32
    }
}

impl WordCodec for i64 {
    open spec fn as_word(self) -> u128 {
        to_unsigned(self as int, 8) as u128
    }

    open spec fn width() -> nat {
        8
    }

    proof fn lemma_width() {
    }

    proof fn lemma_word_bound(self) {
        lemma_pow256_vals();
        lemma_to_unsigned_bound(self as int, 8);
    }

    proof fn lemma_word_injective(self, other: Self) {
        lemma_pow256_vals();
        lemma_to_unsigned_bound(self as int, 8);
        lemma_to_unsigned_bound(other as int, 8);
        lemma_to_unsigned_injective(self as int, other as int, 8);
    }

    fn width_exec() -> (w: usize) {
        8
    }

    fn to_word(self) -> (r: u128) {
        proof {
            lemma_pow256_vals();
        }
        signed_to_unsigned(self as i128, 8)
    }

    fn of_word(x: u128) -> (r: Self) {
        proof {
            lemma_pow256_vals();
        }
        let s = unsigned_to_signed(x, 8);
        s as i64
    }
}

impl WordCodec for i128 {
    open spec fn as_word(self) -> u128 {
        to_unsigned(self as int, 16) as u128
    }

    open spec fn width() -> nat {
        16
    }

    proof fn lemma_width() {
    }

    proof fn lemma_word_bound(self) {
        lemma_pow256_vals();
        lemma_to_unsigned_bound(self as int, 16);
    }

    proof fn lemma_word_injective(self, other: Self) {
        lemma_pow256_vals();
        lemma_to_unsigned_bound(self as int, 16);
        lemma_to_unsigned_bound(other as int, 16);
        lemma_to_unsigned_injective(self as int, other as int, 16);
    }

    fn width_exec() -> (w: usize) {
        16
    }

    fn to_word(self) -> (r: u128) {
        proof {
            lemma_pow256_vals();
        }
        signed_to_unsigned(self, 16)
    }

    fn of_word(x: u128) -> (r: Self) {
        proof {
            lemma_pow256_vals();
        }
        unsigned_to_signed(x, 16)
    }
}

} // verus!
