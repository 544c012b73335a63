//! Big-endian byte layout for fixed-width integers.
//!
//! `be_bytes` gives the `w`-byte big-endian form of a non-negative integer,
//! `be_value` reads one back, and `to_unsigned` maps a signed value onto its
//! two's-complement representative. The executable functions here realize
//! those spec functions for widths up to 16 bytes (128 bits).

use vstd::arithmetic::div_mod::lemma_fundamental_div_mod;
use vstd::arithmetic::div_mod::lemma_fundamental_div_mod_converse;
use vstd::arithmetic::div_mod::lemma_mod_division_less_than_divisor;
use vstd::prelude::*;

verus! {

/// `256^w`: the number of distinct values a `w`-byte window can hold.
pub open spec fn pow256(w: nat) -> nat
    decreases w,
{
    if w == 0 {
        1
    } else {
        256 * pow256((w - 1) as nat)
    }
}

/// The big-endian `w`-byte encoding of `v` (which must be below `256^w`):
/// most significant byte first.
pub open spec fn be_bytes(v: nat, w: nat) -> Seq<u8>
    decreases w,
{
    if w == 0 {
        Seq::empty()
    } else {
        be_bytes(v / 256, (w - 1) as nat).push((v % 256) as u8)
    }
}

/// The value of a byte sequence read as a big-endian integer.
pub open spec fn be_value(s: Seq<u8>) -> nat
    decreases s.len(),
{
    if s.len() == 0 {
        0
    } else {
        be_value(s.drop_last()) * 256 + (s.last() as nat)
    }
}

/// The two's-complement representative of `v` in `w` bytes.
pub open spec fn to_unsigned(v: int, w: nat) -> int {
    if v >= 0 {
        v
    } else {
        v + pow256(w)
    }
}

/// `v` lies in the signed range of a `w`-byte window.
pub open spec fn in_signed_range(v: int, w: nat) -> bool {
    -(pow256(w) as int) <= 2 * v < pow256(w) as int
}

pub proof fn lemma_pow256_pos(w: nat)
    ensures
        pow256(w) >= 1,
    decreases w,
{
    if w > 0 {
        lemma_pow256_pos((w - 1) as nat);
    }
}

pub proof fn lemma_pow256_mono(a: nat, b: nat)
    requires
        a <= b,
    ensures
        pow256(a) <= pow256(b),
    decreases b,
{
    if a < b {
        lemma_pow256_mono(a, (b - 1) as nat);
        lemma_pow256_pos((b - 1) as nat);
    }
}

/// The concrete powers used by the codecs of this crate.
pub proof fn lemma_pow256_vals()
    ensures
        pow256(0) == 1,
        pow256(1) == 0x100,
        pow256(2) == 0x1_0000,
        pow256(3) == 0x100_0000,
        pow256(4) == 0x1_0000_0000,
        pow256(5) == 0x100_0000_0000,
        pow256(6) == 0x1_0000_0000_0000,
        pow256(7) == 0x100_0000_0000_0000,
        pow256(8) == 0x1_0000_0000_0000_0000,
        pow256(9) == 0x100_0000_0000_0000_0000,
        pow256(10) == 0x1_0000_0000_0000_0000_0000,
        pow256(11) == 0x100_0000_0000_0000_0000_0000,
        pow256(12) == 0x1_0000_0000_0000_0000_0000_0000,
        pow256(13) == 0x100_0000_0000_0000_0000_0000_0000,
        pow256(14) == 0x1_0000_0000_0000_0000_0000_0000_0000,
        pow256(15) == 0x100_0000_0000_0000_0000_0000_0000_0000,
        pow256(16) == 0x1_0000_0000_0000_0000_0000_0000_0000_0000,
{
    assert(pow256(0) == 1);
    assert(pow256(1) == 0x100);
    assert(pow256(2) == 0x1_0000);
    assert(pow256(3) == 0x100_0000);
    assert(pow256(4) == 0x1_0000_0000);
    assert(pow256(5) == 0x100_0000_0000);
    assert(pow256(6) == 0x1_0000_0000_0000);
    assert(pow256(7) == 0x100_0000_0000_0000);
    assert(pow256(8) == 0x1_0000_0000_0000_0000);
    assert(pow256(9) == 0x100_0000_0000_0000_0000);
    assert(pow256(10) == 0x1_0000_0000_0000_0000_0000);
    assert(pow256(11) == 0x100_0000_0000_0000_0000_0000);
    assert(pow256(12) == 0x1_0000_0000_0000_0000_0000_0000);
    assert(pow256(13) == 0x100_0000_0000_0000_0000_0000_0000);
    assert(pow256(14) == 0x1_0000_0000_0000_0000_0000_0000_0000);
    assert(pow256(15) == 0x100_0000_0000_0000_0000_0000_0000_0000);
    assert(pow256(16) == 0x1_0000_0000_0000_0000_0000_0000_0000_0000);
}

pub proof fn lemma_be_bytes_len(v: nat, w: nat)
    ensures
        be_bytes(v, w).len() == w,
    decreases w,
{
    if w > 0 {
        lemma_be_bytes_len(v / 256, (w - 1) as nat);
    }
}

pub proof fn lemma_be_value_bound(s: Seq<u8>)
    ensures
        be_value(s) < pow256(s.len()),
    decreases s.len(),
{
    if s.len() > 0 {
        lemma_be_value_bound(s.drop_last());
    }
}

/// Reading back the big-endian bytes of `v` recovers `v`.
pub proof fn lemma_be_round_trip(v: nat, w: nat)
    requires
        v < pow256(w),
    ensures
        be_value(be_bytes(v, w)) == v,
    decreases w,
{
    if w > 0 {
        let q: nat = v / 256;
        let r: nat = v % 256;
        lemma_fundamental_div_mod(v as int, 256);
        lemma_mod_division_less_than_divisor(v as int, 256);
        assert(q < pow256((w - 1) as nat));
        lemma_be_round_trip(q, (w - 1) as nat);
        lemma_be_bytes_len(q, (w - 1) as nat);
        let s = be_bytes(v, w);
        assert(s.drop_last() =~= be_bytes(q, (w - 1) as nat));
        assert(s.last() == (r as u8));
    }
}

/// The two's-complement representative determines the signed value.
pub proof fn lemma_to_unsigned_injective(a: int, b: int, w: nat)
    requires
        in_signed_range(a, w),
        in_signed_range(b, w),
        to_unsigned(a, w) == to_unsigned(b, w),
    ensures
        a == b,
{
}

pub proof fn lemma_to_unsigned_bound(v: int, w: nat)
    requires
        in_signed_range(v, w),
    ensures
        0 <= to_unsigned(v, w) < pow256(w),
{
}

/// The big-endian bytes of `v`, most significant first.
pub fn u128_to_be(v: u128, w: usize) -> (r: Vec<u8>)
    requires
        w <= 16,
        (v as nat) < pow256(w as nat),
    ensures
        r@ == be_bytes(v as nat, w as nat),
    decreases w,
{
    if w == 0 {
        let r: Vec<u8> = Vec::new();
        assert(r@ =~= be_bytes(v as nat, 0));
        r
    } else {
        let q: u128 = v / 256;
        let b: u8 = (v % 256) as u8;
        proof {
            lemma_fundamental_div_mod(v as int, 256);
            lemma_mod_division_less_than_divisor(v as int, 256);
            assert((q as nat) < pow256((w - 1) as nat));
        }
        let mut r = u128_to_be(q, w - 1);
        r.push(b);
        assert(r@ =~= be_bytes(v as nat, w as nat));
        r
    }
}

/// Reads the `w` bytes at `off` as one big-endian integer.
pub fn u128_from_be(bytes: &Vec<u8>, off: usize, w: usize) -> (r: u128)
    requires
        w <= 16,
        off + w <= bytes@.len(),
    ensures
        r as nat == be_value(bytes@.subrange(off as int, off + w)),
{
    let n: usize = bytes.len();
    let mut acc: u128 = 0;
    let mut i: usize = 0;
    proof {
        assert(bytes@.subrange(off as int, off as int) =~= Seq::<u8>::empty());
    }
    while i < w
        invariant
            i <= w <= 16,
            off + w <= n == bytes@.len(),
            acc as nat == be_value(bytes@.subrange(off as int, off + i)),
            (acc as nat) < pow256(i as nat),
        decreases w - i,
    {
        let b: u8 = bytes[off + i];
        proof {
            lemma_pow256_mono(i as nat, 15);
            lemma_pow256_vals();
            let pre = bytes@.subrange(off as int, off + i);
            let post = bytes@.subrange(off as int, off + i + 1);
            assert(post.drop_last() =~= pre);
            assert(post.last() == b);
        }
        acc = acc * 256 + (b as u128);
        i = i + 1;
    }
    acc
}

/// Reads the first `w` bytes of the input as one big-endian integer.
pub fn u128_from_be_prefix(bytes: &Vec<u8>, w: usize) -> (r: u128)
    requires
        w <= 16,
        w <= bytes@.len(),
    ensures
        r as nat == be_value(bytes@.take(w as int)),
        (r as nat) < pow256(w as nat),
{
    let r = u128_from_be(bytes, 0, w);
    proof {
        assert(bytes@.subrange(0, w as int) =~= bytes@.take(w as int));
        lemma_be_value_bound(bytes@.take(w as int));
    }
    r
}

/// The two's-complement `w`-byte representative of a signed value.
pub fn signed_to_unsigned(v: i128, w: usize) -> (r: u128)
    requires
        1 <= w <= 16,
        in_signed_range(v as int, w as nat),
    ensures
        r as nat == to_unsigned(v as int, w as nat),
        (r as nat) < pow256(w as nat),
{
    proof {
        lemma_pow256_vals();
        lemma_pow256_mono(w as nat, 16);
        lemma_pow256_pos((w - 1) as nat);
        assert(pow256(w as nat) == 256 * pow256((w - 1) as nat));
    }
    if v >= 0 {
        v as u128
    } else {
        let m: i128 = -(v + 1);
        let mask: u128 = mask_of(w);
        mask - (m as u128)
    }
}

/// The signed value whose two's-complement `w`-byte representative is `u`.
pub fn unsigned_to_signed(u: u128, w: usize) -> (r: i128)
    requires
        1 <= w <= 16,
        (u as nat) < pow256(w as nat),
    ensures
        in_signed_range(r as int, w as nat),
        to_unsigned(r as int, w as nat) == u as nat,
{
    let mask: u128 = mask_of(w);
    let half: u128 = mask / 2;
    proof {
        lemma_pow256_vals();
        lemma_pow256_mono(w as nat, 16);
        lemma_pow256_mono((w - 1) as nat, 15);
        lemma_pow256_pos((w - 1) as nat);
        assert(pow256(w as nat) == 256 * pow256((w - 1) as nat));
        // pow256(w) is even, so (pow256(w) - 1) / 2 == pow256(w) / 2 - 1.
        let k: int = 128 * (pow256((w - 1) as nat) as int);
        lemma_fundamental_div_mod_converse(2 * k - 1, 2, k - 1, 1);
        assert(half as int == k - 1);
    }
    if u <= half {
        u as i128
    } else {
        let m: u128 = mask - u;
        -(m as i128) - 1
    }
}

/// The largest value a `w`-byte window can hold, `256^w - 1`.
pub fn mask_of(w: usize) -> (r: u128)
    requires
        1 <= w <= 16,
    ensures
        r as nat == pow256(w as nat) - 1,
{
    proof {
        lemma_pow256_vals();
    }
    if w == 1 {
        0xff
    } else if w == 2 {
        0xffff
    } else if w == 3 {
        0xff_ffff
    } else if w == 4 {
        0xffff_ffff
    } else if w == 5 {
        0xff_ffff_ffff
    } else if w == 6 {
        0xffff_ffff_ffff
    } else if w == 7 {
        0xff_ffff_ffff_ffff
    } else if w == 8 {
        0xffff_ffff_ffff_ffff
    } else if w == 9 {
        0xff_ffff_ffff_ffff_ffff
    } else if w == 10 {
        0xffff_ffff_ffff_ffff_ffff
    } else if w == 11 {
        0xff_ffff_ffff_ffff_ffff_ffff
    } else if w == 12 {
        0xffff_ffff_ffff_ffff_ffff_ffff
    } else if w == 13 {
        0xff_ffff_ffff_ffff_ffff_ffff_ffff
    } else if w == 14 {
        0xffff_ffff_ffff_ffff_ffff_ffff_ffff
    } else if w == 15 {
        0xff_ffff_ffff_ffff_ffff_ffff_ffff_ffff
    } else {
        0xffff_ffff_ffff_ffff_ffff_ffff_ffff_ffff
    }
}

} // verus!
