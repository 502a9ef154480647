//! Byte-order model: how a value of a given width is laid out in memory.

use vstd::prelude::*;
use vstd::arithmetic::div_mod::{lemma_div_denominator, lemma_mod_breakdown, lemma_small_mod};

verus! {

/// `256` raised to the power `n`: the number of values that `n` bytes hold.
pub open spec fn pow256(n: nat) -> nat
    decreases n,
{
    if n == 0 {
        1
    } else {
        256 * pow256((n - 1) as nat)
    }
}

/// Byte `k` of `val`, counting from the least significant byte.
pub open spec fn byte_of(val: nat, k: nat) -> u8 {
    ((val / pow256(k)) % 256) as u8
}

/// The `width` low-order bytes of `val`, least significant first.
pub open spec fn le_bytes(val: nat, width: nat) -> Seq<u8> {
    Seq::new(width, |k: int| byte_of(val, k as nat))
}

/// The `width` low-order bytes of `val`, most significant first.
pub open spec fn be_bytes(val: nat, width: nat) -> Seq<u8> {
    Seq::new(width, |k: int| byte_of(val, (width - 1 - k) as nat))
}

/// The bytes that a write of `width` bytes of `val` stores, in the given byte order.
pub open spec fn encode(val: nat, width: nat, big_endian: bool) -> Seq<u8> {
    if big_endian {
        be_bytes(val, width)
    } else {
        le_bytes(val, width)
    }
}

/// The number whose bytes, least significant first, are `s`.
pub open spec fn le_value(s: Seq<u8>) -> nat
    decreases s.len(),
{
    if s.len() == 0 {
        0
    } else {
        le_value(s.drop_last()) + pow256((s.len() - 1) as nat) * (s.last() as nat)
    }
}

/// The number whose bytes, most significant first, are `s`.
pub open spec fn be_value(s: Seq<u8>) -> nat {
    le_value(s.reverse())
}

/// The number that the bytes `s` hold in the given byte order.
pub open spec fn decode(s: Seq<u8>, big_endian: bool) -> nat {
    if big_endian {
        be_value(s)
    } else {
        le_value(s)
    }
}

pub proof fn lemma_pow256_positive(n: nat)
    ensures
        pow256(n) > 0,
    decreases n,
{
    if n > 0 {
        lemma_pow256_positive((n - 1) as nat);
    }
}

/// Dividing by `256^k` and then by `256` is dividing by `256^(k+1)`.
pub proof fn lemma_div_pow256_step(val: nat, k: nat)
    ensures
        val / pow256(k) / 256 == val / pow256(k + 1),
{
    lemma_pow256_positive(k);
    lemma_div_denominator(val as int, pow256(k) as int, 256);
    assert(pow256(k + 1) == pow256(k) * 256);
}

/// Reading back the little-endian bytes of a value gives the value modulo the width.
pub proof fn lemma_le_round_trip(val: nat, width: nat)
    ensures
        le_value(le_bytes(val, width)) == val % pow256(width),
    decreases width,
{
    if width == 0 {
        assert(le_bytes(val, 0) =~= Seq::<u8>::empty());
    } else {
        let w1 = (width - 1) as nat;
        let s = le_bytes(val, width);
        assert(s.drop_last() =~= le_bytes(val, w1));
        lemma_le_round_trip(val, w1);
        lemma_pow256_positive(w1);
        let p = pow256(w1) as int;
        lemma_mod_breakdown(val as int, p, 256);
        assert(s.last() as nat == (val / pow256(w1)) % 256);
        assert(pow256(width) == p * 256);
    }
}

/// The big-endian bytes of a value are its little-endian bytes reversed.
pub proof fn lemma_be_is_reversed_le(val: nat, width: nat)
    ensures
        be_bytes(val, width).reverse() == le_bytes(val, width),
{
    assert(be_bytes(val, width).reverse() =~= le_bytes(val, width));
}

/// A write of `width` bytes of a value that fits in them reads back as the same
/// value, in either byte order.
pub proof fn lemma_encode_decode(val: nat, width: nat, big_endian: bool)
    requires
        val < pow256(width),
    ensures
        decode(encode(val, width, big_endian), big_endian) == val,
{
    lemma_le_round_trip(val, width);
    lemma_be_is_reversed_le(val, width);
    lemma_small_mod(val, pow256(width));
}

} // verus!
