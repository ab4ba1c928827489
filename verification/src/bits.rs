//! Bit-level helpers for the free/used bitmaps.
//!
//! Both the block map and the inode bitmap store one bit per unit, least
//! significant bit first within each byte; these are the shared facts about
//! setting, clearing and counting such bits.

use vstd::prelude::*;

use vstd::arithmetic::div_mod::lemma_fundamental_div_mod;

verus! {

/// Bit `k` of byte `b`, counting from the least significant bit.
pub open spec fn nth_bit(b: u8, k: int) -> bool {
    (b >> (k as u8)) & 1u8 == 1u8
}

/// Bit `i` of the bitmap bytes `data`, least-significant bit first within
/// each byte.
pub open spec fn bit_at(data: Seq<u8>, i: int) -> bool {
    nth_bit(data[i / 8], i % 8)
}

/// How many of the first `n` bits of `data` are set.
pub open spec fn count_used_bits(data: Seq<u8>, n: int) -> int
    decreases n,
{
    if n <= 0 {
        0
    } else {
        count_used_bits(data, n - 1) + if bit_at(data, n - 1) {
            1int
        } else {
            0int
        }
    }
}

/// Bitmaps that agree bit-for-bit have the same used count.
pub proof fn lemma_count_agree(d1: Seq<u8>, d2: Seq<u8>, n: int)
    requires
        forall|j: int| 0 <= j < n ==> bit_at(d1, j) == bit_at(d2, j),
    ensures
        count_used_bits(d1, n) == count_used_bits(d2, n),
    decreases n,
{
    if n > 0 {
        lemma_count_agree(d1, d2, n - 1);
    }
}

/// Flipping a single bit moves the used count by exactly one.
pub proof fn lemma_count_flip(d1: Seq<u8>, d2: Seq<u8>, i: int, n: int)
    requires
        0 <= i < n,
        forall|j: int| 0 <= j < n && j != i ==> bit_at(d1, j) == bit_at(d2, j),
        bit_at(d1, i) != bit_at(d2, i),
    ensures
        count_used_bits(d2, n) == count_used_bits(d1, n) + if bit_at(d2, i) {
            1int
        } else {
            -1int
        },
    decreases n,
{
    if i == n - 1 {
        lemma_count_agree(d1, d2, n - 1);
    } else {
        lemma_count_flip(d1, d2, i, n - 1);
    }
}

pub proof fn lemma_set_bit(b: u8, j: u8)
    requires
        j < 8,
    ensures
        nth_bit(b | (1u8 << j), j as int),
        forall|k: u8| k < 8 && k != j ==> nth_bit(b | (1u8 << j), k as int) == nth_bit(b, k as int),
        (b & (1u8 << j) == 0) == !nth_bit(b, j as int),
{
    assert(((b | (1u8 << j)) >> j) & 1u8 == 1u8) by (bit_vector)
        requires
            j < 8,
    ;
    assert(forall|k: u8|
        k < 8 && k != j ==> ((b | (1u8 << j)) >> k) & 1u8 == (b >> k) & 1u8) by (bit_vector)
        requires
            j < 8,
    ;
    assert((b & (1u8 << j) == 0) == ((b >> j) & 1u8 != 1u8)) by (bit_vector)
        requires
            j < 8,
    ;
}

pub proof fn lemma_clear_bit(b: u8, j: u8)
    requires
        j < 8,
    ensures
        !nth_bit(b & !(1u8 << j), j as int),
        forall|k: u8|
            k < 8 && k != j ==> nth_bit(b & !(1u8 << j), k as int) == nth_bit(b, k as int),
{
    assert(((b & !(1u8 << j)) >> j) & 1u8 != 1u8) by (bit_vector)
        requires
            j < 8,
    ;
    assert(forall|k: u8|
        k < 8 && k != j ==> ((b & !(1u8 << j)) >> k) & 1u8 == (b >> k) & 1u8) by (bit_vector)
        requires
            j < 8,
    ;
}

/// Two distinct bit indexes either live in different bytes, or in the same
/// byte at different offsets.
pub proof fn lemma_bit_index_parts(i: int, j: int)
    requires
        0 <= i,
        0 <= j,
        i != j,
    ensures
        i / 8 != j / 8 || i % 8 != j % 8,
        0 <= i % 8 < 8,
        0 <= i / 8 * 8 + i % 8 == i,
{
    lemma_fundamental_div_mod(i, 8);
    lemma_fundamental_div_mod(j, 8);
}


} // verus!
