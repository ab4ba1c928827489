//! Byte-vector utilities shared by the storage layers.

use vstd::prelude::*;

verus! {

/// A sequence of `n` zero bytes.
pub open spec fn zeros(n: int) -> Seq<u8> {
    Seq::new(n as nat, |i: int| 0u8)
}

/// Returns a vector of `len` zero bytes.
pub fn zero_vec(len: usize) -> (r: Vec<u8>)
    ensures
        r@.len() == len,
        forall|i: int| 0 <= i < len ==> r@[i] == 0u8,
{
    let mut v: Vec<u8> = Vec::new();
    let mut i: usize = 0;
    while i < len
        invariant
            i <= len,
            v@.len() == i,
            forall|j: int| 0 <= j < i ==> v@[j] == 0u8,
        decreases len - i,
    {
        v.push(0u8);
        i = i + 1;
    }
    v
}

/// Returns a fresh copy of a byte vector.
pub fn copy_bytes(src: &Vec<u8>) -> (r: Vec<u8>)
    ensures
        r@ == src@,
{
    let mut v: Vec<u8> = Vec::new();
    let mut i: usize = 0;
    while i < src.len()
        invariant
            i <= src@.len(),
            v@ == src@.subrange(0, i as int),
        decreases src@.len() - i,
    {
        v.push(src[i]);
        assert(v@ == src@.subrange(0, i + 1 as int));
        i = i + 1;
    }
    assert(v@ == src@);
    v
}

/// Returns a copy of `src[start..end]`.
pub fn sub_bytes(src: &Vec<u8>, start: usize, end: usize) -> (r: Vec<u8>)
    requires
        start <= end <= src@.len(),
    ensures
        r@ == src@.subrange(start as int, end as int),
{
    let mut v: Vec<u8> = Vec::new();
    let mut i: usize = start;
    while i < end
        invariant
            start <= i <= end <= src@.len(),
            v@ == src@.subrange(start as int, i as int),
        decreases end - i,
    {
        v.push(src[i]);
        assert(v@ == src@.subrange(start as int, i + 1 as int));
        i = i + 1;
    }
    v
}

/// Overwrites `dst[offset..offset + src.len()]` with the bytes of `src`.
pub fn splice_bytes(dst: &mut Vec<u8>, offset: usize, src: &Vec<u8>)
    requires
        offset + src@.len() <= old(dst)@.len(),
    ensures
        final(dst)@.len() == old(dst)@.len(),
        final(dst)@ == old(dst)@.subrange(0, offset as int) + src@ + old(dst)@.subrange(
            offset + src@.len(),
            old(dst)@.len() as int,
        ),
{
    let n = dst.len();
    let mut i: usize = 0;
    while i < src.len()
        invariant
            i <= src@.len(),
            offset + src@.len() <= n,
            n == dst@.len(),
            dst@.len() == old(dst)@.len(),
            forall|j: int| 0 <= j < offset ==> dst@[j] == old(dst)@[j],
            forall|j: int| 0 <= j < i ==> dst@[offset + j] == src@[j],
            forall|j: int| offset + src@.len() <= j < dst@.len() ==> dst@[j] == old(dst)@[j],
            forall|j: int| offset + i <= j < offset + src@.len() ==> dst@[j] == old(dst)@[j],
        decreases src@.len() - i,
    {
        dst.set(offset + i, src[i]);
        i = i + 1;
    }
    proof {
        assert(dst@ =~= old(dst)@.subrange(0, offset as int) + src@ + old(dst)@.subrange(
            offset + src@.len(),
            old(dst)@.len() as int,
        ));
    }
}

} // verus!
