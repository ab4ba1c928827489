//! The block map: a bit-per-block bitmap of free and used blocks.
//!
//! Bit `i` describes block `i` of the whole device; bit one means used.
//! The map is stored contiguously in the blocks `[first_block, last_block)`
//! and every mutation is written through to the block containing the
//! changed byte, so memory and disk stay in step.

use vstd::prelude::*;

use vstd::arithmetic::div_mod::lemma_div_denominator;
use vstd::arithmetic::div_mod::lemma_fundamental_div_mod;

use crate::bits::bit_at;
use crate::bits::count_used_bits;
use crate::bits::lemma_bit_index_parts;
use crate::bits::lemma_clear_bit;
use crate::bits::lemma_count_agree;
use crate::bits::lemma_count_flip;
use crate::bits::lemma_set_bit;
use crate::bits::nth_bit;
use crate::bytes::sub_bytes;
use crate::bytes::zero_vec;
use crate::device::DeviceDriver;
use crate::io::IO;
use crate::BlockPointer;

verus! {

/// The number of bitmap bytes before padding: `⌈block_count / 8⌉`.
pub open spec fn raw_map_bytes(block_count: int) -> int {
    if block_count % 8 == 0 {
        block_count / 8
    } else {
        block_count / 8 + 1
    }
}

/// The number of bitmap bytes, padded up to a multiple of the block size.
pub open spec fn map_bytes(block_count: int, block_size: int) -> int {
    let raw = raw_map_bytes(block_count);
    if raw % block_size == 0 {
        raw
    } else {
        raw + (block_size - raw % block_size)
    }
}

/// No two allocations that both succeed return the same block: the first
/// allocation leaves its block marked used in the intermediate map, and an
/// allocation only ever returns a block that is free when it runs.
pub proof fn lemma_allocations_distinct(mid: BlockMap, i1: int, i2: int)
    requires
        mid.bit(i1),
        !mid.bit(i2),
    ensures
        i1 != i2,
{
}

/// The padded bitmap still has at least one bit per block, and a whole
/// number of blocks' worth of bytes.
pub proof fn lemma_map_bytes_bound(bc: int, bs: int)
    requires
        bc >= 0,
        bs >= 1,
    ensures
        bc <= map_bytes(bc, bs) * 8,
        map_bytes(bc, bs) % bs == 0,
        0 <= map_bytes(bc, bs) / bs,
        raw_map_bytes(bc) <= map_bytes(bc, bs),
{
    lemma_fundamental_div_mod(bc, 8);
    let raw = raw_map_bytes(bc);
    assert(bc <= raw * 8);
    assert(0 <= raw % bs < bs) by (nonlinear_arith)
        requires
            raw >= 0,
            bs >= 1,
    ;
    let q = raw / bs;
    lemma_fundamental_div_mod(raw, bs);
    if raw % bs != 0 {
        assert(map_bytes(bc, bs) == (q + 1) * bs) by (nonlinear_arith)
            requires
                map_bytes(bc, bs) == raw + bs - raw % bs,
                raw == bs * q + raw % bs,
        ;
        vstd::arithmetic::div_mod::lemma_mod_multiples_basic(q + 1, bs);
    }
    assert(raw * 8 <= map_bytes(bc, bs) * 8) by (nonlinear_arith)
        requires
            raw <= map_bytes(bc, bs),
    ;
    vstd::arithmetic::div_mod::lemma_div_pos_is_pos(map_bytes(bc, bs), bs);
}

/// The bitmap of free and used blocks.
pub struct BlockMap {
    /// First block of the on-disk bitmap region.
    pub first_block: BlockPointer,
    /// One past the last block of the region as reserved at creation;
    /// the region occupies `[first_block, last_block)`.
    pub last_block: BlockPointer,
    /// The bitmap bytes; bit `i` is block `i` of the device.
    pub data: Vec<u8>,
}

impl BlockMap {
    /// Structural consistency for a map handled at block size `bs`.
    pub open spec fn wf(&self, bs: int) -> bool {
        &&& 1 <= self.data@.len()
        &&& self.data@.len() as int % bs == 0
        &&& self.last_block as int == self.first_block as int + self.data@.len() as int / bs
        &&& self.data@.len() as int * 8 <= u64::MAX as int
    }

    /// Bit `i` of the map: true when block `i` is used.
    pub open spec fn bit(&self, i: int) -> bool {
        bit_at(self.data@, i)
    }

    /// Number of bits in the map (including padding bits past the device).
    pub open spec fn bits(&self) -> int {
        self.data@.len() as int * 8
    }

    /// The on-disk copy of the map matches the bytes in memory.
    pub open spec fn synced<D: DeviceDriver>(&self, io: IO<D>) -> bool {
        forall|k: int|
            0 <= k < self.data@.len() as int / io.block_size as int ==> #[trigger] io.block_view(
                self.first_block as int + k,
            ) == self.data@.subrange(k * io.block_size as int, (k + 1) * io.block_size as int)
    }

    /// The whole bitmap region lies on the device.
    pub open spec fn on_device<D: DeviceDriver>(&self, io: IO<D>) -> bool {
        self.last_block as int <= io.block_count as int
    }

    /// The zero-filled bitmap buffer for a device of `block_count` blocks:
    /// one bit per block, padded to a multiple of the block size.
    fn create_data(block_count: u64, block_size: usize) -> (r: Vec<u8>)
        requires
            block_count >= 1,
            block_size >= 1,
            map_bytes(block_count as int, block_size as int) <= usize::MAX,
        ensures
            r@.len() == map_bytes(block_count as int, block_size as int),
            forall|i: int| 0 <= i < r@.len() ==> r@[i] == 0u8,
            r@.len() as int % block_size as int == 0,
            block_count as int <= r@.len() as int * 8,
            r@.len() >= 1,
    {
        let base = block_count / 8;
        let raw: u64 = if block_count % 8 != 0 {
            base + 1
        } else {
            base
        };
        assert(raw as int == raw_map_bytes(block_count as int));
        let rem = raw % (block_size as u64);
        let padded: u64 = if rem != 0 {
            raw + ((block_size as u64) - rem)
        } else {
            raw
        };
        assert(padded as int == map_bytes(block_count as int, block_size as int));
        proof {
            lemma_fundamental_div_mod(block_count as int, 8);
            assert(block_count as int <= raw as int * 8);
            assert(raw >= 1);
            let bsz = block_size as int;
            let q = raw as int / bsz;
            lemma_fundamental_div_mod(raw as int, bsz);
            if rem != 0 {
                assert(padded as int == (q + 1) * bsz) by (nonlinear_arith)
                    requires
                        padded as int == raw as int + bsz - rem as int,
                        raw as int == bsz * q + rem as int,
                ;
                vstd::arithmetic::div_mod::lemma_mod_multiples_basic(q + 1, bsz);
            }
            assert(padded as int % block_size as int == 0);
        }
        let r = zero_vec(padded as usize);
        r
    }

    /// A fresh map for a device of `block_count` blocks, occupying the
    /// blocks `[first_block, last_block)` on disk. Every block up to and
    /// including `last_block` is pre-marked used, reserving the superblock
    /// region and the map itself.
    pub fn new(first_block: BlockPointer, block_count: u64, block_size: usize) -> (r: BlockMap)
        requires
            block_count >= 1,
            block_size >= 1,
            map_bytes(block_count as int, block_size as int) <= usize::MAX,
            first_block as int + map_bytes(block_count as int, block_size as int)
                / block_size as int + 1 < map_bytes(block_count as int, block_size as int) * 8,
            map_bytes(block_count as int, block_size as int) * 8 <= u64::MAX as int,
        ensures
            r.wf(block_size as int),
            r.first_block == first_block,
            r.last_block as int == first_block as int + map_bytes(
                block_count as int,
                block_size as int,
            ) / block_size as int,
            r.bits() == map_bytes(block_count as int, block_size as int) * 8,
            block_count as int <= r.bits(),
            forall|i: int| 0 <= i < r.bits() ==> r.bit(i) == (i <= r.last_block as int),
    {
        let data = BlockMap::create_data(block_count, block_size);
        let len = data.len();
        let last_block = first_block + (len as u64) / (block_size as u64);
        let mut map = BlockMap { first_block, last_block, data };
        let mut i: u64 = 0;
        proof {
            assert(map.bits() == len * 8);
            assert forall|j: int| 0 <= j < map.bits() implies !map.bit(j) by {
                lemma_fundamental_div_mod(j, 8);
                assert(j / 8 < map.data@.len());
                assert(map.data@[j / 8] == 0u8);
                let k = (j % 8) as u8;
                assert((0u8 >> k) & 1u8 != 1u8) by (bit_vector);
            }
        }
        while i < last_block + 1
            invariant
                i <= last_block + 1,
                last_block as int + 1 < map.bits(),
                map.data@.len() == len,
                map.bits() == len * 8,
                len * 8 <= u64::MAX as int,
                map.first_block == first_block,
                map.last_block == last_block,
                forall|j: int| 0 <= j < i ==> map.bit(j),
                forall|j: int| i <= j < map.bits() ==> !map.bit(j),
            decreases last_block + 1 - i,
        {
            map.mark_used_mem(i);
            i = i + 1;
        }
        map
    }

    /// Sets bit `index` in memory only.
    fn mark_used_mem(&mut self, index: BlockPointer)
        requires
            (index as int) < old(self).bits(),
        ensures
            final(self).data@.len() == old(self).data@.len(),
            final(self).first_block == old(self).first_block,
            final(self).last_block == old(self).last_block,
            final(self).bit(index as int),
            forall|j: int|
                0 <= j < final(self).bits() && j != index as int ==> final(self).bit(j) == old(
                    self,
                ).bit(j),
            forall|j: int|
                0 <= j < final(self).data@.len() && j != index as int / 8 ==> final(self).data@[j]
                    == old(self).data@[j],
    {
        let dlen = self.data.len();
        let byte_u: u64 = index / 8;
        proof {
            lemma_fundamental_div_mod(index as int, 8);
            assert((byte_u as int) < dlen as int);
        }
        let byte_index = byte_u as usize;
        let bit_index = (index % 8) as u8;
        let b = self.data[byte_index];
        self.data.set(byte_index, b | (1u8 << bit_index));
        proof {
            lemma_set_bit(b, bit_index);
            assert(self.bit(index as int));
            assert forall|j: int|
                0 <= j < self.bits() && j != index as int implies self.bit(j) == old(self).bit(
                j,
            ) by {
                lemma_bit_index_parts(j, index as int);
                lemma_fundamental_div_mod(j, 8);
                assert(j / 8 < self.data@.len());
                if j / 8 == index as int / 8 {
                    assert(nth_bit(self.data@[j / 8], j % 8) == nth_bit(old(self).data@[j / 8], j % 8));
                }
            }
        }
    }

    /// Clears bit `index` in memory only.
    fn mark_free_mem(&mut self, index: BlockPointer)
        requires
            (index as int) < old(self).bits(),
        ensures
            final(self).data@.len() == old(self).data@.len(),
            final(self).first_block == old(self).first_block,
            final(self).last_block == old(self).last_block,
            !final(self).bit(index as int),
            forall|j: int|
                0 <= j < final(self).bits() && j != index as int ==> final(self).bit(j) == old(
                    self,
                ).bit(j),
            forall|j: int|
                0 <= j < final(self).data@.len() && j != index as int / 8 ==> final(self).data@[j]
                    == old(self).data@[j],
    {
        let dlen = self.data.len();
        let byte_u: u64 = index / 8;
        proof {
            lemma_fundamental_div_mod(index as int, 8);
            assert((byte_u as int) < dlen as int);
        }
        let byte_index = byte_u as usize;
        let bit_index = (index % 8) as u8;
        let b = self.data[byte_index];
        self.data.set(byte_index, b & !(1u8 << bit_index));
        proof {
            lemma_clear_bit(b, bit_index);
            assert(!self.bit(index as int));
            assert forall|j: int|
                0 <= j < self.bits() && j != index as int implies self.bit(j) == old(self).bit(
                j,
            ) by {
                lemma_bit_index_parts(j, index as int);
                lemma_fundamental_div_mod(j, 8);
                assert(j / 8 < self.data@.len());
                if j / 8 == index as int / 8 {
                    assert(nth_bit(self.data@[j / 8], j % 8) == nth_bit(old(self).data@[j / 8], j % 8));
                }
            }
        }
    }

    /// True when bit `index` is clear: block `index` is free.
    pub fn is_free(&self, index: BlockPointer) -> (r: bool)
        requires
            (index as int) < self.bits(),
        ensures
            r == !self.bit(index as int),
    {
        let dlen = self.data.len();
        let byte_u: u64 = index / 8;
        proof {
            lemma_fundamental_div_mod(index as int, 8);
            assert((byte_u as int) < dlen as int);
        }
        let byte_index = byte_u as usize;
        let bit_index = (index % 8) as u8;
        let b = self.data[byte_index];
        proof {
            lemma_set_bit(b, bit_index);
        }
        b & (1u8 << bit_index) == 0
    }


    /// Writes the single region block that contains the byte holding bit
    /// `including_index`.
    pub fn write_part<D: DeviceDriver>(&self, io: &mut IO<D>, including_index: BlockPointer)
        requires
            old(io).wf(),
            self.wf(old(io).block_size as int),
            self.on_device(*old(io)),
            (including_index as int) < self.bits(),
        ensures
            final(io).wf(),
            final(io).block_size == old(io).block_size,
            final(io).block_count == old(io).block_count,
            final(io).sector_size() == old(io).sector_size(),
            final(io).drive.sectors().len() == old(io).drive.sectors().len(),
            final(io).block_view(
                self.first_block as int + including_index as int / 8 / old(io).block_size as int,
            ) == self.data@.subrange(
                (including_index as int / 8 / old(io).block_size as int) * old(
                    io,
                ).block_size as int,
                (including_index as int / 8 / old(io).block_size as int + 1) * old(
                    io,
                ).block_size as int,
            ),
            (self.first_block as int + including_index as int / 8 / old(io).block_size as int)
                < self.last_block as int,
            forall|j: int|
                0 <= j < old(io).block_count && j != self.first_block as int
                    + including_index as int / 8 / old(io).block_size as int ==> final(io).block_view(j) == old(io).block_view(j),
    {
        let bs = io.get_block_size();
        let dl = self.data.len();
        proof {
            io.lemma_geometry();
        }
        let block: u64 = including_index / (bs as u64) / 8;
        let ghost rb = including_index as int / 8 / bs as int;
        proof {
            lemma_div_denominator(including_index as int, bs as int, 8);
            lemma_div_denominator(including_index as int, 8, bs as int);
            assert(block as int == rb);
            lemma_fundamental_div_mod(including_index as int, 8);
            let dlen = dl as int;
            assert((including_index as int / 8) < dlen);
            lemma_fundamental_div_mod(dlen, bs as int);
            assert((dlen / bs as int) * bs as int == dlen) by (nonlinear_arith)
                requires
                    dlen == bs as int * (dlen / bs as int),
            ;
            vstd::arithmetic::div_mod::lemma_div_by_multiple_is_strongly_ordered(
                including_index as int / 8,
                dlen,
                dlen / bs as int,
                bs as int,
            );
            assert(rb < dlen / bs as int);
            assert((rb + 1) * bs as int <= (dlen / bs as int) * bs as int) by (nonlinear_arith)
                requires
                    rb + 1 <= dlen / bs as int,
                    bs as int >= 0,
            ;
            assert(rb * bs as int >= 0) by (nonlinear_arith)
                requires
                    rb >= 0,
                    bs as int >= 0,
            ;
            assert((rb + 1) * bs as int == rb * bs as int + bs as int) by (nonlinear_arith);
            assert(rb <= rb * bs as int) by (nonlinear_arith)
                requires
                    rb >= 0,
                    bs as int >= 1,
            ;
        }
        let start = (block as usize) * bs;
        let data_block = sub_bytes(&self.data, start, start + bs);
        proof {
            assert(self.first_block as int + rb < self.last_block as int);
        }
        io.write_block(self.first_block + block, &data_block);
    }

    /// Writes the whole bitmap region to disk, bringing it in sync.
    pub fn write_full<D: DeviceDriver>(&self, io: &mut IO<D>)
        requires
            old(io).wf(),
            self.wf(old(io).block_size as int),
            self.on_device(*old(io)),
        ensures
            final(io).wf(),
            final(io).block_size == old(io).block_size,
            final(io).block_count == old(io).block_count,
            final(io).sector_size() == old(io).sector_size(),
            final(io).drive.sectors().len() == old(io).drive.sectors().len(),
            self.synced(*final(io)),
            forall|j: int|
                0 <= j < old(io).block_count && !(self.first_block as int <= j
                    < self.last_block as int) ==> final(io).block_view(j) == old(io).block_view(
                    j,
                ),
    {
        let bs = io.get_block_size();
        let dl = self.data.len();
        proof {
            io.lemma_geometry();
        }
        let blocks: u64 = (dl as u64) / (bs as u64);
        let ghost old_io = *old(io);
        let ghost dlen = self.data@.len() as int;
        proof {
            lemma_fundamental_div_mod(dlen, bs as int);
            assert((dlen / bs as int) * bs as int == dlen) by (nonlinear_arith)
                requires
                    dlen == bs as int * (dlen / bs as int),
            ;
        }
        let mut k: u64 = 0;
        while k < blocks
            invariant
                k <= blocks,
                bs >= 1,
                dl as int == dlen,
                blocks as int == dlen / bs as int,
                dlen == self.data@.len() as int,
                (dlen / bs as int) * bs as int == dlen,
                bs == old_io.block_size,
                old_io.wf(),
                self.wf(old_io.block_size as int),
                self.on_device(old_io),
                io.wf(),
                io.block_size == old_io.block_size,
                io.block_count == old_io.block_count,
                io.sector_size() == old_io.sector_size(),
                io.drive.sectors().len() == old_io.drive.sectors().len(),
                forall|j: int|
                    0 <= j < k ==> #[trigger] io.block_view(self.first_block as int + j)
                        == self.data@.subrange(j * bs as int, (j + 1) * bs as int),
                forall|j: int|
                    0 <= j < old_io.block_count && !(self.first_block as int <= j
                        < self.first_block as int + k) ==> #[trigger] io.block_view(j)
                        == old_io.block_view(j),
            decreases blocks - k,
        {
            proof {
                assert((k as int + 1) * bs as int <= blocks as int * bs as int)
                    by (nonlinear_arith)
                    requires
                        k as int + 1 <= blocks as int,
                        bs as int >= 0,
                ;
                assert(blocks as int * bs as int == dlen) by (nonlinear_arith)
                    requires
                        blocks as int == dlen / bs as int,
                        (dlen / bs as int) * bs as int == dlen,
                ;
                assert(k as int * bs as int >= 0) by (nonlinear_arith)
                    requires
                        k as int >= 0,
                        bs as int >= 0,
                ;
                assert((k as int + 1) * bs as int == k as int * bs as int + bs as int)
                    by (nonlinear_arith);
                assert(k as int <= k as int * bs as int) by (nonlinear_arith)
                    requires
                        k as int >= 0,
                        bs as int >= 1,
                ;
            }
            let start = (k as usize) * bs;
            let data_block = sub_bytes(&self.data, start, start + bs);
            io.write_block(self.first_block + k, &data_block);
            k = k + 1;
        }
    }

    /// Sets bit `index` and writes the containing region block through.
    pub fn mark_used<D: DeviceDriver>(&mut self, io: &mut IO<D>, index: BlockPointer)
        requires
            old(io).wf(),
            old(self).wf(old(io).block_size as int),
            old(self).on_device(*old(io)),
            old(self).synced(*old(io)),
            (index as int) < old(self).bits(),
        ensures
            final(self).first_block == old(self).first_block,
            final(self).last_block == old(self).last_block,
            final(self).data@.len() == old(self).data@.len(),
            final(self).wf(old(io).block_size as int),
            final(self).bit(index as int),
            forall|j: int|
                0 <= j < final(self).bits() && j != index as int ==> final(self).bit(j) == old(
                    self,
                ).bit(j),
            count_used_bits(final(self).data@, final(self).bits()) == count_used_bits(
                old(self).data@,
                old(self).bits(),
            ) + if old(self).bit(index as int) {
                0int
            } else {
                1int
            },
            final(io).wf(),
            final(io).block_size == old(io).block_size,
            final(io).block_count == old(io).block_count,
            final(io).sector_size() == old(io).sector_size(),
            final(io).drive.sectors().len() == old(io).drive.sectors().len(),
            final(self).synced(*final(io)),
            forall|j: int|
                0 <= j < old(io).block_count && !(old(self).first_block as int <= j < old(
                    self,
                ).last_block as int) ==> final(io).block_view(j) == old(io).block_view(j),
    {
        self.mark_used_mem(index);
        proof {
            assert forall|j: int| 0 <= j < self.bits() && j != index as int implies bit_at(
                self.data@,
                j,
            ) == bit_at(old(self).data@, j) by {
                assert(self.bit(j) == old(self).bit(j));
            }
            if old(self).bit(index as int) {
                assert(bit_at(self.data@, index as int) == bit_at(old(self).data@, index as int));
                lemma_count_agree(old(self).data@, self.data@, self.bits());
            } else {
                assert(bit_at(self.data@, index as int) != bit_at(old(self).data@, index as int));
                lemma_count_flip(old(self).data@, self.data@, index as int, self.bits());
            }
        }
        self.write_part(io, index);
        proof {
            old(io).lemma_geometry();
            vstd::arithmetic::div_mod::lemma_div_pos_is_pos(index as int, 8);
            vstd::arithmetic::div_mod::lemma_div_pos_is_pos(
                index as int / 8,
                old(io).block_size as int,
            );
            self.lemma_one_block_resync(*old(self), *old(io), *io, index as int);
        }
    }

    /// Clears bit `index` and writes the containing region block through.
    pub fn mark_free<D: DeviceDriver>(&mut self, io: &mut IO<D>, index: BlockPointer)
        requires
            old(io).wf(),
            old(self).wf(old(io).block_size as int),
            old(self).on_device(*old(io)),
            old(self).synced(*old(io)),
            (index as int) < old(self).bits(),
        ensures
            final(self).first_block == old(self).first_block,
            final(self).last_block == old(self).last_block,
            final(self).data@.len() == old(self).data@.len(),
            final(self).wf(old(io).block_size as int),
            !final(self).bit(index as int),
            forall|j: int|
                0 <= j < final(self).bits() && j != index as int ==> final(self).bit(j) == old(
                    self,
                ).bit(j),
            count_used_bits(final(self).data@, final(self).bits()) == count_used_bits(
                old(self).data@,
                old(self).bits(),
            ) - if old(self).bit(index as int) {
                1int
            } else {
                0int
            },
            final(io).wf(),
            final(io).block_size == old(io).block_size,
            final(io).block_count == old(io).block_count,
            final(io).sector_size() == old(io).sector_size(),
            final(io).drive.sectors().len() == old(io).drive.sectors().len(),
            final(self).synced(*final(io)),
            forall|j: int|
                0 <= j < old(io).block_count && !(old(self).first_block as int <= j < old(
                    self,
                ).last_block as int) ==> final(io).block_view(j) == old(io).block_view(j),
    {
        self.mark_free_mem(index);
        proof {
            assert forall|j: int| 0 <= j < self.bits() && j != index as int implies bit_at(
                self.data@,
                j,
            ) == bit_at(old(self).data@, j) by {
                assert(self.bit(j) == old(self).bit(j));
            }
            if old(self).bit(index as int) {
                assert(bit_at(self.data@, index as int) != bit_at(old(self).data@, index as int));
                lemma_count_flip(old(self).data@, self.data@, index as int, self.bits());
            } else {
                assert(bit_at(self.data@, index as int) == bit_at(old(self).data@, index as int));
                lemma_count_agree(old(self).data@, self.data@, self.bits());
            }
        }
        self.write_part(io, index);
        proof {
            old(io).lemma_geometry();
            vstd::arithmetic::div_mod::lemma_div_pos_is_pos(index as int, 8);
            vstd::arithmetic::div_mod::lemma_div_pos_is_pos(
                index as int / 8,
                old(io).block_size as int,
            );
            self.lemma_one_block_resync(*old(self), *old(io), *io, index as int);
        }
    }

    /// After a one-byte change at the byte of bit `index` and a
    /// `write_part` for that bit, the map is synced again.
    proof fn lemma_one_block_resync<D: DeviceDriver>(
        &self,
        prev: BlockMap,
        io_prev: IO<D>,
        io: IO<D>,
        index: int,
    )
        requires
            io_prev.wf(),
            io.wf(),
            io.block_size == io_prev.block_size,
            io.block_count == io_prev.block_count,
            prev.wf(io_prev.block_size as int),
            self.wf(io_prev.block_size as int),
            prev.synced(io_prev),
            prev.on_device(io_prev),
            self.first_block == prev.first_block,
            self.last_block == prev.last_block,
            self.data@.len() == prev.data@.len(),
            0 <= index < self.bits(),
            forall|j: int|
                0 <= j < self.data@.len() && j != index / 8 ==> self.data@[j] == prev.data@[j],
            io.block_view(self.first_block as int + index / 8 / io_prev.block_size as int)
                == self.data@.subrange(
                (index / 8 / io_prev.block_size as int) * io_prev.block_size as int,
                (index / 8 / io_prev.block_size as int + 1) * io_prev.block_size as int,
            ),
            forall|j: int|
                0 <= j < io_prev.block_count && j != self.first_block as int + index / 8
                    / io_prev.block_size as int ==> io.block_view(j) == io_prev.block_view(j),
        ensures
            self.synced(io),
    {
        io_prev.lemma_geometry();
        let bs = io_prev.block_size as int;
        let dlen = self.data@.len() as int;
        let byte = index / 8;
        let rb = byte / bs;
        lemma_fundamental_div_mod(index, 8);
        assert(byte < dlen);
        lemma_fundamental_div_mod(dlen, bs);
        assert((dlen / bs) * bs == dlen) by (nonlinear_arith)
            requires
                dlen == bs * (dlen / bs),
        ;
        vstd::arithmetic::div_mod::lemma_div_by_multiple_is_strongly_ordered(
            byte,
            dlen,
            dlen / bs,
            bs,
        );
        lemma_fundamental_div_mod(byte, bs);
        assert forall|k: int| 0 <= k < dlen / bs implies #[trigger] io.block_view(
            self.first_block as int + k,
        ) == self.data@.subrange(k * bs, (k + 1) * bs) by {
            assert(k * bs >= 0) by (nonlinear_arith)
                requires
                    k >= 0,
                    bs >= 0,
            ;
            assert((k + 1) * bs <= (dlen / bs) * bs) by (nonlinear_arith)
                requires
                    k + 1 <= dlen / bs,
                    bs >= 0,
            ;
            assert((k + 1) * bs == k * bs + bs) by (nonlinear_arith);
            if k == rb {
            } else {
                assert(self.first_block as int + k != self.first_block as int + rb);
                assert(self.first_block as int + k < io_prev.block_count);
                assert(io.block_view(self.first_block as int + k) == io_prev.block_view(
                    self.first_block as int + k,
                ));
                assert(io_prev.block_view(self.first_block as int + k) == prev.data@.subrange(
                    k * bs,
                    (k + 1) * bs,
                ));
                assert forall|p: int| k * bs <= p < (k + 1) * bs implies self.data@[p]
                    == prev.data@[p] by {
                    if p == byte {
                        assert(0 <= byte % bs < bs);
                        assert(rb * bs <= byte < (rb + 1) * bs) by (nonlinear_arith)
                            requires
                                byte == bs * rb + byte % bs,
                                0 <= byte % bs < bs,
                        ;
                        assert(false) by (nonlinear_arith)
                            requires
                                k * bs <= p < (k + 1) * bs,
                                rb * bs <= p < (rb + 1) * bs,
                                k != rb,
                                bs >= 1,
                        ;
                    }
                }
                assert(self.data@.subrange(k * bs, (k + 1) * bs) =~= prev.data@.subrange(
                    k * bs,
                    (k + 1) * bs,
                ));
            }
        }
    }


    /// Reads the bitmap region back from disk, starting at block `index`.
    pub fn read<D: DeviceDriver>(io: &IO<D>, index: BlockPointer) -> (r: BlockMap)
        requires
            io.wf(),
            io.block_count >= 1,
            map_bytes(io.block_count as int, io.block_size as int) <= usize::MAX,
            map_bytes(io.block_count as int, io.block_size as int) * 8 <= u64::MAX as int,
            index as int + map_bytes(io.block_count as int, io.block_size as int)
                / io.block_size as int <= io.block_count as int,
        ensures
            r.first_block == index,
            r.wf(io.block_size as int),
            r.on_device(*io),
            r.synced(*io),
            r.data@.len() == map_bytes(io.block_count as int, io.block_size as int),
    {
        proof {
            io.lemma_geometry();
        }
        let bs = io.get_block_size();
        let mut data = BlockMap::create_data(io.get_block_count(), bs);
        let dl = data.len();
        let blocks: u64 = (dl as u64) / (bs as u64);
        let ghost dlen = dl as int;
        proof {
            lemma_fundamental_div_mod(dlen, bs as int);
            assert((dlen / bs as int) * bs as int == dlen) by (nonlinear_arith)
                requires
                    dlen == bs as int * (dlen / bs as int),
            ;
        }
        let last_block = index + blocks;
        let mut k: u64 = 0;
        while k < blocks
            invariant
                k <= blocks,
                bs >= 1,
                bs == io.block_size,
                io.wf(),
                dl as int == dlen,
                data@.len() == dlen,
                blocks as int == dlen / bs as int,
                (dlen / bs as int) * bs as int == dlen,
                index as int + blocks as int <= io.block_count as int,
                forall|j: int|
                    0 <= j < k ==> #[trigger] io.block_view(index as int + j) == data@.subrange(
                        j * bs as int,
                        (j + 1) * bs as int,
                    ),
            decreases blocks - k,
        {
            proof {
                assert((k as int + 1) * bs as int <= blocks as int * bs as int)
                    by (nonlinear_arith)
                    requires
                        k as int + 1 <= blocks as int,
                        bs as int >= 0,
                ;
                assert(blocks as int * bs as int == dlen) by (nonlinear_arith)
                    requires
                        blocks as int == dlen / bs as int,
                        (dlen / bs as int) * bs as int == dlen,
                ;
                assert(k as int * bs as int >= 0) by (nonlinear_arith)
                    requires
                        k as int >= 0,
                        bs as int >= 0,
                ;
                assert((k as int + 1) * bs as int == k as int * bs as int + bs as int)
                    by (nonlinear_arith);
                assert(k as int <= k as int * bs as int) by (nonlinear_arith)
                    requires
                        k as int >= 0,
                        bs as int >= 1,
                ;
            }
            let block = io.read_block(index + k);
            let off = (k as usize) * bs;
            let ghost before = data@;
            crate::bytes::splice_bytes(&mut data, off, &block);
            proof {
                assert forall|j: int| 0 <= j < k + 1 implies #[trigger] io.block_view(
                    index as int + j,
                ) == data@.subrange(j * bs as int, (j + 1) * bs as int) by {
                    assert(j * bs as int >= 0) by (nonlinear_arith)
                        requires
                            j >= 0,
                            bs as int >= 0,
                    ;
                    assert((j + 1) * bs as int == j * bs as int + bs as int) by (nonlinear_arith);
                    if j < k {
                        assert((j + 1) * bs as int <= k as int * bs as int) by (nonlinear_arith)
                            requires
                                j + 1 <= k as int,
                                bs as int >= 0,
                        ;
                        assert(data@.subrange(j * bs as int, (j + 1) * bs as int)
                            =~= before.subrange(j * bs as int, (j + 1) * bs as int));
                    } else {
                        assert(data@.subrange(k as int * bs as int, k as int * bs as int
                            + bs as int) =~= block@);
                    }
                }
            }
            k = k + 1;
        }
        let r = BlockMap { first_block: index, last_block, data };
        proof {
            assert(r.synced(*io));
        }
        r
    }

    /// Allocates the lowest free block: scans the bitmap first-fit, marks
    /// the bit used and writes it through. Returns `None`, leaving memory
    /// and disk untouched, when every bit is already used.
    pub fn allocate<D: DeviceDriver>(&mut self, io: &mut IO<D>) -> (r: Option<u64>)
        requires
            old(io).wf(),
            old(self).wf(old(io).block_size as int),
            old(self).on_device(*old(io)),
            old(self).synced(*old(io)),
        ensures
            final(self).first_block == old(self).first_block,
            final(self).last_block == old(self).last_block,
            final(self).data@.len() == old(self).data@.len(),
            final(self).wf(old(io).block_size as int),
            final(io).wf(),
            final(io).block_size == old(io).block_size,
            final(io).block_count == old(io).block_count,
            final(io).sector_size() == old(io).sector_size(),
            final(io).drive.sectors().len() == old(io).drive.sectors().len(),
            final(self).synced(*final(io)),
            forall|j: int|
                0 <= j < old(io).block_count && !(old(self).first_block as int <= j < old(
                    self,
                ).last_block as int) ==> final(io).block_view(j) == old(io).block_view(j),
            match r {
                Some(idx) => {
                    &&& 0 <= (idx as int) && (idx as int) < old(self).bits()
                    &&& !old(self).bit(idx as int)
                    &&& final(self).bit(idx as int)
                    &&& forall|j: int| 0 <= j < idx as int ==> old(self).bit(j)
                    &&& forall|j: int|
                        0 <= j < final(self).bits() && j != idx as int ==> final(self).bit(j)
                            == old(self).bit(j)
                    &&& count_used_bits(final(self).data@, final(self).bits()) == count_used_bits(
                        old(self).data@,
                        old(self).bits(),
                    ) + 1
                },
                None => {
                    &&& *final(self) == *old(self)
                    &&& *final(io) == *old(io)
                    &&& forall|j: int| 0 <= j < old(self).bits() ==> old(self).bit(j)
                },
            },
    {
        let dl = self.data.len();
        let mut byte_index: usize = 0;
        while byte_index < dl
            invariant
                byte_index <= dl,
                dl == self.data@.len(),
                *self == *old(self),
                *io == *old(io),
                old(io).wf(),
                old(self).wf(old(io).block_size as int),
                old(self).on_device(*old(io)),
                old(self).synced(*old(io)),
                forall|b: int| 0 <= b < byte_index as int * 8 ==> old(self).bit(b),
            decreases dl - byte_index,
        {
            let byte = self.data[byte_index];
            let mut j: u8 = 0;
            while j < 8
                invariant
                    j <= 8,
                    byte_index < dl,
                    dl == self.data@.len(),
                    byte == self.data@[byte_index as int],
                    *self == *old(self),
                    *io == *old(io),
                    old(io).wf(),
                    old(self).wf(old(io).block_size as int),
                    old(self).on_device(*old(io)),
                    old(self).synced(*old(io)),
                    forall|b: int|
                        0 <= b < byte_index as int * 8 + j as int ==> old(self).bit(b),
                decreases 8 - j,
            {
                if byte & (1u8 << j) == 0 {
                    let result: u64 = (byte_index as u64) * 8 + (j as u64);
                    proof {
                        lemma_set_bit(byte, j);
                        assert(result as int / 8 == byte_index as int && result as int % 8
                            == j as int) by (nonlinear_arith)
                            requires
                                result as int == byte_index as int * 8 + j as int,
                                0 <= j < 8,
                                byte_index >= 0,
                        ;
                        assert(!self.bit(result as int));
                        assert((result as int) < self.bits()) by (nonlinear_arith)
                            requires
                                result as int == byte_index as int * 8 + j as int,
                                0 <= j < 8,
                                (byte_index as int) < self.data@.len() as int,
                                self.bits() == self.data@.len() as int * 8,
                        ;
                    }
                    self.mark_used(io, result);
                    return Some(result);
                }
                proof {
                    lemma_set_bit(byte, j);
                    assert forall|b: int|
                        0 <= b < byte_index as int * 8 + j as int + 1 implies old(self).bit(
                        b,
                    ) by {
                        if b == byte_index as int * 8 + j as int {
                            assert(b / 8 == byte_index as int && b % 8 == j as int)
                                by (nonlinear_arith)
                                requires
                                    b == byte_index as int * 8 + j as int,
                                    0 <= j < 8,
                                    byte_index >= 0,
                            ;
                            assert(nth_bit(byte, j as int));
                        }
                    }
                }
                j = j + 1;
            }
            proof {
                assert(byte_index as int * 8 + 8 == (byte_index as int + 1) * 8)
                    by (nonlinear_arith);
            }
            byte_index = byte_index + 1;
        }
        proof {
            assert forall|b: int| 0 <= b < old(self).bits() implies old(self).bit(b) by {
                assert(old(self).bits() == dl as int * 8);
            }
        }
        None
    }


    /// Syncedness survives writes that avoid the bitmap region.
    pub proof fn lemma_synced_preserved<D: DeviceDriver>(
        &self,
        io1: IO<D>,
        io2: IO<D>,
        lo: int,
        hi: int,
    )
        requires
            self.wf(io1.block_size as int),
            self.on_device(io1),
            self.synced(io1),
            io1.block_size >= 1,
            io2.block_size == io1.block_size,
            io2.block_count == io1.block_count,
            hi <= self.first_block as int || self.last_block as int <= lo,
            forall|j: int|
                0 <= j < io1.block_count && !(lo <= j < hi) ==> io2.block_view(j)
                    == io1.block_view(j),
        ensures
            self.synced(io2),
    {
        let bs = io1.block_size as int;
        assert forall|k: int|
            0 <= k < self.data@.len() as int / bs implies #[trigger] io2.block_view(
            self.first_block as int + k,
        ) == self.data@.subrange(k * bs, (k + 1) * bs) by {
            let x = self.first_block as int + k;
            assert(x < self.last_block as int);
            assert(io2.block_view(x) == io1.block_view(x));
        }
    }

    /// True when bit `index` is set: block `index` is used.
    pub fn is_used(&self, index: BlockPointer) -> (r: bool)
        requires
            (index as int) < self.bits(),
        ensures
            r == self.bit(index as int),
    {
        !self.is_free(index)
    }
}

} // verus!
