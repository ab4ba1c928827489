//! The inode table: an allocation bitmap and a packed array of inodes.
//!
//! The table occupies two contiguous on-disk regions: the inode bitmap
//! (one bit per inode, least-significant bit first) and the inode array
//! (fixed-size records packed whole into blocks). Ids are allocated
//! first-fit from the bitmap; every bitmap change is written through.

use vstd::prelude::*;

use vstd::arithmetic::div_mod::lemma_div_by_multiple;
use vstd::arithmetic::div_mod::lemma_div_pos_is_pos;
use vstd::arithmetic::div_mod::lemma_fundamental_div_mod;
use vstd::arithmetic::div_mod::lemma_mod_multiples_basic;

use crate::bits::bit_at;
use crate::bits::lemma_set_bit;
use crate::bits::nth_bit;
use crate::bytes::sub_bytes;
use crate::bytes::splice_bytes;
use crate::bytes::zero_vec;
use crate::device::DeviceDriver;
use crate::error::Error;
use crate::inode::Inode;
use crate::io::IO;
use crate::serializable::ByteSerializable;
use crate::serializable::KnownSize;
use crate::BlockPointer;
use crate::InodePointer;
use crate::BLOCKS_PER_INODE_MAP;

verus! {

/// How many inodes a device of `bc` blocks is provisioned with, at block
/// size `bs`: one bitmap block's worth of inodes per `BLOCKS_PER_INODE_MAP`
/// device blocks, with a floor of one bitmap block so that small images
/// still get inodes.
pub open spec fn spec_inode_count(bc: int, bs: int) -> int {
    if bc / (BLOCKS_PER_INODE_MAP as int) == 0 {
        bs * 8
    } else {
        (bc / (BLOCKS_PER_INODE_MAP as int)) * (bs * 8)
    }
}

/// `a / b` rounded up.
pub open spec fn spec_ceil_div(a: int, b: int) -> int {
    if a % b == 0 {
        a / b
    } else {
        a / b + 1
    }
}

/// The bitmap and record array of all inodes.
pub struct InodeTable<META: ByteSerializable + KnownSize> {
    /// The inode bitmap; bit `i` is inode `i`, one means allocated.
    pub map: Vec<u8>,
    /// First block of the bitmap region.
    pub map_index: u64,
    /// Number of inode slots.
    pub inode_count: u64,
    /// First block of the record array.
    pub table_index: u64,
    /// Total blocks of both regions.
    pub block_count: usize,
    /// The metadata payload type the records carry.
    pub meta: core::marker::PhantomData<META>,
}

impl<META: ByteSerializable + KnownSize> InodeTable<META> {
    /// Records that fit in one block.
    pub open spec fn spec_ipb(bs: int) -> int {
        bs / Inode::<META>::spec_size_on_disk() as int
    }

    /// Blocks of the bitmap region.
    pub open spec fn spec_map_blocks(&self, bs: int) -> int {
        self.inode_count as int / 8 / bs
    }

    /// Blocks of the record array.
    pub open spec fn spec_table_blocks(&self, bs: int) -> int {
        spec_ceil_div(self.inode_count as int, Self::spec_ipb(bs))
    }

    /// Structural consistency at block size `bs`.
    pub open spec fn wf(&self, bs: int) -> bool {
        &&& Inode::<META>::spec_size_on_disk() <= bs
        &&& Inode::<META>::spec_size_on_disk() <= usize::MAX
        &&& bs * (crate::DIRECT_POINTERS as int) <= u64::MAX as int
        &&& self.inode_count >= 1
        &&& self.inode_count as int % 8 == 0
        &&& self.map@.len() as int == self.inode_count as int / 8
        &&& self.map@.len() as int % bs == 0
        &&& 1 <= self.map@.len()
        &&& self.table_index as int == self.map_index as int + self.spec_map_blocks(bs)
        &&& self.block_count as int == self.spec_map_blocks(bs) + self.spec_table_blocks(bs)
    }

    /// Bit `i` of the inode bitmap: true when inode `i` is allocated.
    pub open spec fn bit(&self, i: int) -> bool {
        bit_at(self.map@, i)
    }

    /// The on-disk bitmap matches the bytes in memory.
    pub open spec fn synced<D: DeviceDriver>(&self, io: IO<D>) -> bool {
        forall|k: int|
            0 <= k < self.map@.len() as int / io.block_size as int ==> #[trigger] io.block_view(
                self.map_index as int + k,
            ) == self.map@.subrange(k * io.block_size as int, (k + 1) * io.block_size as int)
    }

    /// Both regions lie on the device.
    pub open spec fn on_device<D: DeviceDriver>(&self, io: IO<D>) -> bool {
        self.map_index as int + self.block_count as int <= io.block_count as int
    }

    /// The block holding the record of inode `id`.
    pub open spec fn slot_block(&self, id: int, bs: int) -> int {
        self.table_index as int + id / Self::spec_ipb(bs)
    }

    /// The byte offset of the record of inode `id` within its block.
    pub open spec fn slot_offset(id: int, bs: int) -> int {
        (id % Self::spec_ipb(bs)) * Inode::<META>::spec_size_on_disk() as int
    }

    /// The on-disk bytes of the record of inode `id`.
    pub open spec fn slot_view<D: DeviceDriver>(&self, io: IO<D>, id: int) -> Seq<u8> {
        io.block_view(self.slot_block(id, io.block_size as int)).subrange(
            Self::slot_offset(id, io.block_size as int),
            Self::slot_offset(id, io.block_size as int)
                + Inode::<META>::spec_size_on_disk() as int,
        )
    }

    /// Where the record of a valid inode id lies: inside the record array,
    /// at an in-block offset that fits a whole record.
    pub proof fn lemma_slot_in_range(&self, bs: int, id: int)
        requires
            self.wf(bs),
            0 <= id < self.inode_count,
        ensures
            1 <= Self::spec_ipb(bs),
            0 <= id / Self::spec_ipb(bs) < self.spec_table_blocks(bs),
            0 <= Self::slot_offset(id, bs),
            Self::slot_offset(id, bs) + Inode::<META>::spec_size_on_disk() <= bs,
            self.table_index <= self.slot_block(id, bs) < self.table_index as int
                + self.spec_table_blocks(bs),
    {
        let isz = Inode::<META>::spec_size_on_disk() as int;
        let ipb = Self::spec_ipb(bs);
        let ic = self.inode_count as int;
        let tb = self.spec_table_blocks(bs);
        lemma_fundamental_div_mod(bs, isz);
        assert(ipb >= 1) by (nonlinear_arith)
            requires
                bs == isz * ipb + bs % isz,
                0 <= bs % isz < isz,
                isz <= bs,
                isz >= 1,
        ;
        lemma_div_pos_is_pos(id, ipb);
        lemma_fundamental_div_mod(ic, ipb);
        // id < ic <= tb * ipb, so id / ipb < tb
        assert(ic <= tb * ipb) by (nonlinear_arith)
            requires
                ic == ipb * (ic / ipb) + ic % ipb,
                0 <= ic % ipb < ipb,
                tb == spec_ceil_div(ic, ipb),
                spec_ceil_div(ic, ipb) == if ic % ipb == 0 {
                    ic / ipb
                } else {
                    ic / ipb + 1
                },
        ;
        vstd::arithmetic::div_mod::lemma_div_by_multiple_is_strongly_ordered(id, tb * ipb, tb, ipb);
        lemma_div_by_multiple(tb, ipb);
        // the offset of the last record in a block still fits
        lemma_fundamental_div_mod(id, ipb);
        assert(0 <= id % ipb < ipb);
        assert(0 <= (id % ipb) * isz) by (nonlinear_arith)
            requires
                0 <= id % ipb,
                0 <= isz,
        ;
        assert((id % ipb) * isz + isz <= ipb * isz) by (nonlinear_arith)
            requires
                id % ipb < ipb,
                0 <= isz,
        ;
        assert(ipb * isz <= bs) by (nonlinear_arith)
            requires
                bs == isz * ipb + bs % isz,
                0 <= bs % isz,
        ;
    }

    /// Distinct inode ids occupy disjoint byte ranges: either different
    /// blocks, or non-overlapping offsets within one block.
    pub proof fn lemma_slots_disjoint(&self, bs: int, id1: int, id2: int)
        requires
            self.wf(bs),
            0 <= id1 < self.inode_count,
            0 <= id2 < self.inode_count,
            id1 != id2,
        ensures
            self.slot_block(id1, bs) != self.slot_block(id2, bs) || Self::slot_offset(id1, bs)
                + Inode::<META>::spec_size_on_disk() <= Self::slot_offset(id2, bs)
                || Self::slot_offset(id2, bs) + Inode::<META>::spec_size_on_disk()
                <= Self::slot_offset(id1, bs),
    {
        let isz = Inode::<META>::spec_size_on_disk() as int;
        let ipb = Self::spec_ipb(bs);
        self.lemma_slot_in_range(bs, id1);
        self.lemma_slot_in_range(bs, id2);
        lemma_fundamental_div_mod(id1, ipb);
        lemma_fundamental_div_mod(id2, ipb);
        if self.slot_block(id1, bs) == self.slot_block(id2, bs) {
            assert(id1 / ipb == id2 / ipb);
            assert(id1 % ipb != id2 % ipb);
            if id1 % ipb < id2 % ipb {
                assert((id1 % ipb) * isz + isz <= (id2 % ipb) * isz) by (nonlinear_arith)
                    requires
                        id1 % ipb < id2 % ipb,
                        isz >= 1,
                ;
            } else {
                assert((id2 % ipb) * isz + isz <= (id1 % ipb) * isz) by (nonlinear_arith)
                    requires
                        id2 % ipb < id1 % ipb,
                        isz >= 1,
                ;
            }
        }
    }

    /// How many inodes to provision for a device of `block_count` blocks.
    fn calculate_inode_count(block_count: u64, block_size: usize) -> (r: u64)
        requires
            block_size >= 1,
            spec_inode_count(block_count as int, block_size as int) <= u64::MAX as int,
            block_size as int * 8 <= u64::MAX as int,
        ensures
            r as int == spec_inode_count(block_count as int, block_size as int),
            r as int % 8 == 0,
            r >= 8,
            (r as int / 8) % block_size as int == 0,
            r as int / 8 >= 1,
            (r as int / 8) / block_size as int >= 1,
    {
        let bits_per_block: u64 = (block_size as u64) * 8;
        let blocks = block_count / (BLOCKS_PER_INODE_MAP as u64);
        let r = if blocks == 0 {
            bits_per_block
        } else {
            proof {
                let k = blocks as int;
                let b8 = bits_per_block as int;
                assert(k * b8 <= u64::MAX as int) by (nonlinear_arith)
                    requires
                        k * b8 == spec_inode_count(block_count as int, block_size as int),
                        spec_inode_count(block_count as int, block_size as int)
                            <= u64::MAX as int,
                ;
            }
            blocks * bits_per_block
        };
        proof {
            let k: int = if blocks == 0 {
                1
            } else {
                blocks as int
            };
            let bsz = block_size as int;
            if blocks == 0 {
                assert(r as int == k * (bsz * 8)) by (nonlinear_arith)
                    requires
                        r as int == bsz * 8,
                        k == 1,
                ;
            }
            assert(r as int == k * (bsz * 8));
            assert(r as int == (k * bsz) * 8) by (nonlinear_arith)
                requires
                    r as int == k * (bsz * 8),
            ;
            assert(k * bsz >= bsz) by (nonlinear_arith)
                requires
                    k >= 1,
                    bsz >= 1,
            ;
            lemma_mod_multiples_basic(k * bsz, 8);
            lemma_div_by_multiple(k * bsz, 8);
            assert(r as int / 8 == k * bsz);
            lemma_mod_multiples_basic(k, bsz);
            assert((k * bsz) % bsz == 0);
            lemma_div_by_multiple(k, bsz);
            assert((k * bsz) / bsz == k);
            assert(r >= 8) by (nonlinear_arith)
                requires
                    r as int == (k * bsz) * 8,
                    k * bsz >= 1,
            ;
        }
        r
    }

    /// Provisions a fresh table at format time: derives the inode count
    /// from the device size, zeroes both regions on disk and starts with an
    /// all-free bitmap.
    pub fn create<D: DeviceDriver>(index: BlockPointer, io: &mut IO<D>) -> (r: InodeTable<META>)
        requires
            old(io).wf(),
            Inode::<META>::spec_size_on_disk() <= old(io).block_size,
            Inode::<META>::spec_size_on_disk() <= usize::MAX,
            old(io).block_size as int * (crate::DIRECT_POINTERS as int) <= u64::MAX as int,
            spec_inode_count(old(io).block_count as int, old(io).block_size as int)
                <= u64::MAX as int,
            spec_inode_count(old(io).block_count as int, old(io).block_size as int) / 8
                <= usize::MAX as int,
            old(io).block_size as int * 8 <= u64::MAX as int,
            index as int + spec_inode_count(old(io).block_count as int, old(io).block_size as int)
                / 8 / old(io).block_size as int + spec_ceil_div(
                spec_inode_count(old(io).block_count as int, old(io).block_size as int),
                InodeTable::<META>::spec_ipb(old(io).block_size as int),
            ) <= old(io).block_count as int,
            spec_inode_count(old(io).block_count as int, old(io).block_size as int) / 8 / old(
                io,
            ).block_size as int + spec_ceil_div(
                spec_inode_count(old(io).block_count as int, old(io).block_size as int),
                InodeTable::<META>::spec_ipb(old(io).block_size as int),
            ) <= usize::MAX as int,
        ensures
            final(io).wf(),
            final(io).block_size == old(io).block_size,
            final(io).block_count == old(io).block_count,
            final(io).sector_size() == old(io).sector_size(),
            final(io).drive.sectors().len() == old(io).drive.sectors().len(),
            r.wf(old(io).block_size as int),
            r.map_index == index,
            r.inode_count as int == spec_inode_count(
                old(io).block_count as int,
                old(io).block_size as int,
            ),
            r.synced(*final(io)),
            r.on_device(*final(io)),
            forall|i: int| 0 <= i < r.inode_count ==> !r.bit(i),
            forall|k: int|
                index <= k < index as int + r.block_count ==> final(io).block_view(k)
                    == crate::bytes::zeros(old(io).block_size as int),
            forall|j: int|
                0 <= j < old(io).block_count && !(index <= j < index as int + r.block_count)
                    ==> final(io).block_view(j) == old(io).block_view(j),
    {
        proof {
            io.lemma_geometry();
        }
        let block_size = io.get_block_size();
        let inode_count = Self::calculate_inode_count(io.get_block_count(), block_size);
        let map_blocks: u64 = inode_count / 8 / (block_size as u64);
        let isz = Inode::<META>::size_on_disk();
        let inode_per_block: u64 = (block_size as u64) / (isz as u64);
        proof {
            let ipb = Self::spec_ipb(block_size as int);
            let isz_i = Inode::<META>::spec_size_on_disk() as int;
            lemma_fundamental_div_mod(block_size as int, isz_i);
            assert(ipb >= 1) by (nonlinear_arith)
                requires
                    block_size as int == isz_i * ipb + block_size as int % isz_i,
                    0 <= block_size as int % isz_i < isz_i,
                    isz_i <= block_size as int,
                    isz_i >= 1,
            ;
            assert(inode_per_block as int == ipb);
        }
        let mut table_blocks: u64 = inode_count / inode_per_block;
        if inode_count % inode_per_block != 0 {
            table_blocks = table_blocks + 1;
        }
        let total_blocks: u64 = map_blocks + table_blocks;
        let ghost old_io = *io;
        let zero_block = zero_vec(block_size);
        proof {
            assert(zero_block@ =~= crate::bytes::zeros(block_size as int));
        }
        let mut i: u64 = 0;
        while i < total_blocks
            invariant
                i <= total_blocks,
                zero_block@ == crate::bytes::zeros(old_io.block_size as int),
                zero_block@.len() == old_io.block_size,
                index as int + total_blocks as int <= old_io.block_count as int,
                old_io.wf(),
                io.wf(),
                io.block_size == old_io.block_size,
                io.block_count == old_io.block_count,
                io.sector_size() == old_io.sector_size(),
                io.drive.sectors().len() == old_io.drive.sectors().len(),
                forall|k: int|
                    index <= k < index as int + i ==> #[trigger] io.block_view(k)
                        == crate::bytes::zeros(old_io.block_size as int),
                forall|j: int|
                    0 <= j < old_io.block_count && !(index as int <= j < index as int + i)
                        ==> #[trigger] io.block_view(j) == old_io.block_view(j),
            decreases total_blocks - i,
        {
            io.write_block(index + i, &zero_block);
            i = i + 1;
        }
        let map = zero_vec((inode_count / 8) as usize);
        let r = InodeTable {
            map,
            map_index: index,
            inode_count,
            table_index: index + map_blocks,
            block_count: total_blocks as usize,
            meta: core::marker::PhantomData,
        };
        proof {
            let bs = old_io.block_size as int;
            let mb = r.spec_map_blocks(bs);
            assert(r.map@.len() as int == r.inode_count as int / 8);
            assert forall|k: int| 0 <= k < r.map@.len() as int / bs implies #[trigger] io.block_view(
                r.map_index as int + k,
            ) == r.map@.subrange(k * bs, (k + 1) * bs) by {
                assert(k * bs >= 0) by (nonlinear_arith)
                    requires
                        k >= 0,
                        bs >= 0,
                ;
                assert((k + 1) * bs == k * bs + bs) by (nonlinear_arith);
                lemma_fundamental_div_mod(r.map@.len() as int, bs);
                assert((k + 1) * bs <= (r.map@.len() as int / bs) * bs) by (nonlinear_arith)
                    requires
                        k + 1 <= r.map@.len() as int / bs,
                        bs >= 0,
                ;
                assert((r.map@.len() as int / bs) * bs == r.map@.len() as int) by (nonlinear_arith)
                    requires
                        r.map@.len() as int == bs * (r.map@.len() as int / bs) + r.map@.len()
                            as int % bs,
                        r.map@.len() as int % bs == 0,
                ;
                assert(io.block_view(r.map_index as int + k) == crate::bytes::zeros(bs));
                assert(crate::bytes::zeros(bs) =~= r.map@.subrange(k * bs, (k + 1) * bs));
            }
            assert forall|i2: int| 0 <= i2 < r.inode_count implies !r.bit(i2) by {
                lemma_fundamental_div_mod(i2, 8);
                assert(i2 / 8 < r.map@.len());
                assert(r.map@[i2 / 8] == 0u8);
                let k = (i2 % 8) as u8;
                assert((0u8 >> k) & 1u8 != 1u8) by (bit_vector);
            }
        }
        r
    }

    /// Rebuilds the table geometry at mount time and reads the inode
    /// bitmap back from disk.
    pub fn read<D: DeviceDriver>(io: &IO<D>, index: BlockPointer, inode_count: u64) -> (r:
        InodeTable<META>)
        requires
            io.wf(),
            Inode::<META>::spec_size_on_disk() <= io.block_size,
            Inode::<META>::spec_size_on_disk() <= usize::MAX,
            io.block_size as int * (crate::DIRECT_POINTERS as int) <= u64::MAX as int,
            inode_count >= 1,
            inode_count as int % 8 == 0,
            inode_count as int / 8 <= usize::MAX as int,
            (inode_count as int / 8) % io.block_size as int == 0,
            index as int + inode_count as int / 8 / io.block_size as int + spec_ceil_div(
                inode_count as int,
                InodeTable::<META>::spec_ipb(io.block_size as int),
            ) <= io.block_count as int,
            inode_count as int / 8 / io.block_size as int + spec_ceil_div(
                inode_count as int,
                InodeTable::<META>::spec_ipb(io.block_size as int),
            ) <= usize::MAX as int,
        ensures
            r.wf(io.block_size as int),
            r.map_index == index,
            r.inode_count == inode_count,
            r.synced(*io),
            r.on_device(*io),
    {
        proof {
            io.lemma_geometry();
        }
        let block_size = io.get_block_size();
        let map_blocks: u64 = inode_count / 8 / (block_size as u64);
        let isz = Inode::<META>::size_on_disk();
        let inode_per_block: u64 = (block_size as u64) / (isz as u64);
        proof {
            let ipb = Self::spec_ipb(block_size as int);
            let isz_i = Inode::<META>::spec_size_on_disk() as int;
            lemma_fundamental_div_mod(block_size as int, isz_i);
            assert(ipb >= 1) by (nonlinear_arith)
                requires
                    block_size as int == isz_i * ipb + block_size as int % isz_i,
                    0 <= block_size as int % isz_i < isz_i,
                    isz_i <= block_size as int,
                    isz_i >= 1,
            ;
            assert(inode_per_block as int == ipb);
            lemma_fundamental_div_mod(inode_count as int / 8, block_size as int);
            assert(map_blocks as int * block_size as int == inode_count as int / 8)
                by (nonlinear_arith)
                requires
                    inode_count as int / 8 == block_size as int * (map_blocks as int)
                        + (inode_count as int / 8) % block_size as int,
                    (inode_count as int / 8) % block_size as int == 0,
            ;
            assert(map_blocks as int <= inode_count as int / 8) by (nonlinear_arith)
                requires
                    map_blocks as int * block_size as int == inode_count as int / 8,
                    block_size as int >= 1,
                    map_blocks as int >= 0,
            ;
        }
        let mut table_blocks: u64 = inode_count / inode_per_block;
        if inode_count % inode_per_block != 0 {
            table_blocks = table_blocks + 1;
        }
        let total_blocks: u64 = map_blocks + table_blocks;
        proof {
            assert(total_blocks as int <= io.block_count as int);
        }
        let map = io.read_region(index, ((inode_count / 8) as usize));
        let r = InodeTable {
            map,
            map_index: index,
            inode_count,
            table_index: index + map_blocks,
            block_count: total_blocks as usize,
            meta: core::marker::PhantomData,
        };
        r
    }

    /// Basic consequences of `wf` used throughout.
    pub proof fn lemma_wf_facts(&self, bs: int)
        requires
            self.wf(bs),
            bs >= 1,
        ensures
            1 <= Self::spec_ipb(bs),
            0 <= self.spec_map_blocks(bs),
            0 <= self.spec_table_blocks(bs),
            self.spec_map_blocks(bs) == self.map@.len() as int / bs,
            self.map@.len() as int * 8 == self.inode_count as int,
    {
        let isz = Inode::<META>::spec_size_on_disk() as int;
        let ipb = Self::spec_ipb(bs);
        lemma_fundamental_div_mod(bs, isz);
        assert(ipb >= 1) by (nonlinear_arith)
            requires
                bs == isz * ipb + bs % isz,
                0 <= bs % isz < isz,
                isz <= bs,
                isz >= 1,
        ;
        lemma_div_pos_is_pos(self.inode_count as int, ipb);
        lemma_div_pos_is_pos(self.inode_count as int / 8, bs);
        lemma_fundamental_div_mod(self.inode_count as int, 8);
    }


    /// Syncedness of the inode bitmap survives writes that avoid it.
    pub proof fn lemma_synced_preserved<D: DeviceDriver>(
        &self,
        io1: IO<D>,
        io2: IO<D>,
        lo: int,
        hi: int,
    )
        requires
            self.wf(io1.block_size as int),
            self.on_device(io1),
            self.synced(io1),
            io1.block_size >= 1,
            io2.block_size == io1.block_size,
            io2.block_count == io1.block_count,
            hi <= self.map_index as int || self.map_index as int + self.spec_map_blocks(
                io1.block_size as int,
            ) <= lo,
            forall|j: int|
                0 <= j < io1.block_count && !(lo <= j < hi) ==> io2.block_view(j)
                    == io1.block_view(j),
        ensures
            self.synced(io2),
    {
        let bs = io1.block_size as int;
        self.lemma_wf_facts(bs);
        assert forall|k: int|
            0 <= k < self.map@.len() as int / bs implies #[trigger] io2.block_view(
            self.map_index as int + k,
        ) == self.map@.subrange(k * bs, (k + 1) * bs) by {
            let x = self.map_index as int + k;
            assert(k < self.spec_map_blocks(bs));
            assert(x < io1.block_count as int) by {
                assert(self.spec_map_blocks(bs) <= self.block_count as int);
            }
            assert(io2.block_view(x) == io1.block_view(x));
        }
    }

    /// The bitmap covers exactly one bit per inode.
    pub proof fn lemma_map_bits(&self, bs: int)
        requires
            self.wf(bs),
        ensures
            self.map@.len() as int * 8 == self.inode_count as int,
    {
        lemma_fundamental_div_mod(self.inode_count as int, 8);
    }

    /// Writes the whole inode bitmap region to disk.
    fn write_map<D: DeviceDriver>(&self, io: &mut IO<D>)
        requires
            old(io).wf(),
            self.wf(old(io).block_size as int),
            self.on_device(*old(io)),
        ensures
            final(io).wf(),
            final(io).block_size == old(io).block_size,
            final(io).block_count == old(io).block_count,
            final(io).sector_size() == old(io).sector_size(),
            final(io).drive.sectors().len() == old(io).drive.sectors().len(),
            self.synced(*final(io)),
            forall|j: int|
                0 <= j < old(io).block_count && !(self.map_index as int <= j < self.map_index
                    as int + self.spec_map_blocks(old(io).block_size as int))
                    ==> final(io).block_view(j) == old(io).block_view(j),
    {
        proof {
            io.lemma_geometry();
            lemma_fundamental_div_mod(self.map@.len() as int, io.block_size as int);
            let bs = io.block_size as int;
            let mlen = self.map@.len() as int;
            assert((mlen / bs) * bs == mlen) by (nonlinear_arith)
                requires
                    mlen == bs * (mlen / bs) + mlen % bs,
                    mlen % bs == 0,
            ;
            assert(mlen / bs >= 0);
            assert(self.spec_table_blocks(bs) >= 0) by {
                let ipb = Self::spec_ipb(bs);
                let isz = Inode::<META>::spec_size_on_disk() as int;
                lemma_fundamental_div_mod(bs, isz);
                assert(ipb >= 1) by (nonlinear_arith)
                    requires
                        bs == isz * ipb + bs % isz,
                        0 <= bs % isz < isz,
                        isz <= bs,
                        isz >= 1,
                ;
                lemma_div_pos_is_pos(self.inode_count as int, ipb);
            }
        }
        io.write_region(self.map_index, &self.map);
    }

    /// Sets bit `index` of the inode bitmap and writes the bitmap through.
    fn mark_used<D: DeviceDriver>(&mut self, io: &mut IO<D>, index: InodePointer)
        requires
            old(io).wf(),
            old(self).wf(old(io).block_size as int),
            old(self).on_device(*old(io)),
            (index as int) < old(self).inode_count as int,
        ensures
            final(self).map_index == old(self).map_index,
            final(self).table_index == old(self).table_index,
            final(self).inode_count == old(self).inode_count,
            final(self).block_count == old(self).block_count,
            final(self).map@.len() == old(self).map@.len(),
            final(self).wf(old(io).block_size as int),
            final(self).bit(index as int),
            forall|j: int|
                0 <= j < final(self).inode_count && j != index as int ==> final(self).bit(j)
                    == old(self).bit(j),
            final(io).wf(),
            final(io).block_size == old(io).block_size,
            final(io).block_count == old(io).block_count,
            final(io).sector_size() == old(io).sector_size(),
            final(io).drive.sectors().len() == old(io).drive.sectors().len(),
            final(self).synced(*final(io)),
            forall|j: int|
                0 <= j < old(io).block_count && !(old(self).map_index as int <= j < old(
                    self,
                ).map_index as int + old(self).spec_map_blocks(old(io).block_size as int))
                    ==> final(io).block_view(j) == old(io).block_view(j),
    {
        proof {
            old(self).lemma_map_bits(old(io).block_size as int);
        }
        let dlen = self.map.len();
        let byte_u: u64 = index / 8;
        proof {
            lemma_fundamental_div_mod(index as int, 8);
            assert((byte_u as int) < dlen as int);
        }
        let byte_index = byte_u as usize;
        let bit_index = (index % 8) as u8;
        let b = self.map[byte_index];
        self.map.set(byte_index, b | (1u8 << bit_index));
        proof {
            lemma_set_bit(b, bit_index);
            assert(self.bit(index as int));
            assert forall|j: int|
                0 <= j < self.inode_count && j != index as int implies self.bit(j) == old(
                self,
            ).bit(j) by {
                crate::bits::lemma_bit_index_parts(j, index as int);
                lemma_fundamental_div_mod(j, 8);
                assert(j / 8 < self.map@.len());
                if j / 8 == index as int / 8 {
                    assert(nth_bit(self.map@[j / 8], j % 8) == nth_bit(
                        old(self).map@[j / 8],
                        j % 8,
                    ));
                }
            }
        }
        self.write_map(io);
    }

    /// Allocates the lowest free inode id: scans the bitmap first-fit,
    /// marks the bit used and writes the bitmap through. Returns `None`,
    /// leaving memory and disk untouched, when every id is taken.
    fn allocate<D: DeviceDriver>(&mut self, io: &mut IO<D>) -> (r: Option<InodePointer>)
        requires
            old(io).wf(),
            old(self).wf(old(io).block_size as int),
            old(self).on_device(*old(io)),
        ensures
            final(self).map_index == old(self).map_index,
            final(self).table_index == old(self).table_index,
            final(self).inode_count == old(self).inode_count,
            final(self).block_count == old(self).block_count,
            final(self).map@.len() == old(self).map@.len(),
            final(self).wf(old(io).block_size as int),
            final(io).wf(),
            final(io).block_size == old(io).block_size,
            final(io).block_count == old(io).block_count,
            final(io).sector_size() == old(io).sector_size(),
            final(io).drive.sectors().len() == old(io).drive.sectors().len(),
            forall|j: int|
                0 <= j < old(io).block_count && !(old(self).map_index as int <= j < old(
                    self,
                ).map_index as int + old(self).spec_map_blocks(old(io).block_size as int))
                    ==> final(io).block_view(j) == old(io).block_view(j),
            match r {
                Some(idx) => {
                    &&& 0 <= (idx as int) && (idx as int) < old(self).inode_count as int
                    &&& !old(self).bit(idx as int)
                    &&& final(self).bit(idx as int)
                    &&& forall|j: int| 0 <= j < idx as int ==> old(self).bit(j)
                    &&& forall|j: int|
                        0 <= j < final(self).inode_count && j != idx as int ==> final(self).bit(j)
                            == old(self).bit(j)
                    &&& final(self).synced(*final(io))
                },
                None => {
                    &&& *final(self) == *old(self)
                    &&& *final(io) == *old(io)
                    &&& forall|j: int| 0 <= j < old(self).inode_count ==> old(self).bit(j)
                },
            },
    {
        proof {
            old(self).lemma_map_bits(old(io).block_size as int);
        }
        let dl = self.map.len();
        let mut byte_index: usize = 0;
        while byte_index < dl
            invariant
                byte_index <= dl,
                dl == self.map@.len(),
                dl as int * 8 == self.inode_count as int,
                *self == *old(self),
                *io == *old(io),
                old(io).wf(),
                old(self).wf(old(io).block_size as int),
                old(self).on_device(*old(io)),
                forall|b: int| 0 <= b < byte_index as int * 8 ==> old(self).bit(b),
            decreases dl - byte_index,
        {
            let byte = self.map[byte_index];
            let mut j: u8 = 0;
            while j < 8
                invariant
                    j <= 8,
                    byte_index < dl,
                    dl == self.map@.len(),
                    dl as int * 8 == self.inode_count as int,
                    byte == self.map@[byte_index as int],
                    *self == *old(self),
                    *io == *old(io),
                    old(io).wf(),
                    old(self).wf(old(io).block_size as int),
                    old(self).on_device(*old(io)),
                    forall|b: int|
                        0 <= b < byte_index as int * 8 + j as int ==> old(self).bit(b),
                decreases 8 - j,
            {
                if byte & (1u8 << j) == 0 {
                    let result: u64 = (byte_index as u64) * 8 + (j as u64);
                    proof {
                        lemma_set_bit(byte, j);
                        assert(result as int / 8 == byte_index as int && result as int % 8
                            == j as int) by (nonlinear_arith)
                            requires
                                result as int == byte_index as int * 8 + j as int,
                                0 <= j < 8,
                                byte_index >= 0,
                        ;
                        assert(!self.bit(result as int));
                        assert((result as int) < self.inode_count as int) by (nonlinear_arith)
                            requires
                                result as int == byte_index as int * 8 + j as int,
                                0 <= j < 8,
                                (byte_index as int) < self.map@.len() as int,
                                self.map@.len() as int * 8 == self.inode_count as int,
                        ;
                    }
                    self.mark_used(io, result);
                    return Some(result);
                }
                proof {
                    lemma_set_bit(byte, j);
                    assert forall|b: int|
                        0 <= b < byte_index as int * 8 + j as int + 1 implies old(self).bit(
                        b,
                    ) by {
                        if b == byte_index as int * 8 + j as int {
                            assert(b / 8 == byte_index as int && b % 8 == j as int)
                                by (nonlinear_arith)
                                requires
                                    b == byte_index as int * 8 + j as int,
                                    0 <= j < 8,
                                    byte_index >= 0,
                            ;
                            assert(nth_bit(byte, j as int));
                        }
                    }
                }
                j = j + 1;
            }
            proof {
                assert(byte_index as int * 8 + 8 == (byte_index as int + 1) * 8)
                    by (nonlinear_arith);
            }
            byte_index = byte_index + 1;
        }
        None
    }

    /// Writes the record of inode `id` into its slot, leaving every other
    /// slot, the bitmap region and all other blocks untouched.
    fn write_slot<D: DeviceDriver>(&self, io: &mut IO<D>, id: InodePointer, inode: &Inode<META>)
        requires
            old(io).wf(),
            self.wf(old(io).block_size as int),
            self.on_device(*old(io)),
            (id as int) < self.inode_count as int,
            inode.pointers@.len() == crate::DIRECT_POINTERS,
        ensures
            final(io).wf(),
            final(io).block_size == old(io).block_size,
            final(io).block_count == old(io).block_count,
            final(io).sector_size() == old(io).sector_size(),
            final(io).drive.sectors().len() == old(io).drive.sectors().len(),
            self.slot_view(*final(io), id as int) == inode.spec_bytes(),
            forall|id2: int|
                0 <= id2 < self.inode_count && id2 != id as int ==> self.slot_view(
                    *final(io),
                    id2,
                ) == self.slot_view(*old(io), id2),
            forall|j: int|
                0 <= j < old(io).block_count && j != self.slot_block(
                    id as int,
                    old(io).block_size as int,
                ) ==> final(io).block_view(j) == old(io).block_view(j),
            forall|p: int|
                0 <= p < old(io).block_size && !(Self::slot_offset(
                    id as int,
                    old(io).block_size as int,
                ) <= p < Self::slot_offset(id as int, old(io).block_size as int) + Inode::<
                    META,
                >::spec_size_on_disk()) ==> final(io).block_view(
                    self.slot_block(id as int, old(io).block_size as int),
                )[p] == old(io).block_view(self.slot_block(id as int, old(io).block_size as int))[p],
    {
        proof {
            io.lemma_geometry();
            self.lemma_slot_in_range(io.block_size as int, id as int);
        }
        let bs = io.get_block_size();
        let isz = Inode::<META>::size_on_disk();
        let ipb: u64 = (bs as u64) / (isz as u64);
        proof {
            assert(ipb as int == Self::spec_ipb(bs as int));
        }
        let tb: u64 = self.table_index + id / ipb;
        let off: usize = ((id % ipb) as usize) * isz;
        proof {
            assert(tb as int == self.slot_block(id as int, bs as int));
            assert(off as int == Self::slot_offset(id as int, bs as int));
            assert((tb as int) < old(io).block_count as int);
        }
        let mut block = io.read_block(tb);
        let bytes = inode.to_bytes();
        let ghost old_block = block@;
        splice_bytes(&mut block, off, &bytes);
        io.write_block(tb, &block);
        proof {
            let bsi = old(io).block_size as int;
            let iszi = Inode::<META>::spec_size_on_disk() as int;
            let offi = Self::slot_offset(id as int, bsi);
            assert(self.slot_view(*io, id as int) =~= bytes@);
            assert forall|id2: int|
                0 <= id2 < self.inode_count && id2 != id as int implies self.slot_view(
                *io,
                id2,
            ) == self.slot_view(*old(io), id2) by {
                self.lemma_slot_in_range(bsi, id2);
                self.lemma_slots_disjoint(bsi, id as int, id2);
                if self.slot_block(id2, bsi) == self.slot_block(id as int, bsi) {
                    let off2 = Self::slot_offset(id2, bsi);
                    assert forall|p: int| off2 <= p < off2 + iszi implies block@[p]
                        == old_block[p] by {
                        assert(p < offi || p >= offi + iszi);
                    }
                    assert(self.slot_view(*io, id2) =~= self.slot_view(*old(io), id2));
                } else {
                    assert(io.block_view(self.slot_block(id2, bsi)) == old(io).block_view(
                        self.slot_block(id2, bsi),
                    ));
                }
            }
        }
    }

    /// Reads the record of inode `index` back from its slot, recomputing
    /// the derived pointer counters. The slot must hold a parsable record;
    /// anything else is on-disk corruption.
    pub fn read_inode<D: DeviceDriver>(&self, io: &IO<D>, index: InodePointer) -> (r: Inode<META>)
        requires
            io.wf(),
            self.wf(io.block_size as int),
            self.on_device(*io),
            (index as int) < self.inode_count as int,
            META::parsable(
                self.slot_view(*io, index as int).subrange(
                    104,
                    Inode::<META>::spec_size_on_disk() as int,
                ),
            ),
        ensures
            Inode::<META>::parsed_from(
                r,
                index,
                self.slot_view(*io, index as int),
                io.block_size as int,
            ),
    {
        proof {
            io.lemma_geometry();
            self.lemma_slot_in_range(io.block_size as int, index as int);
        }
        let bs = io.get_block_size();
        let isz = Inode::<META>::size_on_disk();
        let ipb: u64 = (bs as u64) / (isz as u64);
        let tb: u64 = self.table_index + index / ipb;
        let off: usize = ((index % ipb) as usize) * isz;
        proof {
            assert(tb as int == self.slot_block(index as int, bs as int));
            assert(off as int == Self::slot_offset(index as int, bs as int));
            assert((tb as int) < io.block_count as int);
        }
        let block = io.read_block(tb);
        let buffer = sub_bytes(&block, off, off + isz);
        proof {
            assert(buffer@ == self.slot_view(*io, index as int));
        }
        Inode::<META>::from_bytes(index, &buffer, bs)
    }

    /// Writes an inode record. An inode without an id first gets the
    /// lowest free id from the bitmap; `Err(NoSpace)` is returned, with
    /// nothing changed, when the bitmap is full.
    pub fn write_inode<D: DeviceDriver>(
        &mut self,
        io: &mut IO<D>,
        inode: &mut Inode<META>,
    ) -> (r: Result<(), Error>)
        requires
            old(io).wf(),
            old(self).wf(old(io).block_size as int),
            old(self).on_device(*old(io)),
            old(self).synced(*old(io)),
            old(inode).pointers@.len() == crate::DIRECT_POINTERS,
            match old(inode).id {
                Some(id) => (id as int) < old(self).inode_count as int,
                None => true,
            },
        ensures
            final(self).map_index == old(self).map_index,
            final(self).table_index == old(self).table_index,
            final(self).inode_count == old(self).inode_count,
            final(self).block_count == old(self).block_count,
            final(self).wf(old(io).block_size as int),
            final(self).synced(*final(io)),
            final(io).wf(),
            final(io).block_size == old(io).block_size,
            final(io).block_count == old(io).block_count,
            final(io).sector_size() == old(io).sector_size(),
            final(io).drive.sectors().len() == old(io).drive.sectors().len(),
            forall|j: int|
                0 <= j < old(io).block_count && !(old(self).map_index as int <= j < old(
                    self,
                ).map_index as int + old(self).block_count as int) ==> final(io).block_view(j)
                    == old(io).block_view(j),
            final(inode).pointers@ == old(inode).pointers@,
            final(inode).size == old(inode).size,
            final(inode).meta == old(inode).meta,
            final(inode).used_pointers == old(inode).used_pointers,
            final(inode).allocated_size == old(inode).allocated_size,
            match r {
                Ok(()) => {
                    &&& final(inode).id is Some
                    &&& (final(inode).id->0 as int) < old(self).inode_count as int
                    &&& (old(inode).id is Some ==> final(inode).id == old(inode).id && *final(self)
                        == *old(self))
                    &&& (old(inode).id is None ==> !old(self).bit(final(inode).id->0 as int)
                        && final(self).bit(final(inode).id->0 as int) && forall|j: int|
                        0 <= j < final(inode).id->0 as int ==> old(self).bit(j))
                    &&& final(self).slot_view(*final(io), final(inode).id->0 as int)
                        == final(inode).spec_bytes()
                    &&& forall|id2: int|
                        0 <= id2 < old(self).inode_count && id2 != final(inode).id->0 as int
                            ==> final(self).slot_view(*final(io), id2) == old(self).slot_view(
                            *old(io),
                            id2,
                        )
                    &&& forall|p: int|
                        0 <= p < old(io).block_size && !(Self::slot_offset(
                            final(inode).id->0 as int,
                            old(io).block_size as int,
                        ) <= p < Self::slot_offset(
                            final(inode).id->0 as int,
                            old(io).block_size as int,
                        ) + Inode::<META>::spec_size_on_disk()) ==> final(io).block_view(
                            final(self).slot_block(
                                final(inode).id->0 as int,
                                old(io).block_size as int,
                            ),
                        )[p] == old(io).block_view(
                            final(self).slot_block(
                                final(inode).id->0 as int,
                                old(io).block_size as int,
                            ),
                        )[p]
                },
                Err(e) => {
                    &&& e == Error::NoSpace
                    &&& old(inode).id is None
                    &&& *final(self) == *old(self)
                    &&& *final(io) == *old(io)
                    &&& *final(inode) == *old(inode)
                    &&& forall|j: int| 0 <= j < old(self).inode_count ==> old(self).bit(j)
                },
            },
    {
        let ghost bs = old(io).block_size as int;
        let id: InodePointer = match inode.id {
            Some(existing) => existing,
            None => {
                match self.allocate(io) {
                    Some(fresh) => {
                        inode.set_id(fresh);
                        fresh
                    },
                    None => {
                        return Err(Error::NoSpace);
                    },
                }
            },
        };
        let self_now = &*self;
        proof {
            assert(self_now.slot_block(id as int, bs) == old(self).slot_block(id as int, bs));
        }
        self_now.write_slot(io, id, inode);
        proof {
            io.lemma_geometry();
            self.lemma_slot_in_range(bs, id as int);
            lemma_fundamental_div_mod(self.map@.len() as int, bs);
            let mlen = self.map@.len() as int;
            assert((mlen / bs) * bs == mlen) by (nonlinear_arith)
                requires
                    mlen == bs * (mlen / bs) + mlen % bs,
                    mlen % bs == 0,
            ;
            assert forall|id2: int|
                0 <= id2 < old(self).inode_count && id2 != id as int implies self.slot_view(
                *io,
                id2,
            ) == old(self).slot_view(*old(io), id2) by {
                self.lemma_slot_in_range(bs, id2);
            }
        }
        Ok(())
    }

    /// Creates and persists a fresh inode carrying `meta`: the record gets
    /// the lowest free id and is written to its slot. `Err(NoSpace)` when
    /// the bitmap is full.
    pub fn create_inode<D: DeviceDriver>(&mut self, io: &mut IO<D>, meta: META) -> (r: Result<
        Inode<META>,
        Error,
    >)
        requires
            old(io).wf(),
            old(self).wf(old(io).block_size as int),
            old(self).on_device(*old(io)),
            old(self).synced(*old(io)),
        ensures
            final(self).map_index == old(self).map_index,
            final(self).table_index == old(self).table_index,
            final(self).inode_count == old(self).inode_count,
            final(self).block_count == old(self).block_count,
            final(self).wf(old(io).block_size as int),
            final(self).synced(*final(io)),
            final(io).wf(),
            final(io).block_size == old(io).block_size,
            final(io).block_count == old(io).block_count,
            final(io).sector_size() == old(io).sector_size(),
            final(io).drive.sectors().len() == old(io).drive.sectors().len(),
            forall|j: int|
                0 <= j < old(io).block_count && !(old(self).map_index as int <= j < old(
                    self,
                ).map_index as int + old(self).block_count as int) ==> final(io).block_view(j)
                    == old(io).block_view(j),
            match r {
                Ok(inode) => {
                    &&& inode.id is Some
                    &&& (inode.id->0 as int) < old(self).inode_count as int
                    &&& inode.size == 0
                    &&& inode.used_pointers == 0
                    &&& inode.allocated_size == 0
                    &&& inode.meta == meta
                    &&& !old(self).bit(inode.id->0 as int)
                    &&& final(self).bit(inode.id->0 as int)
                    &&& forall|j: int| 0 <= j < inode.id->0 as int ==> old(self).bit(j)
                    &&& final(self).slot_view(*final(io), inode.id->0 as int)
                        == inode.spec_bytes()
                },
                Err(e) => {
                    &&& e == Error::NoSpace
                    &&& *final(self) == *old(self)
                    &&& *final(io) == *old(io)
                    &&& forall|j: int| 0 <= j < old(self).inode_count ==> old(self).bit(j)
                },
            },
    {
        let mut inode = Inode::new(meta);
        match self.write_inode(io, &mut inode) {
            Ok(()) => Ok(inode),
            Err(e) => Err(e),
        }
    }

    /// Persistence round trip: an inode whose serialized record sits in its
    /// slot parses back from that slot with exactly the same fields. With
    /// the contracts of `write_inode` and `read_inode`, persisting a
    /// well-formed inode and re-reading its id returns it unchanged.
    pub proof fn lemma_write_then_read(
        inode: Inode<META>,
        r: Inode<META>,
        id: InodePointer,
        slot: Seq<u8>,
        bs: int,
    )
        requires
            inode.wf(bs),
            inode.id == Some(id),
            slot == inode.spec_bytes(),
            Inode::<META>::parsed_from(r, id, slot, bs),
        ensures
            r.id == inode.id,
            r.size == inode.size,
            r.pointers@ == inode.pointers@,
            r.meta == inode.meta,
            r.used_pointers == inode.used_pointers,
            r.allocated_size == inode.allocated_size,
    {
        inode.lemma_serialize_parse(id, bs);
    }
}

} // verus!
