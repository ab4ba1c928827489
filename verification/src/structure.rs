//! The on-disk structure: superblock, block map and inode table over one IO.
//!
//! `Structure` owns the composed state of a formatted filesystem. Its
//! well-formedness ties every component to the device: the superblock is
//! persisted in block 0, both bitmaps match their on-disk regions, and
//! every block of the reserved bookkeeping prefix is marked used in the
//! block map, so that allocation only ever hands out data blocks.

use vstd::prelude::*;

use crate::blockmap::map_bytes;
use crate::blockmap::BlockMap;
use crate::bytes::zeros;
use crate::device::DeviceDriver;
use crate::error::Error;
use crate::inode::Inode;
use crate::inode_table::spec_ceil_div;
use crate::inode_table::spec_inode_count;
use crate::inode_table::InodeTable;
use crate::io::IO;
use crate::serializable::ByteSerializable;
use crate::serializable::KnownSize;
use crate::superblock::lemma_sb_region_blocks_pos;
use crate::superblock::sb_region_blocks;
use crate::superblock::SuperBlock;
use crate::superblock::MAGIC;
use crate::superblock::SUPERBLOCK_FIELD_BYTES;
use crate::BlockPointer;
use crate::InodePointer;
use crate::SUPERBLOCK_SIZE;

verus! {

/// Two byte strings that agree on every aligned `bs`-chunk are equal.
proof fn lemma_eq_from_chunks(d1: Seq<u8>, d2: Seq<u8>, bs: int)
    requires
        bs >= 1,
        d1.len() == d2.len(),
        d1.len() as int % bs == 0,
        forall|k: int|
            0 <= k < d1.len() as int / bs ==> #[trigger] d1.subrange(k * bs, (k + 1) * bs)
                == d2.subrange(k * bs, (k + 1) * bs),
    ensures
        d1 == d2,
{
    let n = d1.len() as int;
    vstd::arithmetic::div_mod::lemma_fundamental_div_mod(n, bs);
    assert((n / bs) * bs == n) by (nonlinear_arith)
        requires
            n == bs * (n / bs) + n % bs,
            n % bs == 0,
    ;
    assert forall|p: int| 0 <= p < n implies d1[p] == d2[p] by {
        let k = p / bs;
        vstd::arithmetic::div_mod::lemma_fundamental_div_mod(p, bs);
        vstd::arithmetic::div_mod::lemma_div_pos_is_pos(p, bs);
        assert(k * bs <= p < k * bs + bs) by (nonlinear_arith)
            requires
                p == bs * k + p % bs,
                0 <= p % bs < bs,
        ;
        assert(k < n / bs) by {
            vstd::arithmetic::div_mod::lemma_div_by_multiple_is_strongly_ordered(p, n, n / bs, bs);
        }
        assert((k + 1) * bs == k * bs + bs) by (nonlinear_arith);
        assert((k + 1) * bs <= n) by (nonlinear_arith)
            requires
                k + 1 <= n / bs,
                (n / bs) * bs == n,
                bs >= 1,
        ;
        assert(d1.subrange(k * bs, (k + 1) * bs) == d2.subrange(k * bs, (k + 1) * bs));
        assert(d1[p] == d1.subrange(k * bs, (k + 1) * bs)[p - k * bs]);
        assert(d2[p] == d2.subrange(k * bs, (k + 1) * bs)[p - k * bs]);
    }
    assert(d1 =~= d2);
}

/// The first 32 bytes of block 0 are the first 32 bytes of sector 0,
/// whatever the block size.
proof fn lemma_block0_prefix<D: DeviceDriver>(io: IO<D>, n: int)
    requires
        io.wf(),
        io.block_count >= 1,
        0 <= n <= io.sector_size(),
    ensures
        io.block_view(0).subrange(0, n) == io.drive.sectors()[0].subrange(0, n),
{
    io.lemma_geometry();
    io.lemma_block_in_range(0);
    let r = io.spec_ratio();
    assert(0 * r == 0) by (nonlinear_arith);
    assert(1 * r == r) by (nonlinear_arith);
    assert(io.block_view(0) == crate::io::concat_range(io.drive.sectors(), 0, r));
    assert(crate::io::concat_range(io.drive.sectors(), 0, r) == io.drive.sectors()[0]
        + crate::io::concat_range(io.drive.sectors(), 1, r));
    assert(io.block_view(0).subrange(0, n) =~= io.drive.sectors()[0].subrange(0, n));
}

/// The composed filesystem structure over one device.
pub struct Structure<D: DeviceDriver, META: ByteSerializable + KnownSize> {
    /// Block-level access to the device.
    pub io: IO<D>,
    /// The persisted header.
    pub super_block: SuperBlock,
    /// The free/used bitmap of all blocks.
    pub block_map: BlockMap,
    /// The inode bitmap and record array.
    pub inode_table: InodeTable<META>,
}

impl<D: DeviceDriver, META: ByteSerializable + KnownSize> Structure<D, META> {
    /// First block past the reserved bookkeeping prefix: everything from
    /// here up to `block_count` is an allocatable data block.
    pub open spec fn reserved_end(&self) -> int {
        self.inode_table.map_index as int + self.inode_table.block_count as int
    }

    /// True of blocks that hold file or directory payload.
    pub open spec fn is_data_block(&self, p: int) -> bool {
        self.reserved_end() <= p < self.io.block_count as int
    }

    /// Consistency of the whole structure: geometry agreement, the
    /// superblock persisted in block 0, both tables synced with their
    /// regions, the regions laid out back to back, and the whole reserved
    /// prefix marked used in the block map.
    pub open spec fn wf(&self) -> bool {
        let bs = self.io.block_size as int;
        &&& self.io.wf()
        &&& self.super_block.wf()
        &&& self.super_block.block_size == self.io.block_size
        &&& self.super_block.block_count == self.io.block_count
        &&& self.super_block.inode_count == self.inode_table.inode_count
        &&& self.io.block_view(0).subrange(0, SUPERBLOCK_FIELD_BYTES as int)
            == self.super_block.spec_bytes()
        &&& self.block_map.wf(bs)
        &&& self.block_map.on_device(self.io)
        &&& self.block_map.synced(self.io)
        &&& self.block_map.first_block as int == sb_region_blocks(bs)
        &&& self.io.block_count as int <= self.block_map.bits()
        &&& self.inode_table.wf(bs)
        &&& self.inode_table.on_device(self.io)
        &&& self.inode_table.synced(self.io)
        &&& self.inode_table.map_index as int == self.block_map.last_block as int + 1
        &&& self.reserved_end() <= self.io.block_count as int
    }

    /// Every block of the reserved bookkeeping prefix is marked used, so
    /// the allocator can only hand out data blocks. Format establishes
    /// this; every operation preserves it.
    pub open spec fn reserved_marked(&self) -> bool {
        forall|i: int| 0 <= i < self.reserved_end() ==> self.block_map.bit(i)
    }

    /// An inode that may address data on this structure: well-formed, with
    /// distinct pointers to data blocks that are marked used.
    pub open spec fn inode_valid(&self, inode: Inode<META>) -> bool {
        &&& inode.wf(self.io.block_size as int)
        &&& forall|k: int|
            0 <= k < inode.used_pointers ==> self.is_data_block(#[trigger] inode.pointers@[k] as int)
        &&& forall|k1: int, k2: int|
            0 <= k1 < k2 < inode.used_pointers ==> inode.pointers@[k1] != inode.pointers@[k2]
        &&& forall|k: int|
            0 <= k < inode.used_pointers ==> self.block_map.bit(
                #[trigger] inode.pointers@[k] as int,
            )
        &&& match inode.id {
            Some(id) => (id as int) < self.inode_table.inode_count as int,
            None => true,
        }
    }

    /// True when the device already holds a filesystem: the superblock
    /// magic parses from block 0.
    pub fn is_initialized(io: &IO<D>) -> (r: bool)
        requires
            io.wf(),
            SUPERBLOCK_FIELD_BYTES <= io.block_size,
            sb_region_blocks(io.block_size as int) <= io.block_count as int,
        ensures
            r == (vstd::bytes::spec_u32_from_le_bytes(io.block_view(0).subrange(0, 4)) == MAGIC),
    {
        match SuperBlock::read(io) {
            Some(_) => true,
            None => false,
        }
    }

    /// What a device geometry must satisfy for `new` to format it: the
    /// block size is sane, the bookkeeping regions fit on the device and
    /// their sizes fit the machine's integers.
    pub open spec fn can_format(bs: int, bc: int) -> bool {
        let first = sb_region_blocks(bs);
        let mb = map_bytes(bc, bs) / bs;
        let inode_index = first + mb + 1;
        let ic = spec_inode_count(bc, bs);
        let imb = ic / 8 / bs;
        let itb = spec_ceil_div(ic, InodeTable::<META>::spec_ipb(bs));
        &&& SUPERBLOCK_FIELD_BYTES <= bs <= u32::MAX
        &&& bc >= 1
        &&& 0 <= mb
        &&& 0 <= imb
        &&& 0 <= itb
        &&& map_bytes(bc, bs) <= usize::MAX
        &&& map_bytes(bc, bs) * 8 <= u64::MAX as int
        &&& first + mb + 1 < map_bytes(bc, bs) * 8
        &&& Inode::<META>::spec_size_on_disk() <= bs
        &&& Inode::<META>::spec_size_on_disk() <= usize::MAX
        &&& bs * (crate::DIRECT_POINTERS as int) <= u64::MAX as int
        &&& ic <= u64::MAX as int
        &&& ic / 8 <= usize::MAX as int
        &&& bs * 8 <= u64::MAX as int
        &&& imb + itb <= usize::MAX as int
        &&& inode_index + imb + itb <= bc
    }

    /// Formats the device: writes a fresh superblock, a block map that
    /// reserves the whole bookkeeping prefix, and a zeroed inode table,
    /// then records the inode count in the superblock.
    ///
    /// The block size must be a positive multiple of the sector size
    /// (anything else is a programming error, excluded by precondition) and
    /// the geometry must be feasible per [`Self::can_format`].
    pub fn new(io: IO<D>, block_size: usize) -> (r: Structure<D, META>)
        requires
            io.wf(),
            io.sector_size() <= block_size as nat,
            block_size as int % io.sector_size() as int == 0,
            SUPERBLOCK_FIELD_BYTES <= io.sector_size(),
            Structure::<D, META>::can_format(
                block_size as int,
                (io.drive.sectors().len() * io.sector_size()) as int / block_size as int,
            ),
        ensures
            r.wf(),
            r.io.block_size == block_size,
            r.io.drive.sectors().len() == io.drive.sectors().len(),
            r.io.sector_size() == io.sector_size(),
            r.io.block_count as int == (io.drive.sectors().len() * io.sector_size()) as int
                / block_size as int,
            r.super_block == (SuperBlock {
                magic: MAGIC,
                block_size,
                block_count: r.io.block_count,
                inode_count: r.inode_table.inode_count,
                root_inode: 0,
            }),
            r.inode_table.inode_count as int == spec_inode_count(
                r.io.block_count as int,
                block_size as int,
            ),
            r.reserved_marked(),
            forall|i: int|
                0 <= i < r.block_map.bits() ==> r.block_map.bit(i) == (i < r.reserved_end()),
            forall|i: int| 0 <= i < r.inode_table.inode_count ==> !r.inode_table.bit(i),
    {
        let mut io = io;
        io.set_block_size(block_size);
        let bc = io.get_block_count();
        let ghost bs = block_size as int;
        let mut super_block = SuperBlock::new(block_size, bc);
        proof {
            lemma_sb_region_blocks_pos(bs);
        }
        super_block.write(&mut io);
        let first_block: u64 = ((SUPERBLOCK_SIZE as u64) + (block_size as u64) - 1) / (
        block_size as u64);
        proof {
            assert(first_block as int == sb_region_blocks(bs));
        }
        let ghost io_written = io;
        proof {
            super_block.lemma_spec_bytes_len();
            assert(io.block_view(0).subrange(0, SUPERBLOCK_FIELD_BYTES as int)
                =~= super_block.spec_bytes());
        }
        let mut block_map = BlockMap::new(first_block, bc, block_size);
        block_map.write_full(&mut io);
        proof {
            assert(block_map.last_block as int + 1 <= bc as int);
            assert(io.block_view(0) == io_written.block_view(0)) by {
                assert(!(block_map.first_block as int <= 0 < block_map.last_block as int));
            }
        }
        let inode_index = block_map.last_block + 1;
        let ghost io_mapped = io;
        let inode_table = InodeTable::<META>::create(inode_index, &mut io);
        proof {
            inode_table.lemma_wf_facts(bs);
            assert(block_map.synced(io)) by {
                assert forall|k: int|
                    0 <= k < block_map.data@.len() as int / io.block_size as int
                        implies #[trigger] io.block_view(block_map.first_block as int + k)
                    == block_map.data@.subrange(
                    k * io.block_size as int,
                    (k + 1) * io.block_size as int,
                ) by {
                    let x = block_map.first_block as int + k;
                    assert(x < inode_index as int);
                    assert(io.block_view(x) == io_mapped.block_view(x));
                }
            }
            assert(io.block_view(0) == io_mapped.block_view(0)) by {
                assert(!(inode_index as int <= 0));
            }
        }
        let cnt: u64 = inode_table.block_count as u64;
        let ghost sb_val = super_block;
        let ghost table_snap = inode_table;
        let ghost io_snap = io;
        let mut i: u64 = 0;
        while i < cnt
            invariant
                i <= cnt,
                1 <= bs,
                cnt == inode_table.block_count as u64,
                io.wf(),
                io.block_size == io_snap.block_size,
                io.block_count == io_snap.block_count,
                io.sector_size() == io_snap.sector_size(),
                io.drive.sectors().len() == io_snap.drive.sectors().len(),
                io_snap.block_size as int == bs,
                1 <= io_snap.block_count,
                super_block == sb_val,
                sb_val.wf(),
                sb_val.block_size as int == bs,
                sb_val.block_count == io_snap.block_count,
                io.block_view(0).subrange(0, SUPERBLOCK_FIELD_BYTES as int)
                    == sb_val.spec_bytes(),
                block_map.wf(bs),
                block_map.on_device(io_snap),
                block_map.synced(io),
                1 <= block_map.first_block,
                block_map.first_block as int == sb_region_blocks(bs),
                block_map.last_block as int + 1 == inode_table.map_index as int,
                io_snap.block_count as int <= block_map.bits(),
                inode_table == table_snap,
                table_snap.wf(bs),
                table_snap.on_device(io_snap),
                table_snap.synced(io),
                table_snap.map_index == inode_index,
                inode_index as int + cnt as int <= io_snap.block_count as int,
                forall|b: int| 0 <= b < table_snap.inode_count ==> !table_snap.bit(b),
                forall|b: int|
                    0 <= b < block_map.bits() ==> block_map.bit(b) == (b
                        <= block_map.last_block as int || (inode_index as int <= b
                        < inode_index as int + i)),
            decreases cnt - i,
        {
            proof {
                assert((inode_index as int + i as int) < block_map.bits());
            }
            let ghost io_prev = io;
            let ghost map_prev = block_map;
            block_map.mark_used(&mut io, inode_index + i);
            proof {
                table_snap.lemma_wf_facts(bs);
                assert(inode_table.synced(io)) by {
                    assert forall|k: int|
                        0 <= k < table_snap.map@.len() as int / io.block_size as int
                            implies #[trigger] io.block_view(table_snap.map_index as int + k)
                        == table_snap.map@.subrange(
                        k * io.block_size as int,
                        (k + 1) * io.block_size as int,
                    ) by {
                        let x = table_snap.map_index as int + k;
                        assert(k < table_snap.spec_map_blocks(bs));
                        assert(x < io_prev.block_count as int) by {
                            assert(table_snap.spec_map_blocks(bs) <= table_snap.block_count as int);
                        }
                        assert(!(map_prev.first_block as int <= x < map_prev.last_block as int));
                        assert(io.block_view(x) == io_prev.block_view(x));
                        assert(io_prev.block_view(x) == table_snap.map@.subrange(
                            k * io.block_size as int,
                            (k + 1) * io.block_size as int,
                        ));
                    }
                }
                assert(io.block_view(0).subrange(0, SUPERBLOCK_FIELD_BYTES as int)
                    == sb_val.spec_bytes()) by {
                    assert(!(map_prev.first_block as int <= 0 < map_prev.last_block as int));
                    assert(io.block_view(0) == io_prev.block_view(0));
                }
            }
            i = i + 1;
        }
        let ghost io_marked = io;
        super_block.set_inode_count(&mut io, inode_table.inode_count);
        proof {
            assert(super_block.written(io));
            super_block.lemma_spec_bytes_len();
            assert(io.block_view(0).subrange(0, SUPERBLOCK_FIELD_BYTES as int)
                =~= super_block.spec_bytes());
            assert(block_map.synced(io)) by {
                assert forall|k: int|
                    0 <= k < block_map.data@.len() as int / io.block_size as int
                        implies #[trigger] io.block_view(block_map.first_block as int + k)
                    == block_map.data@.subrange(
                    k * io.block_size as int,
                    (k + 1) * io.block_size as int,
                ) by {
                    let x = block_map.first_block as int + k;
                    assert(sb_region_blocks(bs) <= x);
                    assert(x < io_marked.block_count as int);
                    assert(io.block_view(x) == io_marked.block_view(x));
                }
            }
            assert(inode_table.synced(io)) by {
                inode_table.lemma_wf_facts(bs);
                assert forall|k: int|
                    0 <= k < inode_table.map@.len() as int / io.block_size as int
                        implies #[trigger] io.block_view(inode_table.map_index as int + k)
                    == inode_table.map@.subrange(
                    k * io.block_size as int,
                    (k + 1) * io.block_size as int,
                ) by {
                    let x = inode_table.map_index as int + k;
                    assert(k < inode_table.spec_map_blocks(bs));
                    assert(sb_region_blocks(bs) <= x);
                    assert(x < io_marked.block_count as int) by {
                        assert(inode_table.spec_map_blocks(bs) <= inode_table.block_count as int);
                    }
                    assert(io.block_view(x) == io_marked.block_view(x));
                }
            }
        }
        let r = Structure { io, super_block, block_map, inode_table };
        proof {
            assert(r.wf());
            assert forall|b: int| 0 <= b < r.block_map.bits() implies r.block_map.bit(b) == (b
                < r.reserved_end()) by {}
        }
        r
    }

    /// What an already-initialized device must satisfy for `mount`: the
    /// magic matches, the persisted geometry is consistent with the device,
    /// and the bookkeeping regions fit. Anything else is corruption.
    pub open spec fn can_mount(io: IO<D>) -> bool {
        let sb = SuperBlock::spec_parse(io.block_view(0));
        let bs = sb.block_size as int;
        let nbc = (io.drive.sectors().len() * io.sector_size()) as int / bs;
        let first = sb_region_blocks(bs);
        let mb = map_bytes(nbc, bs) / bs;
        let ic = sb.inode_count as int;
        let imb = ic / 8 / bs;
        let itb = spec_ceil_div(ic, InodeTable::<META>::spec_ipb(bs));
        &&& io.wf()
        &&& SUPERBLOCK_FIELD_BYTES <= io.block_size
        &&& SUPERBLOCK_FIELD_BYTES <= io.sector_size()
        &&& sb_region_blocks(io.block_size as int) <= io.block_count as int
        &&& sb.magic == MAGIC
        &&& io.sector_size() <= bs as nat
        &&& bs % io.sector_size() as int == 0
        &&& SUPERBLOCK_FIELD_BYTES <= bs
        &&& sb.block_count as int == nbc
        &&& nbc >= 1
        &&& map_bytes(nbc, bs) <= usize::MAX
        &&& map_bytes(nbc, bs) * 8 <= u64::MAX as int
        &&& 0 <= mb
        &&& 0 <= imb
        &&& 0 <= itb
        &&& Inode::<META>::spec_size_on_disk() <= bs
        &&& Inode::<META>::spec_size_on_disk() <= usize::MAX
        &&& bs * (crate::DIRECT_POINTERS as int) <= u64::MAX as int
        &&& ic >= 1
        &&& ic % 8 == 0
        &&& ic / 8 <= usize::MAX as int
        &&& (ic / 8) % bs == 0
        &&& imb + itb <= usize::MAX as int
        &&& first + mb + 1 + imb + itb <= nbc
    }

    /// Mounts an initialized device: re-reads the superblock, adopts the
    /// persisted block size, and reads both bitmaps back from disk.
    pub fn mount(io: IO<D>) -> (r: Structure<D, META>)
        requires
            Structure::<D, META>::can_mount(io),
        ensures
            r.wf(),
            r.io.drive.sectors() == io.drive.sectors(),
            r.io.sector_size() == io.sector_size(),
            r.super_block == SuperBlock::spec_parse(io.block_view(0)),
            r.io.block_size == SuperBlock::spec_parse(io.block_view(0)).block_size,
            r.block_map.data@.len() == map_bytes(r.io.block_count as int, r.io.block_size as int),
            r.inode_table.map@.len() as int == r.super_block.inode_count as int / 8,
    {
        let ghost sb0 = SuperBlock::spec_parse(io.block_view(0));
        let super_block = match SuperBlock::read(&io) {
            Some(sb) => sb,
            None => vstd::pervasive::unreached(),
        };
        let ghost io0 = io;
        let mut io = io;
        io.set_block_size(super_block.block_size);
        let ghost bs = super_block.block_size as int;
        proof {
            lemma_sb_region_blocks_pos(bs);
            lemma_sb_region_blocks_pos(io0.block_size as int);
            // the superblock prefix of block 0 is the same bytes at either
            // block size: both start at sector 0
            io0.lemma_geometry();
            io.lemma_geometry();
            lemma_block0_prefix(io0, SUPERBLOCK_FIELD_BYTES as int);
            lemma_block0_prefix(io, SUPERBLOCK_FIELD_BYTES as int);
            SuperBlock::lemma_parse_bytes(io0.block_view(0));
            assert(io.block_view(0).subrange(0, SUPERBLOCK_FIELD_BYTES as int)
                == super_block.spec_bytes());
        }
        let first_block: u64 = ((SUPERBLOCK_SIZE as u64) + (super_block.block_size as u64) - 1)
            / (super_block.block_size as u64);
        proof {
            assert(first_block as int == sb_region_blocks(bs));
            crate::blockmap::lemma_map_bytes_bound(io.block_count as int, bs);
        }
        let block_map = BlockMap::read(&io, first_block);
        let inode_table = InodeTable::<META>::read(
            &io,
            block_map.last_block + 1,
            super_block.inode_count,
        );
        let r = Structure { io, super_block, block_map, inode_table };
        proof {
            assert(r.wf());
        }
        r
    }

    /// Mounting the device that a format left behind recovers the same
    /// superblock and the same bitmaps, bit for bit: the on-disk format is
    /// self-describing.
    pub proof fn lemma_mount_recovers_format(
        fresh: Structure<D, META>,
        mounted: Structure<D, META>,
    )
        requires
            fresh.wf(),
            mounted.wf(),
            mounted.io.drive.sectors() == fresh.io.drive.sectors(),
            mounted.io.sector_size() == fresh.io.sector_size(),
            SUPERBLOCK_FIELD_BYTES <= fresh.io.sector_size(),
            mounted.block_map.data@.len() == fresh.block_map.data@.len(),
            mounted.inode_table.map@.len() == fresh.inode_table.map@.len(),
        ensures
            mounted.super_block == fresh.super_block,
            mounted.block_map.data@ == fresh.block_map.data@,
            mounted.inode_table.map@ == fresh.inode_table.map@,
    {
        fresh.io.lemma_geometry();
        mounted.io.lemma_geometry();
        let bsf = fresh.io.block_size as int;
        let bsm = mounted.io.block_size as int;
        // block 0 exists on both: the reserved prefix is nonempty
        lemma_sb_region_blocks_pos(bsf);
        lemma_sb_region_blocks_pos(bsm);
        assert(fresh.io.block_count >= 1);
        assert(mounted.io.block_count >= 1);
        // both superblocks serialize to the same 32 device bytes
        lemma_block0_prefix(fresh.io, SUPERBLOCK_FIELD_BYTES as int);
        lemma_block0_prefix(mounted.io, SUPERBLOCK_FIELD_BYTES as int);
        assert(fresh.super_block.spec_bytes() == mounted.super_block.spec_bytes());
        fresh.super_block.lemma_parse_serialize(Seq::<u8>::empty());
        mounted.super_block.lemma_parse_serialize(Seq::<u8>::empty());
        assert(fresh.super_block.spec_bytes() + Seq::<u8>::empty()
            =~= fresh.super_block.spec_bytes());
        assert(mounted.super_block.spec_bytes() + Seq::<u8>::empty()
            =~= mounted.super_block.spec_bytes());
        assert(mounted.super_block == fresh.super_block);
        // equal geometry means equal block views
        assert(bsm == bsf);
        assert(mounted.io.block_count == fresh.io.block_count);
        assert(forall|j: int| mounted.io.block_view(j) == fresh.io.block_view(j));
        // both bitmaps are synced with the same device contents
        assert(mounted.block_map.first_block == fresh.block_map.first_block);
        assert(mounted.block_map.last_block == fresh.block_map.last_block);
        assert forall|k: int|
            0 <= k < mounted.block_map.data@.len() as int / bsf
                implies #[trigger] mounted.block_map.data@.subrange(k * bsf, (k + 1) * bsf)
            == fresh.block_map.data@.subrange(k * bsf, (k + 1) * bsf) by {
            assert(mounted.io.block_view(mounted.block_map.first_block as int + k)
                == mounted.block_map.data@.subrange(k * bsf, (k + 1) * bsf));
            assert(fresh.io.block_view(fresh.block_map.first_block as int + k)
                == fresh.block_map.data@.subrange(k * bsf, (k + 1) * bsf));
        }
        lemma_eq_from_chunks(mounted.block_map.data@, fresh.block_map.data@, bsf);
        assert(mounted.inode_table.map_index == fresh.inode_table.map_index);
        assert forall|k: int|
            0 <= k < mounted.inode_table.map@.len() as int / bsf
                implies #[trigger] mounted.inode_table.map@.subrange(k * bsf, (k + 1) * bsf)
            == fresh.inode_table.map@.subrange(k * bsf, (k + 1) * bsf) by {
            assert(mounted.io.block_view(mounted.inode_table.map_index as int + k)
                == mounted.inode_table.map@.subrange(k * bsf, (k + 1) * bsf));
            assert(fresh.io.block_view(fresh.inode_table.map_index as int + k)
                == fresh.inode_table.map@.subrange(k * bsf, (k + 1) * bsf));
        }
        lemma_eq_from_chunks(mounted.inode_table.map@, fresh.inode_table.map@, bsf);
    }

    /// Size of a block in bytes, as the superblock records it.
    pub fn get_block_size(&self) -> (r: usize)
        ensures
            r == self.super_block.block_size,
    {
        self.super_block.block_size
    }

    /// Allocates a fresh data block: the lowest free bit of the block map.
    /// Returns `None` when no data block is free.
    pub fn allocate_block(&mut self) -> (r: Option<BlockPointer>)
        requires
            old(self).wf(),
            old(self).reserved_marked(),
        ensures
            final(self).wf(),
            final(self).reserved_marked(),
            final(self).super_block == old(self).super_block,
            final(self).inode_table == old(self).inode_table,
            final(self).io.block_size == old(self).io.block_size,
            final(self).io.block_count == old(self).io.block_count,
            final(self).io.sector_size() == old(self).io.sector_size(),
            final(self).io.drive.sectors().len() == old(self).io.drive.sectors().len(),
            final(self).block_map.first_block == old(self).block_map.first_block,
            final(self).block_map.last_block == old(self).block_map.last_block,
            final(self).block_map.bits() == old(self).block_map.bits(),
            forall|j: int|
                0 <= j < old(self).io.block_count && !(old(self).block_map.first_block as int <= j
                    < old(self).block_map.last_block as int) ==> final(self).io.block_view(j)
                    == old(self).io.block_view(j),
            match r {
                Some(p) => {
                    &&& old(self).is_data_block(p as int)
                    &&& !old(self).block_map.bit(p as int)
                    &&& final(self).block_map.bit(p as int)
                    &&& forall|j: int| 0 <= j < p as int ==> old(self).block_map.bit(j)
                    &&& forall|j: int|
                        0 <= j < final(self).block_map.bits() && j != p as int ==> final(self).block_map.bit(j) == old(self).block_map.bit(j)
                    &&& crate::bits::count_used_bits(
                        final(self).block_map.data@,
                        final(self).block_map.bits(),
                    ) == crate::bits::count_used_bits(
                        old(self).block_map.data@,
                        old(self).block_map.bits(),
                    ) + 1
                },
                None => {
                    &&& forall|j: int|
                        0 <= j < old(self).io.block_count as int ==> old(self).block_map.bit(j)
                    &&& forall|j: int|
                        0 <= j < old(self).io.block_count as int ==> final(self).block_map.bit(j)
                            == old(self).block_map.bit(j)
                },
            },
    {
        let bc = self.io.get_block_count();
        let r = self.block_map.allocate(&mut self.io);
        proof {
            self.io.lemma_geometry();
            lemma_sb_region_blocks_pos(old(self).io.block_size as int);
            self.inode_table.lemma_wf_facts(self.io.block_size as int);
            self.inode_table.lemma_synced_preserved(
                old(self).io,
                self.io,
                old(self).block_map.first_block as int,
                old(self).block_map.last_block as int,
            );
            assert(0 < old(self).io.block_count);
            assert(self.io.block_view(0) == old(self).io.block_view(0)) by {
                assert(!(old(self).block_map.first_block as int <= 0 < old(self).block_map.last_block as int));
            }
            if r is Some {
                assert forall|i: int| 0 <= i < self.reserved_end() implies self.block_map.bit(
                    i,
                ) by {
                    assert(old(self).block_map.bit(i));
                }
            }
        }
        match r {
            Some(p) => {
                if p < bc {
                    proof {
                        assert(p as int >= old(self).reserved_end());
                    }
                    Some(p)
                } else {
                    proof {
                        assert(forall|j: int|
                            0 <= j < old(self).io.block_count as int ==> old(self).block_map.bit(
                                j,
                            ));
                    }
                    None
                }
            },
            None => None,
        }
    }

    /// Returns a data block to the free pool: clears its bit in the block
    /// map and writes the change through.
    pub fn free_block(&mut self, index: BlockPointer)
        requires
            old(self).wf(),
            old(self).reserved_marked(),
            old(self).is_data_block(index as int),
        ensures
            final(self).wf(),
            final(self).reserved_marked(),
            final(self).super_block == old(self).super_block,
            final(self).inode_table == old(self).inode_table,
            final(self).io.block_size == old(self).io.block_size,
            final(self).io.block_count == old(self).io.block_count,
            final(self).io.sector_size() == old(self).io.sector_size(),
            final(self).io.drive.sectors().len() == old(self).io.drive.sectors().len(),
            final(self).block_map.first_block == old(self).block_map.first_block,
            final(self).block_map.last_block == old(self).block_map.last_block,
            final(self).block_map.bits() == old(self).block_map.bits(),
            !final(self).block_map.bit(index as int),
            forall|j: int|
                0 <= j < final(self).block_map.bits() && j != index as int ==> final(self).block_map.bit(j) == old(self).block_map.bit(j),
            crate::bits::count_used_bits(
                final(self).block_map.data@,
                final(self).block_map.bits(),
            ) == crate::bits::count_used_bits(
                old(self).block_map.data@,
                old(self).block_map.bits(),
            ) - if old(self).block_map.bit(index as int) {
                1int
            } else {
                0int
            },
            forall|j: int|
                0 <= j < old(self).io.block_count && !(old(self).block_map.first_block as int <= j
                    < old(self).block_map.last_block as int) ==> final(self).io.block_view(j)
                    == old(self).io.block_view(j),
    {
        proof {
            self.io.lemma_geometry();
            assert((index as int) < old(self).block_map.bits());
        }
        self.block_map.mark_free(&mut self.io, index);
        proof {
            self.io.lemma_geometry();
            lemma_sb_region_blocks_pos(old(self).io.block_size as int);
            self.inode_table.lemma_wf_facts(self.io.block_size as int);
            self.inode_table.lemma_synced_preserved(
                old(self).io,
                self.io,
                old(self).block_map.first_block as int,
                old(self).block_map.last_block as int,
            );
            assert(self.io.block_view(0) == old(self).io.block_view(0)) by {
                assert(0 < old(self).reserved_end());
                assert(!(old(self).block_map.first_block as int <= 0 < old(self).block_map.last_block as int));
            }
            assert forall|i: int| 0 <= i < self.reserved_end() implies self.block_map.bit(i) by {
                assert(old(self).block_map.bit(i));
            }
        }
    }

    /// Creates a fresh inode with the given metadata: allocates an id,
    /// persists the zeroed record, and returns the inode by value.
    /// `Err(NoSpace)` when the inode bitmap is full.
    pub fn create_inode(&mut self, meta: META) -> (r: Result<Inode<META>, Error>)
        requires
            old(self).wf(),
        ensures
            final(self).wf(),
            old(self).reserved_marked() ==> final(self).reserved_marked(),
            final(self).super_block == old(self).super_block,
            final(self).block_map == old(self).block_map,
            final(self).io.block_size == old(self).io.block_size,
            final(self).io.block_count == old(self).io.block_count,
            final(self).io.sector_size() == old(self).io.sector_size(),
            final(self).io.drive.sectors().len() == old(self).io.drive.sectors().len(),
            final(self).inode_table.inode_count == old(self).inode_table.inode_count,
            final(self).inode_table.map_index == old(self).inode_table.map_index,
            final(self).inode_table.table_index == old(self).inode_table.table_index,
            final(self).inode_table.block_count == old(self).inode_table.block_count,
            forall|j: int|
                0 <= j < old(self).io.block_count && !(old(self).inode_table.map_index as int <= j
                    < old(self).reserved_end()) ==> final(self).io.block_view(j) == old(self).io.block_view(j),
            match r {
                Ok(inode) => {
                    &&& inode.id is Some
                    &&& (inode.id->0 as int) < old(self).inode_table.inode_count as int
                    &&& inode.size == 0
                    &&& inode.used_pointers == 0
                    &&& inode.allocated_size == 0
                    &&& inode.meta == meta
                    &&& final(self).inode_valid(inode)
                    &&& !old(self).inode_table.bit(inode.id->0 as int)
                    &&& final(self).inode_table.bit(inode.id->0 as int)
                    &&& forall|j: int| 0 <= j < inode.id->0 as int ==> old(self).inode_table.bit(j)
                    &&& final(self).inode_table.slot_view(final(self).io, inode.id->0 as int)
                        == inode.spec_bytes()
                    &&& forall|id2: int|
                        0 <= id2 < old(self).inode_table.inode_count && id2 != inode.id->0 as int
                            ==> final(self).inode_table.slot_view(final(self).io, id2) == old(self).inode_table.slot_view(old(self).io, id2)
                },
                Err(e) => {
                    &&& e == Error::NoSpace
                    &&& *final(self) == *old(self)
                    &&& forall|j: int|
                        0 <= j < old(self).inode_table.inode_count ==> old(self).inode_table.bit(j)
                },
            },
    {
        let mut inode = Inode::new(meta);
        let res = self.inode_table.write_inode(&mut self.io, &mut inode);
        proof {
            self.io.lemma_geometry();
            self.inode_table.lemma_wf_facts(self.io.block_size as int);
            old(self).block_map.lemma_synced_preserved(
                old(self).io,
                self.io,
                old(self).inode_table.map_index as int,
                old(self).reserved_end(),
            );
            assert(self.io.block_view(0) == old(self).io.block_view(0)) by {
                assert(!(old(self).inode_table.map_index as int <= 0));
            }
            if old(self).reserved_marked() {
                assert forall|i: int| 0 <= i < self.reserved_end() implies self.block_map.bit(
                    i,
                ) by {
                    assert(old(self).block_map.bit(i));
                }
            }
        }
        match res {
            Ok(()) => Ok(inode),
            Err(e) => Err(e),
        }
    }

    /// Reads the inode with the given id from the table.
    pub fn read_inode(&self, id: InodePointer) -> (r: Inode<META>)
        requires
            self.wf(),
            (id as int) < self.inode_table.inode_count as int,
            META::parsable(
                self.inode_table.slot_view(self.io, id as int).subrange(
                    104,
                    Inode::<META>::spec_size_on_disk() as int,
                ),
            ),
        ensures
            Inode::<META>::parsed_from(
                r,
                id,
                self.inode_table.slot_view(self.io, id as int),
                self.io.block_size as int,
            ),
    {
        self.inode_table.read_inode(&self.io, id)
    }

    /// Persists an inode record, assigning it the lowest free id first if
    /// it has none. `Err(NoSpace)` when the inode bitmap is full.
    pub fn write_inode(&mut self, inode: &mut Inode<META>) -> (r: Result<(), Error>)
        requires
            old(self).wf(),
            old(inode).pointers@.len() == crate::DIRECT_POINTERS,
            match old(inode).id {
                Some(id) => (id as int) < old(self).inode_table.inode_count as int,
                None => true,
            },
        ensures
            final(self).wf(),
            old(self).reserved_marked() ==> final(self).reserved_marked(),
            final(self).super_block == old(self).super_block,
            final(self).block_map == old(self).block_map,
            final(self).io.block_size == old(self).io.block_size,
            final(self).io.block_count == old(self).io.block_count,
            final(self).io.sector_size() == old(self).io.sector_size(),
            final(self).io.drive.sectors().len() == old(self).io.drive.sectors().len(),
            final(self).inode_table.inode_count == old(self).inode_table.inode_count,
            final(self).inode_table.map_index == old(self).inode_table.map_index,
            final(self).inode_table.table_index == old(self).inode_table.table_index,
            final(self).inode_table.block_count == old(self).inode_table.block_count,
            forall|j: int|
                0 <= j < old(self).io.block_count && !(old(self).inode_table.map_index as int <= j
                    < old(self).reserved_end()) ==> final(self).io.block_view(j) == old(self).io.block_view(j),
            final(inode).pointers@ == old(inode).pointers@,
            final(inode).size == old(inode).size,
            final(inode).meta == old(inode).meta,
            final(inode).used_pointers == old(inode).used_pointers,
            final(inode).allocated_size == old(inode).allocated_size,
            match r {
                Ok(()) => {
                    &&& final(inode).id is Some
                    &&& (final(inode).id->0 as int) < old(self).inode_table.inode_count as int
                    &&& (old(inode).id is Some ==> final(inode).id == old(inode).id)
                    &&& final(self).inode_table.slot_view(final(self).io, final(inode).id->0 as int)
                        == final(inode).spec_bytes()
                    &&& forall|id2: int|
                        0 <= id2 < old(self).inode_table.inode_count && id2 != final(inode).id->0 as int ==> final(self).inode_table.slot_view(final(self).io, id2)
                            == old(self).inode_table.slot_view(old(self).io, id2)
                },
                Err(e) => {
                    &&& e == Error::NoSpace
                    &&& old(inode).id is None
                    &&& *final(self) == *old(self)
                    &&& *final(inode) == *old(inode)
                    &&& forall|j: int|
                        0 <= j < old(self).inode_table.inode_count ==> old(self).inode_table.bit(j)
                },
            },
    {
        let res = self.inode_table.write_inode(&mut self.io, inode);
        proof {
            self.io.lemma_geometry();
            self.inode_table.lemma_wf_facts(self.io.block_size as int);
            old(self).block_map.lemma_synced_preserved(
                old(self).io,
                self.io,
                old(self).inode_table.map_index as int,
                old(self).reserved_end(),
            );
            assert(self.io.block_view(0) == old(self).io.block_view(0)) by {
                assert(!(old(self).inode_table.map_index as int <= 0));
            }
            if old(self).reserved_marked() {
                assert forall|i: int| 0 <= i < self.reserved_end() implies self.block_map.bit(
                    i,
                ) by {
                    assert(old(self).block_map.bit(i));
                }
            }
        }
        res
    }

    /// Reads the root directory inode recorded in the superblock.
    pub fn get_root_inode(&self) -> (r: Inode<META>)
        requires
            self.wf(),
            (self.super_block.root_inode as int) < self.inode_table.inode_count as int,
            META::parsable(
                self.inode_table.slot_view(self.io, self.super_block.root_inode as int).subrange(
                    104,
                    Inode::<META>::spec_size_on_disk() as int,
                ),
            ),
        ensures
            Inode::<META>::parsed_from(
                r,
                self.super_block.root_inode,
                self.inode_table.slot_view(self.io, self.super_block.root_inode as int),
                self.io.block_size as int,
            ),
    {
        self.inode_table.read_inode(&self.io, self.super_block.root_inode)
    }

    /// Records `inode` as the root directory in the superblock and rewrites
    /// the superblock region.
    pub fn set_root_inode(&mut self, inode: &mut Inode<META>)
        requires
            old(self).wf(),
            old(inode).id is Some,
        ensures
            *final(inode) == *old(inode),
            final(self).wf(),
            old(self).reserved_marked() ==> final(self).reserved_marked(),
            final(self).block_map == old(self).block_map,
            final(self).inode_table == old(self).inode_table,
            final(self).io.block_size == old(self).io.block_size,
            final(self).io.block_count == old(self).io.block_count,
            final(self).io.sector_size() == old(self).io.sector_size(),
            final(self).io.drive.sectors().len() == old(self).io.drive.sectors().len(),
            final(self).super_block == (SuperBlock {
                root_inode: old(inode).id->0,
                ..old(self).super_block
            }),
            forall|j: int|
                sb_region_blocks(old(self).io.block_size as int) <= j < old(self).io.block_count
                    ==> final(self).io.block_view(j) == old(self).io.block_view(j),
    {
        let id = match inode.id {
            Some(id) => id,
            None => vstd::pervasive::unreached(),
        };
        proof {
            self.io.lemma_geometry();
            lemma_sb_region_blocks_pos(self.io.block_size as int);
        }
        self.super_block.set_root_inode(&mut self.io, id);
        proof {
            let bs = old(self).io.block_size as int;
            self.super_block.lemma_spec_bytes_len();
            assert(self.io.block_view(0).subrange(0, SUPERBLOCK_FIELD_BYTES as int)
                =~= self.super_block.spec_bytes());
            old(self).block_map.lemma_synced_preserved(old(self).io, self.io, 0, sb_region_blocks(bs));
            old(self).inode_table.lemma_synced_preserved(
                old(self).io,
                self.io,
                0,
                sb_region_blocks(bs),
            );
            if old(self).reserved_marked() {
                assert forall|i: int| 0 <= i < self.reserved_end() implies self.block_map.bit(
                    i,
                ) by {
                    assert(old(self).block_map.bit(i));
                }
            }
        }
    }

    /// Reads one block.
    pub fn read_block(&self, index: BlockPointer) -> (r: Vec<u8>)
        requires
            self.wf(),
            index < self.io.block_count,
        ensures
            r@ == self.io.block_view(index as int),
            r@.len() == self.io.block_size,
    {
        self.io.read_block(index)
    }

    /// Writes one data block. The bookkeeping prefix is owned by the
    /// superblock and the tables; writing into it would corrupt the image,
    /// so only data blocks may be written here.
    pub fn write_block(&mut self, index: BlockPointer, block: &Vec<u8>)
        requires
            old(self).wf(),
            old(self).is_data_block(index as int),
            block@.len() == old(self).io.block_size,
        ensures
            final(self).wf(),
            old(self).reserved_marked() ==> final(self).reserved_marked(),
            final(self).super_block == old(self).super_block,
            final(self).block_map == old(self).block_map,
            final(self).inode_table == old(self).inode_table,
            final(self).io.block_size == old(self).io.block_size,
            final(self).io.block_count == old(self).io.block_count,
            final(self).io.sector_size() == old(self).io.sector_size(),
            final(self).io.drive.sectors().len() == old(self).io.drive.sectors().len(),
            final(self).io.block_view(index as int) == block@,
            forall|j: int|
                0 <= j < old(self).io.block_count && j != index as int ==> final(self).io.block_view(j) == old(self).io.block_view(j),
    {
        proof {
            self.io.lemma_geometry();
            self.inode_table.lemma_wf_facts(self.io.block_size as int);
        }
        self.io.write_block(index, block);
        proof {
            let bs = old(self).io.block_size as int;
            old(self).block_map.lemma_synced_preserved(
                old(self).io,
                self.io,
                index as int,
                index as int + 1,
            );
            old(self).inode_table.lemma_synced_preserved(
                old(self).io,
                self.io,
                index as int,
                index as int + 1,
            );
            assert(self.io.block_view(0) == old(self).io.block_view(0)) by {
                assert(0 < old(self).reserved_end());
            }
            if old(self).reserved_marked() {
                assert forall|i: int| 0 <= i < self.reserved_end() implies self.block_map.bit(
                    i,
                ) by {
                    assert(old(self).block_map.bit(i));
                }
            }
        }
    }
}

} // verus!
