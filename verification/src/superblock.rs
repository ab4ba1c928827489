//! The superblock: the 1024-byte on-disk header of the filesystem.
//!
//! It is always written starting at block 0 and spans `⌈1024 / B⌉` blocks.
//! All integers are little-endian: magic (u32), block_size (u32),
//! block_count (u64), inode_count (u64), root_inode (u64); the rest of the
//! region is zero-padded.

use vstd::prelude::*;

use vstd::bytes::spec_u32_to_le_bytes;
use vstd::bytes::spec_u32_from_le_bytes;
use vstd::bytes::spec_u64_to_le_bytes;
use vstd::bytes::spec_u64_from_le_bytes;
use vstd::bytes::u32_to_le_bytes;
use vstd::bytes::u32_from_le_bytes;
use vstd::bytes::u64_to_le_bytes;
use vstd::bytes::u64_from_le_bytes;
use vstd::bytes::lemma_auto_spec_u32_to_from_le_bytes;
use vstd::bytes::lemma_auto_spec_u64_to_from_le_bytes;
use vstd::slice::slice_subrange;

use crate::bytes::zero_vec;
use crate::bytes::zeros;
use crate::device::DeviceDriver;
use crate::io::IO;
use crate::InodePointer;
use crate::SUPERBLOCK_SIZE;

verus! {

/// Value of the magic field identifying a formatted image.
pub const MAGIC: u32 = 0xdeadbeef;

/// Number of bytes of the serialized superblock fields.
pub const SUPERBLOCK_FIELD_BYTES: usize = 32;

/// How many blocks of size `b` the 1024-byte superblock region spans.
pub open spec fn sb_region_blocks(b: int) -> int {
    (SUPERBLOCK_SIZE + b - 1) / b
}

/// The superblock region spans at least one block.
pub proof fn lemma_sb_region_blocks_pos(b: int)
    requires
        b >= 1,
    ensures
        1 <= sb_region_blocks(b),
{
    vstd::arithmetic::div_mod::lemma_div_is_ordered(b, SUPERBLOCK_SIZE + b - 1, b);
    vstd::arithmetic::div_mod::lemma_div_by_self(b);
}

/// The on-disk header of the filesystem.
#[derive(Debug, Clone, Copy, PartialEq, Eq, Structural)]
pub struct SuperBlock {
    /// Identifies a formatted image; always [`MAGIC`].
    pub magic: u32,
    /// Size of a filesystem block in bytes.
    pub block_size: usize,
    /// Number of blocks on the device.
    pub block_count: u64,
    /// Number of inode slots in the inode table.
    pub inode_count: u64,
    /// Id of the root directory inode.
    pub root_inode: InodePointer,
}

impl SuperBlock {
    /// The serialized fields are meaningful: the magic is right and the
    /// block size survives its round trip through a `u32`.
    pub open spec fn wf(self) -> bool {
        &&& self.magic == MAGIC
        &&& SUPERBLOCK_FIELD_BYTES <= self.block_size <= u32::MAX
    }

    /// The 32 serialized field bytes, in on-disk order.
    pub open spec fn spec_bytes(self) -> Seq<u8> {
        spec_u32_to_le_bytes(self.magic) + spec_u32_to_le_bytes(self.block_size as u32)
            + spec_u64_to_le_bytes(self.block_count) + spec_u64_to_le_bytes(self.inode_count)
            + spec_u64_to_le_bytes(self.root_inode)
    }

    /// The fields parsed back from the first 32 bytes of `b`.
    pub open spec fn spec_parse(b: Seq<u8>) -> SuperBlock {
        SuperBlock {
            magic: spec_u32_from_le_bytes(b.subrange(0, 4)),
            block_size: spec_u32_from_le_bytes(b.subrange(4, 8)) as usize,
            block_count: spec_u64_from_le_bytes(b.subrange(8, 16)),
            inode_count: spec_u64_from_le_bytes(b.subrange(16, 24)),
            root_inode: spec_u64_from_le_bytes(b.subrange(24, 32)),
        }
    }

    /// The serialized fields span exactly 32 bytes.
    pub proof fn lemma_spec_bytes_len(self)
        ensures
            self.spec_bytes().len() == SUPERBLOCK_FIELD_BYTES,
    {
        lemma_auto_spec_u32_to_from_le_bytes();
        lemma_auto_spec_u64_to_from_le_bytes();
    }

    /// Parsing inverts serialization, whatever bytes pad the fields.
    pub proof fn lemma_parse_serialize(self, pad: Seq<u8>)
        requires
            self.block_size <= u32::MAX,
        ensures
            SuperBlock::spec_parse(self.spec_bytes() + pad) == self,
    {
        lemma_auto_spec_u32_to_from_le_bytes();
        lemma_auto_spec_u64_to_from_le_bytes();
        let b = self.spec_bytes() + pad;
        assert(b.subrange(0, 4) =~= spec_u32_to_le_bytes(self.magic));
        assert(b.subrange(4, 8) =~= spec_u32_to_le_bytes(self.block_size as u32));
        assert(b.subrange(8, 16) =~= spec_u64_to_le_bytes(self.block_count));
        assert(b.subrange(16, 24) =~= spec_u64_to_le_bytes(self.inode_count));
        assert(b.subrange(24, 32) =~= spec_u64_to_le_bytes(self.root_inode));
    }

    /// Serializing a parse reproduces the first 32 bytes.
    pub proof fn lemma_parse_bytes(b: Seq<u8>)
        requires
            b.len() >= SUPERBLOCK_FIELD_BYTES,
        ensures
            SuperBlock::spec_parse(b).spec_bytes() == b.subrange(0, SUPERBLOCK_FIELD_BYTES as int),
    {
        lemma_auto_spec_u32_to_from_le_bytes();
        lemma_auto_spec_u64_to_from_le_bytes();
        let sb = SuperBlock::spec_parse(b);
        assert(sb.block_size as u32 == spec_u32_from_le_bytes(b.subrange(4, 8)));
        assert(sb.spec_bytes() =~= b.subrange(0, SUPERBLOCK_FIELD_BYTES as int));
    }

    /// A fresh superblock for a `block_size`/`block_count` geometry: no
    /// inodes provisioned yet, root still unset.
    pub fn new(block_size: usize, block_count: u64) -> (r: SuperBlock)
        ensures
            r == (SuperBlock {
                magic: MAGIC,
                block_size,
                block_count,
                inode_count: 0,
                root_inode: 0,
            }),
    {
        SuperBlock { magic: MAGIC, block_size, block_count, inode_count: 0, root_inode: 0 }
    }

    /// The serialized fields as a byte vector.
    fn to_buffer(&self) -> (r: Vec<u8>)
        requires
            self.block_size <= u32::MAX,
        ensures
            r@ == self.spec_bytes(),
            r@.len() == SUPERBLOCK_FIELD_BYTES,
    {
        let mut buffer: Vec<u8> = Vec::new();
        let mut part = u32_to_le_bytes(self.magic);
        buffer.append(&mut part);
        let mut part = u32_to_le_bytes(self.block_size as u32);
        buffer.append(&mut part);
        let mut part = u64_to_le_bytes(self.block_count);
        buffer.append(&mut part);
        let mut part = u64_to_le_bytes(self.inode_count);
        buffer.append(&mut part);
        let mut part = u64_to_le_bytes(self.root_inode);
        buffer.append(&mut part);
        proof {
            lemma_auto_spec_u32_to_from_le_bytes();
            lemma_auto_spec_u64_to_from_le_bytes();
        }
        buffer
    }

    /// The fields parsed from the first 32 bytes of `buffer`.
    fn from_buffer(buffer: &Vec<u8>) -> (r: SuperBlock)
        requires
            buffer@.len() >= SUPERBLOCK_FIELD_BYTES,
        ensures
            r == SuperBlock::spec_parse(buffer@),
    {
        let magic = u32_from_le_bytes(slice_subrange(buffer.as_slice(), 0, 4));
        let block_size = u32_from_le_bytes(slice_subrange(buffer.as_slice(), 4, 8)) as usize;
        let block_count = u64_from_le_bytes(slice_subrange(buffer.as_slice(), 8, 16));
        let inode_count = u64_from_le_bytes(slice_subrange(buffer.as_slice(), 16, 24));
        let root_inode = u64_from_le_bytes(slice_subrange(buffer.as_slice(), 24, 32));
        SuperBlock { magic, block_size, block_count, inode_count, root_inode }
    }

    /// True when the superblock region fits on the device handled by `io`
    /// and the geometries agree, so that `write` may run.
    pub open spec fn can_write(self, bs: nat, bc: nat) -> bool {
        &&& self.wf()
        &&& self.block_size == bs
        &&& sb_region_blocks(bs as int) <= bc
    }

    /// What the superblock region looks like after `write`: block 0 holds
    /// the fields zero-padded to a block, the other spanned blocks are zero.
    pub open spec fn written<D: DeviceDriver>(self, io: IO<D>) -> bool {
        &&& io.block_view(0) == self.spec_bytes() + zeros(io.block_size - SUPERBLOCK_FIELD_BYTES)
        &&& forall|j: int|
            1 <= j < sb_region_blocks(io.block_size as int) ==> io.block_view(j) == zeros(
                io.block_size as int,
            )
    }

    /// Serializes the fields and writes the whole superblock region:
    /// the fields land at the start of block 0, everything else is zero.
    pub fn write<D: DeviceDriver>(&self, io: &mut IO<D>)
        requires
            old(io).wf(),
            self.can_write(old(io).block_size as nat, old(io).block_count as nat),
        ensures
            final(io).wf(),
            final(io).block_size == old(io).block_size,
            final(io).block_count == old(io).block_count,
            final(io).sector_size() == old(io).sector_size(),
            final(io).drive.sectors().len() == old(io).drive.sectors().len(),
            self.written(*final(io)),
            forall|j: int|
                sb_region_blocks(old(io).block_size as int) <= j < old(io).block_count
                    ==> final(io).block_view(j) == old(io).block_view(j),
    {
        proof {
            lemma_sb_region_blocks_pos(old(io).block_size as int);
        }
        let block_size = io.get_block_size();
        let mut buffer = self.to_buffer();
        while buffer.len() < block_size
            invariant
                buffer@.len() <= block_size,
                buffer@.subrange(0, SUPERBLOCK_FIELD_BYTES as int) == self.spec_bytes(),
                buffer@.len() >= SUPERBLOCK_FIELD_BYTES,
                forall|j: int|
                    SUPERBLOCK_FIELD_BYTES <= j < buffer@.len() ==> buffer@[j] == 0u8,
            decreases block_size - buffer@.len(),
        {
            buffer.push(0u8);
            assert(buffer@.subrange(0, SUPERBLOCK_FIELD_BYTES as int) =~= buffer@.subrange(
                0,
                buffer@.len() - 1,
            ).subrange(0, SUPERBLOCK_FIELD_BYTES as int));
        }
        proof {
            assert(buffer@ =~= self.spec_bytes() + zeros(
                io.block_size - SUPERBLOCK_FIELD_BYTES,
            ));
        }
        io.write_block(0, &buffer);
        let region_blocks = ((SUPERBLOCK_SIZE as u64) + (block_size as u64) - 1) / (
        block_size as u64);
        let ghost mid = *io;
        let mut j: u64 = 1;
        while j < region_blocks
            invariant
                1 <= j <= region_blocks || region_blocks < 1,
                region_blocks as int == sb_region_blocks(mid.block_size as int),
                region_blocks <= mid.block_count,
                block_size == mid.block_size,
                io.wf(),
                io.block_size == mid.block_size,
                io.block_count == mid.block_count,
                io.sector_size() == mid.sector_size(),
                io.drive.sectors().len() == mid.drive.sectors().len(),
                io.block_view(0) == mid.block_view(0),
                forall|k: int| 1 <= k < j ==> io.block_view(k) == zeros(mid.block_size as int),
                forall|k: int|
                    j <= k < mid.block_count ==> io.block_view(k) == mid.block_view(k),
            decreases region_blocks - j,
        {
            let zero_block = zero_vec(block_size);
            proof {
                assert(zero_block@ =~= zeros(mid.block_size as int));
            }
            io.write_block(j, &zero_block);
            j = j + 1;
        }
    }

    /// Reads and parses the superblock region. Returns `None` when the
    /// magic does not match: the device holds no filesystem.
    pub fn read<D: DeviceDriver>(io: &IO<D>) -> (r: Option<SuperBlock>)
        requires
            io.wf(),
            SUPERBLOCK_FIELD_BYTES <= io.block_size,
            sb_region_blocks(io.block_size as int) <= io.block_count,
        ensures
            match r {
                Some(sb) => sb == SuperBlock::spec_parse(io.block_view(0))
                    && spec_u32_from_le_bytes(io.block_view(0).subrange(0, 4)) == MAGIC,
                None => spec_u32_from_le_bytes(io.block_view(0).subrange(0, 4)) != MAGIC,
            },
    {
        proof {
            io.lemma_geometry();
            lemma_sb_region_blocks_pos(io.block_size as int);
        }
        let mut buffer = io.read_block(0);
        let magic = u32_from_le_bytes(slice_subrange(buffer.as_slice(), 0, 4));
        if magic != MAGIC {
            return None;
        }
        let block_size = io.get_block_size();
        if block_size >= SUPERBLOCK_SIZE {
            Some(SuperBlock::from_buffer(&buffer))
        } else {
            let ghost first = io.block_view(0);
            let region_blocks = ((SUPERBLOCK_SIZE as u64) + (block_size as u64) - 1) / (
            block_size as u64);
            let mut i: u64 = 1;
            while i < region_blocks
                invariant
                    1 <= i <= region_blocks || region_blocks < 1,
                    io.wf(),
                    region_blocks <= io.block_count,
                    buffer@.len() >= io.block_size,
                    buffer@.subrange(0, io.block_size as int) == first,
                decreases region_blocks - i,
            {
                let mut part = io.read_block(i);
                let ghost before = buffer@;
                buffer.append(&mut part);
                proof {
                    assert(buffer@.subrange(0, io.block_size as int) =~= before.subrange(
                        0,
                        io.block_size as int,
                    ));
                }
                i = i + 1;
            }
            let r = SuperBlock::from_buffer(&buffer);
            proof {
                assert(buffer@.subrange(0, 4) =~= first.subrange(0, 4));
                assert(buffer@.subrange(4, 8) =~= first.subrange(4, 8));
                assert(buffer@.subrange(8, 16) =~= first.subrange(8, 16));
                assert(buffer@.subrange(16, 24) =~= first.subrange(16, 24));
                assert(buffer@.subrange(24, 32) =~= first.subrange(24, 32));
            }
            Some(r)
        }
    }

    /// Records the number of provisioned inodes and rewrites the region.
    pub fn set_inode_count<D: DeviceDriver>(&mut self, io: &mut IO<D>, inode_count: u64)
        requires
            old(io).wf(),
            old(self).can_write(old(io).block_size as nat, old(io).block_count as nat),
        ensures
            *final(self) == (SuperBlock { inode_count, ..*old(self) }),
            final(io).wf(),
            final(io).block_size == old(io).block_size,
            final(io).block_count == old(io).block_count,
            final(io).sector_size() == old(io).sector_size(),
            final(io).drive.sectors().len() == old(io).drive.sectors().len(),
            final(self).written(*final(io)),
            forall|j: int|
                sb_region_blocks(old(io).block_size as int) <= j < old(io).block_count
                    ==> final(io).block_view(j) == old(io).block_view(j),
    {
        self.inode_count = inode_count;
        self.write(io);
    }

    /// Records the root directory inode and rewrites the region.
    pub fn set_root_inode<D: DeviceDriver>(&mut self, io: &mut IO<D>, root_inode: InodePointer)
        requires
            old(io).wf(),
            old(self).can_write(old(io).block_size as nat, old(io).block_count as nat),
        ensures
            *final(self) == (SuperBlock { root_inode, ..*old(self) }),
            final(io).wf(),
            final(io).block_size == old(io).block_size,
            final(io).block_count == old(io).block_count,
            final(io).sector_size() == old(io).sector_size(),
            final(io).drive.sectors().len() == old(io).drive.sectors().len(),
            final(self).written(*final(io)),
            forall|j: int|
                sb_region_blocks(old(io).block_size as int) <= j < old(io).block_count
                    ==> final(io).block_view(j) == old(io).block_view(j),
    {
        self.root_inode = root_inode;
        self.write(io);
    }
}

} // verus!
