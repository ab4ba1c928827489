//! Inodes: fixed-size records addressing the data of one file or directory.
//!
//! An inode stores the payload size, twelve direct block pointers and a
//! user-supplied metadata payload. On disk: `size (u64 LE) | pointers (12 ×
//! u64 LE) | meta`. The pointer slots are left-packed: every slot below
//! `used_pointers` holds a block, every slot from there on is null.

use vstd::prelude::*;

use vstd::bytes::spec_u64_to_le_bytes;
use vstd::bytes::spec_u64_from_le_bytes;
use vstd::bytes::u64_to_le_bytes;
use vstd::bytes::u64_from_le_bytes;
use vstd::bytes::lemma_auto_spec_u64_to_from_le_bytes;
use vstd::slice::slice_subrange;

use crate::bytes::sub_bytes;
use crate::bytes::zeros;
use crate::device::DeviceDriver;
use crate::error::Error;
use crate::inode_table::spec_ceil_div;
use crate::io::IO;
use crate::serializable::ByteSerializable;
use crate::serializable::KnownSize;
use crate::structure::Structure;
use crate::BlockPointer;
use crate::InodePointer;
use crate::DIRECT_POINTERS;

verus! {

/// A pointer slot holding this value references no block.
pub const NULL_POINTER: BlockPointer = 0;

/// Number of bytes of the serialized pointer array.
pub const POINTER_BYTES: usize = 96;

/// The serialized pointer slots, each a little-endian `u64`.
pub open spec fn spec_pointers_bytes(p: Seq<u64>) -> Seq<u8>
    decreases p.len(),
{
    if p.len() == 0 {
        Seq::empty()
    } else {
        spec_u64_to_le_bytes(p[0]) + spec_pointers_bytes(p.drop_first())
    }
}

/// The `n` pointer slots parsed from the front of `b`.
pub open spec fn spec_parse_pointers(b: Seq<u8>, n: nat) -> Seq<u64> {
    Seq::new(n, |i: int| spec_u64_from_le_bytes(b.subrange(8 * i, 8 * i + 8)))
}

/// Appending a pointer appends its eight bytes.
proof fn lemma_pointers_bytes_push(p: Seq<u64>, x: u64)
    ensures
        spec_pointers_bytes(p.push(x)) == spec_pointers_bytes(p) + spec_u64_to_le_bytes(x),
    decreases p.len(),
{
    lemma_auto_spec_u64_to_from_le_bytes();
    if p.len() == 0 {
        assert(p.push(x)[0] == x);
        assert(p.push(x).drop_first() =~= Seq::<u64>::empty());
        assert(spec_pointers_bytes(Seq::<u64>::empty()) == Seq::<u8>::empty());
        assert(spec_pointers_bytes(p.push(x)) =~= spec_pointers_bytes(p) + spec_u64_to_le_bytes(
            x,
        ));
    } else {
        assert(p.push(x).drop_first() =~= p.drop_first().push(x));
        lemma_pointers_bytes_push(p.drop_first(), x);
        assert(p.push(x)[0] == p[0]);
        assert(spec_pointers_bytes(p.push(x)) == spec_u64_to_le_bytes(p[0]) + (spec_pointers_bytes(
            p.drop_first(),
        ) + spec_u64_to_le_bytes(x)));
        assert(spec_u64_to_le_bytes(p[0]) + (spec_pointers_bytes(p.drop_first())
            + spec_u64_to_le_bytes(x)) =~= (spec_u64_to_le_bytes(p[0]) + spec_pointers_bytes(
            p.drop_first(),
        )) + spec_u64_to_le_bytes(x));
    }
}

/// The serialized pointers have eight bytes per slot, and slot `i` occupies
/// bytes `8 i .. 8 i + 8`.
pub proof fn lemma_pointers_bytes_index(p: Seq<u64>, i: int)
    requires
        0 <= i < p.len(),
    ensures
        spec_pointers_bytes(p).len() == 8 * p.len(),
        spec_pointers_bytes(p).subrange(8 * i, 8 * i + 8) == spec_u64_to_le_bytes(p[i]),
    decreases p.len(),
{
    lemma_auto_spec_u64_to_from_le_bytes();
    lemma_pointers_bytes_len(p);
    if i == 0 {
        lemma_pointers_bytes_len(p.drop_first());
        assert(spec_pointers_bytes(p).subrange(0, 8) =~= spec_u64_to_le_bytes(p[0]));
    } else {
        lemma_pointers_bytes_index(p.drop_first(), i - 1);
        lemma_pointers_bytes_len(p.drop_first());
        assert(spec_pointers_bytes(p).subrange(8 * i, 8 * i + 8) =~= spec_pointers_bytes(
            p.drop_first(),
        ).subrange(8 * (i - 1), 8 * (i - 1) + 8));
    }
}

/// The serialized pointers have eight bytes per slot.
pub proof fn lemma_pointers_bytes_len(p: Seq<u64>)
    ensures
        spec_pointers_bytes(p).len() == 8 * p.len(),
    decreases p.len(),
{
    lemma_auto_spec_u64_to_from_le_bytes();
    if p.len() > 0 {
        lemma_pointers_bytes_len(p.drop_first());
    }
}

/// Parsing inverts serializing a pointer array.
pub proof fn lemma_pointers_roundtrip(p: Seq<u64>)
    ensures
        spec_parse_pointers(spec_pointers_bytes(p), p.len()) == p,
{
    lemma_auto_spec_u64_to_from_le_bytes();
    assert forall|i: int| 0 <= i < p.len() implies spec_parse_pointers(
        spec_pointers_bytes(p),
        p.len(),
    )[i] == p[i] by {
        lemma_pointers_bytes_index(p, i);
    }
    assert(spec_parse_pointers(spec_pointers_bytes(p), p.len()) =~= p);
}

/// The index of the first null slot: how many leading pointers are in use.
pub open spec fn spec_count_used(p: Seq<u64>, i: int) -> int
    decreases p.len() - i,
{
    if i < 0 || i >= p.len() || p[i] == 0 {
        i
    } else {
        spec_count_used(p, i + 1)
    }
}

/// On a left-packed pointer array, the first null slot is exactly the
/// number of used slots.
proof fn lemma_count_used_packed(p: Seq<u64>, used: int, i: int)
    requires
        0 <= i <= used <= p.len(),
        forall|k: int| 0 <= k < used ==> p[k] != 0,
        forall|k: int| used <= k < p.len() ==> p[k] == 0,
    ensures
        spec_count_used(p, i) == used,
    decreases p.len() - i,
{
    if i < used {
        lemma_count_used_packed(p, used, i + 1);
    }
}

/// The concatenation of the blocks that the first `k` slots of `pointers`
/// reference.
pub open spec fn spec_blocks_of<D: DeviceDriver>(io: IO<D>, pointers: Seq<u64>, k: int) -> Seq<u8>
    decreases k,
{
    if k <= 0 {
        Seq::empty()
    } else {
        spec_blocks_of(io, pointers, k - 1) + io.block_view(pointers[k - 1] as int)
    }
}

/// The payload of the record serialized in `slot`: the blocks its parsed
/// pointers reference, truncated to its parsed size.
pub open spec fn stored_payload<D: DeviceDriver>(io: IO<D>, slot: Seq<u8>) -> Seq<u8> {
    let pointers = spec_parse_pointers(slot.subrange(8, 104), DIRECT_POINTERS as nat);
    let used = spec_count_used(pointers, 0);
    let size = spec_u64_from_le_bytes(slot.subrange(0, 8));
    spec_blocks_of(io, pointers, used).subrange(0, size as int)
}

/// One file or directory record, parameterized by its metadata payload.
pub struct Inode<META: ByteSerializable + KnownSize> {
    /// The inode's id in the table, once it has been assigned one.
    pub id: Option<InodePointer>,
    /// The twelve direct block pointer slots.
    pub pointers: Vec<BlockPointer>,
    /// Number of valid payload bytes.
    pub size: u64,
    /// The user-supplied metadata payload.
    pub meta: META,
    /// Number of leading non-null pointer slots.
    pub used_pointers: usize,
    /// Bytes addressable through the used slots: `used_pointers · B`.
    pub allocated_size: u64,
}

impl<META: ByteSerializable + KnownSize> Inode<META> {
    /// Size of a serialized inode: size field, pointers, metadata.
    pub open spec fn spec_size_on_disk() -> nat {
        104 + META::spec_size()
    }

    /// Structural consistency at block size `bs`: twelve left-packed
    /// pointer slots, with the derived counters in step.
    pub open spec fn wf(&self, bs: int) -> bool {
        &&& self.pointers@.len() == DIRECT_POINTERS
        &&& self.used_pointers <= DIRECT_POINTERS
        &&& forall|k: int| 0 <= k < self.used_pointers ==> self.pointers@[k] != 0
        &&& forall|k: int|
            self.used_pointers <= k < self.pointers@.len() ==> self.pointers@[k] == 0
        &&& self.allocated_size as int == self.used_pointers as int * bs
        &&& self.size <= self.allocated_size
    }

    /// The serialized bytes of this inode.
    pub open spec fn spec_bytes(&self) -> Seq<u8> {
        spec_u64_to_le_bytes(self.size) + spec_pointers_bytes(self.pointers@)
            + self.meta.spec_bytes()
    }

    /// Whether `r` holds the fields that parsing `b` at block size `bs`
    /// yields, with id `id`.
    pub open spec fn parsed_from(r: Self, id: InodePointer, b: Seq<u8>, bs: int) -> bool {
        &&& r.id == Some(id)
        &&& r.size == spec_u64_from_le_bytes(b.subrange(0, 8))
        &&& r.pointers@ == spec_parse_pointers(b.subrange(8, 104), DIRECT_POINTERS as nat)
        &&& r.meta == META::spec_from_bytes(b.subrange(104, b.len() as int))
        &&& r.used_pointers as int == spec_count_used(r.pointers@, 0)
        &&& r.allocated_size as int == r.used_pointers as int * bs
    }

    /// A fresh inode: no id, no pointers, empty payload.
    pub fn new(meta: META) -> (r: Inode<META>)
        ensures
            r.id is None,
            r.size == 0,
            r.used_pointers == 0,
            r.allocated_size == 0,
            r.meta == meta,
            r.pointers@.len() == DIRECT_POINTERS,
            forall|k: int| 0 <= k < r.pointers@.len() ==> r.pointers@[k] == 0,
            forall|bs: int| r.wf(bs),
    {
        let mut pointers: Vec<BlockPointer> = Vec::new();
        let mut i: usize = 0;
        while i < DIRECT_POINTERS
            invariant
                i <= DIRECT_POINTERS,
                pointers@.len() == i,
                forall|k: int| 0 <= k < i ==> pointers@[k] == 0,
            decreases DIRECT_POINTERS - i,
        {
            pointers.push(NULL_POINTER);
            i = i + 1;
        }
        Inode { id: None, pointers, size: 0, meta, used_pointers: 0, allocated_size: 0 }
    }

    /// Assigns the inode its id in the table.
    pub fn set_id(&mut self, id: InodePointer)
        ensures
            *final(self) == (Inode { id: Some(id), ..*old(self) }),
    {
        self.id = Some(id);
    }

    /// Size of a serialized inode in bytes.
    pub fn size_on_disk() -> (r: usize)
        requires
            Inode::<META>::spec_size_on_disk() <= usize::MAX,
        ensures
            r as nat == Inode::<META>::spec_size_on_disk(),
    {
        let meta_size = META::size_on_disk();
        8 + POINTER_BYTES + meta_size
    }

    /// Serializes the inode: size, pointers, metadata.
    pub fn to_bytes(&self) -> (r: Vec<u8>)
        requires
            self.pointers@.len() == DIRECT_POINTERS,
        ensures
            r@ == self.spec_bytes(),
            r@.len() == Inode::<META>::spec_size_on_disk(),
    {
        let mut r = u64_to_le_bytes(self.size);
        let mut i: usize = 0;
        proof {
            lemma_auto_spec_u64_to_from_le_bytes();
            assert(spec_pointers_bytes(self.pointers@.subrange(0, 0)) =~= Seq::<u8>::empty());
            assert(r@ =~= spec_u64_to_le_bytes(self.size) + spec_pointers_bytes(
                self.pointers@.subrange(0, 0),
            ));
        }
        while i < DIRECT_POINTERS
            invariant
                i <= DIRECT_POINTERS,
                self.pointers@.len() == DIRECT_POINTERS,
                r@ == spec_u64_to_le_bytes(self.size) + spec_pointers_bytes(
                    self.pointers@.subrange(0, i as int),
                ),
            decreases DIRECT_POINTERS - i,
        {
            let mut part = u64_to_le_bytes(self.pointers[i]);
            proof {
                lemma_pointers_bytes_push(self.pointers@.subrange(0, i as int), self.pointers@[
                    i as int
                ]);
                assert(self.pointers@.subrange(0, i as int).push(self.pointers@[i as int])
                    =~= self.pointers@.subrange(0, i + 1 as int));
            }
            r.append(&mut part);
            proof {
                assert(r@ =~= spec_u64_to_le_bytes(self.size) + spec_pointers_bytes(
                    self.pointers@.subrange(0, i + 1 as int),
                ));
            }
            i = i + 1;
        }
        let mut meta_bytes = self.meta.to_bytes();
        r.append(&mut meta_bytes);
        proof {
            assert(self.pointers@.subrange(0, DIRECT_POINTERS as int) =~= self.pointers@);
            assert(r@ =~= self.spec_bytes());
            self.meta.bytes_len();
            lemma_pointers_bytes_len(self.pointers@);
        }
        r
    }

    /// Parses an inode back from its serialized bytes, recomputing the
    /// derived pointer counters for block size `block_size`.
    pub fn from_bytes(id: InodePointer, bytes: &Vec<u8>, block_size: usize) -> (r: Self)
        requires
            bytes@.len() == Inode::<META>::spec_size_on_disk(),
            META::parsable(bytes@.subrange(104, bytes@.len() as int)),
            block_size as int * DIRECT_POINTERS <= u64::MAX as int,
        ensures
            Inode::<META>::parsed_from(r, id, bytes@, block_size as int),
    {
        let size = u64_from_le_bytes(slice_subrange(bytes.as_slice(), 0, 8));
        let mut pointers: Vec<BlockPointer> = Vec::new();
        let mut i: usize = 0;
        while i < DIRECT_POINTERS
            invariant
                i <= DIRECT_POINTERS,
                bytes@.len() == 104 + META::spec_size(),
                pointers@.len() == i,
                forall|k: int|
                    0 <= k < i ==> pointers@[k] == spec_u64_from_le_bytes(
                        bytes@.subrange(8, 104).subrange(8 * k, 8 * k + 8),
                    ),
            decreases DIRECT_POINTERS - i,
        {
            let p = u64_from_le_bytes(slice_subrange(bytes.as_slice(), 8 + 8 * i, 16 + 8 * i));
            proof {
                assert(bytes@.subrange(8 + 8 * i as int, 16 + 8 * i as int) =~= bytes@.subrange(
                    8,
                    104,
                ).subrange(8 * i as int, 8 * i as int + 8));
            }
            pointers.push(p);
            i = i + 1;
        }
        proof {
            assert(pointers@ =~= spec_parse_pointers(
                bytes@.subrange(8, 104),
                DIRECT_POINTERS as nat,
            ));
        }
        let meta_len = bytes.len();
        let meta = META::from_bytes(slice_subrange(bytes.as_slice(), 104, meta_len));
        let used_pointers = Inode::<META>::count_used_pointers(&pointers);
        let allocated_size = Inode::<META>::calculate_allocated_size(used_pointers, block_size);
        Inode { id: Some(id), meta, size, pointers, used_pointers, allocated_size }
    }

    /// Counts the leading non-null pointer slots, stopping at the first
    /// null.
    fn count_used_pointers(pointers: &Vec<BlockPointer>) -> (r: usize)
        requires
            pointers@.len() == DIRECT_POINTERS,
        ensures
            r as int == spec_count_used(pointers@, 0),
            r <= DIRECT_POINTERS,
    {
        let mut i: usize = 0;
        while i < DIRECT_POINTERS
            invariant
                i <= DIRECT_POINTERS,
                pointers@.len() == DIRECT_POINTERS,
                spec_count_used(pointers@, 0) == spec_count_used(pointers@, i as int),
                forall|k: int| 0 <= k < i ==> pointers@[k] != 0,
            decreases DIRECT_POINTERS - i,
        {
            if pointers[i] == NULL_POINTER {
                return i;
            }
            i = i + 1;
        }
        i
    }

    /// Bytes addressable through `used_pointers` blocks.
    fn calculate_allocated_size(used_pointers: usize, block_size: usize) -> (r: u64)
        requires
            used_pointers <= DIRECT_POINTERS,
            block_size as int * DIRECT_POINTERS <= u64::MAX as int,
        ensures
            r as int == used_pointers as int * block_size as int,
    {
        proof {
            assert(used_pointers as int * block_size as int <= DIRECT_POINTERS as int
                * block_size as int) by (nonlinear_arith)
                requires
                    used_pointers as int <= DIRECT_POINTERS as int,
                    block_size as int >= 0,
            ;
            assert(DIRECT_POINTERS as int * block_size as int == block_size as int
                * DIRECT_POINTERS as int) by (nonlinear_arith);
            assert(used_pointers as int * block_size as int >= 0) by (nonlinear_arith)
                requires
                    used_pointers as int >= 0,
                    block_size as int >= 0,
            ;
        }
        (used_pointers as u64) * (block_size as u64)
    }


    /// The payload bytes addressed by the first `k` pointer slots: the
    /// concatenation of the blocks they reference.
    pub open spec fn spec_data_blocks<D: DeviceDriver>(self, io: IO<D>, k: int) -> Seq<u8>
        decreases k,
    {
        if k <= 0 {
            Seq::empty()
        } else {
            self.spec_data_blocks(io, k - 1) + io.block_view(self.pointers@[k - 1] as int)
        }
    }

    /// The payload of this inode: the used blocks, truncated to `size`.
    pub open spec fn spec_data<D: DeviceDriver>(self, io: IO<D>) -> Seq<u8> {
        self.spec_data_blocks(io, self.used_pointers as int).subrange(0, self.size as int)
    }

    /// Reads the whole payload: concatenates the used blocks and truncates
    /// to the valid size.
    pub fn get_data<D: DeviceDriver>(&self, structure: &Structure<D, META>) -> (r: Vec<u8>)
        requires
            structure.wf(),
            structure.inode_valid(*self),
        ensures
            r@ == self.spec_data(structure.io),
            r@.len() == self.size,
    {
        proof {
            structure.io.lemma_geometry();
        }
        let mut result: Vec<u8> = Vec::new();
        let mut i: usize = 0;
        while i < self.used_pointers
            invariant
                i <= self.used_pointers,
                structure.wf(),
                structure.inode_valid(*self),
                result@ == self.spec_data_blocks(structure.io, i as int),
                result@.len() == i as int * structure.io.block_size as int,
            decreases self.used_pointers - i,
        {
            let mut block = structure.read_block(self.pointers[i]);
            result.append(&mut block);
            proof {
                assert((i as int + 1) * structure.io.block_size as int == i as int
                    * structure.io.block_size as int + structure.io.block_size as int)
                    by (nonlinear_arith);
            }
            i = i + 1;
        }
        let rl = result.len();
        proof {
            structure.io.lemma_geometry();
            assert(self.size as int <= rl as int);
        }
        let size = self.size as usize;
        sub_bytes(&result, 0, size)
    }

    /// Chunk `m` of `data` at block size `bs`, zero-padded to a block.
    pub open spec fn data_chunk(data: Seq<u8>, bs: int, m: int) -> Seq<u8> {
        if (m + 1) * bs <= data.len() {
            data.subrange(m * bs, (m + 1) * bs)
        } else {
            data.subrange(m * bs, data.len() as int) + zeros((m + 1) * bs - data.len())
        }
    }

    /// If every used block holds its chunk of `data`, the concatenated
    /// blocks are `data`, zero-padded to whole blocks.
    proof fn lemma_blocks_give_data<D: DeviceDriver>(
        self,
        io: IO<D>,
        data: Seq<u8>,
        bs: int,
        k: int,
    )
        requires
            bs >= 1,
            0 <= k <= self.used_pointers,
            self.pointers@.len() == DIRECT_POINTERS,
            self.used_pointers <= DIRECT_POINTERS,
            data.len() <= self.used_pointers as int * bs,
            self.used_pointers == 0 || ((self.used_pointers as int - 1) * bs) < data.len(),
            forall|m: int|
                0 <= m < self.used_pointers ==> #[trigger] io.block_view(
                    self.pointers@[m] as int,
                ) == Inode::<META>::data_chunk(data, bs, m),
        ensures
            self.spec_data_blocks(io, k).len() == k * bs,
            k as int * bs <= data.len() ==> self.spec_data_blocks(io, k) == data.subrange(
                0,
                k * bs,
            ),
            data.len() < k as int * bs ==> self.spec_data_blocks(io, k).subrange(
                0,
                data.len() as int,
            ) == data,
        decreases k,
    {
        if k == 0 {
            assert(0 * bs == 0) by (nonlinear_arith);
            assert(self.spec_data_blocks(io, 0) =~= data.subrange(0, 0));
        } else {
            self.lemma_blocks_give_data(io, data, bs, k - 1);
            let prev = self.spec_data_blocks(io, k - 1);
            let chunk = Inode::<META>::data_chunk(data, bs, k - 1);
            assert(io.block_view(self.pointers@[k - 1] as int) == chunk);
            assert((k - 1) * bs + bs == k * bs) by (nonlinear_arith);
            assert((k - 1) * bs >= 0) by (nonlinear_arith)
                requires
                    k >= 1,
                    bs >= 0,
            ;
            if k * bs <= data.len() {
                assert(chunk.len() == bs);
                assert(prev + chunk =~= data.subrange(0, k * bs));
            } else {
                // this is the last, partially filled block
                assert(((k - 1) * bs) < data.len()) by (nonlinear_arith)
                    requires
                        k <= self.used_pointers,
                        ((self.used_pointers as int - 1) * bs) < data.len(),
                        (k - 1) * bs + bs == k * bs,
                        bs >= 1,
                        k >= 1,
                ;
                assert(chunk == data.subrange((k - 1) * bs, data.len() as int) + zeros(
                    k * bs - data.len(),
                ));
                assert(chunk.len() == bs);
                assert((k - 1) * bs <= data.len());
                assert((self.spec_data_blocks(io, k)).subrange(0, data.len() as int) =~= data);
            }
        }
    }

    /// Replaces the whole payload: grows or shrinks the pointer set to
    /// exactly fit `data`, then writes it out in block-sized chunks, the
    /// last one zero-padded.
    ///
    /// `Err(TooLarge)` when the payload exceeds the direct-pointer
    /// capacity, with nothing changed. `Err(NoSpace)` when the block map
    /// runs out while growing; blocks allocated up to that point stay
    /// attached to the inode, and the payload keeps its old size.
    /// The inode record itself is not persisted here: the caller writes it
    /// back through the inode table.
    pub fn set_data<D: DeviceDriver>(
        &mut self,
        structure: &mut Structure<D, META>,
        data: Vec<u8>,
    ) -> (r: Result<(), Error>)
        requires
            old(structure).wf(),
            old(structure).reserved_marked(),
            old(structure).inode_valid(*old(self)),
        ensures
            final(structure).wf(),
            final(structure).reserved_marked(),
            final(structure).super_block == old(structure).super_block,
            final(structure).inode_table == old(structure).inode_table,
            final(structure).io.block_size == old(structure).io.block_size,
            final(structure).io.block_count == old(structure).io.block_count,
            final(structure).io.sector_size() == old(structure).io.sector_size(),
            final(structure).io.drive.sectors().len() == old(structure).io.drive.sectors().len(),
            final(structure).inode_valid(*final(self)),
            final(self).id == old(self).id,
            final(self).meta == old(self).meta,
            match r {
                Ok(()) => {
                    &&& final(self).size == data@.len()
                    &&& final(self).spec_data(final(structure).io) == data@
                    &&& data@.len() <= (crate::DIRECT_POINTERS as int) * old(structure).io.block_size as int
                    &&& final(self).used_pointers as int == spec_ceil_div(
                        data@.len() as int,
                        old(structure).io.block_size as int,
                    )
                    &&& crate::bits::count_used_bits(
                        final(structure).block_map.data@,
                        final(structure).block_map.bits(),
                    ) == crate::bits::count_used_bits(
                        old(structure).block_map.data@,
                        old(structure).block_map.bits(),
                    ) + (final(self).used_pointers as int - old(self).used_pointers as int)
                },
                Err(e) => {
                    &&& (e == Error::TooLarge || e == Error::NoSpace)
                    &&& final(self).size == old(self).size
                    &&& (e == Error::TooLarge <==> data@.len() > (crate::DIRECT_POINTERS as int)
                        * old(structure).io.block_size as int)
                    &&& (e == Error::TooLarge ==> *final(self) == *old(self) && *final(structure)
                        == *old(structure))
                    &&& (e == Error::NoSpace ==> forall|j: int|
                        0 <= j < final(structure).io.block_count ==> final(structure).block_map.bit(j))
                },
            },
    {
        let bs = structure.get_block_size();
        proof {
            structure.io.lemma_geometry();
        }
        if (data.len() as u64) > (bs as u64) * (DIRECT_POINTERS as u64) {
            return Err(Error::TooLarge);
        }
        let len = data.len();
        let mut target: usize = len / bs;
        proof {
            assert(len as int <= bs as int * (DIRECT_POINTERS as int)) by (nonlinear_arith)
                requires
                    len as int <= (DIRECT_POINTERS as int) * bs as int,
            ;
            vstd::arithmetic::div_mod::lemma_multiply_divide_le(
                len as int,
                bs as int,
                DIRECT_POINTERS as int,
            );
        }
        if len % bs != 0 {
            target = target + 1;
        }
        proof {
            assert(target as int == spec_ceil_div(len as int, bs as int));
            vstd::arithmetic::div_mod::lemma_fundamental_div_mod(len as int, bs as int);
            assert(target <= DIRECT_POINTERS) by (nonlinear_arith)
                requires
                    len as int <= (DIRECT_POINTERS as int) * bs as int,
                    bs as int >= 1,
                    len as int == bs as int * (len as int / bs as int) + len as int % bs as int,
                    0 <= (len as int % bs as int) && (len as int % bs as int) < bs as int,
                    target as int == len as int / bs as int + if len as int % bs as int == 0 {
                        0int
                    } else {
                        1int
                    },
            ;
            assert(len as int <= target as int * bs as int) by (nonlinear_arith)
                requires
                    len as int == bs as int * (len as int / bs as int) + len as int % bs as int,
                    0 <= (len as int % bs as int) && (len as int % bs as int) < bs as int,
                    target as int == len as int / bs as int + if len as int % bs as int == 0 {
                        0int
                    } else {
                        1int
                    },
            ;
            assert(target == 0 || ((target as int - 1) * bs as int) < len as int)
                by (nonlinear_arith)
                requires
                    len as int == bs as int * (len as int / bs as int) + len as int % bs as int,
                    0 <= (len as int % bs as int) && (len as int % bs as int) < bs as int,
                    bs as int >= 1,
                    target as int == len as int / bs as int + if len as int % bs as int == 0 {
                        0int
                    } else {
                        1int
                    },
            ;
        }
        if self.used_pointers < target {
        while self.used_pointers < target
            invariant
                target <= DIRECT_POINTERS,
                len == data@.len(),
                len as int <= (DIRECT_POINTERS as int) * bs as int,
                structure.block_map.bits() == old(structure).block_map.bits(),
                crate::bits::count_used_bits(
                    structure.block_map.data@,
                    structure.block_map.bits(),
                ) == crate::bits::count_used_bits(
                    old(structure).block_map.data@,
                    old(structure).block_map.bits(),
                ) + (self.used_pointers as int - old(self).used_pointers as int),
                structure.wf(),
                structure.reserved_marked(),
                structure.super_block == old(structure).super_block,
                structure.inode_table == old(structure).inode_table,
                structure.io.block_size == old(structure).io.block_size,
                structure.io.block_count == old(structure).io.block_count,
                structure.io.sector_size() == old(structure).io.sector_size(),
                structure.io.drive.sectors().len() == old(structure).io.drive.sectors().len(),
                bs == structure.io.block_size,
                self.pointers@.len() == DIRECT_POINTERS,
                self.used_pointers <= DIRECT_POINTERS,
                self.id == old(self).id,
                self.meta == old(self).meta,
                self.size == old(self).size,
                old(self).used_pointers <= self.used_pointers,
                self.used_pointers <= target,
                self.size as int <= old(self).used_pointers as int * bs as int,
                forall|k: int| 0 <= k < self.used_pointers ==> self.pointers@[k] != 0,
                forall|k: int|
                    self.used_pointers <= k < self.pointers@.len() ==> self.pointers@[k] == 0,
                forall|k: int|
                    0 <= k < self.used_pointers ==> structure.is_data_block(
                        #[trigger] self.pointers@[k] as int,
                    ),
                forall|k1: int, k2: int|
                    0 <= k1 < k2 < self.used_pointers ==> self.pointers@[k1]
                        != self.pointers@[k2],
                forall|k: int|
                    0 <= k < self.used_pointers ==> structure.block_map.bit(
                        #[trigger] self.pointers@[k] as int,
                    ),
                match self.id {
                    Some(id) => (id as int) < structure.inode_table.inode_count as int,
                    None => true,
                },
            decreases target - self.used_pointers,
        {
            match structure.allocate_block() {
                Some(block) => {
                    proof {
                        assert(structure.is_data_block(block as int));
                        assert(block != 0) by {
                            assert(structure.reserved_end() >= 1);
                        }
                        assert forall|k: int|
                            0 <= k < self.used_pointers implies self.pointers@[k] != block by {
                            assert(structure.block_map.bit(self.pointers@[k] as int));
                        }
                    }
                    self.pointers.set(self.used_pointers, block);
                    self.used_pointers = self.used_pointers + 1;
                },
                None => {
                    let alloc = Inode::<META>::calculate_allocated_size(self.used_pointers, bs);
                    self.allocated_size = alloc;
                    proof {
                        let oldused = old(self).used_pointers as int;
                        let newused = self.used_pointers as int;
                        assert(self.size as int <= newused * bs as int) by (nonlinear_arith)
                            requires
                                self.size as int <= oldused * bs as int,
                                oldused <= newused,
                                bs as int >= 0,
                        ;
                    }
                    return Err(Error::NoSpace);
                },
            }
        }
        } else {
        while self.used_pointers > target
            invariant
                target <= self.used_pointers,
                target <= DIRECT_POINTERS,
                structure.block_map.bits() == old(structure).block_map.bits(),
                crate::bits::count_used_bits(
                    structure.block_map.data@,
                    structure.block_map.bits(),
                ) == crate::bits::count_used_bits(
                    old(structure).block_map.data@,
                    old(structure).block_map.bits(),
                ) + (self.used_pointers as int - old(self).used_pointers as int),
                structure.wf(),
                structure.reserved_marked(),
                structure.super_block == old(structure).super_block,
                structure.inode_table == old(structure).inode_table,
                structure.io.block_size == old(structure).io.block_size,
                structure.io.block_count == old(structure).io.block_count,
                structure.io.sector_size() == old(structure).io.sector_size(),
                structure.io.drive.sectors().len() == old(structure).io.drive.sectors().len(),
                bs == structure.io.block_size,
                self.pointers@.len() == DIRECT_POINTERS,
                self.used_pointers <= DIRECT_POINTERS,
                self.id == old(self).id,
                self.meta == old(self).meta,
                self.size == old(self).size,
                forall|k: int| 0 <= k < self.used_pointers ==> self.pointers@[k] != 0,
                forall|k: int|
                    self.used_pointers <= k < self.pointers@.len() ==> self.pointers@[k] == 0,
                forall|k: int|
                    0 <= k < self.used_pointers ==> structure.is_data_block(
                        #[trigger] self.pointers@[k] as int,
                    ),
                forall|k1: int, k2: int|
                    0 <= k1 < k2 < self.used_pointers ==> self.pointers@[k1]
                        != self.pointers@[k2],
                forall|k: int|
                    0 <= k < self.used_pointers ==> structure.block_map.bit(
                        #[trigger] self.pointers@[k] as int,
                    ),
                match self.id {
                    Some(id) => (id as int) < structure.inode_table.inode_count as int,
                    None => true,
                },
            decreases self.used_pointers,
        {
            let p = self.pointers[self.used_pointers - 1];
            structure.free_block(p);
            self.pointers.set(self.used_pointers - 1, NULL_POINTER);
            self.used_pointers = self.used_pointers - 1;
            proof {
                assert forall|k: int|
                    0 <= k < self.used_pointers implies structure.block_map.bit(
                    #[trigger] self.pointers@[k] as int,
                ) by {
                    assert(self.pointers@[k] != p);
                }
            }
        }
        }
        proof {
            assert(self.used_pointers == target);
        }
        let alloc = Inode::<META>::calculate_allocated_size(self.used_pointers, bs);
        self.allocated_size = alloc;
        self.size = len as u64;
        let ghost mid_structure = *structure;
        let ghost mid_self = *self;
        let mut i: usize = 0;
        while i < target
            invariant
                i <= target,
                target == self.used_pointers,
                target <= DIRECT_POINTERS,
                *self == mid_self,
                len == data@.len(),
                len as int <= target as int * bs as int,
                target == 0 || ((target as int - 1) * bs as int) < len as int,
                self.size == len,
                self.allocated_size as int == self.used_pointers as int * bs as int,
                structure.wf(),
                structure.reserved_marked(),
                structure.super_block == mid_structure.super_block,
                structure.inode_table == mid_structure.inode_table,
                structure.io.block_size == mid_structure.io.block_size,
                structure.io.block_count == mid_structure.io.block_count,
                structure.io.sector_size() == mid_structure.io.sector_size(),
                structure.io.drive.sectors().len() == mid_structure.io.drive.sectors().len(),
                mid_structure.super_block == old(structure).super_block,
                mid_structure.inode_table == old(structure).inode_table,
                mid_structure.io.block_size == old(structure).io.block_size,
                mid_structure.io.block_count == old(structure).io.block_count,
                mid_structure.io.sector_size() == old(structure).io.sector_size(),
                mid_structure.io.drive.sectors().len() == old(structure).io.drive.sectors().len(),
                structure.block_map == mid_structure.block_map,
                mid_structure.block_map.bits() == old(structure).block_map.bits(),
                crate::bits::count_used_bits(
                    mid_structure.block_map.data@,
                    mid_structure.block_map.bits(),
                ) == crate::bits::count_used_bits(
                    old(structure).block_map.data@,
                    old(structure).block_map.bits(),
                ) + (self.used_pointers as int - old(self).used_pointers as int),
                target as int == spec_ceil_div(len as int, bs as int),
                bs == structure.io.block_size,
                self.pointers@.len() == DIRECT_POINTERS,
                self.used_pointers <= DIRECT_POINTERS,
                self.id == old(self).id,
                self.meta == old(self).meta,
                forall|k: int| 0 <= k < self.used_pointers ==> self.pointers@[k] != 0,
                forall|k: int|
                    self.used_pointers <= k < self.pointers@.len() ==> self.pointers@[k] == 0,
                forall|k: int|
                    0 <= k < self.used_pointers ==> structure.is_data_block(
                        #[trigger] self.pointers@[k] as int,
                    ),
                forall|k1: int, k2: int|
                    0 <= k1 < k2 < self.used_pointers ==> self.pointers@[k1]
                        != self.pointers@[k2],
                forall|k: int|
                    0 <= k < self.used_pointers ==> structure.block_map.bit(
                        #[trigger] self.pointers@[k] as int,
                    ),
                match self.id {
                    Some(id) => (id as int) < structure.inode_table.inode_count as int,
                    None => true,
                },
                forall|m: int|
                    0 <= m < i ==> #[trigger] structure.io.block_view(self.pointers@[m] as int)
                        == Inode::<META>::data_chunk(data@, bs as int, m),
            decreases target - i,
        {
            proof {
                assert(i as int * bs as int >= 0) by (nonlinear_arith)
                    requires
                        i >= 0,
                        bs >= 0,
                ;
                assert(((i as int) * bs as int) < len as int || i as int == 0) by (nonlinear_arith)
                    requires
                        i as int <= target as int - 1,
                        target == 0 || ((target as int - 1) * bs as int) < len as int,
                        bs as int >= 1,
                        i >= 0,
                ;
                assert((i as int + 1) * bs as int == i as int * bs as int + bs as int)
                    by (nonlinear_arith);
            }
            let start = i * bs;
            let end = if len - start >= bs {
                start + bs
            } else {
                len
            };
            let mut chunk = sub_bytes(&data, start, end);
            while chunk.len() < bs
                invariant
                    end - start <= chunk@.len() <= bs,
                    start <= end <= data@.len(),
                    forall|q: int| 0 <= q < end - start ==> chunk@[q] == data@[start + q],
                    forall|q: int| end - start <= q < chunk@.len() ==> chunk@[q] == 0u8,
                decreases bs - chunk@.len(),
            {
                chunk.push(0u8);
            }
            proof {
                assert(chunk@ =~= Inode::<META>::data_chunk(data@, bs as int, i as int));
            }
            let ghost io_before = structure.io;
            structure.write_block(self.pointers[i], &chunk);
            proof {
                assert forall|m: int|
                    0 <= m < i + 1 implies #[trigger] structure.io.block_view(
                    self.pointers@[m] as int,
                ) == Inode::<META>::data_chunk(data@, bs as int, m) by {
                    if m < i {
                        assert(self.pointers@[m] != self.pointers@[i as int]);
                        assert(structure.io.block_view(self.pointers@[m] as int)
                            == io_before.block_view(self.pointers@[m] as int));
                    }
                }
            }
            i = i + 1;
        }
        proof {
            self.lemma_blocks_give_data(structure.io, data@, bs as int, self.used_pointers as int);
            if self.used_pointers as int * bs as int <= data@.len() {
                assert(self.spec_data(structure.io) =~= data@);
            } else {
                assert(self.spec_data(structure.io) =~= data@);
            }
        }
        Ok(())
    }


    proof fn lemma_data_blocks_unchanged<D: DeviceDriver>(self, io1: IO<D>, io2: IO<D>, k: int)
        requires
            0 <= k <= self.used_pointers,
            self.pointers@.len() == DIRECT_POINTERS,
            forall|m: int|
                0 <= m < self.used_pointers ==> io2.block_view(
                    #[trigger] self.pointers@[m] as int,
                ) == io1.block_view(self.pointers@[m] as int),
        ensures
            self.spec_data_blocks(io2, k) == self.spec_data_blocks(io1, k),
        decreases k,
    {
        if k > 0 {
            self.lemma_data_blocks_unchanged(io1, io2, k - 1);
        }
    }

    /// The payload only depends on the blocks the inode points to: writes
    /// elsewhere leave it unchanged.
    pub proof fn lemma_spec_data_unchanged<D: DeviceDriver>(self, io1: IO<D>, io2: IO<D>)
        requires
            self.pointers@.len() == DIRECT_POINTERS,
            self.used_pointers <= DIRECT_POINTERS,
            forall|m: int|
                0 <= m < self.used_pointers ==> io2.block_view(
                    #[trigger] self.pointers@[m] as int,
                ) == io1.block_view(self.pointers@[m] as int),
        ensures
            self.spec_data(io2) == self.spec_data(io1),
    {
        self.lemma_data_blocks_unchanged(io1, io2, self.used_pointers as int);
    }


    proof fn lemma_blocks_same_fields<D: DeviceDriver>(a: Self, b: Self, io: IO<D>, k: int)
        requires
            a.pointers@ == b.pointers@,
            0 <= k,
        ensures
            a.spec_data_blocks(io, k) == b.spec_data_blocks(io, k),
        decreases k,
    {
        if k > 0 {
            Inode::<META>::lemma_blocks_same_fields(a, b, io, k - 1);
        }
    }

    /// The payload only depends on the pointer slots, the used count and
    /// the size; the id and metadata play no part in it.
    pub proof fn lemma_spec_data_same_fields<D: DeviceDriver>(a: Self, b: Self, io: IO<D>)
        requires
            a.pointers@ == b.pointers@,
            a.used_pointers == b.used_pointers,
            a.size == b.size,
        ensures
            a.spec_data(io) == b.spec_data(io),
    {
        Inode::<META>::lemma_blocks_same_fields(a, b, io, a.used_pointers as int);
    }


    /// Reads the whole payload, as [`Inode::get_data`] does.
    pub fn read_all<D: DeviceDriver>(&self, structure: &Structure<D, META>) -> (r: Vec<u8>)
        requires
            structure.wf(),
            structure.inode_valid(*self),
        ensures
            r@ == self.spec_data(structure.io),
            r@.len() == self.size,
    {
        self.get_data(structure)
    }

    /// Replaces the whole payload, as [`Inode::set_data`] does.
    pub fn write_all<D: DeviceDriver>(
        &mut self,
        structure: &mut Structure<D, META>,
        data: Vec<u8>,
    ) -> (r: Result<(), Error>)
        requires
            old(structure).wf(),
            old(structure).reserved_marked(),
            old(structure).inode_valid(*old(self)),
        ensures
            final(structure).wf(),
            final(structure).reserved_marked(),
            final(structure).inode_valid(*final(self)),
            match r {
                Ok(()) => final(self).size == data@.len() && final(self).spec_data(
                    final(structure).io,
                ) == data@,
                Err(e) => e == Error::TooLarge || e == Error::NoSpace,
            },
    {
        self.set_data(structure, data)
    }

    /// Appends `data` to the payload: reads it back, extends it, and
    /// writes the whole payload out again.
    pub fn append_data<D: DeviceDriver>(
        &mut self,
        structure: &mut Structure<D, META>,
        data: Vec<u8>,
    ) -> (r: Result<(), Error>)
        requires
            old(structure).wf(),
            old(structure).reserved_marked(),
            old(structure).inode_valid(*old(self)),
        ensures
            final(structure).wf(),
            final(structure).reserved_marked(),
            final(structure).inode_valid(*final(self)),
            match r {
                Ok(()) => final(self).spec_data(final(structure).io) == old(self).spec_data(
                    old(structure).io,
                ) + data@,
                Err(e) => e == Error::TooLarge || e == Error::NoSpace,
            },
    {
        let mut combined = self.get_data(structure);
        let mut tail = data;
        combined.append(&mut tail);
        self.set_data(structure, combined)
    }


    proof fn lemma_blocks_of_eq<D: DeviceDriver>(self, io: IO<D>, k: int)
        ensures
            self.spec_data_blocks(io, k) == spec_blocks_of(io, self.pointers@, k),
        decreases k,
    {
        if k > 0 {
            self.lemma_blocks_of_eq(io, k - 1);
        }
    }

    /// A record's stored payload is the payload of whatever inode value it
    /// parses to.
    pub proof fn lemma_stored_payload<D: DeviceDriver>(
        r: Self,
        id: InodePointer,
        slot: Seq<u8>,
        bs: int,
        io: IO<D>,
    )
        requires
            Inode::<META>::parsed_from(r, id, slot, bs),
        ensures
            stored_payload(io, slot) == r.spec_data(io),
    {
        r.lemma_blocks_of_eq(io, r.used_pointers as int);
    }

    /// The metadata slice of a serialized inode parses back: with the
    /// codec law that serialized metadata is parsable, a record written by
    /// the inode table can always be read again, whatever the metadata
    /// type.
    pub proof fn lemma_meta_slice_parsable(self)
        requires
            self.pointers@.len() == DIRECT_POINTERS,
        ensures
            META::parsable(
                self.spec_bytes().subrange(104, Inode::<META>::spec_size_on_disk() as int),
            ),
    {
        lemma_auto_spec_u64_to_from_le_bytes();
        self.meta.bytes_len();
        lemma_pointers_bytes_len(self.pointers@);
        assert(self.spec_bytes().subrange(104, Inode::<META>::spec_size_on_disk() as int)
            =~= self.meta.spec_bytes());
        self.meta.bytes_parsable();
    }

    /// A serialized well-formed inode parses back to itself.
    ///
    /// This is the persistence round trip at the record level: together
    /// with the inode table's contracts it says that an inode written to
    /// its slot and read back is unchanged.
    pub proof fn lemma_serialize_parse(self, id: InodePointer, bs: int)
        requires
            self.wf(bs),
            self.id == Some(id),
        ensures
            Inode::<META>::parsed_from(self, id, self.spec_bytes(), bs),
    {
        lemma_auto_spec_u64_to_from_le_bytes();
        self.meta.bytes_len();
        lemma_pointers_bytes_len(self.pointers@);
        let b = self.spec_bytes();
        assert(b.subrange(0, 8) =~= spec_u64_to_le_bytes(self.size));
        assert(b.subrange(8, 104) =~= spec_pointers_bytes(self.pointers@));
        assert(b.subrange(104, b.len() as int) =~= self.meta.spec_bytes());
        lemma_pointers_roundtrip(self.pointers@);
        self.meta.roundtrip();
        lemma_count_used_packed(self.pointers@, self.used_pointers as int, 0);
    }
}

} // verus!
