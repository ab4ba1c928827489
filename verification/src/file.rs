//! Files: typed views over an inode whose payload is opaque bytes.

use vstd::prelude::*;

use crate::device::DeviceDriver;
use crate::error::Error;
use crate::inode::Inode;
use crate::meta::GroupId;
use crate::meta::InodeType;
use crate::meta::Metadata;
use crate::meta::UserId;
use crate::structure::Structure;

verus! {

/// A file: an inode whose payload is an uninterpreted byte string.
pub struct File {
    /// The underlying inode, tagged [`InodeType::File`].
    pub inode: Inode<Metadata>,
}

impl File {
    /// Creates a fresh, empty file inode with link count 1.
    /// `Err(NoSpace)` when the inode table is full.
    pub fn new<D: DeviceDriver>(
        structure: &mut Structure<D, Metadata>,
        user_id: UserId,
        group_id: GroupId,
        permissions: u16,
    ) -> (r: Result<File, Error>)
        requires
            old(structure).wf(),
        ensures
            final(structure).wf(),
            old(structure).reserved_marked() ==> final(structure).reserved_marked(),
            final(structure).super_block == old(structure).super_block,
            final(structure).block_map == old(structure).block_map,
            final(structure).io.block_size == old(structure).io.block_size,
            final(structure).io.block_count == old(structure).io.block_count,
            final(structure).io.sector_size() == old(structure).io.sector_size(),
            final(structure).io.drive.sectors().len() == old(structure).io.drive.sectors().len(),
            forall|j: int|
                0 <= j < old(structure).io.block_count && !(old(structure).inode_table.map_index as int <= j < old(structure).reserved_end()) ==> final(structure).io.block_view(j) == old(structure).io.block_view(j),
            match r {
                Ok(f) => {
                    &&& f.inode.id is Some
                    &&& final(structure).inode_valid(f.inode)
                    &&& f.inode.size == 0
                    &&& f.inode.used_pointers == 0
                    &&& f.inode.meta.inode_type == InodeType::File
                    &&& f.inode.meta.nlinks == 1
                    &&& f.inode.meta.user_id == user_id
                    &&& f.inode.meta.group_id == group_id
                    &&& f.inode.meta.permissions == permissions
                    &&& f.inode.meta.rdev == 0
                    &&& f.inode.meta.flags == 0
                    &&& forall|j: int| 0 <= j < f.inode.id->0 as int ==> old(structure).inode_table.bit(j)
                    &&& final(structure).inode_table.slot_view(
                        final(structure).io,
                        f.inode.id->0 as int,
                    ) == f.inode.spec_bytes()
                    &&& f.inode.spec_data(final(structure).io) == Seq::<u8>::empty()
                },
                Err(e) => e == Error::NoSpace && forall|j: int|
                    0 <= j < old(structure).inode_table.inode_count ==> old(
                        structure,
                    ).inode_table.bit(j),
            },
    {
        let meta = Metadata::new(InodeType::File, user_id, group_id, permissions, 1, 0);
        match structure.create_inode(meta) {
            Ok(inode) => {
                proof {
                    assert(inode.spec_data(structure.io) =~= Seq::<u8>::empty());
                }
                Ok(File { inode })
            },
            Err(e) => Err(e),
        }
    }

    /// Wraps an inode already known to be a file.
    pub fn from_inode(inode: Inode<Metadata>) -> (r: File)
        ensures
            r.inode == inode,
    {
        File { inode }
    }

    /// Replaces the whole payload; see [`Inode::set_data`].
    pub fn set_data<D: DeviceDriver>(
        &mut self,
        structure: &mut Structure<D, Metadata>,
        data: Vec<u8>,
    ) -> (r: Result<(), Error>)
        requires
            old(structure).wf(),
            old(structure).reserved_marked(),
            old(structure).inode_valid(old(self).inode),
        ensures
            final(structure).wf(),
            final(structure).reserved_marked(),
            final(structure).super_block == old(structure).super_block,
            final(structure).inode_table == old(structure).inode_table,
            final(structure).io.block_size == old(structure).io.block_size,
            final(structure).io.block_count == old(structure).io.block_count,
            final(structure).io.sector_size() == old(structure).io.sector_size(),
            final(structure).io.drive.sectors().len() == old(structure).io.drive.sectors().len(),
            final(structure).inode_valid(final(self).inode),
            final(self).inode.id == old(self).inode.id,
            match r {
                Ok(()) => final(self).inode.size == data@.len() && final(self).inode.spec_data(
                    final(structure).io,
                ) == data@ && final(self).inode.used_pointers as int
                    == crate::inode_table::spec_ceil_div(
                    data@.len() as int,
                    old(structure).io.block_size as int,
                ),
                Err(e) => (e == Error::TooLarge || e == Error::NoSpace) && (e == Error::TooLarge
                    <==> data@.len() > (crate::DIRECT_POINTERS as int) * old(structure).io.block_size as int),
            },
    {
        self.inode.set_data(structure, data)
    }

    /// Reads the whole payload; see [`Inode::get_data`].
    pub fn get_data<D: DeviceDriver>(&self, structure: &Structure<D, Metadata>) -> (r: Vec<u8>)
        requires
            structure.wf(),
            structure.inode_valid(self.inode),
        ensures
            r@ == self.inode.spec_data(structure.io),
            r@.len() == self.inode.size,
    {
        self.inode.get_data(structure)
    }
}

} // verus!
