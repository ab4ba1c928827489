//! The top-level façade: a POSIX-flavoured filesystem over one device.
//!
//! Opening a device formats it when it holds no filesystem yet, and mounts
//! it otherwise. All inodes carry [`Metadata`] payloads; the root of the
//! namespace is a directory recorded in the superblock.

use vstd::prelude::*;

use crate::device::DeviceDriver;
use crate::directory::entries_parsable;
use crate::directory::spec_parse_entries;
use crate::directory::Directory;
use crate::error::Error;
use crate::inode::Inode;
use crate::io::spec_new_io;
use crate::io::IO;
use crate::meta::GroupId;
use crate::meta::InodeType;
use crate::meta::Metadata;
use crate::meta::UserId;
use crate::inode_table::InodeTable;
use crate::structure::Structure;
use crate::superblock::sb_region_blocks;
use crate::superblock::SuperBlock;
use crate::superblock::MAGIC;
use crate::superblock::SUPERBLOCK_FIELD_BYTES;
use crate::InodePointer;
use crate::FILE_NAME_LENGTH;

verus! {

/// A mounted (or freshly formatted) filesystem with POSIX metadata.
pub struct JourneyFS<D: DeviceDriver> {
    /// The composed on-disk structure.
    pub structure: Structure<D, Metadata>,
    /// The root directory.
    pub root: Directory,
}

impl<D: DeviceDriver> JourneyFS<D> {
    /// Consistency of the façade: the structure is consistent and the root
    /// directory is the one the superblock records.
    pub open spec fn wf(&self) -> bool {
        &&& self.structure.wf()
        &&& self.root.inode.id == Some(self.structure.super_block.root_inode)
    }

    /// Whether the device already holds a filesystem when opened at
    /// `block_size`.
    pub open spec fn device_initialized(device: D, block_size: usize) -> bool {
        vstd::bytes::spec_u32_from_le_bytes(
            spec_new_io(device, block_size).block_view(0).subrange(0, 4),
        ) == MAGIC
    }

    /// The superblock persisted on the device, as read when opening.
    pub open spec fn opened_sb(device: D, block_size: usize) -> SuperBlock {
        SuperBlock::spec_parse(spec_new_io(device, block_size).block_view(0))
    }

    /// The IO over the device at the block size the superblock records.
    pub open spec fn opened_io(device: D, block_size: usize) -> IO<D> {
        spec_new_io(device, JourneyFS::<D>::opened_sb(device, block_size).block_size)
    }

    /// The on-disk record of the root inode, located from the persisted
    /// geometry alone.
    pub open spec fn root_slot(device: D, block_size: usize) -> Seq<u8> {
        let sb = JourneyFS::<D>::opened_sb(device, block_size);
        let io2 = JourneyFS::<D>::opened_io(device, block_size);
        let bs2 = sb.block_size as int;
        let isz = Inode::<Metadata>::spec_size_on_disk() as int;
        let ipb = bs2 / isz;
        let table_index = sb_region_blocks(bs2) + crate::blockmap::map_bytes(
            io2.block_count as int,
            bs2,
        ) / bs2 + 1 + sb.inode_count as int / 8 / bs2;
        let sblock = table_index + sb.root_inode as int / ipb;
        let off = (sb.root_inode as int % ipb) * isz;
        io2.block_view(sblock).subrange(off, off + isz)
    }

    /// The stored record of inode `id` is a consistent directory: whatever
    /// inode value parses from its slot is valid for the structure, and its
    /// payload parses as an entry list with in-bounds names.
    pub open spec fn stored_directory_ok(s: Structure<D, Metadata>, id: InodePointer) -> bool {
        forall|ino: Inode<Metadata>|
            Inode::<Metadata>::parsed_from(
                ino,
                id,
                s.inode_table.slot_view(s.io, id as int),
                s.io.block_size as int,
            ) ==> {
                &&& s.inode_valid(ino)
                &&& entries_parsable(#[trigger] ino.spec_data(s.io))
                &&& forall|i: int|
                    0 <= i < spec_parse_entries(ino.spec_data(s.io)).len() ==> (
                    #[trigger] spec_parse_entries(ino.spec_data(s.io))[i]).1.len()
                        <= FILE_NAME_LENGTH
            }
    }

    /// Opens `device`: formats it with a fresh root directory owned by the
    /// given user when it holds no filesystem, and mounts it otherwise.
    pub fn new(
        device: D,
        user_id: UserId,
        group_id: GroupId,
        block_size: usize,
    ) -> (r: Result<JourneyFS<D>, Error>)
        requires
            device.wf(),
            device.sector_size_spec() <= block_size as nat,
            block_size as int % device.sector_size_spec() as int == 0,
            SUPERBLOCK_FIELD_BYTES <= device.sector_size_spec(),
            sb_region_blocks(block_size as int) <= spec_new_io(
                device,
                block_size,
            ).block_count as int,
            JourneyFS::<D>::device_initialized(device, block_size)
                ==> Structure::<D, Metadata>::can_mount(spec_new_io(device, block_size))
                && (JourneyFS::<D>::opened_sb(device, block_size).root_inode as int)
                < JourneyFS::<D>::opened_sb(device, block_size).inode_count as int
                && <Metadata as crate::serializable::ByteSerializable>::parsable(
                JourneyFS::<D>::root_slot(device, block_size).subrange(
                    104,
                    Inode::<Metadata>::spec_size_on_disk() as int,
                ),
            ),
            !JourneyFS::<D>::device_initialized(device, block_size)
                ==> Structure::<D, Metadata>::can_format(
                block_size as int,
                (device.sectors().len() * device.sector_size_spec()) as int / block_size as int,
            ),
        ensures
            r is Ok,
            match r {
                Ok(fs) => {
                    &&& fs.wf()
                    &&& (JourneyFS::<D>::device_initialized(device, block_size) ==> {
                        // an initialized device is opened, never reformatted
                        &&& fs.structure.io.drive.sectors() == device.sectors()
                        &&& fs.structure.super_block == JourneyFS::<D>::opened_sb(
                            device,
                            block_size,
                        )
                        &&& Inode::<Metadata>::parsed_from(
                            fs.root.inode,
                            JourneyFS::<D>::opened_sb(device, block_size).root_inode,
                            JourneyFS::<D>::root_slot(device, block_size),
                            JourneyFS::<D>::opened_sb(device, block_size).block_size as int,
                        )
                    })
                    &&& (!JourneyFS::<D>::device_initialized(device, block_size) ==> {
                        &&& fs.structure.io.block_size == block_size
                        &&& fs.root.inode.meta.inode_type == InodeType::Directory
                        &&& fs.root.spec_entries(fs.structure) == Seq::<
                            (InodePointer, Seq<u8>),
                        >::empty()
                        &&& fs.root.inode.meta.user_id == user_id
                        &&& fs.root.inode.meta.group_id == group_id
                        &&& fs.root.inode.meta.nlinks == 2
                    })
                },
                Err(_) => false,
            },
    {
        proof {
            device.wf_properties();
        }
        let io = IO::new(device, block_size);
        if Structure::<D, Metadata>::is_initialized(&io) {
            let structure = Structure::<D, Metadata>::mount(io);
            proof {
                let ghost sb = JourneyFS::<D>::opened_sb(device, block_size);
                let ghost io2 = JourneyFS::<D>::opened_io(device, block_size);
                let bs2 = sb.block_size as int;
                structure.io.lemma_geometry();
                structure.inode_table.lemma_wf_facts(bs2);
                assert(structure.super_block == sb);
                assert(structure.io.block_size == io2.block_size);
                assert(structure.io.block_count == io2.block_count);
                assert(structure.io.drive.sectors() == io2.drive.sectors());
                assert(structure.io.sector_size() == io2.sector_size());
                assert(forall|x: int| structure.io.block_view(x) == io2.block_view(x));
                let root = sb.root_inode as int;
                assert(structure.inode_table.slot_block(root, bs2) == sb_region_blocks(bs2)
                    + crate::blockmap::map_bytes(io2.block_count as int, bs2) / bs2 + 1
                    + sb.inode_count as int / 8 / bs2 + root / InodeTable::<
                    Metadata,
                >::spec_ipb(bs2));
                assert(structure.inode_table.slot_view(structure.io, root)
                    =~= JourneyFS::<D>::root_slot(device, block_size));
            }
            let root_inode = structure.get_root_inode();
            let root = Directory::from_inode(root_inode);
            Ok(JourneyFS { structure, root })
        } else {
            let mut structure = Structure::<D, Metadata>::new(io, block_size);
            let ghost fresh = structure;
            match Directory::new(&mut structure, user_id, group_id, 0o755u16) {
                Ok(mut root) => {
                    let ghost payload_before = root.inode.spec_data(structure.io);
                    structure.set_root_inode(&mut root.inode);
                    proof {
                        // the superblock rewrite stays below the reserved
                        // prefix, so the root's (empty) payload is untouched
                        assert forall|m: int|
                            0 <= m < root.inode.used_pointers implies structure.io.block_view(
                            #[trigger] root.inode.pointers@[m] as int,
                        ) == structure.io.block_view(root.inode.pointers@[m] as int) by {}
                        assert(root.inode.used_pointers == 0);
                        assert(root.inode.spec_data(structure.io) =~= Seq::<u8>::empty());
                        assert(root.spec_entries(structure) == Seq::<
                            (InodePointer, Seq<u8>),
                        >::empty());
                    }
                    Ok(JourneyFS { structure, root })
                },
                Err(e) => {
                    proof {
                        // a freshly formatted table has every id free, so
                        // creating the root directory cannot run out
                        assert(fresh.inode_table.inode_count >= 1);
                        assert(fresh.inode_table.bit(0));
                        assert(!fresh.inode_table.bit(0));
                    }
                    vstd::pervasive::unreached()
                },
            }
        }
    }

    /// Size of a block in bytes.
    pub fn get_block_size(&self) -> (r: Result<usize, Error>)
        ensures
            r == Ok::<usize, Error>(self.structure.super_block.block_size),
    {
        Ok(self.structure.get_block_size())
    }

    /// Reads the inode with the given id.
    pub fn get_inode(&self, id: InodePointer) -> (r: Result<Inode<Metadata>, Error>)
        requires
            self.structure.wf(),
            (id as int) < self.structure.inode_table.inode_count as int,
            <Metadata as crate::serializable::ByteSerializable>::parsable(
                self.structure.inode_table.slot_view(self.structure.io, id as int).subrange(
                    104,
                    Inode::<Metadata>::spec_size_on_disk() as int,
                ),
            ),
        ensures
            match r {
                Ok(inode) => Inode::<Metadata>::parsed_from(
                    inode,
                    id,
                    self.structure.inode_table.slot_view(self.structure.io, id as int),
                    self.structure.io.block_size as int,
                ),
                Err(_) => false,
            },
    {
        Ok(self.structure.read_inode(id))
    }

    /// Persists an inode record.
    pub fn write_inode(&mut self, inode: &mut Inode<Metadata>) -> (r: Result<(), Error>)
        requires
            old(self).structure.wf(),
            old(inode).pointers@.len() == crate::DIRECT_POINTERS,
            match old(inode).id {
                Some(id) => (id as int) < old(self).structure.inode_table.inode_count as int,
                None => true,
            },
        ensures
            final(self).structure.wf(),
            final(self).root == old(self).root,
            match r {
                Ok(()) => final(inode).id is Some && final(self).structure.inode_table.slot_view(
                    final(self).structure.io,
                    final(inode).id->0 as int,
                ) == final(inode).spec_bytes(),
                Err(e) => {
                    &&& e == Error::NoSpace
                    &&& old(inode).id is None
                    &&& *final(inode) == *old(inode)
                    &&& final(self).structure == old(self).structure
                    &&& forall|j: int|
                        0 <= j < old(self).structure.inode_table.inode_count ==> old(self).structure.inode_table.bit(j)
                },
            },
    {
        self.structure.write_inode(inode)
    }

    /// Creates a subdirectory named `name` under the directory inode
    /// `parent`.
    pub fn mkdir(
        &mut self,
        parent: InodePointer,
        name: &Vec<u8>,
        user_id: UserId,
        group_id: GroupId,
        permissions: u16,
    ) -> (r: Result<Directory, Error>)
        requires
            old(self).structure.wf(),
            old(self).structure.reserved_marked(),
            (parent as int) < old(self).structure.inode_table.inode_count as int,
            <Metadata as crate::serializable::ByteSerializable>::parsable(
                old(self).structure.inode_table.slot_view(
                    old(self).structure.io,
                    parent as int,
                ).subrange(104, Inode::<Metadata>::spec_size_on_disk() as int),
            ),
            JourneyFS::<D>::stored_directory_ok(old(self).structure, parent),
        ensures
            final(self).structure.wf(),
            final(self).structure.reserved_marked(),
            final(self).root == old(self).root,
            match r {
                Ok(d) => {
                    &&& d.inode.id is Some
                    &&& d.inode.meta.inode_type == InodeType::Directory
                    &&& d.inode.meta.nlinks == 2
                    &&& d.inode.meta.user_id == user_id
                    &&& d.inode.meta.group_id == group_id
                    &&& d.inode.meta.permissions == permissions
                    &&& crate::directory::stored_entries(final(self).structure, parent as int)
                        == crate::directory::stored_entries(
                        old(self).structure,
                        parent as int,
                    ).push((d.inode.id->0, name@))
                },
                Err(e) => {
                    &&& (e == Error::NoSpace || e == Error::TooLarge || e == Error::NameTooLong
                        || e == Error::AlreadyExists)
                    &&& (e == Error::NameTooLong ==> name@.len() > crate::FILE_NAME_LENGTH)
                    &&& (e == Error::AlreadyExists ==> exists|i: int|
                        0 <= i < crate::directory::stored_entries(
                            old(self).structure,
                            parent as int,
                        ).len() && (#[trigger] crate::directory::stored_entries(
                            old(self).structure,
                            parent as int,
                        )[i]).1 == name@)
                    &&& (e == Error::NoSpace ==> (forall|j: int|
                        0 <= j < old(self).structure.inode_table.inode_count ==> old(self).structure.inode_table.bit(j)) || (forall|j: int|
                        0 <= j < final(self).structure.io.block_count ==> final(self).structure.block_map.bit(j)))
                    &&& (e == Error::TooLarge ==> exists|cid: InodePointer|
                        crate::directory::spec_serialize_entries(
                            crate::directory::stored_entries(
                                old(self).structure,
                                parent as int,
                            ).push((cid, name@)),
                        ).len() > (crate::DIRECT_POINTERS as int) * old(self).structure.io.block_size as int)
                },
            },
    {
        let parent_inode = self.structure.read_inode(parent);
        let mut parent_directory = Directory::from_inode(parent_inode);
        proof {
            assert(self.structure == old(self).structure);
            assert(Inode::<Metadata>::parsed_from(
                parent_inode,
                parent,
                old(self).structure.inode_table.slot_view(old(self).structure.io, parent as int),
                old(self).structure.io.block_size as int,
            ));
            assert(entries_parsable(parent_inode.spec_data(old(self).structure.io)));
            assert(old(self).structure.inode_valid(parent_inode));
            assert(parent_directory.entries_ok(old(self).structure));
        }
        let ghost before = old(self).structure;
        let ghost pd0 = parent_directory;
        let result = parent_directory.add_directory(
            &mut self.structure,
            name,
            user_id,
            group_id,
            permissions,
        );
        proof {
            let bs0 = before.io.block_size as int;
            let slot0 = before.inode_table.slot_view(before.io, parent as int);
            // what the parent's slot held before: the entries we read
            Inode::<Metadata>::lemma_stored_payload(parent_inode, parent, slot0, bs0, before.io);
            assert(crate::directory::stored_entries(before, parent as int) == pd0.spec_entries(
                before,
            ));
            if result is Ok {
                let bs1 = self.structure.io.block_size as int;
                let slot1 = self.structure.inode_table.slot_view(
                    self.structure.io,
                    parent as int,
                );
                // what it holds now: the appended list, persisted by the add
                let pd = parent_directory.inode;
                assert(pd.id == Some(parent));
                assert(slot1 == pd.spec_bytes());
                assert(pd.wf(bs1)) by {
                    assert(self.structure.inode_valid(pd));
                }
                pd.lemma_serialize_parse(parent, bs1);
                Inode::<Metadata>::lemma_stored_payload(pd, parent, slot1, bs1, self.structure.io);
                let d = result->Ok_0;
                assert(crate::directory::stored_entries(before, parent as int)
                    == spec_parse_entries(parent_inode.spec_data(before.io)));
                assert(crate::directory::stored_entries(self.structure, parent as int)
                    == spec_parse_entries(pd.spec_data(self.structure.io)));
                assert(parent_directory.spec_entries(self.structure) == spec_parse_entries(
                    parent_inode.spec_data(before.io),
                ).push((d.inode.id->0, name@)));
                assert(crate::directory::stored_entries(self.structure, parent as int)
                    == crate::directory::stored_entries(before, parent as int).push(
                    (d.inode.id->0, name@),
                ));
            }
        }
        result
    }
}

} // verus!
