//! The filesystem over one device: format a fresh image or mount one.

use vstd::prelude::*;

use crate::device::DeviceDriver;
use crate::error::Error;
use crate::io::spec_new_io;
use crate::io::IO;
use crate::serializable::ByteSerializable;
use crate::serializable::KnownSize;
use crate::structure::Structure;
use crate::superblock::sb_region_blocks;
use crate::superblock::SuperBlock;
use crate::superblock::MAGIC;
use crate::superblock::SUPERBLOCK_FIELD_BYTES;

verus! {

/// A filesystem instance over one device, generic in its inode metadata.
pub struct FS<D: DeviceDriver, META: ByteSerializable + KnownSize> {
    /// The composed on-disk structure.
    pub structure: Structure<D, META>,
}

impl<D: DeviceDriver, META: ByteSerializable + KnownSize> FS<D, META> {
    /// Formats `drive` with the given block size and returns the fresh
    /// filesystem.
    pub fn new(drive: D, block_size: usize) -> (r: FS<D, META>)
        requires
            drive.wf(),
            drive.sector_size_spec() <= block_size as nat,
            block_size as int % drive.sector_size_spec() as int == 0,
            SUPERBLOCK_FIELD_BYTES <= drive.sector_size_spec(),
            Structure::<D, META>::can_format(
                block_size as int,
                (drive.sectors().len() * drive.sector_size_spec()) as int / block_size as int,
            ),
        ensures
            r.structure.wf(),
            r.structure.reserved_marked(),
            r.structure.io.block_size == block_size,
            r.structure.super_block == (SuperBlock {
                magic: MAGIC,
                block_size,
                block_count: r.structure.io.block_count,
                inode_count: r.structure.inode_table.inode_count,
                root_inode: 0,
            }),
            r.structure.io.drive.sectors().len() == drive.sectors().len(),
            r.structure.io.sector_size() == drive.sector_size_spec(),
    {
        let io = IO::new(drive, block_size);
        let structure = Structure::<D, META>::new(io, block_size);
        FS { structure }
    }

    /// Mounts the filesystem already present on `drive`, reading the
    /// geometry from its superblock. `Err(NotAFilesystem)` when the magic
    /// does not match.
    pub fn mount(drive: D) -> (r: Result<FS<D, META>, Error>)
        requires
            drive.wf(),
            SUPERBLOCK_FIELD_BYTES <= drive.sector_size_spec(),
            sb_region_blocks(drive.sector_size_spec() as int) <= spec_new_io(
                drive,
                drive.sector_size_spec() as usize,
            ).block_count as int,
            (vstd::bytes::spec_u32_from_le_bytes(
                spec_new_io(drive, drive.sector_size_spec() as usize).block_view(0).subrange(0, 4),
            ) == MAGIC) ==> Structure::<D, META>::can_mount(
                spec_new_io(drive, drive.sector_size_spec() as usize),
            ),
        ensures
            match r {
                Ok(fs) => {
                    &&& fs.structure.wf()
                    &&& fs.structure.super_block == SuperBlock::spec_parse(
                        spec_new_io(drive, drive.sector_size_spec() as usize).block_view(0),
                    )
                    &&& fs.structure.io.drive.sectors() == drive.sectors()
                    &&& fs.structure.io.sector_size() == drive.sector_size_spec()
                },
                Err(e) => {
                    &&& e == Error::NotAFilesystem
                    &&& vstd::bytes::spec_u32_from_le_bytes(
                        spec_new_io(drive, drive.sector_size_spec() as usize).block_view(
                            0,
                        ).subrange(0, 4),
                    ) != MAGIC
                },
            },
    {
        let default_block_size = drive.get_sector_size();
        proof {
            drive.wf_properties();
        }
        let io = IO::new(drive, default_block_size);
        if Structure::<D, META>::is_initialized(&io) {
            Ok(FS { structure: Structure::<D, META>::mount(io) })
        } else {
            Err(Error::NotAFilesystem)
        }
    }
}

} // verus!
