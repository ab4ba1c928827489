//! JourneyFS: a Unix-style block-structured filesystem core.
//!
//! The crate verifies the on-disk storage engine: superblock, block
//! allocator, inode table, inode data addressing, and the directory/file
//! operations built on top. Sector-granular devices are reached through
//! the [`device::DeviceDriver`] trait; every layer above it is specified
//! against a mathematical view of the device contents.

use vstd::prelude::*;

pub mod bits;
pub mod blockmap;
pub mod bytes;
pub mod device;
pub mod directory;
pub mod error;
pub mod file;
pub mod fs;
pub mod inode;
pub mod inode_table;
pub mod io;
pub mod journey;
pub mod meta;
pub mod mode;
pub mod serializable;
pub mod structure;
pub mod superblock;

verus! {

/// Logical size of the superblock region at the start of the image, in bytes.
pub const SUPERBLOCK_SIZE: usize = 1024;

/// One inode is provisioned per this many blocks of the device.
pub const BLOCKS_PER_INODE_MAP: usize = 10240;

/// Number of direct block pointers embedded in each inode.
pub const DIRECT_POINTERS: usize = 12;

/// Longest accepted directory entry name, in bytes.
pub const FILE_NAME_LENGTH: usize = 255;

/// Index of a block on the device. Zero doubles as the null pointer in
/// inode pointer slots, since block zero always belongs to the superblock.
pub type BlockPointer = u64;

/// Index of an inode in the inode table.
pub type InodePointer = u64;

} // verus!
