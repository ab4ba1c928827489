//! Error kinds surfaced by the filesystem core.
//!
//! Fatal conditions (geometry violations, on-disk corruption) are ruled out
//! by preconditions instead; only the recoverable conditions below are
//! returned to callers. The adaptor around the library maps each kind to a
//! POSIX-style numeric code.

use vstd::prelude::*;

verus! {

/// A recoverable failure of a filesystem operation.
#[derive(Debug, Clone, Copy, PartialEq, Eq, Structural)]
pub enum Error {
    /// Magic mismatch while mounting: the image holds no filesystem.
    NotAFilesystem,
    /// The block map or the inode table has no free slot left.
    NoSpace,
    /// A payload would exceed the direct-pointer fan-out of an inode.
    TooLarge,
    /// A directory entry name is longer than the accepted maximum.
    NameTooLong,
    /// A directory operation was attempted on a file inode.
    NotADirectory,
    /// A directory entry with the same name already exists.
    AlreadyExists,
    /// The operation is not implemented by this filesystem.
    NotSupported,
}

impl Error {
    /// A short human-readable description of the failure.
    pub fn message(&self) -> &'static str {
        match self {
            Error::NotAFilesystem => "no filesystem found on the device",
            Error::NoSpace => "no free block or inode is left",
            Error::TooLarge => "payload exceeds the direct-pointer capacity",
            Error::NameTooLong => "entry name is too long",
            Error::NotADirectory => "inode is not a directory",
            Error::AlreadyExists => "an entry with this name already exists",
            Error::NotSupported => "operation not supported",
        }
    }
}

} // verus!
