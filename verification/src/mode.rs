//! Helpers for reading POSIX mode bits.

use vstd::prelude::*;

verus! {

/// A raw POSIX mode word, as the kernel hands it over.
pub type ModeBits = u32;

/// Mask of the permission bits within a mode word.
pub const PERMISSIONS_MASK: ModeBits = 0o777;

/// Bit marking a directory in a mode word.
pub const IS_DIR_MASK: ModeBits = 0o40000;

/// Bit marking a regular file in a mode word.
pub const IS_FILE_MASK: ModeBits = 0o100000;

/// Reading the pieces of a mode word.
pub trait ModeBitsHelper {
    /// The raw mode word.
    spec fn mode_word(&self) -> u32;

    /// The permission bits.
    fn get_permissions(&self) -> (r: u16)
        ensures
            r as u32 == self.mode_word() & PERMISSIONS_MASK,
    ;

    /// Whether the mode describes a directory.
    fn is_directory(&self) -> (r: bool)
        ensures
            r == (self.mode_word() & IS_DIR_MASK != 0),
    ;

    /// Whether the mode describes a regular file.
    fn is_file(&self) -> (r: bool)
        ensures
            r == (self.mode_word() & IS_FILE_MASK != 0),
    ;
}

impl ModeBitsHelper for ModeBits {
    open spec fn mode_word(&self) -> u32 {
        *self
    }

    fn get_permissions(&self) -> (r: u16) {
        let masked = *self & PERMISSIONS_MASK;
        proof {
            assert(masked <= 0o777) by (bit_vector)
                requires
                    masked == *self & 0o777u32,
            ;
        }
        masked as u16
    }

    fn is_directory(&self) -> (r: bool) {
        (*self & IS_DIR_MASK) != 0
    }

    fn is_file(&self) -> (r: bool) {
        (*self & IS_FILE_MASK) != 0
    }
}

} // verus!
