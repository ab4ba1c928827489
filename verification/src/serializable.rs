//! Byte codecs for values stored inside filesystem structures.
//!
//! [`ByteSerializable`] is the capability of being written to and read
//! back from raw bytes; [`KnownSize`] adds a static on-disk size and the
//! round-trip laws that the inode table relies on.

use vstd::prelude::*;

verus! {

/// A value with an on-disk byte representation.
pub trait ByteSerializable: Sized {
    /// The serialized bytes of this value.
    spec fn spec_bytes(&self) -> Seq<u8>;

    /// Whether `b` parses as a value of this type.
    spec fn parsable(b: Seq<u8>) -> bool;

    /// The value parsed from `b`.
    spec fn spec_from_bytes(b: Seq<u8>) -> Self;

    /// Serializes the value.
    fn to_bytes(&self) -> (r: Vec<u8>)
        ensures
            r@ == self.spec_bytes(),
    ;

    /// Parses a value back from bytes.
    fn from_bytes(bytes: &[u8]) -> (r: Self)
        requires
            Self::parsable(bytes@),
        ensures
            r == Self::spec_from_bytes(bytes@),
    ;
}

/// A serializable value whose byte representation has a fixed size.
pub trait KnownSize: ByteSerializable {
    /// The on-disk size in bytes.
    spec fn spec_size() -> nat;

    /// The on-disk size in bytes.
    fn size_on_disk() -> (r: usize)
        ensures
            r as nat == Self::spec_size(),
    ;

    /// Serialization produces exactly `spec_size` bytes.
    proof fn bytes_len(&self)
        ensures
            self.spec_bytes().len() == Self::spec_size(),
    ;

    /// What a value serializes to is itself parsable, so a record written
    /// out can always be read back.
    proof fn bytes_parsable(&self)
        ensures
            Self::parsable(self.spec_bytes()),
    ;

    /// Parsing inverts serialization.
    proof fn roundtrip(&self)
        ensures
            Self::spec_from_bytes(self.spec_bytes()) == *self,
    ;
}

} // verus!
