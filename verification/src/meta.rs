//! POSIX-style inode metadata and its on-disk codec.
//!
//! The metadata payload holds the inode type, four timestamps, permissions
//! and ownership. On disk each timestamp occupies a 16-byte slot: seconds
//! since the epoch (u64 LE), nanoseconds (u32 LE), then four reserved zero
//! bytes; the whole payload is 87 bytes.

use vstd::prelude::*;

use vstd::bytes::spec_u16_to_le_bytes;
use vstd::bytes::spec_u16_from_le_bytes;
use vstd::bytes::spec_u32_to_le_bytes;
use vstd::bytes::spec_u32_from_le_bytes;
use vstd::bytes::spec_u64_to_le_bytes;
use vstd::bytes::spec_u64_from_le_bytes;
use vstd::bytes::u16_to_le_bytes;
use vstd::bytes::u16_from_le_bytes;
use vstd::bytes::u32_to_le_bytes;
use vstd::bytes::u32_from_le_bytes;
use vstd::bytes::u64_to_le_bytes;
use vstd::bytes::u64_from_le_bytes;
use vstd::bytes::lemma_auto_spec_u16_to_from_le_bytes;
use vstd::bytes::lemma_auto_spec_u32_to_from_le_bytes;
use vstd::bytes::lemma_auto_spec_u64_to_from_le_bytes;
use vstd::slice::slice_subrange;

use crate::bytes::zeros;
use crate::serializable::ByteSerializable;
use crate::serializable::KnownSize;

verus! {

/// Identifier of a user, as the kernel reports it.
pub type UserId = u32;

/// Identifier of a group, as the kernel reports it.
pub type GroupId = u32;

/// Whether an inode holds a file or a directory.
#[derive(Debug, Clone, Copy, PartialEq, Eq, Structural)]
pub enum InodeType {
    /// An inode whose payload is opaque bytes.
    File,
    /// An inode whose payload is a directory entry list.
    Directory,
}

impl InodeType {
    /// The on-disk tag of this inode type.
    pub open spec fn spec_byte(self) -> u8 {
        match self {
            InodeType::File => 0u8,
            InodeType::Directory => 1u8,
        }
    }
}

/// A point in time: seconds and nanoseconds since the Unix epoch.
#[derive(Debug, Clone, Copy, PartialEq, Eq, Structural)]
pub struct Timestamp {
    /// Whole seconds since the epoch.
    pub secs: u64,
    /// Nanoseconds within the second.
    pub nanos: u32,
}

impl ByteSerializable for Timestamp {
    open spec fn spec_bytes(&self) -> Seq<u8> {
        spec_u64_to_le_bytes(self.secs) + spec_u32_to_le_bytes(self.nanos) + zeros(4)
    }

    open spec fn parsable(b: Seq<u8>) -> bool {
        b.len() == 16
    }

    open spec fn spec_from_bytes(b: Seq<u8>) -> Self {
        Timestamp {
            secs: spec_u64_from_le_bytes(b.subrange(0, 8)),
            nanos: spec_u32_from_le_bytes(b.subrange(8, 12)),
        }
    }

    fn to_bytes(&self) -> (r: Vec<u8>) {
        let mut r = u64_to_le_bytes(self.secs);
        let mut nanos = u32_to_le_bytes(self.nanos);
        r.append(&mut nanos);
        r.push(0u8);
        r.push(0u8);
        r.push(0u8);
        r.push(0u8);
        proof {
            lemma_auto_spec_u32_to_from_le_bytes();
            lemma_auto_spec_u64_to_from_le_bytes();
            assert(r@ =~= self.spec_bytes());
        }
        r
    }

    fn from_bytes(bytes: &[u8]) -> (r: Self) {
        let secs = u64_from_le_bytes(slice_subrange(bytes, 0, 8));
        let nanos = u32_from_le_bytes(slice_subrange(bytes, 8, 12));
        Timestamp { secs, nanos }
    }
}

impl KnownSize for Timestamp {
    open spec fn spec_size() -> nat {
        16
    }

    fn size_on_disk() -> (r: usize) {
        proof {
            assert(Timestamp::spec_size() == 16);
        }
        16
    }

    proof fn bytes_len(&self) {
        lemma_auto_spec_u32_to_from_le_bytes();
        lemma_auto_spec_u64_to_from_le_bytes();
    }

    proof fn bytes_parsable(&self) {
        self.bytes_len();
    }

    proof fn roundtrip(&self) {
        lemma_auto_spec_u32_to_from_le_bytes();
        lemma_auto_spec_u64_to_from_le_bytes();
        let b = self.spec_bytes();
        assert(b.subrange(0, 8) =~= spec_u64_to_le_bytes(self.secs));
        assert(b.subrange(8, 12) =~= spec_u32_to_le_bytes(self.nanos));
    }
}

/// The user-visible metadata carried by every inode.
#[derive(Debug, Clone, Copy, PartialEq, Eq, Structural)]
pub struct Metadata {
    /// File or directory.
    pub inode_type: InodeType,
    /// When the inode was created.
    pub created_at: Timestamp,
    /// When the payload was last written.
    pub modified_at: Timestamp,
    /// When the payload was last read.
    pub accessed_at: Timestamp,
    /// When the metadata last changed.
    pub changed_at: Timestamp,
    /// Permission bits.
    pub permissions: u16,
    /// Number of directory entries referring to this inode.
    pub nlinks: u32,
    /// Owning user.
    pub user_id: UserId,
    /// Owning group.
    pub group_id: GroupId,
    /// Device number, for special files.
    pub rdev: u32,
    /// Implementation-specific flags.
    pub flags: u32,
}

/// Reads the wall clock as a [`Timestamp`].
///
/// Relies on `std::time::SystemTime::now` and
/// `SystemTime::duration_since(UNIX_EPOCH)`: a clock reading before the
/// epoch is clamped to the epoch itself.
#[verifier::external_body]
fn now_timestamp() -> (r: Timestamp)
    ensures
        r.nanos < 1_000_000_000,
{
    match std::time::SystemTime::now().duration_since(std::time::SystemTime::UNIX_EPOCH) {
        Ok(d) => Timestamp { secs: d.as_secs(), nanos: d.subsec_nanos() },
        Err(_) => Timestamp { secs: 0, nanos: 0 },
    }
}

impl Metadata {
    /// Fresh metadata: all four timestamps read the clock once, `rdev` is
    /// zero, and the remaining fields take the given values.
    pub fn new(
        inode_type: InodeType,
        user_id: UserId,
        group_id: GroupId,
        permissions: u16,
        nlinks: u32,
        flags: u32,
    ) -> (r: Metadata)
        ensures
            r.inode_type == inode_type,
            r.user_id == user_id,
            r.group_id == group_id,
            r.permissions == permissions,
            r.nlinks == nlinks,
            r.flags == flags,
            r.rdev == 0,
            r.created_at == r.modified_at,
            r.created_at == r.accessed_at,
            r.created_at == r.changed_at,
    {
        let now = now_timestamp();
        Metadata {
            inode_type,
            created_at: now,
            modified_at: now,
            accessed_at: now,
            changed_at: now,
            permissions,
            nlinks,
            user_id,
            group_id,
            rdev: 0,
            flags,
        }
    }
}

impl ByteSerializable for Metadata {
    open spec fn spec_bytes(&self) -> Seq<u8> {
        seq![self.inode_type.spec_byte()] + self.created_at.spec_bytes()
            + self.modified_at.spec_bytes() + self.accessed_at.spec_bytes()
            + self.changed_at.spec_bytes() + spec_u16_to_le_bytes(self.permissions)
            + spec_u32_to_le_bytes(self.nlinks) + spec_u32_to_le_bytes(self.user_id)
            + spec_u32_to_le_bytes(self.group_id) + spec_u32_to_le_bytes(self.rdev)
            + spec_u32_to_le_bytes(self.flags)
    }

    open spec fn parsable(b: Seq<u8>) -> bool {
        b.len() == 87 && (b[0] == 0u8 || b[0] == 1u8)
    }

    open spec fn spec_from_bytes(b: Seq<u8>) -> Self {
        Metadata {
            inode_type: if b[0] == 0u8 {
                InodeType::File
            } else {
                InodeType::Directory
            },
            created_at: Timestamp::spec_from_bytes(b.subrange(1, 17)),
            modified_at: Timestamp::spec_from_bytes(b.subrange(17, 33)),
            accessed_at: Timestamp::spec_from_bytes(b.subrange(33, 49)),
            changed_at: Timestamp::spec_from_bytes(b.subrange(49, 65)),
            permissions: spec_u16_from_le_bytes(b.subrange(65, 67)),
            nlinks: spec_u32_from_le_bytes(b.subrange(67, 71)),
            user_id: spec_u32_from_le_bytes(b.subrange(71, 75)),
            group_id: spec_u32_from_le_bytes(b.subrange(75, 79)),
            rdev: spec_u32_from_le_bytes(b.subrange(79, 83)),
            flags: spec_u32_from_le_bytes(b.subrange(83, 87)),
        }
    }

    fn to_bytes(&self) -> (r: Vec<u8>) {
        let mut r: Vec<u8> = Vec::new();
        let tag: u8 = match self.inode_type {
            InodeType::File => 0,
            InodeType::Directory => 1,
        };
        r.push(tag);
        let mut part = self.created_at.to_bytes();
        r.append(&mut part);
        let mut part = self.modified_at.to_bytes();
        r.append(&mut part);
        let mut part = self.accessed_at.to_bytes();
        r.append(&mut part);
        let mut part = self.changed_at.to_bytes();
        r.append(&mut part);
        let mut part = u16_to_le_bytes(self.permissions);
        r.append(&mut part);
        let mut part = u32_to_le_bytes(self.nlinks);
        r.append(&mut part);
        let mut part = u32_to_le_bytes(self.user_id);
        r.append(&mut part);
        let mut part = u32_to_le_bytes(self.group_id);
        r.append(&mut part);
        let mut part = u32_to_le_bytes(self.rdev);
        r.append(&mut part);
        let mut part = u32_to_le_bytes(self.flags);
        r.append(&mut part);
        proof {
            assert(r@ =~= self.spec_bytes());
        }
        r
    }

    fn from_bytes(bytes: &[u8]) -> (r: Self) {
        let tag = *vstd::slice::slice_index_get(bytes, 0);
        let inode_type = if tag == 0 {
            InodeType::File
        } else {
            InodeType::Directory
        };
        let created_at = Timestamp::from_bytes(slice_subrange(bytes, 1, 17));
        let modified_at = Timestamp::from_bytes(slice_subrange(bytes, 17, 33));
        let accessed_at = Timestamp::from_bytes(slice_subrange(bytes, 33, 49));
        let changed_at = Timestamp::from_bytes(slice_subrange(bytes, 49, 65));
        let permissions = u16_from_le_bytes(slice_subrange(bytes, 65, 67));
        let nlinks = u32_from_le_bytes(slice_subrange(bytes, 67, 71));
        let user_id = u32_from_le_bytes(slice_subrange(bytes, 71, 75));
        let group_id = u32_from_le_bytes(slice_subrange(bytes, 75, 79));
        let rdev = u32_from_le_bytes(slice_subrange(bytes, 79, 83));
        let flags = u32_from_le_bytes(slice_subrange(bytes, 83, 87));
        Metadata {
            inode_type,
            created_at,
            modified_at,
            accessed_at,
            changed_at,
            permissions,
            nlinks,
            user_id,
            group_id,
            rdev,
            flags,
        }
    }
}

impl KnownSize for Metadata {
    open spec fn spec_size() -> nat {
        87
    }

    fn size_on_disk() -> (r: usize) {
        let timestamp = Timestamp::size_on_disk();
        let sizes = 1 + 4 * timestamp + 2 + 4 + 4 + 4 + 4 + 4;
        sizes
    }

    proof fn bytes_len(&self) {
        lemma_auto_spec_u16_to_from_le_bytes();
        lemma_auto_spec_u32_to_from_le_bytes();
        self.created_at.bytes_len();
        self.modified_at.bytes_len();
        self.accessed_at.bytes_len();
        self.changed_at.bytes_len();
    }

    proof fn bytes_parsable(&self) {
        self.bytes_len();
        let b = self.spec_bytes();
        assert(b[0] == self.inode_type.spec_byte());
        assert(b[0] == 0u8 || b[0] == 1u8);
    }

    proof fn roundtrip(&self) {
        lemma_auto_spec_u16_to_from_le_bytes();
        lemma_auto_spec_u32_to_from_le_bytes();
        self.created_at.bytes_len();
        self.modified_at.bytes_len();
        self.accessed_at.bytes_len();
        self.changed_at.bytes_len();
        let b = self.spec_bytes();
        assert(b[0] == self.inode_type.spec_byte());
        assert(b.subrange(1, 17) =~= self.created_at.spec_bytes());
        assert(b.subrange(17, 33) =~= self.modified_at.spec_bytes());
        assert(b.subrange(33, 49) =~= self.accessed_at.spec_bytes());
        assert(b.subrange(49, 65) =~= self.changed_at.spec_bytes());
        assert(b.subrange(65, 67) =~= spec_u16_to_le_bytes(self.permissions));
        assert(b.subrange(67, 71) =~= spec_u32_to_le_bytes(self.nlinks));
        assert(b.subrange(71, 75) =~= spec_u32_to_le_bytes(self.user_id));
        assert(b.subrange(75, 79) =~= spec_u32_to_le_bytes(self.group_id));
        assert(b.subrange(79, 83) =~= spec_u32_to_le_bytes(self.rdev));
        assert(b.subrange(83, 87) =~= spec_u32_to_le_bytes(self.flags));
        self.created_at.roundtrip();
        self.modified_at.roundtrip();
        self.accessed_at.roundtrip();
        self.changed_at.roundtrip();
    }
}


/// A minimal metadata payload: a single magic word. It serves raw
/// filesystem variants that need no POSIX attributes.
#[derive(Debug, Clone, Copy, PartialEq, Eq, Structural)]
pub struct RawMeta {
    /// An uninterpreted word carried with each inode.
    pub magic: u32,
}

impl ByteSerializable for RawMeta {
    open spec fn spec_bytes(&self) -> Seq<u8> {
        spec_u32_to_le_bytes(self.magic)
    }

    open spec fn parsable(b: Seq<u8>) -> bool {
        b.len() == 4
    }

    open spec fn spec_from_bytes(b: Seq<u8>) -> Self {
        RawMeta { magic: spec_u32_from_le_bytes(b.subrange(0, 4)) }
    }

    fn to_bytes(&self) -> (r: Vec<u8>) {
        u32_to_le_bytes(self.magic)
    }

    fn from_bytes(bytes: &[u8]) -> (r: Self) {
        RawMeta { magic: u32_from_le_bytes(slice_subrange(bytes, 0, 4)) }
    }
}

impl KnownSize for RawMeta {
    open spec fn spec_size() -> nat {
        4
    }

    fn size_on_disk() -> (r: usize) {
        proof {
            assert(RawMeta::spec_size() == 4);
        }
        4
    }

    proof fn bytes_len(&self) {
        lemma_auto_spec_u32_to_from_le_bytes();
    }

    proof fn bytes_parsable(&self) {
        self.bytes_len();
    }

    proof fn roundtrip(&self) {
        lemma_auto_spec_u32_to_from_le_bytes();
        assert(self.spec_bytes().subrange(0, 4) =~= spec_u32_to_le_bytes(self.magic));
    }
}

} // verus!
