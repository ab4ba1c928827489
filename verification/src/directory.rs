//! Directories: typed views over an inode whose payload is an entry list.
//!
//! Wire format per entry: `id (u64 LE) | name_len (u8) | name bytes`.
//! Entries are simply concatenated; the list ends at the inode's payload
//! size. Names are raw byte strings of at most [`FILE_NAME_LENGTH`] bytes.

use vstd::prelude::*;

use vstd::bytes::spec_u64_to_le_bytes;
use vstd::bytes::spec_u64_from_le_bytes;
use vstd::bytes::u64_to_le_bytes;
use vstd::bytes::u64_from_le_bytes;
use vstd::bytes::lemma_auto_spec_u64_to_from_le_bytes;
use vstd::slice::slice_subrange;

use crate::bytes::sub_bytes;
use crate::device::DeviceDriver;
use crate::error::Error;
use crate::file::File;
use crate::inode::Inode;
use crate::meta::GroupId;
use crate::meta::InodeType;
use crate::meta::Metadata;
use crate::serializable::ByteSerializable;
use crate::meta::UserId;
use crate::structure::Structure;
use crate::InodePointer;
use crate::FILE_NAME_LENGTH;

verus! {

/// One directory entry: a raw byte-string name and the inode it refers to.
#[derive(Debug, Clone, PartialEq)]
pub struct Entry {
    /// The entry's name, at most [`FILE_NAME_LENGTH`] bytes.
    pub name: Vec<u8>,
    /// The inode the entry refers to.
    pub id: InodePointer,
}

/// The mathematical view of an entry list: id and name pairs.
pub open spec fn entries_view(v: Seq<Entry>) -> Seq<(InodePointer, Seq<u8>)> {
    Seq::new(v.len(), |i: int| (v[i].id, v[i].name@))
}

/// The serialized bytes of one entry.
pub open spec fn spec_entry_bytes(e: (InodePointer, Seq<u8>)) -> Seq<u8> {
    spec_u64_to_le_bytes(e.0) + seq![e.1.len() as u8] + e.1
}

/// The serialized bytes of an entry list: the entries concatenated.
pub open spec fn spec_serialize_entries(v: Seq<(InodePointer, Seq<u8>)>) -> Seq<u8>
    decreases v.len(),
{
    if v.len() == 0 {
        Seq::empty()
    } else {
        spec_entry_bytes(v[0]) + spec_serialize_entries(v.drop_first())
    }
}

/// Whether `b` is a whole number of well-formed entries.
pub open spec fn entries_parsable(b: Seq<u8>) -> bool
    decreases b.len(),
{
    if b.len() == 0 {
        true
    } else {
        &&& b.len() >= 9
        &&& 9 + b[8] as int <= b.len()
        &&& entries_parsable(b.subrange(9 + b[8] as int, b.len() as int))
    }
}

/// The entry list parsed from `b`.
pub open spec fn spec_parse_entries(b: Seq<u8>) -> Seq<(InodePointer, Seq<u8>)>
    decreases b.len(),
{
    if b.len() < 9 {
        Seq::empty()
    } else {
        let n = b[8] as int;
        if 9 + n <= b.len() {
            seq![(spec_u64_from_le_bytes(b.subrange(0, 8)), b.subrange(9, 9 + n))]
                + spec_parse_entries(b.subrange(9 + n, b.len() as int))
        } else {
            Seq::empty()
        }
    }
}

/// Serializing one more entry appends its bytes.
proof fn lemma_serialize_push(v: Seq<(InodePointer, Seq<u8>)>, e: (InodePointer, Seq<u8>))
    ensures
        spec_serialize_entries(v.push(e)) == spec_serialize_entries(v) + spec_entry_bytes(e),
    decreases v.len(),
{
    if v.len() == 0 {
        assert(v.push(e)[0] == e);
        assert(v.push(e).drop_first() =~= Seq::<(InodePointer, Seq<u8>)>::empty());
        assert(spec_serialize_entries(Seq::<(InodePointer, Seq<u8>)>::empty()) == Seq::<
            u8,
        >::empty());
        assert(spec_serialize_entries(v.push(e)) =~= spec_serialize_entries(v)
            + spec_entry_bytes(e));
    } else {
        assert(v.push(e).drop_first() =~= v.drop_first().push(e));
        lemma_serialize_push(v.drop_first(), e);
        assert(v.push(e)[0] == v[0]);
        assert(spec_serialize_entries(v.push(e)) == spec_entry_bytes(v[0]) + (
        spec_serialize_entries(v.drop_first()) + spec_entry_bytes(e)));
        assert(spec_entry_bytes(v[0]) + (spec_serialize_entries(v.drop_first())
            + spec_entry_bytes(e)) =~= (spec_entry_bytes(v[0]) + spec_serialize_entries(
            v.drop_first(),
        )) + spec_entry_bytes(e));
    }
}

/// Parsing inverts serializing: the wire format loses nothing.
pub proof fn lemma_entries_roundtrip(v: Seq<(InodePointer, Seq<u8>)>)
    requires
        forall|i: int| 0 <= i < v.len() ==> (#[trigger] v[i].1).len() <= FILE_NAME_LENGTH,
    ensures
        entries_parsable(spec_serialize_entries(v)),
        spec_parse_entries(spec_serialize_entries(v)) == v,
    decreases v.len(),
{
    lemma_auto_spec_u64_to_from_le_bytes();
    if v.len() == 0 {
        assert(spec_parse_entries(spec_serialize_entries(v)) =~= v);
    } else {
        let e = v[0];
        let head = spec_entry_bytes(e);
        let rest = spec_serialize_entries(v.drop_first());
        let b = spec_serialize_entries(v);
        assert(b == head + rest);
        assert(head.len() == 9 + e.1.len());
        assert(b[8] == e.1.len() as u8);
        let n = b[8] as int;
        assert(n == e.1.len());
        assert(forall|i: int|
            0 <= i < v.drop_first().len() ==> (#[trigger] v.drop_first()[i].1).len()
                <= FILE_NAME_LENGTH);
        lemma_entries_roundtrip(v.drop_first());
        assert(b.subrange(9 + n, b.len() as int) =~= rest);
        assert(entries_parsable(b));
        assert(b.subrange(0, 8) =~= spec_u64_to_le_bytes(e.0));
        assert(b.subrange(9, 9 + n) =~= e.1);
        assert(spec_parse_entries(b) == seq![(e.0, e.1)] + spec_parse_entries(rest));
        assert((e.0, e.1) == e);
        assert(seq![e] + v.drop_first() =~= v);
    }
}

/// The entry list recorded on disk for the directory inode `id`: the
/// parse of the payload that inode `id`'s persisted record addresses.
pub open spec fn stored_entries<D: DeviceDriver>(s: Structure<D, Metadata>, id: int) -> Seq<
    (InodePointer, Seq<u8>),
> {
    spec_parse_entries(
        crate::inode::stored_payload(s.io, s.inode_table.slot_view(s.io, id)),
    )
}

/// How often `name` occurs in an entry list.
pub open spec fn spec_count_name(v: Seq<(InodePointer, Seq<u8>)>, name: Seq<u8>) -> int
    decreases v.len(),
{
    if v.len() == 0 {
        0
    } else {
        spec_count_name(v.drop_first(), name) + if v[0].1 == name {
            1int
        } else {
            0int
        }
    }
}

/// A name that is fresh in a list occurs exactly once after it is
/// appended: entries stay unique and keep their insertion order.
pub proof fn lemma_appended_name_once(
    v: Seq<(InodePointer, Seq<u8>)>,
    id: InodePointer,
    name: Seq<u8>,
)
    requires
        forall|i: int| 0 <= i < v.len() ==> (#[trigger] v[i]).1 != name,
    ensures
        spec_count_name(v.push((id, name)), name) == 1,
    decreases v.len(),
{
    if v.len() == 0 {
        assert(v.push((id, name))[0] == (id, name));
        assert(v.push((id, name)).drop_first() =~= Seq::<(InodePointer, Seq<u8>)>::empty());
        assert(spec_count_name(Seq::<(InodePointer, Seq<u8>)>::empty(), name) == 0);
    } else {
        assert(v.push((id, name)).drop_first() =~= v.drop_first().push((id, name)));
        assert(forall|i: int|
            0 <= i < v.drop_first().len() ==> (#[trigger] v.drop_first()[i]).1 != name);
        lemma_appended_name_once(v.drop_first(), id, name);
        assert(v.push((id, name))[0] == v[0]);
    }
}

/// Serializes an entry list into the wire format.
pub fn entries_to_bytes(entries: &Vec<Entry>) -> (r: Vec<u8>)
    requires
        forall|i: int|
            0 <= i < entries@.len() ==> (#[trigger] entries@[i].name)@.len() <= FILE_NAME_LENGTH,
    ensures
        r@ == spec_serialize_entries(entries_view(entries@)),
{
    let mut r: Vec<u8> = Vec::new();
    let mut i: usize = 0;
    proof {
        assert(entries_view(entries@.subrange(0, 0)) =~= Seq::<(InodePointer, Seq<u8>)>::empty());
        assert(r@ =~= spec_serialize_entries(entries_view(entries@.subrange(0, 0))));
    }
    while i < entries.len()
        invariant
            i <= entries@.len(),
            forall|k: int|
                0 <= k < entries@.len() ==> (#[trigger] entries@[k].name)@.len()
                    <= FILE_NAME_LENGTH,
            r@ == spec_serialize_entries(entries_view(entries@.subrange(0, i as int))),
        decreases entries@.len() - i,
    {
        let entry = &entries[i];
        let mut id_bytes = u64_to_le_bytes(entry.id);
        r.append(&mut id_bytes);
        r.push(entry.name.len() as u8);
        let mut name_bytes = crate::bytes::copy_bytes(&entry.name);
        r.append(&mut name_bytes);
        proof {
            lemma_auto_spec_u64_to_from_le_bytes();
            lemma_serialize_push(
                entries_view(entries@.subrange(0, i as int)),
                (entries@[i as int].id, entries@[i as int].name@),
            );
            assert(entries_view(entries@.subrange(0, i as int)).push(
                (entries@[i as int].id, entries@[i as int].name@),
            ) =~= entries_view(entries@.subrange(0, i + 1 as int)));
            assert(r@ =~= spec_serialize_entries(entries_view(entries@.subrange(0, i + 1 as int))));
        }
        i = i + 1;
    }
    proof {
        assert(entries@.subrange(0, entries@.len() as int) =~= entries@);
    }
    r
}

/// Parses an entry list from the wire format. A truncated record or a
/// name length past the end is on-disk corruption, which is excluded here.
pub fn entries_from_bytes(bytes: &Vec<u8>) -> (r: Vec<Entry>)
    requires
        entries_parsable(bytes@),
    ensures
        entries_view(r@) == spec_parse_entries(bytes@),
{
    let mut entries: Vec<Entry> = Vec::new();
    let len = bytes.len();
    let mut pos: usize = 0;
    proof {
        assert(bytes@.subrange(0, bytes@.len() as int) =~= bytes@);
        assert(entries_view(entries@) =~= Seq::<(InodePointer, Seq<u8>)>::empty());
    }
    while pos < len
        invariant
            pos <= len,
            len == bytes@.len(),
            entries_parsable(bytes@.subrange(pos as int, len as int)),
            entries_view(entries@) + spec_parse_entries(bytes@.subrange(pos as int, len as int))
                == spec_parse_entries(bytes@),
        decreases len - pos,
    {
        let ghost rest = bytes@.subrange(pos as int, len as int);
        proof {
            assert(rest.len() >= 9);
            assert(rest[8] == bytes@[pos + 8]);
        }
        let id = u64_from_le_bytes(slice_subrange(bytes.as_slice(), pos, pos + 8));
        let n = bytes[pos + 8] as usize;
        let name = sub_bytes(bytes, pos + 9, pos + 9 + n);
        let ghost old_entries = entries@;
        entries.push(Entry { name, id });
        proof {
            assert(rest.subrange(0, 8) =~= bytes@.subrange(pos as int, pos + 8));
            assert(rest.subrange(9, 9 + n as int) =~= bytes@.subrange(pos + 9, pos + 9 + n));
            assert(rest.subrange(9 + n as int, rest.len() as int) =~= bytes@.subrange(
                pos + 9 + n,
                len as int,
            ));
            assert(spec_parse_entries(rest) == seq![
                (spec_u64_from_le_bytes(rest.subrange(0, 8)), rest.subrange(9, 9 + n as int)),
            ] + spec_parse_entries(bytes@.subrange(pos + 9 + n, len as int)));
            assert(entries_view(entries@) =~= entries_view(old_entries).push(
                (id, bytes@.subrange(pos + 9, pos + 9 + n)),
            ));
            assert(entries_view(old_entries).push(
                (id, bytes@.subrange(pos + 9, pos + 9 + n)),
            ) + spec_parse_entries(bytes@.subrange(pos + 9 + n, len as int)) =~= entries_view(
                old_entries,
            ) + spec_parse_entries(rest));
        }
        pos = pos + 9 + n;
    }
    proof {
        assert(spec_parse_entries(bytes@.subrange(len as int, len as int)) =~= Seq::<
            (InodePointer, Seq<u8>),
        >::empty());
        assert(entries_view(entries@) + Seq::<(InodePointer, Seq<u8>)>::empty() =~= entries_view(
            entries@,
        ));
    }
    entries
}

/// Compares two byte strings.
fn bytes_eq(a: &Vec<u8>, b: &Vec<u8>) -> (r: bool)
    ensures
        r == (a@ == b@),
{
    if a.len() != b.len() {
        proof {
            assert(a@ != b@);
        }
        return false;
    }
    let mut i: usize = 0;
    while i < a.len()
        invariant
            i <= a@.len(),
            a@.len() == b@.len(),
            forall|k: int| 0 <= k < i ==> a@[k] == b@[k],
        decreases a@.len() - i,
    {
        if a[i] != b[i] {
            proof {
                assert(a@ != b@);
            }
            return false;
        }
        i = i + 1;
    }
    proof {
        assert(a@ =~= b@);
    }
    true
}

/// A directory: an inode whose payload is a serialized entry list.
pub struct Directory {
    /// The underlying inode, tagged [`InodeType::Directory`].
    pub inode: Inode<Metadata>,
}

impl Directory {
    /// The directory's entry list as read from its payload.
    pub open spec fn spec_entries<D: DeviceDriver>(self, structure: Structure<D, Metadata>) -> Seq<
        (InodePointer, Seq<u8>),
    > {
        spec_parse_entries(self.inode.spec_data(structure.io))
    }

    /// The directory's payload parses as an entry list and every name is
    /// within bounds.
    pub open spec fn entries_ok<D: DeviceDriver>(self, structure: Structure<D, Metadata>) -> bool {
        &&& entries_parsable(self.inode.spec_data(structure.io))
        &&& forall|i: int|
            0 <= i < self.spec_entries(structure).len() ==> (#[trigger] self.spec_entries(
                structure,
            )[i]).1.len() <= FILE_NAME_LENGTH
    }

    /// Creates a fresh, empty directory inode with link count 2 (itself and
    /// its `.` entry). `Err(NoSpace)` when the inode table is full.
    pub fn new<D: DeviceDriver>(
        structure: &mut Structure<D, Metadata>,
        user_id: UserId,
        group_id: GroupId,
        permissions: u16,
    ) -> (r: Result<Directory, Error>)
        requires
            old(structure).wf(),
        ensures
            final(structure).wf(),
            old(structure).reserved_marked() ==> final(structure).reserved_marked(),
            final(structure).super_block == old(structure).super_block,
            final(structure).block_map == old(structure).block_map,
            final(structure).io.block_size == old(structure).io.block_size,
            final(structure).io.block_count == old(structure).io.block_count,
            final(structure).io.sector_size() == old(structure).io.sector_size(),
            final(structure).io.drive.sectors().len() == old(structure).io.drive.sectors().len(),
            forall|j: int|
                0 <= j < old(structure).io.block_count && !(old(structure).inode_table.map_index as int <= j < old(structure).reserved_end()) ==> final(structure).io.block_view(j) == old(structure).io.block_view(j),
            match r {
                Ok(d) => {
                    &&& d.inode.id is Some
                    &&& final(structure).inode_valid(d.inode)
                    &&& d.inode.size == 0
                    &&& d.inode.used_pointers == 0
                    &&& d.inode.meta.inode_type == InodeType::Directory
                    &&& d.inode.meta.nlinks == 2
                    &&& d.inode.meta.user_id == user_id
                    &&& d.inode.meta.group_id == group_id
                    &&& d.inode.meta.permissions == permissions
                    &&& d.inode.meta.rdev == 0
                    &&& d.inode.meta.flags == 0
                    &&& forall|j: int| 0 <= j < d.inode.id->0 as int ==> old(structure).inode_table.bit(j)
                    &&& final(structure).inode_table.slot_view(
                        final(structure).io,
                        d.inode.id->0 as int,
                    ) == d.inode.spec_bytes()
                    &&& d.spec_entries(*final(structure)) == Seq::<(InodePointer, Seq<u8>)>::empty()
                    &&& d.entries_ok(*final(structure))
                },
                Err(e) => e == Error::NoSpace && forall|j: int|
                    0 <= j < old(structure).inode_table.inode_count ==> old(
                        structure,
                    ).inode_table.bit(j),
            },
    {
        let meta = Metadata::new(InodeType::Directory, user_id, group_id, permissions, 2, 0);
        match structure.create_inode(meta) {
            Ok(inode) => {
                proof {
                    assert(inode.spec_data(structure.io) =~= Seq::<u8>::empty());
                }
                Ok(Directory { inode })
            },
            Err(e) => Err(e),
        }
    }

    /// Wraps an inode already known to be a directory.
    pub fn from_inode(inode: Inode<Metadata>) -> (r: Directory)
        ensures
            r.inode == inode,
    {
        Directory { inode }
    }

    /// Reads the inode with the given id and checks that it is a
    /// directory; `Err(NotADirectory)` when it holds a file.
    pub fn read<D: DeviceDriver>(structure: &Structure<D, Metadata>, id: InodePointer) -> (r:
        Result<Directory, Error>)
        requires
            structure.wf(),
            (id as int) < structure.inode_table.inode_count as int,
            <Metadata as ByteSerializable>::parsable(
                structure.inode_table.slot_view(structure.io, id as int).subrange(
                    104,
                    Inode::<Metadata>::spec_size_on_disk() as int,
                ),
            ),
        ensures
            match r {
                Ok(d) => Inode::<Metadata>::parsed_from(
                    d.inode,
                    id,
                    structure.inode_table.slot_view(structure.io, id as int),
                    structure.io.block_size as int,
                ) && d.inode.meta.inode_type == InodeType::Directory,
                Err(e) => e == Error::NotADirectory
                    && <Metadata as ByteSerializable>::spec_from_bytes(
                    structure.inode_table.slot_view(structure.io, id as int).subrange(
                        104,
                        Inode::<Metadata>::spec_size_on_disk() as int,
                    ),
                ).inode_type == InodeType::File,
            },
    {
        let inode = structure.read_inode(id);
        proof {
            structure.io.lemma_geometry();
            structure.inode_table.lemma_slot_in_range(structure.io.block_size as int, id as int);
            let slot = structure.inode_table.slot_view(structure.io, id as int);
            let isz = Inode::<Metadata>::spec_size_on_disk() as int;
            assert(slot.len() == isz);
            assert(slot.subrange(104, slot.len() as int) =~= slot.subrange(104, isz));
        }
        match inode.meta.inode_type {
            InodeType::Directory => Ok(Directory { inode }),
            InodeType::File => Err(Error::NotADirectory),
        }
    }

    /// Reads and parses the whole entry list.
    pub fn get_entries<D: DeviceDriver>(&self, structure: &Structure<D, Metadata>) -> (r: Vec<
        Entry,
    >)
        requires
            structure.wf(),
            structure.inode_valid(self.inode),
            entries_parsable(self.inode.spec_data(structure.io)),
        ensures
            entries_view(r@) == self.spec_entries(*structure),
    {
        let data = self.inode.get_data(structure);
        entries_from_bytes(&data)
    }

    /// Appends the entry `(name, id)`: fails with `NameTooLong` for a name
    /// over [`FILE_NAME_LENGTH`] bytes and with `AlreadyExists` when an
    /// entry with the same name is present; otherwise the new entry list is
    /// written back and the inode record persisted.
    pub fn add_entry<D: DeviceDriver>(
        &mut self,
        structure: &mut Structure<D, Metadata>,
        name: &Vec<u8>,
        id: InodePointer,
    ) -> (r: Result<(), Error>)
        requires
            old(structure).wf(),
            old(structure).reserved_marked(),
            old(structure).inode_valid(old(self).inode),
            old(self).entries_ok(*old(structure)),
        ensures
            final(structure).wf(),
            final(structure).reserved_marked(),
            final(structure).super_block == old(structure).super_block,
            final(structure).io.block_size == old(structure).io.block_size,
            final(structure).io.block_count == old(structure).io.block_count,
            final(structure).io.sector_size() == old(structure).io.sector_size(),
            final(structure).io.drive.sectors().len() == old(structure).io.drive.sectors().len(),
            final(structure).inode_valid(final(self).inode),
            old(self).inode.id is Some ==> final(self).inode.id == old(self).inode.id,
            (r == Err::<(), Error>(Error::AlreadyExists)) <==> (name@.len() <= FILE_NAME_LENGTH
                && exists|i: int|
                0 <= i < old(self).spec_entries(*old(structure)).len() && (#[trigger] old(self).spec_entries(*old(structure))[i]).1 == name@),
            match r {
                Ok(()) => {
                    &&& final(self).spec_entries(*final(structure)) == old(self).spec_entries(
                        *old(structure),
                    ).push((id, name@))
                    &&& final(self).entries_ok(*final(structure))
                    &&& spec_count_name(final(self).spec_entries(*final(structure)), name@) == 1
                    &&& name@.len() <= FILE_NAME_LENGTH
                    &&& final(self).inode.id is Some
                    &&& (final(self).inode.id->0 as int) < final(structure).inode_table.inode_count as int
                    &&& final(structure).inode_table.slot_view(
                        final(structure).io,
                        final(self).inode.id->0 as int,
                    ) == final(self).inode.spec_bytes()
                },
                Err(e) => {
                    &&& (e == Error::NameTooLong <==> name@.len() > FILE_NAME_LENGTH)
                    &&& (e == Error::NameTooLong || e == Error::AlreadyExists || e
                        == Error::NoSpace || e == Error::TooLarge)
                    &&& (e == Error::AlreadyExists ==> *final(self) == *old(self) && *final(structure) == *old(structure))
                    &&& (e == Error::NameTooLong ==> *final(self) == *old(self) && *final(structure) == *old(structure))
                    &&& (e == Error::TooLarge <==> name@.len() <= FILE_NAME_LENGTH && (forall|i: int|
                        0 <= i < old(self).spec_entries(*old(structure)).len() ==> (#[trigger] old(self).spec_entries(*old(structure))[i]).1 != name@)
                        && spec_serialize_entries(
                        old(self).spec_entries(*old(structure)).push((id, name@)),
                    ).len() > (crate::DIRECT_POINTERS as int) * old(structure).io.block_size as int)
                    &&& (e == Error::NoSpace ==> old(self).inode.id is None || forall|j: int|
                        0 <= j < final(structure).io.block_count ==> final(structure).block_map.bit(
                            j,
                        ))
                },
            },
    {
        if name.len() > FILE_NAME_LENGTH {
            return Err(Error::NameTooLong);
        }
        let mut entries = self.get_entries(structure);
        let ghost old_view = entries_view(entries@);
        let mut i: usize = 0;
        while i < entries.len()
            invariant
                i <= entries@.len(),
                entries_view(entries@) == old_view,
                forall|k: int| 0 <= k < i ==> (#[trigger] old_view[k]).1 != name@,
                *structure == *old(structure),
                *self == *old(self),
                structure.wf(),
                structure.reserved_marked(),
                structure.inode_valid(self.inode),
                self.entries_ok(*structure),
                name@.len() <= FILE_NAME_LENGTH,
                old_view == old(self).spec_entries(*old(structure)),
            decreases entries@.len() - i,
        {
            if bytes_eq(&entries[i].name, name) {
                proof {
                    assert(old_view[i as int].1 == name@);
                }
                return Err(Error::AlreadyExists);
            }
            proof {
                assert(old_view[i as int].1 == entries@[i as int].name@);
            }
            i = i + 1;
        }
        let name_copy = crate::bytes::copy_bytes(name);
        entries.push(Entry { name: name_copy, id });
        proof {
            assert(entries_view(entries@) =~= old_view.push((id, name@)));
            assert forall|k: int|
                0 <= k < entries@.len() implies (#[trigger] entries@[k].name)@.len()
                <= FILE_NAME_LENGTH by {
                if k < entries@.len() - 1 {
                    assert(old_view[k].1 == entries@[k].name@);
                }
            }
        }
        let bytes = entries_to_bytes(&entries);
        let set_result = self.inode.set_data(structure, bytes);
        match set_result {
            Ok(()) => {},
            Err(e) => {
                proof {
                    assert(e == Error::NoSpace || e == Error::TooLarge);
                }
                return Err(e);
            },
        }
        let ghost mid_structure = *structure;
        let ghost mid_inode = self.inode;
        let write_result = structure.write_inode(&mut self.inode);
        proof {
            assert forall|m: int|
                0 <= m < self.inode.used_pointers implies structure.io.block_view(
                #[trigger] self.inode.pointers@[m] as int,
            ) == mid_structure.io.block_view(self.inode.pointers@[m] as int) by {
                assert(mid_structure.inode_valid(mid_inode));
                assert(mid_inode.pointers@[m] == self.inode.pointers@[m]);
                assert(mid_structure.is_data_block(mid_inode.pointers@[m] as int));
            }
            self.inode.lemma_spec_data_unchanged(mid_structure.io, structure.io);
            Inode::<Metadata>::lemma_spec_data_same_fields(mid_inode, self.inode, structure.io);
            Inode::<Metadata>::lemma_spec_data_same_fields(mid_inode, self.inode, mid_structure.io);
        }
        match write_result {
            Ok(()) => {
                proof {
                    lemma_entries_roundtrip(old_view.push((id, name@)));
                    lemma_appended_name_once(old_view, id, name@);
                    assert(self.spec_entries(*structure) == old_view.push((id, name@)));
                }
                Ok(())
            },
            Err(e) => {
                proof {
                    assert(e == Error::NoSpace);
                }
                Err(e)
            },
        }
    }

    /// Returns the id of the entry named `name`, or `None` when absent.
    pub fn lookup<D: DeviceDriver>(
        &self,
        structure: &Structure<D, Metadata>,
        name: &Vec<u8>,
    ) -> (r: Option<InodePointer>)
        requires
            structure.wf(),
            structure.inode_valid(self.inode),
            entries_parsable(self.inode.spec_data(structure.io)),
        ensures
            match r {
                Some(id) => exists|i: int|
                    0 <= i < self.spec_entries(*structure).len() && #[trigger] self.spec_entries(
                        *structure,
                    )[i] == (id, name@),
                None => forall|i: int|
                    0 <= i < self.spec_entries(*structure).len() ==> (#[trigger] self.spec_entries(
                        *structure,
                    )[i]).1 != name@,
            },
    {
        let entries = self.get_entries(structure);
        let mut i: usize = 0;
        while i < entries.len()
            invariant
                i <= entries@.len(),
                entries_view(entries@) == self.spec_entries(*structure),
                forall|k: int|
                    0 <= k < i ==> (#[trigger] self.spec_entries(*structure)[k]).1 != name@,
            decreases entries@.len() - i,
        {
            if bytes_eq(&entries[i].name, name) {
                proof {
                    assert(self.spec_entries(*structure)[i as int] == (
                        entries@[i as int].id,
                        name@,
                    ));
                }
                return Some(entries[i].id);
            }
            proof {
                assert(self.spec_entries(*structure)[i as int].1 == entries@[i as int].name@);
            }
            i = i + 1;
        }
        None
    }

    /// Creates a fresh subdirectory and links it under `name`.
    pub fn add_directory<D: DeviceDriver>(
        &mut self,
        structure: &mut Structure<D, Metadata>,
        name: &Vec<u8>,
        user_id: UserId,
        group_id: GroupId,
        permissions: u16,
    ) -> (r: Result<Directory, Error>)
        requires
            old(structure).wf(),
            old(structure).reserved_marked(),
            old(structure).inode_valid(old(self).inode),
            old(self).entries_ok(*old(structure)),
        ensures
            final(structure).wf(),
            final(structure).reserved_marked(),
            final(structure).inode_valid(final(self).inode),
            old(self).inode.id is Some ==> final(self).inode.id == old(self).inode.id,
            match r {
                Ok(d) => {
                    &&& d.inode.id is Some
                    &&& d.inode.meta.inode_type == InodeType::Directory
                    &&& d.inode.meta.nlinks == 2
                    &&& d.inode.meta.user_id == user_id
                    &&& d.inode.meta.group_id == group_id
                    &&& d.inode.meta.permissions == permissions
                    &&& final(self).spec_entries(*final(structure)) == old(self).spec_entries(
                        *old(structure),
                    ).push((d.inode.id->0, name@))
                    &&& final(self).entries_ok(*final(structure))
                    &&& final(self).inode.id is Some
                    &&& (final(self).inode.id->0 as int) < final(structure).inode_table.inode_count as int
                    &&& final(structure).inode_table.slot_view(
                        final(structure).io,
                        final(self).inode.id->0 as int,
                    ) == final(self).inode.spec_bytes()
                    &&& name@.len() <= FILE_NAME_LENGTH
                },
                Err(e) => {
                    &&& (e == Error::NoSpace || e == Error::TooLarge || e == Error::NameTooLong
                        || e == Error::AlreadyExists)
                    &&& (e == Error::NameTooLong ==> name@.len() > FILE_NAME_LENGTH)
                    &&& (e == Error::AlreadyExists ==> exists|i: int|
                        0 <= i < old(self).spec_entries(*old(structure)).len() && (#[trigger] old(self).spec_entries(*old(structure))[i]).1 == name@)
                    &&& (e == Error::NoSpace ==> (forall|j: int|
                        0 <= j < old(structure).inode_table.inode_count ==> old(structure).inode_table.bit(j)) || old(self).inode.id is None || (forall|j: int|
                        0 <= j < final(structure).io.block_count ==> final(structure).block_map.bit(j)))
                    &&& (e == Error::TooLarge ==> exists|cid: InodePointer|
                        spec_serialize_entries(
                            old(self).spec_entries(*old(structure)).push((cid, name@)),
                        ).len() > (crate::DIRECT_POINTERS as int) * old(structure).io.block_size as int)
                },
            },
    {
        let directory = match Directory::new(structure, user_id, group_id, permissions) {
            Ok(d) => d,
            Err(e) => {
                return Err(e);
            },
        };
        proof {
            assert(self.inode == old(self).inode);
            assert forall|m: int|
                0 <= m < self.inode.used_pointers implies structure.io.block_view(
                #[trigger] self.inode.pointers@[m] as int,
            ) == old(structure).io.block_view(self.inode.pointers@[m] as int) by {
                assert(old(structure).inode_valid(old(self).inode));
                assert(old(self).inode.pointers@[m] == self.inode.pointers@[m]);
                assert(old(structure).is_data_block(old(self).inode.pointers@[m] as int));
            }
            self.inode.lemma_spec_data_unchanged(old(structure).io, structure.io);
            assert(self.inode.spec_data(structure.io) == old(self).inode.spec_data(
                old(structure).io,
            ));
            assert(self.spec_entries(*structure) == old(self).spec_entries(*old(structure)));
            assert(self.entries_ok(*structure));
            assert(structure.inode_valid(self.inode));
        }
        let child_id = match directory.inode.id {
            Some(id) => id,
            None => vstd::pervasive::unreached(),
        };
        match self.add_entry(structure, name, child_id) {
            Ok(()) => Ok(directory),
            Err(e) => Err(e),
        }
    }

    /// Creates a fresh file and links it under `name`.
    pub fn add_file<D: DeviceDriver>(
        &mut self,
        structure: &mut Structure<D, Metadata>,
        name: &Vec<u8>,
        user_id: UserId,
        group_id: GroupId,
        permissions: u16,
    ) -> (r: Result<File, Error>)
        requires
            old(structure).wf(),
            old(structure).reserved_marked(),
            old(structure).inode_valid(old(self).inode),
            old(self).entries_ok(*old(structure)),
        ensures
            final(structure).wf(),
            final(structure).reserved_marked(),
            final(structure).inode_valid(final(self).inode),
            old(self).inode.id is Some ==> final(self).inode.id == old(self).inode.id,
            match r {
                Ok(f) => {
                    &&& f.inode.id is Some
                    &&& f.inode.meta.inode_type == InodeType::File
                    &&& f.inode.meta.nlinks == 1
                    &&& f.inode.meta.user_id == user_id
                    &&& f.inode.meta.group_id == group_id
                    &&& f.inode.meta.permissions == permissions
                    &&& f.inode.meta.rdev == 0
                    &&& f.inode.meta.flags == 0
                    &&& final(self).spec_entries(*final(structure)) == old(self).spec_entries(
                        *old(structure),
                    ).push((f.inode.id->0, name@))
                    &&& final(self).entries_ok(*final(structure))
                    &&& final(self).inode.id is Some
                    &&& (final(self).inode.id->0 as int) < final(structure).inode_table.inode_count as int
                    &&& final(structure).inode_table.slot_view(
                        final(structure).io,
                        final(self).inode.id->0 as int,
                    ) == final(self).inode.spec_bytes()
                    &&& name@.len() <= FILE_NAME_LENGTH
                },
                Err(e) => {
                    &&& (e == Error::NoSpace || e == Error::TooLarge || e == Error::NameTooLong
                        || e == Error::AlreadyExists)
                    &&& (e == Error::NameTooLong ==> name@.len() > FILE_NAME_LENGTH)
                    &&& (e == Error::AlreadyExists ==> exists|i: int|
                        0 <= i < old(self).spec_entries(*old(structure)).len() && (#[trigger] old(self).spec_entries(*old(structure))[i]).1 == name@)
                    &&& (e == Error::NoSpace ==> (forall|j: int|
                        0 <= j < old(structure).inode_table.inode_count ==> old(structure).inode_table.bit(j)) || old(self).inode.id is None || (forall|j: int|
                        0 <= j < final(structure).io.block_count ==> final(structure).block_map.bit(j)))
                    &&& (e == Error::TooLarge ==> exists|cid: InodePointer|
                        spec_serialize_entries(
                            old(self).spec_entries(*old(structure)).push((cid, name@)),
                        ).len() > (crate::DIRECT_POINTERS as int) * old(structure).io.block_size as int)
                },
            },
    {
        let file = match File::new(structure, user_id, group_id, permissions) {
            Ok(f) => f,
            Err(e) => {
                return Err(e);
            },
        };
        proof {
            assert(self.inode == old(self).inode);
            assert forall|m: int|
                0 <= m < self.inode.used_pointers implies structure.io.block_view(
                #[trigger] self.inode.pointers@[m] as int,
            ) == old(structure).io.block_view(self.inode.pointers@[m] as int) by {
                assert(old(structure).inode_valid(old(self).inode));
                assert(old(self).inode.pointers@[m] == self.inode.pointers@[m]);
                assert(old(structure).is_data_block(old(self).inode.pointers@[m] as int));
            }
            self.inode.lemma_spec_data_unchanged(old(structure).io, structure.io);
            assert(self.inode.spec_data(structure.io) == old(self).inode.spec_data(
                old(structure).io,
            ));
            assert(self.spec_entries(*structure) == old(self).spec_entries(*old(structure)));
            assert(self.entries_ok(*structure));
            assert(structure.inode_valid(self.inode));
        }
        let child_id = match file.inode.id {
            Some(id) => id,
            None => vstd::pervasive::unreached(),
        };
        match self.add_entry(structure, name, child_id) {
            Ok(()) => Ok(file),
            Err(e) => Err(e),
        }
    }
}

} // verus!
