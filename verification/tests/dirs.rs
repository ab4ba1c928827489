//! Tests of directories, files, metadata and the top-level filesystem.

use journeyfs::device::MemDrive;
use journeyfs::directory::entries_from_bytes;
use journeyfs::directory::entries_to_bytes;
use journeyfs::directory::Directory;
use journeyfs::directory::Entry;
use journeyfs::error::Error;
use journeyfs::fs::FS;
use journeyfs::journey::JourneyFS;
use journeyfs::meta::InodeType;
use journeyfs::meta::Metadata;
use journeyfs::meta::RawMeta;
use journeyfs::serializable::ByteSerializable;
use journeyfs::serializable::KnownSize;
use journeyfs::structure::Structure;
use journeyfs::mode::ModeBitsHelper;
use journeyfs::superblock::SuperBlock;

#[test]
fn test_entry_list_to_bytes() {
    let entries = vec![
        Entry { name: b"file1".to_vec(), id: 1 },
        Entry { name: b"file2".to_vec(), id: 2 },
    ];
    let bytes = entries_to_bytes(&entries);
    let expected = vec![
        1u8, 0, 0, 0, 0, 0, 0, 0, 5, 102, 105, 108, 101, 49, 2, 0, 0, 0, 0, 0, 0, 0, 5, 102, 105,
        108, 101, 50,
    ];
    assert_eq!(bytes, expected);
}

#[test]
fn test_entry_list_from_bytes() {
    let entries = vec![
        Entry { name: b"file1".to_vec(), id: 1 },
        Entry { name: b"file2".to_vec(), id: 2 },
    ];
    let bytes = entries_to_bytes(&entries);
    assert_eq!(entries, entries_from_bytes(&bytes));
}

#[test]
fn test_directory_new() {
    let drive = MemDrive::new(2048 * 1024 * 5, 512);
    let io = journeyfs::io::IO::new(drive, 512);
    let mut structure = Structure::<MemDrive, Metadata>::new(io, 512);
    let directory = Directory::new(&mut structure, 0, 0, 0o755).unwrap();
    let entries = directory.get_entries(&structure);
    assert_eq!(entries.len(), 0);
}

#[test]
fn test_directory_add_entry() {
    let drive = MemDrive::new(2048 * 1024 * 5, 512);
    let io = journeyfs::io::IO::new(drive, 1024);
    let mut structure = Structure::<MemDrive, Metadata>::new(io, 1024);
    let mut directory = Directory::new(&mut structure, 0, 0, 0o755).unwrap();
    directory
        .add_entry(&mut structure, &b"file1".to_vec(), 1)
        .unwrap();
    let entries = directory.get_entries(&structure);
    assert_eq!(entries.len(), 1);
    assert_eq!(entries[0].name, b"file1".to_vec());
    assert_eq!(entries[0].id, 1);
}

#[test]
fn directory_serialized_payload() {
    // the wire format of two fresh entries, byte for byte
    let drive = MemDrive::new(2048 * 1024 * 5, 512);
    let io = journeyfs::io::IO::new(drive, 512);
    let mut structure = Structure::<MemDrive, Metadata>::new(io, 512);
    let mut directory = Directory::new(&mut structure, 0, 0, 0o755).unwrap();
    directory
        .add_entry(&mut structure, &b"file1".to_vec(), 1)
        .unwrap();
    directory
        .add_entry(&mut structure, &b"file2".to_vec(), 2)
        .unwrap();
    let payload = directory.inode.get_data(&structure);
    let expected = vec![
        1u8, 0, 0, 0, 0, 0, 0, 0, 5, 102, 105, 108, 101, 49, 2, 0, 0, 0, 0, 0, 0, 0, 5, 102, 105,
        108, 101, 50,
    ];
    assert_eq!(payload, expected);
}

#[test]
fn directory_rejects_long_name() {
    let drive = MemDrive::new(2048 * 1024 * 5, 512);
    let io = journeyfs::io::IO::new(drive, 512);
    let mut structure = Structure::<MemDrive, Metadata>::new(io, 512);
    let mut directory = Directory::new(&mut structure, 0, 0, 0o755).unwrap();
    let long_name = vec![b'a'; 256];
    let result = directory.add_entry(&mut structure, &long_name, 1);
    assert_eq!(result, Err(Error::NameTooLong));
}

#[test]
fn directory_rejects_duplicate_name() {
    let drive = MemDrive::new(2048 * 1024 * 5, 512);
    let io = journeyfs::io::IO::new(drive, 512);
    let mut structure = Structure::<MemDrive, Metadata>::new(io, 512);
    let mut directory = Directory::new(&mut structure, 0, 0, 0o755).unwrap();
    directory
        .add_entry(&mut structure, &b"twice".to_vec(), 1)
        .unwrap();
    let result = directory.add_entry(&mut structure, &b"twice".to_vec(), 2);
    assert_eq!(result, Err(Error::AlreadyExists));
    let entries = directory.get_entries(&structure);
    assert_eq!(entries.len(), 1);
}

#[test]
fn directory_lookup() {
    let drive = MemDrive::new(2048 * 1024 * 5, 512);
    let io = journeyfs::io::IO::new(drive, 512);
    let mut structure = Structure::<MemDrive, Metadata>::new(io, 512);
    let mut directory = Directory::new(&mut structure, 0, 0, 0o755).unwrap();
    directory
        .add_entry(&mut structure, &b"first".to_vec(), 7)
        .unwrap();
    directory
        .add_entry(&mut structure, &b"second".to_vec(), 9)
        .unwrap();
    assert_eq!(directory.lookup(&structure, &b"second".to_vec()), Some(9));
    assert_eq!(directory.lookup(&structure, &b"absent".to_vec()), None);
}

#[test]
fn directory_read_rejects_file() {
    let drive = MemDrive::new(2048 * 1024 * 5, 512);
    let io = journeyfs::io::IO::new(drive, 512);
    let mut structure = Structure::<MemDrive, Metadata>::new(io, 512);
    let file = journeyfs::file::File::new(&mut structure, 0, 0, 0o644).unwrap();
    let id = file.inode.id.unwrap();
    let result = Directory::read(&structure, id);
    assert!(matches!(result, Err(Error::NotADirectory)));

    let dir = Directory::new(&mut structure, 0, 0, 0o755).unwrap();
    let dir_id = dir.inode.id.unwrap();
    assert!(Directory::read(&structure, dir_id).is_ok());
}

#[test]
fn file_payload_round_trip() {
    // a file inode with POSIX metadata carrying 1024 bytes at B = 512
    let drive = MemDrive::new(2048 * 1024 * 5, 512);
    let io = journeyfs::io::IO::new(drive, 512);
    let mut structure = Structure::<MemDrive, Metadata>::new(io, 512);
    let mut file = journeyfs::file::File::new(&mut structure, 0, 0, 0o644).unwrap();
    assert_eq!(file.inode.meta.inode_type, InodeType::File);
    assert_eq!(file.inode.meta.user_id, 0);
    assert_eq!(file.inode.meta.group_id, 0);
    assert_eq!(file.inode.meta.permissions, 0o644);

    let data = vec![0x42u8; 1024];
    file.set_data(&mut structure, data.clone()).unwrap();
    assert_eq!(file.inode.size, 1024);
    assert_eq!(file.inode.used_pointers, 2);
    assert_eq!(file.inode.read_all(&structure), data);
}

#[test]
fn metadata_codec_round_trip() {
    let meta = Metadata::new(InodeType::Directory, 1000, 100, 0o750, 2, 5);
    let bytes = meta.to_bytes();
    assert_eq!(bytes.len(), Metadata::size_on_disk());
    assert_eq!(bytes.len(), 87);
    let back = Metadata::from_bytes(&bytes);
    assert_eq!(back, meta);
}

#[test]
fn init() {
    let drive = MemDrive::new(2048 * 512, 512);
    let fs = FS::<MemDrive, RawMeta>::new(drive, 512);
    let expected = SuperBlock::new(512, 2048);
    assert_eq!(fs.structure.super_block.magic, expected.magic);
    assert_eq!(fs.structure.super_block.block_size, expected.block_size);
    assert_eq!(fs.structure.super_block.block_count, expected.block_count);
    assert_eq!(fs.structure.super_block.root_inode, expected.root_inode);
    // one bitmap block's worth of inodes is provisioned even on small images
    assert_eq!(fs.structure.super_block.inode_count, 512 * 8);
}

#[test]
fn format_marks_reserved_blocks() {
    let drive = MemDrive::new(2048 * 512, 512);
    let fs = FS::<MemDrive, RawMeta>::new(drive, 512);
    let s = &fs.structure;
    // superblock region: blocks 0 and 1
    assert!(s.block_map.is_used(0));
    assert!(s.block_map.is_used(1));
    // block map region and the inode table right after it
    let reserved_end = s.inode_table.map_index + s.inode_table.block_count as u64;
    for i in 0..reserved_end {
        assert!(s.block_map.is_used(i));
    }
    assert!(s.block_map.is_free(reserved_end));
}

#[test]
fn mount_after_format() {
    let drive = MemDrive::new(2048 * 512, 512);
    let formatted = FS::<MemDrive, RawMeta>::new(drive, 512);
    let super_block = formatted.structure.super_block;
    let map = formatted.structure.block_map.data.clone();
    // reopen the same device contents
    let drive2 = formatted.structure.io.drive;
    let mounted = FS::<MemDrive, RawMeta>::mount(drive2).unwrap();
    assert_eq!(mounted.structure.super_block, super_block);
    assert_eq!(mounted.structure.block_map.data, map);
}

#[test]
fn mount_not_a_filesystem() {
    let drive = MemDrive::new(2048 * 512, 512);
    let result = FS::<MemDrive, RawMeta>::mount(drive);
    assert!(matches!(result, Err(Error::NotAFilesystem)));
}

#[test]
fn journey_format_and_reopen() {
    let drive = MemDrive::new(1024 * 1024 * 16, 512);
    let fs = JourneyFS::new(drive, 0, 0, 512).unwrap();
    assert!(fs.root.inode.id.is_some());
    assert_eq!(fs.root.inode.meta.inode_type, InodeType::Directory);
    let entries = fs.root.get_entries(&fs.structure);
    assert_eq!(entries.len(), 0);
    assert_eq!(
        fs.structure.super_block.root_inode,
        fs.root.inode.id.unwrap()
    );

    // opening the same device again mounts instead of formatting
    let drive2 = fs.structure.io.drive;
    let reopened = JourneyFS::new(drive2, 0, 0, 512).unwrap();
    let root_entries = reopened.root.get_entries(&reopened.structure);
    assert_eq!(root_entries.len(), 0);
}

#[test]
fn journey_mkdir() {
    let drive = MemDrive::new(1024 * 1024 * 16, 512);
    let mut fs = JourneyFS::new(drive, 0, 0, 512).unwrap();
    let root_id = fs.root.inode.id.unwrap();
    let child = fs
        .mkdir(root_id, &b"projects".to_vec(), 0, 0, 0o755)
        .unwrap();
    assert_eq!(child.inode.meta.inode_type, InodeType::Directory);

    let root = Directory::read(&fs.structure, root_id).unwrap();
    let entries = root.get_entries(&fs.structure);
    assert_eq!(entries.len(), 1);
    assert_eq!(entries[0].name, b"projects".to_vec());
    assert_eq!(entries[0].id, child.inode.id.unwrap());
}

#[test]
fn allocator_exhaustion_reports_no_space() {
    let drive = MemDrive::new(2048 * 512, 512);
    let mut fs = FS::<MemDrive, RawMeta>::new(drive, 512);
    while fs.structure.allocate_block().is_some() {}
    let mut inode = fs.structure.create_inode(RawMeta { magic: 9 }).unwrap();
    let result = inode.set_data(&mut fs.structure, vec![1u8; 512]);
    assert_eq!(result, Err(Error::NoSpace));
}

#[test]
fn mode_bits_helpers() {
    let dir_mode: u32 = 0o40755;
    assert_eq!(dir_mode.get_permissions(), 0o755);
    assert!(dir_mode.is_directory());
    assert!(!dir_mode.is_file());

    let file_mode: u32 = 0o100644;
    assert_eq!(file_mode.get_permissions(), 0o644);
    assert!(file_mode.is_file());
    assert!(!file_mode.is_directory());
}

#[test]
fn error_messages_name_the_condition() {
    assert_eq!(Error::NoSpace.message(), "no free block or inode is left");
    assert_eq!(
        Error::NotAFilesystem.message(),
        "no filesystem found on the device"
    );
}

#[test]
fn allocate_block_first_fit() {
    let drive = MemDrive::new(2048 * 512, 512);
    let mut fs = FS::<MemDrive, RawMeta>::new(drive, 512);
    let reserved_end =
        fs.structure.inode_table.map_index + fs.structure.inode_table.block_count as u64;
    // the lowest free block is the first one past the reserved prefix
    let first = fs.structure.allocate_block().unwrap();
    assert_eq!(first, reserved_end);
    let second = fs.structure.allocate_block().unwrap();
    assert_eq!(second, reserved_end + 1);
    fs.structure.free_block(first);
    let third = fs.structure.allocate_block().unwrap();
    assert_eq!(third, first);
}

#[test]
fn mkdir_rejects_duplicate() {
    let drive = MemDrive::new(1024 * 1024 * 16, 512);
    let mut fs = JourneyFS::new(drive, 0, 0, 512).unwrap();
    let root_id = fs.root.inode.id.unwrap();
    fs.mkdir(root_id, &b"home".to_vec(), 0, 0, 0o755).unwrap();
    let result = fs.mkdir(root_id, &b"home".to_vec(), 0, 0, 0o755);
    assert!(matches!(result, Err(Error::AlreadyExists)));
}
