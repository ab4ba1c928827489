//! Tests of the inode codec, the inode table and the payload API.

use journeyfs::device::MemDrive;
use journeyfs::inode::Inode;
use journeyfs::inode_table::InodeTable;
use journeyfs::io::IO;
use journeyfs::meta::RawMeta;
use journeyfs::serializable::ByteSerializable;
use journeyfs::serializable::KnownSize;
use journeyfs::structure::Structure;

#[test]
fn test_inode_to_bytes() {
    let inode = Inode {
        id: Some(42),
        pointers: vec![1, 2, 3, 4, 5, 6, 7, 8, 9, 10, 11, 12],
        size: 12 * 512,
        meta: RawMeta { magic: 42 },
        used_pointers: 12,
        allocated_size: 12 * 512,
    };

    let bytes = inode.to_bytes();
    assert_eq!(bytes.len(), Inode::<RawMeta>::size_on_disk());
}

#[test]
fn test_inode_from_bytes() {
    let inode = Inode {
        id: Some(42),
        pointers: vec![1, 2, 3, 4, 5, 6, 7, 8, 9, 10, 11, 12],
        size: 12 * 512,
        meta: RawMeta { magic: 42 },
        used_pointers: 12,
        allocated_size: 12 * 512,
    };

    let bytes = inode.to_bytes();
    let new_inode = Inode::<RawMeta>::from_bytes(42, &bytes, 512);
    assert_eq!(new_inode.id, Some(42));
    assert_eq!(new_inode.size, 12 * 512);
    assert_eq!(new_inode.used_pointers, 12);
    assert_eq!(new_inode.meta, RawMeta { magic: 42 });
    assert_eq!(new_inode.pointers, vec![1, 2, 3, 4, 5, 6, 7, 8, 9, 10, 11, 12]);
    assert_eq!(new_inode.allocated_size, 12 * 512);
}

#[test]
fn inode_table_read_write_table() {
    let drive = MemDrive::new(2048 * 512, 512);
    let mut io = IO::new(drive, 512);

    let new_table = InodeTable::<RawMeta>::create(1, &mut io);
    assert_eq!(new_table.map.len(), 512);
    assert_eq!(new_table.map_index, 1);
    assert_eq!(new_table.inode_count, 512 * 8);
    assert_eq!(new_table.table_index, 2);
    assert_eq!(new_table.block_count, 1025);

    let inode_table = InodeTable::<RawMeta>::read(&io, 1, new_table.inode_count);
    assert_eq!(inode_table.map.len(), 512);
    assert_eq!(inode_table.map_index, 1);
    assert_eq!(inode_table.inode_count, 512 * 8);
    assert_eq!(inode_table.table_index, 2);
    assert_eq!(inode_table.block_count, 1025);
}

#[test]
fn inode_table_read_write_inode() {
    let drive = MemDrive::new(2048 * 512, 512);
    let mut io = IO::new(drive, 512);

    let mut inode_table = InodeTable::<RawMeta>::create(1, &mut io);
    let mut memory_inode = Inode::<RawMeta>::new(RawMeta { magic: 42 });
    inode_table.write_inode(&mut io, &mut memory_inode).unwrap();
    let mut fs_inode = inode_table.read_inode(&io, memory_inode.id.unwrap());
    assert_eq!(memory_inode.to_bytes(), fs_inode.to_bytes());

    memory_inode.meta.magic = 43;

    inode_table.write_inode(&mut io, &mut memory_inode).unwrap();
    fs_inode = inode_table.read_inode(&io, memory_inode.id.unwrap());
    assert_eq!(memory_inode.to_bytes(), fs_inode.to_bytes());
    assert_eq!(fs_inode.meta.magic, 43);
}

#[test]
fn test_inode_data() {
    let drive = MemDrive::new(4096 * 512, 512);
    let io = IO::new(drive, 512);
    let mut structure = Structure::<MemDrive, RawMeta>::new(io, 512);

    let mut inode = structure.create_inode(RawMeta { magic: 42 }).unwrap();
    let data = vec![0u8; 512 * 12];
    inode.set_data(&mut structure, data.clone()).unwrap();
    let read_data = inode.get_data(&structure);

    assert_eq!(data, read_data);
}

#[test]
fn inode_payload_exact_bytes() {
    // a full payload round trip with distinctive content and two blocks
    let drive = MemDrive::new(4096 * 512, 512);
    let io = IO::new(drive, 512);
    let mut structure = Structure::<MemDrive, RawMeta>::new(io, 512);

    let mut inode = structure.create_inode(RawMeta { magic: 7 }).unwrap();
    let data = vec![0x42u8; 1024];
    inode.set_data(&mut structure, data.clone()).unwrap();
    assert_eq!(inode.size, 1024);
    assert_eq!(inode.used_pointers, 2);
    assert_eq!(inode.read_all(&structure), data);
}

#[test]
fn inode_payload_shrinks() {
    let drive = MemDrive::new(4096 * 512, 512);
    let io = IO::new(drive, 512);
    let mut structure = Structure::<MemDrive, RawMeta>::new(io, 512);

    let mut inode = structure.create_inode(RawMeta { magic: 7 }).unwrap();
    inode.set_data(&mut structure, vec![1u8; 2000]).unwrap();
    assert_eq!(inode.used_pointers, 4);
    inode.set_data(&mut structure, vec![2u8; 3]).unwrap();
    assert_eq!(inode.used_pointers, 1);
    assert_eq!(inode.get_data(&structure), vec![2u8, 2, 2]);
}

#[test]
fn inode_set_data_too_large() {
    let drive = MemDrive::new(4096 * 512, 512);
    let io = IO::new(drive, 512);
    let mut structure = Structure::<MemDrive, RawMeta>::new(io, 512);

    let mut inode = structure.create_inode(RawMeta { magic: 1 }).unwrap();
    inode.set_data(&mut structure, vec![5u8; 100]).unwrap();
    let before_size = inode.size;
    let before_pointers = inode.pointers.clone();

    let result = inode.set_data(&mut structure, vec![9u8; 512 * 12 + 1]);
    assert_eq!(result, Err(journeyfs::error::Error::TooLarge));
    assert_eq!(inode.size, before_size);
    assert_eq!(inode.pointers, before_pointers);
}

#[test]
fn inode_append_data() {
    let drive = MemDrive::new(4096 * 512, 512);
    let io = IO::new(drive, 512);
    let mut structure = Structure::<MemDrive, RawMeta>::new(io, 512);

    let mut inode = structure.create_inode(RawMeta { magic: 3 }).unwrap();
    inode.set_data(&mut structure, vec![1u8, 2, 3]).unwrap();
    inode.append_data(&mut structure, vec![4u8, 5]).unwrap();
    assert_eq!(inode.get_data(&structure), vec![1u8, 2, 3, 4, 5]);
}

#[test]
fn raw_meta_codec() {
    let meta = RawMeta { magic: 0xa1b2c3d4 };
    let bytes = meta.to_bytes();
    assert_eq!(bytes, vec![0xd4u8, 0xc3, 0xb2, 0xa1]);
    assert_eq!(RawMeta::from_bytes(&bytes), meta);
    assert_eq!(RawMeta::size_on_disk(), 4);
}

#[test]
fn read_write_data() {
    let drive = MemDrive::new(4096 * 512, 512);
    let io = IO::new(drive, 512);
    let mut structure = Structure::<MemDrive, RawMeta>::new(io, 512);
    let mut inode = structure.create_inode(RawMeta { magic: 0 }).unwrap();
    let data = vec![42u8; 1024];
    inode.write_all(&mut structure, data.clone()).unwrap();
    let read = inode.read_all(&structure);
    assert_eq!(data, read);
}
