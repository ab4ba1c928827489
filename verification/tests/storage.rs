//! Tests of the device, IO, superblock and block map layers.

use journeyfs::blockmap::BlockMap;
use journeyfs::device::DeviceDriver;
use journeyfs::device::MemDrive;
use journeyfs::io::IO;
use journeyfs::superblock::SuperBlock;

#[test]
fn memdrive_sectors() {
    let mut drive = MemDrive::new(1024 * 512, 512);

    let sector0 = vec![0x42u8; 512];
    let sector1 = vec![0x1u8; 512];
    let sector512 = vec![0x8u8; 512];
    let sector1023 = vec![0x52u8; 512];

    drive.write_sector(0, &sector0);
    drive.write_sector(1, &sector1);
    drive.write_sector(512, &sector512);
    drive.write_sector(1023, &sector1023);

    assert_eq!(drive.read_sector(0), sector0);
    assert_eq!(drive.read_sector(1), sector1);
    assert_eq!(drive.read_sector(512), sector512);
    assert_eq!(drive.read_sector(1023), sector1023);
    assert_eq!(drive.read_sector(2), vec![0u8; 512]);
    assert_eq!(drive.read_sector(511), vec![0u8; 512]);
}

#[test]
fn mod_read_write() {
    let drive = MemDrive::new(1024 * 512, 1024);
    let mut io = IO::new(drive, 1024);

    let block = vec![42u8; 1024];
    io.write_block(0, &block);
    let read = io.read_block(0);

    assert_eq!(block, read);
}

#[test]
fn mod_read_write_large_block() {
    let drive = MemDrive::new(1024 * 512, 512);
    let mut io = IO::new(drive, 1024);

    let block1 = vec![0x42u8; 1024];
    io.write_block(3, &block1);
    assert_eq!(io.read_block(3), block1);

    let block2 = vec![0x1u8; 1024];
    io.write_block(4, &block2);
    assert_eq!(io.read_block(4), block2);

    let block3 = vec![0x8u8; 1024];
    io.write_block(3, &block3);
    assert_eq!(io.read_block(3), block3);
}

#[test]
fn superblock_read_write_superblock() {
    let drive = MemDrive::new(1024 * 512, 512);
    let mut io = IO::new(drive, 512);
    let mut superblock = SuperBlock::new(512, 1024);
    superblock.write(&mut io);
    superblock.set_root_inode(&mut io, 42);
    let drive_superblock = SuperBlock::read(&io).unwrap();
    assert_eq!(superblock, drive_superblock);
}

#[test]
fn blockmap_read_write() {
    let drive = MemDrive::new(1024 * 512, 512);
    let mut io = IO::new(drive, 1024);
    let blockmap = BlockMap::new(1, 1024, 1024);
    blockmap.write_full(&mut io);
    assert_eq!(blockmap.data, BlockMap::read(&io, 1).data);
}

#[test]
fn blockmap_allocate() {
    let drive = MemDrive::new(1024 * 512, 512);
    let mut io = IO::new(drive, 1024);
    let mut blockmap = BlockMap::new(1, 1024, 1024);
    let index = blockmap.allocate(&mut io).unwrap();
    assert_eq!(blockmap.is_used(index), true);
    blockmap.mark_free(&mut io, index);
    assert_eq!(blockmap.is_free(index), true);
    assert_eq!(blockmap.data, BlockMap::read(&io, 1).data);
}

#[test]
fn blockmap_allocate_distinct_and_reuse() {
    let drive = MemDrive::new(1024 * 512, 512);
    let mut io = IO::new(drive, 512);
    let mut blockmap = BlockMap::new(2, 1024, 512);
    blockmap.write_full(&mut io);

    let first = blockmap.allocate(&mut io).unwrap();
    let second = blockmap.allocate(&mut io).unwrap();
    assert_ne!(first, second);
    assert!(first >= 2);

    blockmap.mark_free(&mut io, first);
    let third = blockmap.allocate(&mut io).unwrap();
    assert_eq!(third, first);
}

#[test]
fn fsio_read_write() {
    let drive = MemDrive::new(1024 * 512, 1024);
    let mut io = IO::new(drive, 1024);

    let block = vec![42u8; 1024];
    io.write_block(0, &block);
    let read = io.read_block(0);

    assert_eq!(block, read);
}

#[test]
fn fsio_read_write_large_block() {
    let drive = MemDrive::new(1024 * 512, 512);
    let mut io = IO::new(drive, 1024);

    let block1 = vec![0x42u8; 1024];
    io.write_block(3, &block1);
    assert_eq!(io.read_block(3), block1);

    let block2 = vec![0x1u8; 1024];
    io.write_block(4, &block2);
    assert_eq!(io.read_block(4), block2);

    let block3 = vec![0x8u8; 1024];
    io.write_block(3, &block3);
    assert_eq!(io.read_block(3), block3);
}
