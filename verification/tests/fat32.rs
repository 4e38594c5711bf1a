use std::io::ErrorKind;

use rpi_os::mbr::{self, MasterBootRecord};
use rpi_os::traits::{BlockDevice, MemoryDisk};
use rpi_os::vfat::{chain_step, BiosParameterBlock, ChainStep, Cluster, Error, FatEntry, Status, VFat};
use rpi_os::vfat::vfat::{check_sector_size, next_from_entry};

const SECTOR: usize = 512;

fn put_u16(b: &mut [u8], off: usize, v: u16) {
    b[off..off + 2].copy_from_slice(&v.to_le_bytes());
}

fn put_u32(b: &mut [u8], off: usize, v: u32) {
    b[off..off + 4].copy_from_slice(&v.to_le_bytes());
}

fn mbr_sector(part_type: u8, relative_sector: u32) -> Vec<u8> {
    let mut s = vec![0u8; SECTOR];
    s[0] = 0xfa;
    s[436] = 0x42;
    // partition 0
    s[446] = 0x80;
    s[447] = 1;
    s[448] = 2;
    s[449] = 3;
    s[450] = part_type;
    s[451] = 4;
    s[452] = 5;
    s[453] = 6;
    put_u32(&mut s, 454, relative_sector);
    put_u32(&mut s, 458, 100);
    put_u16(&mut s, 510, 0xaa55);
    s
}

fn ebpb_sector(bps: u16, spc: u8, reserved: u16, fats: u8, spf16: u16, spf32: u32, root: u32) -> Vec<u8> {
    let mut s = vec![0u8; SECTOR];
    s[0] = 0xeb;
    s[1] = 0x58;
    s[2] = 0x90;
    s[3..11].copy_from_slice(b"MSWIN4.1");
    put_u16(&mut s, 11, bps);
    s[13] = spc;
    put_u16(&mut s, 14, reserved);
    s[16] = fats;
    put_u16(&mut s, 22, spf16);
    put_u32(&mut s, 36, spf32);
    put_u32(&mut s, 44, root);
    put_u32(&mut s, 67, 0xdeadbeef);
    s[71..82].copy_from_slice(b"NO NAME    ");
    s[82..90].copy_from_slice(b"FAT32   ");
    put_u16(&mut s, 510, 0xaa55);
    s
}

/// A disk with one FAT32 partition at sector 2: two reserved sectors, one
/// FAT of one sector at sector 4, data from sector 5, one sector per
/// cluster. Cluster 2 chains to 3, which ends; cluster 4 is free, 5 is bad,
/// 6 names cluster 1.
fn disk_image() -> Vec<u8> {
    let mut d = vec![0u8; SECTOR * 10];
    d[..SECTOR].copy_from_slice(&mbr_sector(0x0c, 2));
    d[2 * SECTOR..3 * SECTOR].copy_from_slice(&ebpb_sector(512, 1, 2, 1, 0, 1, 2));
    let fat = 4 * SECTOR;
    put_u32(&mut d, fat, 0x0fff_fff8);
    put_u32(&mut d, fat + 4, 0xffff_ffff);
    put_u32(&mut d, fat + 8, 3);
    put_u32(&mut d, fat + 12, 0xffff_ffff);
    put_u32(&mut d, fat + 16, 0);
    put_u32(&mut d, fat + 20, 0x0fff_fff7);
    put_u32(&mut d, fat + 24, 1);
    for i in 0..SECTOR {
        d[5 * SECTOR + i] = b'A' + (i % 26) as u8;
        d[6 * SECTOR + i] = b'a' + (i % 26) as u8;
    }
    d
}

fn mount() -> VFat<MemoryDisk> {
    match VFat::from(MemoryDisk::new(disk_image(), 512)) {
        Ok(v) => v,
        Err(e) => panic!("mount failed: {:?}", e),
    }
}

#[test]
fn mbr_reads_partition_table() {
    let s = mbr_sector(0x0c, 2048);
    let m = MasterBootRecord::from_bytes(&s).unwrap();
    assert_eq!(m.magic, 0xaa55);
    assert_eq!(m.MBR_bootstrap.len(), 436);
    assert_eq!(m.MBR_bootstrap[0], 0xfa);
    assert_eq!(m.unique_disk_ID.len(), 10);
    assert_eq!(m.unique_disk_ID[0], 0x42);
    let p = m.partitions[0];
    assert_eq!(p.boot_indicator, 0x80);
    assert_eq!(p.starting_CHS, mbr::CHS { starting_head: 1, starting_sector_cylinder: 2, starting_cylinder: 3 });
    assert_eq!(p.partition_type, 0x0c);
    assert_eq!(p.ending_CHS.starting_cylinder, 6);
    assert_eq!(p.relative_sector, 2048);
    assert_eq!(p.total_sectors, 100);
    assert_eq!(m.partitions[1].partition_type, 0);
}

#[test]
fn mbr_bad_signature() {
    let mut s = mbr_sector(0x0c, 2);
    s[511] = 0;
    assert!(matches!(MasterBootRecord::from_bytes(&s), Err(mbr::Error::BadSignature)));
}

#[test]
fn mbr_signature_checked_before_boot_indicators() {
    let mut s = mbr_sector(0x0c, 2);
    s[446] = 0x12;
    s[510] = 0;
    assert!(matches!(MasterBootRecord::from_bytes(&s), Err(mbr::Error::BadSignature)));
}

#[test]
fn mbr_unknown_boot_indicator_names_first_bad_partition() {
    let mut s = mbr_sector(0x0c, 2);
    s[446 + 2 * 16] = 0x01;
    s[446 + 3 * 16] = 0x7f;
    assert!(matches!(MasterBootRecord::from_bytes(&s), Err(mbr::Error::UnknownBootIndicator(2))));
    s[446] = 0x81;
    assert!(matches!(MasterBootRecord::from_bytes(&s), Err(mbr::Error::UnknownBootIndicator(0))));
}

#[test]
fn mbr_short_sector_is_io_error() {
    let s = mbr_sector(0x0c, 2);
    match MasterBootRecord::from_bytes(&s[..511]) {
        Err(mbr::Error::Io(e)) => assert_eq!(e.kind(), ErrorKind::UnexpectedEof),
        other => panic!("unexpected {:?}", other),
    }
}

#[test]
fn mbr_from_device() {
    let mut disk = MemoryDisk::new(disk_image(), 512);
    let m = MasterBootRecord::from(&mut disk).unwrap();
    assert_eq!(m.first_vfat_partition(), Some(2));
    let mut tiny = MemoryDisk::new(vec![0u8; 100], 512);
    assert!(matches!(MasterBootRecord::from(&mut tiny), Err(mbr::Error::Io(_))));
}

#[test]
fn first_vfat_partition_takes_first_fat32_entry() {
    let mut s = mbr_sector(0x83, 9);
    s[446 + 16 + 4] = 0x0b;
    put_u32(&mut s, 446 + 16 + 8, 77);
    s[446 + 48 + 4] = 0x0c;
    put_u32(&mut s, 446 + 48 + 8, 99);
    let m = MasterBootRecord::from_bytes(&s).unwrap();
    assert_eq!(m.first_vfat_partition(), Some(77));
    let none = MasterBootRecord::from_bytes(&mbr_sector(0x83, 9)).unwrap();
    assert_eq!(none.first_vfat_partition(), None);
}

#[test]
fn ebpb_reads_fields() {
    let s = ebpb_sector(4096, 8, 32, 2, 0, 1234, 2);
    let b = BiosParameterBlock::from_bytes(&s).unwrap();
    assert_eq!(b.bytes_per_logical_sector, 4096);
    assert_eq!(b.logical_sectors_per_cluster, 8);
    assert_eq!(b.reserved_logical_sectors, 32);
    assert_eq!(b.num_of_FATs, 2);
    assert_eq!(b.root_directory_cluster, 2);
    assert_eq!(b.volume_serial_number, 0xdeadbeef);
    assert_eq!(&b.OEM[..], b"MSWIN4.1");
    assert_eq!(&b.volume_label[..], b"NO NAME    ");
    assert_eq!(&b.FSType[..], b"FAT32   ");
    assert_eq!(b.boot_code.len(), 420);
    assert_eq!(b.logical_sectors_per_FAT(), 1234);
}

#[test]
fn ebpb_prefers_16_bit_fat_size() {
    let b = BiosParameterBlock::from_bytes(&ebpb_sector(512, 1, 1, 2, 9, 1234, 2)).unwrap();
    assert_eq!(b.logical_sectors_per_FAT(), 9);
}

#[test]
fn ebpb_errors() {
    let mut s = ebpb_sector(512, 1, 1, 2, 0, 8, 2);
    s[510] = 0x56;
    assert!(matches!(BiosParameterBlock::from_bytes(&s), Err(Error::BadSignature)));
    match BiosParameterBlock::from_bytes(&s[..100]) {
        Err(Error::Io(e)) => assert_eq!(e.kind(), ErrorKind::UnexpectedEof),
        other => panic!("unexpected {:?}", other),
    }
    let mut disk = MemoryDisk::new(disk_image(), 512);
    let b = BiosParameterBlock::from(&mut disk, 2).unwrap();
    assert_eq!(b.bytes_per_logical_sector, 512);
    assert!(matches!(BiosParameterBlock::from(&mut disk, 0), Ok(_)));
    assert!(matches!(BiosParameterBlock::from(&mut disk, 1), Err(Error::BadSignature)));
}

#[test]
fn vfat_geometry() {
    let v = mount();
    assert_eq!(v.partition_start(), 2);
    assert_eq!(v.bytes_per_sector(), 512);
    assert_eq!(v.sectors_per_cluster(), 1);
    assert_eq!(v.sectors_per_fat(), 1);
    assert_eq!(v.fat_start_sector(), 4);
    assert_eq!(v.data_start_sector(), 5);
    assert_eq!(v.root_dir_cluster(), Cluster(2));
}

#[test]
fn vfat_without_fat32_partition() {
    let mut d = disk_image();
    d[450] = 0x83;
    match VFat::from(MemoryDisk::new(d, 512)) {
        Err(Error::Io(e)) => assert_eq!(e.kind(), ErrorKind::NotFound),
        Err(e) => panic!("unexpected {:?}", e),
        Ok(_) => panic!("mounted"),
    }
}

#[test]
fn vfat_bad_mbr_and_ebpb() {
    let mut d = disk_image();
    d[511] = 0;
    assert!(matches!(VFat::from(MemoryDisk::new(d, 512)), Err(Error::Mbr(mbr::Error::BadSignature))));
    let mut d = disk_image();
    d[2 * SECTOR + 511] = 0;
    assert!(matches!(VFat::from(MemoryDisk::new(d, 512)), Err(Error::BadSignature)));
}

#[test]
fn vfat_unsupported_sector_size() {
    let mut d = disk_image();
    put_u16(&mut d, 2 * SECTOR + 11, 0);
    match VFat::from(MemoryDisk::new(d, 512)) {
        Err(Error::Io(e)) => assert_eq!(e.kind(), ErrorKind::Other),
        Err(e) => panic!("unexpected {:?}", e),
        Ok(_) => panic!("mounted"),
    }
    assert!(check_sector_size(1024, 512).is_ok());
    assert!(check_sector_size(768, 512).is_err());
    assert!(check_sector_size(0, 512).is_err());
}

#[test]
fn read_cluster_whole_and_parts() {
    let mut v = mount();
    let mut buf = vec![0u8; 600];
    assert_eq!(v.read_cluster(Cluster(2), 0, &mut buf).unwrap(), 512);
    assert_eq!(buf[0], b'A');
    assert_eq!(buf[27], b'B');
    assert_eq!(buf[511], b'A' + (511 % 26) as u8);
    assert_eq!(buf[512], 0);

    let mut small = [0u8; 4];
    assert_eq!(v.read_cluster(Cluster(3), 26, &mut small).unwrap(), 4);
    assert_eq!(&small, b"abcd");

    let mut tail = vec![7u8; 10];
    assert_eq!(v.read_cluster(Cluster(2), 508, &mut tail).unwrap(), 4);
    assert_eq!(&tail[..4], &[b'A' + (508 % 26) as u8, b'A' + (509 % 26) as u8, b'A' + (510 % 26) as u8, b'A' + (511 % 26) as u8]);
    assert_eq!(tail[4], 7);

    let mut none = [9u8; 3];
    assert_eq!(v.read_cluster(Cluster(2), 512, &mut none).unwrap(), 0);
    assert_eq!(none, [9, 9, 9]);
}

#[test]
fn read_cluster_rejects_invalid_cluster() {
    let mut v = mount();
    let mut buf = [5u8; 8];
    match v.read_cluster(Cluster(1), 0, &mut buf) {
        Err(e) => assert_eq!(e.kind(), ErrorKind::InvalidInput),
        Ok(n) => panic!("read {}", n),
    }
    assert_eq!(buf, [5u8; 8]);
    assert!(v.read_cluster(Cluster(0x0fff_fff0), 0, &mut buf).is_err());
}

#[test]
fn read_cluster_spanning_logical_sectors() {
    // 1024-byte logical sectors on a device of 512-byte sectors, two logical
    // sectors per cluster; the partition starts at device sector 2.
    let mut d = vec![0u8; SECTOR * 16];
    d[..SECTOR].copy_from_slice(&mbr_sector(0x0b, 2));
    d[2 * SECTOR..3 * SECTOR].copy_from_slice(&ebpb_sector(1024, 2, 1, 1, 1, 0, 2));
    for i in 0..4096 {
        d[6 * SECTOR + i] = (i % 251) as u8;
    }
    let mut v = VFat::from(MemoryDisk::new(d, 512)).unwrap();
    assert_eq!(v.fat_start_sector(), 3);
    assert_eq!(v.data_start_sector(), 4);
    let mut buf = vec![0u8; 2048];
    assert_eq!(v.read_cluster(Cluster(2), 0, &mut buf).unwrap(), 2048);
    for i in 0..2048 {
        assert_eq!(buf[i], (i % 251) as u8);
    }
    let mut part = vec![0u8; 1500];
    assert_eq!(v.read_cluster(Cluster(2), 1000, &mut part).unwrap(), 1048);
    for i in 0..1048 {
        assert_eq!(part[i], ((1000 + i) % 251) as u8);
    }
    assert_eq!(part[1048], 0);
    let mut next = vec![0u8; 2048];
    assert_eq!(v.read_cluster(Cluster(3), 0, &mut next).unwrap(), 2048);
    assert_eq!(next[0], (2048 % 251) as u8);
}

#[test]
fn read_cluster_past_end_of_device() {
    let mut v = mount();
    let mut buf = [0u8; 16];
    match v.read_cluster(Cluster(100), 0, &mut buf) {
        Err(e) => assert_eq!(e.kind(), ErrorKind::UnexpectedEof),
        Ok(n) => panic!("read {}", n),
    }
}

#[test]
fn fat_entries_and_statuses() {
    let mut v = mount();
    assert_eq!(v.fat_entry(Cluster(2)).unwrap(), FatEntry(3));
    assert_eq!(v.fat_entry(Cluster(3)).unwrap().status(), Status::Eoc(0x0fff_ffff));
    assert_eq!(v.fat_entry(Cluster(4)).unwrap().status(), Status::Free);
    assert_eq!(v.fat_entry(Cluster(5)).unwrap().status(), Status::Bad);
    assert_eq!(FatEntry(1).status(), Status::Reserved);
    assert_eq!(FatEntry(0x0fff_fff3).status(), Status::Reserved);
    assert_eq!(FatEntry(0xf000_0005).status(), Status::Data(Cluster(5)));
    assert_eq!(FatEntry(0x0fff_fff8).status(), Status::Eoc(0x0fff_fff8));
}

#[test]
fn next_cluster_follows_fat() {
    let mut v = mount();
    assert_eq!(v.next_cluster(Cluster(2)).unwrap(), Some(Cluster(3)));
    assert_eq!(v.next_cluster(Cluster(3)).unwrap(), None);
    match v.next_cluster(Cluster(4)) {
        Err(e) => assert_eq!(e.kind(), ErrorKind::InvalidData),
        Ok(c) => panic!("next {:?}", c),
    }
    match v.next_cluster(Cluster(5)) {
        Err(e) => assert_eq!(e.kind(), ErrorKind::InvalidData),
        Ok(c) => panic!("next {:?}", c),
    }
    match v.next_cluster(Cluster(1)) {
        Err(e) => assert_eq!(e.kind(), ErrorKind::InvalidInput),
        Ok(c) => panic!("next {:?}", c),
    }
}

#[test]
fn next_from_entry_decides() {
    assert_eq!(next_from_entry(FatEntry(7)).unwrap(), Some(Cluster(7)));
    assert_eq!(next_from_entry(FatEntry(0x0fff_ffff)).unwrap(), None);
    assert_eq!(next_from_entry(FatEntry(0)).unwrap_err().kind(), ErrorKind::InvalidData);
    assert_eq!(next_from_entry(FatEntry(0x0fff_fff7)).unwrap_err().kind(), ErrorKind::InvalidData);
}

#[test]
fn read_chain_concatenates_clusters() {
    let mut v = mount();
    let mut buf = vec![1u8, 2];
    assert_eq!(v.read_chain(Cluster(2), &mut buf).unwrap(), 1024);
    assert_eq!(buf.len(), 1026);
    assert_eq!(&buf[..3], &[1, 2, b'A']);
    assert_eq!(buf[2 + 512], b'a');
    let mut single = Vec::new();
    assert_eq!(v.read_chain(Cluster(3), &mut single).unwrap(), 512);
    assert_eq!(single[0], b'a');
}

#[test]
fn read_chain_broken_chain() {
    let mut v = mount();
    let mut buf = Vec::new();
    assert!(v.read_chain(Cluster(4), &mut buf).is_err());
    let mut buf = Vec::new();
    match v.read_chain(Cluster(6), &mut buf) {
        Err(e) => assert_eq!(e.kind(), ErrorKind::InvalidData),
        Ok(n) => panic!("read {}", n),
    }
}

#[test]
fn io_error_from_conversions() {
    let e: mbr::Error = std::io::Error::new(ErrorKind::Other, "x").into();
    assert!(matches!(e, mbr::Error::Io(_)));
    let v: Error = mbr::Error::BadSignature.into();
    assert!(matches!(v, Error::Mbr(mbr::Error::BadSignature)));
    let w: Error = std::io::Error::new(ErrorKind::Other, "x").into();
    assert!(matches!(w, Error::Io(_)));
    assert_eq!(Cluster::from(9), Cluster(9));
}

#[test]
fn memory_disk_reads_sectors() {
    let bytes: Vec<u8> = (0..10u8).collect();
    let mut d = MemoryDisk::new(bytes, 4);
    assert_eq!(d.sector_size(), 4);
    let mut buf = [0xffu8; 6];
    assert_eq!(d.read_sector(1, &mut buf).unwrap(), 4);
    assert_eq!(buf, [4, 5, 6, 7, 0xff, 0xff]);
    assert_eq!(d.read_sector(2, &mut buf).unwrap(), 2);
    assert_eq!(&buf[..2], &[8, 9]);
    assert_eq!(d.read_sector(3, &mut buf).unwrap(), 0);
    assert_eq!(d.read_sector(u64::MAX, &mut buf).unwrap(), 0);
    let mut small = [0u8; 2];
    assert_eq!(d.read_sector(0, &mut small).unwrap(), 2);
    assert_eq!(small, [0, 1]);
}

#[test]
fn read_chain_invalid_start_leaves_buffer() {
    let mut v = mount();
    let mut buf = vec![3u8, 4];
    match v.read_chain(Cluster(0), &mut buf) {
        Err(e) => assert_eq!(e.kind(), ErrorKind::InvalidInput),
        Ok(n) => panic!("read {}", n),
    }
    assert_eq!(buf, vec![3u8, 4]);
}

#[test]
fn read_cluster_into_empty_buffer_reads_nothing() {
    let mut v = mount();
    let mut empty: [u8; 0] = [];
    assert_eq!(v.read_cluster(Cluster(2), 0, &mut empty).unwrap(), 0);
    assert_eq!(v.read_cluster(Cluster(3), 100, &mut empty).unwrap(), 0);
    let mut buf = [4u8; 2];
    assert_eq!(v.read_cluster(Cluster(3), 512, &mut buf).unwrap(), 0);
    assert_eq!(buf, [4, 4]);
}

#[test]
fn chain_step_decides_the_walk() {
    assert_eq!(chain_step(0, None), ChainStep::Done);
    assert_eq!(chain_step(0, Some(Cluster(3))), ChainStep::Continue(Cluster(3)));
    assert_eq!(chain_step(0x0fff_ffec, Some(Cluster(9))), ChainStep::Continue(Cluster(9)));
    assert_eq!(chain_step(0x0fff_ffed, Some(Cluster(9))), ChainStep::Endless);
    assert_eq!(chain_step(0x0fff_ffed, None), ChainStep::Done);
    assert_eq!(chain_step(u32::MAX, Some(Cluster(2))), ChainStep::Endless);
}

#[test]
fn read_chain_error_keeps_whole_clusters_read() {
    let mut d = disk_image();
    // cluster 3 is marked free: the chain from 2 breaks after cluster 2
    put_u32(&mut d, 4 * SECTOR + 12, 0);
    let mut v = VFat::from(MemoryDisk::new(d, 512)).unwrap();
    let mut buf = vec![8u8];
    match v.read_chain(Cluster(2), &mut buf) {
        Err(e) => assert_eq!(e.kind(), ErrorKind::InvalidData),
        Ok(n) => panic!("read {}", n),
    }
    assert_eq!(buf.len(), 1 + 512);
    assert_eq!(buf[0], 8);
    assert_eq!(buf[1], b'A');
    assert_eq!(buf[512], b'A' + (511 % 26) as u8);
}

#[test]
fn vfat_device_sectors_larger_than_logical_ones() {
    let big: usize = 0x2_0000;
    let mut d = vec![0u8; big * 3];
    d[..SECTOR].copy_from_slice(&mbr_sector(0x0c, 2));
    d[2 * big..2 * big + SECTOR].copy_from_slice(&ebpb_sector(512, 1, 2, 1, 0, 1, 2));
    match VFat::from(MemoryDisk::new(d, big as u64)) {
        Err(Error::Io(e)) => assert_eq!(e.kind(), ErrorKind::Other),
        Err(e) => panic!("unexpected {:?}", e),
        Ok(_) => panic!("mounted"),
    }
    assert!(check_sector_size(512, 0x2_0000).is_err());
    assert!(check_sector_size(4096, 4096).is_ok());
    assert!(check_sector_size(4096, 1).is_ok());
}

#[test]
fn short_device_sector_is_unexpected_eof() {
    let mut d = disk_image();
    // the device ends 100 bytes into cluster 3
    d.truncate(6 * SECTOR + 100);
    let mut v = VFat::from(MemoryDisk::new(d, 512)).unwrap();
    let mut buf = [0u8; 8];
    match v.read_cluster(Cluster(3), 0, &mut buf) {
        Err(e) => assert_eq!(e.kind(), ErrorKind::UnexpectedEof),
        Ok(n) => panic!("read {}", n),
    }
    assert_eq!(v.read_cluster(Cluster(2), 0, &mut buf).unwrap(), 8);
    let mut chain = Vec::new();
    match v.read_chain(Cluster(2), &mut chain) {
        Err(e) => assert_eq!(e.kind(), ErrorKind::UnexpectedEof),
        Ok(n) => panic!("read {}", n),
    }
    assert_eq!(chain.len(), 512);
    assert_eq!(chain[0], b'A');
}
