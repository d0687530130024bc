use kernel::device::block::{Block, BlockIO, RamDisk};
use kernel::fs::fat::{fat_type, DirectoryEntry, FATType, FAT32Header, FsInfo};
use kernel::fs::fat32::FAT32;
use kernel::fs::{
    create_dir_at, create_file_at, create_file_path, dir_path, finish_open, format_geometry_ok, format_partition,
    mount_partitions, open_dir_at, open_dir_plan, open_dir_with_mode, open_file_at, open_plan, open_with_mode,
    parse_mode, rooted_path, split_path, walk_dirs, FileDescriptor, FilePlan, FsError, OpenMode,
};

#[test]
fn open_modes() {
    let m = parse_mode(b"r");
    assert!(m.read && !m.write && !m.append);
    let m = parse_mode(b"W");
    assert!(!m.read && m.write && !m.append);
    let m = parse_mode(b"a+x");
    assert!(!m.read && m.write && m.append);
    let m = parse_mode(b"");
    assert!(!m.read && !m.write && !m.append);
}

#[test]
fn open_plans() {
    let read = OpenMode { read: true, write: false, append: false };
    let write = OpenMode { read: false, write: true, append: false };
    assert!(open_plan(true, read) == FilePlan::Use);
    assert!(open_plan(true, write) == FilePlan::Shrink);
    assert!(open_plan(false, write) == FilePlan::Create);
    assert!(open_plan(false, read) == FilePlan::Fail(FsError::CannotFindFile));
    assert!(open_dir_plan(true, write) == FilePlan::Use);
    assert!(open_dir_plan(false, write) == FilePlan::Create);
    assert!(open_dir_plan(false, read) == FilePlan::Fail(FsError::CannotFindDirectory));
}

#[test]
fn append_starts_at_the_end() {
    let mut f = FileDescriptor { file_start_idx: 3, file_current_idx: 3, dir_idx: 2, dir_offset: 0, file_size: 42, ptr: 0 };
    finish_open(&mut f, OpenMode { read: false, write: true, append: false });
    assert_eq!(f.ptr, 0);
    finish_open(&mut f, OpenMode { read: false, write: true, append: true });
    assert_eq!(f.ptr, 42);
}

#[test]
fn error_messages() {
    assert_eq!(FsError::CannotFindFile.message(), "Cannot Find File");
    assert_eq!(FsError::FileShrinkFailed.message(), "File Shrink Failed");
    assert_eq!(FsError::FileCreationFailed.message(), "File Creation Failed");
    assert_eq!(FsError::CannotFindDirectory.message(), "Cannot Find Directory");
    assert_eq!(FsError::DirectoryCreateFailed.message(), "Directory Create Failed");
    assert_eq!(FsError::DeviceNotFound.message(), "Device Not Found");
    assert_eq!(FsError::ReadFailed.message(), "Read Failed");
    assert_eq!(FsError::FormatFailed.message(), "File System Format Failed");
}

fn strings(v: &[Vec<u8>]) -> Vec<String> {
    v.iter().map(|p| String::from_utf8(p.clone()).unwrap()).collect()
}

#[test]
fn path_pieces() {
    assert_eq!(strings(&split_path(b"/a/bc/d")), vec!["", "a", "bc", "d"]);
    assert_eq!(strings(&split_path(b"abc")), vec!["abc"]);
    assert_eq!(strings(&split_path(b"a//")), vec!["a", "", ""]);
    assert_eq!(strings(&split_path(b"")), vec![""]);

    let (dirs, name) = create_file_path("/usr/bin/ls");
    assert_eq!(strings(&dirs), vec!["usr", "bin"]);
    assert_eq!(name, b"ls".to_vec());
    let (dirs, name) = create_file_path("file");
    assert!(dirs.is_empty());
    assert_eq!(name, b"file".to_vec());

    let (dirs, name) = rooted_path("/usr/bin/ls");
    assert_eq!(strings(&dirs), vec!["usr", "bin"]);
    assert_eq!(name, b"ls".to_vec());
    let (dirs, name) = rooted_path("/x");
    assert!(dirs.is_empty());
    assert_eq!(name, b"x".to_vec());

    assert!(dir_path("/").is_empty());
    assert_eq!(strings(&dir_path("/a/b")), vec!["a", "b"]);
}

#[test]
fn boot_sector_fields() {
    let mut h = FAT32Header::empty();
    h.block.write_u16_at(11, 512);
    h.block.set_u8(13, 8);
    h.block.write_u16_at(14, 32);
    h.block.write_u32_at(32, 8000);
    h.block.write_u32_at(36, 8);
    h.block.write_u32_at(44, 2);
    assert_eq!(h.byte_per_sector(), 512);
    assert_eq!(h.sector_per_clustor(), 8);
    assert_eq!(h.reserved_sector_count(), 32);
    assert_eq!(h.total_sector32(), 8000);
    assert_eq!(h.fat_size(), 8);
    assert_eq!(h.root_directory_clustor(), 2);
    assert!(fat_type(&h.as_block()) == FATType::FAT32);
    let mut fat16 = Block::empty();
    fat16.write_u16_at(22, 9);
    assert!(fat_type(&fat16) == FATType::FAT16);

    let mut info = FsInfo::empty();
    info.block.write_u32_at(488, 77);
    info.block.write_u32_at(492, 5);
    assert_eq!(info.free_clustor_count(), 77);
    assert_eq!(info.next_free_clustor(), 5);
}

#[test]
fn directory_entry_round_trip() {
    let mut e = DirectoryEntry::empty();
    assert_eq!(e.name, [b' '; 11]);
    assert_eq!(e.start_cluster_idx(), 0);
    e.name = *b"README  TXT";
    e.attr = 1;
    e.set_start_cluster_idx(0x0012_3456);
    assert_eq!((e.cluster_high, e.cluster_low), (0x12, 0x3456));
    e.file_size = 1234;
    let mut b = Block::empty();
    e.write_to_block(&mut b, 64);
    assert_eq!(&b.bytes[64..75], b"README  TXT");
    assert_eq!(b.bytes[63], 0);
    assert_eq!(b.bytes[96], 0);
    let back = DirectoryEntry::from_block(&b, 64);
    assert_eq!(back.name, e.name);
    assert_eq!(back.attr, 1);
    assert_eq!(back.start_cluster_idx(), 0x0012_3456);
    assert_eq!(back.file_size, 1234);
}

#[test]
fn format_geometry() {
    assert!(format_geometry_ok(3, 8000));
    assert!(!format_geometry_ok(3, 31));
    assert!(!format_geometry_ok(3, 40));
    assert!(!format_geometry_ok(u32::MAX - 10, 8000));
}

fn formatted(use_cache: bool) -> (RamDisk, FAT32) {
    let mut disk = RamDisk::new(8192 * 512);
    let fs = format_partition(&mut disk, 8000, use_cache).unwrap();
    (disk, fs)
}

#[test]
fn format_lays_out_the_volume() {
    let (mut disk, fs) = formatted(false);
    assert_eq!(fs.start_addr, 3);
    assert_eq!(fs.volume_size, 8000);
    assert_eq!(fs.fat_size, 8);
    assert_eq!(fs.fat_addr, 35);
    assert_eq!(fs.fat2_addr, 43);
    assert_eq!(fs.data_addr, 51);
    assert_eq!(fs.free_cluster_count, 993);
    assert_eq!(fs.next_free_cluster, 3);
    assert_eq!(fs.root_directory_cluster, 2);
    assert!(fs.is_supported());
    assert_eq!(fs.cluster_size(), 4096);

    let mut b = vec![Block::empty()];
    disk.read(0, &mut b).unwrap();
    let p = b[0].mbr().partition(0);
    assert_eq!((p.type_(), p.start_address(), p.size()), (0x80, 3, 8000));
    disk.read(35, &mut b).unwrap();
    assert_eq!(b[0].get_u32(2), 0x0FFF_FFFF);
    assert_eq!(b[0].get_u32(3), 0);

    // the boot sector is looked for at block 0, the partition table, which
    // reads as FAT32; the volume itself is then mounted at its start
    let volumes = mount_partitions(&mut disk, false).unwrap();
    assert_eq!(volumes.len(), 1);
    assert_eq!(volumes[0].fat_addr, 35);
    assert_eq!(volumes[0].data_addr, 51);
    assert_eq!(volumes[0].next_free_cluster, 3);
}

#[test]
fn format_refuses_a_tiny_device() {
    let mut disk = RamDisk::new(2 * 512);
    assert!(matches!(format_partition(&mut disk, 100, false), Err(FsError::FormatFailed)));
    let mut small = RamDisk::new(20 * 512);
    assert!(matches!(format_partition(&mut small, 100, false), Err(FsError::FormatFailed)));
}

fn file_round_trip(use_cache: bool) {
    let (mut disk, mut fs) = formatted(use_cache);
    let root = fs.root_dir(&mut disk).unwrap();
    assert_eq!((root.file_start_idx, root.dir_idx, root.dir_offset), (2, 0, 0));
    let mut f = fs.create(&mut disk, &root, "HELLO   TXT").unwrap();
    assert_eq!((f.file_start_idx, f.dir_offset, f.file_size, f.ptr), (3, 0, 0, 0));
    assert_eq!(fs.write(&mut disk, &mut f, &b"hello, world".to_vec()), Ok(12));
    assert_eq!((f.ptr, f.file_size), (12, 12));

    let mut g = fs.open(&mut disk, &root, "HELLO   TXT").unwrap();
    assert_eq!((g.file_start_idx, g.file_size, g.ptr), (3, 12, 0));
    let mut buf = vec![0u8; 12];
    assert_eq!(fs.read(&mut disk, &mut g, &mut buf), Ok(12));
    assert_eq!(buf, b"hello, world".to_vec());
    assert_eq!(g.ptr, 12);

    let list = fs.list_entry(&mut disk, &root).unwrap();
    assert_eq!(list, vec![(0usize, "HELLO   TXT".to_string())]);
    assert!(fs.open(&mut disk, &root, "OTHER   TXT").is_err());
    fs.flush(&mut disk);
}

#[test]
fn file_round_trip_without_cache() {
    file_round_trip(false);
}

#[test]
fn file_round_trip_with_cache() {
    file_round_trip(true);
}

#[test]
fn second_file_takes_the_next_slot_and_cluster() {
    let (mut disk, mut fs) = formatted(false);
    let root = fs.root_dir(&mut disk).unwrap();
    let a = fs.create(&mut disk, &root, "A").unwrap();
    let b = fs.create(&mut disk, &root, "B").unwrap();
    assert_eq!((a.dir_offset, a.file_start_idx), (0, 3));
    assert_eq!((b.dir_offset, b.file_start_idx), (1, 4));
    let names: Vec<usize> = fs.list_entry(&mut disk, &root).unwrap().iter().map(|e| e.0).collect();
    assert_eq!(names, vec![0, 1]);
    fs.remove(&mut disk, a).unwrap();
    let names: Vec<usize> = fs.list_entry(&mut disk, &root).unwrap().iter().map(|e| e.0).collect();
    assert_eq!(names, vec![1]);
}

#[test]
fn shrink_empties_a_file() {
    let (mut disk, mut fs) = formatted(false);
    let root = fs.root_dir(&mut disk).unwrap();
    let mut f = fs.create(&mut disk, &root, "LOG").unwrap();
    fs.write(&mut disk, &mut f, &vec![7u8; 100]).unwrap();
    fs.shrink(&mut disk, &mut f).unwrap();
    assert_eq!((f.file_size, f.file_current_idx), (0, 3));
    let g = fs.open(&mut disk, &root, "LOG").unwrap();
    assert_eq!(g.file_size, 0);
}

#[test]
fn directories() {
    let (mut disk, mut fs) = formatted(false);
    let root = fs.root_dir(&mut disk).unwrap();
    let d = fs.create_dir(&mut disk, &root, "SUB").unwrap();
    assert_eq!((d.file_start_idx, d.dir_idx, d.dir_offset), (3, 2, 0));
    // a file by that name is not a directory, and the other way round
    let f = fs.create(&mut disk, &root, "FILE").unwrap();
    assert!(fs.open_dir(&mut disk, &root, "FILE").is_err());
    assert!(fs.open(&mut disk, &root, "FILE").is_ok());
    assert!(fs.remove_dir(&mut disk, root).is_err());
    assert_eq!(f.dir_offset, 1);
}

#[test]
fn paths_on_a_volume() {
    let (mut disk, mut fs) = formatted(false);
    let f = create_file_at(&mut fs, &mut disk, "/NOTE").unwrap();
    assert_eq!((f.file_start_idx, f.dir_idx, f.file_size, f.ptr), (3, 2, 0, 0));
    let mut g = open_file_at(&mut fs, &mut disk, "/NOTE").unwrap();
    assert_eq!((g.file_start_idx, g.dir_offset), (3, 0));
    assert_eq!(fs.write(&mut disk, &mut g, &b"abc".to_vec()), Ok(3));
    // a directory on the way that is not there
    assert!(open_file_at(&mut fs, &mut disk, "/SUB/NOTE").is_err());
    let root = fs.root_dir(&mut disk).unwrap();
    assert!(walk_dirs(&mut fs, &mut disk, root, &vec![b"SUB".to_vec()]).is_err());
    let same = walk_dirs(&mut fs, &mut disk, root, &vec![]).unwrap();
    assert!(same == root);

    assert!(matches!(open_with_mode(&mut fs, &mut disk, "/MISSING", b"r"), Err(FsError::CannotFindFile)));
    let r = open_with_mode(&mut fs, &mut disk, "/NOTE", b"r").unwrap();
    assert_eq!((r.file_size, r.ptr), (3, 0));
    // appending writes, and a file opened for writing is emptied first
    let a = open_with_mode(&mut fs, &mut disk, "/NOTE", b"a").unwrap();
    assert_eq!((a.file_size, a.ptr), (0, 0));
    let n = open_with_mode(&mut fs, &mut disk, "/NEW", b"w").unwrap();
    assert_eq!((n.file_start_idx, n.dir_offset), (4, 1));

    let (dir, entries) = open_dir_at(&mut fs, &mut disk, "/").unwrap();
    assert_eq!(dir.file_start_idx, 2);
    assert_eq!(entries.iter().map(|e| e.0).collect::<Vec<_>>(), vec![0, 1]);
    assert!(matches!(open_dir_with_mode(&mut fs, &mut disk, "/X", b"r"), Err(FsError::CannotFindDirectory)));
    let (made, listed) = open_dir_with_mode(&mut fs, &mut disk, "/X", b"w").unwrap();
    assert_eq!((made.file_start_idx, made.dir_idx, made.dir_offset), (5, 2, 2));
    assert!(listed.is_empty());
    let (again, _) = create_dir_at(&mut fs, &mut disk, "/Y").unwrap();
    assert_eq!(again.file_start_idx, 6);
}

#[test]
fn read_stops_at_the_end_of_the_chain() {
    let (mut disk, mut fs) = formatted(false);
    let root = fs.root_dir(&mut disk).unwrap();
    let mut f = fs.create(&mut disk, &root, "ONE").unwrap();
    assert_eq!(fs.write(&mut disk, &mut f, &b"0123456789".to_vec()), Ok(10));
    let mut g = fs.open(&mut disk, &root, "ONE").unwrap();
    let mut buf = vec![0xAAu8; 5000];
    // the file has one cluster: the read ends at its last byte, which is
    // stored but not counted, and the position stays on it
    assert_eq!(fs.read(&mut disk, &mut g, &mut buf), Ok(4095));
    assert_eq!(&buf[..10], b"0123456789");
    assert!(buf[10..4096].iter().all(|&b| b == 0));
    assert!(buf[4096..].iter().all(|&b| b == 0xAA));
    assert_eq!(g.ptr, 4095);
    assert_eq!(g.file_current_idx, 0x0FFF_FFFF);
}

#[test]
fn mount_reads_a_formatted_volume() {
    let (mut disk, _) = formatted(false);
    let fs = FAT32::mount(&mut disk, 3, 8000, false).unwrap();
    assert_eq!((fs.fat_addr, fs.data_addr, fs.next_free_cluster, fs.root_directory_cluster), (35, 51, 3, 2));
    // the boot sector lies past the device
    assert!(FAT32::mount(&mut disk, 9000, 8000, false).is_err());
    // block 0 holds the partition table: it mounts, with a geometry the
    // file operations do not take
    let odd = FAT32::mount(&mut disk, 0, 8000, false).unwrap();
    assert_eq!(odd.sector_per_cluster, 0);
    assert!(!odd.is_supported());
}

#[test]
fn remove_frees_every_cluster_of_a_file() {
    let (mut disk, mut fs) = formatted(false);
    let root = fs.root_dir(&mut disk).unwrap();
    let mut f = fs.create(&mut disk, &root, "BIG").unwrap();
    assert_eq!(fs.write(&mut disk, &mut f, &vec![1u8; 9000]), Ok(9000));
    let mut table = vec![Block::empty()];
    disk.read(35 + 3, &mut table).unwrap();
    assert_ne!(table[0].get_u32(3), 0);
    let g = fs.open(&mut disk, &root, "BIG").unwrap();
    assert_eq!(fs.remove(&mut disk, g), Ok(()));
    for c in 3..6u32 {
        disk.read(35 + c, &mut table).unwrap();
        assert_eq!(table[0].get_u32(c as usize), 0);
    }
    assert!(fs.open(&mut disk, &root, "BIG").is_err());
    assert!(fs.list_entry(&mut disk, &root).unwrap().is_empty());
}

#[test]
fn listing_refuses_a_name_that_is_not_ascii() {
    let (mut disk, mut fs) = formatted(false);
    let root = fs.root_dir(&mut disk).unwrap();
    fs.create(&mut disk, &root, "\u{e9}T\u{e9}").unwrap();
    assert!(fs.list_entry(&mut disk, &root).is_err());
}

#[test]
fn an_empty_directory_is_removed() {
    let (mut disk, mut fs) = formatted(false);
    let root = fs.root_dir(&mut disk).unwrap();
    let d = fs.create_dir(&mut disk, &root, "SUB").unwrap();
    let mut table = vec![Block::empty()];
    disk.read(35 + 3, &mut table).unwrap();
    assert_eq!(table[0].get_u32(3), 0x0FFF_FFFF);
    assert_eq!(fs.remove_dir(&mut disk, d), Ok(()));
    disk.read(35 + 3, &mut table).unwrap();
    assert_eq!(table[0].get_u32(3), 0);
    assert!(fs.open_dir(&mut disk, &root, "SUB").is_err());
}

#[test]
fn flush_writes_cached_sectors_to_the_device() {
    let (mut disk, mut fs) = formatted(true);
    let root = fs.root_dir(&mut disk).unwrap();
    let mut f = fs.create(&mut disk, &root, "KEPT").unwrap();
    assert_eq!(fs.write(&mut disk, &mut f, &b"cached".to_vec()), Ok(6));
    fs.flush(&mut disk);
    let mut plain = FAT32::mount(&mut disk, 3, 8000, false).unwrap();
    let mut g = plain.open(&mut disk, &root, "KEPT").unwrap();
    assert_eq!(g.file_size, 6);
    let mut buf = vec![0u8; 6];
    assert_eq!(plain.read(&mut disk, &mut g, &mut buf), Ok(6));
    assert_eq!(buf, b"cached".to_vec());
}

fn spanning_round_trip(use_cache: bool) {
    let (mut disk, mut fs) = formatted(use_cache);
    let root = fs.root_dir(&mut disk).unwrap();
    let mut f = fs.create(&mut disk, &root, "BIG").unwrap();
    let data: Vec<u8> = (0..9000u32).map(|i| (i % 251) as u8).collect();
    assert_eq!(fs.write(&mut disk, &mut f, &data), Ok(9000));
    assert_eq!((f.ptr, f.file_size), (9000, 9000));
    // the chain grew from cluster 3 with the next free clusters
    assert_eq!(f.file_current_idx, 5);

    let mut g = fs.open(&mut disk, &root, "BIG").unwrap();
    let mut buf = vec![0u8; 9000];
    assert_eq!(fs.read(&mut disk, &mut g, &mut buf), Ok(9000));
    assert_eq!(buf, data);
    assert_eq!((g.ptr, g.file_current_idx), (9000, 5));

    // a second write over the start of the file, crossing a cluster end
    let mut h = fs.open(&mut disk, &root, "BIG").unwrap();
    let mut skip = vec![0u8; 4000];
    assert_eq!(fs.read(&mut disk, &mut h, &mut skip), Ok(4000));
    assert_eq!(fs.write(&mut disk, &mut h, &vec![7u8; 200]), Ok(200));
    let mut k = fs.open(&mut disk, &root, "BIG").unwrap();
    let mut again = vec![0u8; 9000];
    assert_eq!(fs.read(&mut disk, &mut k, &mut again), Ok(9000));
    assert_eq!(&again[..4000], &data[..4000]);
    assert!(again[4000..4200].iter().all(|&b| b == 7));
    assert_eq!(&again[4200..], &data[4200..]);
}

#[test]
fn writes_spanning_clusters_read_back_without_cache() {
    spanning_round_trip(false);
}

#[test]
fn writes_spanning_clusters_read_back_with_cache() {
    spanning_round_trip(true);
}

#[test]
fn format_partition_clamps_the_size_and_writes_the_table() {
    let mut disk = RamDisk::new(8192 * 512);
    let mut b = vec![Block::empty()];
    b[0].set_u8(0, 0xEB);
    disk.write(0, &b).unwrap();
    let fs = format_partition(&mut disk, 100_000, false).unwrap();
    assert_eq!((fs.start_addr, fs.volume_size), (3, 8189));
    disk.read(0, &mut b).unwrap();
    let p = b[0].mbr().partition(0);
    assert_eq!((p.type_(), p.start_address(), p.size()), (0x80, 3, 8189));
    // the rest of block 0 is kept
    assert_eq!(b[0].get_u8(0), 0xEB);
    // the size asked when it fits
    let mut other = RamDisk::new(8192 * 512);
    assert_eq!(format_partition(&mut other, 4000, true).unwrap().volume_size, 4000);
    // a size left that takes no volume
    let mut small = RamDisk::new(10 * 512);
    assert!(matches!(format_partition(&mut small, 4000, false), Err(FsError::FormatFailed)));
    small.read(0, &mut b).unwrap();
    assert_eq!(b[0].mbr().partition(0).size(), 7);
}
