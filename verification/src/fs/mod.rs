//! The file system layer: FAT32 volumes on block devices, the descriptors of
//! open files and directories, and the parsing of open modes and paths.
use vstd::prelude::*;
use vstd::string::StringSliceAdditionalSpecFns;
use crate::device::block::{Block, BlockIO, BLOCK_SIZE, MBRPartionEntry, MBR_PARTITION_TABLE, partition_at, ram_read, same_device, serving};
use fat::{fat_type, spec_fat_size16, FATType};
use fat32::{
    cluster_ready, coherent, dir_blocks_start, dir_entry_attr, dir_entry_cluster, dir_entry_name, dir_full, dir_listing, dir_served,
    fat_entry_addr, fat_next, first_free, first_named, format_fat_size, format_fits, lemma_first_named_unique, lemma_same_layout, name_matches, named_with_attr,
    names_ascii, FAT32,
};

pub mod fat;
pub mod fat32;

verus! {

/// Where an open file lives and where its reader stands: its first and
/// current cluster, the directory cluster and slot of its entry, its size
/// and the byte position.
#[derive(Clone, Copy, PartialEq, Eq, Structural)]
pub struct FileDescriptor {
    pub file_start_idx: u32,
    pub file_current_idx: u32,
    pub dir_idx: u32,
    pub dir_offset: u32,
    pub file_size: u32,
    pub ptr: u32,
}

/// An open directory: its first cluster and where its own entry lives.
#[derive(Clone, Copy, PartialEq, Eq, Structural)]
pub struct DirectoryDescriptor {
    pub file_start_idx: u32,
    pub dir_idx: u32,
    pub dir_offset: u32,
}


/// How a file or directory is opened: the letters r, w and a in either case;
/// appending implies writing.
#[derive(Clone, Copy, PartialEq, Eq, Structural)]
pub struct OpenMode {
    pub read: bool,
    pub write: bool,
    pub append: bool,
}

/// Whether the mode string holds letter `a` or `b`.
pub open spec fn mode_has(mode: Seq<u8>, a: u8, b: u8) -> bool {
    exists|i: int| 0 <= i < mode.len() && (mode[i] == a || mode[i] == b)
}

/// The mode a string names; other characters are ignored.
pub fn parse_mode(mode: &[u8]) -> (r: OpenMode)
    ensures
        r.read == mode_has(mode@, 0x72, 0x52),
        r.append == mode_has(mode@, 0x61, 0x41),
        r.write == (mode_has(mode@, 0x77, 0x57) || mode_has(mode@, 0x61, 0x41)),
{
    let mut read = false;
    let mut write = false;
    let mut append = false;
    let mut i: usize = 0;
    while i < mode.len()
        invariant
            i <= mode@.len(),
            read == mode_has(mode@.subrange(0, i as int), 0x72, 0x52),
            write == mode_has(mode@.subrange(0, i as int), 0x77, 0x57),
            append == mode_has(mode@.subrange(0, i as int), 0x61, 0x41),
        decreases mode@.len() - i,
    {
        let c = mode[i];
        proof {
            let s0 = mode@.subrange(0, i as int);
            let s1 = mode@.subrange(0, i + 1);
            assert(s1 =~= s0.push(c));
            assert forall|a: u8, b: u8| mode_has(s1, a, b) == (mode_has(s0, a, b) || c == a || c == b) by {
                if mode_has(s1, a, b) {
                    let k = choose|k: int| 0 <= k < s1.len() && (s1[k] == a || s1[k] == b);
                    if k < s0.len() {
                        assert(s0[k] == s1[k]);
                    }
                }
                if mode_has(s0, a, b) {
                    let k = choose|k: int| 0 <= k < s0.len() && (s0[k] == a || s0[k] == b);
                    assert(s1[k] == s0[k]);
                }
                if c == a || c == b {
                    assert(s1[i as int] == c);
                }
            }
        }
        if c == 0x72 || c == 0x52 {
            read = true;
        } else if c == 0x77 || c == 0x57 {
            write = true;
        } else if c == 0x61 || c == 0x41 {
            append = true;
        }
        i = i + 1;
    }
    proof {
        assert(mode@.subrange(0, i as int) =~= mode@);
    }
    OpenMode { read, write: write || append, append }
}

/// Why opening a file or directory failed.
#[derive(Clone, Copy, Debug, PartialEq, Eq, Structural)]
pub enum FsError {
    CannotFindFile,
    FileShrinkFailed,
    FileCreationFailed,
    CannotFindDirectory,
    DirectoryCreateFailed,
    DeviceNotFound,
    ReadFailed,
    FormatFailed,
}

/// The message the kernel reports for an error.
pub open spec fn error_text(e: FsError) -> Seq<char> {
    match e {
        FsError::CannotFindFile => "Cannot Find File"@,
        FsError::FileShrinkFailed => "File Shrink Failed"@,
        FsError::FileCreationFailed => "File Creation Failed"@,
        FsError::CannotFindDirectory => "Cannot Find Directory"@,
        FsError::DirectoryCreateFailed => "Directory Create Failed"@,
        FsError::DeviceNotFound => "Device Not Found"@,
        FsError::ReadFailed => "Read Failed"@,
        FsError::FormatFailed => "File System Format Failed"@,
    }
}

impl FsError {
    /// The message the kernel reports.
    pub fn message(&self) -> (r: &'static str)
        ensures
            r@ == error_text(*self),
    {
        match self {
            FsError::CannotFindFile => "Cannot Find File",
            FsError::FileShrinkFailed => "File Shrink Failed",
            FsError::FileCreationFailed => "File Creation Failed",
            FsError::CannotFindDirectory => "Cannot Find Directory",
            FsError::DirectoryCreateFailed => "Directory Create Failed",
            FsError::DeviceNotFound => "Device Not Found",
            FsError::ReadFailed => "Read Failed",
            FsError::FormatFailed => "File System Format Failed",
        }
    }
}

/// What opening a file does once the search has answered.
#[derive(Clone, Copy, PartialEq, Eq, Structural)]
pub enum FilePlan {
    /// Use the file found.
    Use,
    /// Empty the file found, for writing.
    Shrink,
    /// Create the file, for writing.
    Create,
    /// Fail: nothing found and nothing to write.
    Fail(FsError),
}

/// A file found is emptied when opened for writing; a file not found is
/// created when opened for writing, else the open fails.
pub fn open_plan(found: bool, mode: OpenMode) -> (r: FilePlan)
    ensures
        r == (if found {
            if mode.write { FilePlan::Shrink } else { FilePlan::Use }
        } else if mode.write {
            FilePlan::Create
        } else {
            FilePlan::Fail(FsError::CannotFindFile)
        }),
{
    if found {
        if mode.write { FilePlan::Shrink } else { FilePlan::Use }
    } else if mode.write {
        FilePlan::Create
    } else {
        FilePlan::Fail(FsError::CannotFindFile)
    }
}

/// A directory not found is created when opened for writing, else the open
/// fails.
pub fn open_dir_plan(found: bool, mode: OpenMode) -> (r: FilePlan)
    ensures
        r == (if found {
            FilePlan::Use
        } else if mode.write {
            FilePlan::Create
        } else {
            FilePlan::Fail(FsError::CannotFindDirectory)
        }),
{
    if found {
        FilePlan::Use
    } else if mode.write {
        FilePlan::Create
    } else {
        FilePlan::Fail(FsError::CannotFindDirectory)
    }
}

/// A file opened for appending starts at its end.
pub fn finish_open(file: &mut FileDescriptor, mode: OpenMode)
    ensures
        mode.append ==> *final(file) == (FileDescriptor { ptr: old(file).file_size, ..*old(file) }),
        !mode.append ==> *final(file) == *old(file),
{
    if mode.append {
        file.ptr = file.file_size;
    }
}

/// Where the first `/` of a path lies.
pub open spec fn first_slash(s: Seq<u8>) -> Option<int>
    decreases s.len(),
{
    if s.len() == 0 {
        None
    } else if s[0] == 0x2F {
        Some(0)
    } else {
        match first_slash(s.drop_first()) {
            Some(i) => Some(i + 1),
            None => None,
        }
    }
}

/// The pieces of a path between its slashes, empty ones included.
pub open spec fn split_path_spec(s: Seq<u8>) -> Seq<Seq<u8>>
    decreases s.len(),
{
    match first_slash(s) {
        None => seq![s],
        Some(i) => if 0 <= i < s.len() {
            seq![s.subrange(0, i)] + split_path_spec(s.subrange(i + 1, s.len() as int))
        } else {
            seq![s]
        },
    }
}

proof fn lemma_first_slash_bound(s: Seq<u8>)
    ensures
        first_slash(s) matches Some(i) ==> 0 <= i < s.len() && s[i] == 0x2F,
    decreases s.len(),
{
    if s.len() > 0 && s[0] != 0x2F {
        lemma_first_slash_bound(s.drop_first());
    }
}

/// A piece without a slash before a slash is the first piece.
proof fn lemma_split_at_slash(cur: Seq<u8>, t: Seq<u8>)
    requires
        forall|i: int| 0 <= i < cur.len() ==> cur[i] != 0x2F,
        t.len() > 0,
        t[0] == 0x2F,
    ensures
        first_slash(cur + t) == Some(cur.len() as int),
    decreases cur.len(),
{
    if cur.len() > 0 {
        assert((cur + t).drop_first() =~= cur.drop_first() + t);
        lemma_split_at_slash(cur.drop_first(), t);
    } else {
        assert(cur + t =~= t);
    }
}

/// A path without slashes is one piece.
proof fn lemma_no_slash(cur: Seq<u8>)
    requires
        forall|i: int| 0 <= i < cur.len() ==> cur[i] != 0x2F,
    ensures
        first_slash(cur) is None,
    decreases cur.len(),
{
    if cur.len() > 0 {
        lemma_no_slash(cur.drop_first());
    }
}

/// The pieces of a path between its slashes.
pub fn split_path(path: &[u8]) -> (r: Vec<Vec<u8>>)
    ensures
        r@.map_values(|p: Vec<u8>| p@) == split_path_spec(path@),
{
    let ghost s = path@;
    let mut parts: Vec<Vec<u8>> = Vec::new();
    let mut cur: Vec<u8> = Vec::new();
    let mut i: usize = 0;
    proof {
        assert(cur@ + s.subrange(0, s.len() as int) =~= s);
        assert(parts@.map_values(|p: Vec<u8>| p@) =~= Seq::<Seq<u8>>::empty());
        assert(Seq::<Seq<u8>>::empty() + split_path_spec(s) =~= split_path_spec(s));
    }
    while i < path.len()
        invariant
            s == path@,
            i <= s.len(),
            forall|k: int| 0 <= k < cur@.len() ==> cur@[k] != 0x2F,
            parts@.map_values(|p: Vec<u8>| p@) + split_path_spec(cur@ + s.subrange(i as int, s.len() as int))
                == split_path_spec(s),
        decreases s.len() - i,
    {
        let c = path[i];
        let ghost rest = s.subrange(i as int, s.len() as int);
        if c == 0x2F {
            proof {
                lemma_split_at_slash(cur@, rest);
                let whole = cur@ + rest;
                assert(whole.subrange(0, cur@.len() as int) =~= cur@);
                assert(whole.subrange(cur@.len() as int + 1, whole.len() as int) =~= s.subrange(i + 1, s.len() as int));
                assert(split_path_spec(whole) == seq![cur@] + split_path_spec(s.subrange(i + 1, s.len() as int)));
            }
            let ghost before = parts@.map_values(|p: Vec<u8>| p@);
            parts.push(cur);
            cur = Vec::new();
            proof {
                assert(parts@.map_values(|p: Vec<u8>| p@) =~= before.push(parts@[parts@.len() - 1]@));
                assert(Seq::<u8>::empty() + s.subrange(i + 1, s.len() as int) =~= s.subrange(i + 1, s.len() as int));
                assert(before.push(parts@[parts@.len() - 1]@) + split_path_spec(s.subrange(i + 1, s.len() as int))
                    =~= before + (seq![parts@[parts@.len() - 1]@] + split_path_spec(s.subrange(i + 1, s.len() as int))));
            }
        } else {
            let ghost old_cur = cur@;
            cur.push(c);
            proof {
                assert(old_cur + rest =~= cur@ + s.subrange(i + 1, s.len() as int));
            }
        }
        i = i + 1;
    }
    proof {
        lemma_no_slash(cur@);
        assert(cur@ + s.subrange(i as int, s.len() as int) =~= cur@);
    }
    let ghost before = parts@.map_values(|p: Vec<u8>| p@);
    parts.push(cur);
    proof {
        assert(parts@.map_values(|p: Vec<u8>| p@) =~= before + seq![parts@[parts@.len() - 1]@]);
    }
    parts
}

/// The directories to walk and the name to create for a file path: the
/// pieces between the first and the last, and the last.
pub fn create_file_path(path: &str) -> (r: (Vec<Vec<u8>>, Vec<u8>))
    ensures
        ({
            let parts = split_path_spec(path.spec_bytes());
            &&& r.1@ == parts.last()
            &&& r.0@.map_values(|p: Vec<u8>| p@) == (if parts.len() >= 2 { parts.subrange(1, parts.len() - 1) } else { Seq::empty() })
        }),
{
    let bytes = path.as_bytes();
    let mut parts = split_path(bytes);
    proof {
        lemma_split_nonempty(bytes@);
    }
    let ghost all = parts@.map_values(|p: Vec<u8>| p@);
    let name = parts.pop().unwrap();
    let mut dirs: Vec<Vec<u8>> = Vec::new();
    let mut k: usize = 1;
    proof {
        assert(dirs@.map_values(|p: Vec<u8>| p@) =~= all.subrange(1, 1));
    }
    while k < parts.len()
        invariant
            1 <= k,
            k <= parts@.len() || k == 1,
            all.len() == parts@.len() + 1,
            forall|j: int| 0 <= j < parts@.len() ==> parts@[j]@ == all[j],
            dirs@.map_values(|p: Vec<u8>| p@) == all.subrange(1, k as int),
        decreases parts@.len() - k,
    {
        let ghost before = dirs@.map_values(|p: Vec<u8>| p@);
        let piece = crate::util::copy_vec(&parts[k]);
        let ghost piece_view = piece@;
        dirs.push(piece);
        proof {
            assert(piece_view == all[k as int]);
            assert(dirs@.map_values(|p: Vec<u8>| p@) =~= before.push(piece_view));
            assert(all.subrange(1, k + 1) =~= all.subrange(1, k as int).push(all[k as int]));
        }
        k = k + 1;
    }
    proof {
        if all.len() >= 2 {
            assert(dirs@.map_values(|p: Vec<u8>| p@) =~= all.subrange(1, all.len() - 1));
        } else {
            assert(dirs@.map_values(|p: Vec<u8>| p@) =~= Seq::<Seq<u8>>::empty());
        }
    }
    (dirs, name)
}

proof fn lemma_split_nonempty(s: Seq<u8>)
    ensures
        split_path_spec(s).len() >= 1,
    decreases s.len(),
{
    lemma_first_slash_bound(s);
    if let Some(i) = first_slash(s) {
        lemma_split_nonempty(s.subrange(i + 1, s.len() as int));
    }
}

/// The pieces of a path after its first byte: the directories to walk, all
/// but the last, and the last, the name to open or create.
pub fn rooted_path(path: &str) -> (r: (Vec<Vec<u8>>, Vec<u8>))
    requires
        path.spec_bytes().len() >= 1,
    ensures
        ({
            let parts = split_path_spec(path.spec_bytes().subrange(1, path.spec_bytes().len() as int));
            &&& r.1@ == parts.last()
            &&& r.0@.map_values(|p: Vec<u8>| p@) == parts.drop_last()
        }),
{
    let bytes = path.as_bytes();
    let tail = crate::util::copy_vec(&bytes_from(bytes, 1));
    let mut parts = split_path(tail.as_slice());
    proof {
        lemma_split_nonempty(tail@);
    }
    let ghost all = parts@.map_values(|p: Vec<u8>| p@);
    let name = parts.pop().unwrap();
    proof {
        assert(parts@.map_values(|p: Vec<u8>| p@) =~= all.drop_last());
    }
    (parts, name)
}

/// The bytes from position `from` on.
fn bytes_from(bytes: &[u8], from: usize) -> (r: Vec<u8>)
    requires
        from <= bytes@.len(),
    ensures
        r@ == bytes@.subrange(from as int, bytes@.len() as int),
{
    let mut r: Vec<u8> = Vec::new();
    let mut i = from;
    while i < bytes.len()
        invariant
            from <= i <= bytes@.len(),
            r@ == bytes@.subrange(from as int, i as int),
        decreases bytes@.len() - i,
    {
        r.push(bytes[i]);
        i = i + 1;
        proof {
            assert(r@ =~= bytes@.subrange(from as int, i as int));
        }
    }
    r
}

/// The directories to walk for a directory path: none for `/`, else every
/// piece after the first byte.
pub fn dir_path(path: &str) -> (r: Vec<Vec<u8>>)
    requires
        path.spec_bytes().len() >= 1,
    ensures
        path.spec_bytes() == seq![0x2Fu8] ==> r@.len() == 0,
        path.spec_bytes() != seq![0x2Fu8] ==> r@.map_values(|p: Vec<u8>| p@)
            == split_path_spec(path.spec_bytes().subrange(1, path.spec_bytes().len() as int)),
{
    let bytes = path.as_bytes();
    if bytes.len() == 1 && bytes[0] == 0x2F {
        proof {
            assert(bytes@ =~= seq![0x2Fu8]);
        }
        return Vec::new();
    }
    proof {
        if bytes@ == seq![0x2Fu8] {
            assert(bytes@.len() == 1 && bytes@[0] == 0x2F);
        }
    }
    let tail = bytes_from(bytes, 1);
    split_path(tail.as_slice())
}

/// Entry `k` of the partition table in the first block of a device.
pub open spec fn mbr_partition(blocks: Seq<Block>, k: int) -> MBRPartionEntry {
    partition_at(blocks[0].bytes@, MBR_PARTITION_TABLE + 16 * k)
}

/// Whether a used entry of the partition table in the first block starts
/// at `start`.
pub open spec fn starts_partition(blocks: Seq<Block>, start: u32) -> bool {
    exists|k: int| 0 <= k < 4 && (#[trigger] mbr_partition(blocks, k)).type_ != 0 && mbr_partition(blocks, k).start_lba == start
}

/// The start addresses of the volumes mounted from the first `n` entries of
/// the partition table: each used entry, when the first block reads as FAT32
/// and the volume at the entry's start mounts.
pub open spec fn mounted_starts(blocks: Seq<Block>, n: int) -> Seq<u32>
    decreases n,
{
    if n <= 0 {
        Seq::empty()
    } else {
        let prev = mounted_starts(blocks, n - 1);
        let p = mbr_partition(blocks, n - 1);
        if p.type_ != 0 && spec_fat_size16(blocks[0].bytes@) == 0 && FAT32::mountable(blocks, p.start_lba) {
            prev.push(p.start_lba)
        } else {
            prev
        }
    }
}

/// The FAT32 volumes of a device's partitions: each partition entry with a
/// type is checked by the boot sector at block 0, and mounted at its start
/// when that says FAT32; a partition that does not mount is left out.
/// `Err` when the partition table cannot be read.
pub fn mount_partitions<D: BlockIO>(device: &mut D, use_cache: bool) -> (r: Result<Vec<FAT32>, ()>)
    ensures
        final(device).blocks() == old(device).blocks(),
        serving(*final(device)) == serving(*old(device)),
        serving(*old(device)) && old(device).blocks().len() > 0 ==> r is Ok,
        final(device).modeled() == old(device).modeled(),
        r matches Ok(v) ==> {
            &&& v@.len() <= 4
            &&& forall|i: int| 0 <= i < v@.len() ==> (#[trigger] v@[i]).wf()
            &&& forall|i: int| 0 <= i < v@.len() ==> (#[trigger] v@[i]).use_cache == use_cache
        },
        old(device).modeled() && r is Ok ==> {
            let v = r->Ok_0;
            &&& old(device).blocks().len() > 0
            &&& spec_fat_size16(old(device).blocks()[0].bytes@) != 0 ==> v@.len() == 0
            &&& forall|i: int| 0 <= i < v@.len() ==> starts_partition(old(device).blocks(), (#[trigger] v@[i]).start_addr)
            &&& serving(*old(device)) ==> v@.map_values(|f: FAT32| f.start_addr) == mounted_starts(old(device).blocks(), 4)
        },
{
    let mut buffer: Vec<Block> = vec![Block::empty()];
    match device.read(0, &mut buffer) {
        Ok(_) => {},
        Err(_) => return Err(()),
    }
    let ghost disk = old(device).blocks();
    let ghost m = old(device).modeled();
    proof {
        if m {
            assert(buffer@ == ram_read(disk, 0, 1));
        }
    }
    let mbr = buffer[0].mbr();
    let mut file_systems: Vec<FAT32> = Vec::new();
    let mut part_idx: usize = 0;
    while part_idx < 4
        invariant
            part_idx <= 4,
            disk == old(device).blocks(),
            device.blocks() == disk,
            serving(*device) == serving(*old(device)),
            m == old(device).modeled(),
            device.modeled() == m,
            m ==> disk.len() > 0,
            m ==> mbr.bytes@ == disk[0].bytes@,
            file_systems@.len() <= part_idx,
            m && spec_fat_size16(disk[0].bytes@) != 0 ==> file_systems@.len() == 0,
            forall|i: int| 0 <= i < file_systems@.len() ==> (#[trigger] file_systems@[i]).wf(),
            m ==> forall|i: int| 0 <= i < file_systems@.len() ==> starts_partition(disk, (#[trigger] file_systems@[i]).start_addr),
            forall|i: int| 0 <= i < file_systems@.len() ==> (#[trigger] file_systems@[i]).use_cache == use_cache,
            serving(*old(device)) ==> file_systems@.map_values(|f: FAT32| f.start_addr) == mounted_starts(disk, part_idx as int),
        decreases 4 - part_idx,
    {
        let ghost before = file_systems@;
        let partition = mbr.partition(part_idx);
        proof {
            if m {
                assert(partition == mbr_partition(disk, part_idx as int));
            }
        }
        if partition.type_() != 0 {
            let start_addr = partition.start_address();
            let volume_size = partition.size();
            let mut vbr: Vec<Block> = vec![Block::empty()];
            match device.read(0, &mut vbr) {
                Ok(_) => {},
                Err(_) => return Err(()),
            }
            proof {
                if m {
                    assert(vbr@ == ram_read(disk, 0, 1));
                    assert(vbr@[0] == disk[0]);
                }
            }
            match fat_type(&vbr[0]) {
                FATType::FAT32 => {
                    if let Ok(fs) = FAT32::mount(device, start_addr, volume_size, use_cache) {
                        proof {
                            if m {
                                assert(mbr_partition(disk, part_idx as int).start_lba == fs.start_addr);
                                assert(starts_partition(disk, fs.start_addr));
                            }
                        }
                        file_systems.push(fs);
                        proof {
                            assert(file_systems@.map_values(|f: FAT32| f.start_addr)
                                =~= before.map_values(|f: FAT32| f.start_addr).push(fs.start_addr));
                        }
                    }
                },
                _ => {},
            }
        }
        part_idx = part_idx + 1;
    }
    Ok(file_systems)
}

/// Whether `format` can lay out a volume of this size at this start.
pub fn format_geometry_ok(start_addr: u32, volume_size: u32) -> (r: bool)
    ensures
        r == format_fits(start_addr as int, volume_size as int),
{
    if volume_size < 32 {
        return false;
    }
    let cluster_count = (volume_size - 32) / 8;
    let fat_size = (cluster_count + 127) / 128;
    if volume_size - 32 < fat_size * 2 {
        return false;
    }
    let data_cluster_count = (volume_size - 32 - fat_size * 2) / 8;
    if data_cluster_count < 1 {
        return false;
    }
    let fat_size2 = (data_cluster_count + 127) / 128;
    (start_addr as u64) + 32 + 2 * (fat_size2 as u64) <= u32::MAX as u64
}

/// The volume size `format_partition` lays out on a device of `max`
/// blocks: the size asked, cut to the blocks past block 3.
pub open spec fn partition_size(size: u32, max: int) -> u32 {
    if size > max - 3 { (max - 3) as u32 } else { size }
}

/// Block 0 after the partition table's first entry is given type 80h, start
/// 3 and `size` blocks; the entry's other fields and the rest of the block
/// as they were.
pub open spec fn partition_set(before: Seq<u8>, after: Seq<u8>, size: u32) -> bool {
    &&& partition_at(after, MBR_PARTITION_TABLE as int) == (MBRPartionEntry {
        type_: 0x80,
        start_lba: 3,
        sector_count: size,
        ..partition_at(before, MBR_PARTITION_TABLE as int)
    })
    &&& forall|j: int| 0 <= j < BLOCK_SIZE && (j < MBR_PARTITION_TABLE || j >= MBR_PARTITION_TABLE + 16)
        ==> after[j] == before[j]
}

/// A volume `format` lays out leaves room on the device for its reserved
/// sectors, its table and one more block.
proof fn lemma_format_room(m: int)
    requires
        format_fits(3, m),
    ensures
        32 + format_fat_size(m) + 1 <= m,
{
    let c = (m - 32) / 8;
    let f1 = (c + 127) / 128;
    let d = (m - 32 - f1 * 2) / 8;
    vstd::arithmetic::div_mod::lemma_div_is_ordered(m - 32 - f1 * 2, m - 32, 8);
    vstd::arithmetic::div_mod::lemma_div_is_ordered(d + 127, c + 127, 128);
    vstd::arithmetic::div_mod::lemma_fundamental_div_mod(m - 32 - f1 * 2, 8);
    assert(c >= 0) by {
        vstd::arithmetic::div_mod::lemma_div_pos_is_pos(m - 32, 8);
    }
    assert(f1 >= 0) by {
        vstd::arithmetic::div_mod::lemma_div_pos_is_pos(c + 127, 128);
    }
    assert(8 * d >= 8);
}

/// Formats a device with one partition: the partition table's first entry
/// becomes a partition of type 0x80 from block 3 (its size limited to what
/// the device holds past block 3), and a FAT32 volume is laid out in it.
/// `FormatFailed` when the device has fewer than 3 blocks, or the size left
/// does not take a volume, or laying it out fails; `ReadFailed` when block
/// 0 cannot be read. Whether block 0 was written back is not checked.
#[verifier::rlimit(40)]
pub fn format_partition<D: BlockIO>(device: &mut D, size: u32, use_cache: bool) -> (r: Result<FAT32, FsError>)
    ensures
        r matches Ok(fs) ==> fs.wf() && fs.supported() && fs.start_addr == 3 && fs.volume_size <= size
            && format_fits(3, fs.volume_size as int) && fs.use_cache == use_cache,
        r matches Err(e) ==> e == FsError::ReadFailed || e == FsError::FormatFailed,
        same_device(*old(device), *final(device)),
        old(device).modeled() && old(device).blocks().len() <= u32::MAX ==> {
            let n = old(device).blocks().len() as int;
            let m = partition_size(size, n);
            &&& n < 3 ==> r == Err::<FAT32, FsError>(FsError::FormatFailed) && final(device).blocks() == old(device).blocks()
            &&& n >= 3 && !format_fits(3, m as int) ==> r is Err
            &&& r matches Ok(fs) ==> fs.volume_size == m
        },
        serving(*old(device)) && 3 <= old(device).blocks().len() <= u32::MAX ==> {
            let m = partition_size(size, old(device).blocks().len() as int);
            &&& r is Ok <==> format_fits(3, m as int)
            &&& r is Err ==> r == Err::<FAT32, FsError>(FsError::FormatFailed)
            &&& partition_set(old(device).blocks()[0].bytes@, final(device).blocks()[0].bytes@, m)
        },
{
    let ghost d0 = old(device).blocks();
    let start_address: u32 = 3;
    let max_addr = device.max_addr();
    if max_addr < start_address {
        return Err(FsError::FormatFailed);
    }
    let max_size = max_addr - start_address;
    let size = if size > max_size { max_size } else { size };
    let mut buffer: Vec<Block> = vec![Block::empty()];
    match device.read(0, &mut buffer) {
        Ok(_) => {},
        Err(_) => return Err(FsError::ReadFailed),
    }
    proof {
        if old(device).modeled() {
            assert(buffer@ =~= ram_read(d0, 0, 1));
            assert(buffer@[0] == d0[0]);
        }
    }
    let mut mbr = buffer[0].mbr();
    let mut partition = mbr.partition(0);
    partition.set_size(size);
    partition.set_start_address(start_address);
    partition.set_type_(0x80);
    mbr.set_partition(0, partition);
    let mut block = buffer[0];
    block.set_mbr(&mbr);
    let out: Vec<Block> = vec![block];
    let ghost before_write = device.blocks();
    let written = device.write(0, &out);
    let ghost d1 = device.blocks();
    proof {
        if old(device).modeled() && written is Ok {
            assert(out@ =~= seq![block]);
            assert(d1[0] == block);
        }
    }
    if !format_geometry_ok(start_address, size) {
        return Err(FsError::FormatFailed);
    }
    proof {
        if serving(*old(device)) && d0.len() <= u32::MAX {
            lemma_format_room(size as int);
        }
    }
    match FAT32::format(device, start_address, size, use_cache) {
        Ok(fs) => {
            proof {
                if old(device).modeled() && written is Ok {
                    assert(device.blocks()[0] == d1[0]);
                }
            }
            Ok(fs)
        },
        Err(_) => Err(FsError::FormatFailed),
    }
}

/// Directory `d` is the one `name` names in directory `dir`: the first
/// entry whose name matches, with the directory attribute, and its cluster.
pub open spec fn dir_step(fs: FAT32, blocks: Seq<Block>, dir: DirectoryDescriptor, name: Seq<u8>, d: DirectoryDescriptor) -> bool {
    &&& first_named(fs, blocks, dir.file_start_idx, name, d.dir_offset as int)
    &&& dir_entry_attr(fs, blocks, dir.file_start_idx, d.dir_offset as int) == fat::FAT_DIR_ATTRIBUTE_DIR
    &&& d.file_start_idx == dir_entry_cluster(fs, blocks, dir.file_start_idx, d.dir_offset as int)
    &&& d.dir_idx == dir.file_start_idx
}

/// `ds` are the directories met opening the directories `names` names one
/// inside the other from `start`: `start`, then one per name.
pub open spec fn walk_path(fs: FAT32, blocks: Seq<Block>, start: DirectoryDescriptor, names: Seq<Seq<u8>>, ds: Seq<DirectoryDescriptor>) -> bool {
    &&& ds.len() == names.len() + 1
    &&& ds[0] == start
    &&& forall|i: int| 0 <= i < names.len() ==> dir_step(fs, blocks, #[trigger] ds[i], names[i], ds[i + 1])
}

/// Opening the directories `names` names one inside the other from `start`
/// ends at `end`.
pub open spec fn walked(fs: FAT32, blocks: Seq<Block>, start: DirectoryDescriptor, names: Seq<Seq<u8>>, end: DirectoryDescriptor) -> bool {
    exists|ds: Seq<DirectoryDescriptor>| #[trigger] walk_path(fs, blocks, start, names, ds) && ds.last() == end
}

/// The device serves the directories `ds` lists, each at addresses that fit.
pub open spec fn walk_served<D: BlockIO>(fs: FAT32, device: D, ds: Seq<DirectoryDescriptor>) -> bool {
    forall|i: int| 0 <= i < ds.len() ==> dir_served(fs, device, (#[trigger] ds[i]).file_start_idx)
}

/// Opening the directories `names` names one inside the other from `start`
/// ends at `end`, and the device serves every directory met on the way,
/// `end` included.
pub open spec fn walk_reaches<D: BlockIO>(fs: FAT32, device: D, start: DirectoryDescriptor, names: Seq<Seq<u8>>, end: DirectoryDescriptor) -> bool {
    exists|ds: Seq<DirectoryDescriptor>| #[trigger] walk_path(fs, device.blocks(), start, names, ds) && ds.last() == end
        && walk_served(fs, device, ds)
}

/// A served walk that has come `i` names along the walk to `end` finds its
/// next directory: opening it from the directory reached does not fail.
proof fn lemma_walk_step_found<D: BlockIO>(fs: FAT32, device: D, now: D, start: DirectoryDescriptor, names: Seq<Seq<u8>>,
    end: DirectoryDescriptor, path: Seq<DirectoryDescriptor>, i: int)
    requires
        walk_reaches(fs, device, start, names, end),
        walk_path(fs, device.blocks(), start, names.take(i), path),
        0 <= i < names.len(),
        same_device(device, now),
    ensures
        dir_served(fs, now, path.last().file_start_idx),
        named_with_attr(fs, device.blocks(), path.last().file_start_idx, names[i], fat::FAT_DIR_ATTRIBUTE_DIR),
{
    let ds = choose|ds: Seq<DirectoryDescriptor>| #[trigger] walk_path(fs, device.blocks(), start, names, ds) && ds.last() == end
        && walk_served(fs, device, ds);
    lemma_walk_prefix_equal(fs, device.blocks(), start, names.take(i), names, path, ds, i);
    assert(dir_served(fs, device, ds[i].file_start_idx));
    assert(dir_step(fs, device.blocks(), ds[i], names[i], ds[i + 1]));
    assert(first_named(fs, device.blocks(), ds[i].file_start_idx, names[i], ds[i + 1].dir_offset as int));
}

/// The device serves the directory a served walk reaches.
proof fn lemma_reach_served<D: BlockIO>(fs: FAT32, device: D, start: DirectoryDescriptor, names: Seq<Seq<u8>>, end: DirectoryDescriptor)
    requires
        walk_reaches(fs, device, start, names, end),
    ensures
        dir_served(fs, device, end.file_start_idx),
{
    let ds = choose|ds: Seq<DirectoryDescriptor>| #[trigger] walk_path(fs, device.blocks(), start, names, ds) && ds.last() == end
        && walk_served(fs, device, ds);
    assert(dir_served(fs, device, ds[ds.len() - 1].file_start_idx));
}

/// A walk the device serves is served alike by a device that holds the
/// same blocks and serves runs alike.
proof fn lemma_reach_same_blocks<D: BlockIO>(fs: FAT32, a: D, b: D, start: DirectoryDescriptor, names: Seq<Seq<u8>>, end: DirectoryDescriptor)
    requires
        walk_reaches(fs, a, start, names, end),
        a.blocks() == b.blocks(),
        serving(a) == serving(b),
    ensures
        walk_reaches(fs, b, start, names, end),
{
    let ds = choose|ds: Seq<DirectoryDescriptor>| #[trigger] walk_path(fs, a.blocks(), start, names, ds) && ds.last() == end
        && walk_served(fs, a, ds);
    assert forall|i: int| 0 <= i < ds.len() implies dir_served(fs, b, (#[trigger] ds[i]).file_start_idx) by {
        assert(dir_served(fs, a, ds[i].file_start_idx));
    }
    assert(walk_path(fs, b.blocks(), start, names, ds));
}

/// A name leads from a directory to one directory at most.
proof fn lemma_dir_step_unique(fs: FAT32, blocks: Seq<Block>, dir: DirectoryDescriptor, name: Seq<u8>, a: DirectoryDescriptor, b: DirectoryDescriptor)
    requires
        dir_step(fs, blocks, dir, name, a),
        dir_step(fs, blocks, dir, name, b),
    ensures
        a == b,
{
    lemma_first_named_unique(fs, blocks, dir.file_start_idx, name, a.dir_offset as int);
    assert(first_named(fs, blocks, dir.file_start_idx, name, b.dir_offset as int));
}

/// Two walks from one directory by the same names meet the same
/// directories.
proof fn lemma_walk_unique(fs: FAT32, blocks: Seq<Block>, start: DirectoryDescriptor, names: Seq<Seq<u8>>, a: Seq<DirectoryDescriptor>, b: Seq<DirectoryDescriptor>)
    requires
        walk_path(fs, blocks, start, names, a),
        walk_path(fs, blocks, start, names, b),
    ensures
        a == b,
{
    assert forall|i: int| 0 <= i < a.len() implies a[i] == b[i] by {
        lemma_walk_prefix_equal(fs, blocks, start, names, names, a, b, i);
    }
    assert(a =~= b);
}

/// Walks from one directory by names that agree so far meet the same
/// directories so far.
proof fn lemma_walk_prefix_equal(fs: FAT32, blocks: Seq<Block>, start: DirectoryDescriptor, na: Seq<Seq<u8>>, nb: Seq<Seq<u8>>, a: Seq<DirectoryDescriptor>, b: Seq<DirectoryDescriptor>, i: int)
    requires
        walk_path(fs, blocks, start, na, a),
        walk_path(fs, blocks, start, nb, b),
        0 <= i < a.len(),
        i < b.len(),
        forall|j: int| 0 <= j < i ==> na[j] == nb[j],
    ensures
        a[i] == b[i],
    decreases i,
{
    if i > 0 {
        lemma_walk_prefix_equal(fs, blocks, start, na, nb, a, b, i - 1);
        assert(dir_step(fs, blocks, a[i - 1], na[i - 1], a[i]));
        assert(dir_step(fs, blocks, b[i - 1], nb[i - 1], b[i]));
        lemma_dir_step_unique(fs, blocks, a[i - 1], na[i - 1], a[i], b[i]);
    }
}

/// A path that starts with `/` names, between its first and last pieces,
/// the pieces after its first byte but the last; its last piece is theirs.
proof fn lemma_rooted_names(s: Seq<u8>)
    requires
        s.len() >= 1,
        s[0] == 0x2F,
    ensures
        inner_names(split_path_spec(s)) == split_path_spec(s.subrange(1, s.len() as int)).drop_last(),
        split_path_spec(s).last() == split_path_spec(s.subrange(1, s.len() as int)).last(),
{
    let t = s.subrange(1, s.len() as int);
    assert(first_slash(s) == Some(0int));
    assert(s.subrange(0, 0) =~= Seq::<u8>::empty());
    let rest = split_path_spec(t);
    assert(rest.len() >= 1);
    let parts = split_path_spec(s);
    assert(parts =~= seq![Seq::<u8>::empty()] + rest);
    assert(inner_names(parts) =~= rest.drop_last());
}

/// The directories a directory path names: none for `/`, else the pieces
/// after its first byte.
pub open spec fn dir_names(path: Seq<u8>) -> Seq<Seq<u8>> {
    if path == seq![0x2Fu8] {
        Seq::<Seq<u8>>::empty()
    } else {
        split_path_spec(path.subrange(1, path.len() as int))
    }
}

/// The byte strings of a list of names.
pub open spec fn name_seqs(names: Seq<Vec<u8>>) -> Seq<Seq<u8>> {
    names.map_values(|v: Vec<u8>| v@)
}

/// The names between the first and the last of a path's pieces.
pub open spec fn inner_names(parts: Seq<Seq<u8>>) -> Seq<Seq<u8>> {
    if parts.len() >= 2 { parts.subrange(1, parts.len() - 1) } else { Seq::empty() }
}

/// The root directory of a volume.
pub open spec fn root_of(fs: FAT32) -> DirectoryDescriptor {
    DirectoryDescriptor { file_start_idx: fs.root_directory_cluster, dir_idx: 0, dir_offset: 0 }
}

/// Opens the directories `names` names, each inside the one before, from
/// `dir`; the first that cannot be opened fails the walk.
#[verifier::rlimit(30)]
pub fn walk_dirs<D: BlockIO>(fs: &mut FAT32, device: &mut D, dir: DirectoryDescriptor, names: &Vec<Vec<u8>>) -> (r: Result<DirectoryDescriptor, ()>)
    requires
        old(fs).supported(),
    ensures
        final(fs).supported(),
        final(fs).use_cache == old(fs).use_cache,
        final(fs).next_free_cluster == old(fs).next_free_cluster,
        names@.len() == 0 ==> r == Ok::<DirectoryDescriptor, ()>(dir),
        names@.len() > 0 ==> (r matches Ok(d) ==> d.dir_offset < fat::FAT_MAX_DIRECTORY_ENTRY_COUNT),
        !old(fs).use_cache ==> *final(fs) == *old(fs),
        final(fs).data_addr == old(fs).data_addr,
        coherent(*old(fs), *old(device)) ==> final(device).blocks() == old(device).blocks()
            && (r is Ok ==> coherent(*final(fs), *old(device))),
        coherent(*old(fs), *old(device)) && r is Ok ==> walked(*old(fs), old(device).blocks(), dir,
            names@.map_values(|v: Vec<u8>| v@), r->Ok_0),
        same_device(*old(device), *final(device)),
        forall|end: DirectoryDescriptor| #[trigger] walk_reaches(*old(fs), *old(device), dir, name_seqs(names@), end)
            && coherent(*old(fs), *old(device)) ==> r == Ok::<DirectoryDescriptor, ()>(end),
{
    let ghost fs0 = *old(fs);
    let ghost disk = old(device).blocks();
    let ghost all = name_seqs(names@);
    let ghost mut path: Seq<DirectoryDescriptor> = seq![dir];
    let mut current = dir;
    let mut i: usize = 0;
    proof {
        assert(walk_path(fs0, disk, dir, all.take(0), path));
    }
    while i < names.len()
        invariant
            fs.supported(),
            fs.use_cache == old(fs).use_cache,
            fs.next_free_cluster == old(fs).next_free_cluster,
            i <= names@.len(),
            i == 0 ==> current == dir,
            i > 0 ==> current.dir_offset < fat::FAT_MAX_DIRECTORY_ENTRY_COUNT,
            fs0 == *old(fs),
            disk == old(device).blocks(),
            all == names@.map_values(|v: Vec<u8>| v@),
            same_device(*old(device), *device),
            fs.data_addr == fs0.data_addr,
            !fs.use_cache ==> *fs == fs0,
            coherent(fs0, *old(device)) ==> {
                &&& coherent(*fs, *old(device))
                &&& device.blocks() == disk
                &&& walk_path(fs0, disk, dir, all.take(i as int), path)
                &&& path.last() == current
            },
        decreases names@.len() - i,
    {
        let ghost before = current;
        let ghost dev_before = *device;
        let ghost fs_before = *fs;
        proof {
            lemma_same_layout(fs_before, fs0, disk, current.file_start_idx, names@[i as int]@);
        }
        let res = fs.open_dir_named(device, &current, names[i].as_slice());
        current = match res {
            Ok(d) => d,
            Err(e) => {
                proof {
                    assert forall|end: DirectoryDescriptor| #[trigger] walk_reaches(fs0, *old(device), dir, all, end)
                        && coherent(fs0, *old(device)) implies false by {
                        lemma_walk_step_found(fs0, *old(device), dev_before, dir, all, end, path, i as int);
                    }
                }
                return Err(e);
            },
        };
        proof {
            if coherent(fs0, *old(device)) {
                let prev = all.take(i as int);
                let next = all.take(i + 1);
                let p2 = path.push(current);
                assert(next[i as int] == names@[i as int]@);
                assert(dir_step(fs0, disk, before, next[i as int], current));
                assert forall|j: int| 0 <= j < next.len() implies dir_step(fs0, disk, #[trigger] p2[j], next[j], p2[j + 1]) by {
                    if j < i {
                        assert(p2[j] == path[j]);
                        assert(p2[j + 1] == path[j + 1]);
                        assert(next[j] == prev[j]);
                    }
                }
                path = p2;
            }
        }
        i = i + 1;
    }
    proof {
        assert(all.take(i as int) =~= all);
        if coherent(fs0, *old(device)) {
            assert(walk_path(fs0, disk, dir, all, path));
        }
        assert forall|end: DirectoryDescriptor| #[trigger] walk_reaches(fs0, *old(device), dir, all, end)
            && coherent(fs0, *old(device)) implies current == end by {
            let ds = choose|ds: Seq<DirectoryDescriptor>| #[trigger] walk_path(fs0, disk, dir, all, ds) && ds.last() == end
                && walk_served(fs0, *old(device), ds);
            lemma_walk_unique(fs0, disk, dir, all, ds, path);
        }
    }
    Ok(current)
}

/// Creates the file a path names: the pieces between the first and the last
/// name directories opened one inside the other from the root, the last is
/// the file's name.
pub fn create_file_at<D: BlockIO>(fs: &mut FAT32, device: &mut D, path: &str) -> (r: Result<FileDescriptor, ()>)
    requires
        old(fs).supported(),
    ensures
        final(fs).supported(),
        final(fs).use_cache == old(fs).use_cache,
        r matches Ok(f) ==> {
            &&& f.file_start_idx == old(fs).next_free_cluster
            &&& f.file_current_idx == f.file_start_idx
            &&& f.file_size == 0
            &&& f.ptr == 0
            &&& split_path_spec(path.spec_bytes()).len() <= 2 ==> f.dir_idx == old(fs).root_directory_cluster
        },
        !old(fs).use_cache && old(device).modeled() && r is Ok ==> {
            let parts = split_path_spec(path.spec_bytes());
            let names = inner_names(parts);
            let f = r->Ok_0;
            let k = f.dir_offset as int;
            let fs0 = *old(fs);
            let d0 = old(device).blocks();
            let fs1 = *final(fs);
            let d1 = final(device).blocks();
            exists|dir: DirectoryDescriptor| {
                &&& #[trigger] walked(fs0, d0, root_of(fs0), names, dir)
                &&& f.dir_idx == dir.file_start_idx
                &&& first_free(fs0, d0, dir.file_start_idx, k)
                &&& name_matches(dir_entry_name(fs1, d1, dir.file_start_idx, k), parts.last())
                &&& dir_entry_attr(fs1, d1, dir.file_start_idx, k) == fat::FAT_DIR_ATTRIBUTE_FILE
                &&& dir_entry_cluster(fs1, d1, dir.file_start_idx, k) == f.file_start_idx
            }
        },
        same_device(*old(device), *final(device)),
        forall|dir: DirectoryDescriptor| #[trigger] walk_reaches(*old(fs), *old(device), root_of(*old(fs)),
            inner_names(split_path_spec(path.spec_bytes())), dir) && !old(fs).use_cache ==> {
            &&& dir_full(*old(fs), old(device).blocks(), dir.file_start_idx) ==> r is Err
            &&& !dir_full(*old(fs), old(device).blocks(), dir.file_start_idx) && cluster_ready(*old(fs), *old(device)) ==> r is Ok
        },
{
    let ghost dev0 = *old(device);
    let root = fs.root_dir(device)?;
    let (dirs, name) = create_file_path(path);
    proof {
        let parts = split_path_spec(path.spec_bytes());
        assert(dirs@.len() == dirs@.map_values(|p: Vec<u8>| p@).len());
        if parts.len() <= 2 {
            assert(dirs@.len() == 0);
        }
    }
    let ghost fs0 = *old(fs);
    let ghost d0 = old(device).blocks();
    let ghost names = inner_names(split_path_spec(path.spec_bytes()));
    let walk = walk_dirs(fs, device, root, &dirs);
    proof {
        assert(name_seqs(dirs@) == names);
    }
    let dir = match walk {
        Ok(d) => d,
        Err(e) => {
            proof {
                assert forall|d: DirectoryDescriptor| #[trigger] walk_reaches(fs0, dev0, root_of(fs0), names, d)
                    && !fs0.use_cache implies !dir_full(fs0, d0, d.file_start_idx) && cluster_ready(fs0, dev0) ==> false by {
                    assert(walk_reaches(fs0, dev0, root, name_seqs(dirs@), d));
                }
            }
            return Err(e);
        },
    };
    let r = fs.create_named(device, &dir, name.as_slice());
    proof {
        if !fs0.use_cache && dev0.modeled() && r is Ok {
            assert(walked(fs0, d0, root_of(fs0), names, dir));
        }
        assert forall|d: DirectoryDescriptor| #[trigger] walk_reaches(fs0, dev0, root_of(fs0), names, d)
            && !fs0.use_cache implies {
            &&& dir_full(fs0, d0, d.file_start_idx) ==> r is Err
            &&& !dir_full(fs0, d0, d.file_start_idx) && cluster_ready(fs0, dev0) ==> r is Ok
        } by {
            assert(walk_reaches(fs0, dev0, root, name_seqs(dirs@), d));
            lemma_reach_served(fs0, dev0, root, name_seqs(dirs@), d);
        }
    }
    r
}

/// Opens the file a path names: the path's first byte is skipped, the
/// pieces before the last name directories opened from the root, the last
/// is the file's name.
pub fn open_file_at<D: BlockIO>(fs: &mut FAT32, device: &mut D, path: &str) -> (r: Result<FileDescriptor, ()>)
    requires
        old(fs).supported(),
        path.spec_bytes().len() >= 1,
    ensures
        final(fs).supported(),
        final(fs).use_cache == old(fs).use_cache,
        final(fs).next_free_cluster == old(fs).next_free_cluster,
        r matches Ok(f) ==> f.file_current_idx == f.file_start_idx && f.ptr == 0
            && f.dir_offset < fat::FAT_MAX_DIRECTORY_ENTRY_COUNT,
        !old(fs).use_cache ==> *final(fs) == *old(fs),
        final(fs).data_addr == old(fs).data_addr,
        coherent(*old(fs), *old(device)) ==> final(device).blocks() == old(device).blocks()
            && (r is Ok ==> coherent(*final(fs), *old(device))),
        coherent(*old(fs), *old(device)) && r is Ok ==> {
            let parts = split_path_spec(path.spec_bytes().subrange(1, path.spec_bytes().len() as int));
            let f = r->Ok_0;
            let fs0 = *old(fs);
            let d0 = old(device).blocks();
            exists|dir: DirectoryDescriptor| {
                &&& #[trigger] walked(fs0, d0, root_of(fs0), parts.drop_last(), dir)
                &&& first_named(fs0, d0, dir.file_start_idx, parts.last(), f.dir_offset as int)
                &&& dir_entry_attr(fs0, d0, dir.file_start_idx, f.dir_offset as int) == fat::FAT_DIR_ATTRIBUTE_FILE
                &&& f.file_start_idx == dir_entry_cluster(fs0, d0, dir.file_start_idx, f.dir_offset as int)
                &&& f.dir_idx == dir.file_start_idx
            }
        },
        same_device(*old(device), *final(device)),
        forall|dir: DirectoryDescriptor| #[trigger] walk_reaches(*old(fs), *old(device), root_of(*old(fs)),
            split_path_spec(path.spec_bytes().subrange(1, path.spec_bytes().len() as int)).drop_last(), dir)
            && coherent(*old(fs), *old(device)) ==> (r is Ok <==> named_with_attr(*old(fs), old(device).blocks(), dir.file_start_idx,
                split_path_spec(path.spec_bytes().subrange(1, path.spec_bytes().len() as int)).last(), fat::FAT_DIR_ATTRIBUTE_FILE)),
{
    let ghost fs0 = *old(fs);
    let ghost dev0 = *old(device);
    let ghost parts = split_path_spec(path.spec_bytes().subrange(1, path.spec_bytes().len() as int));
    let root = fs.root_dir(device)?;
    let (dirs, name) = rooted_path(path);
    let walk = walk_dirs(fs, device, root, &dirs);
    proof {
        assert(name_seqs(dirs@) == parts.drop_last());
    }
    let dir = match walk {
        Ok(d) => d,
        Err(e) => {
            proof {
                assert forall|d: DirectoryDescriptor| #[trigger] walk_reaches(fs0, dev0, root_of(fs0), parts.drop_last(), d)
                    && coherent(fs0, dev0) implies false by {
                    assert(walk_reaches(fs0, dev0, root, name_seqs(dirs@), d));
                }
            }
            return Err(e);
        },
    };
    let ghost fs_mid = *fs;
    proof {
        lemma_same_layout(fs_mid, fs0, dev0.blocks(), dir.file_start_idx, name@);
    }
    let r = fs.open_named(device, &dir, name.as_slice());
    proof {
        if coherent(fs0, dev0) && r is Ok {
            assert(walked(fs0, dev0.blocks(), root_of(fs0), parts.drop_last(), dir));
        }
        assert forall|d: DirectoryDescriptor| #[trigger] walk_reaches(fs0, dev0, root_of(fs0), parts.drop_last(), d)
            && coherent(fs0, dev0) implies (r is Ok <==> named_with_attr(fs0, dev0.blocks(), d.file_start_idx, parts.last(),
                fat::FAT_DIR_ATTRIBUTE_FILE)) by {
            assert(walk_reaches(fs0, dev0, root, name_seqs(dirs@), d));
            lemma_reach_served(fs0, dev0, root, name_seqs(dirs@), d);
        }
    }
    r
}

/// Creates the directory a path names, as `open_file_at` walks to it, and
/// lists it.
pub fn create_dir_at<D: BlockIO>(fs: &mut FAT32, device: &mut D, path: &str) -> (r: Result<(DirectoryDescriptor, Vec<(usize, String)>), ()>)
    requires
        old(fs).supported(),
        path.spec_bytes().len() >= 1,
    ensures
        final(fs).supported(),
        final(fs).use_cache == old(fs).use_cache,
        r matches Ok((d, _)) ==> d.file_start_idx == old(fs).next_free_cluster
            && d.dir_offset < fat::FAT_MAX_DIRECTORY_ENTRY_COUNT,
        !old(fs).use_cache && old(device).modeled() && r is Ok ==> {
            let parts = split_path_spec(path.spec_bytes().subrange(1, path.spec_bytes().len() as int));
            let (d, list) = r->Ok_0;
            let k = d.dir_offset as int;
            let fs0 = *old(fs);
            let d0 = old(device).blocks();
            let fs1 = *final(fs);
            let d1 = final(device).blocks();
            &&& list@.map_values(|p: (usize, String)| (p.0, p.1@))
                == dir_listing(fs1, d1, d.file_start_idx, fat::FAT_MAX_DIRECTORY_ENTRY_COUNT as int)
            &&& fat_next(fs1, d1, d.file_start_idx) == fat::FAT_END_OF_CLUSTER
            &&& exists|parent: DirectoryDescriptor| {
                &&& #[trigger] walked(fs0, d0, root_of(fs0), parts.drop_last(), parent)
                &&& d.dir_idx == parent.file_start_idx
                &&& first_free(fs0, d0, parent.file_start_idx, k)
                &&& fat_entry_addr(fs1, d.file_start_idx) != dir_blocks_start(fs1, parent.file_start_idx) + k / 16 ==> {
                    &&& dir_entry_attr(fs1, d1, parent.file_start_idx, k) == fat::FAT_DIR_ATTRIBUTE_DIR
                    &&& dir_entry_cluster(fs1, d1, parent.file_start_idx, k) == d.file_start_idx
                }
            }
        },
        same_device(*old(device), *final(device)),
        forall|parent: DirectoryDescriptor| #[trigger] walk_reaches(*old(fs), *old(device), root_of(*old(fs)),
            split_path_spec(path.spec_bytes().subrange(1, path.spec_bytes().len() as int)).drop_last(), parent)
            && !old(fs).use_cache && dir_full(*old(fs), old(device).blocks(), parent.file_start_idx) ==> r is Err,
        forall|parent: DirectoryDescriptor| #[trigger] walk_reaches(*old(fs), *old(device), root_of(*old(fs)),
            split_path_spec(path.spec_bytes().subrange(1, path.spec_bytes().len() as int)).drop_last(), parent)
            && !old(fs).use_cache && !dir_full(*old(fs), old(device).blocks(), parent.file_start_idx)
            && cluster_ready(*old(fs), *old(device)) && dir_served(*old(fs), *old(device), old(fs).next_free_cluster)
            ==> (r is Ok <==> names_ascii(*final(fs), final(device).blocks(), old(fs).next_free_cluster)),
{
    let ghost dev0 = *old(device);
    let ghost names = split_path_spec(path.spec_bytes().subrange(1, path.spec_bytes().len() as int)).drop_last();
    let root = fs.root_dir(device)?;
    let (dirs, name) = rooted_path(path);
    proof {
        assert(name_seqs(dirs@) == names);
    }
    let parent = walk_dirs(fs, device, root, &dirs)?;
    let ghost fs0 = *old(fs);
    let ghost d0 = old(device).blocks();
    let made = fs.create_dir_named(device, &parent, name.as_slice());
    proof {
        assert forall|p: DirectoryDescriptor| #[trigger] walk_reaches(fs0, dev0, root_of(fs0), names, p)
            && !fs0.use_cache && dir_full(fs0, d0, p.file_start_idx) implies made is Err by {
            assert(walk_reaches(fs0, dev0, root, name_seqs(dirs@), p));
            lemma_reach_served(fs0, dev0, root, name_seqs(dirs@), p);
        }
    }
    proof {
        assert forall|p: DirectoryDescriptor| #[trigger] walk_reaches(fs0, dev0, root_of(fs0), names, p)
            && !fs0.use_cache && !dir_full(fs0, d0, p.file_start_idx) && cluster_ready(fs0, dev0) implies made is Ok by {
            assert(walk_reaches(fs0, dev0, root, name_seqs(dirs@), p));
            lemma_reach_served(fs0, dev0, root, name_seqs(dirs@), p);
        }
    }
    let created = match made {
        Ok(c) => c,
        Err(e) => return Err(e),
    };
    let entries = fs.list_entry(device, &created)?;
    proof {
        if !fs0.use_cache && old(device).modeled() {
            let parts = split_path_spec(path.spec_bytes().subrange(1, path.spec_bytes().len() as int));
            assert(walked(fs0, d0, root_of(fs0), parts.drop_last(), parent));
        }
    }
    Ok((created, entries))
}

/// Opens the directory a path names and lists it: `/` is the root, any
/// other path walks its pieces after the first byte.
pub fn open_dir_at<D: BlockIO>(fs: &mut FAT32, device: &mut D, path: &str) -> (r: Result<(DirectoryDescriptor, Vec<(usize, String)>), ()>)
    requires
        old(fs).supported(),
        path.spec_bytes().len() >= 1,
    ensures
        final(fs).supported(),
        final(fs).use_cache == old(fs).use_cache,
        final(fs).next_free_cluster == old(fs).next_free_cluster,
        path.spec_bytes() == seq![0x2Fu8] ==> (r matches Ok((d, _)) ==> d == (DirectoryDescriptor {
            file_start_idx: old(fs).root_directory_cluster,
            dir_idx: 0,
            dir_offset: 0,
        })),
        !old(fs).use_cache ==> *final(fs) == *old(fs),
        coherent(*old(fs), *old(device)) ==> final(device).blocks() == old(device).blocks(),
        coherent(*old(fs), *old(device)) && r is Ok ==> {
            let (d, list) = r->Ok_0;
            &&& walked(*old(fs), old(device).blocks(), root_of(*old(fs)), dir_names(path.spec_bytes()), d)
            &&& list@.map_values(|p: (usize, String)| (p.0, p.1@))
                == dir_listing(*old(fs), old(device).blocks(), d.file_start_idx, fat::FAT_MAX_DIRECTORY_ENTRY_COUNT as int)
        },
        same_device(*old(device), *final(device)),
        forall|dir: DirectoryDescriptor| #[trigger] walk_reaches(*old(fs), *old(device), root_of(*old(fs)),
            dir_names(path.spec_bytes()), dir) && coherent(*old(fs), *old(device))
            ==> (r is Ok <==> names_ascii(*old(fs), old(device).blocks(), dir.file_start_idx)),
{
    let ghost fs0 = *old(fs);
    let ghost dev0 = *old(device);
    let ghost names = dir_names(path.spec_bytes());
    let root = fs.root_dir(device)?;
    let dirs = dir_path(path);
    proof {
        if path.spec_bytes() == seq![0x2Fu8] {
            assert(dirs@.map_values(|v: Vec<u8>| v@) =~= Seq::<Seq<u8>>::empty());
        }
        assert(name_seqs(dirs@) == names);
    }
    let walk = walk_dirs(fs, device, root, &dirs);
    let dir = match walk {
        Ok(d) => d,
        Err(e) => {
            proof {
                assert forall|d: DirectoryDescriptor| #[trigger] walk_reaches(fs0, dev0, root_of(fs0), names, d)
                    && coherent(fs0, dev0) implies false by {
                    assert(walk_reaches(fs0, dev0, root, name_seqs(dirs@), d));
                }
            }
            return Err(e);
        },
    };
    let ghost fs_mid = *fs;
    proof {
        lemma_same_layout(fs_mid, fs0, dev0.blocks(), dir.file_start_idx, Seq::<u8>::empty());
    }
    let listed = fs.list_entry(device, &dir);
    proof {
        assert forall|d: DirectoryDescriptor| #[trigger] walk_reaches(fs0, dev0, root_of(fs0), names, d)
            && coherent(fs0, dev0) implies (listed is Ok <==> names_ascii(fs0, dev0.blocks(), d.file_start_idx)) by {
            assert(walk_reaches(fs0, dev0, root, name_seqs(dirs@), d));
            lemma_reach_served(fs0, dev0, root, name_seqs(dirs@), d);
        }
    }
    let entries = match listed {
        Ok(v) => v,
        Err(e) => return Err(e),
    };
    Ok((dir, entries))
}

/// Opens a file with a mode: a file found is used, emptied first when the
/// mode writes; a file not found is created when the mode writes. Appending
/// starts at the end.
pub fn open_with_mode<D: BlockIO>(fs: &mut FAT32, device: &mut D, path: &str, mode: &[u8]) -> (r: Result<FileDescriptor, FsError>)
    requires
        old(fs).supported(),
        path.spec_bytes().len() >= 1,
    ensures
        final(fs).supported(),
        final(fs).use_cache == old(fs).use_cache,
        !mode_has(mode@, 0x77, 0x57) && !mode_has(mode@, 0x61, 0x41)
            ==> (r is Ok || r == Err::<FileDescriptor, FsError>(FsError::CannotFindFile)),
        (mode_has(mode@, 0x77, 0x57) || mode_has(mode@, 0x61, 0x41))
            ==> (r is Ok || r == Err::<FileDescriptor, FsError>(FsError::FileShrinkFailed)
                || r == Err::<FileDescriptor, FsError>(FsError::FileCreationFailed)),
        r matches Ok(f) ==> (mode_has(mode@, 0x61, 0x41) ==> f.ptr == f.file_size),
        same_device(*old(device), *final(device)),
        forall|dir: DirectoryDescriptor| #[trigger] walk_reaches(*old(fs), *old(device), root_of(*old(fs)),
            split_path_spec(path.spec_bytes().subrange(1, path.spec_bytes().len() as int)).drop_last(), dir)
            && coherent(*old(fs), *old(device)) ==> {
            let found = named_with_attr(*old(fs), old(device).blocks(), dir.file_start_idx,
                split_path_spec(path.spec_bytes().subrange(1, path.spec_bytes().len() as int)).last(), fat::FAT_DIR_ATTRIBUTE_FILE);
            &&& !mode_has(mode@, 0x77, 0x57) && !mode_has(mode@, 0x61, 0x41) ==> (r is Ok <==> found)
            &&& r == Err::<FileDescriptor, FsError>(FsError::FileShrinkFailed) ==> found
            &&& r == Err::<FileDescriptor, FsError>(FsError::FileCreationFailed) ==> !found
            &&& !old(fs).use_cache && path.spec_bytes()[0] == 0x2F && (mode_has(mode@, 0x77, 0x57) || mode_has(mode@, 0x61, 0x41)) && !found
                ==> {
                &&& dir_full(*old(fs), old(device).blocks(), dir.file_start_idx)
                    ==> r == Err::<FileDescriptor, FsError>(FsError::FileCreationFailed)
                &&& !dir_full(*old(fs), old(device).blocks(), dir.file_start_idx) && cluster_ready(*old(fs), *old(device))
                    ==> r is Ok
            }
        },
{
    proof {
        if path.spec_bytes()[0] == 0x2F {
            lemma_rooted_names(path.spec_bytes());
        }
    }
    let m = parse_mode(mode);
    let search = open_file_at(fs, device, path);
    proof {
        if !old(fs).use_cache && path.spec_bytes()[0] == 0x2F {
            let names = split_path_spec(path.spec_bytes().subrange(1, path.spec_bytes().len() as int)).drop_last();
            assert forall|dir: DirectoryDescriptor| #[trigger] walk_reaches(*old(fs), *old(device), root_of(*old(fs)), names, dir)
                implies walk_reaches(*fs, *device, root_of(*fs), inner_names(split_path_spec(path.spec_bytes())), dir) by {
                lemma_reach_same_blocks(*old(fs), *old(device), *device, root_of(*old(fs)), names, dir);
            }
        }
    }
    let mut file = match open_plan(search.is_ok(), m) {
        FilePlan::Use => match search {
            Ok(f) => f,
            Err(_) => return Err(FsError::CannotFindFile),
        },
        FilePlan::Shrink => match search {
            Ok(f) => {
                let mut f = f;
                match fs.shrink(device, &mut f) {
                    Ok(_) => f,
                    Err(_) => return Err(FsError::FileShrinkFailed),
                }
            },
            Err(_) => return Err(FsError::FileShrinkFailed),
        },
        FilePlan::Create => match create_file_at(fs, device, path) {
            Ok(f) => f,
            Err(_) => return Err(FsError::FileCreationFailed),
        },
        FilePlan::Fail(e) => return Err(e),
    };
    finish_open(&mut file, m);
    Ok(file)
}

/// Opens a directory with a mode: a directory not found is created when the
/// mode writes.
pub fn open_dir_with_mode<D: BlockIO>(fs: &mut FAT32, device: &mut D, path: &str, mode: &[u8]) -> (r: Result<(DirectoryDescriptor, Vec<(usize, String)>), FsError>)
    requires
        old(fs).supported(),
        path.spec_bytes().len() >= 1,
    ensures
        final(fs).supported(),
        final(fs).use_cache == old(fs).use_cache,
        !mode_has(mode@, 0x77, 0x57) && !mode_has(mode@, 0x61, 0x41)
            ==> (r is Ok || r == Err::<(DirectoryDescriptor, Vec<(usize, String)>), FsError>(FsError::CannotFindDirectory)),
        (mode_has(mode@, 0x77, 0x57) || mode_has(mode@, 0x61, 0x41))
            ==> (r is Ok || r == Err::<(DirectoryDescriptor, Vec<(usize, String)>), FsError>(FsError::DirectoryCreateFailed)),
        same_device(*old(device), *final(device)),
        forall|dir: DirectoryDescriptor| #[trigger] walk_reaches(*old(fs), *old(device), root_of(*old(fs)),
            dir_names(path.spec_bytes()), dir) && coherent(*old(fs), *old(device)) ==> {
            let found = names_ascii(*old(fs), old(device).blocks(), dir.file_start_idx);
            &&& !mode_has(mode@, 0x77, 0x57) && !mode_has(mode@, 0x61, 0x41) ==> (r is Ok <==> found)
            &&& found ==> r is Ok
        },
{
    let m = parse_mode(mode);
    let search = open_dir_at(fs, device, path);
    let found = search.is_ok();
    match open_dir_plan(found, m) {
        FilePlan::Use => match search {
            Ok(d) => Ok(d),
            Err(_) => Err(FsError::CannotFindDirectory),
        },
        FilePlan::Create => match create_dir_at(fs, device, path) {
            Ok(d) => Ok(d),
            Err(_) => Err(FsError::DirectoryCreateFailed),
        },
        FilePlan::Fail(e) => Err(e),
        FilePlan::Shrink => Err(FsError::DirectoryCreateFailed),
    }
}

/// An open file of a volume of a named device.
pub struct File {
    pub file_desc: FileDescriptor,
    pub dev_name: String,
    pub port: u16,
}

/// An open directory and its entries.
pub struct Directory {
    pub dir_desc: DirectoryDescriptor,
    pub entry: Vec<(usize, String)>,
    pub dev_name: String,
    pub port: u16,
}

impl Directory {
    /// The slot and name of each entry.
    pub fn entries(&self) -> (r: &Vec<(usize, String)>)
        ensures
            r@ == self.entry@,
    {
        &self.entry
    }
}

} // verus!
