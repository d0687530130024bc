//! A FAT32 volume: its geometry, the cluster chains of its table, its
//! directories of 128 entries per cluster, and files read and written byte
//! by byte through the cluster of the current position.
use vstd::prelude::*;
use vstd::string::StringSliceAdditionalSpecFns;
use ascii::AsciiStr;
use crate::bytes::{le_u16, le_u32};
use crate::cache::{dirty_entries, first_match, lemma_first_match, lemma_touch_keeps_len, touch, Cache, EntryView};
use crate::device::block::{Block, BlockIO, BLOCK_SIZE, ram_read, ram_write, same_device, serving};
use super::{DirectoryDescriptor, FileDescriptor};
use super::fat::{
    entry_at, spec_start_cluster, DirectoryEntry, FAT32Header, FsInfo, FAT_DIR_ATTRIBUTE_DIR,
    FAT_DIR_ATTRIBUTE_FILE, FAT_END_OF_CLUSTER, FAT_MAX_DIRECTORY_ENTRY_COUNT, FAT_SECTOR_PER_CLUSTER,
    FAT_SECTOR_PER_CLUSTER_ENTRY, DIR_ENTRY_SIZE,
};

verus! {

pub const FAT32_RESERVED_SECTOR_COUNT: u32 = 32;
pub const FAT32_ROOT_DIRECTORY_CLUSTER: u32 = 2;
pub const FAT32_CACHE_SIZE: usize = 128;

/// Directory entries in one sector of a cluster of eight sectors.
pub const ENTRY_PER_SECTOR: u32 = 16;

/// `ascii::AsciiStr::from_ascii` on an entry name, then `to_string`: the
/// conversion succeeds exactly when every byte is below 128, and the string
/// holds the bytes as characters.
#[verifier::external_body]
fn ascii_name(name: &[u8; 11]) -> (r: Option<String>)
    ensures
        (forall|i: int| 0 <= i < 11 ==> name@[i] < 128) <==> r is Some,
        r matches Some(s) ==> s@ == name@.map_values(|b: u8| b as char),
{
    match AsciiStr::from_ascii(name) {
        Ok(s) => Some(s.to_string()),
        Err(_) => None,
    }
}

/// A FAT32 volume and its caches of table sectors and of clusters.
pub struct FAT32 {
    pub start_addr: u32,
    pub volume_size: u32,
    pub reserved_sector_count: u32,
    pub byte_per_sector: u16,
    pub sector_per_cluster: u8,
    pub fat_addr: u32,
    pub fat2_addr: u32,
    pub fat_size: u32,
    pub data_addr: u32,
    pub free_cluster_count: u32,
    pub next_free_cluster: u32,
    pub root_directory_cluster: u32,
    pub use_cache: bool,
    pub fat_cache: Cache<Block>,
    pub cluster_cache: Cache<Block>,
}

/// The boot sector `format` writes: 512 bytes per sector, 8 sectors per
/// cluster, 32 reserved sectors, media type 0xF8, the volume size, the table
/// size and root cluster 2; every other byte zero.
pub open spec fn format_header(b: Seq<u8>, volume_size: u32, fat_size: u32) -> bool {
    &&& b.len() == BLOCK_SIZE
    &&& le_u16(b, 11) == 512
    &&& b[13] == FAT_SECTOR_PER_CLUSTER
    &&& le_u16(b, 14) == 32
    &&& b[21] == 0xF8
    &&& le_u32(b, 32) == volume_size
    &&& le_u32(b, 36) == fat_size
    &&& le_u32(b, 44) == 2
    &&& forall|j: int| 0 <= j < BLOCK_SIZE && !(11 <= j < 16) && j != 21 && !(32 <= j < 40) && !(44 <= j < 48) ==> b[j] == 0
}

/// The FS information sector `format` writes: the free cluster count and
/// the next free cluster; every other byte zero.
pub open spec fn format_fs_info(b: Seq<u8>, free: u32, next: u32) -> bool {
    &&& b.len() == BLOCK_SIZE
    &&& le_u32(b, 488) == free
    &&& le_u32(b, 492) == next
    &&& forall|j: int| 0 <= j < BLOCK_SIZE && !(488 <= j < 496) ==> b[j] == 0
}

/// The first table sector `format` writes: entries 0 to 2 end of chain,
/// every other byte zero.
pub open spec fn format_fat(b: Seq<u8>) -> bool {
    &&& b.len() == BLOCK_SIZE
    &&& le_u32(b, 0) == FAT_END_OF_CLUSTER
    &&& le_u32(b, 4) == FAT_END_OF_CLUSTER
    &&& le_u32(b, 8) == FAT_END_OF_CLUSTER
    &&& forall|j: int| 12 <= j < BLOCK_SIZE ==> b[j] == 0
}

/// The table size `format` chooses: enough 128-entry sectors for the data
/// clusters left once the table itself is taken out.
pub open spec fn format_fat_size(volume_size: int) -> int {
    let cluster_count = (volume_size - 32) / 8;
    let fat_size = (cluster_count + 127) / 128;
    let data_cluster_count = (volume_size - 32 - fat_size * 2) / 8;
    (data_cluster_count + 127) / 128
}

pub open spec fn format_data_clusters(volume_size: int) -> int {
    let cluster_count = (volume_size - 32) / 8;
    let fat_size = (cluster_count + 127) / 128;
    (volume_size - 32 - fat_size * 2) / 8
}

/// The volume sizes `format` handles: room for the reserved sectors and the
/// table, at least one data cluster, and addresses that fit.
pub open spec fn format_fits(start_addr: int, volume_size: int) -> bool {
    let cluster_count = (volume_size - 32) / 8;
    let fat_size = (cluster_count + 127) / 128;
    &&& volume_size >= 32
    &&& volume_size - 32 - fat_size * 2 >= 0
    &&& format_data_clusters(volume_size) >= 1
    &&& start_addr + 32 + 2 * format_fat_size(volume_size) <= u32::MAX
}

/// The table sector holding the entry of `cluster`, as the table reads and
/// writes address it.
pub open spec fn fat_entry_addr(fs: FAT32, cluster: u32) -> int {
    fs.fat_addr + (cluster % FAT_SECTOR_PER_CLUSTER_ENTRY) as int
}

/// The device after entry `k` of block `addr` became `value`, the rest of
/// the block and the other blocks as they were.
pub open spec fn entry_written(before: Seq<Block>, after: Seq<Block>, addr: int, k: int, value: u32) -> bool {
    &&& 0 <= addr < before.len()
    &&& after.len() == before.len()
    &&& forall|i: int| 0 <= i < before.len() && i != addr ==> after[i] == before[i]
    &&& le_u32(after[addr].bytes@, 4 * k) == value
    &&& forall|j: int| 0 <= j < BLOCK_SIZE && (j < 4 * k || j >= 4 * k + 4) ==> after[addr].bytes@[j] == before[addr].bytes@[j]
}

/// The eight blocks of data cluster `cluster`, as the device holds them.
pub open spec fn cluster_blocks(fs: FAT32, blocks: Seq<Block>, cluster: u32) -> Seq<Block> {
    ram_read(blocks, fs.data_addr + FAT_SECTOR_PER_CLUSTER * cluster, FAT_SECTOR_PER_CLUSTER as int)
}

/// The table entry of `cluster`, read where the table operations read it.
pub open spec fn fat_next(fs: FAT32, blocks: Seq<Block>, cluster: u32) -> u32 {
    le_u32(blocks[fat_entry_addr(fs, cluster)].bytes@, 4 * ((cluster % FAT_SECTOR_PER_CLUSTER_ENTRY) as int)) as u32
}

/// The cluster `k` steps along the chain from `cluster`.
pub open spec fn chain_nth(fs: FAT32, blocks: Seq<Block>, cluster: u32, k: nat) -> u32
    decreases k,
{
    if k == 0 { cluster } else { chain_nth(fs, blocks, fat_next(fs, blocks, cluster), (k - 1) as nat) }
}

/// Byte `i` of a read that starts at position `ptr` in cluster `cluster`:
/// the byte at the position's offset in the cluster reached after crossing
/// as many cluster ends as lie before it.
pub open spec fn file_byte(fs: FAT32, blocks: Seq<Block>, cluster: u32, ptr: int, i: int) -> u8 {
    let c = chain_nth(fs, blocks, cluster, ((ptr % 4096 + i) / 4096) as nat);
    let off = (ptr + i) % 4096;
    cluster_blocks(fs, blocks, c)[off / 512].bytes@[off % 512]
}

/// Where the next byte of a read lies: the offset in the cluster grows with
/// the position, and a cluster end is crossed exactly after offset 4095.
proof fn lemma_cluster_step(ptr: int, count: int)
    requires
        0 <= ptr,
        0 <= count,
    ensures
        (ptr + count) % 4096 == (ptr % 4096 + count) % 4096,
        (ptr + count) % 4096 == 4095 ==> (ptr % 4096 + count + 1) / 4096 == (ptr % 4096 + count) / 4096 + 1,
        (ptr + count) % 4096 != 4095 ==> (ptr % 4096 + count + 1) / 4096 == (ptr % 4096 + count) / 4096,
{
    let a = ptr % 4096 + count;
    vstd::arithmetic::div_mod::lemma_fundamental_div_mod(ptr, 4096);
    vstd::arithmetic::div_mod::lemma_fundamental_div_mod(a, 4096);
    let q = a / 4096;
    let r = a % 4096;
    vstd::arithmetic::div_mod::lemma_fundamental_div_mod_converse(ptr + count, 4096, ptr / 4096 + q, r);
    if r == 4095 {
        vstd::arithmetic::div_mod::lemma_fundamental_div_mod_converse(a + 1, 4096, q + 1, 0);
    } else {
        vstd::arithmetic::div_mod::lemma_fundamental_div_mod_converse(a + 1, 4096, q, r + 1);
    }
}

/// Law: on a volume without caches, bytes read from where a write within
/// one cluster started are the bytes written. `written` is what `write`
/// stored and `read` what `read` gave back, each as their contracts state
/// it over the device the write left.
pub proof fn law_file_read_after_write(fs: FAT32, after: Seq<Block>, cluster: u32, ptr: int, written: Seq<u8>, read: Seq<u8>)
    requires
        forall|i: int| 0 <= i < written.len() ==> file_byte(fs, after, cluster, ptr, i) == #[trigger] written[i],
        read.len() == written.len(),
        forall|i: int| 0 <= i < read.len() ==> #[trigger] read[i] == file_byte(fs, after, cluster, ptr, i),
    ensures
        read == written,
{
    assert(read =~= written);
}

/// Law: on a volume without caches, opening a file by the name it was just
/// created under gives the created file, unless an earlier entry of the
/// directory matches that name too. `created` is what `create_named` gave
/// back and `opened` what `open_named` gave back, each as their contracts
/// state it over the directory's blocks after the creation.
pub proof fn law_open_after_create(fs: FAT32, blocks: Seq<Block>, dir_cluster: u32, name: Seq<u8>,
    created: FileDescriptor, opened: FileDescriptor)
    requires
        created.dir_offset < FAT_MAX_DIRECTORY_ENTRY_COUNT,
        name_matches(dir_entry_name(fs, blocks, dir_cluster, created.dir_offset as int), name),
        dir_entry_cluster(fs, blocks, dir_cluster, created.dir_offset as int) == created.file_start_idx,
        forall|j: int| 0 <= j < created.dir_offset ==> !name_matches(#[trigger] dir_entry_name(fs, blocks, dir_cluster, j), name),
        first_named(fs, blocks, dir_cluster, name, opened.dir_offset as int),
        opened.file_start_idx == dir_entry_cluster(fs, blocks, dir_cluster, opened.dir_offset as int),
    ensures
        opened.dir_offset == created.dir_offset,
        opened.file_start_idx == created.file_start_idx,
{
    if opened.dir_offset < created.dir_offset {
        assert(!name_matches(dir_entry_name(fs, blocks, dir_cluster, opened.dir_offset as int), name));
    }
    if opened.dir_offset > created.dir_offset {
        assert(!name_matches(dir_entry_name(fs, blocks, dir_cluster, created.dir_offset as int), name));
    }
}

/// The first block a directory's entries are kept in: its cluster turned
/// into a sector offset, then read as a cluster of the data area.
pub open spec fn dir_blocks_start(fs: FAT32, dir_cluster: u32) -> int {
    fs.data_addr + FAT_SECTOR_PER_CLUSTER * (fs.data_addr + FAT_SECTOR_PER_CLUSTER * dir_cluster)
}

/// A cluster written whole, then a directory entry stored in a cluster
/// elsewhere: the cluster reads back as written.
proof fn lemma_written_cluster_kept(fs: FAT32, disk: Seq<Block>, written: Seq<Block>, after: Seq<Block>, c: u32, dir_cluster: u32, data: Seq<Block>)
    requires
        data.len() == 8,
        fs.data_addr + FAT_SECTOR_PER_CLUSTER * c + 8 <= disk.len(),
        written == ram_write(disk, fs.data_addr + FAT_SECTOR_PER_CLUSTER * c, data),
        after.len() == written.len(),
        forall|j: int| 0 <= j < written.len() && !(dir_blocks_start(fs, dir_cluster) <= j < dir_blocks_start(fs, dir_cluster) + 8)
            ==> #[trigger] after[j] == written[j],
        c != fs.data_addr + FAT_SECTOR_PER_CLUSTER * dir_cluster,
    ensures
        cluster_blocks(fs, after, c) == data,
{
    let a = fs.data_addr + FAT_SECTOR_PER_CLUSTER * c;
    let d = dir_blocks_start(fs, dir_cluster);
    let x = fs.data_addr + FAT_SECTOR_PER_CLUSTER * dir_cluster;
    assert(a + 8 <= d || d + 8 <= a);
    assert(cluster_blocks(fs, after, c) =~= data);
}

/// The block holding entry `j` of a directory.
pub open spec fn dir_entry_block(fs: FAT32, blocks: Seq<Block>, dir_cluster: u32, j: int) -> Seq<u8> {
    blocks[dir_blocks_start(fs, dir_cluster) + j / 16].bytes@
}

/// Where entry `j` of a directory starts in its block.
pub open spec fn dir_entry_offset(j: int) -> int {
    32 * (j % 16)
}

/// The eleven name bytes of entry `j` of a directory.
pub open spec fn dir_entry_name(fs: FAT32, blocks: Seq<Block>, dir_cluster: u32, j: int) -> Seq<u8> {
    dir_entry_block(fs, blocks, dir_cluster, j).subrange(dir_entry_offset(j), dir_entry_offset(j) + 11)
}

/// The first cluster entry `j` of a directory names.
pub open spec fn dir_entry_cluster(fs: FAT32, blocks: Seq<Block>, dir_cluster: u32, j: int) -> int {
    let b = dir_entry_block(fs, blocks, dir_cluster, j);
    let o = dir_entry_offset(j);
    le_u16(b, o + 26) + 65536 * le_u16(b, o + 20)
}

/// Entry `k` is the first entry of the directory whose name matches.
pub open spec fn first_named(fs: FAT32, blocks: Seq<Block>, dir_cluster: u32, query: Seq<u8>, k: int) -> bool {
    &&& 0 <= k < FAT_MAX_DIRECTORY_ENTRY_COUNT
    &&& name_matches(dir_entry_name(fs, blocks, dir_cluster, k), query)
    &&& forall|j: int| 0 <= j < k ==> !name_matches(#[trigger] dir_entry_name(fs, blocks, dir_cluster, j), query)
}

/// Entry `k` is the first free entry of a directory: the first that names
/// no cluster.
pub open spec fn first_free(fs: FAT32, blocks: Seq<Block>, dir_cluster: u32, k: int) -> bool {
    &&& dir_entry_cluster(fs, blocks, dir_cluster, k) == 0
    &&& forall|j: int| 0 <= j < k ==> #[trigger] dir_entry_cluster(fs, blocks, dir_cluster, j) != 0
}

/// The first entry of the directory whose name matches exists and has
/// attribute `attr`.
pub open spec fn named_with_attr(fs: FAT32, blocks: Seq<Block>, dir_cluster: u32, query: Seq<u8>, attr: u8) -> bool {
    exists|k: int| #[trigger] first_named(fs, blocks, dir_cluster, query, k) && dir_entry_attr(fs, blocks, dir_cluster, k) == attr
}

/// The attribute byte of entry `j` of a directory.
pub open spec fn dir_entry_attr(fs: FAT32, blocks: Seq<Block>, dir_cluster: u32, j: int) -> u8 {
    dir_entry_block(fs, blocks, dir_cluster, j)[dir_entry_offset(j) + 11]
}

/// The slot and name of each entry, among the first `n` of a directory,
/// that names a first cluster, in slot order.
pub open spec fn dir_listing(fs: FAT32, blocks: Seq<Block>, dir_cluster: u32, n: int) -> Seq<(usize, Seq<char>)>
    decreases n,
{
    if n <= 0 {
        Seq::empty()
    } else {
        let prev = dir_listing(fs, blocks, dir_cluster, n - 1);
        if dir_entry_cluster(fs, blocks, dir_cluster, n - 1) != 0 {
            prev.push(((n - 1) as usize, dir_entry_name(fs, blocks, dir_cluster, n - 1).map_values(|b: u8| b as char)))
        } else {
            prev
        }
    }
}

/// The device changed at most in the table sectors the table operations
/// address: the 128 blocks from the table's start.
pub open spec fn in_table_only(fs: FAT32, before: Seq<Block>, after: Seq<Block>) -> bool {
    &&& after.len() == before.len()
    &&& forall|j: int| 0 <= j < before.len() && !(fs.fat_addr <= j < fs.fat_addr + FAT_SECTOR_PER_CLUSTER_ENTRY)
        ==> #[trigger] after[j] == before[j]
}

/// What a directory holds depends of the volume only on where its data
/// area starts: two volumes that agree there read the same directory alike.
pub proof fn lemma_same_layout(a: FAT32, b: FAT32, blocks: Seq<Block>, dir_cluster: u32, query: Seq<u8>)
    requires
        a.data_addr == b.data_addr,
    ensures
        forall|k: int| #[trigger] dir_entry_name(a, blocks, dir_cluster, k) == dir_entry_name(b, blocks, dir_cluster, k),
        forall|k: int| #[trigger] dir_entry_attr(a, blocks, dir_cluster, k) == dir_entry_attr(b, blocks, dir_cluster, k),
        forall|k: int| #[trigger] dir_entry_cluster(a, blocks, dir_cluster, k) == dir_entry_cluster(b, blocks, dir_cluster, k),
        forall|k: int| #[trigger] first_named(a, blocks, dir_cluster, query, k) == first_named(b, blocks, dir_cluster, query, k),
        forall|attr: u8| #[trigger] named_with_attr(a, blocks, dir_cluster, query, attr)
            == named_with_attr(b, blocks, dir_cluster, query, attr),
        names_ascii(a, blocks, dir_cluster) == names_ascii(b, blocks, dir_cluster),
        forall|n: int| #[trigger] dir_listing(a, blocks, dir_cluster, n) == dir_listing(b, blocks, dir_cluster, n),
{
    assert forall|k: int| #[trigger] first_named(a, blocks, dir_cluster, query, k) == first_named(b, blocks, dir_cluster, query, k) by {
        assert(dir_entry_name(a, blocks, dir_cluster, k) == dir_entry_name(b, blocks, dir_cluster, k));
        if first_named(a, blocks, dir_cluster, query, k) {
            assert forall|j: int| 0 <= j < k implies !name_matches(#[trigger] dir_entry_name(b, blocks, dir_cluster, j), query) by {
                assert(dir_entry_name(a, blocks, dir_cluster, j) == dir_entry_name(b, blocks, dir_cluster, j));
            }
        }
        if first_named(b, blocks, dir_cluster, query, k) {
            assert forall|j: int| 0 <= j < k implies !name_matches(#[trigger] dir_entry_name(a, blocks, dir_cluster, j), query) by {
                assert(dir_entry_name(a, blocks, dir_cluster, j) == dir_entry_name(b, blocks, dir_cluster, j));
            }
        }
    }
    assert forall|attr: u8| #[trigger] named_with_attr(a, blocks, dir_cluster, query, attr)
        == named_with_attr(b, blocks, dir_cluster, query, attr) by {
        if named_with_attr(a, blocks, dir_cluster, query, attr) {
            let k = choose|k: int| #[trigger] first_named(a, blocks, dir_cluster, query, k) && dir_entry_attr(a, blocks, dir_cluster, k) == attr;
            assert(first_named(b, blocks, dir_cluster, query, k));
        }
        if named_with_attr(b, blocks, dir_cluster, query, attr) {
            let k = choose|k: int| #[trigger] first_named(b, blocks, dir_cluster, query, k) && dir_entry_attr(b, blocks, dir_cluster, k) == attr;
            assert(first_named(a, blocks, dir_cluster, query, k));
        }
    }
    assert(names_ascii(a, blocks, dir_cluster) == names_ascii(b, blocks, dir_cluster)) by {
        if names_ascii(a, blocks, dir_cluster) {
            assert forall|j: int| 0 <= j < FAT_MAX_DIRECTORY_ENTRY_COUNT && dir_entry_cluster(b, blocks, dir_cluster, j) != 0
                implies ascii_bytes(#[trigger] dir_entry_name(b, blocks, dir_cluster, j)) by {
                assert(dir_entry_name(a, blocks, dir_cluster, j) == dir_entry_name(b, blocks, dir_cluster, j));
                assert(dir_entry_cluster(a, blocks, dir_cluster, j) == dir_entry_cluster(b, blocks, dir_cluster, j));
            }
        }
        if names_ascii(b, blocks, dir_cluster) {
            assert forall|j: int| 0 <= j < FAT_MAX_DIRECTORY_ENTRY_COUNT && dir_entry_cluster(a, blocks, dir_cluster, j) != 0
                implies ascii_bytes(#[trigger] dir_entry_name(a, blocks, dir_cluster, j)) by {
                assert(dir_entry_name(a, blocks, dir_cluster, j) == dir_entry_name(b, blocks, dir_cluster, j));
                assert(dir_entry_cluster(a, blocks, dir_cluster, j) == dir_entry_cluster(b, blocks, dir_cluster, j));
            }
        }
    }
    assert forall|n: int| #[trigger] dir_listing(a, blocks, dir_cluster, n) == dir_listing(b, blocks, dir_cluster, n) by {
        lemma_same_listing(a, b, blocks, dir_cluster, n);
    }
}

proof fn lemma_same_listing(a: FAT32, b: FAT32, blocks: Seq<Block>, dir_cluster: u32, n: int)
    requires
        a.data_addr == b.data_addr,
    ensures
        dir_listing(a, blocks, dir_cluster, n) == dir_listing(b, blocks, dir_cluster, n),
    decreases n,
{
    if n > 0 {
        lemma_same_listing(a, b, blocks, dir_cluster, n - 1);
        assert(dir_entry_name(a, blocks, dir_cluster, n - 1) == dir_entry_name(b, blocks, dir_cluster, n - 1));
    }
}

/// Only one entry of a directory is the first whose name matches.
pub proof fn lemma_first_named_unique(fs: FAT32, blocks: Seq<Block>, dir_cluster: u32, query: Seq<u8>, k: int)
    requires
        first_named(fs, blocks, dir_cluster, query, k),
    ensures
        forall|j: int| #[trigger] first_named(fs, blocks, dir_cluster, query, j) ==> j == k,
{
    assert forall|j: int| #[trigger] first_named(fs, blocks, dir_cluster, query, j) implies j == k by {
        if j < k {
            assert(!name_matches(dir_entry_name(fs, blocks, dir_cluster, j), query));
        } else if j > k {
            assert(!name_matches(dir_entry_name(fs, blocks, dir_cluster, k), query));
        }
    }
}

/// Two devices that agree on the table sectors walk a served chain alike,
/// step by step.
proof fn lemma_chain_same_steps<D: BlockIO>(fs: FAT32, a: D, b: D, start: u32, n: nat, i: nat)
    requires
        chain_freeable(fs, a, start, n),
        same_device(a, b),
        forall|x: int| fs.fat_addr <= x < fs.fat_addr + FAT_SECTOR_PER_CLUSTER_ENTRY && 0 <= x < a.blocks().len()
            ==> #[trigger] b.blocks()[x] == a.blocks()[x],
        i <= n,
    ensures
        chain_nth(fs, b.blocks(), start, i) == chain_nth(fs, a.blocks(), start, i),
    decreases i,
{
    if i > 0 {
        let k = (i - 1) as nat;
        lemma_chain_same_steps(fs, a, b, start, n, k);
        let c = chain_nth(fs, a.blocks(), start, k);
        assert(chain_link(fs, a, c));
        lemma_chain_last(fs, a.blocks(), start, k);
        lemma_chain_last(fs, b.blocks(), start, k);
        assert(b.blocks()[fat_entry_addr(fs, c)] == a.blocks()[fat_entry_addr(fs, c)]);
    }
}

/// A served chain stays one on a device that agrees on the table sectors.
proof fn lemma_chain_frame<D: BlockIO>(fs: FAT32, a: D, b: D, start: u32, n: nat)
    requires
        chain_freeable(fs, a, start, n),
        same_device(a, b),
        forall|x: int| fs.fat_addr <= x < fs.fat_addr + FAT_SECTOR_PER_CLUSTER_ENTRY && 0 <= x < a.blocks().len()
            ==> #[trigger] b.blocks()[x] == a.blocks()[x],
    ensures
        chain_freeable(fs, b, start, n),
{
    assert forall|i: nat| i <= n implies #[trigger] chain_nth(fs, b.blocks(), start, i) == chain_nth(fs, a.blocks(), start, i) by {
        lemma_chain_same_steps(fs, a, b, start, n, i);
    }
    assert forall|i: nat| i < n implies chain_link(fs, b, #[trigger] chain_nth(fs, b.blocks(), start, i)) by {
        assert(chain_link(fs, a, chain_nth(fs, a.blocks(), start, i)));
    }
    assert forall|i: nat, j: nat| i < j < n implies #[trigger] chain_nth(fs, b.blocks(), start, i) % FAT_SECTOR_PER_CLUSTER_ENTRY
        != #[trigger] chain_nth(fs, b.blocks(), start, j) % FAT_SECTOR_PER_CLUSTER_ENTRY by {
        assert(chain_nth(fs, a.blocks(), start, i) % FAT_SECTOR_PER_CLUSTER_ENTRY
            != chain_nth(fs, a.blocks(), start, j) % FAT_SECTOR_PER_CLUSTER_ENTRY);
    }
}

/// One more step along a chain is the table entry of the cluster reached.
proof fn lemma_chain_last(fs: FAT32, blocks: Seq<Block>, cluster: u32, k: nat)
    ensures
        chain_nth(fs, blocks, cluster, k + 1) == fat_next(fs, blocks, chain_nth(fs, blocks, cluster, k)),
    decreases k,
{
    let next = fat_next(fs, blocks, cluster);
    assert(chain_nth(fs, blocks, cluster, k + 1) == chain_nth(fs, blocks, next, k));
    if k > 0 {
        lemma_chain_last(fs, blocks, next, (k - 1) as nat);
        assert(chain_nth(fs, blocks, cluster, k) == chain_nth(fs, blocks, next, (k - 1) as nat));
    }
}

/// The first block of data cluster `cluster`.
pub open spec fn cluster_start(fs: FAT32, cluster: u32) -> int {
    fs.data_addr + FAT_SECTOR_PER_CLUSTER * cluster
}

/// The device serves runs within it and holds data cluster `cluster` at an
/// address that fits.
pub open spec fn cluster_served<D: BlockIO>(fs: FAT32, device: D, cluster: u32) -> bool {
    &&& serving(device)
    &&& cluster_start(fs, cluster) <= u32::MAX
    &&& cluster_start(fs, cluster) + 8 <= device.blocks().len()
}

/// The device serves runs within it and holds block `addr`, which fits.
pub open spec fn block_served<D: BlockIO>(device: D, addr: int) -> bool {
    &&& serving(device)
    &&& 0 <= addr <= u32::MAX
    &&& addr + 1 <= device.blocks().len()
}

/// What putting `data` under `tag` into a cache of `entries` does to the
/// device: the dirty entry it replaces is written back, which a device that
/// serves its run stores.
pub open spec fn evicted_written<D: BlockIO>(entries: Seq<EntryView<Block>>, before: D, after: D) -> bool {
    &&& same_device(before, after)
    &&& (entries.len() == 0 || !entries[0].dirty) ==> after.blocks() == before.blocks()
    &&& (entries.len() > 0 && entries[0].dirty && serving(before) && entries[0].tag <= u32::MAX
        && entries[0].tag + entries[0].data.len() <= before.blocks().len())
        ==> after.blocks() == ram_write(before.blocks(), entries[0].tag as int, entries[0].data)
}

/// The device serves runs within it and holds, at addresses that fit, the
/// cluster the entries of directory `dir_cluster` are read from.
pub open spec fn dir_served<D: BlockIO>(fs: FAT32, device: D, dir_cluster: u32) -> bool {
    &&& cluster_start(fs, dir_cluster) <= u32::MAX
    &&& cluster_served(fs, device, cluster_start(fs, dir_cluster) as u32)
}

/// The volume's hint names a free cluster that the table search takes at
/// once, whose entry lies in the table on a device that serves it.
pub open spec fn cluster_ready<D: BlockIO>(fs: FAT32, device: D) -> bool {
    &&& fs.fat_size > 0
    &&& fs.fat_size * FAT_SECTOR_PER_CLUSTER_ENTRY <= u32::MAX
    &&& fs.next_free_cluster < u32::MAX
    &&& (fs.next_free_cluster + 1) % (FAT_SECTOR_PER_CLUSTER_ENTRY as int) != 0
    &&& fs.next_free_cluster / FAT_SECTOR_PER_CLUSTER_ENTRY < fs.fat_size
    &&& block_served(device, fat_entry_addr(fs, fs.next_free_cluster))
}

/// Every entry of the directory names a cluster: none is free.
pub open spec fn dir_full(fs: FAT32, blocks: Seq<Block>, dir_cluster: u32) -> bool {
    forall|j: int| 0 <= j < FAT_MAX_DIRECTORY_ENTRY_COUNT ==> #[trigger] dir_entry_cluster(fs, blocks, dir_cluster, j) != 0
}

/// Every byte is an ASCII character.
pub open spec fn ascii_bytes(b: Seq<u8>) -> bool {
    forall|i: int| 0 <= i < b.len() ==> #[trigger] b[i] < 128
}

/// Every entry of the directory that names a first cluster has an ASCII
/// name.
pub open spec fn names_ascii(fs: FAT32, blocks: Seq<Block>, dir_cluster: u32) -> bool {
    forall|j: int| 0 <= j < FAT_MAX_DIRECTORY_ENTRY_COUNT && dir_entry_cluster(fs, blocks, dir_cluster, j) != 0
        ==> ascii_bytes(#[trigger] dir_entry_name(fs, blocks, dir_cluster, j))
}

/// Cluster `c` is a chain of one whose table entry lies in the table on a
/// device that serves it.
pub open spec fn single_cluster<D: BlockIO>(fs: FAT32, device: D, c: u32) -> bool {
    &&& c != FAT_END_OF_CLUSTER
    &&& c / FAT_SECTOR_PER_CLUSTER_ENTRY < fs.fat_size
    &&& fs.fat_size * FAT_SECTOR_PER_CLUSTER_ENTRY <= u32::MAX
    &&& block_served(device, fat_entry_addr(fs, c))
    &&& fat_next(fs, device.blocks(), c) == FAT_END_OF_CLUSTER
}

/// No entry of the directory is a file or a directory.
pub open spec fn no_children(fs: FAT32, blocks: Seq<Block>, dir_cluster: u32) -> bool {
    forall|j: int| 0 <= j < FAT_MAX_DIRECTORY_ENTRY_COUNT ==> #[trigger] dir_entry_attr(fs, blocks, dir_cluster, j) != FAT_DIR_ATTRIBUTE_FILE
        && dir_entry_attr(fs, blocks, dir_cluster, j) != FAT_DIR_ATTRIBUTE_DIR
}

/// Cluster `c` is one of a chain: not its end, with its table entry in the
/// table on a device that serves it.
pub open spec fn chain_link<D: BlockIO>(fs: FAT32, device: D, c: u32) -> bool {
    &&& c != FAT_END_OF_CLUSTER
    &&& c / FAT_SECTOR_PER_CLUSTER_ENTRY < fs.fat_size
    &&& block_served(device, fat_entry_addr(fs, c))
}

/// The chain from `start` ends after `n` clusters, each a link with a table
/// entry of its own, and the table has room for `n` steps.
pub open spec fn chain_freeable<D: BlockIO>(fs: FAT32, device: D, start: u32, n: nat) -> bool {
    &&& fs.fat_size * FAT_SECTOR_PER_CLUSTER_ENTRY <= u32::MAX
    &&& n <= fs.fat_size * FAT_SECTOR_PER_CLUSTER_ENTRY
    &&& chain_nth(fs, device.blocks(), start, n) == FAT_END_OF_CLUSTER
    &&& forall|i: nat| i < n ==> chain_link(fs, device, #[trigger] chain_nth(fs, device.blocks(), start, i))
    &&& forall|i: nat, j: nat| i < j < n ==> #[trigger] chain_nth(fs, device.blocks(), start, i) % FAT_SECTOR_PER_CLUSTER_ENTRY
        != #[trigger] chain_nth(fs, device.blocks(), start, j) % FAT_SECTOR_PER_CLUSTER_ENTRY
}

/// Every entry of a cache is clean and holds what the device holds at its
/// tag: reads through the cache see the device.
pub open spec fn in_step(entries: Seq<EntryView<Block>>, blocks: Seq<Block>) -> bool {
    forall|k: int| 0 <= k < entries.len() ==> {
        &&& !(#[trigger] entries[k]).dirty
        &&& entries[k].tag + entries[k].data.len() <= blocks.len()
        &&& entries[k].data == ram_read(blocks, entries[k].tag as int, entries[k].data.len() as int)
    }
}

/// An address a cluster run can start at: not 0, fitting in 32 bits, in
/// the data area, and agreeing with its start modulo the eight blocks of a
/// run.
pub open spec fn run_addr(base: int, a: int) -> bool {
    0 < a <= u32::MAX && base <= a && a % 8 == base % 8
}

/// A cluster cache that reads cannot lose: entries tagged 0 are clean and
/// never asked for; every other entry holds eight blocks of a run that lies
/// on the device, no other entry has its tag, and a clean one holds what
/// the device holds there.
pub open spec fn cache_sound(entries: Seq<EntryView<Block>>, blocks: Seq<Block>, base: int) -> bool {
    forall|k: int| 0 <= k < entries.len() ==> {
        &&& (#[trigger] entries[k]).data.len() == 8
        &&& entries[k].tag == 0 ==> !entries[k].dirty
        &&& entries[k].tag != 0 ==> {
            &&& run_addr(base, entries[k].tag as int)
            &&& entries[k].tag + 8 <= blocks.len()
            &&& forall|j: int| 0 <= j < entries.len() && j != k ==> (#[trigger] entries[j]).tag != entries[k].tag
            &&& !entries[k].dirty ==> entries[k].data == ram_read(blocks, entries[k].tag as int, 8)
        }
    }
}

/// The eight blocks of the run at `a` as reads through the cache see them:
/// the cache's copy when it holds one, else the device's.
pub open spec fn run_view(entries: Seq<EntryView<Block>>, blocks: Seq<Block>, a: int) -> Seq<Block> {
    match first_match(entries, a as u64) {
        Some(k) => entries[k].data,
        None => ram_read(blocks, a, 8),
    }
}

/// Two different run addresses start runs that do not overlap.
proof fn lemma_runs_apart(base: int, t: int, u: int)
    requires
        run_addr(base, t),
        run_addr(base, u),
        t != u,
    ensures
        t + 8 <= u || u + 8 <= t,
{
    vstd::arithmetic::div_mod::lemma_fundamental_div_mod(t, 8);
    vstd::arithmetic::div_mod::lemma_fundamental_div_mod(u, 8);
    assert(t - u == 8 * (t / 8 - u / 8));
    if t / 8 == u / 8 {
        assert(t == u);
    }
}

/// In a sound cache the entry with a run address as its tag is the first
/// match for it.
proof fn lemma_sound_match(entries: Seq<EntryView<Block>>, blocks: Seq<Block>, base: int, a: int, k: int)
    requires
        cache_sound(entries, blocks, base),
        run_addr(base, a),
        0 <= k < entries.len(),
        entries[k].tag == a,
    ensures
        first_match(entries, a as u64) == Some(k),
{
    lemma_first_match(entries, a as u64);
    let f = first_match(entries, a as u64)->0;
    assert(entries[k].tag != 0);
    if f != k {
        assert(entries[f].tag != entries[k].tag);
    }
}

/// A write of the run at `t` leaves every other run as it was.
proof fn lemma_other_run_kept(base: int, blocks: Seq<Block>, t: int, data: Seq<Block>, u: int)
    requires
        run_addr(base, t),
        run_addr(base, u),
        t != u,
        data.len() == 8,
        t + 8 <= blocks.len(),
        u + 8 <= blocks.len(),
    ensures
        ram_read(ram_write(blocks, t, data), u, 8) == ram_read(blocks, u, 8),
{
    lemma_runs_apart(base, t, u);
    assert(ram_read(ram_write(blocks, t, data), u, 8) =~= ram_read(blocks, u, 8));
}

/// Putting `e` last in place of entry `m` keeps every run a reader sees but
/// `e`'s own, which then reads as `e` holds, and keeps the cache sound when
/// `e` is a sound entry whose tag no entry but `m` has.
proof fn lemma_touch_view(entries: Seq<EntryView<Block>>, blocks: Seq<Block>, base: int, m: int, e: EntryView<Block>)
    requires
        cache_sound(entries, blocks, base),
        0 <= m < entries.len(),
        run_addr(base, e.tag as int),
        e.tag + 8 <= blocks.len(),
        e.data.len() == 8,
        !e.dirty ==> e.data == ram_read(blocks, e.tag as int, 8),
        forall|j: int| 0 <= j < entries.len() && j != m ==> (#[trigger] entries[j]).tag != e.tag,
        entries[m].tag != 0 && entries[m].tag != e.tag ==> entries[m].data == ram_read(blocks, entries[m].tag as int, 8),
    ensures
        cache_sound(touch(entries, m, e), blocks, base),
        run_view(touch(entries, m, e), blocks, e.tag as int) == e.data,
        forall|a: int| run_addr(base, a) && a != e.tag && a != entries[m].tag
            ==> #[trigger] run_view(touch(entries, m, e), blocks, a) == run_view(entries, blocks, a),
        entries[m].tag != e.tag && run_addr(base, entries[m].tag as int)
            ==> run_view(touch(entries, m, e), blocks, entries[m].tag as int) == run_view(entries, blocks, entries[m].tag as int),
{
    let t = touch(entries, m, e);
    let n = entries.len();
    assert(t.len() == n);
    assert forall|i: int| 0 <= i < n implies (#[trigger] t[i]) == (if i < m { entries[i] } else if i < n - 1 { entries[i + 1] } else { e }) by {}
    assert forall|k: int| 0 <= k < t.len() implies {
        &&& (#[trigger] t[k]).data.len() == 8
        &&& t[k].tag == 0 ==> !t[k].dirty
        &&& t[k].tag != 0 ==> {
            &&& run_addr(base, t[k].tag as int)
            &&& t[k].tag + 8 <= blocks.len()
            &&& forall|j: int| 0 <= j < t.len() && j != k ==> (#[trigger] t[j]).tag != t[k].tag
            &&& !t[k].dirty ==> t[k].data == ram_read(blocks, t[k].tag as int, 8)
        }
    } by {
        let ok = if k < m { k } else if k < n - 1 { k + 1 } else { m };
        if k < n - 1 {
            assert(t[k] == entries[ok]);
            assert(entries[ok].data.len() == 8);
        }
        if t[k].tag != 0 {
            assert forall|j: int| 0 <= j < t.len() && j != k implies (#[trigger] t[j]).tag != t[k].tag by {
                let oj = if j < m { j } else if j < n - 1 { j + 1 } else { m };
                if j < n - 1 && k < n - 1 {
                    assert(t[j] == entries[oj]);
                    assert(oj != ok);
                    assert(entries[oj].tag != entries[ok].tag);
                } else if j == n - 1 {
                    assert(t[j] == e);
                    assert(t[k] == entries[ok]);
                    assert(ok != m);
                } else {
                    assert(t[k] == e);
                    assert(t[j] == entries[oj]);
                    assert(oj != m);
                }
            }
        }
    }
    lemma_sound_match(t, blocks, base, e.tag as int, n - 1);
    assert forall|a: int| run_addr(base, a) && a != e.tag && a != entries[m].tag
        implies #[trigger] run_view(t, blocks, a) == run_view(entries, blocks, a) by {
        lemma_first_match(entries, a as u64);
        lemma_first_match(t, a as u64);
        if first_match(entries, a as u64) is Some {
            let k = first_match(entries, a as u64)->0;
            assert(k != m);
            let tk = if k < m { k } else { k - 1 };
            assert(t[tk] == entries[k]);
            lemma_sound_match(t, blocks, base, a, tk);
        } else if first_match(t, a as u64) is Some {
            let k = first_match(t, a as u64)->0;
            if k < m {
                assert(t[k] == entries[k]);
            } else if k < n - 1 {
                assert(t[k] == entries[k + 1]);
            }
        }
    }
    if entries[m].tag != e.tag && run_addr(base, entries[m].tag as int) {
        let a = entries[m].tag as int;
        lemma_sound_match(entries, blocks, base, a, m);
        lemma_first_match(t, a as u64);
        if first_match(t, a as u64) is Some {
            let k = first_match(t, a as u64)->0;
            if k < m {
                assert(t[k] == entries[k]);
            } else if k < n - 1 {
                assert(t[k] == entries[k + 1]);
            }
        }
    }
}

/// Writing `data` at run `t` of a device under a sound cache, where any
/// entry tagged `t` already holds `data`, keeps the cache sound and every
/// other run a reader sees; the run at `t` then reads as `data`.
proof fn lemma_device_write(entries: Seq<EntryView<Block>>, blocks: Seq<Block>, base: int, t: int, data: Seq<Block>)
    requires
        cache_sound(entries, blocks, base),
        run_addr(base, t),
        t + 8 <= blocks.len(),
        data.len() == 8,
        forall|k: int| 0 <= k < entries.len() && entries[k].tag == t ==> (#[trigger] entries[k]).data == data,
    ensures
        cache_sound(entries, ram_write(blocks, t, data), base),
        run_view(entries, ram_write(blocks, t, data), t) == data,
        forall|a: int| run_addr(base, a) && a != t && a + 8 <= blocks.len()
            ==> #[trigger] run_view(entries, ram_write(blocks, t, data), a) == run_view(entries, blocks, a),
{
    let w = ram_write(blocks, t, data);
    assert(w.len() == blocks.len());
    assert(ram_read(w, t, 8) =~= data);
    assert forall|k: int| 0 <= k < entries.len() implies {
        &&& (#[trigger] entries[k]).data.len() == 8
        &&& entries[k].tag == 0 ==> !entries[k].dirty
        &&& entries[k].tag != 0 ==> {
            &&& run_addr(base, entries[k].tag as int)
            &&& entries[k].tag + 8 <= w.len()
            &&& forall|j: int| 0 <= j < entries.len() && j != k ==> (#[trigger] entries[j]).tag != entries[k].tag
            &&& !entries[k].dirty ==> entries[k].data == ram_read(w, entries[k].tag as int, 8)
        }
    } by {
        if entries[k].tag != 0 && entries[k].tag != t {
            lemma_other_run_kept(base, blocks, t, data, entries[k].tag as int);
        }
    }
    lemma_first_match(entries, t as u64);
    assert forall|a: int| run_addr(base, a) && a != t && a + 8 <= blocks.len()
        implies #[trigger] run_view(entries, w, a) == run_view(entries, blocks, a) by {
        lemma_other_run_kept(base, blocks, t, data, a);
    }
}

/// The device as reads through the cache see the run at `a`: the run is
/// what the cache shows of it, every other block as the device holds it.
pub open spec fn seen(entries: Seq<EntryView<Block>>, blocks: Seq<Block>, a: int) -> Seq<Block> {
    ram_write(blocks, a, run_view(entries, blocks, a))
}

/// Byte `i` of a read at position `ptr` from cluster `cluster`, as reads
/// through the cluster cache see it: the chain is followed on the device's
/// table, and each cluster reads as what the cache shows of its run.
pub open spec fn file_byte_seen(fs: FAT32, entries: Seq<EntryView<Block>>, blocks: Seq<Block>, cluster: u32, ptr: int, i: int) -> u8 {
    let c = chain_nth(fs, blocks, cluster, ((ptr % 4096 + i) / 4096) as nat);
    let off = (ptr + i) % 4096;
    run_view(entries, blocks, cluster_start(fs, c))[off / 512].bytes@[off % 512]
}

/// The data area starts past block 0, and the table entries that the first
/// `m` steps along the chain from `c` read lie before it: following the
/// chain never reads a block a cached run stands for.
pub open spec fn table_before_runs(fs: FAT32, blocks: Seq<Block>, c: u32, m: nat) -> bool {
    &&& 0 < fs.data_addr
    &&& forall|j: nat| j < m ==> fat_entry_addr(fs, #[trigger] chain_nth(fs, blocks, c, j)) < fs.data_addr
}

/// A served data cluster of such a volume starts a run.
proof fn lemma_cluster_run<D: BlockIO>(fs: FAT32, device: D, c: u32)
    requires
        cluster_served(fs, device, c),
        0 < fs.data_addr,
    ensures
        run_addr(fs.data_addr as int, cluster_start(fs, c)),
        cluster_start(fs, c) + 8 <= device.blocks().len(),
{
    vstd::arithmetic::div_mod::lemma_mod_multiples_vanish(c as int, fs.data_addr as int, 8);
}

/// Under a sound cache a run reads as eight blocks, and the device as seen
/// holds them at the run.
proof fn lemma_seen_run(entries: Seq<EntryView<Block>>, blocks: Seq<Block>, base: int, a: int)
    requires
        cache_sound(entries, blocks, base),
        run_addr(base, a),
        a + 8 <= blocks.len(),
    ensures
        run_view(entries, blocks, a).len() == 8,
        seen(entries, blocks, a).len() == blocks.len(),
        forall|q: int| 0 <= q < 8 ==> #[trigger] seen(entries, blocks, a)[a + q] == run_view(entries, blocks, a)[q],
{
    lemma_first_match(entries, a as u64);
}

/// A change of one block before the data area keeps a sound cache sound and
/// every run a reader sees.
proof fn lemma_block_below_runs(entries: Seq<EntryView<Block>>, blocks: Seq<Block>, after: Seq<Block>, base: int, e: int)
    requires
        cache_sound(entries, blocks, base),
        0 <= e < base,
        after.len() == blocks.len(),
        forall|i: int| 0 <= i < blocks.len() && i != e ==> after[i] == blocks[i],
    ensures
        cache_sound(entries, after, base),
        forall|x: int| run_addr(base, x) && x + 8 <= blocks.len()
            ==> #[trigger] run_view(entries, after, x) == run_view(entries, blocks, x),
{
    assert forall|k: int| 0 <= k < entries.len() implies {
        &&& (#[trigger] entries[k]).data.len() == 8
        &&& entries[k].tag == 0 ==> !entries[k].dirty
        &&& entries[k].tag != 0 ==> {
            &&& run_addr(base, entries[k].tag as int)
            &&& entries[k].tag + 8 <= after.len()
            &&& forall|j: int| 0 <= j < entries.len() && j != k ==> (#[trigger] entries[j]).tag != entries[k].tag
            &&& !entries[k].dirty ==> entries[k].data == ram_read(after, entries[k].tag as int, 8)
        }
    } by {
        if entries[k].tag != 0 {
            let t = entries[k].tag as int;
            assert(ram_read(after, t, 8) =~= ram_read(blocks, t, 8));
        }
    }
    assert forall|x: int| run_addr(base, x) && x + 8 <= blocks.len()
        implies #[trigger] run_view(entries, after, x) == run_view(entries, blocks, x) by {
        assert(ram_read(after, x, 8) =~= ram_read(blocks, x, 8));
    }
}

/// Reads through the volume see the device, which is modeled: the volume
/// keeps no cache, or its cluster cache is in step with the device.
pub open spec fn coherent<D: BlockIO>(fs: FAT32, device: D) -> bool {
    device.modeled() && (!fs.use_cache || in_step(fs.cluster_cache@, device.blocks()))
}

/// A cache in step with the device stays so when an entry in step is put
/// last.
proof fn lemma_touch_in_step(entries: Seq<EntryView<Block>>, k: int, e: EntryView<Block>, blocks: Seq<Block>)
    requires
        in_step(entries, blocks),
        0 <= k < entries.len(),
        in_step(seq![e], blocks),
    ensures
        in_step(touch(entries, k, e), blocks),
{
    let t = touch(entries, k, e);
    assert forall|i: int| 0 <= i < t.len() implies {
        &&& !(#[trigger] t[i]).dirty
        &&& t[i].tag + t[i].data.len() <= blocks.len()
        &&& t[i].data == ram_read(blocks, t[i].tag as int, t[i].data.len() as int)
    } by {
        if i < k {
            assert(t[i] == entries[i]);
        } else if i < entries.len() - 1 {
            assert(t[i] == entries[i + 1]);
        } else {
            assert(t[i] == seq![e][0]);
        }
    }
}

/// The device serves cluster `c` and, for `m` more steps along its chain,
/// the table entry of the cluster reached and the cluster it leads to,
/// until the chain ends.
pub open spec fn chain_readable<D: BlockIO>(fs: FAT32, device: D, c: u32, m: nat) -> bool
    decreases m,
{
    &&& cluster_served(fs, device, c)
    &&& m > 0 ==> {
        &&& c / FAT_SECTOR_PER_CLUSTER_ENTRY < fs.fat_size
        &&& block_served(device, fat_entry_addr(fs, c))
        &&& (fat_next(fs, device.blocks(), c) == FAT_END_OF_CLUSTER
            || chain_readable(fs, device, fat_next(fs, device.blocks(), c), (m - 1) as nat))
    }
}

/// Data cluster `c` lies apart from the blocks that hold table entries.
pub open spec fn cluster_apart(fs: FAT32, c: u32) -> bool {
    cluster_start(fs, c) + 8 <= fs.fat_addr || fs.fat_addr + FAT_SECTOR_PER_CLUSTER_ENTRY <= cluster_start(fs, c)
}

/// Two devices hold the same blocks where table entries are kept.
pub open spec fn table_kept(fs: FAT32, a: Seq<Block>, b: Seq<Block>) -> bool {
    &&& a.len() == b.len()
    &&& forall|x: int| fs.fat_addr <= x < fs.fat_addr + FAT_SECTOR_PER_CLUSTER_ENTRY && 0 <= x < a.len()
        ==> #[trigger] b[x] == a[x]
}

/// The chain from `c` goes on for `m` steps without ending, through
/// clusters that differ from each other and from directory cluster `dir`,
/// whose entries' blocks lie apart from the table entries.
pub open spec fn chain_spread(fs: FAT32, blocks: Seq<Block>, c: u32, m: nat, dir: u32) -> bool {
    &&& forall|j: nat| j < m ==> fat_next(fs, blocks, #[trigger] chain_nth(fs, blocks, c, j)) != FAT_END_OF_CLUSTER
    &&& forall|i: nat, j: nat| i < j <= m ==> #[trigger] chain_nth(fs, blocks, c, i) != #[trigger] chain_nth(fs, blocks, c, j)
    &&& forall|j: nat| j <= m ==> #[trigger] chain_nth(fs, blocks, c, j) != fs.data_addr + FAT_SECTOR_PER_CLUSTER * dir
    &&& dir_blocks_start(fs, dir) + 8 <= fs.fat_addr || fs.fat_addr + FAT_SECTOR_PER_CLUSTER_ENTRY <= dir_blocks_start(fs, dir)
}

/// Following a readable chain that does not end keeps it readable for the
/// steps left.
proof fn lemma_readable_along<D: BlockIO>(fs: FAT32, device: D, c: u32, m: nat, j: nat)
    requires
        chain_readable(fs, device, c, m),
        j <= m,
        forall|i: nat| i < j ==> fat_next(fs, device.blocks(), #[trigger] chain_nth(fs, device.blocks(), c, i)) != FAT_END_OF_CLUSTER,
    ensures
        chain_readable(fs, device, chain_nth(fs, device.blocks(), c, j), (m - j) as nat),
    decreases j,
{
    if j > 0 {
        let b = device.blocks();
        let n = fat_next(fs, b, c);
        assert(chain_nth(fs, b, c, 0) == c);
        assert forall|i: nat| i < j - 1 implies fat_next(fs, b, #[trigger] chain_nth(fs, b, n, i)) != FAT_END_OF_CLUSTER by {
            assert(chain_nth(fs, b, c, i + 1) == chain_nth(fs, b, n, i));
        }
        lemma_readable_along(fs, device, n, (m - 1) as nat, (j - 1) as nat);
        assert(chain_nth(fs, b, c, j) == chain_nth(fs, b, n, (j - 1) as nat));
    }
}

/// Two devices that agree on the table entries a chain reads agree on the
/// chain.
proof fn lemma_chain_table_kept(fs: FAT32, a: Seq<Block>, b: Seq<Block>, c: u32, k: nat)
    requires
        forall|j: nat| j < k ==> fat_entry_addr(fs, #[trigger] chain_nth(fs, a, c, j)) < a.len()
            && b[fat_entry_addr(fs, chain_nth(fs, a, c, j))] == a[fat_entry_addr(fs, chain_nth(fs, a, c, j))],
    ensures
        chain_nth(fs, b, c, k) == chain_nth(fs, a, c, k),
    decreases k,
{
    if k > 0 {
        let p = (k - 1) as nat;
        lemma_chain_table_kept(fs, a, b, c, p);
        lemma_chain_last(fs, a, c, p);
        lemma_chain_last(fs, b, c, p);
        let x = chain_nth(fs, a, c, p);
        assert(b[fat_entry_addr(fs, x)] == a[fat_entry_addr(fs, x)]);
    }
}

/// Writing a whole cluster changes that cluster's blocks and no other
/// cluster's.
proof fn lemma_cluster_write(fs: FAT32, blocks: Seq<Block>, a: u32, b: u32, data: Seq<Block>)
    requires
        data.len() == 8,
        cluster_start(fs, a) + 8 <= blocks.len(),
        cluster_start(fs, b) + 8 <= blocks.len(),
    ensures
        cluster_blocks(fs, ram_write(blocks, cluster_start(fs, a), data), b)
            == (if a == b { data } else { cluster_blocks(fs, blocks, b) }),
{
    let w = ram_write(blocks, cluster_start(fs, a), data);
    if a == b {
        assert(cluster_blocks(fs, w, b) =~= data);
    } else {
        assert(cluster_blocks(fs, w, b) =~= cluster_blocks(fs, blocks, b));
    }
}

/// A write that is at cluster `c`, whose chain has ended, can go on for `m`
/// more cluster ends: each time the hint `nf` and the clusters after it are
/// taken at once by the table search, their entries and `c`'s lie in the
/// table on the device, and each new cluster is served and lies apart from
/// the entries.
pub open spec fn grow_room<D: BlockIO>(fs: FAT32, device: D, nf: u32, c: u32, m: nat) -> bool
    decreases m,
{
    &&& cluster_served(fs, device, c)
    &&& cluster_apart(fs, c)
    &&& m > 0 ==> {
        &&& c / FAT_SECTOR_PER_CLUSTER_ENTRY < fs.fat_size
        &&& block_served(device, fat_entry_addr(fs, c))
        &&& fs.fat_size * FAT_SECTOR_PER_CLUSTER_ENTRY <= u32::MAX
        &&& nf < u32::MAX
        &&& (nf + 1) % (FAT_SECTOR_PER_CLUSTER_ENTRY as int) != 0
        &&& nf / FAT_SECTOR_PER_CLUSTER_ENTRY < fs.fat_size
        &&& block_served(device, fat_entry_addr(fs, nf))
        &&& grow_room(fs, device, (nf + 1) as u32, nf, (m - 1) as nat)
    }
}

/// A write at cluster `c` can go on for `m` more cluster ends: along the
/// chain while it lasts, then growing it as `grow_room` says; every cluster
/// is served and lies apart from the table entries, every entry read lies
/// in the table on the device.
pub open spec fn write_room<D: BlockIO>(fs: FAT32, device: D, nf: u32, c: u32, m: nat) -> bool
    decreases m,
{
    &&& cluster_served(fs, device, c)
    &&& cluster_apart(fs, c)
    &&& m > 0 ==> {
        &&& c / FAT_SECTOR_PER_CLUSTER_ENTRY < fs.fat_size
        &&& block_served(device, fat_entry_addr(fs, c))
        &&& if fat_next(fs, device.blocks(), c) == FAT_END_OF_CLUSTER {
            grow_room(fs, device, nf, c, m)
        } else {
            write_room(fs, device, nf, fat_next(fs, device.blocks(), c), (m - 1) as nat)
        }
    }
}

/// The entries of a cache after `data` is put under `tag`.
pub open spec fn cached(entries: Seq<EntryView<Block>>, tag: u64, data: Seq<Block>) -> Seq<EntryView<Block>> {
    if entries.len() == 0 { entries } else { touch(entries, 0, EntryView { tag, dirty: false, data }) }
}

impl FAT32 {
    /// The invariant of the caches: every cached table sector is one block,
    /// every cached cluster eight.
    pub open spec fn wf(&self) -> bool {
        &&& self.fat_cache.wf()
        &&& self.cluster_cache.wf()
        &&& forall|k: int| 0 <= k < self.fat_cache@.len() ==> (#[trigger] self.fat_cache@[k]).data.len() == 1
        &&& forall|k: int| 0 <= k < self.cluster_cache@.len() ==> (#[trigger] self.cluster_cache@[k]).data.len() == self.sector_per_cluster
    }

    /// The geometry the operations work with: 512-byte sectors, eight per
    /// cluster.
    pub open spec fn supported(&self) -> bool {
        self.wf() && self.byte_per_sector == 512 && self.sector_per_cluster == FAT_SECTOR_PER_CLUSTER
    }

    /// Whether the volume has the geometry the operations work with.
    pub fn is_supported(&self) -> (r: bool)
        requires
            self.wf(),
        ensures
            r == self.supported(),
    {
        self.byte_per_sector == 512 && self.sector_per_cluster == FAT_SECTOR_PER_CLUSTER
    }

    fn caches(sector_per_cluster: u8) -> (r: (Cache<Block>, Cache<Block>))
        ensures
            r.0.wf(),
            r.1.wf(),
            forall|k: int| 0 <= k < r.0@.len() ==> (#[trigger] r.0@[k]).data.len() == 1,
            forall|k: int| 0 <= k < r.1@.len() ==> (#[trigger] r.1@[k]).data.len() == sector_per_cluster,
    {
        let fat_cache = Cache::new(1, FAT32_CACHE_SIZE, Block::empty());
        let cluster_cache = Cache::new(sector_per_cluster as usize, FAT32_CACHE_SIZE, Block::empty());
        (fat_cache, cluster_cache)
    }

    /// The two sectors at `start_addr` lie on the device, and the table and
    /// data addresses the boot sector leads to fit in 32 bits.
    pub open spec fn mountable(blocks: Seq<Block>, start_addr: u32) -> bool {
        let hdr = blocks[start_addr as int].bytes@;
        &&& start_addr + 1 < blocks.len()
        &&& start_addr < u32::MAX
        &&& start_addr + 32 <= u32::MAX
        &&& start_addr + le_u16(hdr, 14) + 2 * le_u32(hdr, 36) <= u32::MAX
    }

    /// Reads the boot sector at `start_addr` and the FS information sector
    /// after it, whatever the geometry they give. Fails when a read fails or
    /// when an address would not fit in 32 bits.
    pub fn mount<D: BlockIO>(device: &mut D, start_addr: u32, volume_size: u32, use_cache: bool) -> (r: Result<Self, ()>)
        ensures
            final(device).blocks() == old(device).blocks(),
            serving(*final(device)) == serving(*old(device)),
            final(device).modeled() == old(device).modeled(),
            old(device).modeled() && r is Ok ==> Self::mountable(old(device).blocks(), start_addr),
            serving(*old(device)) && Self::mountable(old(device).blocks(), start_addr) ==> r is Ok,
            r matches Ok(fs) ==> fs.wf() && fs.start_addr == start_addr && fs.fat_addr == start_addr + 32
                && fs.use_cache == use_cache,
            old(device).modeled() && r is Ok ==> {
                let fs = r->Ok_0;
                let hdr = old(device).blocks()[start_addr as int].bytes@;
                let info = old(device).blocks()[start_addr + 1].bytes@;
                &&& start_addr + 1 < old(device).blocks().len()
                &&& fs.wf()
                &&& fs.start_addr == start_addr
                &&& fs.volume_size == le_u32(hdr, 32)
                &&& fs.reserved_sector_count == le_u16(hdr, 14)
                &&& fs.byte_per_sector == le_u16(hdr, 11)
                &&& fs.sector_per_cluster == hdr[13]
                &&& fs.fat_addr == start_addr + 32
                &&& fs.fat_size == le_u32(hdr, 36)
                &&& fs.fat2_addr == start_addr + le_u16(hdr, 14) + le_u32(hdr, 36)
                &&& fs.data_addr == start_addr + le_u16(hdr, 14) + 2 * le_u32(hdr, 36)
                &&& fs.free_cluster_count == le_u32(info, 488)
                &&& fs.next_free_cluster == le_u32(info, 492)
                &&& fs.root_directory_cluster == le_u32(hdr, 44)
                &&& fs.use_cache == use_cache
            },
    {
        let mut buffer: Vec<Block> = vec![Block::empty()];
        match device.read(start_addr, &mut buffer) {
            Ok(_) => {},
            Err(_) => return Err(()),
        }
        let header = FAT32Header { block: buffer[0] };
        let byte_per_sector = header.byte_per_sector();
        let sector_per_cluster = header.sector_per_clustor();
        let reserved_sector_count = header.reserved_sector_count();
        let total_sector = header.total_sector32();
        let fat_size = header.fat_size();
        let root_directory_cluster = header.root_directory_clustor();
        if start_addr == u32::MAX {
            return Err(());
        }
        let ghost blocks = device.blocks();
        match device.read(start_addr + 1, &mut buffer) {
            Ok(_) => {},
            Err(_) => return Err(()),
        }
        let fs_info = FsInfo { block: buffer[0] };
        let free_cluster_count = fs_info.free_clustor_count();
        let next_free_cluster = fs_info.next_free_clustor();
        let fat_addr = match start_addr.checked_add(32) {
            Some(a) => a,
            None => return Err(()),
        };
        let base = match start_addr.checked_add(reserved_sector_count as u32) {
            Some(a) => a,
            None => return Err(()),
        };
        let fat2_addr = match base.checked_add(fat_size) {
            Some(a) => a,
            None => return Err(()),
        };
        let data_addr = match fat2_addr.checked_add(fat_size) {
            Some(a) => a,
            None => return Err(()),
        };
        let (fat_cache, cluster_cache) = Self::caches(sector_per_cluster);
        Ok(Self {
            start_addr,
            volume_size: total_sector,
            reserved_sector_count: reserved_sector_count as u32,
            byte_per_sector,
            sector_per_cluster,
            fat_addr,
            fat_size,
            fat2_addr,
            data_addr,
            free_cluster_count,
            next_free_cluster,
            root_directory_cluster,
            use_cache,
            fat_cache,
            cluster_cache,
        })
    }

    /// Writes a fresh FAT32 volume of `volume_size` sectors at `start_addr`:
    /// the boot sector, the FS information sector, and the first sector of
    /// both tables with clusters 0 to 2 ending their chains. The first
    /// failing write fails the format.
    pub fn format<D: BlockIO>(device: &mut D, start_addr: u32, volume_size: u32, use_cache: bool) -> (r: Result<Self, ()>)
        requires
            format_fits(start_addr as int, volume_size as int),
        ensures
            same_device(*old(device), *final(device)),
            serving(*old(device)) && start_addr + FAT32_RESERVED_SECTOR_COUNT + format_fat_size(volume_size as int) + 1
                <= old(device).blocks().len() ==> r is Ok,
            old(device).modeled() && r is Ok ==> forall|j: int| 0 <= j < start_addr && j < old(device).blocks().len()
                ==> #[trigger] final(device).blocks()[j] == old(device).blocks()[j],
            r matches Ok(fs) ==> {
                let fat_size = format_fat_size(volume_size as int);
                let fat_addr = start_addr + FAT32_RESERVED_SECTOR_COUNT;
                let fat2_addr = fat_addr + fat_size;
                &&& fs.wf()
                &&& fs.supported()
                &&& fs.start_addr == start_addr
                &&& fs.volume_size == volume_size
                &&& fs.reserved_sector_count == FAT32_RESERVED_SECTOR_COUNT
                &&& fs.fat_addr == fat_addr
                &&& fs.fat_size == fat_size
                &&& fs.fat2_addr == fat2_addr
                &&& fs.data_addr == fat_addr + 2 * fat_size
                &&& fs.free_cluster_count == format_data_clusters(volume_size as int) - 1
                &&& fs.next_free_cluster == 3
                &&& fs.root_directory_cluster == FAT32_ROOT_DIRECTORY_CLUSTER
                &&& fs.use_cache == use_cache
                &&& old(device).modeled() ==> exists|h: Block, i: Block, f: Block| {
                    &&& format_header(h.bytes@, volume_size, fat_size as u32)
                    &&& format_fs_info(i.bytes@, (format_data_clusters(volume_size as int) - 1) as u32, 3)
                    &&& format_fat(f.bytes@)
                    &&& final(device).blocks() == ram_write(ram_write(ram_write(ram_write(old(device).blocks(),
                        start_addr as int, seq![h]), start_addr + 1, seq![i]), fat_addr, seq![f]), fat2_addr, seq![f])
                }
            },
    {
        let cluster_count = (volume_size - 32) / 8;
        let fat_size = (cluster_count + FAT_SECTOR_PER_CLUSTER_ENTRY - 1) / FAT_SECTOR_PER_CLUSTER_ENTRY;
        let data_cluster_count = (volume_size - 32 - fat_size * 2) / 8;
        let fat_size = (data_cluster_count + FAT_SECTOR_PER_CLUSTER_ENTRY - 1) / FAT_SECTOR_PER_CLUSTER_ENTRY;

        let mut header = FAT32Header::empty();
        let ghost h0 = header.block.bytes@;
        header.block.write_u16_at(11, 512);
        header.block.set_u8(13, FAT_SECTOR_PER_CLUSTER);
        header.block.write_u16_at(14, 32);
        header.block.set_u8(21, 0xF8);
        header.block.write_u32_at(32, volume_size);
        header.block.write_u32_at(44, 2);
        header.block.write_u32_at(36, fat_size);
        let hb = header.as_block();
        proof {
            assert(format_header(hb.bytes@, volume_size, fat_size));
        }
        let ghost d0 = device.blocks();
        let buffer = vec![hb];
        match device.write(start_addr, &buffer) {
            Ok(_) => {},
            Err(_) => return Err(()),
        }
        let ghost d1 = device.blocks();

        let mut fs_info = FsInfo::empty();
        fs_info.block.write_u32_at(488, data_cluster_count - 1);
        fs_info.block.write_u32_at(492, 3);
        let ib = fs_info.as_block();
        proof {
            assert(format_fs_info(ib.bytes@, (data_cluster_count - 1) as u32, 3));
        }
        let buffer = vec![ib];
        match device.write(start_addr + 1, &buffer) {
            Ok(_) => {},
            Err(_) => return Err(()),
        }
        let ghost d2 = device.blocks();

        let fat_addr = start_addr + FAT32_RESERVED_SECTOR_COUNT;
        let fat2_addr = start_addr + FAT32_RESERVED_SECTOR_COUNT + fat_size;

        let mut fat_block = Block::empty();
        fat_block.set_u32(0, FAT_END_OF_CLUSTER);
        fat_block.set_u32(1, FAT_END_OF_CLUSTER);
        fat_block.set_u32(2, FAT_END_OF_CLUSTER);
        proof {
            assert(format_fat(fat_block.bytes@));
        }
        let fat_buffer: Vec<Block> = vec![fat_block];
        match device.write(fat_addr, &fat_buffer) {
            Ok(_) => {},
            Err(_) => return Err(()),
        }
        let ghost d3 = device.blocks();
        match device.write(fat2_addr, &fat_buffer) {
            Ok(_) => {},
            Err(_) => return Err(()),
        }
        proof {
            assert(buffer@ =~= seq![ib]);
            assert(fat_buffer@ =~= seq![fat_block]);
            if old(device).modeled() {
                assert(d1 == ram_write(d0, start_addr as int, seq![hb]));
                assert(device.blocks() == ram_write(ram_write(ram_write(ram_write(d0,
                    start_addr as int, seq![hb]), start_addr + 1, seq![ib]), fat_addr as int, seq![fat_block]), fat2_addr as int, seq![fat_block]));
            }
        }
        let (fat_cache, cluster_cache) = Self::caches(FAT_SECTOR_PER_CLUSTER);
        Ok(Self {
            start_addr,
            volume_size,
            reserved_sector_count: FAT32_RESERVED_SECTOR_COUNT,
            byte_per_sector: 512,
            sector_per_cluster: FAT_SECTOR_PER_CLUSTER,
            fat_addr,
            fat_size,
            fat2_addr,
            data_addr: start_addr + FAT32_RESERVED_SECTOR_COUNT + fat_size * 2,
            free_cluster_count: data_cluster_count - 1,
            next_free_cluster: 3,
            root_directory_cluster: 2,
            use_cache,
            fat_cache,
            cluster_cache,
        })
    }

    /// Reads table sector `offset`. A cached sector answers `Ok(1)` and
    /// leaves the buffer as it is; otherwise the device is read and the
    /// sector cached, writing out the dirty sector it replaces.
    fn get_fat_sector<D: BlockIO>(&mut self, device: &mut D, offset: u32, buffer: &mut Vec<Block>) -> (r: Result<usize, usize>)
        requires
            old(self).wf(),
            old(buffer)@.len() == 1,
        ensures
            final(self).wf(),
            final(buffer)@.len() == 1,
            final(self).fat_addr == old(self).fat_addr,
            final(self).fat_size == old(self).fat_size,
            final(self).data_addr == old(self).data_addr,
            final(self).next_free_cluster == old(self).next_free_cluster,
            final(self).byte_per_sector == old(self).byte_per_sector,
            final(self).sector_per_cluster == old(self).sector_per_cluster,
            final(self).use_cache == old(self).use_cache,
            final(self).cluster_cache == old(self).cluster_cache,
            same_device(*old(device), *final(device)),
            !old(self).use_cache ==> *final(self) == *old(self) && final(device).blocks() == old(device).blocks()
                && (old(device).modeled() && r is Ok ==> final(buffer)@ == ram_read(old(device).blocks(), old(self).fat_addr + offset, 1)),
            block_served(*old(device), old(self).fat_addr + offset) ==> r is Ok,
            old(self).use_cache && old(self).fat_addr + offset <= u32::MAX
                && first_match(old(self).fat_cache@, (old(self).fat_addr + offset) as u64) is Some
                ==> r == Ok::<usize, usize>(1) && final(buffer)@ == old(buffer)@ && final(device).blocks() == old(device).blocks(),
    {
        let addr = match self.fat_addr.checked_add(offset) {
            Some(a) => a,
            None => return Err(0),
        };
        if self.use_cache {
            let ghost before = self.fat_cache@;
            proof {
                lemma_first_match(before, addr as u64);
            }
            match self.fat_cache.read_from_cache(addr as u64) {
                Ok(_) => {
                    proof {
                        let m = first_match(before, addr as u64)->0;
                        lemma_touch_keeps_len(before, m, before[m], 1);
                    }
                    Ok(1)
                },
                Err(_) => {
                    let res = device.read(addr, buffer);
                    self.cache_fat_sector(device, addr, buffer);
                    res
                },
            }
        } else {
            device.read(addr, buffer)
        }
    }

    /// Puts a table sector in the cache; a dirty sector it replaces is
    /// written to the device.
    fn cache_fat_sector<D: BlockIO>(&mut self, device: &mut D, addr: u32, buffer: &Vec<Block>)
        requires
            old(self).wf(),
            buffer@.len() == 1,
        ensures
            final(self).wf(),
            final(self).fat_addr == old(self).fat_addr,
            final(self).fat_size == old(self).fat_size,
            final(self).data_addr == old(self).data_addr,
            final(self).next_free_cluster == old(self).next_free_cluster,
            final(self).byte_per_sector == old(self).byte_per_sector,
            final(self).sector_per_cluster == old(self).sector_per_cluster,
            final(self).use_cache == old(self).use_cache,
            final(self).cluster_cache == old(self).cluster_cache,
            final(self).fat_cache@ == cached(old(self).fat_cache@, addr as u64, buffer@),
            evicted_written(old(self).fat_cache@, *old(device), *final(device)),
    {
        let ghost before = self.fat_cache@;
        if let Ok(Some((address, data))) = self.fat_cache.allocate_cache(addr as u64, buffer) {
            let _ = device.write(address as u32, &data);
        }
        proof {
            if before.len() > 0 {
                lemma_touch_keeps_len(before, 0, EntryView { tag: addr as u64, dirty: false, data: buffer@ }, 1);
            }
        }
    }

    /// Writes table sector `offset`: into the cache when it holds the
    /// sector, else to the device, caching it.
    fn set_fat_sector<D: BlockIO>(&mut self, device: &mut D, offset: u32, buffer: &Vec<Block>) -> (r: Result<usize, usize>)
        requires
            old(self).wf(),
            buffer@.len() == 1,
        ensures
            final(self).wf(),
            final(self).fat_addr == old(self).fat_addr,
            final(self).fat_size == old(self).fat_size,
            final(self).data_addr == old(self).data_addr,
            final(self).next_free_cluster == old(self).next_free_cluster,
            final(self).byte_per_sector == old(self).byte_per_sector,
            final(self).sector_per_cluster == old(self).sector_per_cluster,
            final(self).use_cache == old(self).use_cache,
            final(self).cluster_cache == old(self).cluster_cache,
            same_device(*old(device), *final(device)),
            !old(self).use_cache ==> *final(self) == *old(self)
                && (old(device).modeled() && r is Ok ==> final(device).blocks() == ram_write(old(device).blocks(), old(self).fat_addr + offset, buffer@)),
            block_served(*old(device), old(self).fat_addr + offset) ==> r is Ok,
            old(self).use_cache && old(self).fat_addr + offset <= u32::MAX
                ==> (first_match(old(self).fat_cache@, (old(self).fat_addr + offset) as u64) matches Some(k)
                ==> r is Ok && final(device).blocks() == old(device).blocks()
                    && final(self).fat_cache@ == touch(old(self).fat_cache@, k,
                        EntryView { tag: (old(self).fat_addr + offset) as u64, dirty: true, data: buffer@ })),
    {
        let addr = match self.fat_addr.checked_add(offset) {
            Some(a) => a,
            None => return Err(0),
        };
        if self.use_cache {
            let ghost before = self.fat_cache@;
            proof {
                lemma_first_match(before, addr as u64);
            }
            if self.fat_cache.write_to_cache(addr as u64, buffer).is_ok() {
                proof {
                    let m = first_match(before, addr as u64)->0;
                    lemma_touch_keeps_len(before, m, EntryView { tag: addr as u64, dirty: true, data: buffer@ }, 1);
                }
                Ok(1)
            } else {
                let res = device.write(addr, buffer);
                self.cache_fat_sector(device, addr, buffer);
                res
            }
        } else {
            device.write(addr, buffer)
        }
    }

    /// The first cluster it finds free after the current hint, scanning the
    /// whole table from one past the hint and wrapping around; the hint moves
    /// to the cluster found and the old hint is what comes back. Table
    /// sectors are read when the scan reaches a sector boundary.
    fn get_free_cluster<D: BlockIO>(&mut self, device: &mut D) -> (r: Result<u32, ()>)
        requires
            old(self).wf(),
        ensures
            final(self).wf(),
            r matches Ok(c) ==> c == old(self).next_free_cluster,
            final(self).fat_addr == old(self).fat_addr,
            final(self).fat_size == old(self).fat_size,
            final(self).data_addr == old(self).data_addr,
            final(self).byte_per_sector == old(self).byte_per_sector,
            final(self).sector_per_cluster == old(self).sector_per_cluster,
            final(self).use_cache == old(self).use_cache,
            final(self).cluster_cache == old(self).cluster_cache,
            same_device(*old(device), *final(device)),
            !old(self).use_cache ==> final(device).blocks() == old(device).blocks(),
            old(self).fat_size == 0 || old(self).fat_size * FAT_SECTOR_PER_CLUSTER_ENTRY > u32::MAX ==> r is Err,
            ({
                &&& old(self).fat_size > 0
                &&& old(self).fat_size * FAT_SECTOR_PER_CLUSTER_ENTRY <= u32::MAX
                &&& old(self).next_free_cluster < u32::MAX
                &&& (old(self).next_free_cluster + 1) % (FAT_SECTOR_PER_CLUSTER_ENTRY as int) != 0
            }) ==> {
                &&& r == Ok::<u32, ()>(old(self).next_free_cluster)
                &&& final(self).next_free_cluster == old(self).next_free_cluster + 1
                &&& final(self).fat_cache == old(self).fat_cache
                &&& final(device).blocks() == old(device).blocks()
            },
    {
        let ghost common = {
            &&& old(self).fat_size > 0
            &&& old(self).fat_size * FAT_SECTOR_PER_CLUSTER_ENTRY <= u32::MAX
            &&& old(self).next_free_cluster < u32::MAX
            &&& (old(self).next_free_cluster + 1) % (FAT_SECTOR_PER_CLUSTER_ENTRY as int) != 0
        };
        let free_cluster = self.next_free_cluster;
        let cluster_entry_size = match self.fat_size.checked_mul(FAT_SECTOR_PER_CLUSTER_ENTRY) {
            Some(n) => n,
            None => return Err(()),
        };
        let mut buffer: Vec<Block> = vec![Block::empty()];
        let mut cluster_offset: u32 = 1;
        while cluster_offset <= cluster_entry_size
            invariant
                self.wf(),
                buffer@.len() == 1,
                free_cluster == old(self).next_free_cluster,
                self.next_free_cluster == old(self).next_free_cluster,
                self.fat_addr == old(self).fat_addr,
                self.fat_size == old(self).fat_size,
                self.data_addr == old(self).data_addr,
                self.byte_per_sector == old(self).byte_per_sector,
                self.sector_per_cluster == old(self).sector_per_cluster,
                self.use_cache == old(self).use_cache,
                self.cluster_cache == old(self).cluster_cache,
                cluster_offset >= 1,
                same_device(*old(device), *device),
                !self.use_cache ==> device.blocks() == old(device).blocks(),
                common == ({
                    &&& old(self).fat_size > 0
                    &&& old(self).fat_size * FAT_SECTOR_PER_CLUSTER_ENTRY <= u32::MAX
                    &&& old(self).next_free_cluster < u32::MAX
                    &&& (old(self).next_free_cluster + 1) % (FAT_SECTOR_PER_CLUSTER_ENTRY as int) != 0
                }),
                cluster_entry_size == old(self).fat_size * FAT_SECTOR_PER_CLUSTER_ENTRY,
                common ==> cluster_offset == 1 && buffer@[0].is_zero() && self.fat_cache == old(self).fat_cache
                    && device.blocks() == old(device).blocks(),
            ensures
                cluster_offset > cluster_entry_size || cluster_offset == u32::MAX,
            decreases cluster_entry_size - cluster_offset + 1,
        {
            let next_free_cluster = free_cluster.wrapping_add(cluster_offset);
            let cluster_sector = next_free_cluster / FAT_SECTOR_PER_CLUSTER_ENTRY;
            let offset_in_sector = next_free_cluster % FAT_SECTOR_PER_CLUSTER_ENTRY;
            if offset_in_sector == 0 || next_free_cluster % FAT_SECTOR_PER_CLUSTER_ENTRY == 0 {
                match self.get_fat_sector(device, cluster_sector, &mut buffer) {
                    Ok(_) => {},
                    Err(_) => return Err(()),
                }
            }
            proof {
                if common {
                    assert(next_free_cluster == free_cluster + 1);
                    assert(le_u32(buffer@[0].bytes@, 4 * offset_in_sector) == 0);
                }
            }
            if buffer[0].get_u32(offset_in_sector as usize) == 0 {
                self.next_free_cluster = next_free_cluster;
                return Ok(free_cluster);
            }
            if cluster_offset == u32::MAX {
                break;
            }
            cluster_offset = cluster_offset + 1;
        }
        Err(())
    }

    /// The table entry of `cluster`: `Err` past the table. The entry is read
    /// from the table sector at the cluster's offset within its sector.
    fn get_cluster_ptr<D: BlockIO>(&mut self, device: &mut D, cluster: u32) -> (r: Result<u32, ()>)
        ensures
            *final(self) == *old(self),
            final(device).blocks() == old(device).blocks(),
            cluster / FAT_SECTOR_PER_CLUSTER_ENTRY >= old(self).fat_size ==> r is Err,
            cluster / FAT_SECTOR_PER_CLUSTER_ENTRY < old(self).fat_size && block_served(*old(device), fat_entry_addr(*old(self), cluster))
                ==> r is Ok,
            serving(*final(device)) == serving(*old(device)),
            final(device).modeled() == old(device).modeled(),
            old(device).modeled() && r is Ok ==> ({
                let v = r->Ok_0;
                let addr = fat_entry_addr(*old(self), cluster);
                &&& addr < old(device).blocks().len()
                &&& v == le_u32(old(device).blocks()[addr].bytes@, 4 * ((cluster % FAT_SECTOR_PER_CLUSTER_ENTRY) as int))
            }),
    {
        let mut buffer: Vec<Block> = vec![Block::empty()];
        let cluster_sector = cluster / FAT_SECTOR_PER_CLUSTER_ENTRY;
        let cluster_offset = cluster % FAT_SECTOR_PER_CLUSTER_ENTRY;
        if cluster_sector >= self.fat_size {
            return Err(());
        }
        let addr = match self.fat_addr.checked_add(cluster_offset) {
            Some(a) => a,
            None => return Err(()),
        };
        match device.read(addr, &mut buffer) {
            Ok(_) => {},
            Err(_) => return Err(()),
        }
        Ok(buffer[0].get_u32(cluster_offset as usize))
    }

    /// Sets the table entry of `cluster` to `next_cluster`, reading and
    /// writing back the table sector the entry is read from.
    fn set_cluster_ptr<D: BlockIO>(&mut self, device: &mut D, cluster: u32, next_cluster: u32) -> (r: Result<u32, ()>)
        ensures
            *final(self) == *old(self),
            cluster / FAT_SECTOR_PER_CLUSTER_ENTRY >= old(self).fat_size ==> r is Err && final(device).blocks() == old(device).blocks(),
            cluster / FAT_SECTOR_PER_CLUSTER_ENTRY < old(self).fat_size && block_served(*old(device), fat_entry_addr(*old(self), cluster))
                ==> r is Ok,
            same_device(*old(device), *final(device)),
            r matches Ok(v) ==> v == next_cluster,
            old(device).modeled() && r is Ok ==> entry_written(old(device).blocks(), final(device).blocks(),
                fat_entry_addr(*old(self), cluster), (cluster % FAT_SECTOR_PER_CLUSTER_ENTRY) as int, next_cluster),
    {
        let mut buffer: Vec<Block> = vec![Block::empty()];
        let cluster_sector = cluster / FAT_SECTOR_PER_CLUSTER_ENTRY;
        let cluster_offset = cluster % FAT_SECTOR_PER_CLUSTER_ENTRY;
        if cluster_sector >= self.fat_size {
            return Err(());
        }
        let addr = match self.fat_addr.checked_add(cluster_offset) {
            Some(a) => a,
            None => return Err(()),
        };
        let ghost d0 = device.blocks();
        match device.read(addr, &mut buffer) {
            Ok(_) => {},
            Err(_) => return Err(()),
        }
        let mut block = buffer[0];
        block.set_u32(cluster_offset as usize, next_cluster);
        let out: Vec<Block> = vec![block];
        match device.write(addr, &out) {
            Ok(_) => {},
            Err(_) => return Err(()),
        }
        proof {
            if old(device).modeled() {
                assert(out@ =~= seq![block]);
                assert(device.blocks() =~= d0.update(addr as int, block));
            }
        }
        Ok(next_cluster)
    }

    /// Reads the eight sectors of `cluster`: from the cache when it holds
    /// them, else from the device, caching them.
    fn read_cluster<D: BlockIO>(&mut self, device: &mut D, cluster: u32, buffer: &mut Vec<Block>) -> (r: Result<usize, usize>)
        requires
            old(self).supported(),
            old(buffer)@.len() == 8,
        ensures
            final(self).supported(),
            final(buffer)@.len() == 8,
            final(self).fat_addr == old(self).fat_addr,
            final(self).fat_size == old(self).fat_size,
            final(self).data_addr == old(self).data_addr,
            final(self).next_free_cluster == old(self).next_free_cluster,
            final(self).use_cache == old(self).use_cache,
            final(self).fat_cache == old(self).fat_cache,
            !old(self).use_cache ==> {
                &&& *final(self) == *old(self)
                &&& final(device).blocks() == old(device).blocks()
                &&& old(device).modeled() && r is Ok ==> final(buffer)@ == cluster_blocks(*old(self), old(device).blocks(), cluster)
                    && old(self).data_addr + FAT_SECTOR_PER_CLUSTER * cluster + 8 <= old(device).blocks().len()
            },
            same_device(*old(device), *final(device)),
            cluster_served(*old(self), *old(device), cluster) ==> r is Ok,
            old(self).use_cache && in_step(old(self).cluster_cache@, old(device).blocks()) ==> {
                &&& final(device).blocks() == old(device).blocks()
                &&& old(device).modeled() && r is Ok ==> in_step(final(self).cluster_cache@, old(device).blocks())
                    && final(buffer)@ == cluster_blocks(*old(self), old(device).blocks(), cluster)
                    && old(self).data_addr + FAT_SECTOR_PER_CLUSTER * cluster + 8 <= old(device).blocks().len()
            },
            ({
                &&& old(self).use_cache
                &&& cache_sound(old(self).cluster_cache@, old(device).blocks(), old(self).data_addr as int)
                &&& serving(*old(device))
                &&& run_addr(old(self).data_addr as int, cluster_start(*old(self), cluster))
                &&& cluster_start(*old(self), cluster) + 8 <= old(device).blocks().len()
            }) ==> {
                &&& r is Ok
                &&& final(buffer)@ == run_view(old(self).cluster_cache@, old(device).blocks(), cluster_start(*old(self), cluster))
                &&& cache_sound(final(self).cluster_cache@, final(device).blocks(), old(self).data_addr as int)
                &&& forall|x: int| run_addr(old(self).data_addr as int, x) && x + 8 <= old(device).blocks().len()
                    ==> #[trigger] run_view(final(self).cluster_cache@, final(device).blocks(), x)
                        == run_view(old(self).cluster_cache@, old(device).blocks(), x)
                &&& forall|y: int| 0 <= y < old(self).data_addr && y < old(device).blocks().len()
                    ==> #[trigger] final(device).blocks()[y] == old(device).blocks()[y]
            },
    {
        let addr = match (self.sector_per_cluster as u32).checked_mul(cluster) {
            Some(o) => match self.data_addr.checked_add(o) {
                Some(a) => a,
                None => return Err(0),
            },
            None => return Err(0),
        };
        if self.use_cache {
            let ghost before = self.cluster_cache@;
            proof {
                lemma_first_match(before, addr as u64);
            }
            match self.cluster_cache.read_from_cache(addr as u64) {
                Ok(cluster_data) => {
                    proof {
                        let m = first_match(before, addr as u64)->0;
                        lemma_touch_keeps_len(before, m, before[m], 8);
                        if in_step(before, device.blocks()) {
                            assert(in_step(seq![before[m]], device.blocks()));
                            lemma_touch_in_step(before, m, before[m], device.blocks());
                        }
                        if cache_sound(before, device.blocks(), self.data_addr as int)
                            && run_addr(self.data_addr as int, addr as int) {
                            lemma_touch_view(before, device.blocks(), self.data_addr as int, m, before[m]);
                            lemma_sound_match(before, device.blocks(), self.data_addr as int, addr as int, m);
                        }
                    }
                    *buffer = cluster_data;
                    Ok(self.sector_per_cluster as usize)
                },
                Err(_) => {
                    let res = device.read(addr, buffer);
                    let ghost blocks = device.blocks();
                    self.cache_cluster(device, addr, buffer);
                    proof {
                        if in_step(before, blocks) && res is Ok && old(device).modeled() {
                            assert(before.len() > 0 ==> !before[0].dirty);
                            let e = EntryView { tag: addr as u64, dirty: false, data: buffer@ };
                            assert(in_step(seq![e], blocks));
                            if before.len() > 0 {
                                lemma_touch_in_step(before, 0, e, blocks);
                            }
                        }
                    }
                    res
                },
            }
        } else {
            device.read(addr, buffer)
        }
    }

    /// Puts a cluster in the cache; a dirty cluster it replaces is written
    /// to the device.
    fn cache_cluster<D: BlockIO>(&mut self, device: &mut D, addr: u32, buffer: &Vec<Block>)
        requires
            old(self).supported(),
            buffer@.len() == 8,
        ensures
            final(self).supported(),
            final(self).fat_addr == old(self).fat_addr,
            final(self).fat_size == old(self).fat_size,
            final(self).data_addr == old(self).data_addr,
            final(self).next_free_cluster == old(self).next_free_cluster,
            final(self).use_cache == old(self).use_cache,
            final(self).fat_cache == old(self).fat_cache,
            final(self).cluster_cache@ == cached(old(self).cluster_cache@, addr as u64, buffer@),
            evicted_written(old(self).cluster_cache@, *old(device), *final(device)),
            ({
                &&& cache_sound(old(self).cluster_cache@, old(device).blocks(), old(self).data_addr as int)
                &&& serving(*old(device))
                &&& run_addr(old(self).data_addr as int, addr as int)
                &&& addr + 8 <= old(device).blocks().len()
                &&& first_match(old(self).cluster_cache@, addr as u64) is None
                &&& buffer@ == ram_read(old(device).blocks(), addr as int, 8)
            }) ==> {
                &&& cache_sound(final(self).cluster_cache@, final(device).blocks(), old(self).data_addr as int)
                &&& forall|x: int| run_addr(old(self).data_addr as int, x) && x + 8 <= old(device).blocks().len()
                    ==> #[trigger] run_view(final(self).cluster_cache@, final(device).blocks(), x)
                        == run_view(old(self).cluster_cache@, old(device).blocks(), x)
                &&& forall|y: int| 0 <= y < old(self).data_addr && y < old(device).blocks().len()
                    ==> #[trigger] final(device).blocks()[y] == old(device).blocks()[y]
            },
    {
        let ghost before = self.cluster_cache@;
        let ghost b0 = device.blocks();
        let ghost base = self.data_addr as int;
        if let Ok(Some((address, data))) = self.cluster_cache.allocate_cache(addr as u64, buffer) {
            let _ = device.write(address as u32, &data);
        }
        proof {
            if before.len() > 0 {
                lemma_touch_keeps_len(before, 0, EntryView { tag: addr as u64, dirty: false, data: buffer@ }, 8);
            }
            if cache_sound(before, b0, base) && serving(*device) && run_addr(base, addr as int)
                && addr + 8 <= b0.len() && first_match(before, addr as u64) is None
                && buffer@ == ram_read(b0, addr as int, 8) && before.len() > 0 {
                let e = EntryView { tag: addr as u64, dirty: false, data: buffer@ };
                let t0 = before[0].tag as int;
                let d0 = before[0].data;
                lemma_first_match(before, addr as u64);
                let b1 = device.blocks();
                if before[0].dirty {
                    assert(t0 != 0);
                    assert(b1 == ram_write(b0, t0, d0));
                    lemma_device_write(before, b0, base, t0, d0);
                    lemma_sound_match(before, b0, base, t0, 0);
                    lemma_other_run_kept(base, b0, t0, d0, addr as int);
                    assert(ram_read(b1, t0, 8) =~= d0);
                } else {
                    assert(b1 == b0);
                }
                assert(buffer@ == ram_read(b1, addr as int, 8));
                lemma_touch_view(before, b1, base, 0, e);
                assert forall|x: int| run_addr(base, x) && x + 8 <= b0.len()
                    implies #[trigger] run_view(self.cluster_cache@, b1, x) == run_view(before, b0, x) by {
                    if x != addr && x != t0 {
                    } else if x == t0 && t0 != addr as int {
                        if !before[0].dirty {
                            lemma_sound_match(before, b0, base, t0, 0);
                        }
                    }
                }
            }
        }
    }

    /// Writes the eight sectors of `cluster`: into the cache when it holds
    /// them, else to the device, caching them.
    fn write_cluster<D: BlockIO>(&mut self, device: &mut D, cluster: u32, buffer: &Vec<Block>) -> (r: Result<usize, usize>)
        requires
            old(self).supported(),
            buffer@.len() == 8,
        ensures
            final(self).supported(),
            final(self).fat_addr == old(self).fat_addr,
            final(self).fat_size == old(self).fat_size,
            final(self).data_addr == old(self).data_addr,
            final(self).next_free_cluster == old(self).next_free_cluster,
            final(self).use_cache == old(self).use_cache,
            final(self).fat_cache == old(self).fat_cache,
            !old(self).use_cache ==> {
                &&& *final(self) == *old(self)
                &&& old(device).modeled() && r is Ok ==> final(device).blocks() == ram_write(old(device).blocks(),
                    old(self).data_addr + FAT_SECTOR_PER_CLUSTER * cluster, buffer@)
                    && old(self).data_addr + FAT_SECTOR_PER_CLUSTER * cluster + 8 <= old(device).blocks().len()
            },
            same_device(*old(device), *final(device)),
            cluster_served(*old(self), *old(device), cluster) ==> r is Ok,
            old(self).use_cache && cluster_start(*old(self), cluster) <= u32::MAX
                ==> (first_match(old(self).cluster_cache@, cluster_start(*old(self), cluster) as u64) matches Some(k)
                ==> r is Ok && final(device).blocks() == old(device).blocks()
                    && final(self).cluster_cache@ == touch(old(self).cluster_cache@, k,
                        EntryView { tag: cluster_start(*old(self), cluster) as u64, dirty: true, data: buffer@ })),
            ({
                &&& old(self).use_cache
                &&& cache_sound(old(self).cluster_cache@, old(device).blocks(), old(self).data_addr as int)
                &&& serving(*old(device))
                &&& run_addr(old(self).data_addr as int, cluster_start(*old(self), cluster))
                &&& cluster_start(*old(self), cluster) + 8 <= old(device).blocks().len()
            }) ==> {
                &&& r is Ok
                &&& cache_sound(final(self).cluster_cache@, final(device).blocks(), old(self).data_addr as int)
                &&& run_view(final(self).cluster_cache@, final(device).blocks(), cluster_start(*old(self), cluster)) == buffer@
                &&& forall|x: int| run_addr(old(self).data_addr as int, x) && x + 8 <= old(device).blocks().len()
                    && x != cluster_start(*old(self), cluster)
                    ==> #[trigger] run_view(final(self).cluster_cache@, final(device).blocks(), x)
                        == run_view(old(self).cluster_cache@, old(device).blocks(), x)
                &&& forall|y: int| 0 <= y < old(self).data_addr && y < old(device).blocks().len()
                    ==> #[trigger] final(device).blocks()[y] == old(device).blocks()[y]
            },
    {
        let addr = match (self.sector_per_cluster as u32).checked_mul(cluster) {
            Some(o) => match self.data_addr.checked_add(o) {
                Some(a) => a,
                None => return Err(0),
            },
            None => return Err(0),
        };
        if self.use_cache {
            let ghost before = self.cluster_cache@;
            proof {
                lemma_first_match(before, addr as u64);
            }
            if self.cluster_cache.write_to_cache(addr as u64, buffer).is_ok() {
                proof {
                    let m = first_match(before, addr as u64)->0;
                    lemma_touch_keeps_len(before, m, EntryView { tag: addr as u64, dirty: true, data: buffer@ }, 8);
                    if cache_sound(before, device.blocks(), self.data_addr as int)
                        && run_addr(self.data_addr as int, addr as int) && addr + 8 <= device.blocks().len() {
                        lemma_touch_view(before, device.blocks(), self.data_addr as int, m,
                            EntryView { tag: addr as u64, dirty: true, data: buffer@ });
                    }
                }
                Ok(self.sector_per_cluster as usize)
            } else {
                let ghost b0 = device.blocks();
                let res = device.write(addr, buffer);
                proof {
                    if cache_sound(before, b0, self.data_addr as int) && serving(*old(device))
                        && run_addr(self.data_addr as int, addr as int) && addr + 8 <= b0.len() {
                        lemma_device_write(before, b0, self.data_addr as int, addr as int, buffer@);
                        assert(ram_read(device.blocks(), addr as int, 8) =~= buffer@);
                    }
                }
                self.cache_cluster(device, addr, buffer);
                res
            }
        } else {
            device.write(addr, buffer)
        }
    }

    /// The cluster a directory's entries are read from: the directory's
    /// cluster is turned into a sector offset and added to the data area once
    /// more before it is read as a cluster.
    fn dir_cluster_of(&self, dir_cluster: u32) -> (r: Option<u32>)
        ensures
            r matches Some(c) ==> c == self.data_addr + self.sector_per_cluster * dir_cluster,
            r is None <==> self.data_addr + self.sector_per_cluster * dir_cluster > u32::MAX,
    {
        match (self.sector_per_cluster as u32).checked_mul(dir_cluster) {
            Some(offset) => self.data_addr.checked_add(offset),
            None => None,
        }
    }

    /// The first of the 128 entries of a directory whose first cluster is 0.
    fn get_empty_dir_idx<D: BlockIO>(&mut self, device: &mut D, dir_cluster: u32) -> (r: Result<u32, ()>)
        requires
            old(self).supported(),
        ensures
            final(self).supported(),
            r matches Ok(i) ==> i < FAT_MAX_DIRECTORY_ENTRY_COUNT,
            final(self).fat_addr == old(self).fat_addr,
            final(self).fat_size == old(self).fat_size,
            final(self).data_addr == old(self).data_addr,
            final(self).next_free_cluster == old(self).next_free_cluster,
            final(self).use_cache == old(self).use_cache,
            !old(self).use_cache ==> *final(self) == *old(self),
            coherent(*old(self), *old(device)) ==> final(device).blocks() == old(device).blocks()
                && (r is Ok ==> coherent(*final(self), *old(device))),
            coherent(*old(self), *old(device)) && r is Ok ==> {
                let k = r->Ok_0 as int;
                &&& first_free(*old(self), old(device).blocks(), dir_cluster, k)
            },
            same_device(*old(device), *final(device)),
            coherent(*old(self), *old(device)) && dir_served(*old(self), *old(device), dir_cluster) ==> (r is Err <==>
                dir_full(*old(self), old(device).blocks(), dir_cluster)),
            ({
                let ds = dir_blocks_start(*old(self), dir_cluster);
                &&& old(self).use_cache
                &&& cache_sound(old(self).cluster_cache@, old(device).blocks(), old(self).data_addr as int)
                &&& serving(*old(device))
                &&& run_addr(old(self).data_addr as int, ds) && ds + 8 <= old(device).blocks().len()
            }) ==> {
                let ds = dir_blocks_start(*old(self), dir_cluster);
                let sd = seen(old(self).cluster_cache@, old(device).blocks(), ds);
                &&& cache_sound(final(self).cluster_cache@, final(device).blocks(), old(self).data_addr as int)
                &&& forall|x: int| run_addr(old(self).data_addr as int, x) && x + 8 <= old(device).blocks().len()
                    ==> #[trigger] run_view(final(self).cluster_cache@, final(device).blocks(), x)
                        == run_view(old(self).cluster_cache@, old(device).blocks(), x)
                &&& (r is Err <==> dir_full(*old(self), sd, dir_cluster))
                &&& r matches Ok(k) ==> first_free(*old(self), sd, dir_cluster, k as int)
            },
    {
        let ghost fs0 = *old(self);
        let ghost disk = old(device).blocks();
        let ghost ds0 = dir_blocks_start(fs0, dir_cluster);
        let ghost cs = fs0.use_cache && cache_sound(fs0.cluster_cache@, disk, fs0.data_addr as int)
            && serving(*old(device)) && run_addr(fs0.data_addr as int, ds0) && ds0 + 8 <= disk.len();
        let ghost sd = seen(fs0.cluster_cache@, disk, ds0);
        let mut buffer: Vec<Block> = vec![Block::empty(), Block::empty(), Block::empty(), Block::empty(),
            Block::empty(), Block::empty(), Block::empty(), Block::empty()];
        let cluster = match self.dir_cluster_of(dir_cluster) {
            Some(c) => c,
            None => return Err(()),
        };
        match self.read_cluster(device, cluster, &mut buffer) {
            Ok(_) => {},
            Err(_) => return Err(()),
        }
        proof {
            if coherent(fs0, *old(device)) {
                assert(cluster == self.data_addr + FAT_SECTOR_PER_CLUSTER * dir_cluster);
            }
            if cs {
                assert(cluster == self.data_addr + FAT_SECTOR_PER_CLUSTER * dir_cluster);
                assert(ram_read(sd, ds0, 8) =~= buffer@);
            }
        }
        let ghost e1 = self.cluster_cache@;
        let ghost b1 = device.blocks();
        let mut idx: u32 = 0;
        while idx < FAT_MAX_DIRECTORY_ENTRY_COUNT
            invariant
                buffer@.len() == 8,
                idx <= FAT_MAX_DIRECTORY_ENTRY_COUNT,
                self.supported(),
                self.fat_addr == old(self).fat_addr,
                self.fat_size == old(self).fat_size,
                self.data_addr == old(self).data_addr,
                self.next_free_cluster == old(self).next_free_cluster,
                self.use_cache == old(self).use_cache,
                fs0 == *old(self),
                disk == old(device).blocks(),
                same_device(*old(device), *device),
                !self.use_cache ==> *self == fs0,
                coherent(fs0, *old(device)) ==> {
                    &&& coherent(*self, *old(device))
                    &&& device.blocks() == disk
                    &&& dir_blocks_start(fs0, dir_cluster) + 8 <= disk.len()
                    &&& buffer@ == ram_read(disk, dir_blocks_start(fs0, dir_cluster), 8)
                    &&& forall|j: int| 0 <= j < idx ==> #[trigger] dir_entry_cluster(fs0, disk, dir_cluster, j) != 0
                },
                cs == (fs0.use_cache && cache_sound(fs0.cluster_cache@, disk, fs0.data_addr as int)
                    && serving(*old(device)) && run_addr(fs0.data_addr as int, ds0) && ds0 + 8 <= disk.len()),
                ds0 == dir_blocks_start(fs0, dir_cluster),
                sd == seen(fs0.cluster_cache@, disk, ds0),
                cs ==> {
                    &&& self.cluster_cache@ == e1
                    &&& device.blocks() == b1
                    &&& cache_sound(e1, b1, fs0.data_addr as int)
                    &&& forall|x: int| run_addr(fs0.data_addr as int, x) && x + 8 <= disk.len()
                        ==> #[trigger] run_view(e1, b1, x) == run_view(fs0.cluster_cache@, disk, x)
                    &&& sd.len() == disk.len()
                    &&& buffer@ == ram_read(sd, ds0, 8)
                    &&& forall|j: int| 0 <= j < idx ==> #[trigger] dir_entry_cluster(fs0, sd, dir_cluster, j) != 0
                },
            decreases FAT_MAX_DIRECTORY_ENTRY_COUNT - idx,
        {
            let sector = idx / ENTRY_PER_SECTOR;
            let sector_offset = idx % ENTRY_PER_SECTOR;
            let entry = DirectoryEntry::from_block(&buffer[sector as usize], DIR_ENTRY_SIZE * sector_offset as usize);
            proof {
                if coherent(fs0, *old(device)) {
                    let j = idx as int;
                    assert(buffer@[j / 16] == disk[dir_blocks_start(fs0, dir_cluster) + j / 16]);
                    assert(spec_start_cluster(entry) == dir_entry_cluster(fs0, disk, dir_cluster, j));
                }
                if cs {
                    let j = idx as int;
                    assert(buffer@[j / 16] == sd[ds0 + j / 16]);
                    assert(spec_start_cluster(entry) == dir_entry_cluster(fs0, sd, dir_cluster, j));
                }
            }
            if entry.start_cluster_idx() == 0 {
                return Ok(idx);
            }
            idx = idx + 1;
        }
        Err(())
    }

    /// Entry `dir_offset` of a directory.
    fn get_dir_entry<D: BlockIO>(&mut self, device: &mut D, dir_cluster: u32, dir_offset: u32) -> (r: Result<DirectoryEntry, ()>)
        requires
            old(self).supported(),
            dir_offset < FAT_MAX_DIRECTORY_ENTRY_COUNT,
        ensures
            final(self).supported(),
            final(self).fat_addr == old(self).fat_addr,
            final(self).fat_size == old(self).fat_size,
            final(self).data_addr == old(self).data_addr,
            final(self).next_free_cluster == old(self).next_free_cluster,
            final(self).use_cache == old(self).use_cache,
            !old(self).use_cache ==> *final(self) == *old(self),
            coherent(*old(self), *old(device)) ==> final(device).blocks() == old(device).blocks(),
            coherent(*old(self), *old(device)) && r is Ok ==> coherent(*final(self), *old(device))
                && dir_blocks_start(*old(self), dir_cluster) + 8 <= old(device).blocks().len()
                && entry_at(dir_entry_block(*old(self), old(device).blocks(), dir_cluster, dir_offset as int),
                    dir_entry_offset(dir_offset as int), r->Ok_0),
            same_device(*old(device), *final(device)),
            dir_served(*old(self), *old(device), dir_cluster) ==> r is Ok,
            ({
                &&& old(self).use_cache
                &&& cache_sound(old(self).cluster_cache@, old(device).blocks(), old(self).data_addr as int)
                &&& serving(*old(device))
                &&& run_addr(old(self).data_addr as int, dir_blocks_start(*old(self), dir_cluster))
                &&& dir_blocks_start(*old(self), dir_cluster) + 8 <= old(device).blocks().len()
            }) ==> {
                &&& r is Ok
                &&& cache_sound(final(self).cluster_cache@, final(device).blocks(), old(self).data_addr as int)
                &&& forall|x: int| run_addr(old(self).data_addr as int, x) && x + 8 <= old(device).blocks().len()
                    ==> #[trigger] run_view(final(self).cluster_cache@, final(device).blocks(), x)
                        == run_view(old(self).cluster_cache@, old(device).blocks(), x)
                &&& forall|y: int| 0 <= y < old(self).data_addr && y < old(device).blocks().len()
                    ==> #[trigger] final(device).blocks()[y] == old(device).blocks()[y]
                &&& entry_at(dir_entry_block(*old(self), seen(old(self).cluster_cache@, old(device).blocks(),
                    dir_blocks_start(*old(self), dir_cluster)), dir_cluster, dir_offset as int),
                    dir_entry_offset(dir_offset as int), r->Ok_0)
            },
    {
        let mut buffer: Vec<Block> = vec![Block::empty(), Block::empty(), Block::empty(), Block::empty(),
            Block::empty(), Block::empty(), Block::empty(), Block::empty()];
        let cluster = match self.dir_cluster_of(dir_cluster) {
            Some(c) => c,
            None => return Err(()),
        };
        match self.read_cluster(device, cluster, &mut buffer) {
            Ok(_) => {},
            Err(_) => return Err(()),
        }
        proof {
            if coherent(*old(self), *old(device)) {
                let j = dir_offset as int;
                assert(cluster == self.data_addr + FAT_SECTOR_PER_CLUSTER * dir_cluster);
                assert(0 <= j / 16 < 8);
                assert(buffer@[j / 16] == old(device).blocks()[dir_blocks_start(*old(self), dir_cluster) + j / 16]);
            }
        }
        proof {
            let ds = dir_blocks_start(*old(self), dir_cluster);
            if old(self).use_cache && cache_sound(old(self).cluster_cache@, old(device).blocks(), old(self).data_addr as int)
                && serving(*old(device)) && run_addr(old(self).data_addr as int, ds) && ds + 8 <= old(device).blocks().len() {
                let j = dir_offset as int;
                let sd = seen(old(self).cluster_cache@, old(device).blocks(), ds);
                assert(cluster == self.data_addr + FAT_SECTOR_PER_CLUSTER * dir_cluster);
                assert(0 <= j / 16 < 8);
                assert(sd[ds + j / 16] == buffer@[j / 16]);
            }
        }
        Ok(DirectoryEntry::from_block(&buffer[(dir_offset / ENTRY_PER_SECTOR) as usize],
            DIR_ENTRY_SIZE * (dir_offset % ENTRY_PER_SECTOR) as usize))
    }

    /// Stores entry `dir_offset` of a directory.
    fn set_dir_entry<D: BlockIO>(&mut self, device: &mut D, dir_cluster: u32, dir_offset: u32, data: &DirectoryEntry) -> (r: Result<(), ()>)
        requires
            old(self).supported(),
            dir_offset < FAT_MAX_DIRECTORY_ENTRY_COUNT,
        ensures
            final(self).supported(),
            final(self).fat_addr == old(self).fat_addr,
            final(self).fat_size == old(self).fat_size,
            final(self).data_addr == old(self).data_addr,
            final(self).next_free_cluster == old(self).next_free_cluster,
            final(self).use_cache == old(self).use_cache,
            !old(self).use_cache ==> {
                let first = dir_blocks_start(*old(self), dir_cluster);
                &&& *final(self) == *old(self)
                &&& old(device).modeled() && r is Ok ==> final(device).blocks().len() == old(device).blocks().len()
                    && forall|j: int| 0 <= j < old(device).blocks().len() && !(first <= j < first + 8)
                        ==> #[trigger] final(device).blocks()[j] == old(device).blocks()[j]
                &&& old(device).modeled() && r is Ok ==> entry_at(dir_entry_block(*old(self), final(device).blocks(), dir_cluster, dir_offset as int),
                    dir_entry_offset(dir_offset as int), *data)
                    && first + 8 <= old(device).blocks().len()
            },
            same_device(*old(device), *final(device)),
            dir_served(*old(self), *old(device), dir_cluster) ==> r is Ok,
            ({
                &&& old(self).use_cache
                &&& cache_sound(old(self).cluster_cache@, old(device).blocks(), old(self).data_addr as int)
                &&& serving(*old(device))
                &&& run_addr(old(self).data_addr as int, dir_blocks_start(*old(self), dir_cluster))
                &&& dir_blocks_start(*old(self), dir_cluster) + 8 <= old(device).blocks().len()
            }) ==> {
                &&& r is Ok
                &&& cache_sound(final(self).cluster_cache@, final(device).blocks(), old(self).data_addr as int)
                &&& forall|x: int| run_addr(old(self).data_addr as int, x) && x + 8 <= old(device).blocks().len()
                    && x != dir_blocks_start(*old(self), dir_cluster)
                    ==> #[trigger] run_view(final(self).cluster_cache@, final(device).blocks(), x)
                        == run_view(old(self).cluster_cache@, old(device).blocks(), x)
                &&& entry_at(run_view(final(self).cluster_cache@, final(device).blocks(), dir_blocks_start(*old(self), dir_cluster))
                    [dir_offset as int / 16].bytes@, dir_entry_offset(dir_offset as int), *data)
                &&& run_view(final(self).cluster_cache@, final(device).blocks(), dir_blocks_start(*old(self), dir_cluster)).len() == 8
                &&& forall|q: int| 0 <= q < 8 && q != dir_offset as int / 16
                    ==> #[trigger] run_view(final(self).cluster_cache@, final(device).blocks(), dir_blocks_start(*old(self), dir_cluster))[q]
                        == run_view(old(self).cluster_cache@, old(device).blocks(), dir_blocks_start(*old(self), dir_cluster))[q]
                &&& forall|y: int| 0 <= y < old(self).data_addr && y < old(device).blocks().len()
                    ==> #[trigger] final(device).blocks()[y] == old(device).blocks()[y]
            },
    {
        let mut buffer: Vec<Block> = vec![Block::empty(), Block::empty(), Block::empty(), Block::empty(),
            Block::empty(), Block::empty(), Block::empty(), Block::empty()];
        let cluster = match self.dir_cluster_of(dir_cluster) {
            Some(c) => c,
            None => return Err(()),
        };
        match self.read_cluster(device, cluster, &mut buffer) {
            Ok(_) => {},
            Err(_) => return Err(()),
        }
        let sector = (dir_offset / ENTRY_PER_SECTOR) as usize;
        let mut block = buffer[sector];
        data.write_to_block(&mut block, DIR_ENTRY_SIZE * (dir_offset % ENTRY_PER_SECTOR) as usize);
        let ghost read_back = buffer@;
        buffer.set(sector, block);
        let ghost before = device.blocks();
        match self.write_cluster(device, cluster, &buffer) {
            Ok(_) => {
                proof {
                    if !self.use_cache && old(device).modeled() {
                        let j = dir_offset as int;
                        assert(cluster == self.data_addr + FAT_SECTOR_PER_CLUSTER * dir_cluster);
                        assert(0 <= j / 16 < 8);
                        assert(device.blocks()[dir_blocks_start(*old(self), dir_cluster) + j / 16] == buffer@[j / 16]);
                    }
                }
                Ok(())
            },
            Err(_) => Err(()),
        }
    }

    /// Bytes in a cluster.
    pub fn cluster_size(&self) -> (r: u32)
        ensures
            r == self.byte_per_sector * self.sector_per_cluster,
    {
        proof {
            assert(self.byte_per_sector * self.sector_per_cluster <= 65535 * 255) by (nonlinear_arith);
        }
        self.byte_per_sector as u32 * self.sector_per_cluster as u32
    }
}


/// The query names the entry: its first bytes, up to the eleven of an entry
/// name, are those of the name.
pub open spec fn name_matches(name: Seq<u8>, query: Seq<u8>) -> bool {
    forall|i: int| 0 <= i < 11 && i < query.len() ==> name[i] == query[i]
}

/// Law: a name matches a query exactly when the two agree on every byte
/// of the 11-byte name (8 of base name, 3 of extension) that the query
/// covers: a difference in the extension counts as much as one in the base
/// name, and a full 11-byte query matches only the name equal to it.
pub proof fn law_names_match_whole_name(name: Seq<u8>, query: Seq<u8>)
    requires
        name.len() == 11,
    ensures
        (exists|i: int| 0 <= i < 11 && i < query.len() && name[i] != query[i]) ==> !name_matches(name, query),
        (forall|i: int| 0 <= i < 11 && i < query.len() ==> name[i] == query[i]) ==> name_matches(name, query),
        query.len() == 11 ==> (name_matches(name, query) <==> name == query),
{
    if query.len() == 11 && name_matches(name, query) {
        assert(name =~= query);
    }
}

/// Law: the entry an open finds for a full 11-byte name bears exactly that
/// name, extension included.
pub proof fn law_found_entry_has_the_name(fs: FAT32, blocks: Seq<Block>, dir_cluster: u32, query: Seq<u8>, k: int)
    requires
        first_named(fs, blocks, dir_cluster, query, k),
        query.len() == 11,
    ensures
        dir_entry_name(fs, blocks, dir_cluster, k) == query,
{
    let o = dir_entry_offset(k);
    assert(0 <= o <= 480) by {
        assert(0 <= k % 16 < 16);
    }
    let name = dir_entry_name(fs, blocks, dir_cluster, k);
    assert(name.len() == 11);
    law_names_match_whole_name(name, query);
}

fn names_match(name: &[u8; 11], query: &[u8]) -> (r: bool)
    ensures
        r == name_matches(name@, query@),
{
    let mut i: usize = 0;
    while i < 11 && i < query.len()
        invariant
            i <= 11,
            forall|j: int| 0 <= j < i && j < query@.len() ==> name@[j] == query@[j],
        decreases 11 - i,
    {
        if name[i] != query[i] {
            return false;
        }
        i = i + 1;
    }
    true
}

impl FAT32 {
    /// Frees a cluster chain: each cluster's entry is set to 0 until the end
    /// of the chain. A chain longer than the table goes round a cycle and is
    /// refused.
    fn free_chain<D: BlockIO>(&mut self, device: &mut D, start: u32) -> (r: Result<(), ()>)
        requires
            old(self).supported(),
        ensures
            *final(self) == *old(self),
            old(device).modeled() && r is Ok ==> in_table_only(*old(self), old(device).blocks(), final(device).blocks()),
            same_device(*old(device), *final(device)),
            start == FAT_END_OF_CLUSTER && old(self).fat_size * FAT_SECTOR_PER_CLUSTER_ENTRY <= u32::MAX
                ==> r is Ok && final(device).blocks() == old(device).blocks(),
            old(device).modeled() && r is Ok && start != FAT_END_OF_CLUSTER ==> fat_next(*old(self), final(device).blocks(), start) == 0,
            single_cluster(*old(self), *old(device), start) ==> r is Ok,
            forall|n: nat| #[trigger] chain_freeable(*old(self), *old(device), start, n) ==> r is Ok,
    {
        let ghost disk = old(device).blocks();
        let ghost m = old(device).modeled();
        let ghost one = single_cluster(*old(self), *old(device), start);
        let ghost ok = exists|n: nat| #[trigger] chain_freeable(*old(self), *old(device), start, n);
        let ghost n = choose|n: nat| #[trigger] chain_freeable(*old(self), *old(device), start, n);
        let bound = match self.fat_size.checked_mul(FAT_SECTOR_PER_CLUSTER_ENTRY) {
            Some(b) => b,
            None => return Err(()),
        };
        let mut data_cluster = start;
        let mut steps: u32 = 0;
        proof {
            if ok && start != FAT_END_OF_CLUSTER {
                assert(chain_nth(*self, disk, start, 0) == start);
                if n == 0 {
                    assert(false);
                }
                assert(chain_link(*self, *old(device), start));
            }
        }
        while data_cluster != FAT_END_OF_CLUSTER
            invariant
                *self == *old(self),
                steps <= bound,
                disk == old(device).blocks(),
                m == old(device).modeled(),
                m ==> in_table_only(*self, disk, device.blocks()),
                same_device(*old(device), *device),
                steps == 0 ==> data_cluster == start && device.blocks() == disk,
                start == FAT_END_OF_CLUSTER ==> steps == 0,
                one == single_cluster(*old(self), *old(device), start),
                one ==> steps == 0 || data_cluster == FAT_END_OF_CLUSTER,
                bound == self.fat_size * FAT_SECTOR_PER_CLUSTER_ENTRY,
                m && steps > 0 ==> fat_entry_addr(*self, start) < device.blocks().len()
                    && fat_next(*self, device.blocks(), start) == 0,
                ok == (exists|n: nat| #[trigger] chain_freeable(*old(self), *old(device), start, n)),
                ok ==> chain_freeable(*old(self), *old(device), start, n),
                ok ==> m || start == FAT_END_OF_CLUSTER,
                ok ==> steps <= n && data_cluster == chain_nth(*self, disk, start, steps as nat),
                ok ==> forall|j: nat| steps <= j < n ==> #[trigger] device.blocks()[fat_entry_addr(*self, chain_nth(*self, disk, start, j))]
                    == disk[fat_entry_addr(*self, chain_nth(*self, disk, start, j))],
            decreases bound - steps,
        {
            proof {
                if ok {
                    let c = chain_nth(*self, disk, start, steps as nat);
                    if steps == n {
                        assert(false);
                    }
                    assert(chain_link(*self, *old(device), c));
                    assert(device.blocks()[fat_entry_addr(*self, c)] == disk[fat_entry_addr(*self, c)]);
                }
            }
            if steps == bound {
                return Err(());
            }
            let next_data_cluster = self.get_cluster_ptr(device, data_cluster)?;
            let ghost before = device.blocks();
            self.set_cluster_ptr(device, data_cluster, 0)?;
            proof {
                if ok {
                    let c = chain_nth(*self, disk, start, steps as nat);
                    lemma_chain_last(*self, disk, start, steps as nat);
                    assert(next_data_cluster == chain_nth(*self, disk, start, (steps + 1) as nat));
                    assert forall|j: nat| steps + 1 <= j < n implies #[trigger] device.blocks()[fat_entry_addr(*self, chain_nth(*self, disk, start, j))]
                        == disk[fat_entry_addr(*self, chain_nth(*self, disk, start, j))] by {
                        let cj = chain_nth(*self, disk, start, j);
                        assert(c % FAT_SECTOR_PER_CLUSTER_ENTRY != cj % FAT_SECTOR_PER_CLUSTER_ENTRY);
                        assert(fat_entry_addr(*self, cj) != fat_entry_addr(*self, c));
                        assert(chain_link(*self, *old(device), cj));
                        assert(before[fat_entry_addr(*self, cj)] == disk[fat_entry_addr(*self, cj)]);
                    }
                }
            }
            proof {
                let a = fat_entry_addr(*self, start);
                let k = (start % FAT_SECTOR_PER_CLUSTER_ENTRY) as int;
                if !m {
                } else if data_cluster % FAT_SECTOR_PER_CLUSTER_ENTRY == start % FAT_SECTOR_PER_CLUSTER_ENTRY {
                    assert(fat_entry_addr(*self, data_cluster) == a);
                } else {
                    assert(fat_entry_addr(*self, data_cluster) != a);
                    assert(device.blocks()[a] == before[a]);
                }
            }
            data_cluster = next_data_cluster;
            steps = steps + 1;
        }
        Ok(())
    }

    /// Creates a file in a directory: the first free entry of the directory
    /// gets the name (its first eleven bytes), the file attribute and a free
    /// cluster, which becomes a chain of one.
    pub fn create_named<D: BlockIO>(&mut self, device: &mut D, dir: &DirectoryDescriptor, file_name_byte: &[u8]) -> (r: Result<FileDescriptor, ()>)
        requires
            old(self).supported(),
        ensures
            final(self).supported(),
            final(self).data_addr == old(self).data_addr,
            final(self).use_cache == old(self).use_cache,
            r matches Ok(f) ==> {
                &&& f.file_start_idx == old(self).next_free_cluster
                &&& f.file_current_idx == f.file_start_idx
                &&& f.dir_idx == dir.file_start_idx
                &&& f.dir_offset < FAT_MAX_DIRECTORY_ENTRY_COUNT
                &&& f.file_size == 0
                &&& f.ptr == 0
            },
            !old(self).use_cache && old(device).modeled() && r is Ok ==> {
                let f = r->Ok_0;
                let k = f.dir_offset as int;
                let fs = *final(self);
                let d = final(device).blocks();
                &&& first_free(*old(self), old(device).blocks(), dir.file_start_idx, k)
                &&& name_matches(dir_entry_name(fs, d, dir.file_start_idx, k), file_name_byte@)
                &&& dir_entry_attr(fs, d, dir.file_start_idx, k) == FAT_DIR_ATTRIBUTE_FILE
                &&& dir_entry_cluster(fs, d, dir.file_start_idx, k) == f.file_start_idx
                &&& !(dir_blocks_start(fs, dir.file_start_idx) <= fat_entry_addr(fs, f.file_start_idx) < dir_blocks_start(fs, dir.file_start_idx) + 8)
                    ==> fat_next(fs, d, f.file_start_idx) == FAT_END_OF_CLUSTER
            },
            same_device(*old(device), *final(device)),
            !old(self).use_cache && dir_served(*old(self), *old(device), dir.file_start_idx)
                && dir_full(*old(self), old(device).blocks(), dir.file_start_idx) ==> r is Err,
            !old(self).use_cache && dir_served(*old(self), *old(device), dir.file_start_idx)
                && !dir_full(*old(self), old(device).blocks(), dir.file_start_idx)
                && cluster_ready(*old(self), *old(device)) ==> r is Ok,
            ({
                let fs = *old(self);
                let ds = dir_blocks_start(fs, dir.file_start_idx);
                &&& fs.use_cache
                &&& cache_sound(fs.cluster_cache@, old(device).blocks(), fs.data_addr as int)
                &&& serving(*old(device))
                &&& run_addr(fs.data_addr as int, ds) && ds + 8 <= old(device).blocks().len()
                &&& cluster_ready(fs, *old(device))
                &&& fat_entry_addr(fs, fs.next_free_cluster) < fs.data_addr
            }) ==> {
                let fs = *old(self);
                let sd = seen(fs.cluster_cache@, old(device).blocks(), dir_blocks_start(fs, dir.file_start_idx));
                &&& (r is Err <==> dir_full(fs, sd, dir.file_start_idx))
                &&& r is Ok ==> cache_sound(final(self).cluster_cache@, final(device).blocks(), fs.data_addr as int)
                &&& r matches Ok(f) ==> {
                    let k = f.dir_offset as int;
                    let sd2 = seen(final(self).cluster_cache@, final(device).blocks(), dir_blocks_start(fs, dir.file_start_idx));
                    &&& first_free(fs, sd, dir.file_start_idx, k)
                    &&& name_matches(dir_entry_name(fs, sd2, dir.file_start_idx, k), file_name_byte@)
                    &&& dir_entry_attr(fs, sd2, dir.file_start_idx, k) == FAT_DIR_ATTRIBUTE_FILE
                    &&& dir_entry_cluster(fs, sd2, dir.file_start_idx, k) == f.file_start_idx
                }
            },
    {
        let dir_entry_idx = self.get_empty_dir_idx(device, dir.file_start_idx)?;
        let mut dir_entry = self.get_dir_entry(device, dir.file_start_idx, dir_entry_idx)?;
        let data_cluster = self.get_free_cluster(device)?;
        let ghost pre_ptr = device.blocks();
        self.set_cluster_ptr(device, data_cluster, FAT_END_OF_CLUSTER)?;
        proof {
            let base = self.data_addr as int;
            if old(device).modeled() && cache_sound(self.cluster_cache@, pre_ptr, base) && fat_entry_addr(*self, data_cluster) < base {
                lemma_block_below_runs(self.cluster_cache@, pre_ptr, device.blocks(), base, fat_entry_addr(*self, data_cluster));
            }
        }
        let mut idx: usize = 0;
        while idx < 11
            invariant
                idx <= 11,
                forall|j: int| 0 <= j < idx && j < file_name_byte@.len() ==> dir_entry.name@[j] == file_name_byte@[j],
            decreases 11 - idx,
        {
            if idx < file_name_byte.len() {
                dir_entry.name[idx] = file_name_byte[idx];
            }
            idx = idx + 1;
        }
        dir_entry.attr = FAT_DIR_ATTRIBUTE_FILE;
        dir_entry.set_start_cluster_idx(data_cluster);
        let ghost fs1 = *self;
        let ghost pre_set_e = self.cluster_cache@;
        let ghost pre_set_b = device.blocks();
        self.set_dir_entry(device, dir.file_start_idx, dir_entry_idx, &dir_entry)?;
        proof {
            let ds = dir_blocks_start(*self, dir.file_start_idx);
            let base = self.data_addr as int;
            if self.use_cache && cache_sound(pre_set_e, pre_set_b, base) && serving(*device)
                && run_addr(base, ds) && ds + 8 <= pre_set_b.len() {
                let k = dir_entry_idx as int;
                let v = run_view(self.cluster_cache@, device.blocks(), ds);
                let sd2 = seen(self.cluster_cache@, device.blocks(), ds);
                assert(0 <= k / 16 < 8);
                assert(sd2[ds + k / 16] == v[k / 16]);
                assert(dir_entry_name(*self, sd2, dir.file_start_idx, k) =~= dir_entry.name@);
                vstd::arithmetic::div_mod::lemma_fundamental_div_mod(data_cluster as int, 65536);
                assert(dir_entry_cluster(*self, sd2, dir.file_start_idx, k) == spec_start_cluster(dir_entry));
            }
        }
        proof {
            if !self.use_cache && old(device).modeled() {
                let k = dir_entry_idx as int;
                let b = dir_entry_block(*self, device.blocks(), dir.file_start_idx, k);
                let o = dir_entry_offset(k);
                assert(dir_entry_name(*self, device.blocks(), dir.file_start_idx, k) =~= dir_entry.name@);
                vstd::arithmetic::div_mod::lemma_fundamental_div_mod(data_cluster as int, 65536);
                assert(dir_entry_cluster(*self, device.blocks(), dir.file_start_idx, k) == spec_start_cluster(dir_entry));
            }
        }
        Ok(FileDescriptor {
            file_start_idx: data_cluster,
            file_current_idx: data_cluster,
            dir_idx: dir.file_start_idx,
            dir_offset: dir_entry_idx,
            file_size: 0,
            ptr: 0,
        })
    }

    /// Opens the first entry of a directory the name matches; `Err` when
    /// that entry is not a file or no entry matches.
    pub fn open_named<D: BlockIO>(&mut self, device: &mut D, dir: &DirectoryDescriptor, query: &[u8]) -> (r: Result<FileDescriptor, ()>)
        requires
            old(self).supported(),
        ensures
            final(self).supported(),
            final(self).data_addr == old(self).data_addr,
            final(self).use_cache == old(self).use_cache,
            final(self).next_free_cluster == old(self).next_free_cluster,
            r matches Ok(f) ==> {
                &&& f.file_current_idx == f.file_start_idx
                &&& f.dir_idx == dir.file_start_idx
                &&& f.dir_offset < FAT_MAX_DIRECTORY_ENTRY_COUNT
                &&& f.ptr == 0
            },
            !old(self).use_cache ==> *final(self) == *old(self),
            coherent(*old(self), *old(device)) ==> final(device).blocks() == old(device).blocks()
                && (r is Ok ==> coherent(*final(self), *old(device))),
            coherent(*old(self), *old(device)) && r is Ok ==> {
                let fs = *old(self);
                let d = old(device).blocks();
                let k = r->Ok_0.dir_offset as int;
                &&& first_named(fs, d, dir.file_start_idx, query@, k)
                &&& dir_entry_attr(fs, d, dir.file_start_idx, k) == FAT_DIR_ATTRIBUTE_FILE
                &&& r->Ok_0.file_start_idx == dir_entry_cluster(fs, d, dir.file_start_idx, k)
                &&& r->Ok_0.file_size == le_u32(dir_entry_block(fs, d, dir.file_start_idx, k), dir_entry_offset(k) + 28)
            },
            same_device(*old(device), *final(device)),
            coherent(*old(self), *old(device)) && dir_served(*old(self), *old(device), dir.file_start_idx) ==> (r is Ok
                <==> named_with_attr(*old(self), old(device).blocks(), dir.file_start_idx, query@, FAT_DIR_ATTRIBUTE_FILE)),
            ({
                let ds = dir_blocks_start(*old(self), dir.file_start_idx);
                &&& old(self).use_cache
                &&& cache_sound(old(self).cluster_cache@, old(device).blocks(), old(self).data_addr as int)
                &&& serving(*old(device))
                &&& run_addr(old(self).data_addr as int, ds) && ds + 8 <= old(device).blocks().len()
            }) ==> {
                let fs = *old(self);
                let sd = seen(fs.cluster_cache@, old(device).blocks(), dir_blocks_start(fs, dir.file_start_idx));
                &&& cache_sound(final(self).cluster_cache@, final(device).blocks(), fs.data_addr as int)
                &&& forall|x: int| run_addr(fs.data_addr as int, x) && x + 8 <= old(device).blocks().len()
                    ==> #[trigger] run_view(final(self).cluster_cache@, final(device).blocks(), x)
                        == run_view(fs.cluster_cache@, old(device).blocks(), x)
                &&& (r is Ok <==> named_with_attr(fs, sd, dir.file_start_idx, query@, FAT_DIR_ATTRIBUTE_FILE))
                &&& r is Ok ==> first_named(fs, sd, dir.file_start_idx, query@, r->Ok_0.dir_offset as int)
                    && r->Ok_0.file_start_idx == dir_entry_cluster(fs, sd, dir.file_start_idx, r->Ok_0.dir_offset as int)
            },
    {
        let ghost fs0 = *old(self);
        let ghost disk = old(device).blocks();
        let ghost ds0 = dir_blocks_start(fs0, dir.file_start_idx);
        let ghost cs = fs0.use_cache && cache_sound(fs0.cluster_cache@, disk, fs0.data_addr as int)
            && serving(*old(device)) && run_addr(fs0.data_addr as int, ds0) && ds0 + 8 <= disk.len();
        let ghost sd = seen(fs0.cluster_cache@, disk, ds0);
        let mut offset: u32 = 0;
        while offset < FAT_MAX_DIRECTORY_ENTRY_COUNT
            invariant
                self.supported(),
                self.use_cache == old(self).use_cache,
                self.next_free_cluster == old(self).next_free_cluster,
                offset <= FAT_MAX_DIRECTORY_ENTRY_COUNT,
                fs0 == *old(self),
                disk == old(device).blocks(),
                same_device(*old(device), *device),
                self.data_addr == fs0.data_addr,
                !self.use_cache ==> *self == fs0,
                coherent(fs0, *old(device)) ==> {
                    &&& coherent(*self, *old(device))
                    &&& device.blocks() == disk
                    &&& forall|j: int| 0 <= j < offset ==> !name_matches(#[trigger] dir_entry_name(fs0, disk, dir.file_start_idx, j), query@)
                },
                cs == (fs0.use_cache && cache_sound(fs0.cluster_cache@, disk, fs0.data_addr as int)
                    && serving(*old(device)) && run_addr(fs0.data_addr as int, ds0) && ds0 + 8 <= disk.len()),
                ds0 == dir_blocks_start(fs0, dir.file_start_idx),
                sd == seen(fs0.cluster_cache@, disk, ds0),
                cs ==> {
                    &&& self.use_cache
                    &&& cache_sound(self.cluster_cache@, device.blocks(), fs0.data_addr as int)
                    &&& device.blocks().len() == disk.len()
                    &&& forall|x: int| run_addr(fs0.data_addr as int, x) && x + 8 <= disk.len()
                        ==> #[trigger] run_view(self.cluster_cache@, device.blocks(), x) == run_view(fs0.cluster_cache@, disk, x)
                    &&& forall|j: int| 0 <= j < offset ==> !name_matches(#[trigger] dir_entry_name(fs0, sd, dir.file_start_idx, j), query@)
                },
            decreases FAT_MAX_DIRECTORY_ENTRY_COUNT - offset,
        {
            let ghost e_now = self.cluster_cache@;
            let ghost b_now = device.blocks();
            let ghost fs_now = *self;
            let entry = self.get_dir_entry(device, dir.file_start_idx, offset)?;
            proof {
                if cs {
                    let j = offset as int;
                    let sn = seen(e_now, b_now, ds0);
                    assert(run_view(e_now, b_now, ds0) == run_view(fs0.cluster_cache@, disk, ds0));
                    lemma_seen_run(e_now, b_now, fs0.data_addr as int, ds0);
                    lemma_seen_run(fs0.cluster_cache@, disk, fs0.data_addr as int, ds0);
                    assert(sn[ds0 + j / 16] == run_view(e_now, b_now, ds0)[j / 16]);
                    assert(0 <= j / 16 < 8);
                    assert(sn[ds0 + j / 16] == sd[ds0 + j / 16]);
                    assert(dir_entry_block(fs_now, sn, dir.file_start_idx, j) == dir_entry_block(fs0, sd, dir.file_start_idx, j));
                    assert(entry.name@ =~= dir_entry_name(fs0, sd, dir.file_start_idx, j));
                }
            }
            proof {
                if coherent(fs0, *old(device)) {
                    assert(entry.name@ =~= dir_entry_name(fs0, disk, dir.file_start_idx, offset as int));
                }
            }
            if names_match(&entry.name, query) {
                if entry.attr != FAT_DIR_ATTRIBUTE_FILE {
                    proof {
                        if coherent(fs0, *old(device)) {
                            lemma_first_named_unique(fs0, disk, dir.file_start_idx, query@, offset as int);
                        }
                        if cs {
                            lemma_first_named_unique(fs0, sd, dir.file_start_idx, query@, offset as int);
                        }
                    }
                    return Err(());
                }
                let file_start_idx = entry.start_cluster_idx();
                proof {
                    if coherent(fs0, *old(device)) {
                        assert(first_named(fs0, disk, dir.file_start_idx, query@, offset as int));
                    }
                    if cs {
                        assert(first_named(fs0, sd, dir.file_start_idx, query@, offset as int));
                    }
                }
                return Ok(FileDescriptor {
                    file_start_idx,
                    file_current_idx: file_start_idx,
                    dir_idx: dir.file_start_idx,
                    dir_offset: offset,
                    file_size: entry.file_size,
                    ptr: 0,
                });
            }
            offset = offset + 1;
        }
        Err(())
    }

    /// Clears the file's directory entry and frees its cluster chain.
    pub fn remove<D: BlockIO>(&mut self, device: &mut D, file: FileDescriptor) -> (r: Result<(), ()>)
        requires
            old(self).supported(),
            file.dir_offset < FAT_MAX_DIRECTORY_ENTRY_COUNT,
        ensures
            final(self).supported(),
            final(self).use_cache == old(self).use_cache,
            final(self).next_free_cluster == old(self).next_free_cluster,
            ({
                let first = dir_blocks_start(*old(self), file.dir_idx);
                &&& !old(self).use_cache
                &&& old(device).modeled()
                &&& r is Ok
                &&& (first + 8 <= old(self).fat_addr || old(self).fat_addr + FAT_SECTOR_PER_CLUSTER_ENTRY <= first)
            }) ==> {
                let fs = *final(self);
                let d = final(device).blocks();
                let k = file.dir_offset as int;
                &&& dir_entry_cluster(fs, d, file.dir_idx, k) == 0
                &&& dir_entry_attr(fs, d, file.dir_idx, k) == 0
            },
            final(self).fat_addr == old(self).fat_addr,
            final(self).fat_size == old(self).fat_size,
            final(self).data_addr == old(self).data_addr,
            same_device(*old(device), *final(device)),
            old(device).modeled() && r is Ok && file.file_start_idx != FAT_END_OF_CLUSTER
                ==> fat_next(*final(self), final(device).blocks(), file.file_start_idx) == 0,
            ({
                let first = dir_blocks_start(*old(self), file.dir_idx);
                &&& !old(self).use_cache
                &&& dir_served(*old(self), *old(device), file.dir_idx)
                &&& file.file_start_idx == FAT_END_OF_CLUSTER && old(self).fat_size * FAT_SECTOR_PER_CLUSTER_ENTRY <= u32::MAX
                    || single_cluster(*old(self), *old(device), file.file_start_idx)
                    && !(first <= fat_entry_addr(*old(self), file.file_start_idx) < first + 8)
            }) ==> r is Ok,
            forall|n: nat| #[trigger] chain_freeable(*old(self), *old(device), file.file_start_idx, n) && ({
                let first = dir_blocks_start(*old(self), file.dir_idx);
                &&& !old(self).use_cache
                &&& dir_served(*old(self), *old(device), file.dir_idx)
                &&& (first + 8 <= old(self).fat_addr || old(self).fat_addr + FAT_SECTOR_PER_CLUSTER_ENTRY <= first)
            }) ==> r is Ok,
    {
        let entry = DirectoryEntry::empty();
        self.set_dir_entry(device, file.dir_idx, file.dir_offset, &entry)?;
        let ghost cleared = device.blocks();
        proof {
            if !self.use_cache && old(device).modeled() && file.file_start_idx != FAT_END_OF_CLUSTER {
                let a = fat_entry_addr(*self, file.file_start_idx);
                let first = dir_blocks_start(*self, file.dir_idx);
                if !(first <= a < first + 8) && 0 <= a < old(device).blocks().len() {
                    assert(cleared[a] == old(device).blocks()[a]);
                }
            }
        }
        proof {
            let first = dir_blocks_start(*self, file.dir_idx);
            if !self.use_cache && old(device).modeled() && (first + 8 <= self.fat_addr || self.fat_addr + FAT_SECTOR_PER_CLUSTER_ENTRY <= first) {
                assert forall|n: nat| #[trigger] chain_freeable(*old(self), *old(device), file.file_start_idx, n)
                    implies chain_freeable(*self, *device, file.file_start_idx, n) by {
                    lemma_chain_frame(*self, *old(device), *device, file.file_start_idx, n);
                }
            }
        }
        let r = self.free_chain(device, file.file_start_idx);
        proof {
            let at = dir_blocks_start(*self, file.dir_idx) + (file.dir_offset as int) / 16;
            if !self.use_cache && old(device).modeled() && r is Ok && (at - (file.dir_offset as int) / 16 + 8 <= self.fat_addr
                || self.fat_addr + FAT_SECTOR_PER_CLUSTER_ENTRY <= at - (file.dir_offset as int) / 16) {
                assert(device.blocks()[at] == cleared[at]);
            }
        }
        r
    }

    /// Reads bytes from the file position into the buffer, following the
    /// cluster chain at each cluster's last byte; it stops with what it has
    /// read when the chain ends. `Err` carries the number of bytes read
    /// before a failure.
    #[verifier::rlimit(40)]
    pub fn read<D: BlockIO>(&mut self, device: &mut D, file: &mut FileDescriptor, buffer: &mut Vec<u8>) -> (r: Result<usize, usize>)
        requires
            old(self).supported(),
            old(file).ptr + old(buffer)@.len() <= u32::MAX,
        ensures
            final(self).supported(),
            final(self).use_cache == old(self).use_cache,
            final(buffer)@.len() == old(buffer)@.len(),
            final(file).file_start_idx == old(file).file_start_idx,
            final(file).dir_idx == old(file).dir_idx,
            final(file).dir_offset == old(file).dir_offset,
            final(file).file_size == old(file).file_size,
            r matches Ok(n) ==> n <= old(buffer)@.len() && final(file).ptr == old(file).ptr + n,
            r matches Err(n) ==> n <= old(buffer)@.len() && final(file).ptr == old(file).ptr + n,
            !old(self).use_cache ==> *final(self) == *old(self),
            same_device(*old(device), *final(device)),
            coherent(*old(self), *old(device)) ==> {
                let fs = *old(self);
                let disk = old(device).blocks();
                let start = old(file).file_current_idx;
                let ptr = old(file).ptr as int;
                let n = match r { Ok(n) => n as int, Err(n) => n as int };
                &&& final(device).blocks() == disk
                &&& forall|i: int| 0 <= i < n ==> final(buffer)@[i] == file_byte(fs, disk, start, ptr, i)
                &&& r is Ok && n == old(buffer)@.len() ==> final(file).file_current_idx
                    == chain_nth(fs, disk, start, ((ptr % 4096 + n) / 4096) as nat)
                &&& r is Ok && n < old(buffer)@.len() ==> {
                    &&& (ptr + n) % 4096 == 4095
                    &&& fat_next(fs, disk, chain_nth(fs, disk, start, ((ptr % 4096 + n) / 4096) as nat)) == FAT_END_OF_CLUSTER
                    &&& final(file).file_current_idx == FAT_END_OF_CLUSTER
                }
            },
            coherent(*old(self), *old(device))
                && chain_readable(*old(self), *old(device), old(file).file_current_idx,
                    ((old(file).ptr % 4096 + old(buffer)@.len()) / 4096) as nat) ==> r is Ok,
            ({
                let fs = *old(self);
                let cs = cluster_start(fs, old(file).file_current_idx);
                &&& fs.use_cache
                &&& cache_sound(fs.cluster_cache@, old(device).blocks(), fs.data_addr as int)
                &&& serving(*old(device))
                &&& old(file).ptr % 4096 + old(buffer)@.len() < 4096
                &&& run_addr(fs.data_addr as int, cs) && cs + 8 <= old(device).blocks().len()
            }) ==> {
                let cs = cluster_start(*old(self), old(file).file_current_idx);
                let o = old(file).ptr % 4096;
                &&& r == Ok::<usize, usize>(old(buffer)@.len() as usize)
                &&& cache_sound(final(self).cluster_cache@, final(device).blocks(), old(self).data_addr as int)
                &&& forall|x: int| run_addr(old(self).data_addr as int, x) && x + 8 <= old(device).blocks().len()
                    ==> #[trigger] run_view(final(self).cluster_cache@, final(device).blocks(), x)
                        == run_view(old(self).cluster_cache@, old(device).blocks(), x)
                &&& forall|i: int| 0 <= i < old(buffer)@.len() ==> #[trigger] final(buffer)@[i]
                    == run_view(old(self).cluster_cache@, old(device).blocks(), cs)[(o + i) / 512].bytes@[(o + i) % 512]
            },
            ({
                let fs = *old(self);
                &&& fs.use_cache
                &&& cache_sound(fs.cluster_cache@, old(device).blocks(), fs.data_addr as int)
                &&& table_before_runs(fs, old(device).blocks(), old(file).file_current_idx,
                    ((old(file).ptr % 4096 + old(buffer)@.len()) / 4096) as nat)
                &&& chain_readable(fs, *old(device), old(file).file_current_idx,
                    ((old(file).ptr % 4096 + old(buffer)@.len()) / 4096) as nat)
            }) ==> {
                let fs = *old(self);
                let disk = old(device).blocks();
                let start = old(file).file_current_idx;
                let ptr = old(file).ptr as int;
                let n = match r { Ok(n) => n as int, Err(n) => n as int };
                &&& r is Ok
                &&& cache_sound(final(self).cluster_cache@, final(device).blocks(), fs.data_addr as int)
                &&& forall|x: int| run_addr(fs.data_addr as int, x) && x + 8 <= disk.len()
                    ==> #[trigger] run_view(final(self).cluster_cache@, final(device).blocks(), x)
                        == run_view(fs.cluster_cache@, disk, x)
                &&& forall|i: int| 0 <= i < n ==> final(buffer)@[i] == file_byte_seen(fs, fs.cluster_cache@, disk, start, ptr, i)
                &&& n == old(buffer)@.len() ==> final(file).file_current_idx
                    == chain_nth(fs, disk, start, ((ptr % 4096 + n) / 4096) as nat)
                &&& n < old(buffer)@.len() ==> {
                    &&& (ptr + n) % 4096 == 4095
                    &&& fat_next(fs, disk, chain_nth(fs, disk, start, ((ptr % 4096 + n) / 4096) as nat)) == FAT_END_OF_CLUSTER
                    &&& final(file).file_current_idx == FAT_END_OF_CLUSTER
                }
            },
    {
        let ghost rv = ({
            let fs = *old(self);
            let cs = cluster_start(fs, old(file).file_current_idx);
            &&& fs.use_cache
            &&& cache_sound(fs.cluster_cache@, old(device).blocks(), fs.data_addr as int)
            &&& serving(*old(device))
            &&& old(file).ptr % 4096 + old(buffer)@.len() < 4096
            &&& run_addr(fs.data_addr as int, cs) && cs + 8 <= old(device).blocks().len()
        });
        let ghost v0 = run_view(old(self).cluster_cache@, old(device).blocks(), cluster_start(*old(self), old(file).file_current_idx));
        let ghost coh = coherent(*old(self), *old(device));
        let ghost total = ((old(file).ptr % 4096 + old(buffer)@.len()) / 4096) as nat;
        let ghost sd = old(self).use_cache && cache_sound(old(self).cluster_cache@, old(device).blocks(), old(self).data_addr as int)
            && table_before_runs(*old(self), old(device).blocks(), old(file).file_current_idx, total);
        let ghost e0 = old(self).cluster_cache@;
        let ghost good = (coh || sd) && chain_readable(*old(self), *old(device), old(file).file_current_idx, total);
        let ghost sg = sd && good;
        let ghost fs0 = *old(self);
        let ghost disk = old(device).blocks();
        let ghost start = old(file).file_current_idx;
        let ghost ptr0 = old(file).ptr as int;
        let byte_per_cluster = self.byte_per_sector as u32 * self.sector_per_cluster as u32;
        let mut dev_buffer: Vec<Block> = vec![Block::empty(), Block::empty(), Block::empty(), Block::empty(),
            Block::empty(), Block::empty(), Block::empty(), Block::empty()];
        let mut count: usize = 0;
        proof {
            if sg {
                lemma_cluster_run(fs0, *old(device), start);
            }
        }
        match self.read_cluster(device, file.file_current_idx, &mut dev_buffer) {
            Ok(_) => {},
            Err(_) => return Err(count),
        }
        let ghost e1 = self.cluster_cache@;
        let ghost b1 = device.blocks();
        let len = buffer.len();
        while count < len
            invariant
                self.supported(),
                self.use_cache == old(self).use_cache,
                byte_per_cluster == 4096,
                dev_buffer@.len() == 8,
                len == buffer@.len(),
                len == old(buffer)@.len(),
                count <= len,
                file.ptr == old(file).ptr + count,
                old(file).ptr + len <= u32::MAX,
                file.file_start_idx == old(file).file_start_idx,
                file.dir_idx == old(file).dir_idx,
                file.dir_offset == old(file).dir_offset,
                file.file_size == old(file).file_size,
                fs0 == *old(self),
                disk == old(device).blocks(),
                ptr0 == old(file).ptr,
                start == old(file).file_current_idx,
                !self.use_cache ==> *self == fs0,
                self.fat_addr == fs0.fat_addr,
                self.fat_size == fs0.fat_size,
                self.data_addr == fs0.data_addr,
                same_device(*old(device), *device),
                coh == coherent(fs0, *old(device)),
                total == ((ptr0 % 4096 + len) / 4096) as nat,
                sd == (fs0.use_cache && cache_sound(e0, disk, fs0.data_addr as int) && table_before_runs(fs0, disk, start, total)),
                e0 == fs0.cluster_cache@,
                good == ((coh || sd) && chain_readable(fs0, *old(device), start, total)),
                sg == (sd && good),
                sg ==> {
                    &&& cache_sound(self.cluster_cache@, device.blocks(), fs0.data_addr as int)
                    &&& forall|x: int| run_addr(fs0.data_addr as int, x) && x + 8 <= disk.len()
                        ==> #[trigger] run_view(self.cluster_cache@, device.blocks(), x) == run_view(e0, disk, x)
                    &&& forall|y: int| 0 <= y < fs0.data_addr && y < disk.len() ==> #[trigger] device.blocks()[y] == disk[y]
                    &&& file.file_current_idx == chain_nth(fs0, disk, start, ((ptr0 % 4096 + count) / 4096) as nat)
                    &&& dev_buffer@ == run_view(e0, disk, cluster_start(fs0, file.file_current_idx))
                    &&& forall|i: int| 0 <= i < count ==> buffer@[i] == file_byte_seen(fs0, e0, disk, start, ptr0, i)
                },
                coh && self.use_cache ==> in_step(self.cluster_cache@, disk),
                rv == ({
                    let cs = cluster_start(fs0, start);
                    &&& fs0.use_cache
                    &&& cache_sound(fs0.cluster_cache@, disk, fs0.data_addr as int)
                    &&& serving(*old(device))
                    &&& ptr0 % 4096 + len < 4096
                    &&& run_addr(fs0.data_addr as int, cs) && cs + 8 <= disk.len()
                }),
                v0 == run_view(fs0.cluster_cache@, disk, cluster_start(fs0, start)),
                rv ==> {
                    &&& self.cluster_cache@ == e1
                    &&& device.blocks() == b1
                    &&& dev_buffer@ == v0
                    &&& file.file_current_idx == start
                    &&& forall|i: int| 0 <= i < count ==> #[trigger] buffer@[i]
                        == v0[(ptr0 % 4096 + i) / 512].bytes@[(ptr0 % 4096 + i) % 512]
                },
                good ==> chain_readable(fs0, *old(device), file.file_current_idx,
                    (total - (ptr0 % 4096 + count) / 4096) as nat),
                coh ==> {
                    &&& device.blocks() == disk
                    &&& file.file_current_idx == chain_nth(fs0, disk, start, ((ptr0 % 4096 + count) / 4096) as nat)
                    &&& dev_buffer@ == cluster_blocks(fs0, disk, file.file_current_idx)
                    &&& forall|i: int| 0 <= i < count ==> buffer@[i] == file_byte(fs0, disk, start, ptr0, i)
                },
            decreases len - count,
        {
            proof {
                lemma_cluster_step(ptr0, count as int);
            }
            let file_cluster_offset = file.ptr % byte_per_cluster;
            let data = dev_buffer[(file_cluster_offset / 512) as usize].bytes[(file_cluster_offset % 512) as usize];
            let ghost before = buffer@;
            buffer.set(count, data);
            proof {
                if coh {
                    assert forall|i: int| 0 <= i < count + 1 implies buffer@[i] == file_byte(fs0, disk, start, ptr0, i) by {
                        if i < count {
                            assert(buffer@[i] == before[i]);
                        }
                    }
                }
                if sg {
                    assert forall|i: int| 0 <= i < count + 1 implies buffer@[i] == file_byte_seen(fs0, e0, disk, start, ptr0, i) by {
                        if i < count {
                            assert(buffer@[i] == before[i]);
                        }
                    }
                }
            }
            if file_cluster_offset == byte_per_cluster - 1 {
                let ghost cur = file.file_current_idx;
                proof {
                    if good {
                        let k = ((ptr0 % 4096 + count) / 4096) as nat;
                        assert(((ptr0 % 4096 + count + 1) / 4096) as nat == k + 1);
                        assert(k + 1 <= total) by (nonlinear_arith)
                            requires count + 1 <= len, total == ((ptr0 % 4096 + len) / 4096) as nat,
                                k + 1 == ((ptr0 % 4096 + count + 1) / 4096) as nat, 0 <= ptr0 % 4096;
                        assert(chain_readable(fs0, *old(device), cur, (total - k) as nat));
                    }
                }
                file.file_current_idx = match self.get_cluster_ptr(device, file.file_current_idx) {
                    Ok(c) => c,
                    Err(_) => return Err(count),
                };
                proof {
                    if sg {
                        let k = ((ptr0 % 4096 + count) / 4096) as nat;
                        assert(k + 1 <= total) by (nonlinear_arith)
                            requires count + 1 <= len, total == ((ptr0 % 4096 + len) / 4096) as nat,
                                k + 1 == ((ptr0 % 4096 + count + 1) / 4096) as nat, 0 <= ptr0 % 4096;
                        assert(cur == chain_nth(fs0, disk, start, k));
                        assert(fat_entry_addr(fs0, cur) < fs0.data_addr);
                        assert(device.blocks()[fat_entry_addr(fs0, cur)] == disk[fat_entry_addr(fs0, cur)]);
                        assert(file.file_current_idx == fat_next(fs0, disk, cur));
                    }
                }
                if file.file_current_idx == FAT_END_OF_CLUSTER {
                    return Ok(count);
                }
                proof {
                    if good {
                        let k = ((ptr0 % 4096 + count) / 4096) as nat;
                        assert(file.file_current_idx == fat_next(fs0, disk, cur));
                        assert(chain_readable(fs0, *old(device), file.file_current_idx, (total - (k + 1)) as nat));
                        if sg {
                            lemma_cluster_run(fs0, *old(device), file.file_current_idx);
                        }
                    }
                }
                match self.read_cluster(device, file.file_current_idx, &mut dev_buffer) {
                    Ok(_) => {},
                    Err(_) => return Err(count),
                }
                proof {
                    if coh || sg {
                        let k = ((ptr0 % 4096 + count) / 4096) as nat;
                        assert(((ptr0 % 4096 + count + 1) / 4096) as nat == k + 1);
                        assert(chain_nth(fs0, disk, start, k + 1) == fat_next(fs0, disk, chain_nth(fs0, disk, start, k))) by {
                            lemma_chain_last(fs0, disk, start, k);
                        }
                    }
                }
            }
            file.ptr = file.ptr + 1;
            count = count + 1;
        }
        Ok(count)
    }

    /// Writes the buffer at the file position, cluster by cluster: at each
    /// cluster's last byte the cluster is written and the chain followed,
    /// taking a free cluster when it ends. The size grows with the position;
    /// at the end the cluster is written and the entry's size grows by the
    /// bytes written, wrapping past 32 bits. `Err` carries the number of
    /// bytes written before a failure.
    #[verifier::rlimit(40)]
    pub fn write<D: BlockIO>(&mut self, device: &mut D, file: &mut FileDescriptor, buffer: &Vec<u8>) -> (r: Result<usize, usize>)
        requires
            old(self).supported(),
            old(file).ptr + buffer@.len() <= u32::MAX,
            old(file).dir_offset < FAT_MAX_DIRECTORY_ENTRY_COUNT,
        ensures
            final(self).supported(),
            final(self).use_cache == old(self).use_cache,
            final(file).file_start_idx == old(file).file_start_idx,
            final(file).dir_idx == old(file).dir_idx,
            final(file).dir_offset == old(file).dir_offset,
            r matches Ok(n) ==> {
                &&& n == buffer@.len()
                &&& final(file).ptr == old(file).ptr + n
                &&& final(file).file_size == (if n == 0 || old(file).file_size >= old(file).ptr + n {
                    old(file).file_size as int
                } else {
                    old(file).ptr + n
                })
            },
            r matches Err(n) ==> n <= buffer@.len(),
            ({
                let fs = *old(self);
                let c = old(file).file_current_idx;
                let ptr = old(file).ptr as int;
                &&& !fs.use_cache
                &&& old(device).modeled()
                &&& ptr % 4096 + buffer@.len() < 4096
                &&& c != fs.data_addr + FAT_SECTOR_PER_CLUSTER * old(file).dir_idx
                &&& r is Ok
            }) ==> forall|i: int| 0 <= i < buffer@.len() ==> file_byte(*old(self), final(device).blocks(),
                old(file).file_current_idx, old(file).ptr as int, i) == #[trigger] buffer@[i],
            same_device(*old(device), *final(device)),
            ({
                &&& old(file).ptr % 4096 + buffer@.len() < 4096
                &&& cluster_served(*old(self), *old(device), old(file).file_current_idx)
                &&& dir_served(*old(self), *old(device), old(file).dir_idx)
            }) ==> r == Ok::<usize, usize>(buffer@.len() as usize),
            ({
                &&& !old(self).use_cache
                &&& write_room(*old(self), *old(device), old(self).next_free_cluster, old(file).file_current_idx,
                    ((old(file).ptr % 4096 + buffer@.len()) / 4096) as nat)
                &&& dir_served(*old(self), *old(device), old(file).dir_idx)
            }) ==> r == Ok::<usize, usize>(buffer@.len() as usize),
            ({
                let fs = *old(self);
                let cs = cluster_start(fs, old(file).file_current_idx);
                let ds = dir_blocks_start(fs, old(file).dir_idx);
                &&& fs.use_cache
                &&& cache_sound(fs.cluster_cache@, old(device).blocks(), fs.data_addr as int)
                &&& serving(*old(device))
                &&& old(file).ptr % 4096 + buffer@.len() < 4096
                &&& run_addr(fs.data_addr as int, cs) && cs + 8 <= old(device).blocks().len()
                &&& run_addr(fs.data_addr as int, ds) && ds + 8 <= old(device).blocks().len()
                &&& cs != ds
            }) ==> {
                let cs = cluster_start(*old(self), old(file).file_current_idx);
                let o = old(file).ptr % 4096;
                &&& r == Ok::<usize, usize>(buffer@.len() as usize)
                &&& cache_sound(final(self).cluster_cache@, final(device).blocks(), old(self).data_addr as int)
                &&& forall|i: int| 0 <= i < buffer@.len() ==> run_view(final(self).cluster_cache@, final(device).blocks(), cs)[(o + i) / 512]
                    .bytes@[(o + i) % 512] == #[trigger] buffer@[i]
            },
            ({
                let m = ((old(file).ptr % 4096 + buffer@.len()) / 4096) as nat;
                &&& !old(self).use_cache
                &&& write_room(*old(self), *old(device), old(self).next_free_cluster, old(file).file_current_idx, m)
                &&& dir_served(*old(self), *old(device), old(file).dir_idx)
                &&& chain_spread(*old(self), old(device).blocks(), old(file).file_current_idx, m, old(file).dir_idx)
            }) ==> forall|i: int| 0 <= i < buffer@.len() ==> file_byte(*old(self), final(device).blocks(),
                old(file).file_current_idx, old(file).ptr as int, i) == #[trigger] buffer@[i],
            ({
                let fs = *old(self);
                let m = ((old(file).ptr % 4096 + buffer@.len()) / 4096) as nat;
                &&& fs.use_cache
                &&& cache_sound(fs.cluster_cache@, old(device).blocks(), fs.data_addr as int)
                &&& table_before_runs(fs, old(device).blocks(), old(file).file_current_idx, m)
                &&& chain_readable(fs, *old(device), old(file).file_current_idx, m)
                &&& dir_served(fs, *old(device), old(file).dir_idx)
                &&& chain_spread(fs, old(device).blocks(), old(file).file_current_idx, m, old(file).dir_idx)
            }) ==> {
                &&& r == Ok::<usize, usize>(buffer@.len() as usize)
                &&& cache_sound(final(self).cluster_cache@, final(device).blocks(), old(self).data_addr as int)
                &&& forall|i: int| 0 <= i < buffer@.len() ==> file_byte_seen(*old(self), final(self).cluster_cache@,
                    final(device).blocks(), old(file).file_current_idx, old(file).ptr as int, i) == #[trigger] buffer@[i]
            },
    {
        let ghost total = ((old(file).ptr % 4096 + buffer@.len()) / 4096) as nat;
        let ghost good = !old(self).use_cache && dir_served(*old(self), *old(device), old(file).dir_idx)
            && write_room(*old(self), *old(device), old(self).next_free_cluster, old(file).file_current_idx, total);
        let ghost fits = old(file).ptr % 4096 + buffer@.len() < 4096;
        let ghost fs0 = *old(self);
        let ghost disk = old(device).blocks();
        let ghost c0 = old(file).file_current_idx;
        let ghost ptr0 = old(file).ptr as int;
        let ghost spread = good && chain_spread(fs0, disk, c0, total, old(file).dir_idx);
        let ghost e0 = old(self).cluster_cache@;
        let ghost cspread = fs0.use_cache && cache_sound(e0, disk, fs0.data_addr as int) && table_before_runs(fs0, disk, c0, total)
            && chain_readable(fs0, *old(device), c0, total) && dir_served(fs0, *old(device), old(file).dir_idx)
            && chain_spread(fs0, disk, c0, total, old(file).dir_idx);
        proof {
            if cspread {
                assert forall|j: nat| j <= total implies #[trigger] chain_readable(fs0, *old(device), chain_nth(fs0, disk, c0, j), (total - j) as nat) by {
                    lemma_readable_along(fs0, *old(device), c0, total, j);
                }
                assert(chain_nth(fs0, disk, c0, 0) == c0);
                lemma_cluster_run(fs0, *old(device), c0);
            }
        }
        let ghost single = !fs0.use_cache && old(device).modeled() && ptr0 % 4096 + buffer@.len() < 4096
            && c0 != fs0.data_addr + FAT_SECTOR_PER_CLUSTER * old(file).dir_idx;
        let byte_per_cluster = self.cluster_size();
        let mut dev_buffer: Vec<Block> = vec![Block::empty(), Block::empty(), Block::empty(), Block::empty(),
            Block::empty(), Block::empty(), Block::empty(), Block::empty()];
        let mut count: usize = 0;
        match self.read_cluster(device, file.file_current_idx, &mut dev_buffer) {
            Ok(_) => {},
            Err(_) => return Err(count),
        }
        let ghost e1 = self.cluster_cache@;
        let ghost b1 = device.blocks();
        let len = buffer.len();
        while count < len
            invariant
                self.supported(),
                self.use_cache == old(self).use_cache,
                byte_per_cluster == 4096,
                dev_buffer@.len() == 8,
                len == buffer@.len(),
                count <= len,
                file.ptr == old(file).ptr + count,
                old(file).ptr + len <= u32::MAX,
                file.file_start_idx == old(file).file_start_idx,
                file.dir_idx == old(file).dir_idx,
                file.dir_offset == old(file).dir_offset,
                file.file_size == (if count == 0 || old(file).file_size >= old(file).ptr + count {
                    old(file).file_size as int
                } else {
                    old(file).ptr + count
                }),
                fs0 == *old(self),
                disk == old(device).blocks(),
                c0 == old(file).file_current_idx,
                ptr0 == old(file).ptr,
                single == (!fs0.use_cache && old(device).modeled() && ptr0 % 4096 + len < 4096
                    && c0 != fs0.data_addr + FAT_SECTOR_PER_CLUSTER * old(file).dir_idx),
                fits == (ptr0 % 4096 + len < 4096),
                fits ==> file.file_current_idx == c0,
                fits ==> self.cluster_cache@ == e1 && device.blocks() == b1,
                fits ==> forall|i: int| 0 <= i < count ==> (#[trigger] dev_buffer@[(ptr0 % 4096 + i) / 512]).bytes@[(ptr0 % 4096 + i) % 512]
                    == buffer@[i],
                total == ((ptr0 % 4096 + len) / 4096) as nat,
                good == (!fs0.use_cache && dir_served(fs0, *old(device), old(file).dir_idx)
                    && write_room(fs0, *old(device), fs0.next_free_cluster, c0, total)),
                good ==> !self.use_cache,
                spread == (good && chain_spread(fs0, disk, c0, total, old(file).dir_idx)),
                e0 == fs0.cluster_cache@,
                cspread == (fs0.use_cache && cache_sound(e0, disk, fs0.data_addr as int) && table_before_runs(fs0, disk, c0, total)
                    && chain_readable(fs0, *old(device), c0, total) && dir_served(fs0, *old(device), old(file).dir_idx)
                    && chain_spread(fs0, disk, c0, total, old(file).dir_idx)),
                cspread ==> forall|j: nat| j <= total
                    ==> #[trigger] chain_readable(fs0, *old(device), chain_nth(fs0, disk, c0, j), (total - j) as nat),
                cspread ==> {
                    let kc = ((ptr0 % 4096 + count) / 4096) as nat;
                    &&& kc <= total
                    &&& cache_sound(self.cluster_cache@, device.blocks(), fs0.data_addr as int)
                    &&& forall|y: int| 0 <= y < fs0.data_addr && y < disk.len() ==> #[trigger] device.blocks()[y] == disk[y]
                    &&& file.file_current_idx == chain_nth(fs0, disk, c0, kc)
                    &&& forall|i: int| 0 <= i < count && (((ptr0 % 4096 + i) / 4096) as nat) < kc
                        ==> run_view(self.cluster_cache@, device.blocks(), cluster_start(fs0, chain_nth(fs0, disk, c0, ((ptr0 % 4096 + i) / 4096) as nat)))
                            [((ptr0 + i) % 4096) / 512].bytes@[((ptr0 + i) % 4096) % 512] == #[trigger] buffer@[i]
                    &&& forall|i: int| 0 <= i < count && ((ptr0 % 4096 + i) / 4096) as nat == kc
                        ==> dev_buffer@[((ptr0 + i) % 4096) / 512].bytes@[((ptr0 + i) % 4096) % 512] == #[trigger] buffer@[i]
                },
                spread ==> {
                    let kc = ((ptr0 % 4096 + count) / 4096) as nat;
                    &&& kc <= total
                    &&& table_kept(fs0, disk, device.blocks())
                    &&& file.file_current_idx == chain_nth(fs0, disk, c0, kc)
                    &&& forall|j: nat| j < kc ==> fat_entry_addr(fs0, #[trigger] chain_nth(fs0, disk, c0, j)) < disk.len()
                    &&& forall|j: nat| j < kc ==> cluster_start(fs0, #[trigger] chain_nth(fs0, disk, c0, j)) + 8 <= disk.len()
                    &&& forall|i: int| 0 <= i < count && (((ptr0 % 4096 + i) / 4096) as nat) < kc
                        ==> cluster_blocks(fs0, device.blocks(), chain_nth(fs0, disk, c0, ((ptr0 % 4096 + i) / 4096) as nat))
                            [((ptr0 + i) % 4096) / 512].bytes@[((ptr0 + i) % 4096) % 512] == #[trigger] buffer@[i]
                    &&& forall|i: int| 0 <= i < count && ((ptr0 % 4096 + i) / 4096) as nat == kc
                        ==> dev_buffer@[((ptr0 + i) % 4096) / 512].bytes@[((ptr0 + i) % 4096) % 512] == #[trigger] buffer@[i]
                },
                good ==> ({
                    let rem = (total - (ptr0 % 4096 + count) / 4096) as nat;
                    let cur = file.file_current_idx;
                    ||| table_kept(fs0, disk, device.blocks()) && write_room(fs0, *old(device), self.next_free_cluster, cur, rem)
                    ||| fat_entry_addr(fs0, cur) < disk.len() && fat_next(fs0, device.blocks(), cur) == FAT_END_OF_CLUSTER
                        && grow_room(fs0, *old(device), self.next_free_cluster, cur, rem)
                }),
                same_device(*old(device), *device),
                self.fat_addr == fs0.fat_addr,
                self.fat_size == fs0.fat_size,
                self.data_addr == fs0.data_addr,
                single ==> {
                    &&& *self == fs0
                    &&& device.blocks() == disk
                    &&& file.file_current_idx == c0
                    &&& forall|i: int| 0 <= i < count ==> (#[trigger] dev_buffer@[(ptr0 % 4096 + i) / 512]).bytes@[(ptr0 % 4096 + i) % 512]
                        == buffer@[i]
                },
            decreases len - count,
        {
            proof {
                lemma_cluster_step(ptr0, count as int);
                if single {
                    vstd::arithmetic::div_mod::lemma_small_mod((ptr0 % 4096 + count) as nat, 4096);
                }
            }
            let file_cluster_offset = file.ptr % byte_per_cluster;
            let sector = (file_cluster_offset / 512) as usize;
            let mut block = dev_buffer[sector];
            block.set_u8((file_cluster_offset % 512) as usize, buffer[count]);
            let ghost before = dev_buffer@;
            dev_buffer.set(sector, block);
            proof {
                if fits {
                    assert forall|i: int| 0 <= i < count + 1 implies (#[trigger] dev_buffer@[(ptr0 % 4096 + i) / 512]).bytes@[(ptr0 % 4096 + i) % 512]
                        == buffer@[i] by {
                        let o = ptr0 % 4096 + i;
                        let oc = ptr0 % 4096 + count;
                        if i < count {
                            assert(o != oc);
                            if o / 512 == oc / 512 {
                                assert(o % 512 != oc % 512) by (nonlinear_arith)
                                    requires o != oc, o / 512 == oc / 512, 0 <= o, 0 <= oc;
                            }
                            assert(dev_buffer@[o / 512].bytes@[o % 512] == before[o / 512].bytes@[o % 512]);
                        }
                    }
                }
                if spread || cspread {
                    let kc = ((ptr0 % 4096 + count) / 4096) as nat;
                    assert forall|i: int| 0 <= i < count + 1 && ((ptr0 % 4096 + i) / 4096) as nat == kc
                        implies dev_buffer@[((ptr0 + i) % 4096) / 512].bytes@[((ptr0 + i) % 4096) % 512] == #[trigger] buffer@[i] by {
                        lemma_cluster_step(ptr0, i as int);
                        let x = ptr0 % 4096 + i;
                        let y = ptr0 % 4096 + count;
                        let o = (ptr0 + i) % 4096;
                        let oc = (ptr0 + count) % 4096;
                        if i < count {
                            vstd::arithmetic::div_mod::lemma_fundamental_div_mod(x, 4096);
                            vstd::arithmetic::div_mod::lemma_fundamental_div_mod(y, 4096);
                            assert(o != oc);
                            if o / 512 == oc / 512 {
                                assert(o % 512 != oc % 512) by (nonlinear_arith)
                                    requires o != oc, o / 512 == oc / 512, 0 <= o, 0 <= oc;
                            }
                            assert(dev_buffer@[o / 512].bytes@[o % 512] == before[o / 512].bytes@[o % 512]);
                        }
                    }
                }
            }
            if file_cluster_offset == byte_per_cluster - 1 {
                let ghost cur = file.file_current_idx;
                let ghost k = ((ptr0 % 4096 + count) / 4096) as nat;
                let ghost rem = (total - k) as nat;
                let ghost grown = good && !(table_kept(fs0, disk, device.blocks())
                    && write_room(fs0, *old(device), self.next_free_cluster, cur, rem));
                proof {
                    if good {
                        assert(((ptr0 % 4096 + count + 1) / 4096) as nat == k + 1);
                        assert(k + 1 <= total) by (nonlinear_arith)
                            requires count + 1 <= len, total == ((ptr0 % 4096 + len) / 4096) as nat,
                                k + 1 == ((ptr0 % 4096 + count + 1) / 4096) as nat, 0 <= ptr0 % 4096;
                        assert(rem >= 1);
                    }
                    if spread {
                        let e = fat_entry_addr(fs0, cur);
                        if !(table_kept(fs0, disk, device.blocks()) && write_room(fs0, *old(device), self.next_free_cluster, cur, rem)) {
                            assert(device.blocks()[e] == disk[e]);
                            assert(fat_next(fs0, disk, chain_nth(fs0, disk, c0, k)) != FAT_END_OF_CLUSTER);
                            assert(false);
                        }
                        assert(!grown);
                    }
                    if cspread {
                        assert(((ptr0 % 4096 + count + 1) / 4096) as nat == k + 1);
                        assert(k + 1 <= total) by (nonlinear_arith)
                            requires count + 1 <= len, total == ((ptr0 % 4096 + len) / 4096) as nat,
                                k + 1 == ((ptr0 % 4096 + count + 1) / 4096) as nat, 0 <= ptr0 % 4096;
                        assert(chain_readable(fs0, *old(device), chain_nth(fs0, disk, c0, k), (total - k) as nat));
                        lemma_cluster_run(fs0, *old(device), cur);
                    }
                }
                let ghost pre_write = device.blocks();
                let ghost pre_cc = self.cluster_cache@;
                match self.write_cluster(device, file.file_current_idx, &dev_buffer) {
                    Ok(_) => {},
                    Err(_) => return Err(count),
                }
                proof {
                    if good {
                        let a = cluster_start(fs0, cur);
                        assert(cluster_apart(fs0, cur));
                        assert forall|x: int| fs0.fat_addr <= x < fs0.fat_addr + FAT_SECTOR_PER_CLUSTER_ENTRY && 0 <= x < pre_write.len()
                            implies #[trigger] device.blocks()[x] == pre_write[x] by {
                            assert(!(a <= x < a + 8));
                        }
                        if !grown {
                            assert forall|x: int| fs0.fat_addr <= x < fs0.fat_addr + FAT_SECTOR_PER_CLUSTER_ENTRY && 0 <= x < disk.len()
                                implies #[trigger] device.blocks()[x] == disk[x] by {
                                assert(device.blocks()[x] == pre_write[x]);
                            }
                        } else {
                            let e = fat_entry_addr(fs0, cur);
                            assert(device.blocks()[e] == pre_write[e]);
                        }
                    }
                    if spread {
                        assert(device.blocks() == ram_write(pre_write, cluster_start(fs0, cur), dev_buffer@));
                        assert forall|i: int| 0 <= i < count + 1 implies cluster_blocks(fs0, device.blocks(),
                            chain_nth(fs0, disk, c0, ((ptr0 % 4096 + i) / 4096) as nat))
                            [((ptr0 + i) % 4096) / 512].bytes@[((ptr0 + i) % 4096) % 512] == #[trigger] buffer@[i] by {
                            let ki = ((ptr0 % 4096 + i) / 4096) as nat;
                            let ci = chain_nth(fs0, disk, c0, ki);
                            vstd::arithmetic::div_mod::lemma_div_is_ordered(ptr0 % 4096 + i, ptr0 % 4096 + count, 4096);
                            assert(ki <= k);
                            if ki < k {
                                assert(ci != cur);
                                assert(cluster_start(fs0, ci) + 8 <= disk.len());
                            }
                            lemma_cluster_write(fs0, pre_write, cur, ci, dev_buffer@);
                        }
                    }
                    if cspread {
                        assert forall|i: int| 0 <= i < count + 1 implies run_view(self.cluster_cache@, device.blocks(),
                            cluster_start(fs0, chain_nth(fs0, disk, c0, ((ptr0 % 4096 + i) / 4096) as nat)))
                            [((ptr0 + i) % 4096) / 512].bytes@[((ptr0 + i) % 4096) % 512] == #[trigger] buffer@[i] by {
                            let ki = ((ptr0 % 4096 + i) / 4096) as nat;
                            let ci = chain_nth(fs0, disk, c0, ki);
                            vstd::arithmetic::div_mod::lemma_div_is_ordered(ptr0 % 4096 + i, ptr0 % 4096 + count, 4096);
                            assert(ki <= k);
                            if ki < k {
                                assert(ci != cur);
                                assert(chain_readable(fs0, *old(device), chain_nth(fs0, disk, c0, ki), (total - ki) as nat));
                                lemma_cluster_run(fs0, *old(device), ci);
                                assert(run_view(self.cluster_cache@, device.blocks(), cluster_start(fs0, ci))
                                    == run_view(pre_cc, pre_write, cluster_start(fs0, ci)));
                            }
                        }
                    }
                }
                let mut next_cluster = match self.get_cluster_ptr(device, file.file_current_idx) {
                    Ok(c) => c,
                    Err(_) => return Err(count),
                };
                let ghost follows = good && !grown && fat_next(fs0, disk, cur) != FAT_END_OF_CLUSTER;
                proof {
                    if good {
                        let e = fat_entry_addr(fs0, cur);
                        if !grown {
                            assert(device.blocks()[e] == disk[e]);
                            assert(next_cluster == fat_next(fs0, disk, cur));
                        } else {
                            assert(next_cluster == FAT_END_OF_CLUSTER);
                        }
                    }
                    if cspread {
                        let e = fat_entry_addr(fs0, cur);
                        assert(k + 1 <= total) by (nonlinear_arith)
                            requires count + 1 <= len, total == ((ptr0 % 4096 + len) / 4096) as nat,
                                k + 1 == ((ptr0 % 4096 + count + 1) / 4096) as nat, 0 <= ptr0 % 4096;
                        assert(e < fs0.data_addr);
                        assert(device.blocks()[e] == disk[e]);
                        assert(next_cluster == fat_next(fs0, disk, cur));
                        assert(fat_next(fs0, disk, chain_nth(fs0, disk, c0, k)) != FAT_END_OF_CLUSTER);
                        lemma_chain_last(fs0, disk, c0, k);
                        assert(chain_readable(fs0, *old(device), chain_nth(fs0, disk, c0, k + 1), (total - (k + 1)) as nat));
                        lemma_cluster_run(fs0, *old(device), next_cluster);
                    }
                }
                if next_cluster == FAT_END_OF_CLUSTER {
                    let ghost nf = self.next_free_cluster;
                    proof {
                        if good {
                            assert(grow_room(fs0, *old(device), nf, cur, rem));
                        }
                    }
                    let free_cluster = match self.get_free_cluster(device) {
                        Ok(c) => c,
                        Err(_) => return Err(count),
                    };
                    match self.set_cluster_ptr(device, file.file_current_idx, free_cluster) {
                        Ok(_) => {},
                        Err(_) => return Err(count),
                    }
                    match self.set_cluster_ptr(device, free_cluster, FAT_END_OF_CLUSTER) {
                        Ok(_) => {},
                        Err(_) => return Err(count),
                    }
                    proof {
                        if good {
                            assert(free_cluster == nf);
                            assert(self.next_free_cluster == nf + 1);
                            assert(grow_room(fs0, *old(device), (nf + 1) as u32, nf, (rem - 1) as nat));
                            assert(fat_next(fs0, device.blocks(), nf) == FAT_END_OF_CLUSTER);
                        }
                    }
                    next_cluster = free_cluster;
                } else {
                    proof {
                        if good {
                            assert(follows);
                            assert(write_room(fs0, *old(device), self.next_free_cluster, next_cluster, (rem - 1) as nat));
                        }
                    }
                }
                let ghost pre_read = device.blocks();
                let ghost pre_read_cc = self.cluster_cache@;
                match self.read_cluster(device, next_cluster, &mut dev_buffer) {
                    Ok(_) => {},
                    Err(_) => return Err(count),
                }
                file.file_current_idx = next_cluster;
                proof {
                    if cspread {
                        assert forall|i: int| 0 <= i < count + 1 implies run_view(self.cluster_cache@, device.blocks(),
                            cluster_start(fs0, chain_nth(fs0, disk, c0, ((ptr0 % 4096 + i) / 4096) as nat)))
                            [((ptr0 + i) % 4096) / 512].bytes@[((ptr0 + i) % 4096) % 512] == #[trigger] buffer@[i] by {
                            let ki = ((ptr0 % 4096 + i) / 4096) as nat;
                            let ci = chain_nth(fs0, disk, c0, ki);
                            vstd::arithmetic::div_mod::lemma_div_is_ordered(ptr0 % 4096 + i, ptr0 % 4096 + count, 4096);
                            assert(chain_readable(fs0, *old(device), chain_nth(fs0, disk, c0, ki), (total - ki) as nat));
                            lemma_cluster_run(fs0, *old(device), ci);
                            assert(run_view(self.cluster_cache@, device.blocks(), cluster_start(fs0, ci))
                                == run_view(pre_read_cc, pre_read, cluster_start(fs0, ci)));
                        }
                        assert forall|i: int| 0 <= i < count + 1 && ((ptr0 % 4096 + i) / 4096) as nat == k + 1
                            implies dev_buffer@[((ptr0 + i) % 4096) / 512].bytes@[((ptr0 + i) % 4096) % 512] == #[trigger] buffer@[i] by {
                            vstd::arithmetic::div_mod::lemma_div_is_ordered(ptr0 % 4096 + i, ptr0 % 4096 + count, 4096);
                        }
                        assert forall|y: int| 0 <= y < fs0.data_addr && y < disk.len() implies #[trigger] device.blocks()[y] == disk[y] by {
                            assert(device.blocks()[y] == pre_read[y]);
                        }
                    }
                }
                proof {
                    if spread {
                        lemma_chain_last(fs0, disk, c0, k);
                        assert(file.file_current_idx == chain_nth(fs0, disk, c0, k + 1));
                        assert(fat_entry_addr(fs0, cur) < disk.len());
                        assert(cluster_start(fs0, cur) + 8 <= disk.len());
                        assert forall|j: nat| j < k + 1 implies fat_entry_addr(fs0, #[trigger] chain_nth(fs0, disk, c0, j)) < disk.len()
                            && cluster_start(fs0, chain_nth(fs0, disk, c0, j)) + 8 <= disk.len() by {
                            if j == k {
                                assert(chain_nth(fs0, disk, c0, j) == cur);
                            }
                        }
                        assert forall|i: int| 0 <= i < count + 1 && ((ptr0 % 4096 + i) / 4096) as nat == k + 1
                            implies dev_buffer@[((ptr0 + i) % 4096) / 512].bytes@[((ptr0 + i) % 4096) % 512] == #[trigger] buffer@[i] by {
                            vstd::arithmetic::div_mod::lemma_div_is_ordered(ptr0 % 4096 + i, ptr0 % 4096 + count, 4096);
                        }
                    }
                }
            }
            file.ptr = file.ptr + 1;
            if file.ptr > file.file_size {
                file.file_size = file.ptr;
            }
            count = count + 1;
        }
        let ghost pre_last = device.blocks();
        let ghost pre_last_cc = self.cluster_cache@;
        proof {
            if cspread {
                assert(chain_readable(fs0, *old(device), chain_nth(fs0, disk, c0, total), (total - total) as nat));
                lemma_cluster_run(fs0, *old(device), file.file_current_idx);
            }
        }
        match self.write_cluster(device, file.file_current_idx, &dev_buffer) {
            Ok(_) => {},
            Err(_) => return Err(count),
        }
        let ghost written = device.blocks();
        let ghost written_cc = self.cluster_cache@;
        proof {
            if spread {
                assert(written == ram_write(pre_last, cluster_start(fs0, file.file_current_idx), dev_buffer@));
            }
            if cspread {
                let cur = file.file_current_idx;
                assert forall|i: int| 0 <= i < len implies run_view(written_cc, written,
                    cluster_start(fs0, chain_nth(fs0, disk, c0, ((ptr0 % 4096 + i) / 4096) as nat)))
                    [((ptr0 + i) % 4096) / 512].bytes@[((ptr0 + i) % 4096) % 512] == #[trigger] buffer@[i] by {
                    let ki = ((ptr0 % 4096 + i) / 4096) as nat;
                    let ci = chain_nth(fs0, disk, c0, ki);
                    vstd::arithmetic::div_mod::lemma_div_is_ordered(ptr0 % 4096 + i, ptr0 % 4096 + len, 4096);
                    if ki < total {
                        assert(ci != cur);
                        assert(chain_readable(fs0, *old(device), chain_nth(fs0, disk, c0, ki), (total - ki) as nat));
                        lemma_cluster_run(fs0, *old(device), ci);
                        assert(run_view(written_cc, written, cluster_start(fs0, ci))
                            == run_view(pre_last_cc, pre_last, cluster_start(fs0, ci)));
                    }
                }
                let x = cluster_start(fs0, old(file).dir_idx);
                lemma_cluster_run(fs0, *old(device), x as u32);
                assert(dir_blocks_start(fs0, file.dir_idx) == cluster_start(fs0, x as u32));
            }
        }
        let mut dir = match self.get_dir_entry(device, file.dir_idx, file.dir_offset) {
            Ok(d) => d,
            Err(_) => return Err(count),
        };
        let ghost got = device.blocks();
        let ghost got_cc = self.cluster_cache@;
        dir.file_size = dir.file_size.wrapping_add(count as u32);
        match self.set_dir_entry(device, file.dir_idx, file.dir_offset, &dir) {
            Ok(_) => {},
            Err(_) => return Err(count),
        }
        proof {
            if cspread {
                let fin = device.blocks();
                let ds = dir_blocks_start(fs0, file.dir_idx);
                assert forall|y: int| 0 <= y < fs0.data_addr && y < disk.len() implies #[trigger] fin[y] == disk[y] by {
                    assert(fin[y] == got[y]);
                    assert(got[y] == written[y]);
                    assert(written[y] == pre_last[y]);
                }
                assert forall|i: int| 0 <= i < len implies file_byte_seen(fs0, self.cluster_cache@, fin, c0, ptr0, i)
                    == #[trigger] buffer@[i] by {
                    let ki = ((ptr0 % 4096 + i) / 4096) as nat;
                    vstd::arithmetic::div_mod::lemma_div_is_ordered(ptr0 % 4096 + i, ptr0 % 4096 + len, 4096);
                    assert forall|j: nat| j < ki implies fat_entry_addr(fs0, #[trigger] chain_nth(fs0, disk, c0, j)) < disk.len()
                        && fin[fat_entry_addr(fs0, chain_nth(fs0, disk, c0, j))] == disk[fat_entry_addr(fs0, chain_nth(fs0, disk, c0, j))] by {
                        assert(chain_readable(fs0, *old(device), chain_nth(fs0, disk, c0, j), (total - j) as nat));
                        assert(fat_entry_addr(fs0, chain_nth(fs0, disk, c0, j)) < fs0.data_addr);
                    }
                    lemma_chain_table_kept(fs0, disk, fin, c0, ki);
                    let ci = chain_nth(fs0, disk, c0, ki);
                    assert(chain_readable(fs0, *old(device), chain_nth(fs0, disk, c0, ki), (total - ki) as nat));
                    lemma_cluster_run(fs0, *old(device), ci);
                    assert(ci != fs0.data_addr + FAT_SECTOR_PER_CLUSTER * file.dir_idx);
                    assert(cluster_start(fs0, ci) != ds);
                    assert(run_view(self.cluster_cache@, fin, cluster_start(fs0, ci)) == run_view(got_cc, got, cluster_start(fs0, ci)));
                    assert(run_view(got_cc, got, cluster_start(fs0, ci)) == run_view(written_cc, written, cluster_start(fs0, ci)));
                }
            }
            if single {
                lemma_written_cluster_kept(fs0, disk, written, device.blocks(), c0, file.dir_idx, dev_buffer@);
                assert forall|i: int| 0 <= i < len implies file_byte(fs0, device.blocks(), c0, ptr0, i) == #[trigger] buffer@[i] by {
                    let o = ptr0 % 4096 + i;
                    lemma_cluster_step(ptr0, i);
                    vstd::arithmetic::div_mod::lemma_small_mod(o as nat, 4096);
                    vstd::arithmetic::div_mod::lemma_basic_div(o, 4096);
                    assert(chain_nth(fs0, device.blocks(), c0, 0) == c0);
                    assert(0 <= o / 512 < 8) by (nonlinear_arith) requires 0 <= o < 4096;
                }
            }
            if spread {
                let fin = device.blocks();
                let cur = file.file_current_idx;
                let first = dir_blocks_start(fs0, file.dir_idx);
                let a = cluster_start(fs0, cur);
                assert(cluster_apart(fs0, cur));
                assert forall|x: int| fs0.fat_addr <= x < fs0.fat_addr + FAT_SECTOR_PER_CLUSTER_ENTRY && 0 <= x < disk.len()
                    implies #[trigger] fin[x] == disk[x] by {
                    assert(!(a <= x < a + 8));
                    assert(!(first <= x < first + 8));
                    assert(fin[x] == written[x]);
                    assert(written[x] == pre_last[x]);
                }
                assert(table_kept(fs0, disk, fin));
                assert forall|i: int| 0 <= i < len implies file_byte(fs0, fin, c0, ptr0, i) == #[trigger] buffer@[i] by {
                    let ki = ((ptr0 % 4096 + i) / 4096) as nat;
                    vstd::arithmetic::div_mod::lemma_div_is_ordered(ptr0 % 4096 + i, ptr0 % 4096 + len, 4096);
                    assert forall|j: nat| j < ki implies fat_entry_addr(fs0, #[trigger] chain_nth(fs0, disk, c0, j)) < disk.len()
                        && fin[fat_entry_addr(fs0, chain_nth(fs0, disk, c0, j))] == disk[fat_entry_addr(fs0, chain_nth(fs0, disk, c0, j))] by {
                        assert(fat_entry_addr(fs0, chain_nth(fs0, disk, c0, j)) < disk.len());
                    }
                    lemma_chain_table_kept(fs0, disk, fin, c0, ki);
                    let ci = chain_nth(fs0, disk, c0, ki);
                    if ki < total {
                        assert(ci != cur);
                        assert(cluster_start(fs0, ci) + 8 <= disk.len());
                    }
                    lemma_cluster_write(fs0, pre_last, cur, ci, dev_buffer@);
                    let d = fs0.data_addr + FAT_SECTOR_PER_CLUSTER * file.dir_idx;
                    assert(ci != d);
                    let b = cluster_start(fs0, ci);
                    assert(b + 8 <= first || first + 8 <= b);
                    assert(cluster_blocks(fs0, fin, ci) =~= cluster_blocks(fs0, written, ci));
                }
            }
        }
        Ok(count)
    }

    /// Creates a directory in a directory: the first free entry gets the
    /// directory attribute and a free cluster, which becomes a chain of one.
    /// The entry keeps the name it had: the new name is not written.
    pub fn create_dir_named<D: BlockIO>(&mut self, device: &mut D, dir: &DirectoryDescriptor, dir_name: &[u8]) -> (r: Result<DirectoryDescriptor, ()>)
        requires
            old(self).supported(),
        ensures
            final(self).supported(),
            final(self).data_addr == old(self).data_addr,
            final(self).use_cache == old(self).use_cache,
            r matches Ok(d) ==> {
                &&& d.file_start_idx == old(self).next_free_cluster
                &&& d.dir_idx == dir.file_start_idx
                &&& d.dir_offset < FAT_MAX_DIRECTORY_ENTRY_COUNT
            },
            !old(self).use_cache && old(device).modeled() && r is Ok ==> {
                let c = r->Ok_0.file_start_idx;
                let k = r->Ok_0.dir_offset as int;
                let fs = *final(self);
                let d = final(device).blocks();
                &&& first_free(*old(self), old(device).blocks(), dir.file_start_idx, k)
                &&& fat_next(fs, d, c) == FAT_END_OF_CLUSTER
                &&& fat_entry_addr(fs, c) != dir_blocks_start(fs, dir.file_start_idx) + k / 16 ==> {
                    &&& dir_entry_attr(fs, d, dir.file_start_idx, k) == FAT_DIR_ATTRIBUTE_DIR
                    &&& dir_entry_cluster(fs, d, dir.file_start_idx, k) == c
                }
            },
            same_device(*old(device), *final(device)),
            !old(self).use_cache && dir_served(*old(self), *old(device), dir.file_start_idx)
                && dir_full(*old(self), old(device).blocks(), dir.file_start_idx) ==> r is Err,
            !old(self).use_cache && dir_served(*old(self), *old(device), dir.file_start_idx)
                && !dir_full(*old(self), old(device).blocks(), dir.file_start_idx)
                && cluster_ready(*old(self), *old(device)) ==> r is Ok,
            ({
                let fs = *old(self);
                let ds = dir_blocks_start(fs, dir.file_start_idx);
                &&& fs.use_cache
                &&& cache_sound(fs.cluster_cache@, old(device).blocks(), fs.data_addr as int)
                &&& serving(*old(device))
                &&& run_addr(fs.data_addr as int, ds) && ds + 8 <= old(device).blocks().len()
                &&& cluster_ready(fs, *old(device))
                &&& fat_entry_addr(fs, fs.next_free_cluster) < fs.data_addr
            }) ==> {
                let fs = *old(self);
                let sd = seen(fs.cluster_cache@, old(device).blocks(), dir_blocks_start(fs, dir.file_start_idx));
                &&& (r is Err <==> dir_full(fs, sd, dir.file_start_idx))
                &&& r is Ok ==> cache_sound(final(self).cluster_cache@, final(device).blocks(), fs.data_addr as int)
            },
    {
        let empty_dir_offset = self.get_empty_dir_idx(device, dir.file_start_idx)?;
        let mut dir_entry = self.get_dir_entry(device, dir.file_start_idx, empty_dir_offset)?;
        let free_cluster = self.get_free_cluster(device)?;
        dir_entry.attr = FAT_DIR_ATTRIBUTE_DIR;
        dir_entry.set_start_cluster_idx(free_cluster);
        self.set_dir_entry(device, dir.file_start_idx, empty_dir_offset, &dir_entry)?;
        let ghost entry_written_at = device.blocks();
        proof {
            if !self.use_cache && old(device).modeled() {
                let k = empty_dir_offset as int;
                vstd::arithmetic::div_mod::lemma_fundamental_div_mod(free_cluster as int, 65536);
                assert(dir_entry_cluster(*self, device.blocks(), dir.file_start_idx, k) == spec_start_cluster(dir_entry));
            }
        }
        let ghost pre_ptr = device.blocks();
        self.set_cluster_ptr(device, free_cluster, FAT_END_OF_CLUSTER)?;
        proof {
            let base = self.data_addr as int;
            if old(device).modeled() && cache_sound(self.cluster_cache@, pre_ptr, base) && fat_entry_addr(*self, free_cluster) < base {
                lemma_block_below_runs(self.cluster_cache@, pre_ptr, device.blocks(), base, fat_entry_addr(*self, free_cluster));
            }
        }
        proof {
            if !self.use_cache && old(device).modeled() {
                let at = dir_blocks_start(*self, dir.file_start_idx) + (empty_dir_offset as int) / 16;
                if fat_entry_addr(*self, free_cluster) != at {
                    assert(device.blocks()[at] == entry_written_at[at]);
                }
            }
        }
        Ok(DirectoryDescriptor { file_start_idx: free_cluster, dir_idx: dir.file_start_idx, dir_offset: empty_dir_offset })
    }

    /// Opens the first entry of a directory the name matches; `Err` when
    /// that entry is not a directory or no entry matches.
    pub fn open_dir_named<D: BlockIO>(&mut self, device: &mut D, dir: &DirectoryDescriptor, query: &[u8]) -> (r: Result<DirectoryDescriptor, ()>)
        requires
            old(self).supported(),
        ensures
            final(self).supported(),
            final(self).data_addr == old(self).data_addr,
            final(self).use_cache == old(self).use_cache,
            final(self).next_free_cluster == old(self).next_free_cluster,
            r matches Ok(d) ==> d.dir_idx == dir.file_start_idx && d.dir_offset < FAT_MAX_DIRECTORY_ENTRY_COUNT,
            !old(self).use_cache ==> *final(self) == *old(self),
            coherent(*old(self), *old(device)) ==> final(device).blocks() == old(device).blocks()
                && (r is Ok ==> coherent(*final(self), *old(device))),
            coherent(*old(self), *old(device)) && r is Ok ==> {
                let fs = *old(self);
                let d = old(device).blocks();
                let k = r->Ok_0.dir_offset as int;
                &&& first_named(fs, d, dir.file_start_idx, query@, k)
                &&& dir_entry_attr(fs, d, dir.file_start_idx, k) == FAT_DIR_ATTRIBUTE_DIR
                &&& r->Ok_0.file_start_idx == dir_entry_cluster(fs, d, dir.file_start_idx, k)
            },
            same_device(*old(device), *final(device)),
            coherent(*old(self), *old(device)) && dir_served(*old(self), *old(device), dir.file_start_idx) ==> (r is Ok
                <==> named_with_attr(*old(self), old(device).blocks(), dir.file_start_idx, query@, FAT_DIR_ATTRIBUTE_DIR)),
            ({
                let ds = dir_blocks_start(*old(self), dir.file_start_idx);
                &&& old(self).use_cache
                &&& cache_sound(old(self).cluster_cache@, old(device).blocks(), old(self).data_addr as int)
                &&& serving(*old(device))
                &&& run_addr(old(self).data_addr as int, ds) && ds + 8 <= old(device).blocks().len()
            }) ==> {
                let fs = *old(self);
                let sd = seen(fs.cluster_cache@, old(device).blocks(), dir_blocks_start(fs, dir.file_start_idx));
                &&& cache_sound(final(self).cluster_cache@, final(device).blocks(), fs.data_addr as int)
                &&& forall|x: int| run_addr(fs.data_addr as int, x) && x + 8 <= old(device).blocks().len()
                    ==> #[trigger] run_view(final(self).cluster_cache@, final(device).blocks(), x)
                        == run_view(fs.cluster_cache@, old(device).blocks(), x)
                &&& (r is Ok <==> named_with_attr(fs, sd, dir.file_start_idx, query@, FAT_DIR_ATTRIBUTE_DIR))
                &&& r is Ok ==> first_named(fs, sd, dir.file_start_idx, query@, r->Ok_0.dir_offset as int)
                    && r->Ok_0.file_start_idx == dir_entry_cluster(fs, sd, dir.file_start_idx, r->Ok_0.dir_offset as int)
            },
    {
        let ghost fs0 = *old(self);
        let ghost disk = old(device).blocks();
        let ghost ds0 = dir_blocks_start(fs0, dir.file_start_idx);
        let ghost cs = fs0.use_cache && cache_sound(fs0.cluster_cache@, disk, fs0.data_addr as int)
            && serving(*old(device)) && run_addr(fs0.data_addr as int, ds0) && ds0 + 8 <= disk.len();
        let ghost sd = seen(fs0.cluster_cache@, disk, ds0);
        let mut offset: u32 = 0;
        while offset < FAT_MAX_DIRECTORY_ENTRY_COUNT
            invariant
                self.supported(),
                self.use_cache == old(self).use_cache,
                self.next_free_cluster == old(self).next_free_cluster,
                offset <= FAT_MAX_DIRECTORY_ENTRY_COUNT,
                fs0 == *old(self),
                disk == old(device).blocks(),
                same_device(*old(device), *device),
                self.data_addr == fs0.data_addr,
                !self.use_cache ==> *self == fs0,
                coherent(fs0, *old(device)) ==> {
                    &&& coherent(*self, *old(device))
                    &&& device.blocks() == disk
                    &&& forall|j: int| 0 <= j < offset ==> !name_matches(#[trigger] dir_entry_name(fs0, disk, dir.file_start_idx, j), query@)
                },
                cs == (fs0.use_cache && cache_sound(fs0.cluster_cache@, disk, fs0.data_addr as int)
                    && serving(*old(device)) && run_addr(fs0.data_addr as int, ds0) && ds0 + 8 <= disk.len()),
                ds0 == dir_blocks_start(fs0, dir.file_start_idx),
                sd == seen(fs0.cluster_cache@, disk, ds0),
                cs ==> {
                    &&& self.use_cache
                    &&& cache_sound(self.cluster_cache@, device.blocks(), fs0.data_addr as int)
                    &&& device.blocks().len() == disk.len()
                    &&& forall|x: int| run_addr(fs0.data_addr as int, x) && x + 8 <= disk.len()
                        ==> #[trigger] run_view(self.cluster_cache@, device.blocks(), x) == run_view(fs0.cluster_cache@, disk, x)
                    &&& forall|j: int| 0 <= j < offset ==> !name_matches(#[trigger] dir_entry_name(fs0, sd, dir.file_start_idx, j), query@)
                },
            decreases FAT_MAX_DIRECTORY_ENTRY_COUNT - offset,
        {
            let ghost e_now = self.cluster_cache@;
            let ghost b_now = device.blocks();
            let ghost fs_now = *self;
            let entry = self.get_dir_entry(device, dir.file_start_idx, offset)?;
            proof {
                if cs {
                    let j = offset as int;
                    let sn = seen(e_now, b_now, ds0);
                    assert(run_view(e_now, b_now, ds0) == run_view(fs0.cluster_cache@, disk, ds0));
                    lemma_seen_run(e_now, b_now, fs0.data_addr as int, ds0);
                    lemma_seen_run(fs0.cluster_cache@, disk, fs0.data_addr as int, ds0);
                    assert(sn[ds0 + j / 16] == run_view(e_now, b_now, ds0)[j / 16]);
                    assert(0 <= j / 16 < 8);
                    assert(sn[ds0 + j / 16] == sd[ds0 + j / 16]);
                    assert(dir_entry_block(fs_now, sn, dir.file_start_idx, j) == dir_entry_block(fs0, sd, dir.file_start_idx, j));
                    assert(entry.name@ =~= dir_entry_name(fs0, sd, dir.file_start_idx, j));
                }
            }
            proof {
                if coherent(fs0, *old(device)) {
                    assert(entry.name@ =~= dir_entry_name(fs0, disk, dir.file_start_idx, offset as int));
                }
            }
            if names_match(&entry.name, query) {
                if entry.attr != FAT_DIR_ATTRIBUTE_DIR {
                    proof {
                        if coherent(fs0, *old(device)) {
                            lemma_first_named_unique(fs0, disk, dir.file_start_idx, query@, offset as int);
                        }
                        if cs {
                            lemma_first_named_unique(fs0, sd, dir.file_start_idx, query@, offset as int);
                        }
                    }
                    return Err(());
                }
                proof {
                    if coherent(fs0, *old(device)) {
                        assert(first_named(fs0, disk, dir.file_start_idx, query@, offset as int));
                    }
                    if cs {
                        assert(first_named(fs0, sd, dir.file_start_idx, query@, offset as int));
                    }
                }
                return Ok(DirectoryDescriptor { file_start_idx: entry.start_cluster_idx(), dir_idx: dir.file_start_idx, dir_offset: offset });
            }
            offset = offset + 1;
        }
        Err(())
    }

    /// Removes a directory and everything in it: its files, and its
    /// directories in turn; then its own entry is cleared and its cluster
    /// freed. The root directory, which no directory holds, is refused.
    pub fn remove_dir<D: BlockIO>(&mut self, device: &mut D, dir: DirectoryDescriptor) -> (r: Result<(), ()>)
        requires
            old(self).supported(),
            dir.dir_offset < FAT_MAX_DIRECTORY_ENTRY_COUNT,
        ensures
            final(self).supported(),
            final(self).use_cache == old(self).use_cache,
            dir.dir_idx == 0 ==> r is Err,
            ({
                let first = dir_blocks_start(*old(self), dir.dir_idx);
                &&& !old(self).use_cache
                &&& old(device).modeled()
                &&& r is Ok
                &&& (first + 8 <= old(self).fat_addr || old(self).fat_addr + FAT_SECTOR_PER_CLUSTER_ENTRY <= first)
            }) ==> {
                let d = final(device).blocks();
                let k = dir.dir_offset as int;
                &&& dir_entry_cluster(*old(self), d, dir.dir_idx, k) == 0
                &&& dir_entry_attr(*old(self), d, dir.dir_idx, k) == 0
            },
            same_device(*old(device), *final(device)),
            old(device).modeled() && r is Ok ==> fat_next(*old(self), final(device).blocks(), dir.file_start_idx) == 0,
            ({
                &&& !old(self).use_cache
                &&& dir.dir_idx != 0
                &&& old(self).fat_size * FAT_SECTOR_PER_CLUSTER_ENTRY <= u32::MAX
                &&& dir_served(*old(self), *old(device), dir.file_start_idx)
                &&& dir_served(*old(self), *old(device), dir.dir_idx)
                &&& no_children(*old(self), old(device).blocks(), dir.file_start_idx)
                &&& dir.file_start_idx / FAT_SECTOR_PER_CLUSTER_ENTRY < old(self).fat_size
                &&& block_served(*old(device), fat_entry_addr(*old(self), dir.file_start_idx))
            }) ==> r is Ok,
    {
        let depth = match self.fat_size.checked_mul(FAT_SECTOR_PER_CLUSTER_ENTRY) {
            Some(b) => b,
            None => return Err(()),
        };
        self.remove_dir_within(device, dir, depth)
    }

    /// Directory removal that descends at most `depth` levels: a deeper tree
    /// than the table has clusters goes round a cycle and is refused.
    fn remove_dir_within<D: BlockIO>(&mut self, device: &mut D, dir: DirectoryDescriptor, depth: u32) -> (r: Result<(), ()>)
        requires
            old(self).supported(),
            dir.dir_offset < FAT_MAX_DIRECTORY_ENTRY_COUNT,
        ensures
            final(self).supported(),
            final(self).use_cache == old(self).use_cache,
            dir.dir_idx == 0 ==> r is Err,
            final(self).fat_addr == old(self).fat_addr,
            final(self).fat_size == old(self).fat_size,
            final(self).data_addr == old(self).data_addr,
            ({
                let first = dir_blocks_start(*old(self), dir.dir_idx);
                &&& !old(self).use_cache
                &&& old(device).modeled()
                &&& r is Ok
                &&& (first + 8 <= old(self).fat_addr || old(self).fat_addr + FAT_SECTOR_PER_CLUSTER_ENTRY <= first)
            }) ==> {
                let d = final(device).blocks();
                let k = dir.dir_offset as int;
                &&& dir_entry_cluster(*old(self), d, dir.dir_idx, k) == 0
                &&& dir_entry_attr(*old(self), d, dir.dir_idx, k) == 0
            },
            same_device(*old(device), *final(device)),
            old(device).modeled() && r is Ok ==> fat_next(*old(self), final(device).blocks(), dir.file_start_idx) == 0,
            ({
                &&& !old(self).use_cache
                &&& dir.dir_idx != 0
                &&& dir_served(*old(self), *old(device), dir.file_start_idx)
                &&& dir_served(*old(self), *old(device), dir.dir_idx)
                &&& no_children(*old(self), old(device).blocks(), dir.file_start_idx)
                &&& dir.file_start_idx / FAT_SECTOR_PER_CLUSTER_ENTRY < old(self).fat_size
                &&& block_served(*old(device), fat_entry_addr(*old(self), dir.file_start_idx))
            }) ==> r is Ok,
        decreases depth,
    {
        let ghost fs0 = *old(self);
        let ghost disk = old(device).blocks();
        if dir.dir_idx == 0 {
            return Err(());
        }
        let mut offset: u32 = 0;
        while offset < FAT_MAX_DIRECTORY_ENTRY_COUNT
            invariant
                self.supported(),
                self.use_cache == old(self).use_cache,
                offset <= FAT_MAX_DIRECTORY_ENTRY_COUNT,
                self.fat_addr == old(self).fat_addr,
                self.fat_size == old(self).fat_size,
                self.data_addr == old(self).data_addr,
                fs0 == *old(self),
                disk == old(device).blocks(),
                same_device(*old(device), *device),
                !self.use_cache && old(device).modeled() && no_children(fs0, disk, dir.file_start_idx) ==> *self == fs0 && device.blocks() == disk,
            decreases FAT_MAX_DIRECTORY_ENTRY_COUNT - offset,
        {
            let entry = self.get_dir_entry(device, dir.file_start_idx, offset)?;
            proof {
                if !self.use_cache && old(device).modeled() && no_children(fs0, disk, dir.file_start_idx) {
                    assert(dir_entry_attr(fs0, disk, dir.file_start_idx, offset as int) != FAT_DIR_ATTRIBUTE_FILE);
                }
            }
            let file_start_idx = entry.start_cluster_idx();
            if entry.attr == FAT_DIR_ATTRIBUTE_FILE {
                self.remove(device, FileDescriptor {
                    file_start_idx,
                    file_current_idx: file_start_idx,
                    dir_idx: dir.file_start_idx,
                    dir_offset: offset,
                    file_size: entry.file_size,
                    ptr: 0,
                })?;
            } else if entry.attr == FAT_DIR_ATTRIBUTE_DIR {
                if depth == 0 {
                    return Err(());
                }
                self.remove_dir_within(device, DirectoryDescriptor {
                    file_start_idx,
                    dir_idx: dir.file_start_idx,
                    dir_offset: offset,
                }, depth - 1)?;
            }
            offset = offset + 1;
        }
        let entry = DirectoryEntry::empty();
        self.set_dir_entry(device, dir.dir_idx, dir.dir_offset, &entry)?;
        let ghost cleared = device.blocks();
        self.set_cluster_ptr(device, dir.file_start_idx, 0)?;
        proof {
            let at = dir_blocks_start(*self, dir.dir_idx) + (dir.dir_offset as int) / 16;
            let first = dir_blocks_start(*self, dir.dir_idx);
            if !self.use_cache && old(device).modeled() && (first + 8 <= self.fat_addr || self.fat_addr + FAT_SECTOR_PER_CLUSTER_ENTRY <= first) {
                assert(device.blocks()[at] == cleared[at]);
            }
        }
        Ok(())
    }

    /// Creates a file in a directory, named by the bytes of `file_name`.
    pub fn create<D: BlockIO>(&mut self, device: &mut D, dir: &DirectoryDescriptor, file_name: &str) -> (r: Result<FileDescriptor, ()>)
        requires
            old(self).supported(),
        ensures
            final(self).supported(),
            final(self).use_cache == old(self).use_cache,
            r matches Ok(f) ==> {
                &&& f.file_start_idx == old(self).next_free_cluster
                &&& f.file_current_idx == f.file_start_idx
                &&& f.dir_idx == dir.file_start_idx
                &&& f.dir_offset < FAT_MAX_DIRECTORY_ENTRY_COUNT
                &&& f.file_size == 0
                &&& f.ptr == 0
            },
            !old(self).use_cache && old(device).modeled() && r is Ok ==> {
                let f = r->Ok_0;
                let k = f.dir_offset as int;
                let fs = *final(self);
                let d = final(device).blocks();
                &&& first_free(*old(self), old(device).blocks(), dir.file_start_idx, k)
                &&& name_matches(dir_entry_name(fs, d, dir.file_start_idx, k), file_name.spec_bytes())
                &&& dir_entry_attr(fs, d, dir.file_start_idx, k) == FAT_DIR_ATTRIBUTE_FILE
                &&& dir_entry_cluster(fs, d, dir.file_start_idx, k) == f.file_start_idx
            },
            same_device(*old(device), *final(device)),
            !old(self).use_cache && dir_served(*old(self), *old(device), dir.file_start_idx)
                && dir_full(*old(self), old(device).blocks(), dir.file_start_idx) ==> r is Err,
            !old(self).use_cache && dir_served(*old(self), *old(device), dir.file_start_idx)
                && !dir_full(*old(self), old(device).blocks(), dir.file_start_idx)
                && cluster_ready(*old(self), *old(device)) ==> r is Ok,
            ({
                let fs = *old(self);
                let ds = dir_blocks_start(fs, dir.file_start_idx);
                &&& fs.use_cache
                &&& cache_sound(fs.cluster_cache@, old(device).blocks(), fs.data_addr as int)
                &&& serving(*old(device))
                &&& run_addr(fs.data_addr as int, ds) && ds + 8 <= old(device).blocks().len()
                &&& cluster_ready(fs, *old(device))
                &&& fat_entry_addr(fs, fs.next_free_cluster) < fs.data_addr
            }) ==> {
                let fs = *old(self);
                let sd = seen(fs.cluster_cache@, old(device).blocks(), dir_blocks_start(fs, dir.file_start_idx));
                &&& (r is Err <==> dir_full(fs, sd, dir.file_start_idx))
                &&& r is Ok ==> cache_sound(final(self).cluster_cache@, final(device).blocks(), fs.data_addr as int)
                &&& r matches Ok(f) ==> {
                    let k = f.dir_offset as int;
                    let sd2 = seen(final(self).cluster_cache@, final(device).blocks(), dir_blocks_start(fs, dir.file_start_idx));
                    &&& first_free(fs, sd, dir.file_start_idx, k)
                    &&& name_matches(dir_entry_name(fs, sd2, dir.file_start_idx, k), file_name.spec_bytes())
                    &&& dir_entry_attr(fs, sd2, dir.file_start_idx, k) == FAT_DIR_ATTRIBUTE_FILE
                    &&& dir_entry_cluster(fs, sd2, dir.file_start_idx, k) == f.file_start_idx
                }
            },
    {
        self.create_named(device, dir, file_name.as_bytes())
    }

    /// Opens a file of a directory by the bytes of `file_name`.
    pub fn open<D: BlockIO>(&mut self, device: &mut D, dir: &DirectoryDescriptor, file_name: &str) -> (r: Result<FileDescriptor, ()>)
        requires
            old(self).supported(),
        ensures
            final(self).supported(),
            final(self).use_cache == old(self).use_cache,
            final(self).next_free_cluster == old(self).next_free_cluster,
            r matches Ok(f) ==> {
                &&& f.file_current_idx == f.file_start_idx
                &&& f.dir_idx == dir.file_start_idx
                &&& f.dir_offset < FAT_MAX_DIRECTORY_ENTRY_COUNT
                &&& f.ptr == 0
            },
            !old(self).use_cache ==> *final(self) == *old(self),
            coherent(*old(self), *old(device)) ==> final(device).blocks() == old(device).blocks(),
            coherent(*old(self), *old(device)) && r is Ok ==> {
                let fs = *old(self);
                let d = old(device).blocks();
                let k = r->Ok_0.dir_offset as int;
                &&& first_named(fs, d, dir.file_start_idx, file_name.spec_bytes(), k)
                &&& dir_entry_attr(fs, d, dir.file_start_idx, k) == FAT_DIR_ATTRIBUTE_FILE
                &&& r->Ok_0.file_start_idx == dir_entry_cluster(fs, d, dir.file_start_idx, k)
                &&& r->Ok_0.file_size == le_u32(dir_entry_block(fs, d, dir.file_start_idx, k), dir_entry_offset(k) + 28)
            },
            same_device(*old(device), *final(device)),
            coherent(*old(self), *old(device)) && dir_served(*old(self), *old(device), dir.file_start_idx) ==> (r is Ok
                <==> named_with_attr(*old(self), old(device).blocks(), dir.file_start_idx, file_name.spec_bytes(), FAT_DIR_ATTRIBUTE_FILE)),
            ({
                let ds = dir_blocks_start(*old(self), dir.file_start_idx);
                &&& old(self).use_cache
                &&& cache_sound(old(self).cluster_cache@, old(device).blocks(), old(self).data_addr as int)
                &&& serving(*old(device))
                &&& run_addr(old(self).data_addr as int, ds) && ds + 8 <= old(device).blocks().len()
            }) ==> {
                let fs = *old(self);
                let sd = seen(fs.cluster_cache@, old(device).blocks(), dir_blocks_start(fs, dir.file_start_idx));
                &&& cache_sound(final(self).cluster_cache@, final(device).blocks(), fs.data_addr as int)
                &&& forall|x: int| run_addr(fs.data_addr as int, x) && x + 8 <= old(device).blocks().len()
                    ==> #[trigger] run_view(final(self).cluster_cache@, final(device).blocks(), x)
                        == run_view(fs.cluster_cache@, old(device).blocks(), x)
                &&& (r is Ok <==> named_with_attr(fs, sd, dir.file_start_idx, file_name.spec_bytes(), FAT_DIR_ATTRIBUTE_FILE))
                &&& r is Ok ==> first_named(fs, sd, dir.file_start_idx, file_name.spec_bytes(), r->Ok_0.dir_offset as int)
                    && r->Ok_0.file_start_idx == dir_entry_cluster(fs, sd, dir.file_start_idx, r->Ok_0.dir_offset as int)
            },
    {
        self.open_named(device, dir, file_name.as_bytes())
    }

    /// Opens a directory of a directory by the bytes of `dir_name`.
    pub fn open_dir<D: BlockIO>(&mut self, device: &mut D, dir: &DirectoryDescriptor, dir_name: &str) -> (r: Result<DirectoryDescriptor, ()>)
        requires
            old(self).supported(),
        ensures
            final(self).supported(),
            final(self).use_cache == old(self).use_cache,
            final(self).next_free_cluster == old(self).next_free_cluster,
            r matches Ok(d) ==> d.dir_idx == dir.file_start_idx && d.dir_offset < FAT_MAX_DIRECTORY_ENTRY_COUNT,
            !old(self).use_cache ==> *final(self) == *old(self),
            coherent(*old(self), *old(device)) ==> final(device).blocks() == old(device).blocks(),
            coherent(*old(self), *old(device)) && r is Ok ==> {
                let fs = *old(self);
                let d = old(device).blocks();
                let k = r->Ok_0.dir_offset as int;
                &&& first_named(fs, d, dir.file_start_idx, dir_name.spec_bytes(), k)
                &&& dir_entry_attr(fs, d, dir.file_start_idx, k) == FAT_DIR_ATTRIBUTE_DIR
                &&& r->Ok_0.file_start_idx == dir_entry_cluster(fs, d, dir.file_start_idx, k)
            },
            same_device(*old(device), *final(device)),
            coherent(*old(self), *old(device)) && dir_served(*old(self), *old(device), dir.file_start_idx) ==> (r is Ok
                <==> named_with_attr(*old(self), old(device).blocks(), dir.file_start_idx, dir_name.spec_bytes(), FAT_DIR_ATTRIBUTE_DIR)),
            ({
                let ds = dir_blocks_start(*old(self), dir.file_start_idx);
                &&& old(self).use_cache
                &&& cache_sound(old(self).cluster_cache@, old(device).blocks(), old(self).data_addr as int)
                &&& serving(*old(device))
                &&& run_addr(old(self).data_addr as int, ds) && ds + 8 <= old(device).blocks().len()
            }) ==> {
                let fs = *old(self);
                let sd = seen(fs.cluster_cache@, old(device).blocks(), dir_blocks_start(fs, dir.file_start_idx));
                &&& cache_sound(final(self).cluster_cache@, final(device).blocks(), fs.data_addr as int)
                &&& forall|x: int| run_addr(fs.data_addr as int, x) && x + 8 <= old(device).blocks().len()
                    ==> #[trigger] run_view(final(self).cluster_cache@, final(device).blocks(), x)
                        == run_view(fs.cluster_cache@, old(device).blocks(), x)
                &&& (r is Ok <==> named_with_attr(fs, sd, dir.file_start_idx, dir_name.spec_bytes(), FAT_DIR_ATTRIBUTE_DIR))
                &&& r is Ok ==> first_named(fs, sd, dir.file_start_idx, dir_name.spec_bytes(), r->Ok_0.dir_offset as int)
                    && r->Ok_0.file_start_idx == dir_entry_cluster(fs, sd, dir.file_start_idx, r->Ok_0.dir_offset as int)
            },
    {
        self.open_dir_named(device, dir, dir_name.as_bytes())
    }

    /// Creates a directory in a directory; the name is not written.
    pub fn create_dir<D: BlockIO>(&mut self, device: &mut D, dir: &DirectoryDescriptor, dir_name: &str) -> (r: Result<DirectoryDescriptor, ()>)
        requires
            old(self).supported(),
        ensures
            final(self).supported(),
            final(self).use_cache == old(self).use_cache,
            r matches Ok(d) ==> {
                &&& d.file_start_idx == old(self).next_free_cluster
                &&& d.dir_idx == dir.file_start_idx
                &&& d.dir_offset < FAT_MAX_DIRECTORY_ENTRY_COUNT
            },
            !old(self).use_cache && old(device).modeled() && r is Ok ==> {
                let c = r->Ok_0.file_start_idx;
                let k = r->Ok_0.dir_offset as int;
                let fs = *final(self);
                let d = final(device).blocks();
                &&& first_free(*old(self), old(device).blocks(), dir.file_start_idx, k)
                &&& fat_next(fs, d, c) == FAT_END_OF_CLUSTER
                &&& fat_entry_addr(fs, c) != dir_blocks_start(fs, dir.file_start_idx) + k / 16 ==> {
                    &&& dir_entry_attr(fs, d, dir.file_start_idx, k) == FAT_DIR_ATTRIBUTE_DIR
                    &&& dir_entry_cluster(fs, d, dir.file_start_idx, k) == c
                }
            },
            same_device(*old(device), *final(device)),
            !old(self).use_cache && dir_served(*old(self), *old(device), dir.file_start_idx)
                && dir_full(*old(self), old(device).blocks(), dir.file_start_idx) ==> r is Err,
            !old(self).use_cache && dir_served(*old(self), *old(device), dir.file_start_idx)
                && !dir_full(*old(self), old(device).blocks(), dir.file_start_idx)
                && cluster_ready(*old(self), *old(device)) ==> r is Ok,
    {
        self.create_dir_named(device, dir, dir_name.as_bytes())
    }

    /// The root directory, at the root cluster.
    pub fn root_dir<D: BlockIO>(&mut self, device: &mut D) -> (r: Result<DirectoryDescriptor, ()>)
        ensures
            r == Ok::<DirectoryDescriptor, ()>(DirectoryDescriptor { file_start_idx: old(self).root_directory_cluster, dir_idx: 0, dir_offset: 0 }),
            *final(self) == *old(self),
            *final(device) == *old(device),
    {
        Ok(DirectoryDescriptor { file_start_idx: self.root_directory_cluster, dir_idx: 0, dir_offset: 0 })
    }

    /// The slot and name of each entry of a directory that has a first
    /// cluster, in slot order; `Err` when a name is not ASCII.
    pub fn list_entry<D: BlockIO>(&mut self, device: &mut D, dir: &DirectoryDescriptor) -> (r: Result<Vec<(usize, String)>, ()>)
        requires
            old(self).supported(),
        ensures
            final(self).supported(),
            final(self).use_cache == old(self).use_cache,
            final(self).next_free_cluster == old(self).next_free_cluster,
            r matches Ok(list) ==> (forall|i: int| 0 <= i < list@.len() ==> (#[trigger] list@[i]).0 < FAT_MAX_DIRECTORY_ENTRY_COUNT
                && list@[i].1@.len() == 11)
                && (forall|i: int, j: int| 0 <= i < j < list@.len() ==> list@[i].0 < list@[j].0),
            !old(self).use_cache ==> *final(self) == *old(self),
            coherent(*old(self), *old(device)) ==> final(device).blocks() == old(device).blocks()
                && (r is Ok ==> coherent(*final(self), *old(device))),
            coherent(*old(self), *old(device)) && r is Ok ==> r->Ok_0@.map_values(|p: (usize, String)| (p.0, p.1@))
                == dir_listing(*old(self), old(device).blocks(), dir.file_start_idx, FAT_MAX_DIRECTORY_ENTRY_COUNT as int),
            same_device(*old(device), *final(device)),
            coherent(*old(self), *old(device)) && dir_served(*old(self), *old(device), dir.file_start_idx) ==> (r is Ok
                <==> names_ascii(*old(self), old(device).blocks(), dir.file_start_idx)),
            ({
                let ds = dir_blocks_start(*old(self), dir.file_start_idx);
                &&& old(self).use_cache
                &&& cache_sound(old(self).cluster_cache@, old(device).blocks(), old(self).data_addr as int)
                &&& serving(*old(device))
                &&& run_addr(old(self).data_addr as int, ds) && ds + 8 <= old(device).blocks().len()
            }) ==> {
                let fs = *old(self);
                let sd = seen(fs.cluster_cache@, old(device).blocks(), dir_blocks_start(fs, dir.file_start_idx));
                &&& cache_sound(final(self).cluster_cache@, final(device).blocks(), fs.data_addr as int)
                &&& forall|x: int| run_addr(fs.data_addr as int, x) && x + 8 <= old(device).blocks().len()
                    ==> #[trigger] run_view(final(self).cluster_cache@, final(device).blocks(), x)
                        == run_view(fs.cluster_cache@, old(device).blocks(), x)
                &&& (r is Ok <==> names_ascii(fs, sd, dir.file_start_idx))
                &&& r is Ok ==> r->Ok_0@.map_values(|p: (usize, String)| (p.0, p.1@))
                    == dir_listing(fs, sd, dir.file_start_idx, FAT_MAX_DIRECTORY_ENTRY_COUNT as int)
            },
    {
        let ghost fs0 = *old(self);
        let ghost disk = old(device).blocks();
        let ghost ds0 = dir_blocks_start(fs0, dir.file_start_idx);
        let ghost cs = fs0.use_cache && cache_sound(fs0.cluster_cache@, disk, fs0.data_addr as int)
            && serving(*old(device)) && run_addr(fs0.data_addr as int, ds0) && ds0 + 8 <= disk.len();
        let ghost sd = seen(fs0.cluster_cache@, disk, ds0);
        let mut list: Vec<(usize, String)> = Vec::new();
        let mut offset: u32 = 0;
        while offset < FAT_MAX_DIRECTORY_ENTRY_COUNT
            invariant
                self.supported(),
                self.use_cache == old(self).use_cache,
                self.next_free_cluster == old(self).next_free_cluster,
                offset <= FAT_MAX_DIRECTORY_ENTRY_COUNT,
                forall|i: int| 0 <= i < list@.len() ==> (#[trigger] list@[i]).0 < offset && list@[i].1@.len() == 11,
                forall|i: int, j: int| 0 <= i < j < list@.len() ==> list@[i].0 < list@[j].0,
                fs0 == *old(self),
                disk == old(device).blocks(),
                self.data_addr == fs0.data_addr,
                !self.use_cache ==> *self == fs0,
                coherent(fs0, *old(device)) ==> {
                    &&& coherent(*self, *old(device))
                    &&& device.blocks() == disk
                    &&& list@.map_values(|p: (usize, String)| (p.0, p.1@)) == dir_listing(fs0, disk, dir.file_start_idx, offset as int)
                    &&& forall|j: int| 0 <= j < offset && dir_entry_cluster(fs0, disk, dir.file_start_idx, j) != 0
                        ==> ascii_bytes(#[trigger] dir_entry_name(fs0, disk, dir.file_start_idx, j))
                },
                same_device(*old(device), *device),
                cs == (fs0.use_cache && cache_sound(fs0.cluster_cache@, disk, fs0.data_addr as int)
                    && serving(*old(device)) && run_addr(fs0.data_addr as int, ds0) && ds0 + 8 <= disk.len()),
                ds0 == dir_blocks_start(fs0, dir.file_start_idx),
                sd == seen(fs0.cluster_cache@, disk, ds0),
                cs ==> {
                    &&& self.use_cache
                    &&& cache_sound(self.cluster_cache@, device.blocks(), fs0.data_addr as int)
                    &&& device.blocks().len() == disk.len()
                    &&& forall|x: int| run_addr(fs0.data_addr as int, x) && x + 8 <= disk.len()
                        ==> #[trigger] run_view(self.cluster_cache@, device.blocks(), x) == run_view(fs0.cluster_cache@, disk, x)
                    &&& list@.map_values(|p: (usize, String)| (p.0, p.1@)) == dir_listing(fs0, sd, dir.file_start_idx, offset as int)
                    &&& forall|j: int| 0 <= j < offset && dir_entry_cluster(fs0, sd, dir.file_start_idx, j) != 0
                        ==> ascii_bytes(#[trigger] dir_entry_name(fs0, sd, dir.file_start_idx, j))
                },
            decreases FAT_MAX_DIRECTORY_ENTRY_COUNT - offset,
        {
            let ghost e_now = self.cluster_cache@;
            let ghost b_now = device.blocks();
            let ghost fs_now = *self;
            let entry = self.get_dir_entry(device, dir.file_start_idx, offset)?;
            proof {
                if cs {
                    let j = offset as int;
                    let sn = seen(e_now, b_now, ds0);
                    lemma_seen_run(e_now, b_now, fs0.data_addr as int, ds0);
                    lemma_seen_run(fs0.cluster_cache@, disk, fs0.data_addr as int, ds0);
                    assert(run_view(e_now, b_now, ds0) == run_view(fs0.cluster_cache@, disk, ds0));
                    assert(sn[ds0 + j / 16] == run_view(e_now, b_now, ds0)[j / 16]);
                    assert(0 <= j / 16 < 8);
                    assert(sn[ds0 + j / 16] == sd[ds0 + j / 16]);
                    assert(dir_entry_block(fs_now, sn, dir.file_start_idx, j) == dir_entry_block(fs0, sd, dir.file_start_idx, j));
                    assert(entry.name@ =~= dir_entry_name(fs0, sd, dir.file_start_idx, j));
                    assert(spec_start_cluster(entry) == dir_entry_cluster(fs0, sd, dir.file_start_idx, j));
                }
            }
            proof {
                if coherent(fs0, *old(device)) {
                    assert(entry.name@ =~= dir_entry_name(fs0, disk, dir.file_start_idx, offset as int));
                    assert(spec_start_cluster(entry) == dir_entry_cluster(fs0, disk, dir.file_start_idx, offset as int));
                }
            }
            let file_start_idx = entry.start_cluster_idx();
            let ghost before = list@;
            if file_start_idx != 0 {
                let name = match ascii_name(&entry.name) {
                    Some(n) => n,
                    None => {
                        proof {
                            if coherent(fs0, *old(device)) {
                                let j = offset as int;
                                let i = choose|i: int| 0 <= i < 11 && !(entry.name@[i] < 128);
                                assert(dir_entry_name(fs0, disk, dir.file_start_idx, j)[i] == entry.name@[i]);
                                assert(!ascii_bytes(dir_entry_name(fs0, disk, dir.file_start_idx, j)));
                            }
                            if cs {
                                let j = offset as int;
                                let i = choose|i: int| 0 <= i < 11 && !(entry.name@[i] < 128);
                                assert(dir_entry_name(fs0, sd, dir.file_start_idx, j)[i] == entry.name@[i]);
                                assert(!ascii_bytes(dir_entry_name(fs0, sd, dir.file_start_idx, j)));
                            }
                        }
                        return Err(());
                    },
                };
                list.push((offset as usize, name));
                proof {
                    if coherent(fs0, *old(device)) || cs {
                        assert(list@.map_values(|p: (usize, String)| (p.0, p.1@))
                            =~= before.map_values(|p: (usize, String)| (p.0, p.1@)).push((offset as usize, name@)));
                    }
                }
            }
            offset = offset + 1;
        }
        Ok(list)
    }

    /// Empties a file: its entry's size becomes 0, the descriptor goes back
    /// to the first cluster, and every cluster after the first is freed, the
    /// first ending the chain.
    pub fn shrink<D: BlockIO>(&mut self, device: &mut D, file: &mut FileDescriptor) -> (r: Result<(), ()>)
        requires
            old(self).supported(),
            old(file).dir_offset < FAT_MAX_DIRECTORY_ENTRY_COUNT,
        ensures
            final(self).supported(),
            final(self).use_cache == old(self).use_cache,
            final(file).file_start_idx == old(file).file_start_idx,
            final(file).dir_idx == old(file).dir_idx,
            final(file).dir_offset == old(file).dir_offset,
            final(file).ptr == old(file).ptr,
            r is Ok ==> final(file).file_size == 0 && final(file).file_current_idx == old(file).file_start_idx,
            !old(self).use_cache && old(device).modeled() && r is Ok ==> {
                let fs = *final(self);
                let d = final(device).blocks();
                let k = old(file).dir_offset as int;
                let first = dir_blocks_start(*old(self), old(file).dir_idx);
                &&& old(file).file_start_idx != FAT_END_OF_CLUSTER ==> fat_next(fs, d, old(file).file_start_idx) == FAT_END_OF_CLUSTER
                &&& (first + 8 <= fs.fat_addr || fs.fat_addr + FAT_SECTOR_PER_CLUSTER_ENTRY <= first)
                    ==> le_u32(dir_entry_block(fs, d, old(file).dir_idx, k), dir_entry_offset(k) + 28) == 0
            },
            same_device(*old(device), *final(device)),
            ({
                let fs = *old(self);
                let c = old(file).file_start_idx;
                let first = dir_blocks_start(fs, old(file).dir_idx);
                let next = fat_next(fs, old(device).blocks(), c);
                &&& !fs.use_cache
                &&& dir_served(fs, *old(device), old(file).dir_idx)
                &&& c == FAT_END_OF_CLUSTER || {
                    &&& c / FAT_SECTOR_PER_CLUSTER_ENTRY < fs.fat_size
                    &&& block_served(*old(device), fat_entry_addr(fs, c))
                    &&& !(first <= fat_entry_addr(fs, c) < first + 8)
                    &&& next == FAT_END_OF_CLUSTER && fs.fat_size * FAT_SECTOR_PER_CLUSTER_ENTRY <= u32::MAX
                        || single_cluster(fs, *old(device), next) && !(first <= fat_entry_addr(fs, next) < first + 8)
                }
            }) ==> r is Ok,
            forall|n: nat| #[trigger] chain_freeable(*old(self), *old(device),
                fat_next(*old(self), old(device).blocks(), old(file).file_start_idx), n) && ({
                let fs = *old(self);
                let c = old(file).file_start_idx;
                let first = dir_blocks_start(fs, old(file).dir_idx);
                &&& !fs.use_cache
                &&& dir_served(fs, *old(device), old(file).dir_idx)
                &&& (first + 8 <= fs.fat_addr || fs.fat_addr + FAT_SECTOR_PER_CLUSTER_ENTRY <= first)
                &&& c != FAT_END_OF_CLUSTER
                &&& c / FAT_SECTOR_PER_CLUSTER_ENTRY < fs.fat_size
                &&& block_served(*old(device), fat_entry_addr(fs, c))
            }) ==> r is Ok,
    {
        let mut dir = self.get_dir_entry(device, file.dir_idx, file.dir_offset)?;
        dir.file_size = 0;
        self.set_dir_entry(device, file.dir_idx, file.dir_offset, &dir)?;
        let ghost sized = device.blocks();
        file.file_size = 0;
        file.file_current_idx = file.file_start_idx;
        let data_cluster = file.file_start_idx;
        if data_cluster != FAT_END_OF_CLUSTER {
            proof {
                if !self.use_cache && old(device).modeled() {
                    let first = dir_blocks_start(*self, file.dir_idx);
                    let a = fat_entry_addr(*self, data_cluster);
                    if !(first <= a < first + 8) && 0 <= a < old(device).blocks().len() {
                        assert(sized[a] == old(device).blocks()[a]);
                    }
                }
            }
            let next = self.get_cluster_ptr(device, data_cluster)?;
            proof {
                let first = dir_blocks_start(*self, file.dir_idx);
                if !self.use_cache && old(device).modeled() && (first + 8 <= self.fat_addr || self.fat_addr + FAT_SECTOR_PER_CLUSTER_ENTRY <= first) {
                    let a = fat_entry_addr(*self, data_cluster);
                    if 0 <= a < old(device).blocks().len() {
                        assert(sized[a] == old(device).blocks()[a]);
                    }
                    assert forall|n: nat| #[trigger] chain_freeable(*old(self), *old(device),
                        fat_next(*old(self), old(device).blocks(), old(file).file_start_idx), n)
                        && data_cluster / FAT_SECTOR_PER_CLUSTER_ENTRY < self.fat_size
                        && block_served(*old(device), a)
                        implies chain_freeable(*self, *device, next, n) by {
                        lemma_chain_frame(*self, *old(device), *device, next, n);
                    }
                }
            }
            proof {
                if !self.use_cache && old(device).modeled() && next != FAT_END_OF_CLUSTER {
                    let first = dir_blocks_start(*self, file.dir_idx);
                    let a = fat_entry_addr(*self, next);
                    if !(first <= a < first + 8) && 0 <= a < old(device).blocks().len() {
                        assert(sized[a] == old(device).blocks()[a]);
                    }
                }
            }
            self.free_chain(device, next)?;
            self.set_cluster_ptr(device, file.file_start_idx, FAT_END_OF_CLUSTER)?;
        }
        proof {
            let at = dir_blocks_start(*self, file.dir_idx) + (file.dir_offset as int) / 16;
            let first = dir_blocks_start(*self, file.dir_idx);
            if !self.use_cache && old(device).modeled() && (first + 8 <= self.fat_addr || self.fat_addr + FAT_SECTOR_PER_CLUSTER_ENTRY <= first) {
                assert(device.blocks()[at] == sized[at]);
            }
        }
        Ok(())
    }

    /// Writes every dirty cached table sector and cluster to the device, when
    /// the volume caches; the caches stay, clean.
    pub fn flush<D: BlockIO>(&mut self, device: &mut D)
        requires
            old(self).supported(),
        ensures
            final(self).supported(),
            final(self).use_cache == old(self).use_cache,
            !old(self).use_cache ==> *final(self) == *old(self) && final(device).blocks() == old(device).blocks(),
            same_device(*old(device), *final(device)),
            ({
                let len = old(device).blocks().len() as int;
                &&& old(self).use_cache
                &&& serving(*old(device))
                &&& runs_fit(dirty_runs(old(self).fat_cache), len)
                &&& runs_fit(dirty_runs(old(self).cluster_cache), len)
            }) ==> final(device).blocks() == written_back(written_back(old(device).blocks(), dirty_runs(old(self).fat_cache),
                dirty_runs(old(self).fat_cache).len() as int), dirty_runs(old(self).cluster_cache),
                dirty_runs(old(self).cluster_cache).len() as int),
            old(self).use_cache ==> {
                &&& final(self).fat_cache@.len() == old(self).fat_cache@.len()
                &&& forall|k: int| 0 <= k < old(self).fat_cache@.len() ==> #[trigger] final(self).fat_cache@[k]
                    == (EntryView { dirty: false, ..old(self).fat_cache@[k] })
                &&& final(self).cluster_cache@.len() == old(self).cluster_cache@.len()
                &&& forall|k: int| 0 <= k < old(self).cluster_cache@.len() ==> #[trigger] final(self).cluster_cache@[k]
                    == (EntryView { dirty: false, ..old(self).cluster_cache@[k] })
            },
    {
        if self.use_cache {
            let ghost fat_before = self.fat_cache@;
            let fat_dirty = self.fat_cache.flush();
            let ghost cluster_before = self.cluster_cache@;
            let cluster_dirty = self.cluster_cache.flush();
            proof {
                assert forall|k: int| 0 <= k < self.fat_cache@.len() implies (#[trigger] self.fat_cache@[k]).data.len() == 1 by {
                    assert(self.fat_cache@[k].data == fat_before[k].data);
                }
                assert forall|k: int| 0 <= k < self.cluster_cache@.len() implies (#[trigger] self.cluster_cache@[k]).data.len() == 8 by {
                    assert(self.cluster_cache@[k].data == cluster_before[k].data);
                    assert(self.sector_per_cluster == FAT_SECTOR_PER_CLUSTER);
                }
            }
            proof {
                assert(run_views(fat_dirty@) =~= dirty_runs(old(self).fat_cache));
                assert(run_views(cluster_dirty@) =~= dirty_runs(old(self).cluster_cache));
            }
            write_back(device, &fat_dirty);
            write_back(device, &cluster_dirty);
        }
    }
}

/// The blocks after the first `n` runs of `runs` are written, in order,
/// each at its tag.
pub open spec fn written_back(blocks: Seq<Block>, runs: Seq<(u64, Seq<Block>)>, n: int) -> Seq<Block>
    decreases n,
{
    if n <= 0 {
        blocks
    } else {
        ram_write(written_back(blocks, runs, n - 1), runs[n - 1].0 as int, runs[n - 1].1)
    }
}

/// Every run has a tag that fits and lies within `len` blocks.
pub open spec fn runs_fit(runs: Seq<(u64, Seq<Block>)>, len: int) -> bool {
    forall|i: int| 0 <= i < runs.len() ==> #[trigger] runs[i].0 <= u32::MAX && runs[i].0 + runs[i].1.len() <= len
}

/// The tag and blocks of each run handed out to be written.
pub open spec fn run_views(dirty: Seq<(u64, Vec<Block>)>) -> Seq<(u64, Seq<Block>)> {
    dirty.map_values(|p: (u64, Vec<Block>)| (p.0, p.1@))
}

/// The tag and blocks of each dirty entry of a cache, in pool order.
pub open spec fn dirty_runs(c: Cache<Block>) -> Seq<(u64, Seq<Block>)> {
    dirty_entries(c.pool_view()).map_values(|e: EntryView<Block>| (e.tag, e.data))
}

/// Writes cached sectors back to the device at their tags.
fn write_back<D: BlockIO>(device: &mut D, dirty: &Vec<(u64, Vec<Block>)>)
    ensures
        same_device(*old(device), *final(device)),
        serving(*old(device)) && runs_fit(run_views(dirty@), old(device).blocks().len() as int)
            ==> final(device).blocks() == written_back(old(device).blocks(), run_views(dirty@), dirty@.len() as int),
{
    let ghost runs = run_views(dirty@);
    let mut i: usize = 0;
    while i < dirty.len()
        invariant
            i <= dirty@.len(),
            runs == run_views(dirty@),
            same_device(*old(device), *device),
            serving(*old(device)) && runs_fit(runs, old(device).blocks().len() as int)
                ==> device.blocks() == written_back(old(device).blocks(), runs, i as int),
        decreases dirty@.len() - i,
    {
        proof {
            if serving(*old(device)) && runs_fit(runs, old(device).blocks().len() as int) {
                assert(runs[i as int].0 <= u32::MAX);
                assert(runs[i as int].1 == dirty@[i as int].1@);
            }
        }
        let _ = device.write(dirty[i].0 as u32, &dirty[i].1);
        i = i + 1;
    }
}

} // verus!
