//! On-disk structures of the FAT file system: the boot sector header, the
//! FS information sector and 32-byte directory entries.
use vstd::prelude::*;
use crate::bytes::{le_u16, le_u32};
use crate::device::block::{Block, BLOCK_SIZE};

verus! {

pub const FAT_SECTOR_PER_CLUSTER: u8 = 8;
pub const FAT_SECTOR_PER_CLUSTER_ENTRY: u32 = 128;
pub const FAT_MAX_DIRECTORY_ENTRY_COUNT: u32 = 128;
pub const FAT_END_OF_CLUSTER: u32 = 0x0FFF_FFFF;
pub const FAT_DIR_ATTRIBUTE_NIL: u8 = 0x00;
pub const FAT_DIR_ATTRIBUTE_FILE: u8 = 0x01;
pub const FAT_DIR_ATTRIBUTE_DIR: u8 = 0x02;

/// Bytes in a directory entry.
pub const DIR_ENTRY_SIZE: usize = 32;

/// The FAT variants the kernel tells apart.
#[derive(Clone, Copy, PartialEq, Eq, Structural)]
pub enum FATType {
    FAT16,
    FAT32,
}

/// The FAT16 table size of a boot sector: the 16-bit value at byte 22.
pub open spec fn spec_fat_size16(b: Seq<u8>) -> int {
    le_u16(b, 22)
}

/// A boot sector with a FAT16 table size is FAT16, otherwise FAT32.
pub fn fat_type(vbr: &Block) -> (r: FATType)
    ensures
        r == (if spec_fat_size16(vbr.bytes@) != 0 { FATType::FAT16 } else { FATType::FAT32 }),
{
    if vbr.read_u16_at(22) != 0 {
        FATType::FAT16
    } else {
        FATType::FAT32
    }
}

/// The header every FAT boot sector starts with: its first 36 bytes.
pub struct CommonFATHeader {
    pub bytes: [u8; 36],
}

impl CommonFATHeader {
    /// All fields zero.
    pub fn empty() -> (r: Self)
        ensures
            forall|i: int| 0 <= i < 36 ==> r.bytes@[i] == 0,
    {
        CommonFATHeader { bytes: [0u8; 36] }
    }
}

/// A FAT32 boot sector.
pub struct FAT32Header {
    pub block: Block,
}

impl FAT32Header {
    /// All fields zero.
    pub fn empty() -> (r: Self)
        ensures
            r.block.is_zero(),
    {
        FAT32Header { block: Block::empty() }
    }

    /// The sector as a block.
    pub fn as_block(&self) -> (r: Block)
        ensures
            r == self.block,
    {
        self.block
    }

    pub fn byte_per_sector(&self) -> (r: u16)
        ensures
            r == le_u16(self.block.bytes@, 11),
    {
        self.block.read_u16_at(11)
    }

    pub fn sector_per_clustor(&self) -> (r: u8)
        ensures
            r == self.block.bytes@[13],
    {
        self.block.get_u8(13)
    }

    pub fn reserved_sector_count(&self) -> (r: u16)
        ensures
            r == le_u16(self.block.bytes@, 14),
    {
        self.block.read_u16_at(14)
    }

    pub fn total_sector32(&self) -> (r: u32)
        ensures
            r == le_u32(self.block.bytes@, 32),
    {
        self.block.read_u32_at(32)
    }

    pub fn fat_size(&self) -> (r: u32)
        ensures
            r == le_u32(self.block.bytes@, 36),
    {
        self.block.read_u32_at(36)
    }

    pub fn root_directory_clustor(&self) -> (r: u32)
        ensures
            r == le_u32(self.block.bytes@, 44),
    {
        self.block.read_u32_at(44)
    }
}

/// The FS information sector.
pub struct FsInfo {
    pub block: Block,
}

impl FsInfo {
    /// All fields zero.
    pub fn empty() -> (r: Self)
        ensures
            r.block.is_zero(),
    {
        FsInfo { block: Block::empty() }
    }

    pub fn as_block(&self) -> (r: Block)
        ensures
            r == self.block,
    {
        self.block
    }

    /// The free cluster count, at byte 488.
    pub fn free_clustor_count(&self) -> (r: u32)
        ensures
            r == le_u32(self.block.bytes@, 488),
    {
        self.block.read_u32_at(488)
    }

    /// The next free cluster hint, at byte 492.
    pub fn next_free_clustor(&self) -> (r: u32)
        ensures
            r == le_u32(self.block.bytes@, 492),
    {
        self.block.read_u32_at(492)
    }
}

/// A 32-byte directory entry.
#[derive(Clone, Copy)]
pub struct DirectoryEntry {
    pub name: [u8; 11],
    pub attr: u8,
    pub reserved: u8,
    pub time1: [u8; 7],
    pub cluster_high: u16,
    pub time2: [u8; 4],
    pub cluster_low: u16,
    pub file_size: u32,
}

/// The first cluster of an entry: the low and high halves joined.
pub open spec fn spec_start_cluster(e: DirectoryEntry) -> int {
    e.cluster_low + 65536 * e.cluster_high
}

/// Whether the entry stored at byte `o` has these fields.
pub open spec fn entry_at(b: Seq<u8>, o: int, e: DirectoryEntry) -> bool {
    &&& forall|i: int| 0 <= i < 11 ==> e.name@[i] == b[o + i]
    &&& e.attr == b[o + 11]
    &&& e.reserved == b[o + 12]
    &&& forall|i: int| 0 <= i < 7 ==> e.time1@[i] == b[o + 13 + i]
    &&& e.cluster_high == le_u16(b, o + 20)
    &&& forall|i: int| 0 <= i < 4 ==> e.time2@[i] == b[o + 22 + i]
    &&& e.cluster_low == le_u16(b, o + 26)
    &&& e.file_size == le_u32(b, o + 28)
}

impl DirectoryEntry {
    /// A free entry: a name of spaces, everything else zero.
    pub fn empty() -> (r: Self)
        ensures
            forall|i: int| 0 <= i < 11 ==> r.name@[i] == 0x20,
            r.attr == 0,
            r.reserved == 0,
            forall|i: int| 0 <= i < 7 ==> r.time1@[i] == 0,
            r.cluster_high == 0,
            forall|i: int| 0 <= i < 4 ==> r.time2@[i] == 0,
            r.cluster_low == 0,
            r.file_size == 0,
    {
        DirectoryEntry {
            name: [0x20u8; 11],
            attr: 0,
            reserved: 0,
            time1: [0u8; 7],
            cluster_high: 0,
            time2: [0u8; 4],
            cluster_low: 0,
            file_size: 0,
        }
    }

    pub fn start_cluster_idx(&self) -> (r: u32)
        ensures
            r == spec_start_cluster(*self),
    {
        self.cluster_low as u32 + 65536 * self.cluster_high as u32
    }

    /// Splits `cluster_addr` into the two halves of the entry.
    pub fn set_start_cluster_idx(&mut self, cluster_addr: u32)
        ensures
            *final(self) == (DirectoryEntry {
                cluster_low: (cluster_addr % 65536) as u16,
                cluster_high: (cluster_addr / 65536) as u16,
                ..*old(self)
            }),
            spec_start_cluster(*final(self)) == cluster_addr,
    {
        proof {
            assert(cluster_addr as u16 == cluster_addr % 65536 && (cluster_addr >> 16u32) as u16 == cluster_addr / 65536) by (bit_vector);
        }
        self.cluster_low = cluster_addr as u16;
        self.cluster_high = (cluster_addr >> 16) as u16;
    }

    /// The entry stored at byte `offset` of a block.
    pub fn from_block(block: &Block, offset: usize) -> (r: Self)
        requires
            offset + DIR_ENTRY_SIZE <= BLOCK_SIZE,
        ensures
            entry_at(block.bytes@, offset as int, r),
    {
        let mut name = [0u8; 11];
        let mut i: usize = 0;
        while i < 11
            invariant
                offset + DIR_ENTRY_SIZE <= BLOCK_SIZE,
                i <= 11,
                forall|j: int| 0 <= j < i ==> name@[j] == block.bytes@[offset + j],
            decreases 11 - i,
        {
            name[i] = block.bytes[offset + i];
            i = i + 1;
        }
        let mut time1 = [0u8; 7];
        let mut i: usize = 0;
        while i < 7
            invariant
                offset + DIR_ENTRY_SIZE <= BLOCK_SIZE,
                i <= 7,
                forall|j: int| 0 <= j < i ==> time1@[j] == block.bytes@[offset + 13 + j],
            decreases 7 - i,
        {
            time1[i] = block.bytes[offset + 13 + i];
            i = i + 1;
        }
        let mut time2 = [0u8; 4];
        let mut i: usize = 0;
        while i < 4
            invariant
                offset + DIR_ENTRY_SIZE <= BLOCK_SIZE,
                i <= 4,
                forall|j: int| 0 <= j < i ==> time2@[j] == block.bytes@[offset + 22 + j],
            decreases 4 - i,
        {
            time2[i] = block.bytes[offset + 22 + i];
            i = i + 1;
        }
        DirectoryEntry {
            name,
            attr: block.bytes[offset + 11],
            reserved: block.bytes[offset + 12],
            time1,
            cluster_high: block.read_u16_at(offset + 20),
            time2,
            cluster_low: block.read_u16_at(offset + 26),
            file_size: block.read_u32_at(offset + 28),
        }
    }

    /// Stores the entry at byte `offset` of a block, leaving the other bytes.
    pub fn write_to_block(&self, block: &mut Block, offset: usize)
        requires
            offset + DIR_ENTRY_SIZE <= BLOCK_SIZE,
        ensures
            entry_at(final(block).bytes@, offset as int, *self),
            forall|j: int| 0 <= j < BLOCK_SIZE && (j < offset || j >= offset + DIR_ENTRY_SIZE)
                ==> final(block).bytes@[j] == old(block).bytes@[j],
    {
        let ghost start = block.bytes@;
        let mut i: usize = 0;
        while i < 11
            invariant
                offset + DIR_ENTRY_SIZE <= BLOCK_SIZE,
                i <= 11,
                forall|j: int| 0 <= j < i ==> self.name@[j] == block.bytes@[offset + j],
                forall|j: int| 0 <= j < BLOCK_SIZE && (j < offset || j >= offset + i) ==> block.bytes@[j] == start[j],
            decreases 11 - i,
        {
            block.set_u8(offset + i, self.name[i]);
            i = i + 1;
        }
        block.set_u8(offset + 11, self.attr);
        block.set_u8(offset + 12, self.reserved);
        let mut i: usize = 0;
        while i < 7
            invariant
                offset + DIR_ENTRY_SIZE <= BLOCK_SIZE,
                i <= 7,
                forall|j: int| 0 <= j < 11 ==> self.name@[j] == block.bytes@[offset + j],
                self.attr == block.bytes@[offset + 11],
                self.reserved == block.bytes@[offset + 12],
                forall|j: int| 0 <= j < i ==> self.time1@[j] == block.bytes@[offset + 13 + j],
                forall|j: int| 0 <= j < BLOCK_SIZE && (j < offset || j >= offset + 13 + i) ==> block.bytes@[j] == start[j],
            decreases 7 - i,
        {
            block.set_u8(offset + 13 + i, self.time1[i]);
            i = i + 1;
        }
        block.write_u16_at(offset + 20, self.cluster_high);
        let mut i: usize = 0;
        while i < 4
            invariant
                offset + DIR_ENTRY_SIZE <= BLOCK_SIZE,
                i <= 4,
                forall|j: int| 0 <= j < 11 ==> self.name@[j] == block.bytes@[offset + j],
                self.attr == block.bytes@[offset + 11],
                self.reserved == block.bytes@[offset + 12],
                forall|j: int| 0 <= j < 7 ==> self.time1@[j] == block.bytes@[offset + 13 + j],
                self.cluster_high == le_u16(block.bytes@, offset + 20),
                forall|j: int| 0 <= j < i ==> self.time2@[j] == block.bytes@[offset + 22 + j],
                forall|j: int| 0 <= j < BLOCK_SIZE && (j < offset || j >= offset + 22 + i) ==> block.bytes@[j] == start[j],
            decreases 4 - i,
        {
            block.set_u8(offset + 22 + i, self.time2[i]);
            i = i + 1;
        }
        block.write_u16_at(offset + 26, self.cluster_low);
        block.write_u32_at(offset + 28, self.file_size);
    }
}

/// Reading an entry back from where it was stored gives the same fields.
pub proof fn law_dir_entry_round_trip(b: Seq<u8>, o: int, e1: DirectoryEntry, e2: DirectoryEntry)
    requires
        entry_at(b, o, e1),
        entry_at(b, o, e2),
    ensures
        e1 == e2,
{
    assert(e1.name@ =~= e2.name@);
    assert(e1.time1@ =~= e2.time1@);
    assert(e1.time2@ =~= e2.time2@);
    vstd::array::axiom_array_ext_equal(e1.name, e2.name);
    vstd::array::axiom_array_ext_equal(e1.time1, e2.time1);
    vstd::array::axiom_array_ext_equal(e1.time2, e2.time2);
    assert(e1.name =~= e2.name);
    assert(e1.time1 =~= e2.time1);
    assert(e1.time2 =~= e2.time2);
}

} // verus!
