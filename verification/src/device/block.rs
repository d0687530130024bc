//! 512-byte blocks, the MBR partition table, and block devices.
use vstd::prelude::*;
use crate::bytes::{le_u16, le_u32};

verus! {

/// Bytes in a block.
pub const BLOCK_SIZE: usize = 512;

/// One sector of a block device.
#[derive(Clone, Copy)]
pub struct Block {
    pub bytes: [u8; 512],
}

impl Block {
    pub fn empty() -> (r: Self)
        ensures
            forall|i: int| 0 <= i < BLOCK_SIZE ==> r.bytes@[i] == 0,
            r.bytes@.len() == BLOCK_SIZE,
    {
        Block { bytes: [0u8; 512] }
    }

    pub fn get_u8(&self, offset: usize) -> (r: u8)
        requires
            offset < BLOCK_SIZE,
        ensures
            r == self.bytes@[offset as int],
    {
        self.bytes[offset]
    }

    pub fn set_u8(&mut self, offset: usize, value: u8)
        requires
            offset < BLOCK_SIZE,
        ensures
            final(self).bytes@ == old(self).bytes@.update(offset as int, value),
    {
        self.bytes.set(offset, value);
    }

    /// The `index`-th 16-bit little-endian word.
    pub fn get_u16(&self, index: usize) -> (r: u16)
        requires
            index < BLOCK_SIZE / 2,
        ensures
            r == le_u16(self.bytes@, 2 * index),
    {
        let lo = self.bytes[2 * index] as u16;
        let hi = self.bytes[2 * index + 1] as u16;
        lo + 256 * hi
    }

    /// Stores `value` as the `index`-th 16-bit little-endian word.
    pub fn set_u16(&mut self, index: usize, value: u16)
        requires
            index < BLOCK_SIZE / 2,
        ensures
            le_u16(final(self).bytes@, 2 * index) == value,
            forall|j: int| 0 <= j < BLOCK_SIZE && (j < 2 * index || j >= 2 * index + 2)
                ==> final(self).bytes@[j] == old(self).bytes@[j],
    {
        self.bytes.set(2 * index, (value % 256) as u8);
        self.bytes.set(2 * index + 1, (value / 256) as u8);
    }

    /// The `index`-th 32-bit little-endian word.
    pub fn get_u32(&self, index: usize) -> (r: u32)
        requires
            index < BLOCK_SIZE / 4,
        ensures
            r == le_u32(self.bytes@, 4 * index),
    {
        let b0 = self.bytes[4 * index] as u32;
        let b1 = self.bytes[4 * index + 1] as u32;
        let b2 = self.bytes[4 * index + 2] as u32;
        let b3 = self.bytes[4 * index + 3] as u32;
        b0 + 256 * b1 + 65536 * b2 + 16777216 * b3
    }

    /// Stores `value` as the `index`-th 32-bit little-endian word.
    pub fn set_u32(&mut self, index: usize, value: u32)
        requires
            index < BLOCK_SIZE / 4,
        ensures
            le_u32(final(self).bytes@, 4 * index) == value,
            forall|j: int| 0 <= j < BLOCK_SIZE && (j < 4 * index || j >= 4 * index + 4)
                ==> final(self).bytes@[j] == old(self).bytes@[j],
    {
        let o = 4 * index;
        self.bytes.set(o, (value % 256) as u8);
        self.bytes.set(o + 1, ((value / 256) % 256) as u8);
        self.bytes.set(o + 2, ((value / 65536) % 256) as u8);
        self.bytes.set(o + 3, (value / 16777216) as u8);
    }

    /// The little-endian 32-bit value at byte `offset`.
    pub fn read_u32_at(&self, offset: usize) -> (r: u32)
        requires
            offset + 4 <= BLOCK_SIZE,
        ensures
            r == le_u32(self.bytes@, offset as int),
    {
        let b0 = self.bytes[offset] as u32;
        let b1 = self.bytes[offset + 1] as u32;
        let b2 = self.bytes[offset + 2] as u32;
        let b3 = self.bytes[offset + 3] as u32;
        b0 + 256 * b1 + 65536 * b2 + 16777216 * b3
    }

    /// The little-endian 16-bit value at byte `offset`.
    pub fn read_u16_at(&self, offset: usize) -> (r: u16)
        requires
            offset + 2 <= BLOCK_SIZE,
        ensures
            r == le_u16(self.bytes@, offset as int),
    {
        let lo = self.bytes[offset] as u16;
        let hi = self.bytes[offset + 1] as u16;
        lo + 256 * hi
    }

    /// Stores `value` little-endian at byte `offset`.
    pub fn write_u32_at(&mut self, offset: usize, value: u32)
        requires
            offset + 4 <= BLOCK_SIZE,
        ensures
            le_u32(final(self).bytes@, offset as int) == value,
            forall|j: int| 0 <= j < BLOCK_SIZE && (j < offset || j >= offset + 4)
                ==> final(self).bytes@[j] == old(self).bytes@[j],
    {
        self.bytes.set(offset, (value % 256) as u8);
        self.bytes.set(offset + 1, ((value / 256) % 256) as u8);
        self.bytes.set(offset + 2, ((value / 65536) % 256) as u8);
        self.bytes.set(offset + 3, (value / 16777216) as u8);
    }

    /// Stores `value` little-endian at byte `offset`.
    pub fn write_u16_at(&mut self, offset: usize, value: u16)
        requires
            offset + 2 <= BLOCK_SIZE,
        ensures
            le_u16(final(self).bytes@, offset as int) == value,
            forall|j: int| 0 <= j < BLOCK_SIZE && (j < offset || j >= offset + 2)
                ==> final(self).bytes@[j] == old(self).bytes@[j],
    {
        self.bytes.set(offset, (value % 256) as u8);
        self.bytes.set(offset + 1, (value / 256) as u8);
    }

    /// The partition table this block holds when it is a master boot record.
    pub fn mbr(&self) -> (r: MBR)
        ensures
            r.bytes@ == self.bytes@,
    {
        MBR { bytes: self.bytes }
    }

    /// Writes a master boot record back into the block.
    pub fn set_mbr(&mut self, mbr: &MBR)
        ensures
            final(self).bytes@ == mbr.bytes@,
    {
        self.bytes = mbr.bytes;
    }
}

/// One 16-byte entry of the MBR partition table.
#[derive(Clone, Copy, Debug)]
pub struct MBRPartionEntry {
    pub status: u8,
    pub start_chs_head: u8,
    pub start_chs_sector: u16,
    pub type_: u8,
    pub end_chs_head: u8,
    pub end_chs_sector: u16,
    pub start_lba: u32,
    pub sector_count: u32,
}

/// Byte offset of the partition table in the MBR.
pub const MBR_PARTITION_TABLE: usize = 446;

/// The partition entry whose bytes start at `off`.
pub open spec fn partition_at(s: Seq<u8>, off: int) -> MBRPartionEntry {
    MBRPartionEntry {
        status: s[off],
        start_chs_head: s[off + 1],
        start_chs_sector: le_u16(s, off + 2) as u16,
        type_: s[off + 4],
        end_chs_head: s[off + 5],
        end_chs_sector: le_u16(s, off + 6) as u16,
        start_lba: le_u32(s, off + 8) as u32,
        sector_count: le_u32(s, off + 12) as u32,
    }
}

impl MBRPartionEntry {
    pub fn start_address(&self) -> (r: u32)
        ensures
            r == self.start_lba,
    {
        self.start_lba
    }

    pub fn size(&self) -> (r: u32)
        ensures
            r == self.sector_count,
    {
        self.sector_count
    }

    pub fn type_(&self) -> (r: u8)
        ensures
            r == self.type_,
    {
        self.type_
    }

    /// Marks the partition bootable.
    pub fn set_bootable(&mut self)
        ensures
            *final(self) == (MBRPartionEntry { status: 0x80, ..*old(self) }),
    {
        self.status = 0x80;
    }

    pub fn set_start_address(&mut self, start_addr: u32)
        ensures
            *final(self) == (MBRPartionEntry { start_lba: start_addr, ..*old(self) }),
    {
        self.start_lba = start_addr;
    }

    pub fn set_size(&mut self, size: u32)
        ensures
            *final(self) == (MBRPartionEntry { sector_count: size, ..*old(self) }),
    {
        self.sector_count = size;
    }

    pub fn set_type_(&mut self, type_: u8)
        ensures
            *final(self) == (MBRPartionEntry { type_: type_, ..*old(self) }),
    {
        self.type_ = type_;
    }
}

/// A master boot record: boot code, four partition entries, magic word.
#[derive(Clone, Copy)]
pub struct MBR {
    pub bytes: [u8; 512],
}

impl MBR {
    /// The partition entry `index`.
    pub fn partition(&self, index: usize) -> (r: MBRPartionEntry)
        requires
            index < 4,
        ensures
            r == partition_at(self.bytes@, MBR_PARTITION_TABLE + 16 * index),
    {
        let block = Block { bytes: self.bytes };
        let off = MBR_PARTITION_TABLE + 16 * index;
        MBRPartionEntry {
            status: self.bytes[off],
            start_chs_head: self.bytes[off + 1],
            start_chs_sector: block.read_u16_at(off + 2),
            type_: self.bytes[off + 4],
            end_chs_head: self.bytes[off + 5],
            end_chs_sector: block.read_u16_at(off + 6),
            start_lba: block.read_u32_at(off + 8),
            sector_count: block.read_u32_at(off + 12),
        }
    }

    /// Replaces the partition entry `index`; the rest of the record stays.
    pub fn set_partition(&mut self, index: usize, partition: MBRPartionEntry)
        requires
            index < 4,
        ensures
            partition_at(final(self).bytes@, MBR_PARTITION_TABLE + 16 * index) == partition,
            forall|j: int| 0 <= j < BLOCK_SIZE && (j < MBR_PARTITION_TABLE + 16 * index || j >= MBR_PARTITION_TABLE + 16 * index + 16)
                ==> final(self).bytes@[j] == old(self).bytes@[j],
    {
        let off = MBR_PARTITION_TABLE + 16 * index;
        let mut block = Block { bytes: self.bytes };
        block.set_u8(off, partition.status);
        block.set_u8(off + 1, partition.start_chs_head);
        block.write_u16_at(off + 2, partition.start_chs_sector);
        block.set_u8(off + 4, partition.type_);
        block.set_u8(off + 5, partition.end_chs_head);
        block.write_u16_at(off + 6, partition.end_chs_sector);
        block.write_u32_at(off + 8, partition.start_lba);
        block.write_u32_at(off + 12, partition.sector_count);
        self.bytes = block.bytes;
    }
}

/// A block device: reads and writes runs of 512-byte blocks by address.
pub trait BlockIO {
    /// The device is modeled: `blocks` is what it holds, and its reads and
    /// writes keep to the clauses below that depend on this. Every device of
    /// this library is; one driven from outside the library is not, and
    /// proofs learn nothing of what it holds or gives back.
    closed spec fn modeled(&self) -> bool {
        false
    }

    /// The blocks a modeled device holds.
    closed spec fn blocks(&self) -> Seq<Block> {
        Seq::empty()
    }

    /// A modeled device that serves every run of blocks lying within it:
    /// such a read or write does not fail.
    closed spec fn reliable(&self) -> bool {
        false
    }

    /// Reads `buffer.len()` blocks starting at block `address`; `Ok` carries
    /// the number of blocks read, `Err` the number read before a failure.
    /// The buffer keeps its length. On a modeled device a read leaves the
    /// device as it was, and a successful one fills the buffer with the
    /// addressed blocks.
    fn read(&mut self, address: u32, buffer: &mut Vec<Block>) -> (r: Result<usize, usize>)
        ensures
            final(buffer)@.len() == old(buffer)@.len(),
            final(self).modeled() == old(self).modeled(),
            final(self).blocks() == old(self).blocks(),
            final(self).reliable() == old(self).reliable(),
            old(self).reliable() ==> old(self).modeled(),
            old(self).reliable() && address + old(buffer)@.len() <= old(self).blocks().len() ==> r is Ok,
            old(self).modeled() && r is Ok ==> r == Ok::<usize, usize>(old(buffer)@.len() as usize)
                && address + old(buffer)@.len() <= old(self).blocks().len()
                && final(buffer)@ == ram_read(old(self).blocks(), address as int, old(buffer)@.len() as int),
    ;

    /// Writes the blocks of `buffer` starting at block `address`; on a
    /// modeled device a successful write stores them.
    fn write(&mut self, address: u32, buffer: &Vec<Block>) -> (r: Result<usize, usize>)
        ensures
            final(self).modeled() == old(self).modeled(),
            final(self).blocks().len() == old(self).blocks().len(),
            final(self).reliable() == old(self).reliable(),
            old(self).reliable() ==> old(self).modeled(),
            old(self).reliable() && address + buffer@.len() <= old(self).blocks().len() ==> r is Ok,
            old(self).modeled() && r is Ok ==> r == Ok::<usize, usize>(buffer@.len() as usize)
                && address + buffer@.len() <= old(self).blocks().len()
                && final(self).blocks() == ram_write(old(self).blocks(), address as int, buffer@),
    ;

    /// Number of addressable blocks: on a modeled device whose count fits
    /// in 32 bits, the blocks it holds.
    fn max_addr(&self) -> (r: u32)
        ensures
            self.modeled() && self.blocks().len() <= u32::MAX ==> r == self.blocks().len(),
    ;
}

/// A modeled device that serves every run of blocks lying within it.
pub open spec fn serving<D: BlockIO>(d: D) -> bool {
    d.modeled() && d.reliable()
}

/// Two states of a device that serve runs alike and hold as many blocks.
pub open spec fn same_device<D: BlockIO>(a: D, b: D) -> bool {
    a.modeled() == b.modeled() && serving(a) == serving(b) && a.blocks().len() == b.blocks().len()
}

/// The blocks a RAM disk holds after writing `buf` at `addr`.
pub open spec fn ram_write(disk: Seq<Block>, addr: int, buf: Seq<Block>) -> Seq<Block> {
    if addr + buf.len() <= disk.len() {
        Seq::new(disk.len(), |i: int| if addr <= i < addr + buf.len() { buf[i - addr] } else { disk[i] })
    } else {
        disk
    }
}

/// The blocks a RAM disk gives back for a read of `len` blocks at `addr`.
pub open spec fn ram_read(disk: Seq<Block>, addr: int, len: int) -> Seq<Block> {
    disk.subrange(addr, addr + len)
}

/// A block device in memory.
pub struct RamDisk {
    storage: Vec<Block>,
}

impl RamDisk {
    /// The blocks the disk holds.
    pub closed spec fn disk(&self) -> Seq<Block> {
        self.storage@
    }

    /// A zeroed disk of at least `size` bytes, rounded up to whole blocks.
    pub fn new(size: usize) -> (r: Self)
        requires
            size + 511 <= usize::MAX,
        ensures
            r.disk().len() == (size + 511) / 512,
            forall|i: int| 0 <= i < r.disk().len() ==> #[trigger] r.disk()[i].is_zero(),
    {
        let n = (size + 511) / 512;
        let mut storage: Vec<Block> = Vec::new();
        while storage.len() < n
            invariant
                storage@.len() <= n,
                forall|i: int| 0 <= i < storage@.len() ==> #[trigger] storage@[i].is_zero(),
            decreases n - storage@.len(),
        {
            storage.push(Block::empty());
        }
        RamDisk { storage }
    }
}

impl Block {
    /// Every byte of the block is zero.
    pub open spec fn is_zero(&self) -> bool {
        forall|i: int| 0 <= i < BLOCK_SIZE ==> self.bytes@[i] == 0
    }
}

impl BlockIO for RamDisk {
    open spec fn modeled(&self) -> bool {
        true
    }

    open spec fn blocks(&self) -> Seq<Block> {
        self.disk()
    }

    open spec fn reliable(&self) -> bool {
        true
    }

    /// Copies the addressed blocks; a run that does not fit on the disk is
    /// refused with `Err(0)`.
    fn read(&mut self, address: u32, buffer: &mut Vec<Block>) -> (r: Result<usize, usize>)
        ensures
            final(self).disk() == old(self).disk(),
            address + old(buffer)@.len() <= old(self).disk().len() ==> r == Ok::<usize, usize>(old(buffer)@.len() as usize)
                && final(buffer)@ == ram_read(old(self).disk(), address as int, old(buffer)@.len() as int),
            address + old(buffer)@.len() > old(self).disk().len() ==> r == Err::<usize, usize>(0)
                && final(buffer)@ == old(buffer)@,
    {
        let len = buffer.len();
        let start = address as usize;
        if start > self.storage.len() || len > self.storage.len() - start {
            return Err(0);
        }
        let mut i: usize = 0;
        while i < len
            invariant
                i <= len,
                len == buffer@.len(),
                start + len <= self.storage@.len(),
                self.storage@.len() <= usize::MAX,
                start == address,
                forall|j: int| 0 <= j < i ==> buffer@[j] == self.storage@[start + j],
            decreases len - i,
        {
            let b = self.storage[start + i];
            buffer.set(i, b);
            i = i + 1;
        }
        proof {
            assert(buffer@ =~= ram_read(self.storage@, address as int, len as int));
        }
        Ok(len)
    }

    /// Stores the blocks of `buffer`; a run that does not fit on the disk is
    /// refused with `Err(0)` and the disk is left as it was.
    fn write(&mut self, address: u32, buffer: &Vec<Block>) -> (r: Result<usize, usize>)
        ensures
            final(self).disk() == ram_write(old(self).disk(), address as int, buffer@),
            address + buffer@.len() <= old(self).disk().len() ==> r == Ok::<usize, usize>(buffer@.len() as usize),
            address + buffer@.len() > old(self).disk().len() ==> r == Err::<usize, usize>(0),
    {
        let len = buffer.len();
        let start = address as usize;
        let ghost old_disk = self.storage@;
        if start > self.storage.len() || len > self.storage.len() - start {
            proof {
                assert(ram_write(old_disk, address as int, buffer@) == old_disk);
            }
            return Err(0);
        }
        let mut i: usize = 0;
        while i < len
            invariant
                i <= len,
                len == buffer@.len(),
                start + len <= self.storage@.len(),
                self.storage@.len() <= usize::MAX,
                start == address,
                self.storage@.len() == old_disk.len(),
                forall|j: int| 0 <= j < self.storage@.len() ==> self.storage@[j] == (
                    if start <= j < start + i { buffer@[j - start] } else { old_disk[j] }),
            decreases len - i,
        {
            self.storage.set(start + i, buffer[i]);
            i = i + 1;
        }
        proof {
            assert(self.storage@ =~= ram_write(old_disk, address as int, buffer@));
        }
        Ok(len)
    }

    fn max_addr(&self) -> (r: u32)
        ensures
            self.disk().len() <= u32::MAX ==> r == self.disk().len(),
    {
        self.storage.len() as u32
    }
}

/// Law: a read of a RAM disk gives back what the last write there stored.
pub proof fn law_ram_read_after_write(disk: Seq<Block>, addr: int, buf: Seq<Block>)
    requires
        0 <= addr,
        addr + buf.len() <= disk.len(),
    ensures
        ram_read(ram_write(disk, addr, buf), addr, buf.len() as int) == buf,
        ram_write(disk, addr, buf).len() == disk.len(),
{
    assert(ram_read(ram_write(disk, addr, buf), addr, buf.len() as int) =~= buf);
}

/// Law: a write leaves every block outside the written run as it was.
pub proof fn law_ram_write_elsewhere(disk: Seq<Block>, addr: int, buf: Seq<Block>, i: int)
    requires
        0 <= addr,
        addr + buf.len() <= disk.len(),
        0 <= i < disk.len(),
        i < addr || i >= addr + buf.len(),
    ensures
        ram_write(disk, addr, buf)[i] == disk[i],
{
}

} // verus!
