//! The bitmap of physical frames: one bit per frame, set when in use.
use vstd::prelude::*;
use crate::boot::{MemoryDescriptor, MemoryMap, MemoryType, MEMORY_MAP_MAX_ENTRIES};
use super::{null_frame, FrameID, BYTE_PER_FRAME, FRAME_COUNT};

verus! {

/// Bytes in a UEFI page.
pub const UEFI_PAGE_SIZE: u64 = 4096;

/// Eight frames' bits.
#[derive(Clone, Copy)]
pub struct Bitmap(pub u8);

pub open spec fn byte_bit(b: u8, idx: u8) -> bool {
    (b >> idx) & 0x01 != 0
}

/// The byte with bit `idx` set to `bit`.
pub open spec fn with_bit(b: u8, idx: u8, bit: bool) -> u8 {
    if bit { b | (0x01u8 << idx) } else { b & !(0x01u8 << idx) }
}

/// Setting a bit of a bitmap byte sets that bit and leaves the others.
pub proof fn law_bitmap_set_then_get(b: u8, idx: u8, bit: bool, j: u8)
    requires
        idx < 8,
        j < 8,
    ensures
        byte_bit(with_bit(b, idx, bit), j) == if j == idx { bit } else { byte_bit(b, j) },
{
    assert(((b | (0x01u8 << idx)) >> j) & 0x01 != 0 == if j == idx { true } else { (b >> j) & 0x01 != 0 }
        && ((b & !(0x01u8 << idx)) >> j) & 0x01 != 0 == if j == idx { false } else { (b >> j) & 0x01 != 0 })
        by (bit_vector)
        requires
            idx < 8,
            j < 8,
    ;
}

impl Bitmap {
    pub fn new() -> (r: Self)
        ensures
            r.0 == 0,
    {
        Self(0)
    }

    /// Bits per bitmap byte.
    pub fn bits() -> (r: usize)
        ensures
            r == 8,
    {
        8
    }

    /// Bit `idx`; `Err` past bit 7.
    pub fn get(&self, idx: u8) -> (r: Result<bool, ()>)
        ensures
            idx >= 8 ==> r is Err,
            idx < 8 ==> r == Ok::<bool, ()>(byte_bit(self.0, idx)),
    {
        if idx >= 8 {
            Err(())
        } else {
            Ok((self.0 >> idx) & 0x01 != 0)
        }
    }

    /// Sets bit `idx` to `bit`; `Err` past bit 7.
    pub fn set(&mut self, idx: u8, bit: bool) -> (r: Result<(), ()>)
        ensures
            idx >= 8 ==> r is Err && final(self).0 == old(self).0,
            idx < 8 ==> r is Ok && final(self).0 == with_bit(old(self).0, idx, bit),
    {
        if idx >= 8 {
            Err(())
        } else {
            let value: u8 = 0x01u8 << idx;
            if bit {
                self.0 = self.0 | value;
            } else {
                self.0 = self.0 & !value;
            }
            Ok(())
        }
    }
}

/// Whether the boot services may be reclaimed: boot services code and
/// data, and conventional memory, are available.
pub fn is_available(descriptor: &MemoryDescriptor) -> (r: bool)
    ensures
        r == (descriptor.type_ == MemoryType::BootServicesCode
            || descriptor.type_ == MemoryType::BootServicesData
            || descriptor.type_ == MemoryType::ConventionalMemory),
{
    match descriptor.type_ {
        MemoryType::BootServicesCode | MemoryType::BootServicesData | MemoryType::ConventionalMemory => true,
        _ => false,
    }
}

/// Bytes of the bitmap.
pub const BITMAP_BYTES: usize = 4194304;

/// Where the scan of `allocate` ends: at a run of `size` frames starting at
/// `base`, past `end` without one, or beyond the end of the bitmap, where
/// the scan or the marking of a run cannot go on.
pub enum ScanOutcome {
    Found(u64),
    NotFound,
    OutOfBitmap,
}

/// The frame bitmap with the range that `allocate` searches.
pub struct FrameBitmapManager {
    pub bitmap: Vec<Bitmap>,
    pub range_begin: FrameID,
    pub range_end: FrameID,
}

/// The descriptors a walk of the memory map visits from index `i` on: up to
/// the first index that `get` refuses.
pub open spec fn entries_from(mm: MemoryMap, i: int) -> Seq<MemoryDescriptor>
    decreases MEMORY_MAP_MAX_ENTRIES - i,
{
    if i < 0 || i >= MEMORY_MAP_MAX_ENTRIES {
        Seq::empty()
    } else {
        match mm.spec_get(i) {
            Some(d) => seq![d] + entries_from(mm, i + 1),
            None => Seq::empty(),
        }
    }
}

/// One descriptor's step of `scan`: the end of the last available region
/// and the number of leading frames marked in use.
pub open spec fn scan_step(state: (int, int), d: MemoryDescriptor) -> (int, int) {
    let (avail_end, mark) = state;
    let start = d.physical_start as int;
    let m1 = if avail_end < start { if mark < avail_end / 4096 { avail_end / 4096 } else { mark } } else { mark };
    let end = start + d.number_of_pages * UEFI_PAGE_SIZE;
    if is_available_spec(d) {
        (end, m1)
    } else {
        (avail_end, if m1 < start / 4096 { start / 4096 } else { m1 })
    }
}

pub open spec fn is_available_spec(d: MemoryDescriptor) -> bool {
    d.type_ == MemoryType::BootServicesCode || d.type_ == MemoryType::BootServicesData
        || d.type_ == MemoryType::ConventionalMemory
}

/// The state after the first `n` descriptors.
pub open spec fn scan_fold(descs: Seq<MemoryDescriptor>, n: int) -> (int, int)
    decreases n,
{
    if n <= 0 { (0, 0) } else { scan_step(scan_fold(descs, n - 1), descs[n - 1]) }
}

/// Each step of `scan` stays within the bitmap and its arithmetic.
pub open spec fn scan_fits(descs: Seq<MemoryDescriptor>) -> bool {
    forall|n: int| 0 <= n < descs.len() ==> {
        let (avail_end, mark) = #[trigger] scan_fold(descs, n);
        let d = descs[n];
        &&& d.physical_start + d.number_of_pages * UEFI_PAGE_SIZE <= u64::MAX
        &&& (avail_end < d.physical_start ==> avail_end / 4096 <= FRAME_COUNT)
        &&& (!is_available_spec(d) ==> d.physical_start / 4096 <= FRAME_COUNT)
    }
}

impl FrameBitmapManager {
    pub closed spec fn wf(&self) -> bool {
        self.bitmap@.len() == BITMAP_BYTES
    }

    /// Bit of frame `f`: set when the frame is in use.
    pub closed spec fn bit(&self, f: int) -> bool {
        byte_bit(self.bitmap@[f / 8].0, (f % 8) as u8)
    }

    /// The bits of all frames.
    pub open spec fn bits(&self) -> Seq<bool> {
        Seq::new(FRAME_COUNT as nat, |f: int| self.bit(f))
    }

    /// The scan of `allocate` from `base` with `count` in-use frames counted.
    pub open spec fn scan_run(bits: Seq<bool>, base: int, count: int, end: int, size: int) -> ScanOutcome
        decreases FRAME_COUNT - (base + count),
    {
        if base > end {
            ScanOutcome::NotFound
        } else if count == size {
            if 0 <= base <= FRAME_COUNT { ScanOutcome::Found(base as u64) } else { ScanOutcome::OutOfBitmap }
        } else if base + count >= FRAME_COUNT || base < 0 || count < 0 {
            ScanOutcome::OutOfBitmap
        } else if !bits[base + count] {
            Self::scan_run(bits, base + count + 1, 0, end, size)
        } else {
            Self::scan_run(bits, base, count + 1, end, size)
        }
    }

    /// A bitmap with every frame free, and an empty search range.
    pub fn new() -> (r: Self)
        ensures
            r.wf(),
            forall|f: int| 0 <= f < FRAME_COUNT ==> !#[trigger] r.bits()[f],
            r.range_begin.0 == 0,
            r.range_end.0 == u64::MAX,
    {
        let mut bitmap: Vec<Bitmap> = Vec::new();
        while bitmap.len() < BITMAP_BYTES
            invariant
                bitmap@.len() <= BITMAP_BYTES,
                forall|i: int| 0 <= i < bitmap@.len() ==> (#[trigger] bitmap@[i]).0 == 0,
            decreases BITMAP_BYTES - bitmap@.len(),
        {
            bitmap.push(Bitmap::new());
        }
        let r = Self { bitmap, range_begin: FrameID(0), range_end: null_frame() };
        proof {
            assert forall|f: int| 0 <= f < FRAME_COUNT implies !#[trigger] r.bits()[f] by {
                assert(r.bitmap@[f / 8].0 == 0);
                let j = (f % 8) as u8;
                assert((0u8 >> j) & 0x01 == 0) by (bit_vector);
            }
        }
        r
    }

    /// Sets the bit of `frame`.
    fn set_bitmap(&mut self, frame: FrameID, bit: bool) -> (r: Result<(), ()>)
        requires
            old(self).wf(),
            frame.0 < FRAME_COUNT,
        ensures
            final(self).wf(),
            r is Ok,
            final(self).bits() == old(self).bits().update(frame.0 as int, bit),
            final(self).range_begin == old(self).range_begin,
            final(self).range_end == old(self).range_end,
    {
        let bitmap_idx = frame.id() as usize / Bitmap::bits();
        let bit_idx = frame.id() as usize % Bitmap::bits();
        let mut b = self.bitmap[bitmap_idx];
        let r = b.set(bit_idx as u8, bit);
        self.bitmap.set(bitmap_idx, b);
        proof {
            let f0 = frame.0 as int;
            assert forall|f: int| 0 <= f < FRAME_COUNT implies #[trigger] self.bits()[f] == old(self).bits().update(f0, bit)[f] by {
                if f / 8 == f0 / 8 {
                    law_bitmap_set_then_get(old(self).bitmap@[f0 / 8].0, (f0 % 8) as u8, bit, (f % 8) as u8);
                }
            }
            assert(self.bits() =~= old(self).bits().update(f0, bit));
        }
        r
    }

    /// The bit of `frame`.
    fn get_bitmap(&self, frame: FrameID) -> (r: Result<bool, ()>)
        requires
            self.wf(),
            frame.0 < FRAME_COUNT,
        ensures
            r == Ok::<bool, ()>(self.bits()[frame.0 as int]),
    {
        let bitmap_idx = frame.id() as usize / Bitmap::bits();
        let bit_idx = frame.id() as usize % Bitmap::bits();
        self.bitmap[bitmap_idx].get(bit_idx as u8)
    }

    /// Walks the memory map: every hole before a descriptor, and every
    /// descriptor that is not available, marks the frames below its start in
    /// use; the search range becomes frame 1 to the end of the last
    /// available region.
    pub fn scan(&mut self, memory_map: &MemoryMap)
        requires
            old(self).wf(),
            memory_map.wf(),
            scan_fits(entries_from(*memory_map, 0)),
        ensures
            final(self).wf(),
            ({
                let descs = entries_from(*memory_map, 0);
                let (avail_end, mark) = scan_fold(descs, descs.len() as int);
                &&& final(self).bits() == Seq::new(FRAME_COUNT as nat, |f: int| if f < mark { true } else { old(self).bits()[f] })
                &&& final(self).range_begin == FrameID(1)
                &&& final(self).range_end == FrameID((avail_end / 4096) as u64)
            }),
    {
        let ghost descs = entries_from(*memory_map, 0);
        let mut avail_end: u64 = 0;
        let mut entries = memory_map.entries();
        let mut n: usize = 0;
        let ghost mut mark: int = 0;
        proof {
            lemma_entries_from_len(*memory_map, 0);
        }
        loop
            invariant
                self.wf(),
                memory_map.wf(),
                entries.memory_map == memory_map,
                entries.index == n,
                descs == entries_from(*memory_map, 0),
                scan_fits(descs),
                n <= descs.len(),
                descs.len() <= MEMORY_MAP_MAX_ENTRIES,
                entries_from(*memory_map, n as int) == descs.subrange(n as int, descs.len() as int),
                scan_fold(descs, n as int) == (avail_end as int, mark),
                0 <= mark <= FRAME_COUNT,
                self.bits() == Seq::new(FRAME_COUNT as nat, |f: int| if f < mark { true } else { old(self).bits()[f] }),
            ensures
                n == descs.len(),
                self.wf(),
                scan_fold(descs, n as int) == (avail_end as int, mark),
                self.bits() == Seq::new(FRAME_COUNT as nat, |f: int| if f < mark { true } else { old(self).bits()[f] }),
            decreases MEMORY_MAP_MAX_ENTRIES - n,
        {
            let next = entries.next();
            let desc = match next {
                Some(d) => d,
                None => {
                    proof {
                        assert(entries_from(*memory_map, n as int).len() == 0);
                        assert(descs.subrange(n as int, descs.len() as int).len() == 0);
                    }
                    break;
                },
            };
            proof {
                assert(entries_from(*memory_map, n as int) == seq![desc] + entries_from(*memory_map, n + 1));
                assert(descs.subrange(n as int, descs.len() as int)[0] == descs[n as int]);
                assert(desc == descs[n as int]);
                let e = entries_from(*memory_map, n as int);
                assert(e.subrange(1, e.len() as int) =~= entries_from(*memory_map, n + 1));
                assert(descs.subrange(n as int, descs.len() as int).subrange(1, e.len() as int)
                    =~= descs.subrange(n + 1, descs.len() as int));
                assert(scan_fold(descs, n + 1) == scan_step(scan_fold(descs, n as int), desc));
            }
            let ghost m0 = mark;
            if avail_end < desc.physical_start {
                self.mark_alloc(FrameID(avail_end / BYTE_PER_FRAME), ((desc.physical_start - avail_end) / BYTE_PER_FRAME) as usize);
                proof {
                    if mark < avail_end / 4096 {
                        mark = (avail_end / 4096) as int;
                    }
                    assert(self.bits() =~= Seq::new(FRAME_COUNT as nat, |f: int| if f < mark { true } else { old(self).bits()[f] }));
                }
            }
            let physical_end = desc.physical_start + desc.number_of_pages * UEFI_PAGE_SIZE;
            if is_available(&desc) {
                avail_end = physical_end;
            } else {
                self.mark_alloc(FrameID(desc.physical_start / BYTE_PER_FRAME),
                    ((desc.number_of_pages * BYTE_PER_FRAME) / UEFI_PAGE_SIZE) as usize);
                proof {
                    if mark < desc.physical_start / 4096 {
                        mark = (desc.physical_start / 4096) as int;
                    }
                    assert(self.bits() =~= Seq::new(FRAME_COUNT as nat, |f: int| if f < mark { true } else { old(self).bits()[f] }));
                }
            }
            n = n + 1;
        }
        self.set_range(FrameID(1), FrameID(avail_end / BYTE_PER_FRAME));
    }

    /// Marks frames `0` to `begin` (not included) in use; `size` is unused.
    pub fn mark_alloc(&mut self, begin: FrameID, size: usize)
        requires
            old(self).wf(),
            begin.0 <= FRAME_COUNT,
        ensures
            final(self).wf(),
            final(self).range_begin == old(self).range_begin,
            final(self).range_end == old(self).range_end,
            final(self).bits() == Seq::new(FRAME_COUNT as nat, |f: int| if f < begin.0 { true } else { old(self).bits()[f] }),
    {
        let mut frame: u64 = 0;
        while frame < begin.id()
            invariant
                self.wf(),
                frame <= begin.0,
                begin.0 <= FRAME_COUNT,
                self.range_begin == old(self).range_begin,
                self.range_end == old(self).range_end,
                self.bits() == Seq::new(FRAME_COUNT as nat, |f: int| if f < frame { true } else { old(self).bits()[f] }),
            decreases begin.0 - frame,
        {
            self.set_bitmap(FrameID(frame), true).unwrap();
            frame = frame + 1;
            proof {
                assert(self.bits() =~= Seq::new(FRAME_COUNT as nat, |f: int| if f < frame { true } else { old(self).bits()[f] }));
            }
        }
    }

    pub fn set_range(&mut self, begin: FrameID, end: FrameID)
        ensures
            final(self).range_begin == begin,
            final(self).range_end == end,
            final(self).bits() == old(self).bits(),
            final(self).wf() == old(self).wf(),
    {
        self.range_begin = begin;
        self.range_end = end;
    }

    /// Scans the range for a run of `size` frames: from the range start, the
    /// run grows over frames whose bit is set and starts over after the
    /// first clear one. On a run it marks frames `0` to its start in use and
    /// returns its start; past the range end it fails.
    pub fn allocate(&mut self, size: usize) -> (r: Result<FrameID, ()>)
        requires
            old(self).wf(),
            !(Self::scan_run(old(self).bits(), old(self).range_begin.0 as int, 0, old(self).range_end.0 as int, size as int)
                is OutOfBitmap),
        ensures
            final(self).wf(),
            final(self).range_begin == old(self).range_begin,
            final(self).range_end == old(self).range_end,
            Self::scan_run(old(self).bits(), old(self).range_begin.0 as int, 0, old(self).range_end.0 as int, size as int)
                is NotFound ==> r is Err && final(self).bits() == old(self).bits(),
            Self::scan_run(old(self).bits(), old(self).range_begin.0 as int, 0, old(self).range_end.0 as int, size as int)
                matches ScanOutcome::Found(b) ==> r == Ok::<FrameID, ()>(FrameID(b))
                && final(self).bits() == Seq::new(FRAME_COUNT as nat, |f: int| if f < b { true } else { old(self).bits()[f] }),
    {
        let ghost bits = self.bits();
        let ghost end = self.range_end.0 as int;
        let ghost outcome = Self::scan_run(bits, self.range_begin.0 as int, 0, end, size as int);
        let mut count: u64 = 0;
        let mut base = self.range_begin.id();
        while base <= self.range_end.id()
            invariant
                self.wf(),
                self.bits() == bits,
                self.range_begin == old(self).range_begin,
                self.range_end == old(self).range_end,
                end == self.range_end.0,
                Self::scan_run(bits, base as int, count as int, end, size as int) == outcome,
                bits == old(self).bits(),
                outcome == Self::scan_run(old(self).bits(), old(self).range_begin.0 as int, 0, old(self).range_end.0 as int, size as int),
                !(outcome is OutOfBitmap),
            decreases FRAME_COUNT - (base + count),
        {
            if count == size as u64 {
                let frame = FrameID(base);
                proof {
                    assert(Self::scan_run(bits, base as int, count as int, end, size as int) == ScanOutcome::Found(base));
                }
                self.mark_alloc(frame, size);
                return Ok(frame);
            }
            proof {
                assert(base + count < FRAME_COUNT);
            }
            if !self.get_bitmap(FrameID(base + count))? {
                base = base + count + 1;
                count = 0;
            } else {
                count = count + 1;
            }
        }
        Err(())
    }

    /// Marks frames `begin` to `begin + size` (not included) free.
    pub fn free(&mut self, begin: FrameID, size: usize) -> (r: Result<(), ()>)
        requires
            old(self).wf(),
            begin.0 + size <= FRAME_COUNT,
        ensures
            final(self).wf(),
            r is Ok,
            final(self).range_begin == old(self).range_begin,
            final(self).range_end == old(self).range_end,
            final(self).bits() == Seq::new(FRAME_COUNT as nat,
                |f: int| if begin.0 <= f < begin.0 + size { false } else { old(self).bits()[f] }),
    {
        let mut frame = begin.id();
        let end = begin.id() + size as u64;
        while frame < end
            invariant
                self.wf(),
                begin.0 <= frame <= end,
                end == begin.0 + size,
                end <= FRAME_COUNT,
                self.range_begin == old(self).range_begin,
                self.range_end == old(self).range_end,
                self.bits() == Seq::new(FRAME_COUNT as nat,
                    |f: int| if begin.0 <= f < frame { false } else { old(self).bits()[f] }),
            decreases end - frame,
        {
            let _ = self.set_bitmap(FrameID(frame), false);
            frame = frame + 1;
            proof {
                assert(self.bits() =~= Seq::new(FRAME_COUNT as nat,
                    |f: int| if begin.0 <= f < frame { false } else { old(self).bits()[f] }));
            }
        }
        Ok(())
    }
}

proof fn lemma_entries_from_len(mm: MemoryMap, i: int)
    requires
        0 <= i <= MEMORY_MAP_MAX_ENTRIES,
    ensures
        entries_from(mm, i).len() <= MEMORY_MAP_MAX_ENTRIES - i,
    decreases MEMORY_MAP_MAX_ENTRIES - i,
{
    if i < MEMORY_MAP_MAX_ENTRIES {
        lemma_entries_from_len(mm, i + 1);
    }
}

} // verus!
