//! The memory the controller's rings and contexts are carved from: a bump
//! allocator over a fixed pool of addresses, and the event ring set up in it.
use vstd::prelude::*;
use super::ring::{EventRing, EventRingSegmentTableEntry, TRB_SIZE};

verus! {

/// Bytes in the pool the controller's structures are taken from.
pub const MEMORY_POOL_SIZE: u64 = 131072;

/// `addr` moved up to the next multiple of `align`; unchanged for an
/// alignment of 0.
pub open spec fn align_up(addr: int, align: int) -> int {
    if align > 0 { addr + (align - addr % align) % align } else { addr }
}

/// An alignment the pool takes: 0 (none) or a power of two.
pub open spec fn alignment_ok(align: u64) -> bool {
    align == 0 || align & ((align - 1) as u64) == 0
}

/// Hands out addresses from `current_addr` up to `end_addr`; nothing is
/// given back.
pub struct XhcAllocator {
    pub current_addr: u64,
    pub end_addr: u64,
}

/// Where an allocation of `size` bytes starts: at the next multiple of
/// `align`, moved on to the next multiple of `boundary` when it would cross
/// one.
pub open spec fn alloc_start(current: int, size: int, align: int, boundary: int) -> int {
    let a = align_up(current, align);
    let b = align_up(a, boundary);
    if boundary > 0 && b < a + size { b } else { a }
}

impl XhcAllocator {
    /// A pool of `MEMORY_POOL_SIZE` bytes from `buff_addr`.
    pub fn new_with_addr(buff_addr: u64) -> (r: Self)
        requires
            buff_addr + MEMORY_POOL_SIZE <= u64::MAX,
        ensures
            r.current_addr == buff_addr,
            r.end_addr == buff_addr + MEMORY_POOL_SIZE,
    {
        Self { current_addr: buff_addr, end_addr: buff_addr + MEMORY_POOL_SIZE }
    }

    /// Takes `size` bytes at `alloc_start`; `None` when they would pass the
    /// end of the pool. The position moves to that start even then, and past
    /// the bytes taken otherwise.
    pub fn allocate(&mut self, size: u64, align: u64, boundary: u64) -> (r: Option<u64>)
        requires
            alignment_ok(align),
            alignment_ok(boundary),
            old(self).current_addr + align + boundary + size <= u64::MAX,
        ensures
            ({
                let start = alloc_start(old(self).current_addr as int, size as int, align as int, boundary as int);
                &&& final(self).end_addr == old(self).end_addr
                &&& old(self).end_addr < start + size ==> r is None && final(self).current_addr == start
                &&& start + size <= old(self).end_addr ==> r == Some(start as u64) && final(self).current_addr == start + size
            }),
    {
        let mut cur = self.current_addr;
        if align > 0 {
            cur = cur + (align - cur % align) % align;
        }
        if boundary > 0 {
            let next_boundary = cur + (boundary - cur % boundary) % boundary;
            if next_boundary < cur + size {
                cur = next_boundary;
            }
        }
        if self.end_addr < cur + size {
            self.current_addr = cur;
            None
        } else {
            self.current_addr = cur + size;
            Some(cur)
        }
    }
}

/// A step of the event ring's set-up: a write to a register of the
/// controller's first interrupter, or the store of the segment table entry.
#[derive(Clone, Copy, PartialEq, Eq, Structural)]
pub enum InterrupterWrite {
    SegmentTableSize(u16),
    DequeuePointer(u64),
    StoreSegmentTableEntry,
    SegmentTablePointer(u64),
    InterrupterEnable(bool),
}

/// What setting up the event ring leaves to be done: the steps, in order,
/// of which one stores `entry` at `table_addr`.
pub struct EventRingSetup {
    pub table_addr: u64,
    pub entry: EventRingSegmentTableEntry,
    pub writes: Vec<InterrupterWrite>,
}

/// Sets up an event ring of one segment: the segment table and the segment
/// are taken from the pool, 64-byte aligned within a 4096-byte page; `Err`
/// when either does not fit. The table's entry names the segment; the
/// steps write the table size and the dequeue pointer (the segment), store
/// the entry, then write the table's address and the interrupter's enable
/// bit; the ring starts at the segment.
pub fn make_event_ring(alloc: &mut XhcAllocator, table_size: u16, segment_size: usize) -> (r: Result<(EventRing, EventRingSetup), ()>)
    requires
        segment_size >= 1,
        old(alloc).current_addr + 2 * (64 + 4096) + TRB_SIZE * (table_size + segment_size + 1) <= u64::MAX,
    ensures
        ({
            let a0 = old(alloc).current_addr as int;
            let t = alloc_start(a0, TRB_SIZE * table_size, 64, 4096);
            let t_ok = t + TRB_SIZE * table_size <= old(alloc).end_addr;
            let s = alloc_start(t + TRB_SIZE * table_size, TRB_SIZE * segment_size, 64, 4096);
            let s_ok = s + TRB_SIZE * segment_size <= old(alloc).end_addr;
            &&& r is Ok <==> t_ok && s_ok
            &&& r matches Ok((ring, setup)) ==> {
                &&& setup.table_addr == t
                &&& setup.entry.ring_segment_base_address == s - s % 64
                &&& setup.entry.ring_segment_size == segment_size % 65536
                &&& setup.writes@ == seq![
                    InterrupterWrite::SegmentTableSize(table_size),
                    InterrupterWrite::DequeuePointer(s as u64),
                    InterrupterWrite::StoreSegmentTableEntry,
                    InterrupterWrite::SegmentTablePointer(t as u64),
                    InterrupterWrite::InterrupterEnable(true)]
                &&& ring.wf()
                &&& ring.segment_base_addr == s
                &&& ring.transfer_ring == super::ring::TransferRing::new_spec(s as u64, segment_size, true)
                &&& final(alloc).current_addr == s + TRB_SIZE * segment_size
            }
        }),
{
    proof {
        assert(64u64 & 63u64 == 0) by (bit_vector);
        assert(4096u64 & 4095u64 == 0) by (bit_vector);
    }
    let table_bytes = TRB_SIZE * table_size as u64;
    let table_addr = match alloc.allocate(table_bytes, 64, 4096) {
        Some(a) => a,
        None => return Err(()),
    };
    let segment_bytes = TRB_SIZE * segment_size as u64;
    let segment_addr = match alloc.allocate(segment_bytes, 64, 4096) {
        Some(a) => a,
        None => return Err(()),
    };
    let entry = EventRingSegmentTableEntry::new(segment_addr, segment_size);
    let writes = vec![
        InterrupterWrite::SegmentTableSize(table_size),
        InterrupterWrite::DequeuePointer(segment_addr),
        InterrupterWrite::StoreSegmentTableEntry,
        InterrupterWrite::SegmentTablePointer(table_addr),
        InterrupterWrite::InterrupterEnable(true),
    ];
    let ring = EventRing::new(segment_addr, segment_size, segment_addr);
    Ok((ring, EventRingSetup { table_addr, entry, writes }))
}

} // verus!
