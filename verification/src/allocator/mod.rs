//! Physical memory management: the frame bitmap, a bump allocator, and the
//! slab allocator of the kernel heap.
use vstd::prelude::*;

pub mod dump;
pub mod frame;
pub mod slab;

verus! {

pub const KIB: u64 = 1024;
pub const MIB: u64 = 1024 * 1024;
pub const GIB: u64 = 1024 * 1024 * 1024;

/// Bytes in a physical frame.
pub const BYTE_PER_FRAME: u64 = 4096;

/// Frames the bitmap covers: 128 GiB worth.
pub const FRAME_COUNT: u64 = 33554432;

/// Frames reserved for the kernel heap.
pub const HEAP_FRAME_COUNT: usize = 32768;

/// A physical frame number.
#[derive(Clone, Copy, Debug, PartialEq, Eq, Structural)]
pub struct FrameID(pub u64);

impl FrameID {
    pub fn new(id: u64) -> (r: Self)
        ensures
            r.0 == id,
    {
        Self(id)
    }

    pub fn id(&self) -> (r: u64)
        ensures
            r == self.0,
    {
        self.0
    }

    /// The physical address of the frame.
    pub fn frame(&self) -> (r: u64)
        requires
            self.0 * BYTE_PER_FRAME <= u64::MAX,
        ensures
            r == self.0 * BYTE_PER_FRAME,
    {
        self.0 * BYTE_PER_FRAME
    }
}

/// The frame number that stands for no frame.
pub fn null_frame() -> (r: FrameID)
    ensures
        r.0 == u64::MAX,
{
    FrameID(u64::MAX)
}

/// `base` moved up to the next multiple of `align` beyond it: a base that is
/// already aligned moves a whole `align` on. An `align` of 0 leaves it.
pub open spec fn spec_align(base: u64, align: u64) -> int {
    if align == 0 { base as int } else { base + (align - base % align) }
}

pub fn align(base: u64, alignment: u64) -> (r: u64)
    requires
        spec_align(base, alignment) <= u64::MAX,
    ensures
        r == spec_align(base, alignment),
{
    if alignment == 0 {
        base
    } else {
        let align_offset = base % alignment;
        let align_offset = alignment - align_offset;
        base + align_offset
    }
}

/// A memory allocator handing out address ranges.
pub trait Allocator {
    /// The allocator's own invariant.
    spec fn valid(&self) -> bool;

    /// The allocator can serve a request of this size and alignment without
    /// its address arithmetic overflowing.
    spec fn fits(&self, size: usize, align: usize) -> bool;

    fn allocate(&mut self, size: usize, align: usize) -> (r: Result<usize, ()>)
        requires
            old(self).valid(),
            old(self).fits(size, align),
        ensures
            final(self).valid(),
    ;

    fn free(&mut self, ptr: usize, size: usize, align: usize)
        requires
            old(self).valid(),
        ensures
            final(self).valid(),
    ;
}


/// Aligning moves an address strictly up to a multiple of the alignment, at
/// most one alignment away: an address already aligned moves a whole
/// alignment.
pub proof fn law_align_next_multiple(base: u64, alignment: u64)
    requires
        alignment > 0,
    ensures
        spec_align(base, alignment) % alignment as int == 0,
        base < spec_align(base, alignment) <= base + alignment,
{
    let a = alignment as int;
    let b = base as int;
    assert((b + (a - b % a)) % a == 0) by (nonlinear_arith)
        requires
            a > 0,
            b >= 0,
    {
        assert(b == a * (b / a) + b % a);
        assert(b + (a - b % a) == a * (b / a + 1));
    }
}

} // verus!
