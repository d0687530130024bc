//! A bump allocator that never frees.
use vstd::prelude::*;
use super::{spec_align, Allocator};

verus! {

/// Hands out the region `[ptr, end_ptr)` front to back.
pub struct DumpAllocator {
    pub ptr: u64,
    pub end_ptr: u64,
}

impl DumpAllocator {
    pub fn new(start_addr: usize, heap_size: usize) -> (r: Self)
        requires
            start_addr + heap_size <= usize::MAX,
        ensures
            r.ptr == start_addr,
            r.end_ptr == start_addr + heap_size,
    {
        Self { ptr: start_addr as u64, end_ptr: (start_addr + heap_size) as u64 }
    }
}

/// The start and end of the block a request would take.
pub open spec fn dump_block(ptr: u64, size: usize, align: usize) -> (int, int) {
    let base = spec_align(ptr, align as u64);
    (base, spec_align((base + size) as u64, align as u64))
}

impl Allocator for DumpAllocator {
    open spec fn valid(&self) -> bool {
        true
    }

    open spec fn fits(&self, size: usize, align: usize) -> bool {
        let (base, end) = dump_block(self.ptr, size, align);
        base + size <= u64::MAX && end <= u64::MAX && base <= usize::MAX
    }

    /// Aligns the current pointer, takes `size` bytes, aligns the end; `Err`
    /// when the end reaches the end of the region.
    fn allocate(&mut self, size: usize, align: usize) -> (r: Result<usize, ()>)
        ensures
            ({
                let (base, end) = dump_block(old(self).ptr, size, align);
                &&& end >= old(self).end_ptr ==> r is Err && *final(self) == *old(self)
                &&& end < old(self).end_ptr ==> r == Ok::<usize, ()>(base as usize)
                    && *final(self) == (DumpAllocator { ptr: end as u64, ..*old(self) })
            }),
    {
        let aligned_base = super::align(self.ptr, align as u64);
        let aligned_end = super::align(aligned_base + size as u64, align as u64);
        if aligned_end >= self.end_ptr {
            Err(())
        } else {
            self.ptr = aligned_end;
            Ok(aligned_base as usize)
        }
    }

    /// Memory is never given back.
    fn free(&mut self, ptr: usize, size: usize, align: usize)
        ensures
            *final(self) == *old(self),
    {
    }
}

} // verus!
