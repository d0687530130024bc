//! The interrupt stacks of the task state segments: the kernel stack is cut
//! into sixteen parts, one per processor.
use vstd::prelude::*;

verus! {

/// Task state segments, one per processor.
pub const TSS_COUNT: usize = 16;

/// The interrupt stack top of task state segment `i`: `i` sixteenths of the
/// stack below its end.
pub open spec fn stack_top(stack_start: u64, stack_size: u64, i: int) -> int {
    stack_start + stack_size - (stack_size / 16) * i
}

/// The interrupt stack tops of the sixteen task state segments.
pub fn interrupt_stack_tops(stack_start: u64, stack_size: u64) -> (r: Vec<u64>)
    requires
        stack_start + stack_size <= u64::MAX,
    ensures
        r@.len() == TSS_COUNT,
        forall|i: int| 0 <= i < TSS_COUNT ==> r@[i] == stack_top(stack_start, stack_size, i),
{
    let part_stack_size = stack_size / 16;
    let mut tops: Vec<u64> = Vec::new();
    let mut i: u64 = 0;
    while i < 16
        invariant
            i <= 16,
            part_stack_size == stack_size / 16,
            stack_start + stack_size <= u64::MAX,
            tops@.len() == i,
            forall|k: int| 0 <= k < i ==> tops@[k] == stack_top(stack_start, stack_size, k),
        decreases 16 - i,
    {
        proof {
            assert(part_stack_size * i <= stack_size) by (nonlinear_arith)
                requires
                    part_stack_size == stack_size / 16,
                    i < 16,
            ;
        }
        tops.push(stack_start + stack_size - part_stack_size * i);
        i = i + 1;
    }
    tops
}

/// The stack the kernel was given, as it was recorded.
#[derive(Clone, Copy, PartialEq, Eq, Structural)]
pub struct StackFrame {
    pub stack_start: u64,
    pub stack_size: u64,
}

impl StackFrame {
    /// The start and size.
    pub fn stack_frame(&self) -> (r: (u64, u64))
        ensures
            r == (self.stack_start, self.stack_size),
    {
        (self.stack_start, self.stack_size)
    }
}

} // verus!
