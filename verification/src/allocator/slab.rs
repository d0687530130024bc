//! The slab allocator: seven free lists of fixed-size blocks, with the bump
//! allocator behind them for larger requests.
use vstd::prelude::*;
use super::dump::{dump_block, DumpAllocator};
use super::Allocator;

verus! {

/// Number of regions the heap is cut into.
pub const NUM_OF_SLAB: usize = 8;

/// A free block of a slab, by its address.
#[derive(Clone, Copy, PartialEq, Eq, Structural)]
pub struct Block {
    pub address: usize,
}

impl Block {
    pub fn addr(&self) -> (r: usize)
        ensures
            r == self.address,
    {
        self.address
    }
}

/// A stack of free blocks; the head is the last element.
pub struct BlockList {
    pub blocks: Vec<Block>,
}

/// The addresses of `n` blocks of `block_size` bytes from `start`, in the
/// order a fresh list hands them out.
pub open spec fn fresh_blocks(start: int, block_size: int, n: int) -> Seq<usize> {
    Seq::new(n as nat, |i: int| (start + (n - 1 - i) * block_size) as usize)
}

impl BlockList {
    /// The addresses, from the bottom of the stack to its head.
    pub open spec fn view(&self) -> Seq<usize> {
        self.blocks@.map_values(|b: Block| b.address)
    }

    /// A list of `num_of_block` blocks of `block_size` bytes from
    /// `start_addr`; the first block is at the head.
    pub fn new(start_addr: usize, block_size: usize, num_of_block: usize) -> (r: Self)
        requires
            start_addr + num_of_block * block_size <= usize::MAX,
        ensures
            r@ == fresh_blocks(start_addr as int, block_size as int, num_of_block as int),
    {
        let mut list = Self::empty();
        let mut k: usize = num_of_block;
        while k > 0
            invariant
                k <= num_of_block,
                start_addr + num_of_block * block_size <= usize::MAX,
                list@ == Seq::new((num_of_block - k) as nat, |i: int| (start_addr + (num_of_block - 1 - i) * block_size) as usize),
            decreases k,
        {
            let block_idx = k - 1;
            proof {
                assert(block_idx * block_size <= num_of_block * block_size) by (nonlinear_arith)
                    requires
                        block_idx < num_of_block,
                ;
            }
            list.push(Block { address: start_addr + block_idx * block_size });
            k = k - 1;
            proof {
                assert(list@ =~= Seq::new((num_of_block - k) as nat, |i: int| (start_addr + (num_of_block - 1 - i) * block_size) as usize));
            }
        }
        proof {
            assert(list@ =~= fresh_blocks(start_addr as int, block_size as int, num_of_block as int));
        }
        list
    }

    pub fn empty() -> (r: Self)
        ensures
            r@ == Seq::<usize>::empty(),
    {
        let r = Self { blocks: Vec::new() };
        proof {
            assert(r@ =~= Seq::<usize>::empty());
        }
        r
    }

    pub fn push(&mut self, block: Block)
        ensures
            final(self)@ == old(self)@.push(block.address),
    {
        self.blocks.push(block);
        proof {
            assert(self@ =~= old(self)@.push(block.address));
        }
    }

    pub fn pop(&mut self) -> (r: Option<Block>)
        ensures
            old(self)@.len() == 0 ==> r is None && final(self)@ == old(self)@,
            old(self)@.len() > 0 ==> (r matches Some(b) && b.address == old(self)@.last())
                && final(self)@ == old(self)@.drop_last(),
    {
        let r = self.blocks.pop();
        proof {
            assert(self@ =~= old(self)@.subrange(0, self.blocks@.len() as int));
        }
        r
    }

    pub fn len(&self) -> (r: usize)
        ensures
            r == self@.len(),
    {
        self.blocks.len()
    }

    pub fn is_empty(&self) -> (r: bool)
        ensures
            r == (self@.len() == 0),
    {
        self.blocks.len() == 0
    }
}

/// Blocks of one size.
pub struct Slab {
    pub block_size: usize,
    pub free_block: BlockList,
}

impl Slab {
    /// A slab cut out of `slab_size` bytes at `start_addr`.
    pub fn new(start_addr: usize, slab_size: usize, block_size: usize) -> (r: Self)
        requires
            block_size > 0,
            start_addr + slab_size <= usize::MAX,
        ensures
            r.block_size == block_size,
            r.free_block@ == fresh_blocks(start_addr as int, block_size as int, slab_size as int / block_size as int),
    {
        let num_of_block = slab_size / block_size;
        proof {
            assert(num_of_block * block_size <= slab_size) by (nonlinear_arith)
                requires
                    num_of_block == slab_size / block_size,
                    block_size > 0,
            ;
        }
        Self { block_size, free_block: BlockList::new(start_addr, block_size, num_of_block) }
    }

    pub fn block_size(&self) -> (r: usize)
        ensures
            r == self.block_size,
    {
        self.block_size
    }

    /// Adds the blocks of `slab_size` bytes at `start_addr`; the last of them
    /// ends up at the head.
    pub fn grow(&mut self, start_addr: usize, slab_size: usize)
        requires
            old(self).block_size > 0,
            start_addr + slab_size <= usize::MAX,
        ensures
            final(self).block_size == old(self).block_size,
            final(self).free_block@ == old(self).free_block@
                + fresh_blocks(start_addr as int, old(self).block_size as int, slab_size as int / old(self).block_size as int).reverse(),
    {
        let num_of_block = slab_size / self.block_size;
        proof {
            assert(num_of_block * self.block_size <= slab_size) by (nonlinear_arith)
                requires
                    num_of_block == slab_size / self.block_size,
                    self.block_size > 0,
            ;
        }
        let mut new_list = BlockList::new(start_addr, self.block_size, num_of_block);
        let ghost fresh = new_list@;
        let ghost base = self.free_block@;
        while !new_list.is_empty()
            invariant
                self.block_size == old(self).block_size,
                fresh.len() == num_of_block,
                new_list@.len() <= fresh.len(),
                new_list@ == fresh.subrange(0, new_list@.len() as int),
                self.free_block@ == base + fresh.subrange(new_list@.len() as int, fresh.len() as int).reverse(),
            decreases new_list@.len(),
        {
            let ghost prev = new_list@;
            let ghost before = new_list@.len();
            let block = new_list.pop().unwrap();
            self.free_block.push(block);
            proof {
                assert(block.address == fresh[before - 1]);
                assert(new_list@ =~= fresh.subrange(0, new_list@.len() as int));
                assert(fresh.subrange(new_list@.len() as int, fresh.len() as int).reverse()
                    =~= fresh.subrange(before as int, fresh.len() as int).reverse().push(block.address));
            }
        }
        proof {
            assert(fresh.subrange(0, fresh.len() as int) =~= fresh);
        }
    }

    /// The head block's address; `Err` when the slab is exhausted.
    pub fn allocate(&mut self, size: usize, align: usize) -> (r: Result<usize, ()>)
        ensures
            final(self).block_size == old(self).block_size,
            old(self).free_block@.len() == 0 ==> r is Err && final(self).free_block@ == old(self).free_block@,
            old(self).free_block@.len() > 0 ==> r == Ok::<usize, ()>(old(self).free_block@.last())
                && final(self).free_block@ == old(self).free_block@.drop_last(),
    {
        match self.free_block.pop() {
            Some(block) => Ok(block.addr()),
            None => Err(()),
        }
    }

    /// Puts the block at `ptr` back at the head.
    pub fn free(&mut self, ptr: usize)
        ensures
            final(self).block_size == old(self).block_size,
            final(self).free_block@ == old(self).free_block@.push(ptr),
    {
        self.free_block.push(Block { address: ptr });
    }
}

/// Block sizes of the seven slabs.
pub open spec fn slab_block_size(i: int) -> int {
    if i == 0 { 64 } else if i == 1 { 128 } else if i == 2 { 256 } else if i == 3 { 512 }
    else if i == 4 { 1024 } else if i == 5 { 2048 } else { 4096 }
}

/// Region of the heap each slab starts from: region 2 is left unused.
pub open spec fn slab_region(i: int) -> int {
    if i < 2 { i } else { i + 1 }
}

/// The first slab whose blocks hold `size` bytes at `align`.
pub open spec fn slab_for(sizes: Seq<usize>, size: usize, align: usize) -> Option<int>
    decreases sizes.len(),
{
    if sizes.len() == 0 {
        None
    } else {
        match slab_for(sizes.drop_last(), size, align) {
            Some(i) => Some(i),
            None => if size <= sizes.last() && align <= sizes.last() { Some(sizes.len() - 1) } else { None },
        }
    }
}

/// The kernel heap: seven slabs and a bump allocator for the rest.
pub struct SlabAllocator {
    pub slab: Vec<Slab>,
    pub fallback: DumpAllocator,
}

impl SlabAllocator {
    pub open spec fn wf(&self) -> bool {
        &&& self.slab@.len() == NUM_OF_SLAB - 1
        &&& forall|i: int| 0 <= i < NUM_OF_SLAB - 1 ==> (#[trigger] self.slab@[i]).block_size > 0
    }

    /// Each slab as its block size and its free list.
    pub open spec fn slabs(&self) -> Seq<(usize, Seq<usize>)> {
        self.slab@.map_values(|s: Slab| (s.block_size, s.free_block@))
    }

    pub open spec fn block_sizes(&self) -> Seq<usize> {
        self.slab@.map_values(|s: Slab| s.block_size)
    }

    /// Cuts `heap_size` bytes at `start_addr` into eight regions: slabs of
    /// 64 to 4096-byte blocks in regions 0, 1 and 3 to 7, and the bump
    /// allocator in the region past them.
    pub fn new(start_addr: usize, heap_size: usize) -> (r: Self)
        requires
            start_addr + heap_size + heap_size / 8 <= usize::MAX,
        ensures
            r.wf(),
            r.slabs().len() == NUM_OF_SLAB - 1,
            forall|i: int| 0 <= i < NUM_OF_SLAB - 1 ==> #[trigger] r.slabs()[i] == (
                slab_block_size(i) as usize,
                fresh_blocks(start_addr + slab_region(i) * (heap_size as int / 8),
                    slab_block_size(i), (heap_size as int / 8) / slab_block_size(i)),
            ),
            r.fallback.ptr == start_addr + 8 * (heap_size as int / 8),
            r.fallback.end_ptr == start_addr + 9 * (heap_size as int / 8),
    {
        let slab_size = heap_size / NUM_OF_SLAB;
        let mut slab: Vec<Slab> = Vec::new();
        slab.push(Slab::new(start_addr + 0 * slab_size, slab_size, 64));
        slab.push(Slab::new(start_addr + 1 * slab_size, slab_size, 128));
        slab.push(Slab::new(start_addr + 3 * slab_size, slab_size, 256));
        slab.push(Slab::new(start_addr + 4 * slab_size, slab_size, 512));
        slab.push(Slab::new(start_addr + 5 * slab_size, slab_size, 1024));
        slab.push(Slab::new(start_addr + 6 * slab_size, slab_size, 2048));
        slab.push(Slab::new(start_addr + 7 * slab_size, slab_size, 4096));
        let fallback = DumpAllocator::new(start_addr + 8 * slab_size, slab_size);
        let r = Self { slab, fallback };
        proof {
            assert forall|i: int| 0 <= i < NUM_OF_SLAB - 1 implies (#[trigger] r.slab@[i]).block_size > 0 by {}
        }
        r
    }

    /// The index of the first slab whose block size covers both the size and
    /// the alignment.
    pub fn get_size(&self, size: usize, align: usize) -> (r: Option<usize>)
        requires
            self.wf(),
        ensures
            match r {
                Some(i) => slab_for(self.block_sizes(), size, align) == Some(i as int) && i < NUM_OF_SLAB - 1,
                None => slab_for(self.block_sizes(), size, align) is None,
            },
    {
        let mut idx: usize = 0;
        while idx < self.slab.len()
            invariant
                self.wf(),
                idx <= self.slab@.len(),
                slab_for(self.block_sizes().subrange(0, idx as int), size, align) is None,
            decreases self.slab@.len() - idx,
        {
            let block_size = self.slab[idx].block_size;
            proof {
                let s = self.block_sizes().subrange(0, idx + 1);
                assert(s.drop_last() =~= self.block_sizes().subrange(0, idx as int));
                assert(s.last() == block_size);
            }
            if size <= block_size && align <= block_size {
                proof {
                    lemma_slab_for_prefix(self.block_sizes(), idx as int + 1, size, align);
                }
                return Some(idx);
            }
            idx = idx + 1;
        }
        proof {
            assert(self.block_sizes().subrange(0, idx as int) =~= self.block_sizes());
        }
        None
    }

    /// Adds `mem_size` bytes at `mem_start_addr` to slab `slab`, if given.
    pub fn grow(&mut self, mem_start_addr: usize, mem_size: usize, slab: Option<usize>)
        requires
            old(self).wf(),
            slab matches Some(i) ==> i < NUM_OF_SLAB - 1,
            mem_start_addr + mem_size <= usize::MAX,
        ensures
            final(self).wf(),
            slab is None ==> final(self).slabs() == old(self).slabs(),
            slab matches Some(i) ==> ({
                let (bs, fb) = old(self).slabs()[i as int];
                final(self).slabs() == old(self).slabs().update(i as int,
                    (bs, fb + fresh_blocks(mem_start_addr as int, bs as int, mem_size as int / bs as int).reverse()))
            }),
            final(self).fallback == old(self).fallback,
    {
        if let Some(slab_idx) = slab {
            let mut s = self.slab.remove(slab_idx);
            s.grow(mem_start_addr, mem_size);
            self.slab.insert(slab_idx, s);
            proof {
                assert(self.slab@ =~= old(self).slab@.update(slab_idx as int, s));
                assert(self.slabs() =~= old(self).slabs().update(slab_idx as int, (s.block_size, s.free_block@)));
            }
        }
    }
}

/// A slab that serves a request in a prefix serves it in the whole.
proof fn lemma_slab_for_prefix(sizes: Seq<usize>, n: int, size: usize, align: usize)
    requires
        0 < n <= sizes.len(),
        slab_for(sizes.subrange(0, n - 1), size, align) is None,
        size <= sizes[n - 1] && align <= sizes[n - 1],
    ensures
        slab_for(sizes, size, align) == Some(n - 1),
    decreases sizes.len() - n,
{
    if n == sizes.len() {
        assert(sizes.drop_last() =~= sizes.subrange(0, n - 1));
    } else {
        assert(sizes.drop_last().subrange(0, n - 1) =~= sizes.subrange(0, n - 1));
        assert(sizes.drop_last()[n - 1] == sizes[n - 1]);
        lemma_slab_for_prefix(sizes.drop_last(), n, size, align);
    }
}

impl Allocator for SlabAllocator {
    open spec fn valid(&self) -> bool {
        self.wf()
    }

    open spec fn fits(&self, size: usize, align: usize) -> bool {
        slab_for(self.block_sizes(), size, align) is None ==> self.fallback.fits(size, align)
    }

    /// A block from the head of the first slab that fits, else memory from
    /// the bump allocator.
    fn allocate(&mut self, size: usize, align: usize) -> (r: Result<usize, ()>)
        ensures
            slab_for(old(self).block_sizes(), size, align) matches Some(i) ==> ({
                let (bs, fb) = old(self).slabs()[i];
                &&& fb.len() == 0 ==> r is Err && final(self).slabs() == old(self).slabs()
                &&& fb.len() > 0 ==> r == Ok::<usize, ()>(fb.last())
                    && final(self).slabs() == old(self).slabs().update(i, (bs, fb.drop_last()))
                &&& final(self).fallback == old(self).fallback
            }),
            slab_for(old(self).block_sizes(), size, align) is None ==> ({
                let (base, end) = dump_block(old(self).fallback.ptr, size, align);
                &&& final(self).slabs() == old(self).slabs()
                &&& end >= old(self).fallback.end_ptr ==> r is Err && final(self).fallback == old(self).fallback
                &&& end < old(self).fallback.end_ptr ==> r == Ok::<usize, ()>(base as usize)
                    && final(self).fallback == (DumpAllocator { ptr: end as u64, ..old(self).fallback })
            }),
    {
        match self.get_size(size, align) {
            Some(slab_idx) => {
                let mut s = self.slab.remove(slab_idx);
                let r = s.allocate(size, align);
                self.slab.insert(slab_idx, s);
                proof {
                    assert(self.slab@ =~= old(self).slab@.update(slab_idx as int, s));
                    assert(self.slabs() =~= old(self).slabs().update(slab_idx as int, (s.block_size, s.free_block@)));
                    assert forall|i: int| 0 <= i < NUM_OF_SLAB - 1 implies (#[trigger] self.slab@[i]).block_size > 0 by {
                        if i != slab_idx {
                            assert(self.slab@[i] == old(self).slab@[i]);
                        }
                    }
                    if old(self).slab@[slab_idx as int].free_block@.len() == 0 {
                        assert(self.slabs() =~= old(self).slabs());
                    }
                }
                r
            },
            None => self.fallback.allocate(size, align),
        }
    }

    /// Puts the block back at the head of its slab; the bump allocator keeps
    /// what it gave.
    fn free(&mut self, ptr: usize, size: usize, align: usize)
        ensures
            slab_for(old(self).block_sizes(), size, align) matches Some(i) ==> ({
                let (bs, fb) = old(self).slabs()[i];
                final(self).slabs() == old(self).slabs().update(i, (bs, fb.push(ptr)))
            }),
            slab_for(old(self).block_sizes(), size, align) is None ==> final(self).slabs() == old(self).slabs(),
            final(self).fallback == old(self).fallback,
    {
        match self.get_size(size, align) {
            Some(slab_idx) => {
                let mut s = self.slab.remove(slab_idx);
                s.free(ptr);
                self.slab.insert(slab_idx, s);
                proof {
                    assert(self.slab@ =~= old(self).slab@.update(slab_idx as int, s));
                    assert(self.slabs() =~= old(self).slabs().update(slab_idx as int, (s.block_size, s.free_block@)));
                    assert forall|i: int| 0 <= i < NUM_OF_SLAB - 1 implies (#[trigger] self.slab@[i]).block_size > 0 by {
                        if i != slab_idx {
                            assert(self.slab@[i] == old(self).slab@[i]);
                        }
                    }
                }
            },
            None => self.fallback.free(ptr, size, align),
        }
    }
}


/// Freeing a block to a slab and allocating from it again gives the block
/// back and leaves the slabs as they were.
pub proof fn law_slab_free_then_allocate(slabs: Seq<(usize, Seq<usize>)>, i: int, ptr: usize)
    requires
        0 <= i < slabs.len(),
    ensures
        ({
            let (bs, fb) = slabs[i];
            let freed = slabs.update(i, (bs, fb.push(ptr)));
            let (bs2, fb2) = freed[i];
            &&& fb2.len() > 0
            &&& fb2.last() == ptr
            &&& freed.update(i, (bs2, fb2.drop_last())) == slabs
        }),
{
    let (bs, fb) = slabs[i];
    let freed = slabs.update(i, (bs, fb.push(ptr)));
    assert(fb.push(ptr).drop_last() =~= fb);
    assert(freed.update(i, (bs, fb.push(ptr).drop_last())) =~= slabs);
}

} // verus!
