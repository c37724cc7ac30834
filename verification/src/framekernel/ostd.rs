//! The kernel heap: a buddy allocator over the region the framework is
//! given at start-up.
use crate::allocator::buddy::{aligned_blocks, aligned_to, apart_from_free, blocks_within, clamp_order, disjoint_free, first_nonempty, no_free_buddies, inside_free, merge_up, order_for, pow2, request_order, split_down, BuddyAllocator};
use vstd::prelude::*;

verus! {

/// The framework's heap: where it lies, and the buddy allocator that hands
/// out its blocks.
pub struct OSTD {
    heap_start: usize,
    heap_size: usize,
    allocator: BuddyAllocator,
}

impl OSTD {
    /// The size of the kernel heap.
    pub const HEAP_SIZE: usize = 65536;

    /// Whether the heap's allocator is well formed.
    pub closed spec fn well_formed(&self) -> bool {
        self.allocator.well_formed()
    }

    /// The start of the heap.
    pub closed spec fn start(&self) -> usize {
        self.heap_start
    }

    /// The size of the heap.
    pub closed spec fn size(&self) -> usize {
        self.heap_size
    }

    /// The heap's allocator.
    pub closed spec fn heap(&self) -> BuddyAllocator {
        self.allocator
    }

    /// A framework whose heap is `[heap_start, heap_start + heap_size)`,
    /// with all of it free.
    pub fn new(heap_start: usize, heap_size: usize) -> (o: Self)
        requires
            heap_start + pow2(order_for(heap_size as nat)) <= usize::MAX,
        ensures
            o.well_formed(),
            o.start() == heap_start,
            o.size() == heap_size,
            o.heap()@.base == heap_start,
            o.heap()@.total_size == heap_size,
            o.heap()@.max_order == order_for(heap_size as nat),
            o.heap()@.lists == Seq::new(16, |k: int| if k == order_for(heap_size as nat) && heap_start != 0 { seq![heap_start] } else { Seq::empty() }),
            disjoint_free(o.heap()@.lists),
            no_free_buddies(o.heap()@.lists, o.heap()@.max_order),
    {
        OSTD { heap_start, heap_size, allocator: BuddyAllocator::new(heap_start, heap_size) }
    }

    /// The start of the heap.
    pub fn heap_start(&self) -> (r: usize)
        ensures
            r == self.start(),
    {
        self.heap_start
    }

    /// The size of the heap.
    pub fn heap_size(&self) -> (r: usize)
        ensures
            r == self.size(),
    {
        self.heap_size
    }

    /// Allocates `size` bytes aligned to `align` from the heap, as
    /// `BuddyAllocator::allocate` does; 0 when nothing fits.
    pub fn allocate(&mut self, size: usize, align: usize) -> (r: usize)
        requires
            old(self).well_formed(),
        ensures
            final(self).well_formed(),
            final(self).start() == old(self).start(),
            final(self).size() == old(self).size(),
            final(self).heap()@.base == old(self).heap()@.base,
            final(self).heap()@.total_size == old(self).heap()@.total_size,
            final(self).heap()@.max_order == old(self).heap()@.max_order,
            size == 0 ==> r == 0 && final(self).heap()@.lists == old(self).heap()@.lists,
            size > 0 ==> match first_nonempty(old(self).heap()@.lists, request_order(size as nat, align as nat), old(self).heap()@.max_order) {
                None => r == 0 && final(self).heap()@.lists == old(self).heap()@.lists,
                Some(o) => {
                    let l = old(self).heap()@.lists[o as int];
                    &&& r == l.last()
                    &&& final(self).heap()@.lists == split_down(
                        old(self).heap()@.lists.update(o as int, l.drop_last()), r, o, request_order(size as nat, align as nat))
                },
            },
            aligned_blocks(old(self).heap()@.lists) ==> aligned_blocks(final(self).heap()@.lists)
                && aligned_to(r, request_order(size as nat, align as nat)),
            disjoint_free(old(self).heap()@.lists) ==> disjoint_free(final(self).heap()@.lists),
            blocks_within(final(self).heap()@.lists, old(self).heap()@.lists),
            no_free_buddies(old(self).heap()@.lists, old(self).heap()@.max_order) && disjoint_free(old(self).heap()@.lists)
                && aligned_blocks(old(self).heap()@.lists) ==> no_free_buddies(final(self).heap()@.lists, old(self).heap()@.max_order),
            disjoint_free(old(self).heap()@.lists) && size > 0
                && first_nonempty(old(self).heap()@.lists, request_order(size as nat, align as nat), old(self).heap()@.max_order) is Some
                ==> apart_from_free(final(self).heap()@.lists, r as int, request_order(size as nat, align as nat))
                    && inside_free(old(self).heap()@.lists, r as int, request_order(size as nat, align as nat)),
    {
        self.allocator.allocate(size, align)
    }

    /// Returns the block at `addr`, allocated for `size` bytes aligned to
    /// `align`, to the heap, as `BuddyAllocator::dealloc` does.
    pub fn dealloc(&mut self, addr: usize, size: usize, align: usize)
        requires
            old(self).well_formed(),
            addr != 0 ==> addr + pow2(clamp_order(request_order(size as nat, align as nat), old(self).heap()@.max_order)) <= usize::MAX,
        ensures
            final(self).well_formed(),
            final(self).start() == old(self).start(),
            final(self).size() == old(self).size(),
            final(self).heap()@.base == old(self).heap()@.base,
            final(self).heap()@.total_size == old(self).heap()@.total_size,
            final(self).heap()@.max_order == old(self).heap()@.max_order,
            addr == 0 ==> final(self).heap()@.lists == old(self).heap()@.lists,
            addr != 0 ==> {
                let o = clamp_order(request_order(size as nat, align as nat), old(self).heap()@.max_order);
                final(self).heap()@.lists == merge_up(
                    old(self).heap()@.lists.update(o as int, old(self).heap()@.lists[o as int].push(addr)), addr, o, old(self).heap()@.max_order)
            },
            aligned_blocks(old(self).heap()@.lists)
                && aligned_to(addr, clamp_order(request_order(size as nat, align as nat), old(self).heap()@.max_order))
                ==> aligned_blocks(final(self).heap()@.lists),
            disjoint_free(old(self).heap()@.lists)
                && apart_from_free(old(self).heap()@.lists, addr as int, clamp_order(request_order(size as nat, align as nat), old(self).heap()@.max_order))
                ==> disjoint_free(final(self).heap()@.lists),
            no_free_buddies(old(self).heap()@.lists, old(self).heap()@.max_order)
                ==> no_free_buddies(final(self).heap()@.lists, old(self).heap()@.max_order),
    {
        self.allocator.dealloc(addr, size, align)
    }
}

} // verus!
