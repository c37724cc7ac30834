//! A slab allocator of fixed-size objects: one bitmap slot per object, the
//! lowest free slot handed out first.
use crate::sync::AtomicSlabBitmap;
use vstd::prelude::*;

verus! {

/// The abstract state of a slab allocator.
pub struct SlabView {
    pub object_size: usize,
    pub num_objects: usize,
    pub memory_start: usize,
    /// Which object slots are reserved.
    pub slots: Seq<bool>,
}

/// The lowest free slot of `slots`.
pub open spec fn first_free(slots: Seq<bool>) -> Option<int> {
    if exists|i: int| 0 <= i < slots.len() && !slots[i] {
        Some(choose|i: int| 0 <= i < slots.len() && !slots[i] && forall|j: int| 0 <= j < i ==> slots[j])
    } else {
        None
    }
}

/// What an allocation gives on a slab in state `v`: the object's address
/// (0 for none) and the slots after it.
pub open spec fn allocation(v: SlabView) -> (usize, Seq<bool>) {
    if v.memory_start == 0 {
        (0, v.slots)
    } else {
        match first_free(v.slots) {
            None => (0, v.slots),
            Some(i) => ((v.memory_start + i * v.object_size) as usize, v.slots.update(i, true)),
        }
    }
}

/// The slot an address falls in, when the release of `addr` reaches one.
pub open spec fn released_slot(v: SlabView, addr: usize) -> Option<int> {
    if addr == 0 || v.memory_start == 0 || addr < v.memory_start {
        None
    } else {
        let index = (addr - v.memory_start) / (v.object_size as int);
        if index >= v.num_objects { None } else { Some(index) }
    }
}

/// The slots after releasing `addr` on a slab in state `v`.
pub open spec fn release(v: SlabView, addr: usize) -> Seq<bool> {
    match released_slot(v, addr) {
        None => v.slots,
        Some(i) => v.slots.update(i, false),
    }
}

/// A slab of `num_objects` objects of `object_size` bytes each.
pub struct SlabAllocator {
    object_size: usize,
    num_objects: usize,
    bitmap: AtomicSlabBitmap,
    memory_start: usize,
}

impl View for SlabAllocator {
    type V = SlabView;

    closed spec fn view(&self) -> SlabView {
        SlabView {
            object_size: self.object_size,
            num_objects: self.num_objects,
            memory_start: self.memory_start,
            slots: self.bitmap@,
        }
    }
}

impl SlabAllocator {
    /// Whether the slab is well formed: one bitmap slot per object, and an
    /// attached region that fits below the top of memory.
    pub closed spec fn well_formed(&self) -> bool {
        &&& self.bitmap.is_wf()
        &&& self.bitmap.capacity() == self.num_objects
        &&& self.bitmap@.len() == self.num_objects
        &&& (self.memory_start == 0 || self.memory_start + self.object_size * self.num_objects <= usize::MAX)
    }

    /// A slab with no memory attached yet and every slot free. The bitmap
    /// holds at most 64 slots.
    pub fn new(object_size: usize, num_objects: usize) -> (s: Self)
        requires
            num_objects <= 64,
        ensures
            s.well_formed(),
            s@.object_size == object_size,
            s@.num_objects == num_objects,
            s@.memory_start == 0,
            s@.slots == Seq::new(num_objects as nat, |i: int| false),
    {
        SlabAllocator { object_size, num_objects, bitmap: AtomicSlabBitmap::new(num_objects), memory_start: 0 }
    }

    /// Attaches the region at `memory_start`, which holds `object_size *
    /// num_objects` bytes.
    pub fn init(&mut self, memory_start: usize)
        requires
            old(self).well_formed(),
            memory_start + old(self)@.object_size * old(self)@.num_objects <= usize::MAX,
        ensures
            final(self).well_formed(),
            final(self)@ == (SlabView { memory_start, ..old(self)@ }),
    {
        self.memory_start = memory_start;
    }

    /// Reserves the lowest free slot and returns its object's address; 0
    /// when no memory is attached or every slot is taken.
    pub fn allocate(&mut self) -> (r: usize)
        requires
            old(self).well_formed(),
        ensures
            final(self).well_formed(),
            r == allocation(old(self)@).0,
            final(self)@ == (SlabView { slots: allocation(old(self)@).1, ..old(self)@ }),
    {
        if self.memory_start == 0 {
            return 0;
        }
        let n = self.num_objects;
        let mut i: usize = 0;
        while i < n
            invariant
                self.well_formed(),
                n == self.num_objects,
                self.memory_start != 0,
                self.object_size == old(self).object_size,
                self.num_objects == old(self).num_objects,
                self.memory_start == old(self).memory_start,
                i <= n,
                self@.slots == old(self)@.slots,
                forall|j: int| 0 <= j < i ==> old(self)@.slots[j],
            decreases n - i,
        {
            let was_free = self.bitmap.try_set_bit(i);
            if was_free {
                proof {
                    let s = old(self)@.slots;
                    assert(0 <= i < s.len() && !s[i as int] && forall|j: int| 0 <= j < i ==> s[j]);
                    let c = choose|k: int| 0 <= k < s.len() && !s[k] && forall|j: int| 0 <= j < k ==> s[j];
                    assert(c == i) by {
                        if c < i {
                            assert(s[c]);
                        } else if c > i {
                            assert(s[i as int]);
                        }
                    }
                    lemma_slot_fits(i as int, self.object_size as int, n as int, self.memory_start as int);
                }
                let offset = i * self.object_size;
                return self.memory_start + offset;
            }
            proof {
                assert(self@.slots =~= old(self)@.slots);
            }
            i = i + 1;
        }
        0
    }

    /// Releases the slot that `addr` falls in. Null addresses, addresses
    /// below the region and slots past the last are ignored. The slot index
    /// is the offset divided by the object size, so a zero object size is
    /// refused once the division is reached.
    pub fn dealloc(&mut self, addr: usize)
        requires
            old(self).well_formed(),
            addr != 0 && old(self)@.memory_start != 0 && addr >= old(self)@.memory_start
                ==> old(self)@.object_size > 0,
        ensures
            final(self).well_formed(),
            final(self)@ == (SlabView { slots: release(old(self)@, addr), ..old(self)@ }),
    {
        if addr == 0 || self.memory_start == 0 {
            return;
        }
        if addr < self.memory_start {
            return;
        }
        let offset = addr - self.memory_start;
        let index = offset / self.object_size;
        if index >= self.num_objects {
            return;
        }
        self.bitmap.try_unset_bit(index);
    }

    /// The size of each object.
    pub fn object_size(&self) -> (r: usize)
        ensures
            r == self@.object_size,
    {
        self.object_size
    }

    /// How many objects the slab holds.
    pub fn num_objects(&self) -> (r: usize)
        ensures
            r == self@.num_objects,
    {
        self.num_objects
    }

    /// Where the attached region starts (0 when none is).
    pub fn memory_start(&self) -> (r: usize)
        ensures
            r == self@.memory_start,
    {
        self.memory_start
    }

    /// The slab's slot count equals its object count.
    pub proof fn lemma_slot_count(&self)
        requires
            self.well_formed(),
        ensures
            self@.slots.len() == self@.num_objects,
            self@.memory_start == 0 || self@.memory_start + self@.object_size * self@.num_objects <= usize::MAX,
    {
    }

    /// Whether no memory is attached.
    pub fn is_null(&self) -> (r: bool)
        ensures
            r == (self@.memory_start == 0),
    {
        self.memory_start == 0
    }
}

proof fn lemma_least_free(s: Seq<bool>, k: int)
    requires
        0 <= k < s.len(),
        !s[k],
    ensures
        exists|i: int| 0 <= i < s.len() && !s[i] && forall|j: int| 0 <= j < i ==> s[j],
    decreases k,
{
    if exists|j: int| 0 <= j < k && !s[j] {
        let j = choose|j: int| 0 <= j < k && !s[j];
        lemma_least_free(s, j);
    } else {
        assert(forall|j: int| 0 <= j < k ==> s[j]);
    }
}

proof fn lemma_slot_fits(i: int, size: int, n: int, start: int)
    requires
        0 <= i < n,
        0 <= size,
        start + size * n <= usize::MAX,
    ensures
        i * size <= size * n,
        start + i * size <= usize::MAX,
{
    assert(i * size <= size * n) by (nonlinear_arith)
        requires
            0 <= i < n,
            0 <= size,
    ;
}

/// An allocation that hands out nothing leaves the slots as they were.
pub proof fn lemma_allocation_null(v: SlabView)
    requires
        v.slots.len() == v.num_objects,
        v.memory_start == 0 || v.memory_start + v.object_size * v.num_objects <= usize::MAX,
        allocation(v).0 == 0,
    ensures
        allocation(v).1 == v.slots,
{
    let s = v.slots;
    if v.memory_start != 0 && exists|i: int| 0 <= i < s.len() && !s[i] {
        let w = choose|k: int| 0 <= k < s.len() && !s[k];
        lemma_least_free(s, w);
        let i = choose|k: int| 0 <= k < s.len() && !s[k] && forall|j: int| 0 <= j < k ==> s[j];
        lemma_slot_fits(i, v.object_size as int, v.num_objects as int, v.memory_start as int);
        assert(i * v.object_size >= 0) by (nonlinear_arith)
            requires
                i >= 0,
                v.object_size >= 0,
        ;
        assert(false);
    }
}

/// The object an allocation hands out lies in the slot it reserved.
pub proof fn lemma_allocation_slot(v: SlabView)
    requires
        v.slots.len() == v.num_objects,
        v.object_size > 0,
        v.memory_start + v.object_size * v.num_objects <= usize::MAX,
        allocation(v).0 != 0,
    ensures
        first_free(v.slots) is Some,
        0 <= first_free(v.slots)->0 < v.slots.len(),
        !v.slots[first_free(v.slots)->0],
        released_slot(v, allocation(v).0) == first_free(v.slots),
        allocation(v).1 == v.slots.update(first_free(v.slots)->0, true),
{
    let s = v.slots;
    assert(v.memory_start != 0);
    assert(exists|i: int| 0 <= i < s.len() && !s[i]);
    let w = choose|k: int| 0 <= k < s.len() && !s[k];
    lemma_least_free(s, w);
    let i = choose|k: int| 0 <= k < s.len() && !s[k] && forall|j: int| 0 <= j < k ==> s[j];
    lemma_slot_fits(i, v.object_size as int, v.num_objects as int, v.memory_start as int);
    let addr = allocation(v).0;
    assert(addr - v.memory_start == i * v.object_size);
    vstd::arithmetic::div_mod::lemma_div_multiples_vanish(i, v.object_size as int);
    assert((i * v.object_size) / (v.object_size as int) == i) by {
        vstd::arithmetic::mul::lemma_mul_is_commutative(i, v.object_size as int);
    }
}

/// Releasing the object an allocation handed out frees its slot again:
/// the slab's slots are as they were before the allocation.
pub proof fn lemma_allocate_then_release(v: SlabView)
    requires
        v.slots.len() == v.num_objects,
        v.object_size > 0,
        v.memory_start + v.object_size * v.num_objects <= usize::MAX,
        allocation(v).0 != 0,
    ensures
        release(SlabView { slots: allocation(v).1, ..v }, allocation(v).0) == v.slots,
{
    lemma_allocation_slot(v);
    let i = first_free(v.slots)->0;
    let after = SlabView { slots: allocation(v).1, ..v };
    assert(released_slot(after, allocation(v).0) == released_slot(v, allocation(v).0));
    assert(release(after, allocation(v).0) == after.slots.update(i, false));
    assert(v.slots.update(i, true).update(i, false) =~= v.slots);
}

} // verus!
