//! Synchronization primitives.
//!
//! The primitives are modelled with exclusive (`&mut`) access: Rust's
//! borrow rules already rule out a second holder, so the lock word records the
//! state that the bare-metal build keeps in an atomic.
use vstd::prelude::*;

verus! {

/// The interrupt-enable bit (IF) of the x86 flags register.
pub const INTERRUPT_ENABLE_FLAG: usize = 0x200;

/// The abstract state of a [`Spinlock`].
pub struct SpinlockState {
    pub locked: bool,
    pub irq_flags: usize,
}

/// An interrupt-aware spinlock.
pub struct Spinlock {
    locked: bool,
    irq_flags: usize,
}

impl View for Spinlock {
    type V = SpinlockState;

    closed spec fn view(&self) -> SpinlockState {
        SpinlockState { locked: self.locked, irq_flags: self.irq_flags }
    }
}

impl Spinlock {
    /// A new, unlocked spinlock with no saved interrupt flags.
    pub fn new() -> (s: Self)
        ensures
            s@ == (SpinlockState { locked: false, irq_flags: 0 }),
    {
        Spinlock { locked: false, irq_flags: 0 }
    }

    /// Takes the lock, saving the interrupt state `flags` that was in force
    /// before interrupts were disabled (only its IF bit is kept).
    pub fn lock_with_flags(&mut self, flags: usize)
        requires
            !old(self)@.locked,
        ensures
            final(self)@ == (SpinlockState { locked: true, irq_flags: flags & INTERRUPT_ENABLE_FLAG }),
    {
        self.locked = true;
        self.irq_flags = flags & INTERRUPT_ENABLE_FLAG;
    }

    /// Takes the lock on a host build, where interrupts are enabled and the
    /// saved flag word is the IF bit.
    pub fn lock(&mut self)
        requires
            !old(self)@.locked,
        ensures
            final(self)@ == (SpinlockState { locked: true, irq_flags: INTERRUPT_ENABLE_FLAG }),
    {
        proof {
            assert(INTERRUPT_ENABLE_FLAG & INTERRUPT_ENABLE_FLAG == INTERRUPT_ENABLE_FLAG) by (bit_vector);
        }
        self.lock_with_flags(INTERRUPT_ENABLE_FLAG);
    }

    /// Releases the lock and returns the saved interrupt flags, which the
    /// caller restores (interrupts are re-enabled when the IF bit is set).
    pub fn unlock_take_flags(&mut self) -> (flags: usize)
        ensures
            flags == old(self)@.irq_flags,
            final(self)@ == (SpinlockState { locked: false, irq_flags: 0 }),
    {
        let flags = self.irq_flags;
        self.irq_flags = 0;
        self.locked = false;
        flags
    }

    /// Releases the lock.
    pub fn unlock(&mut self)
        ensures
            final(self)@ == (SpinlockState { locked: false, irq_flags: 0 }),
    {
        let _ = self.unlock_take_flags();
    }

    /// Whether the lock is held.
    pub fn is_locked(&self) -> (r: bool)
        ensures
            r == self@.locked,
    {
        self.locked
    }
}

impl Default for Spinlock {
    fn default() -> (s: Self)
        ensures
            s@ == (SpinlockState { locked: false, irq_flags: 0 }),
    {
        Self::new()
    }
}

/// A value guarded by a [`Spinlock`].
pub struct Mutex<T> {
    lock: Spinlock,
    data: T,
}

impl<T> Mutex<T> {
    /// Wraps `data` in an unlocked mutex.
    pub fn new(data: T) -> (m: Self)
        ensures
            m.value() == data,
            !m.is_held(),
    {
        Mutex { lock: Spinlock::new(), data }
    }

    /// The guarded value.
    pub closed spec fn value(&self) -> T {
        self.data
    }

    /// Whether the mutex is held.
    pub closed spec fn is_held(&self) -> bool {
        self.lock@.locked
    }

    /// Gives exclusive access to the guarded value; what is written through
    /// the returned reference becomes the mutex's value.
    pub fn lock(&mut self) -> (r: &mut T)
        ensures
            *r == old(self).value(),
            final(self).value() == *final(r),
            final(self).is_held() == old(self).is_held(),
    {
        &mut self.data
    }

    /// Consumes the mutex and returns its value.
    pub fn into_inner(self) -> (r: T)
        ensures
            r == self.value(),
    {
        self.data
    }
}

} // verus!

verus! {

/// Whether bit `i` of `word` is set.
pub open spec fn bit_of(word: u64, i: nat) -> bool {
    (word >> i) & 1u64 == 1u64
}

proof fn lemma_or_bit(word: u64, i: u64, j: u64)
    requires
        i < 64,
        j < 64,
    ensures
        bit_of(word | (1u64 << (i as u64)), j as nat) == (i == j || bit_of(word, j as nat)),
{
    assert(((word | (1u64 << (i as u64))) >> j) & 1u64 == 1u64 <==> (i == j || (word >> j) & 1u64 == 1u64)) by (bit_vector)
        requires i < 64, j < 64;
}

proof fn lemma_and_not_bit(word: u64, i: u64, j: u64)
    requires
        i < 64,
        j < 64,
    ensures
        bit_of(word & !(1u64 << (i as u64)), j as nat) == (i != j && bit_of(word, j as nat)),
{
    assert(((word & !(1u64 << (i as u64))) >> j) & 1u64 == 1u64 <==> (i != j && (word >> j) & 1u64 == 1u64)) by (bit_vector)
        requires i < 64, j < 64;
}

proof fn lemma_mask_bit(word: u64, i: u64)
    requires
        i < 64,
    ensures
        (word & (1u64 << (i as u64)) != 0) == bit_of(word, i as nat),
{
    assert((word & (1u64 << (i as u64)) != 0u64) <==> ((word >> i) & 1u64 == 1u64)) by (bit_vector)
        requires i < 64;
}

proof fn lemma_zero_bits(i: u64)
    requires
        i < 64,
    ensures
        !bit_of(0u64, i as nat),
{
    assert((0u64 >> i) & 1u64 != 1u64) by (bit_vector);
}

/// A bitmap of up to 64 slots with set/unset/test operations.
pub struct AtomicSlabBitmap {
    bitmap: u64,
    max_bits: usize,
}

impl View for AtomicSlabBitmap {
    type V = Seq<bool>;

    /// Slot `i` is reserved exactly when bit `i` is set.
    closed spec fn view(&self) -> Seq<bool> {
        Seq::new(self.max_bits as nat, |i: int| bit_of(self.bitmap, i as nat))
    }
}

impl AtomicSlabBitmap {
    /// The number of slots tracked.
    pub closed spec fn capacity(&self) -> nat {
        self.max_bits as nat
    }

    closed spec fn wf(&self) -> bool {
        self.max_bits <= 64
    }

    /// A bitmap of `max_bits` free slots. More than 64 slots would need shifts
    /// past the word width, which overflow.
    pub fn new(max_bits: usize) -> (b: Self)
        requires
            max_bits <= 64,
        ensures
            b@ == Seq::new(max_bits as nat, |i: int| false),
            b.capacity() == max_bits,
            b.is_wf(),
    {
        let b = AtomicSlabBitmap { bitmap: 0, max_bits };
        assert forall|i: int| 0 <= i < max_bits implies #[trigger] b@[i] == false by {
            lemma_zero_bits(i as u64);
        }
        assert(b@ =~= Seq::new(max_bits as nat, |i: int| false));
        b
    }

    /// The bitmap's well-formedness (its capacity fits one word).
    pub closed spec fn is_wf(&self) -> bool {
        self.wf()
    }

    /// Reserves slot `index`; true when it was free before.
    pub fn try_set_bit(&mut self, index: usize) -> (r: bool)
        requires
            old(self).is_wf(),
        ensures
            final(self).is_wf(),
            final(self).capacity() == old(self).capacity(),
            index >= old(self)@.len() ==> !r && final(self)@ == old(self)@,
            index < old(self)@.len() ==> r == !old(self)@[index as int] && final(self)@ == old(self)@.update(index as int, true),
    {
        if index >= self.max_bits {
            return false;
        }
        let mask = 1u64 << (index as u64);
        let old_word = self.bitmap;
        self.bitmap = old_word | mask;
        proof {
            lemma_mask_bit(old_word, index as u64);
            assert forall|j: int| 0 <= j < self.max_bits implies #[trigger] self@[j] == (j == index || old(self)@[j]) by {
                lemma_or_bit(old_word, index as u64, j as u64);
            }
            assert(self@ =~= old(self)@.update(index as int, true));
        }
        old_word & mask == 0
    }

    /// Releases slot `index`; true when it was reserved before.
    pub fn try_unset_bit(&mut self, index: usize) -> (r: bool)
        requires
            old(self).is_wf(),
        ensures
            final(self).is_wf(),
            final(self).capacity() == old(self).capacity(),
            index >= old(self)@.len() ==> !r && final(self)@ == old(self)@,
            index < old(self)@.len() ==> r == old(self)@[index as int] && final(self)@ == old(self)@.update(index as int, false),
    {
        if index >= self.max_bits {
            return false;
        }
        let mask = 1u64 << (index as u64);
        let old_word = self.bitmap;
        self.bitmap = old_word & !mask;
        proof {
            lemma_mask_bit(old_word, index as u64);
            assert forall|j: int| 0 <= j < self.max_bits implies #[trigger] self@[j] == (j != index && old(self)@[j]) by {
                lemma_and_not_bit(old_word, index as u64, j as u64);
            }
            assert(self@ =~= old(self)@.update(index as int, false));
        }
        old_word & mask != 0
    }

    /// Whether slot `index` is reserved (false outside the capacity).
    pub fn is_set(&self, index: usize) -> (r: bool)
        requires
            self.is_wf(),
        ensures
            r == (index < self@.len() && self@[index as int]),
    {
        if index >= self.max_bits {
            return false;
        }
        proof {
            lemma_mask_bit(self.bitmap, index as u64);
        }
        self.bitmap & (1u64 << (index as u64)) != 0
    }

    /// The lowest free slot, if any.
    pub fn find_free(&self) -> (r: Option<usize>)
        requires
            self.is_wf(),
        ensures
            r matches Some(i) ==> i < self@.len() && !self@[i as int] && forall|j: int| 0 <= j < i ==> self@[j],
            r is None ==> forall|j: int| 0 <= j < self@.len() ==> self@[j],
    {
        let bits = self.bitmap;
        let mut i: usize = 0;
        while i < self.max_bits
            invariant
                self.is_wf(),
                bits == self.bitmap,
                i <= self.max_bits,
                forall|j: int| 0 <= j < i ==> self@[j],
            decreases self.max_bits - i,
        {
            proof {
                lemma_mask_bit(bits, i as u64);
            }
            if bits & (1u64 << (i as u64)) == 0 {
                return Some(i);
            }
            i = i + 1;
        }
        None
    }
}

} // verus!
