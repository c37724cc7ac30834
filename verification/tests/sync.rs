use sos::sync::{AtomicSlabBitmap, Mutex, Spinlock};

#[test]
fn test_spinlock_new() {
    let lock = Spinlock::new();
    assert!(!lock.is_locked());
}

#[test]
fn test_spinlock_lock_unlock() {
    let mut lock = Spinlock::new();
    lock.lock();
    assert!(lock.is_locked());
    lock.unlock();
    assert!(!lock.is_locked());
}

#[test]
fn test_spinlock() {
    let mut lock = Spinlock::new();
    assert!(!lock.is_locked());
    lock.lock();
    assert!(lock.is_locked());
    lock.unlock();
    assert!(!lock.is_locked());
}

#[test]
fn spinlock_saves_and_returns_interrupt_flag() {
    let mut lock = Spinlock::new();
    lock.lock_with_flags(0x246);
    assert!(lock.is_locked());
    assert_eq!(lock.unlock_take_flags(), 0x200);
    lock.lock_with_flags(0x46);
    assert_eq!(lock.unlock_take_flags(), 0);
    assert!(!lock.is_locked());
}

#[test]
fn test_mutex_new() {
    let mut mutex = Mutex::new(42);
    let guard = mutex.lock();
    assert_eq!(*guard, 42);
}

#[test]
fn test_mutex() {
    let mut mutex = Mutex::new(42);
    let guard = mutex.lock();
    assert_eq!(*guard, 42);
}

#[test]
fn test_mutex_mutable_access() {
    let mut mutex = Mutex::new(0);
    {
        let guard = mutex.lock();
        *guard = 42;
    }
    assert_eq!(*mutex.lock(), 42);
}

#[test]
fn test_atomic_slab_bitmap_new() {
    let bitmap = AtomicSlabBitmap::new(64);
    assert!(!bitmap.is_set(0));
}

#[test]
fn test_atomic_slab_bitmap_set() {
    let mut bitmap = AtomicSlabBitmap::new(64);
    assert!(bitmap.try_set_bit(5));
    assert!(bitmap.is_set(5));
}

#[test]
fn test_atomic_slab_bitmap_find_free() {
    let mut bitmap = AtomicSlabBitmap::new(64);
    assert_eq!(bitmap.find_free(), Some(0));
    let _ = bitmap.try_set_bit(0);
    assert_eq!(bitmap.find_free(), Some(1));
}

#[test]
fn bitmap_set_twice_reports_taken_and_unset_frees() {
    let mut bitmap = AtomicSlabBitmap::new(8);
    assert!(bitmap.try_set_bit(7));
    assert!(!bitmap.try_set_bit(7));
    assert!(bitmap.try_unset_bit(7));
    assert!(!bitmap.try_unset_bit(7));
    assert!(!bitmap.is_set(7));
    assert!(!bitmap.try_set_bit(8));
    assert!(!bitmap.is_set(8));
    for i in 0..8 {
        assert!(bitmap.try_set_bit(i));
    }
    assert_eq!(bitmap.find_free(), None);
}

#[test]
fn bitmap_uses_the_top_bit_of_the_word() {
    let mut bitmap = AtomicSlabBitmap::new(64);
    assert!(bitmap.try_set_bit(63));
    assert!(bitmap.is_set(63));
    assert!(!bitmap.is_set(62));
}
