use sos::allocator::buddy::BuddyAllocator;
use sos::allocator::slab::SlabAllocator;
use sos::framekernel::OSTD;

const HEAP_SIZE: usize = BuddyAllocator::HEAP_SIZE;
const OBJECT_SIZE: usize = 64;
const NUM_OBJECTS: usize = 16;

fn heap_base(heap: &Vec<u8>) -> usize {
    heap.as_ptr() as usize
}

#[test]
fn buddy_test_new() {
    let heap = vec![0u8; HEAP_SIZE];
    let allocator = BuddyAllocator::new(heap_base(&heap), HEAP_SIZE);
    assert!(!allocator.is_null());
}

#[test]
fn test_alloc_single_block() {
    let heap = vec![0u8; HEAP_SIZE];
    let mut allocator = BuddyAllocator::new(heap_base(&heap), HEAP_SIZE);
    let ptr = allocator.allocate(4096, 8);
    assert!(ptr != 0);
}

#[test]
fn test_alloc_multiple_blocks() {
    let heap = vec![0u8; HEAP_SIZE];
    let mut allocator = BuddyAllocator::new(heap_base(&heap), HEAP_SIZE);
    let ptr1 = allocator.allocate(1024, 8);
    let ptr2 = allocator.allocate(1024, 8);
    assert!(ptr1 != 0);
    assert!(ptr2 != 0);
    assert_ne!(ptr1, ptr2);
}

#[test]
fn test_alloc_dealloc_reuse() {
    let heap = vec![0u8; HEAP_SIZE];
    let mut allocator = BuddyAllocator::new(heap_base(&heap), HEAP_SIZE);
    let ptr1 = allocator.allocate(4096, 8);
    assert!(ptr1 != 0);
    allocator.dealloc(ptr1, 4096, 8);
    let ptr2 = allocator.allocate(4096, 8);
    assert!(ptr2 != 0);
}

#[test]
fn test_alignment() {
    const ALIGNMENT: usize = 4096;
    let heap = vec![0u8; HEAP_SIZE + ALIGNMENT];
    let heap_addr = heap_base(&heap);
    let aligned_addr = (heap_addr + ALIGNMENT - 1) & !(ALIGNMENT - 1);
    let mut allocator = BuddyAllocator::new(aligned_addr, HEAP_SIZE);
    for align in &[1usize, 2, 4, 8, 16, 32, 64] {
        let ptr = allocator.allocate(256, *align);
        assert!(ptr != 0, "Failed for align {}", align);
        assert_eq!(ptr % *align, 0, "Misaligned for {}", align);
    }
}

#[test]
fn test_oom() {
    let heap = vec![0u8; 4096];
    let mut allocator = BuddyAllocator::new(heap_base(&heap), 4096);
    let ptr = allocator.allocate(8192, 8);
    assert!(ptr == 0);
}

#[test]
fn buddy_splits_the_top_block_and_hands_out_its_lower_half() {
    let base: usize = 0x10000;
    let mut allocator = BuddyAllocator::new(base, HEAP_SIZE);
    assert_eq!(allocator.allocate(16384, 8), base);
    assert_eq!(allocator.allocate(16384, 8), base + 16384);
    assert_eq!(allocator.allocate(16384, 8), 0);
}

#[test]
fn buddy_size_zero_gives_null() {
    let mut allocator = BuddyAllocator::new(0x10000, HEAP_SIZE);
    assert_eq!(allocator.allocate(0, 8), 0);
}

#[test]
fn buddy_rounds_by_one_byte_less_than_the_request() {
    // A 4097-byte request rounds 4096 up to its power of two: one 4 KiB block.
    let base: usize = 0x10000;
    let mut allocator = BuddyAllocator::new(base, 8192);
    assert_eq!(allocator.allocate(4097, 1), base);
    assert_eq!(allocator.allocate(4096, 1), base + 4096);
}

#[test]
fn buddy_release_merges_buddies_back_into_the_top_block() {
    let base: usize = 0x10000;
    let mut allocator = BuddyAllocator::new(base, 8192);
    let a = allocator.allocate(4096, 8);
    let b = allocator.allocate(4096, 8);
    assert_eq!((a, b), (base, base + 4096));
    allocator.dealloc(b, 4096, 8);
    allocator.dealloc(a, 4096, 8);
    assert_eq!(allocator.allocate(8192, 8), base);
}

#[test]
fn buddy_null_base_has_nothing_free() {
    let mut allocator = BuddyAllocator::new(0, HEAP_SIZE);
    assert!(allocator.is_null());
    assert_eq!(allocator.allocate(64, 8), 0);
}

#[test]
fn slab_test_new() {
    let allocator = SlabAllocator::new(OBJECT_SIZE, NUM_OBJECTS);
    assert!(allocator.is_null());
}

#[test]
fn test_init() {
    let mut allocator = SlabAllocator::new(OBJECT_SIZE, NUM_OBJECTS);
    allocator.init(0x1000);
    assert!(!allocator.is_null());
}

#[test]
fn test_alloc_single() {
    let mut allocator = SlabAllocator::new(OBJECT_SIZE, NUM_OBJECTS);
    allocator.init(0x1000);
    let ptr = allocator.allocate();
    assert!(ptr != 0);
}

#[test]
fn test_alloc_multiple() {
    let mut allocator = SlabAllocator::new(OBJECT_SIZE, NUM_OBJECTS);
    allocator.init(0x1000);
    let mut ptrs = [0usize; NUM_OBJECTS];
    for i in 0..NUM_OBJECTS {
        let ptr = allocator.allocate();
        assert!(ptr != 0);
        ptrs[i] = ptr;
    }
    let ptr = allocator.allocate();
    assert!(ptr == 0);
}

#[test]
fn test_dealloc() {
    let mut allocator = SlabAllocator::new(OBJECT_SIZE, NUM_OBJECTS);
    allocator.init(0x1000);
    let ptr = allocator.allocate();
    assert!(ptr != 0);
    allocator.dealloc(ptr);
    let ptr2 = allocator.allocate();
    assert!(ptr2 != 0);
}

#[test]
fn test_alloc_reuses_deallocated() {
    let mut allocator = SlabAllocator::new(OBJECT_SIZE, NUM_OBJECTS);
    allocator.init(0x1000);
    let ptr1 = allocator.allocate();
    allocator.dealloc(ptr1);
    let ptr2 = allocator.allocate();
    assert_eq!(ptr1, ptr2);
}

#[test]
fn slab_hands_out_consecutive_objects() {
    let mut allocator = SlabAllocator::new(OBJECT_SIZE, NUM_OBJECTS);
    allocator.init(0x1000);
    assert_eq!(allocator.allocate(), 0x1000);
    assert_eq!(allocator.allocate(), 0x1040);
    allocator.dealloc(0x1000);
    assert_eq!(allocator.allocate(), 0x1000);
    assert_eq!(allocator.allocate(), 0x1080);
}

#[test]
fn slab_without_memory_gives_null_and_ignores_releases() {
    let mut allocator = SlabAllocator::new(OBJECT_SIZE, NUM_OBJECTS);
    assert_eq!(allocator.allocate(), 0);
    allocator.dealloc(0x1000);
    allocator.init(0x1000);
    allocator.dealloc(0x0800);
    allocator.dealloc(0x1000 + OBJECT_SIZE * NUM_OBJECTS);
    assert_eq!(allocator.allocate(), 0x1000);
}

#[test]
fn test_buddy_allocator() {
    let heap = vec![0u8; HEAP_SIZE];
    let mut allocator = BuddyAllocator::new(heap_base(&heap), HEAP_SIZE);
    let ptr = allocator.allocate(1024, 8);
    assert!(ptr != 0);
    allocator.dealloc(ptr, 1024, 8);
}

#[test]
fn test_slab_allocator() {
    let mut allocator = SlabAllocator::new(64, 16);
    allocator.init(0x1000);
    let ptr = allocator.allocate();
    assert!(ptr != 0);
    allocator.dealloc(ptr);
}

#[test]
fn test_ostd_new() {
    let ostd = OSTD::new(0x10000, OSTD::HEAP_SIZE);
    assert_eq!(ostd.heap_start(), 0x10000);
}

#[test]
fn test_ostd_alloc() {
    let heap = vec![0u8; HEAP_SIZE];
    let mut allocator = BuddyAllocator::new(heap_base(&heap), HEAP_SIZE);
    let ptr = allocator.allocate(1024, 8);
    assert!(ptr != 0);
}

#[test]
fn ostd_heap_allocates_and_releases() {
    let mut ostd = OSTD::new(0x20000, OSTD::HEAP_SIZE);
    assert_eq!(ostd.heap_size(), OSTD::HEAP_SIZE);
    let ptr = ostd.allocate(1024, 8);
    assert_eq!(ptr, 0x20000);
    ostd.dealloc(ptr, 1024, 8);
    assert_eq!(ostd.allocate(1024, 8), 0x20000);
}

#[test]
fn buddy_merged_halves_are_not_handed_out_twice() {
    let base: usize = 0x10000;
    let mut allocator = BuddyAllocator::new(base, 8192);
    let a = allocator.allocate(4096, 8);
    let b = allocator.allocate(4096, 8);
    allocator.dealloc(a, 4096, 8);
    allocator.dealloc(b, 4096, 8);
    let whole = allocator.allocate(8192, 8);
    assert_eq!(whole, base);
    // The merged block is in use, so nothing of it is free any more.
    assert_eq!(allocator.allocate(4096, 8), 0);
}

#[test]
fn buddy_live_blocks_never_overlap() {
    let base: usize = 0x10000;
    let mut allocator = BuddyAllocator::new(base, 65536);
    let mut live: Vec<(usize, usize)> = Vec::new();
    for size in [1024usize, 4096, 256, 8192, 512, 2048, 16384] {
        let p = allocator.allocate(size, 8);
        assert!(p != 0);
        for &(q, qs) in &live {
            assert!(p + size <= q || q + qs <= p, "{:#x}+{} overlaps {:#x}+{}", p, size, q, qs);
        }
        live.push((p, size));
    }
}
