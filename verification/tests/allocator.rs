use os::allocator::{
    block_size, heap_page_range, list_index, FallbackHeap, FixedSizeBlockAllocator, HEAP_SIZE,
    HEAP_START, NUM_CLASSES,
};

#[test]
fn block_sizes_ascend_in_powers_of_two() {
    let mut prev = 4;
    for k in 0..NUM_CLASSES {
        let s = block_size(k);
        assert_eq!(s, prev * 2);
        prev = s;
    }
    assert_eq!(block_size(0), 8);
    assert_eq!(block_size(8), 2048);
}

#[test]
fn list_index_picks_smallest_fitting_class() {
    assert_eq!(list_index(1, 1), Some(0));
    assert_eq!(list_index(8, 8), Some(0));
    assert_eq!(list_index(9, 1), Some(1));
    assert_eq!(list_index(8, 16), Some(1));
    assert_eq!(list_index(100, 1), Some(4));
    assert_eq!(list_index(2048, 1), Some(8));
    assert_eq!(list_index(2049, 1), None);
    assert_eq!(list_index(8, 4096), None);
    assert_eq!(list_index(4096, 4096), None);
}

#[test]
fn fallback_first_fit_takes_the_first_fitting_hole() {
    let mut heap = FallbackHeap::empty();
    heap.init(1000, 1000);
    assert_eq!(heap.allocate_first_fit(100, 1), Some(1000));
    assert_eq!(heap.allocate_first_fit(50, 16), Some(1104));
    assert_eq!(heap.allocate_first_fit(2000, 1), None);
}

#[test]
fn fallback_free_block_is_reused() {
    let mut heap = FallbackHeap::empty();
    heap.init(4096, 8192);
    let a = heap.allocate_first_fit(128, 8).unwrap();
    assert_eq!(a, 4096);
    heap.deallocate(a, 128);
    assert_eq!(heap.allocate_first_fit(128, 8), Some(4096));
}

#[test]
fn allocation_is_aligned_and_big_enough() {
    let mut h = FixedSizeBlockAllocator::new();
    h.init(4096, 65536);
    for &(size, align) in &[(1u64, 1u64), (8, 8), (10, 4), (100, 64), (2000, 2048), (2048, 1)] {
        let a = h.allocate(size, align).expect("allocation failed");
        assert_eq!(a % align, 0);
        let granted = match list_index(size, align) {
            Some(k) => block_size(k),
            None => size,
        };
        assert!(granted >= size);
        assert!(a >= 4096 && a + granted <= 4096 + 65536);
    }
}

#[test]
fn class_list_reuse_is_lifo() {
    let mut h = FixedSizeBlockAllocator::new();
    h.init(8192, 16384);
    let p1 = h.allocate(8, 8).unwrap();
    let p2 = h.allocate(8, 8).unwrap();
    let p3 = h.allocate(8, 8).unwrap();
    assert_ne!(p1, p2);
    assert_ne!(p2, p3);
    assert_ne!(p1, p3);
    h.deallocate(p2, 8, 8);
    let p4 = h.allocate(8, 8).unwrap();
    assert_eq!(p4, p2);
}

#[test]
fn oversized_request_routes_to_fallback() {
    let mut h = FixedSizeBlockAllocator::new();
    h.init(4096, 4096 * 3);
    let a = h.allocate(4096, 4096).expect("fallback had capacity");
    assert_eq!(a % 4096, 0);
    assert_eq!(a, 4096);
}

#[test]
fn oversized_request_fails_without_capacity() {
    let mut h = FixedSizeBlockAllocator::new();
    h.init(100, 200);
    assert_eq!(h.allocate(4096, 4096), None);
}

#[test]
fn oversized_block_returns_to_the_fallback() {
    let mut h = FixedSizeBlockAllocator::new();
    h.init(4096, 4096 + 2048);
    let a = h.allocate(4096, 4096).unwrap();
    assert_eq!(h.allocate(4096, 4096), None);
    h.deallocate(a, 4096, 4096);
    assert_eq!(h.allocate(4096, 4096), Some(a));
}

#[test]
fn class_block_comes_back_class_sized() {
    let mut h = FixedSizeBlockAllocator::new();
    h.init(4096, 16384);
    // an empty class list is refilled from the fallback with a block of
    // exactly the class's size and alignment
    let a = h.allocate(24, 8).unwrap();
    assert_eq!(a % 32, 0);
    h.deallocate(a, 24, 8);
    // the freed block goes to class 2's list, not back to the fallback,
    // and serves the next class-2 request
    let b = h.allocate(32, 32).unwrap();
    assert_eq!(b, a);
}

#[test]
fn distinct_live_blocks_never_overlap() {
    let mut h = FixedSizeBlockAllocator::new();
    h.init(4096, 32768);
    let mut blocks: Vec<(u64, u64)> = Vec::new();
    for &(size, align) in
        &[(8u64, 8u64), (16, 16), (8, 8), (100, 64), (2048, 2048), (8, 8), (300, 256)]
    {
        let a = h.allocate(size, align).unwrap();
        let granted = match list_index(size, align) {
            Some(k) => block_size(k),
            None => size,
        };
        blocks.push((a, granted));
    }
    for i in 0..blocks.len() {
        for j in (i + 1)..blocks.len() {
            let (a1, s1) = blocks[i];
            let (a2, s2) = blocks[j];
            assert!(a1 + s1 <= a2 || a2 + s2 <= a1, "blocks {i} and {j} overlap");
        }
    }
}

#[test]
fn heap_page_range_covers_the_heap_constants() {
    let (start, end) = heap_page_range();
    assert_eq!(start, HEAP_START / 4096);
    assert_eq!(end, (HEAP_START + HEAP_SIZE - 1) / 4096);
    assert_eq!(start, 0x4_4444_4440);
    assert_eq!(end, 0x4_4444_4458);
}
