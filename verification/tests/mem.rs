use os::mem::{BootInfoFrameAllocator, MemoryRegion};

fn usable(start_frame: u64, end_frame: u64) -> MemoryRegion {
    MemoryRegion { start_frame, end_frame, usable: true }
}

fn reserved(start_frame: u64, end_frame: u64) -> MemoryRegion {
    MemoryRegion { start_frame, end_frame, usable: false }
}

#[test]
fn three_frames_then_exhaustion() {
    let mut alloc = BootInfoFrameAllocator::new(vec![usable(2, 5)]);
    let a = alloc.allocate_frame().unwrap();
    let b = alloc.allocate_frame().unwrap();
    let c = alloc.allocate_frame().unwrap();
    assert_eq!(a, 2 * 4096);
    assert_eq!(b, 3 * 4096);
    assert_eq!(c, 4 * 4096);
    assert!(a < b && b < c);
    assert_eq!(alloc.allocate_frame(), None);
}

#[test]
fn exhaustion_is_idempotent() {
    let mut alloc = BootInfoFrameAllocator::new(vec![usable(0, 1)]);
    assert_eq!(alloc.allocate_frame(), Some(0));
    assert_eq!(alloc.allocate_frame(), None);
    assert_eq!(alloc.allocate_frame(), None);
    assert_eq!(alloc.allocate_frame(), None);
}

#[test]
fn unusable_regions_are_skipped() {
    let mut alloc =
        BootInfoFrameAllocator::new(vec![reserved(0, 10), usable(16, 18), reserved(20, 30)]);
    assert_eq!(alloc.allocate_frame(), Some(16 * 4096));
    assert_eq!(alloc.allocate_frame(), Some(17 * 4096));
    assert_eq!(alloc.allocate_frame(), None);
}

#[test]
fn frames_cross_regions_in_map_order() {
    let mut alloc = BootInfoFrameAllocator::new(vec![usable(100, 101), usable(5, 7)]);
    assert_eq!(alloc.allocate_frame(), Some(100 * 4096));
    assert_eq!(alloc.allocate_frame(), Some(5 * 4096));
    assert_eq!(alloc.allocate_frame(), Some(6 * 4096));
    assert_eq!(alloc.allocate_frame(), None);
}

#[test]
fn empty_map_never_hands_out_a_frame() {
    let mut alloc = BootInfoFrameAllocator::new(Vec::new());
    assert_eq!(alloc.allocate_frame(), None);
    assert_eq!(alloc.allocate_frame(), None);
}

#[test]
fn backwards_region_counts_as_empty() {
    let mut alloc = BootInfoFrameAllocator::new(vec![usable(10, 10), usable(12, 10)]);
    assert_eq!(alloc.allocate_frame(), None);
}
