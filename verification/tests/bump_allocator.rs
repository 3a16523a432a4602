use lib::bump_allocator::bump_step;
use lib::bump_allocator::BumpAllocator;

const HEAP_SIZE: usize = 4096;

fn make_allocator() -> (BumpAllocator, Vec<u8>) {
    let mut heap = vec![0u8; HEAP_SIZE];
    let start = heap.as_mut_ptr() as usize;
    let alloc = BumpAllocator::new(start, start + HEAP_SIZE);
    (alloc, heap)
}

#[test]
fn lib_test_alloc_basic() {
    let (mut a, _heap) = make_allocator();
    let ptr = a.allocate(16, 8);
    assert!(ptr != 0, "allocation should succeed");
}

#[test]
fn test_alloc_alignment() {
    let (mut a, _heap) = make_allocator();
    for align in [1, 2, 4, 8, 16, 64] {
        let ptr = a.allocate(1, align);
        assert!(ptr != 0);
        assert_eq!(ptr % align, 0, "returned address must satisfy align={align}");
    }
}

#[test]
fn test_alloc_no_overlap() {
    let (mut a, _heap) = make_allocator();
    let p1 = a.allocate(64, 8);
    let p2 = a.allocate(64, 8);
    assert!(p1 + 64 <= p2 || p2 + 64 <= p1, "two allocations must not overlap");
}

#[test]
fn test_alloc_oom() {
    let (mut a, _heap) = make_allocator();
    let ptr = a.allocate(HEAP_SIZE + 1, 1);
    assert!(ptr == 0, "should return null when exceeding heap");
}

#[test]
fn test_alloc_fill_heap() {
    let (mut a, _heap) = make_allocator();
    for i in 0..16 {
        let ptr = a.allocate(256, 1);
        assert!(ptr != 0, "allocation #{i} should succeed");
    }
    let ptr = a.allocate(256, 1);
    assert!(ptr == 0, "should return null when heap is full");
}

#[test]
fn test_reset() {
    let (mut a, _heap) = make_allocator();
    let p1 = a.allocate(HEAP_SIZE, 1);
    assert!(p1 != 0);
    a.reset();
    let p2 = a.allocate(HEAP_SIZE, 1);
    assert!(p2 != 0, "should be able to allocate after reset");
    assert_eq!(p1, p2, "address after reset should match the first allocation");
}

#[test]
fn bump_step_aligns_up() {
    assert_eq!(bump_step(1000, 2000, 16, 8), Some((1000, 1016)));
    assert_eq!(bump_step(1001, 2000, 16, 8), Some((1008, 1024)));
    assert_eq!(bump_step(1001, 2000, 1, 64), Some((1024, 1025)));
}

#[test]
fn bump_step_refuses_what_does_not_fit() {
    assert_eq!(bump_step(1000, 1015, 16, 8), None);
    assert_eq!(bump_step(1001, 1023, 16, 8), None);
    assert_eq!(bump_step(1000, 1016, 16, 8), Some((1000, 1016)));
}

#[test]
fn bump_step_aligning_past_the_address_space_is_refused() {
    assert_eq!(bump_step(usize::MAX - 1, usize::MAX, 0, 16), None);
}

#[test]
fn bump_step_end_saturates() {
    assert_eq!(bump_step(usize::MAX - 7, usize::MAX, 100, 8), Some((usize::MAX - 7, usize::MAX)));
}

#[test]
fn next_moves_to_each_piece_end_and_back_on_reset() {
    let mut a = BumpAllocator::new(1000, 2000);
    assert_eq!(a.allocate(10, 1), 1000);
    assert_eq!(a.allocate(10, 16), 1024);
    assert_eq!(a.allocate(1, 1), 1034);
    assert_eq!(a.allocate(1000, 1), 0);
    assert_eq!(a.allocate(1, 1), 1035);
    a.reset();
    assert_eq!(a.into_parts(), (1000, 2000, 1000));
}

#[test]
fn refused_request_leaves_next_alone() {
    let mut a = BumpAllocator::new(100, 200);
    assert_eq!(a.allocate(50, 1), 100);
    assert_eq!(a.allocate(51, 1), 0);
    assert_eq!(a.into_parts(), (100, 200, 150));
}

#[test]
fn successive_allocations_are_disjoint_and_aligned() {
    let (mut a, _heap) = make_allocator();
    let p1 = a.allocate(10, 1);
    let p2 = a.allocate(10, 16);
    assert!(p1 + 10 <= p2);
    assert_eq!(p2 % 16, 0);
    assert!(p2 - (p1 + 10) < 16);
}

#[test]
fn heap_of_zero_size_refuses_everything_but_empty_requests() {
    let mut a = BumpAllocator::new(4096, 4096);
    assert_eq!(a.allocate(1, 1), 0);
    assert_eq!(a.allocate(0, 1), 4096);
}
