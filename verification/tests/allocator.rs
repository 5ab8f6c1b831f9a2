use bevy_flipbook::slot::allocator::SlotAllocator;

#[test]
fn test_allocate() {
    let mut allocator = SlotAllocator::default();

    assert_eq!(allocator.next_slot(), 0);

    let next_slot = allocator.allocate();
    assert_eq!(next_slot, 0);
    let next_slot = allocator.allocate();
    assert_eq!(next_slot, 1);
}

#[test]
fn freed_slot_is_reused_first() {
    let mut allocator = SlotAllocator::default();
    let a = allocator.allocate();
    let b = allocator.allocate();
    let c = allocator.allocate();
    assert_eq!((a, b, c), (0, 1, 2));
    allocator.free(b);
    assert_eq!(allocator.allocate(), 1);
    assert_eq!(allocator.allocate(), 3);
    assert_eq!(allocator.next_slot(), 4);
}

#[test]
fn most_recently_freed_slot_comes_back_first() {
    let mut allocator = SlotAllocator::default();
    for _ in 0..4 {
        allocator.allocate();
    }
    allocator.free(0);
    allocator.free(2);
    assert_eq!(allocator.allocate(), 2);
    assert_eq!(allocator.allocate(), 0);
    assert_eq!(allocator.allocate(), 4);
}

#[test]
fn freeing_a_slot_that_is_not_live_is_ignored() {
    let mut allocator = SlotAllocator::default();
    allocator.allocate();
    allocator.free(5);
    allocator.free(0);
    allocator.free(0);
    assert_eq!(allocator.allocate(), 0);
    assert_eq!(allocator.allocate(), 1);
    assert_eq!(allocator.next_slot(), 2);
}

#[test]
fn can_allocate_on_fresh_allocator() {
    let allocator = SlotAllocator::default();
    assert!(allocator.can_allocate());
}

#[test]
fn fresh_allocator_counts_up() {
    let mut allocator = SlotAllocator::default();
    for expected in 0..1000u32 {
        assert_eq!(allocator.allocate(), expected);
    }
    assert_eq!(allocator.next_slot(), 1000);
}
