use nova_relay::session::SessionAllocator;

#[test]
fn first_identifier_is_one() {
    let mut allocator = SessionAllocator::new();
    assert_eq!(allocator.allocate(), Some(1));
    assert_eq!(allocator.allocate(), Some(2));
    assert_eq!(allocator.allocate(), Some(3));
}

#[test]
fn fresh_identifiers_run_out_after_254() {
    let mut allocator = SessionAllocator::new();
    let mut id: u8 = 1;
    while id < 255 {
        assert_eq!(allocator.allocate(), Some(id));
        id += 1;
    }
    assert_eq!(allocator.allocate(), None);
    assert_eq!(allocator.allocate(), None);
}

#[test]
fn returned_identifier_is_reused() {
    let mut allocator = SessionAllocator::new();
    assert_eq!(allocator.allocate(), Some(1));
    assert_eq!(allocator.allocate(), Some(2));
    allocator.deallocate(1);
    assert_eq!(allocator.allocate(), Some(1));
    assert_eq!(allocator.allocate(), Some(3));
}

#[test]
fn returned_identifiers_are_reused_oldest_first() {
    let mut allocator = SessionAllocator::new();
    for _ in 0..5 {
        allocator.allocate();
    }
    allocator.deallocate(4);
    allocator.deallocate(2);
    allocator.deallocate(5);
    assert_eq!(allocator.allocate(), Some(4));
    assert_eq!(allocator.allocate(), Some(2));
    assert_eq!(allocator.allocate(), Some(5));
    assert_eq!(allocator.allocate(), Some(6));
}

#[test]
fn zero_is_never_taken_back() {
    let mut allocator = SessionAllocator::new();
    allocator.deallocate(0);
    allocator.deallocate(0);
    assert_eq!(allocator.allocate(), Some(1));
    allocator.deallocate(0);
    assert_eq!(allocator.allocate(), Some(2));
}

#[test]
fn exhausted_allocator_recovers_on_release() {
    let mut allocator = SessionAllocator::new();
    while allocator.allocate().is_some() {}
    allocator.deallocate(77);
    assert_eq!(allocator.allocate(), Some(77));
    assert_eq!(allocator.allocate(), None);
}

#[test]
fn live_identifiers_are_distinct_and_nonzero() {
    let mut allocator = SessionAllocator::new();
    let mut live: Vec<u8> = Vec::new();
    let mut round: u32 = 0;
    while round < 2000 {
        if round % 3 == 2 && !live.is_empty() {
            let at = (round as usize * 7) % live.len();
            let id = live.remove(at);
            allocator.deallocate(id);
        } else if let Some(id) = allocator.allocate() {
            assert!(id != 0);
            assert!(!live.contains(&id));
            live.push(id);
        }
        round += 1;
    }
    assert!(!live.is_empty());
}
