use epub::arena::BumpPointerAlloc;

#[test]
fn arena_hands_out_aligned_addresses() {
    let mut arena = BumpPointerAlloc::new(0x2000_0101, 0x2000_0200);
    assert_eq!(arena.allocate(3, 1), Some(0x2000_0101));
    assert_eq!(arena.allocate(8, 8), Some(0x2000_0108));
    assert_eq!(arena.allocate(1, 16), Some(0x2000_0110));
    assert_eq!(arena.allocate(0, 4), Some(0x2000_0114));
    assert_eq!(arena.allocate(4, 3), Some(0x2000_0115));
}

#[test]
fn arena_refuses_what_does_not_fit() {
    let mut arena = BumpPointerAlloc::new(0x100, 0x200);
    assert_eq!(arena.allocate(0x101, 1), None);
    assert_eq!(arena.allocate(0x100, 0x200), None);
    assert_eq!(arena.allocate(usize::MAX, 1), None);
    assert_eq!(arena.allocate(1, usize::MAX), None);
    // nothing was handed out
    assert_eq!(arena.allocate(0x100, 1), Some(0x100));
    assert_eq!(arena.allocate(1, 1), None);
    assert_eq!(arena.allocate(0, 1), Some(0x200));
}

#[test]
fn arena_takes_nothing_back() {
    let mut arena = BumpPointerAlloc::new(0, 16);
    assert_eq!(arena.allocate(16, 1), Some(0));
    arena.deallocate(0, 16);
    assert_eq!(arena.allocate(1, 1), None);
}
