use estros::arena::{arena_allocation, ARENA_SIZE, MAX_SUPPORTED_ALIGN};

#[test]
fn allocates_from_the_top_aligned() {
    assert_eq!(arena_allocation(ARENA_SIZE, 100, 8), Some(ARENA_SIZE - 104));
    assert_eq!(arena_allocation(ARENA_SIZE, 4096, 4096), Some(ARENA_SIZE - 4096));
    assert_eq!(arena_allocation(1000, 10, 16), Some(976));
    assert_eq!(arena_allocation(1000, 10, 1), Some(990));
}

#[test]
fn too_large_alignment_or_size_fails() {
    assert_eq!(arena_allocation(ARENA_SIZE, 8, MAX_SUPPORTED_ALIGN * 2), None);
    assert_eq!(arena_allocation(100, 101, 1), None);
    assert_eq!(arena_allocation(100, 100, 1), Some(0));
}

#[test]
fn successive_blocks_do_not_overlap() {
    let mut remaining = ARENA_SIZE;
    let mut blocks = vec![];
    for (size, align) in [(24usize, 8usize), (100, 64), (7, 1), (4000, 4096)] {
        let o = arena_allocation(remaining, size, align).unwrap();
        assert_eq!(o % align, 0);
        assert!(o + size <= remaining);
        blocks.push((o, size));
        remaining = o;
    }
    for w in blocks.windows(2) {
        assert!(w[1].0 + w[1].1 <= w[0].0);
    }
}
