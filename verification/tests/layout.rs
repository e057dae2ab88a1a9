use spsc::{padded, unpadded};

/// The layout claim of the padded variant, read off a padded ring: `head`
/// and `tail` sit at line multiples of the index block and a full line apart.
#[test]
fn head_and_tail_on_separate_cache_lines() {
    let ring = padded::new_ring::<u64>(1024);
    let (head, tail) = ring.index_offsets();
    assert_eq!(head % 128, 0, "head offset {head} not line-aligned");
    assert_eq!(tail % 128, 0, "tail offset {tail} not line-aligned");
    assert!(
        head.abs_diff(tail) >= 128,
        "head at {head} and tail at {tail} share a cache line"
    );
}

#[test]
fn unpadded_indices_are_adjacent_words() {
    let ring = unpadded::new_ring::<u64>(1024);
    let (head, tail) = ring.index_offsets();
    assert_eq!(head, 0);
    assert_eq!(tail, std::mem::size_of::<usize>());
}
