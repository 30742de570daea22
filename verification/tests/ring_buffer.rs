use aimcore::ring::RingBuffer;

#[test]
fn fresh_buffer_is_empty() {
    let rb = RingBuffer::<4>::default();
    assert!(rb.is_empty());
    assert_eq!(rb.len(), 0);
    assert_eq!(rb.sum(), 0);
    assert_eq!(rb.max(), 0);
}

#[test]
fn push_grows_until_capacity() {
    let mut rb = RingBuffer::<4>::default();
    rb.push(7);
    assert!(!rb.is_empty());
    assert_eq!(rb.len(), 1);
    assert_eq!(rb.sum(), 7);
    rb.push(9);
    assert_eq!(rb.len(), 2);
    assert_eq!(rb.sum(), 16);
}

#[test]
fn wraparound_keeps_last_capacity_samples() {
    // after pushing [1, 2, 3, 4, 5] into a 4-slot buffer the logical
    // length is 4 and the stored samples are the last four pushes in
    // some order (positional order is not promised after wraparound)
    let mut rb = RingBuffer::<4>::default();
    for v in 1..=5 {
        rb.push(v);
    }
    assert_eq!(rb.len(), 4);
    assert_eq!(rb.sum(), 2 + 3 + 4 + 5);
    let mut stored: Vec<i64> = (0..rb.len()).map(|i| rb.get(i)).collect();
    stored.sort();
    assert_eq!(stored, vec![2, 3, 4, 5]);
}

#[test]
fn max_tracks_largest_stored_sample() {
    let mut rb = RingBuffer::<8>::default();
    rb.push(3);
    rb.push(11);
    rb.push(-5);
    assert_eq!(rb.max(), 11);
}

#[test]
fn max_after_wraparound_sees_only_stored_samples() {
    let mut rb = RingBuffer::<2>::default();
    rb.push(100);
    rb.push(1);
    rb.push(2);
    // 100 was overwritten by the third push
    assert_eq!(rb.max(), 2);
    assert_eq!(rb.sum(), 3);
}
