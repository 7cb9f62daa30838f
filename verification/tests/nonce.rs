use backrun::nonce::NonceWatch;

#[test]
fn stuck_counter_is_set_back_at_the_fourth_repetition() {
    let mut watch = NonceWatch::new();
    for _ in 0..4 {
        assert_eq!(watch.observe(12, 10), None);
    }
    assert_eq!(watch.observe(12, 10), Some(10));
    assert_eq!(watch.stall_count, 0);
    assert_eq!(watch.last_seen, Some(10));
}

#[test]
fn progress_of_the_chain_starts_the_count_again() {
    let mut watch = NonceWatch::new();
    for chain in [10, 10, 10, 10, 11, 11, 11, 11] {
        assert_eq!(watch.observe(20, chain), None);
    }
    assert_eq!(watch.observe(20, 11), Some(11));
}

#[test]
fn counter_that_is_not_ahead_is_left_alone() {
    let mut watch = NonceWatch::new();
    for _ in 0..10 {
        assert_eq!(watch.observe(10, 10), None);
        assert_eq!(watch.observe(9, 10), None);
    }
    assert_eq!(watch.stall_count, 0);
    for _ in 0..3 {
        assert_eq!(watch.observe(11, 10), None);
    }
    assert_eq!(watch.observe(10, 10), None);
    assert_eq!(watch.stall_count, 0);
}
