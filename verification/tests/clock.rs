use adaptive_concurrency::clock::now_ns;

#[test]
fn time_is_counted_in_nanoseconds() {
    assert_eq!(now_ns(Some(1_700_000_000_000_000_000)), 1_700_000_000_000_000_000);
    assert_eq!(now_ns(Some(0)), 0);
}

#[test]
fn time_before_the_epoch_is_zero() {
    assert_eq!(now_ns(None), 0);
}

#[test]
fn time_beyond_the_range_starts_over() {
    assert_eq!(now_ns(Some(u64::MAX as u128)), u64::MAX);
    assert_eq!(now_ns(Some(u64::MAX as u128 + 6)), 5);
}
