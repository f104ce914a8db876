use esnode_core::counter::{counter_delta, CounterTracker};

#[test]
fn wrap_around_with_declared_range() {
    assert_eq!(counter_delta(10, 5, Some(256)), 251);
}

#[test]
fn backward_move_without_range_is_zero() {
    assert_eq!(counter_delta(10, 5, None), 0);
    assert_eq!(counter_delta(10, 5, Some(3)), 0);
    assert_eq!(counter_delta(5, 10, Some(256)), 5);
}

#[test]
fn priming_reading_emits_nothing() {
    let mut t = CounterTracker::new(None);
    assert_eq!(t.observe(100), None);
    assert_eq!(t.total(), 0);
    assert_eq!(t.observe(130), Some(30));
    assert_eq!(t.total(), 30);
}

#[test]
fn total_is_sum_of_deltas_and_never_decreases() {
    let mut t = CounterTracker::new(Some(256));
    let readings = [10u64, 20, 250, 4, 0, 9];
    let mut last = 0u128;
    for r in readings {
        t.observe(r);
        assert!(t.total() >= last);
        last = t.total();
    }
    // 10 + 230 + (256 - 246) + (256 - 4) + 9
    assert_eq!(t.total(), 10 + 230 + 10 + 252 + 9);
}
