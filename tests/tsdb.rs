use esnode_core::tsdb::{block_window, dir_name, BlockMeta, BufferState};

#[test]
fn windows_are_two_hours_wide_and_floor_aligned() {
    assert_eq!(block_window(1_000_000), (0, 7_200_000));
    assert_eq!(block_window(7_200_000), (7_200_000, 14_400_000));
    assert_eq!(block_window(-1), (-7_200_000, 0));
}

#[test]
fn block_roll_over_opens_second_window() {
    let mut state = BufferState::new();
    let m = String::from("cpu_load");
    let p1 = state.place(&m, 1_000_000, 7);
    assert!(p1.opened && p1.finished.is_none());
    assert_eq!(state.current_dir_name(), Some(String::from("0-7200000")));
    let p2 = state.place(&m, 7_201_000, 7);
    assert!(p2.opened);
    let finished = p2.finished.expect("first block finished");
    assert_eq!(dir_name(finished.start_ms, finished.end_ms), "0-7200000");
    assert_eq!(finished.samples, 1);
    assert_eq!(state.current_dir_name(), Some(String::from("7200000-14400000")));
    assert_eq!(state.snapshot().map(|b| b.samples), Some(1));
}

#[test]
fn same_window_appends_and_counts_per_metric() {
    let mut state = BufferState::new();
    let a = String::from("gpu_power");
    let b = String::from("cpu_load");
    state.place(&a, 100, 1);
    let p = state.place(&b, 150, 2);
    assert!(!p.opened && p.finished.is_none());
    state.place(&a, 200, 1);
    let meta = state.snapshot().expect("open block");
    assert_eq!(meta.samples, 3);
    assert_eq!(meta.metric_count(&a), 2);
    assert_eq!(meta.metric_count(&b), 1);
    assert_eq!(meta.metric_count(&String::from("absent")), 0);
    assert_eq!(meta.label_hash_counts.len(), 2);
}

#[test]
fn flush_follows_thirty_second_rule() {
    let mut state = BufferState::new();
    let m = String::from("m");
    let p = state.place(&m, 10_000, 0);
    assert!(!p.flush);
    let p = state.place(&m, 29_999, 0);
    assert!(!p.flush);
    let p = state.place(&m, 30_000, 0);
    assert!(p.flush);
    let p = state.place(&m, 59_999, 0);
    assert!(!p.flush);
    assert!(BlockMeta::flush_due(0, 30_000));
}

#[test]
fn finish_closes_open_block() {
    let mut state = BufferState::new();
    assert!(state.finish().is_none());
    state.place(&String::from("m"), 5, 0);
    let meta = state.finish().expect("open block");
    assert_eq!((meta.start_ms, meta.end_ms), (0, 7_200_000));
    assert!(state.snapshot().is_none());
}

#[test]
fn snapshot_twice_sees_same_metadata() {
    let mut state = BufferState::new();
    state.place(&String::from("m"), 5, 0);
    let a = state.snapshot().map(|b| (b.start_ms, b.samples, b.metric_counts.clone()));
    let b = state.snapshot().map(|b| (b.start_ms, b.samples, b.metric_counts.clone()));
    assert_eq!(a, b);
}
