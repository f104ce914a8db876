use esnode_core::schedule::{next_tick_at, tick_healthy, tsdb_write_due};
use esnode_core::status::{degradation_score, CollectorError, DegradationFlags, ErrorRing};

#[test]
fn degradation_score_counts_raised_flags() {
    assert_eq!(degradation_score(&DegradationFlags::default()), 0);
    assert_eq!(degradation_score(&DegradationFlags { disk: true, network: false, swap: true }), 2);
    assert_eq!(degradation_score(&DegradationFlags { disk: true, network: true, swap: true }), 3);
}

#[test]
fn error_ring_keeps_last_ten() {
    let mut ring = ErrorRing::new();
    for n in 0..12u64 {
        ring.record_error(CollectorError { collector: String::from("cpu"), message: format!("e{n}"), unix_ms: n });
    }
    let errs = ring.errors();
    assert_eq!(errs.len(), 10);
    assert_eq!(errs[0].unix_ms, 2);
    assert_eq!(errs[9].message, "e11");
}

#[test]
fn health_requires_every_collector() {
    assert!(tick_healthy(&vec![true, true]));
    assert!(!tick_healthy(&vec![true, false, true]));
    assert!(tick_healthy(&Vec::new()));
}

#[test]
fn slow_tick_delays_next_without_overlap() {
    assert_eq!(next_tick_at(1000, 1200, 5000), 6000);
    assert_eq!(next_tick_at(1000, 9000, 5000), 9000);
    assert!(tsdb_write_due(30_000, 0));
    assert!(!tsdb_write_due(29_999, 0));
}

#[test]
fn snapshot_score_matches_its_flags() {
    let s = DegradationFlags { disk: false, network: true, swap: true }.snapshot();
    assert!(!s.disk_degraded && s.network_degraded && s.swap_degraded);
    assert_eq!(s.degradation_score, 2);
}
