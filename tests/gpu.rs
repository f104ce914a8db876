use esnode_core::gpu::{build_filter, device_visible, event_kind, gpu_step, k8s_resource_name, mig_tree, throttle_flags, ComputeInstanceNode, EventQueue, EventRecord, GpuCounters, GpuInstanceNode, GpuReading, LinkCounters, MigDeviceStatus, ThrottleFlags, EVENT_QUEUE_CAPACITY};

fn ev(n: u64) -> EventRecord {
    EventRecord { uuid: String::from("GPU-1"), index: String::from("0"), kind: String::from("xid"), xid_code: Some(79), ts_ms: n }
}

#[test]
fn filter_all_or_empty_admits_everything() {
    assert!(build_filter(None).is_none());
    assert!(build_filter(Some("")).is_none());
    assert!(build_filter(Some("all")).is_none());
}

#[test]
fn filter_lists_trimmed_distinct_entries() {
    let f = build_filter(Some(" GPU-123 ,1,, 1 ")).expect("filter");
    assert_eq!(f, vec![String::from("GPU-123"), String::from("1")]);
    let some = Some(f);
    assert!(device_visible(&some, "GPU-123", "5"));
    assert!(device_visible(&some, "GPU-9", "1"));
    assert!(!device_visible(&some, "GPU-9", "2"));
    assert!(device_visible(&None, "GPU-9", "2"));
}

#[test]
fn k8s_names() {
    assert_eq!(k8s_resource_name("nvidia.com", None), "nvidia.com/gpu");
    assert_eq!(k8s_resource_name("nvidia.com", Some("1g.5gb")), "nvidia.com/mig-1g-5gb");
}

#[test]
fn event_queue_drops_oldest_when_full() {
    let mut q = EventQueue::new();
    for n in 0..(EVENT_QUEUE_CAPACITY as u64 + 3) {
        q.push(ev(n));
    }
    assert_eq!(q.dropped, 3);
    let got = q.drain();
    assert_eq!(got.len(), EVENT_QUEUE_CAPACITY);
    assert_eq!(got[0].ts_ms, 3);
    assert_eq!(got[got.len() - 1].ts_ms, EVENT_QUEUE_CAPACITY as u64 + 2);
    assert_eq!(q.delivered, EVENT_QUEUE_CAPACITY as u64);
    q.push(ev(1000));
    let again = q.drain();
    assert_eq!(again.len(), 1);
    assert_eq!(q.delivered + q.dropped, EVENT_QUEUE_CAPACITY as u64 + 4);
}

fn reading(vol: (u64, u64), replay: Option<u64>, links: Vec<LinkCounters>, mask: Option<u64>) -> GpuReading {
    GpuReading {
        ecc_volatile_corrected: Some(vol.0),
        ecc_volatile_uncorrected: Some(vol.1),
        ecc_aggregate_corrected: None,
        ecc_aggregate_uncorrected: Some(1),
        pcie_replay: replay,
        links,
        throttle_mask: mask,
    }
}

fn link(rx: u64, err: u64) -> LinkCounters {
    LinkCounters { rx_bytes: Some(rx), tx_bytes: None, dl_replay: Some(err), dl_recovery: None, dl_crc_flit: None, dl_crc_data: None }
}

#[test]
fn gpu_first_reading_primes_then_deltas() {
    let mut state = GpuCounters::new();
    let d = gpu_step(&mut state, &reading((3, 1), Some(10), vec![link(100, 2)], Some(0x40)));
    assert_eq!((d.ecc_volatile, d.ecc_aggregate, d.pcie_replay), (None, None, None));
    assert!(!d.ecc_degraded);
    assert_eq!(d.links[0].rx_bytes, None);
    assert_eq!(d.throttle, Some(ThrottleFlags { thermal: true, power: false, other: false }));
    let d = gpu_step(&mut state, &reading((5, 1), Some(7), vec![link(150, 2), link(9, 9)], None));
    assert_eq!(d.ecc_volatile, Some(2));
    assert!(d.ecc_degraded);
    assert_eq!(d.pcie_replay, Some(0));
    assert_eq!(d.links[0].rx_bytes, Some(50));
    assert_eq!(d.links[0].dl_replay, Some(0));
    assert_eq!(d.links[1].rx_bytes, None);
    assert_eq!(d.throttle, None);
    let d = gpu_step(&mut state, &reading((5, 1), Some(8), vec![link(150, 2), link(12, 9)], Some(0)));
    assert!(!d.ecc_degraded);
    assert_eq!(d.pcie_replay, Some(1));
    assert_eq!(d.links[1].rx_bytes, Some(3));
    assert_eq!(d.throttle, Some(ThrottleFlags { thermal: false, power: false, other: true }));
}

#[test]
fn throttle_masks_split_into_flags() {
    assert_eq!(throttle_flags(0x20), ThrottleFlags { thermal: true, power: false, other: false });
    assert_eq!(throttle_flags(0x04), ThrottleFlags { thermal: false, power: true, other: false });
    assert_eq!(throttle_flags(0x80 | 0x40), ThrottleFlags { thermal: true, power: true, other: false });
    assert_eq!(throttle_flags(0x1), ThrottleFlags { thermal: false, power: false, other: true });
}

#[test]
fn mig_tree_keeps_order_and_drops_orphans() {
    let gis = vec![GpuInstanceNode { id: 1, profile_id: Some(9), placement: None }, GpuInstanceNode { id: 2, profile_id: None, placement: None }];
    let ci = |gi: u32, id: u32| ComputeInstanceNode { gpu_instance_id: gi, id, profile_id: None, eng_profile_id: None, placement: None };
    let devs = vec![MigDeviceStatus { id: String::from("mig0"), ..Default::default() }];
    let t = mig_tree(true, true, gis, vec![ci(2, 0), ci(7, 0), ci(1, 1)], devs);
    assert_eq!(t.gpu_instances.iter().map(|g| g.id).collect::<Vec<_>>(), vec![1, 2]);
    assert_eq!(t.compute_instances.iter().map(|c| (c.gpu_instance_id, c.id)).collect::<Vec<_>>(), vec![(2, 0), (1, 1)]);
    assert_eq!(t.devices[0].id, "mig0");
    assert!(t.supported && t.enabled);
}

#[test]
fn event_kinds_from_masks() {
    assert_eq!(event_kind(1), "ecc_single");
    assert_eq!(event_kind(2), "ecc_double");
    assert_eq!(event_kind(8), "xid");
    assert_eq!(event_kind(4), "pstate");
    assert_eq!(event_kind(16), "clock");
    assert_eq!(event_kind(64), "other");
    assert_eq!(event_kind(1 | 8), "ecc_single");
}
