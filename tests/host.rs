use esnode_core::host::{parse_node_meminfo, CpuTracker, PrevTable, network_degraded, parse_tcp_retrans, parse_netdev, parse_vmstat_paging, NetDevVals, cpu_deltas, disk_degraded, disk_delta, disk_flags, parse_diskstats, pick_primary, swap_spike, DiskFlags, DiskIo, IfaceTraffic};
use esnode_core::procfs::{parse_counter_file, parse_cpulist, parse_proc_stat};

#[test]
fn cpu_tick_deltas_convert_to_seconds() {
    let a = parse_proc_stat("cpu 100 0 50 800 0 0 0 0\nintr 5 1 2\nctxt 9\n").expect("first read");
    let b = parse_proc_stat("cpu 110 0 60 810 0 0 0 0\nintr 8\nctxt 12\n").expect("second read");
    let d = cpu_deltas(&a, &b);
    let ticks_per_sec = 100.0;
    assert_eq!(d.user as f64 / ticks_per_sec, 0.1);
    assert_eq!(d.system as f64 / ticks_per_sec, 0.1);
    assert_eq!(d.idle as f64 / ticks_per_sec, 0.1);
    assert_eq!((d.nice, d.iowait, d.irq, d.softirq, d.steal), (0, 0, 0, 0, 0));
    assert_eq!((d.interrupts, d.ctxt), (3, 3));
}

#[test]
fn proc_stat_reads_steal_and_ignores_per_core_lines() {
    let s = parse_proc_stat("cpu  1 2 3 4 5 6 7 8 9 10\ncpu0 99 99 99 99 99 99 99 99\n").expect("read");
    assert_eq!((s.user, s.nice, s.system, s.idle, s.iowait, s.irq, s.softirq, s.steal), (1, 2, 3, 4, 5, 6, 7, 8));
    assert_eq!((s.interrupts, s.ctxt), (0, 0));
}

#[test]
fn proc_stat_rejects_bad_counter() {
    assert!(parse_proc_stat("cpu 1 2 x 4 5 6 7\n").is_none());
    assert!(parse_proc_stat("ctxt -3\n").is_none());
    assert!(parse_proc_stat("cpu 1 2\n").is_some());
}

#[test]
fn backwards_cpu_counter_contributes_zero() {
    let a = parse_proc_stat("cpu 100 0 0 0 0 0 0 0\n").expect("read");
    let b = parse_proc_stat("cpu 90 0 0 0 0 0 0 0\n").expect("read");
    assert_eq!(cpu_deltas(&a, &b).user, 0);
}

#[test]
fn swap_spike_over_ten_mib() {
    assert!(!swap_spike(10 * 1024 * 1024, 0));
    assert!(swap_spike(10 * 1024 * 1024 + 1, 0));
    assert!(swap_spike(0, 11 * 1024 * 1024));
}

#[test]
fn disk_busy_and_slow_flags() {
    assert_eq!(disk_flags(800, 100, 1000), DiskFlags { busy: true, slow: false });
    assert_eq!(disk_flags(799, 100, 1000), DiskFlags { busy: false, slow: false });
    assert_eq!(disk_flags(510, 10, 1000), DiskFlags { busy: false, slow: true });
    assert_eq!(disk_flags(500, 10, 0), DiskFlags { busy: false, slow: false });
    assert_eq!(disk_flags(100, 0, 1000), DiskFlags { busy: false, slow: false });
    assert!(disk_degraded(&vec![DiskFlags { busy: false, slow: false }, DiskFlags { busy: false, slow: true }]));
    assert!(!disk_degraded(&vec![DiskFlags { busy: false, slow: false }]));
}

#[test]
fn diskstats_lines_and_deltas() {
    let text = "   8       0 sda 10 0 20 0 30 0 40 0 0 50 0\n 8 1 sda1 1 2\n   8       0 sdb 1 0 2 0 3 0 4 0 0 5 0 0 0 0\n";
    let devs = parse_diskstats(text);
    assert_eq!(devs.len(), 2);
    assert_eq!(devs[0].0, "sda");
    assert_eq!(devs[0].1, DiskIo { reads_completed: 10, sectors_read: 20, writes_completed: 30, sectors_written: 40, io_time_ms: 50 });
    assert_eq!(devs[1].0, "sdb");
    let prev = DiskIo { reads_completed: 4, sectors_read: 10, writes_completed: 30, sectors_written: 50, io_time_ms: 20 };
    let d = disk_delta(&prev, &devs[0].1);
    assert_eq!((d.read_ops, d.write_ops, d.read_bytes, d.written_bytes, d.io_time_ms), (6, 0, 5120, 0, 30));
}

#[test]
fn primary_interface_skips_loopback_and_idle() {
    let ifaces = vec![
        IfaceTraffic { name: String::from("lo"), rx_delta: 1000, tx_delta: 1000 },
        IfaceTraffic { name: String::from("eth0"), rx_delta: 10, tx_delta: 5 },
        IfaceTraffic { name: String::from("eth1"), rx_delta: 15, tx_delta: 0 },
        IfaceTraffic { name: String::from("eth2"), rx_delta: 20, tx_delta: 0 },
    ];
    assert_eq!(pick_primary(&ifaces), Some(3));
    let idle = vec![IfaceTraffic { name: String::from("eth0"), rx_delta: 0, tx_delta: 0 }];
    assert_eq!(pick_primary(&idle), None);
    let tie = vec![
        IfaceTraffic { name: String::from("a"), rx_delta: 5, tx_delta: 0 },
        IfaceTraffic { name: String::from("b"), rx_delta: 0, tx_delta: 5 },
    ];
    assert_eq!(pick_primary(&tie), Some(0));
}

#[test]
fn netdev_skips_headers_and_reads_counters() {
    let text = "Inter-|   Receive |  Transmit\n face |bytes packets errs drop|bytes\n    lo: 100 2 0 0 0 0 0 0 100 2 0 0 0 0 0 0\n  eth0: 5000 40 0 3 0 0 0 0 7000 50 0 4 0 0 0 0\n  bad: 1 2 3\n";
    let devs = parse_netdev(text);
    assert_eq!(devs.len(), 2);
    assert_eq!(devs[0].0, "lo");
    assert_eq!(devs[1].0, "eth0");
    assert_eq!(devs[1].1, NetDevVals { rx_bytes: 5000, tx_bytes: 7000, rx_packets: 40, tx_packets: 50, rx_dropped: 3, tx_dropped: 4 });
}

#[test]
fn vmstat_paging_counters() {
    assert_eq!(parse_vmstat_paging("nr_free 5\npgpgin 100\npgpgout 200\n"), Some((100, 200)));
    assert_eq!(parse_vmstat_paging("pgpgin x\n"), None);
    assert_eq!(parse_vmstat_paging(""), Some((0, 0)));
}

#[test]
fn cpulist_ranges_and_singles() {
    assert_eq!(parse_cpulist("0-3,8\n"), vec![0, 1, 2, 3, 8]);
    assert_eq!(parse_cpulist(" 5 "), vec![5]);
    assert_eq!(parse_cpulist("3-1,x,4-,7"), vec![7]);
    assert_eq!(parse_cpulist(""), Vec::<u64>::new());
}

#[test]
fn counter_file_is_trimmed_number() {
    assert_eq!(parse_counter_file("262143328850\n"), Some(262143328850));
    assert_eq!(parse_counter_file("n/a\n"), None);
}

#[test]
fn tcp_retrans_from_netstat() {
    let text = "TcpExt: SyncookiesSent TCPSegRetrans Other\nTcpExt: 0 42 7\nIpExt: InNoRoutes\nIpExt: 0\n";
    assert_eq!(parse_tcp_retrans(text), Some(42));
    assert_eq!(parse_tcp_retrans("TcpExt: A B\nTcpExt: 1 2\n"), None);
    assert_eq!(parse_tcp_retrans("TcpExt: TCPSegRetrans\n"), None);
}

#[test]
fn network_flag_from_drops_or_retransmissions() {
    assert!(network_degraded(true, None));
    assert!(network_degraded(false, Some(3)));
    assert!(!network_degraded(false, Some(0)));
    assert!(!network_degraded(false, None));
}

#[test]
fn trackers_prime_on_first_reading() {
    let mut cpu = CpuTracker::new();
    let a = parse_proc_stat("cpu 100 0 50 800 0 0 0 0\n").expect("read");
    let b = parse_proc_stat("cpu 110 0 60 810 0 0 0 0\n").expect("read");
    assert!(cpu.observe(a).is_none());
    assert_eq!(cpu.observe(b).map(|d| d.user), Some(10));
    let mut t: PrevTable<u64> = PrevTable::new();
    assert_eq!(t.swap_in(&String::from("eth0"), 5), None);
    assert_eq!(t.swap_in(&String::from("eth1"), 7), None);
    assert_eq!(t.swap_in(&String::from("eth0"), 9), Some(5));
    assert_eq!(t.swap_in(&String::from("eth0"), 1), Some(9));
    assert_eq!(t.entries.len(), 2);
}

#[test]
fn node_meminfo_entries() {
    let e = parse_node_meminfo("Node 0 MemTotal:       16384 kB\nNode 0 MemFree: 8192 kB\nNode 0 Bad: x kB\nshort\n");
    assert_eq!(e, vec![(String::from("MemTotal"), 16384), (String::from("MemFree"), 8192)]);
}
