//! Decisions the host collectors make from raw counter readings: per-state
//! CPU time deltas, disk busy and latency flags, the paging spike flag and
//! the choice of the primary network interface.
use vstd::prelude::*;
use crate::procfs::{CpuStat, SPLIT_LINES, SPLIT_WORDS, copy_range, split_pieces, text_lines, trim_blank_ends, trim_ends, words};
use crate::text::{chars_eq, chars_of, is_prefix, parse_u64, starts_with_chars, string_of, u64_of};

verus! {

/// `a - b`, or 0 when `b` is larger.
pub open spec fn sat_sub(a: u64, b: u64) -> u64 {
    if a >= b {
        (a - b) as u64
    } else {
        0
    }
}

/// The increase of every CPU counter between two reads of `/proc/stat`; a
/// counter that went backwards contributes 0.
pub fn cpu_deltas(prev: &CpuStat, curr: &CpuStat) -> (d: CpuStat)
    ensures
        d.user == sat_sub(curr.user, prev.user),
        d.nice == sat_sub(curr.nice, prev.nice),
        d.system == sat_sub(curr.system, prev.system),
        d.idle == sat_sub(curr.idle, prev.idle),
        d.iowait == sat_sub(curr.iowait, prev.iowait),
        d.irq == sat_sub(curr.irq, prev.irq),
        d.softirq == sat_sub(curr.softirq, prev.softirq),
        d.steal == sat_sub(curr.steal, prev.steal),
        d.interrupts == sat_sub(curr.interrupts, prev.interrupts),
        d.ctxt == sat_sub(curr.ctxt, prev.ctxt),
{
    CpuStat {
        user: curr.user.saturating_sub(prev.user),
        nice: curr.nice.saturating_sub(prev.nice),
        system: curr.system.saturating_sub(prev.system),
        idle: curr.idle.saturating_sub(prev.idle),
        iowait: curr.iowait.saturating_sub(prev.iowait),
        irq: curr.irq.saturating_sub(prev.irq),
        softirq: curr.softirq.saturating_sub(prev.softirq),
        steal: curr.steal.saturating_sub(prev.steal),
        interrupts: curr.interrupts.saturating_sub(prev.interrupts),
        ctxt: curr.ctxt.saturating_sub(prev.ctxt),
    }
}

/// The previous `/proc/stat` reading of the CPU collector.
pub struct CpuTracker {
    pub prev: Option<CpuStat>,
}

impl CpuTracker {
    /// A tracker that has read nothing yet.
    pub fn new() -> (t: Self)
        ensures
            t.prev is None,
    {
        CpuTracker { prev: None }
    }

    /// Records a reading: the first one only primes and yields nothing;
    /// later ones yield the deltas from the previous reading.
    pub fn observe(&mut self, stat: CpuStat) -> (d: Option<CpuStat>)
        ensures
            final(self).prev == Some(stat),
            old(self).prev is None ==> d is None,
            old(self).prev matches Some(p) ==> d == Some(CpuStat {
                user: sat_sub(stat.user, p.user),
                nice: sat_sub(stat.nice, p.nice),
                system: sat_sub(stat.system, p.system),
                idle: sat_sub(stat.idle, p.idle),
                iowait: sat_sub(stat.iowait, p.iowait),
                irq: sat_sub(stat.irq, p.irq),
                softirq: sat_sub(stat.softirq, p.softirq),
                steal: sat_sub(stat.steal, p.steal),
                interrupts: sat_sub(stat.interrupts, p.interrupts),
                ctxt: sat_sub(stat.ctxt, p.ctxt),
            }),
    {
        let d = match &self.prev {
            Some(p) => Some(cpu_deltas(p, &stat)),
            None => None,
        };
        self.prev = Some(stat);
        d
    }
}

/// Whether the entries of a table have pairwise distinct names.
pub open spec fn distinct_keys<T>(e: Seq<(String, T)>) -> bool {
    forall|i: int, j: int| 0 <= i < e.len() && 0 <= j < e.len() && i != j ==> e[i].0@ != e[j].0@
}

/// The value a table holds for `k`, if any.
pub open spec fn lookup<T>(e: Seq<(String, T)>, k: Seq<char>) -> Option<T> {
    if exists|i: int| 0 <= i < e.len() && #[trigger] e[i].0@ == k {
        Some(e[choose|i: int| 0 <= i < e.len() && #[trigger] e[i].0@ == k].1)
    } else {
        None
    }
}

/// The previous reading of each named device or interface.
pub struct PrevTable<T> {
    pub entries: Vec<(String, T)>,
}

impl<T: Copy> PrevTable<T> {
    pub open spec fn wf(&self) -> bool {
        distinct_keys(self.entries@)
    }

    /// An empty table.
    pub fn new() -> (t: Self)
        ensures
            t.wf(),
            forall|k: Seq<char>| lookup(t.entries@, k) is None,
    {
        PrevTable { entries: Vec::new() }
    }

    /// Stores `v` as the reading of `key` and returns the previous one; the
    /// first reading of a key returns nothing.
    pub fn swap_in(&mut self, key: &String, v: T) -> (prev: Option<T>)
        requires
            old(self).wf(),
        ensures
            final(self).wf(),
            prev == lookup(old(self).entries@, key@),
            lookup(final(self).entries@, key@) == Some(v),
            forall|k: Seq<char>| k != key@ ==> #[trigger] lookup(final(self).entries@, k) == lookup(old(self).entries@, k),
    {
        let mut i: usize = 0;
        while i < self.entries.len()
            invariant
                i <= self.entries.len(),
                self.entries@ == old(self).entries@,
                distinct_keys(old(self).entries@),
                forall|j: int| 0 <= j < i ==> self.entries@[j].0@ != key@,
            decreases self.entries.len() - i,
        {
            if self.entries[i].0 == *key {
                let ghost before = self.entries@;
                let p = self.entries[i].1;
                let k = self.entries[i].0.clone();
                proof {
                    assert(before[i as int].0@ == key@);
                    let x = choose|x: int| 0 <= x < before.len() && #[trigger] before[x].0@ == key@;
                    assert(x == i);
                }
                self.entries.set(i, (k, v));
                proof {
                    let after = self.entries@;
                    assert(after[i as int].0@ == key@);
                    let x = choose|x: int| 0 <= x < after.len() && #[trigger] after[x].0@ == key@;
                    assert(x == i);
                    assert forall|n: Seq<char>| n != key@ implies #[trigger] lookup(after, n) == lookup(before, n) by {
                        if exists|y: int| 0 <= y < before.len() && #[trigger] before[y].0@ == n {
                            let y = choose|y: int| 0 <= y < before.len() && #[trigger] before[y].0@ == n;
                            assert(after[y].0@ == n);
                            let z = choose|z: int| 0 <= z < after.len() && #[trigger] after[z].0@ == n;
                            assert(y == z);
                        } else if exists|z: int| 0 <= z < after.len() && #[trigger] after[z].0@ == n {
                            let z = choose|z: int| 0 <= z < after.len() && #[trigger] after[z].0@ == n;
                            assert(before[z].0@ == n);
                        }
                    }
                }
                return Some(p);
            }
            i = i + 1;
        }
        let ghost before = self.entries@;
        let k = key.clone();
        self.entries.push((k, v));
        proof {
            let after = self.entries@;
            let last = after.len() - 1;
            assert(after[last].0@ == key@);
            let x = choose|x: int| 0 <= x < after.len() && #[trigger] after[x].0@ == key@;
            assert(x == last);
            assert forall|n: Seq<char>| n != key@ implies #[trigger] lookup(after, n) == lookup(before, n) by {
                if exists|y: int| 0 <= y < before.len() && #[trigger] before[y].0@ == n {
                    let y = choose|y: int| 0 <= y < before.len() && #[trigger] before[y].0@ == n;
                    assert(after[y].0@ == n);
                    let z = choose|z: int| 0 <= z < after.len() && #[trigger] after[z].0@ == n;
                    assert(y == z);
                } else if exists|z: int| 0 <= z < after.len() && #[trigger] after[z].0@ == n {
                    let z = choose|z: int| 0 <= z < after.len() && #[trigger] after[z].0@ == n;
                    assert(before[z].0@ == n);
                }
            }
        }
        None
    }
}

/// Paging volume per tick above which the swap spike flag is raised (10 MiB).
pub const SWAP_SPIKE_BYTES: u64 = 10_485_760;

/// Whether the paging deltas of one tick make a swap spike: more than
/// 10 MiB paged in or paged out.
pub fn swap_spike(page_in_delta: u64, page_out_delta: u64) -> (r: bool)
    ensures
        r == (page_in_delta > SWAP_SPIKE_BYTES || page_out_delta > SWAP_SPIKE_BYTES),
{
    page_in_delta > SWAP_SPIKE_BYTES || page_out_delta > SWAP_SPIKE_BYTES
}

/// The two degradation flags of one block device over one tick.
#[derive(Clone, Copy, Debug, PartialEq, Eq)]
pub struct DiskFlags {
    /// The device spent at least 80% of the tick doing I/O.
    pub busy: bool,
    /// The average latency per operation exceeded 50 ms.
    pub slow: bool,
}

/// The flags of a device that spent `io_ms_delta` ms on `ops_delta`
/// operations during a tick of `elapsed_ms` ms.
pub fn disk_flags(io_ms_delta: u64, ops_delta: u64, elapsed_ms: u64) -> (f: DiskFlags)
    ensures
        f.busy == (elapsed_ms > 0 && io_ms_delta as int * 100 >= elapsed_ms as int * 80),
        f.slow == (ops_delta > 0 && io_ms_delta as int > ops_delta as int * 50),
{
    let busy = elapsed_ms > 0 && io_ms_delta as u128 * 100 >= elapsed_ms as u128 * 80;
    let slow = ops_delta > 0 && io_ms_delta as u128 > ops_delta as u128 * 50;
    DiskFlags { busy, slow }
}

/// Whether any device's flags mark the node's disks as degraded.
pub open spec fn any_disk_degraded(flags: Seq<DiskFlags>) -> bool {
    exists|i: int| 0 <= i < flags.len() && ((#[trigger] flags[i]).busy || flags[i].slow)
}

/// The node-level disk flag: set when any device is busy or slow.
pub fn disk_degraded(flags: &Vec<DiskFlags>) -> (r: bool)
    ensures
        r == any_disk_degraded(flags@),
{
    let mut i: usize = 0;
    while i < flags.len()
        invariant
            i <= flags.len(),
            forall|j: int| 0 <= j < i ==> !(#[trigger] flags@[j]).busy && !flags@[j].slow,
        decreases flags.len() - i,
    {
        if flags[i].busy || flags[i].slow {
            return true;
        }
        i = i + 1;
    }
    false
}

/// The counters of one block device in `/proc/diskstats`.
#[derive(Clone, Copy, Debug, PartialEq, Eq)]
pub struct DiskIo {
    pub reads_completed: u64,
    pub sectors_read: u64,
    pub writes_completed: u64,
    pub sectors_written: u64,
    pub io_time_ms: u64,
}

/// Word `i` of `p` as a counter, 0 when it is not a number.
pub open spec fn field_or_zero(p: Seq<Seq<char>>, i: int) -> u64 {
    match u64_of(p[i]) {
        Some(v) => v,
        None => 0,
    }
}

/// The device name and counters of a line with at least 14 words.
pub open spec fn disk_entry(p: Seq<Seq<char>>) -> (Seq<char>, DiskIo) {
    (p[2], DiskIo {
        reads_completed: field_or_zero(p, 3),
        sectors_read: field_or_zero(p, 5),
        writes_completed: field_or_zero(p, 7),
        sectors_written: field_or_zero(p, 9),
        io_time_ms: field_or_zero(p, 12),
    })
}

/// The devices of `/proc/diskstats`, in the order of their lines; lines with
/// fewer than 14 words are skipped.
pub open spec fn diskstats_of_lines(lines: Seq<Seq<char>>) -> Seq<(Seq<char>, DiskIo)>
    decreases lines.len(),
{
    if lines.len() == 0 {
        Seq::empty()
    } else {
        let rest = diskstats_of_lines(lines.drop_last());
        let p = words(lines.last());
        if p.len() >= 14 {
            rest.push(disk_entry(p))
        } else {
            rest
        }
    }
}

fn word_or_zero(p: &Vec<Vec<char>>, i: usize) -> (r: u64)
    requires
        i < p.len(),
    ensures
        r == field_or_zero(p@.map_values(|w: Vec<char>| w@), i as int),
{
    match parse_u64(&p[i]) {
        Some(v) => v,
        None => 0,
    }
}

/// Reads the per-device counters from the text of `/proc/diskstats`.
pub fn parse_diskstats(text: &str) -> (r: Vec<(String, DiskIo)>)
    ensures
        r@.map_values(|e: (String, DiskIo)| (e.0@, e.1)) == diskstats_of_lines(text_lines(text@)),
{
    let cs = chars_of(text);
    let lines = split_pieces(&cs, SPLIT_LINES);
    let ghost lv = lines@.map_values(|w: Vec<char>| w@);
    let mut out: Vec<(String, DiskIo)> = Vec::new();
    let mut i: usize = 0;
    while i < lines.len()
        invariant
            i <= lines.len(),
            lv == lines@.map_values(|w: Vec<char>| w@),
            lv == text_lines(text@),
            out@.map_values(|e: (String, DiskIo)| (e.0@, e.1)) == diskstats_of_lines(lv.subrange(0, i as int)),
        decreases lines.len() - i,
    {
        let ghost before = out@.map_values(|e: (String, DiskIo)| (e.0@, e.1));
        assert(lv.subrange(0, i + 1).drop_last() =~= lv.subrange(0, i as int));
        assert(lv[i as int] == lines@[i as int]@);
        let p = split_pieces(&lines[i], SPLIT_WORDS);
        let ghost pv = p@.map_values(|w: Vec<char>| w@);
        if p.len() >= 14 {
            let dev = string_of(&p[2]);
            let io = DiskIo {
                reads_completed: word_or_zero(&p, 3),
                sectors_read: word_or_zero(&p, 5),
                writes_completed: word_or_zero(&p, 7),
                sectors_written: word_or_zero(&p, 9),
                io_time_ms: word_or_zero(&p, 12),
            };
            out.push((dev, io));
            assert(out@.map_values(|e: (String, DiskIo)| (e.0@, e.1)) =~= before.push(disk_entry(pv)));
        }
        i = i + 1;
    }
    assert(lv.subrange(0, lv.len() as int) =~= lv);
    out
}

/// Bytes per disk sector as `/proc/diskstats` counts them.
pub const SECTOR_BYTES: u64 = 512;

/// `a * b`, or `u64::MAX` when that does not fit.
pub open spec fn sat_mul(a: u64, b: u64) -> u64 {
    if a * b <= u64::MAX {
        (a * b) as u64
    } else {
        u64::MAX
    }
}

fn mul_saturating(a: u64, b: u64) -> (r: u64)
    ensures
        r == sat_mul(a, b),
{
    match a.checked_mul(b) {
        Some(v) => v,
        None => u64::MAX,
    }
}

/// The per-tick change of one device's counters.
#[derive(Clone, Copy, Debug, PartialEq, Eq)]
pub struct DiskDelta {
    pub read_ops: u64,
    pub write_ops: u64,
    pub read_bytes: u64,
    pub written_bytes: u64,
    pub io_time_ms: u64,
}

/// The change between two reads of one device; sector counts become bytes.
pub fn disk_delta(prev: &DiskIo, curr: &DiskIo) -> (d: DiskDelta)
    ensures
        d.read_ops == sat_sub(curr.reads_completed, prev.reads_completed),
        d.write_ops == sat_sub(curr.writes_completed, prev.writes_completed),
        d.read_bytes == sat_mul(sat_sub(curr.sectors_read, prev.sectors_read), SECTOR_BYTES),
        d.written_bytes == sat_mul(sat_sub(curr.sectors_written, prev.sectors_written), SECTOR_BYTES),
        d.io_time_ms == sat_sub(curr.io_time_ms, prev.io_time_ms),
{
    DiskDelta {
        read_ops: curr.reads_completed.saturating_sub(prev.reads_completed),
        write_ops: curr.writes_completed.saturating_sub(prev.writes_completed),
        read_bytes: mul_saturating(curr.sectors_read.saturating_sub(prev.sectors_read), SECTOR_BYTES),
        written_bytes: mul_saturating(curr.sectors_written.saturating_sub(prev.sectors_written), SECTOR_BYTES),
        io_time_ms: curr.io_time_ms.saturating_sub(prev.io_time_ms),
    }
}

/// Traffic of one interface over one tick.
pub struct IfaceTraffic {
    pub name: String,
    pub rx_delta: u64,
    pub tx_delta: u64,
}

/// The traffic score of an interface: received plus sent bytes, saturating.
pub open spec fn traffic(t: IfaceTraffic) -> int {
    if t.rx_delta + t.tx_delta <= u64::MAX {
        t.rx_delta + t.tx_delta
    } else {
        u64::MAX as int
    }
}

/// Whether `t` may be the primary interface: it is not the loopback `lo`.
pub open spec fn eligible(t: IfaceTraffic) -> bool {
    t.name@ != seq!['l', 'o']
}

/// The primary interface: the first eligible interface with the largest
/// positive traffic, or `None` when no eligible interface saw traffic.
pub fn pick_primary(ifaces: &Vec<IfaceTraffic>) -> (r: Option<usize>)
    ensures
        r matches Some(i) ==> i < ifaces.len() && eligible(ifaces@[i as int]) && traffic(ifaces@[i as int]) > 0
            && (forall|j: int| 0 <= j < i && eligible(#[trigger] ifaces@[j]) ==> traffic(ifaces@[j]) < traffic(ifaces@[i as int]))
            && (forall|j: int| i < j < ifaces.len() && eligible(#[trigger] ifaces@[j]) ==> traffic(ifaces@[j]) <= traffic(ifaces@[i as int])),
        r is None ==> forall|j: int| 0 <= j < ifaces.len() && eligible(#[trigger] ifaces@[j]) ==> traffic(ifaces@[j]) == 0,
{
    let lo: Vec<char> = vec!['l', 'o'];
    assert(lo@ =~= seq!['l', 'o']);
    let mut best: Option<usize> = None;
    let mut best_score: u64 = 0;
    let mut i: usize = 0;
    while i < ifaces.len()
        invariant
            i <= ifaces.len(),
            lo@ == seq!['l', 'o'],
            best matches Some(b) ==> b < i && eligible(ifaces@[b as int]) && traffic(ifaces@[b as int]) == best_score
                && best_score > 0
                && (forall|j: int| 0 <= j < b && eligible(#[trigger] ifaces@[j]) ==> traffic(ifaces@[j]) < best_score),
            best is None ==> best_score == 0,
            forall|j: int| 0 <= j < i && eligible(#[trigger] ifaces@[j]) ==> traffic(ifaces@[j]) <= best_score,
        decreases ifaces.len() - i,
    {
        let name = chars_of(ifaces[i].name.as_str());
        if !chars_eq(&name, &lo) {
            let score = ifaces[i].rx_delta.saturating_add(ifaces[i].tx_delta);
            if score > best_score {
                best = Some(i);
                best_score = score;
            }
        }
        i = i + 1;
    }
    best
}

/// Byte, packet and drop counters of one interface in `/proc/net/dev`.
#[derive(Clone, Copy, Debug, PartialEq, Eq)]
pub struct NetDevVals {
    pub rx_bytes: u64,
    pub tx_bytes: u64,
    pub rx_packets: u64,
    pub tx_packets: u64,
    pub rx_dropped: u64,
    pub tx_dropped: u64,
}

/// Whether `line` has a `:` at index `k` and none before it.
pub open spec fn first_colon_at(line: Seq<char>, k: int) -> bool {
    0 <= k < line.len() && line[k] == ':' && forall|j: int| 0 <= j < k ==> #[trigger] line[j] != ':'
}

/// The interface entry of one line of `/proc/net/dev`: the name before the
/// first `:` without surrounding blanks, and the counters among the words
/// after it, when there are at least 16 of them.
pub open spec fn netdev_entry(line: Seq<char>) -> Option<(Seq<char>, NetDevVals)> {
    if exists|k: int| first_colon_at(line, k) {
        let k = choose|k: int| first_colon_at(line, k);
        let rest = words(line.subrange(k + 1, line.len() as int));
        if rest.len() >= 16 {
            Some((trim_blank_ends(line.subrange(0, k)), NetDevVals {
                rx_bytes: field_or_zero(rest, 0),
                tx_bytes: field_or_zero(rest, 8),
                rx_packets: field_or_zero(rest, 1),
                rx_dropped: field_or_zero(rest, 3),
                tx_packets: field_or_zero(rest, 9),
                tx_dropped: field_or_zero(rest, 11),
            }))
        } else {
            None
        }
    } else {
        None
    }
}

/// The interfaces of `/proc/net/dev` after its two header lines, in order.
pub open spec fn netdev_of_lines(lines: Seq<Seq<char>>) -> Seq<(Seq<char>, NetDevVals)>
    decreases lines.len(),
{
    if lines.len() <= 2 {
        Seq::empty()
    } else {
        let rest = netdev_of_lines(lines.drop_last());
        match netdev_entry(lines.last()) {
            Some(e) => rest.push(e),
            None => rest,
        }
    }
}

fn netdev_line(line: &Vec<char>) -> (r: Option<(String, NetDevVals)>)
    ensures
        r is None <==> netdev_entry(line@) is None,
        r matches Some(e) ==> netdev_entry(line@) == Some((e.0@, e.1)),
{
    let mut k: usize = 0;
    while k < line.len() && line[k] != ':'
        invariant
            k <= line.len(),
            forall|j: int| 0 <= j < k ==> #[trigger] line@[j] != ':',
        decreases line.len() - k,
    {
        k = k + 1;
    }
    if k == line.len() {
        proof {
            assert forall|k2: int| !first_colon_at(line@, k2) by {
                if first_colon_at(line@, k2) {
                    assert(line@[k2] == ':');
                }
            }
        }
        return None;
    }
    proof {
        assert(first_colon_at(line@, k as int));
        let kk = choose|k2: int| first_colon_at(line@, k2);
        if kk < k {
            assert(line@[kk] == ':');
        } else if kk > k {
            assert(line@[k as int] == ':');
        }
    }
    let tail = copy_range(line, k + 1, line.len());
    let rest = split_pieces(&tail, SPLIT_WORDS);
    if rest.len() < 16 {
        return None;
    }
    let name = trim_ends(line, 0, k);
    let vals = NetDevVals {
        rx_bytes: word_or_zero(&rest, 0),
        tx_bytes: word_or_zero(&rest, 8),
        rx_packets: word_or_zero(&rest, 1),
        rx_dropped: word_or_zero(&rest, 3),
        tx_packets: word_or_zero(&rest, 9),
        tx_dropped: word_or_zero(&rest, 11),
    };
    Some((string_of(&name), vals))
}

/// Reads the per-interface byte, packet and drop counters from the text of
/// `/proc/net/dev`.
pub fn parse_netdev(text: &str) -> (r: Vec<(String, NetDevVals)>)
    ensures
        r@.map_values(|e: (String, NetDevVals)| (e.0@, e.1)) == netdev_of_lines(text_lines(text@)),
{
    let cs = chars_of(text);
    let lines = split_pieces(&cs, SPLIT_LINES);
    let ghost lv = lines@.map_values(|w: Vec<char>| w@);
    let mut out: Vec<(String, NetDevVals)> = Vec::new();
    if lines.len() <= 2 {
        assert(out@.map_values(|e: (String, NetDevVals)| (e.0@, e.1)) =~= netdev_of_lines(lv));
        return out;
    }
    let mut i: usize = 2;
    assert(out@.map_values(|e: (String, NetDevVals)| (e.0@, e.1)) =~= netdev_of_lines(lv.subrange(0, 2)));
    while i < lines.len()
        invariant
            2 <= i <= lines.len(),
            lv == lines@.map_values(|w: Vec<char>| w@),
            lv == text_lines(text@),
            out@.map_values(|e: (String, NetDevVals)| (e.0@, e.1)) == netdev_of_lines(lv.subrange(0, i as int)),
        decreases lines.len() - i,
    {
        let ghost before = out@.map_values(|e: (String, NetDevVals)| (e.0@, e.1));
        assert(lv.subrange(0, i + 1).drop_last() =~= lv.subrange(0, i as int));
        assert(lv[i as int] == lines@[i as int]@);
        match netdev_line(&lines[i]) {
            Some(e) => {
                let ghost ev = (e.0@, e.1);
                out.push(e);
                assert(out@.map_values(|e: (String, NetDevVals)| (e.0@, e.1)) =~= before.push(ev));
            },
            None => {},
        }
        i = i + 1;
    }
    assert(lv.subrange(0, lv.len() as int) =~= lv);
    out
}

/// `TcpExt:`, the prefix of the TCP extension lines of `/proc/net/netstat`.
pub open spec fn tcpext_prefix() -> Seq<char> {
    seq!['T', 'c', 'p', 'E', 'x', 't', ':']
}

/// The lines that start with `TcpExt:`, in order.
pub open spec fn tcpext_lines(lines: Seq<Seq<char>>) -> Seq<Seq<char>>
    decreases lines.len(),
{
    if lines.len() == 0 {
        Seq::empty()
    } else {
        let rest = tcpext_lines(lines.drop_last());
        if is_prefix(tcpext_prefix(), lines.last()) {
            rest.push(lines.last())
        } else {
            rest
        }
    }
}

/// `TCPSegRetrans`.
pub open spec fn retrans_key() -> Seq<char> {
    seq!['T', 'C', 'P', 'S', 'e', 'g', 'R', 'e', 't', 'r', 'a', 'n', 's']
}

/// Whether word `i` of `keys` is the first `TCPSegRetrans`.
pub open spec fn first_retrans_at(keys: Seq<Seq<char>>, i: int) -> bool {
    0 <= i < keys.len() && keys[i] == retrans_key() && forall|j: int| 0 <= j < i ==> #[trigger] keys[j] != retrans_key()
}

/// The TCP segment retransmission count of `/proc/net/netstat`: the first
/// `TcpExt:` line names the counters, the second holds their values, and
/// the value under the first `TCPSegRetrans` is taken.
pub open spec fn retrans_of_lines(lines: Seq<Seq<char>>) -> Option<u64> {
    let t = tcpext_lines(lines);
    if t.len() >= 2 && exists|i: int| first_retrans_at(words(t[0]), i) {
        let i = choose|i: int| first_retrans_at(words(t[0]), i);
        if i < words(t[1]).len() {
            u64_of(words(t[1])[i])
        } else {
            None
        }
    } else {
        None
    }
}

/// Reads the TCP segment retransmission count from the text of
/// `/proc/net/netstat`.
pub fn parse_tcp_retrans(text: &str) -> (r: Option<u64>)
    ensures
        r == retrans_of_lines(text_lines(text@)),
{
    let cs = chars_of(text);
    let lines = split_pieces(&cs, SPLIT_LINES);
    let ghost lv = lines@.map_values(|w: Vec<char>| w@);
    let prefix: Vec<char> = vec!['T', 'c', 'p', 'E', 'x', 't', ':'];
    assert(prefix@ =~= tcpext_prefix());
    let mut found: Vec<usize> = Vec::new();
    let mut i: usize = 0;
    while i < lines.len()
        invariant
            i <= lines.len(),
            lv == lines@.map_values(|w: Vec<char>| w@),
            lv == text_lines(text@),
            prefix@ == tcpext_prefix(),
            found@.len() <= 2,
            found@.len() < 2 ==> found@.map_values(|k: usize| lv[k as int]) == tcpext_lines(lv.subrange(0, i as int)),
            found@.len() == 2 ==> tcpext_lines(lv.subrange(0, i as int)).len() >= 2
                && lv[found@[0] as int] == tcpext_lines(lv.subrange(0, i as int))[0]
                && lv[found@[1] as int] == tcpext_lines(lv.subrange(0, i as int))[1],
            forall|j: int| 0 <= j < found@.len() ==> found@[j] < lines.len(),
        decreases lines.len() - i,
    {
        let ghost pre = tcpext_lines(lv.subrange(0, i as int));
        assert(lv.subrange(0, i + 1).drop_last() =~= lv.subrange(0, i as int));
        assert(lv[i as int] == lines@[i as int]@);
        if found.len() < 2 && starts_with_chars(&lines[i], &prefix) {
            let ghost before = found@;
            found.push(i);
            assert(found@.map_values(|k: usize| lv[k as int]) =~= before.map_values(|k: usize| lv[k as int]).push(lv[i as int]));
        }
        proof {
            let post = tcpext_lines(lv.subrange(0, i + 1));
            if post.len() > pre.len() {
                assert(post =~= pre.push(lv[i as int]));
                assert(post[0] == pre.push(lv[i as int])[0]);
                assert(post[1] == pre.push(lv[i as int])[1]);
            }
        }
        i = i + 1;
    }
    assert(lv.subrange(0, lv.len() as int) =~= lv);
    if found.len() < 2 {
        return None;
    }
    let keys = split_pieces(&lines[found[0]], SPLIT_WORDS);
    let vals = split_pieces(&lines[found[1]], SPLIT_WORDS);
    let ghost kv = keys@.map_values(|w: Vec<char>| w@);
    let ghost vv = vals@.map_values(|w: Vec<char>| w@);
    let key: Vec<char> = vec!['T', 'C', 'P', 'S', 'e', 'g', 'R', 'e', 't', 'r', 'a', 'n', 's'];
    assert(key@ =~= retrans_key());
    let mut k: usize = 0;
    while k < keys.len()
        invariant
            k <= keys.len(),
            kv == keys@.map_values(|w: Vec<char>| w@),
            key@ == retrans_key(),
            forall|j: int| 0 <= j < k ==> #[trigger] kv[j] != retrans_key(),
        ensures
            k <= keys.len(),
            forall|j: int| 0 <= j < k ==> #[trigger] kv[j] != retrans_key(),
            k == keys.len() || kv[k as int] == retrans_key(),
        decreases keys.len() - k,
    {
        assert(kv[k as int] == keys@[k as int]@);
        if chars_eq(&keys[k], &key) {
            break;
        }
        k = k + 1;
    }
    if k == keys.len() {
        proof {
            assert forall|i2: int| !first_retrans_at(kv, i2) by {
                if first_retrans_at(kv, i2) {
                    assert(kv[i2] == retrans_key());
                }
            }
        }
        return None;
    }
    proof {
        assert(kv[k as int] == keys@[k as int]@);
        assert(first_retrans_at(kv, k as int));
        let kk = choose|i2: int| first_retrans_at(kv, i2);
        assert(kk == k);
    }
    if k >= vals.len() {
        return None;
    }
    assert(vv[k as int] == vals@[k as int]@);
    parse_u64(&vals[k])
}

/// The node-level network flag: some interface dropped packets this tick,
/// or the retransmission count rose.
pub fn network_degraded(any_drops: bool, retrans_delta: Option<u64>) -> (r: bool)
    ensures
        r == (any_drops || (retrans_delta matches Some(d) && d > 0)),
{
    any_drops || match retrans_delta {
        Some(d) => d > 0,
        None => false,
    }
}

/// `s` without its trailing colons.
pub open spec fn trim_colons(s: Seq<char>) -> Seq<char>
    decreases s.len(),
{
    if s.len() > 0 && s.last() == ':' {
        trim_colons(s.drop_last())
    } else {
        s
    }
}

/// The entries of a NUMA node's `meminfo` (`Node 0 MemTotal: 12345 kB`):
/// for each line of at least four words whose fourth is a number, the third
/// word without trailing colons and that number, in order.
pub open spec fn node_meminfo_of_lines(lines: Seq<Seq<char>>) -> Seq<(Seq<char>, u64)>
    decreases lines.len(),
{
    if lines.len() == 0 {
        Seq::empty()
    } else {
        let rest = node_meminfo_of_lines(lines.drop_last());
        let p = words(lines.last());
        if p.len() >= 4 && u64_of(p[3]) is Some {
            rest.push((trim_colons(p[2]), u64_of(p[3]).unwrap()))
        } else {
            rest
        }
    }
}

fn without_colons(s: &Vec<char>) -> (r: Vec<char>)
    ensures
        r@ == trim_colons(s@),
{
    let mut n: usize = s.len();
    assert(s@.subrange(0, n as int) =~= s@);
    while n > 0 && s[n - 1] == ':'
        invariant
            n <= s.len(),
            trim_colons(s@) == trim_colons(s@.subrange(0, n as int)),
        decreases n,
    {
        assert(s@.subrange(0, n as int).drop_last() =~= s@.subrange(0, n - 1));
        n = n - 1;
    }
    copy_range(s, 0, n)
}

/// Reads the entries of a NUMA node's `meminfo` file (values in kB).
pub fn parse_node_meminfo(text: &str) -> (r: Vec<(String, u64)>)
    ensures
        r@.map_values(|e: (String, u64)| (e.0@, e.1)) == node_meminfo_of_lines(text_lines(text@)),
{
    let cs = chars_of(text);
    let lines = split_pieces(&cs, SPLIT_LINES);
    let ghost lv = lines@.map_values(|w: Vec<char>| w@);
    let mut out: Vec<(String, u64)> = Vec::new();
    let mut i: usize = 0;
    while i < lines.len()
        invariant
            i <= lines.len(),
            lv == lines@.map_values(|w: Vec<char>| w@),
            lv == text_lines(text@),
            out@.map_values(|e: (String, u64)| (e.0@, e.1)) == node_meminfo_of_lines(lv.subrange(0, i as int)),
        decreases lines.len() - i,
    {
        let ghost before = out@.map_values(|e: (String, u64)| (e.0@, e.1));
        assert(lv.subrange(0, i + 1).drop_last() =~= lv.subrange(0, i as int));
        assert(lv[i as int] == lines@[i as int]@);
        let p = split_pieces(&lines[i], SPLIT_WORDS);
        let ghost pv = p@.map_values(|w: Vec<char>| w@);
        if p.len() >= 4 {
            assert(pv[3] == p@[3]@ && pv[2] == p@[2]@);
            match parse_u64(&p[3]) {
                Some(v) => {
                    let key = string_of(&without_colons(&p[2]));
                    out.push((key, v));
                    assert(out@.map_values(|e: (String, u64)| (e.0@, e.1)) =~= before.push((trim_colons(pv[2]), v)));
                },
                None => {},
            }
        }
        i = i + 1;
    }
    assert(lv.subrange(0, lv.len() as int) =~= lv);
    out
}

/// The paging counters of `/proc/vmstat` (kibibytes paged in and out).
pub open spec fn apply_vmstat_line(acc: (u64, u64), line: Seq<char>) -> Option<(u64, u64)> {
    let p = words(line);
    if is_prefix(seq!['p', 'g', 'p', 'g', 'i', 'n', ' '], line) && p.len() >= 2 {
        match u64_of(p[1]) {
            Some(v) => Some((v, acc.1)),
            None => None,
        }
    } else if is_prefix(seq!['p', 'g', 'p', 'g', 'o', 'u', 't', ' '], line) && p.len() >= 2 {
        match u64_of(p[1]) {
            Some(v) => Some((acc.0, v)),
            None => None,
        }
    } else {
        Some(acc)
    }
}

/// The paging counters the lines of `/proc/vmstat` give, read in order
/// from zero; `None` when one of them is not a number.
pub open spec fn vmstat_of_lines(lines: Seq<Seq<char>>) -> Option<(u64, u64)>
    decreases lines.len(),
{
    if lines.len() == 0 {
        Some((0, 0))
    } else {
        match vmstat_of_lines(lines.drop_last()) {
            Some(acc) => apply_vmstat_line(acc, lines.last()),
            None => None,
        }
    }
}

proof fn lemma_vmstat_none_stays(lines: Seq<Seq<char>>, k: int)
    requires
        0 <= k <= lines.len(),
        vmstat_of_lines(lines.subrange(0, k)) is None,
    ensures
        vmstat_of_lines(lines) is None,
    decreases lines.len() - k,
{
    if k < lines.len() {
        assert(lines.subrange(0, k + 1).drop_last() =~= lines.subrange(0, k));
        lemma_vmstat_none_stays(lines, k + 1);
    } else {
        assert(lines.subrange(0, k) =~= lines);
    }
}

/// Reads the kibibytes paged in and out from the text of `/proc/vmstat`.
pub fn parse_vmstat_paging(text: &str) -> (r: Option<(u64, u64)>)
    ensures
        r == vmstat_of_lines(text_lines(text@)),
{
    let cs = chars_of(text);
    let lines = split_pieces(&cs, SPLIT_LINES);
    let ghost lv = lines@.map_values(|w: Vec<char>| w@);
    let pgin: Vec<char> = vec!['p', 'g', 'p', 'g', 'i', 'n', ' '];
    let pgout: Vec<char> = vec!['p', 'g', 'p', 'g', 'o', 'u', 't', ' '];
    assert(pgin@ =~= seq!['p', 'g', 'p', 'g', 'i', 'n', ' ']);
    assert(pgout@ =~= seq!['p', 'g', 'p', 'g', 'o', 'u', 't', ' ']);
    let mut acc: (u64, u64) = (0, 0);
    let mut i: usize = 0;
    while i < lines.len()
        invariant
            i <= lines.len(),
            lv == lines@.map_values(|w: Vec<char>| w@),
            lv == text_lines(text@),
            pgin@ == seq!['p', 'g', 'p', 'g', 'i', 'n', ' '],
            pgout@ == seq!['p', 'g', 'p', 'g', 'o', 'u', 't', ' '],
            vmstat_of_lines(lv.subrange(0, i as int)) == Some(acc),
        decreases lines.len() - i,
    {
        assert(lv.subrange(0, i + 1).drop_last() =~= lv.subrange(0, i as int));
        assert(lv[i as int] == lines@[i as int]@);
        let p = split_pieces(&lines[i], SPLIT_WORDS);
        let ghost pv = p@.map_values(|w: Vec<char>| w@);
        let is_in = starts_with_chars(&lines[i], &pgin);
        let is_out = starts_with_chars(&lines[i], &pgout);
        if (is_in || is_out) && p.len() >= 2 {
            assert(pv[1] == p@[1]@);
            match parse_u64(&p[1]) {
                Some(v) => {
                    if is_in {
                        acc = (v, acc.1);
                    } else {
                        acc = (acc.0, v);
                    }
                },
                None => {
                    proof {
                        lemma_vmstat_none_stays(lv, i + 1);
                    }
                    return None;
                },
            }
        }
        i = i + 1;
    }
    assert(lv.subrange(0, lv.len() as int) =~= lv);
    Some(acc)
}

} // verus!
