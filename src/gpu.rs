//! GPU-side records and the rules the GPU collector applies: which devices
//! the configured filters admit, the resource names used in k8s mode, and
//! the bounded queue that carries decoded device events to the collector.
use vstd::prelude::*;
use crate::procfs::{SPLIT_COMMAS, pieces, split_pieces, trim_blank_ends, trim_ends};
use crate::counter::{counter_delta, counter_delta_value};
use crate::text::{chars_eq, chars_of, push_all, string_of};

verus! {

/// PCI identity and driver versions of one GPU.
#[derive(Clone, Debug, Default)]
pub struct GpuIdentity {
    pub pci_bus_id: Option<String>,
    pub pci_domain: Option<u32>,
    pub pci_bus: Option<u32>,
    pub pci_device: Option<u32>,
    pub pci_function: Option<u32>,
    pub pci_gen: Option<u32>,
    pub pci_link_width: Option<u32>,
    pub driver_version: Option<String>,
    pub nvml_version: Option<String>,
    pub cuda_driver_version: Option<i32>,
    pub device_id: Option<u32>,
    pub subsystem_id: Option<u32>,
    pub board_id: Option<u32>,
    pub numa_node: Option<i32>,
}

/// Current PCIe link of one GPU.
#[derive(Clone, Debug, Default)]
pub struct GpuTopo {
    pub pci_link_gen: Option<u32>,
    pub pci_link_width: Option<u32>,
}

/// Partitioning capabilities of one GPU.
#[derive(Clone, Debug, Default)]
pub struct GpuCapabilities {
    pub mig: bool,
    pub sriov: bool,
    pub mcm_tiles: bool,
}

/// One MIG device (a hardware slice of a GPU).
#[derive(Clone, Debug, Default)]
pub struct MigDeviceStatus {
    pub id: String,
    pub uuid: Option<String>,
    pub memory_total_bytes: Option<u64>,
    pub memory_used_bytes: Option<u64>,
    pub util_percent: Option<u32>,
    pub sm_count: Option<u32>,
    pub profile: Option<String>,
    pub placement: Option<String>,
    pub bar1_total_bytes: Option<u64>,
    pub bar1_used_bytes: Option<u64>,
    pub ecc_corrected: Option<u64>,
    pub ecc_uncorrected: Option<u64>,
}

/// The MIG layout of one GPU, as three flat lists linked by integer ids.
#[derive(Clone, Debug, Default)]
pub struct MigTree {
    pub supported: bool,
    pub enabled: bool,
    pub gpu_instances: Vec<GpuInstanceNode>,
    pub compute_instances: Vec<ComputeInstanceNode>,
    pub devices: Vec<MigDeviceStatus>,
}

/// A GPU instance of a MIG layout.
#[derive(Clone, Debug, Default)]
pub struct GpuInstanceNode {
    pub id: u32,
    pub profile_id: Option<u32>,
    pub placement: Option<String>,
}

/// A compute instance, inside the GPU instance `gpu_instance_id`.
#[derive(Clone, Debug, Default)]
pub struct ComputeInstanceNode {
    pub gpu_instance_id: u32,
    pub id: u32,
    pub profile_id: Option<u32>,
    pub eng_profile_id: Option<u32>,
    pub placement: Option<String>,
}

/// NVLink counters of one GPU.
#[derive(Clone, Debug, Default)]
pub struct NvLinkState {
    pub links: Vec<NvLinkStats>,
}

/// Counters of one NVLink link.
#[derive(Clone, Debug, Default)]
pub struct NvLinkStats {
    pub link: u32,
    pub rx_bytes: Option<u64>,
    pub tx_bytes: Option<u64>,
    pub errors: Option<u64>,
}

/// Counters of one fabric link of any type.
#[derive(Clone, Debug, Default)]
pub struct FabricLink {
    pub link: u32,
    pub link_type: FabricLinkType,
    pub rx_bytes: Option<u64>,
    pub tx_bytes: Option<u64>,
    pub errors: Option<u64>,
}

/// The kind of a fabric link.
#[derive(Clone, Copy, Debug, Default, PartialEq, Eq)]
pub enum FabricLinkType {
    NvLink,
    InfinityFabric,
    XeLink,
    #[default]
    Pcie,
}

/// The vendor of a GPU.
#[derive(Clone, Copy, Debug, Default, PartialEq, Eq)]
pub enum GpuVendor {
    Nvidia,
    Amd,
    Intel,
    #[default]
    Unknown,
}

/// Whether a device filter setting admits every device: absent, empty or
/// `all`.
pub open spec fn filter_admits_all(raw: Option<Seq<char>>) -> bool {
    match raw {
        None => true,
        Some(s) => s.len() == 0 || s == seq!['a', 'l', 'l'],
    }
}

/// Whether `x` is one of the entries of a comma-separated device list: a
/// non-empty comma-separated part once its surrounding blanks are removed.
pub open spec fn listed(s: Seq<char>, x: Seq<char>) -> bool {
    x.len() > 0 && exists|i: int| 0 <= i < pieces(s, SPLIT_COMMAS).len() && trim_blank_ends(#[trigger] pieces(s, SPLIT_COMMAS)[i]) == x
}

/// Whether `x` is a non-empty trimmed part among the first `n` parts.
pub open spec fn listed_among(parts: Seq<Seq<char>>, n: int, x: Seq<char>) -> bool {
    x.len() > 0 && exists|k: int| 0 <= k < n && trim_blank_ends(#[trigger] parts[k]) == x
}

/// Whether one of the strings of `v` is `x`.
pub open spec fn names_entry(v: Seq<String>, x: Seq<char>) -> bool {
    exists|i: int| 0 <= i < v.len() && (#[trigger] v[i])@ == x
}

/// Whether `kept` holds `x`.
pub open spec fn holds_entry(kept: Seq<Vec<char>>, x: Seq<char>) -> bool {
    exists|j: int| 0 <= j < kept.len() && (#[trigger] kept[j])@ == x
}

/// Whether the entries of `kept` are pairwise distinct.
pub open spec fn distinct_entries(kept: Seq<Vec<char>>) -> bool {
    forall|a: int, b: int| 0 <= a < b < kept.len() ==> (#[trigger] kept[a])@ != (#[trigger] kept[b])@
}

/// Adds a non-empty entry that is not yet held.
fn add_entry(kept: &mut Vec<Vec<char>>, t: Vec<char>)
    requires
        distinct_entries(old(kept)@),
    ensures
        distinct_entries(final(kept)@),
        forall|x: Seq<char>| #[trigger] holds_entry(final(kept)@, x) <==> holds_entry(old(kept)@, x) || (x == t@ && t@.len() > 0),
{
    if t.len() == 0 {
        return;
    }
    let mut j: usize = 0;
    while j < kept.len()
        invariant
            j <= kept.len(),
            kept@ == old(kept)@,
            distinct_entries(old(kept)@),
            forall|k: int| 0 <= k < j ==> (#[trigger] kept@[k])@ != t@,
        decreases kept.len() - j,
    {
        if chars_eq(&kept[j], &t) {
            assert(holds_entry(kept@, t@));
            return;
        }
        j = j + 1;
    }
    let ghost tv = t@;
    kept.push(t);
    proof {
        assert(kept@[kept@.len() - 1]@ == tv);
        assert forall|x: Seq<char>| #[trigger] holds_entry(kept@, x) <==> holds_entry(old(kept)@, x) || (x == tv && tv.len() > 0) by {
            if holds_entry(old(kept)@, x) {
                let j = choose|j: int| 0 <= j < old(kept)@.len() && (#[trigger] old(kept)@[j])@ == x;
                assert(kept@[j]@ == x);
            }
            if holds_entry(kept@, x) {
                let j = choose|j: int| 0 <= j < kept@.len() && (#[trigger] kept@[j])@ == x;
                if j < old(kept)@.len() {
                    assert(old(kept)@[j]@ == x);
                }
            }
        }
    }
}

/// Reads a device filter setting (`gpu_visible_devices`, `mig_config_devices`):
/// `None` admits every device; otherwise the distinct entries of the list.
pub fn build_filter(raw: Option<&str>) -> (r: Option<Vec<String>>)
    ensures
        r is None <==> filter_admits_all(match raw { Some(s) => Some(s@), None => None }),
        r matches Some(v) ==> (forall|x: Seq<char>| listed(raw.unwrap()@, x) <==> #[trigger] names_entry(v@, x))
            && (forall|i: int, j: int| 0 <= i < j < v.len() ==> (#[trigger] v@[i])@ != (#[trigger] v@[j])@),
{
    let s = match raw {
        None => {
            return None;
        },
        Some(s) => s,
    };
    let cs = chars_of(s);
    let all: Vec<char> = vec!['a', 'l', 'l'];
    assert(all@ =~= seq!['a', 'l', 'l']);
    if cs.len() == 0 || chars_eq(&cs, &all) {
        return None;
    }
    let parts = split_pieces(&cs, SPLIT_COMMAS);
    let ghost pv = parts@.map_values(|w: Vec<char>| w@);
    let mut kept: Vec<Vec<char>> = Vec::new();
    let mut i: usize = 0;
    while i < parts.len()
        invariant
            i <= parts.len(),
            pv == parts@.map_values(|w: Vec<char>| w@),
            pv == pieces(s@, SPLIT_COMMAS),
            cs@ == s@,
            forall|x: Seq<char>| listed_among(pv, i as int, x) <==> #[trigger] holds_entry(kept@, x),
            distinct_entries(kept@),
        decreases parts.len() - i,
    {
        let t = trim_ends(&parts[i], 0, parts[i].len());
        assert(parts@[i as int]@.subrange(0, parts@[i as int]@.len() as int) =~= parts@[i as int]@);
        assert(pv[i as int] == parts@[i as int]@);
        let ghost before = kept@;
        add_entry(&mut kept, t);
        proof {
            assert forall|x: Seq<char>| listed_among(pv, i + 1, x) <==> #[trigger] holds_entry(kept@, x) by {
                if listed_among(pv, i + 1, x) {
                    let k = choose|k: int| 0 <= k < i + 1 && trim_blank_ends(#[trigger] pv[k]) == x;
                    if k < i {
                        assert(listed_among(pv, i as int, x));
                    }
                }
                if holds_entry(kept@, x) && !holds_entry(before, x) {
                    assert(trim_blank_ends(pv[i as int]) == x);
                }
                if holds_entry(before, x) {
                    assert(listed_among(pv, i as int, x));
                    let k = choose|k: int| 0 <= k < i && trim_blank_ends(#[trigger] pv[k]) == x;
                    assert(0 <= k < i + 1);
                }
            }
        }
        i = i + 1;
    }
    let mut out: Vec<String> = Vec::new();
    let mut k: usize = 0;
    while k < kept.len()
        invariant
            k <= kept.len(),
            out.len() == k,
            forall|a: int| 0 <= a < k ==> (#[trigger] out@[a])@ == kept@[a]@,
        decreases kept.len() - k,
    {
        out.push(string_of(&kept[k]));
        k = k + 1;
    }
    proof {
        assert forall|x: Seq<char>| listed(s@, x) <==> listed_among(pv, parts.len() as int, x) by {
            if listed(s@, x) {
                let k = choose|k: int| 0 <= k < pieces(s@, SPLIT_COMMAS).len() && trim_blank_ends(#[trigger] pieces(s@, SPLIT_COMMAS)[k]) == x;
                assert(trim_blank_ends(pv[k]) == x);
            }
            if listed_among(pv, parts.len() as int, x) {
                let k = choose|k: int| 0 <= k < parts.len() && trim_blank_ends(#[trigger] pv[k]) == x;
                assert(trim_blank_ends(pieces(s@, SPLIT_COMMAS)[k]) == x);
            }
        }
        assert forall|x: Seq<char>| listed(s@, x) <==> #[trigger] names_entry(out@, x) by {
            if names_entry(out@, x) {
                let i = choose|i: int| 0 <= i < out@.len() && (#[trigger] out@[i])@ == x;
                assert(kept@[i]@ == x);
                assert(holds_entry(kept@, x));
            }
            if holds_entry(kept@, x) {
                let j = choose|j: int| 0 <= j < kept.len() && (#[trigger] kept@[j])@ == x;
                assert(out@[j]@ == x);
                assert(exists|k: int| 0 <= k < out@.len() && (#[trigger] out@[k])@ == x);
            }
        }
    }
    proof {
        assert(raw.unwrap()@ == s@);
        assert forall|a: int, b: int| 0 <= a < b < out.len() implies (#[trigger] out@[a])@ != (#[trigger] out@[b])@ by {
            assert(kept@[a]@ != kept@[b]@);
        }
    }
    Some(out)
}

/// Whether a present device filter admits the device with the given uuid
/// and index label: one of its entries names the device by either.
pub open spec fn names_device(entries: Seq<String>, uuid: Seq<char>, label: Seq<char>) -> bool {
    exists|k: int| 0 <= k < entries.len() && ((#[trigger] entries[k])@ == uuid || entries[k]@ == label)
}

proof fn lemma_names_device_witness(v: Seq<String>, uuid: Seq<char>, label: Seq<char>, i: int)
    requires
        0 <= i < v.len(),
        v[i]@ == uuid || v[i]@ == label,
    ensures
        names_device(v, uuid, label),
{
    assert(exists|k: int| 0 <= k < v.len() && ((#[trigger] v[k])@ == uuid || v[k]@ == label));
}

/// Checks whether a device filter admits a device: an absent filter admits
/// every device.
pub fn device_visible(filter: &Option<Vec<String>>, uuid: &str, index: &str) -> (r: bool)
    ensures
        r == (filter is None || names_device(filter.unwrap()@, uuid@, index@)),
{
    match filter {
        None => true,
        Some(v) => {
            let u = chars_of(uuid);
            let x = chars_of(index);
            let mut i: usize = 0;
            while i < v.len()
                invariant
                    i <= v.len(),
                    filter is Some && filter.unwrap()@ == v@,
                    u@ == uuid@,
                    x@ == index@,
                    forall|j: int| 0 <= j < i ==> (#[trigger] v@[j])@ != uuid@ && v@[j]@ != index@,
                decreases v.len() - i,
            {
                let e = chars_of(v[i].as_str());
                if chars_eq(&e, &u) || chars_eq(&e, &x) {
                    assert(v@[i as int]@ == uuid@ || v@[i as int]@ == index@);
                    proof {
                        lemma_names_device_witness(v@, uuid@, index@, i as int);
                    }
                    return true;
                }
                i = i + 1;
            }
            false
        },
    }
}

/// `s` with every `.` replaced by `-`.
pub open spec fn dots_to_dashes(s: Seq<char>) -> Seq<char> {
    s.map_values(|c: char| if c == '.' { '-' } else { c })
}

/// The resource name under which a GPU (or one MIG profile) is reported in
/// k8s mode: `{prefix}/gpu`, or `{prefix}/mig-{profile}` with the profile's
/// dots turned into dashes.
pub open spec fn resource_name(prefix: Seq<char>, mig_profile: Option<Seq<char>>) -> Seq<char> {
    match mig_profile {
        Some(p) => prefix + seq!['/', 'm', 'i', 'g', '-'] + dots_to_dashes(p),
        None => prefix + seq!['/', 'g', 'p', 'u'],
    }
}

/// Renders the k8s resource name of a GPU or MIG profile.
pub fn k8s_resource_name(prefix: &str, mig_profile: Option<&str>) -> (r: String)
    ensures
        r@ == resource_name(prefix@, match mig_profile { Some(p) => Some(p@), None => None }),
{
    let mut out = chars_of(prefix);
    match mig_profile {
        Some(p) => {
            let pc = chars_of(p);
            let tail: Vec<char> = vec!['/', 'm', 'i', 'g', '-'];
            push_all(&mut out, &tail);
            let ghost base = out@;
            let mut i: usize = 0;
            while i < pc.len()
                invariant
                    i <= pc.len(),
                    out@ == base + dots_to_dashes(pc@.subrange(0, i as int)),
                decreases pc.len() - i,
            {
                let c = pc[i];
                out.push(if c == '.' { '-' } else { c });
                i = i + 1;
                assert(dots_to_dashes(pc@.subrange(0, i as int)) =~= dots_to_dashes(pc@.subrange(0, i - 1)).push(
                    if c == '.' { '-' } else { c },
                ));
            }
            assert(pc@.subrange(0, pc.len() as int) =~= pc@);
            assert(out@ =~= resource_name(prefix@, Some(p@)));
        },
        None => {
            let tail: Vec<char> = vec!['/', 'g', 'p', 'u'];
            push_all(&mut out, &tail);
            assert(out@ =~= resource_name(prefix@, None));
        },
    }
    string_of(&out)
}

/// What a counter series yields for one reading: the delta from the
/// previous reading when both exist (0 when the counter went backwards),
/// nothing on the first reading or when this reading failed.
pub open spec fn series_delta(prev: Option<u64>, cur: Option<u64>) -> Option<u64> {
    match (prev, cur) {
        (Some(p), Some(c)) => Some(counter_delta_value(p, c, None)),
        _ => None,
    }
}

/// The previous reading kept after a reading: the new one when it succeeded.
pub open spec fn series_next(prev: Option<u64>, cur: Option<u64>) -> Option<u64> {
    if cur is Some {
        cur
    } else {
        prev
    }
}

fn series_step(prev: &mut Option<u64>, cur: Option<u64>) -> (d: Option<u64>)
    ensures
        d == series_delta(*old(prev), cur),
        *final(prev) == series_next(*old(prev), cur),
{
    let d = match (*prev, cur) {
        (Some(p), Some(c)) => Some(counter_delta(p, c, None)),
        _ => None,
    };
    if cur.is_some() {
        *prev = cur;
    }
    d
}

/// The counters of one NVLink link: bytes received and sent, and the four
/// data-link error counters. The same shape holds a reading, the previous
/// reading, or the deltas between them.
#[derive(Clone, Copy, Debug, Default, PartialEq, Eq)]
pub struct LinkCounters {
    pub rx_bytes: Option<u64>,
    pub tx_bytes: Option<u64>,
    pub dl_replay: Option<u64>,
    pub dl_recovery: Option<u64>,
    pub dl_crc_flit: Option<u64>,
    pub dl_crc_data: Option<u64>,
}

/// The deltas of one link between two readings.
pub open spec fn link_delta(prev: LinkCounters, cur: LinkCounters) -> LinkCounters {
    LinkCounters {
        rx_bytes: series_delta(prev.rx_bytes, cur.rx_bytes),
        tx_bytes: series_delta(prev.tx_bytes, cur.tx_bytes),
        dl_replay: series_delta(prev.dl_replay, cur.dl_replay),
        dl_recovery: series_delta(prev.dl_recovery, cur.dl_recovery),
        dl_crc_flit: series_delta(prev.dl_crc_flit, cur.dl_crc_flit),
        dl_crc_data: series_delta(prev.dl_crc_data, cur.dl_crc_data),
    }
}

/// The previous readings of one link kept after a reading.
pub open spec fn link_next(prev: LinkCounters, cur: LinkCounters) -> LinkCounters {
    LinkCounters {
        rx_bytes: series_next(prev.rx_bytes, cur.rx_bytes),
        tx_bytes: series_next(prev.tx_bytes, cur.tx_bytes),
        dl_replay: series_next(prev.dl_replay, cur.dl_replay),
        dl_recovery: series_next(prev.dl_recovery, cur.dl_recovery),
        dl_crc_flit: series_next(prev.dl_crc_flit, cur.dl_crc_flit),
        dl_crc_data: series_next(prev.dl_crc_data, cur.dl_crc_data),
    }
}

fn link_step(prev: &mut LinkCounters, cur: &LinkCounters) -> (d: LinkCounters)
    ensures
        d == link_delta(*old(prev), *cur),
        *final(prev) == link_next(*old(prev), *cur),
{
    let rx_bytes = series_step(&mut prev.rx_bytes, cur.rx_bytes);
    let tx_bytes = series_step(&mut prev.tx_bytes, cur.tx_bytes);
    let dl_replay = series_step(&mut prev.dl_replay, cur.dl_replay);
    let dl_recovery = series_step(&mut prev.dl_recovery, cur.dl_recovery);
    let dl_crc_flit = series_step(&mut prev.dl_crc_flit, cur.dl_crc_flit);
    let dl_crc_data = series_step(&mut prev.dl_crc_data, cur.dl_crc_data);
    LinkCounters { rx_bytes, tx_bytes, dl_replay, dl_recovery, dl_crc_flit, dl_crc_data }
}

/// One reading of a GPU's delta-mode counters; a counter whose query failed
/// is absent. ECC totals are read per scope as corrected and uncorrected.
pub struct GpuReading {
    pub ecc_volatile_corrected: Option<u64>,
    pub ecc_volatile_uncorrected: Option<u64>,
    pub ecc_aggregate_corrected: Option<u64>,
    pub ecc_aggregate_uncorrected: Option<u64>,
    pub pcie_replay: Option<u64>,
    /// The links in link-index order.
    pub links: Vec<LinkCounters>,
    /// The throttle-reason bit mask, when it could be read.
    pub throttle_mask: Option<u64>,
}

/// The previous readings of one GPU's delta-mode counters.
pub struct GpuCounters {
    pub ecc_volatile: Option<u64>,
    pub ecc_aggregate: Option<u64>,
    pub pcie_replay: Option<u64>,
    pub links: Vec<LinkCounters>,
}

/// What one reading of a GPU yields.
pub struct GpuDeltas {
    pub ecc_volatile: Option<u64>,
    pub ecc_aggregate: Option<u64>,
    /// Some ECC scope saw new errors during this tick.
    pub ecc_degraded: bool,
    pub pcie_replay: Option<u64>,
    /// The deltas of each link of the reading, in the same order.
    pub links: Vec<LinkCounters>,
    pub throttle: Option<ThrottleFlags>,
}

/// The ECC total of one scope: corrected plus uncorrected (saturating), when
/// both could be read.
pub open spec fn ecc_total(corrected: Option<u64>, uncorrected: Option<u64>) -> Option<u64> {
    match (corrected, uncorrected) {
        (Some(c), Some(u)) => Some(if c + u <= u64::MAX { (c + u) as u64 } else { u64::MAX }),
        _ => None,
    }
}

fn ecc_total_of(corrected: Option<u64>, uncorrected: Option<u64>) -> (r: Option<u64>)
    ensures
        r == ecc_total(corrected, uncorrected),
{
    match (corrected, uncorrected) {
        (Some(c), Some(u)) => Some(c.saturating_add(u)),
        _ => None,
    }
}

/// The previous reading of link `i`: none for a link not seen before.
pub open spec fn prev_link(links: Seq<LinkCounters>, i: int) -> LinkCounters {
    if i < links.len() {
        links[i]
    } else {
        LinkCounters { rx_bytes: None, tx_bytes: None, dl_replay: None, dl_recovery: None, dl_crc_flit: None, dl_crc_data: None }
    }
}

impl GpuCounters {
    /// A GPU not read yet.
    pub fn new() -> (c: Self)
        ensures
            c.ecc_volatile is None && c.ecc_aggregate is None && c.pcie_replay is None,
            c.links@.len() == 0,
    {
        GpuCounters { ecc_volatile: None, ecc_aggregate: None, pcie_replay: None, links: Vec::new() }
    }
}

/// Turns one reading of a GPU into deltas against the previous reading, and
/// keeps the new reading for the next tick. The first reading of a series
/// yields no delta; a counter that went backwards yields 0.
pub fn gpu_step(state: &mut GpuCounters, r: &GpuReading) -> (out: GpuDeltas)
    ensures
        out.ecc_volatile == series_delta(old(state).ecc_volatile, ecc_total(r.ecc_volatile_corrected, r.ecc_volatile_uncorrected)),
        out.ecc_aggregate == series_delta(old(state).ecc_aggregate, ecc_total(r.ecc_aggregate_corrected, r.ecc_aggregate_uncorrected)),
        out.ecc_degraded == ((out.ecc_volatile matches Some(d) && d > 0) || (out.ecc_aggregate matches Some(d) && d > 0)),
        out.pcie_replay == series_delta(old(state).pcie_replay, r.pcie_replay),
        out.links@.len() == r.links@.len(),
        forall|i: int| 0 <= i < r.links@.len() ==> #[trigger] out.links@[i] == link_delta(prev_link(old(state).links@, i), r.links@[i]),
        out.throttle == match r.throttle_mask {
            Some(m) => Some(throttle_of(m)),
            None => None,
        },
        final(state).ecc_volatile == series_next(old(state).ecc_volatile, ecc_total(r.ecc_volatile_corrected, r.ecc_volatile_uncorrected)),
        final(state).ecc_aggregate == series_next(old(state).ecc_aggregate, ecc_total(r.ecc_aggregate_corrected, r.ecc_aggregate_uncorrected)),
        final(state).pcie_replay == series_next(old(state).pcie_replay, r.pcie_replay),
        final(state).links@.len() == if r.links@.len() > old(state).links@.len() { r.links@.len() } else { old(state).links@.len() },
        forall|i: int| 0 <= i < r.links@.len() ==> #[trigger] final(state).links@[i] == link_next(prev_link(old(state).links@, i), r.links@[i]),
        forall|i: int| r.links@.len() <= i < old(state).links@.len() ==> #[trigger] final(state).links@[i] == old(state).links@[i],
{
    let vol = ecc_total_of(r.ecc_volatile_corrected, r.ecc_volatile_uncorrected);
    let agg = ecc_total_of(r.ecc_aggregate_corrected, r.ecc_aggregate_uncorrected);
    let ecc_volatile = series_step(&mut state.ecc_volatile, vol);
    let ecc_aggregate = series_step(&mut state.ecc_aggregate, agg);
    let ecc_degraded = match ecc_volatile {
        Some(d) => d > 0,
        None => false,
    } || match ecc_aggregate {
        Some(d) => d > 0,
        None => false,
    };
    let pcie_replay = series_step(&mut state.pcie_replay, r.pcie_replay);
    let ghost old_links = state.links@;
    let ghost (ev, ea, pr) = (state.ecc_volatile, state.ecc_aggregate, state.pcie_replay);
    let mut links: Vec<LinkCounters> = Vec::new();
    let mut i: usize = 0;
    while i < r.links.len()
        invariant
            i <= r.links.len(),
            links@.len() == i,
            state.ecc_volatile == ev && state.ecc_aggregate == ea && state.pcie_replay == pr,
            state.links@.len() == if i > old_links.len() { i as int } else { old_links.len() as int },
            forall|j: int| 0 <= j < i ==> #[trigger] links@[j] == link_delta(prev_link(old_links, j), r.links@[j]),
            forall|j: int| 0 <= j < i ==> #[trigger] state.links@[j] == link_next(prev_link(old_links, j), r.links@[j]),
            forall|j: int| i <= j < old_links.len() ==> #[trigger] state.links@[j] == old_links[j],
        decreases r.links.len() - i,
    {
        let cur = r.links[i];
        if i < state.links.len() {
            let mut prev = state.links[i];
            let d = link_step(&mut prev, &cur);
            state.links.set(i, prev);
            links.push(d);
        } else {
            let mut prev = LinkCounters {
                rx_bytes: None,
                tx_bytes: None,
                dl_replay: None,
                dl_recovery: None,
                dl_crc_flit: None,
                dl_crc_data: None,
            };
            let d = link_step(&mut prev, &cur);
            state.links.push(prev);
            links.push(d);
        }
        i = i + 1;
    }
    let throttle = match r.throttle_mask {
        Some(m) => Some(throttle_flags(m)),
        None => None,
    };
    GpuDeltas { ecc_volatile, ecc_aggregate, ecc_degraded, pcie_replay, links, throttle }
}

/// Throttle reasons of a GPU, split as the status reports them.
#[derive(Clone, Copy, Debug, PartialEq, Eq)]
pub struct ThrottleFlags {
    pub thermal: bool,
    pub power: bool,
    pub other: bool,
}

/// Software and hardware thermal slowdown bits of the throttle-reason mask.
pub const THROTTLE_THERMAL_MASK: u64 = 0x60;

/// Software power cap and hardware power brake bits of the mask.
pub const THROTTLE_POWER_MASK: u64 = 0x84;

/// The flags a throttle-reason mask gives: thermal and power when one of
/// their bits is set, other when neither is.
pub open spec fn throttle_of(mask: u64) -> ThrottleFlags {
    let thermal = mask & THROTTLE_THERMAL_MASK != 0;
    let power = mask & THROTTLE_POWER_MASK != 0;
    ThrottleFlags { thermal, power, other: !(thermal || power) }
}

/// Splits a throttle-reason mask into its flags.
pub fn throttle_flags(mask: u64) -> (f: ThrottleFlags)
    ensures
        f == throttle_of(mask),
{
    let thermal = mask & THROTTLE_THERMAL_MASK != 0;
    let power = mask & THROTTLE_POWER_MASK != 0;
    ThrottleFlags { thermal, power, other: !(thermal || power) }
}

/// Whether some GPU instance of `gis` has id `id`.
pub open spec fn names_instance(gis: Seq<GpuInstanceNode>, id: u32) -> bool {
    exists|k: int| 0 <= k < gis.len() && (#[trigger] gis[k]).id == id
}

/// The compute instances whose parent is one of the GPU instances, in order.
pub open spec fn attached(cis: Seq<ComputeInstanceNode>, gis: Seq<GpuInstanceNode>) -> Seq<ComputeInstanceNode>
    decreases cis.len(),
{
    if cis.len() == 0 {
        Seq::empty()
    } else {
        let rest = attached(cis.drop_last(), gis);
        if names_instance(gis, cis.last().gpu_instance_id) {
            rest.push(cis.last())
        } else {
            rest
        }
    }
}

fn has_instance(gis: &Vec<GpuInstanceNode>, id: u32) -> (r: bool)
    ensures
        r == names_instance(gis@, id),
{
    let mut k: usize = 0;
    while k < gis.len()
        invariant
            k <= gis.len(),
            forall|j: int| 0 <= j < k ==> (#[trigger] gis@[j]).id != id,
        decreases gis.len() - k,
    {
        if gis[k].id == id {
            assert(gis@[k as int].id == id);
            return true;
        }
        k = k + 1;
    }
    false
}

/// Assembles a MIG tree from the nodes walked: GPU instances and MIG devices
/// in the order given, and the compute instances, in order, whose parent id
/// names one of the GPU instances.
pub fn mig_tree(
    supported: bool,
    enabled: bool,
    gis: Vec<GpuInstanceNode>,
    cis: Vec<ComputeInstanceNode>,
    devs: Vec<MigDeviceStatus>,
) -> (t: MigTree)
    ensures
        t.supported == supported,
        t.enabled == enabled,
        t.gpu_instances@ == gis@,
        t.compute_instances@ == attached(cis@, gis@),
        t.devices@ == devs@,
        forall|i: int| 0 <= i < t.compute_instances@.len() ==> names_instance(
            t.gpu_instances@,
            #[trigger] t.compute_instances@[i].gpu_instance_id,
        ),
{
    let mut kept: Vec<ComputeInstanceNode> = Vec::new();
    let mut rest = cis;
    let ghost all = rest@;
    let ghost mut n: int = 0;
    while rest.len() > 0
        invariant
            0 <= n <= all.len(),
            rest@ == all.subrange(n, all.len() as int),
            kept@ == attached(all.subrange(0, n), gis@),
        decreases rest.len(),
    {
        let c = rest.remove(0);
        proof {
            assert(all.subrange(0, n + 1).drop_last() =~= all.subrange(0, n));
            assert(all.subrange(0, n + 1).last() == c);
        }
        if has_instance(&gis, c.gpu_instance_id) {
            kept.push(c);
        }
        proof {
            n = n + 1;
            assert(rest@ =~= all.subrange(n, all.len() as int));
        }
    }
    assert(all.subrange(0, n) =~= all);
    proof {
        assert forall|i: int| 0 <= i < kept@.len() implies names_instance(gis@, #[trigger] kept@[i].gpu_instance_id) by {
            lemma_attached_have_parents(all, gis@, i);
        }
    }
    MigTree { supported, enabled, gpu_instances: gis, compute_instances: kept, devices: devs }
}

/// Every compute instance that `attached` keeps names a GPU instance.
pub proof fn lemma_attached_have_parents(cis: Seq<ComputeInstanceNode>, gis: Seq<GpuInstanceNode>, i: int)
    requires
        0 <= i < attached(cis, gis).len(),
    ensures
        names_instance(gis, attached(cis, gis)[i].gpu_instance_id),
    decreases cis.len(),
{
    let rest = attached(cis.drop_last(), gis);
    if cis.len() > 0 && i < rest.len() {
        lemma_attached_have_parents(cis.drop_last(), gis, i);
    }
}

/// One decoded device event.
#[derive(Clone, Debug)]
pub struct EventRecord {
    pub uuid: String,
    pub index: String,
    pub kind: String,
    pub xid_code: Option<i32>,
    pub ts_ms: u64,
}

/// The kind of a device event from its event-type mask: single-bit ECC,
/// double-bit ECC, critical XID, P-state change and clock change, checked
/// in that order, else other.
pub open spec fn event_kind_of(mask: u64) -> Seq<char> {
    if mask & 1 != 0 {
        seq!['e', 'c', 'c', '_', 's', 'i', 'n', 'g', 'l', 'e']
    } else if mask & 2 != 0 {
        seq!['e', 'c', 'c', '_', 'd', 'o', 'u', 'b', 'l', 'e']
    } else if mask & 8 != 0 {
        seq!['x', 'i', 'd']
    } else if mask & 4 != 0 {
        seq!['p', 's', 't', 'a', 't', 'e']
    } else if mask & 16 != 0 {
        seq!['c', 'l', 'o', 'c', 'k']
    } else {
        seq!['o', 't', 'h', 'e', 'r']
    }
}

/// Names the kind of a device event from its event-type mask.
pub fn event_kind(mask: u64) -> (r: String)
    ensures
        r@ == event_kind_of(mask),
{
    let v: Vec<char> = if mask & 1 != 0 {
        vec!['e', 'c', 'c', '_', 's', 'i', 'n', 'g', 'l', 'e']
    } else if mask & 2 != 0 {
        vec!['e', 'c', 'c', '_', 'd', 'o', 'u', 'b', 'l', 'e']
    } else if mask & 8 != 0 {
        vec!['x', 'i', 'd']
    } else if mask & 4 != 0 {
        vec!['p', 's', 't', 'a', 't', 'e']
    } else if mask & 16 != 0 {
        vec!['c', 'l', 'o', 'c', 'k']
    } else {
        vec!['o', 't', 'h', 'e', 'r']
    };
    assert(v@ =~= event_kind_of(mask));
    string_of(&v)
}

/// Capacity of the event queue.
pub const EVENT_QUEUE_CAPACITY: usize = 256;

/// The bounded queue between the event worker and the GPU collector. When it
/// is full, a new event pushes out the oldest one. `delivered` counts the
/// events drained so far and `dropped` those pushed out.
pub struct EventQueue {
    pub items: Vec<EventRecord>,
    pub delivered: u64,
    pub dropped: u64,
    /// Number of events ever pushed.
    pub pushed: Ghost<nat>,
}

impl EventQueue {
    pub open spec fn wf(&self) -> bool {
        &&& self.items.len() <= EVENT_QUEUE_CAPACITY
        &&& self.pushed@ == self.delivered + self.dropped + self.items.len()
    }

    /// An empty queue.
    pub fn new() -> (q: Self)
        ensures
            q.wf(),
            q.items@.len() == 0,
            q.delivered == 0,
            q.dropped == 0,
    {
        EventQueue { items: Vec::new(), delivered: 0, dropped: 0, pushed: Ghost(0) }
    }

    /// Adds an event, pushing out the oldest one when the queue is full.
    pub fn push(&mut self, e: EventRecord)
        requires
            old(self).wf(),
            old(self).dropped < u64::MAX,
        ensures
            final(self).wf(),
            final(self).pushed@ == old(self).pushed@ + 1,
            final(self).delivered == old(self).delivered,
            old(self).items.len() < EVENT_QUEUE_CAPACITY ==> final(self).items@ == old(self).items@.push(e)
                && final(self).dropped == old(self).dropped,
            old(self).items.len() == EVENT_QUEUE_CAPACITY ==> final(self).items@ == old(self).items@.push(e).drop_first()
                && final(self).dropped == old(self).dropped + 1,
    {
        if self.items.len() == EVENT_QUEUE_CAPACITY {
            self.items.remove(0);
            self.dropped = self.dropped + 1;
        }
        self.items.push(e);
        self.pushed = Ghost(self.pushed@ + 1);
        proof {
            if old(self).items.len() == EVENT_QUEUE_CAPACITY {
                assert(self.items@ =~= old(self).items@.push(e).drop_first());
            }
        }
    }

    /// Hands every queued event to the collector, oldest first.
    pub fn drain(&mut self) -> (r: Vec<EventRecord>)
        requires
            old(self).wf(),
            old(self).delivered + old(self).items.len() <= u64::MAX,
        ensures
            final(self).wf(),
            r@ == old(self).items@,
            final(self).items@.len() == 0,
            final(self).delivered == old(self).delivered + old(self).items.len(),
            final(self).dropped == old(self).dropped,
            final(self).pushed@ == old(self).pushed@,
    {
        let n = self.items.len();
        let mut r: Vec<EventRecord> = Vec::new();
        r.append(&mut self.items);
        self.delivered = self.delivered + n as u64;
        r
    }
}

} // verus!
