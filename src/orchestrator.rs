//! The device scheduler's rules that do not involve scores: which devices a
//! task may run on, whether a control request is authorised, whether the
//! control routes are mounted, and the reply to a submission.
use vstd::prelude::*;
use crate::text::{chars_eq, chars_of, push_all, string_of};

verus! {

/// The kind of a compute device.
#[derive(Clone, Copy, Debug, PartialEq, Eq, Hash, Structural)]
pub enum DeviceKind {
    Cpu,
    Gpu,
    Npu,
    MemoryAccel,
}

/// How urgently a task wants to finish.
#[derive(Clone, Copy, Debug, PartialEq, Eq, Structural)]
pub enum LatencyClass {
    Low,
    Medium,
    High,
}

/// Settings of the device scheduler and its control routes.
#[derive(Clone, Debug)]
pub struct OrchestratorConfig {
    pub enabled: bool,
    /// Expose the control routes on a listener that is not loopback.
    pub allow_public: bool,
    /// Bearer token that every control request must carry, when set.
    pub token: Option<String>,
    pub enable_zombie_reaper: bool,
    pub enable_turbo_mode: bool,
    pub enable_bin_packing: bool,
    pub enable_flash_preemption: bool,
    pub enable_dataset_prefetch: bool,
    pub enable_bandwidth_reserve: bool,
    pub enable_fs_cleanup: bool,
}

impl Default for OrchestratorConfig {
    fn default() -> (c: Self)
        ensures
            !c.enabled && !c.allow_public && c.token is None && c.enable_zombie_reaper && !c.enable_turbo_mode
                && !c.enable_bin_packing && !c.enable_flash_preemption && !c.enable_dataset_prefetch
                && !c.enable_bandwidth_reserve && !c.enable_fs_cleanup,
    {
        OrchestratorConfig {
            enabled: false,
            allow_public: false,
            token: None,
            enable_zombie_reaper: true,
            enable_turbo_mode: false,
            enable_bin_packing: false,
            enable_flash_preemption: false,
            enable_dataset_prefetch: false,
            enable_bandwidth_reserve: false,
            enable_fs_cleanup: false,
        }
    }
}

/// Checks a device's kind against a task's preference.
pub fn device_allowed(preferred: &Option<Vec<DeviceKind>>, kind: DeviceKind) -> (r: bool)
    ensures
        r == (preferred is None || preferred.unwrap()@.contains(kind)),
{
    match preferred {
        None => true,
        Some(kinds) => {
            let mut i: usize = 0;
            while i < kinds.len()
                invariant
                    i <= kinds.len(),
                    preferred is Some && preferred.unwrap()@ == kinds@,
                    forall|j: int| 0 <= j < i ==> kinds@[j] != kind,
                decreases kinds.len() - i,
            {
                if kinds[i] == kind {
                    assert(kinds@[i as int] == kind);
                    return true;
                }
                i = i + 1;
            }
            false
        },
    }
}

/// Picks a device among the eligible ones: the first eligible device,
/// replaced by each later eligible device that `beats` the one held so far,
/// so a later device that only ties keeps the earlier one. A device is
/// returned whenever one is eligible, whatever `beats` answers; no eligible
/// device after the one picked beats it, and the one picked is either the
/// first eligible device or beat an earlier eligible one.
pub fn pick_best<F: Fn(usize, usize) -> bool>(eligible: &Vec<bool>, beats: F) -> (r: Option<usize>)
    requires
        forall|a: usize, b: usize| #[trigger] beats.requires((a, b)),
    ensures
        r is Some <==> exists|i: int| 0 <= i < eligible.len() && eligible@[i],
        r matches Some(b) ==> b < eligible.len() && eligible@[b as int],
        r matches Some(b) ==> forall|j: usize| b < j < eligible.len() && eligible@[j as int] ==> #[trigger] beats.ensures((j, b), false),
        r matches Some(b) ==> (forall|j: int| 0 <= j < b ==> !eligible@[j])
            || exists|p: usize| p < b && eligible@[p as int] && #[trigger] beats.ensures((b, p), true),
{
    let mut best: Option<usize> = None;
    let mut i: usize = 0;
    while i < eligible.len()
        invariant
            i <= eligible.len(),
            forall|a: usize, b: usize| #[trigger] beats.requires((a, b)),
            best matches Some(b) ==> b < i && eligible@[b as int],
            best is None ==> forall|j: int| 0 <= j < i ==> !eligible@[j],
            best matches Some(b) ==> forall|j: usize| b < j < i && eligible@[j as int] ==> #[trigger] beats.ensures((j, b), false),
            best matches Some(b) ==> (forall|j: int| 0 <= j < b ==> !eligible@[j])
                || exists|p: usize| p < b && eligible@[p as int] && #[trigger] beats.ensures((b, p), true),
        decreases eligible.len() - i,
    {
        if eligible[i] {
            match best {
                None => {
                    best = Some(i);
                },
                Some(b) => {
                    if beats(i, b) {
                        best = Some(i);
                    }
                },
            }
        }
        i = i + 1;
    }
    best
}

/// The entries of `tasks` whose flag in `placed` is false, in order.
pub open spec fn unplaced<T>(tasks: Seq<T>, placed: Seq<bool>) -> Seq<T>
    decreases tasks.len(),
{
    if tasks.len() == 0 {
        Seq::empty()
    } else {
        let rest = unplaced(tasks.drop_last(), placed);
        if placed[tasks.len() - 1] {
            rest
        } else {
            rest.push(tasks.last())
        }
    }
}

/// The queue after one pass of the scheduler tick: every task was tried
/// once, in queue order; those not placed go back, in the same order.
pub fn requeue<T>(tasks: Vec<T>, placed: &Vec<bool>) -> (r: Vec<T>)
    requires
        placed.len() == tasks.len(),
    ensures
        r@ == unplaced(tasks@, placed@),
{
    let ghost all = tasks@;
    let mut rest = tasks;
    let mut kept: Vec<T> = Vec::new();
    let mut i: usize = 0;
    while rest.len() > 0
        invariant
            i <= all.len(),
            placed.len() == all.len(),
            rest@ == all.subrange(i as int, all.len() as int),
            kept@ == unplaced(all.subrange(0, i as int), placed@),
        decreases rest.len(),
    {
        let t = rest.remove(0);
        proof {
            assert(all.subrange(0, i + 1).drop_last() =~= all.subrange(0, i as int));
            assert(all.subrange(0, i + 1).last() == t);
        }
        if !placed[i] {
            kept.push(t);
        }
        i = i + 1;
        assert(rest@ =~= all.subrange(i as int, all.len() as int));
    }
    assert(all.subrange(0, i as int) =~= all);
    kept
}

/// The header value a control request must carry: `Bearer {token}`.
pub open spec fn bearer(token: Seq<char>) -> Seq<char> {
    seq!['B', 'e', 'a', 'r', 'e', 'r', ' '] + token
}

/// Whether a control request is authorised: always when no token is set;
/// otherwise exactly when its `Authorization` header reads `Bearer {token}`.
/// `header` is absent when the request has no such header or its value is
/// not visible ASCII.
pub fn authorize(token: Option<&str>, header: Option<&str>) -> (r: bool)
    ensures
        r == match token {
            None => true,
            Some(t) => header matches Some(h) && h@ == bearer(t@),
        },
{
    match token {
        None => true,
        Some(t) => match header {
            None => false,
            Some(h) => {
                let mut expected: Vec<char> = vec!['B', 'e', 'a', 'r', 'e', 'r', ' '];
                let tc = chars_of(t);
                push_all(&mut expected, &tc);
                assert(expected@ =~= bearer(t@));
                let hc = chars_of(h);
                chars_eq(&hc, &expected)
            },
        },
    }
}

/// Whether the control routes are mounted: the scheduler is enabled, and the
/// listener is loopback or public exposure is allowed explicitly.
pub fn routes_mounted(scheduler_enabled: bool, listen_is_loopback: bool, allow_public: bool) -> (r: bool)
    ensures
        r == (scheduler_enabled && (listen_is_loopback || allow_public)),
{
    scheduler_enabled && (listen_is_loopback || allow_public)
}

/// The reply to a task submission.
#[derive(Debug)]
pub struct TaskSubmissionResponse {
    pub status: String,
    pub assigned_device: Option<String>,
}

/// `Assigned` or `Queued`.
pub open spec fn status_word(assigned: bool) -> Seq<char> {
    if assigned {
        seq!['A', 's', 's', 'i', 'g', 'n', 'e', 'd']
    } else {
        seq!['Q', 'u', 'e', 'u', 'e', 'd']
    }
}

/// The reply for a submission placed on `assigned` (`Assigned`) or left in
/// the queue (`Queued`).
pub fn submission_response(assigned: Option<String>) -> (r: TaskSubmissionResponse)
    ensures
        r.status@ == status_word(assigned is Some),
        r.assigned_device == assigned,
{
    let word: Vec<char> = match assigned {
        Some(_) => vec!['A', 's', 's', 'i', 'g', 'n', 'e', 'd'],
        None => vec!['Q', 'u', 'e', 'u', 'e', 'd'],
    };
    assert(word@ =~= status_word(assigned is Some));
    TaskSubmissionResponse { status: string_of(&word), assigned_device: assigned }
}

} // verus!
