//! Rules of the status store: the bounded ring of recent collector errors
//! and the degradation score derived from the three degradation flags.
use vstd::prelude::*;

verus! {

/// One collector failure, as the status snapshot reports it.
#[derive(Clone, Debug)]
pub struct CollectorError {
    pub collector: String,
    pub message: String,
    pub unix_ms: u64,
}

/// Number of recent errors the ring keeps.
pub const ERROR_RING_CAPACITY: usize = 10;

/// The most recent collector errors, oldest first, at most ten of them.
pub struct ErrorRing {
    pub entries: Vec<CollectorError>,
}

impl ErrorRing {
    pub open spec fn wf(&self) -> bool {
        self.entries.len() <= ERROR_RING_CAPACITY
    }

    /// An empty ring.
    pub fn new() -> (r: Self)
        ensures
            r.wf(),
            r.entries@.len() == 0,
    {
        ErrorRing { entries: Vec::new() }
    }

    /// Appends an error; when the ring already holds ten, the oldest leaves.
    pub fn record_error(&mut self, e: CollectorError)
        requires
            old(self).wf(),
        ensures
            final(self).wf(),
            old(self).entries.len() < ERROR_RING_CAPACITY ==> final(self).entries@ == old(self).entries@.push(e),
            old(self).entries.len() == ERROR_RING_CAPACITY ==> final(self).entries@ == old(self).entries@.push(e).drop_first(),
    {
        self.entries.push(e);
        if self.entries.len() > ERROR_RING_CAPACITY {
            self.entries.remove(0);
            assert(self.entries@ =~= old(self).entries@.push(e).drop_first());
        }
    }

    /// The errors held, oldest first.
    pub fn errors(&self) -> (r: &Vec<CollectorError>)
        ensures
            r@ == self.entries@,
    {
        &self.entries
    }
}

/// The three degradation flags of the node.
#[derive(Clone, Copy, Debug, Default, PartialEq, Eq)]
pub struct DegradationFlags {
    pub disk: bool,
    pub network: bool,
    pub swap: bool,
}

/// 1 for a raised flag, 0 otherwise.
pub open spec fn flag_value(b: bool) -> int {
    if b {
        1
    } else {
        0
    }
}

/// The degradation score: the number of raised flags, from 0 to 3.
pub fn degradation_score(flags: &DegradationFlags) -> (r: u64)
    ensures
        r as int == flag_value(flags.disk) + flag_value(flags.network) + flag_value(flags.swap),
        r <= 3,
{
    let mut score: u64 = 0;
    if flags.disk {
        score = score + 1;
    }
    if flags.network {
        score = score + 1;
    }
    if flags.swap {
        score = score + 1;
    }
    score
}

/// The degradation part of a status snapshot: the three flags as read and
/// the score derived from them.
#[derive(Clone, Copy, Debug, PartialEq, Eq)]
pub struct DegradationSnapshot {
    pub disk_degraded: bool,
    pub network_degraded: bool,
    pub swap_degraded: bool,
    pub degradation_score: u64,
}

impl DegradationFlags {
    /// Reads the flags once and derives the score from that one reading, so
    /// every snapshot's score is the number of its own raised flags.
    pub fn snapshot(&self) -> (s: DegradationSnapshot)
        ensures
            s.disk_degraded == self.disk && s.network_degraded == self.network && s.swap_degraded == self.swap,
            s.degradation_score as int == flag_value(s.disk_degraded) + flag_value(s.network_degraded)
                + flag_value(s.swap_degraded),
    {
        DegradationSnapshot {
            disk_degraded: self.disk,
            network_degraded: self.network,
            swap_degraded: self.swap,
            degradation_score: degradation_score(self),
        }
    }
}

} // verus!
