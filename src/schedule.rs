//! Decisions of the scrape tick loop: the health flag after a tick, when the
//! next tick starts, and when the registry is snapshotted into the buffer.
use vstd::prelude::*;

verus! {

/// Whether every collector of the tick succeeded.
pub open spec fn all_succeeded(results: Seq<bool>) -> bool {
    forall|i: int| 0 <= i < results.len() ==> #[trigger] results[i]
}

/// The health flag after a tick: set exactly when every collector succeeded.
pub fn tick_healthy(results: &Vec<bool>) -> (r: bool)
    ensures
        r == all_succeeded(results@),
{
    let mut i: usize = 0;
    while i < results.len()
        invariant
            i <= results.len(),
            forall|j: int| 0 <= j < i ==> #[trigger] results@[j],
        decreases results.len() - i,
    {
        if !results[i] {
            return false;
        }
        i = i + 1;
    }
    true
}

/// When the next tick starts: one interval after the previous start, or as
/// soon as the previous tick returns when it ran past that point. Ticks
/// never overlap and missed ticks are not caught up in a burst.
pub open spec fn spec_next_tick(started_ms: int, finished_ms: int, interval_ms: int) -> int {
    if finished_ms > started_ms + interval_ms {
        finished_ms
    } else {
        started_ms + interval_ms
    }
}

/// Computes when the next tick starts.
pub fn next_tick_at(started_ms: u64, finished_ms: u64, interval_ms: u64) -> (r: u64)
    requires
        started_ms + interval_ms <= u64::MAX,
    ensures
        r as int == spec_next_tick(started_ms as int, finished_ms as int, interval_ms as int),
{
    let due = started_ms + interval_ms;
    if finished_ms > due {
        finished_ms
    } else {
        due
    }
}

/// A tick that takes longer than the interval does not overlap the next:
/// the next one starts no earlier than the previous one returned, and no
/// earlier than one interval after the previous start.
pub proof fn lemma_ticks_do_not_overlap(started_ms: int, finished_ms: int, interval_ms: int)
    ensures
        spec_next_tick(started_ms, finished_ms, interval_ms) >= finished_ms,
        spec_next_tick(started_ms, finished_ms, interval_ms) >= started_ms + interval_ms,
        finished_ms > started_ms + interval_ms ==> spec_next_tick(started_ms, finished_ms, interval_ms) == finished_ms,
{
}

/// Least time between two snapshots of the registry into the buffer.
pub const TSDB_FLUSH_INTERVAL_MS: i64 = 30_000;

/// Whether the registry is due to be written into the buffer at `now_ms`,
/// given the time of the last write.
pub fn tsdb_write_due(now_ms: i64, last_write_ms: i64) -> (r: bool)
    ensures
        r == (now_ms as int - last_write_ms as int >= TSDB_FLUSH_INTERVAL_MS as int),
{
    now_ms as i128 - last_write_ms as i128 >= TSDB_FLUSH_INTERVAL_MS as i128
}

} // verus!
