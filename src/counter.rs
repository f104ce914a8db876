//! Delta-to-rate bookkeeping for monotonic counters read from an external
//! source, with optional wrap-around correction.
use vstd::prelude::*;

verus! {

/// The delta between two readings of an external counter.
///
/// A forward move yields its difference. A backward move is read as a
/// wrap-around when the source declares its range `R`, and yields
/// `R - (prev - curr)` (0 when that would be negative); without a declared
/// range it yields 0.
pub open spec fn delta_of(prev: int, curr: int, wrap_range: Option<u64>) -> int {
    if curr >= prev {
        curr - prev
    } else {
        match wrap_range {
            Some(r) => if r as int >= prev - curr {
                r as int - (prev - curr)
            } else {
                0
            },
            None => 0,
        }
    }
}

/// The sum of the deltas between consecutive readings of `xs`.
pub open spec fn accumulated(xs: Seq<u64>, wrap_range: Option<u64>) -> int
    decreases xs.len(),
{
    if xs.len() <= 1 {
        0
    } else {
        accumulated(xs.drop_last(), wrap_range) + delta_of(
            xs[xs.len() - 2] as int,
            xs[xs.len() - 1] as int,
            wrap_range,
        )
    }
}

/// Computes the delta between two readings of an external counter.
pub fn counter_delta(prev: u64, curr: u64, wrap_range: Option<u64>) -> (d: u64)
    ensures
        d as int == delta_of(prev as int, curr as int, wrap_range),
{
    if curr >= prev {
        curr - prev
    } else {
        match wrap_range {
            Some(r) => r.checked_sub(prev - curr).unwrap_or(0),
            None => 0,
        }
    }
}

/// Every delta is non-negative and fits in a `u64`.
pub proof fn lemma_delta_bounds(prev: u64, curr: u64, wrap_range: Option<u64>)
    ensures
        delta_of(prev as int, curr as int, wrap_range) >= 0,
        delta_of(prev as int, curr as int, wrap_range) <= u64::MAX,
{
}

/// A counter series that follows an external source: the first reading only
/// primes the state, and each later reading adds its delta to `total`.
pub struct CounterTracker {
    pub prev: Option<u64>,
    pub wrap_range: Option<u64>,
    pub total: u128,
    pub readings: Ghost<Seq<u64>>,
}

/// Largest total for which one more delta is sure to fit.
pub const TOTAL_LIMIT: u128 = 340282366920938463444927863358058659840;

impl CounterTracker {
    pub open spec fn wf(&self) -> bool {
        &&& (self.readings@.len() == 0 <==> self.prev is None)
        &&& self.readings@.len() > 0 ==> self.prev == Some(self.readings@.last())
        &&& self.total as int == accumulated(self.readings@, self.wrap_range)
    }

    /// A tracker that has seen no reading yet.
    pub fn new(wrap_range: Option<u64>) -> (t: Self)
        ensures
            t.wf(),
            t.readings@ == Seq::<u64>::empty(),
            t.total == 0,
            t.wrap_range == wrap_range,
    {
        CounterTracker { prev: None, wrap_range, total: 0, readings: Ghost(Seq::empty()) }
    }

    /// Records a reading. The first one returns `None` and leaves the total
    /// at 0; each later one returns the delta from the previous reading and
    /// adds it to the total.
    pub fn observe(&mut self, curr: u64) -> (d: Option<u64>)
        requires
            old(self).wf(),
            old(self).total <= TOTAL_LIMIT,
        ensures
            final(self).wf(),
            final(self).wrap_range == old(self).wrap_range,
            final(self).readings@ == old(self).readings@.push(curr),
            final(self).prev == Some(curr),
            match old(self).prev {
                None => d is None && final(self).total == old(self).total,
                Some(p) => d == Some(counter_delta_value(p, curr, old(self).wrap_range))
                    && final(self).total == old(self).total + d.unwrap(),
            },
    {
        let ghost before = self.readings@;
        let out = match self.prev {
            None => None,
            Some(p) => {
                let d = counter_delta(p, curr, self.wrap_range);
                self.total = self.total + d as u128;
                Some(d)
            },
        };
        self.prev = Some(curr);
        self.readings = Ghost(before.push(curr));
        proof {
            let after = before.push(curr);
            assert(after.drop_last() =~= before);
            if before.len() > 0 {
                assert(after[after.len() - 2] == before.last());
            }
        }
        out
    }

    /// The current total of the series.
    pub fn total(&self) -> (r: u128)
        ensures
            r == self.total,
    {
        self.total
    }
}

/// The delta `counter_delta` returns, as a machine integer.
pub open spec fn counter_delta_value(prev: u64, curr: u64, wrap_range: Option<u64>) -> u64 {
    delta_of(prev as int, curr as int, wrap_range) as u64
}

/// A tracked total never decreases from one reading to the next.
pub proof fn lemma_total_monotone(xs: Seq<u64>, x: u64, wrap_range: Option<u64>)
    ensures
        accumulated(xs.push(x), wrap_range) >= accumulated(xs, wrap_range),
{
    assert(xs.push(x).drop_last() =~= xs);
    if xs.len() >= 1 {
        lemma_delta_bounds(xs.push(x)[xs.len() - 1], x, wrap_range);
    }
}

/// The total after any sequence of readings is the sum of the forward moves
/// plus the wrap-around corrections: each step contributes `max(0, x_i - x_{i-1})`
/// when it moves forward and its corrected delta when it moves backward.
pub proof fn lemma_total_is_sum_of_deltas(xs: Seq<u64>, wrap_range: Option<u64>)
    ensures
        accumulated(xs, wrap_range) == forward_sum(xs) + correction_sum(xs, wrap_range),
    decreases xs.len(),
{
    if xs.len() > 1 {
        lemma_total_is_sum_of_deltas(xs.drop_last(), wrap_range);
    }
}

/// The sum of `max(0, x_i - x_{i-1})` over consecutive readings.
pub open spec fn forward_sum(xs: Seq<u64>) -> int
    decreases xs.len(),
{
    if xs.len() <= 1 {
        0
    } else {
        let (p, c) = (xs[xs.len() - 2] as int, xs[xs.len() - 1] as int);
        forward_sum(xs.drop_last()) + if c >= p {
            c - p
        } else {
            0
        }
    }
}

/// The sum of the wrap-around corrections over consecutive readings.
pub open spec fn correction_sum(xs: Seq<u64>, wrap_range: Option<u64>) -> int
    decreases xs.len(),
{
    if xs.len() <= 1 {
        0
    } else {
        let (p, c) = (xs[xs.len() - 2] as int, xs[xs.len() - 1] as int);
        correction_sum(xs.drop_last(), wrap_range) + if c >= p {
            0
        } else {
            delta_of(p, c, wrap_range)
        }
    }
}

} // verus!
