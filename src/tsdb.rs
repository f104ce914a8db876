//! The local time-series buffer's block rules: which two-hour window a sample
//! belongs to, what a block's metadata counts, and when the open block is
//! rolled over or flushed. The file system work is done by the caller, which
//! follows the steps these functions return.
use vstd::prelude::*;
use vstd::arithmetic::div_mod::lemma_fundamental_div_mod_converse;
use crate::text::{push_signed_decimal, signed_decimal, string_of};

verus! {

/// Width of one block, in milliseconds (two hours).
pub const BLOCK_DURATION_MS: i64 = 7_200_000;

/// Least time between two flushes of the open block's write buffer.
pub const FLUSH_INTERVAL_MS: i64 = 30_000;

/// Smallest timestamp whose window can be represented.
pub const MIN_TS_MS: i64 = -9_223_372_036_847_575_808;

/// Largest timestamp whose window can be represented.
pub const MAX_TS_MS: i64 = 9_223_372_036_847_575_807;

/// Where the buffer lives and how much of it is kept.
pub struct LocalTsdbConfig {
    pub path: String,
    pub retention_hours: u64,
    pub max_disk_mb: u64,
}

/// One sample as the buffer stores it: the value is held as the bit pattern
/// of its IEEE-754 double.
pub struct Sample {
    pub metric: String,
    pub labels: Vec<(String, String)>,
    pub ts_ms: i64,
    pub value_bits: u64,
}

/// Whether the label keys of a sample are pairwise distinct, as a label
/// map's keys are.
pub open spec fn distinct_label_keys(labels: Seq<(String, String)>) -> bool {
    forall|i: int, j: int| 0 <= i < labels.len() && 0 <= j < labels.len() && i != j ==> labels[i].0@ != labels[j].0@
}

/// Start of the window holding `ts`: `floor(ts / 2h) * 2h`.
pub open spec fn window_start(ts: int) -> int {
    (ts / BLOCK_DURATION_MS as int) * BLOCK_DURATION_MS as int
}

/// Whether `ts` lies in `[start, end)`.
pub open spec fn in_window(ts: int, start: int, end: int) -> bool {
    start <= ts < end
}

/// The window `[start, end)` that holds `ts`.
pub fn block_window(ts: i64) -> (r: (i64, i64))
    requires
        MIN_TS_MS <= ts <= MAX_TS_MS,
    ensures
        r.0 == window_start(ts as int),
        r.1 == r.0 + BLOCK_DURATION_MS,
        in_window(ts as int, r.0 as int, r.1 as int),
{
    let b: i64 = BLOCK_DURATION_MS;
    let start: i64;
    if ts >= 0 {
        let q: i64 = ts / b;
        let r: i64 = ts % b;
        proof {
            assert(ts == q * b + r) by (nonlinear_arith)
                requires q == ts / b, r == ts % b, b > 0, ts >= 0;
            lemma_fundamental_div_mod_converse(ts as int, b as int, q as int, r as int);
        }
        start = ts - r;
    } else {
        let m: i64 = -ts;
        let q: i64 = m / b;
        let r: i64 = m % b;
        proof {
            assert(m == q * b + r && 0 <= r < b) by (nonlinear_arith)
                requires q == m / b, r == m % b, b > 0, m > 0;
        }
        if r == 0 {
            proof {
                assert(ts == (-q) * b + 0) by (nonlinear_arith)
                    requires m == q * b, ts == -m;
                lemma_fundamental_div_mod_converse(ts as int, b as int, -q as int, 0);
            }
            start = ts;
        } else {
            proof {
                assert(ts == (-q - 1) * b + (b - r)) by (nonlinear_arith)
                    requires m == q * b + r, ts == -m;
                lemma_fundamental_div_mod_converse(ts as int, b as int, -q - 1, b - r);
            }
            start = ts - (b - r);
        }
    }
    (start, start + b)
}

/// Number of times `x` occurs in `s`.
pub open spec fn occurrences<A>(s: Seq<A>, x: A) -> nat
    decreases s.len(),
{
    if s.len() == 0 {
        0
    } else {
        occurrences(s.drop_last(), x) + if s.last() == x {
            1nat
        } else {
            0nat
        }
    }
}

/// `x` occurs in `s` at most as often as `s` is long.
pub proof fn lemma_occurrences_bound<A>(s: Seq<A>, x: A)
    ensures
        occurrences(s, x) <= s.len(),
    decreases s.len(),
{
    if s.len() > 0 {
        lemma_occurrences_bound(s.drop_last(), x);
    }
}

/// Whether the entries of `counts` have pairwise distinct names.
pub open spec fn distinct_names(counts: Seq<(String, u64)>) -> bool {
    forall|i: int, j: int|
        0 <= i < counts.len() && 0 <= j < counts.len() && i != j ==> counts[i].0@ != counts[j].0@
}

/// Whether `counts` has an entry for `m`.
pub open spec fn has_name(counts: Seq<(String, u64)>, m: Seq<char>) -> bool {
    exists|i: int| 0 <= i < counts.len() && #[trigger] counts[i].0@ == m
}

/// The count that `counts` holds for `m` (0 when it has no entry).
pub open spec fn count_for(counts: Seq<(String, u64)>, m: Seq<char>) -> nat {
    if has_name(counts, m) {
        counts[choose|i: int| 0 <= i < counts.len() && #[trigger] counts[i].0@ == m].1 as nat
    } else {
        0
    }
}

/// Whether the entries of `counts` have pairwise distinct hashes.
pub open spec fn distinct_hashes(counts: Seq<(u64, u64)>) -> bool {
    forall|i: int, j: int|
        0 <= i < counts.len() && 0 <= j < counts.len() && i != j ==> counts[i].0 != counts[j].0
}

/// Whether `counts` has an entry for hash `h`.
pub open spec fn has_hash(counts: Seq<(u64, u64)>, h: u64) -> bool {
    exists|i: int| 0 <= i < counts.len() && #[trigger] counts[i].0 == h
}

/// The count that `counts` holds for hash `h` (0 when it has no entry).
pub open spec fn hash_count(counts: Seq<(u64, u64)>, h: u64) -> nat {
    if has_hash(counts, h) {
        counts[choose|i: int| 0 <= i < counts.len() && #[trigger] counts[i].0 == h].1 as nat
    } else {
        0
    }
}

/// Metadata of one block: its window, the number of samples written, how
/// many of them carry each metric name, and a histogram of label-set hashes.
pub struct BlockMeta {
    pub start_ms: i64,
    pub end_ms: i64,
    pub samples: u64,
    pub metric_counts: Vec<(String, u64)>,
    pub label_hash_counts: Vec<(u64, u64)>,
    /// The metric name, timestamp and label-set hash of every sample written,
    /// in order.
    pub written: Ghost<Seq<(Seq<char>, i64, u64)>>,
}

impl BlockMeta {
    /// The metric names of the samples written, in order.
    pub open spec fn names(&self) -> Seq<Seq<char>> {
        self.written@.map_values(|w: (Seq<char>, i64, u64)| w.0)
    }

    /// The label-set hashes of the samples written, in order.
    pub open spec fn hashes(&self) -> Seq<u64> {
        self.written@.map_values(|w: (Seq<char>, i64, u64)| w.2)
    }

    pub open spec fn wf(&self) -> bool {
        &&& self.end_ms == self.start_ms + BLOCK_DURATION_MS
        &&& self.start_ms == window_start(self.start_ms as int)
        &&& self.samples as int == self.written@.len()
        &&& distinct_names(self.metric_counts@)
        &&& distinct_hashes(self.label_hash_counts@)
        &&& forall|m: Seq<char>| #[trigger] count_for(self.metric_counts@, m) == occurrences(self.names(), m)
        &&& forall|h: u64| #[trigger] hash_count(self.label_hash_counts@, h) == occurrences(self.hashes(), h)
        &&& forall|i: int| 0 <= i < self.written@.len() ==> in_window(
            #[trigger] self.written@[i].1 as int,
            self.start_ms as int,
            self.end_ms as int,
        )
    }

    /// An empty block for the window that holds `ts`.
    pub fn for_timestamp(ts: i64) -> (b: Self)
        requires
            MIN_TS_MS <= ts <= MAX_TS_MS,
        ensures
            b.wf(),
            b.start_ms == window_start(ts as int),
            in_window(ts as int, b.start_ms as int, b.end_ms as int),
            b.written@.len() == 0,
    {
        let (start_ms, end_ms) = block_window(ts);
        let b = BlockMeta {
            start_ms,
            end_ms,
            samples: 0,
            metric_counts: Vec::new(),
            label_hash_counts: Vec::new(),
            written: Ghost(Seq::empty()),
        };
        proof {
            lemma_window_start_idempotent(ts as int);
            assert(b.names() =~= Seq::<Seq<char>>::empty());
            assert(b.hashes() =~= Seq::<u64>::empty());
        }
        b
    }

    /// The metadata of a finished block as read back from its index file.
    /// Nothing is known of the samples behind it, so it is not claimed to be
    /// well formed.
    pub fn from_index(
        start_ms: i64,
        end_ms: i64,
        samples: u64,
        metric_counts: Vec<(String, u64)>,
        label_hash_counts: Vec<(u64, u64)>,
    ) -> (b: Self)
        ensures
            b.start_ms == start_ms,
            b.end_ms == end_ms,
            b.samples == samples,
            b.metric_counts@ == metric_counts@,
            b.label_hash_counts@ == label_hash_counts@,
    {
        BlockMeta { start_ms, end_ms, samples, metric_counts, label_hash_counts, written: Ghost(Seq::empty()) }
    }

    /// Whether `ts` falls in this block's window.
    pub fn contains(&self, ts: i64) -> (r: bool)
        ensures
            r == in_window(ts as int, self.start_ms as int, self.end_ms as int),
    {
        self.start_ms <= ts && ts < self.end_ms
    }

    /// Counts one sample with the given metric name, timestamp and label-set
    /// hash.
    pub fn record(&mut self, metric: &String, ts: i64, label_hash: u64)
        requires
            old(self).wf(),
            old(self).samples < u64::MAX,
            in_window(ts as int, old(self).start_ms as int, old(self).end_ms as int),
        ensures
            final(self).wf(),
            final(self).start_ms == old(self).start_ms,
            final(self).end_ms == old(self).end_ms,
            final(self).written@ == old(self).written@.push((metric@, ts, label_hash)),
            final(self).samples == old(self).samples + 1,
    {
        let ghost old_names = self.names();
        let ghost old_hashes = self.hashes();
        proof {
            lemma_occurrences_bound(old_names, metric@);
            lemma_occurrences_bound(old_hashes, label_hash);
        }
        bump_name(&mut self.metric_counts, metric);
        bump_hash(&mut self.label_hash_counts, label_hash);
        self.samples = self.samples + 1;
        self.written = Ghost(self.written@.push((metric@, ts, label_hash)));
        proof {
            let names = self.names();
            let hashes = self.hashes();
            assert(names =~= old_names.push(metric@));
            assert(names.drop_last() =~= old_names);
            assert(hashes =~= old_hashes.push(label_hash));
            assert(hashes.drop_last() =~= old_hashes);
            assert forall|i: int| 0 <= i < self.written@.len() implies in_window(
                #[trigger] self.written@[i].1 as int,
                self.start_ms as int,
                self.end_ms as int,
            ) by {
                if i < self.written@.len() - 1 {
                    assert(self.written@[i] == old(self).written@[i]);
                }
            }
        }
    }

    /// Whether the write buffer is due for a flush when a sample with
    /// timestamp `ts` arrives, given the time of the last flush.
    pub fn flush_due(last_flush_ms: i64, ts: i64) -> (r: bool)
        ensures
            r == (ts as int - last_flush_ms as int >= FLUSH_INTERVAL_MS as int),
    {
        ts as i128 - last_flush_ms as i128 >= FLUSH_INTERVAL_MS as i128
    }

    /// The count held for metric `m`.
    pub fn metric_count(&self, m: &String) -> (r: u64)
        requires
            self.wf(),
        ensures
            r as nat == occurrences(self.names(), m@),
    {
        let mut i: usize = 0;
        while i < self.metric_counts.len()
            invariant
                self.wf(),
                i <= self.metric_counts.len(),
                forall|j: int| 0 <= j < i ==> self.metric_counts@[j].0@ != m@,
            decreases self.metric_counts.len() - i,
        {
            if self.metric_counts[i].0 == *m {
                proof {
                    assert(self.metric_counts@[i as int].0@ == m@);
                    assert(has_name(self.metric_counts@, m@));
                    let k = choose|k: int| 0 <= k < self.metric_counts@.len() && #[trigger] self.metric_counts@[k].0@ == m@;
                    assert(k == i);
                    assert(count_for(self.metric_counts@, m@) == occurrences(self.names(), m@));
                }
                return self.metric_counts[i].1;
            }
            i = i + 1;
        }
        assert(count_for(self.metric_counts@, m@) == occurrences(self.names(), m@));
        0
    }
}

/// The block open for writes and the time its buffer was last flushed.
pub struct OpenBlock {
    pub meta: BlockMeta,
    pub last_flush_ms: i64,
}

/// What the caller does for one sample, in this order: finalise `finished`
/// (flush its file, write its metadata), create the directory and sample file
/// of the open block when `opened`, append the sample's line, and flush the
/// open block's buffer when `flush`.
pub struct Placement {
    pub finished: Option<BlockMeta>,
    pub opened: bool,
    pub flush: bool,
}

/// The writer side of the buffer: at most one block is open at a time.
pub struct BufferState {
    pub current: Option<OpenBlock>,
}

impl BufferState {
    pub open spec fn wf(&self) -> bool {
        match self.current {
            Some(b) => b.meta.wf(),
            None => true,
        }
    }

    /// A buffer with no open block.
    pub fn new() -> (s: Self)
        ensures
            s.wf(),
            s.current is None,
    {
        BufferState { current: None }
    }

    /// Routes one sample to the block whose window holds its timestamp,
    /// opening that block (and finishing the previous one) when the open
    /// block's window does not hold it, and counts it there.
    pub fn place(&mut self, metric: &String, ts: i64, label_hash: u64) -> (p: Placement)
        requires
            old(self).wf(),
            MIN_TS_MS <= ts <= MAX_TS_MS,
            old(self).current matches Some(b) ==> b.meta.samples < u64::MAX,
        ensures
            final(self).wf(),
            final(self).current matches Some(b) && b.meta.start_ms == window_start(ts as int)
                && in_window(ts as int, b.meta.start_ms as int, b.meta.end_ms as int),
            match old(self).current {
                Some(b) => if in_window(ts as int, b.meta.start_ms as int, b.meta.end_ms as int) {
                    p.finished is None && !p.opened
                        && final(self).current.unwrap().meta.written@ == b.meta.written@.push((metric@, ts, label_hash))
                        && p.flush == (ts as int - b.last_flush_ms as int >= FLUSH_INTERVAL_MS as int)
                        && final(self).current.unwrap().last_flush_ms == if p.flush { ts } else { b.last_flush_ms }
                } else {
                    p.finished == Some(b.meta) && p.opened
                },
                None => p.finished is None && p.opened,
            },
            p.opened ==> final(self).current.unwrap().meta.written@ == seq![(metric@, ts, label_hash)]
                && p.flush == (ts as int - window_start(ts as int) >= FLUSH_INTERVAL_MS as int)
                && final(self).current.unwrap().last_flush_ms == if p.flush { ts } else { final(self).current.unwrap().meta.start_ms },
    {
        let mut finished: Option<BlockMeta> = None;
        let mut opened = false;
        let mut block = match self.current.take() {
            Some(b) => {
                if b.meta.contains(ts) {
                    b
                } else {
                    finished = Some(b.meta);
                    opened = true;
                    let meta = BlockMeta::for_timestamp(ts);
                    let start = meta.start_ms;
                    OpenBlock { meta, last_flush_ms: start }
                }
            },
            None => {
                opened = true;
                let meta = BlockMeta::for_timestamp(ts);
                let start = meta.start_ms;
                OpenBlock { meta, last_flush_ms: start }
            },
        };
        proof {
            if opened {
                assert(block.meta.written@.push((metric@, ts, label_hash)) =~= seq![(metric@, ts, label_hash)]);
            }
        }
        block.meta.record(metric, ts, label_hash);
        let flush = BlockMeta::flush_due(block.last_flush_ms, ts);
        if flush {
            block.last_flush_ms = ts;
        }
        self.current = Some(block);
        Placement { finished, opened, flush }
    }

    /// The metadata of the open block, as a snapshot writes it; the state is
    /// left as it is, so repeated snapshots write the same metadata.
    pub fn snapshot(&self) -> (r: Option<&BlockMeta>)
        ensures
            r == match self.current {
                Some(b) => Some(&b.meta),
                None => None,
            },
    {
        match &self.current {
            Some(b) => Some(&b.meta),
            None => None,
        }
    }

    /// Closes the open block, if any, and returns its metadata for the
    /// caller to finalise.
    pub fn finish(&mut self) -> (r: Option<BlockMeta>)
        ensures
            final(self).current is None,
            r == match old(self).current {
                Some(b) => Some(b.meta),
                None => None,
            },
    {
        match self.current.take() {
            Some(b) => Some(b.meta),
            None => None,
        }
    }

    /// Name of the open block's directory, `{start_ms}-{end_ms}`.
    pub fn current_dir_name(&self) -> (r: Option<String>)
        ensures
            r matches Some(n) ==> self.current matches Some(b) && n@ == block_dir_name(
                b.meta.start_ms as int,
                b.meta.end_ms as int,
            ),
            r is None <==> self.current is None,
    {
        match &self.current {
            Some(b) => Some(dir_name(b.meta.start_ms, b.meta.end_ms)),
            None => None,
        }
    }
}

/// The directory name of the block with window `[start, end)`.
pub open spec fn block_dir_name(start: int, end: int) -> Seq<char> {
    signed_decimal(start) + seq!['-'] + signed_decimal(end)
}

/// Renders the directory name of the block with window `[start, end)`.
pub fn dir_name(start: i64, end: i64) -> (r: String)
    ensures
        r@ == block_dir_name(start as int, end as int),
{
    let mut out: Vec<char> = Vec::new();
    push_signed_decimal(&mut out, start);
    out.push('-');
    push_signed_decimal(&mut out, end);
    assert(out@ =~= block_dir_name(start as int, end as int));
    string_of(&out)
}

/// Every sample counted in a well-formed block has its timestamp inside the
/// block's window, and the window is the one `floor(ts / 2h) * 2h` names.
pub proof fn lemma_samples_lie_in_their_block(meta: BlockMeta, i: int)
    requires
        meta.wf(),
        0 <= i < meta.written@.len(),
    ensures
        meta.start_ms <= meta.written@[i].1 < meta.end_ms,
        window_start(meta.written@[i].1 as int) == meta.start_ms,
{
    let ts = meta.written@[i].1 as int;
    let b = BLOCK_DURATION_MS as int;
    let q = meta.start_ms as int / b;
    assert(meta.start_ms as int == q * b);
    lemma_fundamental_div_mod_converse(ts, b, q, ts - q * b);
}

/// `window_start` maps a window's start to itself.
pub proof fn lemma_window_start_idempotent(ts: int)
    ensures
        window_start(window_start(ts)) == window_start(ts),
{
    let b = BLOCK_DURATION_MS as int;
    let q = ts / b;
    lemma_fundamental_div_mod_converse(q * b, b, q, 0);
}

/// Adds one to the entry for `m`, creating it at 1 when absent.
fn bump_name(counts: &mut Vec<(String, u64)>, m: &String)
    requires
        distinct_names(old(counts)@),
        count_for(old(counts)@, m@) < u64::MAX,
    ensures
        distinct_names(final(counts)@),
        count_for(final(counts)@, m@) == count_for(old(counts)@, m@) + 1,
        forall|n: Seq<char>| n != m@ ==> #[trigger] count_for(final(counts)@, n) == count_for(old(counts)@, n),
{
    let mut i: usize = 0;
    while i < counts.len()
        invariant
            i <= counts.len(),
            counts@ == old(counts)@,
            distinct_names(old(counts)@),
            count_for(old(counts)@, m@) < u64::MAX,
            forall|j: int| 0 <= j < i ==> counts@[j].0@ != m@,
        decreases counts.len() - i,
    {
        if counts[i].0 == *m {
            let ghost before = counts@;
            proof {
                assert(before[i as int].0@ == m@);
                assert(has_name(before, m@));
                let idx = choose|x: int| 0 <= x < before.len() && #[trigger] before[x].0@ == m@;
                assert(idx == i);
            }
            let c = counts[i].1;
            let k = counts[i].0.clone();
            counts.set(i, (k, c + 1));
            proof {
                let after = counts@;
                assert(after[i as int].0@ == m@);
                assert(has_name(after, m@));
                let idx = choose|x: int| 0 <= x < after.len() && #[trigger] after[x].0@ == m@;
                assert(idx == i);
                assert forall|n: Seq<char>| n != m@ implies #[trigger] count_for(after, n) == count_for(before, n) by {
                    if has_name(before, n) {
                        let x = choose|x: int| 0 <= x < before.len() && #[trigger] before[x].0@ == n;
                        assert(after[x].0@ == n);
                        let y = choose|y: int| 0 <= y < after.len() && #[trigger] after[y].0@ == n;
                        assert(x == y);
                    } else if has_name(after, n) {
                        let y = choose|y: int| 0 <= y < after.len() && #[trigger] after[y].0@ == n;
                        assert(before[y].0@ == n);
                    }
                }
            }
            return;
        }
        i = i + 1;
    }
    let ghost before = counts@;
    let k = m.clone();
    counts.push((k, 1));
    proof {
        let after = counts@;
        let last = after.len() - 1;
        assert(after[last].0@ == m@);
        assert(has_name(after, m@));
        let idx = choose|x: int| 0 <= x < after.len() && #[trigger] after[x].0@ == m@;
        assert(idx == last);
        assert(!has_name(before, m@));
        assert forall|n: Seq<char>| n != m@ implies #[trigger] count_for(after, n) == count_for(before, n) by {
            if has_name(before, n) {
                let x = choose|x: int| 0 <= x < before.len() && #[trigger] before[x].0@ == n;
                assert(after[x].0@ == n);
                let y = choose|y: int| 0 <= y < after.len() && #[trigger] after[y].0@ == n;
                assert(x == y);
            } else if has_name(after, n) {
                let y = choose|y: int| 0 <= y < after.len() && #[trigger] after[y].0@ == n;
                assert(before[y].0@ == n);
            }
        }
    }
}

/// Adds one to the entry for hash `h`, creating it at 1 when absent.
fn bump_hash(counts: &mut Vec<(u64, u64)>, h: u64)
    requires
        distinct_hashes(old(counts)@),
        hash_count(old(counts)@, h) < u64::MAX,
    ensures
        distinct_hashes(final(counts)@),
        hash_count(final(counts)@, h) == hash_count(old(counts)@, h) + 1,
        forall|g: u64| g != h ==> #[trigger] hash_count(final(counts)@, g) == hash_count(old(counts)@, g),
{
    let mut i: usize = 0;
    while i < counts.len()
        invariant
            i <= counts.len(),
            counts@ == old(counts)@,
            distinct_hashes(old(counts)@),
            hash_count(old(counts)@, h) < u64::MAX,
            forall|j: int| 0 <= j < i ==> counts@[j].0 != h,
        decreases counts.len() - i,
    {
        if counts[i].0 == h {
            let ghost before = counts@;
            proof {
                assert(has_hash(before, h));
                let idx = choose|x: int| 0 <= x < before.len() && #[trigger] before[x].0 == h;
                assert(idx == i);
            }
            let c = counts[i].1;
            counts.set(i, (h, c + 1));
            proof {
                let after = counts@;
                assert(after[i as int].0 == h);
                assert(has_hash(after, h));
                let idx = choose|x: int| 0 <= x < after.len() && #[trigger] after[x].0 == h;
                assert(idx == i);
                assert forall|g: u64| g != h implies #[trigger] hash_count(after, g) == hash_count(before, g) by {
                    if has_hash(before, g) {
                        let x = choose|x: int| 0 <= x < before.len() && #[trigger] before[x].0 == g;
                        assert(after[x].0 == g);
                        let y = choose|y: int| 0 <= y < after.len() && #[trigger] after[y].0 == g;
                        assert(x == y);
                    } else if has_hash(after, g) {
                        let y = choose|y: int| 0 <= y < after.len() && #[trigger] after[y].0 == g;
                        assert(before[y].0 == g);
                    }
                }
            }
            return;
        }
        i = i + 1;
    }
    let ghost before = counts@;
    counts.push((h, 1));
    proof {
        let after = counts@;
        let last = after.len() - 1;
        assert(after[last].0 == h);
        assert(has_hash(after, h));
        let idx = choose|x: int| 0 <= x < after.len() && #[trigger] after[x].0 == h;
        assert(idx == last);
        assert(!has_hash(before, h));
        assert forall|g: u64| g != h implies #[trigger] hash_count(after, g) == hash_count(before, g) by {
            if has_hash(before, g) {
                let x = choose|x: int| 0 <= x < before.len() && #[trigger] before[x].0 == g;
                assert(after[x].0 == g);
                let y = choose|y: int| 0 <= y < after.len() && #[trigger] after[y].0 == g;
                assert(x == y);
            } else if has_hash(after, g) {
                let y = choose|y: int| 0 <= y < after.len() && #[trigger] after[y].0 == g;
                assert(before[y].0 == g);
            }
        }
    }
}

} // verus!
