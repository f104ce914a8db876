//! Pruning of the local time-series buffer: which block directories are
//! deleted to enforce retention and the disk budget.
use vstd::prelude::*;
use crate::text::{chars_of, i64_of, parse_i64};

verus! {

/// A block directory found on disk: its window and its size in bytes.
pub struct BlockInfo {
    pub start_ms: i64,
    pub end_ms: i64,
    pub size_bytes: u64,
}

/// Milliseconds in one hour.
pub const MS_PER_HOUR: i64 = 3_600_000;

/// Bytes in one mebibyte.
pub const BYTES_PER_MB: u64 = 1_048_576;

/// The oldest end a block may have and still be kept by retention.
pub open spec fn retention_cutoff(now_ms: int, retention_hours: int) -> int {
    now_ms - retention_hours * MS_PER_HOUR as int
}

/// Whether block `b` has expired: its window ended before the cutoff.
pub open spec fn expired(b: BlockInfo, now_ms: int, retention_hours: int) -> bool {
    (b.end_ms as int) < retention_cutoff(now_ms, retention_hours)
}

/// Whether block `b` is the open block, which pruning never deletes.
pub open spec fn is_open_block(b: BlockInfo, open_start: Option<i64>) -> bool {
    open_start == Some(b.start_ms)
}

/// Total size of the first `n` blocks that are not marked for deletion.
pub open spec fn kept_size(blocks: Seq<BlockInfo>, del: Seq<bool>, n: int) -> int
    decreases n,
{
    if n <= 0 {
        0
    } else {
        kept_size(blocks, del, n - 1) + if del[n - 1] {
            0int
        } else {
            blocks[n - 1].size_bytes as int
        }
    }
}

/// Number of the first `n` blocks that are neither marked nor open.
pub open spec fn deletable_left(blocks: Seq<BlockInfo>, del: Seq<bool>, open_start: Option<i64>, n: int) -> int
    decreases n,
{
    if n <= 0 {
        0
    } else {
        deletable_left(blocks, del, open_start, n - 1) + if del[n - 1] || is_open_block(blocks[n - 1], open_start) {
            0int
        } else {
            1int
        }
    }
}

proof fn lemma_kept_size_mark(blocks: Seq<BlockInfo>, del: Seq<bool>, open_start: Option<i64>, c: int, n: int)
    requires
        0 <= c < n <= del.len(),
        n <= blocks.len(),
        !del[c],
        !is_open_block(blocks[c], open_start),
    ensures
        kept_size(blocks, del.update(c, true), n) == kept_size(blocks, del, n) - blocks[c].size_bytes,
        deletable_left(blocks, del.update(c, true), open_start, n) == deletable_left(blocks, del, open_start, n) - 1,
    decreases n,
{
    if c < n - 1 {
        lemma_kept_size_mark(blocks, del, open_start, c, n - 1);
    } else {
        lemma_kept_size_unchanged(blocks, del, open_start, c, n - 1);
    }
}

proof fn lemma_kept_size_unchanged(blocks: Seq<BlockInfo>, del: Seq<bool>, open_start: Option<i64>, c: int, n: int)
    requires
        0 <= n <= c < del.len(),
        n <= blocks.len(),
    ensures
        kept_size(blocks, del.update(c, true), n) == kept_size(blocks, del, n),
        deletable_left(blocks, del.update(c, true), open_start, n) == deletable_left(blocks, del, open_start, n),
    decreases n,
{
    if n > 0 {
        lemma_kept_size_unchanged(blocks, del, open_start, c, n - 1);
    }
}

proof fn lemma_kept_size_bound(blocks: Seq<BlockInfo>, del: Seq<bool>, n: int)
    requires
        0 <= n <= blocks.len(),
        n <= del.len(),
    ensures
        0 <= kept_size(blocks, del, n) <= n * u64::MAX,
    decreases n,
{
    if n > 0 {
        lemma_kept_size_bound(blocks, del, n - 1);
    }
}

proof fn lemma_deletable_nonneg(blocks: Seq<BlockInfo>, del: Seq<bool>, open_start: Option<i64>, n: int)
    ensures
        deletable_left(blocks, del, open_start, n) >= 0,
    decreases n,
{
    if n > 0 {
        lemma_deletable_nonneg(blocks, del, open_start, n - 1);
    }
}

/// Marks the blocks to delete, one flag per block: first every expired
/// block, then, while the blocks kept still exceed `max_disk_mb` mebibytes,
/// the oldest kept block by start time. The open block is never marked.
pub fn plan_prune(
    blocks: &Vec<BlockInfo>,
    now_ms: i64,
    retention_hours: u64,
    max_disk_mb: u64,
    open_start: Option<i64>,
) -> (del: Vec<bool>)
    ensures
        del.len() == blocks.len(),
        forall|i: int| 0 <= i < blocks.len() && is_open_block(#[trigger] blocks@[i], open_start) ==> !del@[i],
        forall|i: int|
            0 <= i < blocks.len() && expired(#[trigger] blocks@[i], now_ms as int, retention_hours as int)
                && !is_open_block(blocks@[i], open_start) ==> del@[i],
        kept_size(blocks@, del@, blocks.len() as int) > max_disk_mb as int * BYTES_PER_MB as int ==> forall|i: int|
            0 <= i < blocks.len() && !is_open_block(#[trigger] blocks@[i], open_start) ==> del@[i],
        forall|i: int, j: int|
            0 <= i < blocks.len() && 0 <= j < blocks.len() && del@[i] && !expired(
                #[trigger] blocks@[i],
                now_ms as int,
                retention_hours as int,
            ) && !del@[j] && !is_open_block(#[trigger] blocks@[j], open_start) ==> blocks@[i].start_ms
                <= blocks@[j].start_ms,
        (exists|i: int| 0 <= i < blocks.len() && del@[i] && !expired(#[trigger] blocks@[i], now_ms as int, retention_hours as int))
            ==> exists|v: int|
            0 <= v < blocks.len() && del@[v] && !expired(#[trigger] blocks@[v], now_ms as int, retention_hours as int)
                && kept_size(blocks@, del@, blocks.len() as int) + blocks@[v].size_bytes > max_disk_mb as int
                * BYTES_PER_MB as int
                && forall|u: int| 0 <= u < blocks.len() && del@[u] && !expired(#[trigger] blocks@[u], now_ms as int, retention_hours as int)
                    ==> blocks@[u].start_ms <= blocks@[v].start_ms,
{
    let n = blocks.len();
    let rh: i128 = retention_hours as i128;
    let mb: u128 = max_disk_mb as u128;
    assert(rh * 3_600_000 <= 18446744073709551615 * 3_600_000) by (nonlinear_arith)
        requires 0 <= rh <= 18446744073709551615;
    assert(mb * 1_048_576 <= 18446744073709551615 * 1_048_576) by (nonlinear_arith)
        requires mb <= 18446744073709551615;
    let cutoff: i128 = now_ms as i128 - rh * 3_600_000;
    let max_bytes: u128 = mb * 1_048_576;
    let mut del: Vec<bool> = Vec::new();
    let mut total: u128 = 0;
    let mut i: usize = 0;
    while i < n
        invariant
            n == blocks.len(),
            i <= n,
            del.len() == i,
            cutoff == retention_cutoff(now_ms as int, retention_hours as int),
            total as int == kept_size(blocks@, del@, i as int),
            forall|k: int| 0 <= k < i ==> (del@[k] <==> (expired(#[trigger] blocks@[k], now_ms as int, retention_hours as int)
                && !is_open_block(blocks@[k], open_start))),
        decreases n - i,
    {
        let b = &blocks[i];
        let is_open = match open_start {
            Some(s) => s == b.start_ms,
            None => false,
        };
        let d = (b.end_ms as i128) < cutoff && !is_open;
        proof {
            lemma_kept_size_bound(blocks@, del@, i as int);
            assert(i * u64::MAX <= n * u64::MAX) by (nonlinear_arith)
                requires i <= n;
        }
        if !d {
            total = total + b.size_bytes as u128;
        }
        let ghost before = del@;
        del.push(d);
        proof {
            lemma_kept_size_prefix(blocks@, del@, i as int, i as int);
            assert(del@.subrange(0, i as int) =~= before);
        }
        i = i + 1;
    }
    let ghost mut last: int = -1;
    loop
        invariant
            n == blocks.len(),
            del.len() == n,
            total as int == kept_size(blocks@, del@, n as int),
            forall|k: int| 0 <= k < n && is_open_block(#[trigger] blocks@[k], open_start) ==> !del@[k],
            forall|k: int|
                0 <= k < n && expired(#[trigger] blocks@[k], now_ms as int, retention_hours as int)
                    && !is_open_block(blocks@[k], open_start) ==> del@[k],
            forall|a: int, c: int|
                0 <= a < n && 0 <= c < n && del@[a] && !expired(
                    #[trigger] blocks@[a],
                    now_ms as int,
                    retention_hours as int,
                ) && !del@[c] && !is_open_block(#[trigger] blocks@[c], open_start) ==> blocks@[a].start_ms
                    <= blocks@[c].start_ms,
            (exists|a: int| 0 <= a < n && del@[a] && !expired(#[trigger] blocks@[a], now_ms as int, retention_hours as int))
                ==> (0 <= last < n && del@[last] && !expired(blocks@[last], now_ms as int, retention_hours as int)
                && total + blocks@[last].size_bytes > max_bytes
                && forall|u: int| 0 <= u < n && del@[u] && !expired(#[trigger] blocks@[u], now_ms as int, retention_hours as int)
                    ==> blocks@[u].start_ms <= blocks@[last].start_ms),
            max_bytes == max_disk_mb as int * BYTES_PER_MB as int,
        ensures
            total <= max_bytes || forall|k: int| 0 <= k < n && !is_open_block(#[trigger] blocks@[k], open_start) ==> del@[k],
        decreases deletable_left(blocks@, del@, open_start, n as int),
    {
        if total <= max_bytes {
            break;
        }
        let mut best: Option<usize> = None;
        let mut k: usize = 0;
        while k < n
            invariant
                n == blocks.len(),
                del.len() == n,
                k <= n,
                best matches Some(b) ==> b < k && !del@[b as int] && !is_open_block(blocks@[b as int], open_start),
                forall|c: int| 0 <= c < k && !del@[c] && !is_open_block(#[trigger] blocks@[c], open_start)
                    ==> (best matches Some(b) && blocks@[b as int].start_ms <= blocks@[c].start_ms),
            decreases n - k,
        {
            let is_open = match open_start {
                Some(s) => s == blocks[k].start_ms,
                None => false,
            };
            if !del[k] && !is_open {
                match best {
                    Some(b) => {
                        if blocks[k].start_ms < blocks[b].start_ms {
                            best = Some(k);
                        }
                    },
                    None => {
                        best = Some(k);
                    },
                }
            }
            k = k + 1;
        }
        match best {
            None => {
                break;
            },
            Some(c) => {
                proof {
                    lemma_kept_size_mark(blocks@, del@, open_start, c as int, n as int);
                    lemma_deletable_nonneg(blocks@, del@.update(c as int, true), open_start, n as int);
                    lemma_kept_size_bound(blocks@, del@.update(c as int, true), n as int);
                }
                let ghost before = del@;
                del.set(c, true);
                total = total - blocks[c].size_bytes as u128;
                proof {
                    last = c as int;
                    assert forall|a: int, e: int|
                        0 <= a < n && 0 <= e < n && del@[a] && !expired(
                            #[trigger] blocks@[a],
                            now_ms as int,
                            retention_hours as int,
                        ) && !del@[e] && !is_open_block(#[trigger] blocks@[e], open_start) implies blocks@[a].start_ms
                            <= blocks@[e].start_ms by {
                        if a != c {
                            assert(before[a] && before[e] == del@[e]);
                        }
                    }
                    assert(expired(blocks@[c as int], now_ms as int, retention_hours as int) ==> before[c as int]);
                }
            },
        }
    }
    del
}

proof fn lemma_kept_size_prefix(blocks: Seq<BlockInfo>, del: Seq<bool>, i: int, m: int)
    requires
        0 <= m <= i < del.len(),
    ensures
        kept_size(blocks, del, m) == kept_size(blocks, del.subrange(0, i), m),
    decreases m,
{
    if m > 0 {
        lemma_kept_size_prefix(blocks, del, i, m - 1);
    }
}

/// A block holding a sample no older than the retention window has not
/// expired, so retention never deletes it.
pub proof fn lemma_recent_sample_survives_retention(b: BlockInfo, ts: int, now_ms: int, retention_hours: int)
    requires
        b.start_ms <= ts < b.end_ms,
        now_ms - ts <= retention_hours * MS_PER_HOUR as int,
    ensures
        !expired(b, now_ms, retention_hours),
{
}

/// Whether `s` holds exactly one `-`, at index `k`.
pub open spec fn single_dash_at(s: Seq<char>, k: int) -> bool {
    &&& 0 <= k < s.len()
    &&& s[k] == '-'
    &&& forall|j: int| 0 <= j < s.len() && j != k ==> #[trigger] s[j] != '-'
}

/// Reads a block directory name `{start_ms}-{end_ms}`: exactly two parts
/// around a single `-`, each an integer.
pub open spec fn block_name_value(name: Seq<char>) -> Option<(i64, i64)> {
    if exists|k: int| single_dash_at(name, k) {
        let k = choose|k: int| single_dash_at(name, k);
        match (i64_of(name.subrange(0, k)), i64_of(name.subrange(k + 1, name.len() as int))) {
            (Some(s), Some(e)) => Some((s, e)),
            _ => None,
        }
    } else {
        None
    }
}

fn find_single_dash(cs: &Vec<char>) -> (r: Option<usize>)
    ensures
        r matches Some(k) ==> single_dash_at(cs@, k as int),
        r is None ==> !exists|k: int| single_dash_at(cs@, k),
{
    let mut dash: Option<usize> = None;
    let mut i: usize = 0;
    while i < cs.len()
        invariant
            i <= cs.len(),
            dash matches Some(k) ==> k < i && cs@[k as int] == '-' && forall|j: int| 0 <= j < i && j != k ==> #[trigger] cs@[j] != '-',
            dash is None ==> forall|j: int| 0 <= j < i ==> #[trigger] cs@[j] != '-',
        decreases cs.len() - i,
    {
        if cs[i] == '-' {
            if dash.is_some() {
                proof {
                    let k = dash.unwrap() as int;
                    assert forall|k2: int| !single_dash_at(cs@, k2) by {
                        if single_dash_at(cs@, k2) {
                            if k2 != k {
                                assert(cs@[k] == '-');
                            } else {
                                assert(cs@[i as int] == '-');
                            }
                        }
                    }
                }
                return None;
            }
            dash = Some(i);
        }
        i = i + 1;
    }
    proof {
        if dash is None {
            assert forall|k2: int| !single_dash_at(cs@, k2) by {
                if single_dash_at(cs@, k2) {
                    assert(cs@[k2] == '-');
                }
            }
        }
    }
    dash
}

/// Parses a block directory name into its window, or `None` for a name that
/// is not one.
pub fn parse_block_dir_name(name: &str) -> (r: Option<(i64, i64)>)
    ensures
        r == block_name_value(name@),
{
    let cs = chars_of(name);
    match find_single_dash(&cs) {
        None => None,
        Some(k) => {
            proof {
                let kk = choose|k2: int| single_dash_at(name@, k2);
                if kk != k {
                    assert(name@[k as int] == '-');
                }
            }
            let mut left: Vec<char> = Vec::new();
            let mut right: Vec<char> = Vec::new();
            let mut j: usize = 0;
            while j < cs.len()
                invariant
                    j <= cs.len(),
                    k < cs.len(),
                    j <= k ==> left@ == cs@.subrange(0, j as int) && right@.len() == 0,
                    j > k ==> left@ == cs@.subrange(0, k as int) && right@ == cs@.subrange(k + 1, j as int),
                decreases cs.len() - j,
            {
                if j < k {
                    left.push(cs[j]);
                    assert(left@ =~= cs@.subrange(0, j + 1));
                } else if j > k {
                    right.push(cs[j]);
                    assert(right@ =~= cs@.subrange(k + 1, j + 1));
                } else {
                    assert(right@ =~= cs@.subrange(k + 1, j + 1));
                }
                j = j + 1;
            }
            match (parse_i64(&left), parse_i64(&right)) {
                (Some(s), Some(e)) => Some((s, e)),
                _ => None,
            }
        },
    }
}

} // verus!
