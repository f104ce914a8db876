//! Replay of buffered samples: which blocks and samples a query selects, and
//! how a selected sample is rendered as a text line.
use vstd::prelude::*;
use vstd::multiset::Multiset;
use vstd::seq_lib::*;
use crate::text::{chars_lt, chars_of, chars_eq, is_prefix, push_all, push_signed_decimal, seq_lt,
    signed_decimal, starts_with_chars, string_of};
use crate::procfs::{SPLIT_COMMAS, pieces, split_pieces, trim_blank_ends, trim_ends};
use crate::tsdb::{BlockMeta, Sample, count_for, distinct_label_keys, has_name, occurrences};
use std::hash::{Hash, Hasher};

verus! {

broadcast use group_to_multiset_ensures;

/// Whether a block `[start, end]` may hold samples in the query range.
pub open spec fn spec_overlaps(start: int, end: int, from: Option<i64>, to: Option<i64>) -> bool {
    (from matches Some(f) ==> end >= f) && (to matches Some(t) ==> start <= t)
}

/// Whether a timestamp lies in the query range `[from, to]`.
pub open spec fn spec_in_range(ts: int, from: Option<i64>, to: Option<i64>) -> bool {
    (from matches Some(f) ==> ts >= f) && (to matches Some(t) ==> ts <= t)
}

/// Checks whether a block's window may hold samples in the query range.
pub fn overlaps(start: i64, end: i64, from: Option<i64>, to: Option<i64>) -> (r: bool)
    ensures
        r == spec_overlaps(start as int, end as int, from, to),
{
    let after_from = match from {
        Some(f) => end >= f,
        None => true,
    };
    let before_to = match to {
        Some(t) => start <= t,
        None => true,
    };
    after_from && before_to
}

/// Checks whether a timestamp lies in the query range.
pub fn timestamp_in_range(ts: i64, from: Option<i64>, to: Option<i64>) -> (r: bool)
    ensures
        r == spec_in_range(ts as int, from, to),
{
    let gte_from = match from {
        Some(f) => ts >= f,
        None => true,
    };
    let lte_to = match to {
        Some(t) => ts <= t,
        None => true,
    };
    gte_from && lte_to
}

/// `f` with every trailing `*` removed.
pub open spec fn trim_stars(f: Seq<char>) -> Seq<char>
    decreases f.len(),
{
    if f.len() > 0 && f.last() == '*' {
        trim_stars(f.drop_last())
    } else {
        f
    }
}

/// Whether metric name `m` is selected by filter `f`: a filter ending in `*`
/// selects the names that start with what precedes its trailing stars; any
/// other filter selects exactly its own name.
pub open spec fn filter_matches(f: Seq<char>, m: Seq<char>) -> bool {
    if f.len() > 0 && f.last() == '*' {
        is_prefix(trim_stars(f), m)
    } else {
        f == m
    }
}

/// Whether some filter of `filters` selects `m`.
pub open spec fn any_filter_matches(filters: Seq<String>, m: Seq<char>) -> bool {
    exists|i: int| 0 <= i < filters.len() && filter_matches(#[trigger] filters[i]@, m)
}

fn trimmed_stars(f: &Vec<char>) -> (r: Vec<char>)
    ensures
        r@ == trim_stars(f@),
{
    let mut n: usize = f.len();
    assert(f@.subrange(0, f.len() as int) =~= f@);
    while n > 0 && f[n - 1] == '*'
        invariant
            n <= f.len(),
            trim_stars(f@) == trim_stars(f@.subrange(0, n as int)),
        decreases n,
    {
        assert(f@.subrange(0, n as int).drop_last() =~= f@.subrange(0, n - 1));
        n = n - 1;
    }
    let mut r: Vec<char> = Vec::new();
    let mut i: usize = 0;
    while i < n
        invariant
            n <= f.len(),
            i <= n,
            r@ == f@.subrange(0, i as int),
        decreases n - i,
    {
        r.push(f[i]);
        i = i + 1;
        assert(r@ =~= f@.subrange(0, i as int));
    }
    assert(f@.subrange(0, f.len() as int) =~= f@);
    r
}

fn filter_selects(f: &Vec<char>, m: &Vec<char>) -> (r: bool)
    ensures
        r == filter_matches(f@, m@),
{
    if f.len() > 0 && f[f.len() - 1] == '*' {
        let prefix = trimmed_stars(f);
        starts_with_chars(m, &prefix)
    } else {
        chars_eq(f, m)
    }
}

/// Checks whether some filter selects `metric`.
pub fn matches_metric(metric: &str, filters: &Vec<String>) -> (r: bool)
    ensures
        r == any_filter_matches(filters@, metric@),
{
    let m = chars_of(metric);
    let mut i: usize = 0;
    while i < filters.len()
        invariant
            i <= filters.len(),
            m@ == metric@,
            forall|j: int| 0 <= j < i ==> !filter_matches(#[trigger] filters@[j]@, metric@),
        decreases filters.len() - i,
    {
        let f = chars_of(filters[i].as_str());
        if filter_selects(&f, &m) {
            return true;
        }
        i = i + 1;
    }
    false
}

/// The non-empty trimmed parts of a list of parts, in order.
pub open spec fn trimmed_nonempty(parts: Seq<Seq<char>>) -> Seq<Seq<char>>
    decreases parts.len(),
{
    if parts.len() == 0 {
        Seq::empty()
    } else {
        let rest = trimmed_nonempty(parts.drop_last());
        let t = trim_blank_ends(parts.last());
        if t.len() > 0 {
            rest.push(t)
        } else {
            rest
        }
    }
}

/// Reads the `metrics` parameter of a replay query: the comma-separated
/// names, without surrounding blanks, empty ones dropped, in order.
pub fn parse_metric_filters(csv: &str) -> (r: Vec<String>)
    ensures
        r@.map_values(|f: String| f@) == trimmed_nonempty(pieces(csv@, SPLIT_COMMAS)),
{
    let cs = chars_of(csv);
    let parts = split_pieces(&cs, SPLIT_COMMAS);
    let ghost pv = parts@.map_values(|w: Vec<char>| w@);
    let mut out: Vec<String> = Vec::new();
    let mut i: usize = 0;
    while i < parts.len()
        invariant
            i <= parts.len(),
            pv == parts@.map_values(|w: Vec<char>| w@),
            pv == pieces(csv@, SPLIT_COMMAS),
            out@.map_values(|f: String| f@) == trimmed_nonempty(pv.subrange(0, i as int)),
        decreases parts.len() - i,
    {
        let ghost before = out@.map_values(|f: String| f@);
        assert(pv.subrange(0, i + 1).drop_last() =~= pv.subrange(0, i as int));
        assert(pv[i as int] == parts@[i as int]@);
        let t = trim_ends(&parts[i], 0, parts[i].len());
        assert(parts@[i as int]@.subrange(0, parts@[i as int]@.len() as int) =~= parts@[i as int]@);
        if t.len() > 0 {
            let f = string_of(&t);
            out.push(f);
            assert(out@.map_values(|f: String| f@) =~= before.push(t@));
        }
        i = i + 1;
    }
    assert(pv.subrange(0, pv.len() as int) =~= pv);
    out
}

/// Whether a block's metadata names some metric that a filter selects.
pub open spec fn index_selected(filters: Seq<String>, counts: Seq<(String, u64)>) -> bool {
    exists|j: int| 0 <= j < counts.len() && any_filter_matches(filters, #[trigger] counts[j].0@)
}

/// Checks, from a block's metadata alone, whether the block can hold a
/// sample that the filters select; a block that cannot is skipped.
pub fn metrics_match_index(filters: &Vec<String>, idx: &BlockMeta) -> (r: bool)
    ensures
        r == index_selected(filters@, idx.metric_counts@),
{
    let mut j: usize = 0;
    while j < idx.metric_counts.len()
        invariant
            j <= idx.metric_counts.len(),
            forall|k: int| 0 <= k < j ==> !any_filter_matches(filters@, #[trigger] idx.metric_counts@[k].0@),
        decreases idx.metric_counts.len() - j,
    {
        if matches_metric(idx.metric_counts[j].0.as_str(), filters) {
            return true;
        }
        j = j + 1;
    }
    false
}

/// Whether a replay query reads a block: its window meets the range, and,
/// when names are asked for and the block's index could be read, the index
/// names one of them.
pub fn block_selected(
    start: i64,
    end: i64,
    index: Option<&BlockMeta>,
    from: Option<i64>,
    to: Option<i64>,
    metrics: Option<&Vec<String>>,
) -> (r: bool)
    ensures
        r == (spec_overlaps(start as int, end as int, from, to) && ((metrics is Some && index is Some)
            ==> index_selected(metrics.unwrap()@, index.unwrap().metric_counts@))),
{
    if !overlaps(start, end, from, to) {
        return false;
    }
    match (metrics, index) {
        (Some(f), Some(idx)) => metrics_match_index(f, idx),
        _ => true,
    }
}

/// Whether a replay query returns a sample: its timestamp is in the range
/// and, when names are asked for, a filter selects its name.
pub fn sample_selected(metric: &str, ts: i64, from: Option<i64>, to: Option<i64>, metrics: Option<&Vec<String>>) -> (r: bool)
    ensures
        r == (spec_in_range(ts as int, from, to) && (metrics is Some ==> any_filter_matches(metrics.unwrap()@, metric@))),
{
    if !timestamp_in_range(ts, from, to) {
        return false;
    }
    match metrics {
        Some(f) => matches_metric(metric, f),
        None => true,
    }
}

/// The views of a list of label pairs.
pub open spec fn pair_views(labels: Seq<(String, String)>) -> Seq<(Seq<char>, Seq<char>)> {
    labels.map_values(|p: (String, String)| (p.0@, p.1@))
}

/// The views of a list of label pairs held as character vectors.
pub open spec fn char_pair_views(labels: Seq<(Vec<char>, Vec<char>)>) -> Seq<(Seq<char>, Seq<char>)> {
    labels.map_values(|p: (Vec<char>, Vec<char>)| (p.0@, p.1@))
}

/// Whether the pairs are in non-decreasing order of key.
pub open spec fn sorted_by_key(ls: Seq<(Seq<char>, Seq<char>)>) -> bool {
    forall|i: int, j: int| 0 <= i < j < ls.len() ==> !seq_lt(#[trigger] ls[j].0, #[trigger] ls[i].0)
}

/// Whether `ls` holds the pairs of `labels` ordered by key.
pub open spec fn is_key_order_of(ls: Seq<(Seq<char>, Seq<char>)>, labels: Seq<(String, String)>) -> bool {
    sorted_by_key(ls) && ls.to_multiset() == pair_views(labels).to_multiset()
}

/// The order on keys is transitive.
pub proof fn lemma_seq_lt_transitive(a: Seq<char>, b: Seq<char>, c: Seq<char>)
    requires
        seq_lt(a, b),
        seq_lt(b, c),
    ensures
        seq_lt(a, c),
    decreases a.len(),
{
    if a.len() > 0 && b.len() > 0 && c.len() > 0 && a[0] == b[0] && b[0] == c[0] {
        lemma_seq_lt_transitive(a.drop_first(), b.drop_first(), c.drop_first());
    }
}

/// No key is below itself.
pub proof fn lemma_seq_lt_irreflexive(a: Seq<char>)
    ensures
        !seq_lt(a, a),
    decreases a.len(),
{
    if a.len() > 0 {
        lemma_seq_lt_irreflexive(a.drop_first());
    }
}

/// Inserts `x` after every entry whose key is not above its own.
fn insert_by_key(r: &mut Vec<(Vec<char>, Vec<char>)>, x: (Vec<char>, Vec<char>))
    requires
        sorted_by_key(char_pair_views(old(r)@)),
    ensures
        sorted_by_key(char_pair_views(final(r)@)),
        char_pair_views(final(r)@).to_multiset() == char_pair_views(old(r)@).to_multiset().insert((x.0@, x.1@)),
{
    let ghost xv = (x.0@, x.1@);
    let mut p: usize = 0;
    while p < r.len() && !chars_lt(&x.0, &r[p].0)
        invariant
            p <= r.len(),
            r@ == old(r)@,
            forall|i: int| 0 <= i < p ==> !seq_lt(x.0@, #[trigger] r@[i].0@),
        decreases r.len() - p,
    {
        p = p + 1;
    }
    let ghost before = char_pair_views(r@);
    r.insert(p, x);
    proof {
        let after = char_pair_views(r@);
        assert(after =~= before.insert(p as int, xv));
        to_multiset_insert(before, p as int, xv);
        assert forall|i: int, j: int| 0 <= i < j < after.len() implies !seq_lt(#[trigger] after[j].0, #[trigger] after[i].0) by {
            if j == p {
                assert(after[i] == before[i]);
            } else if i == p {
                assert(after[j] == before[j - 1]);
                assert(p < before.len());
                assert(seq_lt(xv.0, before[p as int].0));
                if seq_lt(before[j - 1].0, xv.0) {
                    lemma_seq_lt_transitive(before[j - 1].0, xv.0, before[p as int].0);
                    if j - 1 > p {
                        assert(!seq_lt(before[j - 1].0, before[p as int].0));
                    } else {
                        lemma_seq_lt_irreflexive(before[p as int].0);
                    }
                }
            } else {
                let i0 = if i < p { i } else { i - 1 };
                let j0 = if j < p { j } else { j - 1 };
                assert(after[i] == before[i0]);
                assert(after[j] == before[j0]);
            }
        }
    }
}

/// The label pairs as character vectors, ordered by key.
fn sorted_pairs(labels: &Vec<(String, String)>) -> (r: Vec<(Vec<char>, Vec<char>)>)
    ensures
        is_key_order_of(char_pair_views(r@), labels@),
{
    let mut r: Vec<(Vec<char>, Vec<char>)> = Vec::new();
    let mut i: usize = 0;
    while i < labels.len()
        invariant
            i <= labels.len(),
            sorted_by_key(char_pair_views(r@)),
            char_pair_views(r@).to_multiset() == pair_views(labels@.subrange(0, i as int)).to_multiset(),
        decreases labels.len() - i,
    {
        let k = chars_of(labels[i].0.as_str());
        let v = chars_of(labels[i].1.as_str());
        insert_by_key(&mut r, (k, v));
        proof {
            let pre = labels@.subrange(0, i as int);
            let next = labels@.subrange(0, i + 1);
            assert(pair_views(next) =~= pair_views(pre).push((labels@[i as int].0@, labels@[i as int].1@)));
        }
        i = i + 1;
    }
    assert(labels@.subrange(0, labels.len() as int) =~= labels@);
    r
}

/// Keys below or equal in both directions are equal.
pub proof fn lemma_seq_lt_total(a: Seq<char>, b: Seq<char>)
    requires
        !seq_lt(a, b),
        !seq_lt(b, a),
    ensures
        a == b,
    decreases a.len(),
{
    if a.len() > 0 && b.len() > 0 {
        lemma_seq_lt_total(a.drop_first(), b.drop_first());
        assert(a =~= seq![a[0]] + a.drop_first());
        assert(b =~= seq![b[0]] + b.drop_first());
    }
}

/// Whether a label list maps each key to one value.
pub open spec fn keys_determine_values(ls: Seq<(Seq<char>, Seq<char>)>) -> bool {
    forall|i: int, j: int| 0 <= i < ls.len() && 0 <= j < ls.len() && ls[i].0 == ls[j].0 ==> ls[i].1 == ls[j].1
}

/// Whether the pairs of a multiset map each key to one value.
pub open spec fn functional(m: Multiset<(Seq<char>, Seq<char>)>) -> bool {
    forall|x: (Seq<char>, Seq<char>), y: (Seq<char>, Seq<char>)|
        m.count(x) > 0 && m.count(y) > 0 && x.0 == y.0 ==> x == y
}

/// Two key-sorted sequences of the same pairs, whose keys each determine
/// their value, are equal.
proof fn lemma_sorted_unique(s1: Seq<(Seq<char>, Seq<char>)>, s2: Seq<(Seq<char>, Seq<char>)>)
    requires
        sorted_by_key(s1),
        sorted_by_key(s2),
        s1.to_multiset() == s2.to_multiset(),
        functional(s1.to_multiset()),
    ensures
        s1 == s2,
    decreases s1.len(),
{
    let m = s1.to_multiset();
    to_multiset_len(s1);
    to_multiset_len(s2);
    assert(s1.len() == s2.len());
    if s1.len() == 0 {
        assert(s1 =~= s2);
    } else {
        let a = s1[0];
        let b = s2[0];
        assert(s1.contains(a));
        assert(m.count(a) > 0);
        assert(s2.contains(a));
        let j = choose|j: int| 0 <= j < s2.len() && s2[j] == a;
        if j > 0 {
            assert(!seq_lt(s2[j].0, s2[0].0));
        }
        assert(s2.contains(b));
        assert(m.count(b) > 0);
        assert(s1.contains(b));
        let i = choose|i: int| 0 <= i < s1.len() && s1[i] == b;
        if i > 0 {
            assert(!seq_lt(s1[i].0, s1[0].0));
        } else {
            lemma_seq_lt_irreflexive(a.0);
        }
        if j == 0 {
            lemma_seq_lt_irreflexive(a.0);
        }
        lemma_seq_lt_total(a.0, b.0);
        assert(a == b);
        let t1 = s1.drop_first();
        let t2 = s2.drop_first();
        assert(s1.remove(0) =~= t1);
        assert(s2.remove(0) =~= t2);
        assert(t1.to_multiset() == m.remove(a));
        assert(t2.to_multiset() == m.remove(a));
        assert forall|x: (Seq<char>, Seq<char>), y: (Seq<char>, Seq<char>)|
            t1.to_multiset().count(x) > 0 && t1.to_multiset().count(y) > 0 && x.0 == y.0 implies x == y by {
            assert(m.count(x) > 0 && m.count(y) > 0);
        }
        assert(sorted_by_key(t1)) by {
            assert forall|p: int, q: int| 0 <= p < q < t1.len() implies !seq_lt(#[trigger] t1[q].0, #[trigger] t1[p].0) by {
                assert(t1[q] == s1[q + 1] && t1[p] == s1[p + 1]);
            }
        }
        assert(sorted_by_key(t2)) by {
            assert forall|p: int, q: int| 0 <= p < q < t2.len() implies !seq_lt(#[trigger] t2[q].0, #[trigger] t2[p].0) by {
                assert(t2[q] == s2[q + 1] && t2[p] == s2[p + 1]);
            }
        }
        lemma_sorted_unique(t1, t2);
        assert(s1 =~= s2) by {
            assert forall|k: int| 0 <= k < s1.len() implies s1[k] == s2[k] by {
                if k > 0 {
                    assert(s1[k] == t1[k - 1] && s2[k] == t2[k - 1]);
                }
            }
        }
    }
}

/// A label list with distinct keys maps each key to one value.
pub proof fn lemma_distinct_keys_determine_values(labels: Seq<(String, String)>)
    requires
        distinct_label_keys(labels),
    ensures
        keys_determine_values(pair_views(labels)),
{
    let pv = pair_views(labels);
    assert forall|i: int, j: int| 0 <= i < pv.len() && 0 <= j < pv.len() && pv[i].0 == pv[j].0 implies pv[i].1 == pv[j].1 by {
        if i != j {
            assert(labels[i].0@ != labels[j].0@);
        }
    }
}

/// Rendering canonicalises the label map: two label lists that hold the same
/// pairs, in any order, and map each key to one value, sort to the same
/// sequence, so samples that differ only in the order their labels are
/// listed render the same export line and hash to the same value.
pub proof fn lemma_label_order_irrelevant(
    a: Seq<(String, String)>,
    b: Seq<(String, String)>,
    ls1: Seq<(Seq<char>, Seq<char>)>,
    ls2: Seq<(Seq<char>, Seq<char>)>,
)
    requires
        pair_views(a).to_multiset() == pair_views(b).to_multiset(),
        keys_determine_values(pair_views(a)),
        is_key_order_of(ls1, a),
        is_key_order_of(ls2, b),
    ensures
        ls1 == ls2,
        forall|metric: Seq<char>, ts: int| export_head(metric, ls1, ts) == export_head(metric, ls2, ts),
        label_digest(ls1) == label_digest(ls2),
{
    let pv = pair_views(a);
    let m = pv.to_multiset();
    assert forall|x: (Seq<char>, Seq<char>), y: (Seq<char>, Seq<char>)|
        m.count(x) > 0 && m.count(y) > 0 && x.0 == y.0 implies x == y by {
        assert(pv.contains(x));
        assert(pv.contains(y));
        let i = choose|i: int| 0 <= i < pv.len() && pv[i] == x;
        let j = choose|j: int| 0 <= j < pv.len() && pv[j] == y;
        assert(pv[i].0 == pv[j].0);
    }
    lemma_sorted_unique(ls1, ls2);
}

/// `k="v"` for one label pair.
pub open spec fn label_item(p: (Seq<char>, Seq<char>)) -> Seq<char> {
    p.0 + seq!['=', '"'] + p.1 + seq!['"']
}

/// The label items joined by commas.
pub open spec fn joined_items(ls: Seq<(Seq<char>, Seq<char>)>) -> Seq<char>
    decreases ls.len(),
{
    if ls.len() == 0 {
        Seq::empty()
    } else if ls.len() == 1 {
        label_item(ls[0])
    } else {
        joined_items(ls.drop_last()) + seq![','] + label_item(ls.last())
    }
}

/// `{k1="v1",k2="v2"}`, or nothing when there are no labels.
pub open spec fn label_block(ls: Seq<(Seq<char>, Seq<char>)>) -> Seq<char> {
    if ls.len() == 0 {
        Seq::empty()
    } else {
        seq!['{'] + joined_items(ls) + seq!['}']
    }
}

/// The start of an export line: `name{labels} ts_ms`; the caller appends a
/// space and the value with six decimals.
pub open spec fn export_head(metric: Seq<char>, ls: Seq<(Seq<char>, Seq<char>)>, ts: int) -> Seq<char> {
    metric + label_block(ls) + seq![' '] + signed_decimal(ts)
}

fn push_label_block(out: &mut Vec<char>, ls: &Vec<(Vec<char>, Vec<char>)>)
    ensures
        final(out)@ == old(out)@ + label_block(char_pair_views(ls@)),
{
    let ghost v = char_pair_views(ls@);
    if ls.len() == 0 {
        assert(final(out)@ =~= old(out)@ + label_block(v));
        return;
    }
    out.push('{');
    let mut i: usize = 0;
    while i < ls.len()
        invariant
            i <= ls.len(),
            ls.len() > 0,
            v == char_pair_views(ls@),
            out@ == old(out)@ + seq!['{'] + joined_items(v.subrange(0, i as int)),
        decreases ls.len() - i,
    {
        let ghost pre = out@;
        if i > 0 {
            out.push(',');
        }
        push_all(out, &ls[i].0);
        out.push('=');
        out.push('"');
        push_all(out, &ls[i].1);
        out.push('"');
        proof {
            let s = v.subrange(0, i + 1);
            assert(s.drop_last() =~= v.subrange(0, i as int));
            assert(s.last() == v[i as int]);
            if i == 0 {
                assert(v.subrange(0, 0) =~= Seq::<(Seq<char>, Seq<char>)>::empty());
                assert(out@ =~= pre + label_item(v[0]));
            } else {
                assert(out@ =~= pre + seq![','] + label_item(v[i as int]));
            }
        }
        i = i + 1;
    }
    out.push('}');
    assert(v.subrange(0, ls.len() as int) =~= v);
    assert(final(out)@ =~= old(out)@ + label_block(v));
}

/// Renders the start of a sample's export line, `name{k1="v1",...} ts_ms`,
/// with the labels sorted by key.
pub fn export_line_head(sample: &Sample) -> (r: String)
    ensures
        exists|ls: Seq<(Seq<char>, Seq<char>)>|
            is_key_order_of(ls, sample.labels@) && r@ == export_head(sample.metric@, ls, sample.ts_ms as int),
        distinct_label_keys(sample.labels@) ==> forall|ls: Seq<(Seq<char>, Seq<char>)>|
            #[trigger] is_key_order_of(ls, sample.labels@) ==> r@ == export_head(sample.metric@, ls, sample.ts_ms as int),
{
    let ls = sorted_pairs(&sample.labels);
    let mut out = chars_of(sample.metric.as_str());
    push_label_block(&mut out, &ls);
    out.push(' ');
    push_signed_decimal(&mut out, sample.ts_ms);
    let ghost v = char_pair_views(ls@);
    assert(out@ =~= export_head(sample.metric@, v, sample.ts_ms as int));
    proof {
        if distinct_label_keys(sample.labels@) {
            lemma_distinct_keys_determine_values(sample.labels@);
            assert forall|ls2: Seq<(Seq<char>, Seq<char>)>| #[trigger] is_key_order_of(ls2, sample.labels@) implies v == ls2 by {
                lemma_label_order_irrelevant(sample.labels@, sample.labels@, v, ls2);
            }
        }
    }
    string_of(&out)
}

/// What precedes a filter's trailing stars is a prefix of the filter.
pub proof fn lemma_trim_stars_prefix(f: Seq<char>)
    ensures
        is_prefix(trim_stars(f), f),
    decreases f.len(),
{
    if f.len() > 0 && f.last() == '*' {
        lemma_trim_stars_prefix(f.drop_last());
        assert(f.subrange(0, trim_stars(f).len() as int) =~= f.drop_last().subrange(0, trim_stars(f).len() as int));
    } else {
        assert(f.subrange(0, f.len() as int) =~= f);
    }
}

/// A name's own filter selects it.
pub proof fn lemma_filter_selects_own_name(m: Seq<char>)
    ensures
        filter_matches(m, m),
{
    if m.len() > 0 && m.last() == '*' {
        lemma_trim_stars_prefix(m);
    }
}

/// A name that occurs in a sequence occurs a positive number of times.
pub proof fn lemma_occurrences_positive(names: Seq<Seq<char>>, i: int)
    requires
        0 <= i < names.len(),
    ensures
        occurrences(names, names[i]) > 0,
    decreases names.len(),
{
    if i < names.len() - 1 {
        lemma_occurrences_positive(names.drop_last(), i);
        assert(names.drop_last()[i] == names[i]);
    }
}

/// Replay loses no sample of a block that is still on disk: a sample counted
/// in a block is returned by a query whose range is its own timestamp and
/// whose only filter is its own metric name, since the block passes the
/// window check and the index check and the sample passes the range check
/// and the name check.
pub proof fn lemma_replay_returns_written_sample(meta: BlockMeta, i: int, filters: Seq<String>)
    requires
        meta.wf(),
        0 <= i < meta.written@.len(),
        filters.len() == 1,
        filters[0]@ == meta.written@[i].0,
    ensures
        spec_overlaps(
            meta.start_ms as int,
            meta.end_ms as int,
            Some(meta.written@[i].1),
            Some(meta.written@[i].1),
        ),
        index_selected(filters, meta.metric_counts@),
        spec_in_range(meta.written@[i].1 as int, Some(meta.written@[i].1), Some(meta.written@[i].1)),
        any_filter_matches(filters, meta.written@[i].0),
{
    let m = meta.written@[i].0;
    let names = meta.names();
    assert(names[i] == m);
    lemma_occurrences_positive(names, i);
    assert(count_for(meta.metric_counts@, m) > 0);
    assert(has_name(meta.metric_counts@, m));
    let j = choose|j: int| 0 <= j < meta.metric_counts@.len() && #[trigger] meta.metric_counts@[j].0@ == m;
    lemma_filter_selects_own_name(m);
    assert(filter_matches(filters[0]@, m));
    assert(any_filter_matches(filters, meta.metric_counts@[j].0@));
}

/// Name for the hash of a sequence of label pairs, fed key then value for
/// each pair into the standard library's default hasher.
pub uninterp spec fn label_digest(pairs: Seq<(Seq<char>, Seq<char>)>) -> u64;

/// Relies on `std::collections::hash_map::DefaultHasher` (created with
/// `new`, which uses fixed keys): the result depends on the pairs alone.
#[verifier::external_body]
fn digest_pairs(pairs: &Vec<(String, String)>) -> (r: u64)
    ensures
        r == label_digest(pair_views(pairs@)),
{
    let mut hasher = std::collections::hash_map::DefaultHasher::new();
    for (k, v) in pairs.iter() {
        k.hash(&mut hasher);
        v.hash(&mut hasher);
    }
    hasher.finish()
}

/// The hash of a label set, taken over its pairs in key order, so that it
/// does not depend on the order the pairs are listed in.
pub fn labels_hash(labels: &Vec<(String, String)>) -> (r: u64)
    ensures
        exists|ls: Seq<(Seq<char>, Seq<char>)>| is_key_order_of(ls, labels@) && r == label_digest(ls),
        distinct_label_keys(labels@) ==> forall|ls: Seq<(Seq<char>, Seq<char>)>|
            #[trigger] is_key_order_of(ls, labels@) ==> r == label_digest(ls),
{
    let ls = sorted_pairs(labels);
    let mut pairs: Vec<(String, String)> = Vec::new();
    let mut i: usize = 0;
    while i < ls.len()
        invariant
            i <= ls.len(),
            pair_views(pairs@) == char_pair_views(ls@).subrange(0, i as int),
        decreases ls.len() - i,
    {
        let k = string_of(&ls[i].0);
        let v = string_of(&ls[i].1);
        let ghost before = pair_views(pairs@);
        pairs.push((k, v));
        assert(pair_views(pairs@) =~= before.push((ls@[i as int].0@, ls@[i as int].1@)));
        assert(char_pair_views(ls@).subrange(0, i + 1) =~= char_pair_views(ls@).subrange(0, i as int).push(
            (ls@[i as int].0@, ls@[i as int].1@),
        ));
        i = i + 1;
    }
    assert(char_pair_views(ls@).subrange(0, ls.len() as int) =~= char_pair_views(ls@));
    proof {
        if distinct_label_keys(labels@) {
            lemma_distinct_keys_determine_values(labels@);
            assert forall|ls2: Seq<(Seq<char>, Seq<char>)>| #[trigger] is_key_order_of(ls2, labels@) implies char_pair_views(ls@) == ls2 by {
                lemma_label_order_irrelevant(labels@, labels@, char_pair_views(ls@), ls2);
            }
        }
    }
    digest_pairs(&pairs)
}

} // verus!
