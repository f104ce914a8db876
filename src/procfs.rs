//! Splitting of kernel counter files into lines and words, and parsers for
//! `/proc/stat`, one-number counter files and NUMA `cpulist` files: each
//! takes the file's text and returns what it holds.
use vstd::prelude::*;
use crate::text::{chars_of, is_prefix, parse_u64, starts_with_chars, u64_of};

verus! {

/// The separators between the words of a line: ASCII white space.
pub open spec fn is_blank(c: char) -> bool {
    c == ' ' || c == '\t' || c == '\n' || c == '\r' || c == '\x0b' || c == '\x0c'
}

/// The maximal runs of characters of `s` that are not separators, in order;
/// see `is_sep` for what `mode` separates on.
pub open spec fn pieces(s: Seq<char>, mode: u8) -> Seq<Seq<char>>
    decreases s.len(),
{
    if s.len() == 0 {
        Seq::empty()
    } else {
        let p = pieces(s.drop_last(), mode);
        let c = s.last();
        if is_sep(c, mode) {
            p
        } else if s.len() >= 2 && !is_sep(s[s.len() - 2], mode) {
            p.update(p.len() - 1, p.last().push(c))
        } else {
            p.push(seq![c])
        }
    }
}

/// Whether `c` separates pieces: a blank in mode `SPLIT_WORDS`, the line
/// break in mode `SPLIT_LINES`, a comma in mode `SPLIT_COMMAS`.
pub open spec fn is_sep(c: char, mode: u8) -> bool {
    if mode == SPLIT_LINES {
        c == '\n'
    } else if mode == SPLIT_COMMAS {
        c == ','
    } else {
        is_blank(c)
    }
}

/// Split on blanks.
pub const SPLIT_WORDS: u8 = 0;

/// Split on line breaks.
pub const SPLIT_LINES: u8 = 1;

/// Split on commas.
pub const SPLIT_COMMAS: u8 = 2;

/// The words of a line, as `split_whitespace` yields them for ASCII text.
pub open spec fn words(s: Seq<char>) -> Seq<Seq<char>> {
    pieces(s, SPLIT_WORDS)
}

/// The non-empty lines of a text.
pub open spec fn text_lines(s: Seq<char>) -> Seq<Seq<char>> {
    pieces(s, SPLIT_LINES)
}

fn is_separator(c: char, mode: u8) -> (r: bool)
    ensures
        r == is_sep(c, mode),
{
    if mode == SPLIT_LINES {
        c == '\n'
    } else if mode == SPLIT_COMMAS {
        c == ','
    } else {
        c == ' ' || c == '\t' || c == '\n' || c == '\r' || c == '\x0b' || c == '\x0c'
    }
}

/// Splits `s` into its pieces.
pub fn split_pieces(s: &Vec<char>, mode: u8) -> (r: Vec<Vec<char>>)
    ensures
        r@.map_values(|w: Vec<char>| w@) == pieces(s@, mode),
{
    let mut out: Vec<Vec<char>> = Vec::new();
    let mut cur: Vec<char> = Vec::new();
    let mut i: usize = 0;
    while i < s.len()
        invariant
            i <= s.len(),
            cur@.len() > 0 <==> (i > 0 && !is_sep(s@[i - 1], mode)),
            cur@.len() > 0 ==> pieces(s@.subrange(0, i as int), mode) == out@.map_values(|w: Vec<char>| w@).push(cur@),
            cur@.len() == 0 ==> pieces(s@.subrange(0, i as int), mode) == out@.map_values(|w: Vec<char>| w@),
        decreases s.len() - i,
    {
        let c = s[i];
        let ghost pre = s@.subrange(0, i as int);
        let ghost next = s@.subrange(0, i + 1);
        let ghost outv = out@.map_values(|w: Vec<char>| w@);
        assert(next.drop_last() =~= pre);
        assert(next.last() == c);
        if is_separator(c, mode) {
            if cur.len() > 0 {
                let done = cur;
                out.push(done);
                cur = Vec::new();
                assert(out@.map_values(|w: Vec<char>| w@) =~= outv.push(done@));
            }
        } else {
            if cur.len() > 0 {
                assert(next[next.len() - 2] == s@[i - 1]);
                let ghost p = pieces(pre, mode);
                cur.push(c);
                assert(p.update(p.len() - 1, p.last().push(c)) =~= outv.push(cur@));
            } else {
                cur.push(c);
                if i > 0 {
                    assert(next[next.len() - 2] == s@[i - 1]);
                }
                assert(cur@ =~= seq![c]);
            }
        }
        i = i + 1;
    }
    assert(s@.subrange(0, s.len() as int) =~= s@);
    if cur.len() > 0 {
        let ghost outv = out@.map_values(|w: Vec<char>| w@);
        let done = cur;
        out.push(done);
        assert(out@.map_values(|w: Vec<char>| w@) =~= outv.push(done@));
    }
    out
}

/// `s` without its leading and trailing blanks.
pub open spec fn trim_blank_ends(s: Seq<char>) -> Seq<char>
    decreases s.len(),
{
    if s.len() > 0 && is_blank(s[0]) {
        trim_blank_ends(s.drop_first())
    } else if s.len() > 0 && is_blank(s.last()) {
        trim_blank_ends(s.drop_last())
    } else {
        s
    }
}

/// The characters `s[from..to]` without leading and trailing blanks.
pub fn trim_ends(s: &Vec<char>, from: usize, to: usize) -> (r: Vec<char>)
    requires
        from <= to <= s.len(),
    ensures
        r@ == trim_blank_ends(s@.subrange(from as int, to as int)),
{
    let mut lo = from;
    let mut hi = to;
    while lo < hi && is_blank_char(s[lo])
        invariant
            from <= lo <= hi == to <= s.len(),
            trim_blank_ends(s@.subrange(from as int, to as int)) == trim_blank_ends(s@.subrange(lo as int, hi as int)),
        decreases hi - lo,
    {
        assert(s@.subrange(lo as int, hi as int).drop_first() =~= s@.subrange(lo + 1, hi as int));
        lo = lo + 1;
    }
    while lo < hi && is_blank_char(s[hi - 1])
        invariant
            from <= lo <= hi <= to <= s.len(),
            lo < hi ==> !is_blank(s@[lo as int]),
            trim_blank_ends(s@.subrange(from as int, to as int)) == trim_blank_ends(s@.subrange(lo as int, hi as int)),
        decreases hi - lo,
    {
        let ghost t = s@.subrange(lo as int, hi as int);
        assert(t[0] == s@[lo as int]);
        assert(t.drop_last() =~= s@.subrange(lo as int, hi - 1));
        hi = hi - 1;
    }
    let r = copy_range(s, lo, hi);
    proof {
        let t = s@.subrange(lo as int, hi as int);
        if t.len() > 0 {
            assert(t[0] == s@[lo as int]);
            assert(t.last() == s@[hi - 1]);
        }
    }
    r
}

/// The characters `s[from..to]`.
pub fn copy_range(s: &Vec<char>, from: usize, to: usize) -> (r: Vec<char>)
    requires
        from <= to <= s.len(),
    ensures
        r@ == s@.subrange(from as int, to as int),
{
    let mut r: Vec<char> = Vec::new();
    let mut i = from;
    while i < to
        invariant
            from <= i <= to <= s.len(),
            r@ == s@.subrange(from as int, i as int),
        decreases to - i,
    {
        r.push(s[i]);
        i = i + 1;
        assert(r@ =~= s@.subrange(from as int, i as int));
    }
    r
}

fn is_blank_char(c: char) -> (r: bool)
    ensures
        r == is_blank(c),
{
    c == ' ' || c == '\t' || c == '\n' || c == '\r' || c == '\x0b' || c == '\x0c'
}

/// What parsing a one-number file yields: the number its text holds once
/// surrounding blanks are removed.
pub fn parse_counter_file(text: &str) -> (r: Option<u64>)
    ensures
        r == u64_of(trim_blank_ends(text@)),
{
    let cs = chars_of(text);
    let t = trim_ends(&cs, 0, cs.len());
    assert(cs@.subrange(0, cs.len() as int) =~= cs@);
    parse_u64(&t)
}

/// The ids `start..=end`, empty when `start > end`.
pub open spec fn id_range(start: u64, end: u64) -> Seq<u64> {
    if start <= end {
        Seq::new((end - start + 1) as nat, |i: int| (start + i) as u64)
    } else {
        Seq::empty()
    }
}

/// The CPU ids one part of a cpulist names: `a-b` names `a..=b`, a single
/// number names itself, anything else names none. The range is split at
/// its first `-`.
pub open spec fn part_ids(part: Seq<char>) -> Seq<u64> {
    if exists|k: int| 0 <= k < part.len() && part[k] == '-' {
        let k = choose|k: int| 0 <= k < part.len() && part[k] == '-' && forall|j: int| 0 <= j < k ==> #[trigger] part[j] != '-';
        match (u64_of(part.subrange(0, k)), u64_of(part.subrange(k + 1, part.len() as int))) {
            (Some(a), Some(b)) => id_range(a, b),
            _ => Seq::empty(),
        }
    } else {
        match u64_of(part) {
            Some(v) => seq![v],
            None => Seq::empty(),
        }
    }
}

/// The ids named by a list of parts, in order.
pub open spec fn ids_of_parts(parts: Seq<Seq<char>>) -> Seq<u64>
    decreases parts.len(),
{
    if parts.len() == 0 {
        Seq::empty()
    } else {
        ids_of_parts(parts.drop_last()) + part_ids(parts.last())
    }
}

/// The CPU ids a `cpulist` file names (for example `0-3,8`).
pub open spec fn cpulist_ids(text: Seq<char>) -> Seq<u64> {
    ids_of_parts(pieces(trim_blank_ends(text), SPLIT_COMMAS))
}

fn push_range(out: &mut Vec<u64>, start: u64, end: u64)
    ensures
        final(out)@ == old(out)@ + id_range(start, end),
{
    if start > end {
        assert(final(out)@ =~= old(out)@ + id_range(start, end));
        return;
    }
    let mut id = start;
    while id < end
        invariant
            start <= id <= end,
            out@ == old(out)@ + Seq::new((id - start) as nat, |i: int| (start + i) as u64),
        decreases end - id,
    {
        out.push(id);
        id = id + 1;
        assert(out@ =~= old(out)@ + Seq::new((id - start) as nat, |i: int| (start + i) as u64));
    }
    out.push(end);
    assert(out@ =~= old(out)@ + id_range(start, end));
}

fn ids_in_part(part: &Vec<char>, out: &mut Vec<u64>)
    ensures
        final(out)@ == old(out)@ + part_ids(part@),
{
    let mut k: usize = 0;
    while k < part.len() && part[k] != '-'
        invariant
            k <= part.len(),
            forall|j: int| 0 <= j < k ==> #[trigger] part@[j] != '-',
        decreases part.len() - k,
    {
        k = k + 1;
    }
    if k == part.len() {
        assert(!exists|k2: int| 0 <= k2 < part@.len() && part@[k2] == '-');
        match parse_u64(part) {
            Some(v) => {
                out.push(v);
                assert(final(out)@ =~= old(out)@ + part_ids(part@));
            },
            None => {
                assert(final(out)@ =~= old(out)@ + part_ids(part@));
            },
        }
        return;
    }
    proof {
        assert(part@[k as int] == '-');
        let kk = choose|k2: int| 0 <= k2 < part@.len() && part@[k2] == '-' && forall|j: int| 0 <= j < k2 ==> #[trigger] part@[j] != '-';
        if kk < k {
            assert(part@[kk] != '-');
        } else if kk > k {
            assert(part@[k as int] != '-');
        }
    }
    let left = copy_range(part, 0, k);
    let right = copy_range(part, k + 1, part.len());
    match (parse_u64(&left), parse_u64(&right)) {
        (Some(a), Some(b)) => push_range(out, a, b),
        _ => {
            assert(final(out)@ =~= old(out)@ + part_ids(part@));
        },
    }
}

/// Reads the CPU ids of a `cpulist` file.
pub fn parse_cpulist(text: &str) -> (r: Vec<u64>)
    ensures
        r@ == cpulist_ids(text@),
{
    let cs = chars_of(text);
    let t = trim_ends(&cs, 0, cs.len());
    assert(cs@.subrange(0, cs.len() as int) =~= cs@);
    let parts = split_pieces(&t, SPLIT_COMMAS);
    let ghost pv = parts@.map_values(|w: Vec<char>| w@);
    let mut out: Vec<u64> = Vec::new();
    let mut i: usize = 0;
    while i < parts.len()
        invariant
            i <= parts.len(),
            pv == parts@.map_values(|w: Vec<char>| w@),
            pv == pieces(trim_blank_ends(text@), SPLIT_COMMAS),
            out@ == ids_of_parts(pv.subrange(0, i as int)),
        decreases parts.len() - i,
    {
        assert(pv.subrange(0, i + 1).drop_last() =~= pv.subrange(0, i as int));
        assert(pv[i as int] == parts@[i as int]@);
        ids_in_part(&parts[i], &mut out);
        i = i + 1;
    }
    assert(pv.subrange(0, pv.len() as int) =~= pv);
    out
}

/// The aggregate CPU time counters of `/proc/stat`, in clock ticks, with the
/// total interrupt and context-switch counts.
#[derive(Clone, Copy, Debug, PartialEq, Eq)]
pub struct CpuStat {
    pub user: u64,
    pub nice: u64,
    pub system: u64,
    pub idle: u64,
    pub iowait: u64,
    pub irq: u64,
    pub softirq: u64,
    pub steal: u64,
    pub interrupts: u64,
    pub ctxt: u64,
}

/// All counters at zero.
pub open spec fn zero_stat() -> CpuStat {
    CpuStat { user: 0, nice: 0, system: 0, idle: 0, iowait: 0, irq: 0, softirq: 0, steal: 0, interrupts: 0, ctxt: 0 }
}

/// Whether word `i` of `p` parses as a `u64`.
pub open spec fn field_ok(p: Seq<Seq<char>>, i: int) -> bool {
    u64_of(p[i]) is Some
}

/// The value of word `i` of `p`.
pub open spec fn field(p: Seq<Seq<char>>, i: int) -> u64 {
    u64_of(p[i]).unwrap()
}

/// What one line of `/proc/stat` does to the counters read so far: the
/// `cpu ` line with at least eight words sets the eight time counters (the
/// eighth, steal, only when present), `intr ` and `ctxt ` lines with at
/// least two words set their count; a word that should be a counter and is
/// not spoils the whole read.
pub open spec fn apply_stat_line(acc: CpuStat, line: Seq<char>) -> Option<CpuStat> {
    let p = words(line);
    if is_prefix(seq!['c', 'p', 'u', ' '], line) {
        if p.len() >= 8 {
            if field_ok(p, 1) && field_ok(p, 2) && field_ok(p, 3) && field_ok(p, 4) && field_ok(p, 5)
                && field_ok(p, 6) && field_ok(p, 7) && (p.len() > 8 ==> field_ok(p, 8)) {
                Some(CpuStat {
                    user: field(p, 1),
                    nice: field(p, 2),
                    system: field(p, 3),
                    idle: field(p, 4),
                    iowait: field(p, 5),
                    irq: field(p, 6),
                    softirq: field(p, 7),
                    steal: if p.len() > 8 { field(p, 8) } else { acc.steal },
                    ..acc
                })
            } else {
                None
            }
        } else {
            Some(acc)
        }
    } else if is_prefix(seq!['i', 'n', 't', 'r', ' '], line) {
        if p.len() >= 2 {
            if field_ok(p, 1) {
                Some(CpuStat { interrupts: field(p, 1), ..acc })
            } else {
                None
            }
        } else {
            Some(acc)
        }
    } else if is_prefix(seq!['c', 't', 'x', 't', ' '], line) {
        if p.len() >= 2 {
            if field_ok(p, 1) {
                Some(CpuStat { ctxt: field(p, 1), ..acc })
            } else {
                None
            }
        } else {
            Some(acc)
        }
    } else {
        Some(acc)
    }
}

/// The counters that the lines of `/proc/stat` give, read in order from zero.
pub open spec fn stat_of_lines(lines: Seq<Seq<char>>) -> Option<CpuStat>
    decreases lines.len(),
{
    if lines.len() == 0 {
        Some(zero_stat())
    } else {
        match stat_of_lines(lines.drop_last()) {
            Some(acc) => apply_stat_line(acc, lines.last()),
            None => None,
        }
    }
}

fn word_value(p: &Vec<Vec<char>>, i: usize) -> (r: Option<u64>)
    requires
        i < p.len(),
    ensures
        r == u64_of(p@[i as int]@),
{
    parse_u64(&p[i])
}

fn apply_line(acc: CpuStat, line: &Vec<char>) -> (r: Option<CpuStat>)
    ensures
        r == apply_stat_line(acc, line@),
{
    let p = split_pieces(line, SPLIT_WORDS);
    let ghost pv = p@.map_values(|w: Vec<char>| w@);
    assert(pv == words(line@));
    assert(forall|i: int| 0 <= i < p.len() ==> pv[i] == #[trigger] p@[i]@);
    let cpu: Vec<char> = vec!['c', 'p', 'u', ' '];
    let intr: Vec<char> = vec!['i', 'n', 't', 'r', ' '];
    let ctxt: Vec<char> = vec!['c', 't', 'x', 't', ' '];
    assert(cpu@ =~= seq!['c', 'p', 'u', ' ']);
    assert(intr@ =~= seq!['i', 'n', 't', 'r', ' ']);
    assert(ctxt@ =~= seq!['c', 't', 'x', 't', ' ']);
    if starts_with_chars(line, &cpu) {
        if p.len() >= 8 {
            let user = word_value(&p, 1);
            let nice = word_value(&p, 2);
            let system = word_value(&p, 3);
            let idle = word_value(&p, 4);
            let iowait = word_value(&p, 5);
            let irq = word_value(&p, 6);
            let softirq = word_value(&p, 7);
            let steal = if p.len() > 8 {
                word_value(&p, 8)
            } else {
                Some(acc.steal)
            };
            match (user, nice, system, idle, iowait, irq, softirq, steal) {
                (Some(user), Some(nice), Some(system), Some(idle), Some(iowait), Some(irq), Some(softirq), Some(steal)) => {
                    Some(CpuStat { user, nice, system, idle, iowait, irq, softirq, steal, ..acc })
                },
                _ => None,
            }
        } else {
            Some(acc)
        }
    } else if starts_with_chars(line, &intr) {
        if p.len() >= 2 {
            match word_value(&p, 1) {
                Some(v) => Some(CpuStat { interrupts: v, ..acc }),
                None => None,
            }
        } else {
            Some(acc)
        }
    } else if starts_with_chars(line, &ctxt) {
        if p.len() >= 2 {
            match word_value(&p, 1) {
                Some(v) => Some(CpuStat { ctxt: v, ..acc }),
                None => None,
            }
        } else {
            Some(acc)
        }
    } else {
        Some(acc)
    }
}

/// Reads the aggregate CPU counters from the text of `/proc/stat`; `None`
/// when a counter the parser looks for is not a number.
pub fn parse_proc_stat(text: &str) -> (r: Option<CpuStat>)
    ensures
        r == stat_of_lines(text_lines(text@)),
{
    let cs = chars_of(text);
    let lines = split_pieces(&cs, SPLIT_LINES);
    let ghost lv = lines@.map_values(|w: Vec<char>| w@);
    let mut acc = CpuStat { user: 0, nice: 0, system: 0, idle: 0, iowait: 0, irq: 0, softirq: 0, steal: 0, interrupts: 0, ctxt: 0 };
    let mut i: usize = 0;
    while i < lines.len()
        invariant
            i <= lines.len(),
            lv == lines@.map_values(|w: Vec<char>| w@),
            lv == text_lines(text@),
            stat_of_lines(lv.subrange(0, i as int)) == Some(acc),
        decreases lines.len() - i,
    {
        assert(lv.subrange(0, i + 1).drop_last() =~= lv.subrange(0, i as int));
        assert(lv[i as int] == lines@[i as int]@);
        match apply_line(acc, &lines[i]) {
            Some(next) => {
                acc = next;
            },
            None => {
                proof {
                    lemma_stat_none_stays(lv, i as int + 1);
                    assert(lv.subrange(0, lv.len() as int) =~= lv);
                }
                return None;
            },
        }
        i = i + 1;
    }
    assert(lv.subrange(0, lv.len() as int) =~= lv);
    Some(acc)
}

/// Once a prefix of the lines spoils the read, every longer prefix does too.
proof fn lemma_stat_none_stays(lines: Seq<Seq<char>>, k: int)
    requires
        0 <= k <= lines.len(),
        stat_of_lines(lines.subrange(0, k)) is None,
    ensures
        stat_of_lines(lines.subrange(0, lines.len() as int)) is None,
    decreases lines.len() - k,
{
    if k < lines.len() {
        assert(lines.subrange(0, k + 1).drop_last() =~= lines.subrange(0, k));
        lemma_stat_none_stays(lines, k + 1);
    }
}

} // verus!
