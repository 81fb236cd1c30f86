//! Reading interface counters from the kernel's text interfaces.
use vstd::prelude::*;
use crate::config::{Config, ignored};
use crate::error::{ErrorView, NetWatchError};
use crate::text::{
    chars_of, find_char, find_first, lines, parse_u64_range, parse_u64_spec, push_str,
    string_of_range, token_ranges, tokens, trim, trim_range, strip_cr,
};
use crate::types::{InterfaceSnapshot, OperState};
use crate::time::in_utc_range;

verus! {

/// One accepted line of `/proc/net/dev`: name, received and sent bytes.
pub type ProcRow = (Seq<char>, u64, u64);

/// What one line of `/proc/net/dev` contributes.
pub enum LineOutcome {
    Skip,
    Row(Seq<char>, u64, u64),
    Fail(ErrorView),
}

/// The meaning of one line: blank lines, ignored interfaces and lines with
/// fewer than 16 counters are skipped; a line without `:` is an error; the
/// first and ninth counters are the received and sent bytes.
pub open spec fn proc_line(cfg: Config, line: Seq<char>) -> LineOutcome {
    let t = trim(line);
    if t.len() == 0 {
        LineOutcome::Skip
    } else {
        let c = find_first(t, ':');
        if c < 0 {
            LineOutcome::Fail(ErrorView::Collection("invalid /proc/net/dev line"@))
        } else {
            let name = trim(t.take(c));
            match ignored(cfg, name) {
                Err(m) => LineOutcome::Fail(ErrorView::Config(m)),
                Ok(true) => LineOutcome::Skip,
                Ok(false) => {
                    let f = tokens(t.skip(c + 1));
                    if f.len() < 16 {
                        LineOutcome::Skip
                    } else {
                        match parse_u64_spec(f[0]) {
                            None => LineOutcome::Fail(
                                ErrorView::Collection("invalid rx_bytes for "@ + name),
                            ),
                            Some(rx) => match parse_u64_spec(f[8]) {
                                None => LineOutcome::Fail(
                                    ErrorView::Collection("invalid tx_bytes for "@ + name),
                                ),
                                Some(tx) => LineOutcome::Row(name, rx, tx),
                            },
                        }
                    }
                },
            }
        }
    }
}

/// Rows of the lines from index `k` on; the first failing line decides.
pub open spec fn rows_from(cfg: Config, ls: Seq<Seq<char>>, k: int) -> Result<Seq<ProcRow>, ErrorView>
    decreases ls.len() - k,
{
    if k < 0 || k >= ls.len() {
        Ok(seq![])
    } else {
        match proc_line(cfg, ls[k]) {
            LineOutcome::Fail(e) => Err(e),
            LineOutcome::Skip => rows_from(cfg, ls, k + 1),
            LineOutcome::Row(n, rx, tx) => match rows_from(cfg, ls, k + 1) {
                Ok(v) => Ok(seq![(n, rx, tx)] + v),
                Err(e) => Err(e),
            },
        }
    }
}

/// Lexicographic order of character sequences (code point by code point,
/// the order of `String`'s `Ord` on UTF-8 text).
pub open spec fn chars_lt(a: Seq<char>, b: Seq<char>) -> bool
    decreases a.len(),
{
    if b.len() == 0 {
        false
    } else if a.len() == 0 {
        true
    } else if (a[0] as int) < (b[0] as int) {
        true
    } else if (a[0] as int) > (b[0] as int) {
        false
    } else {
        chars_lt(a.drop_first(), b.drop_first())
    }
}

/// `x` inserted before the first row whose name is greater than its own.
pub open spec fn insert_row(s: Seq<ProcRow>, x: ProcRow) -> Seq<ProcRow>
    decreases s.len(),
{
    if s.len() == 0 {
        seq![x]
    } else if chars_lt(x.0, s[0].0) {
        seq![x] + s
    } else {
        seq![s[0]] + insert_row(s.drop_first(), x)
    }
}

/// Stable sort of rows by name, as `sort_by(|a, b| a.name.cmp(&b.name))`.
pub open spec fn sort_rows(s: Seq<ProcRow>) -> Seq<ProcRow>
    decreases s.len(),
{
    if s.len() == 0 {
        seq![]
    } else {
        insert_row(sort_rows(s.drop_last()), s.last())
    }
}

/// The interfaces that the text of `/proc/net/dev` lists, after its two
/// header lines, sorted by name.
pub open spec fn proc_rows(cfg: Config, contents: Seq<char>) -> Result<Seq<ProcRow>, ErrorView> {
    match rows_from(cfg, lines(contents), 2) {
        Ok(v) => Ok(sort_rows(v)),
        Err(e) => Err(e),
    }
}

/// The snapshot that a row becomes.
pub open spec fn snapshot_is(s: InterfaceSnapshot, row: ProcRow, timestamp: i64) -> bool {
    &&& s.name@ == row.0
    &&& s.mac is None
    &&& s.rx_bytes == row.1
    &&& s.tx_bytes == row.2
    &&& s.operstate == OperState::Unknown
    &&& s.timestamp == timestamp
}

enum LineResult {
    Skip,
    Row(String, u64, u64),
    Fail(NetWatchError),
}

spec fn line_result_is(r: LineResult, o: LineOutcome) -> bool {
    match (r, o) {
        (LineResult::Skip, LineOutcome::Skip) => true,
        (LineResult::Row(n, a, b), LineOutcome::Row(m, c, d)) => n@ == m && a == c && b == d,
        (LineResult::Fail(e), LineOutcome::Fail(v)) => e@ == v,
        _ => false,
    }
}

fn message_with_name(prefix: &str, cs: &Vec<char>, lo: usize, hi: usize) -> (r: String)
    requires
        lo <= hi <= cs@.len(),
    ensures
        r@ == prefix@ + cs@.subrange(lo as int, hi as int),
{
    let mut m = prefix.to_owned();
    let name = string_of_range(cs, lo, hi);
    push_str(&mut m, name.as_str());
    m
}

/// Interprets the line `cs[lo..hi]`.
fn proc_line_exec(config: &Config, cs: &Vec<char>, lo: usize, hi: usize) -> (r: LineResult)
    requires
        lo <= hi <= cs@.len(),
    ensures
        line_result_is(r, proc_line(*config, cs@.subrange(lo as int, hi as int))),
{
    let ghost line = cs@.subrange(lo as int, hi as int);
    let (a, b) = trim_range(cs, lo, hi);
    let ghost t = cs@.subrange(a as int, b as int);
    if a == b {
        return LineResult::Skip;
    }
    let c = find_char(cs, a, b, ':');
    if c == b {
        return LineResult::Fail(NetWatchError::Collection("invalid /proc/net/dev line".to_owned()));
    }
    proof {
        assert(t.take(c - a) =~= cs@.subrange(a as int, c as int));
        assert(t.skip(c - a + 1) =~= cs@.subrange(c + 1, b as int));
    }
    let (na, nb) = trim_range(cs, a, c);
    let name = string_of_range(cs, na, nb);
    match config.should_ignore(name.as_str()) {
        Err(e) => {
            return LineResult::Fail(e);
        },
        Ok(true) => {
            return LineResult::Skip;
        },
        Ok(false) => {},
    }
    let toks = token_ranges(cs, c + 1, b);
    if toks.len() < 16 {
        return LineResult::Skip;
    }
    let rx = match parse_u64_range(cs, toks[0].0, toks[0].1) {
        Some(v) => v,
        None => {
            return LineResult::Fail(
                NetWatchError::Collection(message_with_name("invalid rx_bytes for ", cs, na, nb)),
            );
        },
    };
    let tx = match parse_u64_range(cs, toks[8].0, toks[8].1) {
        Some(v) => v,
        None => {
            return LineResult::Fail(
                NetWatchError::Collection(message_with_name("invalid tx_bytes for ", cs, na, nb)),
            );
        },
    };
    LineResult::Row(name, rx, tx)
}

/// Whether `a` comes before `b` in `String` order.
pub fn str_lt(a: &String, b: &String) -> (r: bool)
    ensures
        r == chars_lt(a@, b@),
{
    let x = chars_of(a.as_str());
    let y = chars_of(b.as_str());
    let mut i: usize = 0;
    proof {
        assert(x@.skip(0) =~= x@);
        assert(y@.skip(0) =~= y@);
    }
    while i < x.len() && i < y.len() && x[i] == y[i]
        invariant
            i <= x@.len(),
            i <= y@.len(),
            chars_lt(a@, b@) == chars_lt(x@.skip(i as int), y@.skip(i as int)),
        decreases x@.len() - i,
    {
        proof {
            assert(x@.skip(i as int).drop_first() =~= x@.skip(i + 1));
            assert(y@.skip(i as int).drop_first() =~= y@.skip(i + 1));
        }
        i = i + 1;
    }
    proof {
        let xs = x@.skip(i as int);
        let ys = y@.skip(i as int);
        if i < x@.len() && i < y@.len() {
            assert(xs[0] == x@[i as int]);
            assert(ys[0] == y@[i as int]);
            assert(xs.len() > 0 && ys.len() > 0);
        } else if i == y@.len() {
            assert(ys.len() == 0);
        } else {
            assert(xs.len() == 0 && ys.len() > 0);
        }
    }
    if i == y.len() {
        false
    } else if i == x.len() {
        true
    } else {
        x[i] < y[i]
    }
}

/// The view of a row held as a `String` and two counters.
pub open spec fn row_view(r: (String, u64, u64)) -> ProcRow {
    (r.0@, r.1, r.2)
}

pub open spec fn rows_view(v: Seq<(String, u64, u64)>) -> Seq<ProcRow> {
    v.map_values(|r: (String, u64, u64)| row_view(r))
}

proof fn lemma_insert_row_at(s: Seq<ProcRow>, x: ProcRow, p: int)
    requires
        0 <= p <= s.len(),
        forall|j: int| 0 <= j < p ==> !chars_lt(x.0, #[trigger] s[j].0),
        p == s.len() || chars_lt(x.0, s[p].0),
    ensures
        insert_row(s, x) == s.insert(p, x),
    decreases p,
{
    if p == 0 {
        if s.len() > 0 {
            assert(s.insert(0, x) =~= seq![x] + s);
        } else {
            assert(s.insert(0, x) =~= seq![x]);
        }
    } else {
        let d = s.drop_first();
        assert forall|j: int| 0 <= j < p - 1 implies !chars_lt(x.0, #[trigger] d[j].0) by {
            assert(d[j] == s[j + 1]);
        }
        if p < s.len() {
            assert(d[p - 1] == s[p]);
        }
        lemma_insert_row_at(d, x, p - 1);
        assert(s.insert(p, x) =~= seq![s[0]] + d.insert(p - 1, x));
    }
}

proof fn lemma_rows_from_kept(cfg: Config, ls: Seq<Seq<char>>, k: int)
    ensures
        rows_from(cfg, ls, k) matches Ok(v) ==> forall|i: int|
            0 <= i < v.len() ==> ignored(cfg, (#[trigger] v[i]).0) == Ok::<bool, Seq<char>>(false),
    decreases ls.len() - k,
{
    if 0 <= k < ls.len() {
        lemma_rows_from_kept(cfg, ls, k + 1);
        match proc_line(cfg, ls[k]) {
            LineOutcome::Row(n, rx, tx) => {
                if let Ok(v) = rows_from(cfg, ls, k + 1) {
                    let w = seq![(n, rx, tx)] + v;
                    assert forall|i: int| 0 <= i < w.len() implies ignored(cfg, (#[trigger] w[i]).0)
                        == Ok::<bool, Seq<char>>(false) by {
                        if i > 0 {
                            assert(w[i] == v[i - 1]);
                        }
                    }
                }
            },
            _ => {},
        }
    }
}

proof fn lemma_insert_row_members(s: Seq<ProcRow>, x: ProcRow)
    ensures
        forall|k: int|
            0 <= k < insert_row(s, x).len() ==> (#[trigger] insert_row(s, x)[k] == x || s.contains(
                insert_row(s, x)[k],
            )),
    decreases s.len(),
{
    if s.len() > 0 {
        if chars_lt(x.0, s[0].0) {
            let r = seq![x] + s;
            assert forall|k: int| 0 <= k < r.len() implies (#[trigger] r[k] == x || s.contains(r[k])) by {
                if k > 0 {
                    assert(r[k] == s[k - 1]);
                }
            }
        } else {
            let d = s.drop_first();
            lemma_insert_row_members(d, x);
            let r = seq![s[0]] + insert_row(d, x);
            assert forall|k: int| 0 <= k < r.len() implies (#[trigger] r[k] == x || s.contains(r[k])) by {
                if k == 0 {
                    assert(s.contains(s[0]));
                } else {
                    assert(r[k] == insert_row(d, x)[k - 1]);
                    if r[k] != x {
                        let m = choose|m: int| 0 <= m < d.len() && d[m] == r[k];
                        assert(s[m + 1] == d[m]);
                    }
                }
            }
        }
    }
}

proof fn lemma_sort_rows_members(s: Seq<ProcRow>)
    ensures
        forall|k: int| 0 <= k < sort_rows(s).len() ==> s.contains(#[trigger] sort_rows(s)[k]),
    decreases s.len(),
{
    if s.len() > 0 {
        let init = s.drop_last();
        lemma_sort_rows_members(init);
        lemma_insert_row_members(sort_rows(init), s.last());
        let r = sort_rows(s);
        assert forall|k: int| 0 <= k < r.len() implies s.contains(#[trigger] r[k]) by {
            if r[k] == s.last() {
                assert(s[s.len() - 1] == s.last());
            } else {
                let m = choose|m: int| 0 <= m < sort_rows(init).len() && sort_rows(init)[m] == r[k];
                assert(init.contains(sort_rows(init)[m]));
                let q = choose|q: int| 0 <= q < init.len() && init[q] == r[k];
                assert(s[q] == init[q]);
            }
        }
    }
}

/// No interface that the configuration ignores is read from
/// `/proc/net/dev`: every row collected is one the configuration keeps.
pub proof fn lemma_proc_rows_kept(cfg: Config, contents: Seq<char>)
    ensures
        proc_rows(cfg, contents) matches Ok(v) ==> forall|i: int|
            0 <= i < v.len() ==> ignored(cfg, (#[trigger] v[i]).0) == Ok::<bool, Seq<char>>(false),
{
    let ls = lines(contents);
    lemma_rows_from_kept(cfg, ls, 2);
    if let Ok(raw) = rows_from(cfg, ls, 2) {
        lemma_sort_rows_members(raw);
        let v = sort_rows(raw);
        assert forall|i: int| 0 <= i < v.len() implies ignored(cfg, (#[trigger] v[i]).0) == Ok::<
            bool,
            Seq<char>,
        >(false) by {
            let q = choose|q: int| 0 <= q < raw.len() && raw[q] == v[i];
            assert(ignored(cfg, raw[q].0) == Ok::<bool, Seq<char>>(false));
        }
    }
}

/// Sorts rows by name, keeping rows with equal names in their order.
pub fn sort_rows_by_name(v: Vec<(String, u64, u64)>) -> (r: Vec<(String, u64, u64)>)
    ensures
        rows_view(r@) == sort_rows(rows_view(v@)),
{
    let mut out: Vec<(String, u64, u64)> = Vec::new();
    let mut i: usize = 0;
    while i < v.len()
        invariant
            i <= v@.len(),
            rows_view(out@) == sort_rows(rows_view(v@.take(i as int))),
        decreases v@.len() - i,
    {
        let x = (v[i].0.clone(), v[i].1, v[i].2);
        let mut p: usize = 0;
        while p < out.len() && !str_lt(&x.0, &out[p].0)
            invariant
                p <= out@.len(),
                x.0@ == v@[i as int].0@,
                forall|j: int| 0 <= j < p ==> !chars_lt(x.0@, #[trigger] out@[j].0@),
            decreases out@.len() - p,
        {
            p = p + 1;
        }
        let ghost before = rows_view(out@);
        proof {
            assert forall|j: int| 0 <= j < p implies !chars_lt(
                row_view(x).0,
                #[trigger] before[j].0,
            ) by {
                assert(before[j] == row_view(out@[j]));
            }
            if p < out@.len() {
                assert(before[p as int] == row_view(out@[p as int]));
            }
            lemma_insert_row_at(before, row_view(x), p as int);
        }
        out.insert(p, x);
        proof {
            assert(rows_view(out@) =~= before.insert(p as int, row_view(x)));
            let t = rows_view(v@.take(i + 1));
            assert(t.drop_last() =~= rows_view(v@.take(i as int)));
            assert(t.last() == row_view(v@[i as int]));
            assert(row_view(x) == row_view(v@[i as int]));
        }
        i = i + 1;
    }
    proof {
        assert(v@.take(v@.len() as int) =~= v@);
    }
    out
}

/// Rows before `acc` joined with the rows of the remaining lines.
pub open spec fn prepend(acc: Seq<ProcRow>, rest: Result<Seq<ProcRow>, ErrorView>) -> Result<
    Seq<ProcRow>,
    ErrorView,
> {
    match rest {
        Ok(v) => Ok(acc + v),
        Err(e) => Err(e),
    }
}

/// The snapshots that the text of `/proc/net/dev` gives, all taken at
/// `timestamp`.
pub fn snapshots_from_proc(config: &Config, contents: &str, timestamp: i64) -> (r: Result<
    Vec<InterfaceSnapshot>,
    NetWatchError,
>)
    ensures
        match (r, proc_rows(*config, contents@)) {
            (Ok(v), Ok(rows)) => v@.len() == rows.len() && forall|i: int|
                0 <= i < rows.len() ==> snapshot_is(#[trigger] v@[i], rows[i], timestamp),
            (Err(e), Err(ev)) => e@ == ev,
            _ => false,
        },
        r matches Ok(v) ==> forall|i: int, j: int|
            0 <= i < j < v@.len() ==> !chars_lt(#[trigger] v@[j].name@, #[trigger] v@[i].name@),
{
    let cs = chars_of(contents);
    let n = cs.len();
    let ghost all = lines(cs@);
    let mut start: usize = 0;
    let mut k: usize = 0;
    let mut acc: Vec<(String, u64, u64)> = Vec::new();
    proof {
        assert(cs@.subrange(0, n as int) =~= cs@);
        assert(all.skip(0) =~= all);
    }
    while start < n
        invariant
            n == cs@.len(),
            cs@ == contents@,
            start <= n,
            all == lines(cs@),
            k <= all.len(),
            k <= start,
            all.skip(k as int) == lines(cs@.subrange(start as int, n as int)),
            k < 2 ==> acc@.len() == 0,
            rows_from(*config, all, 2) == prepend(
                rows_view(acc@),
                rows_from(*config, all, if k < 2 { 2 } else { k as int }),
            ),
        decreases n - start,
    {
        let ghost sub = cs@.subrange(start as int, n as int);
        let e = find_char(&cs, start, n, '\n');
        let mut hi = e;
        if e < n && e > start && cs[e - 1] == '\r' {
            hi = e - 1;
        }
        proof {
            if e < n {
                lemma_find(sub, e - start);
                assert(sub.take(e - start) =~= cs@.subrange(start as int, e as int));
                assert(sub.skip(e - start + 1) =~= cs@.subrange(e + 1, n as int));
                let l = cs@.subrange(start as int, e as int);
                if e > start && cs@[e - 1] == '\r' {
                    assert(strip_cr(l) =~= cs@.subrange(start as int, hi as int));
                } else {
                    assert(strip_cr(l) =~= cs@.subrange(start as int, hi as int));
                }
                assert(lines(sub) == seq![strip_cr(sub.take(e - start))] + lines(
                    sub.skip(e - start + 1),
                ));
            } else {
                assert(lines(sub) == seq![sub]);
                assert(cs@.subrange(start as int, hi as int) =~= sub);
                assert(lines(cs@.subrange(n as int, n as int)) == Seq::<Seq<char>>::empty()) by {
                    assert(cs@.subrange(n as int, n as int).len() == 0);
                }
            }
            assert(lines(sub).len() >= 1);
            assert(all.skip(k as int)[0] == all[k as int]);
            assert(all[k as int] == cs@.subrange(start as int, hi as int));
            assert(all.skip(k + 1) =~= all.skip(k as int).drop_first());
        }
        if k >= 2 {
            match proc_line_exec(config, &cs, start, hi) {
                LineResult::Skip => {},
                LineResult::Row(name, rx, tx) => {
                    proof {
                        assert(rows_view(acc@.push((name, rx, tx))) =~= rows_view(acc@) + seq![
                            (name@, rx, tx),
                        ]);
                        match rows_from(*config, all, k + 1) {
                            Ok(v) => {
                                assert(rows_view(acc@) + (seq![(name@, rx, tx)] + v) =~= (
                                rows_view(acc@) + seq![(name@, rx, tx)]) + v);
                            },
                            Err(_) => {},
                        }
                    }
                    acc.push((name, rx, tx));
                },
                LineResult::Fail(err) => {
                    proof {
                        assert(rows_from(*config, all, k as int) == Err::<Seq<ProcRow>, ErrorView>(
                            err@,
                        ));
                        assert(rows_from(*config, all, 2) == Err::<Seq<ProcRow>, ErrorView>(
                            err@,
                        ));
                        assert(cs@ == contents@);
                        assert(proc_rows(*config, contents@) == Err::<Seq<ProcRow>, ErrorView>(
                            err@,
                        ));
                    }
                    return Err(err);
                },
            }
        }
        k = k + 1;
        start = if e < n {
            e + 1
        } else {
            n
        };
    }
    proof {
        assert(cs@.subrange(start as int, n as int).len() == 0);
        assert(all.skip(k as int).len() == 0);
        assert(rows_from(*config, all, if k < 2 { 2 } else { k as int }) == Ok::<Seq<ProcRow>, ErrorView>(
            Seq::<ProcRow>::empty(),
        ));
        assert(rows_view(acc@) + Seq::<ProcRow>::empty() =~= rows_view(acc@));
    }
    let sorted = sort_rows_by_name(acc);
    let mut out: Vec<InterfaceSnapshot> = Vec::new();
    let mut i: usize = 0;
    while i < sorted.len()
        invariant
            i <= sorted@.len(),
            out@.len() == i,
            forall|j: int| 0 <= j < i ==> snapshot_is(#[trigger] out@[j], row_view(sorted@[j]), timestamp),
        decreases sorted@.len() - i,
    {
        let row = &sorted[i];
        out.push(
            InterfaceSnapshot {
                name: row.0.clone(),
                mac: None,
                rx_bytes: row.1,
                tx_bytes: row.2,
                operstate: OperState::Unknown,
                timestamp,
            },
        );
        i = i + 1;
    }
    proof {
        let rows = sort_rows(rows_view(acc@));
        lemma_sort_rows_sorted(rows_view(acc@));
        assert forall|a: int, b: int| 0 <= a < b < out@.len() implies !chars_lt(
            #[trigger] out@[b].name@,
            #[trigger] out@[a].name@,
        ) by {
            assert(rows[a] == rows_view(sorted@)[a]);
            assert(rows[b] == rows_view(sorted@)[b]);
        }
        assert forall|j: int| 0 <= j < rows.len() implies snapshot_is(
            #[trigger] out@[j],
            rows[j],
            timestamp,
        ) by {
            assert(rows[j] == rows_view(sorted@)[j]);
        }
    }
    Ok(out)
}

proof fn lemma_find(s: Seq<char>, i: int)
    requires
        find_first(s, '\n') == i,
        i >= 0,
        s.len() > 0,
    ensures
        lines(s) == seq![strip_cr(s.take(i))] + lines(s.skip(i + 1)),
{
}

/// Rows in order of name: no row's name comes before an earlier row's.
pub open spec fn rows_sorted(s: Seq<ProcRow>) -> bool {
    forall|i: int, j: int| 0 <= i < j < s.len() ==> !chars_lt(#[trigger] s[j].0, #[trigger] s[i].0)
}

proof fn lemma_lt_irreflexive(a: Seq<char>)
    ensures
        !chars_lt(a, a),
    decreases a.len(),
{
    if a.len() > 0 {
        lemma_lt_irreflexive(a.drop_first());
    }
}

proof fn lemma_lt_trans(a: Seq<char>, b: Seq<char>, c: Seq<char>)
    requires
        chars_lt(a, b),
        chars_lt(b, c),
    ensures
        chars_lt(a, c),
    decreases a.len(),
{
    if a.len() > 0 && (a[0] as int) == (b[0] as int) && (b[0] as int) == (c[0] as int) {
        lemma_lt_trans(a.drop_first(), b.drop_first(), c.drop_first());
    }
}

/// A name not below `y`, inserted into rows not below `y`, leaves rows not
/// below `y`.
proof fn lemma_insert_lower_bound(s: Seq<ProcRow>, x: ProcRow, y: Seq<char>)
    requires
        forall|j: int| 0 <= j < s.len() ==> !chars_lt(#[trigger] s[j].0, y),
        !chars_lt(x.0, y),
    ensures
        forall|j: int| 0 <= j < insert_row(s, x).len() ==> !chars_lt(#[trigger] insert_row(s, x)[j].0, y),
        insert_row(s, x).len() == s.len() + 1,
    decreases s.len(),
{
    if s.len() > 0 && !chars_lt(x.0, s[0].0) {
        let d = s.drop_first();
        assert forall|j: int| 0 <= j < d.len() implies !chars_lt(#[trigger] d[j].0, y) by {
            assert(d[j] == s[j + 1]);
        }
        lemma_insert_lower_bound(d, x, y);
        let r = insert_row(s, x);
        assert forall|j: int| 0 <= j < r.len() implies !chars_lt(#[trigger] r[j].0, y) by {
            if j > 0 {
                assert(r[j] == insert_row(d, x)[j - 1]);
            }
        }
    }
}

proof fn lemma_insert_sorted(s: Seq<ProcRow>, x: ProcRow)
    requires
        rows_sorted(s),
    ensures
        rows_sorted(insert_row(s, x)),
        insert_row(s, x).len() == s.len() + 1,
    decreases s.len(),
{
    let r = insert_row(s, x);
    if s.len() == 0 {
    } else if chars_lt(x.0, s[0].0) {
        assert(r == seq![x] + s);
        assert forall|i: int, j: int| 0 <= i < j < r.len() implies !chars_lt(#[trigger] r[j].0, #[trigger] r[i].0) by {
            if i == 0 {
                assert(r[j] == s[j - 1]);
                if j - 1 > 0 {
                    assert(!chars_lt(s[j - 1].0, s[0].0));
                }
                if chars_lt(s[j - 1].0, x.0) {
                    lemma_lt_trans(s[j - 1].0, x.0, s[0].0);
                    lemma_lt_irreflexive(s[0].0);
                }
            } else {
                assert(r[i] == s[i - 1] && r[j] == s[j - 1]);
            }
        }
    } else {
        let d = s.drop_first();
        assert(rows_sorted(d)) by {
            assert forall|i: int, j: int| 0 <= i < j < d.len() implies !chars_lt(#[trigger] d[j].0, #[trigger] d[i].0) by {
                assert(d[i] == s[i + 1] && d[j] == s[j + 1]);
            }
        }
        lemma_insert_sorted(d, x);
        assert forall|j: int| 0 <= j < d.len() implies !chars_lt(#[trigger] d[j].0, s[0].0) by {
            assert(d[j] == s[j + 1]);
        }
        lemma_insert_lower_bound(d, x, s[0].0);
        let rd = insert_row(d, x);
        assert(r == seq![s[0]] + rd);
        assert forall|i: int, j: int| 0 <= i < j < r.len() implies !chars_lt(#[trigger] r[j].0, #[trigger] r[i].0) by {
            assert(r[j] == rd[j - 1]);
            if i > 0 {
                assert(r[i] == rd[i - 1]);
            } else {
                assert(r[i] == s[0]);
            }
        }
    }
}

/// Sorting gives rows in order of name, as many as it was given.
pub proof fn lemma_sort_rows_sorted(s: Seq<ProcRow>)
    ensures
        rows_sorted(sort_rows(s)),
        sort_rows(s).len() == s.len(),
    decreases s.len(),
{
    if s.len() > 0 {
        lemma_sort_rows_sorted(s.drop_last());
        lemma_insert_sorted(sort_rows(s.drop_last()), s.last());
    }
}

/// Collects interfaces from a sysfs tree.
pub struct SysfsCollector<'a> {
    pub config: &'a Config,
    pub root: &'a str,
}

/// What was read for one entry of `sys/class/net`: its name, the texts of
/// its two byte counters (or the message of the failed read), and the texts
/// of its `address` and `operstate` files where they could be read.
pub struct SysfsReading {
    pub name: String,
    pub rx_bytes: Result<String, String>,
    pub tx_bytes: Result<String, String>,
    pub address: Option<String>,
    pub operstate: Option<String>,
}

/// A counter file's value: its trimmed text read as a `u64`.
pub open spec fn counter_value(text: Seq<char>) -> Option<u64> {
    parse_u64_spec(trim(text))
}

/// A counter of an entry, or the collection error that reading it gives.
pub open spec fn counter_of(read: Result<String, String>, what: Seq<char>, name: Seq<char>) -> Result<
    u64,
    ErrorView,
> {
    match read {
        Err(m) => Err(ErrorView::Collection(m@)),
        Ok(t) => match counter_value(t@) {
            Some(v) => Ok(v),
            None => Err(ErrorView::Collection("invalid "@ + what + " for "@ + name)),
        },
    }
}

/// The view of a snapshot without its time: name, MAC, counters, state.
pub type SnapView = (Seq<char>, Option<Seq<char>>, u64, u64, OperState);

pub open spec fn snap_view(s: InterfaceSnapshot) -> SnapView {
    (
        s.name@,
        match s.mac {
            Some(m) => Some(m@),
            None => None,
        },
        s.rx_bytes,
        s.tx_bytes,
        s.operstate,
    )
}

/// The state an `operstate` text names: for ASCII text (what the kernel
/// writes) `up` or `down` in any case, with surrounding whitespace.
pub open spec fn state_text_of(t: Seq<char>) -> OperState {
    if crate::types::all_ascii(trim(t)) {
        crate::types::oper_state_of_ascii(t)
    } else {
        crate::types::oper_state_of(t)
    }
}

/// What one entry contributes: nothing when the configuration ignores it,
/// else its snapshot, with the MAC address trimmed and the state read from
/// `operstate` (unknown when that file could not be read).
pub open spec fn entry_outcome(cfg: Config, r: SysfsReading) -> Result<Option<SnapView>, ErrorView> {
    match ignored(cfg, r.name@) {
        Err(m) => Err(ErrorView::Config(m)),
        Ok(true) => Ok(None),
        Ok(false) => match counter_of(r.rx_bytes, "rx_bytes"@, r.name@) {
            Err(e) => Err(e),
            Ok(rx) => match counter_of(r.tx_bytes, "tx_bytes"@, r.name@) {
                Err(e) => Err(e),
                Ok(tx) => Ok(
                    Some(
                        (
                            r.name@,
                            match r.address {
                                Some(a) => Some(trim(a@)),
                                None => None,
                            },
                            rx,
                            tx,
                            match r.operstate {
                                Some(o) => state_text_of(o@),
                                None => OperState::Unknown,
                            },
                        ),
                    ),
                ),
            },
        },
    }
}

/// The snapshots of the entries, in their order; the first failing entry
/// decides.
pub open spec fn sysfs_snapshots(cfg: Config, rs: Seq<SysfsReading>) -> Result<
    Seq<SnapView>,
    ErrorView,
>
    decreases rs.len(),
{
    if rs.len() == 0 {
        Ok(Seq::empty())
    } else {
        match sysfs_snapshots(cfg, rs.drop_last()) {
            Err(e) => Err(e),
            Ok(v) => match entry_outcome(cfg, rs.last()) {
                Err(e) => Err(e),
                Ok(None) => Ok(v),
                Ok(Some(x)) => Ok(v.push(x)),
            },
        }
    }
}

/// Reads a counter's text.
pub fn parse_counter(text: &str) -> (r: Option<u64>)
    ensures
        r == counter_value(text@),
{
    let cs = chars_of(text);
    let (lo, hi) = trim_range(&cs, 0, cs.len());
    proof {
        assert(cs@.subrange(0, cs@.len() as int) =~= cs@);
    }
    parse_u64_range(&cs, lo, hi)
}

fn read_counter(read: &Result<String, String>, what: &str, name: &String) -> (r: Result<
    u64,
    NetWatchError,
>)
    ensures
        match (r, counter_of(*read, what@, name@)) {
            (Ok(a), Ok(b)) => a == b,
            (Err(e), Err(ev)) => e@ == ev,
            _ => false,
        },
{
    match read {
        Err(m) => Err(NetWatchError::Collection(m.clone())),
        Ok(t) => match parse_counter(t.as_str()) {
            Some(v) => Ok(v),
            None => {
                let mut m = "invalid ".to_owned();
                push_str(&mut m, what);
                push_str(&mut m, " for ");
                push_str(&mut m, name.as_str());
                Err(NetWatchError::Collection(m))
            },
        },
    }
}

fn trimmed(s: &String) -> (r: String)
    ensures
        r@ == trim(s@),
{
    let cs = chars_of(s.as_str());
    let (lo, hi) = trim_range(&cs, 0, cs.len());
    proof {
        assert(cs@.subrange(0, cs@.len() as int) =~= cs@);
    }
    string_of_range(&cs, lo, hi)
}

impl<'a> SysfsCollector<'a> {
    pub fn new(config: &'a Config, root: &'a str) -> (r: Self)
        ensures
            r.config == config,
            r.root == root,
    {
        SysfsCollector { config, root }
    }

    /// The snapshot of one entry, or `None` when it is ignored.
    fn entry(&self, r: &SysfsReading, timestamp: i64) -> (out: Result<
        Option<InterfaceSnapshot>,
        NetWatchError,
    >)
        ensures
            match (out, entry_outcome(*self.config, *r)) {
                (Ok(None), Ok(None)) => true,
                (Ok(Some(s)), Ok(Some(v))) => snap_view(s) == v && s.timestamp == timestamp,
                (Err(e), Err(ev)) => e@ == ev,
                _ => false,
            },
    {
        match self.config.should_ignore(r.name.as_str()) {
            Err(e) => {
                return Err(e);
            },
            Ok(true) => {
                return Ok(None);
            },
            Ok(false) => {},
        }
        let rx = match read_counter(&r.rx_bytes, "rx_bytes", &r.name) {
            Ok(v) => v,
            Err(e) => {
                return Err(e);
            },
        };
        let tx = match read_counter(&r.tx_bytes, "tx_bytes", &r.name) {
            Ok(v) => v,
            Err(e) => {
                return Err(e);
            },
        };
        let mac = match &r.address {
            Some(a) => Some(trimmed(a)),
            None => None,
        };
        let operstate = match &r.operstate {
            Some(o) => OperState::from_str(o.as_str()),
            None => OperState::Unknown,
        };
        Ok(
            Some(
                InterfaceSnapshot {
                    name: r.name.clone(),
                    mac,
                    rx_bytes: rx,
                    tx_bytes: tx,
                    operstate,
                    timestamp,
                },
            ),
        )
    }

    /// The snapshots of the entries read from `sys/class/net`, in the order
    /// read, all taken at `timestamp`.
    pub fn snapshots_from(&self, readings: &[SysfsReading], timestamp: i64) -> (r: Result<
        Vec<InterfaceSnapshot>,
        NetWatchError,
    >)
        ensures
            match (r, sysfs_snapshots(*self.config, readings@)) {
                (Ok(v), Ok(views)) => v@.len() == views.len() && forall|i: int|
                    0 <= i < views.len() ==> snap_view(#[trigger] v@[i]) == views[i]
                        && v@[i].timestamp == timestamp,
                (Err(e), Err(ev)) => e@ == ev,
                _ => false,
            },
    {
        let mut out: Vec<InterfaceSnapshot> = Vec::new();
        let mut i: usize = 0;
        while i < readings.len()
            invariant
                i <= readings@.len(),
                sysfs_snapshots(*self.config, readings@.take(i as int)) matches Ok(views) && out@.len()
                    == views.len() && forall|j: int|
                    0 <= j < views.len() ==> snap_view(#[trigger] out@[j]) == views[j]
                        && out@[j].timestamp == timestamp,
            decreases readings@.len() - i,
        {
            proof {
                let t = readings@.take(i + 1);
                assert(t.drop_last() =~= readings@.take(i as int));
                assert(t.last() == readings@[i as int]);
            }
            match self.entry(&readings[i], timestamp) {
                Err(e) => {
                    proof {
                        lemma_sysfs_err_sticks(*self.config, readings@, i as int + 1);
                    }
                    return Err(e);
                },
                Ok(None) => {},
                Ok(Some(snap)) => {
                    out.push(snap);
                },
            }
            i = i + 1;
        }
        proof {
            assert(readings@.take(readings@.len() as int) =~= readings@);
        }
        Ok(out)
    }
}

/// No interface that the configuration ignores is read from sysfs either.
pub proof fn lemma_sysfs_kept(cfg: Config, rs: Seq<SysfsReading>)
    ensures
        sysfs_snapshots(cfg, rs) matches Ok(v) ==> forall|i: int|
            0 <= i < v.len() ==> ignored(cfg, (#[trigger] v[i]).0) == Ok::<bool, Seq<char>>(false),
    decreases rs.len(),
{
    if rs.len() > 0 {
        lemma_sysfs_kept(cfg, rs.drop_last());
        if let Ok(v) = sysfs_snapshots(cfg, rs.drop_last()) {
            if let Ok(Some(x)) = entry_outcome(cfg, rs.last()) {
                let w = v.push(x);
                assert forall|i: int| 0 <= i < w.len() implies ignored(cfg, (#[trigger] w[i]).0)
                    == Ok::<bool, Seq<char>>(false) by {
                    if i < v.len() {
                        assert(w[i] == v[i]);
                    }
                }
            }
        }
    }
}

/// Whether `st` is the state that an entry's `operstate` text (if it could
/// be read) names: `Up` for "up", `Down` for "down" (ASCII, in any case,
/// with surrounding whitespace), `Unknown` for other ASCII text and for an
/// unreadable file.
pub open spec fn names_state(text: Option<String>, st: OperState) -> bool {
    match text {
        None => st == OperState::Unknown,
        Some(o) => crate::types::all_ascii(trim(o@)) ==> st == if crate::types::ascii_lower(
            trim(o@),
        ) == "up"@ {
            OperState::Up
        } else if crate::types::ascii_lower(trim(o@)) == "down"@ {
            OperState::Down
        } else {
            OperState::Unknown
        },
    }
}

/// Every snapshot collected from sysfs comes from an entry of the same name
/// and carries the state that the entry's `operstate` text names.
pub proof fn lemma_sysfs_states(cfg: Config, rs: Seq<SysfsReading>)
    ensures
        sysfs_snapshots(cfg, rs) matches Ok(v) ==> forall|i: int|
            0 <= i < v.len() ==> exists|j: int|
                0 <= j < rs.len() && rs[j].name@ == (#[trigger] v[i]).0 && names_state(
                    rs[j].operstate,
                    v[i].4,
                ),
    decreases rs.len(),
{
    if rs.len() > 0 {
        let init = rs.drop_last();
        lemma_sysfs_states(cfg, init);
        if let Ok(v) = sysfs_snapshots(cfg, init) {
            if let Ok(Some(x)) = entry_outcome(cfg, rs.last()) {
                let w = v.push(x);
                assert forall|i: int| 0 <= i < w.len() implies exists|j: int|
                    0 <= j < rs.len() && rs[j].name@ == (#[trigger] w[i]).0 && names_state(
                        rs[j].operstate,
                        w[i].4,
                    ) by {
                    if i < v.len() {
                        assert(w[i] == v[i]);
                        let j = choose|j: int|
                            0 <= j < init.len() && init[j].name@ == v[i].0 && names_state(
                                init[j].operstate,
                                v[i].4,
                            );
                        assert(rs[j] == init[j]);
                    } else {
                        assert(rs[rs.len() - 1] == rs.last());
                        assert(names_state(rs.last().operstate, x.4));
                    }
                }
            } else if let Ok(None) = entry_outcome(cfg, rs.last()) {
                assert forall|i: int| 0 <= i < v.len() implies exists|j: int|
                    0 <= j < rs.len() && rs[j].name@ == (#[trigger] v[i]).0 && names_state(
                        rs[j].operstate,
                        v[i].4,
                    ) by {
                    let j = choose|j: int|
                        0 <= j < init.len() && init[j].name@ == v[i].0 && names_state(
                            init[j].operstate,
                            v[i].4,
                        );
                    assert(rs[j] == init[j]);
                }
            }
        }
    }
}

/// Once a prefix of the entries fails, every longer prefix fails the same way.
proof fn lemma_sysfs_err_sticks(cfg: Config, rs: Seq<SysfsReading>, k: int)
    requires
        0 <= k <= rs.len(),
        sysfs_snapshots(cfg, rs.take(k)) is Err,
    ensures
        sysfs_snapshots(cfg, rs) == sysfs_snapshots(cfg, rs.take(k)),
    decreases rs.len() - k,
{
    if k < rs.len() {
        let t = rs.take(k + 1);
        assert(t.drop_last() =~= rs.take(k));
        lemma_sysfs_err_sticks(cfg, rs, k + 1);
    } else {
        assert(rs.take(k) =~= rs);
    }
}

/// A snapshot of the given readings, taken at `timestamp` (the caller reads
/// the clock).
pub fn snapshot_from_parts(
    name: &str,
    mac: Option<&str>,
    rx: u64,
    tx: u64,
    state: OperState,
    timestamp: i64,
) -> (r: InterfaceSnapshot)
    requires
        in_utc_range(timestamp as int),
    ensures
        r.name@ == name@,
        match (r.mac, mac) {
            (Some(a), Some(b)) => a@ == b@,
            (None, None) => true,
            _ => false,
        },
        r.rx_bytes == rx,
        r.tx_bytes == tx,
        r.operstate == state,
        r.timestamp == timestamp,
{
    InterfaceSnapshot {
        name: name.to_owned(),
        mac: match mac {
            Some(m) => Some(m.to_owned()),
            None => None,
        },
        rx_bytes: rx,
        tx_bytes: tx,
        operstate: state,
        timestamp,
    }
}

} // verus!
