//! The text that the monitor's pages show: header, footer, cards, table
//! cells and the ranking of interfaces.
use vstd::prelude::*;
use crate::config::{Config, Units};
use crate::models::{HistoryEntry, InterfaceDetail, InterfaceStats};
use crate::stats::{bytes_text, format_bytes, format_rate, rate_text};
use crate::text::{dec, push_char, push_decimal, push_str};
use crate::tui::Page;
use crate::types::str_is;

verus! {

/// The key help that the footer shows on each page.
pub open spec fn footer_text(page: Page) -> Seq<char> {
    match page {
        Page::Home => " F1:Help │ Tab:Switch │ Enter:Details │ /:Search │ q:Quit "@,
        Page::Interfaces => " F1:Help │ Tab:Switch │ Enter:Detail │ Esc:Back │ q:Quit "@,
        Page::InterfaceDetail => " F1:Help │ Esc/q:Back "@,
        Page::History => " F1:Help │ Tab:Switch │ ←/→:Range │ q:Quit "@,
        Page::Graph => " F1:Help │ Tab:Switch │ ←/→:Resolution │ q:Quit "@,
        Page::Live => " F1:Help │ Tab:Switch │ q:Quit "@,
        Page::Search => " Type to filter │ Esc:Back "@,
        Page::Settings => " ↑/↓:Navigate │ ←/→:Adjust │ Enter:Save/Cancel │ Esc:Back "@,
    }
}

pub fn footer_keys(page: Page) -> (r: &'static str)
    ensures
        r@ == footer_text(page),
{
    match page {
        Page::Home => " F1:Help │ Tab:Switch │ Enter:Details │ /:Search │ q:Quit ",
        Page::Interfaces => " F1:Help │ Tab:Switch │ Enter:Detail │ Esc:Back │ q:Quit ",
        Page::InterfaceDetail => " F1:Help │ Esc/q:Back ",
        Page::History => " F1:Help │ Tab:Switch │ ←/→:Range │ q:Quit ",
        Page::Graph => " F1:Help │ Tab:Switch │ ←/→:Resolution │ q:Quit ",
        Page::Live => " F1:Help │ Tab:Switch │ q:Quit ",
        Page::Search => " Type to filter │ Esc:Back ",
        Page::Settings => " ↑/↓:Navigate │ ←/→:Adjust │ Enter:Save/Cancel │ Esc:Back ",
    }
}

/// The alert notice of the header: empty without alerts.
pub open spec fn alerts_notice(count: nat) -> Seq<char> {
    if count > 0 {
        " ["@ + dec(count) + " alerts]"@
    } else {
        Seq::empty()
    }
}

pub fn header_alerts(alert_count: usize) -> (r: String)
    ensures
        r@ == alerts_notice(alert_count as nat),
{
    let mut s = String::new();
    if alert_count > 0 {
        push_str(&mut s, " [");
        push_decimal(&mut s, alert_count as u64);
        push_str(&mut s, " alerts]");
    }
    proof {
        if alert_count == 0 {
            assert(s@ =~= alerts_notice(0));
        }
    }
    s
}

/// The title at the left of the header.
pub fn header_title(alert_count: usize) -> (r: String)
    ensures
        r@ == " NetWatch"@ + alerts_notice(alert_count as nat),
{
    let mut s = " NetWatch".to_owned();
    let notice = header_alerts(alert_count);
    push_str(&mut s, notice.as_str());
    s
}

/// Whether the daemon runs, as the header says it.
pub open spec fn daemon_state_text(running: bool) -> Seq<char> {
    if running {
        " Running"@
    } else {
        " Stopped"@
    }
}

pub fn daemon_state_label(running: bool) -> (r: &'static str)
    ensures
        r@ == daemon_state_text(running),
{
    if running {
        " Running"
    } else {
        " Stopped"
    }
}

/// Bytes that the right part of the header takes besides the clock: the
/// daemon status ("Daemon ● Running", the dot being three bytes) and eight
/// more for the separator.
pub const HEADER_RIGHT_BYTES: usize = 26usize;

/// Bytes of the header's left part before the alert notice, with margin.
pub const HEADER_LEFT_BYTES: usize = 12usize;

/// Spaces between the title and the right part of a header `width` cells
/// wide, where the alert notice takes `alerts_len` bytes and the clock
/// `clock_len`: what is left, less four, and none when nothing is left.
pub fn header_padding(width: usize, alerts_len: usize, clock_len: usize) -> (r: usize)
    requires
        HEADER_LEFT_BYTES + alerts_len + HEADER_RIGHT_BYTES + clock_len <= usize::MAX,
    ensures
        r == ({
            let used = HEADER_LEFT_BYTES + alerts_len + HEADER_RIGHT_BYTES + clock_len;
            let free = if width > used {
                width - used
            } else {
                0
            };
            if free > 4 {
                free - 4
            } else {
                0
            }
        }),
{
    let used = HEADER_LEFT_BYTES + alerts_len + (HEADER_RIGHT_BYTES + clock_len);
    let free = width.saturating_sub(used);
    free.saturating_sub(4)
}

/// The number of interfaces whose state reads "UP".
pub open spec fn up_count(s: Seq<InterfaceStats>) -> nat
    decreases s.len(),
{
    if s.len() == 0 {
        0
    } else {
        up_count(s.drop_last()) + if s.last().operstate@ == "UP"@ {
            1nat
        } else {
            0nat
        }
    }
}

proof fn lemma_up_count_le(s: Seq<InterfaceStats>)
    ensures
        up_count(s) <= s.len(),
    decreases s.len(),
{
    if s.len() > 0 {
        lemma_up_count_le(s.drop_last());
    }
}

/// Interfaces up and interfaces not up, as the home page counts them.
pub fn interface_counts(interfaces: &[InterfaceStats]) -> (r: (usize, usize))
    ensures
        r.0 == up_count(interfaces@),
        r.0 + r.1 == interfaces@.len(),
{
    let mut up: usize = 0;
    let mut i: usize = 0;
    while i < interfaces.len()
        invariant
            i <= interfaces@.len(),
            up == up_count(interfaces@.take(i as int)),
        decreases interfaces@.len() - i,
    {
        proof {
            let t = interfaces@.take(i + 1);
            assert(t.drop_last() =~= interfaces@.take(i as int));
            assert(t.last() == interfaces@[i as int]);
            lemma_up_count_le(interfaces@.take(i as int));
        }
        if str_is(interfaces[i].operstate.as_str(), "UP") {
            up = up + 1;
        }
        i = i + 1;
    }
    proof {
        assert(interfaces@.take(interfaces@.len() as int) =~= interfaces@);
        lemma_up_count_le(interfaces@);
    }
    (up, interfaces.len() - up)
}

/// Inserts `x` (a download amount and an index) into `s`, after every entry
/// that downloaded at least as much.
pub open spec fn insert_desc(s: Seq<(u64, int)>, x: (u64, int)) -> Seq<(u64, int)>
    decreases s.len(),
{
    if s.len() == 0 {
        seq![x]
    } else if s[0].0 < x.0 {
        seq![x] + s
    } else {
        seq![s[0]] + insert_desc(s.drop_first(), x)
    }
}

/// Entries ordered by download, most first; equal downloads keep their order.
pub open spec fn sort_desc(s: Seq<(u64, int)>) -> Seq<(u64, int)>
    decreases s.len(),
{
    if s.len() == 0 {
        Seq::empty()
    } else {
        insert_desc(sort_desc(s.drop_last()), s.last())
    }
}

/// Each interface's download with its position.
pub open spec fn keyed(s: Seq<InterfaceStats>) -> Seq<(u64, int)> {
    Seq::new(s.len(), |i: int| (s[i].download, i))
}

/// Positions of the `n` interfaces that downloaded most, most first, as a
/// stable sort by download, descending, orders them.
pub open spec fn top_spec(s: Seq<InterfaceStats>, n: nat) -> Seq<int> {
    let sorted = sort_desc(keyed(s));
    let k = if n < sorted.len() {
        n as int
    } else {
        sorted.len() as int
    };
    sorted.take(k).map_values(|p: (u64, int)| p.1)
}

proof fn lemma_insert_desc_at(s: Seq<(u64, int)>, x: (u64, int), p: int)
    requires
        0 <= p <= s.len(),
        forall|j: int| 0 <= j < p ==> !((#[trigger] s[j]).0 < x.0),
        p == s.len() || s[p].0 < x.0,
    ensures
        insert_desc(s, x) == s.insert(p, x),
    decreases p,
{
    if p == 0 {
        if s.len() > 0 {
            assert(s.insert(0, x) =~= seq![x] + s);
        } else {
            assert(s.insert(0, x) =~= seq![x]);
        }
    } else {
        let d = s.drop_first();
        assert forall|j: int| 0 <= j < p - 1 implies !((#[trigger] d[j]).0 < x.0) by {
            assert(d[j] == s[j + 1]);
        }
        if p < s.len() {
            assert(d[p - 1] == s[p]);
        }
        lemma_insert_desc_at(d, x, p - 1);
        assert(s.insert(p, x) =~= seq![s[0]] + d.insert(p - 1, x));
    }
}

proof fn lemma_insert_desc_len(s: Seq<(u64, int)>, x: (u64, int))
    ensures
        insert_desc(s, x).len() == s.len() + 1,
    decreases s.len(),
{
    if s.len() > 0 && !(s[0].0 < x.0) {
        lemma_insert_desc_len(s.drop_first(), x);
    }
}

proof fn lemma_sort_desc_len(s: Seq<(u64, int)>)
    ensures
        sort_desc(s).len() == s.len(),
    decreases s.len(),
{
    if s.len() > 0 {
        lemma_sort_desc_len(s.drop_last());
        lemma_insert_desc_len(sort_desc(s.drop_last()), s.last());
    }
}

pub open spec fn pairs_view(v: Seq<(u64, usize)>) -> Seq<(u64, int)> {
    v.map_values(|p: (u64, usize)| (p.0, p.1 as int))
}

/// Positions of the (at most) `n` interfaces that downloaded most, most
/// first; interfaces with equal downloads keep their order.
pub fn top_by_download(interfaces: &[InterfaceStats], n: usize) -> (r: Vec<usize>)
    ensures
        r@.map_values(|i: usize| i as int) == top_spec(interfaces@, n as nat),
{
    let ghost keys = keyed(interfaces@);
    let mut out: Vec<(u64, usize)> = Vec::new();
    let mut i: usize = 0;
    while i < interfaces.len()
        invariant
            i <= interfaces@.len(),
            keys == keyed(interfaces@),
            pairs_view(out@) == sort_desc(keys.take(i as int)),
        decreases interfaces@.len() - i,
    {
        let x: (u64, usize) = (interfaces[i].download, i);
        let mut p: usize = 0;
        while p < out.len() && !(out[p].0 < x.0)
            invariant
                p <= out@.len(),
                forall|j: int| 0 <= j < p ==> !((#[trigger] out@[j]).0 < x.0),
            decreases out@.len() - p,
        {
            p = p + 1;
        }
        let ghost before = pairs_view(out@);
        let ghost xv: (u64, int) = (x.0, x.1 as int);
        proof {
            assert forall|j: int| 0 <= j < p implies !((#[trigger] before[j]).0 < xv.0) by {
                assert(before[j].0 == out@[j].0);
            }
            if p < out@.len() {
                assert(before[p as int].0 == out@[p as int].0);
            }
            lemma_insert_desc_at(before, xv, p as int);
        }
        out.insert(p, x);
        proof {
            assert(pairs_view(out@) =~= before.insert(p as int, xv));
            let t = keys.take(i + 1);
            assert(t.drop_last() =~= keys.take(i as int));
            assert(t.last() == xv);
        }
        i = i + 1;
    }
    proof {
        assert(keys.take(interfaces@.len() as int) =~= keys);
        lemma_sort_desc_len(keys);
    }
    let ghost sorted = pairs_view(out@);
    let mut r: Vec<usize> = Vec::new();
    let mut k: usize = 0;
    while k < n && k < out.len()
        invariant
            k <= out@.len(),
            k <= n,
            sorted == pairs_view(out@),
            r@.map_values(|i: usize| i as int) == sorted.take(k as int).map_values(
                |p: (u64, int)| p.1,
            ),
        decreases out@.len() - k,
    {
        let ghost before = r@;
        r.push(out[k].1);
        proof {
            assert(sorted[k as int].1 == out@[k as int].1 as int);
            assert(r@ == before.push(out@[k as int].1));
            assert(r@.map_values(|i: usize| i as int) =~= before.map_values(|i: usize| i as int).push(
                out@[k as int].1 as int,
            ));
            assert(sorted.take(k + 1).map_values(|p: (u64, int)| p.1) =~= sorted.take(
                k as int,
            ).map_values(|p: (u64, int)| p.1).push(sorted[k as int].1));
            assert(r@.map_values(|i: usize| i as int) =~= sorted.take(k + 1).map_values(
                |p: (u64, int)| p.1,
            ));
        }
        k = k + 1;
    }
    r
}

/// The field `{:<width}` makes of `s`: `s` followed by spaces up to `width`
/// characters.
pub open spec fn padded(s: Seq<char>, width: nat) -> Seq<char> {
    if s.len() < width {
        s + Seq::new((width - s.len()) as nat, |i: int| ' ')
    } else {
        s
    }
}

pub fn push_padded(out: &mut String, s: &str, width: usize)
    ensures
        final(out)@ == old(out)@ + padded(s@, width as nat),
{
    push_str(out, s);
    let n = s.unicode_len();
    let mut k: usize = n;
    while k < width
        invariant
            n == s@.len(),
            n <= k,
            k <= width || n >= width,
            n >= width ==> k == n,
            out@ == old(out)@ + s@ + Seq::new((k - n) as nat, |i: int| ' '),
        decreases width - k,
    {
        push_char(out, ' ');
        proof {
            assert(Seq::new((k - n) as nat, |i: int| ' ').push(' ') =~= Seq::new(
                (k + 1 - n) as nat,
                |i: int| ' ',
            ));
        }
        k = k + 1;
    }
    proof {
        if n < width {
            assert(out@ =~= old(out)@ + padded(s@, width as nat));
        } else {
            assert(Seq::new(0, |i: int| ' ') =~= Seq::<char>::empty());
            assert(out@ =~= old(out)@ + padded(s@, width as nat));
        }
    }
}

pub open spec fn desc_sorted(s: Seq<(u64, int)>) -> bool {
    forall|i: int, j: int| 0 <= i < j < s.len() ==> (#[trigger] s[i]).0 >= (#[trigger] s[j]).0
}

proof fn lemma_insert_desc_props(s: Seq<(u64, int)>, x: (u64, int))
    requires
        desc_sorted(s),
    ensures
        desc_sorted(insert_desc(s, x)),
        forall|k: int|
            0 <= k < insert_desc(s, x).len() ==> (#[trigger] insert_desc(s, x)[k] == x
                || s.contains(insert_desc(s, x)[k])),
    decreases s.len(),
{
    lemma_insert_desc_len(s, x);
    if s.len() == 0 {
    } else if s[0].0 < x.0 {
        let r = seq![x] + s;
        assert(insert_desc(s, x) == r);
        assert forall|k: int| 0 <= k < r.len() implies (#[trigger] r[k] == x || s.contains(r[k])) by {
            if k > 0 {
                assert(r[k] == s[k - 1]);
            }
        }
    } else {
        let d = s.drop_first();
        assert(desc_sorted(d)) by {
            assert forall|i: int, j: int| 0 <= i < j < d.len() implies (#[trigger] d[i]).0 >= (
            #[trigger] d[j]).0 by {
                assert(d[i] == s[i + 1]);
                assert(d[j] == s[j + 1]);
            }
        }
        lemma_insert_desc_props(d, x);
        lemma_insert_desc_len(d, x);
        let rd = insert_desc(d, x);
        let r = seq![s[0]] + rd;
        assert(insert_desc(s, x) == r);
        assert forall|k: int| 0 <= k < r.len() implies (#[trigger] r[k] == x || s.contains(r[k])) by {
            if k == 0 {
                assert(s[0] == s[0]);
                assert(s.contains(s[0]));
            } else {
                assert(r[k] == rd[k - 1]);
                if rd[k - 1] != x {
                    assert(d.contains(rd[k - 1]));
                    let m = choose|m: int| 0 <= m < d.len() && d[m] == rd[k - 1];
                    assert(s[m + 1] == d[m]);
                }
            }
        }
        assert forall|i: int, j: int| 0 <= i < j < r.len() implies (#[trigger] r[i]).0 >= (
        #[trigger] r[j]).0 by {
            assert(r[j] == rd[j - 1]);
            if i > 0 {
                assert(r[i] == rd[i - 1]);
            } else {
                if rd[j - 1] == x {
                } else {
                    assert(d.contains(rd[j - 1]));
                    let m = choose|m: int| 0 <= m < d.len() && d[m] == rd[j - 1];
                    assert(s[m + 1] == d[m]);
                    assert(s[0].0 >= s[m + 1].0);
                }
            }
        }
    }
}

proof fn lemma_sort_desc_props(s: Seq<(u64, int)>)
    ensures
        desc_sorted(sort_desc(s)),
        sort_desc(s).len() == s.len(),
        forall|k: int| 0 <= k < sort_desc(s).len() ==> s.contains(#[trigger] sort_desc(s)[k]),
    decreases s.len(),
{
    lemma_sort_desc_len(s);
    if s.len() > 0 {
        let init = s.drop_last();
        lemma_sort_desc_props(init);
        lemma_insert_desc_props(sort_desc(init), s.last());
        let r = sort_desc(s);
        assert forall|k: int| 0 <= k < r.len() implies s.contains(#[trigger] r[k]) by {
            if r[k] == s.last() {
                assert(s[s.len() - 1] == s.last());
            } else {
                assert(sort_desc(init).contains(r[k]));
                let m = choose|m: int| 0 <= m < sort_desc(init).len() && sort_desc(init)[m] == r[k];
                assert(init.contains(sort_desc(init)[m]));
                let q = choose|q: int| 0 <= q < init.len() && init[q] == r[k];
                assert(s[q] == init[q]);
            }
        }
    }
}

pub open spec fn no_dups(s: Seq<(u64, int)>) -> bool {
    forall|i: int, j: int| 0 <= i < j < s.len() ==> (#[trigger] s[i]) != (#[trigger] s[j])
}

proof fn lemma_insert_desc_no_dups(s: Seq<(u64, int)>, x: (u64, int))
    requires
        desc_sorted(s),
        no_dups(s),
        !s.contains(x),
    ensures
        no_dups(insert_desc(s, x)),
    decreases s.len(),
{
    lemma_insert_desc_len(s, x);
    if s.len() == 0 {
    } else if s[0].0 < x.0 {
        let r = seq![x] + s;
        assert forall|i: int, j: int| 0 <= i < j < r.len() implies (#[trigger] r[i]) != (
        #[trigger] r[j]) by {
            assert(r[j] == s[j - 1]);
            if i > 0 {
                assert(r[i] == s[i - 1]);
            }
        }
    } else {
        let d = s.drop_first();
        assert(desc_sorted(d)) by {
            assert forall|i: int, j: int| 0 <= i < j < d.len() implies (#[trigger] d[i]).0 >= (
            #[trigger] d[j]).0 by {
                assert(d[i] == s[i + 1]);
                assert(d[j] == s[j + 1]);
            }
        }
        assert(no_dups(d)) by {
            assert forall|i: int, j: int| 0 <= i < j < d.len() implies (#[trigger] d[i]) != (
            #[trigger] d[j]) by {
                assert(d[i] == s[i + 1]);
                assert(d[j] == s[j + 1]);
            }
        }
        assert(!d.contains(x)) by {
            if d.contains(x) {
                let m = choose|m: int| 0 <= m < d.len() && d[m] == x;
                assert(s[m + 1] == x);
            }
        }
        lemma_insert_desc_no_dups(d, x);
        lemma_insert_desc_props(d, x);
        lemma_insert_desc_len(d, x);
        let rd = insert_desc(d, x);
        let r = seq![s[0]] + rd;
        assert forall|i: int, j: int| 0 <= i < j < r.len() implies (#[trigger] r[i]) != (
        #[trigger] r[j]) by {
            assert(r[j] == rd[j - 1]);
            if i > 0 {
                assert(r[i] == rd[i - 1]);
            } else {
                if rd[j - 1] == x {
                    assert(s[0] != x) by {
                        assert(s.contains(s[0]));
                    }
                } else {
                    let m = choose|m: int| 0 <= m < d.len() && d[m] == rd[j - 1];
                    assert(s[m + 1] == d[m]);
                }
            }
        }
    }
}

proof fn lemma_sort_desc_no_dups(s: Seq<(u64, int)>)
    requires
        no_dups(s),
    ensures
        no_dups(sort_desc(s)),
    decreases s.len(),
{
    if s.len() > 0 {
        let init = s.drop_last();
        assert(no_dups(init)) by {
            assert forall|i: int, j: int| 0 <= i < j < init.len() implies (#[trigger] init[i]) != (
            #[trigger] init[j]) by {
                assert(init[i] == s[i]);
                assert(init[j] == s[j]);
            }
        }
        lemma_sort_desc_no_dups(init);
        lemma_sort_desc_props(init);
        assert(!sort_desc(init).contains(s.last())) by {
            if sort_desc(init).contains(s.last()) {
                let m = choose|m: int| 0 <= m < sort_desc(init).len() && sort_desc(init)[m] == s.last();
                assert(init.contains(sort_desc(init)[m]));
                let q = choose|q: int| 0 <= q < init.len() && init[q] == s.last();
                assert(s[q] == s[s.len() - 1]);
            }
        }
        lemma_insert_desc_no_dups(sort_desc(init), s.last());
    }
}

proof fn lemma_insert_desc_complete(d: Seq<(u64, int)>, x: (u64, int))
    ensures
        insert_desc(d, x).contains(x),
        forall|y: (u64, int)| d.contains(y) ==> insert_desc(d, x).contains(y),
    decreases d.len(),
{
    if d.len() == 0 {
        assert(insert_desc(d, x)[0] == x);
    } else if d[0].0 < x.0 {
        let r = seq![x] + d;
        assert(r[0] == x);
        assert forall|y: (u64, int)| d.contains(y) implies r.contains(y) by {
            let k = choose|k: int| 0 <= k < d.len() && d[k] == y;
            assert(r[k + 1] == y);
        }
    } else {
        let t = d.drop_first();
        lemma_insert_desc_complete(t, x);
        let rt = insert_desc(t, x);
        let r = seq![d[0]] + rt;
        let q = choose|q: int| 0 <= q < rt.len() && rt[q] == x;
        assert(r[q + 1] == x);
        assert forall|y: (u64, int)| d.contains(y) implies r.contains(y) by {
            let k = choose|k: int| 0 <= k < d.len() && d[k] == y;
            if k == 0 {
                assert(r[0] == y);
            } else {
                assert(t[k - 1] == y);
                assert(t.contains(y));
                let m = choose|m: int| 0 <= m < rt.len() && rt[m] == y;
                assert(r[m + 1] == y);
            }
        }
    }
}

proof fn lemma_sort_desc_complete(s: Seq<(u64, int)>)
    ensures
        forall|k: int| 0 <= k < s.len() ==> sort_desc(s).contains(#[trigger] s[k]),
    decreases s.len(),
{
    if s.len() > 0 {
        let init = s.drop_last();
        lemma_sort_desc_complete(init);
        lemma_insert_desc_complete(sort_desc(init), s.last());
        assert forall|k: int| 0 <= k < s.len() implies sort_desc(s).contains(#[trigger] s[k]) by {
            if k < s.len() - 1 {
                assert(init[k] == s[k]);
                assert(sort_desc(init).contains(init[k]));
            }
        }
    }
}

/// The ranking of the home page lists positions of distinct interfaces,
/// `n` of them or every interface where there are fewer, each downloading at
/// least as much as every later one and as every interface left out.
pub proof fn lemma_top_ranked(s: Seq<InterfaceStats>, n: nat)
    ensures
        top_spec(s, n).len() == if n < s.len() {
            n as int
        } else {
            s.len() as int
        },
        forall|i: int, j: int|
            0 <= i < top_spec(s, n).len() && 0 <= j < s.len() && !top_spec(s, n).contains(j)
                ==> s[#[trigger] top_spec(s, n)[i]].download >= #[trigger] s[j].download,
        forall|i: int, j: int|
            0 <= i < j < top_spec(s, n).len() ==> #[trigger] top_spec(s, n)[i] != #[trigger] top_spec(
                s,
                n,
            )[j],
        top_spec(s, n).len() <= n,
        top_spec(s, n).len() <= s.len(),
        forall|k: int| 0 <= k < top_spec(s, n).len() ==> 0 <= #[trigger] top_spec(s, n)[k] < s.len(),
        forall|i: int, j: int|
            0 <= i < j < top_spec(s, n).len() ==> s[#[trigger] top_spec(s, n)[i]].download >= s[
                #[trigger] top_spec(s, n)[j]].download,
{
    let keys = keyed(s);
    lemma_sort_desc_props(keys);
    assert(no_dups(keys)) by {
        assert forall|i: int, j: int| 0 <= i < j < keys.len() implies (#[trigger] keys[i]) != (
        #[trigger] keys[j]) by {
            assert(keys[i].1 == i);
            assert(keys[j].1 == j);
        }
    }
    lemma_sort_desc_no_dups(keys);
    let sorted = sort_desc(keys);
    let t = top_spec(s, n);
    assert forall|i: int, j: int| 0 <= i < j < t.len() implies #[trigger] t[i] != #[trigger] t[j] by {
        assert(t[i] == sorted[i].1);
        assert(t[j] == sorted[j].1);
        assert(keys.contains(sorted[i]));
        assert(keys.contains(sorted[j]));
        let qi = choose|q: int| 0 <= q < keys.len() && keys[q] == sorted[i];
        let qj = choose|q: int| 0 <= q < keys.len() && keys[q] == sorted[j];
        assert(keys[qi] == (s[qi].download, qi));
        assert(keys[qj] == (s[qj].download, qj));
        assert(sorted[i] != sorted[j]);
    }
    assert forall|k: int| 0 <= k < t.len() implies 0 <= #[trigger] t[k] < s.len() && s[t[k]].download
        == sorted[k].0 by {
        assert(t[k] == sorted[k].1);
        assert(keys.contains(sorted[k]));
        let q = choose|q: int| 0 <= q < keys.len() && keys[q] == sorted[k];
        assert(keys[q] == (s[q].download, q));
    }
    assert forall|i: int, j: int| 0 <= i < j < t.len() implies s[#[trigger] t[i]].download >= s[
        #[trigger] t[j]].download by {
        assert(s[t[i]].download == sorted[i].0);
        assert(s[t[j]].download == sorted[j].0);
    }
    lemma_sort_desc_complete(keys);
    assert forall|i: int, j: int|
        0 <= i < t.len() && 0 <= j < s.len() && !t.contains(j) implies s[#[trigger] t[i]].download
        >= #[trigger] s[j].download by {
        assert(keys[j] == (s[j].download, j));
        assert(sorted.contains(keys[j]));
        let p = choose|p: int| 0 <= p < sorted.len() && sorted[p] == keys[j];
        if p < t.len() {
            assert(t[p] == sorted[p].1);
            assert(t[p] == j);
            assert(t.contains(j));
        }
        assert(s[t[i]].download == sorted[i].0);
        assert(sorted[i].0 >= sorted[p].0);
    }
}

/// A statistics line: the label in a field of sixteen characters, a space,
/// then the value.
pub fn stat_text(label: &str, value: &str) -> (r: String)
    ensures
        r@ == padded(label@, 16) + " "@ + value@,
{
    let mut s = String::new();
    push_padded(&mut s, label, 16);
    push_str(&mut s, " ");
    push_str(&mut s, value);
    s
}

/// A line of the home page's ranking: the name in a ten-character field,
/// then the amount downloaded.
pub fn top_line(name: &str, download: u64, units: Units) -> (r: String)
    ensures
        r@ == "  "@ + padded(name@, 10) + "  "@ + bytes_text(download, units),
{
    let mut s = "  ".to_owned();
    push_padded(&mut s, name, 10);
    push_str(&mut s, "  ");
    let amount = format_bytes(download, units);
    push_str(&mut s, amount.as_str());
    s
}


/// A line of the detail page: a label, then what came in and what went out.
pub open spec fn pair_text(label: Seq<char>, down: Seq<char>, up: Seq<char>) -> Seq<char> {
    label + ": ↓ "@ + down + "  ↑ "@ + up
}

fn pair_line(label: &str, down: &String, up: &String) -> (r: String)
    ensures
        r@ == pair_text(label@, down@, up@),
{
    let mut s = String::new();
    push_str(&mut s, label);
    push_str(&mut s, ": ↓ ");
    push_str(&mut s, down.as_str());
    push_str(&mut s, "  ↑ ");
    push_str(&mut s, up.as_str());
    s
}

fn rate_line(label: &str, down: u64, up: u64, units: Units) -> (r: String)
    ensures
        r@ == pair_text(label@, rate_text(down, units), rate_text(up, units)),
{
    let d = format_rate(down, units);
    let u = format_rate(up, units);
    pair_line(label, &d, &u)
}

/// A label with an amount received and an amount sent.
pub fn amount_line(label: &str, down: u64, up: u64, units: Units) -> (r: String)
    ensures
        r@ == pair_text(label@, bytes_text(down, units), bytes_text(up, units)),
{
    let d = format_bytes(down, units);
    let u = format_bytes(up, units);
    pair_line(label, &d, &u)
}

#[verifier::opaque]
pub open spec fn amounts(label: Seq<char>, down: u64, up: u64, units: Units) -> Seq<char> {
    pair_text(label, bytes_text(down, units), bytes_text(up, units))
}

#[verifier::opaque]
pub open spec fn rates(label: Seq<char>, down: u64, up: u64, units: Units) -> Seq<char> {
    pair_text(label, rate_text(down, units), rate_text(up, units))
}

/// The lines of the detail page of an interface.
pub open spec fn detail_text(d: InterfaceDetail, units: Units) -> Seq<Seq<char>> {
    seq![
        "Interface: "@ + d.name@,
        rates("Current Speed"@, d.current_rx_rate, d.current_tx_rate, units),
        rates("Peak Speed"@, d.peak_rx_rate, d.peak_tx_rate, units),
        rates("Average Speed"@, d.avg_rx_rate, d.avg_tx_rate, units),
        Seq::<char>::empty(),
        amounts("Today"@, d.today_download, d.today_upload, units),
        amounts("Yesterday"@, d.yesterday_download, d.yesterday_upload, units),
        amounts("This Week"@, d.this_week_download, d.this_week_upload, units),
        amounts("Last Week"@, d.last_week_download, d.last_week_upload, units),
        amounts("This Month"@, d.this_month_download, d.this_month_upload, units),
        amounts("Last Month"@, d.last_month_download, d.last_month_upload, units),
        amounts("Year"@, d.this_year_download, d.this_year_upload, units),
        amounts("Total Since Installed"@, d.total_download, d.total_upload, units),
    ]
}

pub open spec fn texts(v: Seq<String>) -> Seq<Seq<char>> {
    v.map_values(|s: String| s@)
}

pub fn detail_lines(d: &InterfaceDetail, units: Units) -> (r: Vec<String>)
    ensures
        texts(r@) == detail_text(*d, units),
{
    let mut first = "Interface: ".to_owned();
    push_str(&mut first, d.name.as_str());
    let v = vec![
        first,
        rate_line("Current Speed", d.current_rx_rate, d.current_tx_rate, units),
        rate_line("Peak Speed", d.peak_rx_rate, d.peak_tx_rate, units),
        rate_line("Average Speed", d.avg_rx_rate, d.avg_tx_rate, units),
        String::new(),
        amount_line("Today", d.today_download, d.today_upload, units),
        amount_line("Yesterday", d.yesterday_download, d.yesterday_upload, units),
        amount_line("This Week", d.this_week_download, d.this_week_upload, units),
        amount_line("Last Week", d.last_week_download, d.last_week_upload, units),
        amount_line("This Month", d.this_month_download, d.this_month_upload, units),
        amount_line("Last Month", d.last_month_download, d.last_month_upload, units),
        amount_line("Year", d.this_year_download, d.this_year_upload, units),
        amount_line("Total Since Installed", d.total_download, d.total_upload, units),
    ];
    proof {
        reveal(amounts);
        reveal(rates);
    }
    assert(texts(v@) =~= detail_text(*d, units));
    v
}

/// An amount below a kibibyte, as automatic units show it: plain bytes.
proof fn lemma_small_amount(v: u64)
    requires
        v < 1024,
    ensures
        bytes_text(v, Units::Auto) == dec(v as nat) + " "@ + "B"@,
{
    assert(crate::stats::unit_of(v as nat, 1024, 0, 1) == (0nat, 1nat));
    reveal_strlit("B");
}

/// An amounts line as the detail page shows it for amounts below a
/// kibibyte: the label, then the bytes received and the bytes sent.
pub open spec fn small_amounts_line(label: Seq<char>, down: u64, up: u64) -> Seq<char> {
    label + ": ↓ "@ + dec(down as nat) + " "@ + "B"@ + "  ↑ "@ + dec(up as nat) + " "@ + "B"@
}

proof fn lemma_small_amounts_line(label: Seq<char>, down: u64, up: u64)
    requires
        down < 1024,
        up < 1024,
    ensures
        amounts(label, down, up, Units::Auto) == small_amounts_line(label, down, up),
{
    lemma_small_amount(down);
    lemma_small_amount(up);
    reveal(amounts);
    assert(amounts(label, down, up, Units::Auto) =~= small_amounts_line(label, down, up));
}

proof fn lemma_detail_text_at(d: InterfaceDetail, units: Units)
    ensures
        detail_text(d, units).len() == 13,
        detail_text(d, units)[0] == "Interface: "@ + d.name@,
        detail_text(d, units)[1] == rates("Current Speed"@, d.current_rx_rate, d.current_tx_rate, units),
        detail_text(d, units)[2] == rates("Peak Speed"@, d.peak_rx_rate, d.peak_tx_rate, units),
        detail_text(d, units)[3] == rates("Average Speed"@, d.avg_rx_rate, d.avg_tx_rate, units),
        detail_text(d, units)[5] == amounts("Today"@, d.today_download, d.today_upload, units),
        detail_text(d, units)[6] == amounts("Yesterday"@, d.yesterday_download, d.yesterday_upload, units),
        detail_text(d, units)[7] == amounts("This Week"@, d.this_week_download, d.this_week_upload, units),
        detail_text(d, units)[8] == amounts("Last Week"@, d.last_week_download, d.last_week_upload, units),
        detail_text(d, units)[9] == amounts("This Month"@, d.this_month_download, d.this_month_upload, units),
        detail_text(d, units)[10] == amounts("Last Month"@, d.last_month_download, d.last_month_upload, units),
        detail_text(d, units)[11] == amounts("Year"@, d.this_year_download, d.this_year_upload, units),
        detail_text(d, units)[12] == amounts("Total Since Installed"@, d.total_download, d.total_upload, units),
{
}

/// Each line of the detail page shows its own period's fields: two details
/// that agree on a period's fields show the same line for it, whatever their
/// other fields.
pub proof fn lemma_detail_lines_own_fields(d1: InterfaceDetail, d2: InterfaceDetail, units: Units)
    ensures
        d1.name@ == d2.name@ ==> detail_text(d1, units)[0] == detail_text(d2, units)[0],
        (d1.current_rx_rate, d1.current_tx_rate) == (d2.current_rx_rate, d2.current_tx_rate)
            ==> detail_text(d1, units)[1] == detail_text(d2, units)[1],
        (d1.peak_rx_rate, d1.peak_tx_rate) == (d2.peak_rx_rate, d2.peak_tx_rate) ==> detail_text(
            d1,
            units,
        )[2] == detail_text(d2, units)[2],
        (d1.avg_rx_rate, d1.avg_tx_rate) == (d2.avg_rx_rate, d2.avg_tx_rate) ==> detail_text(
            d1,
            units,
        )[3] == detail_text(d2, units)[3],
        (d1.today_download, d1.today_upload) == (d2.today_download, d2.today_upload)
            ==> detail_text(d1, units)[5] == detail_text(d2, units)[5],
        (d1.yesterday_download, d1.yesterday_upload) == (d2.yesterday_download, d2.yesterday_upload)
            ==> detail_text(d1, units)[6] == detail_text(d2, units)[6],
        (d1.this_week_download, d1.this_week_upload) == (d2.this_week_download, d2.this_week_upload)
            ==> detail_text(d1, units)[7] == detail_text(d2, units)[7],
        (d1.last_week_download, d1.last_week_upload) == (d2.last_week_download, d2.last_week_upload)
            ==> detail_text(d1, units)[8] == detail_text(d2, units)[8],
        (d1.this_month_download, d1.this_month_upload) == (
            d2.this_month_download,
            d2.this_month_upload,
        ) ==> detail_text(d1, units)[9] == detail_text(d2, units)[9],
        (d1.last_month_download, d1.last_month_upload) == (
            d2.last_month_download,
            d2.last_month_upload,
        ) ==> detail_text(d1, units)[10] == detail_text(d2, units)[10],
        (d1.this_year_download, d1.this_year_upload) == (d2.this_year_download, d2.this_year_upload)
            ==> detail_text(d1, units)[11] == detail_text(d2, units)[11],
        (d1.total_download, d1.total_upload) == (d2.total_download, d2.total_upload)
            ==> detail_text(d1, units)[12] == detail_text(d2, units)[12],
{
    lemma_detail_text_at(d1, units);
    lemma_detail_text_at(d2, units);
}

/// With amounts below a kibibyte, each period's line of the detail page is
/// its label followed by that period's received and sent bytes.
#[verifier::rlimit(30)]
pub proof fn lemma_detail_small_amounts(d1: InterfaceDetail)
    ensures
        d1.today_download < 1024 && d1.today_upload < 1024 ==> detail_text(d1, Units::Auto)[5]
            == small_amounts_line("Today"@, d1.today_download, d1.today_upload),
        d1.yesterday_download < 1024 && d1.yesterday_upload < 1024 ==> detail_text(
            d1,
            Units::Auto,
        )[6] == small_amounts_line("Yesterday"@, d1.yesterday_download, d1.yesterday_upload),
        d1.this_week_download < 1024 && d1.this_week_upload < 1024 ==> detail_text(
            d1,
            Units::Auto,
        )[7] == small_amounts_line("This Week"@, d1.this_week_download, d1.this_week_upload),
        d1.last_week_download < 1024 && d1.last_week_upload < 1024 ==> detail_text(
            d1,
            Units::Auto,
        )[8] == small_amounts_line("Last Week"@, d1.last_week_download, d1.last_week_upload),
        d1.this_month_download < 1024 && d1.this_month_upload < 1024 ==> detail_text(
            d1,
            Units::Auto,
        )[9] == small_amounts_line("This Month"@, d1.this_month_download, d1.this_month_upload),
        d1.last_month_download < 1024 && d1.last_month_upload < 1024 ==> detail_text(
            d1,
            Units::Auto,
        )[10] == small_amounts_line("Last Month"@, d1.last_month_download, d1.last_month_upload),
        d1.this_year_download < 1024 && d1.this_year_upload < 1024 ==> detail_text(
            d1,
            Units::Auto,
        )[11] == small_amounts_line("Year"@, d1.this_year_download, d1.this_year_upload),
        d1.total_download < 1024 && d1.total_upload < 1024 ==> detail_text(d1, Units::Auto)[12]
            == small_amounts_line("Total Since Installed"@, d1.total_download, d1.total_upload),
{
    lemma_detail_text_at(d1, Units::Auto);
    if d1.today_download < 1024 && d1.today_upload < 1024 {
        lemma_small_amounts_line("Today"@, d1.today_download, d1.today_upload);
    }
    if d1.yesterday_download < 1024 && d1.yesterday_upload < 1024 {
        lemma_small_amounts_line("Yesterday"@, d1.yesterday_download, d1.yesterday_upload);
    }
    if d1.this_week_download < 1024 && d1.this_week_upload < 1024 {
        lemma_small_amounts_line("This Week"@, d1.this_week_download, d1.this_week_upload);
    }
    if d1.last_week_download < 1024 && d1.last_week_upload < 1024 {
        lemma_small_amounts_line("Last Week"@, d1.last_week_download, d1.last_week_upload);
    }
    if d1.this_month_download < 1024 && d1.this_month_upload < 1024 {
        lemma_small_amounts_line("This Month"@, d1.this_month_download, d1.this_month_upload);
    }
    if d1.last_month_download < 1024 && d1.last_month_upload < 1024 {
        lemma_small_amounts_line("Last Month"@, d1.last_month_download, d1.last_month_upload);
    }
    if d1.this_year_download < 1024 && d1.this_year_upload < 1024 {
        lemma_small_amounts_line("Year"@, d1.this_year_download, d1.this_year_upload);
    }
    if d1.total_download < 1024 && d1.total_upload < 1024 {
        lemma_small_amounts_line("Total Since Installed"@, d1.total_download, d1.total_upload);
    }
}


/// The marker in front of a table row: an arrow on the selected one.
pub open spec fn cursor_text(selected: bool) -> Seq<char> {
    if selected {
        "▶ "@
    } else {
        "  "@
    }
}

fn cursor_name(selected: bool, name: &str) -> (r: String)
    ensures
        r@ == cursor_text(selected) + name@,
{
    let mut s = if selected {
        "▶ ".to_owned()
    } else {
        "  ".to_owned()
    };
    push_str(&mut s, name);
    s
}

/// How a table row is shown: highlighted when selected, else shaded on odd
/// rows.
#[derive(Debug, Clone, Copy, PartialEq, Eq, Structural)]
pub enum RowShade {
    Selected,
    Odd,
    Plain,
}

pub fn row_shade(index: usize, selection: usize) -> (r: RowShade)
    ensures
        r == if index == selection {
            RowShade::Selected
        } else if index % 2 == 1 {
            RowShade::Odd
        } else {
            RowShade::Plain
        },
{
    if index == selection {
        RowShade::Selected
    } else if index % 2 == 1 {
        RowShade::Odd
    } else {
        RowShade::Plain
    }
}

/// The status mark of an interface: a full dot when it is up.
pub fn status_mark(operstate: &str) -> (r: &'static str)
    ensures
        r@ == if operstate@ == "UP"@ {
            "●"@
        } else {
            "○"@
        },
{
    if str_is(operstate, "UP") {
        "●"
    } else {
        "○"
    }
}

/// The cells of an interface in the interfaces table: name, received today,
/// sent today, download speed.
pub open spec fn interface_cells(i: InterfaceStats, selected: bool, units: Units) -> Seq<Seq<char>> {
    seq![
        cursor_text(selected) + i.name@,
        bytes_text(i.download, units),
        bytes_text(i.upload, units),
        rate_text(i.rx_rate, units),
    ]
}

pub fn interface_row(i: &InterfaceStats, selected: bool, units: Units) -> (r: Vec<String>)
    ensures
        texts(r@) == interface_cells(*i, selected, units),
{
    let v = vec![
        cursor_name(selected, i.name.as_str()),
        format_bytes(i.download, units),
        format_bytes(i.upload, units),
        format_rate(i.rx_rate, units),
    ];
    assert(texts(v@) =~= interface_cells(*i, selected, units));
    v
}

/// The cells of a day in the history table.
pub open spec fn history_cells(e: HistoryEntry, selected: bool, units: Units) -> Seq<Seq<char>> {
    seq![
        cursor_text(selected) + e.date@,
        bytes_text(e.download, units),
        bytes_text(e.upload, units),
        bytes_text(e.total, units),
        bytes_text(e.peak_download, units),
        bytes_text(e.peak_upload, units),
    ]
}

pub fn history_row(e: &HistoryEntry, selected: bool, units: Units) -> (r: Vec<String>)
    ensures
        texts(r@) == history_cells(*e, selected, units),
{
    let v = vec![
        cursor_name(selected, e.date.as_str()),
        format_bytes(e.download, units),
        format_bytes(e.upload, units),
        format_bytes(e.total, units),
        format_bytes(e.peak_download, units),
        format_bytes(e.peak_upload, units),
    ];
    assert(texts(v@) =~= history_cells(*e, selected, units));
    v
}

/// The cells of an interface on the live page: its two rates, the larger
/// of them and their mean.
pub open spec fn live_cells(i: InterfaceStats, selected: bool, units: Units) -> Seq<Seq<char>> {
    seq![
        cursor_text(selected) + i.name@,
        rate_text(i.rx_rate, units),
        rate_text(i.tx_rate, units),
        rate_text(
            if i.rx_rate >= i.tx_rate {
                i.rx_rate
            } else {
                i.tx_rate
            },
            units,
        ),
        rate_text(((i.rx_rate + i.tx_rate) / 2) as u64, units),
    ]
}

pub fn live_row(i: &InterfaceStats, selected: bool, units: Units) -> (r: Vec<String>)
    requires
        i.rx_rate + i.tx_rate <= u64::MAX,
    ensures
        texts(r@) == live_cells(*i, selected, units),
{
    let peak = if i.rx_rate >= i.tx_rate {
        i.rx_rate
    } else {
        i.tx_rate
    };
    let avg = (i.rx_rate + i.tx_rate) / 2;
    let v = vec![
        cursor_name(selected, i.name.as_str()),
        format_rate(i.rx_rate, units),
        format_rate(i.tx_rate, units),
        format_rate(peak, units),
        format_rate(avg, units),
    ];
    assert(texts(v@) =~= live_cells(*i, selected, units));
    v
}

/// How `{:?}` writes the display units.
pub open spec fn units_name(u: Units) -> Seq<char> {
    match u {
        Units::Auto => "Auto"@,
        Units::Bytes => "Bytes"@,
        Units::Bits => "Bits"@,
    }
}

fn units_label(u: Units) -> (r: &'static str)
    ensures
        r@ == units_name(u),
{
    match u {
        Units::Auto => "Auto",
        Units::Bytes => "Bytes",
        Units::Bits => "Bits",
    }
}

/// A line of the settings page: the option's label in a field of 35
/// characters and its value, or the label alone for an action.
pub open spec fn setting_text(selected: bool, label: Seq<char>, value: Seq<char>) -> Seq<char> {
    let prefix = if selected {
        " > "@
    } else {
        "   "@
    };
    if value.len() == 0 {
        prefix + label
    } else {
        prefix + padded(label, 35) + " : "@ + value
    }
}

pub open spec fn yes_no(b: bool) -> Seq<char> {
    if b {
        "Yes"@
    } else {
        "No"@
    }
}

/// The lines of the settings page for the edited settings.
pub open spec fn settings_text(c: Config, selection: nat) -> Seq<Seq<char>> {
    seq![
        setting_text(selection == 0, "Display Units"@, units_name(c.units)),
        setting_text(selection == 1, "Ignore Loopback Interface"@, yes_no(c.skip_loopback)),
        setting_text(
            selection == 2,
            "Sample Interval (Seconds)"@,
            dec(c.sample_interval as nat) + "s"@,
        ),
        setting_text(
            selection == 3,
            "Database Write Batching (Seconds)"@,
            dec(c.batch_write_interval as nat) + "s"@,
        ),
        setting_text(
            selection == 4,
            "Data Retention (Days)"@,
            dec(c.history_days as nat) + " days"@,
        ),
        setting_text(selection == 5, "Save & Apply Settings"@, Seq::empty()),
        setting_text(selection == 6, "Cancel & Discard Changes"@, Seq::empty()),
    ]
}

fn setting_line(selected: bool, label: &str, value: &str) -> (r: String)
    ensures
        r@ == setting_text(selected, label@, value@),
{
    let mut s = if selected {
        " > ".to_owned()
    } else {
        "   ".to_owned()
    };
    if value.unicode_len() == 0 {
        push_str(&mut s, label);
    } else {
        push_padded(&mut s, label, 35);
        push_str(&mut s, " : ");
        push_str(&mut s, value);
    }
    s
}

fn number_with(n: u64, unit: &str) -> (r: String)
    ensures
        r@ == dec(n as nat) + unit@,
{
    let mut s = String::new();
    push_decimal(&mut s, n);
    push_str(&mut s, unit);
    s
}

pub fn settings_lines(c: &Config, selection: usize) -> (r: Vec<String>)
    ensures
        texts(r@) == settings_text(*c, selection as nat),
{
    let loopback = if c.skip_loopback {
        "Yes"
    } else {
        "No"
    };
    let interval = number_with(c.sample_interval, "s");
    let batching = number_with(c.batch_write_interval, "s");
    let retention = number_with(c.history_days as u64, " days");
    proof {
        reveal_strlit("");
        assert(dec(c.sample_interval as nat).len() > 0);
    }
    let v = vec![
        setting_line(selection == 0, "Display Units", units_label(c.units)),
        setting_line(selection == 1, "Ignore Loopback Interface", loopback),
        setting_line(selection == 2, "Sample Interval (Seconds)", interval.as_str()),
        setting_line(selection == 3, "Database Write Batching (Seconds)", batching.as_str()),
        setting_line(selection == 4, "Data Retention (Days)", retention.as_str()),
        setting_line(selection == 5, "Save & Apply Settings", ""),
        setting_line(selection == 6, "Cancel & Discard Changes", ""),
    ];
    assert(texts(v@) =~= settings_text(*c, selection as nat));
    v
}

} // verus!
