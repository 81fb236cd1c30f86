//! Decisions of the collecting daemon between two samplings.
use vstd::prelude::*;
use crate::config::views;
use crate::models::{alert_kind_name, anomaly_message};
use crate::stats::{
    compute_samples, computed_from, lookup, prev_after, prev_for, prev_of, rate_defined,
    ComputedSample, PreviousSample, PreviousSamples,
};
use crate::time::in_utc_range;
use crate::types::{AlertKind, InterfaceSnapshot};

verus! {

/// Whether `names` holds `n`.
pub open spec fn has_name(names: Seq<Seq<char>>, n: Seq<char>) -> bool {
    exists|i: int| 0 <= i < names.len() && names[i] == n
}

/// The known names that the current sampling no longer lists, in order.
pub open spec fn removed_spec(known: Seq<Seq<char>>, current: Seq<Seq<char>>) -> Seq<Seq<char>> {
    known.filter(|n: Seq<char>| !has_name(current, n))
}

fn contains_name(names: &[String], n: &String) -> (r: bool)
    ensures
        r == has_name(views(names@), n@),
{
    let mut i: usize = 0;
    while i < names.len()
        invariant
            i <= names@.len(),
            forall|j: int| 0 <= j < i ==> (#[trigger] names@[j])@ != n@,
        decreases names@.len() - i,
    {
        if names[i] == *n {
            assert(views(names@)[i as int] == n@);
            return true;
        }
        i = i + 1;
    }
    assert forall|j: int| 0 <= j < names@.len() implies views(names@)[j] != n@ by {
        assert(views(names@)[j] == names@[j]@);
    }
    false
}

/// Interfaces that disappeared: those known before and absent now.
pub fn names_removed(known: &[String], current: &[String]) -> (r: Vec<String>)
    ensures
        views(r@) == removed_spec(views(known@), views(current@)),
{
    let ghost cur = views(current@);
    let mut out: Vec<String> = Vec::new();
    let mut i: usize = 0;
    while i < known.len()
        invariant
            i <= known@.len(),
            cur == views(current@),
            views(out@) == views(known@).take(i as int).filter(|n: Seq<char>| !has_name(cur, n)),
        decreases known@.len() - i,
    {
        let present = contains_name(current, &known[i]);
        proof {
            let t = views(known@).take(i + 1);
            assert(t.drop_last() =~= views(known@).take(i as int));
            assert(t.last() == known@[i as int]@);
            reveal_with_fuel(Seq::filter, 1);
        }
        let ghost before = out@;
        if !present {
            out.push(known[i].clone());
            proof {
                assert(views(out@) =~= views(before) + seq![known@[i as int]@]);
            }
        }
        proof {
            let t = views(known@).take(i + 1);
            assert(views(out@) =~= t.filter(|n: Seq<char>| !has_name(cur, n)));
        }
        i = i + 1;
    }
    proof {
        assert(views(known@).take(known@.len() as int) =~= views(known@));
    }
    out
}

/// The names of a sampling, in order.
pub open spec fn snapshot_names(s: Seq<InterfaceSnapshot>) -> Seq<Seq<char>> {
    s.map_values(|x: InterfaceSnapshot| x.name@)
}

/// Whether every snapshot carries a time that a UTC date-time can hold.
pub open spec fn timestamps_valid(s: Seq<InterfaceSnapshot>) -> bool {
    forall|i: int| 0 <= i < s.len() ==> in_utc_range((#[trigger] s[i]).timestamp as int)
}

/// Whether every recorded previous reading carries a valid time.
pub open spec fn readings_valid(m: Map<Seq<char>, PreviousSample>) -> bool {
    forall|k: Seq<char>| m.dom().contains(k) ==> in_utc_range(#[trigger] m[k].ts as int)
}

/// The (name, MAC) pairs that a sampling leaves to record.
pub open spec fn mac_pairs(s: Seq<InterfaceSnapshot>) -> Seq<(Seq<char>, Option<String>)> {
    s.map_values(|x: InterfaceSnapshot| (x.name@, x.mac))
}

pub open spec fn pair_views(v: Seq<(String, Option<String>)>) -> Seq<(Seq<char>, Option<String>)> {
    v.map_values(|p: (String, Option<String>)| (p.0@, p.1))
}

/// An alert to store: when, which kind, and its message.
pub struct AlertRecord {
    pub ts: i64,
    pub kind: AlertKind,
    pub message: String,
}

pub open spec fn anomaly_text(interface: Seq<char>, kind: AlertKind) -> Seq<char> {
    "Anomaly on "@ + interface + ": "@ + alert_kind_name(kind)
}

/// The alerts that computed samples raise: one per anomalous sample, in order.
pub open spec fn alerts_of(cs: Seq<ComputedSample>) -> Seq<(i64, AlertKind, Seq<char>)>
    decreases cs.len(),
{
    if cs.len() == 0 {
        Seq::empty()
    } else {
        let rest = alerts_of(cs.drop_last());
        match cs.last().anomaly {
            Some(k) => rest.push((cs.last().ts, k, anomaly_text(cs.last().interface@, k))),
            None => rest,
        }
    }
}

pub open spec fn alert_views(v: Seq<AlertRecord>) -> Seq<(i64, AlertKind, Seq<char>)> {
    v.map_values(|a: AlertRecord| (a.ts, a.kind, a.message@))
}

/// What a sampling asks of the store: interfaces to mark removed and alerts
/// to insert.
pub struct SampleEvents {
    pub removed: Vec<String>,
    pub alerts: Vec<AlertRecord>,
}

/// The daemon between samplings: previous readings, the interfaces seen last,
/// and the samples and MAC addresses waiting for the next batch write.
pub struct DaemonState {
    previous: PreviousSamples,
    known: Vec<String>,
    pending_samples: Vec<ComputedSample>,
    pending_macs: Vec<(String, Option<String>)>,
}

proof fn lemma_prev_after_valid(snaps: Seq<InterfaceSnapshot>, m: Map<Seq<char>, PreviousSample>)
    requires
        readings_valid(m),
        timestamps_valid(snaps),
    ensures
        readings_valid(prev_after(snaps, m)),
    decreases snaps.len(),
{
    if snaps.len() > 0 {
        let init = snaps.drop_last();
        assert(timestamps_valid(init)) by {
            assert forall|i: int| 0 <= i < init.len() implies in_utc_range(
                (#[trigger] init[i]).timestamp as int,
            ) by {
                assert(init[i] == snaps[i]);
            }
        }
        lemma_prev_after_valid(init, m);
        assert(in_utc_range(snaps[snaps.len() - 1].timestamp as int));
        let r = prev_after(snaps, m);
        assert forall|k: Seq<char>| r.dom().contains(k) implies in_utc_range(
            #[trigger] r[k].ts as int,
        ) by {
            if k != snaps.last().name@ {
                assert(prev_after(init, m).dom().contains(k));
            }
        }
    }
}

proof fn lemma_rates_defined(snaps: Seq<InterfaceSnapshot>, m: Map<Seq<char>, PreviousSample>)
    requires
        readings_valid(m),
        timestamps_valid(snaps),
    ensures
        forall|i: int|
            0 <= i < snaps.len() ==> rate_defined(
                prev_for(snaps, m, i),
                (#[trigger] snaps[i]).timestamp,
            ),
{
    assert forall|i: int| 0 <= i < snaps.len() implies rate_defined(
        prev_for(snaps, m, i),
        (#[trigger] snaps[i]).timestamp,
    ) by {
        let t = snaps.take(i);
        assert(timestamps_valid(t)) by {
            assert forall|j: int| 0 <= j < t.len() implies in_utc_range(
                (#[trigger] t[j]).timestamp as int,
            ) by {
                assert(t[j] == snaps[j]);
            }
        }
        lemma_prev_after_valid(t, m);
        assert(in_utc_range(snaps[i].timestamp as int));
    }
}

/// Every interface known before a sampling is either in that sampling or
/// reported removed, and no interface of the sampling is reported removed.
pub proof fn lemma_removed_partition(known: Seq<Seq<char>>, current: Seq<Seq<char>>)
    ensures
        forall|n: Seq<char>|
            known.contains(n) ==> (has_name(current, n) || removed_spec(known, current).contains(
                n,
            )),
        forall|n: Seq<char>|
            #[trigger] removed_spec(known, current).contains(n) ==> known.contains(n)
                && !has_name(current, n),
{
    let f = |n: Seq<char>| !has_name(current, n);
    assert forall|n: Seq<char>| known.contains(n) implies (has_name(current, n)
        || removed_spec(known, current).contains(n)) by {
        if !has_name(current, n) {
            known.filter_lemma(f);
            let i = choose|i: int| 0 <= i < known.len() && known[i] == n;
            assert(f(known[i]));
        }
    }
    assert forall|n: Seq<char>| #[trigger] removed_spec(known, current).contains(n) implies known.contains(n)
        && !has_name(current, n) by {
        known.filter_lemma(f);
        known.lemma_filter_contains_rev(f, n);
        let r = removed_spec(known, current);
        let j = choose|j: int| 0 <= j < r.len() && r[j] == n;
        assert(f(r[j]));
    }
}

/// The samples of a batch that carry an anomaly, in order.
pub open spec fn anomalous(cs: Seq<ComputedSample>) -> Seq<ComputedSample> {
    cs.filter(|c: ComputedSample| c.anomaly is Some)
}

/// The alerts of a batch match its anomalous samples one to one and in
/// order: as many alerts as anomalous samples, the `k`-th alert carrying the
/// time and kind of the `k`-th anomalous sample and a message naming its
/// interface and kind.
pub proof fn lemma_alerts_per_anomaly(cs: Seq<ComputedSample>)
    ensures
        alerts_of(cs).len() == anomalous(cs).len(),
        forall|k: int|
            0 <= k < alerts_of(cs).len() ==> {
                let c = #[trigger] anomalous(cs)[k];
                &&& c.anomaly is Some
                &&& alerts_of(cs)[k].0 == c.ts
                &&& alerts_of(cs)[k].1 == c.anomaly->0
                &&& alerts_of(cs)[k].2 == "Anomaly on "@ + c.interface@ + ": "@ + alert_kind_name(
                    c.anomaly->0,
                )
            },
    decreases cs.len(),
{
    reveal(Seq::filter);
    if cs.len() > 0 {
        let init = cs.drop_last();
        lemma_alerts_per_anomaly(init);
        let a0 = alerts_of(init);
        let f0 = anomalous(init);
        assert(anomalous(cs) == if cs.last().anomaly is Some {
            f0.push(cs.last())
        } else {
            f0
        });
        if cs.last().anomaly is Some {
            assert forall|k: int| 0 <= k < alerts_of(cs).len() implies {
                let c = #[trigger] anomalous(cs)[k];
                &&& c.anomaly is Some
                &&& alerts_of(cs)[k].0 == c.ts
                &&& alerts_of(cs)[k].1 == c.anomaly->0
                &&& alerts_of(cs)[k].2 == "Anomaly on "@ + c.interface@ + ": "@ + alert_kind_name(
                    c.anomaly->0,
                )
            } by {
                if k < a0.len() {
                    assert(anomalous(cs)[k] == f0[k]);
                    assert(alerts_of(cs)[k] == a0[k]);
                }
            }
        }
    }
}

/// The names of a sampling, each once, in the order of first appearance.
pub open spec fn dedup(s: Seq<Seq<char>>) -> Seq<Seq<char>>
    decreases s.len(),
{
    if s.len() == 0 {
        Seq::empty()
    } else {
        let d = dedup(s.drop_last());
        if has_name(d, s.last()) {
            d
        } else {
            d.push(s.last())
        }
    }
}

proof fn lemma_dedup(s: Seq<Seq<char>>)
    ensures
        dedup(s).no_duplicates(),
        forall|x: Seq<char>| has_name(dedup(s), x) <==> has_name(s, x),
    decreases s.len(),
{
    if s.len() > 0 {
        let init = s.drop_last();
        lemma_dedup(init);
        let d = dedup(init);
        assert forall|x: Seq<char>| has_name(dedup(s), x) <==> has_name(s, x) by {
            if has_name(s, x) {
                let k = choose|k: int| 0 <= k < s.len() && s[k] == x;
                if k < s.len() - 1 {
                    assert(init[k] == x);
                    assert(has_name(init, x));
                    let q = choose|q: int| 0 <= q < d.len() && d[q] == x;
                    if !has_name(d, s.last()) {
                        assert(d.push(s.last())[q] == x);
                    }
                } else if !has_name(d, s.last()) {
                    assert(d.push(s.last())[d.len() as int] == x);
                }
            }
            if has_name(dedup(s), x) {
                if has_name(d, s.last()) {
                    assert(has_name(init, x));
                    let k = choose|k: int| 0 <= k < init.len() && init[k] == x;
                    assert(s[k] == x);
                } else {
                    let r = d.push(s.last());
                    let q = choose|q: int| 0 <= q < r.len() && r[q] == x;
                    if q < d.len() {
                        assert(d[q] == x);
                        assert(has_name(init, x));
                        let k = choose|k: int| 0 <= k < init.len() && init[k] == x;
                        assert(s[k] == x);
                    } else {
                        assert(s[s.len() - 1] == x);
                    }
                }
            }
        }
        if !has_name(d, s.last()) {
            let r = d.push(s.last());
            assert forall|a: int, b: int| 0 <= a < r.len() && 0 <= b < r.len() && a != b implies r[a]
                != r[b] by {
                if a < d.len() && b < d.len() {
                    assert(r[a] == d[a] && r[b] == d[b]);
                } else if a < d.len() {
                    assert(r[a] == d[a]);
                } else {
                    assert(r[b] == d[b]);
                }
            }
        }
    }
}

proof fn lemma_filter_no_duplicates(s: Seq<Seq<char>>, f: spec_fn(Seq<char>) -> bool)
    requires
        s.no_duplicates(),
    ensures
        s.filter(f).no_duplicates(),
    decreases s.len(),
{
    reveal(Seq::filter);
    if s.len() > 0 {
        let init = s.drop_last();
        assert(init.no_duplicates()) by {
            assert forall|a: int, b: int| 0 <= a < init.len() && 0 <= b < init.len() && a != b
                implies init[a] != init[b] by {
                assert(init[a] == s[a] && init[b] == s[b]);
            }
        }
        lemma_filter_no_duplicates(init, f);
        let fi = init.filter(f);
        if f(s.last()) {
            let r = fi.push(s.last());
            assert(s.filter(f) == r);
            assert(!fi.contains(s.last())) by {
                if fi.contains(s.last()) {
                    init.lemma_filter_contains_rev(f, s.last());
                    let k = choose|k: int| 0 <= k < init.len() && init[k] == s.last();
                    assert(s[k] == s[s.len() - 1]);
                }
            }
            assert forall|a: int, b: int| 0 <= a < r.len() && 0 <= b < r.len() && a != b implies r[a]
                != r[b] by {
                if a < fi.len() && b < fi.len() {
                    assert(r[a] == fi[a] && r[b] == fi[b]);
                } else if a < fi.len() {
                    assert(r[a] == fi[a]);
                    assert(fi.contains(fi[a]));
                } else {
                    assert(r[b] == fi[b]);
                    assert(fi.contains(fi[b]));
                }
            }
        } else {
            assert(s.filter(f) == fi);
        }
    }
}

/// The names of a sampling, each once.
fn names_of(snapshots: &[InterfaceSnapshot]) -> (r: Vec<String>)
    ensures
        views(r@) == dedup(snapshot_names(snapshots@)),
{
    let mut current: Vec<String> = Vec::new();
    let mut i: usize = 0;
    while i < snapshots.len()
        invariant
            i <= snapshots@.len(),
            views(current@) == dedup(snapshot_names(snapshots@).take(i as int)),
        decreases snapshots@.len() - i,
    {
        let ghost before = current@;
        let ghost t = snapshot_names(snapshots@).take(i + 1);
        proof {
            assert(t.drop_last() =~= snapshot_names(snapshots@).take(i as int));
            assert(t.last() == snapshots@[i as int].name@);
        }
        if !contains_name(&current, &snapshots[i].name) {
            current.push(snapshots[i].name.clone());
            proof {
                assert(current@ == before.push(snapshots@[i as int].name));
                assert(views(current@) =~= views(before).push(snapshots@[i as int].name@));
            }
        }
        i = i + 1;
    }
    proof {
        assert(snapshot_names(snapshots@).take(snapshots@.len() as int) =~= snapshot_names(
            snapshots@,
        ));
    }
    current
}

/// One alert for each anomalous sample, in order.
fn alerts_for(computed: &Vec<ComputedSample>) -> (r: Vec<AlertRecord>)
    ensures
        alert_views(r@) == alerts_of(computed@),
{
    let mut alerts: Vec<AlertRecord> = Vec::new();
    let mut j: usize = 0;
    while j < computed.len()
        invariant
            j <= computed@.len(),
            alert_views(alerts@) == alerts_of(computed@.take(j as int)),
        decreases computed@.len() - j,
    {
        proof {
            let t = computed@.take(j + 1);
            assert(t.drop_last() =~= computed@.take(j as int));
            assert(t.last() == computed@[j as int]);
        }
        match computed[j].anomaly {
            Some(kind) => {
                let ghost before = alerts@;
                let message = anomaly_message(computed[j].interface.as_str(), kind);
                alerts.push(AlertRecord { ts: computed[j].ts, kind, message });
                proof {
                    assert(alert_views(alerts@) =~= alert_views(before).push(
                        (
                            computed@[j as int].ts,
                            kind,
                            anomaly_text(computed@[j as int].interface@, kind),
                        ),
                    ));
                }
            },
            None => {},
        }
        j = j + 1;
    }
    proof {
        assert(computed@.take(computed@.len() as int) =~= computed@);
    }
    alerts
}

/// Appends the (name, MAC) pair of each snapshot.
fn queue_macs(macs: &mut Vec<(String, Option<String>)>, snapshots: &[InterfaceSnapshot])
    ensures
        pair_views(final(macs)@) == pair_views(old(macs)@) + mac_pairs(snapshots@),
{
    let ghost macs0 = pair_views(macs@);
    let mut k: usize = 0;
    while k < snapshots.len()
        invariant
            k <= snapshots@.len(),
            pair_views(macs@) == macs0 + mac_pairs(snapshots@).take(k as int),
        decreases snapshots@.len() - k,
    {
        let ghost before = macs@;
        let mac = match &snapshots[k].mac {
            Some(m) => Some(m.clone()),
            None => None,
        };
        macs.push((snapshots[k].name.clone(), mac));
        proof {
            assert(macs@ == before.push((snapshots@[k as int].name, snapshots@[k as int].mac)));
            assert(pair_views(macs@) =~= pair_views(before).push(
                (snapshots@[k as int].name@, snapshots@[k as int].mac),
            ));
            assert(pair_views(macs@) =~= macs0 + mac_pairs(snapshots@).take(k + 1));
        }
        k = k + 1;
    }
    proof {
        assert(mac_pairs(snapshots@).take(snapshots@.len() as int) =~= mac_pairs(snapshots@));
    }
}

impl DaemonState {
    /// Every recorded reading carries a valid time.
    pub closed spec fn wf(self) -> bool {
        &&& readings_valid(self.previous@)
        &&& views(self.known@).no_duplicates()
    }

    /// The previous reading of each interface.
    pub closed spec fn previous(self) -> Map<Seq<char>, PreviousSample> {
        self.previous@
    }

    /// The interfaces of the last sampling.
    pub closed spec fn known(self) -> Seq<Seq<char>> {
        views(self.known@)
    }

    /// Samples waiting for the next batch write.
    pub closed spec fn pending_samples(self) -> Seq<ComputedSample> {
        self.pending_samples@
    }

    /// (name, MAC) pairs waiting for the next batch write.
    pub closed spec fn pending_macs(self) -> Seq<(Seq<char>, Option<String>)> {
        pair_views(self.pending_macs@)
    }

    pub fn new() -> (r: Self)
        ensures
            r.wf(),
            r.previous() == Map::<Seq<char>, PreviousSample>::empty(),
            r.known() == Seq::<Seq<char>>::empty(),
            r.pending_samples() == Seq::<ComputedSample>::empty(),
            r.pending_macs() == Seq::<(Seq<char>, Option<String>)>::empty(),
    {
        let r = DaemonState {
            previous: PreviousSamples::new(),
            known: Vec::new(),
            pending_samples: Vec::new(),
            pending_macs: Vec::new(),
        };
        assert(r.known() =~= Seq::<Seq<char>>::empty());
        assert(r.pending_macs() =~= Seq::<(Seq<char>, Option<String>)>::empty());
        r
    }

    /// Takes in one sampling: the interfaces that disappeared since the last
    /// one, the rates of each reading (queued for the next batch write with
    /// the MAC addresses seen), and an alert for each anomalous reading.
    pub fn on_sample(&mut self, snapshots: &[InterfaceSnapshot]) -> (r: SampleEvents)
        requires
            old(self).wf(),
            timestamps_valid(snapshots@),
        ensures
            final(self).wf(),
            views(r.removed@) == removed_spec(old(self).known(), snapshot_names(snapshots@)),
            views(r.removed@).no_duplicates(),
            final(self).known() == dedup(snapshot_names(snapshots@)),
            final(self).previous() == prev_after(snapshots@, old(self).previous()),
            final(self).pending_samples().len() == old(self).pending_samples().len()
                + snapshots@.len(),
            final(self).pending_samples().take(old(self).pending_samples().len() as int)
                == old(self).pending_samples(),
            forall|i: int|
                0 <= i < snapshots@.len() ==> computed_from(
                    #[trigger] final(self).pending_samples()[old(self).pending_samples().len()
                        + i],
                    snapshots@[i],
                    prev_for(snapshots@, old(self).previous(), i),
                ),
            final(self).pending_macs() == old(self).pending_macs() + mac_pairs(snapshots@),
            alert_views(r.alerts@) == alerts_of(
                final(self).pending_samples().skip(old(self).pending_samples().len() as int),
            ),
    {
        proof {
            lemma_rates_defined(snapshots@, self.previous@);
            lemma_prev_after_valid(snapshots@, self.previous@);
        }
        let current = names_of(snapshots);
        let removed = names_removed(&self.known, &current);
        proof {
            let names = snapshot_names(snapshots@);
            lemma_dedup(names);
            let f1 = |n: Seq<char>| !has_name(views(current@), n);
            let f2 = |n: Seq<char>| !has_name(names, n);
            assert(f1 =~= f2);
            assert(removed_spec(old(self).known(), views(current@)) == removed_spec(
                old(self).known(),
                names,
            ));
            lemma_filter_no_duplicates(old(self).known(), f2);
        }
        let ghost prev0 = self.previous@;
        let ghost pend0 = self.pending_samples@;
        let mut computed = self.compute(snapshots);
        let ghost comp = computed@;
        let alerts = alerts_for(&computed);
        queue_macs(&mut self.pending_macs, snapshots);
        self.pending_samples.append(&mut computed);
        proof {
            assert(self.pending_samples@ =~= pend0 + comp);
            assert(self.pending_samples@.take(pend0.len() as int) =~= pend0);
            assert(self.pending_samples@.skip(pend0.len() as int) =~= comp);
            assert forall|i: int| 0 <= i < snapshots@.len() implies computed_from(
                #[trigger] self.pending_samples@[pend0.len() + i],
                snapshots@[i],
                prev_for(snapshots@, prev0, i),
            ) by {
                assert(self.pending_samples@[pend0.len() + i] == comp[i]);
            }
        }
        self.known = current;
        SampleEvents { removed, alerts }
    }

    fn compute(&mut self, snapshots: &[InterfaceSnapshot]) -> (r: Vec<ComputedSample>)
        requires
            readings_valid(old(self).previous@),
            timestamps_valid(snapshots@),
        ensures
            r@.len() == snapshots@.len(),
            forall|i: int|
                0 <= i < snapshots@.len() ==> computed_from(
                    #[trigger] r@[i],
                    snapshots@[i],
                    prev_for(snapshots@, old(self).previous@, i),
                ),
            final(self).previous@ == prev_after(snapshots@, old(self).previous@),
            final(self).known == old(self).known,
            final(self).pending_samples == old(self).pending_samples,
            final(self).pending_macs == old(self).pending_macs,
    {
        proof {
            lemma_rates_defined(snapshots@, self.previous@);
            lemma_prev_after_valid(snapshots@, self.previous@);
        }
        let mut prev = PreviousSamples::new();
        std::mem::swap(&mut prev, &mut self.previous);
        let r = compute_samples(snapshots, &mut prev);
        std::mem::swap(&mut prev, &mut self.previous);
        r
    }

    /// Hands over what waits for the batch write and starts a new batch.
    pub fn take_pending(&mut self) -> (r: (Vec<ComputedSample>, Vec<(String, Option<String>)>))
        ensures
            final(self).wf() == old(self).wf(),
            r.0@ == old(self).pending_samples(),
            pair_views(r.1@) == old(self).pending_macs(),
            final(self).pending_samples() == Seq::<ComputedSample>::empty(),
            final(self).pending_macs() == Seq::<(Seq<char>, Option<String>)>::empty(),
            final(self).previous() == old(self).previous(),
            final(self).known() == old(self).known(),
    {
        let mut samples: Vec<ComputedSample> = Vec::new();
        let mut macs: Vec<(String, Option<String>)> = Vec::new();
        std::mem::swap(&mut samples, &mut self.pending_samples);
        std::mem::swap(&mut macs, &mut self.pending_macs);
        assert(pair_views(self.pending_macs@) =~= Seq::<(Seq<char>, Option<String>)>::empty());
        (samples, macs)
    }
}

} // verus!
