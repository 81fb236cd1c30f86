//! Transfer rates from successive counter readings, and human-readable
//! amounts.
use vstd::prelude::*;
use crate::config::Units;
use crate::text::{dec, digit_char, push_char, push_decimal, push_str};
use crate::types::{AlertKind, InterfaceSnapshot};

verus! {

/// The counters of an interface at its previous reading.
#[derive(Debug, Clone, Copy, PartialEq, Eq, Structural)]
pub struct PreviousSample {
    pub ts: i64,
    pub rx_bytes: u64,
    pub tx_bytes: u64,
}

impl Default for PreviousSample {
    fn default() -> (r: Self)
        ensures
            r == (PreviousSample { ts: 0, rx_bytes: 0, tx_bytes: 0 }),
    {
        PreviousSample { ts: 0, rx_bytes: 0, tx_bytes: 0 }
    }
}

/// Rates of one interface between two readings, in bytes per second.
#[derive(Debug, Clone, Copy, PartialEq, Eq, Structural)]
pub struct RateSample {
    pub rx_rate: u64,
    pub tx_rate: u64,
    pub anomaly: Option<AlertKind>,
}

/// A reading with the rates computed against the previous one.
#[derive(Debug, Clone)]
pub struct ComputedSample {
    pub interface: String,
    pub ts: i64,
    pub rx_bytes: u64,
    pub tx_bytes: u64,
    pub rx_rate: u64,
    pub tx_rate: u64,
    pub anomaly: Option<AlertKind>,
}

/// Bytes moved between two counter values. A counter that went down was
/// reset or wrapped: the new value counts as the amount, and the reading is
/// an overflow anomaly.
pub open spec fn byte_delta_spec(prev: u64, curr: u64) -> (u64, Option<AlertKind>) {
    if curr >= prev {
        ((curr - prev) as u64, None)
    } else {
        (curr, Some(AlertKind::CounterOverflow))
    }
}

/// Whether the time since the previous reading fits in `i64`.
pub open spec fn rate_defined(prev: Option<PreviousSample>, ts: i64) -> bool {
    match prev {
        Some(p) => ts >= p.ts ==> ts - p.ts <= i64::MAX,
        None => true,
    }
}

/// Rates of a reading at `ts` with counters `rx`, `tx` against the previous
/// reading: none without one, zero with a clock-jump anomaly when time went
/// backwards, else the byte deltas over the elapsed seconds (at least one).
pub open spec fn rate_spec(prev: Option<PreviousSample>, ts: i64, rx: u64, tx: u64) -> RateSample {
    match prev {
        None => RateSample { rx_rate: 0, tx_rate: 0, anomaly: None },
        Some(p) => if ts < p.ts {
            RateSample { rx_rate: 0, tx_rate: 0, anomaly: Some(AlertKind::ClockJump) }
        } else {
            let dt = if ts - p.ts >= 1 {
                ts - p.ts
            } else {
                1
            };
            let (rd, ra) = byte_delta_spec(p.rx_bytes, rx);
            let (td, ta) = byte_delta_spec(p.tx_bytes, tx);
            RateSample {
                rx_rate: (rd as int / dt) as u64,
                tx_rate: (td as int / dt) as u64,
                anomaly: if ra is Some {
                    ra
                } else {
                    ta
                },
            }
        },
    }
}

fn byte_delta(prev: u64, curr: u64) -> (r: (u64, Option<AlertKind>))
    ensures
        r == byte_delta_spec(prev, curr),
{
    if curr >= prev {
        (curr - prev, None)
    } else {
        (curr, Some(AlertKind::CounterOverflow))
    }
}

pub fn compute_rate(prev: Option<&PreviousSample>, snapshot: &InterfaceSnapshot) -> (r:
    RateSample)
    requires
        rate_defined(
            match prev {
                Some(p) => Some(*p),
                None => None,
            },
            snapshot.timestamp,
        ),
    ensures
        r == rate_spec(
            match prev {
                Some(p) => Some(*p),
                None => None,
            },
            snapshot.timestamp,
            snapshot.rx_bytes,
            snapshot.tx_bytes,
        ),
{
    let ts = snapshot.timestamp;
    let prev = match prev {
        Some(p) => p,
        None => {
            return RateSample { rx_rate: 0, tx_rate: 0, anomaly: None };
        },
    };
    if ts < prev.ts {
        return RateSample { rx_rate: 0, tx_rate: 0, anomaly: Some(AlertKind::ClockJump) };
    }
    let gap = ts - prev.ts;
    let dt: u64 = if gap >= 1 {
        gap as u64
    } else {
        1
    };
    let (rx_delta, rx_anomaly) = byte_delta(prev.rx_bytes, snapshot.rx_bytes);
    let (tx_delta, tx_anomaly) = byte_delta(prev.tx_bytes, snapshot.tx_bytes);
    let anomaly = match rx_anomaly {
        Some(a) => Some(a),
        None => tx_anomaly,
    };
    RateSample { rx_rate: rx_delta / dt, tx_rate: tx_delta / dt, anomaly }
}

/// A rate never exceeds the bytes moved since the previous reading; with
/// both counters grown and time gone forward, the reading is no anomaly;
/// without a previous reading there is neither rate nor anomaly.
pub proof fn lemma_rate_bounded(prev: Option<PreviousSample>, ts: i64, rx: u64, tx: u64)
    ensures
        prev is None ==> rate_spec(prev, ts, rx, tx) == (RateSample {
            rx_rate: 0,
            tx_rate: 0,
            anomaly: None,
        }),
        prev matches Some(p) ==> ts >= p.ts ==> {
            &&& rate_spec(prev, ts, rx, tx).rx_rate <= byte_delta_spec(p.rx_bytes, rx).0
            &&& rate_spec(prev, ts, rx, tx).tx_rate <= byte_delta_spec(p.tx_bytes, tx).0
        },
        prev matches Some(p) ==> (ts >= p.ts && rx >= p.rx_bytes && tx >= p.tx_bytes) ==> rate_spec(
            prev,
            ts,
            rx,
            tx,
        ).anomaly is None,
{
    if let Some(p) = prev {
        if ts >= p.ts {
            let dt: int = if ts - p.ts >= 1 {
                ts - p.ts
            } else {
                1
            };
            let rd = byte_delta_spec(p.rx_bytes, rx).0 as int;
            let td = byte_delta_spec(p.tx_bytes, tx).0 as int;
            assert(rd / dt <= rd) by (nonlinear_arith)
                requires
                    dt >= 1,
                    rd >= 0,
            ;
            assert(td / dt <= td) by (nonlinear_arith)
                requires
                    dt >= 1,
                    td >= 0,
            ;
        }
    }
}

/// The previous reading of each interface, by name.
pub struct PreviousSamples {
    entries: Vec<(String, PreviousSample)>,
}

pub open spec fn names_distinct(e: Seq<(String, PreviousSample)>) -> bool {
    forall|i: int, j: int|
        0 <= i < e.len() && 0 <= j < e.len() && i != j ==> (#[trigger] e[i]).0@ != (
        #[trigger] e[j]).0@
}

/// The map that a list of (name, reading) entries stands for.
pub open spec fn map_of(e: Seq<(String, PreviousSample)>) -> Map<Seq<char>, PreviousSample>
    decreases e.len(),
{
    if e.len() == 0 {
        Map::empty()
    } else {
        map_of(e.drop_last()).insert(e.last().0@, e.last().1)
    }
}

/// The value a map holds for `k`, if any.
pub open spec fn lookup(m: Map<Seq<char>, PreviousSample>, k: Seq<char>) -> Option<
    PreviousSample,
> {
    if m.dom().contains(k) {
        Some(m[k])
    } else {
        None
    }
}

proof fn lemma_map_of(e: Seq<(String, PreviousSample)>, k: Seq<char>)
    requires
        names_distinct(e),
    ensures
        map_of(e).dom().finite(),
        map_of(e).dom().contains(k) <==> exists|i: int| 0 <= i < e.len() && (#[trigger] e[i]).0@ == k,
        forall|i: int| 0 <= i < e.len() && (#[trigger] e[i]).0@ == k ==> map_of(e)[k] == e[i].1,
    decreases e.len(),
{
    if e.len() > 0 {
        let d = e.drop_last();
        assert(names_distinct(d)) by {
            assert forall|i: int, j: int|
                0 <= i < d.len() && 0 <= j < d.len() && i != j implies (#[trigger] d[i]).0@ != (
                #[trigger] d[j]).0@ by {
                assert(d[i] == e[i] && d[j] == e[j]);
            }
        }
        lemma_map_of(d, k);
        if map_of(e).dom().contains(k) && e.last().0@ != k {
            let i = choose|i: int| 0 <= i < d.len() && (#[trigger] d[i]).0@ == k;
            assert(e[i] == d[i]);
        }
        if exists|i: int| 0 <= i < e.len() && (#[trigger] e[i]).0@ == k {
            let i = choose|i: int| 0 <= i < e.len() && (#[trigger] e[i]).0@ == k;
            if i < e.len() - 1 {
                assert(d[i] == e[i]);
            }
        }
        assert forall|i: int| 0 <= i < e.len() && (#[trigger] e[i]).0@ == k implies map_of(e)[k]
            == e[i].1 by {
            if i < e.len() - 1 {
                assert(d[i] == e[i]);
                assert(e[e.len() - 1].0@ != k);
            }
        }
    }
}

proof fn lemma_map_of_update(e: Seq<(String, PreviousSample)>, i: int, x: (String, PreviousSample))
    requires
        names_distinct(e),
        0 <= i < e.len(),
        x.0@ == e[i].0@,
    ensures
        names_distinct(e.update(i, x)),
        map_of(e.update(i, x)) == map_of(e).insert(x.0@, x.1),
{
    let u = e.update(i, x);
    assert(names_distinct(u)) by {
        assert forall|a: int, b: int|
            0 <= a < u.len() && 0 <= b < u.len() && a != b implies (#[trigger] u[a]).0@ != (
            #[trigger] u[b]).0@ by {
            assert(u[a].0@ == e[a].0@);
            assert(u[b].0@ == e[b].0@);
        }
    }
    assert forall|k: Seq<char>| #[trigger] map_of(u).dom().contains(k) <==> map_of(e).insert(
        x.0@,
        x.1,
    ).dom().contains(k) by {
        lemma_map_of(u, k);
        lemma_map_of(e, k);
        if exists|j: int| 0 <= j < e.len() && (#[trigger] e[j]).0@ == k {
            let j = choose|j: int| 0 <= j < e.len() && (#[trigger] e[j]).0@ == k;
            assert(u[j].0@ == k);
        }
        if exists|j: int| 0 <= j < u.len() && (#[trigger] u[j]).0@ == k {
            let j = choose|j: int| 0 <= j < u.len() && (#[trigger] u[j]).0@ == k;
            assert(e[j].0@ == k);
        }
    }
    assert forall|k: Seq<char>| #[trigger] map_of(u).dom().contains(k) implies map_of(u)[k]
        == map_of(e).insert(x.0@, x.1)[k] by {
        lemma_map_of(u, k);
        lemma_map_of(e, k);
        let j = choose|j: int| 0 <= j < u.len() && (#[trigger] u[j]).0@ == k;
        if j != i {
            assert(e[j] == u[j]);
        }
    }
    assert(map_of(u) =~= map_of(e).insert(x.0@, x.1));
}

impl View for PreviousSamples {
    type V = Map<Seq<char>, PreviousSample>;

    closed spec fn view(&self) -> Map<Seq<char>, PreviousSample> {
        map_of(self.entries@)
    }
}

impl PreviousSamples {
    #[verifier::type_invariant]
    spec fn distinct(self) -> bool {
        names_distinct(self.entries@)
    }

    pub fn new() -> (r: Self)
        ensures
            r@ == Map::<Seq<char>, PreviousSample>::empty(),
    {
        PreviousSamples { entries: Vec::new() }
    }

    /// The previous reading of the interface `name`.
    pub fn get(&self, name: &String) -> (r: Option<PreviousSample>)
        ensures
            r == lookup(self@, name@),
    {
        proof {
            use_type_invariant(self);
            lemma_map_of(self.entries@, name@);
        }
        let mut i: usize = 0;
        while i < self.entries.len()
            invariant
                i <= self.entries@.len(),
                names_distinct(self.entries@),
                forall|j: int| 0 <= j < i ==> (#[trigger] self.entries@[j]).0@ != name@,
            decreases self.entries@.len() - i,
        {
            if self.entries[i].0 == *name {
                proof {
                    lemma_map_of(self.entries@, name@);
                    assert(self.entries@[i as int].0@ == name@);
                }
                return Some(self.entries[i].1);
            }
            i = i + 1;
        }
        None
    }

    /// Records `sample` as the previous reading of `name`.
    pub fn insert(&mut self, name: String, sample: PreviousSample)
        ensures
            final(self)@ == old(self)@.insert(name@, sample),
    {
        proof {
            use_type_invariant(&*self);
        }
        let mut i: usize = 0;
        while i < self.entries.len()
            invariant
                i <= self.entries@.len(),
                names_distinct(self.entries@),
                self.entries@ == old(self).entries@,
                forall|j: int| 0 <= j < i ==> (#[trigger] self.entries@[j]).0@ != name@,
            decreases self.entries@.len() - i,
        {
            if self.entries[i].0 == name {
                proof {
                    lemma_map_of_update(self.entries@, i as int, (name, sample));
                }
                let mut e: Vec<(String, PreviousSample)> = Vec::new();
                std::mem::swap(&mut e, &mut self.entries);
                e.set(i, (name, sample));
                self.entries = e;
                return;
            }
            i = i + 1;
        }
        proof {
            let e = self.entries@;
            let p = e.push((name, sample));
            assert(p.drop_last() =~= e);
            assert(names_distinct(p)) by {
                assert forall|a: int, b: int|
                    0 <= a < p.len() && 0 <= b < p.len() && a != b implies (#[trigger] p[a]).0@
                    != (#[trigger] p[b]).0@ by {
                    if a < e.len() {
                        assert(p[a] == e[a]);
                    }
                    if b < e.len() {
                        assert(p[b] == e[b]);
                    }
                }
            }
        }
        let mut e: Vec<(String, PreviousSample)> = Vec::new();
        std::mem::swap(&mut e, &mut self.entries);
        e.push((name, sample));
        self.entries = e;
    }
}

/// The previous-reading record that a snapshot leaves.
pub open spec fn prev_of(s: InterfaceSnapshot) -> PreviousSample {
    PreviousSample { ts: s.timestamp, rx_bytes: s.rx_bytes, tx_bytes: s.tx_bytes }
}

/// The previous readings after processing `snaps` in order, starting from `m`.
pub open spec fn prev_after(snaps: Seq<InterfaceSnapshot>, m: Map<Seq<char>, PreviousSample>) -> Map<
    Seq<char>,
    PreviousSample,
>
    decreases snaps.len(),
{
    if snaps.len() == 0 {
        m
    } else {
        prev_after(snaps.drop_last(), m).insert(snaps.last().name@, prev_of(snaps.last()))
    }
}

/// `c` is the computed sample of snapshot `s` against the previous reading `p`.
pub open spec fn computed_from(c: ComputedSample, s: InterfaceSnapshot, p: Option<PreviousSample>) -> bool {
    let rate = rate_spec(p, s.timestamp, s.rx_bytes, s.tx_bytes);
    &&& c.interface@ == s.name@
    &&& c.ts == s.timestamp
    &&& c.rx_bytes == s.rx_bytes
    &&& c.tx_bytes == s.tx_bytes
    &&& c.rx_rate == rate.rx_rate
    &&& c.tx_rate == rate.tx_rate
    &&& c.anomaly == rate.anomaly
}

/// The previous reading that snapshot `i` of `snaps` is compared against.
pub open spec fn prev_for(snaps: Seq<InterfaceSnapshot>, m: Map<Seq<char>, PreviousSample>, i: int) -> Option<
    PreviousSample,
> {
    lookup(prev_after(snaps.take(i), m), snaps[i].name@)
}

/// Computes the rates of each snapshot against the previous reading of its
/// interface, recording each snapshot as the new previous reading.
pub fn compute_samples(snapshots: &[InterfaceSnapshot], previous: &mut PreviousSamples) -> (r: Vec<
    ComputedSample,
>)
    requires
        forall|i: int|
            0 <= i < snapshots@.len() ==> rate_defined(
                prev_for(snapshots@, old(previous)@, i),
                (#[trigger] snapshots@[i]).timestamp,
            ),
    ensures
        r@.len() == snapshots@.len(),
        forall|i: int|
            0 <= i < snapshots@.len() ==> computed_from(
                #[trigger] r@[i],
                snapshots@[i],
                prev_for(snapshots@, old(previous)@, i),
            ),
        final(previous)@ == prev_after(snapshots@, old(previous)@),
{
    let ghost m0 = previous@;
    let mut out: Vec<ComputedSample> = Vec::new();
    let mut i: usize = 0;
    while i < snapshots.len()
        invariant
            i <= snapshots@.len(),
            out@.len() == i,
            previous@ == prev_after(snapshots@.take(i as int), m0),
            forall|j: int|
                0 <= j < snapshots@.len() ==> rate_defined(
                    prev_for(snapshots@, m0, j),
                    (#[trigger] snapshots@[j]).timestamp,
                ),
            forall|j: int|
                0 <= j < i ==> computed_from(
                    #[trigger] out@[j],
                    snapshots@[j],
                    prev_for(snapshots@, m0, j),
                ),
        decreases snapshots@.len() - i,
    {
        let snap = &snapshots[i];
        let prev = previous.get(&snap.name);
        let rate = match prev {
            Some(p) => compute_rate(Some(&p), snap),
            None => compute_rate(None, snap),
        };
        previous.insert(
            snap.name.clone(),
            PreviousSample { ts: snap.timestamp, rx_bytes: snap.rx_bytes, tx_bytes: snap.tx_bytes },
        );
        proof {
            assert(snapshots@.take(i + 1).drop_last() =~= snapshots@.take(i as int));
        }
        out.push(
            ComputedSample {
                interface: snap.name.clone(),
                ts: snap.timestamp,
                rx_bytes: snap.rx_bytes,
                tx_bytes: snap.tx_bytes,
                rx_rate: rate.rx_rate,
                tx_rate: rate.tx_rate,
                anomaly: rate.anomaly,
            },
        );
        i = i + 1;
    }
    proof {
        assert(snapshots@.take(snapshots@.len() as int) =~= snapshots@);
    }
    out
}

/// Index of the last snapshot of interface `k` in `snaps`, or -1.
pub open spec fn last_index_of(snaps: Seq<InterfaceSnapshot>, k: Seq<char>) -> int
    decreases snaps.len(),
{
    if snaps.len() == 0 {
        -1
    } else if snaps.last().name@ == k {
        snaps.len() - 1
    } else {
        last_index_of(snaps.drop_last(), k)
    }
}

/// After a batch, the previous reading of every interface in the batch is
/// its last snapshot there, and every other interface keeps its reading.
pub proof fn lemma_previous_after_batch(
    snaps: Seq<InterfaceSnapshot>,
    m: Map<Seq<char>, PreviousSample>,
    k: Seq<char>,
)
    ensures
        last_index_of(snaps, k) >= 0 ==> lookup(prev_after(snaps, m), k) == Some(
            prev_of(snaps[last_index_of(snaps, k)]),
        ),
        last_index_of(snaps, k) < 0 ==> lookup(prev_after(snaps, m), k) == lookup(m, k),
    decreases snaps.len(),
{
    if snaps.len() > 0 {
        lemma_previous_after_batch(snaps.drop_last(), m, k);
        if snaps.last().name@ != k {
            let l = last_index_of(snaps.drop_last(), k);
            if l >= 0 {
                lemma_last_index_bound(snaps.drop_last(), k);
                assert(snaps.drop_last()[l] == snaps[l]);
            }
        }
    }
}

proof fn lemma_last_index_bound(snaps: Seq<InterfaceSnapshot>, k: Seq<char>)
    ensures
        -1 <= last_index_of(snaps, k) < snaps.len(),
    decreases snaps.len(),
{
    if snaps.len() > 0 {
        lemma_last_index_bound(snaps.drop_last(), k);
    }
}

/// `value * 8`, or `u64::MAX` where that does not fit.
pub open spec fn bits_of(value: u64) -> u64 {
    if value * 8 <= u64::MAX {
        (value * 8) as u64
    } else {
        u64::MAX
    }
}

/// Exponent and value of the largest power of `base`, up to the sixth, that
/// is not above `value` (exponent 0 when `value < base`), searching from
/// `base^k == p`.
pub open spec fn unit_of(value: nat, base: nat, k: nat, p: nat) -> (nat, nat)
    decreases 6 - k,
{
    if k < 6 && p * base <= value {
        unit_of(value, base, k + 1, p * base)
    } else {
        (k, p)
    }
}

proof fn lemma_unit_of_from(value: nat, base: nat, k: nat, p: nat)
    requires
        base >= 2,
        k <= 6,
        p == vstd::arithmetic::power::pow(base as int, k),
        k > 0 ==> p <= value,
    ensures
        unit_of(value, base, k, p).0 <= 6,
        unit_of(value, base, k, p).1 == vstd::arithmetic::power::pow(
            base as int,
            unit_of(value, base, k, p).0,
        ),
        unit_of(value, base, k, p).0 > 0 ==> unit_of(value, base, k, p).1 <= value,
        unit_of(value, base, k, p).0 < 6 ==> value < unit_of(value, base, k, p).1 * base,
    decreases 6 - k,
{
    if k < 6 && p * base <= value {
        assert(vstd::arithmetic::power::pow(base as int, k + 1) == base * p) by {
            reveal(vstd::arithmetic::power::pow);
        }
        assert(p * base == base * p) by (nonlinear_arith);
        lemma_unit_of_from(value, base, k + 1, p * base);
    }
}

/// The unit an amount is shown in is the largest power of the base, up to
/// the sixth (exa), that is not above it: the amount is at least one of
/// that unit (or is shown in plain bytes or bits), and below one of the
/// next unit unless the unit is the largest.
pub proof fn lemma_unit_choice(value: nat, base: nat)
    requires
        base >= 2,
    ensures
        unit_of(value, base, 0, 1).0 <= 6,
        unit_of(value, base, 0, 1).1 == vstd::arithmetic::power::pow(
            base as int,
            unit_of(value, base, 0, 1).0,
        ),
        unit_of(value, base, 0, 1).0 > 0 ==> unit_of(value, base, 0, 1).1 <= value,
        unit_of(value, base, 0, 1).0 < 6 ==> value < unit_of(value, base, 0, 1).1 * base,
{
    assert(vstd::arithmetic::power::pow(base as int, 0) == 1) by {
        reveal(vstd::arithmetic::power::pow);
    }
    lemma_unit_of_from(value, base, 0, 1);
}

/// From a gibibyte on, `Bytes` shows a different text than automatic units:
/// megabytes against the larger unit that automatic units pick.
pub proof fn lemma_bytes_units_differ(v: u64)
    requires
        v >= 1073741824,
    ensures
        bytes_text(v, Units::Bytes) != bytes_text(v, Units::Auto),
{
    lemma_unit_choice(v as nat, 1024);
    let (k, p) = unit_of(v as nat, 1024, 0, 1);
    assert(k >= 3) by {
        reveal(vstd::arithmetic::power::pow);
        if k < 3 {
            assert(vstd::arithmetic::power::pow(1024, 0) == 1);
            assert(vstd::arithmetic::power::pow(1024, 1) == 1024);
            assert(vstd::arithmetic::power::pow(1024, 2) == 1048576);
            assert(p * 1024 <= 1073741824);
        }
    }
    reveal_strlit("MB");
    reveal_strlit("GB");
    reveal_strlit("TB");
    reveal_strlit("PB");
    reveal_strlit("EB");
    reveal_strlit(" ");
    let a = bytes_text(v, Units::Bytes);
    let b = bytes_text(v, Units::Auto);
    let pa = dec(v as nat / 1048576) + "."@ + two_digits((v as nat % 1048576) * 100 / 1048576);
    assert(a == pa + " "@ + "MB"@);
    assert(a[a.len() - 2] == 'M');
    let suffix = size_suffix(k);
    let pb = dec(v as nat / p) + "."@ + two_digits((v as nat % p) * 100 / p);
    assert(b == pb + " "@ + suffix);
    assert(suffix.len() == 2);
    assert(b[b.len() - 2] == suffix[0]);
    assert(suffix[0] != 'M');
}

/// Suffixes of the byte units.
pub open spec fn size_suffix(k: nat) -> Seq<char> {
    if k == 0 {
        "B"@
    } else if k == 1 {
        "KB"@
    } else if k == 2 {
        "MB"@
    } else if k == 3 {
        "GB"@
    } else if k == 4 {
        "TB"@
    } else if k == 5 {
        "PB"@
    } else {
        "EB"@
    }
}

/// Suffixes of the bit units.
pub open spec fn bit_suffix(k: nat) -> Seq<char> {
    if k == 0 {
        "b"@
    } else if k == 1 {
        "Kb"@
    } else if k == 2 {
        "Mb"@
    } else if k == 3 {
        "Gb"@
    } else if k == 4 {
        "Tb"@
    } else if k == 5 {
        "Pb"@
    } else {
        "Eb"@
    }
}

/// Two decimal digits of `n < 100`.
pub open spec fn two_digits(n: nat) -> Seq<char> {
    seq![digit_char(n / 10), digit_char(n % 10)]
}

/// `value` in the largest unit of `base` not above it: whole units, then two
/// truncated decimals unless the unit is the smallest one, then the suffix.
pub open spec fn scaled_text(value: nat, base: nat, suffix: Seq<char>, k: nat, p: nat) -> Seq<char> {
    if k == 0 {
        dec(value) + " "@ + suffix
    } else {
        dec(value / p) + "."@ + two_digits((value % p) * 100 / p) + " "@ + suffix
    }
}

pub open spec fn size_text(value: u64) -> Seq<char> {
    let (k, p) = unit_of(value as nat, 1024, 0, 1);
    scaled_text(value as nat, 1024, size_suffix(k), k, p)
}

pub open spec fn bits_text(value: u64) -> Seq<char> {
    let (k, p) = unit_of(value as nat, 1000, 0, 1);
    scaled_text(value as nat, 1000, bit_suffix(k), k, p)
}

/// An amount in megabytes (MiB), with two truncated decimals, whatever its
/// size.
pub open spec fn megabytes_text(value: u64) -> Seq<char> {
    scaled_text(value as nat, 1024, "MB"@, 2, 1048576)
}

/// The text for an amount of bytes in the chosen units: automatic units
/// pick the largest binary unit not above the amount, `Bytes` always shows
/// megabytes, `Bits` the bits in decimal units.
pub open spec fn bytes_text(value: u64, units: Units) -> Seq<char> {
    match units {
        Units::Bits => bits_text(bits_of(value)),
        Units::Bytes => megabytes_text(value),
        Units::Auto => size_text(value),
    }
}

/// The text for a rate in bytes per second: `Bytes` always shows plain
/// bytes per second, the other units the amount's text per second.
pub open spec fn rate_text(value: u64, units: Units) -> Seq<char> {
    match units {
        Units::Bytes => dec(value as nat) + " B/s"@,
        _ => bytes_text(value, units) + "/s"@,
    }
}

fn size_suffix_str(k: u64) -> (r: &'static str)
    ensures
        r@ == size_suffix(k as nat),
{
    if k == 0 {
        "B"
    } else if k == 1 {
        "KB"
    } else if k == 2 {
        "MB"
    } else if k == 3 {
        "GB"
    } else if k == 4 {
        "TB"
    } else if k == 5 {
        "PB"
    } else {
        "EB"
    }
}

fn bit_suffix_str(k: u64) -> (r: &'static str)
    ensures
        r@ == bit_suffix(k as nat),
{
    if k == 0 {
        "b"
    } else if k == 1 {
        "Kb"
    } else if k == 2 {
        "Mb"
    } else if k == 3 {
        "Gb"
    } else if k == 4 {
        "Tb"
    } else if k == 5 {
        "Pb"
    } else {
        "Eb"
    }
}

fn format_scaled(value: u64, base: u64, bits: bool) -> (r: String)
    requires
        base == 1024 || base == 1000,
    ensures
        bits ==> r@ == scaled_text(
            value as nat,
            base as nat,
            bit_suffix(unit_of(value as nat, base as nat, 0, 1).0),
            unit_of(value as nat, base as nat, 0, 1).0,
            unit_of(value as nat, base as nat, 0, 1).1,
        ),
        !bits ==> r@ == scaled_text(
            value as nat,
            base as nat,
            size_suffix(unit_of(value as nat, base as nat, 0, 1).0),
            unit_of(value as nat, base as nat, 0, 1).0,
            unit_of(value as nat, base as nat, 0, 1).1,
        ),
{
    let mut k: u64 = 0;
    let mut p: u64 = 1;
    while k < 6 && (p as u128) * (base as u128) <= value as u128
        invariant
            base == 1024 || base == 1000,
            k <= 6,
            1 <= p,
            k == 0 || p <= value,
            unit_of(value as nat, base as nat, 0, 1) == unit_of(value as nat, base as nat, k as nat, p as nat),
        decreases 6 - k,
    {
        p = p * base;
        k = k + 1;
    }
    let suffix = if bits {
        bit_suffix_str(k)
    } else {
        size_suffix_str(k)
    };
    let mut out = String::new();
    if k == 0 {
        push_decimal(&mut out, value);
        push_str(&mut out, " ");
        push_str(&mut out, suffix);
    } else {
        push_decimal(&mut out, value / p);
        push_str(&mut out, ".");
        let frac: u64 = (((value % p) as u128) * 100 / (p as u128)) as u64;
        proof {
            assert(((value % p) as int) * 100 / (p as int) < 100) by (nonlinear_arith)
                requires
                    p >= 1,
                    value % p < p,
            ;
        }
        push_char(&mut out, digit_char_of(frac / 10));
        push_char(&mut out, digit_char_of(frac % 10));
        push_str(&mut out, " ");
        push_str(&mut out, suffix);
    }
    assert(out@ =~= scaled_text(value as nat, base as nat, suffix@, k as nat, p as nat));
    out
}

/// An amount in megabytes, two decimals truncated.
pub fn format_megabytes(value: u64) -> (r: String)
    ensures
        r@ == megabytes_text(value),
{
    let p: u64 = 1048576;
    let mut out = String::new();
    push_decimal(&mut out, value / p);
    push_str(&mut out, ".");
    let frac: u64 = (((value % p) as u128) * 100 / (p as u128)) as u64;
    proof {
        assert(((value % p) as int) * 100 / (p as int) < 100) by (nonlinear_arith)
            requires
                p >= 1,
                value % p < p,
        ;
    }
    push_char(&mut out, digit_char_of(frac / 10));
    push_char(&mut out, digit_char_of(frac % 10));
    push_str(&mut out, " ");
    push_str(&mut out, "MB");
    assert(out@ =~= megabytes_text(value));
    out
}

fn digit_char_of(d: u64) -> (c: char)
    requires
        d < 10,
    ensures
        c == digit_char(d as nat),
{
    let v: u8 = 48u8 + (d as u8);
    v as char
}

/// Bytes in the largest binary unit not above them (`B`, `KB`, ... `EB`).
pub fn format_size(value: u64) -> (r: String)
    ensures
        r@ == size_text(value),
{
    format_scaled(value, 1024, false)
}

/// Bits in the largest decimal unit not above them (`b`, `Kb`, ... `Eb`).
pub fn format_bits(value: u64) -> (r: String)
    ensures
        r@ == bits_text(value),
{
    format_scaled(value, 1000, true)
}

pub fn format_bytes(value: u64, units: Units) -> (r: String)
    ensures
        r@ == bytes_text(value, units),
{
    match units {
        Units::Bits => {
            let bits = match value.checked_mul(8) {
                Some(b) => b,
                None => u64::MAX,
            };
            format_bits(bits)
        },
        Units::Bytes => format_megabytes(value),
        Units::Auto => format_size(value),
    }
}

/// A rate: plain bytes per second for `Bytes`, else the amount per second.
pub fn format_rate(value: u64, units: Units) -> (r: String)
    ensures
        r@ == rate_text(value, units),
{
    match units {
        Units::Bytes => {
            let mut s = String::new();
            push_decimal(&mut s, value);
            push_str(&mut s, " B/s");
            s
        },
        _ => {
            let mut s = format_bytes(value, units);
            push_str(&mut s, "/s");
            s
        },
    }
}

} // verus!
