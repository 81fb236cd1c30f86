//! Records kept in the statistics database, and the decisions taken on the
//! values read from it.
use vstd::prelude::*;
use crate::text::{push_str, push_char};
use crate::types::AlertKind;
use crate::time::{TimeRange, in_utc_range, day_floor, month_floor, year_floor, start_of_day,
    start_of_month, utc_date_of, utc_midnight_of, valid_timestamp};

verus! {

#[derive(Debug, Clone)]
pub struct InterfaceRow {
    pub id: i64,
    pub name: String,
    pub mac: Option<String>,
    pub first_seen: i64,
    pub last_seen: i64,
}

#[derive(Debug, Clone, Copy, PartialEq, Eq, Structural)]
pub struct SampleRow {
    pub ts: i64,
    pub interface_id: i64,
    pub rx_bytes: i64,
    pub tx_bytes: i64,
    pub rx_rate: Option<i64>,
    pub tx_rate: Option<i64>,
}

#[derive(Debug, Clone, Copy, PartialEq, Eq, Structural)]
pub struct AggregatedRow {
    pub ts: i64,
    pub interface_id: i64,
    pub rx_bytes: i64,
    pub tx_bytes: i64,
    pub rx_rate_avg: i64,
    pub tx_rate_avg: i64,
    pub rx_rate_max: i64,
    pub tx_rate_max: i64,
}

#[derive(Debug, Clone)]
pub struct AlertRow {
    pub id: i64,
    pub ts: i64,
    pub kind: String,
    pub message: String,
    pub acknowledged: i64,
}

#[derive(Debug, Clone)]
pub struct InterfaceStats {
    pub id: i64,
    pub name: String,
    pub mac: Option<String>,
    pub operstate: String,
    pub download: u64,
    pub upload: u64,
    pub rx_rate: u64,
    pub tx_rate: u64,
}

#[derive(Debug, Clone, Copy, PartialEq, Eq, Structural)]
pub struct Totals {
    pub download: u64,
    pub upload: u64,
    pub rx_rate: u64,
    pub tx_rate: u64,
}

impl Default for Totals {
    fn default() -> (r: Self)
        ensures
            r == (Totals { download: 0, upload: 0, rx_rate: 0, tx_rate: 0 }),
    {
        Totals { download: 0, upload: 0, rx_rate: 0, tx_rate: 0 }
    }
}

/// What the daemon last recorded of itself (`last_heartbeat` in Unix seconds).
#[derive(Debug, Clone, Copy, PartialEq, Eq, Structural)]
pub struct DaemonStatus {
    pub running: bool,
    pub pid: Option<i64>,
    pub last_heartbeat: Option<i64>,
    pub sample_interval: Option<u64>,
}

#[derive(Debug, Clone)]
pub struct HistoryEntry {
    pub date: String,
    pub download: u64,
    pub upload: u64,
    pub total: u64,
    pub peak_download: u64,
    pub peak_upload: u64,
}

#[derive(Debug, Clone, Copy, PartialEq, Eq, Structural)]
pub struct GraphPoint {
    pub ts: i64,
    pub rx_rate: u64,
    pub tx_rate: u64,
}

#[derive(Debug, Clone)]
pub struct InterfaceDetail {
    pub name: String,
    pub current_rx_rate: u64,
    pub current_tx_rate: u64,
    pub peak_rx_rate: u64,
    pub peak_tx_rate: u64,
    pub avg_rx_rate: u64,
    pub avg_tx_rate: u64,
    pub today_download: u64,
    pub today_upload: u64,
    pub yesterday_download: u64,
    pub yesterday_upload: u64,
    pub this_week_download: u64,
    pub this_week_upload: u64,
    pub last_week_download: u64,
    pub last_week_upload: u64,
    pub this_month_download: u64,
    pub this_month_upload: u64,
    pub last_month_download: u64,
    pub last_month_upload: u64,
    pub this_year_download: u64,
    pub this_year_upload: u64,
    pub total_download: u64,
    pub total_upload: u64,
}

/// A stored count read back: negative values count as zero.
pub open spec fn count_of(v: i64) -> u64 {
    if v < 0 {
        0
    } else {
        v as u64
    }
}

pub fn nonnegative_count(v: i64) -> (r: u64)
    ensures
        r == count_of(v),
{
    if v < 0 {
        0
    } else {
        v as u64
    }
}

/// A stored rate that may be absent: absent and negative count as zero.
pub fn rate_or_zero(v: Option<i64>) -> (r: u64)
    ensures
        r == match v {
            Some(x) => count_of(x),
            None => 0,
        },
{
    match v {
        Some(x) => nonnegative_count(x),
        None => 0,
    }
}

/// Current speeds from the summed rates of the latest sampling instant, if
/// there was one.
pub fn speeds_from(row: Option<(i64, i64)>) -> (r: Totals)
    ensures
        r == match row {
            Some((rx, tx)) => Totals { download: 0, upload: 0, rx_rate: count_of(rx), tx_rate: count_of(tx) },
            None => Totals { download: 0, upload: 0, rx_rate: 0, tx_rate: 0 },
        },
{
    match row {
        Some((rx, tx)) => Totals {
            download: 0,
            upload: 0,
            rx_rate: nonnegative_count(rx),
            tx_rate: nonnegative_count(tx),
        },
        None => Totals::default(),
    }
}

/// Latest rates of one interface from its newest raw sample, if any.
pub fn latest_rates_from(row: Option<(Option<i64>, Option<i64>)>) -> (r: (u64, u64))
    ensures
        r == match row {
            Some((rx, tx)) => (
                match rx {
                    Some(x) => count_of(x),
                    None => 0u64,
                },
                match tx {
                    Some(x) => count_of(x),
                    None => 0u64,
                },
            ),
            None => (0u64, 0u64),
        },
{
    match row {
        Some((rx, tx)) => (rate_or_zero(rx), rate_or_zero(tx)),
        None => (0, 0),
    }
}

/// Tables that hold traffic amounts, finest first.
#[derive(Debug, Clone, Copy, PartialEq, Eq, Structural)]
pub enum SumSource {
    Raw,
    Minute,
    Hourly,
    Daily,
}

/// The tables consulted for a range: raw samples only for ranges of at most a
/// day, then the minute, hourly and daily aggregates.
pub open spec fn sources_for(start: i64, end: i64) -> Seq<SumSource> {
    if end - start <= 86400 {
        seq![SumSource::Raw, SumSource::Minute, SumSource::Hourly, SumSource::Daily]
    } else {
        seq![SumSource::Minute, SumSource::Hourly, SumSource::Daily]
    }
}

/// Traffic over a range, read from the finest table that has any: each
/// table is consulted in turn until one gives a non-zero amount.
pub struct RangeSum {
    sources: Vec<SumSource>,
    next: usize,
    download: u64,
    upload: u64,
}

impl RangeSum {
    /// The tables still to consult.
    pub closed spec fn pending(self) -> Seq<SumSource> {
        self.sources@.skip(self.next as int)
    }

    pub closed spec fn wf(self) -> bool {
        self.next <= self.sources@.len()
    }

    /// The amounts found so far (received, sent).
    pub closed spec fn found(self) -> (u64, u64) {
        (self.download, self.upload)
    }

    pub fn download(&self) -> (r: u64)
        ensures
            r == self.found().0,
    {
        self.download
    }

    pub fn upload(&self) -> (r: u64)
        ensures
            r == self.found().1,
    {
        self.upload
    }

    pub fn new(start: i64, end: i64) -> (r: Self)
        requires
            i64::MIN <= end - start <= i64::MAX,
        ensures
            r.wf(),
            r.pending() == sources_for(start, end),
            r.found() == (0u64, 0u64),
    {
        let sources = if end - start <= 86400 {
            vec![SumSource::Raw, SumSource::Minute, SumSource::Hourly, SumSource::Daily]
        } else {
            vec![SumSource::Minute, SumSource::Hourly, SumSource::Daily]
        };
        let r = RangeSum { sources, next: 0, download: 0, upload: 0 };
        assert(r.pending() =~= sources_for(start, end));
        r
    }

    /// The table to consult next: none once an amount was found or every
    /// table was consulted.
    pub fn next_source(&self) -> (r: Option<SumSource>)
        requires
            self.wf(),
        ensures
            r == if self.found() == (0u64, 0u64) && self.pending().len() > 0 {
                Some(self.pending()[0])
            } else {
                None
            },
    {
        if self.download == 0 && self.upload == 0 && self.next < self.sources.len() {
            Some(self.sources[self.next])
        } else {
            None
        }
    }

    /// Records what the table named by `next_source` gave.
    pub fn record(&mut self, download: u64, upload: u64)
        requires
            old(self).wf(),
            old(self).pending().len() > 0,
        ensures
            final(self).wf(),
            final(self).pending() == old(self).pending().drop_first(),
            final(self).found() == (download, upload),
    {
        proof {
            assert(old(self).pending() == old(self).sources@.skip(old(self).next as int));
            assert(old(self).sources@.skip(old(self).next as int).len() == old(self).sources@.len()
                - old(self).next);
            assert(self.next < self.sources@.len());
        }
        let n = self.sources.len();
        self.download = download;
        self.upload = upload;
        if self.next < n {
            self.next = self.next + 1;
        }
        assert(self.sources@.skip(self.next as int) =~= old(self).sources@.skip(
            old(self).next as int,
        ).drop_first());
    }

    /// The amounts with the given current rates.
    pub fn totals(&self, speeds: &Totals) -> (r: Totals)
        ensures
            r == (Totals {
                download: self.found().0,
                upload: self.found().1,
                rx_rate: speeds.rx_rate,
                tx_rate: speeds.tx_rate,
            }),
    {
        Totals {
            download: self.download,
            upload: self.upload,
            rx_rate: speeds.rx_rate,
            tx_rate: speeds.tx_rate,
        }
    }
}

pub open spec fn up_text() -> Seq<char> {
    "UP"@
}

pub open spec fn down_text() -> Seq<char> {
    "DOWN"@
}

/// The statistics line of an interface: it is up when it was seen since the
/// start of the day.
pub fn interface_stats_from(iface: &InterfaceRow, day_start: i64, totals: &Totals, latest: (
    u64,
    u64,
)) -> (r: InterfaceStats)
    ensures
        r.id == iface.id,
        r.name == iface.name,
        r.mac == iface.mac,
        r.operstate@ == if iface.last_seen >= day_start {
            up_text()
        } else {
            down_text()
        },
        r.download == totals.download,
        r.upload == totals.upload,
        r.rx_rate == latest.0,
        r.tx_rate == latest.1,
{
    InterfaceStats {
        id: iface.id,
        name: iface.name.clone(),
        mac: iface.mac.clone(),
        operstate: if iface.last_seen >= day_start {
            "UP".to_owned()
        } else {
            "DOWN".to_owned()
        },
        download: totals.download,
        upload: totals.upload,
        rx_rate: latest.0,
        tx_rate: latest.1,
    }
}

/// A day of the history from the sums read for it: negative sums count as
/// zero, and the total is what came in and went out together.
pub fn history_entry(date: String, download: i64, upload: i64, peak_download: i64, peak_upload: i64) -> (r:
    HistoryEntry)
    ensures
        r.date == date,
        r.download == count_of(download),
        r.upload == count_of(upload),
        r.total == r.download + r.upload,
        r.peak_download == count_of(peak_download),
        r.peak_upload == count_of(peak_upload),
{
    let d = nonnegative_count(download);
    let u = nonnegative_count(upload);
    HistoryEntry {
        date,
        download: d,
        upload: u,
        total: d + u,
        peak_download: nonnegative_count(peak_download),
        peak_upload: nonnegative_count(peak_upload),
    }
}

/// The day that the statistics of "today" cover: from midnight UTC to now.
pub fn day_bounds(now: i64) -> (r: (i64, i64))
    requires
        in_utc_range(now as int),
    ensures
        r.0 as int == day_floor(now as int),
        r.1 == now,
{
    TimeRange::Today.bounds(now)
}

/// The starts of the periods that the detail of an interface reports on.
#[derive(Debug, Clone, Copy, PartialEq, Eq, Structural)]
pub struct DetailWindows {
    pub today_start: i64,
    pub yesterday_start: i64,
    pub week_start: i64,
    pub last_week_start: i64,
    pub month_start: i64,
    pub prev_month_start: i64,
    pub year_start: i64,
}

pub fn detail_windows(now: i64) -> (r: DetailWindows)
    requires
        in_utc_range(now as int),
        in_utc_range(now - 14 * 86400),
        in_utc_range(month_floor(now as int) - 86400),
    ensures
        r.today_start as int == day_floor(now as int),
        r.yesterday_start == r.today_start - 86400,
        r.week_start == now - 7 * 86400,
        r.last_week_start == now - 14 * 86400,
        r.month_start as int == month_floor(now as int),
        r.prev_month_start as int == month_floor(month_floor(now as int) - 86400),
        r.year_start as int == year_floor(now as int),
{
    let today_start = start_of_day(now);
    let month_start = start_of_month(now);
    let prev_month_start = start_of_month(month_start - 86400);
    let (y, _, _) = utc_date_of(now);
    proof {
        crate::time::lemma_utc_date_facts(now as int);
    }
    let year_start = match utc_midnight_of(y, 1, 1) {
        Some(t) => t,
        None => {
            proof {
                assert(false);
            }
            now
        },
    };
    DetailWindows {
        today_start,
        yesterday_start: today_start - 86400,
        week_start: now - 7 * 86400,
        last_week_start: now - 14 * 86400,
        month_start,
        prev_month_start,
        year_start,
    }
}

/// The windows of the detail page at `now`, where they can be taken.
pub fn detail_windows_at(now: i64) -> (r: Option<DetailWindows>)
    ensures
        r is Some <==> (in_utc_range(now as int) && in_utc_range(now - 14 * 86400) && in_utc_range(
            month_floor(now as int) - 86400,
        )),
        r matches Some(w) ==> {
            &&& w.today_start as int == day_floor(now as int)
            &&& w.yesterday_start == w.today_start - 86400
            &&& w.week_start == now - 7 * 86400
            &&& w.last_week_start == now - 14 * 86400
            &&& w.month_start as int == month_floor(now as int)
            &&& w.prev_month_start as int == month_floor(month_floor(now as int) - 86400)
            &&& w.year_start as int == year_floor(now as int)
        },
{
    if !valid_timestamp(now) || !valid_timestamp(now - 14 * 86400) {
        return None;
    }
    let m = start_of_month(now);
    if !valid_timestamp(m - 86400) {
        return None;
    }
    Some(detail_windows(now))
}

/// Whether `PRAGMA integrity_check` reported a sound database.
pub fn integrity_ok(report: &str) -> (r: bool)
    ensures
        r == (report@ == "ok"@),
{
    crate::types::str_is(report, "ok")
}

/// Database size from its page count and page size.
pub fn database_size(page_count: i64, page_size: i64) -> (r: u64)
    requires
        i64::MIN <= page_count * page_size <= i64::MAX,
    ensures
        r == (page_count * page_size) as u64,
{
    (page_count * page_size) as u64
}

/// Minute aggregates are kept thirty days.
pub const MINUTE_RETENTION_SECS: i64 = 2592000i64;

/// Cut-off times before which raw samples and minute aggregates are deleted:
/// raw samples are kept for the configured retention of `history_days`
/// days, minute aggregates thirty days.
pub fn retention_cutoffs(now: i64, history_days: u32) -> (r: (i64, i64))
    requires
        now - history_days * 86400 >= i64::MIN,
        now - MINUTE_RETENTION_SECS >= i64::MIN,
    ensures
        r.0 == now - history_days * 86400,
        r.1 == now - MINUTE_RETENTION_SECS,
{
    (now - (history_days as i64) * 86400, now - MINUTE_RETENTION_SECS)
}

/// The message of the alert for an interface that disappeared.
pub fn removal_message(name: &str) -> (r: String)
    ensures
        r@ == "Interface '"@ + name@ + "' disappeared"@,
{
    let mut m = "Interface '".to_owned();
    push_str(&mut m, name);
    push_str(&mut m, "' disappeared");
    m
}

/// The name of an alert kind as `Debug` writes it.
pub open spec fn alert_kind_name(k: AlertKind) -> Seq<char> {
    match k {
        AlertKind::DatabaseCorruption => "DatabaseCorruption"@,
        AlertKind::InterfaceRemoved => "InterfaceRemoved"@,
        AlertKind::CounterOverflow => "CounterOverflow"@,
        AlertKind::ClockJump => "ClockJump"@,
    }
}

pub fn alert_kind_name_str(k: AlertKind) -> (r: &'static str)
    ensures
        r@ == alert_kind_name(k),
{
    match k {
        AlertKind::DatabaseCorruption => "DatabaseCorruption",
        AlertKind::InterfaceRemoved => "InterfaceRemoved",
        AlertKind::CounterOverflow => "CounterOverflow",
        AlertKind::ClockJump => "ClockJump",
    }
}

/// The message of the alert for an anomalous reading.
pub fn anomaly_message(interface: &str, kind: AlertKind) -> (r: String)
    ensures
        r@ == "Anomaly on "@ + interface@ + ": "@ + alert_kind_name(kind),
{
    let mut m = "Anomaly on ".to_owned();
    push_str(&mut m, interface);
    push_str(&mut m, ": ");
    push_str(&mut m, alert_kind_name_str(kind));
    m
}

/// The MAC address recorded for `name`: that of its first entry, if any.
pub open spec fn mac_for_spec(macs: Seq<(String, Option<String>)>, name: Seq<char>) -> Option<
    Option<String>,
>
    decreases macs.len(),
{
    if macs.len() == 0 {
        None
    } else if macs[0].0@ == name {
        Some(macs[0].1)
    } else {
        mac_for_spec(macs.drop_first(), name)
    }
}

pub fn mac_for(macs: &[(String, Option<String>)], name: &String) -> (r: Option<String>)
    ensures
        r == match mac_for_spec(macs@, name@) {
            Some(m) => m,
            None => None,
        },
{
    let mut i: usize = 0;
    assert(macs@.skip(0) =~= macs@);
    while i < macs.len()
        invariant
            i <= macs@.len(),
            mac_for_spec(macs@, name@) == mac_for_spec(macs@.skip(i as int), name@),
        decreases macs@.len() - i,
    {
        proof {
            assert(macs@.skip(i as int).drop_first() =~= macs@.skip(i + 1));
            assert(macs@.skip(i as int)[0] == macs@[i as int]);
        }
        if macs[i].0 == *name {
            return match &macs[i].1 {
                Some(m) => Some(m.clone()),
                None => None,
            };
        }
        i = i + 1;
    }
    None
}

/// The stored form of a computed sample: counters and rates as SQLite
/// integers (values above `i64::MAX` wrap, as `as i64` does).
pub fn stored_counters(rx_bytes: u64, tx_bytes: u64, rx_rate: u64, tx_rate: u64) -> (r: (
    i64,
    i64,
    i64,
    i64,
))
    ensures
        r == (rx_bytes as i64, tx_bytes as i64, rx_rate as i64, tx_rate as i64),
{
    (rx_bytes as i64, tx_bytes as i64, rx_rate as i64, tx_rate as i64)
}

/// A heartbeat older than this many sampling intervals, plus a grace of
/// `HEARTBEAT_GRACE_SECS`, means the daemon no longer runs.
pub const HEARTBEAT_INTERVALS: u64 = 3u64;

pub const HEARTBEAT_GRACE_SECS: u64 = 10u64;

/// A stored number: the trimmed text read as a non-negative `i64`.
pub open spec fn stored_number(text: Option<Seq<char>>) -> Option<i64> {
    match text {
        Some(t) => match crate::collector::counter_value(t) {
            Some(v) => if v <= i64::MAX as u64 {
                Some(v as i64)
            } else {
                None
            },
            None => None,
        },
        None => None,
    }
}

pub open spec fn opt_view(o: Option<&str>) -> Option<Seq<char>> {
    match o {
        Some(s) => Some(s@),
        None => None,
    }
}

/// Whether a heartbeat at `hb` is recent at `now` for the sampling interval
/// `interval` (one second where none is recorded).
pub open spec fn heartbeat_fresh(hb: i64, interval: Option<i64>, now: i64) -> bool {
    let si: int = match interval {
        Some(v) => if v >= 1 {
            v as int
        } else {
            1
        },
        None => 1,
    };
    hb <= now + HEARTBEAT_GRACE_SECS && now - hb <= HEARTBEAT_INTERVALS * si + HEARTBEAT_GRACE_SECS
}

/// The daemon's status from what it stored: its process id, its last
/// heartbeat and its sampling interval; it runs while the heartbeat is fresh.
pub open spec fn daemon_status_spec(
    pid: Option<Seq<char>>,
    heartbeat: Option<Seq<char>>,
    interval: Option<Seq<char>>,
    now: i64,
) -> DaemonStatus {
    let hb = stored_number(heartbeat);
    let si = stored_number(interval);
    DaemonStatus {
        running: match hb {
            Some(h) => heartbeat_fresh(h, si, now),
            None => false,
        },
        pid: stored_number(pid),
        last_heartbeat: hb,
        sample_interval: match si {
            Some(v) => Some(v as u64),
            None => None,
        },
    }
}

fn stored_number_of(text: Option<&str>) -> (r: Option<i64>)
    ensures
        r == stored_number(opt_view(text)),
{
    match text {
        Some(t) => match crate::collector::parse_counter(t) {
            Some(v) => if v <= i64::MAX as u64 {
                Some(v as i64)
            } else {
                None
            },
            None => None,
        },
        None => None,
    }
}

pub fn daemon_status_from(
    pid: Option<&str>,
    heartbeat: Option<&str>,
    interval: Option<&str>,
    now: i64,
) -> (r: DaemonStatus)
    ensures
        r == daemon_status_spec(opt_view(pid), opt_view(heartbeat), opt_view(interval), now),
{
    let hb = stored_number_of(heartbeat);
    let si = stored_number_of(interval);
    let running = match hb {
        Some(h) => {
            let per: i128 = match si {
                Some(v) => if v >= 1 {
                    v as i128
                } else {
                    1
                },
                None => 1,
            };
            (h as i128) <= (now as i128) + (HEARTBEAT_GRACE_SECS as i128) && (now as i128) - (
            h as i128) <= (HEARTBEAT_INTERVALS as i128) * per + (HEARTBEAT_GRACE_SECS as i128)
        },
        None => false,
    };
    DaemonStatus {
        running,
        pid: stored_number_of(pid),
        last_heartbeat: hb,
        sample_interval: match si {
            Some(v) => Some(v as u64),
            None => None,
        },
    }
}

} // verus!
