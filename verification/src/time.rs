//! Time ranges over UTC calendar days, months and years.
use vstd::prelude::*;
use chrono::Datelike;
use chrono::TimeZone;

verus! {

/// Earliest Unix timestamp that a UTC date-time can hold
/// (-262143-01-01 00:00:00).
pub const MIN_UTC_TIMESTAMP: i64 = -8334601228800i64;

/// Latest Unix timestamp that a UTC date-time can hold
/// (+262142-12-31 23:59:59).
pub const MAX_UTC_TIMESTAMP: i64 = 8210266876799i64;

pub const SECS_PER_DAY: i64 = 86400i64;

pub open spec fn in_utc_range(ts: int) -> bool {
    MIN_UTC_TIMESTAMP <= ts <= MAX_UTC_TIMESTAMP
}

/// Start of the UTC day that holds `ts`.
pub open spec fn day_floor(ts: int) -> int {
    ts - ts % 86400
}

/// Whether `y` is a leap year of the proleptic Gregorian calendar.
pub open spec fn is_leap(y: int) -> bool {
    (y % 4 == 0 && y % 100 != 0) || y % 400 == 0
}

pub open spec fn days_in_month(y: int, m: int) -> int {
    if m == 2 {
        if is_leap(y) {
            29
        } else {
            28
        }
    } else if m == 4 || m == 6 || m == 9 || m == 11 {
        30
    } else {
        31
    }
}

/// Days from 1970-01-01 to the date `y-m-d` of the proleptic Gregorian
/// calendar (years counted in eras of 400 years, from March).
#[verifier::opaque]
pub open spec fn days_from_civil(y: int, m: int, d: int) -> int {
    let y1 = if m <= 2 {
        y - 1
    } else {
        y
    };
    let era = y1 / 400;
    let yoe = y1 - era * 400;
    let mp = if m > 2 {
        m - 3
    } else {
        m + 9
    };
    let doy = (153 * mp + 2) / 5 + d - 1;
    let doe = yoe * 365 + yoe / 4 - yoe / 100 + doy;
    era * 146097 + doe - 719468
}

/// The date (year, month, day) `z` days after 1970-01-01 in the proleptic
/// Gregorian calendar.
#[verifier::opaque]
pub open spec fn civil_from_days(z0: int) -> (int, int, int) {
    let z = z0 + 719468;
    let era = z / 146097;
    let doe = z - era * 146097;
    let yoe = (doe - doe / 1460 + doe / 36524 - doe / 146096) / 365;
    let doy = doe - (365 * yoe + yoe / 4 - yoe / 100);
    let mp = (5 * doy + 2) / 153;
    let d = doy - (153 * mp + 2) / 5 + 1;
    let m = if mp < 10 {
        mp + 3
    } else {
        mp - 9
    };
    let y = yoe + era * 400 + if m <= 2 {
        1int
    } else {
        0int
    };
    (y, m, d)
}

/// Proleptic Gregorian (year, month, day) of the UTC instant `ts`.
pub open spec fn utc_date(ts: int) -> (int, int, int) {
    civil_from_days(ts / 86400)
}

/// Unix timestamp of midnight UTC on a calendar date, if the date exists
/// in the years that a UTC date-time holds.
pub open spec fn utc_midnight(year: int, month: int, day: int) -> Option<int> {
    if -262143 <= year <= 262142 && 1 <= month <= 12 && 1 <= day <= days_in_month(year, month) {
        Some(days_from_civil(year, month, day) * 86400)
    } else {
        None
    }
}

/// The calendar date of a timestamp (`DateTime::from_timestamp`, then
/// `year`, `month`, `day`): the proleptic Gregorian date `utc_date` of the
/// day that holds `ts` (its calendar facts are `lemma_utc_date_facts`).
#[verifier::external_body]
pub(crate) fn utc_date_of(ts: i64) -> (r: (i32, u32, u32))
    requires
        in_utc_range(ts as int),
    ensures
        r.0 as int == utc_date(ts as int).0,
        r.1 as int == utc_date(ts as int).1,
        r.2 as int == utc_date(ts as int).2,
{
    let dt = chrono::DateTime::<chrono::Utc>::from_timestamp(ts, 0).unwrap();
    (dt.year(), dt.month(), dt.day())
}

/// Midnight UTC of a calendar date (`Utc.with_ymd_and_hms(.., 0, 0, 0)`),
/// `None` where the date does not exist or its year lies outside chrono's
/// years: `utc_midnight`.
#[verifier::external_body]
pub(crate) fn utc_midnight_of(year: i32, month: u32, day: u32) -> (r: Option<i64>)
    ensures
        match r {
            Some(t) => utc_midnight(year as int, month as int, day as int) == Some(t as int),
            None => utc_midnight(year as int, month as int, day as int) is None,
        },
{
    match chrono::Utc.with_ymd_and_hms(year, month, day, 0, 0, 0).single() {
        Some(dt) => Some(dt.timestamp()),
        None => None,
    }
}

/// Whether a Unix timestamp is one that a UTC date-time can hold
/// (`DateTime::from_timestamp(ts, 0)` is `Some`).
#[verifier::external_body]
pub(crate) fn utc_timestamp_valid(ts: i64) -> (r: bool)
    ensures
        r == in_utc_range(ts as int),
{
    chrono::DateTime::<chrono::Utc>::from_timestamp(ts, 0).is_some()
}

/// Whether `ts` is a time that a UTC date-time can hold.
pub fn valid_timestamp(ts: i64) -> (r: bool)
    ensures
        r == in_utc_range(ts as int),
{
    utc_timestamp_valid(ts)
}

/// Start of the UTC month that holds `ts`.
pub open spec fn month_floor(ts: int) -> int {
    day_floor(ts) - (utc_date(ts).2 - 1) * 86400
}

/// Start of the UTC year that holds `ts`.
pub open spec fn year_floor(ts: int) -> int {
    utc_midnight(utc_date(ts).0, 1, 1)->0
}

/// A span of time to report on.
#[derive(Debug, Clone, Copy, PartialEq, Eq, Structural)]
pub enum TimeRange {
    Today,
    Yesterday,
    Last7Days,
    Last30Days,
    CurrentMonth,
    PreviousMonth,
    ThisYear,
    Custom { start: i64, end: i64 },
}

impl TimeRange {
    /// The inputs on which `bounds` computes without leaving the range of
    /// UTC date-times.
    pub open spec fn bounds_defined(self, now: int) -> bool {
        &&& in_utc_range(now)
        &&& match self {
            TimeRange::Yesterday => in_utc_range(now - 86400),
            TimeRange::Last7Days => in_utc_range(now - 7 * 86400),
            TimeRange::Last30Days => in_utc_range(now - 30 * 86400),
            TimeRange::PreviousMonth => in_utc_range(month_floor(now) - 86400),
            _ => true,
        }
    }

    /// Start and end (Unix seconds) of the range as seen at `now`.
    pub open spec fn bounds_spec(self, now: int) -> (int, int) {
        match self {
            TimeRange::Today => (day_floor(now), now),
            TimeRange::Yesterday => (day_floor(now - 86400), day_floor(now)),
            TimeRange::Last7Days => (now - 7 * 86400, now),
            TimeRange::Last30Days => (now - 30 * 86400, now),
            TimeRange::CurrentMonth => (month_floor(now), now),
            TimeRange::PreviousMonth => (month_floor(month_floor(now) - 86400), month_floor(now)),
            TimeRange::ThisYear => (year_floor(now), now),
            TimeRange::Custom { start, end } => (
                if in_utc_range(start as int) {
                    start as int
                } else {
                    now
                },
                if in_utc_range(end as int) {
                    end as int
                } else {
                    now
                },
            ),
        }
    }

    /// Whether `bounds` can be taken at `now`.
    pub fn defined_at(&self, now: i64) -> (r: bool)
        ensures
            r == self.bounds_defined(now as int),
    {
        if !utc_timestamp_valid(now) {
            return false;
        }
        match self {
            TimeRange::Yesterday => utc_timestamp_valid(now - SECS_PER_DAY),
            TimeRange::Last7Days => utc_timestamp_valid(now - 7 * SECS_PER_DAY),
            TimeRange::Last30Days => utc_timestamp_valid(now - 30 * SECS_PER_DAY),
            TimeRange::PreviousMonth => {
                let m = start_of_month(now);
                utc_timestamp_valid(m - SECS_PER_DAY)
            },
            _ => true,
        }
    }

    pub fn bounds(&self, now: i64) -> (r: (i64, i64))
        requires
            self.bounds_defined(now as int),
        ensures
            (r.0 as int, r.1 as int) == self.bounds_spec(now as int),
            !(*self is Custom) ==> r.0 <= r.1 <= now,
    {
        match self {
            TimeRange::Today => (start_of_day(now), now),
            TimeRange::Yesterday => {
                let y = now - SECS_PER_DAY;
                (start_of_day(y), start_of_day(now))
            },
            TimeRange::Last7Days => (now - 7 * SECS_PER_DAY, now),
            TimeRange::Last30Days => (now - 30 * SECS_PER_DAY, now),
            TimeRange::CurrentMonth => (start_of_month(now), now),
            TimeRange::PreviousMonth => {
                let end = start_of_month(now);
                let prev = end - SECS_PER_DAY;
                (start_of_month(prev), end)
            },
            TimeRange::ThisYear => {
                let (y, _, _) = utc_date_of(now);
                proof {
                    lemma_utc_date_facts(now as int);
                }
                let start = utc_midnight_of(y, 1, 1);
                match start {
                    Some(t) => (t, now),
                    None => {
                        proof {
                            assert(false);
                        }
                        (now, now)
                    },
                }
            },
            TimeRange::Custom { start, end } => {
                let s = if utc_timestamp_valid(*start) {
                    *start
                } else {
                    now
                };
                let e = if utc_timestamp_valid(*end) {
                    *end
                } else {
                    now
                };
                (s, e)
            },
        }
    }
}

/// Midnight UTC of the day that holds `ts`.
pub fn start_of_day(ts: i64) -> (r: i64)
    requires
        in_utc_range(ts as int),
    ensures
        r as int == day_floor(ts as int),
        in_utc_range(r as int),
        r <= ts,
        ts - r < 86400,
{
    let (y, m, d) = utc_date_of(ts);
    proof {
        lemma_utc_date_facts(ts as int);
    }
    match utc_midnight_of(y, m, d) {
        Some(t) => t,
        None => {
            proof {
                assert(false);
            }
            ts
        },
    }
}

/// Midnight UTC of the first day of the month that holds `ts`.
pub fn start_of_month(ts: i64) -> (r: i64)
    requires
        in_utc_range(ts as int),
    ensures
        r as int == month_floor(ts as int),
        in_utc_range(r as int),
        r <= ts,
{
    let (y, m, _) = utc_date_of(ts);
    proof {
        lemma_utc_date_facts(ts as int);
    }
    match utc_midnight_of(y, m, 1) {
        Some(t) => t,
        None => {
            proof {
                assert(false);
            }
            ts
        },
    }
}

proof fn lemma_doe_parts(doe: int)
    requires
        0 <= doe < 146097,
    ensures
        ({
            let yoe = (doe - doe / 1460 + doe / 36524 - doe / 146096) / 365;
            let doy = doe - (365 * yoe + yoe / 4 - yoe / 100);
            let mp = (5 * doy + 2) / 153;
            let d0 = doy - (153 * mp + 2) / 5;
            &&& 0 <= yoe <= 399
            &&& 0 <= doy <= 365
            &&& 0 <= mp <= 11
            &&& 0 <= d0 <= 30
        }),
{
    let yoe = (doe - doe / 1460 + doe / 36524 - doe / 146096) / 365;
    let doy = doe - (365 * yoe + yoe / 4 - yoe / 100);
    assert(0 <= yoe <= 399);
    assert(0 <= doy <= 365);
    let mp = (5 * doy + 2) / 153;
    assert(0 <= mp <= 11);
    let d0 = doy - (153 * mp + 2) / 5;
    assert(0 <= d0 <= 30);
}

/// Within the year of day `doe` of a 400-year era, only a leap year has a
/// 366th day (the years counted from March).
proof fn lemma_leap_day(doe: int)
    requires
        0 <= doe < 146097,
    ensures
        ({
            let yoe = (doe - doe / 1460 + doe / 36524 - doe / 146096) / 365;
            let doy = doe - (365 * yoe + yoe / 4 - yoe / 100);
            doy == 365 ==> is_leap(yoe + 1)
        }),
{
    lemma_doe_parts(doe);
}

/// Whole eras of 400 years keep leap years leap.
proof fn lemma_leap_shift(y: int, era: int)
    requires
        is_leap(y),
    ensures
        is_leap(y + era * 400),
{
    assert((y + era * 400) % 4 == y % 4);
    assert((y + era * 400) % 100 == y % 100);
    assert((y + era * 400) % 400 == y % 400);
}

/// The date of day `z` is a valid date, and it leads back to day `z`.
#[verifier::spinoff_prover]
#[verifier::rlimit(40)]
proof fn lemma_civil_round_trip(z: int)
    ensures
        1 <= civil_from_days(z).1 <= 12,
        1 <= civil_from_days(z).2 <= days_in_month(civil_from_days(z).0, civil_from_days(z).1),
        days_from_civil(civil_from_days(z).0, civil_from_days(z).1, civil_from_days(z).2) == z,
{
    reveal(civil_from_days);
    reveal(days_from_civil);
    let zz = z + 719468;
    let era = zz / 146097;
    let doe = zz - era * 146097;
    assert(0 <= doe < 146097);
    lemma_doe_parts(doe);
    lemma_leap_day(doe);
    let yoe = (doe - doe / 1460 + doe / 36524 - doe / 146096) / 365;
    let doy = doe - (365 * yoe + yoe / 4 - yoe / 100);
    let mp = (5 * doy + 2) / 153;
    let d = doy - (153 * mp + 2) / 5 + 1;
    let m = if mp < 10 {
        mp + 3
    } else {
        mp - 9
    };
    let y = yoe + era * 400 + if m <= 2 {
        1int
    } else {
        0int
    };
    assert(civil_from_days(z) == (y, m, d));
    let y1 = if m <= 2 {
        y - 1
    } else {
        y
    };
    assert(y1 == yoe + era * 400);
    assert(y1 / 400 == era);
    assert(y1 - (y1 / 400) * 400 == yoe);
    let mp2 = if m > 2 {
        m - 3
    } else {
        m + 9
    };
    assert(mp2 == mp);
    assert((153 * mp2 + 2) / 5 + d - 1 == doy);
    assert(days_from_civil(y, m, d) == z);
    if m == 2 {
        assert(d <= 29);
        if d == 29 {
            assert(doy == 365);
            assert(y == yoe + 1 + era * 400);
            lemma_leap_shift(yoe + 1, era);
        }
    }
}

/// The years of the days that a UTC date-time holds.
proof fn lemma_years_in_range(z: int)
    requires
        -96465292 <= z <= 95026236,
    ensures
        -262143 <= civil_from_days(z).0 <= 262142,
{
    reveal(civil_from_days);
    let zz = z + 719468;
    let era = zz / 146097;
    let doe = zz - era * 146097;
    lemma_doe_parts(doe);
    assert(-656 <= era <= 655);
}

/// January 1st of the years that a UTC date-time holds is one too.
proof fn lemma_new_year_in_range(y: int, m: int)
    requires
        -262143 <= y <= 262142,
        1 <= m <= 12,
    ensures
        -96465292 <= days_from_civil(y, 1, 1),
        days_from_civil(y, 1, 1) <= days_from_civil(y, m, 1),
{
    reveal(days_from_civil);
}

/// The calendar facts of the date of a UTC instant: it is valid, its
/// midnight is the start of the instant's day, the first of its month lies
/// `day - 1` days earlier, and the first of its year, a valid instant too,
/// no later than that.
pub proof fn lemma_utc_date_facts(ts: int)
    requires
        in_utc_range(ts),
    ensures
        ({
            let (y, m, d) = utc_date(ts);
            &&& 1 <= m <= 12
            &&& 1 <= d <= 31
            &&& utc_midnight(y, m, d) == Some(day_floor(ts))
            &&& utc_midnight(y, m, 1) == Some(day_floor(ts) - (d - 1) * 86400)
            &&& utc_midnight(y, 1, 1) is Some
            &&& in_utc_range(utc_midnight(y, 1, 1)->0)
            &&& utc_midnight(y, 1, 1)->0 <= day_floor(ts) - (d - 1) * 86400
        }),
{
    let z = ts / 86400;
    assert(-96465292 <= z <= 95026236);
    assert(day_floor(ts) == z * 86400);
    lemma_civil_round_trip(z);
    lemma_years_in_range(z);
    let (y, m, d) = civil_from_days(z);
    assert(days_in_month(y, m) <= 31);
    assert(days_from_civil(y, m, 1) == days_from_civil(y, m, d) - (d - 1)) by {
        reveal(days_from_civil);
    }
    lemma_new_year_in_range(y, m);
}

} // verus!
