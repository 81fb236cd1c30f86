//! Exporting the daily history as CSV or Markdown, and reading the range
//! that the command line asks for.
use vstd::prelude::*;
use crate::config::Units;
use crate::models::HistoryEntry;
use crate::stats::{bytes_text, format_bytes};
use crate::text::{chars_of, dec, dec_int, find_char, find_first, push_decimal, push_decimal_i64,
    push_str, string_of_range};
use crate::time::TimeRange;

verus! {

#[derive(Debug, Clone, Copy, PartialEq, Eq, Structural)]
pub enum ExportFormat {
    Csv,
    Json,
    Markdown,
}

#[derive(Debug, Clone, Copy, PartialEq, Eq, Structural)]
pub struct ExportOptions {
    pub format: ExportFormat,
    pub range: TimeRange,
    pub interface_id: Option<i64>,
}

/// The texts of the entries, one after the other.
pub open spec fn joined(h: Seq<HistoryEntry>, f: spec_fn(HistoryEntry) -> Seq<char>) -> Seq<char>
    decreases h.len(),
{
    if h.len() == 0 {
        seq![]
    } else {
        joined(h.drop_last(), f) + f(h.last())
    }
}

pub open spec fn csv_header() -> Seq<char> {
    "date,download,upload,total,peak_download,peak_upload\n"@
}

/// One CSV line of a history entry: the date and the five counts in bytes.
pub open spec fn csv_line(e: HistoryEntry) -> Seq<char> {
    e.date@ + ","@ + dec(e.download as nat) + ","@ + dec(e.upload as nat) + ","@ + dec(
        e.total as nat,
    ) + ","@ + dec(e.peak_download as nat) + ","@ + dec(e.peak_upload as nat) + "\n"@
}

/// The history as CSV. The counts are written in bytes whatever `units` is.
pub fn export_csv(history: &[HistoryEntry], units: Units) -> (r: String)
    ensures
        r@ == csv_header() + joined(history@, |e: HistoryEntry| csv_line(e)),
{
    let mut out = "date,download,upload,total,peak_download,peak_upload\n".to_owned();
    let mut i: usize = 0;
    while i < history.len()
        invariant
            i <= history@.len(),
            out@ == csv_header() + joined(history@.take(i as int), |e: HistoryEntry| csv_line(e)),
        decreases history@.len() - i,
    {
        let e = &history[i];
        push_str(&mut out, e.date.as_str());
        push_str(&mut out, ",");
        push_decimal(&mut out, e.download);
        push_str(&mut out, ",");
        push_decimal(&mut out, e.upload);
        push_str(&mut out, ",");
        push_decimal(&mut out, e.total);
        push_str(&mut out, ",");
        push_decimal(&mut out, e.peak_download);
        push_str(&mut out, ",");
        push_decimal(&mut out, e.peak_upload);
        push_str(&mut out, "\n");
        proof {
            let t = history@.take(i + 1);
            assert(t.drop_last() =~= history@.take(i as int));
            assert(t.last() == history@[i as int]);
            assert(out@ =~= csv_header() + joined(t, |e: HistoryEntry| csv_line(e)));
        }
        i = i + 1;
    }
    proof {
        assert(history@.take(history@.len() as int) =~= history@);
    }
    out
}

/// A time range as `Debug` writes it.
pub open spec fn range_debug(r: TimeRange) -> Seq<char> {
    match r {
        TimeRange::Today => "Today"@,
        TimeRange::Yesterday => "Yesterday"@,
        TimeRange::Last7Days => "Last7Days"@,
        TimeRange::Last30Days => "Last30Days"@,
        TimeRange::CurrentMonth => "CurrentMonth"@,
        TimeRange::PreviousMonth => "PreviousMonth"@,
        TimeRange::ThisYear => "ThisYear"@,
        TimeRange::Custom { start, end } => "Custom { start: "@ + dec_int(start as int)
            + ", end: "@ + dec_int(end as int) + " }"@,
    }
}

/// Appends the `Debug` form of a time range.
pub fn push_range_debug(out: &mut String, r: &TimeRange)
    ensures
        final(out)@ == old(out)@ + range_debug(*r),
{
    match r {
        TimeRange::Today => push_str(out, "Today"),
        TimeRange::Yesterday => push_str(out, "Yesterday"),
        TimeRange::Last7Days => push_str(out, "Last7Days"),
        TimeRange::Last30Days => push_str(out, "Last30Days"),
        TimeRange::CurrentMonth => push_str(out, "CurrentMonth"),
        TimeRange::PreviousMonth => push_str(out, "PreviousMonth"),
        TimeRange::ThisYear => push_str(out, "ThisYear"),
        TimeRange::Custom { start, end } => {
            push_str(out, "Custom { start: ");
            push_decimal_i64(out, *start);
            push_str(out, ", end: ");
            push_decimal_i64(out, *end);
            push_str(out, " }");
            assert(out@ =~= old(out)@ + range_debug(*r));
        },
    }
}

pub open spec fn markdown_head(range: TimeRange) -> Seq<char> {
    "# NetWatch Export\n"@ + "\nRange: `"@ + range_debug(range) + "`\n\n"@
        + "| Date | Download | Upload | Total | Peak DL | Peak UL |\n"@
        + "|------|----------|--------|-------|---------|---------|\n"@
}

/// One table row of a history entry, amounts in the chosen units.
pub open spec fn markdown_line(e: HistoryEntry, units: Units) -> Seq<char> {
    "| "@ + e.date@ + " | "@ + bytes_text(e.download, units) + " | "@ + bytes_text(
        e.upload,
        units,
    ) + " | "@ + bytes_text(e.total, units) + " | "@ + bytes_text(e.peak_download, units)
        + " | "@ + bytes_text(e.peak_upload, units) + " |\n"@
}

fn push_markdown_line(out: &mut String, e: &HistoryEntry, units: Units)
    ensures
        final(out)@ == old(out)@ + markdown_line(*e, units),
{
    push_str(out, "| ");
    push_str(out, e.date.as_str());
    push_str(out, " | ");
    push_str(out, format_bytes(e.download, units).as_str());
    push_str(out, " | ");
    push_str(out, format_bytes(e.upload, units).as_str());
    push_str(out, " | ");
    push_str(out, format_bytes(e.total, units).as_str());
    push_str(out, " | ");
    push_str(out, format_bytes(e.peak_download, units).as_str());
    push_str(out, " | ");
    push_str(out, format_bytes(e.peak_upload, units).as_str());
    push_str(out, " |\n");
    assert(out@ =~= old(out)@ + markdown_line(*e, units));
}

/// The history as a Markdown document: a title, the range, and a table.
pub fn export_markdown(history: &[HistoryEntry], units: Units, range: &TimeRange) -> (r: String)
    ensures
        r@ == markdown_head(*range) + joined(history@, |e: HistoryEntry| markdown_line(e, units)),
{
    let mut out = String::new();
    push_str(&mut out, "# NetWatch Export\n");
    push_str(&mut out, "\nRange: `");
    push_range_debug(&mut out, range);
    push_str(&mut out, "`\n\n");
    push_str(&mut out, "| Date | Download | Upload | Total | Peak DL | Peak UL |\n");
    push_str(&mut out, "|------|----------|--------|-------|---------|---------|\n");
    assert(out@ =~= markdown_head(*range));
    let mut i: usize = 0;
    while i < history.len()
        invariant
            i <= history@.len(),
            out@ == markdown_head(*range) + joined(
                history@.take(i as int),
                |e: HistoryEntry| markdown_line(e, units),
            ),
        decreases history@.len() - i,
    {
        push_markdown_line(&mut out, &history[i], units);
        proof {
            let t = history@.take(i + 1);
            assert(t.drop_last() =~= history@.take(i as int));
            assert(t.last() == history@[i as int]);
            assert(out@ =~= markdown_head(*range) + joined(
                t,
                |e: HistoryEntry| markdown_line(e, units),
            ));
        }
        i = i + 1;
    }
    proof {
        assert(history@.take(history@.len() as int) =~= history@);
    }
    out
}

/// chrono's date parse error, carried through unexamined.
#[verifier::external_type_specification]
#[verifier::external_body]
pub struct ExParseError(chrono::ParseError);

/// Unix timestamp of `hour:min:sec` UTC on the date that `text` writes as
/// `YYYY-MM-DD`, if `text` is such a date.
pub uninterp spec fn parsed_date_at(text: Seq<char>, hour: int, min: int, sec: int) -> Option<int>;

/// `NaiveDate::parse_from_str(text, "%Y-%m-%d")`, then
/// `and_hms_opt(hour, min, sec)` and the UTC timestamp. The result is named;
/// beside the name the contract states that whether the text parses does not
/// depend on the time of day, and that the time of day adds its seconds to
/// midnight. The parse error itself is passed on unexamined.
#[verifier::external_body]
fn parse_date_at(text: &str, hour: u32, min: u32, sec: u32) -> (r: Result<i64, chrono::ParseError>)
    requires
        hour < 24,
        min < 60,
        sec < 60,
    ensures
        r is Ok <==> parsed_date_at(text@, hour as int, min as int, sec as int) is Some,
        r is Ok <==> parsed_date_at(text@, 0, 0, 0) is Some,
        r matches Ok(t) ==> parsed_date_at(text@, hour as int, min as int, sec as int) == Some(
            t as int,
        ),
        r matches Ok(t) ==> t as int == parsed_date_at(text@, 0, 0, 0)->0 + hour * 3600 + min * 60
            + sec,
{
    match chrono::NaiveDate::parse_from_str(text, "%Y-%m-%d") {
        Ok(d) => Ok(d.and_hms_opt(hour, min, sec).unwrap().and_utc().timestamp()),
        Err(e) => Err(e),
    }
}

/// Why a range flag was refused.
#[derive(Debug)]
pub enum RangeFlagError {
    /// The range is not two dates separated by one `:`.
    Shape,
    /// A date did not parse.
    Date(chrono::ParseError),
}

/// The outcome of reading the flags, the parse error taken by kind.
pub enum RangeFlagOutcome {
    Range(TimeRange),
    Shape,
    Date,
}

pub open spec fn count_char(s: Seq<char>, c: char) -> nat
    decreases s.len(),
{
    if s.len() == 0 {
        0
    } else {
        count_char(s.drop_last(), c) + if s.last() == c {
            1nat
        } else {
            0nat
        }
    }
}

/// `--today` wins over `--month`, which wins over `--range START:END`
/// (both `YYYY-MM-DD`, from midnight of the first day to 23:59:59 of the
/// last); without any, the last thirty days.
pub open spec fn range_flag_spec(today: bool, month: bool, range: Option<Seq<char>>) -> RangeFlagOutcome {
    if today {
        RangeFlagOutcome::Range(TimeRange::Today)
    } else if month {
        RangeFlagOutcome::Range(TimeRange::CurrentMonth)
    } else {
        match range {
            None => RangeFlagOutcome::Range(TimeRange::Last30Days),
            Some(r) => if count_char(r, ':') != 1 {
                RangeFlagOutcome::Shape
            } else {
                let c = find_first(r, ':');
                match parsed_date_at(r.take(c), 0, 0, 0) {
                    None => RangeFlagOutcome::Date,
                    Some(s) => match parsed_date_at(r.skip(c + 1), 23, 59, 59) {
                        None => RangeFlagOutcome::Date,
                        Some(e) => RangeFlagOutcome::Range(
                            TimeRange::Custom { start: s as i64, end: e as i64 },
                        ),
                    },
                }
            },
        }
    }
}

pub open spec fn range_flag_matches(r: Result<TimeRange, RangeFlagError>, o: RangeFlagOutcome) -> bool {
    match (r, o) {
        (Ok(a), RangeFlagOutcome::Range(b)) => a == b,
        (Err(RangeFlagError::Shape), RangeFlagOutcome::Shape) => true,
        (Err(RangeFlagError::Date(_)), RangeFlagOutcome::Date) => true,
        _ => false,
    }
}

proof fn lemma_count_char_split(s: Seq<char>, c: char, i: int)
    requires
        0 <= i <= s.len(),
    ensures
        count_char(s, c) == count_char(s.take(i), c) + count_char(s.skip(i), c),
    decreases s.len() - i,
{
    if i < s.len() {
        lemma_count_char_split(s, c, i + 1);
        let t = s.take(i + 1);
        assert(t.drop_last() =~= s.take(i));
        let k = s.skip(i);
        lemma_count_char_front(k, c);
        assert(k.drop_first() =~= s.skip(i + 1));
        assert(k[0] == s[i]);
    } else {
        assert(s.take(i) =~= s);
        assert(s.skip(i).len() == 0);
    }
}

proof fn lemma_count_char_front(s: Seq<char>, c: char)
    requires
        s.len() > 0,
    ensures
        count_char(s, c) == count_char(s.drop_first(), c) + if s[0] == c {
            1nat
        } else {
            0nat
        },
    decreases s.len(),
{
    let f: nat = if s[0] == c {
        1nat
    } else {
        0nat
    };
    let l: nat = if s.last() == c {
        1nat
    } else {
        0nat
    };
    assert(count_char(s, c) == count_char(s.drop_last(), c) + l);
    if s.len() > 1 {
        lemma_count_char_front(s.drop_last(), c);
        assert(s.drop_last().drop_first() =~= s.drop_first().drop_last());
        assert(s.drop_first().last() == s.last());
        assert(s.drop_last()[0] == s[0]);
        assert(count_char(s.drop_last(), c) == count_char(s.drop_last().drop_first(), c) + f);
        assert(count_char(s.drop_first(), c) == count_char(s.drop_first().drop_last(), c) + l);
    } else {
        assert(s.drop_last().len() == 0);
        assert(s.drop_first().len() == 0);
        assert(count_char(s.drop_last(), c) == 0);
        assert(count_char(s.drop_first(), c) == 0);
        assert(s.last() == s[0]);
    }
}

proof fn lemma_no_char_count(s: Seq<char>, c: char)
    requires
        find_first(s, c) == -1,
    ensures
        count_char(s, c) == 0,
    decreases s.len(),
{
    if s.len() > 0 {
        crate::text::lemma_find_first_bounds(s, c);
        lemma_count_char_front(s, c);
        let d = s.drop_first();
        if find_first(d, c) >= 0 {
            assert(false);
        }
        lemma_no_char_count(d, c);
    }
}

/// Reads the export range flags.
pub fn parse_range_flag(today: bool, month: bool, range: Option<&str>) -> (r: Result<
    TimeRange,
    RangeFlagError,
>)
    ensures
        range_flag_matches(
            r,
            range_flag_spec(
                today,
                month,
                match range {
                    Some(s) => Some(s@),
                    None => None,
                },
            ),
        ),
        r matches Ok(TimeRange::Custom { start, end }) ==> (range matches Some(t) && end - start
            == parsed_date_at(t@.skip(find_first(t@, ':') + 1), 0, 0, 0)->0 - parsed_date_at(
            t@.take(find_first(t@, ':')),
            0,
            0,
            0,
        )->0 + 86399),
{
    if today {
        return Ok(TimeRange::Today);
    }
    if month {
        return Ok(TimeRange::CurrentMonth);
    }
    let text = match range {
        Some(t) => t,
        None => {
            return Ok(TimeRange::Last30Days);
        },
    };
    let cs = chars_of(text);
    let n = cs.len();
    proof {
        assert(cs@.subrange(0, n as int) =~= text@);
    }
    let c = find_char(&cs, 0, n, ':');
    if c == n {
        proof {
            lemma_no_char_count(text@, ':');
        }
        return Err(RangeFlagError::Shape);
    }
    let c2 = find_char(&cs, c + 1, n, ':');
    proof {
        crate::text::lemma_find_first_bounds(text@, ':');
        lemma_count_char_split(text@, ':', c as int);
        let before = text@.take(c as int);
        let after = text@.skip(c as int);
        assert forall|j: int| 0 <= j < before.len() implies before[j] != ':' by {
            assert(before[j] == text@[j]);
        }
        if find_first(before, ':') >= 0 {
            crate::text::lemma_find_first_bounds(before, ':');
            assert(false);
        }
        lemma_no_char_count(before, ':');
        lemma_count_char_front(after, ':');
        assert(after[0] == ':');
        assert(after.drop_first() =~= cs@.subrange(c + 1, n as int));
        if c2 == n {
            lemma_no_char_count(cs@.subrange(c + 1, n as int), ':');
        } else {
            let rest = cs@.subrange(c + 1, n as int);
            crate::text::lemma_find_first_bounds(rest, ':');
            lemma_count_char_split(rest, ':', c2 - c - 1);
            let k = rest.skip(c2 - c - 1);
            lemma_count_char_front(k, ':');
            assert(k[0] == ':');
        }
    }
    if c2 != n {
        return Err(RangeFlagError::Shape);
    }
    let first = string_of_range(&cs, 0, c);
    let second = string_of_range(&cs, c + 1, n);
    proof {
        assert(first@ =~= text@.take(c as int));
        assert(second@ =~= text@.skip(c + 1));
    }
    let start = parse_date_at(first.as_str(), 0, 0, 0);
    let end = parse_date_at(second.as_str(), 23, 59, 59);
    custom_range(start, end)
}

/// The custom range of two parsed dates: from the first to the second; the
/// first date that did not parse gives the error.
pub fn custom_range(start: Result<i64, chrono::ParseError>, end: Result<i64, chrono::ParseError>) -> (r:
    Result<TimeRange, RangeFlagError>)
    ensures
        match (start, end) {
            (Ok(s), Ok(e)) => r matches Ok(t) && t == (TimeRange::Custom { start: s, end: e }),
            (Err(a), _) => r matches Err(RangeFlagError::Date(b)) && b == a,
            (Ok(_), Err(a)) => r matches Err(RangeFlagError::Date(b)) && b == a,
        },
{
    match start {
        Err(e) => Err(RangeFlagError::Date(e)),
        Ok(s) => match end {
            Err(e) => Err(RangeFlagError::Date(e)),
            Ok(e) => Ok(TimeRange::Custom { start: s, end: e }),
        },
    }
}

} // verus!
