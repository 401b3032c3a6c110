use vstd::prelude::*;
use chrono::{DateTime, Local};

verus! {

/// Whether chrono accepts `s` as an RFC 3339 date and time: the outcome of
/// `DateTime::parse_from_rfc3339`.
pub uninterp spec fn rfc3339_accepts(s: Seq<char>) -> bool;

/// The two strftime patterns the exporter formats with.
pub open spec fn known_pattern(fmt: Seq<char>) -> bool {
    fmt == "%Y-%m-%d %H:%M"@ || fmt == "%Y-%m-%d"@
}

pub open spec fn is_digit(c: char) -> bool {
    '0' <= c <= '9'
}

/// A year as chrono writes `%Y`: four digits for 0 to 9999, otherwise a sign
/// and at least four digits (chrono's years stay within six digits).
pub open spec fn year_text(y: Seq<char>) -> bool {
    ||| y.len() == 4 && forall|k: int| 0 <= k < 4 ==> is_digit(#[trigger] y[k])
    ||| 5 <= y.len() <= 7 && (y[0] == '+' || y[0] == '-') && forall|k: int|
        1 <= k < y.len() ==> is_digit(#[trigger] y[k])
}

/// Text of the pattern `%Y-%m-%d`: a year, then `-MM-DD`.
pub open spec fn date_text(t: Seq<char>) -> bool {
    let n = t.len() as int;
    &&& n >= 10
    &&& year_text(t.take(n - 6))
    &&& t[n - 6] == '-'
    &&& is_digit(t[n - 5])
    &&& is_digit(t[n - 4])
    &&& t[n - 3] == '-'
    &&& is_digit(t[n - 2])
    &&& is_digit(t[n - 1])
}

/// Text of the pattern `%Y-%m-%d %H:%M`: a date, then ` HH:MM`.
pub open spec fn minute_text(t: Seq<char>) -> bool {
    let n = t.len() as int;
    &&& n >= 16
    &&& date_text(t.take(n - 6))
    &&& t[n - 6] == ' '
    &&& is_digit(t[n - 5])
    &&& is_digit(t[n - 4])
    &&& t[n - 3] == ':'
    &&& is_digit(t[n - 2])
    &&& is_digit(t[n - 1])
}

/// What chrono writes for one of the two patterns.
pub open spec fn pattern_text(fmt: Seq<char>, t: Seq<char>) -> bool {
    if fmt == "%Y-%m-%d"@ {
        date_text(t)
    } else {
        minute_text(t)
    }
}

/// The number a run of decimal digits writes.
pub open spec fn digits_value(s: Seq<char>) -> int
    decreases s.len(),
{
    if s.len() == 0 {
        0
    } else {
        digits_value(s.drop_last()) * 10 + (s.last() as int - '0' as int)
    }
}

/// The year a `%Y` text writes: four digits, or a sign and digits.
pub open spec fn year_value(y: Seq<char>) -> int {
    if y.len() > 0 && y[0] == '-' {
        -digits_value(y.drop_first())
    } else if y.len() > 0 && y[0] == '+' {
        digits_value(y.drop_first())
    } else {
        digits_value(y)
    }
}

/// The number of days from 1970-01-01 to a date of the proleptic Gregorian
/// calendar (negative before it).
pub open spec fn day_number(year: int, month: int, day: int) -> int {
    let y = if month <= 2 {
        year - 1
    } else {
        year
    };
    let era = y / 400;
    let year_of_era = y - era * 400;
    let shifted_month = if month > 2 {
        month - 3
    } else {
        month + 9
    };
    let day_of_year = (153 * shifted_month + 2) / 5 + day - 1;
    let day_of_era = year_of_era * 365 + year_of_era / 4 - year_of_era / 100 + day_of_year;
    era * 146097 + day_of_era - 719468
}

/// The day a date text (a year, then `-MM-DD`) stands for.
pub open spec fn date_day(t: Seq<char>) -> int {
    let n = t.len() as int;
    day_number(
        year_value(t.take(n - 6)),
        digits_value(t.subrange(n - 5, n - 3)),
        digits_value(t.subrange(n - 2, n)),
    )
}

/// The date part of a text written with one of the two patterns.
pub open spec fn date_part(fmt: Seq<char>, t: Seq<char>) -> Seq<char> {
    if fmt == "%Y-%m-%d"@ {
        t
    } else {
        t.take(t.len() - 6)
    }
}

/// `s` opens with the date `YYYY-MM-DD` that an RFC 3339 timestamp is
/// written with, and `date` lies at most two days from it.
pub open spec fn near_written_date(s: Seq<char>, date: Seq<char>) -> bool {
    &&& s.len() >= 10
    &&& date_text(s.take(10))
    &&& -2 <= date_day(date) - date_day(s.take(10)) <= 2
}

/// The local creation time shown for an accepted RFC 3339 timestamp `raw`:
/// text of the pattern `%Y-%m-%d %H:%M` whose date lies at most two days
/// from the date written in `raw`.
pub open spec fn local_minute_of(raw: Seq<char>, t: Seq<char>) -> bool {
    minute_text(t) && near_written_date(raw, t.take(t.len() - 6))
}

/// The two patterns are told apart.
pub proof fn lemma_patterns_differ()
    ensures
        "%Y-%m-%d %H:%M"@ != "%Y-%m-%d"@,
{
    reveal_strlit("%Y-%m-%d %H:%M");
    reveal_strlit("%Y-%m-%d");
    assert("%Y-%m-%d %H:%M"@.len() != "%Y-%m-%d"@.len());
}

/// Calls `DateTime::parse_from_rfc3339`, then, on the instant parsed,
/// `with_timezone(&Local)` and `format(fmt)`. The parsed `DateTime` is
/// generic over chrono's `TimeZone` trait, which a contract here cannot
/// name, so it stays inside this item. Claimed: text comes back exactly when
/// chrono accepts `s` (`rfc3339_accepts`), and it has the shape chrono
/// writes for the pattern (two-digit month, day, hour and minute fields, a
/// four-digit or signed year); which date and time it shows depends on the
/// machine's time zone and is not stated beyond this: the date shown lies
/// at most two days from the date written at the start of `s`. The parser
/// accepts only text that opens with `YYYY-MM-DD` and an offset of at most
/// 23:59; the instant is the written time less that offset, and it is shown
/// at a local offset that, being a `FixedOffset`, is less than a day.
#[verifier::external_body]
pub(crate) fn rfc3339_in_local_time(s: &str, fmt: &str) -> (r: Option<String>)
    requires
        known_pattern(fmt@),
    ensures
        r is Some == rfc3339_accepts(s@),
        r matches Some(t) ==> pattern_text(fmt@, t@) && near_written_date(
            s@,
            date_part(fmt@, t@),
        ),
{
    match DateTime::parse_from_rfc3339(s) {
        Ok(dt) => Some(dt.with_timezone(&Local).format(fmt).to_string()),
        Err(_) => None,
    }
}

/// Calls `Local::now` and `format(fmt)`. Claimed: the text has the shape
/// chrono writes for the pattern; which date and time it shows depends on
/// the clock and the machine's time zone and is not stated.
#[verifier::external_body]
pub(crate) fn now_in_local_time(fmt: &str) -> (r: String)
    requires
        known_pattern(fmt@),
    ensures
        pattern_text(fmt@, r@),
{
    Local::now().format(fmt).to_string()
}

} // verus!
