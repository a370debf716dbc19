//! Calendar dates as plain values, and the `chrono` calls that read and write them.

use vstd::prelude::*;
use chrono::{DateTime, Datelike, NaiveDate, NaiveTime, Timelike, Utc};

verus! {

/// A calendar date (proleptic Gregorian).
#[derive(Debug, Clone, Copy, PartialEq, Eq, Structural)]
pub struct Date {
    pub year: i32,
    pub month: u32,
    pub day: u32,
}

/// A UTC date and time of day.
#[derive(Debug, Clone, Copy, PartialEq, Eq, Structural)]
pub struct UtcDateTime {
    pub date: Date,
    pub seconds_of_day: u32,
    pub nanosecond: u32,
}

/// Chronological order of dates.
pub open spec fn date_before(a: Date, b: Date) -> bool {
    a.year < b.year || (a.year == b.year && (a.month < b.month || (a.month == b.month && a.day
        < b.day)))
}

/// `<` on dates.
pub fn date_lt(a: Date, b: Date) -> (r: bool)
    ensures
        r == date_before(a, b),
{
    a.year < b.year || (a.year == b.year && (a.month < b.month || (a.month == b.month && a.day
        < b.day)))
}

impl UtcDateTime {
    /// The UTC calendar date of the instant.
    pub fn date_naive(&self) -> (d: Date)
        ensures
            d == self.date,
    {
        self.date
    }
}

/// The UTC date of an RFC 3339 timestamp, as chrono reads it.
pub uninterp spec fn spec_rfc3339_utc_date(s: Seq<char>) -> Option<Date>;

/// The date that chrono reads from a `%Y-%m-%d` text.
pub uninterp spec fn spec_ymd_date(s: Seq<char>) -> Option<Date>;

/// The RFC 3339 text of an RFC 3339 timestamp converted to UTC, as chrono writes it.
pub uninterp spec fn spec_rfc3339_in_utc(s: Seq<char>) -> Option<Seq<char>>;

/// The RFC 3339 text chrono writes for midnight UTC of a date.
pub uninterp spec fn spec_midnight_rfc3339(d: Date) -> Seq<char>;

/// A leap year of the Gregorian calendar.
pub open spec fn is_leap_year(y: int) -> bool {
    (y % 4 == 0 && y % 100 != 0) || y % 400 == 0
}

/// Number of days of a month.
pub open spec fn days_in_month(y: int, m: int) -> int {
    if m == 2 {
        if is_leap_year(y) { 29 } else { 28 }
    } else if m == 4 || m == 6 || m == 9 || m == 11 {
        30
    } else {
        31
    }
}

/// The date exists in the calendar, in a year written with four digits.
pub open spec fn four_digit_calendar_date(d: Date) -> bool {
    0 <= d.year <= 9999 && 1 <= d.month <= 12 && 1 <= d.day <= days_in_month(d.year as int, d.month as int)
}

/// A number below 100 written with two digits.
pub open spec fn two_digits(n: int) -> Seq<char> {
    seq![crate::text::digit_char((n / 10) as nat), crate::text::digit_char((n % 10) as nat)]
}

/// `YYYY-MM-DDT00:00:00+00:00` for a date.
pub open spec fn midnight_text(d: Date) -> Seq<char> {
    two_digits(d.year / 100) + two_digits((d.year % 100) as int) + seq!['-'] + two_digits(d.month as int) + seq!['-']
        + two_digits(d.day as int) + "T00:00:00+00:00"@
}

/// `DateTime::parse_from_rfc3339` followed by conversion to UTC and `date_naive`: the
/// result is named, not stated.
#[verifier::external_body]
pub(crate) fn rfc3339_utc_date(value: &str) -> (r: Option<Date>)
    ensures
        r == spec_rfc3339_utc_date(value@),
{
    match DateTime::parse_from_rfc3339(value) {
        Ok(dt) => {
            let d = dt.with_timezone(&Utc).date_naive();
            Some(Date { year: d.year(), month: d.month(), day: d.day() })
        },
        Err(_) => None,
    }
}

/// `NaiveDate::parse_from_str(value, "%Y-%m-%d")`: the result is named, not stated.
#[verifier::external_body]
pub(crate) fn ymd_date(value: &str) -> (r: Option<Date>)
    ensures
        r == spec_ymd_date(value@),
{
    match NaiveDate::parse_from_str(value, "%Y-%m-%d") {
        Ok(d) => Some(Date { year: d.year(), month: d.month(), day: d.day() }),
        Err(_) => None,
    }
}

/// `DateTime::parse_from_rfc3339` followed by conversion to UTC and `to_rfc3339`: the
/// result is named, not stated.
#[verifier::external_body]
pub(crate) fn rfc3339_in_utc(value: &str) -> (r: Option<String>)
    ensures
        r matches Some(s) ==> spec_rfc3339_in_utc(value@) == Some(s@),
        r is None ==> spec_rfc3339_in_utc(value@) is None,
{
    match DateTime::parse_from_rfc3339(value) {
        Ok(dt) => Some(dt.with_timezone(&Utc).to_rfc3339()),
        Err(_) => None,
    }
}

/// `date.and_time(NaiveTime::MIN).and_utc().to_rfc3339()`. Claims: the text is named;
/// for a date of the calendar in a four-digit year it is `YYYY-MM-DDT00:00:00+00:00`,
/// as chrono writes RFC 3339 with a zero offset and no fraction of a second.
#[verifier::external_body]
pub(crate) fn midnight_rfc3339(d: Date) -> (s: String)
    ensures
        s@ == spec_midnight_rfc3339(d),
        four_digit_calendar_date(d) ==> s@ == midnight_text(d),
{
    match NaiveDate::from_ymd_opt(d.year, d.month, d.day) {
        Some(nd) => nd.and_time(NaiveTime::MIN).and_utc().to_rfc3339(),
        None => String::new(),
    }
}

/// `Utc::now()`: the current instant. Nothing is promised of it.
#[verifier::external_body]
pub(crate) fn utc_now() -> (t: UtcDateTime)
{
    let now = Utc::now();
    let d = now.date_naive();
    UtcDateTime {
        date: Date { year: d.year(), month: d.month(), day: d.day() },
        seconds_of_day: now.num_seconds_from_midnight(),
        nanosecond: now.nanosecond(),
    }
}


/// `Utc::now().format("%Y-%m-%dT%H:%M:%SZ").to_string()`: the current instant as text.
/// Nothing is promised of it.
#[verifier::external_body]
pub(crate) fn utc_now_text() -> (s: String)
{
    Utc::now().format("%Y-%m-%dT%H:%M:%SZ").to_string()
}

} // verus!
