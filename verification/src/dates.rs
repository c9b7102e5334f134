//! Calendar dates as plain values, the month arithmetic the rate rules need,
//! and the few places where the calendar is read from `chrono`.

use chrono::{Datelike, Timelike};
use vstd::prelude::*;

verus! {

/// A calendar date of the proleptic Gregorian calendar.
#[derive(Clone, Copy, Debug, PartialEq, Eq, Structural)]
pub struct Date {
    pub year: i32,
    pub month: u32,
    pub day: u32,
}

/// An instant in UTC: a date, the second of that day and the nanosecond of
/// that second.
#[derive(Clone, Copy, Debug, PartialEq, Eq, Structural)]
pub struct Timestamp {
    pub date: Date,
    pub second_of_day: u32,
    pub nanosecond: u32,
}

/// Whether `year` is a leap year of the proleptic Gregorian calendar.
pub open spec fn is_leap_year(year: int) -> bool {
    year % 4 == 0 && (year % 100 != 0 || year % 400 == 0)
}

/// Number of days of `month` in `year`; 0 for a month outside 1..=12.
pub open spec fn days_in_month(year: int, month: int) -> int {
    if month == 2 {
        if is_leap_year(year) {
            29
        } else {
            28
        }
    } else if month == 4 || month == 6 || month == 9 || month == 11 {
        30
    } else if 1 <= month <= 12 {
        31
    } else {
        0
    }
}

/// `a` is strictly earlier than `b`.
pub open spec fn date_before(a: Date, b: Date) -> bool {
    a.year < b.year || (a.year == b.year && (a.month < b.month || (a.month == b.month && a.day
        < b.day)))
}

/// The last calendar day of `month` in `year`.
pub open spec fn last_day_of(year: i32, month: u32) -> Date {
    Date { year, month, day: days_in_month(year as int, month as int) as u32 }
}

/// The month `(year, month)` lies strictly before the month of `date`.
pub open spec fn month_before(year: i32, month: u32, date: Date) -> bool {
    year < date.year || (year == date.year && month < date.month)
}

/// `date` falls strictly after the last calendar day of `(year, month)`.
pub open spec fn after_month_end(date: Date, year: i32, month: u32) -> bool {
    date_before(last_day_of(year, month), date)
}

impl Date {
    /// The date exists in the calendar.
    pub open spec fn wf(&self) -> bool {
        &&& 1 <= self.month <= 12
        &&& 1 <= self.day <= days_in_month(self.year as int, self.month as int)
    }

    /// Whether `self` is strictly later than `other`.
    pub fn is_after(&self, other: &Date) -> (r: bool)
        ensures
            r == date_before(*other, *self),
    {
        if self.year != other.year {
            self.year > other.year
        } else if self.month != other.month {
            self.month > other.month
        } else {
            self.day > other.day
        }
    }
}

impl Timestamp {
    /// The date part exists in the calendar.
    pub open spec fn wf(&self) -> bool {
        self.date.wf()
    }
}

/// Whether `year` is a leap year.
pub fn leap_year(year: i32) -> (r: bool)
    ensures
        r == is_leap_year(year as int),
{
    year % 4 == 0 && (year % 100 != 0 || year % 400 == 0)
}

/// The last calendar day of `month` in `year`.
pub fn last_day_of_month(year: i32, month: u32) -> (d: Date)
    requires
        1 <= month <= 12,
    ensures
        d == last_day_of(year, month),
        d.wf(),
{
    let day: u32 = if month == 2 {
        if leap_year(year) {
            29
        } else {
            28
        }
    } else if month == 4 || month == 6 || month == 9 || month == 11 {
        30
    } else {
        31
    };
    Date { year, month, day }
}

/// Whether `date` falls strictly after the last calendar day of
/// `(year, month)`.
pub fn is_after_month_end(date: &Date, year: i32, month: u32) -> (r: bool)
    requires
        1 <= month <= 12,
    ensures
        r == after_month_end(*date, year, month),
{
    let last_day = last_day_of_month(year, month);
    date.is_after(&last_day)
}

/// A date that exists in the calendar falls after the end of a month exactly
/// when it belongs to a later month.
pub proof fn lemma_after_month_end_is_later_month(date: Date, year: i32, month: u32)
    requires
        date.wf(),
        1 <= month <= 12,
    ensures
        after_month_end(date, year, month) == month_before(year, month, date),
{
}

/// What `chrono::NaiveDate::parse_from_str` makes of `text` under `format`:
/// the year, month and day of the date it returns, or `None` where it returns
/// an error.
pub uninterp spec fn naive_date_from_str(text: Seq<char>, format: Seq<char>) -> Option<
    (i32, u32, u32),
>;

/// `text` read as a date under `format`, where it is one.
pub open spec fn parsed_date(text: Seq<char>, format: Seq<char>) -> Option<Date> {
    match naive_date_from_str(text, format) {
        Some((year, month, day)) => Some(Date { year, month, day }),
        None => None,
    }
}

/// Calls `chrono::NaiveDate::parse_from_str(text, format)` and hands back the
/// year, month and day of the date, or `None` for an error. Trusted: the
/// outcome is the one named by `naive_date_from_str`, and a date that chrono
/// returns exists in the calendar.
#[verifier::external_body]
pub(crate) fn parse_date(text: &str, format: &str) -> (r: Option<Date>)
    ensures
        naive_date_from_str(text@, format@) == (match r {
            Some(d) => Some((d.year, d.month, d.day)),
            None => None,
        }),
        r matches Some(d) ==> d.wf(),
{
    match chrono::NaiveDate::parse_from_str(text, format) {
        Ok(d) => Some(Date { year: d.year(), month: d.month(), day: d.day() }),
        Err(_) => None,
    }
}

/// Reads the clock with `chrono::Utc::now()` and hands back the instant as
/// plain values. Trusted: only that its date exists in the calendar. Chrono
/// panics where the machine's clock stands before the year 1970.
#[verifier::external_body]
pub(crate) fn utc_now() -> (r: Timestamp)
    ensures
        r.wf(),
{
    let now = chrono::Utc::now().naive_utc();
    Timestamp {
        date: Date { year: now.year(), month: now.month(), day: now.day() },
        second_of_day: now.num_seconds_from_midnight(),
        nanosecond: now.nanosecond(),
    }
}

/// Reads the clock in the machine's time zone with `chrono::Local::now()` and
/// hands back its date. Trusted: only that the date exists in the calendar.
/// Chrono panics where the machine's clock stands before the year 1970.
#[verifier::external_body]
pub(crate) fn local_today() -> (r: Date)
    ensures
        r.wf(),
{
    let now = chrono::Local::now();
    Date { year: now.year(), month: now.month(), day: now.day() }
}

} // verus!
