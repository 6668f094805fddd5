//! Calendar dates and naive date-times held as plain numbers, and the
//! strftime-style parsing that produces them.
use chrono::{Datelike, Timelike};
use vstd::prelude::*;

verus! {

/// Whether a year of the proleptic Gregorian calendar is a leap year.
pub open spec fn is_leap_year(year: int) -> bool {
    (year % 4 == 0 && year % 100 != 0) || year % 400 == 0
}

/// The number of days in a month (1 to 12) of a year.
pub open spec fn days_in_month(year: int, month: int) -> int {
    if month == 2 {
        if is_leap_year(year) {
            29
        } else {
            28
        }
    } else if month == 4 || month == 6 || month == 9 || month == 11 {
        30
    } else {
        31
    }
}

/// A date as its contracts see it.
pub struct DateView {
    pub year: int,
    pub month: int,
    pub day: int,
}

impl DateView {
    /// A day that the proleptic Gregorian calendar has.
    pub open spec fn wf(self) -> bool {
        &&& 1 <= self.month <= 12
        &&& 1 <= self.day <= days_in_month(self.year, self.month)
    }
}

/// A naive date-time (no time zone) as its contracts see it. A leap second
/// is a `nanosecond` of a billion or more in the 59th second.
pub struct DateTimeView {
    pub date: DateView,
    pub hour: int,
    pub minute: int,
    pub second: int,
    pub nanosecond: int,
}

impl DateTimeView {
    /// A valid date with a valid time of day.
    pub open spec fn wf(self) -> bool {
        &&& self.date.wf()
        &&& 0 <= self.hour < 24
        &&& 0 <= self.minute < 60
        &&& 0 <= self.second < 60
        &&& 0 <= self.nanosecond < 2_000_000_000
    }

    /// The first instant of a day.
    pub open spec fn midnight(date: DateView) -> DateTimeView {
        DateTimeView { date, hour: 0, minute: 0, second: 0, nanosecond: 0 }
    }
}

/// A calendar date.
#[derive(Debug, Clone, Copy, PartialEq, Eq, Structural)]
pub struct Date {
    year: i32,
    month: u32,
    day: u32,
}

/// A date and a time of day, without a time zone.
#[derive(Debug, Clone, Copy, PartialEq, Eq, Structural)]
pub struct DateTime {
    date: Date,
    hour: u32,
    minute: u32,
    second: u32,
    nanosecond: u32,
}

impl View for Date {
    type V = DateView;

    closed spec fn view(&self) -> DateView {
        DateView { year: self.year as int, month: self.month as int, day: self.day as int }
    }
}

impl View for DateTime {
    type V = DateTimeView;

    closed spec fn view(&self) -> DateTimeView {
        DateTimeView {
            date: self.date@,
            hour: self.hour as int,
            minute: self.minute as int,
            second: self.second as int,
            nanosecond: self.nanosecond as int,
        }
    }
}

/// The date that `s` spells under the strftime-style layout `fmt`, as
/// chrono's `NaiveDate::parse_from_str` reads it; none where it does not fit.
pub uninterp spec fn parsed_date(s: Seq<char>, fmt: Seq<char>) -> Option<DateView>;

/// The date-time that `s` spells under the strftime-style layout `fmt`, as
/// chrono's `NaiveDateTime::parse_from_str` reads it; none where it does not fit.
pub uninterp spec fn parsed_date_time(s: Seq<char>, fmt: Seq<char>) -> Option<DateTimeView>;

/// Relies on chrono's `NaiveDate::parse_from_str`, which either fails or
/// gives a date of the proleptic Gregorian calendar.
#[verifier::external_body]
fn chrono_parse_date(s: &str, fmt: &str) -> (r: Option<Date>)
    ensures
        match r {
            Some(d) => parsed_date(s@, fmt@) == Some(d@),
            None => parsed_date(s@, fmt@) is None,
        },
        r is Some ==> r->Some_0@.wf(),
{
    chrono::NaiveDate::parse_from_str(s, fmt).ok().map(
        |d| Date { year: d.year(), month: d.month(), day: d.day() },
    )
}

/// Relies on chrono's `NaiveDateTime::parse_from_str`, which either fails or
/// gives a valid date with a valid time of day.
#[verifier::external_body]
fn chrono_parse_date_time(s: &str, fmt: &str) -> (r: Option<DateTime>)
    ensures
        match r {
            Some(t) => parsed_date_time(s@, fmt@) == Some(t@),
            None => parsed_date_time(s@, fmt@) is None,
        },
        r is Some ==> r->Some_0@.wf(),
{
    chrono::NaiveDateTime::parse_from_str(s, fmt).ok().map(
        |t| DateTime {
            date: Date { year: t.year(), month: t.month(), day: t.day() },
            hour: t.hour(),
            minute: t.minute(),
            second: t.second(),
            nanosecond: t.nanosecond(),
        },
    )
}

impl Date {
    /// Parses a date under a strftime-style layout; `None` where `s` does
    /// not fit the layout or names no valid date.
    pub fn parse_from_str(s: &str, fmt: &str) -> (r: Option<Date>)
        ensures
            match r {
                Some(d) => parsed_date(s@, fmt@) == Some(d@) && d@.wf(),
                None => parsed_date(s@, fmt@) is None,
            },
    {
        chrono_parse_date(s, fmt)
    }

    /// The year (proleptic Gregorian; year 0 is 1 BCE).
    pub fn year(&self) -> (r: i32)
        ensures
            r as int == self@.year,
    {
        self.year
    }

    /// The month, from 1 to 12.
    pub fn month(&self) -> (r: u32)
        ensures
            r as int == self@.month,
    {
        self.month
    }

    /// The day of the month, from 1.
    pub fn day(&self) -> (r: u32)
        ensures
            r as int == self@.day,
    {
        self.day
    }

    /// The first instant of this day.
    pub fn and_midnight(self) -> (r: DateTime)
        ensures
            r@ == DateTimeView::midnight(self@),
    {
        DateTime { date: self, hour: 0, minute: 0, second: 0, nanosecond: 0 }
    }
}

impl DateTime {
    /// Parses a date and a time of day under a strftime-style layout; `None`
    /// where `s` does not fit the layout or names no valid date-time.
    pub fn parse_from_str(s: &str, fmt: &str) -> (r: Option<DateTime>)
        ensures
            match r {
                Some(t) => parsed_date_time(s@, fmt@) == Some(t@) && t@.wf(),
                None => parsed_date_time(s@, fmt@) is None,
            },
    {
        chrono_parse_date_time(s, fmt)
    }

    /// The calendar date.
    pub fn date(&self) -> (r: Date)
        ensures
            r@ == self@.date,
    {
        self.date
    }

    /// The hour, from 0 to 23.
    pub fn hour(&self) -> (r: u32)
        ensures
            r as int == self@.hour,
    {
        self.hour
    }

    /// The minute, from 0 to 59.
    pub fn minute(&self) -> (r: u32)
        ensures
            r as int == self@.minute,
    {
        self.minute
    }

    /// The second, from 0 to 59.
    pub fn second(&self) -> (r: u32)
        ensures
            r as int == self@.second,
    {
        self.second
    }

    /// The nanoseconds past the second; a billion or more in a leap second.
    pub fn nanosecond(&self) -> (r: u32)
        ensures
            r as int == self@.nanosecond,
    {
        self.nanosecond
    }
}

} // verus!
