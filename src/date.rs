//! Calendar dates as day numbers, weekdays, and the projection of a term week
//! onto a date.

use vstd::prelude::*;
use chrono::Datelike;
use crate::text::{pad_dec, push_char, push_padded, text_eq};

verus! {

/// A day of the proleptic Gregorian calendar, counted so that 1 January of
/// year 1 is day 1 (chrono's "days from CE").
#[derive(Clone, Copy, Debug, PartialEq, Eq, Structural)]
pub struct Date {
    pub days: i32,
}

#[derive(Clone, Copy, Debug, PartialEq, Eq, Structural)]
pub enum Weekday {
    Mon,
    Tue,
    Wed,
    Thu,
    Fri,
    Sat,
    Sun,
}

#[derive(Clone, Copy, Debug, PartialEq, Eq, Structural)]
pub enum ProjectionError {
    /// The weekday name is not one of `Mon` .. `Sun`.
    InvalidDay,
    /// The projected day number does not fit a `Date`.
    OutOfRange,
}

/// The day number of a calendar date, as chrono computes it; `None` for a
/// date that does not exist or that chrono cannot represent.
pub uninterp spec fn ce_day_of(year: int, month: int, day: int) -> Option<int>;

/// The calendar date (year, month, day) of a day number, as chrono computes
/// it; `None` outside chrono's range.
pub uninterp spec fn civil_of(days: int) -> Option<(int, int, int)>;

/// Relies on chrono's `NaiveDate::from_ymd_opt`, read back as a day number
/// through `Datelike::num_days_from_ce`.
#[verifier::external_body]
fn day_number_of(year: i32, month: u32, day: u32) -> (r: Option<i32>)
    ensures
        r matches Some(n) ==> ce_day_of(year as int, month as int, day as int) == Some(n as int),
        r is None ==> ce_day_of(year as int, month as int, day as int) is None,
{
    match chrono::NaiveDate::from_ymd_opt(year, month, day) {
        Some(d) => Some(d.num_days_from_ce()),
        None => None,
    }
}

/// Relies on chrono's `NaiveDate::from_num_days_from_ce_opt`, read back as
/// year, month and day through `Datelike`.
#[verifier::external_body]
fn calendar_of(days: i32) -> (r: Option<(i32, u32, u32)>)
    ensures
        r matches Some(t) ==> civil_of(days as int) == Some((t.0 as int, t.1 as int, t.2 as int)),
        r is None ==> civil_of(days as int) is None,
{
    match chrono::NaiveDate::from_num_days_from_ce_opt(days) {
        Some(d) => Some((d.year(), d.month(), d.day())),
        None => None,
    }
}

impl Date {
    /// The date of a calendar day; `None` when no such date exists.
    pub fn from_ymd(year: i32, month: u32, day: u32) -> (r: Option<Date>)
        ensures
            r is Some <==> ce_day_of(year as int, month as int, day as int) is Some,
            r matches Some(d) ==> ce_day_of(year as int, month as int, day as int) == Some(
                d.days as int,
            ),
    {
        match day_number_of(year, month, day) {
            Some(n) => Some(Date { days: n }),
            None => None,
        }
    }

    /// Year, month and day of this date; `None` outside the calendar's range.
    pub fn ymd(&self) -> (r: Option<(i32, u32, u32)>)
        ensures
            r is Some <==> civil_of(self.days as int) is Some,
            r matches Some(t) ==> civil_of(self.days as int) == Some(
                (t.0 as int, t.1 as int, t.2 as int),
            ),
    {
        calendar_of(self.days)
    }
}

impl Weekday {
    /// Days after Monday.
    pub open spec fn offset_spec(self) -> int {
        match self {
            Weekday::Mon => 0,
            Weekday::Tue => 1,
            Weekday::Wed => 2,
            Weekday::Thu => 3,
            Weekday::Fri => 4,
            Weekday::Sat => 5,
            Weekday::Sun => 6,
        }
    }

    pub fn offset(&self) -> (r: i64)
        ensures
            r == self.offset_spec(),
    {
        match self {
            Weekday::Mon => 0,
            Weekday::Tue => 1,
            Weekday::Wed => 2,
            Weekday::Thu => 3,
            Weekday::Fri => 4,
            Weekday::Sat => 5,
            Weekday::Sun => 6,
        }
    }
}

/// The weekday a three-letter name stands for (case-sensitive).
pub open spec fn weekday_of(name: Seq<char>) -> Option<Weekday> {
    if name == "Mon"@ {
        Some(Weekday::Mon)
    } else if name == "Tue"@ {
        Some(Weekday::Tue)
    } else if name == "Wed"@ {
        Some(Weekday::Wed)
    } else if name == "Thu"@ {
        Some(Weekday::Thu)
    } else if name == "Fri"@ {
        Some(Weekday::Fri)
    } else if name == "Sat"@ {
        Some(Weekday::Sat)
    } else if name == "Sun"@ {
        Some(Weekday::Sun)
    } else {
        None
    }
}

pub fn parse_weekday(name: &str) -> (r: Option<Weekday>)
    ensures
        r == weekday_of(name@),
{
    if text_eq(name, "Mon") {
        Some(Weekday::Mon)
    } else if text_eq(name, "Tue") {
        Some(Weekday::Tue)
    } else if text_eq(name, "Wed") {
        Some(Weekday::Wed)
    } else if text_eq(name, "Thu") {
        Some(Weekday::Thu)
    } else if text_eq(name, "Fri") {
        Some(Weekday::Fri)
    } else if text_eq(name, "Sat") {
        Some(Weekday::Sat)
    } else if text_eq(name, "Sun") {
        Some(Weekday::Sun)
    } else {
        None
    }
}

/// Week 1 is the week that starts at `term_start`; week 0 is the one before it.
pub open spec fn projected_day(term_start: Date, week: u32, day: Weekday) -> int {
    term_start.days + 7 * (week - 1) + day.offset_spec()
}

pub open spec fn project_spec(term_start: Date, week: u32, name: Seq<char>) -> Result<
    Date,
    ProjectionError,
> {
    match weekday_of(name) {
        None => Err(ProjectionError::InvalidDay),
        Some(d) => {
            let n = projected_day(term_start, week, d);
            if i32::MIN <= n <= i32::MAX {
                Ok(Date { days: n as i32 })
            } else {
                Err(ProjectionError::OutOfRange)
            }
        },
    }
}

/// The date of weekday `name` in term week `week`:
/// `term_start + (week - 1) weeks + offset(name) days`.
pub fn project(term_start: Date, week: u32, name: &str) -> (r: Result<Date, ProjectionError>)
    ensures
        r == project_spec(term_start, week, name@),
{
    match parse_weekday(name) {
        None => Err(ProjectionError::InvalidDay),
        Some(d) => {
            let n: i64 = term_start.days as i64 + 7 * (week as i64 - 1) + d.offset();
            if i32::MIN as i64 <= n && n <= i32::MAX as i64 {
                Ok(Date { days: n as i32 })
            } else {
                Err(ProjectionError::OutOfRange)
            }
        },
    }
}

/// A year as chrono's `%Y` writes it: four digits at least, with a sign
/// outside 0 ..= 9999.
pub open spec fn year_text(y: int) -> Seq<char> {
    if 0 <= y <= 9999 {
        pad_dec(y as nat, 4)
    } else if y < 0 {
        seq!['-'] + pad_dec((-y) as nat, 4)
    } else {
        seq!['+'] + pad_dec(y as nat, 4)
    }
}

/// `YYYYMMDD`.
pub open spec fn date_digits(y: int, m: int, d: int) -> Seq<char> {
    year_text(y) + pad_dec(m as nat, 2) + pad_dec(d as nat, 2)
}

/// Appends a calendar date as `YYYYMMDD`.
pub fn push_date_digits(s: &mut String, y: i32, m: u32, d: u32)
    ensures
        final(s)@ == old(s)@ + date_digits(y as int, m as int, d as int),
{
    let ghost base = s@;
    if 0 <= y && y <= 9999 {
        push_padded(s, y as u32, 4);
    } else if y < 0 {
        push_char(s, '-');
        let a: u32 = (-(y as i64)) as u32;
        push_padded(s, a, 4);
    } else {
        push_char(s, '+');
        push_padded(s, y as u32, 4);
    }
    assert(s@ =~= base + year_text(y as int));
    push_padded(s, m, 2);
    push_padded(s, d, 2);
    assert(s@ =~= base + date_digits(y as int, m as int, d as int));
}

} // verus!
