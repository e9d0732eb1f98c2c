//! Calendar days and timestamps as plain numbers.
//!
//! A day is its number in the proleptic Gregorian calendar, with the first
//! of January of year 1 as day 1. Moving by whole days is then integer
//! arithmetic, and the windows of the estimator are integer intervals. The
//! calendar itself (which year, month and day a number stands for, and how
//! it is written) is `chrono`'s.

use chrono::Datelike;
use chrono::NaiveDate;
use chrono::NaiveDateTime;
use chrono::NaiveTime;
use chrono::Timelike;
use vstd::prelude::*;

verus! {

/// The day number that `chrono` gives to a year, month and day, if there is
/// such a day in its calendar.
pub uninterp spec fn ymd_day_number(year: i32, month: u32, day: u32) -> Option<i32>;

/// The day number that `chrono` reads from a text of the form `YYYY-MM-DD`,
/// if it accepts the text.
pub uninterp spec fn text_day_number(text: Seq<char>) -> Option<i32>;

/// How `chrono` writes a day number in the form `YYYY-MM-DD`, if its calendar
/// reaches that day.
pub uninterp spec fn day_number_text(number: i32) -> Option<Seq<char>>;

/// The day number and the second of the day that `chrono` reads from a text
/// of the form `YYYY-MM-DD HH:MM:SS`, if it accepts the text.
pub uninterp spec fn text_day_and_second(text: Seq<char>) -> Option<(i32, u32)>;

/// How `chrono` writes a day number and a second of the day in the form
/// `YYYY-MM-DD HH:MM:SS`, if its calendar reaches that day and the day has
/// that second.
pub uninterp spec fn day_and_second_text(number: i32, second: u32) -> Option<Seq<char>>;

/// Calls `chrono::NaiveDate::from_ymd_opt` and hands back the day number of
/// the date it made. Trusted: the result is what `ymd_day_number` names.
#[verifier::external_body]
fn chrono_day_number_of_ymd(year: i32, month: u32, day: u32) -> (r: Option<i32>)
    ensures
        r == ymd_day_number(year, month, day),
{
    match NaiveDate::from_ymd_opt(year, month, day) {
        Some(date) => Some(date.num_days_from_ce()),
        None => None,
    }
}

/// Calls `chrono::NaiveDate::parse_from_str` with the format `%Y-%m-%d` and
/// hands back the day number of the date it read. Trusted: the result is
/// what `text_day_number` names.
#[verifier::external_body]
fn chrono_parse_day_number(text: &str) -> (r: Option<i32>)
    ensures
        r == text_day_number(text@),
{
    match NaiveDate::parse_from_str(text, "%Y-%m-%d") {
        Ok(date) => Some(date.num_days_from_ce()),
        Err(_) => None,
    }
}

/// Calls `chrono::NaiveDate::format` with the format `%Y-%m-%d` on the date
/// with the given day number. Trusted: the result is what `day_number_text`
/// names.
#[verifier::external_body]
fn chrono_format_day_number(number: i32) -> (r: Option<String>)
    ensures
        r matches Some(text) ==> day_number_text(number) == Some(text@),
        r is None ==> day_number_text(number) is None,
{
    match NaiveDate::from_num_days_from_ce_opt(number) {
        Some(date) => Some(date.format("%Y-%m-%d").to_string()),
        None => None,
    }
}

/// Calls `chrono::NaiveDateTime::parse_from_str` with the format
/// `%Y-%m-%d %H:%M:%S` and hands back the day number and the second of the
/// day that it read. Trusted: the result is what `text_day_and_second` names.
#[verifier::external_body]
fn chrono_parse_day_and_second(text: &str) -> (r: Option<(i32, u32)>)
    ensures
        r == text_day_and_second(text@),
{
    match NaiveDateTime::parse_from_str(text, "%Y-%m-%d %H:%M:%S") {
        Ok(moment) => Some((moment.num_days_from_ce(), moment.num_seconds_from_midnight())),
        Err(_) => None,
    }
}

/// Calls `chrono::NaiveDateTime::format` with the format `%Y-%m-%d %H:%M:%S`
/// on the moment with the given day number and second of the day. Trusted:
/// the result is what `day_and_second_text` names.
#[verifier::external_body]
fn chrono_format_day_and_second(number: i32, second: u32) -> (r: Option<String>)
    ensures
        r matches Some(text) ==> day_and_second_text(number, second) == Some(text@),
        r is None ==> day_and_second_text(number, second) is None,
{
    match (
        NaiveDate::from_num_days_from_ce_opt(number),
        NaiveTime::from_num_seconds_from_midnight_opt(second, 0),
    ) {
        (Some(date), Some(time)) => Some(
            date.and_time(time).format("%Y-%m-%d %H:%M:%S").to_string(),
        ),
        _ => None,
    }
}

/// A calendar day.
#[derive(Clone, Copy, Debug, PartialEq, Eq, Structural)]
pub struct Date {
    /// Days since the last day of the year before year 1.
    pub number: i32,
}

impl View for Date {
    type V = int;

    open spec fn view(&self) -> int {
        self.number as int
    }
}

impl Date {
    /// The day with the given year, month and day of the month, where the
    /// calendar has one.
    pub fn from_ymd(year: i32, month: u32, day: u32) -> (r: Option<Date>)
        ensures
            r == match ymd_day_number(year, month, day) {
                Some(number) => Some(Date { number }),
                None => None,
            },
    {
        match chrono_day_number_of_ymd(year, month, day) {
            Some(number) => Some(Date { number }),
            None => None,
        }
    }

    /// Reads a day written as `YYYY-MM-DD`.
    pub fn parse(text: &str) -> (r: Option<Date>)
        ensures
            r == match text_day_number(text@) {
                Some(number) => Some(Date { number }),
                None => None,
            },
    {
        match chrono_parse_day_number(text) {
            Some(number) => Some(Date { number }),
            None => None,
        }
    }

    /// Writes the day as `YYYY-MM-DD`, where the calendar reaches it.
    pub fn to_text(&self) -> (r: Option<String>)
        ensures
            r matches Some(text) ==> day_number_text(self.number) == Some(text@),
            r is None ==> day_number_text(self.number) is None,
    {
        chrono_format_day_number(self.number)
    }

    /// The day `days` days earlier, unless its number leaves `i32`.
    pub fn minus_days(&self, days: u32) -> (r: Option<Date>)
        ensures
            r matches Some(d) ==> d@ == self@ - days,
            r is None <==> self@ - days < i32::MIN,
    {
        let number: i64 = self.number as i64 - days as i64;
        if number < i32::MIN as i64 {
            None
        } else {
            Some(Date { number: number as i32 })
        }
    }

    /// Whether the day lies in the closed interval of day numbers from
    /// `from` to `to`. An interval whose end precedes its start holds no day.
    pub open spec fn within(&self, from: int, to: int) -> bool {
        from <= self@ <= to
    }

    /// Computes `within`.
    pub fn is_within(&self, from: i64, to: i64) -> (r: bool)
        ensures
            r == self.within(from as int, to as int),
    {
        from <= self.number as i64 && self.number as i64 <= to
    }
}

/// A moment: a day and a second of that day.
#[derive(Clone, Copy, Debug, PartialEq, Eq, Structural)]
pub struct Timestamp {
    pub date: Date,
    /// Seconds since midnight.
    pub second: u32,
}

impl Timestamp {
    /// Whether this moment is `other` or comes before it.
    pub open spec fn at_or_before(&self, other: Timestamp) -> bool {
        self.date@ < other.date@ || (self.date@ == other.date@ && self.second <= other.second)
    }

    /// Computes `at_or_before`.
    pub fn is_at_or_before(&self, other: &Timestamp) -> (r: bool)
        ensures
            r == self.at_or_before(*other),
    {
        self.date.number < other.date.number || (self.date.number == other.date.number
            && self.second <= other.second)
    }

    /// Midnight at the start of `date`.
    pub fn start_of(date: Date) -> (r: Timestamp)
        ensures
            r == (Timestamp { date, second: 0 }),
    {
        Timestamp { date, second: 0 }
    }

    /// The moment at the given hour, minute and second of `date`, if the day
    /// has such a moment.
    pub fn from_date_hms(date: Date, hour: u32, minute: u32, second: u32) -> (r: Option<Timestamp>)
        ensures
            r is Some <==> hour < 24 && minute < 60 && second < 60,
            r matches Some(t) ==> t.date == date && t.second == hour * 3600 + minute * 60 + second,
    {
        if hour < 24 && minute < 60 && second < 60 {
            Some(Timestamp { date, second: hour * 3600 + minute * 60 + second })
        } else {
            None
        }
    }

    /// The moment that two readings of one text give: the reading as a day
    /// and a second where there is one, else the reading as a day alone,
    /// taken as that day's midnight.
    pub fn from_readings(moment: Option<(i32, u32)>, day: Option<i32>) -> (r: Option<Timestamp>)
        ensures
            r == match moment {
                Some((number, second)) => Some(Timestamp { date: Date { number }, second }),
                None => match day {
                    Some(number) => Some(Timestamp { date: Date { number }, second: 0 }),
                    None => None,
                },
            },
    {
        match moment {
            Some((number, second)) => Some(Timestamp { date: Date { number }, second }),
            None => match day {
                Some(number) => Some(Timestamp::start_of(Date { number })),
                None => None,
            },
        }
    }

    /// Reads a moment written as `YYYY-MM-DD HH:MM:SS`. A text that holds
    /// only a day, written as `YYYY-MM-DD`, is read as that day's midnight.
    pub fn parse(text: &str) -> (r: Option<Timestamp>)
        ensures
            r == match text_day_and_second(text@) {
                Some((number, second)) => Some(Timestamp { date: Date { number }, second }),
                None => match text_day_number(text@) {
                    Some(number) => Some(Timestamp { date: Date { number }, second: 0 }),
                    None => None,
                },
            },
    {
        Timestamp::from_readings(chrono_parse_day_and_second(text), chrono_parse_day_number(text))
    }

    /// Writes the moment as `YYYY-MM-DD HH:MM:SS`, where the calendar reaches
    /// its day and the day has its second.
    pub fn to_text(&self) -> (r: Option<String>)
        ensures
            r matches Some(text) ==> day_and_second_text(self.date.number, self.second) == Some(
                text@,
            ),
            r is None ==> day_and_second_text(self.date.number, self.second) is None,
    {
        chrono_format_day_and_second(self.date.number, self.second)
    }
}

} // verus!
