//! Calendar days, counted from 1 January 1970.

use chrono::{NaiveDate, TimeDelta, TimeZone, Utc};
use vstd::prelude::*;

verus! {

/// The first day that the calendar of `chrono` reaches, 1 January -262143.
pub const FIRST_DAY: i32 = -96_465_292;

/// The last day that the calendar of `chrono` reaches, 31 December 262142.
pub const LAST_DAY: i32 = 95_026_236;

pub const SECONDS_PER_DAY: i64 = 86_400;

/// A calendar day in UTC.
#[derive(Clone, Copy, Debug, PartialEq, Eq, PartialOrd, Ord, Structural)]
pub struct Date {
    /// Days since 1 January 1970.
    pub epoch_day: i32,
}

pub open spec fn in_calendar(day: int) -> bool {
    FIRST_DAY <= day <= LAST_DAY
}

/// The day that `chrono` reads out of a text of the form `%Y-%m-%d`, if it reads one.
pub uninterp spec fn day_of_text(text: Seq<char>) -> Option<i32>;

/// The text in which `chrono` displays a day.
pub uninterp spec fn text_of_day(day: i32) -> Seq<char>;

/// `NaiveDate::parse_from_str` with the format `%Y-%m-%d`.
///
/// The day that it reads is named, not described; it lies in the calendar.
#[verifier::external_body]
fn parse_day(text: &str) -> (day: Option<i32>)
    ensures
        day == day_of_text(text@),
        day matches Some(d) ==> in_calendar(d as int),
{
    match NaiveDate::parse_from_str(text, "%Y-%m-%d") {
        Ok(date) => Some(date.to_epoch_days()),
        Err(_) => None,
    }
}

/// `NaiveDate::to_string`, the date in ISO 8601 form. The text is named, not described.
#[verifier::external_body]
fn day_text(day: i32) -> (text: String)
    requires
        in_calendar(day as int),
    ensures
        text@ == text_of_day(day),
{
    NaiveDate::from_epoch_days(day).unwrap().to_string()
}

/// `Utc.timestamp_opt` and the day of the resulting instant: whole days of 86 400
/// seconds since the epoch, rounded down, where the calendar reaches that day.
#[verifier::external_body]
fn day_of_timestamp(seconds: i64) -> (day: Option<i32>)
    ensures
        day is Some <==> in_calendar(seconds as int / SECONDS_PER_DAY as int),
        day matches Some(d) ==> d == seconds as int / SECONDS_PER_DAY as int,
{
    let instant = Utc.timestamp_opt(seconds, 0).single()?;
    Some(instant.date_naive().to_epoch_days())
}

/// `NaiveDate::and_hms_opt`, `and_utc` and `timestamp`: the seconds from the epoch to the
/// given time of the day.
#[verifier::external_body]
fn timestamp_of_day(day: i32, hour: u32, minute: u32, second: u32) -> (seconds: i64)
    requires
        in_calendar(day as int),
        hour < 24,
        minute < 60,
        second < 60,
    ensures
        seconds == day * SECONDS_PER_DAY + hour * 3600 + minute * 60 + second,
{
    let date = NaiveDate::from_epoch_days(day).unwrap();
    date.and_hms_opt(hour, minute, second).unwrap().and_utc().timestamp()
}

/// `NaiveDate::checked_add_signed` with a whole number of days: the later (or earlier)
/// day, where the calendar reaches it.
#[verifier::external_body]
fn shift_day(day: i32, days: i64) -> (shifted: Option<i32>)
    requires
        in_calendar(day as int),
    ensures
        shifted is Some <==> in_calendar(day + days),
        shifted matches Some(d) ==> d == day + days,
{
    let date = NaiveDate::from_epoch_days(day)?;
    Some(date.checked_add_signed(TimeDelta::try_days(days)?)?.to_epoch_days())
}

impl Date {
    pub open spec fn valid(self) -> bool {
        in_calendar(self.epoch_day as int)
    }

    /// Reads a date written as `YYYY-MM-DD`.
    pub fn parse(text: &str) -> (r: Option<Date>)
        ensures
            r == (match day_of_text(text@) {
                Some(day) => Some(Date { epoch_day: day }),
                None => None,
            }),
            r matches Some(d) ==> d.valid(),
    {
        match parse_day(text) {
            Some(day) => Some(Date { epoch_day: day }),
            None => None,
        }
    }

    /// The date as `YYYY-MM-DD`.
    pub fn text(&self) -> (r: String)
        requires
            self.valid(),
        ensures
            r@ == text_of_day(self.epoch_day),
    {
        day_text(self.epoch_day)
    }

    /// The UTC date of an instant in seconds since the epoch.
    pub fn from_timestamp(seconds: i64) -> (r: Option<Date>)
        ensures
            r is Some <==> in_calendar(seconds as int / SECONDS_PER_DAY as int),
            r matches Some(d) ==> d.epoch_day == seconds as int / SECONDS_PER_DAY as int,
    {
        match day_of_timestamp(seconds) {
            Some(day) => Some(Date { epoch_day: day }),
            None => None,
        }
    }

    /// Midnight at the start of the date, in seconds since the epoch.
    pub fn first_second(&self) -> (r: i64)
        requires
            self.valid(),
        ensures
            r == self.epoch_day * SECONDS_PER_DAY,
    {
        timestamp_of_day(self.epoch_day, 0, 0, 0)
    }

    /// 23:59:59 of the date, in seconds since the epoch.
    pub fn last_second(&self) -> (r: i64)
        requires
            self.valid(),
        ensures
            r == self.epoch_day * SECONDS_PER_DAY + SECONDS_PER_DAY - 1,
    {
        timestamp_of_day(self.epoch_day, 23, 59, 59)
    }

    /// The date `days` later, if the calendar reaches it.
    pub fn plus_days(&self, days: i64) -> (r: Option<Date>)
        ensures
            r is Some <==> self.valid() && in_calendar(self.epoch_day + days),
            r matches Some(d) ==> d.epoch_day == self.epoch_day + days,
    {
        if self.epoch_day < FIRST_DAY || self.epoch_day > LAST_DAY {
            return None;
        }
        match shift_day(self.epoch_day, days) {
            Some(day) => Some(Date { epoch_day: day }),
            None => None,
        }
    }

    /// Days from `earlier` to this date.
    pub fn days_since(&self, earlier: &Date) -> (r: i64)
        ensures
            r == self.epoch_day - earlier.epoch_day,
    {
        self.epoch_day as i64 - earlier.epoch_day as i64
    }
}

} // verus!
