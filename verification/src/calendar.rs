//! The calendar: reading timestamps from text and naming their dates.
//!
//! Calendar arithmetic is the business of `chrono`. The functions here that
//! call it are believed, not proved; each says so. What they return depends
//! on their arguments alone, and the contracts speak of it under the names
//! `parsed_civil`, `civil_date_of` and `seconds_at_date`. Of a date that
//! `chrono` names, one thing more is believed: its month is from 1 to 12 and
//! its day of month from 1 to 31.

use vstd::prelude::*;
use chrono::Datelike;
use crate::time::Timestamp;

verus! {

/// The layout of a timestamp in telemetry records: date and time of day
/// joined by `T`, with an optional decimal fraction of the second.
pub const ISO_DATE_FORMAT: &'static str = "%Y-%m-%dT%H:%M:%S%.f";

/// What `chrono::NaiveDateTime::parse_from_str` makes of `text` under the
/// layout `format`: the seconds since the civil epoch and the nanoseconds of
/// the reading, or `None` where it reports an error.
pub uninterp spec fn parsed_civil(text: Seq<char>, format: Seq<char>) -> Option<(int, int)>;

/// The year, month and day of month that `chrono::DateTime::from_timestamp`
/// gives for the whole second `secs`, or `None` where it gives no date.
pub uninterp spec fn civil_date_of(secs: int) -> Option<(int, int, int)>;

/// The seconds since the civil epoch at which the date that
/// `chrono::NaiveDate::from_ymd_opt` makes of year, month and day begins, or
/// `None` where it makes no date.
pub uninterp spec fn seconds_at_date(year: int, month: int, day: int) -> Option<int>;

/// Calls `chrono::NaiveDateTime::parse_from_str` and hands out the reading as
/// seconds and nanoseconds. Trusted: the result is the one that
/// `parsed_civil` names.
#[verifier::external_body]
fn parse_naive(text: &str, format: &str) -> (r: Option<(i64, u32)>)
    ensures
        parsed_civil(text@, format@) == match r {
            Some(p) => Some((p.0 as int, p.1 as int)),
            None => None,
        },
{
    match chrono::NaiveDateTime::parse_from_str(text, format) {
        Ok(reading) => Some(
            (reading.and_utc().timestamp(), reading.and_utc().timestamp_subsec_nanos()),
        ),
        Err(_) => None,
    }
}

/// Calls `chrono::DateTime::from_timestamp` for the whole second `secs` and
/// hands out year, month and day of month. Trusted: the result is the one
/// that `civil_date_of` names, and, as `chrono::Datelike` documents, the
/// month is from 1 to 12 and the day of month from 1 to 31.
#[verifier::external_body]
fn civil_date(secs: i64) -> (r: Option<(i32, u32, u32)>)
    ensures
        civil_date_of(secs as int) == match r {
            Some(d) => Some((d.0 as int, d.1 as int, d.2 as int)),
            None => None,
        },
        r matches Some(d) ==> 1 <= d.1 <= 12 && 1 <= d.2 <= 31,
{
    match chrono::DateTime::from_timestamp(secs, 0) {
        Some(reading) => Some((reading.year(), reading.month(), reading.day())),
        None => None,
    }
}

/// Calls `chrono::NaiveDate::from_ymd_opt` and hands out the second at which
/// that date begins. Trusted: the result is the one that `seconds_at_date`
/// names.
#[verifier::external_body]
fn date_seconds(year: i32, month: u32, day: u32) -> (r: Option<i64>)
    ensures
        seconds_at_date(year as int, month as int, day as int) == match r {
            Some(s) => Some(s as int),
            None => None,
        },
{
    match chrono::NaiveDate::from_ymd_opt(year, month, day) {
        Some(date) => Some(date.and_time(chrono::NaiveTime::MIN).and_utc().timestamp()),
        None => None,
    }
}

/// The timestamp for a parsed reading, if there is one.
pub open spec fn reading_of(parsed: Option<(int, int)>) -> Option<Timestamp> {
    match parsed {
        Some(p) => Some(Timestamp { secs: p.0 as i64, nanos: p.1 as u32 }),
        None => None,
    }
}

/// Reads a timestamp in the layout `ISO_DATE_FORMAT`; `None` where the text
/// does not hold one.
pub fn isoformat_to_dt(text: &str) -> (r: Option<Timestamp>)
    ensures
        r == reading_of(parsed_civil(text@, ISO_DATE_FORMAT@)),
{
    match parse_naive(text, ISO_DATE_FORMAT) {
        Some(p) => Some(Timestamp::new(p.0, p.1)),
        None => None,
    }
}

/// A calendar date: year, month (from 1) and day of month (from 1).
#[derive(Clone, Copy, Debug, PartialEq, Eq, Structural)]
pub struct CivilDate {
    pub year: i32,
    pub month: u32,
    pub day: u32,
}

impl CivilDate {
    /// Whether the month is from 1 to 12 and the day of month from 1 to 31.
    pub open spec fn in_calendar(self) -> bool {
        1 <= self.month <= 12 && 1 <= self.day <= 31
    }
}

/// The date for what the calendar gave, if it gave one.
pub open spec fn date_of(given: Option<(int, int, int)>) -> Option<CivilDate> {
    match given {
        Some(d) => Some(CivilDate { year: d.0 as i32, month: d.1 as u32, day: d.2 as u32 }),
        None => None,
    }
}

/// The calendar date of the day that holds `t`; `None` where the calendar
/// does not reach that far.
pub fn date_of_timestamp(t: &Timestamp) -> (r: Option<CivilDate>)
    ensures
        r == date_of(civil_date_of(t.secs as int)),
        r matches Some(d) ==> d.in_calendar(),
{
    match civil_date(t.secs) {
        Some(d) => Some(CivilDate { year: d.0, month: d.1, day: d.2 }),
        None => None,
    }
}

/// The number of the day within its year, 1 for the first, of a reading at
/// second `secs` in a year that begins at second `year_start`.
pub open spec fn ordinal_from(secs: int, year_start: int) -> int {
    (secs - year_start) / 86_400 + 1
}

/// Computes `ordinal_from`.
pub fn ordinal_day(secs: i64, year_start: i64) -> (n: i64)
    ensures
        n == ordinal_from(secs as int, year_start as int),
{
    let elapsed: i128 = secs as i128 - year_start as i128;
    match elapsed.checked_div_euclid(86_400) {
        Some(days) => (days + 1) as i64,
        None => 0,
    }
}

/// The second at which the year `year` begins, where the calendar has that
/// year.
pub open spec fn year_start_of(year: i32) -> Option<i64> {
    match seconds_at_date(year as int, 1, 1) {
        Some(s) => Some(s as i64),
        None => None,
    }
}

/// The day of the year of a reading at second `secs` whose date is `date`,
/// where the year of that date begins at `year_start`.
pub open spec fn day_of_year_for(secs: i64, date: Option<CivilDate>) -> Option<i64> {
    match date {
        Some(d) => match year_start_of(d.year) {
            Some(start) => Some(ordinal_from(secs as int, start as int) as i64),
            None => None,
        },
        None => None,
    }
}

/// The second at which the year `year` begins; `None` where the calendar
/// does not have that year.
pub fn year_start(year: i32) -> (r: Option<i64>)
    ensures
        r == year_start_of(year),
{
    date_seconds(year, 1, 1)
}

/// The day of the year of `t`, 1 on the first of January: the whole days
/// that have passed since the year of `t` began, and one. `None` where the
/// calendar does not reach `t`.
pub fn day_of_year(t: &Timestamp) -> (r: Option<i64>)
    ensures
        r == day_of_year_for(t.secs, date_of(civil_date_of(t.secs as int))),
{
    match date_of_timestamp(t) {
        Some(d) => match year_start(d.year) {
            Some(start) => Some(ordinal_day(t.secs, start)),
            None => None,
        },
        None => None,
    }
}

/// Hour, minute and second of the wall clock at a reading.
#[derive(Clone, Copy, Debug, PartialEq, Eq, Structural)]
pub struct ClockTime {
    pub hour: u32,
    pub minute: u32,
    pub second: u32,
}

/// The wall-clock digits of `t`, read as they stand.
pub fn clock_time(t: &Timestamp) -> (r: ClockTime)
    ensures
        r.hour == t.second_of_day() / 3_600,
        r.minute == (t.second_of_day() % 3_600) / 60,
        r.second == t.second_of_day() % 60,
        r.hour < 24,
        r.minute < 60,
        r.second < 60,
{
    let s: u32 = t.seconds_since_midnight();
    ClockTime { hour: s / 3_600, minute: (s % 3_600) / 60, second: s % 60 }
}

} // verus!
