//! Calendar values and the time-zone conversions done by `chrono` and
//! `chrono-tz`. Instants are Unix timestamps in whole seconds (UTC).

use vstd::prelude::*;
use chrono::{Datelike, TimeZone, Timelike};
use crate::error::FeedError;

verus! {

/// The two time zones the published locales use.
#[derive(Clone, Copy, PartialEq, Eq, Structural, Debug)]
pub enum Zone {
    /// `Europe/Berlin`
    Berlin,
    /// `America/New_York`
    NewYork,
}

/// A calendar date (what `chrono::NaiveDate` holds).
#[derive(Clone, Copy, PartialEq, Eq, Structural, Debug)]
pub struct Date {
    pub year: i32,
    pub month: u32,
    pub day: u32,
}

/// A wall-clock reading in some zone, with its weekday
/// (0 = Monday ... 6 = Sunday).
#[derive(Clone, Copy, PartialEq, Eq, Structural, Debug)]
pub struct LocalParts {
    pub date: Date,
    pub hour: u32,
    pub minute: u32,
    pub weekday: u32,
}

/// The earliest year `chrono::NaiveDate` accepts.
pub open spec fn min_year() -> int {
    -262143
}

/// The latest year `chrono::NaiveDate` accepts.
pub open spec fn max_year() -> int {
    262142
}

/// The first and last whole seconds `chrono::DateTime<Utc>` can hold:
/// 1 January of year -262143, 00:00:00, and 31 December of year 262142,
/// 23:59:59, both UTC (`DateTime::from_timestamp` gives `None` beyond).
pub open spec fn min_instant() -> int {
    -8334601228800
}

pub open spec fn max_instant() -> int {
    8210266876799
}

/// `t` is a timestamp that `chrono::DateTime<Utc>` can represent.
pub open spec fn in_range(t: int) -> bool {
    min_instant() <= t <= max_instant()
}

pub open spec fn is_leap_year(y: int) -> bool {
    y % 4 == 0 && (y % 100 != 0 || y % 400 == 0)
}

pub open spec fn days_in_month(y: int, m: int) -> int {
    if m == 2 {
        if is_leap_year(y) {
            29
        } else {
            28
        }
    } else if m == 4 || m == 6 || m == 9 || m == 11 {
        30
    } else {
        31
    }
}

/// The dates `chrono::NaiveDate::from_ymd_opt` accepts.
pub open spec fn valid_date(y: int, m: int, d: int) -> bool {
    &&& min_year() <= y <= max_year()
    &&& 1 <= m <= 12
    &&& 1 <= d <= days_in_month(y, m)
}

/// The instant that a wall-clock reading in `zone` denotes, when the reading
/// exists and is not ambiguous (`TimeZone::with_ymd_and_hms(..).single()`).
pub uninterp spec fn local_reading_spec(
    zone: Zone,
    year: i32,
    month: u32,
    day: u32,
    hour: u32,
    minute: u32,
) -> Option<i64>;

/// The instant that a wall-clock reading in `zone` denotes, when the reading
/// exists, is not ambiguous and gives an instant that `chrono` can hold as
/// a `DateTime<Utc>` timestamp.
pub open spec fn local_to_utc_spec(
    zone: Zone,
    year: i32,
    month: u32,
    day: u32,
    hour: u32,
    minute: u32,
) -> Option<i64> {
    match local_reading_spec(zone, year, month, day, hour, minute) {
        Some(t) => if in_range(t as int) {
            Some(t)
        } else {
            None
        },
        None => None,
    }
}

/// RFC 3339 text of an instant in a zone's local time (`DateTime::to_rfc3339`).
pub uninterp spec fn rfc3339_spec(t: i64, zone: Zone) -> Seq<char>;

/// The wall-clock reading of an instant in a zone (`DateTime::with_timezone`).
pub uninterp spec fn local_parts_spec(t: i64, zone: Zone) -> LocalParts;

/// The date `days` days after `date` (`NaiveDate::checked_add_signed`).
pub uninterp spec fn add_days_spec(date: Date, days: i64) -> Option<Date>;

/// Year and month of an RFC 3339 timestamp (`DateTime::parse_from_rfc3339`).
pub uninterp spec fn rfc3339_year_month_spec(s: Seq<char>) -> Option<(i32, u32)>;

/// Calls `NaiveDate::from_ymd_opt`: a date exists when its year is within
/// chrono's range, its month is 1 to 12 and its day exists in that month of
/// the proleptic Gregorian calendar.
#[verifier::external_body]
pub(crate) fn date_is_valid(year: i32, month: u32, day: u32) -> (res: bool)
    ensures
        res == valid_date(year as int, month as int, day as int),
{
    chrono::NaiveDate::from_ymd_opt(year, month, day).is_some()
}

/// Calls `TimeZone::with_ymd_and_hms(..).single()` and gives the UTC
/// timestamp. The contract names the result; the `chrono` code gives that a
/// reading is only resolved for an existing date with hour below 24 and
/// minute below 60. Nothing is stated of the timestamp's range: a reading
/// in chrono's first or last year may lie beyond it.
#[verifier::external_body]
fn resolve_local_reading(zone: Zone, year: i32, month: u32, day: u32, hour: u32, minute: u32) -> (res:
    Option<i64>)
    ensures
        res == local_reading_spec(zone, year, month, day, hour, minute),
        res is Some ==> valid_date(year as int, month as int, day as int) && hour < 24 && minute
            < 60,
{
    let tz = match zone {
        Zone::Berlin => chrono_tz::Europe::Berlin,
        Zone::NewYork => chrono_tz::America::New_York,
    };
    tz.with_ymd_and_hms(year, month, day, hour, minute, 0).single().map(|v| v.timestamp())
}

/// The UTC instant of a wall-clock reading in `zone`: `None` when the
/// reading does not exist, is ambiguous, or gives an instant outside the
/// range of `DateTime<Utc>` timestamps.
pub fn local_to_utc(zone: Zone, year: i32, month: u32, day: u32, hour: u32, minute: u32) -> (res:
    Option<i64>)
    ensures
        res == local_to_utc_spec(zone, year, month, day, hour, minute),
        res is Some ==> valid_date(year as int, month as int, day as int) && hour < 24 && minute
            < 60 && in_range(res->0 as int),
{
    match resolve_local_reading(zone, year, month, day, hour, minute) {
        Some(t) => if -8334601228800 <= t && t <= 8210266876799 {
            Some(t)
        } else {
            None
        },
        None => None,
    }
}

/// Calls `DateTime::to_rfc3339` on the instant seen in `zone`; the contract
/// names the text.
#[verifier::external_body]
pub fn to_local_string(value: i64, timezone: Zone) -> (res: String)
    requires
        in_range(value as int),
    ensures
        res@ == rfc3339_spec(value, timezone),
{
    let tz = match timezone {
        Zone::Berlin => chrono_tz::Europe::Berlin,
        Zone::NewYork => chrono_tz::America::New_York,
    };
    chrono::DateTime::from_timestamp(value, 0).unwrap().with_timezone(&tz).to_rfc3339()
}

/// Calls `DateTime::with_timezone` and reads date, hour, minute and weekday;
/// the contract names the reading. chrono's types only hold hours
/// below 24, minutes below 60 and weekdays below 7. The zone's offset is under a day, so the date
/// lies in chrono's range for an instant a day or more inside it; at the
/// very ends the local date may fall one day outside.
#[verifier::external_body]
pub(crate) fn local_parts(value: i64, zone: Zone) -> (res: LocalParts)
    requires
        in_range(value as int),
    ensures
        res == local_parts_spec(value, zone),
        min_instant() + 86400 <= value <= max_instant() - 86400 ==> valid_date(
            res.date.year as int,
            res.date.month as int,
            res.date.day as int,
        ),
        res.hour < 24,
        res.minute < 60,
        res.weekday < 7,
{
    let tz = match zone {
        Zone::Berlin => chrono_tz::Europe::Berlin,
        Zone::NewYork => chrono_tz::America::New_York,
    };
    let l = chrono::DateTime::from_timestamp(value, 0).unwrap().with_timezone(&tz);
    let date = Date { year: l.year(), month: l.month(), day: l.day() };
    LocalParts { date, hour: l.hour(), minute: l.minute(), weekday: l.weekday().num_days_from_monday() }
}

/// Calls `NaiveDate::checked_add_signed` with `TimeDelta::days(days)`;
/// `None` when the date leaves chrono's range. The contract names the
/// result. `TimeDelta::days` panics beyond `i64::MAX` milliseconds, so
/// `days` is kept within that bound.
#[verifier::external_body]
pub(crate) fn add_days(date: Date, days: i64) -> (res: Option<Date>)
    requires
        valid_date(date.year as int, date.month as int, date.day as int),
        -106751991167 <= days <= 106751991167,
    ensures
        res == add_days_spec(date, days),
        res is Some ==> valid_date(res->0.year as int, res->0.month as int, res->0.day as int),
{
    let d = chrono::NaiveDate::from_ymd_opt(date.year, date.month, date.day).unwrap();
    d.checked_add_signed(chrono::TimeDelta::days(days)).map(
        |n| Date { year: n.year(), month: n.month(), day: n.day() },
    )
}

/// Calls `DateTime::parse_from_rfc3339` and reads the local year and month.
/// The contract names the result; the parser reads a four-digit year and a
/// month that `NaiveDate::from_ymd_opt` accepted.
#[verifier::external_body]
pub(crate) fn rfc3339_year_month(s: &str) -> (res: Option<(i32, u32)>)
    ensures
        res == rfc3339_year_month_spec(s@),
        res matches Some((y, m)) ==> 0 <= y <= 9999 && 1 <= m <= 12,
{
    chrono::DateTime::parse_from_rfc3339(s).ok().map(|t| (t.year(), t.month()))
}

/// Calls `Tz::name`.
#[verifier::external_body]
pub(crate) fn zone_name(zone: Zone) -> (res: &'static str)
    ensures
        zone == Zone::Berlin ==> res@ == "Europe/Berlin"@,
        zone == Zone::NewYork ==> res@ == "America/New_York"@,
{
    match zone {
        Zone::Berlin => chrono_tz::Europe::Berlin.name(),
        Zone::NewYork => chrono_tz::America::New_York.name(),
    }
}

/// The instant `days` whole days after `value` (`DateTime + Duration::days`).
/// Chrono panics when the sum leaves its range, so that is excluded.
pub fn plus_days(value: i64, days: i64) -> (res: i64)
    requires
        in_range(value as int),
        in_range(value + 86400 * days),
    ensures
        res == value + 86400 * days,
{
    value + 86400 * days
}

/// Noon on `date` in New York, as a UTC instant; an error when that reading
/// does not exist.
pub fn noon_eastern(date: Date) -> (res: Result<i64, FeedError>)
    ensures
        res == match local_to_utc_spec(Zone::NewYork, date.year, date.month, date.day, 12, 0) {
            Some(t) => Ok::<i64, FeedError>(t),
            None => Err(FeedError::InvalidEasternDate(date)),
        },
        res matches Ok(t) ==> in_range(t as int),
{
    match local_to_utc(Zone::NewYork, date.year, date.month, date.day, 12, 0) {
        Some(t) => Ok(t),
        None => Err(FeedError::InvalidEasternDate(date)),
    }
}

} // verus!
