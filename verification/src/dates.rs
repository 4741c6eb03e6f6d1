//! Calendar values. A date-and-time field value is held as plain civil
//! components (year, month, day, hour, minute, second), always in UTC,
//! with a validity predicate for the proleptic Gregorian calendar.
//!
//! Textual forms follow the fixed formats `YYYY-MM-DD`, `HH:MM:SS` and
//! `YYYY-MM-DDTHH:MM:SS`; anything else is a parse failure.
use vstd::prelude::*;

use crate::text::{digit_of, is_digit_char};

verus! {

#[derive(Clone, Copy, PartialEq, Eq, Structural, Debug)]
pub struct Date {
    pub year: u16,
    pub month: u8,
    pub day: u8,
}

#[derive(Clone, Copy, PartialEq, Eq, Structural, Debug)]
pub struct Time {
    pub hour: u8,
    pub minute: u8,
    pub second: u8,
}

#[derive(Clone, Copy, PartialEq, Eq, Structural, Debug)]
pub struct DateTime {
    pub date: Date,
    pub time: Time,
}

pub open spec fn is_leap_year(y: int) -> bool {
    y % 4 == 0 && (y % 100 != 0 || y % 400 == 0)
}

pub open spec fn days_in_month(y: int, m: int) -> int {
    if m == 2 {
        if is_leap_year(y) {
            29
        } else {
            28
        }
    } else if m == 4 || m == 6 || m == 9 || m == 11 {
        30
    } else {
        31
    }
}

/// A real calendar date whose year fits the four-digit textual format.
pub open spec fn date_valid(d: Date) -> bool {
    d.year <= 9999 && 1 <= d.month <= 12 && 1 <= d.day <= days_in_month(
        d.year as int,
        d.month as int,
    )
}

pub open spec fn time_valid(t: Time) -> bool {
    t.hour <= 23 && t.minute <= 59 && t.second <= 59
}

pub open spec fn datetime_valid(dt: DateTime) -> bool {
    date_valid(dt.date) && time_valid(dt.time)
}

/// Chronological strict order on dates.
pub open spec fn date_lt(a: Date, b: Date) -> bool {
    a.year < b.year || (a.year == b.year && (a.month < b.month || (a.month == b.month && a.day
        < b.day)))
}

/// Chronological strict order on times of day.
pub open spec fn time_lt(a: Time, b: Time) -> bool {
    a.hour < b.hour || (a.hour == b.hour && (a.minute < b.minute || (a.minute == b.minute
        && a.second < b.second)))
}

/// Chronological strict order on date-and-time values.
pub open spec fn datetime_lt(a: DateTime, b: DateTime) -> bool {
    date_lt(a.date, b.date) || (a.date == b.date && time_lt(a.time, b.time))
}

/// Decide the chronological order of two dates.
pub fn date_before(a: Date, b: Date) -> (r: bool)
    ensures
        r == date_lt(a, b),
{
    a.year < b.year || (a.year == b.year && (a.month < b.month || (a.month == b.month && a.day
        < b.day)))
}

/// Decide the chronological order of two times of day.
pub fn time_before(a: Time, b: Time) -> (r: bool)
    ensures
        r == time_lt(a, b),
{
    a.hour < b.hour || (a.hour == b.hour && (a.minute < b.minute || (a.minute == b.minute
        && a.second < b.second)))
}

/// Decide the chronological order of two date-and-time values.
pub fn datetime_before(a: DateTime, b: DateTime) -> (r: bool)
    ensures
        r == datetime_lt(a, b),
{
    date_before(a.date, b.date) || (a.date == b.date && time_before(a.time, b.time))
}

/// The date denoted by `s` in the form `YYYY-MM-DD`, if well-formed and valid.
pub open spec fn parse_date_spec(s: Seq<char>) -> Option<Date> {
    if s.len() == 10 && is_digit_char(s[0]) && is_digit_char(s[1]) && is_digit_char(s[2])
        && is_digit_char(s[3]) && s[4] == '-' && is_digit_char(s[5]) && is_digit_char(s[6]) && s[7]
        == '-' && is_digit_char(s[8]) && is_digit_char(s[9]) {
        let y = digit_of(s[0]) * 1000 + digit_of(s[1]) * 100 + digit_of(s[2]) * 10 + digit_of(s[3]);
        let m = digit_of(s[5]) * 10 + digit_of(s[6]);
        let d = digit_of(s[8]) * 10 + digit_of(s[9]);
        let date = Date { year: y as u16, month: m as u8, day: d as u8 };
        if date_valid(date) {
            Some(date)
        } else {
            None
        }
    } else {
        None
    }
}

/// The time denoted by `s` in the form `HH:MM:SS`, if well-formed and valid.
pub open spec fn parse_time_spec(s: Seq<char>) -> Option<Time> {
    if s.len() == 8 && is_digit_char(s[0]) && is_digit_char(s[1]) && s[2] == ':' && is_digit_char(
        s[3],
    ) && is_digit_char(s[4]) && s[5] == ':' && is_digit_char(s[6]) && is_digit_char(s[7]) {
        let h = digit_of(s[0]) * 10 + digit_of(s[1]);
        let m = digit_of(s[3]) * 10 + digit_of(s[4]);
        let sec = digit_of(s[6]) * 10 + digit_of(s[7]);
        let time = Time { hour: h as u8, minute: m as u8, second: sec as u8 };
        if time_valid(time) {
            Some(time)
        } else {
            None
        }
    } else {
        None
    }
}

/// The instant denoted by `s` in the form `YYYY-MM-DDTHH:MM:SS`.
pub open spec fn parse_datetime_spec(s: Seq<char>) -> Option<DateTime> {
    if s.len() == 19 && s[10] == 'T' {
        match (parse_date_spec(s.subrange(0, 10)), parse_time_spec(s.subrange(11, 19))) {
            (Some(d), Some(t)) => Some(DateTime { date: d, time: t }),
            _ => None,
        }
    } else {
        None
    }
}

pub fn days_in_month_exec(y: u16, m: u8) -> (r: u8)
    ensures
        r == days_in_month(y as int, m as int),
{
    if m == 2 {
        if y % 4 == 0 && (y % 100 != 0 || y % 400 == 0) {
            29
        } else {
            28
        }
    } else if m == 4 || m == 6 || m == 9 || m == 11 {
        30
    } else {
        31
    }
}

/// Read one decimal digit of `s` at position `i`, or report a mismatch.
fn digit_at(s: &str, i: usize) -> (r: Option<u16>)
    requires
        i < s@.len(),
    ensures
        match r {
            Some(d) => is_digit_char(s@[i as int]) && d == digit_of(s@[i as int]),
            None => !is_digit_char(s@[i as int]),
        },
{
    let c = s.get_char(i) as u32;
    if 48 <= c && c <= 57 {
        Some((c - 48) as u16)
    } else {
        None
    }
}

/// Parse `YYYY-MM-DD`, exactly as `parse_date_spec` describes.
pub fn parse_date(s: &str) -> (r: Option<Date>)
    ensures
        r == parse_date_spec(s@),
{
    if s.unicode_len() != 10 {
        return None;
    }
    if !(s.get_char(4) == '-' && s.get_char(7) == '-') {
        return None;
    }
    let (d0, d1, d2, d3) = match (digit_at(s, 0), digit_at(s, 1), digit_at(s, 2), digit_at(s, 3)) {
        (Some(a), Some(b), Some(c), Some(d)) => (a, b, c, d),
        _ => {
            return None;
        },
    };
    let (m0, m1) = match (digit_at(s, 5), digit_at(s, 6)) {
        (Some(a), Some(b)) => (a, b),
        _ => {
            return None;
        },
    };
    let (a0, a1) = match (digit_at(s, 8), digit_at(s, 9)) {
        (Some(a), Some(b)) => (a, b),
        _ => {
            return None;
        },
    };
    let year: u16 = d0 * 1000 + d1 * 100 + d2 * 10 + d3;
    let month: u8 = (m0 * 10 + m1) as u8;
    let day: u8 = (a0 * 10 + a1) as u8;
    let date = Date { year, month, day };
    if 1 <= month && month <= 12 && 1 <= day && day <= days_in_month_exec(year, month) {
        Some(date)
    } else {
        None
    }
}

/// Parse `HH:MM:SS`, exactly as `parse_time_spec` describes.
pub fn parse_time(s: &str) -> (r: Option<Time>)
    ensures
        r == parse_time_spec(s@),
{
    if s.unicode_len() != 8 {
        return None;
    }
    if !(s.get_char(2) == ':' && s.get_char(5) == ':') {
        return None;
    }
    let (h0, h1) = match (digit_at(s, 0), digit_at(s, 1)) {
        (Some(a), Some(b)) => (a, b),
        _ => {
            return None;
        },
    };
    let (m0, m1) = match (digit_at(s, 3), digit_at(s, 4)) {
        (Some(a), Some(b)) => (a, b),
        _ => {
            return None;
        },
    };
    let (s0, s1) = match (digit_at(s, 6), digit_at(s, 7)) {
        (Some(a), Some(b)) => (a, b),
        _ => {
            return None;
        },
    };
    let time = Time {
        hour: (h0 * 10 + h1) as u8,
        minute: (m0 * 10 + m1) as u8,
        second: (s0 * 10 + s1) as u8,
    };
    if time.hour <= 23 && time.minute <= 59 && time.second <= 59 {
        Some(time)
    } else {
        None
    }
}

/// Parse `YYYY-MM-DDTHH:MM:SS`, exactly as `parse_datetime_spec` describes.
pub fn parse_datetime(s: &str) -> (r: Option<DateTime>)
    ensures
        r == parse_datetime_spec(s@),
{
    if s.unicode_len() != 19 {
        return None;
    }
    if s.get_char(10) != 'T' {
        return None;
    }
    let date_part = s.substring_char(0, 10);
    let time_part = s.substring_char(11, 19);
    match (parse_date(date_part), parse_time(time_part)) {
        (Some(d), Some(t)) => Some(DateTime { date: d, time: t }),
        _ => None,
    }
}

} // verus!
