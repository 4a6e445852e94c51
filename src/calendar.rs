//! Calendar dates and instants as plain values, with the parsing that the
//! chrono crate does for them.
use vstd::prelude::*;

use chrono::Datelike;

use crate::record::Timestamp;
use crate::text::push_char;

verus! {

/// A day of the proleptic Gregorian calendar.
#[derive(Debug, Clone, Copy, PartialEq, Eq)]
pub struct CalendarDate {
    pub year: i32,
    pub month: u32,
    pub day: u32,
}

pub open spec fn is_leap_year(y: int) -> bool {
    (y % 4 == 0 && y % 100 != 0) || y % 400 == 0
}

pub open spec fn days_in_month(y: int, m: int) -> int {
    if m == 2 {
        if is_leap_year(y) {
            29
        } else {
            28
        }
    } else if m == 4 || m == 6 || m == 9 || m == 11 {
        30
    } else {
        31
    }
}

pub open spec fn valid_date(d: CalendarDate) -> bool {
    1 <= d.month <= 12 && 1 <= d.day <= days_in_month(d.year as int, d.month as int)
}

/// The calendar day before `d`.
pub open spec fn prev_day(d: CalendarDate) -> CalendarDate {
    if d.day > 1 {
        CalendarDate { year: d.year, month: d.month, day: (d.day - 1) as u32 }
    } else if d.month > 1 {
        CalendarDate {
            year: d.year,
            month: (d.month - 1) as u32,
            day: days_in_month(d.year as int, d.month - 1) as u32,
        }
    } else {
        CalendarDate { year: (d.year - 1) as i32, month: 12, day: 31 }
    }
}

/// What chrono's `NaiveDate::parse_from_str(s, "%Y-%m-%d")` reads from `s`,
/// as year, month and day.
pub uninterp spec fn ymd_parse(s: Seq<char>) -> Option<(i32, u32, u32)>;

/// What chrono's `DateTime::parse_from_rfc2822` reads from `s`, as seconds
/// since the Unix epoch and the offset east of UTC in seconds.
pub uninterp spec fn rfc2822_instant(s: Seq<char>) -> Option<(i64, i32)>;

/// Relies on chrono's `NaiveDate::parse_from_str` with the format
/// `%Y-%m-%d`: a date read from the text alone, and a `NaiveDate` is always a
/// valid calendar day.
#[verifier::external_body]
pub(crate) fn parse_ymd(s: &str) -> (r: Option<CalendarDate>)
    ensures
        match r {
            Some(d) => ymd_parse(s@) == Some((d.year, d.month, d.day)) && valid_date(d),
            None => ymd_parse(s@) is None,
        },
{
    match chrono::NaiveDate::parse_from_str(s, "%Y-%m-%d") {
        Ok(d) => Some(CalendarDate { year: d.year(), month: d.month(), day: d.day() }),
        Err(_) => None,
    }
}

/// Relies on chrono's `NaiveDate::from_ymd_opt` and `checked_sub_days` with
/// one day: the day before, or nothing where that leaves chrono's range of
/// dates (which holds every year from 0 to 9999).
#[verifier::external_body]
pub(crate) fn day_before(d: CalendarDate) -> (r: Option<CalendarDate>)
    requires
        valid_date(d),
    ensures
        r is Some ==> r->Some_0 == prev_day(d),
        1 <= d.year <= 9999 ==> r is Some,
{
    match chrono::NaiveDate::from_ymd_opt(d.year, d.month, d.day) {
        Some(n) => match n.checked_sub_days(chrono::Days::new(1)) {
            Some(p) => Some(CalendarDate { year: p.year(), month: p.month(), day: p.day() }),
            None => None,
        },
        None => None,
    }
}

/// Relies on chrono's `DateTime::parse_from_rfc2822`: an instant and its
/// offset read from the text alone.
#[verifier::external_body]
pub(crate) fn parse_rfc2822(s: &str) -> (r: Option<Timestamp>)
    ensures
        match r {
            Some(t) => rfc2822_instant(s@) == Some((t.utc_seconds, t.offset_seconds)),
            None => rfc2822_instant(s@) is None,
        },
{
    match chrono::DateTime::parse_from_rfc2822(s) {
        Ok(t) => Some(
            Timestamp { utc_seconds: t.timestamp(), offset_seconds: t.offset().local_minus_utc() },
        ),
        Err(_) => None,
    }
}

/// The UTC calendar day, as chrono's `NaiveDate` writes it, of the instant
/// `utc_seconds` seconds after the Unix epoch.
pub uninterp spec fn utc_day_text(utc_seconds: i64) -> Option<Seq<char>>;

/// Relies on chrono's `DateTime::from_timestamp` and the `Display` of
/// `NaiveDate`: the UTC day of an instant, as `YYYY-MM-DD`, or nothing
/// outside chrono's range.
#[verifier::external_body]
pub(crate) fn utc_day(utc_seconds: i64) -> (r: Option<String>)
    ensures
        match r {
            Some(d) => utc_day_text(utc_seconds) == Some(d@),
            None => utc_day_text(utc_seconds) is None,
        },
{
    match chrono::DateTime::from_timestamp(utc_seconds, 0) {
        Some(t) => Some(t.date_naive().to_string()),
        None => None,
    }
}

pub open spec fn digit_char(n: int) -> char {
    if n == 0 {
        '0'
    } else if n == 1 {
        '1'
    } else if n == 2 {
        '2'
    } else if n == 3 {
        '3'
    } else if n == 4 {
        '4'
    } else if n == 5 {
        '5'
    } else if n == 6 {
        '6'
    } else if n == 7 {
        '7'
    } else if n == 8 {
        '8'
    } else {
        '9'
    }
}

fn digit(n: u32) -> (c: char)
    requires
        n < 10,
    ensures
        c == digit_char(n as int),
{
    if n == 0 {
        '0'
    } else if n == 1 {
        '1'
    } else if n == 2 {
        '2'
    } else if n == 3 {
        '3'
    } else if n == 4 {
        '4'
    } else if n == 5 {
        '5'
    } else if n == 6 {
        '6'
    } else if n == 7 {
        '7'
    } else if n == 8 {
        '8'
    } else {
        '9'
    }
}

/// `n` in `width` decimal digits, zero-padded on the left.
pub open spec fn padded(n: int, width: nat) -> Seq<char>
    decreases width,
{
    if width == 0 {
        Seq::empty()
    } else {
        padded(n / 10, (width - 1) as nat).push(digit_char(n % 10))
    }
}

/// `YYYY-MM-DD`.
pub open spec fn ymd_text(d: CalendarDate) -> Seq<char> {
    padded(d.year as int, 4) + seq!['-'] + padded(d.month as int, 2) + seq!['-'] + padded(
        d.day as int,
        2,
    )
}

fn push_padded(s: &mut String, n: u32, width: u32)
    requires
        width <= 4,
    ensures
        final(s)@ == old(s)@ + padded(n as int, width as nat),
    decreases width,
{
    if width > 0 {
        push_padded(s, n / 10, width - 1);
        push_char(s, digit(n % 10));
    } else {
        assert(padded(n as int, 0) =~= Seq::<char>::empty());
        assert(old(s)@ + Seq::<char>::empty() =~= old(s)@);
    }
}

/// Writes `d` as `YYYY-MM-DD`; only four-digit years have that form.
pub fn format_ymd(d: CalendarDate) -> (r: Option<String>)
    ensures
        r is Some <==> 0 <= d.year <= 9999,
        r is Some ==> r->Some_0@ == ymd_text(d),
{
    if d.year < 0 || d.year > 9999 {
        return None;
    }
    let mut s = String::new();
    push_padded(&mut s, d.year as u32, 4);
    push_char(&mut s, '-');
    push_padded(&mut s, d.month, 2);
    push_char(&mut s, '-');
    push_padded(&mut s, d.day, 2);
    assert(s@ =~= ymd_text(d));
    Some(s)
}

} // verus!
