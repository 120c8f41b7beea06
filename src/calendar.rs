//! Calendar dates and wall-clock times in the Europe/Rome time zone.

use crate::error::ParseError;
use crate::text::{chars_of, slice_equals};
use vstd::prelude::*;

verus! {

/// A date of the proleptic Gregorian calendar.
#[derive(Clone, Copy, Debug, PartialEq, Eq, Structural)]
pub struct CalendarDate {
    pub year: i32,
    pub month: u32,
    pub day: u32,
}

/// A wall-clock time of a calendar date, as read in Rome.
#[derive(Clone, Copy, Debug, PartialEq, Eq, Structural)]
pub struct LocalDateTime {
    pub date: CalendarDate,
    pub hour: u32,
    pub minute: u32,
    pub second: u32,
}

/// A wall-clock time in Rome together with its offset from UTC, in seconds.
#[derive(Clone, Copy, Debug, PartialEq, Eq, Structural)]
pub struct RomeDateTime {
    pub local: LocalDateTime,
    pub utc_offset_seconds: i32,
}

pub open spec fn is_leap_year(year: int) -> bool {
    (year % 4 == 0 && year % 100 != 0) || year % 400 == 0
}

pub open spec fn month_length(year: int, month: int) -> int {
    if month == 2 {
        if is_leap_year(year) { 29 } else { 28 }
    } else if month == 4 || month == 6 || month == 9 || month == 11 {
        30
    } else {
        31
    }
}

pub open spec fn is_valid_date(year: int, month: int, day: int) -> bool {
    1 <= month <= 12 && 1 <= day <= month_length(year, month)
}

pub open spec fn is_valid_time(hour: int, minute: int, second: int) -> bool {
    0 <= hour < 24 && 0 <= minute < 60 && 0 <= second < 60
}

impl CalendarDate {
    pub open spec fn wf(self) -> bool {
        is_valid_date(self.year as int, self.month as int, self.day as int)
    }

    /// `self` is this date or an earlier one.
    pub open spec fn spec_le(self, other: CalendarDate) -> bool {
        self.year < other.year || (self.year == other.year && (self.month < other.month || (
        self.month == other.month && self.day <= other.day)))
    }

    pub fn le(&self, other: &CalendarDate) -> (r: bool)
        ensures
            r == self.spec_le(*other),
    {
        self.year < other.year || (self.year == other.year && (self.month < other.month || (
        self.month == other.month && self.day <= other.day)))
    }
}

impl LocalDateTime {
    pub open spec fn wf(self) -> bool {
        self.date.wf() && is_valid_time(self.hour as int, self.minute as int, self.second as int)
    }

    /// `self` is this moment or an earlier one of the same wall clock.
    pub open spec fn spec_le(self, other: LocalDateTime) -> bool {
        if self.date == other.date {
            self.hour < other.hour || (self.hour == other.hour && (self.minute < other.minute || (
            self.minute == other.minute && self.second <= other.second)))
        } else {
            self.date.spec_le(other.date)
        }
    }
}

/// Whether `year` is a leap year of the Gregorian calendar.
pub fn is_leap(year: i32) -> (r: bool)
    ensures
        r == is_leap_year(year as int),
{
    let by4 = year % 4 == 0;
    let by100 = year % 100 == 0;
    let by400 = year % 400 == 0;
    assert(by4 == ((year as int) % 4 == 0)) by (nonlinear_arith)
        requires
            by4 == (year % 4 == 0),
    ;
    assert(by100 == ((year as int) % 100 == 0)) by (nonlinear_arith)
        requires
            by100 == (year % 100 == 0),
    ;
    assert(by400 == ((year as int) % 400 == 0)) by (nonlinear_arith)
        requires
            by400 == (year % 400 == 0),
    ;
    (by4 && !by100) || by400
}

/// The number of days of `month` (1 to 12) in `year`.
pub fn days_in_month(year: i32, month: u32) -> (r: u32)
    requires
        1 <= month <= 12,
    ensures
        r as int == month_length(year as int, month as int),
{
    if month == 2 {
        if is_leap(year) {
            29
        } else {
            28
        }
    } else if month == 4 || month == 6 || month == 9 || month == 11 {
        30
    } else {
        31
    }
}

/// The date `year`-`month`-`day`, where it exists.
pub fn make_date(year: i32, month: u32, day: u32) -> (r: Option<CalendarDate>)
    ensures
        r is Some <==> is_valid_date(year as int, month as int, day as int),
        r matches Some(d) ==> d == (CalendarDate { year, month, day }),
{
    if 1 <= month && month <= 12 && 1 <= day && day <= days_in_month(year, month) {
        Some(CalendarDate { year, month, day })
    } else {
        None
    }
}

/// The offset from UTC, in seconds, of Rome's wall clock at local time `local`, where
/// that time occurs exactly once there.
pub uninterp spec fn rome_offset_of(local: LocalDateTime) -> Option<i32>;

/// Relies on chrono's `NaiveDate::from_ymd_opt`, `NaiveDate::and_hms_opt` and
/// `TimeZone::from_local_datetime` with `LocalResult::single`, over chrono_tz's
/// `Europe::Rome`: the offset in force at a wall-clock time of Rome; none where the
/// date or time does not exist, or where Rome's clock skips or repeats that time.
#[verifier::external_body]
pub(crate) fn rome_offset(local: LocalDateTime) -> (r: Option<i32>)
    ensures
        r == rome_offset_of(local),
{
    let date = chrono::NaiveDate::from_ymd_opt(local.date.year, local.date.month, local.date.day)?;
    let time = date.and_hms_opt(local.hour, local.minute, local.second)?;
    let t = chrono::TimeZone::from_local_datetime(&chrono_tz::Europe::Rome, &time).single()?;
    Some(chrono::Offset::fix(t.offset()).local_minus_utc())
}

/// Relies on chrono's `Utc::now` and `Datelike::year`: the year of the current date in
/// UTC. Nothing is known of its value.
#[verifier::external_body]
pub(crate) fn current_year() -> (r: i32) {
    chrono::Datelike::year(&chrono::Utc::now())
}

/// The Italian name, in lower case, of month `m`.
pub open spec fn month_name(m: int) -> Seq<char> {
    if m == 1 {
        seq!['g', 'e', 'n', 'n', 'a', 'i', 'o']
    } else if m == 2 {
        seq!['f', 'e', 'b', 'b', 'r', 'a', 'i', 'o']
    } else if m == 3 {
        seq!['m', 'a', 'r', 'z', 'o']
    } else if m == 4 {
        seq!['a', 'p', 'r', 'i', 'l', 'e']
    } else if m == 5 {
        seq!['m', 'a', 'g', 'g', 'i', 'o']
    } else if m == 6 {
        seq!['g', 'i', 'u', 'g', 'n', 'o']
    } else if m == 7 {
        seq!['l', 'u', 'g', 'l', 'i', 'o']
    } else if m == 8 {
        seq!['a', 'g', 'o', 's', 't', 'o']
    } else if m == 9 {
        seq!['s', 'e', 't', 't', 'e', 'm', 'b', 'r', 'e']
    } else if m == 10 {
        seq!['o', 't', 't', 'o', 'b', 'r', 'e']
    } else if m == 11 {
        seq!['n', 'o', 'v', 'e', 'm', 'b', 'r', 'e']
    } else {
        seq!['d', 'i', 'c', 'e', 'm', 'b', 'r', 'e']
    }
}

fn month_name_chars(m: u32) -> (r: Vec<char>)
    requires
        1 <= m <= 12,
    ensures
        r@ == month_name(m as int),
{
    if m == 1 {
        vec!['g', 'e', 'n', 'n', 'a', 'i', 'o']
    } else if m == 2 {
        vec!['f', 'e', 'b', 'b', 'r', 'a', 'i', 'o']
    } else if m == 3 {
        vec!['m', 'a', 'r', 'z', 'o']
    } else if m == 4 {
        vec!['a', 'p', 'r', 'i', 'l', 'e']
    } else if m == 5 {
        vec!['m', 'a', 'g', 'g', 'i', 'o']
    } else if m == 6 {
        vec!['g', 'i', 'u', 'g', 'n', 'o']
    } else if m == 7 {
        vec!['l', 'u', 'g', 'l', 'i', 'o']
    } else if m == 8 {
        vec!['a', 'g', 'o', 's', 't', 'o']
    } else if m == 9 {
        vec!['s', 'e', 't', 't', 'e', 'm', 'b', 'r', 'e']
    } else if m == 10 {
        vec!['o', 't', 't', 'o', 'b', 'r', 'e']
    } else if m == 11 {
        vec!['n', 'o', 'v', 'e', 'm', 'b', 'r', 'e']
    } else {
        vec!['d', 'i', 'c', 'e', 'm', 'b', 'r', 'e']
    }
}

/// The first month from `m` on whose name is `name`.
pub open spec fn month_number_from(name: Seq<char>, m: int) -> Option<u32>
    decreases 13 - m,
{
    if m < 1 || m > 12 {
        None
    } else if name == month_name(m) {
        Some(m as u32)
    } else {
        month_number_from(name, m + 1)
    }
}

/// The number of the month whose Italian name, in lower case, is `name`.
pub open spec fn month_number_of(name: Seq<char>) -> Option<u32> {
    month_number_from(name, 1)
}

pub proof fn lemma_month_number_range(name: Seq<char>, m: int)
    requires
        1 <= m,
    ensures
        month_number_from(name, m) matches Some(k) ==> 1 <= k <= 12 && month_name(k as int) == name,
    decreases 13 - m,
{
    if m <= 12 && name != month_name(m) {
        lemma_month_number_range(name, m + 1);
    }
}

/// The number of the month named by the characters of `s` in `[start, end)`.
pub fn month_number_in(s: &Vec<char>, start: usize, end: usize) -> (r: Option<u32>)
    requires
        start <= end <= s.len(),
    ensures
        r == month_number_of(s@.subrange(start as int, end as int)),
        r matches Some(m) ==> 1 <= m <= 12,
{
    proof {
        lemma_month_number_range(s@.subrange(start as int, end as int), 1);
    }
    let mut m: u32 = 1;
    while m <= 12
        invariant
            1 <= m <= 13,
            start <= end <= s.len(),
            month_number_of(s@.subrange(start as int, end as int)) == month_number_from(
                s@.subrange(start as int, end as int),
                m as int,
            ),
        decreases 13 - m,
    {
        let name = month_name_chars(m);
        if slice_equals(s, start, end, &name) {
            return Some(m);
        }
        m = m + 1;
    }
    None
}

/// The number of the month whose Italian name, in lower case, is `name`.
pub fn month_name_to_number(name: &str) -> (r: Result<u32, ParseError>)
    ensures
        month_number_of(name@) matches Some(m) ==> r == Ok::<u32, ParseError>(m),
        month_number_of(name@) is None ==> (r matches Err(ParseError::InvalidMonth(n)) && n@
            == name@),
{
    let chars = chars_of(name);
    assert(chars@.subrange(0, chars@.len() as int) =~= name@);
    match month_number_in(&chars, 0, chars.len()) {
        Some(m) => Ok(m),
        None => Err(ParseError::InvalidMonth(name.to_owned())),
    }
}

} // verus!
