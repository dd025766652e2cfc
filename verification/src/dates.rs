//! Civil calendar arithmetic over epoch day numbers.
//!
//! The gateway names snapshot files by calendar date, so it must turn "days
//! since 1970-01-01" into year/month/day.  The conversion is implemented
//! directly against a recursive day count of the proleptic Gregorian
//! calendar from 1970 on.

use vstd::prelude::*;

use crate::text::{spec_padded, push_padded, string_push};

verus! {

/// Milliseconds per day.
pub const MS_PER_DAY: u64 = 86_400_000;

/// A calendar date from 1970 on.
#[derive(Debug, Clone, Copy, PartialEq, Eq, Structural)]
pub struct CivilDate {
    pub year: u32,
    pub month: u32,
    pub day: u32,
}

/// Gregorian leap-year rule.
pub open spec fn spec_is_leap(y: int) -> bool {
    y % 4 == 0 && (y % 100 != 0 || y % 400 == 0)
}

/// Length of a month.
pub open spec fn spec_days_in_month(y: int, m: int) -> int
    recommends
        1 <= m <= 12,
{
    if m == 2 {
        if spec_is_leap(y) {
            29
        } else {
            28
        }
    } else if m == 4 || m == 6 || m == 9 || m == 11 {
        30
    } else {
        31
    }
}

/// Length of a year.
pub open spec fn spec_days_in_year(y: int) -> int {
    if spec_is_leap(y) {
        366
    } else {
        365
    }
}

/// Days from 1970-01-01 up to January 1st of year `y`.
pub open spec fn spec_days_before_year(y: int) -> int
    decreases y - 1970,
{
    if y <= 1970 {
        0
    } else {
        spec_days_before_year(y - 1) + spec_days_in_year(y - 1)
    }
}

/// Days from January 1st of year `y` up to the first of month `m`.
pub open spec fn spec_days_before_month(y: int, m: int) -> int
    decreases m,
{
    if m <= 1 {
        0
    } else {
        spec_days_before_month(y, m - 1) + spec_days_in_month(y, m - 1)
    }
}

impl CivilDate {
    /// A real calendar date from 1970 on.
    pub open spec fn valid(self) -> bool {
        &&& self.year >= 1970
        &&& 1 <= self.month <= 12
        &&& 1 <= self.day <= spec_days_in_month(self.year as int, self.month as int)
    }

    /// The date's day number: days since 1970-01-01.
    pub open spec fn epoch_day(self) -> int {
        spec_days_before_year(self.year as int) + spec_days_before_month(
            self.year as int,
            self.month as int,
        ) + (self.day - 1)
    }
}

/// Whether `y` is a leap year.
pub fn is_leap_year(y: u32) -> (r: bool)
    ensures
        r == spec_is_leap(y as int),
{
    y % 4 == 0 && (y % 100 != 0 || y % 400 == 0)
}

/// Length of month `m` of year `y`.
pub fn days_in_month(y: u32, m: u32) -> (r: u32)
    requires
        1 <= m <= 12,
    ensures
        r == spec_days_in_month(y as int, m as int),
{
    if m == 2 {
        if is_leap_year(y) {
            29
        } else {
            28
        }
    } else if m == 4 || m == 6 || m == 9 || m == 11 {
        30
    } else {
        31
    }
}

/// Length of year `y`.
pub fn days_in_year(y: u32) -> (r: u32)
    ensures
        r == spec_days_in_year(y as int),
{
    if is_leap_year(y) {
        366
    } else {
        365
    }
}

/// A year's day count from 1970 grows by at least 365 per year.
proof fn lemma_days_before_year_lower(y: int)
    requires
        y >= 1970,
    ensures
        spec_days_before_year(y) >= 365 * (y - 1970),
    decreases y - 1970,
{
    if y > 1970 {
        lemma_days_before_year_lower(y - 1);
    }
}

/// The twelve months of a year sum to the year's length.
proof fn lemma_months_sum(y: int)
    ensures
        spec_days_before_month(y, 13) == spec_days_in_year(y),
{
    reveal_with_fuel(spec_days_before_month, 14);
}

/// The calendar date of an epoch day number: the unique valid date whose
/// day number is `d`.
pub fn civil_from_days(d: u32) -> (r: CivilDate)
    ensures
        r.valid(),
        r.epoch_day() == d,
{
    let mut y: u32 = 1970;
    let mut rem: u32 = d;
    loop
        invariant
            1970 <= y,
            spec_days_before_year(y as int) + rem == d,
        ensures
            1970 <= y,
            spec_days_before_year(y as int) + rem == d,
            rem < spec_days_in_year(y as int),
        decreases rem,
    {
        let len = days_in_year(y);
        if rem < len {
            break ;
        }
        proof {
            lemma_days_before_year_lower(y as int);
        }
        rem -= len;
        y += 1;
    }
    let ghost rem0 = rem;
    let mut m: u32 = 1;
    loop
        invariant
            1970 <= y,
            1 <= m <= 12,
            spec_days_before_year(y as int) + rem0 == d,
            rem0 < spec_days_in_year(y as int),
            spec_days_before_month(y as int, m as int) + rem == rem0,
        ensures
            1 <= m <= 12,
            spec_days_before_month(y as int, m as int) + rem == rem0,
            rem < spec_days_in_month(y as int, m as int),
            spec_days_before_year(y as int) + rem0 == d,
        decreases 12 - m,
    {
        let dim = days_in_month(y, m);
        if rem < dim {
            break ;
        }
        proof {
            lemma_months_sum(y as int);
            if m == 12 {
                assert(spec_days_before_month(y as int, 13) == spec_days_before_month(y as int, 12)
                    + spec_days_in_month(y as int, 12));
            }
        }
        rem -= dim;
        m += 1;
    }
    CivilDate { year: y, month: m, day: rem + 1 }
}

/// January 1st day counts grow by at least a year's length per year.
proof fn lemma_days_before_year_mono(y1: int, y2: int)
    requires
        1970 <= y1 < y2,
    ensures
        spec_days_before_year(y1) + spec_days_in_year(y1) <= spec_days_before_year(y2),
    decreases y2 - y1,
{
    if y2 > y1 + 1 {
        lemma_days_before_year_mono(y1, y2 - 1);
    }
}

/// Month starts grow with the month.
proof fn lemma_days_before_month_mono(y: int, m1: int, m2: int)
    requires
        1 <= m1 <= m2 <= 13,
    ensures
        spec_days_before_month(y, m1) <= spec_days_before_month(y, m2),
    decreases m2 - m1,
{
    if m1 < m2 {
        lemma_days_before_month_mono(y, m1, m2 - 1);
    }
}

/// A valid date's day-of-year offset lies within its year.
proof fn lemma_day_within_year(d: CivilDate)
    requires
        d.valid(),
    ensures
        0 <= spec_days_before_month(d.year as int, d.month as int) + (d.day - 1)
            < spec_days_in_year(d.year as int),
{
    let y = d.year as int;
    let m = d.month as int;
    lemma_days_before_month_mono(y, 1, m);
    lemma_days_before_month_mono(y, m + 1, 13);
    lemma_months_sum(y);
    assert(spec_days_before_month(y, m + 1) == spec_days_before_month(y, m)
        + spec_days_in_month(y, m));
}

/// Uniqueness law: the day number determines the date — two valid dates
/// with the same day number are the same date.
pub proof fn lemma_epoch_day_unique(a: CivilDate, b: CivilDate)
    requires
        a.valid(),
        b.valid(),
        a.epoch_day() == b.epoch_day(),
    ensures
        a == b,
{
    lemma_day_within_year(a);
    lemma_day_within_year(b);
    if a.year < b.year {
        lemma_days_before_year_mono(a.year as int, b.year as int);
    } else if b.year < a.year {
        lemma_days_before_year_mono(b.year as int, a.year as int);
    }
    let y = a.year as int;
    if a.month < b.month {
        lemma_days_before_month_mono(y, a.month + 1, b.month as int);
        assert(spec_days_before_month(y, a.month + 1) == spec_days_before_month(y, a.month as int)
            + spec_days_in_month(y, a.month as int));
    } else if b.month < a.month {
        lemma_days_before_month_mono(y, b.month + 1, a.month as int);
        assert(spec_days_before_month(y, b.month + 1) == spec_days_before_month(y, b.month as int)
            + spec_days_in_month(y, b.month as int));
    }
}

/// The calendar-date text `YYYY-MM-DD` (longer years keep their digits).
pub open spec fn spec_date_chars(d: CivilDate) -> Seq<char> {
    spec_padded(d.year as nat, 4) + seq!['-'] + spec_padded(d.month as nat, 2) + seq!['-']
        + spec_padded(d.day as nat, 2)
}

/// Append the calendar-date text of `d`.
pub fn push_date_chars(s: &mut String, d: CivilDate)
    ensures
        final(s)@ == old(s)@ + spec_date_chars(d),
{
    push_padded(s, d.year as u64, 4);
    string_push(s, '-');
    push_padded(s, d.month as u64, 2);
    string_push(s, '-');
    push_padded(s, d.day as u64, 2);
}

/// Non-negative milliseconds of a clock reading.
pub open spec fn spec_clamp_ms(now_ms: i64) -> int {
    if now_ms < 0 {
        0
    } else {
        now_ms as int
    }
}

/// Epoch day of a clock reading, saturating at the largest `u32` day.
pub open spec fn spec_epoch_day_of_ms(now_ms: i64) -> int {
    let q = spec_clamp_ms(now_ms) / (MS_PER_DAY as int);
    if q > u32::MAX {
        u32::MAX as int
    } else {
        q
    }
}

/// Epoch day of a clock reading.
pub fn epoch_day_from_millis(now_ms: i64) -> (r: u32)
    ensures
        r == spec_epoch_day_of_ms(now_ms),
{
    if now_ms < 0 {
        return 0;
    }
    let q = (now_ms as u64) / MS_PER_DAY;
    if q > u32::MAX as u64 {
        u32::MAX
    } else {
        q as u32
    }
}

/// The timestamp text `YYYY-MM-DDTHH:MM:SSZ`.
pub open spec fn spec_datetime_chars(d: CivilDate, h: u64, mi: u64, s: u64) -> Seq<char> {
    spec_date_chars(d) + seq!['T'] + spec_padded(h as nat, 2) + seq![':'] + spec_padded(
        mi as nat,
        2,
    ) + seq![':'] + spec_padded(s as nat, 2) + seq!['Z']
}

/// Hour of day of a clock reading.
pub open spec fn spec_hour_of_ms(now_ms: i64) -> int {
    (spec_clamp_ms(now_ms) / 1000) % 86400 / 3600
}

/// Minute of hour of a clock reading.
pub open spec fn spec_minute_of_ms(now_ms: i64) -> int {
    (spec_clamp_ms(now_ms) / 1000) % 3600 / 60
}

/// Second of minute of a clock reading.
pub open spec fn spec_second_of_ms(now_ms: i64) -> int {
    (spec_clamp_ms(now_ms) / 1000) % 60
}

/// Render a clock reading as an ISO-8601 UTC timestamp.
pub fn format_rfc3339_utc(now_ms: i64) -> (r: String)
    ensures
        exists|cd: CivilDate|
            cd.valid() && cd.epoch_day() == spec_epoch_day_of_ms(now_ms) && r@
                == spec_datetime_chars(
                cd,
                spec_hour_of_ms(now_ms) as u64,
                spec_minute_of_ms(now_ms) as u64,
                spec_second_of_ms(now_ms) as u64,
            ),
{
    let day = epoch_day_from_millis(now_ms);
    let cd = civil_from_days(day);
    let ms: u64 = if now_ms < 0 {
        0
    } else {
        now_ms as u64
    };
    let total_secs = ms / 1000;
    let h = total_secs % 86400 / 3600;
    let mi = total_secs % 3600 / 60;
    let s = total_secs % 60;
    let mut out = String::new();
    push_date_chars(&mut out, cd);
    string_push(&mut out, 'T');
    push_padded(&mut out, h, 2);
    string_push(&mut out, ':');
    push_padded(&mut out, mi, 2);
    string_push(&mut out, ':');
    push_padded(&mut out, s, 2);
    string_push(&mut out, 'Z');
    proof {
        assert(out@ == spec_datetime_chars(
            cd,
            spec_hour_of_ms(now_ms) as u64,
            spec_minute_of_ms(now_ms) as u64,
            spec_second_of_ms(now_ms) as u64,
        ));
    }
    out
}

} // verus!
