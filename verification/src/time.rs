//! Local calendar time in the fixed reference timezone (America/New_York),
//! and the integer keys that order calendar dates and instants.

use vstd::prelude::*;
use chrono::{Datelike, Timelike};

verus! {

/// Earliest UTC instant (seconds since the Unix epoch) the library accepts.
/// Instants outside this range are treated as malformed timestamps.
pub const MIN_UTC_SECS: i64 = -4_000_000_000_000;

/// Latest UTC instant (seconds since the Unix epoch) the library accepts.
pub const MAX_UTC_SECS: i64 = 4_000_000_000_000;

/// A civil calendar date (proleptic Gregorian), used for the "today" cutoff.
#[derive(Clone, Copy, Debug)]
pub struct CivilDate {
    pub year: i32,
    pub month: u8,
    pub day: u8,
}

/// An instant expressed in the reference timezone: calendar date plus
/// clock hour and minute.
#[derive(Clone, Copy, Debug)]
pub struct LocalStamp {
    pub year: i32,
    pub month: u8,
    pub day: u8,
    pub hour: u8,
    pub minute: u8,
}

pub open spec fn spec_is_leap_year(y: int) -> bool {
    (y % 4 == 0 && y % 100 != 0) || y % 400 == 0
}

pub open spec fn spec_days_in_month(y: int, m: int) -> int {
    if m == 2 {
        if spec_is_leap_year(y) {
            29
        } else {
            28
        }
    } else if m == 4 || m == 6 || m == 9 || m == 11 {
        30
    } else {
        31
    }
}

/// A real calendar date: month in range and day within the month's length.
pub open spec fn spec_valid_date(y: int, m: int, d: int) -> bool {
    &&& -300000 <= y <= 300000
    &&& 1 <= m <= 12
    &&& 1 <= d <= spec_days_in_month(y, m)
}

impl CivilDate {
    pub open spec fn valid(self) -> bool {
        spec_valid_date(self.year as int, self.month as int, self.day as int)
    }
}

impl LocalStamp {
    pub open spec fn valid(self) -> bool {
        &&& spec_valid_date(self.year as int, self.month as int, self.day as int)
        &&& self.hour < 24
        &&& self.minute < 60
    }
}

/// Orders calendar dates: lexicographic on (year, month, day).
pub open spec fn spec_date_key(y: int, m: int, d: int) -> int {
    (y + 300001) * 512 + m * 32 + d
}

/// Orders instants: lexicographic on (date, hour, minute).
pub open spec fn spec_stamp_key(s: LocalStamp) -> int {
    spec_date_key(s.year as int, s.month as int, s.day as int) * 2048 + (s.hour as int) * 64
        + s.minute as int
}

/// The date key of a stamp, ignoring the time of day.
pub open spec fn spec_stamp_date_key(s: LocalStamp) -> int {
    spec_date_key(s.year as int, s.month as int, s.day as int)
}

pub fn date_key(y: i32, m: u8, d: u8) -> (r: i64)
    ensures
        r == spec_date_key(y as int, m as int, d as int),
{
    (y as i64 + 300001) * 512 + (m as i64) * 32 + (d as i64)
}

pub fn stamp_key(s: &LocalStamp) -> (r: i64)
    ensures
        r == spec_stamp_key(*s),
{
    date_key(s.year, s.month, s.day) * 2048 + (s.hour as i64) * 64 + (s.minute as i64)
}

pub fn stamp_date_key(s: &LocalStamp) -> (r: i64)
    ensures
        r == spec_stamp_date_key(*s),
{
    date_key(s.year, s.month, s.day)
}

pub fn civil_date_key(d: &CivilDate) -> (r: i64)
    ensures
        r == spec_date_key(d.year as int, d.month as int, d.day as int),
{
    date_key(d.year, d.month, d.day)
}

pub fn is_leap_year(y: i32) -> (r: bool)
    requires
        0 <= y,
    ensures
        r == spec_is_leap_year(y as int),
{
    (y % 4 == 0 && y % 100 != 0) || y % 400 == 0
}

pub fn days_in_month(y: i32, m: u8) -> (r: u8)
    requires
        0 <= y,
    ensures
        r as int == spec_days_in_month(y as int, m as int),
{
    if m == 2 {
        if is_leap_year(y) {
            29
        } else {
            28
        }
    } else if m == 4 || m == 6 || m == 9 || m == 11 {
        30
    } else {
        31
    }
}

/// What the reference-timezone conversion yields for an in-range UTC
/// instant: local (year, month, day, hour, minute). The timezone's offset
/// rules take pages to state, so the result is only named here; it is a
/// function of the instant alone.
pub uninterp spec fn ny_local_of(utc_secs: int) -> (int, int, int, int, int);

/// Relies on chrono's `DateTime::from_timestamp` and chrono-tz's
/// `America::New_York`: an instant within `MIN_UTC_SECS..=MAX_UTC_SECS` is
/// far inside chrono's representable range, so the conversion succeeds and
/// yields a valid Gregorian calendar date and clock time; the result
/// depends on the instant alone (the zone's rules are a fixed table).
#[verifier::external_body]
pub fn ny_local(utc_secs: i64) -> (r: LocalStamp)
    requires
        MIN_UTC_SECS <= utc_secs <= MAX_UTC_SECS,
    ensures
        (r.year as int, r.month as int, r.day as int, r.hour as int, r.minute as int)
            == ny_local_of(utc_secs as int),
        r.valid(),
{
    let dt = chrono::DateTime::from_timestamp(utc_secs, 0)
        .unwrap()
        .with_timezone(&chrono_tz::America::New_York);
    LocalStamp {
        year: dt.year(),
        month: dt.month() as u8,
        day: dt.day() as u8,
        hour: dt.hour() as u8,
        minute: dt.minute() as u8,
    }
}

/// A valid stamp never carries the key of an invalid calendar day: the
/// key encoding is injective over the valid field ranges.
pub proof fn lemma_key_not_invalid_day(st: LocalStamp, y: int, m: int, d: int)
    requires
        st.valid(),
        -300000 <= y <= 300000,
        1 <= m <= 12,
        1 <= d <= 31,
        !spec_valid_date(y, m, d),
    ensures
        spec_stamp_date_key(st) != spec_date_key(y, m, d),
{
    if spec_stamp_date_key(st) == spec_date_key(y, m, d) {
        let y1 = st.year as int;
        let m1 = st.month as int;
        let d1 = st.day as int;
        assert(33 <= m1 * 32 + d1 <= 415);
        assert(33 <= m * 32 + d <= 415);
        assert((y1 + 300001) * 512 + m1 * 32 + d1 == (y + 300001) * 512 + m * 32 + d);
        assert(y1 == y) by (nonlinear_arith)
            requires
                (y1 + 300001) * 512 + m1 * 32 + d1 == (y + 300001) * 512 + m * 32 + d,
                0 < m1 * 32 + d1 < 512,
                0 < m * 32 + d < 512,
        ;
        assert(m1 * 32 + d1 == m * 32 + d);
        assert(m1 == m && d1 == d) by (nonlinear_arith)
            requires
                m1 * 32 + d1 == m * 32 + d,
                1 <= d1 <= 31,
                1 <= d <= 31,
        ;
        assert(d <= spec_days_in_month(y, m));
        assert(false);
    }
}

/// A valid stamp dated past a month's last day lies at or beyond the
/// first day of the following month: the keys skipped at a month
/// boundary belong to no real calendar date.
pub proof fn lemma_key_month_step(st: LocalStamp, y: int, m: int)
    requires
        st.valid(),
        -300000 <= y <= 300000,
        1 <= m <= 12,
        m == 12 ==> y < 300000,
        spec_stamp_date_key(st) > spec_date_key(y, m, 31),
    ensures
        m < 12 ==> spec_stamp_date_key(st) >= spec_date_key(y, m + 1, 1),
        m == 12 ==> spec_stamp_date_key(st) >= spec_date_key(y + 1, 1, 1),
{
    let y1 = st.year as int;
    let m1 = st.month as int;
    let d1 = st.day as int;
    assert(33 <= m1 * 32 + d1 <= 415);
    if y1 == y {
        assert(m1 * 32 + d1 > m * 32 + 31);
        assert(m1 > m) by (nonlinear_arith)
            requires
                m1 * 32 + d1 > m * 32 + 31,
                d1 <= 31,
        ;
        assert(m1 * 32 + d1 >= (m + 1) * 32 + 1);
    } else if y1 > y {
        assert((y1 + 300001) * 512 >= (y + 1 + 300001) * 512) by (nonlinear_arith)
            requires
                y1 >= y + 1,
        ;
    } else {
        assert((y1 + 300001) * 512 + m1 * 32 + d1 <= (y + 300001) * 512 - 512 + 415) by (nonlinear_arith)
            requires
                y1 <= y - 1,
                m1 * 32 + d1 <= 415,
        ;
        assert(false);
    }
}

} // verus!
