//! The arithmetic of the Persian (Jalali) and proleptic Gregorian calendars,
//! stated as spec functions, with the lemmas the executable code relies on.
//!
//! Persian dates are counted from 1 Farvardin of year 1 (day number 0).
//! Gregorian dates are counted as in `chrono`'s `num_days_from_ce`:
//! 1 January of year 1 is day 1.
use vstd::prelude::*;

verus! {

/// A calendar date as three mathematical integers; the view of the
/// library's date types.
pub struct Ymd {
    pub year: int,
    pub month: int,
    pub day: int,
}

/// A date and a time of day as mathematical integers.
pub struct YmdHms {
    pub date: Ymd,
    pub hour: int,
    pub minute: int,
    pub second: int,
}

pub open spec fn ymd(year: int, month: int, day: int) -> Ymd {
    Ymd { year, month, day }
}

/// First supported Persian year.
pub const MIN_YEAR: i32 = 1;

/// Last supported Persian year.
pub const MAX_YEAR: i32 = 9999;

/// Number of days in the Persian years 1 through 9999.
pub const SUPPORTED_DAYS: i64 = 3652059;

/// Gregorian day number (days from the common era, 0001-01-01 being day 1)
/// of 622-03-21, which is 1 Farvardin 1.
pub const EPOCH_GREGORIAN_DAY: i64 = 226895;

// ---------------------------------------------------------------------------
// Persian calendar
// ---------------------------------------------------------------------------

/// The 33-year cycle rule: a positive year is leap when its remainder
/// modulo 33 is one of 1, 5, 9, 13, 17, 22, 26, 30.
pub open spec fn is_leap(y: int) -> bool {
    &&& y > 0
    &&& {
        let r = y % 33;
        r == 1 || r == 5 || r == 9 || r == 13 || r == 17 || r == 22 || r == 26 || r == 30
    }
}

/// Length of month `m` of year `y` (0 for a month outside 1..=12).
pub open spec fn month_len(y: int, m: int) -> int {
    if 1 <= m <= 6 {
        31
    } else if 7 <= m <= 11 {
        30
    } else if m == 12 {
        if is_leap(y) {
            30
        } else {
            29
        }
    } else {
        0
    }
}

/// Number of days in year `y`.
pub open spec fn year_len(y: int) -> int {
    if is_leap(y) {
        366
    } else {
        365
    }
}

/// Days of the months that precede month `m` (1..=12) in any year.
pub open spec fn days_before_month(m: int) -> int {
    if m <= 7 {
        31 * (m - 1)
    } else {
        186 + 30 * (m - 7)
    }
}

/// Days of the years 1 .. y-1.
pub open spec fn days_before_year(y: int) -> int
    decreases y,
{
    if y <= 1 {
        0
    } else {
        days_before_year(y - 1) + year_len(y - 1)
    }
}

/// True when (y, m, d) is a date of the supported range 1..=9999.
pub open spec fn valid_ymd(y: int, m: int, d: int) -> bool {
    &&& MIN_YEAR <= y <= MAX_YEAR
    &&& 1 <= m <= 12
    &&& 1 <= d <= month_len(y, m)
}

/// The day of the year, 1 for 1 Farvardin.
pub open spec fn ordinal_of(m: int, d: int) -> int {
    days_before_month(m) + d
}

/// Days elapsed since 1 Farvardin 1.
pub open spec fn day_number(y: int, m: int, d: int) -> int {
    days_before_year(y) + days_before_month(m) + d - 1
}

/// Weekday of a day number, Saturday = 0 .. Friday = 6.
pub open spec fn weekday_of_day_number(n: int) -> int {
    (gregorian_weekday_from_sunday(EPOCH_GREGORIAN_DAY + n) + 1) % 7
}

pub open spec fn is_valid_ymd(p: Ymd) -> bool {
    valid_ymd(p.year, p.month, p.day)
}

pub open spec fn day_number_of(p: Ymd) -> int {
    day_number(p.year, p.month, p.day)
}

/// The Persian date `n` days after 1 Farvardin 1, if it lies in the
/// supported range.
pub open spec fn persian_of_day_number(n: int) -> Option<Ymd> {
    if 0 <= n < SUPPORTED_DAYS {
        Some(choose|p: Ymd| is_valid_ymd(p) && day_number_of(p) == n)
    } else {
        None
    }
}

/// The time of day is valid.
pub open spec fn valid_hms(h: int, m: int, s: int) -> bool {
    0 <= h <= 23 && 0 <= m <= 59 && 0 <= s <= 59
}

// ---------------------------------------------------------------------------
// Proleptic Gregorian calendar (as documented by chrono)
// ---------------------------------------------------------------------------

/// First year `chrono::NaiveDate` represents.
pub const GREGORIAN_MIN_YEAR: i32 = -262143;

/// Last year `chrono::NaiveDate` represents.
pub const GREGORIAN_MAX_YEAR: i32 = 262142;

/// Gregorian day number of 262142-12-31, the last date `chrono` represents.
pub const GREGORIAN_MAX_DAY: i64 = 95745399;

/// Gregorian day number of -262143-01-01, the first date `chrono` represents.
pub const GREGORIAN_MIN_DAY: i64 = -95746129;

pub open spec fn gregorian_is_leap(y: int) -> bool {
    (y % 4 == 0 && y % 100 != 0) || y % 400 == 0
}

pub open spec fn gregorian_month_len(y: int, m: int) -> int {
    if m == 2 {
        if gregorian_is_leap(y) {
            29
        } else {
            28
        }
    } else if m == 4 || m == 6 || m == 9 || m == 11 {
        30
    } else if 1 <= m <= 12 {
        31
    } else {
        0
    }
}

pub open spec fn gregorian_valid_ymd(y: int, m: int, d: int) -> bool {
    &&& GREGORIAN_MIN_YEAR <= y <= GREGORIAN_MAX_YEAR
    &&& 1 <= m <= 12
    &&& 1 <= d <= gregorian_month_len(y, m)
}

/// Days of the Gregorian years before year `y` counted from 0001-01-01
/// (negative for years before 1).
pub open spec fn gregorian_days_before_year(y: int) -> int {
    365 * (y - 1) + (y - 1) / 4 - (y - 1) / 100 + (y - 1) / 400
}

pub open spec fn gregorian_days_before_month(y: int, m: int) -> int {
    let base: int = if m <= 1 {
        0
    } else if m == 2 {
        31
    } else if m == 3 {
        59
    } else if m == 4 {
        90
    } else if m == 5 {
        120
    } else if m == 6 {
        151
    } else if m == 7 {
        181
    } else if m == 8 {
        212
    } else if m == 9 {
        243
    } else if m == 10 {
        273
    } else if m == 11 {
        304
    } else {
        334
    };
    if m > 2 && gregorian_is_leap(y) {
        base + 1
    } else {
        base
    }
}

/// `chrono`'s `num_days_from_ce`: 0001-01-01 is day 1.
pub open spec fn gregorian_day_number(y: int, m: int, d: int) -> int {
    gregorian_days_before_year(y) + gregorian_days_before_month(y, m) + d
}

pub open spec fn gregorian_is_valid(g: Ymd) -> bool {
    gregorian_valid_ymd(g.year, g.month, g.day)
}

pub open spec fn gregorian_day_number_of(g: Ymd) -> int {
    gregorian_day_number(g.year, g.month, g.day)
}

/// Seconds elapsed since the start of Gregorian day 0.
pub open spec fn gregorian_seconds_of(t: YmdHms) -> int {
    gregorian_day_number_of(t.date) * 86400 + t.hour * 3600 + t.minute * 60 + t.second
}

/// Weekday of a Gregorian day number, Sunday = 0 .. Saturday = 6
/// (0001-01-01, day 1, was a Monday).
pub open spec fn gregorian_weekday_from_sunday(n: int) -> int {
    n % 7
}

// ---------------------------------------------------------------------------
// Lemmas
// ---------------------------------------------------------------------------

pub proof fn lemma_days_before_year_step(y: int)
    requires
        y >= 1,
    ensures
        days_before_year(y + 1) == days_before_year(y) + year_len(y),
{
}

/// Bounds of `days_before_year` between two years.
pub proof fn lemma_days_before_year_bounds(a: int, b: int)
    requires
        1 <= a <= b,
    ensures
        days_before_year(a) + 365 * (b - a) <= days_before_year(b),
        days_before_year(b) <= days_before_year(a) + 366 * (b - a),
    decreases b - a,
{
    if a < b {
        lemma_days_before_year_bounds(a, b - 1);
        lemma_days_before_year_step(b - 1);
    }
}

/// `days_before_year` is strictly increasing.
pub proof fn lemma_days_before_year_strict(a: int, b: int)
    requires
        1 <= a < b,
    ensures
        days_before_year(a) + year_len(a) <= days_before_year(b),
{
    lemma_days_before_year_step(a);
    lemma_days_before_year_bounds(a + 1, b);
}

pub proof fn lemma_days_before_year_nonneg(y: int)
    ensures
        days_before_year(y) >= 0,
        y >= 1 ==> days_before_year(y) >= 365 * (y - 1),
        y >= 1 ==> days_before_year(y) <= 366 * (y - 1),
{
    if y >= 1 {
        lemma_days_before_year_bounds(1, y);
    }
}

/// A valid date lies within its year.
pub proof fn lemma_ordinal_bounds(y: int, m: int, d: int)
    requires
        1 <= m <= 12,
        1 <= d <= month_len(y, m),
    ensures
        1 <= ordinal_of(m, d) <= year_len(y),
{
}

/// The year of a day number: the year whose days contain it.
pub proof fn lemma_day_number_in_year(y: int, m: int, d: int)
    requires
        valid_ymd(y, m, d),
    ensures
        days_before_year(y) <= day_number(y, m, d) < days_before_year(y + 1),
{
    lemma_ordinal_bounds(y, m, d);
    lemma_days_before_year_step(y);
}

/// Two valid dates with the same day number are the same date.
pub proof fn lemma_day_number_injective(y1: int, m1: int, d1: int, y2: int, m2: int, d2: int)
    requires
        valid_ymd(y1, m1, d1),
        valid_ymd(y2, m2, d2),
        day_number(y1, m1, d1) == day_number(y2, m2, d2),
    ensures
        y1 == y2 && m1 == m2 && d1 == d2,
{
    lemma_day_number_in_year(y1, m1, d1);
    lemma_day_number_in_year(y2, m2, d2);
    if y1 < y2 {
        lemma_days_before_year_strict(y1, y2);
        lemma_days_before_year_step(y1);
    } else if y2 < y1 {
        lemma_days_before_year_strict(y2, y1);
        lemma_days_before_year_step(y2);
    }
    assert(y1 == y2);
}

/// Day numbers of the supported range lie in [0, SUPPORTED_DAYS).
pub proof fn lemma_supported_day_number(y: int, m: int, d: int)
    requires
        valid_ymd(y, m, d),
    ensures
        0 <= day_number(y, m, d) < SUPPORTED_DAYS,
        days_before_year(y) <= days_before_year(10000) - year_len(y),
{
    lemma_day_number_in_year(y, m, d);
    lemma_days_before_year_nonneg(y);
    lemma_supported_days();
    if y < 10000 {
        if y + 1 < 10000 {
            lemma_days_before_year_strict(y + 1, 10000);
        }
        lemma_days_before_year_step(y);
    }
}

/// The number of days in years 1..=9999.
pub proof fn lemma_supported_days()
    ensures
        days_before_year(10000) == SUPPORTED_DAYS,
{
    lemma_days_before_year_closed(10000);
    lemma_leap_years_before_10000();
}

/// Closed form of `days_before_year` for positive years: 365 days a year
/// plus the leap years before `y`.
pub open spec fn leap_years_before(y: int) -> int {
    let q = (y - 1) / 33;
    let r = (y - 1) % 33;
    8 * q + leap_years_in_cycle_prefix(r)
}

/// Leap years among the cycle positions 1..=r.
pub open spec fn leap_years_in_cycle_prefix(r: int) -> int {
    if r < 1 {
        0
    } else if r < 5 {
        1
    } else if r < 9 {
        2
    } else if r < 13 {
        3
    } else if r < 17 {
        4
    } else if r < 22 {
        5
    } else if r < 26 {
        6
    } else if r < 30 {
        7
    } else {
        8
    }
}

pub proof fn lemma_days_before_year_closed(y: int)
    requires
        y >= 1,
    ensures
        days_before_year(y) == 365 * (y - 1) + leap_years_before(y),
    decreases y,
{
    if y > 1 {
        lemma_days_before_year_closed(y - 1);
        lemma_days_before_year_step(y - 1);
        let a = y - 2;
        let b = y - 1;
        assert(b == a + 1);
        assert((b / 33 == a / 33 && b % 33 == a % 33 + 1) || (b / 33 == a / 33 + 1 && b % 33 == 0
            && a % 33 == 32)) by (nonlinear_arith)
            requires
                a >= 0,
                b == a + 1,
        ;
        assert(is_leap(b) <==> {
            let r = b % 33;
            r == 1 || r == 5 || r == 9 || r == 13 || r == 17 || r == 22 || r == 26 || r == 30
        });
    }
}

/// Computation of `days_before_year(10000)` needs the closed form.
pub proof fn lemma_leap_years_before_10000()
    ensures
        leap_years_before(10000) == 2424,
{
    assert(9999int / 33 == 303);
    assert(9999int % 33 == 0);
}

/// The year holding day number `n`, searched upward from `y`.
proof fn lemma_year_of_day_number(n: int, y: int) -> (r: int)
    requires
        1 <= y,
        days_before_year(y) <= n,
    ensures
        r >= y,
        days_before_year(r) <= n < days_before_year(r + 1),
    decreases n - days_before_year(y),
{
    lemma_days_before_year_step(y);
    if n < days_before_year(y + 1) {
        y
    } else {
        lemma_year_of_day_number(n, y + 1)
    }
}

/// Every day number of the supported range is the day number of a
/// supported date.
pub proof fn lemma_persian_of_day_number(n: int)
    requires
        0 <= n < SUPPORTED_DAYS,
    ensures
        persian_of_day_number(n) matches Some(p) && is_valid_ymd(p) && day_number_of(p) == n,
{
    let y = lemma_year_of_day_number(n, 1);
    lemma_supported_days();
    if y >= 10000 {
        if y > 10000 {
            lemma_days_before_year_strict(10000, y);
        }
        assert(false);
    }
    lemma_days_before_year_step(y);
    let o = n - days_before_year(y) + 1;
    assert(1 <= o <= year_len(y));
    let (m, d) = if o <= 186 {
        let m = (o - 1) / 31 + 1;
        assert(1 <= m <= 6 && o - 31 * (m - 1) >= 1 && o - 31 * (m - 1) <= 31) by (nonlinear_arith)
            requires
                1 <= o <= 186,
                m == (o - 1) / 31 + 1,
        ;
        (m, o - 31 * (m - 1))
    } else {
        let m = (o - 187) / 30 + 7;
        assert(7 <= m <= 12 && o - 186 - 30 * (m - 7) >= 1 && o - 186 - 30 * (m - 7) <= 30
            && (m == 12 ==> o - 186 - 30 * (m - 7) == o - 336)) by (nonlinear_arith)
            requires
                187 <= o <= 366,
                m == (o - 187) / 30 + 7,
        ;
        (m, o - 186 - 30 * (m - 7))
    };
    let p = ymd(y, m, d);
    assert(is_valid_ymd(p) && day_number_of(p) == n);
}

pub open spec fn gregorian_year_len(y: int) -> int {
    if gregorian_is_leap(y) {
        366
    } else {
        365
    }
}

proof fn lemma_floor_step(y: int, k: int)
    requires
        k == 4 || k == 100 || k == 400,
    ensures
        y / k - (y - 1) / k == (if y % k == 0 {
            1int
        } else {
            0int
        }),
{
    assert(y / k - (y - 1) / k == (if y % k == 0 {
        1int
    } else {
        0int
    })) by (nonlinear_arith)
        requires
            k > 0,
    ;
}

/// Consecutive Gregorian years are `gregorian_year_len` days apart.
pub proof fn lemma_gregorian_year_step(y: int)
    ensures
        gregorian_days_before_year(y + 1) == gregorian_days_before_year(y) + gregorian_year_len(y),
{
    lemma_floor_step(y, 4);
    lemma_floor_step(y, 100);
    lemma_floor_step(y, 400);
    assert(y % 400 == 0 ==> y % 100 == 0 && y % 4 == 0) by (nonlinear_arith);
    assert(y % 100 == 0 ==> y % 4 == 0) by (nonlinear_arith);
}

pub proof fn lemma_gregorian_days_before_year_strict(a: int, b: int)
    requires
        a < b,
    ensures
        gregorian_days_before_year(a) + gregorian_year_len(a) <= gregorian_days_before_year(b),
    decreases b - a,
{
    lemma_gregorian_year_step(a);
    if a + 1 < b {
        lemma_gregorian_days_before_year_strict(a + 1, b);
    }
}

/// A valid Gregorian date lies within its year.
pub proof fn lemma_gregorian_day_in_year(y: int, m: int, d: int)
    requires
        gregorian_valid_ymd(y, m, d),
    ensures
        gregorian_days_before_year(y) < gregorian_day_number(y, m, d),
        gregorian_day_number(y, m, d) <= gregorian_days_before_year(y) + gregorian_year_len(y),
{
}

/// Two valid Gregorian dates with the same day number are the same date.
pub proof fn lemma_gregorian_day_number_injective(a: Ymd, b: Ymd)
    requires
        gregorian_is_valid(a),
        gregorian_is_valid(b),
        gregorian_day_number_of(a) == gregorian_day_number_of(b),
    ensures
        a == b,
{
    lemma_gregorian_day_in_year(a.year, a.month, a.day);
    lemma_gregorian_day_in_year(b.year, b.month, b.day);
    if a.year < b.year {
        lemma_gregorian_days_before_year_strict(a.year, b.year);
    } else if b.year < a.year {
        lemma_gregorian_days_before_year_strict(b.year, a.year);
    }
    assert(a.year == b.year);
    assert(a.month == b.month);
}

} // verus!
