//! `ParsiDate`: a date of the Persian (Jalali) calendar.
use crate::calendar::{
    day_number_of, days_before_month, days_before_year, gregorian_day_number_of,
    gregorian_is_valid, is_leap,
    is_valid_ymd, lemma_day_number_injective, lemma_days_before_year_nonneg,
    lemma_days_before_year_step, lemma_days_before_year_strict, lemma_ordinal_bounds,
    lemma_persian_of_day_number, lemma_supported_day_number, lemma_supported_days, month_len,
    ordinal_of, persian_of_day_number, valid_ymd, weekday_of_day_number, year_len, ymd, Ymd,
    EPOCH_GREGORIAN_DAY, GREGORIAN_MAX_DAY, GREGORIAN_MIN_DAY, MAX_YEAR, MIN_YEAR,
    SUPPORTED_DAYS,
};
use crate::error::{DateError, ParseErrorKind};
use crate::parse::{parse_date_outcome, scan_fields};
use crate::gregorian::{
    local_today, naive_date_checked_add_days, naive_date_checked_sub_days, naive_date_days_since,
    naive_date_weekday_from_sunday, GregorianDate,
};
use crate::format::{
    format_chars, format_pattern, format_style, numeric_form, push_long_form, push_numeric_form,
};
use crate::text::{chars_eq, chars_of, weekday_name, weekday_name_str};
use crate::season::{season_of_month, season_start_month, Season};
use vstd::prelude::*;

verus! {

/// A date of the Persian calendar: year, month (1 = Farvardin .. 12 = Esfand)
/// and day. The supported years are 1 through 9999.
///
/// A value made by `new_unchecked` may hold an invalid combination; every
/// operation checks validity where the result depends on it.
#[derive(Debug, PartialEq, Eq, Clone, Copy, PartialOrd, Ord, Hash)]
pub struct ParsiDate {
    year: i32,
    month: u32,
    day: u32,
}

/// 1 Farvardin 1, the first supported date (Gregorian 622-03-21).
pub fn min_parsi_date() -> (r: ParsiDate)
    ensures
        r@ == ymd(1, 1, 1),
        is_valid_ymd(r@),
{
    ParsiDate { year: MIN_YEAR, month: 1, day: 1 }
}

/// 29 Esfand 9999, the last supported date (9999 is a common year).
pub fn max_parsi_date() -> (r: ParsiDate)
    ensures
        r@ == ymd(9999, 12, 29),
        is_valid_ymd(r@),
{
    ParsiDate { year: MAX_YEAR, month: 12, day: 29 }
}

impl View for ParsiDate {
    type V = Ymd;

    closed spec fn view(&self) -> Ymd {
        Ymd { year: self.year as int, month: self.month as int, day: self.day as int }
    }
}

/// The view of a result of the library's date operations.
pub open spec fn date_result(r: Result<ParsiDate, DateError>) -> Result<Ymd, DateError> {
    match r {
        Ok(d) => Ok(d@),
        Err(e) => Err(e),
    }
}

/// What `ParsiDate::new(y, m, d)` returns.
pub open spec fn new_outcome(y: int, m: int, d: int) -> Result<Ymd, DateError> {
    if valid_ymd(y, m, d) {
        Ok(ymd(y, m, d))
    } else {
        Err(DateError::InvalidDate)
    }
}

/// Month and day of the `o`-th day (1-based) of a year.
pub open spec fn month_day_of_ordinal(o: int) -> (int, int) {
    if o <= 186 {
        ((o - 1) / 31 + 1, (o - 1) % 31 + 1)
    } else {
        ((o - 187) / 30 + 7, (o - 187) % 30 + 1)
    }
}

/// What `ParsiDate::from_ordinal(y, o)` returns.
pub open spec fn from_ordinal_outcome(y: int, o: int) -> Result<Ymd, DateError> {
    if o == 0 || o > year_len(y) {
        Err(DateError::InvalidOrdinal)
    } else {
        new_outcome(y, month_day_of_ordinal(o).0, month_day_of_ordinal(o).1)
    }
}

/// The date `k` months after `p`, the day clamped to the target month.
pub open spec fn add_months_outcome(p: Ymd, k: int) -> Result<Ymd, DateError> {
    if !is_valid_ymd(p) {
        Err(DateError::InvalidDate)
    } else if k == 0 {
        Ok(p)
    } else {
        let t = p.year * 12 + (p.month - 1) + k;
        let ty = t / 12;
        let tm = t % 12 + 1;
        if ty < MIN_YEAR || ty > MAX_YEAR {
            Err(DateError::ArithmeticOverflow)
        } else {
            let len = month_len(ty, tm);
            Ok(ymd(ty, tm, if p.day < len { p.day } else { len }))
        }
    }
}

/// The day a year change lands on: Esfand 30 becomes Esfand 29 in a common year.
pub open spec fn day_in_year(p: Ymd, y: int) -> int {
    if p.month == 12 && p.day == 30 && !is_leap(y) {
        29
    } else {
        p.day
    }
}

/// The date `k` years after `p`.
pub open spec fn add_years_outcome(p: Ymd, k: int) -> Result<Ymd, DateError> {
    if !is_valid_ymd(p) {
        Err(DateError::InvalidDate)
    } else if k == 0 {
        Ok(p)
    } else if p.year + k < MIN_YEAR || p.year + k > MAX_YEAR {
        Err(DateError::ArithmeticOverflow)
    } else {
        Ok(ymd(p.year + k, p.month, day_in_year(p, p.year + k)))
    }
}

/// Weekday (Saturday = 0 .. Friday = 6) of a valid date.
pub open spec fn weekday_number(p: Ymd) -> int {
    weekday_of_day_number(day_number_of(p))
}

/// Week of the year: weeks start on Saturday and week 1 holds 1 Farvardin.
pub open spec fn week_number(p: Ymd) -> int {
    (ordinal_of(p.month, p.day) + weekday_of_day_number(days_before_year(p.year)) - 1) / 7 + 1
}

/// The Persian date of a Gregorian date (`g` given by its components).
pub open spec fn gregorian_to_persian(g: Ymd) -> Result<Ymd, DateError> {
    match persian_of_day_number(gregorian_day_number_of(g) - EPOCH_GREGORIAN_DAY) {
        Some(p) => Ok(p),
        None => Err(DateError::GregorianConversionError),
    }
}

/// The date `n` days after (before, for negative `n`) a date.
pub open spec fn add_days_outcome(p: Ymd, n: int) -> Result<Ymd, DateError> {
    if !is_valid_ymd(p) {
        Err(DateError::InvalidDate)
    } else {
        let t = EPOCH_GREGORIAN_DAY + day_number_of(p) + n;
        if n == i64::MIN || t > GREGORIAN_MAX_DAY || t < GREGORIAN_MIN_DAY {
            Err(DateError::ArithmeticOverflow)
        } else if t < EPOCH_GREGORIAN_DAY {
            Err(DateError::GregorianConversionError)
        } else if t - EPOCH_GREGORIAN_DAY >= SUPPORTED_DAYS {
            Err(DateError::ArithmeticOverflow)
        } else {
            Ok(persian_of_day_number(t - EPOCH_GREGORIAN_DAY).unwrap())
        }
    }
}

/// What `sub_days(n)` returns.
pub open spec fn sub_days_outcome(p: Ymd, n: int) -> Result<Ymd, DateError> {
    if n > i64::MAX {
        Err(DateError::ArithmeticOverflow)
    } else {
        add_days_outcome(p, -n)
    }
}

impl ParsiDate {
    // --- Construction -------------------------------------------------------

    /// The date with the given components, if they form a date of years 1..=9999.
    pub fn new(year: i32, month: u32, day: u32) -> (r: Result<ParsiDate, DateError>)
        ensures
            date_result(r) == new_outcome(year as int, month as int, day as int),
    {
        let date = ParsiDate { year, month, day };
        if date.is_valid() {
            Ok(date)
        } else {
            Err(DateError::InvalidDate)
        }
    }

    /// The date with the given components, whether or not they are valid.
    pub fn new_unchecked(year: i32, month: u32, day: u32) -> (r: ParsiDate)
        ensures
            r@ == ymd(year as int, month as int, day as int),
    {
        ParsiDate { year, month, day }
    }

    /// The `ordinal`-th day (1-based) of `year`.
    pub fn from_ordinal(year: i32, ordinal: u32) -> (r: Result<ParsiDate, DateError>)
        ensures
            date_result(r) == from_ordinal_outcome(year as int, ordinal as int),
    {
        if ordinal == 0 {
            return Err(DateError::InvalidOrdinal);
        }
        let days_in_year: u32 = if Self::is_persian_leap_year(year) {
            366
        } else {
            365
        };
        if ordinal > days_in_year {
            return Err(DateError::InvalidOrdinal);
        }
        let lengths = Self::month_lengths(year);
        let mut day: u32 = ordinal;
        let mut i: usize = 0;
        while day > lengths[i]
            invariant
                0 <= i < 12,
                1 <= ordinal <= year_len(year as int),
                forall|j: int| 0 <= j < 12 ==> lengths@[j] == month_len(year as int, j + 1),
                day == ordinal - days_before_month(i + 1),
                day >= 1,
            decreases 12 - i,
        {
            day = day - lengths[i];
            i = i + 1;
        }
        proof {
            let o = ordinal as int;
            let m = i + 1;
            assert(days_before_month(m) < o <= days_before_month(m) + month_len(year as int, m));
            if o <= 186 {
                assert(m <= 6);
                assert((o - 1) / 31 + 1 == m && (o - 1) % 31 + 1 == o - 31 * (m - 1))
                    by (nonlinear_arith)
                    requires
                        31 * (m - 1) < o <= 31 * m,
                        1 <= m <= 6,
                ;
            } else {
                assert(m >= 7);
                assert((o - 187) / 30 + 7 == m && (o - 187) % 30 + 1 == o - 186 - 30 * (m - 7))
                    by (nonlinear_arith)
                    requires
                        186 + 30 * (m - 7) < o <= 186 + 30 * (m - 6),
                        7 <= m <= 12,
                ;
            }
        }
        ParsiDate::new(year, (i + 1) as u32, day)
    }

    // --- Accessors ----------------------------------------------------------

    pub fn year(&self) -> (r: i32)
        ensures
            r == self@.year,
    {
        self.year
    }

    pub fn month(&self) -> (r: u32)
        ensures
            r == self@.month,
    {
        self.month
    }

    pub fn day(&self) -> (r: u32)
        ensures
            r == self@.day,
    {
        self.day
    }

    // --- Validity and calendar facts -----------------------------------------

    /// Whether the date is a date of years 1..=9999.
    pub fn is_valid(&self) -> (r: bool)
        ensures
            r == is_valid_ymd(self@),
    {
        if self.year < MIN_YEAR || self.year > MAX_YEAR {
            return false;
        }
        if self.month < 1 || self.month > 12 {
            return false;
        }
        if self.day < 1 || self.day > Self::days_in_month(self.year, self.month) {
            return false;
        }
        true
    }

    /// The 33-year cycle rule; years below 1 are never leap.
    pub fn is_persian_leap_year(year: i32) -> (r: bool)
        ensures
            r == is_leap(year as int),
    {
        if year <= 0 {
            return false;
        }
        let r = year % 33;
        r == 1 || r == 5 || r == 9 || r == 13 || r == 17 || r == 22 || r == 26 || r == 30
    }

    /// The Gregorian leap-year rule.
    pub fn is_gregorian_leap_year(year: i32) -> (r: bool)
        ensures
            r == crate::calendar::gregorian_is_leap(year as int),
    {
        (year % 4 == 0 && year % 100 != 0) || (year % 400 == 0)
    }

    /// Days in `month` of `year`; 0 for a month outside 1..=12.
    pub fn days_in_month(year: i32, month: u32) -> (r: u32)
        ensures
            r == month_len(year as int, month as int),
    {
        if 1 <= month && month <= 6 {
            31
        } else if 7 <= month && month <= 11 {
            30
        } else if month == 12 {
            if Self::is_persian_leap_year(year) {
                30
            } else {
                29
            }
        } else {
            0
        }
    }

    /// The lengths of the twelve months of `year`.
    pub(crate) fn month_lengths(year: i32) -> (r: [u32; 12])
        ensures
            forall|j: int| 0 <= j < 12 ==> r@[j] == month_len(year as int, j + 1),
    {
        [31, 31, 31, 31, 31, 31, 30, 30, 30, 30, 30, Self::days_in_month(year, 12)]
    }

    /// The day of the year, 1 for 1 Farvardin.
    pub fn ordinal(&self) -> (r: Result<u32, DateError>)
        ensures
            r == (if is_valid_ymd(self@) {
                Ok(ordinal_of(self@.month, self@.day) as u32)
            } else {
                Err(DateError::InvalidDate)
            }),
            r matches Ok(o) ==> 1 <= o <= year_len(self@.year),
    {
        self.ordinal_internal()
    }

    pub(crate) fn ordinal_internal(&self) -> (r: Result<u32, DateError>)
        ensures
            r == (if is_valid_ymd(self@) {
                Ok(ordinal_of(self@.month, self@.day) as u32)
            } else {
                Err(DateError::InvalidDate)
            }),
            r matches Ok(o) ==> 1 <= o <= year_len(self@.year),
    {
        if !self.is_valid() {
            return Err(DateError::InvalidDate);
        }
        proof {
            lemma_ordinal_bounds(self@.year, self@.month, self@.day);
        }
        let lengths = Self::month_lengths(self.year);
        let mut acc: u32 = 0;
        let mut i: usize = 0;
        while i + 1 < self.month as usize
            invariant
                0 <= i < self.month <= 12,
                forall|j: int| 0 <= j < 12 ==> lengths@[j] == month_len(self.year as int, j + 1),
                acc == days_before_month(i + 1),
            decreases 12 - i,
        {
            acc = match acc.checked_add(lengths[i]) {
                Some(a) => a,
                None => return Err(DateError::ArithmeticOverflow),
            };
            i = i + 1;
        }
        match acc.checked_add(self.day) {
            Some(a) => Ok(a),
            None => Err(DateError::ArithmeticOverflow),
        }
    }

    /// The season of the date.
    pub fn season(&self) -> (r: Result<Season, DateError>)
        ensures
            r == (if is_valid_ymd(self@) {
                Ok(season_of_month(self@.month))
            } else {
                Err(DateError::InvalidDate)
            }),
    {
        if !self.is_valid() {
            return Err(DateError::InvalidDate);
        }
        if self.month <= 3 {
            Ok(Season::Bahar)
        } else if self.month <= 6 {
            Ok(Season::Tabestan)
        } else if self.month <= 9 {
            Ok(Season::Paeez)
        } else {
            Ok(Season::Zemestan)
        }
    }

    // --- Month and year arithmetic ------------------------------------------

    /// The date `months_to_add` months later (earlier if negative); the day is
    /// clamped to the length of the target month.
    pub fn add_months(&self, months_to_add: i32) -> (r: Result<ParsiDate, DateError>)
        ensures
            date_result(r) == add_months_outcome(self@, months_to_add as int),
    {
        if !self.is_valid() {
            return Err(DateError::InvalidDate);
        }
        if months_to_add == 0 {
            return Ok(*self);
        }
        let total: i64 = (self.year as i64) * 12 + (self.month as i64 - 1) + months_to_add as i64;
        let target_year_abs: i64 = match total.checked_div_euclid(12) {
            Some(q) => q,
            None => return Err(DateError::ArithmeticOverflow),
        };
        let target_month0: i64 = match total.checked_rem_euclid(12) {
            Some(q) => q,
            None => return Err(DateError::ArithmeticOverflow),
        };
        if target_year_abs < MIN_YEAR as i64 || target_year_abs > MAX_YEAR as i64 {
            return Err(DateError::ArithmeticOverflow);
        }
        let target_year = target_year_abs as i32;
        let target_month = (target_month0 + 1) as u32;
        let max_days = Self::days_in_month(target_year, target_month);
        if max_days == 0 {
            return Err(DateError::InvalidDate);
        }
        let target_day = if self.day < max_days {
            self.day
        } else {
            max_days
        };
        ParsiDate::new(target_year, target_month, target_day)
    }

    /// The date `months_to_sub` months earlier.
    pub fn sub_months(&self, months_to_sub: u32) -> (r: Result<ParsiDate, DateError>)
        ensures
            date_result(r) == (if months_to_sub > i32::MAX {
                Err(DateError::ArithmeticOverflow)
            } else {
                add_months_outcome(self@, -(months_to_sub as int))
            }),
    {
        if months_to_sub > i32::MAX as u32 {
            return Err(DateError::ArithmeticOverflow);
        }
        self.add_months(-(months_to_sub as i32))
    }

    /// The date `years_to_add` years later (earlier if negative); Esfand 30
    /// becomes Esfand 29 in a common target year.
    pub fn add_years(&self, years_to_add: i32) -> (r: Result<ParsiDate, DateError>)
        ensures
            date_result(r) == add_years_outcome(self@, years_to_add as int),
    {
        if !self.is_valid() {
            return Err(DateError::InvalidDate);
        }
        if years_to_add == 0 {
            return Ok(*self);
        }
        let target_year = match self.year.checked_add(years_to_add) {
            Some(y) => y,
            None => return Err(DateError::ArithmeticOverflow),
        };
        if target_year < MIN_YEAR || target_year > MAX_YEAR {
            return Err(DateError::ArithmeticOverflow);
        }
        let mut target_day = self.day;
        if self.month == 12 && self.day == 30 && !Self::is_persian_leap_year(target_year) {
            target_day = 29;
        }
        ParsiDate::new(target_year, self.month, target_day)
    }

    /// The date `years_to_sub` years earlier.
    pub fn sub_years(&self, years_to_sub: u32) -> (r: Result<ParsiDate, DateError>)
        ensures
            date_result(r) == (if years_to_sub > i32::MAX {
                Err(DateError::ArithmeticOverflow)
            } else {
                add_years_outcome(self@, -(years_to_sub as int))
            }),
    {
        if years_to_sub > i32::MAX as u32 {
            return Err(DateError::ArithmeticOverflow);
        }
        self.add_years(-(years_to_sub as i32))
    }

    // --- Changing one component ---------------------------------------------

    /// The same date in `year`; Esfand 30 becomes Esfand 29 in a common year.
    pub fn with_year(&self, year: i32) -> (r: Result<ParsiDate, DateError>)
        ensures
            date_result(r) == (if !is_valid_ymd(self@) {
                Err(DateError::InvalidDate)
            } else {
                new_outcome(year as int, self@.month, day_in_year(self@, year as int))
            }),
    {
        if !self.is_valid() {
            return Err(DateError::InvalidDate);
        }
        let mut day = self.day;
        if self.month == 12 && self.day == 30 && !Self::is_persian_leap_year(year) {
            day = 29;
        }
        ParsiDate::new(year, self.month, day)
    }

    /// The same day in `month` of the same year, clamped to the month's length.
    pub fn with_month(&self, month: u32) -> (r: Result<ParsiDate, DateError>)
        ensures
            date_result(r) == (if !is_valid_ymd(self@) || month < 1 || month > 12 {
                Err(DateError::InvalidDate)
            } else {
                let len = month_len(self@.year, month as int);
                Ok(ymd(self@.year, month as int, if self@.day < len { self@.day } else { len }))
            }),
    {
        if !self.is_valid() {
            return Err(DateError::InvalidDate);
        }
        if month < 1 || month > 12 {
            return Err(DateError::InvalidDate);
        }
        let max_days = Self::days_in_month(self.year, month);
        if max_days == 0 {
            return Err(DateError::InvalidDate);
        }
        let day = if self.day < max_days {
            self.day
        } else {
            max_days
        };
        ParsiDate::new(self.year, month, day)
    }

    /// The given day of the same month and year.
    pub fn with_day(&self, day: u32) -> (r: Result<ParsiDate, DateError>)
        ensures
            date_result(r) == (if !is_valid_ymd(self@) {
                Err(DateError::InvalidDate)
            } else {
                new_outcome(self@.year, self@.month, day as int)
            }),
    {
        if !self.is_valid() {
            return Err(DateError::InvalidDate);
        }
        if day == 0 {
            return Err(DateError::InvalidDate);
        }
        ParsiDate::new(self.year, self.month, day)
    }

    /// The first day of the date's month.
    pub fn first_day_of_month(&self) -> (r: ParsiDate)
        requires
            is_valid_ymd(self@),
        ensures
            r@ == ymd(self@.year, self@.month, 1),
            is_valid_ymd(r@),
    {
        ParsiDate::new_unchecked(self.year, self.month, 1)
    }

    /// The last day of the date's month.
    pub fn last_day_of_month(&self) -> (r: ParsiDate)
        requires
            is_valid_ymd(self@),
        ensures
            r@ == ymd(self@.year, self@.month, month_len(self@.year, self@.month)),
            is_valid_ymd(r@),
    {
        let last = Self::days_in_month(self.year, self.month);
        ParsiDate::new_unchecked(self.year, self.month, last)
    }

    /// 1 Farvardin of the date's year.
    pub fn first_day_of_year(&self) -> (r: ParsiDate)
        requires
            is_valid_ymd(self@),
        ensures
            r@ == ymd(self@.year, 1, 1),
            is_valid_ymd(r@),
    {
        ParsiDate::new_unchecked(self.year, 1, 1)
    }

    /// The last day of Esfand of the date's year.
    pub fn last_day_of_year(&self) -> (r: ParsiDate)
        requires
            is_valid_ymd(self@),
        ensures
            r@ == ymd(self@.year, 12, month_len(self@.year, 12)),
            is_valid_ymd(r@),
            ordinal_of(r@.month, r@.day) == year_len(self@.year),
    {
        let last: u32 = if Self::is_persian_leap_year(self.year) {
            30
        } else {
            29
        };
        ParsiDate::new_unchecked(self.year, 12, last)
    }

    /// The first day of the date's season.
    pub fn start_of_season(&self) -> (r: Result<ParsiDate, DateError>)
        ensures
            date_result(r) == (if is_valid_ymd(self@) {
                Ok(ymd(self@.year, season_start_month(season_of_month(self@.month)), 1))
            } else {
                Err(DateError::InvalidDate)
            }),
    {
        let season = self.season()?;
        let start_month = season.start_month();
        ParsiDate::new(self.year, start_month, 1)
    }

    /// The last day of the date's season.
    pub fn end_of_season(&self) -> (r: Result<ParsiDate, DateError>)
        ensures
            date_result(r) == (if is_valid_ymd(self@) {
                let m = season_start_month(season_of_month(self@.month)) + 2;
                Ok(ymd(self@.year, m, month_len(self@.year, m)))
            } else {
                Err(DateError::InvalidDate)
            }),
    {
        let season = self.season()?;
        let end_month = season.end_month();
        let end_day = Self::days_in_month(self.year, end_month);
        ParsiDate::new(self.year, end_month, end_day)
    }
}

impl ParsiDate {
    // --- Gregorian conversion -------------------------------------------------

    /// The Gregorian date 622-03-21, which is 1 Farvardin 1.
    fn epoch_gregorian() -> (r: Result<GregorianDate, DateError>)
        ensures
            r matches Ok(e) && gregorian_day_number_of(e@) == EPOCH_GREGORIAN_DAY,
    {
        match GregorianDate::from_ymd_opt(622, 3, 21) {
            Some(e) => Ok(e),
            None => Err(DateError::GregorianConversionError),
        }
    }

    /// The Gregorian date of a (not necessarily supported) year, month and day,
    /// counted from the epoch.
    pub(crate) fn to_gregorian_internal(&self) -> (r: Result<GregorianDate, DateError>)
        requires
            1 <= self@.year <= 20000,
            1 <= self@.month <= 12,
            1 <= self@.day <= 31,
        ensures
            r matches Ok(g) && gregorian_day_number_of(g@) == EPOCH_GREGORIAN_DAY + day_number_of(
                self@,
            ),
    {
        let epoch = Self::epoch_gregorian()?;
        let mut total: i64 = 0;
        let mut y: i32 = MIN_YEAR;
        while y < self.year
            invariant
                1 <= y <= self.year <= 20000,
                total == days_before_year(y as int),
                0 <= total <= 366 * (y - 1),
            decreases self.year - y,
        {
            proof {
                lemma_days_before_year_step(y as int);
            }
            let len: i64 = if Self::is_persian_leap_year(y) {
                366
            } else {
                365
            };
            total = match total.checked_add(len) {
                Some(t) => t,
                None => return Err(DateError::GregorianConversionError),
            };
            y = y + 1;
        }
        if self.month > 1 {
            let lengths = Self::month_lengths(self.year);
            let mut m: u32 = 1;
            while m < self.month
                invariant
                    1 <= m <= self.month <= 12,
                    forall|j: int| 0 <= j < 12 ==> lengths@[j] == month_len(self.year as int, j + 1),
                    total == days_before_year(self.year as int) + days_before_month(m as int),
                    0 <= total <= 366 * (self.year - 1) + 31 * (m - 1),
                decreases self.month - m,
            {
                total = match total.checked_add(lengths[(m - 1) as usize] as i64) {
                    Some(t) => t,
                    None => return Err(DateError::GregorianConversionError),
                };
                m = m + 1;
            }
        }
        total = match total.checked_add((self.day - 1) as i64) {
            Some(t) => t,
            None => return Err(DateError::GregorianConversionError),
        };
        if total < 0 {
            return Err(DateError::GregorianConversionError);
        }
        match naive_date_checked_add_days(epoch, total as u64) {
            Some(g) => Ok(g),
            None => Err(DateError::GregorianConversionError),
        }
    }

    /// The Gregorian date of a valid date.
    pub fn to_gregorian(&self) -> (r: Result<GregorianDate, DateError>)
        ensures
            r is Ok <==> is_valid_ymd(self@),
            r matches Ok(g) ==> gregorian_day_number_of(g@) == EPOCH_GREGORIAN_DAY
                + day_number_of(self@),
            r matches Err(e) ==> e == DateError::InvalidDate,
    {
        if !self.is_valid() {
            return Err(DateError::InvalidDate);
        }
        self.to_gregorian_internal()
    }

    /// The Persian date of a Gregorian date; dates before 622-03-21 and after
    /// the last day of year 9999 are refused.
    pub fn from_gregorian(gregorian_date: GregorianDate) -> (r: Result<ParsiDate, DateError>)
        ensures
            date_result(r) == gregorian_to_persian(gregorian_date@),
    {
        let epoch = Self::epoch_gregorian()?;
        let days_since_epoch: i64 = naive_date_days_since(gregorian_date, epoch);
        let ghost diff = days_since_epoch as int;
        if days_since_epoch < 0 {
            return Err(DateError::GregorianConversionError);
        }
        proof {
            lemma_supported_days();
        }
        if days_since_epoch >= SUPPORTED_DAYS {
            return Err(DateError::GregorianConversionError);
        }
        // Search the year downward from an upper estimate: a year has at
        // least 365 days, so the year holding the date is at most this guess.
        let mut p_year: i32 = MIN_YEAR + (days_since_epoch / 365) as i32;
        proof {
            lemma_days_before_year_nonneg(p_year as int + 1);
            assert(365 * (diff / 365) > diff - 365) by (nonlinear_arith)
                requires
                    diff >= 0,
            ;
        }
        let mut start = ParsiDate::new_unchecked(p_year, 1, 1).to_gregorian_internal()?;
        while naive_date_days_since(start, gregorian_date) > 0
            invariant
                1 <= p_year <= 10007,
                0 <= diff < SUPPORTED_DAYS,
                diff == gregorian_day_number_of(gregorian_date@) - EPOCH_GREGORIAN_DAY,
                days_before_year(p_year + 1) > diff,
                gregorian_day_number_of(start@) == EPOCH_GREGORIAN_DAY + days_before_year(
                    p_year as int,
                ),
            decreases p_year,
        {
            proof {
                lemma_days_before_year_nonneg(p_year as int);
            }
            p_year = p_year - 1;
            start = ParsiDate::new_unchecked(p_year, 1, 1).to_gregorian_internal()?;
        }
        proof {
            if p_year >= 10000 {
                if p_year > 10000 {
                    lemma_days_before_year_strict(10000, p_year as int);
                }
                assert(false);
            }
            lemma_days_before_year_step(p_year as int);
        }
        let days_into_year: i64 = naive_date_days_since(gregorian_date, start);
        let lengths = Self::month_lengths(p_year);
        let mut remaining: u32 = days_into_year as u32;
        let mut i: usize = 0;
        while remaining >= lengths[i]
            invariant
                0 <= i < 12,
                forall|j: int| 0 <= j < 12 ==> lengths@[j] == month_len(p_year as int, j + 1),
                0 <= days_into_year < year_len(p_year as int),
                remaining == days_into_year - days_before_month(i + 1),
            decreases 12 - i,
        {
            remaining = remaining - lengths[i];
            i = i + 1;
        }
        let result = ParsiDate::new(p_year, (i + 1) as u32, remaining + 1);
        proof {
            let q = ymd(p_year as int, i + 1, remaining + 1);
            assert(is_valid_ymd(q) && day_number_of(q) == diff);
            lemma_persian_of_day_number(diff);
            let p = persian_of_day_number(diff).unwrap();
            lemma_day_number_injective(q.year, q.month, q.day, p.year, p.month, p.day);
        }
        result
    }

    /// Today's date in the local time zone.
    pub fn today() -> (r: Result<ParsiDate, DateError>)
        ensures
            exists|g: Ymd| gregorian_is_valid(g) && date_result(r) == gregorian_to_persian(g),
    {
        let gregorian_today = local_today();
        proof {
            use_type_invariant(&gregorian_today);
        }
        Self::from_gregorian(gregorian_today)
    }

    // --- Weekday and week ---------------------------------------------------------

    /// The weekday, Saturday = 0 .. Friday = 6.
    pub(crate) fn weekday_num_sat_0(&self) -> (r: Result<u32, DateError>)
        ensures
            r == (if is_valid_ymd(self@) {
                Ok(weekday_number(self@) as u32)
            } else {
                Err(DateError::InvalidDate)
            }),
            r matches Ok(w) ==> w < 7,
    {
        if !self.is_valid() {
            return Err(DateError::InvalidDate);
        }
        proof {
            lemma_supported_day_number(self@.year, self@.month, self@.day);
        }
        let gregorian_date = self.to_gregorian_internal()?;
        let day_num_sun0 = naive_date_weekday_from_sunday(gregorian_date);
        Ok((day_num_sun0 + 1) % 7)
    }

    pub(crate) fn weekday_internal(&self) -> (r: Result<String, DateError>)
        ensures
            r matches Ok(s) ==> is_valid_ymd(self@) && s@ == weekday_name(weekday_number(self@)),
            r matches Err(e) ==> !is_valid_ymd(self@) && e == DateError::InvalidDate,
    {
        if !self.is_valid() {
            return Err(DateError::InvalidDate);
        }
        let day_num_sat_0 = self.weekday_num_sat_0()?;
        if day_num_sat_0 < 7 {
            Ok(weekday_name_str(day_num_sat_0).to_owned())
        } else {
            Err(DateError::GregorianConversionError)
        }
    }

    /// The Persian name of the weekday.
    pub fn weekday(&self) -> (r: Result<String, DateError>)
        ensures
            r matches Ok(s) ==> is_valid_ymd(self@) && s@ == weekday_name(weekday_number(self@)),
            r matches Err(e) ==> !is_valid_ymd(self@) && e == DateError::InvalidDate,
    {
        self.weekday_internal()
    }

    /// The week of the year: weeks start on Saturday and week 1 holds 1 Farvardin.
    pub fn week_of_year(&self) -> (r: Result<u32, DateError>)
        ensures
            r == (if is_valid_ymd(self@) {
                Ok(week_number(self@) as u32)
            } else {
                Err(DateError::InvalidDate)
            }),
    {
        if !self.is_valid() {
            return Err(DateError::InvalidDate);
        }
        let first_day = self.first_day_of_year();
        let first_day_weekday = first_day.weekday_num_sat_0()?;
        let current_ordinal = self.ordinal_internal()?;
        let effective_ordinal = match current_ordinal.checked_add(first_day_weekday) {
            Some(e) => e,
            None => return Err(DateError::ArithmeticOverflow),
        };
        Ok((effective_ordinal - 1) / 7 + 1)
    }

    // --- Day arithmetic -------------------------------------------------------------

    /// The date `days` days later (earlier if negative).
    pub fn add_days(&self, days: i64) -> (r: Result<ParsiDate, DateError>)
        ensures
            date_result(r) == add_days_outcome(self@, days as int),
    {
        if !self.is_valid() {
            return Err(DateError::InvalidDate);
        }
        proof {
            lemma_supported_day_number(self@.year, self@.month, self@.day);
        }
        let gregorian_equiv = self.to_gregorian_internal()?;
        let new_gregorian = if days >= 0 {
            naive_date_checked_add_days(gregorian_equiv, days as u64)
        } else {
            if days == i64::MIN {
                return Err(DateError::ArithmeticOverflow);
            }
            let days_to_sub: u64 = (-days) as u64;
            naive_date_checked_sub_days(gregorian_equiv, days_to_sub)
        };
        let new_gregorian = match new_gregorian {
            Some(g) => g,
            None => return Err(DateError::ArithmeticOverflow),
        };
        let epoch = Self::epoch_gregorian()?;
        if naive_date_days_since(new_gregorian, epoch) >= SUPPORTED_DAYS {
            proof {
                lemma_supported_days();
            }
            return Err(DateError::ArithmeticOverflow);
        }
        Self::from_gregorian(new_gregorian)
    }

    /// The date `days` days earlier.
    pub fn sub_days(&self, days: u64) -> (r: Result<ParsiDate, DateError>)
        ensures
            date_result(r) == sub_days_outcome(self@, days as int),
    {
        if days > i64::MAX as u64 {
            return Err(DateError::ArithmeticOverflow);
        }
        self.add_days(-(days as i64))
    }

    /// The number of days between two dates, whichever comes first.
    pub fn days_between(&self, other: &ParsiDate) -> (r: Result<i64, DateError>)
        ensures
            r == (if is_valid_ymd(self@) && is_valid_ymd(other@) {
                Ok(abs_diff(day_number_of(self@), day_number_of(other@)) as i64)
            } else {
                Err(DateError::InvalidDate)
            }),
    {
        if !self.is_valid() || !other.is_valid() {
            return Err(DateError::InvalidDate);
        }
        proof {
            lemma_supported_day_number(self@.year, self@.month, self@.day);
            lemma_supported_day_number(other@.year, other@.month, other@.day);
        }
        let gregorian_self = self.to_gregorian_internal()?;
        let gregorian_other = other.to_gregorian_internal()?;
        let days = naive_date_days_since(gregorian_self, gregorian_other);
        Ok(
            if days < 0 {
                -days
            } else {
                days
            },
        )
    }
}

pub open spec fn abs_diff(a: int, b: int) -> int {
    if a >= b {
        a - b
    } else {
        b - a
    }
}

impl ParsiDate {
    // --- Formatting ---------------------------------------------------------------

    /// Renders the date in a named style (`"short"`: `1403/05/02`, `"long"`:
    /// `2 مرداد 1403`, `"iso"`: `1403-05-02`) or, for any other string, by
    /// the pattern of `format_strftime`.
    pub fn format(&self, style_or_pattern: &str) -> (r: String)
        ensures
            r@ == format_style(self@, style_or_pattern@),
    {
        let style = chars_of(style_or_pattern);
        if chars_eq(&style, &chars_of("short")) {
            let mut out = String::new();
            push_numeric_form(&mut out, self, '/');
            out
        } else if chars_eq(&style, &chars_of("long")) {
            let mut out = String::new();
            push_long_form(&mut out, self);
            out
        } else if chars_eq(&style, &chars_of("iso")) {
            let mut out = String::new();
            push_numeric_form(&mut out, self, '-');
            out
        } else {
            self.format_strftime(style_or_pattern)
        }
    }

    /// Renders the date by a pattern: `%Y` year, `%m` month, `%d` day (both
    /// two digits), `%B` month name, `%A` weekday name, `%w` weekday number
    /// (Saturday = 0), `%j` day of the year (three digits), `%K` season name,
    /// `%W` week of the year (two digits), `%%` a percent sign. Other
    /// characters, and unknown specifiers, are copied.
    pub fn format_strftime(&self, pattern: &str) -> (r: String)
        ensures
            r@ == format_chars(self@, None, pattern@),
    {
        format_pattern(self, None, pattern)
    }

    /// The default rendering, `{year}/{month:02}/{day:02}`.
    pub fn to_string(&self) -> (r: String)
        ensures
            r@ == numeric_form(self@, '/'),
    {
        let mut out = String::new();
        push_numeric_form(&mut out, self, '/');
        out
    }
}

impl ParsiDate {
    /// Reads a date from `s` by `format` (`%Y`, `%m`, `%d`, `%B`, `%%` and
    /// literal characters); see the module `parse` for the rules.
    pub fn parse(s: &str, format: &str) -> (r: Result<ParsiDate, DateError>)
        ensures
            date_result(r) == parse_date_outcome(s@, format@),
    {
        let fields = match scan_fields(s, format, false) {
            Ok(f) => f,
            Err(kind) => return Err(DateError::ParseError(kind)),
        };
        match (fields.year, fields.month, fields.day) {
            (Some(y), Some(m), Some(d)) => match ParsiDate::new(y, m, d) {
                Ok(date) => Ok(date),
                Err(e) => Err(
                    if e == DateError::InvalidDate {
                        DateError::ParseError(ParseErrorKind::InvalidDateValue)
                    } else {
                        e
                    },
                ),
            },
            _ => Err(DateError::ParseError(ParseErrorKind::FormatMismatch)),
        }
    }
}

} // verus!
