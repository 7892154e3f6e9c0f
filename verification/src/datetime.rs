//! `ParsiDateTime`: a Persian date with a time of day, without a time zone.
use crate::calendar::{
    day_number_of, gregorian_day_number_of, gregorian_is_valid, gregorian_seconds_of, is_valid_ymd,
    lemma_supported_day_number, persian_of_day_number, valid_hms, Ymd, YmdHms,
    EPOCH_GREGORIAN_DAY, GREGORIAN_MAX_DAY, GREGORIAN_MIN_DAY,
};
use crate::date::{
    add_days_outcome, add_months_outcome, add_years_outcome, day_in_year,
    gregorian_to_persian, new_outcome, sub_days_outcome, week_number, ParsiDate,
};
use crate::error::{DateError, ParseErrorKind};
use crate::format::{format_chars, format_pattern, numeric_form, push_numeric_form, two_digits};
use crate::gregorian::{
    local_now, naive_datetime_checked_add_seconds, naive_datetime_seconds_since, GregorianDateTime,
};
use crate::parse::{parse_datetime_outcome, scan_fields};
use crate::season::{season_of_month, season_start_month, Season};
use crate::text::{push_char, push_padded};
use vstd::prelude::*;

verus! {

/// A Persian date and a time of day (hour 0..=23, minute and second 0..=59).
///
/// A value made by `new_unchecked` (or `from_date_and_time` with an invalid
/// date) may be invalid; operations check validity where it matters.
#[derive(Debug, PartialEq, Eq, Clone, Copy, PartialOrd, Ord, Hash)]
pub struct ParsiDateTime {
    date: ParsiDate,
    hour: u32,
    minute: u32,
    second: u32,
}

impl View for ParsiDateTime {
    type V = YmdHms;

    closed spec fn view(&self) -> YmdHms {
        YmdHms {
            date: self.date@,
            hour: self.hour as int,
            minute: self.minute as int,
            second: self.second as int,
        }
    }
}

/// The view of a result of the library's date-time operations.
pub open spec fn datetime_result(r: Result<ParsiDateTime, DateError>) -> Result<YmdHms, DateError> {
    match r {
        Ok(t) => Ok(t@),
        Err(e) => Err(e),
    }
}

pub open spec fn is_valid_datetime(t: YmdHms) -> bool {
    is_valid_ymd(t.date) && valid_hms(t.hour, t.minute, t.second)
}

/// The error an invalid date-time is refused with.
pub open spec fn invalid_datetime_error(t: YmdHms) -> DateError {
    if !is_valid_ymd(t.date) {
        DateError::InvalidDate
    } else {
        DateError::InvalidTime
    }
}

/// A date result combined with the time of day of `t`.
pub open spec fn keep_time(t: YmdHms, r: Result<Ymd, DateError>) -> Result<YmdHms, DateError> {
    match r {
        Ok(d) => Ok(YmdHms { date: d, ..t }),
        Err(e) => Err(e),
    }
}

/// The outcome of a date operation applied to a date-time that must be valid.
pub open spec fn on_valid(t: YmdHms, r: Result<Ymd, DateError>) -> Result<YmdHms, DateError> {
    if !is_valid_datetime(t) {
        Err(invalid_datetime_error(t))
    } else {
        keep_time(t, r)
    }
}

/// The date-time `n` seconds after a date-time.
pub open spec fn add_seconds_outcome(t: YmdHms, n: int) -> Result<YmdHms, DateError> {
    if !is_valid_datetime(t) {
        Err(invalid_datetime_error(t))
    } else {
        let total = (EPOCH_GREGORIAN_DAY + day_number_of(t.date)) * 86400 + t.hour * 3600 + t.minute
            * 60 + t.second + n;
        if !(-9223372036854775 <= n <= 9223372036854775) || total < GREGORIAN_MIN_DAY * 86400
            || total >= (GREGORIAN_MAX_DAY + 1) * 86400 {
            Err(DateError::ArithmeticOverflow)
        } else {
            let day = total / 86400;
            let rest = total % 86400;
            match persian_of_day_number(day - EPOCH_GREGORIAN_DAY) {
                Some(p) => Ok(
                    YmdHms { date: p, hour: rest / 3600, minute: rest % 3600 / 60, second: rest % 60 },
                ),
                None => Err(DateError::GregorianConversionError),
            }
        }
    }
}

/// Seconds since 1 Farvardin 1, 00:00:00.
pub open spec fn seconds_of(t: YmdHms) -> int {
    day_number_of(t.date) * 86400 + t.hour * 3600 + t.minute * 60 + t.second
}

/// The time-of-day triple of a view.
pub open spec fn time_of(t: YmdHms) -> Option<(int, int, int)> {
    Some((t.hour, t.minute, t.second))
}

/// The default rendering `{year}/{month:02}/{day:02} {hour:02}:{minute:02}:{second:02}`.
pub open spec fn datetime_string(t: YmdHms) -> Seq<char> {
    numeric_form(t.date, '/') + seq![' '] + two_digits(t.hour) + seq![':'] + two_digits(t.minute)
        + seq![':'] + two_digits(t.second)
}

/// Splitting a second count into a day and a time of day.
proof fn lemma_split_seconds(day: int, h: int, m: int, s: int, total: int)
    requires
        valid_hms(h, m, s),
        total == day * 86400 + h * 3600 + m * 60 + s,
    ensures
        total / 86400 == day,
        total % 86400 / 3600 == h,
        total % 86400 % 3600 / 60 == m,
        total % 86400 % 60 == s,
{
    let r = h * 3600 + m * 60 + s;
    assert(0 <= r < 86400);
    assert(total / 86400 == day && total % 86400 == r) by (nonlinear_arith)
        requires
            total == day * 86400 + r,
            0 <= r < 86400,
    ;
    assert(r / 3600 == h && r % 3600 == m * 60 + s) by (nonlinear_arith)
        requires
            r == h * 3600 + m * 60 + s,
            0 <= m * 60 + s < 3600,
            0 <= h,
    ;
    assert((m * 60 + s) / 60 == m && (m * 60 + s) % 60 == s) by (nonlinear_arith)
        requires
            0 <= s < 60,
            0 <= m,
    ;
    assert(r % 60 == s) by (nonlinear_arith)
        requires
            r == (h * 60 + m) * 60 + s,
            0 <= s < 60,
            0 <= h,
            0 <= m,
    ;
}

impl ParsiDateTime {
    // --- Construction -------------------------------------------------------

    /// The date-time with the given components, if the date and the time are valid.
    pub fn new(year: i32, month: u32, day: u32, hour: u32, minute: u32, second: u32) -> (r: Result<
        ParsiDateTime,
        DateError,
    >)
        ensures
            datetime_result(r) == (if !crate::calendar::valid_ymd(
                year as int,
                month as int,
                day as int,
            ) {
                Err(DateError::InvalidDate)
            } else if !valid_hms(hour as int, minute as int, second as int) {
                Err(DateError::InvalidTime)
            } else {
                Ok(
                    YmdHms {
                        date: crate::calendar::ymd(year as int, month as int, day as int),
                        hour: hour as int,
                        minute: minute as int,
                        second: second as int,
                    },
                )
            }),
    {
        let date = ParsiDate::new(year, month, day)?;
        if hour > 23 || minute > 59 || second > 59 {
            return Err(DateError::InvalidTime);
        }
        Ok(ParsiDateTime { date, hour, minute, second })
    }

    /// The date-time with the given components, whether or not they are valid.
    pub fn new_unchecked(year: i32, month: u32, day: u32, hour: u32, minute: u32, second: u32) -> (r:
        ParsiDateTime)
        ensures
            r@ == (YmdHms {
                date: crate::calendar::ymd(year as int, month as int, day as int),
                hour: hour as int,
                minute: minute as int,
                second: second as int,
            }),
    {
        ParsiDateTime { date: ParsiDate::new_unchecked(year, month, day), hour, minute, second }
    }

    /// `date` at the given time of day; only the time is checked.
    pub fn from_date_and_time(date: ParsiDate, hour: u32, minute: u32, second: u32) -> (r: Result<
        ParsiDateTime,
        DateError,
    >)
        ensures
            datetime_result(r) == (if !valid_hms(hour as int, minute as int, second as int) {
                Err(DateError::InvalidTime)
            } else {
                Ok(
                    YmdHms {
                        date: date@,
                        hour: hour as int,
                        minute: minute as int,
                        second: second as int,
                    },
                )
            }),
    {
        if hour > 23 || minute > 59 || second > 59 {
            return Err(DateError::InvalidTime);
        }
        Ok(ParsiDateTime { date, hour, minute, second })
    }

    /// The Persian date-time of a Gregorian date-time.
    pub fn from_gregorian(gregorian_dt: GregorianDateTime) -> (r: Result<ParsiDateTime, DateError>)
        ensures
            datetime_result(r) == keep_time(gregorian_dt@, gregorian_to_persian(gregorian_dt@.date)),
    {
        let gregorian_date = gregorian_dt.date();
        let parsi_date = ParsiDate::from_gregorian(gregorian_date)?;
        Ok(
            ParsiDateTime {
                date: parsi_date,
                hour: gregorian_dt.hour(),
                minute: gregorian_dt.minute(),
                second: gregorian_dt.second(),
            },
        )
    }

    /// The Gregorian date-time of a valid date-time.
    pub fn to_gregorian(&self) -> (r: Result<GregorianDateTime, DateError>)
        ensures
            r is Ok <==> is_valid_datetime(self@),
            r matches Ok(g) ==> gregorian_day_number_of(g@.date) == EPOCH_GREGORIAN_DAY
                + day_number_of(self@.date) && g@.hour == self@.hour && g@.minute == self@.minute
                && g@.second == self@.second,
            r matches Err(e) ==> e == invalid_datetime_error(self@),
    {
        if !self.is_valid() {
            if !self.date.is_valid() {
                return Err(DateError::InvalidDate);
            } else {
                return Err(DateError::InvalidTime);
            }
        }
        proof {
            lemma_supported_day_number(self@.date.year, self@.date.month, self@.date.day);
        }
        let gregorian_date = self.date.to_gregorian_internal()?;
        match gregorian_date.and_hms_opt(self.hour, self.minute, self.second) {
            Some(t) => Ok(t),
            None => Err(DateError::GregorianConversionError),
        }
    }

    /// The current local date and time.
    pub fn now() -> (r: Result<ParsiDateTime, DateError>)
        ensures
            exists|g: YmdHms|
                gregorian_is_valid(g.date) && valid_hms(g.hour, g.minute, g.second)
                    && datetime_result(r) == keep_time(g, gregorian_to_persian(g.date)),
    {
        let local = local_now();
        let local_date = local.date();
        proof {
            use_type_invariant(&local_date);
        }
        Self::from_gregorian(local)
    }

    // --- Accessors ----------------------------------------------------------

    pub fn date(&self) -> (r: ParsiDate)
        ensures
            r@ == self@.date,
    {
        self.date
    }

    pub fn year(&self) -> (r: i32)
        ensures
            r == self@.date.year,
    {
        self.date.year()
    }

    pub fn month(&self) -> (r: u32)
        ensures
            r == self@.date.month,
    {
        self.date.month()
    }

    pub fn day(&self) -> (r: u32)
        ensures
            r == self@.date.day,
    {
        self.date.day()
    }

    pub fn hour(&self) -> (r: u32)
        ensures
            r == self@.hour,
    {
        self.hour
    }

    pub fn minute(&self) -> (r: u32)
        ensures
            r == self@.minute,
    {
        self.minute
    }

    pub fn second(&self) -> (r: u32)
        ensures
            r == self@.second,
    {
        self.second
    }

    /// `(hour, minute, second)`.
    pub fn time(&self) -> (r: (u32, u32, u32))
        ensures
            r.0 == self@.hour && r.1 == self@.minute && r.2 == self@.second,
    {
        (self.hour, self.minute, self.second)
    }

    /// The season of the date part.
    pub fn season(&self) -> (r: Result<Season, DateError>)
        ensures
            r == (if is_valid_ymd(self@.date) {
                Ok(season_of_month(self@.date.month))
            } else {
                Err(DateError::InvalidDate)
            }),
    {
        self.date.season()
    }

    /// Whether both the date and the time of day are valid.
    pub fn is_valid(&self) -> (r: bool)
        ensures
            r == is_valid_datetime(self@),
    {
        self.date.is_valid() && self.hour <= 23 && self.minute <= 59 && self.second <= 59
    }

    /// The week of the year of the date part.
    pub fn week_of_year(&self) -> (r: Result<u32, DateError>)
        ensures
            r == (if is_valid_ymd(self@.date) {
                Ok(week_number(self@.date) as u32)
            } else {
                Err(DateError::InvalidDate)
            }),
    {
        self.date.week_of_year()
    }

    // --- Formatting and parsing -------------------------------------------------

    /// Renders the date-time by a pattern: the date specifiers of
    /// `ParsiDate::format_strftime` plus `%H`, `%M`, `%S` (two digits) and
    /// `%T` (`HH:MM:SS`).
    pub fn format(&self, pattern: &str) -> (r: String)
        ensures
            r@ == format_chars(self@.date, time_of(self@), pattern@),
    {
        format_pattern(&self.date, Some((self.hour, self.minute, self.second)), pattern)
    }

    /// The default rendering, `{year}/{month:02}/{day:02} {hour:02}:{minute:02}:{second:02}`.
    pub fn to_string(&self) -> (r: String)
        ensures
            r@ == datetime_string(self@),
    {
        let mut out = String::new();
        push_numeric_form(&mut out, &self.date, '/');
        push_char(&mut out, ' ');
        push_padded(&mut out, self.hour as u64, 2);
        push_char(&mut out, ':');
        push_padded(&mut out, self.minute as u64, 2);
        push_char(&mut out, ':');
        push_padded(&mut out, self.second as u64, 2);
        assert(out@ =~= datetime_string(self@));
        out
    }

    /// Reads a date-time from `s` by `format`: the date specifiers of
    /// `ParsiDate::parse` plus `%H`, `%M`, `%S` and `%T`.
    pub fn parse(s: &str, format: &str) -> (r: Result<ParsiDateTime, DateError>)
        ensures
            datetime_result(r) == parse_datetime_outcome(s@, format@),
    {
        let fields = match scan_fields(s, format, true) {
            Ok(f) => f,
            Err(kind) => return Err(DateError::ParseError(kind)),
        };
        match (fields.year, fields.month, fields.day, fields.hour, fields.minute, fields.second) {
            (Some(y), Some(m), Some(d), Some(h), Some(min), Some(sec)) => match ParsiDateTime::new(
                y,
                m,
                d,
                h,
                min,
                sec,
            ) {
                Ok(t) => Ok(t),
                Err(e) => Err(
                    if e == DateError::InvalidDate {
                        DateError::ParseError(ParseErrorKind::InvalidDateValue)
                    } else if e == DateError::InvalidTime {
                        DateError::ParseError(ParseErrorKind::InvalidTimeValue)
                    } else {
                        e
                    },
                ),
            },
            _ => Err(DateError::ParseError(ParseErrorKind::FormatMismatch)),
        }
    }

    // --- Arithmetic -------------------------------------------------------------

    fn invalid_error(&self) -> (e: DateError)
        ensures
            e == invalid_datetime_error(self@),
    {
        if !self.date.is_valid() {
            DateError::InvalidDate
        } else {
            DateError::InvalidTime
        }
    }

    /// The date-time `seconds` seconds later (earlier if negative).
    pub fn add_duration(&self, seconds: i64) -> (r: Result<ParsiDateTime, DateError>)
        ensures
            datetime_result(r) == add_seconds_outcome(self@, seconds as int),
    {
        if !self.is_valid() {
            return Err(self.invalid_error());
        }
        let gregorian_dt = self.to_gregorian()?;
        let new_dt = match naive_datetime_checked_add_seconds(gregorian_dt, seconds) {
            Some(t) => t,
            None => return Err(DateError::ArithmeticOverflow),
        };
        proof {
            let g = new_dt@;
            use_type_invariant(&new_dt);
            lemma_split_seconds(
                gregorian_day_number_of(g.date),
                g.hour,
                g.minute,
                g.second,
                gregorian_seconds_of(g),
            );
        }
        Self::from_gregorian(new_dt)
    }

    /// The date-time `seconds` seconds earlier.
    pub fn sub_duration(&self, seconds: i64) -> (r: Result<ParsiDateTime, DateError>)
        ensures
            datetime_result(r) == add_seconds_outcome(self@, -(seconds as int)),
    {
        let negated = if seconds == i64::MIN {
            i64::MAX
        } else {
            -seconds
        };
        self.add_duration(negated)
    }

    /// The signed number of seconds from `other` to `self` (what subtracting
    /// the two date-times gives).
    pub fn seconds_since(&self, other: &ParsiDateTime) -> (r: Result<i64, DateError>)
        ensures
            r == (if !is_valid_datetime(self@) {
                Err(invalid_datetime_error(self@))
            } else if !is_valid_datetime(other@) {
                Err(invalid_datetime_error(other@))
            } else {
                Ok((seconds_of(self@) - seconds_of(other@)) as i64)
            }),
    {
        let self_gregorian = self.to_gregorian()?;
        let other_gregorian = other.to_gregorian()?;
        proof {
            lemma_supported_day_number(self@.date.year, self@.date.month, self@.date.day);
            lemma_supported_day_number(other@.date.year, other@.date.month, other@.date.day);
        }
        Ok(naive_datetime_seconds_since(self_gregorian, other_gregorian))
    }

    /// The date-time `days` days later, keeping the time of day.
    pub fn add_days(&self, days: i64) -> (r: Result<ParsiDateTime, DateError>)
        ensures
            datetime_result(r) == on_valid(self@, add_days_outcome(self@.date, days as int)),
    {
        if !self.is_valid() {
            return Err(self.invalid_error());
        }
        let new_date = self.date.add_days(days)?;
        Ok(ParsiDateTime { date: new_date, ..*self })
    }

    /// The date-time `days` days earlier, keeping the time of day.
    pub fn sub_days(&self, days: u64) -> (r: Result<ParsiDateTime, DateError>)
        ensures
            datetime_result(r) == on_valid(self@, sub_days_outcome(self@.date, days as int)),
    {
        if !self.is_valid() {
            return Err(self.invalid_error());
        }
        let new_date = self.date.sub_days(days)?;
        Ok(ParsiDateTime { date: new_date, ..*self })
    }

    /// The date-time `months` months later, the day clamped, keeping the time.
    pub fn add_months(&self, months: i32) -> (r: Result<ParsiDateTime, DateError>)
        ensures
            datetime_result(r) == on_valid(self@, add_months_outcome(self@.date, months as int)),
    {
        if !self.is_valid() {
            return Err(self.invalid_error());
        }
        let new_date = self.date.add_months(months)?;
        Ok(ParsiDateTime { date: new_date, ..*self })
    }

    /// The date-time `months` months earlier, the day clamped, keeping the time.
    pub fn sub_months(&self, months: u32) -> (r: Result<ParsiDateTime, DateError>)
        ensures
            datetime_result(r) == on_valid(
                self@,
                if months > i32::MAX {
                    Err(DateError::ArithmeticOverflow)
                } else {
                    add_months_outcome(self@.date, -(months as int))
                },
            ),
    {
        if !self.is_valid() {
            return Err(self.invalid_error());
        }
        let new_date = self.date.sub_months(months)?;
        Ok(ParsiDateTime { date: new_date, ..*self })
    }

    /// The date-time `years` years later, keeping the time.
    pub fn add_years(&self, years: i32) -> (r: Result<ParsiDateTime, DateError>)
        ensures
            datetime_result(r) == on_valid(self@, add_years_outcome(self@.date, years as int)),
    {
        if !self.is_valid() {
            return Err(self.invalid_error());
        }
        let new_date = self.date.add_years(years)?;
        Ok(ParsiDateTime { date: new_date, ..*self })
    }

    /// The date-time `years` years earlier, keeping the time.
    pub fn sub_years(&self, years: u32) -> (r: Result<ParsiDateTime, DateError>)
        ensures
            datetime_result(r) == on_valid(
                self@,
                if years > i32::MAX {
                    Err(DateError::ArithmeticOverflow)
                } else {
                    add_years_outcome(self@.date, -(years as int))
                },
            ),
    {
        if !self.is_valid() {
            return Err(self.invalid_error());
        }
        let new_date = self.date.sub_years(years)?;
        Ok(ParsiDateTime { date: new_date, ..*self })
    }

    // --- Changing components ------------------------------------------------------

    /// The same date-time at hour `hour`.
    pub fn with_hour(&self, hour: u32) -> (r: Result<ParsiDateTime, DateError>)
        ensures
            datetime_result(r) == (if !is_valid_ymd(self@.date) {
                Err(DateError::InvalidDate)
            } else if hour > 23 {
                Err(DateError::InvalidTime)
            } else {
                Ok(YmdHms { hour: hour as int, ..self@ })
            }),
    {
        if !self.date.is_valid() {
            return Err(DateError::InvalidDate);
        }
        if hour > 23 {
            return Err(DateError::InvalidTime);
        }
        Ok(ParsiDateTime { hour, ..*self })
    }

    /// The same date-time at minute `minute`.
    pub fn with_minute(&self, minute: u32) -> (r: Result<ParsiDateTime, DateError>)
        ensures
            datetime_result(r) == (if !is_valid_ymd(self@.date) {
                Err(DateError::InvalidDate)
            } else if minute > 59 {
                Err(DateError::InvalidTime)
            } else {
                Ok(YmdHms { minute: minute as int, ..self@ })
            }),
    {
        if !self.date.is_valid() {
            return Err(DateError::InvalidDate);
        }
        if minute > 59 {
            return Err(DateError::InvalidTime);
        }
        Ok(ParsiDateTime { minute, ..*self })
    }

    /// The same date-time at second `second`.
    pub fn with_second(&self, second: u32) -> (r: Result<ParsiDateTime, DateError>)
        ensures
            datetime_result(r) == (if !is_valid_ymd(self@.date) {
                Err(DateError::InvalidDate)
            } else if second > 59 {
                Err(DateError::InvalidTime)
            } else {
                Ok(YmdHms { second: second as int, ..self@ })
            }),
    {
        if !self.date.is_valid() {
            return Err(DateError::InvalidDate);
        }
        if second > 59 {
            return Err(DateError::InvalidTime);
        }
        Ok(ParsiDateTime { second, ..*self })
    }

    /// The same date at the given time of day.
    pub fn with_time(&self, hour: u32, minute: u32, second: u32) -> (r: Result<
        ParsiDateTime,
        DateError,
    >)
        ensures
            datetime_result(r) == (if !is_valid_ymd(self@.date) {
                Err(DateError::InvalidDate)
            } else if !valid_hms(hour as int, minute as int, second as int) {
                Err(DateError::InvalidTime)
            } else {
                Ok(
                    YmdHms {
                        date: self@.date,
                        hour: hour as int,
                        minute: minute as int,
                        second: second as int,
                    },
                )
            }),
    {
        if !self.date.is_valid() {
            return Err(DateError::InvalidDate);
        }
        if hour > 23 || minute > 59 || second > 59 {
            return Err(DateError::InvalidTime);
        }
        Ok(ParsiDateTime { date: self.date, hour, minute, second })
    }

    /// `ParsiDate::with_year` on the date part, keeping the time.
    pub fn with_year(&self, year: i32) -> (r: Result<ParsiDateTime, DateError>)
        ensures
            datetime_result(r) == keep_time(
                self@,
                if !is_valid_ymd(self@.date) {
                    Err(DateError::InvalidDate)
                } else {
                    new_outcome(year as int, self@.date.month, day_in_year(self@.date, year as int))
                },
            ),
    {
        let new_date = self.date.with_year(year)?;
        Ok(ParsiDateTime { date: new_date, ..*self })
    }

    /// `ParsiDate::with_month` on the date part, keeping the time.
    pub fn with_month(&self, month: u32) -> (r: Result<ParsiDateTime, DateError>)
        ensures
            datetime_result(r) == keep_time(
                self@,
                if !is_valid_ymd(self@.date) || month < 1 || month > 12 {
                    Err(DateError::InvalidDate)
                } else {
                    let len = crate::calendar::month_len(self@.date.year, month as int);
                    Ok(
                        crate::calendar::ymd(
                            self@.date.year,
                            month as int,
                            if self@.date.day < len {
                                self@.date.day
                            } else {
                                len
                            },
                        ),
                    )
                },
            ),
    {
        let new_date = self.date.with_month(month)?;
        Ok(ParsiDateTime { date: new_date, ..*self })
    }

    /// `ParsiDate::with_day` on the date part, keeping the time.
    pub fn with_day(&self, day: u32) -> (r: Result<ParsiDateTime, DateError>)
        ensures
            datetime_result(r) == keep_time(
                self@,
                if !is_valid_ymd(self@.date) {
                    Err(DateError::InvalidDate)
                } else {
                    new_outcome(self@.date.year, self@.date.month, day as int)
                },
            ),
    {
        let new_date = self.date.with_day(day)?;
        Ok(ParsiDateTime { date: new_date, ..*self })
    }

    /// The first day of the season, keeping the time.
    pub fn start_of_season(&self) -> (r: Result<ParsiDateTime, DateError>)
        ensures
            datetime_result(r) == keep_time(
                self@,
                if is_valid_ymd(self@.date) {
                    Ok(
                        crate::calendar::ymd(
                            self@.date.year,
                            season_start_month(season_of_month(self@.date.month)),
                            1,
                        ),
                    )
                } else {
                    Err(DateError::InvalidDate)
                },
            ),
    {
        let new_date = self.date.start_of_season()?;
        Ok(ParsiDateTime { date: new_date, ..*self })
    }

    /// The last day of the season, keeping the time.
    pub fn end_of_season(&self) -> (r: Result<ParsiDateTime, DateError>)
        ensures
            datetime_result(r) == keep_time(
                self@,
                if is_valid_ymd(self@.date) {
                    let m = season_start_month(season_of_month(self@.date.month)) + 2;
                    Ok(
                        crate::calendar::ymd(
                            self@.date.year,
                            m,
                            crate::calendar::month_len(self@.date.year, m),
                        ),
                    )
                } else {
                    Err(DateError::InvalidDate)
                },
            ),
    {
        let new_date = self.date.end_of_season()?;
        Ok(ParsiDateTime { date: new_date, ..*self })
    }
}

} // verus!
