//! Gregorian dates and date-times, held as plain values, and the calls into
//! `chrono` that compute on them.
//!
//! `GregorianDate` stands for a `chrono::NaiveDate` and `GregorianDateTime`
//! for a `chrono::NaiveDateTime` (to whole seconds); both can only hold
//! dates that `chrono` represents.
use crate::calendar::{
    gregorian_day_number_of, gregorian_is_valid, gregorian_seconds_of, gregorian_valid_ymd,
    gregorian_weekday_from_sunday, valid_hms, ymd, Ymd, YmdHms, GREGORIAN_MAX_DAY, GREGORIAN_MIN_DAY,
};
use chrono::{Datelike, Timelike};
use vstd::prelude::*;

verus! {

/// A valid date of the proleptic Gregorian calendar within `chrono`'s range.
#[derive(Debug, PartialEq, Eq, Clone, Copy, Hash)]
pub struct GregorianDate {
    year: i32,
    month: u32,
    day: u32,
}

impl View for GregorianDate {
    type V = Ymd;

    closed spec fn view(&self) -> Ymd {
        Ymd { year: self.year as int, month: self.month as int, day: self.day as int }
    }
}

impl GregorianDate {
    #[verifier::type_invariant]
    pub open spec fn inv(self) -> bool {
        gregorian_is_valid(self@)
    }

    /// The date with the given components, if it is a Gregorian date that
    /// `chrono` represents.
    pub fn from_ymd_opt(year: i32, month: u32, day: u32) -> (r: Option<GregorianDate>)
        ensures
            r is Some <==> gregorian_valid_ymd(year as int, month as int, day as int),
            r matches Some(g) ==> g@ == ymd(year as int, month as int, day as int),
    {
        naive_date_from_ymd(year, month, day)
    }

    pub fn year(&self) -> (r: i32)
        ensures
            r == self@.year,
            gregorian_is_valid(self@),
    {
        proof {
            use_type_invariant(self);
        }
        self.year
    }

    pub fn month(&self) -> (r: u32)
        ensures
            r == self@.month,
    {
        self.month
    }

    pub fn day(&self) -> (r: u32)
        ensures
            r == self@.day,
    {
        self.day
    }

    /// This date at the given time of day, if the time is valid
    /// (what `chrono::NaiveDate::and_hms_opt` computes).
    pub fn and_hms_opt(&self, hour: u32, minute: u32, second: u32) -> (r: Option<
        GregorianDateTime,
    >)
        ensures
            r is Some <==> valid_hms(hour as int, minute as int, second as int),
            r matches Some(t) ==> t@ == (YmdHms {
                date: self@,
                hour: hour as int,
                minute: minute as int,
                second: second as int,
            }),
    {
        if hour < 24 && minute < 60 && second < 60 {
            Some(GregorianDateTime { date: *self, hour, minute, second })
        } else {
            None
        }
    }
}

/// A Gregorian date with a time of day to the second.
#[derive(Debug, PartialEq, Eq, Clone, Copy, Hash)]
pub struct GregorianDateTime {
    date: GregorianDate,
    hour: u32,
    minute: u32,
    second: u32,
}

impl View for GregorianDateTime {
    type V = YmdHms;

    closed spec fn view(&self) -> YmdHms {
        YmdHms {
            date: self.date@,
            hour: self.hour as int,
            minute: self.minute as int,
            second: self.second as int,
        }
    }
}

impl GregorianDateTime {
    #[verifier::type_invariant]
    pub open spec fn inv(self) -> bool {
        valid_hms(self@.hour, self@.minute, self@.second)
    }

    pub fn date(&self) -> (r: GregorianDate)
        ensures
            r@ == self@.date,
            valid_hms(self@.hour, self@.minute, self@.second),
    {
        proof {
            use_type_invariant(self);
        }
        self.date
    }

    pub fn hour(&self) -> (r: u32)
        ensures
            r == self@.hour,
    {
        self.hour
    }

    pub fn minute(&self) -> (r: u32)
        ensures
            r == self@.minute,
    {
        self.minute
    }

    pub fn second(&self) -> (r: u32)
        ensures
            r == self@.second,
    {
        self.second
    }
}

// ---------------------------------------------------------------------------
// Calls into chrono
// ---------------------------------------------------------------------------

/// `chrono::NaiveDate::from_ymd_opt`: a date exists exactly when the month
/// and day are valid in the proleptic Gregorian calendar and the year lies in
/// chrono's range (-262143..=262142); the date keeps the given components.
#[verifier::external_body]
fn naive_date_from_ymd(year: i32, month: u32, day: u32) -> (r: Option<GregorianDate>)
    ensures
        r is Some <==> gregorian_valid_ymd(year as int, month as int, day as int),
        r matches Some(g) ==> g@ == ymd(year as int, month as int, day as int),
{
    match chrono::NaiveDate::from_ymd_opt(year, month, day) {
        Some(d) => Some(GregorianDate { year: d.year(), month: d.month(), day: d.day() }),
        None => None,
    }
}

/// `chrono::NaiveDate::checked_add_days`: the date `days` days later, which
/// exists exactly when it does not pass chrono's last date.
#[verifier::external_body]
pub(crate) fn naive_date_checked_add_days(g: GregorianDate, days: u64) -> (r: Option<
    GregorianDate,
>)
    ensures
        r is Some <==> gregorian_day_number_of(g@) + days <= GREGORIAN_MAX_DAY,
        r matches Some(x) ==> gregorian_day_number_of(x@) == gregorian_day_number_of(g@) + days,
{
    let d = chrono::NaiveDate::from_ymd_opt(g.year, g.month, g.day).unwrap();
    match d.checked_add_days(chrono::Days::new(days)) {
        Some(x) => Some(GregorianDate { year: x.year(), month: x.month(), day: x.day() }),
        None => None,
    }
}

/// `chrono::NaiveDate::checked_sub_days`: the date `days` days earlier, which
/// exists exactly when it does not precede chrono's first date.
#[verifier::external_body]
pub(crate) fn naive_date_checked_sub_days(g: GregorianDate, days: u64) -> (r: Option<
    GregorianDate,
>)
    ensures
        r is Some <==> gregorian_day_number_of(g@) - days >= GREGORIAN_MIN_DAY,
        r matches Some(x) ==> gregorian_day_number_of(x@) == gregorian_day_number_of(g@) - days,
{
    let d = chrono::NaiveDate::from_ymd_opt(g.year, g.month, g.day).unwrap();
    match d.checked_sub_days(chrono::Days::new(days)) {
        Some(x) => Some(GregorianDate { year: x.year(), month: x.month(), day: x.day() }),
        None => None,
    }
}

/// `chrono::NaiveDate::signed_duration_since(..).num_days()`: the signed
/// number of days from `b` to `a`.
#[verifier::external_body]
pub(crate) fn naive_date_days_since(a: GregorianDate, b: GregorianDate) -> (r: i64)
    ensures
        r == gregorian_day_number_of(a@) - gregorian_day_number_of(b@),
{
    let da = chrono::NaiveDate::from_ymd_opt(a.year, a.month, a.day).unwrap();
    let db = chrono::NaiveDate::from_ymd_opt(b.year, b.month, b.day).unwrap();
    da.signed_duration_since(db).num_days()
}

/// `chrono::NaiveDate::weekday().num_days_from_sunday()`: the weekday,
/// Sunday = 0 .. Saturday = 6.
#[verifier::external_body]
pub(crate) fn naive_date_weekday_from_sunday(g: GregorianDate) -> (r: u32)
    ensures
        r == gregorian_weekday_from_sunday(gregorian_day_number_of(g@)),
{
    let d = chrono::NaiveDate::from_ymd_opt(g.year, g.month, g.day).unwrap();
    d.weekday().num_days_from_sunday()
}

/// `chrono::NaiveDateTime::checked_add_signed` with a whole number of
/// seconds (`chrono::TimeDelta::try_seconds`): the instant `seconds` seconds
/// later, which exists when the delta is representable and the instant lies
/// within chrono's dates.
#[verifier::external_body]
pub(crate) fn naive_datetime_checked_add_seconds(t: GregorianDateTime, seconds: i64) -> (r: Option<
    GregorianDateTime,
>)
    ensures
        r is Some <==> ({
            &&& -9223372036854775 <= seconds <= 9223372036854775
            &&& GREGORIAN_MIN_DAY * 86400 <= gregorian_seconds_of(t@) + seconds
            &&& gregorian_seconds_of(t@) + seconds < (GREGORIAN_MAX_DAY + 1) * 86400
        }),
        r matches Some(x) ==> gregorian_seconds_of(x@) == gregorian_seconds_of(t@) + seconds,
{
    let d = chrono::NaiveDate::from_ymd_opt(t.date.year, t.date.month, t.date.day).unwrap();
    let dt = d.and_hms_opt(t.hour, t.minute, t.second).unwrap();
    let delta = chrono::TimeDelta::try_seconds(seconds)?;
    match dt.checked_add_signed(delta) {
        Some(x) => Some(
            GregorianDateTime {
                date: GregorianDate { year: x.year(), month: x.month(), day: x.day() },
                hour: x.hour(),
                minute: x.minute(),
                second: x.second(),
            },
        ),
        None => None,
    }
}

/// `chrono::NaiveDateTime::signed_duration_since(..).num_seconds()`: the
/// signed number of seconds from `b` to `a`.
#[verifier::external_body]
pub(crate) fn naive_datetime_seconds_since(a: GregorianDateTime, b: GregorianDateTime) -> (r: i64)
    ensures
        r == gregorian_seconds_of(a@) - gregorian_seconds_of(b@),
{
    let da = chrono::NaiveDate::from_ymd_opt(a.date.year, a.date.month, a.date.day).unwrap();
    let db = chrono::NaiveDate::from_ymd_opt(b.date.year, b.date.month, b.date.day).unwrap();
    let ta = da.and_hms_opt(a.hour, a.minute, a.second).unwrap();
    let tb = db.and_hms_opt(b.hour, b.minute, b.second).unwrap();
    ta.signed_duration_since(tb).num_seconds()
}

/// `chrono::Local::now().date_naive()`: today's date in the local time zone.
/// Nothing is stated of which date that is.
#[verifier::external_body]
pub(crate) fn local_today() -> (r: GregorianDate) {
    let d = chrono::Local::now().date_naive();
    GregorianDate { year: d.year(), month: d.month(), day: d.day() }
}

/// `chrono::Local::now().naive_local()`: the local wall-clock time, to the
/// second. Nothing is stated of which instant that is.
#[verifier::external_body]
pub(crate) fn local_now() -> (r: GregorianDateTime) {
    let x = chrono::Local::now().naive_local();
    GregorianDateTime {
        date: GregorianDate { year: x.year(), month: x.month(), day: x.day() },
        hour: x.hour(),
        minute: x.minute(),
        second: x.second(),
    }
}

} // verus!
