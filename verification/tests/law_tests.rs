use parsidate::{
    DateError, GregorianDate, ParseErrorKind, ParsiDate, ParsiDateTime, Season,
};

fn pd(y: i32, m: u32, d: u32) -> ParsiDate {
    ParsiDate::new(y, m, d).unwrap()
}

fn pdt(y: i32, m: u32, d: u32, h: u32, mi: u32, s: u32) -> ParsiDateTime {
    ParsiDateTime::new(y, m, d, h, mi, s).unwrap()
}

#[test]
fn gregorian_round_trip_over_many_dates() {
    let mut d = pd(1, 1, 1);
    let mut steps = 0;
    while steps < 400 {
        let g = d.to_gregorian().unwrap();
        assert_eq!(ParsiDate::from_gregorian(g), Ok(d));
        assert_eq!(ParsiDate::from_gregorian(g).unwrap().to_gregorian(), Ok(g));
        d = match d.add_days(9173) {
            Ok(next) => next,
            Err(_) => break,
        };
        steps += 1;
    }
    assert!(steps > 300);
}

#[test]
fn gregorian_conversion_range_edges() {
    let last = pd(9999, 12, 29);
    let g_last = last.to_gregorian().unwrap();
    assert_eq!(ParsiDate::from_gregorian(g_last), Ok(last));
    let after = GregorianDate::from_ymd_opt(g_last.year(), g_last.month(), g_last.day() + 1)
        .or_else(|| GregorianDate::from_ymd_opt(g_last.year(), g_last.month() + 1, 1))
        .unwrap();
    assert_eq!(ParsiDate::from_gregorian(after), Err(DateError::GregorianConversionError));
    assert_eq!(last.add_days(1), Err(DateError::ArithmeticOverflow));
    assert_eq!(pd(1, 1, 1).add_days(-1), Err(DateError::GregorianConversionError));
    assert_eq!(pd(1, 1, 1).sub_days(1), Err(DateError::GregorianConversionError));
    assert_eq!(pd(1400, 1, 1).add_days(i64::MIN), Err(DateError::ArithmeticOverflow));
    assert_eq!(pd(1400, 1, 1).sub_days(u64::MAX), Err(DateError::ArithmeticOverflow));
    assert_eq!(
        ParsiDate::new_unchecked(0, 1, 1).sub_days(u64::MAX),
        Err(DateError::ArithmeticOverflow)
    );
}

#[test]
fn gregorian_date_construction() {
    assert!(GregorianDate::from_ymd_opt(2024, 2, 29).is_some());
    assert!(GregorianDate::from_ymd_opt(2023, 2, 29).is_none());
    assert!(GregorianDate::from_ymd_opt(2024, 13, 1).is_none());
    assert!(GregorianDate::from_ymd_opt(400000, 1, 1).is_none());
    let g = GregorianDate::from_ymd_opt(2024, 7, 23).unwrap();
    assert_eq!((g.year(), g.month(), g.day()), (2024, 7, 23));
    assert!(g.and_hms_opt(24, 0, 0).is_none());
    let t = g.and_hms_opt(23, 59, 59).unwrap();
    assert_eq!((t.hour(), t.minute(), t.second()), (23, 59, 59));
    assert_eq!(t.date(), g);
}

#[test]
fn add_days_inverse_and_distance() {
    let p = pd(1357, 11, 22);
    for n in [-5000i64, -366, -1, 0, 1, 29, 365, 12345] {
        let q = p.add_days(n).unwrap();
        assert_eq!(q.add_days(-n), Ok(p));
        assert_eq!(p.days_between(&q), Ok(n.abs()));
        assert_eq!(q.days_between(&p), Ok(n.abs()));
    }
    let q = p.add_days(100).unwrap();
    assert_eq!(q.add_days(250), p.add_days(350));
}

#[test]
fn weekday_advances_by_one() {
    let names = ["شنبه", "یکشنبه", "دوشنبه", "سه‌شنبه", "چهارشنبه", "پنجشنبه", "جمعه"];
    let mut d = pd(1402, 12, 20);
    let first = d.weekday().unwrap();
    let mut idx = names.iter().position(|n| *n == first).unwrap();
    for _ in 0..20 {
        d = d.add_days(1).unwrap();
        idx = (idx + 1) % 7;
        assert_eq!(d.weekday().unwrap(), names[idx]);
    }
    assert_eq!(pd(1403, 1, 4).add_days(7).unwrap().weekday(), pd(1403, 1, 4).weekday());
}

#[test]
fn ordinal_round_trip() {
    for y in [1, 1399, 1403, 1404, 9999] {
        let len = if ParsiDate::is_persian_leap_year(y) { 366 } else { 365 };
        for o in 1..=len {
            let d = ParsiDate::from_ordinal(y, o).unwrap();
            assert_eq!(d.ordinal(), Ok(o));
        }
        assert_eq!(ParsiDate::from_ordinal(y, len + 1), Err(DateError::InvalidOrdinal));
    }
    assert_eq!(ParsiDate::from_ordinal(0, 100), Err(DateError::InvalidDate));
    assert_eq!(ParsiDate::from_ordinal(1403, 100), Ok(pd(1403, 4, 7)));
}

#[test]
fn add_months_and_years_laws() {
    let d = pd(1403, 6, 31);
    assert_eq!(d.add_months(-3), Ok(pd(1403, 3, 31)));
    assert_eq!(d.add_months(6), Ok(pd(1403, 12, 30)));
    assert_eq!(d.add_months(18), Ok(pd(1404, 12, 29)));
    assert_eq!(d.sub_months(u32::MAX), Err(DateError::ArithmeticOverflow));
    assert_eq!(d.add_months(i32::MIN), Err(DateError::ArithmeticOverflow));
    assert_eq!(d.add_years(i32::MAX), Err(DateError::ArithmeticOverflow));
    assert_eq!(d.sub_years(u32::MAX), Err(DateError::ArithmeticOverflow));
    assert_eq!(pd(1399, 12, 30).add_years(33), Ok(pd(1432, 12, 30)));
}

#[test]
fn leap_cycle_repeats() {
    for y in 1..400 {
        assert_eq!(
            ParsiDate::is_persian_leap_year(y),
            ParsiDate::is_persian_leap_year(y + 33)
        );
    }
    let start = pd(1400, 1, 1);
    assert_eq!(start.days_between(&pd(1433, 1, 1)), Ok(12053));
}

#[test]
fn gregorian_leap_rule() {
    assert!(ParsiDate::is_gregorian_leap_year(2024));
    assert!(!ParsiDate::is_gregorian_leap_year(2023));
    assert!(!ParsiDate::is_gregorian_leap_year(1900));
    assert!(ParsiDate::is_gregorian_leap_year(2000));
    assert!(ParsiDate::is_gregorian_leap_year(-4));
}

#[test]
fn season_bounds_contain_date() {
    for m in 1..=12u32 {
        let d = pd(1404, m, 10);
        let s = d.start_of_season().unwrap();
        let e = d.end_of_season().unwrap();
        assert_eq!(s.season(), d.season());
        assert_eq!(e.season(), d.season());
        assert!(s <= d && d <= e);
        assert_eq!(s.month(), d.season().unwrap().start_month());
        assert_eq!(e.month(), d.season().unwrap().end_month());
    }
    assert_eq!(Season::Zemestan.name_english(), "Winter");
    assert_eq!(Season::Tabestan.end_month(), 6);
}

#[test]
fn short_form_parses_back() {
    for (y, m, d) in [(1000, 1, 1), (1403, 5, 2), (9999, 12, 29), (1399, 12, 30)] {
        let p = pd(y, m, d);
        assert_eq!(ParsiDate::parse(&p.to_string(), "%Y/%m/%d"), Ok(p));
        assert_eq!(p.format("%Y/%m/%d"), p.to_string());
    }
    // A year below 1000 is rendered with fewer than four digits.
    assert_eq!(pd(999, 1, 1).to_string(), "999/01/01");
    assert_eq!(
        ParsiDate::parse("999/01/01", "%Y/%m/%d"),
        Err(DateError::ParseError(ParseErrorKind::InvalidNumber))
    );
}

#[test]
fn datetime_string_parses_back() {
    for (y, m, d, h, mi, s) in [
        (1000, 1, 1, 0, 0, 0),
        (1403, 5, 2, 15, 30, 45),
        (9999, 12, 29, 23, 59, 59),
        (1399, 12, 30, 7, 5, 9),
    ] {
        let t = pdt(y, m, d, h, mi, s);
        let text = t.to_string();
        assert_eq!(t.format("%Y/%m/%d %H:%M:%S"), text);
        assert_eq!(ParsiDateTime::parse(&text, "%Y/%m/%d %H:%M:%S"), Ok(t));
    }
    assert_eq!(pdt(1403, 5, 2, 8, 5, 3).to_string(), "1403/05/02 08:05:03");
    // A year below 1000 is rendered with fewer than four digits.
    assert_eq!(
        ParsiDateTime::parse(&pdt(999, 1, 1, 0, 0, 0).to_string(), "%Y/%m/%d %H:%M:%S"),
        Err(DateError::ParseError(ParseErrorKind::InvalidNumber))
    );
}

#[test]
fn order_is_chronological() {
    assert!(pd(1402, 12, 29) < pd(1403, 1, 1));
    assert!(pd(1403, 1, 31) < pd(1403, 2, 1));
    assert!(pd(1403, 5, 2) < pd(1403, 5, 3));
    let mut d = pd(1402, 11, 20);
    for _ in 0..120 {
        let next = d.add_days(1).unwrap();
        assert!(d < next);
        assert_eq!(d.days_between(&next), Ok(1));
        d = next;
    }
}

#[test]
fn week_numbers() {
    assert_eq!(pd(1403, 1, 1).week_of_year(), Ok(1));
    let mut d = pd(1403, 1, 1);
    let mut week = 1;
    for _ in 0..365 {
        let next = d.add_days(1).unwrap();
        if next.year() != d.year() {
            break;
        }
        if next.weekday().unwrap() == "شنبه" {
            week += 1;
        }
        assert_eq!(next.week_of_year(), Ok(week));
        d = next;
    }
    assert_eq!(week, 53);
}

#[test]
fn datetime_duration_inverse() {
    let t = pdt(1403, 12, 30, 23, 59, 58);
    for n in [-1_000_000i64, -86_400, -1, 0, 1, 2, 86_400, 31_536_000] {
        let u = t.add_duration(n).unwrap();
        assert_eq!(u.sub_duration(n), Ok(t));
        assert_eq!(u.seconds_since(&t), Ok(n));
    }
    assert_eq!(t.add_duration(i64::MAX), Err(DateError::ArithmeticOverflow));
    assert_eq!(t.sub_duration(i64::MIN), Err(DateError::ArithmeticOverflow));
    let bad = ParsiDateTime::new_unchecked(1403, 1, 1, 25, 0, 0);
    assert_eq!(bad.add_duration(1), Err(DateError::InvalidTime));
    assert_eq!(bad.seconds_since(&t), Err(DateError::InvalidTime));
    assert_eq!(t.seconds_since(&bad), Err(DateError::InvalidTime));
    assert_eq!(pdt(1, 1, 1, 0, 0, 0).sub_duration(1), Err(DateError::GregorianConversionError));
}

#[test]
fn datetime_gregorian_round_trip() {
    let t = pdt(1357, 11, 22, 7, 8, 9);
    let g = t.to_gregorian().unwrap();
    assert_eq!((g.date().year(), g.date().month(), g.date().day()), (1979, 2, 11));
    assert_eq!(ParsiDateTime::from_gregorian(g), Ok(t));
}

#[test]
fn datetime_invalid_inputs() {
    let bad_date = ParsiDateTime::new_unchecked(1404, 12, 30, 10, 0, 0);
    let bad_time = ParsiDateTime::new_unchecked(1404, 12, 1, 10, 61, 0);
    assert_eq!(bad_date.add_days(1), Err(DateError::InvalidDate));
    assert_eq!(bad_time.add_days(1), Err(DateError::InvalidTime));
    assert_eq!(bad_time.add_months(1), Err(DateError::InvalidTime));
    assert_eq!(bad_time.sub_years(1), Err(DateError::InvalidTime));
    assert_eq!(bad_date.with_hour(1), Err(DateError::InvalidDate));
    assert_eq!(bad_time.with_second(1).map(|t| t.second()), Ok(1));
    assert_eq!(bad_time.with_year(1403).map(|t| t.minute()), Ok(61));
    assert!(ParsiDateTime::from_date_and_time(ParsiDate::new_unchecked(1404, 12, 30), 1, 1, 1).is_ok());
    assert_eq!(
        ParsiDateTime::parse("1403/01/01 10", "%Y/%m/%d %T"),
        Err(DateError::ParseError(ParseErrorKind::FormatMismatch))
    );
    assert_eq!(
        ParsiDateTime::parse("1403/01/01 1x:00:00", "%Y/%m/%d %H:%M:%S"),
        Err(DateError::ParseError(ParseErrorKind::InvalidNumber))
    );
    assert_eq!(
        ParsiDate::parse("1403/01/01 10", "%Y/%m/%d %H"),
        Err(DateError::ParseError(ParseErrorKind::UnsupportedSpecifier))
    );
    assert_eq!(
        ParsiDate::parse("1403/01", "%Y/%m/%"),
        Err(DateError::ParseError(ParseErrorKind::FormatMismatch))
    );
    assert_eq!(ParsiDate::parse("%1403/01/01", "%%%Y/%m/%d"), Ok(pd(1403, 1, 1)));
    assert_eq!(
        ParsiDate::parse("1403/01", "%Y/%m"),
        Err(DateError::ParseError(ParseErrorKind::FormatMismatch))
    );
}

#[test]
fn formatting_details() {
    let d = pd(1403, 1, 7);
    assert_eq!(d.format("%Y %W %K"), "1403 02 بهار");
    assert_eq!(d.format("100%"), "100%");
    assert_eq!(d.format("%H"), "%H");
    let t = pdt(1403, 1, 7, 9, 5, 0);
    assert_eq!(t.format("%H:%M:%S %w"), "09:05:00 3");
    let weird = ParsiDate::new_unchecked(1403, 0, 1);
    assert_eq!(weird.format("%B"), "فروردین");
    assert_eq!(weird.format("long"), "1 فروردین 1403");
    assert_eq!(ParsiDate::new_unchecked(-5, 13, 100).to_string(), "-5/13/100");
    assert_eq!(ParsiDate::new_unchecked(1400, 13, 1).format("%w %W %K"), "? ?WeekError? ?SeasonError?");
}

#[test]
fn error_messages() {
    assert_eq!(
        DateError::ParseError(ParseErrorKind::InvalidNumber).to_string(),
        "Parsing error: a numeric component could not be parsed or had an incorrect number of digits"
    );
    assert_eq!(DateError::InvalidOrdinal.to_string(), "Invalid ordinal day: must be between 1 and 365/366");
    assert_eq!(
        ParseErrorKind::InvalidWeekdayName.to_string(),
        "could not recognize a valid Persian weekday name (currently unused)"
    );
}
