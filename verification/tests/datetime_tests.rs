use parsidate::{DateError, GregorianDate, ParseErrorKind, ParsiDate, ParsiDateTime};

fn pdt(year: i32, month: u32, day: u32, hour: u32, minute: u32, second: u32) -> ParsiDateTime {
    ParsiDateTime::new(year, month, day, hour, minute, second).unwrap_or_else(|e| {
        panic!(
            "Invalid test datetime {}-{}-{} {}:{}:{}: {:?}",
            year, month, day, hour, minute, second, e
        )
    })
}

fn pd(year: i32, month: u32, day: u32) -> ParsiDate {
    ParsiDate::new(year, month, day).unwrap()
}

fn gdt(year: i32, month: u32, day: u32, hour: u32, minute: u32, second: u32) -> parsidate::GregorianDateTime {
    GregorianDate::from_ymd_opt(year, month, day)
        .unwrap()
        .and_hms_opt(hour, minute, second)
        .unwrap()
}

#[test]
fn test_new_datetime() {
    assert!(ParsiDateTime::new(1403, 5, 2, 10, 30, 0).is_ok());
    assert_eq!(ParsiDateTime::new(1403, 5, 2, 24, 0, 0), Err(DateError::InvalidTime));
    assert_eq!(ParsiDateTime::new(1403, 5, 2, 10, 60, 0), Err(DateError::InvalidTime));
    assert_eq!(ParsiDateTime::new(1403, 5, 2, 10, 0, 60), Err(DateError::InvalidTime));
    assert_eq!(ParsiDateTime::new(1404, 12, 30, 10, 0, 0), Err(DateError::InvalidDate));
}

#[test]
fn test_from_date_and_time() {
    let date = pd(1403, 1, 1);
    assert!(ParsiDateTime::from_date_and_time(date, 0, 0, 0).is_ok());
    assert!(ParsiDateTime::from_date_and_time(date, 23, 59, 59).is_ok());
    assert_eq!(
        ParsiDateTime::from_date_and_time(date, 24, 0, 0),
        Err(DateError::InvalidTime)
    );
}

#[test]
fn test_is_valid_datetime() {
    assert!(pdt(1403, 12, 30, 23, 59, 59).is_valid());
    assert!(!ParsiDateTime::new_unchecked(1404, 12, 30, 10, 0, 0).is_valid());
    assert!(!ParsiDateTime::new_unchecked(1403, 12, 30, 24, 0, 0).is_valid());
    assert!(!ParsiDateTime::new_unchecked(1404, 12, 30, 24, 0, 0).is_valid());
}

#[test]
fn test_gregorian_to_persian_datetime() {
    let g_dt = gdt(2024, 7, 23, 15, 30, 45);
    let expected_pdt = pdt(1403, 5, 2, 15, 30, 45);
    assert_eq!(ParsiDateTime::from_gregorian(g_dt), Ok(expected_pdt));

    let g_epoch_dt = gdt(622, 3, 21, 0, 0, 0);
    assert_eq!(ParsiDateTime::from_gregorian(g_epoch_dt), Ok(pdt(1, 1, 1, 0, 0, 0)));

    let g_before_epoch = gdt(622, 3, 20, 23, 59, 59);
    assert_eq!(
        ParsiDateTime::from_gregorian(g_before_epoch),
        Err(DateError::GregorianConversionError)
    );
}

#[test]
fn test_persian_to_gregorian_datetime() {
    let p_dt = pdt(1403, 5, 2, 15, 30, 45);
    let expected_g_dt = gdt(2024, 7, 23, 15, 30, 45);
    assert_eq!(p_dt.to_gregorian(), Ok(expected_g_dt));

    let invalid_dt_time = ParsiDateTime::new_unchecked(1403, 5, 2, 24, 0, 0);
    assert!(!invalid_dt_time.is_valid());
    assert_eq!(invalid_dt_time.to_gregorian(), Err(DateError::InvalidTime));

    let invalid_dt_date = ParsiDateTime::new_unchecked(1404, 12, 30, 10, 0, 0);
    assert!(!invalid_dt_date.is_valid());
    assert_eq!(invalid_dt_date.to_gregorian(), Err(DateError::InvalidDate));
}

#[test]
fn test_now_function() {
    match ParsiDateTime::now() {
        Ok(now) => {
            println!("Current Persian DateTime (captured by test): {}", now.to_string());
            assert!(now.is_valid(), "ParsiDateTime::now() returned an invalid object");
            let chrono_now_naive = chrono::Local::now().naive_local();
            let converted_back = now.to_gregorian().unwrap();
            let back = chrono::NaiveDate::from_ymd_opt(
                converted_back.date().year(),
                converted_back.date().month(),
                converted_back.date().day(),
            )
            .unwrap()
            .and_hms_opt(converted_back.hour(), converted_back.minute(), converted_back.second())
            .unwrap();
            let diff = (chrono_now_naive - back).num_seconds().abs();
            assert!(
                diff <= 1,
                "Difference between now() and chrono local time is too large: {}s",
                diff
            );
        }
        Err(e) => panic!("ParsiDateTime::now() failed: {}", e.to_string()),
    }
}

#[test]
fn test_week_of_year() {
    assert_eq!(pd(1403, 1, 1).week_of_year(), Ok(1));
    assert_eq!(pd(1403, 1, 2).week_of_year(), Ok(1));
    assert_eq!(pd(1403, 1, 3).week_of_year(), Ok(1));
    assert_eq!(pd(1403, 1, 4).week_of_year(), Ok(2));
    assert_eq!(pd(1403, 1, 10).week_of_year(), Ok(2));
    assert_eq!(pd(1403, 1, 11).week_of_year(), Ok(3));
    assert_eq!(pd(1403, 5, 2).week_of_year(), Ok(19));
    assert_eq!(pd(1403, 12, 29).week_of_year(), Ok(53));
    assert_eq!(pd(1403, 12, 30).week_of_year(), Ok(53));

    assert_eq!(pd(1404, 1, 1).week_of_year(), Ok(1));
    assert_eq!(pd(1404, 1, 2).week_of_year(), Ok(2));
    assert_eq!(pd(1404, 1, 8).week_of_year(), Ok(2));
    assert_eq!(pd(1404, 1, 9).week_of_year(), Ok(3));
    assert_eq!(pd(1404, 12, 28).week_of_year(), Ok(53));
    assert_eq!(pd(1404, 12, 29).week_of_year(), Ok(53));

    assert_eq!(pd(1, 1, 1).week_of_year(), Ok(1));
    assert_eq!(pd(1, 1, 2).week_of_year(), Ok(1));

    let dt = ParsiDateTime::new(1403, 1, 4, 10, 0, 0).unwrap();
    assert_eq!(dt.week_of_year(), Ok(2));

    let invalid_date = ParsiDate::new_unchecked(1400, 13, 1);
    assert!(matches!(invalid_date.week_of_year(), Err(DateError::InvalidDate)));
}

#[test]
fn test_format_datetime() {
    let dt = pdt(1403, 5, 2, 8, 5, 3);
    let dt_pm = pdt(1403, 10, 15, 22, 59, 59);

    assert_eq!(dt.to_string(), "1403/05/02 08:05:03");
    assert_eq!(dt_pm.to_string(), "1403/10/15 22:59:59");

    assert_eq!(dt.format("%Y-%m-%d %H:%M:%S"), "1403-05-02 08:05:03");
    assert_eq!(dt_pm.format("%Y-%m-%d %H:%M:%S"), "1403-10-15 22:59:59");
    assert_eq!(dt.format("%d %B %Y ساعت %H:%M"), "02 مرداد 1403 ساعت 08:05");
    assert_eq!(dt.format("%T"), "08:05:03");
    assert_eq!(dt_pm.format("%T"), "22:59:59");
    assert_eq!(dt.format("%Y%m%dT%H%M%S"), "14030502T080503");

    assert_eq!(dt.format("%A %d %B - %H hours"), "سه‌شنبه 02 مرداد - 08 hours");
}

#[test]
fn test_parse_datetime() {
    let s1 = "1403/05/02 15:30:45";
    let fmt1 = "%Y/%m/%d %H:%M:%S";
    assert_eq!(ParsiDateTime::parse(s1, fmt1), Ok(pdt(1403, 5, 2, 15, 30, 45)));

    let s2 = "1399-12-30T23:59:01";
    let fmt2 = "%Y-%m-%dT%T";
    assert_eq!(ParsiDateTime::parse(s2, fmt2), Ok(pdt(1399, 12, 30, 23, 59, 1)));

    let s3 = "01 فروردین 1400 00:00:00";
    let fmt3 = "%d %B %Y %H:%M:%S";
    assert_eq!(ParsiDateTime::parse(s3, fmt3), Ok(pdt(1400, 1, 1, 0, 0, 0)));

    assert_eq!(
        ParsiDateTime::parse("1403/05/02 24:00:00", fmt1),
        Err(DateError::ParseError(ParseErrorKind::InvalidTimeValue))
    );
    assert_eq!(
        ParsiDateTime::parse("1403/05/02 15:60:00", fmt1),
        Err(DateError::ParseError(ParseErrorKind::InvalidTimeValue))
    );
    assert_eq!(
        ParsiDateTime::parse("1403/05/02 15:00:60", fmt1),
        Err(DateError::ParseError(ParseErrorKind::InvalidTimeValue))
    );
    assert_eq!(
        ParsiDateTime::parse("1403/05/02 15:30", fmt1),
        Err(DateError::ParseError(ParseErrorKind::FormatMismatch))
    );
    assert_eq!(
        ParsiDateTime::parse("1403/05/02 15-30-45", fmt1),
        Err(DateError::ParseError(ParseErrorKind::FormatMismatch))
    );
    assert_eq!(
        ParsiDateTime::parse("1404/12/30 10:00:00", fmt1),
        Err(DateError::ParseError(ParseErrorKind::InvalidDateValue))
    );
}

const MINUTE: i64 = 60;
const HOUR: i64 = 3600;
const DAY: i64 = 86400;

#[test]
fn test_add_sub_duration() {
    let dt = pdt(1403, 5, 2, 10, 30, 15);

    assert_eq!(dt.add_duration(50), Ok(pdt(1403, 5, 2, 10, 31, 5)));
    assert_eq!(dt.add_duration(35 * MINUTE), Ok(pdt(1403, 5, 2, 11, 5, 15)));
    assert_eq!(dt.add_duration(14 * HOUR), Ok(pdt(1403, 5, 3, 0, 30, 15)));

    let dt_next_day = dt.add_duration(DAY);
    assert_eq!(dt_next_day, Ok(pdt(1403, 5, 3, 10, 30, 15)));

    let dt_prev_sec = dt.sub_duration(20);
    assert_eq!(dt_prev_sec, Ok(pdt(1403, 5, 2, 10, 29, 55)));

    let dt_prev_hour = dt.sub_duration(11 * HOUR);
    assert_eq!(dt_prev_hour, Ok(pdt(1403, 5, 1, 23, 30, 15)));

    let dt_leap_end = pdt(1403, 12, 30, 23, 59, 58);
    assert_eq!(dt_leap_end.add_duration(3), Ok(pdt(1404, 1, 1, 0, 0, 1)));

    let dt_common_start = pdt(1404, 1, 1, 0, 0, 1);
    assert_eq!(dt_common_start.sub_duration(3), Ok(pdt(1403, 12, 30, 23, 59, 58)));

    assert_eq!(dt.add_duration(HOUR), Ok(pdt(1403, 5, 2, 11, 30, 15)));
    assert_eq!(dt.sub_duration(DAY), Ok(pdt(1403, 5, 1, 10, 30, 15)));

    let dt2 = pdt(1403, 5, 2, 11, 30, 15);
    assert_eq!(dt2.seconds_since(&dt), Ok(HOUR));
    assert_eq!(dt.seconds_since(&dt2), Ok(-HOUR));
}

#[test]
fn test_add_sub_days_months_years_datetime() {
    let dt = pdt(1403, 1, 31, 12, 0, 0);

    assert_eq!(dt.add_days(1), Ok(pdt(1403, 2, 1, 12, 0, 0)));
    assert_eq!(dt.sub_days(31), Ok(pdt(1402, 12, 29, 12, 0, 0)));

    assert_eq!(dt.add_months(6), Ok(pdt(1403, 7, 30, 12, 0, 0)));
    assert_eq!(dt.sub_months(1), Ok(pdt(1402, 12, 29, 12, 0, 0)));

    let dt_leap = pdt(1403, 12, 30, 10, 0, 0);
    assert_eq!(dt_leap.add_years(1), Ok(pdt(1404, 12, 29, 10, 0, 0)));
    assert_eq!(dt_leap.sub_years(4), Ok(pdt(1399, 12, 30, 10, 0, 0)));

    let dt_precise = pdt(1400, 6, 15, 1, 2, 3);
    assert_eq!(dt_precise.add_days(10).unwrap().time(), (1, 2, 3));
    assert_eq!(dt_precise.add_months(2).unwrap().time(), (1, 2, 3));
    assert_eq!(dt_precise.add_years(1).unwrap().time(), (1, 2, 3));
}

#[test]
fn test_with_time_components() {
    let dt = pdt(1403, 5, 2, 10, 20, 30);

    assert_eq!(dt.with_hour(11), Ok(pdt(1403, 5, 2, 11, 20, 30)));
    assert_eq!(dt.with_minute(0), Ok(pdt(1403, 5, 2, 10, 0, 30)));
    assert_eq!(dt.with_second(59), Ok(pdt(1403, 5, 2, 10, 20, 59)));
    assert_eq!(dt.with_time(23, 0, 0), Ok(pdt(1403, 5, 2, 23, 0, 0)));

    assert_eq!(dt.with_hour(24), Err(DateError::InvalidTime));
    assert_eq!(dt.with_minute(60), Err(DateError::InvalidTime));
    assert_eq!(dt.with_second(60), Err(DateError::InvalidTime));
    assert_eq!(dt.with_time(10, 60, 0), Err(DateError::InvalidTime));
}

#[test]
fn test_with_date_components_datetime() {
    let dt = pdt(1403, 12, 30, 12, 34, 56);

    assert_eq!(dt.with_year(1404), Ok(pdt(1404, 12, 29, 12, 34, 56)));
    let dt2 = pdt(1403, 1, 31, 1, 2, 3);
    assert_eq!(dt2.with_month(7), Ok(pdt(1403, 7, 30, 1, 2, 3)));
    assert_eq!(dt.with_day(1), Ok(pdt(1403, 12, 1, 12, 34, 56)));
    assert_eq!(dt.with_day(31), Err(DateError::InvalidDate));
}
