use parsidate::{DateError, ParsiDate, ParsiDateTime, Season};

fn pd(y: i32, m: u32, d: u32) -> ParsiDate {
    ParsiDate::new(y, m, d).unwrap()
}
fn pdt(y: i32, m: u32, d: u32, h: u32, min: u32, s: u32) -> ParsiDateTime {
    ParsiDateTime::new(y, m, d, h, min, s).unwrap()
}

#[test]
fn test_season_enum_methods() {
    assert_eq!(Season::Bahar.name_persian(), "بهار");
    assert_eq!(Season::Tabestan.name_english(), "Summer");
    assert_eq!(Season::Paeez.start_month(), 7);
    assert_eq!(Season::Zemestan.end_month(), 12);
    assert_eq!(Season::Paeez.to_string(), "پاییز");
}

#[test]
fn test_parsidate_season() {
    assert_eq!(pd(1403, 1, 1).season(), Ok(Season::Bahar));
    assert_eq!(pd(1403, 3, 31).season(), Ok(Season::Bahar));
    assert_eq!(pd(1403, 4, 1).season(), Ok(Season::Tabestan));
    assert_eq!(pd(1403, 6, 31).season(), Ok(Season::Tabestan));
    assert_eq!(pd(1403, 7, 1).season(), Ok(Season::Paeez));
    assert_eq!(pd(1403, 9, 30).season(), Ok(Season::Paeez));
    assert_eq!(pd(1403, 10, 1).season(), Ok(Season::Zemestan));
    assert_eq!(pd(1403, 12, 30).season(), Ok(Season::Zemestan));
    assert_eq!(pd(1404, 10, 1).season(), Ok(Season::Zemestan));
    assert_eq!(pd(1404, 12, 29).season(), Ok(Season::Zemestan));

    let invalid_date = ParsiDate::new_unchecked(1403, 13, 1);
    assert_eq!(invalid_date.season(), Err(DateError::InvalidDate));
}

#[test]
fn test_parsidatetime_season() {
    assert_eq!(pdt(1403, 2, 10, 12, 0, 0).season(), Ok(Season::Bahar));
    assert_eq!(pdt(1403, 8, 1, 0, 0, 0).season(), Ok(Season::Paeez));

    let invalid_dt = ParsiDateTime::new_unchecked(1404, 12, 30, 10, 0, 0);
    assert_eq!(invalid_dt.season(), Err(DateError::InvalidDate));
}

#[test]
fn test_format_season() {
    let dt_summer = pdt(1403, 5, 2, 8, 5, 30);
    let dt_winter = pdt(1403, 11, 10, 20, 0, 0);

    assert_eq!(dt_summer.format("%Y %K %m"), "1403 تابستان 05");
    assert_eq!(dt_winter.format("%K - %d/%m/%Y"), "زمستان - 10/11/1403");
    assert_eq!(dt_summer.date().format("%K"), "تابستان");

    assert_eq!(dt_summer.format("%K %K"), "تابستان تابستان");

    let invalid_dt = ParsiDateTime::new_unchecked(1403, 13, 1, 10, 0, 0);
    assert_eq!(invalid_dt.format("%K"), "?SeasonError?");
}

#[test]
fn test_season_boundaries() {
    let d_spring = pd(1403, 2, 15);
    assert_eq!(d_spring.start_of_season(), Ok(pd(1403, 1, 1)));
    assert_eq!(d_spring.end_of_season(), Ok(pd(1403, 3, 31)));

    let d_autumn = pd(1403, 9, 1);
    assert_eq!(d_autumn.start_of_season(), Ok(pd(1403, 7, 1)));
    assert_eq!(d_autumn.end_of_season(), Ok(pd(1403, 9, 30)));

    let d_winter_leap = pd(1403, 10, 5);
    assert_eq!(d_winter_leap.start_of_season(), Ok(pd(1403, 10, 1)));
    assert_eq!(d_winter_leap.end_of_season(), Ok(pd(1403, 12, 30)));

    let d_winter_common = pd(1404, 11, 10);
    assert_eq!(d_winter_common.start_of_season(), Ok(pd(1404, 10, 1)));
    assert_eq!(d_winter_common.end_of_season(), Ok(pd(1404, 12, 29)));

    let dt_summer = pdt(1403, 4, 1, 12, 0, 0);
    assert_eq!(dt_summer.start_of_season().unwrap().date(), pd(1403, 4, 1));
    assert_eq!(dt_summer.start_of_season().unwrap().time(), (12, 0, 0));
    assert_eq!(dt_summer.end_of_season().unwrap().date(), pd(1403, 6, 31));
    assert_eq!(dt_summer.end_of_season().unwrap().time(), (12, 0, 0));

    let invalid_date = ParsiDate::new_unchecked(1403, 13, 1);
    assert_eq!(invalid_date.start_of_season(), Err(DateError::InvalidDate));
    assert_eq!(invalid_date.end_of_season(), Err(DateError::InvalidDate));
}
