use homie::dates::{days_in_month, is_leap_year, Date};

#[test]
fn epoch_is_day_zero() {
    assert_eq!(Date::from_ymd(1970, 1, 1).day_number(), 0);
}

#[test]
fn known_day_numbers() {
    assert_eq!(Date::from_ymd(1969, 12, 31).day_number(), -1);
    assert_eq!(Date::from_ymd(2000, 1, 1).day_number(), 10957);
    assert_eq!(Date::from_ymd(2000, 3, 1).day_number(), 11017);
    assert_eq!(Date::from_ymd(2020, 1, 10).day_number(), 18271);
    assert_eq!(Date::from_ymd(0, 1, 1).day_number(), -719528);
    assert_eq!(Date::from_ymd(9999, 12, 31).day_number(), 2932896);
}

#[test]
fn consecutive_days_differ_by_one() {
    assert_eq!(
        Date::from_ymd(2020, 2, 29).day_number() + 1,
        Date::from_ymd(2020, 3, 1).day_number()
    );
    assert_eq!(
        Date::from_ymd(2019, 12, 31).day_number() + 1,
        Date::from_ymd(2020, 1, 1).day_number()
    );
}

#[test]
fn leap_year_rules() {
    assert!(is_leap_year(2020));
    assert!(is_leap_year(2000));
    assert!(!is_leap_year(1900));
    assert!(!is_leap_year(2021));
    assert_eq!(days_in_month(2020, 2), 29);
    assert_eq!(days_in_month(1900, 2), 28);
    assert_eq!(days_in_month(2020, 4), 30);
    assert_eq!(days_in_month(2020, 12), 31);
}

#[test]
fn try_from_ymd_validates() {
    assert!(Date::try_from_ymd(2020, 2, 29).is_some());
    assert!(Date::try_from_ymd(1900, 2, 29).is_none());
    assert!(Date::try_from_ymd(2020, 13, 1).is_none());
    assert!(Date::try_from_ymd(2020, 0, 1).is_none());
    assert!(Date::try_from_ymd(2020, 1, 0).is_none());
    assert!(Date::try_from_ymd(2020, 4, 31).is_none());
    assert!(Date::try_from_ymd(-1, 1, 1).is_none());
    assert_eq!(
        Date::try_from_ymd(2020, 1, 10),
        Some(Date::from_ymd(2020, 1, 10))
    );
}

#[test]
fn minus_days_steps_back_over_month_and_year_bounds() {
    assert_eq!(
        Date::from_ymd(2020, 1, 12).minus_days(7),
        Date::from_ymd(2020, 1, 5)
    );
    assert_eq!(
        Date::from_ymd(2020, 1, 1).minus_days(7),
        Date::from_ymd(2019, 12, 25)
    );
}

#[test]
fn day_numbers_round_trip() {
    let d = Date::from_ymd(2020, 1, 10);
    assert_eq!(Date::from_day_number(d.day_number()), Some(d));
    assert_eq!(Date::from_day_number(i64::MAX), None);
    assert_eq!(Date::from_day_number(i64::MIN), None);
}
