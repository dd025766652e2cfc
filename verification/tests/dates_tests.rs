use gatewayapi::dates::{
    civil_from_days, days_in_month, epoch_day_from_millis, format_rfc3339_utc, is_leap_year,
    CivilDate,
};
use gatewayapi::service::resolve_range;

#[test]
fn epoch_day_zero_is_the_epoch() {
    let d = civil_from_days(0);
    assert_eq!(d, CivilDate { year: 1970, month: 1, day: 1 });
}

#[test]
fn first_day_of_twenty_twenty_four() {
    let d = civil_from_days(19723);
    assert_eq!(d, CivilDate { year: 2024, month: 1, day: 1 });
}

#[test]
fn leap_day_of_twenty_twenty_four() {
    let d = civil_from_days(19782);
    assert_eq!(d, CivilDate { year: 2024, month: 2, day: 29 });
}

#[test]
fn last_day_of_a_year() {
    // 2023-12-31 is the day before 2024-01-01.
    let d = civil_from_days(19722);
    assert_eq!(d, CivilDate { year: 2023, month: 12, day: 31 });
}

#[test]
fn leap_year_rule() {
    assert!(is_leap_year(2024));
    assert!(!is_leap_year(2023));
    assert!(!is_leap_year(2100));
    assert!(is_leap_year(2000));
    assert_eq!(days_in_month(2024, 2), 29);
    assert_eq!(days_in_month(2023, 2), 28);
    assert_eq!(days_in_month(2024, 4), 30);
    assert_eq!(days_in_month(2024, 12), 31);
}

#[test]
fn rfc3339_of_a_clock_reading() {
    // 2024-01-01T10:45:00Z in epoch milliseconds.
    let s = format_rfc3339_utc(1_704_105_900_123);
    assert_eq!(s, "2024-01-01T10:45:00Z");
}

#[test]
fn rfc3339_of_negative_clock_is_the_epoch() {
    let s = format_rfc3339_utc(-5);
    assert_eq!(s, "1970-01-01T00:00:00Z");
}

#[test]
fn epoch_day_of_clock_readings() {
    assert_eq!(epoch_day_from_millis(1_704_105_900_123), 19723);
    assert_eq!(epoch_day_from_millis(0), 0);
    assert_eq!(epoch_day_from_millis(-1), 0);
}

#[test]
fn range_resolution() {
    assert_eq!(resolve_range("today", 19723), (19723, 19723));
    assert_eq!(resolve_range("7d", 19723), (19716, 19723));
    assert_eq!(resolve_range("30d", 19723), (19693, 19723));
    // An unrecognized label falls back to today.
    assert_eq!(resolve_range("1y", 19723), (19723, 19723));
}
