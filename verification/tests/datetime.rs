//! Instants and the calendar.

use attestation::datetime::{
    civil_to_unix, days_in_month, is_leap_year, parse_fixed_width, parse_rfc3339_utc,
};

#[test]
fn days_in_month_is_total_over_every_month_and_returns_none_out_of_range() {
    assert_eq!(days_in_month(2023, 0), None);
    assert_eq!(days_in_month(2023, 13), None);
    assert_eq!(days_in_month(2023, 1), Some(31));
    assert_eq!(days_in_month(2023, 4), Some(30));
    assert_eq!(days_in_month(2023, 2), Some(28));
    assert_eq!(days_in_month(2024, 2), Some(29));
}

#[test]
fn parses_known_epochs() {
    assert_eq!(parse_rfc3339_utc("1970-01-01T00:00:00Z"), Some(0));
    assert_eq!(parse_rfc3339_utc("2000-01-01T00:00:00Z"), Some(946_684_800));
    assert_eq!(parse_rfc3339_utc("2023-01-01T00:00:00Z"), Some(1_672_531_200));
    assert_eq!(parse_rfc3339_utc("2021-11-14T22:13:20Z"), Some(1_636_928_000));
}

#[test]
fn tolerates_fractional_seconds_truncating_them() {
    assert_eq!(parse_rfc3339_utc("2023-01-01T00:00:00.123Z"), Some(1_672_531_200));
    assert_eq!(parse_rfc3339_utc("2023-01-01T00:00:00.000000001Z"), Some(1_672_531_200));
    assert_eq!(parse_rfc3339_utc("2023-01-01T00:00:00.Z"), None);
    assert_eq!(parse_rfc3339_utc("2023-01-01T00:00:00.12aZ"), None);
}

#[test]
fn tolerates_a_leap_second() {
    assert_eq!(parse_rfc3339_utc("2016-12-31T23:59:60Z"), Some(1_483_228_800));
}

#[test]
fn rejects_non_utc_and_wrong_separators() {
    assert_eq!(parse_rfc3339_utc("2023-01-01"), None);
    assert_eq!(parse_rfc3339_utc("2023-01-01T00:00:00"), None);
    assert_eq!(parse_rfc3339_utc("2023-01-01T00:00:00+01:00"), None);
    assert_eq!(parse_rfc3339_utc("2021-11-14 22:13:20Z"), None);
    assert_eq!(parse_rfc3339_utc("2023/01/01T00:00:00Z"), None);
    assert_eq!(parse_rfc3339_utc("2023-01/01T00:00:00Z"), None);
    assert_eq!(parse_rfc3339_utc("2023-01-01T00-00:00Z"), None);
    assert_eq!(parse_rfc3339_utc("2023-01-01T00:00-00Z"), None);
    assert_eq!(parse_rfc3339_utc("2021-11-14-01T00:00:00Z"), None);
    assert_eq!(parse_rfc3339_utc("2021-11-14T00:00:00:00Z"), None);
}

#[test]
fn rejects_out_of_range_fields() {
    assert_eq!(parse_rfc3339_utc("2023-13-01T00:00:00Z"), None);
    assert_eq!(parse_rfc3339_utc("2023-00-14T00:00:00Z"), None);
    assert_eq!(parse_rfc3339_utc("2023-01-00T00:00:00Z"), None);
    assert_eq!(parse_rfc3339_utc("2023-01-32T00:00:00Z"), None);
    assert_eq!(parse_rfc3339_utc("2023-01-01T24:00:00Z"), None);
    assert_eq!(parse_rfc3339_utc("2023-01-01T00:60:00Z"), None);
    assert_eq!(parse_rfc3339_utc("2023-01-01T00:00:99Z"), None);
}

#[test]
fn rejects_non_numeric_or_misshaped_components() {
    assert_eq!(parse_rfc3339_utc("xxxx-11-14T00:00:00Z"), None);
    assert_eq!(parse_rfc3339_utc("2023-1-01T00:00:00Z"), None);
    assert_eq!(parse_rfc3339_utc("2023-01-1T00:00:00Z"), None);
    assert_eq!(parse_rfc3339_utc("2023-01-01T0:00:00Z"), None);
    assert_eq!(parse_rfc3339_utc("2023-01-01T+0:00:00Z"), None);
    assert_eq!(parse_rfc3339_utc("2023-01-01T00:00:+0Z"), None);
}

#[test]
fn rejects_invalid_day_of_month_that_used_to_roll_forward() {
    assert_eq!(parse_rfc3339_utc("2023-02-31T00:00:00Z"), None);
    assert_eq!(parse_rfc3339_utc("2023-02-30T00:00:00Z"), None);
    assert_eq!(parse_rfc3339_utc("2023-02-29T00:00:00Z"), None);
    assert_eq!(parse_rfc3339_utc("2023-04-31T00:00:00Z"), None);
    assert_eq!(parse_rfc3339_utc("2023-06-31T00:00:00Z"), None);
    assert_eq!(parse_rfc3339_utc("2023-09-31T00:00:00Z"), None);
    assert_eq!(parse_rfc3339_utc("2023-11-31T00:00:00Z"), None);
}

#[test]
fn accepts_valid_day_of_month_including_leap_day() {
    assert_eq!(parse_rfc3339_utc("2020-02-29T00:00:00Z"), Some(1_582_934_400));
    assert_eq!(parse_rfc3339_utc("2023-01-31T00:00:00Z"), Some(1_675_123_200));
    assert_eq!(parse_rfc3339_utc("2023-04-30T00:00:00Z"), Some(1_682_812_800));
    assert_eq!(parse_rfc3339_utc("2023-02-28T00:00:00Z"), Some(1_677_542_400));
}

#[test]
fn leap_year_rule_handles_century_boundaries() {
    assert!(is_leap_year(2000));
    assert_eq!(parse_rfc3339_utc("2000-02-29T00:00:00Z"), Some(951_782_400));
    assert!(!is_leap_year(1900));
    assert_eq!(parse_rfc3339_utc("1900-02-29T00:00:00Z"), None);
    assert!(!is_leap_year(2100));
    assert_eq!(parse_rfc3339_utc("2100-02-29T00:00:00Z"), None);
    assert!(is_leap_year(2024));
}

#[test]
fn civil_to_unix_handles_pre_epoch_and_leap_years() {
    assert_eq!(civil_to_unix(1969, 12, 31, 0, 0, 0), Some(-86_400));
    assert_eq!(civil_to_unix(2020, 2, 29, 0, 0, 0), Some(1_582_934_400));
}

#[test]
fn civil_to_unix_returns_none_on_overflow_rather_than_panicking() {
    assert_eq!(civil_to_unix(i64::MAX, 6, 15, 0, 0, 0), None);
    assert_eq!(civil_to_unix(i64::MIN, 6, 15, 0, 0, 0), None);
}

#[test]
fn rejects_year_outside_the_four_digit_date_fullyear() {
    assert_eq!(parse_rfc3339_utc("10000-01-01T00:00:00Z"), None);
    assert_eq!(parse_rfc3339_utc("999999-01-01T00:00:00Z"), None);
    assert_eq!(parse_rfc3339_utc("9223372036854775807-01-01T00:00:00Z"), None);
    assert_eq!(parse_rfc3339_utc("999-01-01T00:00:00Z"), None);
    assert_eq!(parse_rfc3339_utc("-001-01-01T00:00:00Z"), None);
}

#[test]
fn accepts_the_four_digit_year_boundaries() {
    assert_eq!(parse_rfc3339_utc("0000-01-01T00:00:00Z"), Some(-62_167_219_200));
    assert_eq!(parse_rfc3339_utc("9999-12-31T23:59:59Z"), Some(253_402_300_799));
}

#[test]
fn a_month_or_a_day_that_overflows_is_refused() {
    assert_eq!(civil_to_unix(2023, i64::MAX, 1, 0, 0, 0), None);
    assert_eq!(civil_to_unix(2023, i64::MIN, 1, 0, 0, 0), None);
    assert_eq!(civil_to_unix(2023, 1, i64::MAX, 0, 0, 0), None);
    assert_eq!(civil_to_unix(2023, 1, i64::MIN, 0, 0, 0), None);
    assert_eq!(civil_to_unix(2023, 1, 1, i64::MAX, 0, 0), None);
    assert_eq!(civil_to_unix(2023, 1, 1, 0, i64::MIN, 0), None);
    assert_eq!(civil_to_unix(2023, 1, 1, 0, 0, i64::MAX), None);
}

#[test]
fn a_month_or_a_day_beyond_the_last_rolls_forward() {
    let seconds = |month: i64, day: i64| civil_to_unix(2023, month, day, 0, 0, 0);
    assert_eq!(seconds(2, 30), seconds(3, 2));
    assert_eq!(seconds(1, 0), civil_to_unix(2022, 12, 31, 0, 0, 0));
    assert_eq!(seconds(14, 1), civil_to_unix(2024, 2, 1, 0, 0, 0));
}

#[test]
fn a_field_has_its_width_and_fits() {
    let chars = |text: &str| text.chars().collect::<Vec<char>>();
    assert_eq!(parse_fixed_width(&chars("0042"), 4), Some(42));
    assert_eq!(parse_fixed_width(&chars("042"), 4), None);
    assert_eq!(parse_fixed_width(&chars("+42"), 3), None);
    assert_eq!(parse_fixed_width(&chars(""), 0), None);
    assert_eq!(parse_fixed_width(&chars("9223372036854775807"), 19), Some(i64::MAX));
    assert_eq!(parse_fixed_width(&chars("9223372036854775808"), 19), None);
    assert_eq!(parse_fixed_width(&chars("00000000000000000000007"), 23), Some(7));
}
