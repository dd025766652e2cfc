use gatewayapi::numbers::{parse_i64_str, parse_scaled_decimal};

#[test]
fn plain_decimals() {
    assert_eq!(parse_scaled_decimal("3.5"), Some(3_500_000));
    assert_eq!(parse_scaled_decimal("2"), Some(2_000_000));
    assert_eq!(parse_scaled_decimal("0"), Some(0));
    assert_eq!(parse_scaled_decimal("0.000123"), Some(123));
    assert_eq!(parse_scaled_decimal("-1.25"), Some(-1_250_000));
    assert_eq!(parse_scaled_decimal("-0"), Some(0));
}

#[test]
fn fractions_beyond_the_scale_truncate_toward_zero() {
    assert_eq!(parse_scaled_decimal("0.0000019"), Some(1));
    assert_eq!(parse_scaled_decimal("-0.0000019"), Some(-1));
    assert_eq!(parse_scaled_decimal("0.0000001"), Some(0));
}

#[test]
fn exponents() {
    assert_eq!(parse_scaled_decimal("1e3"), Some(1_000_000_000));
    assert_eq!(parse_scaled_decimal("1.5e2"), Some(150_000_000));
    assert_eq!(parse_scaled_decimal("123e-2"), Some(1_230_000));
    assert_eq!(parse_scaled_decimal("1.23e-7"), Some(0));
    assert_eq!(parse_scaled_decimal("2E1"), Some(20_000_000));
    assert_eq!(parse_scaled_decimal("2e+1"), Some(20_000_000));
    assert_eq!(parse_scaled_decimal("0e99999999999999999999"), Some(0));
    assert_eq!(parse_scaled_decimal("1e-99999999999999999999"), Some(0));
    assert_eq!(parse_scaled_decimal("1e99999999999999999999"), None);
}

#[test]
fn magnitude_limit() {
    // Ten billion whole units is the largest representable magnitude.
    assert_eq!(parse_scaled_decimal("10000000000"), Some(10_000_000_000_000_000));
    assert_eq!(parse_scaled_decimal("10000000000.1"), None);
    assert_eq!(parse_scaled_decimal("1e11"), None);
    assert_eq!(parse_scaled_decimal("-10000000000"), Some(-10_000_000_000_000_000));
}

#[test]
fn malformed_numbers_parse_to_nothing() {
    assert_eq!(parse_scaled_decimal(""), None);
    assert_eq!(parse_scaled_decimal("abc"), None);
    assert_eq!(parse_scaled_decimal("1."), None);
    assert_eq!(parse_scaled_decimal(".5"), None);
    assert_eq!(parse_scaled_decimal("1.5.2"), None);
    assert_eq!(parse_scaled_decimal("1e"), None);
    assert_eq!(parse_scaled_decimal("1e+"), None);
    assert_eq!(parse_scaled_decimal("--1"), None);
    assert_eq!(parse_scaled_decimal("1 "), None);
    assert_eq!(parse_scaled_decimal("\"123\""), None);
    assert_eq!(parse_scaled_decimal("null"), None);
}

#[test]
fn integer_parsing() {
    assert_eq!(parse_i64_str("1704105900123"), Some(1_704_105_900_123));
    assert_eq!(parse_i64_str("-5"), Some(-5));
    assert_eq!(parse_i64_str("0"), Some(0));
    assert_eq!(parse_i64_str("9223372036854775807"), Some(i64::MAX));
    assert_eq!(parse_i64_str("-9223372036854775808"), Some(i64::MIN));
}

#[test]
fn integer_parsing_rejects_fractions_and_overflow() {
    assert_eq!(parse_i64_str("12.5"), None);
    assert_eq!(parse_i64_str("1e3"), None);
    assert_eq!(parse_i64_str("9223372036854775808"), None);
    assert_eq!(parse_i64_str("-9223372036854775809"), None);
    assert_eq!(parse_i64_str(""), None);
    assert_eq!(parse_i64_str("-"), None);
    assert_eq!(parse_i64_str("99999999999999999999999"), None);
}
