use gmon::error::GMONError;
use gmon::nv_gpu::{ValidValue, Value};

#[test]
fn parse_int_with_unit() {
    let v = Value::parse("512 MiB").unwrap();
    assert_eq!(v.val, ValidValue::Int(512));
    assert_eq!(v.unit.as_deref(), Some("MiB"));
}

#[test]
fn parse_int_without_unit() {
    let v = Value::parse("87").unwrap();
    assert_eq!(v.val, ValidValue::Int(87));
    assert!(v.unit.is_none());
}

#[test]
fn parse_negative_int() {
    let v = Value::parse("-42 C").unwrap();
    assert_eq!(v.val, ValidValue::Int(-42));
    assert_eq!(v.render(), "-42C");
}

#[test]
fn roundtrip_int_preserves_numeric_text() {
    let v = Value::parse("43 C").unwrap();
    assert_eq!(v.render(), "43C");
}

#[test]
fn roundtrip_decimal_preserves_trailing_zeros() {
    // The chosen normalization: none — the parsed digits are kept exactly.
    let v = Value::parse("215.50 W").unwrap();
    assert_eq!(v.render(), "215.50W");
}

#[test]
fn roundtrip_decimal_preserves_fraction_leading_zero() {
    let v = Value::parse("12.05 W").unwrap();
    assert_eq!(v.render(), "12.05W");
}

#[test]
fn parse_sentinel_yields_unavailable_and_renders_na() {
    let v = Value::parse("-1").unwrap();
    assert_eq!(v.val, ValidValue::Unavailable);
    assert!(v.unit.is_none());
    assert_eq!(v.render(), "N/A");
}

#[test]
fn parse_sentinel_with_unit_is_unavailable() {
    let v = Value::parse("-1 MiB").unwrap();
    assert_eq!(v.val, ValidValue::Unavailable);
    assert_eq!(v.render(), "N/A");
}

#[test]
fn sentinel_value_renders_na_even_with_unit() {
    let v = Value { val: ValidValue::Int(-1), unit: Some("W".to_string()) };
    assert_eq!(v.render(), "N/A");
}

#[test]
fn parse_na_token_is_unavailable() {
    let v = Value::parse("N/A").unwrap();
    assert_eq!(v.val, ValidValue::Unavailable);
}

#[test]
fn parse_empty_is_unavailable() {
    let v = Value::parse("").unwrap();
    assert_eq!(v.val, ValidValue::Unavailable);
}

#[test]
fn parse_three_parts_is_unavailable_never_zero() {
    let v = Value::parse("1 2 3").unwrap();
    assert_eq!(v.val, ValidValue::Unavailable);
}

#[test]
fn parse_nonnumeric_leading_token_is_malformed() {
    assert_eq!(Value::parse("abc MiB").unwrap_err(), GMONError::MalformedValue);
    assert_eq!(Value::parse("xyz").unwrap_err(), GMONError::MalformedValue);
}

#[test]
fn parse_overlong_numeral_is_malformed() {
    assert_eq!(
        Value::parse("999999999999999999999").unwrap_err(),
        GMONError::MalformedValue
    );
}

#[test]
fn rounding_is_half_away_from_zero() {
    assert_eq!(Value::parse("215.50 W").unwrap().val_as_isize(), 216);
    assert_eq!(Value::parse("2.4").unwrap().val_as_isize(), 2);
    assert_eq!(Value::parse("-2.5").unwrap().val_as_isize(), -3);
    assert_eq!(Value::parse("7").unwrap().val_as_isize(), 7);
}

#[test]
fn parse_zero_roundtrips() {
    let v = Value::parse("0").unwrap();
    assert_eq!(v.val, ValidValue::Int(0));
    assert_eq!(v.render(), "0");
}

#[test]
fn parse_negative_decimal_roundtrips() {
    let v = Value::parse("-0.5 W").unwrap();
    assert_eq!(v.render(), "-0.5W");
    assert_eq!(v.val_as_isize(), -1);
}

#[test]
fn error_messages_are_nonempty() {
    for e in [
        GMONError::NvmlInitError,
        GMONError::BackendUnavailable,
        GMONError::DeviceNotFound,
        GMONError::QueryError,
        GMONError::RuntimeUnavailable,
        GMONError::MalformedValue,
    ] {
        assert!(!e.message().is_empty());
    }
}
