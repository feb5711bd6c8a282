use std::str::FromStr;

use safe_decimal::SafeDecimal;

fn dec(integral: u32, fractional: u32) -> SafeDecimal {
    SafeDecimal::new(integral, fractional).unwrap()
}

#[test]
fn json_number_of_a_fraction() {
    let number = dec(123, 450_000).to_json_number().unwrap();
    assert_eq!(number, serde_json::Number::from_f64(123.45).unwrap());
    assert!(number.is_f64());
    assert_eq!(serde_json::to_string(&number).unwrap(), "123.45");
}

#[test]
fn json_number_of_a_whole_number() {
    let number = dec(5, 0).to_json_number().unwrap();
    assert_eq!(number, serde_json::Number::from(5u64));
    assert!(number.is_u64());
    assert_eq!(serde_json::to_string(&number).unwrap(), "5");
}

#[test]
fn json_number_is_no_string() {
    let number = dec(123, 450_000).to_json_number().unwrap();
    let value = serde_json::Value::Number(number);
    assert!(value.is_number());
    assert_ne!(value, serde_json::Value::String("123.45".to_string()));
}

#[test]
fn json_number_at_the_ends_of_the_range() {
    assert_eq!(dec(0, 0).to_json_number().unwrap(), serde_json::Number::from(0u64));
    assert_eq!(
        dec(0, 1).to_json_number().unwrap(),
        serde_json::Number::from_f64(0.000001).unwrap()
    );
    assert_eq!(
        dec(999_999_999, 999_999).to_json_number().unwrap(),
        serde_json::Number::from_f64(999999999.999999).unwrap()
    );
    assert_eq!(
        dec(999_999_999, 0).to_json_number().unwrap(),
        serde_json::Number::from(999_999_999u64)
    );
}

#[test]
fn json_string_comes_in_through_from_str() {
    let json = serde_json::Value::String("123.45".to_string());
    let decimal = SafeDecimal::from_str(json.as_str().unwrap()).unwrap();
    assert_eq!(decimal, dec(123, 450_000));
    let json = serde_json::Value::String("invalid".to_string());
    let error = SafeDecimal::from_str(json.as_str().unwrap()).unwrap_err();
    assert_eq!(error.to_string(), "invalid digit found in string");
}
