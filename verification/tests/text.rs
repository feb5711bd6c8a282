use std::str::FromStr;

use safe_decimal::{Error, IntErrorKind, SafeDecimal};

fn dec(integral: u32, fractional: u32) -> SafeDecimal {
    SafeDecimal::new(integral, fractional).unwrap()
}

fn parse(text: &str) -> Result<SafeDecimal, Error> {
    SafeDecimal::from_str(text)
}

#[test]
fn display_is_the_shortest_form() {
    assert_eq!(dec(123, 456_789).to_string(), "123.456789");
    assert_eq!(dec(5, 0).to_string(), "5");
    assert_eq!(dec(0, 0).to_string(), "0");
    assert_eq!(dec(123, 456_000).to_string(), "123.456");
    assert_eq!(dec(123, 450_000).to_string(), "123.45");
    assert_eq!(dec(0, 1).to_string(), "0.000001");
    assert_eq!(dec(0, 100_000).to_string(), "0.1");
    assert_eq!(dec(10, 10).to_string(), "10.00001");
    assert_eq!(dec(1_000, 1_000).to_string(), "1000.001");
    assert_eq!(dec(999_999_999, 999_999).to_string(), "999999999.999999");
    assert_eq!(dec(100, 0).to_string(), "100");
}

#[test]
fn parse_whole_numbers() {
    assert_eq!(parse("5"), Ok(dec(5, 0)));
    assert_eq!(parse("0"), Ok(dec(0, 0)));
    assert_eq!(parse("007"), Ok(dec(7, 0)));
    assert_eq!(parse("999999999"), Ok(dec(999_999_999, 0)));
    assert_eq!(parse("0000000000000000000012"), Ok(dec(12, 0)));
}

#[test]
fn parse_fractions() {
    assert_eq!(parse("0.5"), Ok(dec(0, 500_000)));
    assert_eq!(parse("1.500000"), Ok(dec(1, 500_000)));
    assert_eq!(parse("123.45"), Ok(dec(123, 450_000)));
    assert_eq!(parse("123.456789"), Ok(dec(123, 456_789)));
    assert_eq!(parse("0.000001"), Ok(dec(0, 1)));
    assert_eq!(parse("0.05"), Ok(dec(0, 50_000)));
    assert_eq!(parse("3.0"), Ok(dec(3, 0)));
    assert_eq!(parse("3.000000"), Ok(dec(3, 0)));
    assert_eq!(parse("999999999.999999"), Ok(dec(999_999_999, 999_999)));
}

#[test]
fn parse_drops_zeros_at_the_end_of_the_fraction() {
    assert_eq!(parse("1.5000000000000000000000000"), Ok(dec(1, 500_000)));
    assert_eq!(parse("1.1234560"), Ok(dec(1, 123_456)));
    assert_eq!(parse("1.00000000000"), Ok(dec(1, 0)));
}

#[test]
fn parse_refuses_more_than_six_digits_of_fraction() {
    assert_eq!(parse("1.1234567"), Err(Error::Overflow {}));
    assert_eq!(parse("1.0000001"), Err(Error::Overflow {}));
    assert_eq!(parse("1.000000000001"), Err(Error::Overflow {}));
    assert_eq!(parse("1.123456789"), Err(Error::Overflow {}));
    assert_eq!(
        parse("1.99999999999"),
        Err(Error::ParseInt(IntErrorKind::PosOverflow))
    );
}

#[test]
fn parse_refuses_a_whole_part_out_of_range() {
    assert_eq!(parse("1000000000"), Err(Error::Overflow {}));
    assert_eq!(parse("4294967295"), Err(Error::Overflow {}));
    assert_eq!(parse("1000000000.5"), Err(Error::Overflow {}));
    assert_eq!(parse("4294967296"), Err(Error::ParseInt(IntErrorKind::PosOverflow)));
    assert_eq!(
        parse("99999999999999999999999"),
        Err(Error::ParseInt(IntErrorKind::PosOverflow))
    );
}

#[test]
fn parse_refuses_what_is_empty() {
    assert_eq!(parse(""), Err(Error::ParseInt(IntErrorKind::Empty)));
    assert_eq!(parse("."), Err(Error::ParseInt(IntErrorKind::Empty)));
    assert_eq!(parse(".5"), Err(Error::ParseInt(IntErrorKind::Empty)));
    assert_eq!(parse("1."), Err(Error::ParseInt(IntErrorKind::Empty)));
    assert_eq!(parse("1..5"), Err(Error::ParseInt(IntErrorKind::Empty)));
}

#[test]
fn parse_refuses_what_is_no_digit() {
    for text in [
        "abc", "+5", "-5", "+", "-", " 5", "5 ", "1_000", "1,5", "1e3", "0x10", "٣", "５",
        "1.+5", "1.-5", "1.5a", "1.a", "1. 5", "1.x.5", "x.1.5", "12a.5", "1.٣",
    ] {
        assert_eq!(
            parse(text),
            Err(Error::ParseInt(IntErrorKind::InvalidDigit)),
            "{text}"
        );
    }
}

#[test]
fn parse_refuses_a_second_point() {
    assert_eq!(parse("123.45.67"), Err(Error::UnexpectedFormat {}));
    assert_eq!(parse("1.2."), Err(Error::UnexpectedFormat {}));
    assert_eq!(parse("1.2.x"), Err(Error::UnexpectedFormat {}));
    assert_eq!(parse("1.2.3.4"), Err(Error::UnexpectedFormat {}));
    assert_eq!(parse("1000000000.1234567.8"), Err(Error::UnexpectedFormat {}));
}

#[test]
fn parse_reports_the_first_thing_wrong() {
    assert_eq!(
        parse("99999999999x"),
        Err(Error::ParseInt(IntErrorKind::PosOverflow))
    );
    assert_eq!(
        parse("x99999999999"),
        Err(Error::ParseInt(IntErrorKind::InvalidDigit))
    );
    assert_eq!(
        parse("4294967295x"),
        Err(Error::ParseInt(IntErrorKind::InvalidDigit))
    );
    assert_eq!(
        parse("99999999999.x"),
        Err(Error::ParseInt(IntErrorKind::PosOverflow))
    );
    assert_eq!(parse("x.1.2"), Err(Error::ParseInt(IntErrorKind::InvalidDigit)));
    assert_eq!(parse("1000000000.x"), Err(Error::ParseInt(IntErrorKind::InvalidDigit)));
    assert_eq!(parse("1000000000.1.2"), Err(Error::UnexpectedFormat {}));
}

#[test]
fn parse_agrees_with_the_integer_parser_of_std_on_unsigned_text() {
    for text in ["", "0", "42", "4294967295", "4294967296", "12x", "x12", "99999999999x", "-1"] {
        let ours = parse(text);
        match text.parse::<u32>() {
            Ok(value) => assert_eq!(ours, SafeDecimal::new(value, 0), "{text}"),
            Err(error) => {
                let kind = match error.kind() {
                    std::num::IntErrorKind::Empty => IntErrorKind::Empty,
                    std::num::IntErrorKind::InvalidDigit => IntErrorKind::InvalidDigit,
                    std::num::IntErrorKind::PosOverflow => IntErrorKind::PosOverflow,
                    other => panic!("{other:?}"),
                };
                assert_eq!(ours, Err(Error::ParseInt(kind)), "{text}");
                assert_eq!(ours.unwrap_err().to_string(), error.to_string(), "{text}");
            }
        }
    }
}

#[test]
fn parse_of_display_is_identity() {
    let mut magnitudes: Vec<u64> = vec![
        0,
        1,
        9,
        10,
        99_999,
        100_000,
        999_999,
        1_000_000,
        1_000_001,
        1_500_000,
        123_456_789,
        123_450_000,
        999_999_999_000_000,
        999_999_999_999_999,
    ];
    let mut state: u64 = 0x2545_f491_4f6c_dd1d;
    for _ in 0..2_000 {
        state ^= state << 13;
        state ^= state >> 7;
        state ^= state << 17;
        magnitudes.push(state % 1_000_000_000_000_000);
    }
    for magnitude in magnitudes {
        let decimal = dec((magnitude / 1_000_000) as u32, (magnitude % 1_000_000) as u32);
        let text = decimal.to_string();
        assert_eq!(parse(&text), Ok(decimal), "{text}");
        assert!(!text.ends_with('.'));
        assert_eq!(text.contains('.'), decimal.fractional() != 0);
        if text.contains('.') {
            assert!(!text.ends_with('0'));
        }
    }
}

#[test]
fn error_messages() {
    assert_eq!(Error::Overflow {}.to_string(), "Value exceeds max safe decimal");
    assert_eq!(Error::UnexpectedFormat {}.to_string(), "Unexpected decimal format");
    assert_eq!(Error::DivisionByZero {}.to_string(), "Division by zero");
    assert_eq!(
        Error::ParseInt(IntErrorKind::Empty).to_string(),
        "cannot parse integer from empty string"
    );
    assert_eq!(
        Error::ParseInt(IntErrorKind::InvalidDigit).to_string(),
        "invalid digit found in string"
    );
    assert_eq!(
        Error::ParseInt(IntErrorKind::PosOverflow).to_string(),
        "number too large to fit in target type"
    );
    assert_eq!(IntErrorKind::Empty.to_string(), "cannot parse integer from empty string");
}
