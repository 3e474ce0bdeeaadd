use pycom_wrap::int_parse::{parse_i64_radix, parse_u32, parse_usize_bytes, usize_to_decimal, IntErrorKind};

fn chars(s: &str) -> Vec<char> {
    s.chars().collect()
}

#[test]
fn radix_parsing() {
    assert_eq!(parse_i64_radix(&chars("2f"), 16), Ok(47));
    assert_eq!(parse_i64_radix(&chars("-101"), 2), Ok(-5));
    assert_eq!(parse_i64_radix(&chars("+12"), 8), Ok(10));
    assert_eq!(parse_i64_radix(&chars("9223372036854775807"), 10), Ok(i64::MAX));
    assert_eq!(parse_i64_radix(&chars("-9223372036854775808"), 10), Ok(i64::MIN));
}

#[test]
fn radix_parsing_errors() {
    assert_eq!(parse_i64_radix(&chars(""), 10), Err(IntErrorKind::Empty));
    assert_eq!(parse_i64_radix(&chars("-"), 10), Err(IntErrorKind::InvalidDigit));
    assert_eq!(parse_i64_radix(&chars("12a"), 10), Err(IntErrorKind::InvalidDigit));
    assert_eq!(parse_i64_radix(&chars("9223372036854775808"), 10), Err(IntErrorKind::PosOverflow));
    assert_eq!(parse_i64_radix(&chars("-9223372036854775809"), 10), Err(IntErrorKind::NegOverflow));
}

#[test]
fn unsigned_parsing() {
    assert_eq!(parse_u32(&chars("4294967295")), Ok(u32::MAX));
    assert_eq!(parse_u32(&chars("4294967296")), Err(IntErrorKind::PosOverflow));
    assert_eq!(parse_u32(&chars("-1")), Err(IntErrorKind::InvalidDigit));
    assert_eq!(parse_usize_bytes(b"16"), Ok(16));
}

#[test]
fn error_messages() {
    assert_eq!(IntErrorKind::Empty.message(), "cannot parse integer from empty string");
    assert_eq!(IntErrorKind::InvalidDigit.message(), "invalid digit found in string");
    assert_eq!(IntErrorKind::PosOverflow.message(), "number too large to fit in target type");
    assert_eq!(IntErrorKind::NegOverflow.message(), "number too small to fit in target type");
}

#[test]
fn decimal_round_trip() {
    assert_eq!(usize_to_decimal(0), b"0".to_vec());
    assert_eq!(usize_to_decimal(1207), b"1207".to_vec());
    assert_eq!(parse_usize_bytes(&usize_to_decimal(98765)), Ok(98765));
}
