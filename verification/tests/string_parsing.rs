use pycom_wrap::string_parsing::{exponent_parts, markers_are_sliceable, ParseExponentStr};

/// A number in scientific notation read as a float: the coefficient times ten to the
/// exponent, the way the lexer's float reading does it.
fn parse_exponent_f64(value: &str) -> Result<f64, String> {
    assert!(markers_are_sliceable(value));
    let (coefficient_part, sign, exponent_part) = exponent_parts(value)?;
    let coefficient = coefficient_part.parse::<f64>().map_err(|e| e.to_string())?;
    let exponent = exponent_part.parse::<f64>().map_err(|e| e.to_string())?;
    if sign {
        Ok(coefficient * 10f64.powf(exponent))
    } else {
        Ok(coefficient / 10f64.powf(exponent))
    }
}

#[test]
fn test_cases() {
    assert_eq!(10000, i64::parse_exponent_str("10e3").unwrap());
    assert_eq!(10000.0, parse_exponent_f64("10.e3").unwrap());
    assert_eq!(10000.0, parse_exponent_f64("10.0e3").unwrap());
}

#[test]
fn negative_exponent_divides_toward_zero() {
    assert_eq!(-1, i64::parse_exponent_str("-15e-1").unwrap());
    assert_eq!(1, i64::parse_exponent_str("19E-1").unwrap());
    assert_eq!(0, i64::parse_exponent_str("5e-1").unwrap());
}

#[test]
fn exponent_parts_split_at_the_last_marker() {
    assert_eq!(exponent_parts("12e+5").unwrap(), ("12", true, "5"));
    assert_eq!(exponent_parts("12e-5").unwrap(), ("12", false, "5"));
    assert_eq!(exponent_parts("1e2e3").unwrap(), ("1e2", true, "3"));
    assert_eq!(exponent_parts("1e-2e3").unwrap(), ("1e-2", false, "3"));
}

#[test]
fn missing_parts_are_reported() {
    assert_eq!(exponent_parts("123").unwrap_err(), "Coefficient part is missing");
    assert_eq!(exponent_parts("e5").unwrap_err(), "Coefficient part is missing");
    assert_eq!(exponent_parts("1e+").unwrap_err(), "Exponent part is missing");
}

#[test]
fn unreadable_parts_give_the_integer_error() {
    assert_eq!(
        i64::parse_exponent_str("1xe3").unwrap_err(),
        "invalid digit found in string"
    );
    assert_eq!(
        i64::parse_exponent_str("1e-x").unwrap_err(),
        "invalid digit found in string"
    );
}

#[test]
fn marker_slicing_is_checked() {
    assert!(markers_are_sliceable("12e+5"));
    assert!(markers_are_sliceable("abc"));
    assert!(!markers_are_sliceable("éeé"));
    assert!(markers_are_sliceable("eé"));
}
