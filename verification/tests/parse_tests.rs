use foo_record::parse::ParseError;
use foo_record::parse::parse_u8;

#[test]
fn parse_simple() {
    assert_eq!(parse_u8("30"), Ok(30));
}

#[test]
fn parse_zero() {
    assert_eq!(parse_u8("0"), Ok(0));
}

#[test]
fn parse_top_of_range() {
    assert_eq!(parse_u8("255"), Ok(255));
}

#[test]
fn parse_leading_zeros() {
    assert_eq!(parse_u8("007"), Ok(7));
}

#[test]
fn parse_leading_plus() {
    assert_eq!(parse_u8("+42"), Ok(42));
}

#[test]
fn parse_empty() {
    assert_eq!(parse_u8(""), Err(ParseError::Empty));
}

#[test]
fn parse_lone_plus() {
    assert_eq!(parse_u8("+"), Err(ParseError::InvalidDigit));
}

#[test]
fn parse_minus_is_invalid() {
    assert_eq!(parse_u8("-1"), Err(ParseError::InvalidDigit));
}

#[test]
fn parse_letters() {
    assert_eq!(parse_u8("abc"), Err(ParseError::InvalidDigit));
}

#[test]
fn parse_trailing_garbage() {
    assert_eq!(parse_u8("12a"), Err(ParseError::InvalidDigit));
}

#[test]
fn parse_overflow() {
    assert_eq!(parse_u8("256"), Err(ParseError::Overflow));
}

#[test]
fn parse_overflow_before_invalid_digit() {
    assert_eq!(parse_u8("999x"), Err(ParseError::Overflow));
}

#[test]
fn parse_matches_std() {
    for s in ["", "+", "-1", "0", "007", "+42", "30", "120", "121", "255", "256", "999x", "abc", "12a", " 5", "5 "] {
        let std_result = s.parse::<u8>();
        match parse_u8(s) {
            Ok(v) => assert_eq!(std_result, Ok(v)),
            Err(e) => {
                let std_err = std_result.unwrap_err();
                assert_eq!(e.message(), std_err.to_string());
            }
        }
    }
}

#[test]
fn message_empty() {
    assert_eq!(ParseError::Empty.message(), "cannot parse integer from empty string");
}

#[test]
fn message_invalid_digit() {
    assert_eq!(ParseError::InvalidDigit.message(), "invalid digit found in string");
}

#[test]
fn message_overflow() {
    assert_eq!(ParseError::Overflow.message(), "number too large to fit in target type");
}
