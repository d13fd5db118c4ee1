use gol::padding::{Padding, ParseError};
use gol::text::IntError;

#[test]
fn padding_can_parse_single_value() {
    let expected = Ok(Padding::new(10, 10, 10, 10));
    let actual = Padding::from_str("10");
    assert_eq!(expected, actual);
}

#[test]
fn padding_can_parse_two_values() {
    let expected = Ok(Padding::new(10, 20, 10, 20));
    let actual = Padding::from_str("10,20");
    assert_eq!(expected, actual);
}

#[test]
fn padding_can_parse_three_values() {
    let expected = Ok(Padding::new(10, 20, 30, 20));
    let actual = Padding::from_str("10,20,30");
    assert_eq!(expected, actual);
}

#[test]
fn padding_can_parse_four_values() {
    let expected = Ok(Padding::new(10, 20, 30, 40));
    let actual = Padding::from_str("10,20,30,40");
    assert_eq!(expected, actual);
}

#[test]
fn padding_can_ignore_whitespace() {
    let expected = Ok(Padding::new(10, 20, 30, 40));
    let actual = Padding::from_str(" 10 , 20 , 30 , 40 ");
    assert_eq!(expected, actual);
}

#[test]
fn padding_fails_with_more_than_five_values() {
    let expected: Result<Padding, ParseError> = Err(ParseError::TooManyParts);
    let actual = Padding::from_str("10,20,30,40,60");
    assert_eq!(expected, actual);
}

#[test]
fn fails_with_empty_string() {
    // An empty part cannot be read as an integer.
    let actual = Padding::from_str("");
    assert!(actual.is_err());
    assert_eq!(actual, Err(ParseError::InvalidPart(IntError::Empty)));
}

#[test]
fn padding_fails_with_invalid_value() {
    // A part with a non-digit character cannot be read as an integer.
    let actual = Padding::from_str("1,this isn't an int");
    assert!(actual.is_err());
    assert_eq!(actual, Err(ParseError::InvalidPart(IntError::InvalidDigit)));
}

#[test]
fn fails_with_too_large_value() {
    let actual = Padding::from_str("99999999999999999999999999999999");
    assert_eq!(actual, Err(ParseError::InvalidPart(IntError::Overflow)));
}
