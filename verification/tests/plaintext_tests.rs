use gol::grid::Cell::{Dead, Live};
use gol::plaintext::{parse_plaintext, Error, Padding};

#[test]
fn plaintext_can_parse_single_value() {
    let expected = Ok(Padding::new(10, 10, 10, 10));
    let actual = Padding::from_str("10");
    assert_eq!(expected, actual)
}

#[test]
fn plaintext_can_parse_two_values() {
    let expected = Ok(Padding::new(10, 20, 10, 20));
    let actual = Padding::from_str("10,20");
    assert_eq!(expected, actual)
}

#[test]
fn plaintext_can_parse_three_values() {
    let expected = Ok(Padding::new(10, 20, 30, 20));
    let actual = Padding::from_str("10,20,30");
    assert_eq!(expected, actual)
}

#[test]
fn plaintext_can_parse_four_values() {
    let expected = Ok(Padding::new(10, 20, 30, 40));
    let actual = Padding::from_str("10,20,30,40");
    assert_eq!(expected, actual)
}

#[test]
fn plaintext_can_ignore_whitespace() {
    let expected = Ok(Padding::new(10, 20, 30, 40));
    let actual = Padding::from_str(" 10 , 20 , 30 , 40 ");
    assert_eq!(expected, actual)
}

#[test]
fn plaintext_fails_with_more_than_five_values() {
    let expected = Err(());
    let actual = Padding::from_str("10,20,30,40,60");
    assert_eq!(expected, actual)
}

#[test]
fn fails_with_no_values() {
    let expected = Err(());
    let actual = Padding::from_str("");
    assert_eq!(expected, actual)
}

#[test]
fn plaintext_fails_with_invalid_value() {
    let expected = Err(());
    let actual = Padding::from_str("1,this isn't an int");
    assert_eq!(expected, actual)
}

#[test]
fn plaintext_can_parse_simple_plaintext() {
    const PLAINTEXT: &'static str = "!Name: Tumbler
!
! This is a comment
.O
O.
";

    let result = parse_plaintext(PLAINTEXT);

    assert!(result.is_ok(), "Result is not Ok");

    let value = result.unwrap();

    assert_eq!(value.name, "Tumbler");
    assert_eq!(value.comment, "This is a comment");
    assert_eq!(value.data.width(), 2);
    assert_eq!(value.data.height(), 2);

    let expected = vec![
        Dead, Live, //
        Live, Dead, //
    ];

    assert_eq!(value.data.cells(), &expected);
}

#[test]
fn can_parse_simple_plaintext_with_padding() {
    const PLAINTEXT: &'static str = "!Name: Tumbler
!Padding: 1,2
!
! This is a comment
!
.O
O.
";

    let result = parse_plaintext(PLAINTEXT);

    assert!(result.is_ok(), "Result is not Ok");

    let value = result.unwrap();

    assert_eq!(value.name, "Tumbler");
    assert_eq!(value.comment, "This is a comment\n");
    assert_eq!(value.data.width(), 4 + 2);
    assert_eq!(value.data.height(), 2 + 2);

    let expected = vec![
        Dead, Dead, Dead, Dead, Dead, Dead, //
        Dead, Dead, Dead, Live, Dead, Dead, //
        Dead, Dead, Live, Dead, Dead, Dead, //
        Dead, Dead, Dead, Dead, Dead, Dead, //
    ];

    assert_eq!(value.data.cells(), &expected);
}

#[test]
fn can_exclude_comment() {
    const PLAINTEXT: &'static str = "!Name: Tumbler\n.";

    let result = parse_plaintext(PLAINTEXT);

    assert!(result.is_ok(), "Result is not Ok");

    let value = result.unwrap();

    assert_eq!(value.name, "Tumbler");
    assert_eq!(value.comment, "");
}

#[test]
fn parse_fails_when_name_missing() {
    const PLAINTEXT: &'static str = ".";

    let result = parse_plaintext(PLAINTEXT);

    assert!(!result.is_ok(), "Result is Ok");
}

#[test]
fn plaintext_parse_fails_when_invalid_chars_in_body() {
    const PLAINTEXT: &'static str = "...\nOzO\n...";

    let result = parse_plaintext(PLAINTEXT);

    assert!(!result.is_ok(), "Result is Ok");
}

#[test]
fn name_missing_is_its_own_error() {
    assert_eq!(parse_plaintext(".").unwrap_err(), Error::NameLineMissing);
}

#[test]
fn body_width_mismatch_is_invalid() {
    let result = parse_plaintext("!Name: X\n.O\nO.O\n");
    assert_eq!(result.unwrap_err(), Error::Invalid);
}

#[test]
fn body_bad_character_is_invalid() {
    let result = parse_plaintext("!Name: X\n.O\nOz\n");
    assert_eq!(result.unwrap_err(), Error::Invalid);
}

#[test]
fn unreadable_padding_line_is_ignored() {
    let result = parse_plaintext("!Name: X\n!Padding: nonsense\n.O\nO.\n").unwrap();
    assert_eq!(result.data.width(), 2);
    assert_eq!(result.data.height(), 2);
}

#[test]
fn empty_input_parses_to_an_empty_pattern() {
    let result = parse_plaintext("").unwrap();
    assert_eq!(result.name, "");
    assert_eq!(result.comment, "");
    assert_eq!(result.data.width(), 0);
    assert_eq!(result.data.height(), 0);
}

#[test]
fn later_padding_line_replaces_an_earlier_one() {
    let result = parse_plaintext("!Name: X\n!Padding: 5\n!Padding: 1\n.\n").unwrap();
    assert_eq!(result.data.width(), 3);
    assert_eq!(result.data.height(), 3);
}
