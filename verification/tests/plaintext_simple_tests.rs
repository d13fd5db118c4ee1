use gol::grid::Cell::{Dead as X, Live as O};
use gol::plaintext_simple::{parse_plaintext, sub_string_from, ParseError};

#[test]
fn sub_string_from_tests() {
    assert_eq!(Some("a"), sub_string_from("a", 0));

    assert_eq!(None, sub_string_from("", 0));
    assert_eq!(None, sub_string_from("", 1));

    assert_eq!(Some("abc"), sub_string_from("abc", 0));
    assert_eq!(Some("bc"), sub_string_from("abc", 1));
    assert_eq!(None, sub_string_from("abc", 3));
    assert_eq!(None, sub_string_from("abc", 4));
}

#[test]
fn mod_can_parse_simple_plaintext() {
    const PLAINTEXT: &'static str = "!Name: Tumbler
!
! This is a comment
.O
O.
";

    let result = parse_plaintext(PLAINTEXT);

    assert!(result.is_ok(), "Result is not Ok");

    let value = result.unwrap();

    assert_eq!(value.comment, "Name: Tumbler\n\nThis is a comment");
    assert_eq!(value.grid.width(), 2);
    assert_eq!(value.grid.height(), 2);

    let expected = vec![
        X, O, //
        O, X, //
    ];

    assert_eq!(value.grid.cells(), &expected);
}

#[test]
fn can_parse_simple_plaintext2() {
    const PLAINTEXT: &'static str = "!Name: Tumbler
!
! This is a comment
!
.O
O.
";

    let result = parse_plaintext(PLAINTEXT);

    assert!(result.is_ok(), "Result is not Ok");

    let value = result.unwrap();

    assert_eq!(value.comment, "Name: Tumbler\n\nThis is a comment\n");
    assert_eq!(value.grid.width(), 2);
    assert_eq!(value.grid.height(), 2);

    let expected = vec![
        X, O, //
        O, X, //
    ];

    assert_eq!(value.grid.cells(), &expected);
}

#[test]
fn can_parse_simple_plaintext_with_leading_whitespace() {
    const PLAINTEXT: &'static str = "
            !Name: Glider
            !
            ! This is a comment
            .O.
            ..O
            OOO
        ";

    let result = parse_plaintext(PLAINTEXT);

    assert!(result.is_ok(), "Result is not Ok");

    let value = result.unwrap();

    assert_eq!(value.comment, "Name: Glider\n\nThis is a comment");
    assert_eq!(value.grid.width(), 3);
    assert_eq!(value.grid.height(), 3);

    let expected = vec![
        X, O, X, //
        X, X, O, //
        O, O, O, //
    ];

    assert_eq!(value.grid.cells(), &expected);
}

#[test]
fn can_parse_single_cell() {
    const PLAINTEXT: &'static str = "!Name: Tumbler\n.";

    let result = parse_plaintext(PLAINTEXT);

    assert!(result.is_ok(), "Result is not Ok");

    let value = result.unwrap();

    assert_eq!(value.comment, "Name: Tumbler");
    assert_eq!(value.grid.width(), 1);
    assert_eq!(value.grid.height(), 1);
    assert_eq!(value.grid.cells(), &vec![X]);
}

#[test]
fn mod_parse_fails_when_invalid_chars_in_body() {
    const PLAINTEXT: &'static str = "...\nOzO\n...";

    let result = parse_plaintext(PLAINTEXT);

    assert!(!result.is_ok(), "Result is Ok");
}

#[test]
fn comment_lines_may_follow_body_lines() {
    let result = parse_plaintext(".O\n! afterthought\nO.\n").unwrap();
    assert_eq!(result.comment, "afterthought");
    assert_eq!(result.grid.width(), 2);
    assert_eq!(result.grid.height(), 2);
}

#[test]
fn mismatched_row_width_is_invalid() {
    let result = parse_plaintext(".O\nO.O\n");
    assert_eq!(result.unwrap_err(), ParseError::Invalid);
}
