use rest_cli::error::{format_error, push_decimal};
use rest_cli::ParseError;

#[test]
fn message_of_each_error() {
    assert_eq!(
        ParseError::MissingLocation(2).message(),
        "Error (line 2): Expected location"
    );
    assert_eq!(
        ParseError::MissingHost(1).message(),
        "Error (line 1): Expected host"
    );
    assert_eq!(
        ParseError::InvalidHeader(3).message(),
        "Error (line 3): Invalid header syntax"
    );
    assert_eq!(
        ParseError::InvalidMethod(40, "FETCH".to_string()).message(),
        "Error (line 40): Invalid method: FETCH"
    );
}

#[test]
fn line_of_each_error() {
    assert_eq!(ParseError::MissingLocation(2).line(), 2);
    assert_eq!(ParseError::MissingHost(11).line(), 11);
    assert_eq!(ParseError::InvalidHeader(3).line(), 3);
    assert_eq!(ParseError::InvalidMethod(40, "X".to_string()).line(), 40);
}

#[test]
fn numbers_are_written_in_decimal() {
    for n in [0usize, 1, 9, 10, 11, 99, 100, 101, 1234567890, usize::MAX] {
        let mut text = String::from("n=");
        push_decimal(&mut text, n);
        assert_eq!(text, format!("n={}", n));
    }
}

#[test]
fn format_error_puts_line_and_message_together() {
    assert_eq!(format_error(7, "what"), "Error (line 7): what");
    assert_eq!(format_error(120, ""), "Error (line 120): ");
    assert_eq!(
        format_error(usize::MAX, "x"),
        format!("Error (line {}): x", usize::MAX)
    );
}
