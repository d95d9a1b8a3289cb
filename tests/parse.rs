use datetime::format::DateFormat;
use datetime::format::Field::{Day, Literal, MonthName, Year};
use datetime::format::FormatError;

#[test]
fn empty_string() {
    assert_eq!(DateFormat::parse("").unwrap(), DateFormat { fields: vec![] })
}

#[test]
fn entirely_literal() {
    assert_eq!(DateFormat::parse("Date!").unwrap(), DateFormat { fields: vec![Literal("Date!")] })
}

#[test]
fn single_element() {
    assert_eq!(DateFormat::parse("{:Y}").unwrap(), DateFormat { fields: vec![Year] })
}

#[test]
fn two_long_years() {
    assert_eq!(DateFormat::parse("{:Y}{:Y}").unwrap(), DateFormat { fields: vec![Year, Year] })
}

#[test]
fn surrounded() {
    assert_eq!(
        DateFormat::parse("({:D})").unwrap(),
        DateFormat { fields: vec![Literal("("), Day, Literal(")")] }
    )
}

#[test]
fn a_bunch_of_elements() {
    assert_eq!(
        DateFormat::parse("{:Y}-{:M}-{:D}").unwrap(),
        DateFormat { fields: vec![Year, Literal("-"), MonthName(true), Literal("-"), Day] }
    )
}

#[test]
fn missing_field() {
    assert_eq!(DateFormat::parse("{}"), Err(FormatError::MissingField(0)))
}

#[test]
fn invalid_char() {
    assert_eq!(DateFormat::parse("{7}"), Err(FormatError::InvalidChar('7', false, 1)))
}

#[test]
fn invalid_char_after_colon() {
    assert_eq!(DateFormat::parse("{:7}"), Err(FormatError::InvalidChar('7', true, 2)))
}

#[test]
fn open_curly_brace() {
    assert_eq!(DateFormat::parse("{"), Err(FormatError::OpenCurlyBrace(0)))
}

#[test]
fn mystery_close_brace() {
    assert_eq!(DateFormat::parse("}"), Err(FormatError::CloseCurlyBrace(0)))
}

#[test]
fn another_mystery_close_brace() {
    assert_eq!(DateFormat::parse("This is a test: }"), Err(FormatError::CloseCurlyBrace(16)))
}
