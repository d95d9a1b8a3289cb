use datetime::format::Field::{Day, Literal, MonthName, WeekdayName, Year, YearOfCentury};
use datetime::format::{Alignment, Arguments, DateFormat, FormatError, LocalDate, Month, Weekday};

fn march_fourth() -> LocalDate {
    LocalDate { year: 2015, month: Month::March, day: 4, weekday: Weekday::Wednesday }
}

fn render(template: &str, date: LocalDate) -> String {
    DateFormat::parse(template).unwrap().format(date)
}

#[test]
fn empty_template_renders_empty() {
    assert_eq!(render("", march_fourth()), "");
}

#[test]
fn plain_text_renders_unchanged() {
    let text = "Today, as ever: ça va";
    assert_eq!(DateFormat::parse(text).unwrap(), DateFormat { fields: vec![Literal(text)] });
    assert_eq!(render(text, march_fourth()), text);
    let other = LocalDate { year: -44, month: Month::December, day: 31, weekday: Weekday::Sunday };
    assert_eq!(render(text, other), text);
}

#[test]
fn each_directive_alone() {
    assert_eq!(DateFormat::parse("{:Y}").unwrap().fields, vec![Year]);
    assert_eq!(DateFormat::parse("{:y}").unwrap().fields, vec![YearOfCentury]);
    assert_eq!(DateFormat::parse("{:M}").unwrap().fields, vec![MonthName(true)]);
    assert_eq!(DateFormat::parse("{:D}").unwrap().fields, vec![Day]);
    assert_eq!(DateFormat::parse("{:E}").unwrap().fields, vec![WeekdayName(true)]);
}

#[test]
fn each_directive_rendered() {
    let d = march_fourth();
    assert_eq!(render("{:Y}", d), "2015");
    assert_eq!(render("{:y}", d), "15");
    assert_eq!(render("{:M}", d), "March");
    assert_eq!(render("{:D}", d), "4");
    assert_eq!(render("{:E}", d), "Wednesday");
}

#[test]
fn short_names_rendered() {
    let d = march_fourth();
    assert_eq!(DateFormat { fields: vec![MonthName(false)] }.format(d), "Mar");
    assert_eq!(DateFormat { fields: vec![WeekdayName(false)] }.format(d), "Wed");
    let s = LocalDate { year: 2001, month: Month::September, day: 30, weekday: Weekday::Sunday };
    let f = DateFormat { fields: vec![WeekdayName(false), Literal(" "), MonthName(false)] };
    assert_eq!(f.format(s), "Sun Sep");
}

#[test]
fn full_date_rendered() {
    let d = march_fourth();
    assert_eq!(render("{:E}, {:D} {:M} {:Y}", d), "Wednesday, 4 March 2015");
    assert_eq!(render("({:D})", d), "(4)");
}

#[test]
fn year_forms() {
    let d = LocalDate { year: 1900, month: Month::January, day: 1, weekday: Weekday::Monday };
    assert_eq!(render("{:Y}/{:y}", d), "1900/0");
    let e = LocalDate { year: -7, month: Month::June, day: 15, weekday: Weekday::Friday };
    assert_eq!(render("{:Y}/{:y}", e), "-7/93");
    assert_eq!(e.year_of_century(), 93);
    let m = LocalDate { year: i64::MIN, month: Month::June, day: 15, weekday: Weekday::Friday };
    assert_eq!(render("{:Y}", m), "-9223372036854775808");
}

#[test]
fn compiled_template_reused() {
    let f = DateFormat::parse("{:D} {:M} {:Y}").unwrap();
    let d = march_fourth();
    let first = f.format(d);
    assert_eq!(first, "4 March 2015");
    assert_eq!(f.format(d), first);
    let later = LocalDate { year: 2016, month: Month::November, day: 28, weekday: Weekday::Monday };
    assert_eq!(f.format(later), "28 November 2016");
    assert_eq!(f.format(d), first);
}

#[test]
fn multibyte_offsets() {
    assert_eq!(DateFormat::parse("é}"), Err(FormatError::CloseCurlyBrace(2)));
    assert_eq!(DateFormat::parse("日{:x}"), Err(FormatError::InvalidChar('x', true, 5)));
    assert_eq!(DateFormat::parse("{é}"), Err(FormatError::InvalidChar('é', false, 1)));
    assert_eq!(DateFormat::parse("{:Yé}"), Err(FormatError::InvalidChar('é', false, 3)));
}

#[test]
fn unclosed_directives() {
    assert_eq!(DateFormat::parse("ab{:"), Err(FormatError::OpenCurlyBrace(2)));
    assert_eq!(DateFormat::parse("ab{:Y"), Err(FormatError::OpenCurlyBrace(2)));
    assert_eq!(DateFormat::parse("{:}"), Err(FormatError::InvalidChar('}', true, 2)));
}

#[test]
fn trailing_text_in_directive() {
    assert_eq!(DateFormat::parse("{:Y:M}"), Err(FormatError::InvalidChar(':', false, 3)));
    assert_eq!(DateFormat::parse("{:YY}"), Err(FormatError::InvalidChar('Y', false, 3)));
}

#[test]
fn first_error_wins() {
    assert_eq!(DateFormat::parse("}{"), Err(FormatError::CloseCurlyBrace(0)));
    assert_eq!(DateFormat::parse("{:Y}x}{"), Err(FormatError::CloseCurlyBrace(5)));
}

#[test]
fn literal_runs_split_at_directives() {
    assert_eq!(
        DateFormat::parse("ab{:D}cd{:y}").unwrap().fields,
        vec![Literal("ab"), Day, Literal("cd"), YearOfCentury]
    );
}

#[test]
fn empty_arguments() {
    let a = Arguments::empty();
    assert!(a.is_empty());
    let b = Arguments { alignment: Some(Alignment::Left), width: None, pad_char: None };
    assert!(!b.is_empty());
    let c = Arguments { alignment: None, width: Some(3), pad_char: Some('0') };
    assert!(!c.is_empty());
}
