use paperless_llm::error::Error;
use paperless_llm::output::{parse_amount, parse_output, split_lines, Amount};

#[test]
fn two_line_reply_with_amount() {
    let r = parse_output("Some Title\n12.34").unwrap();
    assert_eq!(r.title, "Some Title");
    assert_eq!(r.amount, Some(Amount { cents: 1234 }));
}

#[test]
fn two_line_reply_without_amount() {
    let r = parse_output("Some Title\n-").unwrap();
    assert_eq!(r.title, "Some Title");
    assert_eq!(r.amount, None);
}

#[test]
fn one_line_reply_is_malformed() {
    assert!(matches!(parse_output("Some Title"), Err(Error::MalformedOutput(_))));
}

#[test]
fn three_line_reply_is_malformed() {
    assert!(matches!(parse_output("Invoice 42\n42.00\nextra"), Err(Error::MalformedOutput(_))));
}

#[test]
fn empty_reply_is_malformed() {
    assert!(matches!(parse_output(""), Err(Error::MalformedOutput(_))));
}

#[test]
fn empty_title_line_is_malformed() {
    assert!(matches!(parse_output("\n12.34"), Err(Error::MalformedOutput(_))));
}

#[test]
fn prose_second_line_is_malformed() {
    assert!(matches!(parse_output("Title\nabout 12 francs"), Err(Error::MalformedOutput(_))));
    assert!(matches!(parse_output("Title\n12,34"), Err(Error::MalformedOutput(_))));
    assert!(matches!(parse_output("Title\n12.3x"), Err(Error::MalformedOutput(_))));
}

#[test]
fn trailing_newline_is_tolerated() {
    let r = parse_output("Some Title\n12.34\n").unwrap();
    assert_eq!(r.title, "Some Title");
    assert_eq!(r.amount, Some(Amount { cents: 1234 }));
}

#[test]
fn carriage_returns_are_stripped_at_line_ends() {
    let r = parse_output("Some Title\r\n42.00").unwrap();
    assert_eq!(r.title, "Some Title");
    assert_eq!(r.amount, Some(Amount { cents: 4200 }));
}

#[test]
fn whole_number_amount() {
    let r = parse_output("T\n7").unwrap();
    assert_eq!(r.amount, Some(Amount { cents: 700 }));
}

#[test]
fn single_fraction_digit() {
    let r = parse_output("T\n7.5").unwrap();
    assert_eq!(r.amount, Some(Amount { cents: 750 }));
}

#[test]
fn rounds_half_up_on_the_third_fraction_digit() {
    assert_eq!(parse_amount("12.345").unwrap(), Amount { cents: 1235 });
    assert_eq!(parse_amount("12.3449").unwrap(), Amount { cents: 1234 });
    assert_eq!(parse_amount("0.999").unwrap(), Amount { cents: 100 });
}

#[test]
fn negative_amount_is_accepted() {
    assert_eq!(parse_amount("-5").unwrap(), Amount { cents: -500 });
    assert_eq!(parse_amount("-0.25").unwrap(), Amount { cents: -25 });
}

#[test]
fn fifteen_integer_digits_are_accepted() {
    assert_eq!(parse_amount("999999999999999").unwrap(), Amount { cents: 99999999999999900 });
}

#[test]
fn sixteen_integer_digits_are_malformed() {
    assert!(matches!(parse_amount("1000000000000000"), Err(Error::MalformedOutput(_))));
}

#[test]
fn dot_without_fraction_digit_is_malformed() {
    assert!(matches!(parse_amount("5."), Err(Error::MalformedOutput(_))));
}

#[test]
fn leading_dot_is_malformed() {
    assert!(matches!(parse_amount(".5"), Err(Error::MalformedOutput(_))));
}

#[test]
fn bare_sign_is_malformed() {
    assert!(matches!(parse_amount("-"), Err(Error::MalformedOutput(_))));
}

#[test]
fn second_dot_is_malformed() {
    assert!(matches!(parse_amount("1.2.3"), Err(Error::MalformedOutput(_))));
}

#[test]
fn split_lines_follows_line_semantics() {
    assert_eq!(split_lines("a\nb"), vec!["a".to_string(), "b".to_string()]);
    assert_eq!(split_lines("a\nb\n"), vec!["a".to_string(), "b".to_string()]);
    assert_eq!(split_lines("a\r\nb"), vec!["a".to_string(), "b".to_string()]);
    assert_eq!(split_lines(""), Vec::<String>::new());
    assert_eq!(split_lines("\n"), vec!["".to_string()]);
    assert_eq!(split_lines("a\n\n"), vec!["a".to_string(), "".to_string()]);
}
