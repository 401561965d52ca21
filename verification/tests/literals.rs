use expr_parser::error::{ErrorClass, ErrorKind, Expectation, Keyword};
use expr_parser::expr::Expr;
use expr_parser::parse::parse_string;

fn kind_of(text: &str) -> ErrorKind {
    parse_string(text).unwrap_err().kind
}

#[test]
fn integer_with_grouping_spaces() {
    assert_eq!(parse_string("1 000 000"), Ok(Expr::Int(1000000)));
    assert_eq!(parse_string("0"), Ok(Expr::Int(0)));
    assert_eq!(parse_string("-12"), Ok(Expr::Int(-12)));
}

#[test]
fn integer_limits() {
    assert_eq!(parse_string("9223372036854775807"), Ok(Expr::Int(i64::MAX)));
    assert_eq!(parse_string("-9223372036854775807"), Ok(Expr::Int(-i64::MAX)));
    assert_eq!(kind_of("9223372036854775808"), ErrorKind::NumberOutOfRange);
    assert_eq!(kind_of("-9223372036854775808"), ErrorKind::NumberOutOfRange);
    assert_eq!(kind_of("100000000000000000000000000000"), ErrorKind::NumberOutOfRange);
    assert_eq!(kind_of("100000000000000000000000000000x"), ErrorKind::MalformedNumber);
}

#[test]
fn fraction_values_are_exact() {
    assert_eq!(parse_string("12.5"), Ok(Expr::Frac(125, 10)));
    assert_eq!(parse_string("-0.5"), Ok(Expr::Frac(-5, 10)));
    assert_eq!(parse_string("0.05"), Ok(Expr::Frac(5, 100)));
    assert_eq!(parse_string("1.00"), Ok(Expr::Frac(100, 100)));
    assert_eq!(parse_string("1 000.001"), Ok(Expr::Frac(1000001, 1000)));
    assert_eq!(
        parse_string("3.000000000000000001"),
        Ok(Expr::Frac(3_000_000_000_000_000_001, 1_000_000_000_000_000_000))
    );
}

#[test]
fn malformed_numbers() {
    assert_eq!(kind_of("523foo"), ErrorKind::MalformedNumber);
    assert_eq!(kind_of("1.2x"), ErrorKind::MalformedNumber);
    assert_eq!(kind_of("1 x"), ErrorKind::MalformedNumber);
    assert_eq!(kind_of("1x.5"), ErrorKind::MalformedNumber);
    assert_eq!(kind_of("99999999999999999999x.5"), ErrorKind::MalformedNumber);
    assert_eq!(kind_of("1.99999999999999999999x"), ErrorKind::MalformedNumber);
    assert_eq!(kind_of("1."), ErrorKind::Expected(Expectation::Digit));
    assert_eq!(ErrorKind::MalformedNumber.class(), ErrorClass::Lexical);
    assert_eq!(
        ErrorKind::MalformedNumber.message(),
        "looked like a number but was actually malformed identifier"
    );
}

#[test]
fn fraction_digits_are_not_limited_but_by_the_fields() {
    assert_eq!(parse_string("1.4294967295"), Ok(Expr::Frac(14294967295, 10000000000)));
    assert_eq!(parse_string("1.4294967296"), Ok(Expr::Frac(14294967296, 10000000000)));
    assert_eq!(parse_string("0.9999999999"), Ok(Expr::Frac(9999999999, 10000000000)));
    assert_eq!(parse_string("1.50"), Ok(Expr::Frac(150, 100)));
    assert_eq!(
        parse_string("0.0000000000000000001"),
        Ok(Expr::Frac(1, 10_000_000_000_000_000_000))
    );
    assert_eq!(
        parse_string("-0.9223372036854775807"),
        Ok(Expr::Frac(-9223372036854775807, 10_000_000_000_000_000_000))
    );
    assert_eq!(
        parse_string("9.223372036854775807"),
        Ok(Expr::Frac(9223372036854775807, 1_000_000_000_000_000_000))
    );
    assert_eq!(
        parse_string("000.0000000000000000000"),
        Ok(Expr::Frac(0, 10_000_000_000_000_000_000))
    );
}

#[test]
fn numbers_out_of_range() {
    assert_eq!(kind_of("1.0000000000000000001"), ErrorKind::NumberOutOfRange);
    assert_eq!(kind_of("9223372036854775807.5"), ErrorKind::NumberOutOfRange);
    assert_eq!(kind_of("10.000000000000000000"), ErrorKind::NumberOutOfRange);
    assert_eq!(kind_of("0.00000000000000000001"), ErrorKind::NumberOutOfRange);
    assert_eq!(kind_of("0.9223372036854775808"), ErrorKind::NumberOutOfRange);
    assert_eq!(kind_of("9.223372036854775808"), ErrorKind::NumberOutOfRange);
    assert_eq!(kind_of("99999999999999999999.5"), ErrorKind::NumberOutOfRange);
    assert_eq!(kind_of("0.99999999999999999999999999999"), ErrorKind::NumberOutOfRange);
    assert_eq!(ErrorKind::NumberOutOfRange.class(), ErrorClass::Lexical);
}

#[test]
fn number_stops_in_front_of_a_keyword() {
    let err = parse_string("1 then").unwrap_err();
    assert_eq!(err.kind, ErrorKind::Expected(Expectation::EndOfInput));
    assert_eq!((err.position.line, err.position.column), (1, 3));
}

#[test]
fn minus_without_a_digit_is_no_number() {
    let err = parse_string("-x").unwrap_err();
    assert_eq!(err.kind, ErrorKind::Expected(Expectation::Expression));
    assert_eq!((err.position.line, err.position.column), (1, 1));
}

#[test]
fn string_escapes() {
    assert_eq!(parse_string("\"a\\tb\""), Ok(Expr::Str("a\tb".to_string())));
    assert_eq!(parse_string("\"\\\"\\\\\\n\\r\""), Ok(Expr::Str("\"\\\n\r".to_string())));
    assert_eq!(parse_string("\"it's\""), Ok(Expr::Str("it's".to_string())));
    assert_eq!(parse_string("\"two\nlines\""), Ok(Expr::Str("two\nlines".to_string())));
    assert_eq!(kind_of("\"\\q\""), ErrorKind::InvalidEscape);
    assert_eq!(kind_of("\"\\'\""), ErrorKind::InvalidEscape);
    assert_eq!(kind_of("\"abc"), ErrorKind::Expected(Expectation::Quote));
    assert_eq!(kind_of("\"abc\\"), ErrorKind::InvalidEscape);
}

#[test]
fn unicode_code_points() {
    assert_eq!(parse_string("\"\\u{1F600}\""), Ok(Expr::Str("\u{1F600}".to_string())));
    assert_eq!(parse_string("\"\\u{41}\\u{00e9}\""), Ok(Expr::Str("A\u{e9}".to_string())));
    assert_eq!(parse_string("\"\\u{10FFFF}\""), Ok(Expr::Str("\u{10FFFF}".to_string())));
    assert_eq!(parse_string("\"\\u{0}\""), Ok(Expr::Str("\0".to_string())));
    assert_eq!(kind_of("\"\\u{110000}\""), ErrorKind::CodePointTooLarge);
    assert_eq!(kind_of("\"\\u{FFFFFF}\""), ErrorKind::CodePointTooLarge);
    assert_eq!(kind_of("\"\\u{D800}\""), ErrorKind::InvalidCodePoint);
    assert_eq!(kind_of("\"\\u{DFFF}\""), ErrorKind::InvalidCodePoint);
    assert_eq!(kind_of("\"\\u{}\""), ErrorKind::InvalidHexCode);
    assert_eq!(kind_of("\"\\u{1234567}\""), ErrorKind::InvalidHexCode);
    assert_eq!(kind_of("\"\\u{12G}\""), ErrorKind::InvalidHexCode);
    assert_eq!(kind_of("\"\\u0041\""), ErrorKind::InvalidEscape);
    assert_eq!(ErrorKind::CodePointTooLarge.class(), ErrorClass::Lexical);
}

#[test]
fn string_interpolation() {
    assert_eq!(
        parse_string("\"hi \\(name)!\""),
        Ok(Expr::InterpolatedStr(
            vec![("name".to_string(), "hi ".to_string())],
            "!".to_string()
        ))
    );
    assert_eq!(
        parse_string("\"\\(a)\\(b)\""),
        Ok(Expr::InterpolatedStr(
            vec![("a".to_string(), String::new()), ("b".to_string(), String::new())],
            String::new()
        ))
    );
    assert_eq!(
        parse_string("\"x\\(a) y \\(b) z\""),
        Ok(Expr::InterpolatedStr(
            vec![("a".to_string(), "x".to_string()), ("b".to_string(), " y ".to_string())],
            " z".to_string()
        ))
    );
}

#[test]
fn string_interpolation_errors() {
    assert_eq!(kind_of("\"\\(if)\""), ErrorKind::ReservedKeyword(Keyword::If));
    assert_eq!(kind_of("\"\\(Foo)\""), ErrorKind::InvalidIdentStart);
    assert_eq!(kind_of("\"\\()\""), ErrorKind::Expected(Expectation::Identifier));
    assert_eq!(kind_of("\"\\(a\""), ErrorKind::Expected(Expectation::CloseParen));
}

#[test]
fn char_literals() {
    assert_eq!(parse_string("'a'"), Ok(Expr::Char('a')));
    assert_eq!(parse_string("'\\n'"), Ok(Expr::Char('\n')));
    assert_eq!(parse_string("'\\t'"), Ok(Expr::Char('\t')));
    assert_eq!(parse_string("'\\r'"), Ok(Expr::Char('\r')));
    assert_eq!(parse_string("'\\\\'"), Ok(Expr::Char('\\')));
    assert_eq!(parse_string("'\\''"), Ok(Expr::Char('\'')));
    assert_eq!(parse_string("'\"'"), Ok(Expr::Char('"')));
    assert_eq!(parse_string("'\\u{41}'"), Ok(Expr::Char('A')));
    assert_eq!(parse_string("'\u{e9}'"), Ok(Expr::Char('\u{e9}')));
}

#[test]
fn char_literal_errors() {
    let err = parse_string("''").unwrap_err();
    assert_eq!(err.kind, ErrorKind::EmptyChar);
    assert_eq!(err.kind.message(), expr_parser::parse::ERR_EMPTY_CHAR);
    assert_eq!(err.kind.message(), "EMPTY_CHAR");
    assert_eq!(kind_of("'ab'"), ErrorKind::Expected(Expectation::Apostrophe));
    assert_eq!(kind_of("'"), ErrorKind::Expected(Expectation::Character));
    assert_eq!(kind_of("'\\\"'"), ErrorKind::InvalidEscape);
    assert_eq!(kind_of("'\\u{110000}'"), ErrorKind::CodePointTooLarge);
}
