use expr_parser::error::{ErrorClass, ErrorKind, Expectation, Keyword, ParseError};
use expr_parser::parse_state::IndentablePosition;

#[test]
fn every_kind_has_its_message_and_class() {
    let expected = [
        (ErrorKind::Expected(Expectation::Expression), "expected an expression", ErrorClass::Syntax),
        (ErrorKind::Expected(Expectation::Pattern), "expected a pattern", ErrorClass::Syntax),
        (ErrorKind::Expected(Expectation::Whitespace), "expected whitespace", ErrorClass::Syntax),
        (ErrorKind::Expected(Expectation::Identifier), "expected an identifier", ErrorClass::Syntax),
        (ErrorKind::Expected(Expectation::Then), "expected `then`", ErrorClass::Syntax),
        (ErrorKind::Expected(Expectation::Else), "expected `else`", ErrorClass::Syntax),
        (ErrorKind::Expected(Expectation::CloseParen), "expected `)`", ErrorClass::Syntax),
        (ErrorKind::Expected(Expectation::Quote), "expected `\"`", ErrorClass::Syntax),
        (ErrorKind::Expected(Expectation::Apostrophe), "expected `'`", ErrorClass::Syntax),
        (ErrorKind::Expected(Expectation::Character), "expected a character", ErrorClass::Syntax),
        (ErrorKind::Expected(Expectation::Digit), "expected a digit", ErrorClass::Syntax),
        (
            ErrorKind::Expected(Expectation::EndOfInput),
            "expected the end of the input",
            ErrorClass::Syntax,
        ),
        (ErrorKind::InputTooLong, "the input is too long", ErrorClass::Syntax),
        (ErrorKind::Outdent, "outdent", ErrorClass::Layout),
        (
            ErrorKind::DeclarationOutdented,
            "this declaration is outdented too far",
            ErrorClass::Layout,
        ),
        (
            ErrorKind::EqualsOutdented,
            "the = in this declaration seems outdented",
            ErrorClass::Layout,
        ),
        (
            ErrorKind::BodyIndentMismatch,
            "the return expression was indented differently from the original declaration",
            ErrorClass::Layout,
        ),
        (
            ErrorKind::MalformedNumber,
            "looked like a number but was actually malformed identifier",
            ErrorClass::Lexical,
        ),
        (ErrorKind::NumberOutOfRange, "number literal out of range", ErrorClass::Lexical),
        (
            ErrorKind::InvalidHexCode,
            "Invalid hex code - Unicode code points must be specified using hexadecimal characters (the numbers 0-9 and letters A-F)",
            ErrorClass::Lexical,
        ),
        (
            ErrorKind::CodePointTooLarge,
            "Invalid Unicode code point. It must be no more than \\u{10FFFF}.",
            ErrorClass::Lexical,
        ),
        (ErrorKind::InvalidCodePoint, "Invalid Unicode code point.", ErrorClass::Lexical),
        (ErrorKind::InvalidEscape, "invalid escape sequence", ErrorClass::Lexical),
        (ErrorKind::EmptyChar, "EMPTY_CHAR", ErrorClass::Lexical),
        (ErrorKind::ReservedKeyword(Keyword::If), "Reserved keyword `if`", ErrorClass::ReservedWord),
        (
            ErrorKind::ReservedKeyword(Keyword::Then),
            "Reserved keyword `then`",
            ErrorClass::ReservedWord,
        ),
        (
            ErrorKind::ReservedKeyword(Keyword::Else),
            "Reserved keyword `else`",
            ErrorClass::ReservedWord,
        ),
        (
            ErrorKind::ReservedKeyword(Keyword::Case),
            "Reserved keyword `case`",
            ErrorClass::ReservedWord,
        ),
        (
            ErrorKind::ReservedKeyword(Keyword::When),
            "Reserved keyword `when`",
            ErrorClass::ReservedWord,
        ),
        (
            ErrorKind::InvalidIdentStart,
            "First character in an identifier that was not a lowercase letter",
            ErrorClass::Lexical,
        ),
        (
            ErrorKind::EmptyCase,
            "encountered match-expression with no branches!",
            ErrorClass::Structure,
        ),
    ];
    for (kind, message, class) in expected {
        assert_eq!(kind.message(), message);
        assert_eq!(kind.class(), class);
        let error = ParseError { position: IndentablePosition::new(), kind };
        assert_eq!(error.message(), message);
    }
}
