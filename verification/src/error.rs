//! Parse failures, and the three ways in which a rule can end.

use vstd::prelude::*;
use vstd::string::*;
use crate::parse_state::{position_at, IndentablePosition, State};

verus! {

/// The message of [`ErrorKind::EmptyChar`].
pub const ERR_EMPTY_CHAR: &'static str = "EMPTY_CHAR";

/// A reserved word.
#[derive(Clone, Copy, Debug, PartialEq, Eq, Structural)]
pub enum Keyword {
    If,
    Then,
    Else,
    Case,
    When,
}

impl Keyword {
    /// The word as it is written.
    pub open spec fn text(self) -> Seq<char> {
        match self {
            Keyword::If => seq!['i', 'f'],
            Keyword::Then => seq!['t', 'h', 'e', 'n'],
            Keyword::Else => seq!['e', 'l', 's', 'e'],
            Keyword::Case => seq!['c', 'a', 's', 'e'],
            Keyword::When => seq!['w', 'h', 'e', 'n'],
        }
    }
}

/// What a rule needed at the place where the input gave something else.
#[derive(Clone, Copy, Debug, PartialEq, Eq, Structural)]
pub enum Expectation {
    Expression,
    Pattern,
    Whitespace,
    Identifier,
    Then,
    Else,
    CloseParen,
    Quote,
    Apostrophe,
    Character,
    Digit,
    EndOfInput,
}

/// Why a parse failed.
#[derive(Clone, Copy, Debug, PartialEq, Eq, Structural)]
pub enum ErrorKind {
    /// The input does not continue as the rule in progress needs.
    Expected(Expectation),
    /// A continuation line is indented less than its block.
    Outdent,
    /// A declaration starts left of its block.
    DeclarationOutdented,
    /// The `=` of a declaration stands on a line that starts left of the
    /// declaration.
    EqualsOutdented,
    /// The body of a declaration is not aligned with the declaration.
    BodyIndentMismatch,
    /// A number literal holds a character that is no digit.
    MalformedNumber,
    /// The digits of a number literal write an integer or a numerator
    /// above `i64::MAX`, or a denominator above `u64::MAX`.
    NumberOutOfRange,
    /// `\u{` is not followed by one to six hexadecimal digits and `}`.
    InvalidHexCode,
    /// A code point above `10FFFF`.
    CodePointTooLarge,
    /// A code point that is no Unicode scalar value.
    InvalidCodePoint,
    /// A backslash in front of a character that it cannot escape.
    InvalidEscape,
    /// `''`
    EmptyChar,
    /// A reserved word where an identifier was needed.
    ReservedKeyword(Keyword),
    /// A name that starts with something other than a lowercase letter
    /// where an identifier was needed.
    InvalidIdentStart,
    /// `case` without a single branch.
    EmptyCase,
    /// The input holds more characters than positions can count.
    InputTooLong,
}

/// The families of [`ErrorKind`].
#[derive(Clone, Copy, Debug, PartialEq, Eq, Structural)]
pub enum ErrorClass {
    Syntax,
    Layout,
    Lexical,
    ReservedWord,
    Structure,
}

impl ErrorKind {
    /// The family of the error.
    pub open spec fn class_of(self) -> ErrorClass {
        match self {
            ErrorKind::Expected(_) | ErrorKind::InputTooLong => ErrorClass::Syntax,
            ErrorKind::Outdent
            | ErrorKind::DeclarationOutdented
            | ErrorKind::EqualsOutdented
            | ErrorKind::BodyIndentMismatch => ErrorClass::Layout,
            ErrorKind::MalformedNumber
            | ErrorKind::NumberOutOfRange
            | ErrorKind::InvalidHexCode
            | ErrorKind::CodePointTooLarge
            | ErrorKind::InvalidCodePoint
            | ErrorKind::InvalidEscape
            | ErrorKind::EmptyChar
            | ErrorKind::InvalidIdentStart => ErrorClass::Lexical,
            ErrorKind::ReservedKeyword(_) => ErrorClass::ReservedWord,
            ErrorKind::EmptyCase => ErrorClass::Structure,
        }
    }

    /// The text of the error's message.
    pub open spec fn message_text(self) -> Seq<char> {
        match self {
            ErrorKind::Expected(Expectation::Expression) => "expected an expression"@,
            ErrorKind::Expected(Expectation::Pattern) => "expected a pattern"@,
            ErrorKind::Expected(Expectation::Whitespace) => "expected whitespace"@,
            ErrorKind::Expected(Expectation::Identifier) => "expected an identifier"@,
            ErrorKind::Expected(Expectation::Then) => "expected `then`"@,
            ErrorKind::Expected(Expectation::Else) => "expected `else`"@,
            ErrorKind::Expected(Expectation::CloseParen) => "expected `)`"@,
            ErrorKind::Expected(Expectation::Quote) => "expected `\"`"@,
            ErrorKind::Expected(Expectation::Apostrophe) => "expected `'`"@,
            ErrorKind::Expected(Expectation::Character) => "expected a character"@,
            ErrorKind::Expected(Expectation::Digit) => "expected a digit"@,
            ErrorKind::Expected(Expectation::EndOfInput) => "expected the end of the input"@,
            ErrorKind::Outdent => "outdent"@,
            ErrorKind::DeclarationOutdented => "this declaration is outdented too far"@,
            ErrorKind::EqualsOutdented => "the = in this declaration seems outdented"@,
            ErrorKind::BodyIndentMismatch =>
                "the return expression was indented differently from the original declaration"@,
            ErrorKind::MalformedNumber =>
                "looked like a number but was actually malformed identifier"@,
            ErrorKind::NumberOutOfRange => "number literal out of range"@,
            ErrorKind::InvalidHexCode =>
                "Invalid hex code - Unicode code points must be specified using hexadecimal characters (the numbers 0-9 and letters A-F)"@,
            ErrorKind::CodePointTooLarge =>
                "Invalid Unicode code point. It must be no more than \\u{10FFFF}."@,
            ErrorKind::InvalidCodePoint => "Invalid Unicode code point."@,
            ErrorKind::InvalidEscape => "invalid escape sequence"@,
            ErrorKind::EmptyChar => ERR_EMPTY_CHAR@,
            ErrorKind::ReservedKeyword(Keyword::If) => "Reserved keyword `if`"@,
            ErrorKind::ReservedKeyword(Keyword::Then) => "Reserved keyword `then`"@,
            ErrorKind::ReservedKeyword(Keyword::Else) => "Reserved keyword `else`"@,
            ErrorKind::ReservedKeyword(Keyword::Case) => "Reserved keyword `case`"@,
            ErrorKind::ReservedKeyword(Keyword::When) => "Reserved keyword `when`"@,
            ErrorKind::InvalidIdentStart =>
                "First character in an identifier that was not a lowercase letter"@,
            ErrorKind::EmptyCase => "encountered match-expression with no branches!"@,
            ErrorKind::InputTooLong => "the input is too long"@,
        }
    }

    pub fn class(&self) -> (c: ErrorClass)
        ensures
            c == self.class_of(),
    {
        match self {
            ErrorKind::Expected(_) | ErrorKind::InputTooLong => ErrorClass::Syntax,
            ErrorKind::Outdent
            | ErrorKind::DeclarationOutdented
            | ErrorKind::EqualsOutdented
            | ErrorKind::BodyIndentMismatch => ErrorClass::Layout,
            ErrorKind::MalformedNumber
            | ErrorKind::NumberOutOfRange
            | ErrorKind::InvalidHexCode
            | ErrorKind::CodePointTooLarge
            | ErrorKind::InvalidCodePoint
            | ErrorKind::InvalidEscape
            | ErrorKind::EmptyChar
            | ErrorKind::InvalidIdentStart => ErrorClass::Lexical,
            ErrorKind::ReservedKeyword(_) => ErrorClass::ReservedWord,
            ErrorKind::EmptyCase => ErrorClass::Structure,
        }
    }

    pub fn message(&self) -> (text: String)
        ensures
            text@ == self.message_text(),
    {
        match self {
            ErrorKind::Expected(Expectation::Expression) => String::from_str("expected an expression"),
            ErrorKind::Expected(Expectation::Pattern) => String::from_str("expected a pattern"),
            ErrorKind::Expected(Expectation::Whitespace) => String::from_str("expected whitespace"),
            ErrorKind::Expected(Expectation::Identifier) => String::from_str("expected an identifier"),
            ErrorKind::Expected(Expectation::Then) => String::from_str("expected `then`"),
            ErrorKind::Expected(Expectation::Else) => String::from_str("expected `else`"),
            ErrorKind::Expected(Expectation::CloseParen) => String::from_str("expected `)`"),
            ErrorKind::Expected(Expectation::Quote) => String::from_str("expected `\"`"),
            ErrorKind::Expected(Expectation::Apostrophe) => String::from_str("expected `'`"),
            ErrorKind::Expected(Expectation::Character) => String::from_str("expected a character"),
            ErrorKind::Expected(Expectation::Digit) => String::from_str("expected a digit"),
            ErrorKind::Expected(Expectation::EndOfInput) => String::from_str(
                "expected the end of the input",
            ),
            ErrorKind::Outdent => String::from_str("outdent"),
            ErrorKind::DeclarationOutdented => String::from_str(
                "this declaration is outdented too far",
            ),
            ErrorKind::EqualsOutdented => String::from_str(
                "the = in this declaration seems outdented",
            ),
            ErrorKind::BodyIndentMismatch => String::from_str(
                "the return expression was indented differently from the original declaration",
            ),
            ErrorKind::MalformedNumber => String::from_str(
                "looked like a number but was actually malformed identifier",
            ),
            ErrorKind::NumberOutOfRange => String::from_str("number literal out of range"),
            ErrorKind::InvalidHexCode => String::from_str(
                "Invalid hex code - Unicode code points must be specified using hexadecimal characters (the numbers 0-9 and letters A-F)",
            ),
            ErrorKind::CodePointTooLarge => String::from_str(
                "Invalid Unicode code point. It must be no more than \\u{10FFFF}.",
            ),
            ErrorKind::InvalidCodePoint => String::from_str("Invalid Unicode code point."),
            ErrorKind::InvalidEscape => String::from_str("invalid escape sequence"),
            ErrorKind::EmptyChar => String::from_str(ERR_EMPTY_CHAR),
            ErrorKind::ReservedKeyword(Keyword::If) => String::from_str("Reserved keyword `if`"),
            ErrorKind::ReservedKeyword(Keyword::Then) => String::from_str("Reserved keyword `then`"),
            ErrorKind::ReservedKeyword(Keyword::Else) => String::from_str("Reserved keyword `else`"),
            ErrorKind::ReservedKeyword(Keyword::Case) => String::from_str("Reserved keyword `case`"),
            ErrorKind::ReservedKeyword(Keyword::When) => String::from_str("Reserved keyword `when`"),
            ErrorKind::InvalidIdentStart => String::from_str(
                "First character in an identifier that was not a lowercase letter",
            ),
            ErrorKind::EmptyCase => String::from_str(
                "encountered match-expression with no branches!",
            ),
            ErrorKind::InputTooLong => String::from_str("the input is too long"),
        }
    }
}

/// A failed parse: what went wrong, and where.
#[derive(Clone, Copy, Debug, PartialEq, Eq, Structural)]
pub struct ParseError {
    pub position: IndentablePosition,
    pub kind: ErrorKind,
}

impl ParseError {
    pub fn message(&self) -> (text: String)
        ensures
            text@ == self.kind.message_text(),
    {
        self.kind.message()
    }
}

/// How a rule ends on a given input, as a mathematical value.
pub enum Outcome<V> {
    /// The rule matched: its value, and the index behind what it consumed.
    Done(V, int),
    /// The rule does not start here; another rule may.
    Skip,
    /// The rule started and cannot go on: the index of the failure and its
    /// reason. Nothing else is tried.
    Fail(int, ErrorKind),
}

impl<V> Outcome<V> {
    /// The same ending for a rule with another value; `Done` has none.
    pub open spec fn cast<W>(self) -> Outcome<W> {
        match self {
            Outcome::Fail(at, kind) => Outcome::Fail(at, kind),
            _ => Outcome::Skip,
        }
    }

    /// A rule that must match: `Skip` becomes a failure at `at`.
    pub open spec fn or_fail(self, at: int, expected: Expectation) -> Outcome<V> {
        match self {
            Outcome::Skip => Outcome::Fail(at, ErrorKind::Expected(expected)),
            _ => self,
        }
    }
}

impl<V> Outcome<Seq<V>> {
    /// The same ending, with `front` ahead of the list of `Done`.
    pub open spec fn prepend(self, front: Seq<V>) -> Outcome<Seq<V>> {
        match self {
            Outcome::Done(rest, end) => Outcome::Done(front + rest, end),
            other => other,
        }
    }
}

/// Putting `x` and then `front` ahead of a list is putting `front` with
/// `x` behind it ahead.
pub proof fn lemma_prepend_push<V>(o: Outcome<Seq<V>>, front: Seq<V>, x: V)
    ensures
        o.prepend(seq![x]).prepend(front) == o.prepend(front.push(x)),
        Outcome::Done(seq![x], 0).prepend(front) == Outcome::Done(front.push(x), 0),
        o.prepend(Seq::empty()) == o,
{
    match o {
        Outcome::Done(rest, _) => {
            assert(front + (seq![x] + rest) =~= front.push(x) + rest);
            assert(Seq::<V>::empty() + rest =~= rest);
        },
        _ => {},
    }
    assert(front + seq![x] =~= front.push(x));
}

/// How a rule ended.
#[derive(Debug, PartialEq, Eq)]
pub enum Parsed<T> {
    /// The rule matched: its value, and the state behind what it consumed.
    Done(T, State),
    /// The rule does not start here.
    Skip,
    /// The rule started and cannot go on.
    Fail(ParseError),
}

impl<T> Parsed<T> {
    /// A rule that must match: `Skip` becomes a failure at `at`.
    pub fn or_fail(self, at: State, expected: Expectation) -> (r: Parsed<T>)
        ensures
            r == (match self {
                Parsed::Skip => Parsed::Fail(
                    ParseError { position: at.position, kind: ErrorKind::Expected(expected) },
                ),
                other => other,
            }),
    {
        match self {
            Parsed::Skip => Parsed::Fail(
                ParseError { position: at.position, kind: ErrorKind::Expected(expected) },
            ),
            other => other,
        }
    }

    /// An attempt: a failure of the rule counts as not having started.
    pub fn attempt(self) -> (r: Parsed<T>)
        ensures
            r == (match self {
                Parsed::Fail(_) => Parsed::Skip,
                other => other,
            }),
    {
        match self {
            Parsed::Fail(_) => Parsed::Skip,
            other => other,
        }
    }
}

/// `r` is the ending `o`, reached on the input `s`.
pub open spec fn agrees<T: DeepView>(r: Parsed<T>, o: Outcome<T::V>, s: Seq<char>) -> bool {
    match r {
        Parsed::Done(value, st) => o == Outcome::Done(value.deep_view(), st.index as int) && st.wf(s),
        Parsed::Skip => o is Skip,
        Parsed::Fail(e) => o matches Outcome::Fail(at, kind) && e.kind == kind && e.position
            == position_at(s, at),
    }
}

} // verus!
