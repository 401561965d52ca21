use expr_parser::chars::{
    alnum, at_char, at_keyword, at_pair, at_terminator, collect, digit, hex_digit, lower,
    scan_run, upper, CharClass,
};
use expr_parser::error::{ErrorKind, Expectation, Keyword, ParseError, Parsed};
use expr_parser::parse::chars_of;
use expr_parser::parse_state::State;

fn text(s: &str) -> Vec<char> {
    s.chars().collect()
}

#[test]
fn classes_are_ascii() {
    for c in ['0', '5', '9'] {
        assert!(digit(c) && alnum(c) && hex_digit(c) && !lower(c) && !upper(c));
    }
    for c in ['a', 'f'] {
        assert!(lower(c) && alnum(c) && hex_digit(c) && !digit(c) && !upper(c));
    }
    for c in ['A', 'F'] {
        assert!(upper(c) && alnum(c) && hex_digit(c) && !digit(c) && !lower(c));
    }
    for c in ['g', 'z'] {
        assert!(lower(c) && alnum(c) && !hex_digit(c));
    }
    for c in ['G', 'Z'] {
        assert!(upper(c) && alnum(c) && !hex_digit(c));
    }
    for c in ['_', '-', ' ', '\n', '/', ':', '@', '[', '`', '{', '\u{e9}', '\u{3b1}', '\u{661}'] {
        assert!(!digit(c) && !lower(c) && !upper(c) && !alnum(c) && !hex_digit(c));
    }
}

#[test]
fn run_classes() {
    assert!(CharClass::Space.has(' ') && !CharClass::Space.has('\n') && !CharClass::Space.has('\t'));
    assert!(CharClass::Blank.has(' ') && CharClass::Blank.has('\n') && !CharClass::Blank.has('\t'));
    assert!(CharClass::Alnum.has('q') && CharClass::Alnum.has('7') && !CharClass::Alnum.has(' '));
}

#[test]
fn runs_end_at_the_first_character_outside() {
    let input = text("  \n ab1 ");
    let start = State::start();
    assert_eq!(scan_run(&input, start, CharClass::Space).index, 2);
    assert_eq!(scan_run(&input, start, CharClass::Blank).index, 4);
    assert_eq!(scan_run(&input, start, CharClass::Alnum).index, 0);
    let word = start.advance_by(&input, 4);
    let end = scan_run(&input, word, CharClass::Alnum);
    assert_eq!(end, start.advance_by(&input, 7));
    let last = start.advance_by(&input, 7);
    assert_eq!(scan_run(&input, last, CharClass::Blank).index, 8);
    assert_eq!(scan_run(&input, start.advance_by(&input, 8), CharClass::Blank).index, 8);
}

#[test]
fn literal_text_at_an_index() {
    let input = text("if then->");
    assert!(at_char(&input, 0, 'i'));
    assert!(!at_char(&input, 0, 'f'));
    assert!(!at_char(&input, 9, '>'));
    assert!(at_pair(&input, 7, '-', '>'));
    assert!(!at_pair(&input, 8, '>', '>'));
    assert!(!at_pair(&input, 9, '-', '>'));
    assert!(!at_pair(&input, usize::MAX, '-', '>'));
    assert!(at_keyword(&input, 0, Keyword::If));
    assert!(!at_keyword(&input, 1, Keyword::If));
    assert!(at_keyword(&input, 3, Keyword::Then));
    assert!(!at_keyword(&input, 3, Keyword::Else));
    assert!(!at_keyword(&input, 7, Keyword::Then));
    assert!(at_terminator(&input, 3));
    assert!(!at_terminator(&input, 0));
    assert!(at_terminator(&text("else"), 0));
    assert!(at_terminator(&text("whenever"), 0));
    assert!(at_keyword(&text("case"), 0, Keyword::Case));
    assert!(at_keyword(&text("when"), 0, Keyword::When));
    assert!(!at_terminator(&text("case"), 0));
    assert!(!at_terminator(&text("the"), 0));
}

#[test]
fn text_of_a_range() {
    let input = text("h\u{e9}llo");
    assert_eq!(collect(&input, 1, 4), "\u{e9}ll");
    assert_eq!(collect(&input, 2, 2), "");
    assert_eq!(collect(&input, 0, 5), "h\u{e9}llo");
}

#[test]
fn characters_of_a_text() {
    assert_eq!(chars_of("a\u{1F600}b"), vec!['a', '\u{1F600}', 'b']);
    assert_eq!(chars_of(""), Vec::<char>::new());
}

#[test]
fn a_rule_that_must_match() {
    let input = text("ab");
    let at = State::start().advance(&input);
    let failure = ParseError { position: at.position, kind: ErrorKind::Expected(Expectation::Then) };
    assert_eq!(Parsed::<u8>::Skip.or_fail(at, Expectation::Then), Parsed::Fail(failure));
    assert_eq!(Parsed::Done(1u8, at).or_fail(at, Expectation::Then), Parsed::Done(1u8, at));
    let other = ParseError { position: at.position, kind: ErrorKind::Outdent };
    assert_eq!(Parsed::<u8>::Fail(other).or_fail(at, Expectation::Then), Parsed::Fail(other));
    assert_eq!(Parsed::<u8>::Fail(other).attempt(), Parsed::Skip);
    assert_eq!(Parsed::<u8>::Skip.attempt(), Parsed::Skip);
    assert_eq!(Parsed::Done(1u8, at).attempt(), Parsed::Done(1u8, at));
}
