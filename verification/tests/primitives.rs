use expr_parser::error::{ErrorKind, Keyword, ParseError, Parsed};
use expr_parser::expr::{Expr, Operator, Pattern};
use expr_parser::layout::{
    indented_whitespace, indented_whitespaces, indented_whitespaces1, spaces, whitespace,
    whitespace1, whitespace_or_eof,
};
use expr_parser::parse::{
    apply_variant, closure, expr, expr_body, expr_body_without_operators, func_or_var,
    function_application, ident, if_expr, let_expr, match_expr, match_variant, number_literal,
    operator, parenthetical_expr, pattern, string_literal, char_literal, variant_name,
};
use expr_parser::parse_state::{IndentablePosition, State};
use expr_parser::text::{char_body, string_body};

fn chars(text: &str) -> Vec<char> {
    text.chars().collect()
}

fn at(text: &str, index: usize) -> State {
    State::start().advance_by(&chars(text), index)
}

fn place(line: i32, column: i32, indent_col: i32, is_indenting: bool) -> IndentablePosition {
    IndentablePosition { line, column, indent_col, is_indenting }
}

#[test]
fn position_starts_at_one_one() {
    assert_eq!(IndentablePosition::new(), place(1, 1, 1, true));
    assert_eq!(IndentablePosition::default(), place(1, 1, 1, true));
    assert_eq!(State::start().index, 0);
}

#[test]
fn position_follows_the_text() {
    let mut p = IndentablePosition::new();
    p.update(' ');
    assert_eq!(p, place(1, 2, 1, true));
    p.update(' ');
    p.update('a');
    assert_eq!(p, place(1, 4, 3, false));
    p.update(' ');
    p.update('b');
    assert_eq!(p, place(1, 6, 3, false));
    p.update('\n');
    assert_eq!(p, place(2, 1, 1, true));
    p.update('c');
    assert_eq!(p, place(2, 2, 1, false));
}

#[test]
fn state_advances_with_its_position() {
    let text = "ab\n  c";
    assert_eq!(at(text, 3).position, place(2, 1, 1, true));
    assert_eq!(at(text, 6), State { index: 6, position: place(2, 4, 3, false) });
    assert_eq!(State::start().advance(&chars(text)).position, place(1, 2, 1, false));
}

#[test]
fn plain_whitespace() {
    let text = chars("  \n x");
    assert_eq!(spaces(&text, State::start()).index, 2);
    assert_eq!(whitespace(&text, State::start()).index, 4);
    assert_eq!(whitespace1(&text, State::start()), Parsed::Done((), at("  \n x", 4)));
    assert_eq!(whitespace1(&text, at("  \n x", 4)), Parsed::Skip);
    assert_eq!(whitespace_or_eof(&text, at("  \n x", 4)), Parsed::Skip);
    assert_eq!(whitespace_or_eof(&text, at("  \n x", 5)), Parsed::Done((), at("  \n x", 5)));
}

#[test]
fn one_step_of_indented_whitespace() {
    let text = "a \n\n   \n  b";
    let input = chars(text);
    assert_eq!(indented_whitespace(&input, at(text, 0), 2), Parsed::Skip);
    assert_eq!(indented_whitespace(&input, at(text, 1), 2), Parsed::Done((), at(text, 2)));
    assert_eq!(indented_whitespace(&input, at(text, 2), 2), Parsed::Done((), at(text, 10)));
    assert_eq!(
        indented_whitespace(&input, at(text, 2), 3),
        Parsed::Fail(ParseError { position: at(text, 10).position, kind: ErrorKind::Outdent })
    );
    assert_eq!(indented_whitespace(&input, at(text, 2), 0), Parsed::Done((), at(text, 10)));
}

#[test]
fn indented_whitespace_up_to_the_end_of_input() {
    let text = "a\n \n";
    let input = chars(text);
    assert_eq!(indented_whitespace(&input, at(text, 1), 5), Parsed::Done((), at(text, 4)));
    let text = "a\n  ";
    let input = chars(text);
    assert_eq!(indented_whitespace(&input, at(text, 1), 5), Parsed::Done((), at(text, 4)));
}

#[test]
fn runs_of_indented_whitespace() {
    let text = "a  \n  b";
    let input = chars(text);
    assert_eq!(indented_whitespaces(&input, at(text, 0), 1), Parsed::Done((), at(text, 0)));
    assert_eq!(indented_whitespaces1(&input, at(text, 0), 1), Parsed::Skip);
    assert_eq!(indented_whitespaces(&input, at(text, 1), 2), Parsed::Done((), at(text, 6)));
    assert_eq!(indented_whitespaces1(&input, at(text, 1), 2), Parsed::Done((), at(text, 6)));
    assert_eq!(
        indented_whitespaces(&input, at(text, 1), 3),
        Parsed::Fail(ParseError { position: at(text, 6).position, kind: ErrorKind::Outdent })
    );
}

#[test]
fn identifiers() {
    let text = "abc1 d";
    assert_eq!(ident(&chars(text), State::start()), Parsed::Done("abc1".to_string(), at(text, 4)));
    assert_eq!(ident(&chars(" x"), State::start()), Parsed::Skip);
    assert_eq!(ident(&chars(""), State::start()), Parsed::Skip);
    assert_eq!(
        ident(&chars("if"), State::start()),
        Parsed::Fail(ParseError {
            position: at("if", 2).position,
            kind: ErrorKind::ReservedKeyword(Keyword::If)
        })
    );
    assert_eq!(
        ident(&chars("Abc"), State::start()),
        Parsed::Fail(ParseError {
            position: at("Abc", 3).position,
            kind: ErrorKind::InvalidIdentStart
        })
    );
    assert_eq!(
        ident(&chars("1abc"), State::start()),
        Parsed::Fail(ParseError {
            position: at("1abc", 4).position,
            kind: ErrorKind::InvalidIdentStart
        })
    );
    assert_eq!(
        ErrorKind::InvalidIdentStart.message(),
        "First character in an identifier that was not a lowercase letter"
    );
}

#[test]
fn identifiers_are_ascii() {
    assert_eq!(ident(&chars("\u{e9}t\u{e9}"), State::start()), Parsed::Skip);
    let text = "caf\u{e9}";
    assert_eq!(ident(&chars(text), State::start()), Parsed::Done("caf".to_string(), at(text, 3)));
}

#[test]
fn tag_names() {
    let text = "Foo1_";
    assert_eq!(
        variant_name(&chars(text), State::start()),
        Parsed::Done("Foo1".to_string(), at(text, 4))
    );
    assert_eq!(variant_name(&chars("foo"), State::start()), Parsed::Skip);
    assert_eq!(variant_name(&chars("1"), State::start()), Parsed::Skip);
}

#[test]
fn operator_tokens() {
    assert_eq!(operator(&chars("=="), State::start()), Parsed::Done(Operator::Equals, at("==", 2)));
    assert_eq!(operator(&chars("="), State::start()), Parsed::Skip);
    assert_eq!(operator(&chars("+1"), State::start()), Parsed::Done(Operator::Plus, at("+1", 1)));
    assert_eq!(operator(&chars("-"), State::start()), Parsed::Done(Operator::Minus, at("-", 1)));
    assert_eq!(operator(&chars("*"), State::start()), Parsed::Done(Operator::Star, at("*", 1)));
    assert_eq!(operator(&chars("/"), State::start()), Parsed::Done(Operator::Slash, at("/", 1)));
    assert_eq!(operator(&chars("a"), State::start()), Parsed::Skip);
}

#[test]
fn patterns() {
    assert_eq!(pattern(&chars("_"), State::start(), 1), Parsed::Done(Pattern::Underscore, at("_", 1)));
    assert_eq!(
        pattern(&chars("{}"), State::start(), 1),
        Parsed::Done(Pattern::EmptyRecord, at("{}", 2))
    );
    assert_eq!(
        pattern(&chars("abc"), State::start(), 1),
        Parsed::Done(Pattern::Identifier("abc".to_string()), at("abc", 3))
    );
    assert_eq!(
        pattern(&chars("Foo x"), State::start(), 1),
        Parsed::Done(Pattern::Variant("Foo".to_string(), None), at("Foo x", 3))
    );
    assert_eq!(pattern(&chars("{ }"), State::start(), 1), Parsed::Skip);
    assert_eq!(pattern(&chars("+"), State::start(), 1), Parsed::Skip);
}

#[test]
fn tag_patterns() {
    let text = "Foo_, Bar{},x y";
    assert_eq!(
        match_variant(&chars(text), State::start(), 1),
        Parsed::Done(
            Pattern::Variant(
                "Foo".to_string(),
                Some(vec![
                    Pattern::Underscore,
                    Pattern::Variant("Bar".to_string(), Some(vec![
                        Pattern::EmptyRecord,
                        Pattern::Identifier("x".to_string())
                    ])),
                ])
            ),
            at(text, 13)
        )
    );
    let text = "Foo_, 1";
    assert_eq!(
        match_variant(&chars(text), State::start(), 1),
        Parsed::Done(Pattern::Variant("Foo".to_string(), None), at(text, 3))
    );
    assert_eq!(match_variant(&chars("foo"), State::start(), 1), Parsed::Skip);
}

#[test]
fn number_literal_positions() {
    let text = "12 345 then";
    assert_eq!(
        number_literal(&chars(text), State::start()),
        Parsed::Done(Expr::Int(12345), at(text, 6))
    );
    let text = "7 + 1";
    assert_eq!(number_literal(&chars(text), State::start()), Parsed::Done(Expr::Int(7), at(text, 1)));
    let text = "7  8";
    assert_eq!(number_literal(&chars(text), State::start()), Parsed::Done(Expr::Int(7), at(text, 1)));
    assert_eq!(number_literal(&chars("x"), State::start()), Parsed::Skip);
    assert_eq!(number_literal(&chars("-"), State::start()), Parsed::Skip);
    assert_eq!(
        number_literal(&chars("12a.5"), State::start()),
        Parsed::Fail(ParseError {
            position: at("12a.5", 5).position,
            kind: ErrorKind::MalformedNumber
        })
    );
}

#[test]
fn literal_parsers_skip_what_is_not_theirs() {
    assert_eq!(string_literal(&chars("'a'"), State::start()), Parsed::Skip);
    assert_eq!(char_literal(&chars("\"a\""), State::start()), Parsed::Skip);
    assert_eq!(
        string_literal(&chars("\"a\" b"), State::start()),
        Parsed::Done(Expr::Str("a".to_string()), at("\"a\" b", 3))
    );
    assert_eq!(
        char_literal(&chars("'a' b"), State::start()),
        Parsed::Done(Expr::Char('a'), at("'a' b", 3))
    );
}

#[test]
fn body_characters() {
    let text = "\\(x";
    assert_eq!(string_body(&chars(text), State::start()), Parsed::Skip);
    assert_eq!(
        char_body(&chars(text), State::start()),
        Parsed::Fail(ParseError { position: at(text, 1).position, kind: ErrorKind::InvalidEscape })
    );
    assert_eq!(string_body(&chars("\""), State::start()), Parsed::Skip);
    assert_eq!(char_body(&chars("\""), State::start()), Parsed::Done('"', at("\"", 1)));
    assert_eq!(string_body(&chars("'"), State::start()), Parsed::Done('\'', at("'", 1)));
    assert_eq!(char_body(&chars("'"), State::start()), Parsed::Skip);
    assert_eq!(string_body(&chars("\\n"), State::start()), Parsed::Done('\n', at("\\n", 2)));
}

#[test]
fn rules_skip_what_is_not_theirs() {
    let input = chars("x");
    let start = State::start();
    assert_eq!(if_expr(&input, start, 1), Parsed::Skip);
    assert_eq!(match_expr(&input, start, 1), Parsed::Skip);
    assert_eq!(let_expr(&input, start, 1), Parsed::Skip);
    assert_eq!(closure(&input, start, 1), Parsed::Skip);
    assert_eq!(parenthetical_expr(&input, start, 1), Parsed::Skip);
    assert_eq!(apply_variant(&input, start, 1), Parsed::Skip);
    assert_eq!(function_application(&input, start, 1), Parsed::Skip);
    assert_eq!(func_or_var(&chars("X"), start, 1), Parsed::Fail(ParseError {
        position: at("X", 1).position,
        kind: ErrorKind::InvalidIdentStart
    }));
    assert_eq!(expr_body(&chars(")"), start, 1), Parsed::Skip);
    assert_eq!(expr_body_without_operators(&chars(")"), start, 1), Parsed::Skip);
}

#[test]
fn keywords_need_whitespace_to_commit() {
    let start = State::start();
    assert_eq!(if_expr(&chars("if"), start, 1), Parsed::Skip);
    assert_eq!(if_expr(&chars("iffy"), start, 1), Parsed::Skip);
    assert_eq!(if_expr(&chars("if(x)"), start, 1), Parsed::Skip);
    assert_eq!(match_expr(&chars("cases x"), start, 1), Parsed::Skip);
    assert_eq!(if_expr(&chars("if\nx"), start, 1), Parsed::Skip);
}

#[test]
fn rules_end_where_their_text_ends() {
    let start = State::start();
    let text = "if a then b else c)";
    assert_eq!(
        if_expr(&chars(text), start, 1),
        Parsed::Done(
            Expr::If(
                Box::new(Expr::Var("a".to_string())),
                Box::new(Expr::Var("b".to_string())),
                Box::new(Expr::Var("c".to_string()))
            ),
            at(text, 18)
        )
    );
    let text = "Foo 1, 2 )";
    assert_eq!(
        apply_variant(&chars(text), start, 1),
        Parsed::Done(
            Expr::ApplyVariant("Foo".to_string(), Some(vec![Expr::Int(1), Expr::Int(2)])),
            at(text, 9)
        )
    );
    let text = " 1,\n  2,3";
    assert_eq!(
        function_application(&chars(text), start, 2),
        Parsed::Done(vec![Expr::Int(1), Expr::Int(2), Expr::Int(3)], at(text, 9))
    );
    let text = " 1, )";
    assert_eq!(function_application(&chars(text), start, 1), Parsed::Skip);
    let text = " then";
    assert_eq!(function_application(&chars(text), start, 1), Parsed::Skip);
    let text = "f 1 + 2";
    assert_eq!(
        expr_body_without_operators(&chars(text), start, 1),
        Parsed::Done(Expr::Func("f".to_string(), vec![Expr::Int(1)]), at(text, 4))
    );
    let text = "(x) y";
    assert_eq!(
        parenthetical_expr(&chars(text), start, 1),
        Parsed::Done(
            Expr::Apply(Box::new(Expr::Var("x".to_string())), vec![Expr::Var("y".to_string())]),
            at(text, 5)
        )
    );
}

#[test]
fn outermost_rule_takes_trailing_whitespace() {
    let text = "  x \n ";
    assert_eq!(expr(&chars(text), State::start()), Parsed::Done(Expr::Var("x".to_string()), at(text, 6)));
    let text = "x y";
    assert_eq!(
        expr(&chars(text), State::start()),
        Parsed::Done(Expr::Func("x".to_string(), vec![Expr::Var("y".to_string())]), at(text, 3))
    );
}

#[test]
fn declaration_in_a_block() {
    let text = "  x = 1\n  x";
    assert_eq!(
        let_expr(&chars(text), at(text, 2), 3),
        Parsed::Done(
            Expr::Let(
                Pattern::Identifier("x".to_string()),
                Box::new(Expr::Int(1)),
                Box::new(Expr::Var("x".to_string()))
            ),
            at(text, 11)
        )
    );
    assert_eq!(
        let_expr(&chars(text), at(text, 2), 4),
        Parsed::Fail(ParseError {
            position: at(text, 6).position,
            kind: ErrorKind::DeclarationOutdented
        })
    );
}
