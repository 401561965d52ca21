use expr_parser::error::{ErrorClass, ErrorKind, Expectation};
use expr_parser::expr::{Expr, Operator, Pattern};
use expr_parser::parse::parse_string;

fn name(text: &str) -> Expr {
    Expr::Var(text.to_string())
}

fn declaration(bound: &str, value: Expr, body: Expr) -> Expr {
    Expr::Let(Pattern::Identifier(bound.to_string()), Box::new(value), Box::new(body))
}

#[test]
fn declaration_with_aligned_body() {
    assert_eq!(parse_string("x = 5\nx"), Ok(declaration("x", Expr::Int(5), name("x"))));
    assert_eq!(parse_string(" x = 5\n x"), Ok(declaration("x", Expr::Int(5), name("x"))));
    assert_eq!(
        parse_string("_ = 5\n1"),
        Ok(Expr::Let(Pattern::Underscore, Box::new(Expr::Int(5)), Box::new(Expr::Int(1))))
    );
}

#[test]
fn declaration_body_one_column_to_the_left_fails() {
    let err = parse_string(" x = 5\nx").unwrap_err();
    assert_eq!(err.kind, ErrorKind::BodyIndentMismatch);
    assert_eq!(err.kind.class(), ErrorClass::Layout);
    assert_eq!((err.position.line, err.position.column), (2, 2));
    assert_eq!(
        err.message(),
        "the return expression was indented differently from the original declaration"
    );
}

#[test]
fn declaration_body_further_right_fails() {
    assert_eq!(parse_string("x = 5\n x").unwrap_err().kind, ErrorKind::BodyIndentMismatch);
}

#[test]
fn declarations_nest() {
    assert_eq!(
        parse_string("x = 1\ny = 2\nx + y"),
        Ok(declaration(
            "x",
            Expr::Int(1),
            declaration(
                "y",
                Expr::Int(2),
                Expr::Operator(Box::new(name("x")), Operator::Plus, Box::new(name("y")))
            )
        ))
    );
}

#[test]
fn bound_expression_continues_on_deeper_lines() {
    assert_eq!(
        parse_string("x =\n  1 +\n  2\nx"),
        Ok(declaration(
            "x",
            Expr::Operator(Box::new(Expr::Int(1)), Operator::Plus, Box::new(Expr::Int(2))),
            name("x")
        ))
    );
}

#[test]
fn declaration_left_of_its_block_fails() {
    let err = parse_string("x =\ny = 1\ny").unwrap_err();
    assert_eq!(err.kind, ErrorKind::DeclarationOutdented);
    assert_eq!(err.kind.class(), ErrorClass::Layout);
    assert_eq!(err.kind.message(), "this declaration is outdented too far");
}

#[test]
fn equals_sign_left_of_the_declaration_fails() {
    let err = parse_string("  x\n= 5\n  x").unwrap_err();
    assert_eq!(err.kind, ErrorKind::EqualsOutdented);
    assert_eq!(err.kind.class(), ErrorClass::Layout);
    assert_eq!(err.kind.message(), "the = in this declaration seems outdented");
}

#[test]
fn double_equals_and_arrow_start_no_declaration() {
    assert_eq!(
        parse_string("x == 1"),
        Ok(Expr::Operator(Box::new(name("x")), Operator::Equals, Box::new(Expr::Int(1))))
    );
    assert_eq!(
        parse_string("x => 1").unwrap_err().kind,
        ErrorKind::Expected(Expectation::EndOfInput)
    );
}

#[test]
fn declaration_needs_value_and_body() {
    assert_eq!(parse_string("x = ").unwrap_err().kind, ErrorKind::Expected(Expectation::Expression));
    assert_eq!(parse_string("x = 5").unwrap_err().kind, ErrorKind::Expected(Expectation::Whitespace));
    assert_eq!(parse_string("x = 5\n").unwrap_err().kind, ErrorKind::Expected(Expectation::Expression));
}

#[test]
fn continuation_line_must_be_indented() {
    let conditional = Expr::If(
        Box::new(Expr::ApplyVariant("True".to_string(), None)),
        Box::new(Expr::Int(1)),
        Box::new(Expr::Int(2)),
    );
    assert_eq!(parse_string("if True\n then 1\n else 2"), Ok(conditional));
    let err = parse_string("if True\nthen 1 else 2").unwrap_err();
    assert_eq!(err.kind, ErrorKind::Outdent);
    assert_eq!(err.kind.class(), ErrorClass::Layout);
    assert_eq!(err.kind.message(), "outdent");
    assert_eq!((err.position.line, err.position.column), (2, 1));
}

#[test]
fn blank_lines_do_not_count() {
    assert_eq!(
        parse_string("if a\n\n   \n then 1\n \n else 2"),
        Ok(Expr::If(Box::new(name("a")), Box::new(Expr::Int(1)), Box::new(Expr::Int(2))))
    );
}

#[test]
fn whitespace_may_end_the_input() {
    assert_eq!(
        parse_string("f 1\n"),
        Ok(Expr::Func("f".to_string(), vec![Expr::Int(1)]))
    );
    assert_eq!(parse_string("x\n\n"), Ok(name("x")));
}

#[test]
fn operator_on_the_next_line() {
    let sum = Expr::Operator(Box::new(Expr::Int(1)), Operator::Plus, Box::new(Expr::Int(2)));
    assert_eq!(parse_string("1 +\n 2"), Ok(sum));
    let sum = Expr::Operator(Box::new(Expr::Int(1)), Operator::Plus, Box::new(Expr::Int(2)));
    assert_eq!(parse_string("1\n + 2"), Ok(sum));
    let sum = Expr::Operator(Box::new(Expr::Int(1)), Operator::Plus, Box::new(Expr::Int(2)));
    assert_eq!(parse_string("1 +\n2"), Ok(sum));
    let err = parse_string("1\n+ 2").unwrap_err();
    assert_eq!(err.kind, ErrorKind::Expected(Expectation::EndOfInput));
    assert_eq!((err.position.line, err.position.column), (2, 1));
}

#[test]
fn outdented_argument_ends_the_application() {
    let err = parse_string("f\n1").unwrap_err();
    assert_eq!(err.kind, ErrorKind::Expected(Expectation::EndOfInput));
    assert_eq!(
        parse_string("f\n 1"),
        Ok(Expr::Func("f".to_string(), vec![Expr::Int(1)]))
    );
}

#[test]
fn leading_line_feed_is_no_leading_space() {
    let err = parse_string("\nx").unwrap_err();
    assert_eq!(err.kind, ErrorKind::Expected(Expectation::Expression));
    assert_eq!((err.position.line, err.position.column), (1, 1));
}
