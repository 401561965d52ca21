use expr_parser::error::{ErrorClass, ErrorKind, Keyword};
use expr_parser::expr::{Expr, Operator};
use expr_parser::parse::parse_string;

fn num(n: i64) -> Expr {
    Expr::Int(n)
}

#[test]
fn variable_parses_as_var() {
    assert_eq!(parse_string("foo"), Ok(Expr::Var("foo".to_string())));
    assert_eq!(parse_string("index"), Ok(Expr::Var("index".to_string())));
    assert_eq!(parse_string("iffy"), Ok(Expr::Var("iffy".to_string())));
    assert_eq!(parse_string("cases9"), Ok(Expr::Var("cases9".to_string())));
}

#[test]
fn string_literals() {
    assert_eq!(parse_string("\"abc\""), Ok(Expr::Str("abc".to_string())));
    assert_eq!(parse_string("\"\""), Ok(Expr::EmptyStr));
}

#[test]
fn operators_chain_to_the_right() {
    assert_eq!(
        parse_string("1 + 2"),
        Ok(Expr::Operator(Box::new(num(1)), Operator::Plus, Box::new(num(2))))
    );
    assert_eq!(
        parse_string("1 + 2 * 3"),
        Ok(Expr::Operator(
            Box::new(num(1)),
            Operator::Plus,
            Box::new(Expr::Operator(Box::new(num(2)), Operator::Star, Box::new(num(3))))
        ))
    );
}

#[test]
fn numbers() {
    assert_eq!(parse_string("123.45"), Ok(Expr::Frac(12345, 100)));
    assert_eq!(parse_string("-5"), Ok(Expr::Int(-5)));
}

#[test]
fn variants() {
    assert_eq!(parse_string("Foo"), Ok(Expr::ApplyVariant("Foo".to_string(), None)));
    assert_eq!(
        parse_string("Foo 1, 2"),
        Ok(Expr::ApplyVariant("Foo".to_string(), Some(vec![num(1), num(2)])))
    );
}

#[test]
fn reserved_word_and_conditional() {
    let err = parse_string("if").unwrap_err();
    assert_eq!(err.kind, ErrorKind::ReservedKeyword(Keyword::If));
    assert_eq!(err.kind.class(), ErrorClass::ReservedWord);
    assert_eq!(
        parse_string("if True then 1 else 2"),
        Ok(Expr::If(
            Box::new(Expr::ApplyVariant("True".to_string(), None)),
            Box::new(num(1)),
            Box::new(num(2))
        ))
    );
}
