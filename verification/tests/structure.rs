use expr_parser::error::{ErrorClass, ErrorKind, Expectation, Keyword};
use expr_parser::expr::{Branches, Expr, Operator, Pattern};
use expr_parser::parse::parse_string;

fn var(name: &str) -> Expr {
    Expr::Var(name.to_string())
}

fn tag(name: &str) -> Expr {
    Expr::ApplyVariant(name.to_string(), None)
}

fn binding(name: &str) -> Pattern {
    Pattern::Identifier(name.to_string())
}

fn failure(text: &str) -> ErrorKind {
    parse_string(text).unwrap_err().kind
}

#[test]
fn empty_record() {
    assert_eq!(parse_string("{}"), Ok(Expr::EmptyRecord));
    assert_eq!(parse_string("  {}  \n"), Ok(Expr::EmptyRecord));
}

#[test]
fn parentheses() {
    assert_eq!(parse_string("(x)"), Ok(var("x")));
    assert_eq!(parse_string("( x )"), Ok(var("x")));
    assert_eq!(
        parse_string("(1 + 2) * 3"),
        Ok(Expr::Operator(
            Box::new(Expr::Operator(
                Box::new(Expr::Int(1)),
                Operator::Plus,
                Box::new(Expr::Int(2))
            )),
            Operator::Star,
            Box::new(Expr::Int(3))
        ))
    );
    assert_eq!(failure("(1"), ErrorKind::Expected(Expectation::CloseParen));
    assert_eq!(failure("()"), ErrorKind::Expected(Expectation::Expression));
}

#[test]
fn application_of_a_parenthesized_expression() {
    assert_eq!(
        parse_string("(f) 1, 2"),
        Ok(Expr::Apply(Box::new(var("f")), vec![Expr::Int(1), Expr::Int(2)]))
    );
}

#[test]
fn function_application_by_juxtaposition() {
    assert_eq!(
        parse_string("f 1, 2"),
        Ok(Expr::Func("f".to_string(), vec![Expr::Int(1), Expr::Int(2)]))
    );
    assert_eq!(parse_string("f x"), Ok(Expr::Func("f".to_string(), vec![var("x")])));
    assert_eq!(
        parse_string("f \"a\", 'b', {}, Nil"),
        Ok(Expr::Func(
            "f".to_string(),
            vec![Expr::Str("a".to_string()), Expr::Char('b'), Expr::EmptyRecord, tag("Nil")]
        ))
    );
}

#[test]
fn an_operator_ends_an_argument() {
    assert_eq!(
        parse_string("f 1 + 2"),
        Ok(Expr::Operator(
            Box::new(Expr::Func("f".to_string(), vec![Expr::Int(1)])),
            Operator::Plus,
            Box::new(Expr::Int(2))
        ))
    );
}

#[test]
fn all_operators() {
    let pairs = [
        ("a == b", Operator::Equals),
        ("a + b", Operator::Plus),
        ("a - b", Operator::Minus),
        ("a * b", Operator::Star),
        ("a / b", Operator::Slash),
    ];
    for (text, op) in pairs {
        assert_eq!(
            parse_string(text),
            Ok(Expr::Operator(Box::new(var("a")), op, Box::new(var("b"))))
        );
    }
    assert_eq!(
        parse_string("1 - 2 - 3"),
        Ok(Expr::Operator(
            Box::new(Expr::Int(1)),
            Operator::Minus,
            Box::new(Expr::Operator(
                Box::new(Expr::Int(2)),
                Operator::Minus,
                Box::new(Expr::Int(3))
            ))
        ))
    );
}

#[test]
fn closures() {
    assert_eq!(
        parse_string("(x) -> x"),
        Ok(Expr::Closure(vec![binding("x")], Box::new(var("x"))))
    );
    assert_eq!(
        parse_string("(x, y) -> x + y"),
        Ok(Expr::Closure(
            vec![binding("x"), binding("y")],
            Box::new(Expr::Operator(Box::new(var("x")), Operator::Plus, Box::new(var("y"))))
        ))
    );
    assert_eq!(
        parse_string("(_, {}) -> 1"),
        Ok(Expr::Closure(
            vec![Pattern::Underscore, Pattern::EmptyRecord],
            Box::new(Expr::Int(1))
        ))
    );
    assert_eq!(failure("(x) -> "), ErrorKind::Expected(Expectation::Expression));
}

#[test]
fn conditionals_nest() {
    assert_eq!(
        parse_string("if a then if b then 1 else 2 else 3"),
        Ok(Expr::If(
            Box::new(var("a")),
            Box::new(Expr::If(
                Box::new(var("b")),
                Box::new(Expr::Int(1)),
                Box::new(Expr::Int(2))
            )),
            Box::new(Expr::Int(3))
        ))
    );
}

#[test]
fn conditional_errors() {
    assert_eq!(failure("if 1 ) 2"), ErrorKind::Expected(Expectation::Then));
    assert_eq!(failure("if x then 1 ) 2"), ErrorKind::Expected(Expectation::Else));
    assert_eq!(failure("if x then 1"), ErrorKind::Expected(Expectation::Whitespace));
    assert_eq!(failure("if x then 1 else "), ErrorKind::Expected(Expectation::Expression));
    assert_eq!(failure("if then"), ErrorKind::ReservedKeyword(Keyword::Then));
}

#[test]
fn case_with_branches() {
    let parsed = parse_string("case x when Foo then 1 when Bar then 2").unwrap();
    let expected = Expr::Case(
        Box::new(var("x")),
        Branches::from_vec(vec![
            (Pattern::Variant("Foo".to_string(), None), Expr::Int(1)),
            (Pattern::Variant("Bar".to_string(), None), Expr::Int(2)),
        ]),
    );
    assert_eq!(parsed, expected);
    match parsed {
        Expr::Case(scrutinee, branches) => {
            assert_eq!(*scrutinee, var("x"));
            assert_eq!(branches.len(), 2);
            let (pattern, body) = branches.get(1).unwrap();
            assert_eq!(pattern, &Pattern::Variant("Bar".to_string(), None));
            assert_eq!(body, &Expr::Int(2));
            assert!(branches.get(2).is_none());
        }
        other => panic!("not a case: {:?}", other),
    }
}

#[test]
fn case_branch_directly_behind_an_application() {
    let parsed = parse_string("case x when A then f 1 when _ then y").unwrap();
    let mut expected = Branches::new();
    expected.push(
        Pattern::Variant("A".to_string(), None),
        Expr::Func("f".to_string(), vec![Expr::Int(1)]),
    );
    expected.push(Pattern::Underscore, var("y"));
    assert_eq!(parsed, Expr::Case(Box::new(var("x")), expected));
}

#[test]
fn case_over_several_lines() {
    let parsed = parse_string("case n\n  when zero then 0\n  when other then 1").unwrap();
    let expected = Expr::Case(
        Box::new(var("n")),
        Branches::from_vec(vec![(binding("zero"), Expr::Int(0)), (binding("other"), Expr::Int(1))]),
    );
    assert_eq!(parsed, expected);
}

#[test]
fn case_patterns() {
    let parsed = parse_string("case x when Foo_, y then 1 when {} then 2").unwrap();
    let expected = Expr::Case(
        Box::new(var("x")),
        Branches::from_vec(vec![
            (
                Pattern::Variant(
                    "Foo".to_string(),
                    Some(vec![Pattern::Underscore, binding("y")]),
                ),
                Expr::Int(1),
            ),
            (Pattern::EmptyRecord, Expr::Int(2)),
        ]),
    );
    assert_eq!(parsed, expected);
}

#[test]
fn case_without_branches_is_an_error() {
    let err = parse_string("case x ").unwrap_err();
    assert_eq!(err.kind, ErrorKind::EmptyCase);
    assert_eq!(err.kind.class(), ErrorClass::Structure);
    assert_eq!(err.kind.message(), "encountered match-expression with no branches!");
    assert_eq!(failure("case x foo"), ErrorKind::Expected(Expectation::Whitespace));
}

#[test]
fn case_errors() {
    assert_eq!(failure("case x when"), ErrorKind::Expected(Expectation::Whitespace));
    assert_eq!(failure("case x when ) then 1"), ErrorKind::Expected(Expectation::Pattern));
    assert_eq!(failure("case x when 1 then 2"), ErrorKind::InvalidIdentStart);
    assert_eq!(failure("case x when y ) 2"), ErrorKind::Expected(Expectation::Then));
    assert_eq!(failure("case x when y then "), ErrorKind::Expected(Expectation::Expression));
    assert_eq!(failure("case x when if then 1"), ErrorKind::ReservedKeyword(Keyword::If));
    assert_eq!(failure("case"), ErrorKind::ReservedKeyword(Keyword::Case));
}

#[test]
fn reserved_words_are_no_variables() {
    assert_eq!(failure("then"), ErrorKind::ReservedKeyword(Keyword::Then));
    assert_eq!(failure("else"), ErrorKind::ReservedKeyword(Keyword::Else));
    assert_eq!(failure("when"), ErrorKind::ReservedKeyword(Keyword::When));
    assert_eq!(ErrorKind::ReservedKeyword(Keyword::When).message(), "Reserved keyword `when`");
    assert_eq!(parse_string("thenx"), Ok(var("thenx")));
    assert_eq!(parse_string("whenever"), Ok(var("whenever")));
}

#[test]
fn nothing_but_whitespace_may_follow() {
    let err = parse_string("1 )").unwrap_err();
    assert_eq!(err.kind, ErrorKind::Expected(Expectation::EndOfInput));
    assert_eq!((err.position.line, err.position.column), (1, 3));
    assert_eq!(parse_string("1 \n\n  "), Ok(Expr::Int(1)));
    let err = parse_string("x)").unwrap_err();
    assert_eq!(err.kind, ErrorKind::Expected(Expectation::EndOfInput));
    assert_eq!((err.position.line, err.position.column), (1, 2));
}

#[test]
fn empty_input_is_no_expression() {
    let err = parse_string("").unwrap_err();
    assert_eq!(err.kind, ErrorKind::Expected(Expectation::Expression));
    assert_eq!((err.position.line, err.position.column), (1, 1));
    let err = parse_string("   ").unwrap_err();
    assert_eq!(err.kind, ErrorKind::Expected(Expectation::Expression));
    assert_eq!((err.position.line, err.position.column), (1, 4));
    assert_eq!(err.kind.class(), ErrorClass::Syntax);
}
