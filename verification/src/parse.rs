//! The executable parsers. Each computes the rule of the same name in
//! [`crate::grammar`], from a state in the input to a value and the state
//! behind it.

use vstd::prelude::*;
use crate::chars::{at_char, at_keyword, at_pair, at_terminator, upper};
use crate::error::{
    agrees, lemma_prepend_push, ErrorKind, Expectation, Keyword, Outcome, ParseError, Parsed,
};
pub use crate::error::ERR_EMPTY_CHAR;
use crate::expr::{
    lemma_apply_variant_view, lemma_apply_view, lemma_closure_view, lemma_deep_view_push,
    lemma_func_view, lemma_variant_pattern_view, Branches, Expr, ExprView, Operator, Pattern,
    PatternView,
};
use crate::grammar::{
    apply_variant_spec, argument_list_spec, argument_spec, branch_head_spec, branches_spec,
    closure_head_spec, closure_spec, comma_spec, expr_body_spec, expr_body_without_operators_spec,
    expr_spec, func_or_var_spec, function_application_spec, if_expr_spec,
    keyword_head_spec, let_expr_spec, let_head_spec, match_expr_spec, match_variant_spec,
    operator_spec, operator_tail_spec, parenthetical_expr_spec, parse_spec, pattern_list_spec,
    pattern_spec, separator_spec,
};
use crate::ident::{lemma_ident_valid, lemma_variant_name_valid, valid_ident};
pub use crate::ident::{ident, variant_name};
use crate::layout::{
    indented_whitespaces, indented_whitespaces1, spaces, whitespace,
    whitespace1, whitespace_or_eof,
};
pub use crate::number::number_literal;
use crate::parse_state::{State, MAX_INPUT_LEN};
pub use crate::text::{char_literal, string_literal};

verus! {

/// The failure of a rule that needed `expected` at `at`.
fn unexpected(at: State, expected: Expectation) -> (e: ParseError)
    ensures
        e == (ParseError { position: at.position, kind: ErrorKind::Expected(expected) }),
{
    ParseError { position: at.position, kind: ErrorKind::Expected(expected) }
}

/// The length of a reserved word.
fn keyword_len(word: Keyword) -> (n: usize)
    ensures
        n == word.text().len(),
        n == 2 || n == 4,
{
    match word {
        Keyword::If => 2,
        _ => 4,
    }
}

/// Parses the keyword `word` and the whitespace behind it.
fn keyword_head(input: &[char], st: State, word: Keyword, min_indent: i32) -> (r: Parsed<()>)
    requires
        input@.len() <= MAX_INPUT_LEN,
        st.wf(input@),
    ensures
        agrees(r, keyword_head_spec(input@, st.index as int, word, min_indent as int), input@),
        r matches Parsed::Done(_, end) ==> st.index < end.index,
{
    if at_keyword(input, st.index, word) {
        let behind = st.advance_by(input, keyword_len(word));
        indented_whitespaces1(input, behind, min_indent).attempt()
    } else {
        Parsed::Skip
    }
}

/// Parses whitespace, the keyword `word`, and whitespace.
fn separator(input: &[char], st: State, word: Keyword, min_indent: i32) -> (r: Parsed<()>)
    requires
        input@.len() <= MAX_INPUT_LEN,
        st.wf(input@),
    ensures
        agrees(r, separator_spec(input@, st.index as int, word, min_indent as int), input@),
        r matches Parsed::Done(_, end) ==> st.index < end.index,
{
    match indented_whitespaces1(input, st, min_indent).or_fail(st, Expectation::Whitespace) {
        Parsed::Done(_, at) => {
            if at_keyword(input, at.index, word) {
                let behind = at.advance_by(input, keyword_len(word));
                indented_whitespaces1(input, behind, min_indent).or_fail(
                    behind,
                    Expectation::Whitespace,
                )
            } else {
                let expected = match word {
                    Keyword::Else => Expectation::Else,
                    _ => Expectation::Then,
                };
                Parsed::Fail(ParseError { position: at.position, kind: ErrorKind::Expected(expected) })
            }
        },
        other => other,
    }
}

/// Parses a comma and the whitespace behind it.
fn comma(input: &[char], st: State, min_indent: i32) -> (r: Parsed<()>)
    requires
        input@.len() <= MAX_INPUT_LEN,
        st.wf(input@),
    ensures
        agrees(r, comma_spec(input@, st.index as int, min_indent as int), input@),
        r matches Parsed::Done(_, end) ==> st.index < end.index,
{
    if at_char(input, st.index, ',') {
        indented_whitespaces(input, st.advance(input), min_indent)
    } else {
        Parsed::Skip
    }
}

/// Parses a binary operator.
pub fn operator(input: &[char], st: State) -> (r: Parsed<Operator>)
    requires
        input@.len() <= MAX_INPUT_LEN,
        st.wf(input@),
    ensures
        agrees(r, operator_spec(input@, st.index as int), input@),
        r matches Parsed::Done(_, end) ==> st.index < end.index,
        !(r is Fail),
{
    if at_pair(input, st.index, '=', '=') {
        Parsed::Done(Operator::Equals, st.advance_by(input, 2))
    } else if at_char(input, st.index, '+') {
        Parsed::Done(Operator::Plus, st.advance(input))
    } else if at_char(input, st.index, '-') {
        Parsed::Done(Operator::Minus, st.advance(input))
    } else if at_char(input, st.index, '*') {
        Parsed::Done(Operator::Star, st.advance(input))
    } else if at_char(input, st.index, '/') {
        Parsed::Done(Operator::Slash, st.advance(input))
    } else {
        Parsed::Skip
    }
}

/// Parses the whitespace and the operator behind an operand, up to the
/// right operand.
fn operator_tail(input: &[char], st: State, min_indent: i32) -> (r: Parsed<Operator>)
    requires
        input@.len() <= MAX_INPUT_LEN,
        st.wf(input@),
    ensures
        agrees(r, operator_tail_spec(input@, st.index as int, min_indent as int), input@),
        r matches Parsed::Done(_, end) ==> st.index < end.index,
        !(r is Fail),
{
    match indented_whitespaces(input, st, min_indent) {
        Parsed::Done(_, at) => match operator(input, at) {
            Parsed::Done(op, behind) => Parsed::Done(op, whitespace(input, behind)),
            _ => Parsed::Skip,
        },
        _ => Parsed::Skip,
    }
}

/// Parses a pattern.
pub fn pattern(input: &[char], st: State, min_indent: i32) -> (r: Parsed<Pattern>)
    requires
        input@.len() <= MAX_INPUT_LEN,
        st.wf(input@),
    ensures
        agrees(r, pattern_spec(input@, st.index as int, min_indent as int), input@),
        r matches Parsed::Done(_, end) ==> st.index < end.index,
    decreases input@.len() - st.index, 1int,
{
    if at_char(input, st.index, '_') {
        Parsed::Done(Pattern::Underscore, st.advance(input))
    } else if at_pair(input, st.index, '{', '}') {
        Parsed::Done(Pattern::EmptyRecord, st.advance_by(input, 2))
    } else if st.index < input.len() && upper(input[st.index]) {
        match_variant(input, st, min_indent)
    } else {
        proof {
            lemma_ident_valid(input@, st.index as int);
        }
        match ident(input, st) {
            Parsed::Done(name, end) => Parsed::Done(Pattern::Identifier(name), end),
            Parsed::Skip => Parsed::Skip,
            Parsed::Fail(e) => Parsed::Fail(e),
        }
    }
}

/// Parses a tag pattern: the name and, directly behind it, its patterns if
/// there are any.
pub fn match_variant(input: &[char], st: State, min_indent: i32) -> (r: Parsed<Pattern>)
    requires
        input@.len() <= MAX_INPUT_LEN,
        st.wf(input@),
    ensures
        agrees(r, match_variant_spec(input@, st.index as int, min_indent as int), input@),
        r matches Parsed::Done(_, end) ==> st.index < end.index,
    decreases input@.len() - st.index, 0int,
{
    proof {
        lemma_variant_name_valid(input@, st.index as int);
    }
    match variant_name(input, st) {
        Parsed::Done(name, behind) => match pattern_list(input, behind, min_indent) {
            Parsed::Done(subs, end) => {
                proof {
                    lemma_variant_pattern_view(name, subs);
                }
                Parsed::Done(Pattern::Variant(name, Some(subs)), end)
            },
            _ => Parsed::Done(Pattern::Variant(name, None), behind),
        },
        _ => Parsed::Skip,
    }
}

/// Parses one pattern or more, separated by commas.
#[verifier::spinoff_prover]
#[verifier::rlimit(40)]
fn pattern_list(input: &[char], st: State, min_indent: i32) -> (r: Parsed<Vec<Pattern>>)
    requires
        input@.len() <= MAX_INPUT_LEN,
        st.wf(input@),
    ensures
        agrees(r, pattern_list_spec(input@, st.index as int, min_indent as int), input@),
        r matches Parsed::Done(_, end) ==> st.index < end.index,
        !(r is Fail),
    decreases input@.len() - st.index, 2int,
{
    let mut cur = st;
    let mut patterns: Vec<Pattern> = Vec::new();
    proof {
        assert(patterns.deep_view() =~= Seq::empty());
        lemma_prepend_push(
            pattern_list_spec(input@, st.index as int, min_indent as int),
            Seq::empty(),
            PatternView::Underscore,
        );
    }
    loop
        invariant
            input@.len() <= MAX_INPUT_LEN,
            cur.wf(input@),
            st.index <= cur.index,
            pattern_list_spec(input@, st.index as int, min_indent as int) == pattern_list_spec(
                input@,
                cur.index as int,
                min_indent as int,
            ).prepend(patterns.deep_view()),
        decreases input@.len() - cur.index,
    {
        let (first, behind) = match pattern(input, cur, min_indent) {
            Parsed::Done(first, behind) => (first, behind),
            _ => {
                return Parsed::Skip;
            },
        };
        let ghost before = patterns;
        let ghost value = first.deep_view();
        patterns.push(first);
        proof {
            lemma_deep_view_push(before, patterns, first);
        }
        match comma(input, behind, min_indent) {
            Parsed::Done(_, next) => {
                proof {
                    lemma_prepend_push(
                        pattern_list_spec(input@, next.index as int, min_indent as int),
                        before.deep_view(),
                        value,
                    );
                }
                cur = next;
            },
            Parsed::Skip => {
                proof {
                    lemma_prepend_push(
                        Outcome::<Seq<PatternView>>::Skip,
                        before.deep_view(),
                        value,
                    );
                }
                return Parsed::Done(patterns, behind);
            },
            Parsed::Fail(_) => {
                return Parsed::Skip;
            },
        }
    }
}

/// Parses the head of a closure, up to its body.
#[verifier::spinoff_prover]
#[verifier::rlimit(40)]
fn closure_head(input: &[char], st: State, min_indent: i32) -> (r: Parsed<Vec<Pattern>>)
    requires
        input@.len() <= MAX_INPUT_LEN,
        st.wf(input@),
    ensures
        agrees(r, closure_head_spec(input@, st.index as int, min_indent as int), input@),
        r matches Parsed::Done(_, end) ==> st.index < end.index,
        !(r is Fail),
{
    if !at_char(input, st.index, '(') {
        return Parsed::Skip;
    }
    let (patterns, close) = match pattern_list(input, st.advance(input), min_indent) {
        Parsed::Done(patterns, close) => (patterns, close),
        _ => {
            return Parsed::Skip;
        },
    };
    if !at_char(input, close.index, ')') {
        return Parsed::Skip;
    }
    let arrow = match indented_whitespaces1(input, close.advance(input), min_indent) {
        Parsed::Done(_, arrow) => arrow,
        _ => {
            return Parsed::Skip;
        },
    };
    if !at_pair(input, arrow.index, '-', '>') {
        return Parsed::Skip;
    }
    match indented_whitespaces1(input, arrow.advance_by(input, 2), min_indent) {
        Parsed::Done(_, body) => Parsed::Done(patterns, body),
        _ => Parsed::Skip,
    }
}

/// Parses the head of a declaration: the pattern, the state behind it, and
/// the state behind `=`.
fn let_head(input: &[char], st: State, min_indent: i32) -> (r: Option<(Pattern, State, State)>)
    requires
        input@.len() <= MAX_INPUT_LEN,
        st.wf(input@),
    ensures
        match r {
            Some((pattern, pattern_end, equals_end)) => {
                &&& let_head_spec(input@, st.index as int, min_indent as int) == Some(
                    (pattern.to_view(), pattern_end.index as int, equals_end.index as int),
                )
                &&& pattern_end.wf(input@)
                &&& equals_end.wf(input@)
                &&& st.index < pattern_end.index < equals_end.index
            },
            None => let_head_spec(input@, st.index as int, min_indent as int) is None,
        },
{
    match pattern(input, st, min_indent) {
        Parsed::Done(pattern, pattern_end) => {
            let at = whitespace(input, pattern_end);
            if at_char(input, at.index, '=') && !at_char(input, at.index + 1, '=') && !at_char(
                input,
                at.index + 1,
                '>',
            ) {
                Some((pattern, pattern_end, at.advance(input)))
            } else {
                None
            }
        },
        _ => None,
    }
}

/// Parses an expression, with the operator and the right operand behind
/// it if there are any.
#[verifier::spinoff_prover]
#[verifier::rlimit(40)]
pub fn expr_body(input: &[char], st: State, min_indent: i32) -> (r: Parsed<Expr>)
    requires
        input@.len() <= MAX_INPUT_LEN,
        st.wf(input@),
    ensures
        agrees(r, expr_body_spec(input@, st.index as int, min_indent as int), input@),
        r matches Parsed::Done(_, end) ==> st.index < end.index,
    decreases input@.len() - st.index, 6int,
{
    match expr_body_without_operators(input, st, min_indent) {
        Parsed::Done(left, behind) => match operator_tail(input, behind, min_indent) {
            Parsed::Done(op, at) => match expr_body(input, at, min_indent) {
                Parsed::Done(right, end) => Parsed::Done(
                    Expr::Operator(Box::new(left), op, Box::new(right)),
                    end,
                ),
                _ => Parsed::Done(left, behind),
            },
            _ => Parsed::Done(left, behind),
        },
        other => other,
    }
}

/// Parses an expression without a trailing operator.
#[verifier::spinoff_prover]
#[verifier::rlimit(40)]
pub fn expr_body_without_operators(input: &[char], st: State, min_indent: i32) -> (r: Parsed<Expr>)
    requires
        input@.len() <= MAX_INPUT_LEN,
        st.wf(input@),
    ensures
        agrees(r, expr_body_without_operators_spec(input@, st.index as int, min_indent as int), input@),
        r matches Parsed::Done(_, end) ==> st.index < end.index,
    decreases input@.len() - st.index, 4int,
{
    match closure(input, st, min_indent) {
        Parsed::Skip => {},
        other => {
            return other;
        },
    }
    match parenthetical_expr(input, st, min_indent) {
        Parsed::Skip => {},
        other => {
            return other;
        },
    }
    if at_pair(input, st.index, '{', '}') {
        return Parsed::Done(Expr::EmptyRecord, st.advance_by(input, 2));
    }
    match string_literal(input, st) {
        Parsed::Skip => {},
        other => {
            return other;
        },
    }
    match number_literal(input, st) {
        Parsed::Skip => {},
        other => {
            return other;
        },
    }
    match char_literal(input, st) {
        Parsed::Skip => {},
        other => {
            return other;
        },
    }
    match if_expr(input, st, min_indent) {
        Parsed::Skip => {},
        other => {
            return other;
        },
    }
    match match_expr(input, st, min_indent) {
        Parsed::Skip => {},
        other => {
            return other;
        },
    }
    match let_expr(input, st, min_indent) {
        Parsed::Skip => {},
        other => {
            return other;
        },
    }
    match apply_variant(input, st, min_indent) {
        Parsed::Skip => {},
        other => {
            return other;
        },
    }
    func_or_var(input, st, min_indent)
}

/// Parses a closure: `(`, parameters, `)`, `->` and the body.
pub fn closure(input: &[char], st: State, min_indent: i32) -> (r: Parsed<Expr>)
    requires
        input@.len() <= MAX_INPUT_LEN,
        st.wf(input@),
    ensures
        agrees(r, closure_spec(input@, st.index as int, min_indent as int), input@),
        r matches Parsed::Done(_, end) ==> st.index < end.index,
    decreases input@.len() - st.index, 3int,
{
    match closure_head(input, st, min_indent) {
        Parsed::Done(patterns, at) => match expr_body(input, at, min_indent) {
            Parsed::Done(body, end) => {
                proof {
                    lemma_closure_view(patterns, body);
                }
                Parsed::Done(Expr::Closure(patterns, Box::new(body)), end)
            },
            Parsed::Skip => Parsed::Fail(unexpected(at, Expectation::Expression)),
            Parsed::Fail(e) => Parsed::Fail(e),
        },
        _ => Parsed::Skip,
    }
}

/// Parses an expression in parentheses, with the arguments behind it if
/// there are any.
#[verifier::spinoff_prover]
#[verifier::rlimit(40)]
pub fn parenthetical_expr(input: &[char], st: State, min_indent: i32) -> (r: Parsed<Expr>)
    requires
        input@.len() <= MAX_INPUT_LEN,
        st.wf(input@),
    ensures
        agrees(r, parenthetical_expr_spec(input@, st.index as int, min_indent as int), input@),
        r matches Parsed::Done(_, end) ==> st.index < end.index,
    decreases input@.len() - st.index, 3int,
{
    if !at_char(input, st.index, '(') {
        return Parsed::Skip;
    }
    let at = match indented_whitespaces(input, st.advance(input), min_indent) {
        Parsed::Done(_, at) => at,
        Parsed::Skip => {
            return Parsed::Skip;
        },
        Parsed::Fail(e) => {
            return Parsed::Fail(e);
        },
    };
    let (inner, behind) = match expr_body(input, at, min_indent) {
        Parsed::Done(inner, behind) => (inner, behind),
        Parsed::Skip => {
            return Parsed::Fail(unexpected(at, Expectation::Expression));
        },
        Parsed::Fail(e) => {
            return Parsed::Fail(e);
        },
    };
    let close = match indented_whitespaces(input, behind, min_indent) {
        Parsed::Done(_, close) => close,
        Parsed::Skip => {
            return Parsed::Skip;
        },
        Parsed::Fail(e) => {
            return Parsed::Fail(e);
        },
    };
    if !at_char(input, close.index, ')') {
        return Parsed::Fail(unexpected(close, Expectation::CloseParen));
    }
    let end = close.advance(input);
    match function_application(input, end, min_indent) {
        Parsed::Done(args, end) => {
            proof {
                lemma_apply_view(inner, args);
            }
            Parsed::Done(Expr::Apply(Box::new(inner), args), end)
        },
        _ => Parsed::Done(inner, end),
    }
}

/// Parses `if`, a condition, `then`, an expression, `else`, an
/// expression.
#[verifier::spinoff_prover]
#[verifier::rlimit(40)]
pub fn if_expr(input: &[char], st: State, min_indent: i32) -> (r: Parsed<Expr>)
    requires
        input@.len() <= MAX_INPUT_LEN,
        st.wf(input@),
    ensures
        agrees(r, if_expr_spec(input@, st.index as int, min_indent as int), input@),
        r matches Parsed::Done(_, end) ==> st.index < end.index,
    decreases input@.len() - st.index, 3int,
{
    let a = match keyword_head(input, st, Keyword::If, min_indent) {
        Parsed::Done(_, a) => a,
        _ => {
            return Parsed::Skip;
        },
    };
    let (condition, b) = match expr_body(input, a, min_indent) {
        Parsed::Done(condition, b) => (condition, b),
        Parsed::Skip => {
            return Parsed::Fail(unexpected(a, Expectation::Expression));
        },
        Parsed::Fail(e) => {
            return Parsed::Fail(e);
        },
    };
    let c = match separator(input, b, Keyword::Then, min_indent) {
        Parsed::Done(_, c) => c,
        Parsed::Skip => {
            return Parsed::Skip;
        },
        Parsed::Fail(e) => {
            return Parsed::Fail(e);
        },
    };
    let (then_branch, d) = match expr_body(input, c, min_indent) {
        Parsed::Done(then_branch, d) => (then_branch, d),
        Parsed::Skip => {
            return Parsed::Fail(unexpected(c, Expectation::Expression));
        },
        Parsed::Fail(e) => {
            return Parsed::Fail(e);
        },
    };
    let e = match separator(input, d, Keyword::Else, min_indent) {
        Parsed::Done(_, e) => e,
        Parsed::Skip => {
            return Parsed::Skip;
        },
        Parsed::Fail(e) => {
            return Parsed::Fail(e);
        },
    };
    match expr_body(input, e, min_indent) {
        Parsed::Done(else_branch, end) => Parsed::Done(
            Expr::If(Box::new(condition), Box::new(then_branch), Box::new(else_branch)),
            end,
        ),
        Parsed::Skip => Parsed::Fail(unexpected(e, Expectation::Expression)),
        Parsed::Fail(e) => Parsed::Fail(e),
    }
}

/// Parses the `when` that starts a branch, behind whitespace if there is
/// any.
fn branch_head(input: &[char], st: State, min_indent: i32) -> (r: Parsed<()>)
    requires
        input@.len() <= MAX_INPUT_LEN,
        st.wf(input@),
    ensures
        agrees(r, branch_head_spec(input@, st.index as int, min_indent as int), input@),
        r matches Parsed::Done(_, end) ==> st.index < end.index,
        !(r is Fail),
{
    match indented_whitespaces(input, st, min_indent) {
        Parsed::Done(_, at) => {
            if at_keyword(input, at.index, Keyword::When) {
                Parsed::Done((), at.advance_by(input, 4))
            } else {
                Parsed::Skip
            }
        },
        _ => Parsed::Skip,
    }
}

/// Parses the branches of a `case`.
#[verifier::spinoff_prover]
#[verifier::rlimit(40)]
fn branches(input: &[char], st: State, min_indent: i32) -> (r: Parsed<Branches>)
    requires
        input@.len() <= MAX_INPUT_LEN,
        st.wf(input@),
    ensures
        agrees(r, branches_spec(input@, st.index as int, min_indent as int), input@),
        r matches Parsed::Done(_, end) ==> st.index <= end.index,
    decreases input@.len() - st.index, 0int,
{
    let mut cur = st;
    let mut found = Branches::empty();
    proof {
        lemma_prepend_push(
            branches_spec(input@, st.index as int, min_indent as int),
            Seq::empty(),
            (PatternView::Underscore, ExprView::EmptyRecord),
        );
    }
    loop
        invariant
            input@.len() <= MAX_INPUT_LEN,
            cur.wf(input@),
            st.index <= cur.index,
            branches_spec(input@, st.index as int, min_indent as int) == branches_spec(
                input@,
                cur.index as int,
                min_indent as int,
            ).prepend(found@),
        decreases input@.len() - cur.index,
    {
        let w = match branch_head(input, cur, min_indent) {
            Parsed::Done(_, w) => w,
            _ => {
                assert(found@ + Seq::<(PatternView, ExprView)>::empty() =~= found@);
                return Parsed::Done(found, cur);
            },
        };
        let a = match indented_whitespaces1(input, w, min_indent) {
            Parsed::Done(_, a) => a,
            Parsed::Skip => {
                return Parsed::Fail(unexpected(w, Expectation::Whitespace));
            },
            Parsed::Fail(e) => {
                return Parsed::Fail(e);
            },
        };
        let (pattern, b) = match pattern(input, a, min_indent) {
            Parsed::Done(pattern, b) => (pattern, b),
            Parsed::Skip => {
                return Parsed::Fail(unexpected(a, Expectation::Pattern));
            },
            Parsed::Fail(e) => {
                return Parsed::Fail(e);
            },
        };
        let c = match separator(input, b, Keyword::Then, min_indent) {
            Parsed::Done(_, c) => c,
            Parsed::Skip => {
                return Parsed::Skip;
            },
            Parsed::Fail(e) => {
                return Parsed::Fail(e);
            },
        };
        let (body, d) = match expr_body(input, c, min_indent) {
            Parsed::Done(body, d) => (body, d),
            Parsed::Skip => {
                return Parsed::Fail(unexpected(c, Expectation::Expression));
            },
            Parsed::Fail(e) => {
                return Parsed::Fail(e);
            },
        };
        let ghost before = found@;
        let ghost branch = (pattern.to_view(), body.to_view());
        found.append(pattern, body);
        proof {
            lemma_prepend_push(
                branches_spec(input@, d.index as int, min_indent as int),
                before,
                branch,
            );
        }
        cur = d;
    }
}

/// Parses `case`, the scrutinee and the branches.
#[verifier::spinoff_prover]
#[verifier::rlimit(40)]
pub fn match_expr(input: &[char], st: State, min_indent: i32) -> (r: Parsed<Expr>)
    requires
        input@.len() <= MAX_INPUT_LEN,
        st.wf(input@),
    ensures
        agrees(r, match_expr_spec(input@, st.index as int, min_indent as int), input@),
        r matches Parsed::Done(_, end) ==> st.index < end.index,
    decreases input@.len() - st.index, 3int,
{
    let a = match keyword_head(input, st, Keyword::Case, min_indent) {
        Parsed::Done(_, a) => a,
        _ => {
            return Parsed::Skip;
        },
    };
    let (scrutinee, b) = match expr_body(input, a, min_indent) {
        Parsed::Done(scrutinee, b) => (scrutinee, b),
        Parsed::Skip => {
            return Parsed::Fail(unexpected(a, Expectation::Expression));
        },
        Parsed::Fail(e) => {
            return Parsed::Fail(e);
        },
    };
    let c = match indented_whitespaces1(input, b, min_indent) {
        Parsed::Done(_, c) => c,
        Parsed::Skip => {
            return Parsed::Fail(unexpected(b, Expectation::Whitespace));
        },
        Parsed::Fail(e) => {
            return Parsed::Fail(e);
        },
    };
    match branches(input, c, min_indent) {
        Parsed::Done(found, end) => {
            if found.count() == 0 {
                Parsed::Fail(ParseError { position: c.position, kind: ErrorKind::EmptyCase })
            } else {
                Parsed::Done(Expr::Case(Box::new(scrutinee), found), end)
            }
        },
        Parsed::Skip => Parsed::Skip,
        Parsed::Fail(e) => Parsed::Fail(e),
    }
}

/// Parses a declaration and the expression in which it holds.
#[verifier::spinoff_prover]
#[verifier::rlimit(40)]
pub fn let_expr(input: &[char], st: State, min_indent: i32) -> (r: Parsed<Expr>)
    requires
        input@.len() <= MAX_INPUT_LEN,
        st.wf(input@),
    ensures
        agrees(r, let_expr_spec(input@, st.index as int, min_indent as int), input@),
        r matches Parsed::Done(_, end) ==> st.index < end.index,
    decreases input@.len() - st.index, 3int,
{
    let (pattern, pattern_end, equals_end) = match let_head(input, st, min_indent) {
        Some(head) => head,
        None => {
            return Parsed::Skip;
        },
    };
    let a = whitespace(input, equals_end);
    let original_indent = pattern_end.indent_col();
    if original_indent < min_indent {
        return Parsed::Fail(
            ParseError { position: a.position, kind: ErrorKind::DeclarationOutdented },
        );
    }
    if equals_end.indent_col() < original_indent {
        return Parsed::Fail(ParseError { position: a.position, kind: ErrorKind::EqualsOutdented });
    }
    proof {
        crate::parse_state::lemma_position_bounds(input@, pattern_end.index as int);
    }
    let (bound, b) = match expr_body(input, a, original_indent + 1) {
        Parsed::Done(bound, b) => (bound, b),
        Parsed::Skip => {
            return Parsed::Fail(unexpected(a, Expectation::Expression));
        },
        Parsed::Fail(e) => {
            return Parsed::Fail(e);
        },
    };
    let c = match whitespace1(input, b) {
        Parsed::Done(_, c) => c,
        _ => {
            return Parsed::Fail(unexpected(b, Expectation::Whitespace));
        },
    };
    proof {
        crate::chars::lemma_run_end(input@, b.index as int, crate::chars::CharClass::Blank);
    }
    match expr_body(input, c, original_indent) {
        Parsed::Done(body, end) => {
            if end.indent_col() != original_indent {
                Parsed::Fail(ParseError { position: end.position, kind: ErrorKind::BodyIndentMismatch })
            } else {
                Parsed::Done(Expr::Let(pattern, Box::new(bound), Box::new(body)), end)
            }
        },
        Parsed::Skip => Parsed::Fail(unexpected(c, Expectation::Expression)),
        Parsed::Fail(e) => Parsed::Fail(e),
    }
}

/// Parses a tag, with the arguments behind it if there are any.
pub fn apply_variant(input: &[char], st: State, min_indent: i32) -> (r: Parsed<Expr>)
    requires
        input@.len() <= MAX_INPUT_LEN,
        st.wf(input@),
    ensures
        agrees(r, apply_variant_spec(input@, st.index as int, min_indent as int), input@),
        r matches Parsed::Done(_, end) ==> st.index < end.index,
    decreases input@.len() - st.index, 3int,
{
    match variant_name(input, st) {
        Parsed::Done(name, behind) => match function_application(input, behind, min_indent) {
            Parsed::Done(args, end) => {
                proof {
                    lemma_apply_variant_view(name, args);
                }
                Parsed::Done(Expr::ApplyVariant(name, Some(args)), end)
            },
            _ => Parsed::Done(Expr::ApplyVariant(name, None), behind),
        },
        _ => Parsed::Skip,
    }
}

/// Parses an identifier, with the arguments behind it if there are any.
pub fn func_or_var(input: &[char], st: State, min_indent: i32) -> (r: Parsed<Expr>)
    requires
        input@.len() <= MAX_INPUT_LEN,
        st.wf(input@),
    ensures
        agrees(r, func_or_var_spec(input@, st.index as int, min_indent as int), input@),
        r matches Parsed::Done(_, end) ==> st.index < end.index,
    decreases input@.len() - st.index, 3int,
{
    match ident(input, st) {
        Parsed::Done(name, behind) => match function_application(input, behind, min_indent) {
            Parsed::Done(args, end) => {
                proof {
                    lemma_func_view(name, args);
                }
                Parsed::Done(Expr::Func(name, args), end)
            },
            _ => Parsed::Done(Expr::Var(name), behind),
        },
        Parsed::Skip => Parsed::Skip,
        Parsed::Fail(e) => Parsed::Fail(e),
    }
}

/// Parses the arguments of an application: whitespace, then arguments
/// separated by commas.
pub fn function_application(input: &[char], st: State, min_indent: i32) -> (r: Parsed<Vec<Expr>>)
    requires
        input@.len() <= MAX_INPUT_LEN,
        st.wf(input@),
    ensures
        agrees(r, function_application_spec(input@, st.index as int, min_indent as int), input@),
        r matches Parsed::Done(_, end) ==> st.index < end.index,
        !(r is Fail),
    decreases input@.len() - st.index, 6int,
{
    match indented_whitespaces1(input, st, min_indent) {
        Parsed::Done(_, at) => argument_list(input, at, min_indent),
        _ => Parsed::Skip,
    }
}

/// Parses one argument and the whitespace behind it.
fn argument(input: &[char], st: State, min_indent: i32) -> (r: Parsed<Expr>)
    requires
        input@.len() <= MAX_INPUT_LEN,
        st.wf(input@),
    ensures
        agrees(r, argument_spec(input@, st.index as int, min_indent as int), input@),
        r matches Parsed::Done(_, end) ==> st.index < end.index,
        !(r is Fail),
    decreases input@.len() - st.index, 5int,
{
    if at_terminator(input, st.index) {
        return Parsed::Skip;
    }
    match expr_body_without_operators(input, st, min_indent) {
        Parsed::Done(arg, behind) => match indented_whitespaces(input, behind, min_indent) {
            Parsed::Done(_, end) => Parsed::Done(arg, end),
            _ => Parsed::Skip,
        },
        _ => Parsed::Skip,
    }
}

/// Parses one argument or more, separated by commas.
#[verifier::spinoff_prover]
#[verifier::rlimit(40)]
fn argument_list(input: &[char], st: State, min_indent: i32) -> (r: Parsed<Vec<Expr>>)
    requires
        input@.len() <= MAX_INPUT_LEN,
        st.wf(input@),
    ensures
        agrees(r, argument_list_spec(input@, st.index as int, min_indent as int), input@),
        r matches Parsed::Done(_, end) ==> st.index < end.index,
        !(r is Fail),
    decreases input@.len() - st.index, 6int,
{
    let mut cur = st;
    let mut args: Vec<Expr> = Vec::new();
    proof {
        assert(args.deep_view() =~= Seq::empty());
        lemma_prepend_push(
            argument_list_spec(input@, st.index as int, min_indent as int),
            Seq::empty(),
            ExprView::EmptyRecord,
        );
    }
    loop
        invariant
            input@.len() <= MAX_INPUT_LEN,
            cur.wf(input@),
            st.index <= cur.index,
            argument_list_spec(input@, st.index as int, min_indent as int) == argument_list_spec(
                input@,
                cur.index as int,
                min_indent as int,
            ).prepend(args.deep_view()),
        decreases input@.len() - cur.index,
    {
        let (first, behind) = match argument(input, cur, min_indent) {
            Parsed::Done(first, behind) => (first, behind),
            _ => {
                return Parsed::Skip;
            },
        };
        let ghost before = args;
        let ghost value = first.deep_view();
        args.push(first);
        proof {
            lemma_deep_view_push(before, args, first);
        }
        match comma(input, behind, min_indent) {
            Parsed::Done(_, next) => {
                proof {
                    lemma_prepend_push(
                        argument_list_spec(input@, next.index as int, min_indent as int),
                        before.deep_view(),
                        value,
                    );
                }
                cur = next;
            },
            Parsed::Skip => {
                proof {
                    lemma_prepend_push(Outcome::<Seq<ExprView>>::Skip, before.deep_view(), value);
                }
                return Parsed::Done(args, behind);
            },
            Parsed::Fail(_) => {
                return Parsed::Skip;
            },
        }
    }
}

/// Parses the outermost expression: spaces, an expression, and the end of
/// the input or whitespace behind it.
pub fn expr(input: &[char], st: State) -> (r: Parsed<Expr>)
    requires
        input@.len() <= MAX_INPUT_LEN,
        st.wf(input@),
    ensures
        agrees(r, expr_spec(input@, st.index as int), input@),
        !(r is Skip),
{
    let start = spaces(input, st);
    match expr_body(input, start, 1) {
        Parsed::Done(value, behind) => match whitespace_or_eof(input, behind) {
            Parsed::Done(_, end) => Parsed::Done(value, end),
            _ => Parsed::Fail(unexpected(behind, Expectation::EndOfInput)),
        },
        Parsed::Skip => Parsed::Fail(unexpected(start, Expectation::Expression)),
        Parsed::Fail(e) => Parsed::Fail(e),
    }
}

/// The characters of `text`.
pub fn chars_of(text: &str) -> (chars: Vec<char>)
    ensures
        chars@ == text@,
{
    let mut chars: Vec<char> = Vec::new();
    for c in it: text.chars()
        invariant
            it.seq() == text@,
            chars@ == it.seq().take(it.index() as int),
    {
        chars.push(c);
        assert(chars@ =~= it.seq().take(it.index() + 1));
    }
    assert(chars@ =~= text@);
    chars
}

/// Parses `text` as one expression.
///
/// The result is the value of [`parse_spec`] on the characters of `text`:
/// the expression that it gives, which is well formed, or its failure with
/// the position that the text gives the index of the failure. A text that
/// is an identifier, and no longer than positions can count, gives the
/// variable of that name.
pub fn parse_string(text: &str) -> (r: Result<Expr, ParseError>)
    ensures
        match r {
            Ok(value) => parse_spec(text@) matches Outcome::Done(v, _) && v == value.to_view()
                && value.to_view().wf(),
            Err(e) => parse_spec(text@) matches Outcome::Fail(at, kind) && e.kind == kind
                && e.position == crate::parse_state::position_at(text@, at) && 0 <= at
                <= text@.len(),
        },
        valid_ident(text@) && text@.len() <= MAX_INPUT_LEN ==> (r matches Ok(value)
            && value.to_view() == ExprView::Var(text@)),
{
    proof {
        crate::laws::law_parse_is_well_formed(text@);
        if valid_ident(text@) && text@.len() <= MAX_INPUT_LEN {
            crate::laws::law_identifier_parses_as_variable(text@);
        }
    }
    let chars = chars_of(text);
    let input = chars.as_slice();
    let start = State::start();
    if input.len() > MAX_INPUT_LEN {
        return Err(ParseError { position: start.position, kind: ErrorKind::InputTooLong });
    }
    match expr(input, start) {
        Parsed::Done(value, end) => {
            if end.index == input.len() {
                Ok(value)
            } else {
                Err(unexpected(end, Expectation::EndOfInput))
            }
        },
        Parsed::Skip => Err(unexpected(start, Expectation::Expression)),
        Parsed::Fail(e) => Err(e),
    }
}

} // verus!
