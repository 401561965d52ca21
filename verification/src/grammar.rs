//! The grammar of patterns and expressions, as mathematical functions of
//! the input, an index and the minimum indent of the enclosing block.
//!
//! A rule ends in one of three ways ([`Outcome`]): it matches, it does not
//! start (`Skip`, and the next alternative is tried at the same index), or
//! it has committed to its alternative and fails for good. A rule commits
//! once the text that tells it apart from the other alternatives has
//! matched: the keyword and the whitespace behind it for `if` and `case`,
//! the pattern and `=` for a declaration, the parameter list and `->` for
//! a closure, the opening delimiter for literals and parentheses.
//!
//! Where a rule goes on behind the end of another, its definition first
//! tests that this end lies behind its own start and within the input
//! ([`inside`]), which is what makes the definitions well founded. The test
//! never fails: [`crate::laws::law_expression_is_well_formed`] shows that
//! every rule ends behind its start.

use vstd::prelude::*;
use crate::chars::{char_at, is_upper, literal_at, terminator_at};
use crate::error::{ErrorKind, Expectation, Keyword, Outcome};
use crate::expr::{ExprView, Operator, PatternView};
use crate::ident::{ident_spec, variant_name_spec};
use crate::layout::{
    indented_whitespaces1_spec, indented_whitespaces_spec, whitespace1_spec, whitespace_end,
};
use crate::number::number_literal_spec;
use crate::parse_state::position_at;
use crate::text::{char_literal_spec, string_literal_spec};

verus! {

/// `to` lies behind `from`, within the input.
pub open spec fn inside(s: Seq<char>, from: int, to: int) -> bool {
    from < to <= s.len()
}

impl<V> Outcome<V> {
    /// The first of two alternatives that starts.
    pub open spec fn or(self, other: Outcome<V>) -> Outcome<V> {
        if self is Skip {
            other
        } else {
            self
        }
    }

    /// An attempt: a failure of the rule counts as not having started.
    pub open spec fn attempt(self) -> Outcome<V> {
        if self is Fail {
            Outcome::Skip
        } else {
            self
        }
    }
}

/// The column of the first character other than a space on the line of
/// index `i`, as far as the line has been read up to `i`.
pub open spec fn indent_col_at(s: Seq<char>, i: int) -> int {
    position_at(s, i).indent_col as int
}

/// The keyword `word` and the whitespace that must follow it; `Skip` if
/// either is missing.
pub open spec fn keyword_head_spec(s: Seq<char>, i: int, word: Keyword, min_indent: int) -> Outcome<
    (),
> {
    if literal_at(s, i, word.text()) {
        indented_whitespaces1_spec(s, i + word.text().len(), min_indent).attempt()
    } else {
        Outcome::Skip
    }
}

/// Whitespace, the keyword `word`, whitespace: the text between two parts
/// of a rule that has committed. Each of the three must be there.
pub open spec fn separator_spec(s: Seq<char>, i: int, word: Keyword, min_indent: int) -> Outcome<
    (),
> {
    match indented_whitespaces1_spec(s, i, min_indent).or_fail(i, Expectation::Whitespace) {
        Outcome::Done(_, j) => {
            if literal_at(s, j, word.text()) {
                indented_whitespaces1_spec(s, j + word.text().len(), min_indent).or_fail(
                    j + word.text().len(),
                    Expectation::Whitespace,
                )
            } else {
                Outcome::Fail(
                    j,
                    ErrorKind::Expected(
                        if word == Keyword::Else {
                            Expectation::Else
                        } else {
                            Expectation::Then
                        },
                    ),
                )
            }
        },
        other => other,
    }
}

/// A comma and the whitespace behind it. No comma: `Skip`.
pub open spec fn comma_spec(s: Seq<char>, i: int, min_indent: int) -> Outcome<()> {
    if char_at(s, i, ',') {
        indented_whitespaces_spec(s, i + 1, min_indent)
    } else {
        Outcome::Skip
    }
}

/// A binary operator: `==`, `+`, `-`, `*` or `/`.
pub open spec fn operator_spec(s: Seq<char>, i: int) -> Outcome<Operator> {
    if literal_at(s, i, seq!['=', '=']) {
        Outcome::Done(Operator::Equals, i + 2)
    } else if char_at(s, i, '+') {
        Outcome::Done(Operator::Plus, i + 1)
    } else if char_at(s, i, '-') {
        Outcome::Done(Operator::Minus, i + 1)
    } else if char_at(s, i, '*') {
        Outcome::Done(Operator::Star, i + 1)
    } else if char_at(s, i, '/') {
        Outcome::Done(Operator::Slash, i + 1)
    } else {
        Outcome::Skip
    }
}

/// What may follow an operand: whitespace of the block, an operator, and
/// any whitespace. `Done` holds the operator and the index of the right
/// operand.
pub open spec fn operator_tail_spec(s: Seq<char>, i: int, min_indent: int) -> Outcome<Operator> {
    match indented_whitespaces_spec(s, i, min_indent) {
        Outcome::Done(_, j) => match operator_spec(s, j) {
            Outcome::Done(op, k) => Outcome::Done(op, whitespace_end(s, k)),
            _ => Outcome::Skip,
        },
        _ => Outcome::Skip,
    }
}

/// A pattern: `_`, `{}`, a tag with its patterns, or an identifier.
pub open spec fn pattern_spec(s: Seq<char>, i: int, min_indent: int) -> Outcome<PatternView>
    decreases s.len() - i, 1int,
{
    if char_at(s, i, '_') {
        Outcome::Done(PatternView::Underscore, i + 1)
    } else if literal_at(s, i, seq!['{', '}']) {
        Outcome::Done(PatternView::EmptyRecord, i + 2)
    } else if 0 <= i < s.len() && is_upper(s[i]) {
        match_variant_spec(s, i, min_indent)
    } else {
        match ident_spec(s, i) {
            Outcome::Done(name, e) => Outcome::Done(PatternView::Identifier(name), e),
            other => other.cast(),
        }
    }
}

/// A tag in a pattern, with the list of patterns that stands directly
/// behind its name, if one does.
pub open spec fn match_variant_spec(s: Seq<char>, i: int, min_indent: int) -> Outcome<PatternView>
    decreases s.len() - i, 0int,
{
    match variant_name_spec(s, i) {
        Outcome::Done(name, e) => if inside(s, i, e) {
            match pattern_list_spec(s, e, min_indent) {
                Outcome::Done(subs, end) => Outcome::Done(
                    PatternView::Variant(name, Some(subs)),
                    end,
                ),
                _ => Outcome::Done(PatternView::Variant(name, None), e),
            }
        } else {
            Outcome::Skip
        },
        other => other.cast(),
    }
}

/// One pattern or more, separated by commas; `Skip` unless every comma is
/// followed by a pattern. Never fails.
pub open spec fn pattern_list_spec(s: Seq<char>, i: int, min_indent: int) -> Outcome<
    Seq<PatternView>,
>
    decreases s.len() - i, 2int,
{
    match pattern_spec(s, i, min_indent) {
        Outcome::Done(first, e) => match comma_spec(s, e, min_indent) {
            Outcome::Done(_, k) => if inside(s, i, k) {
                match pattern_list_spec(s, k, min_indent) {
                    Outcome::Done(rest, end) => Outcome::Done(seq![first] + rest, end),
                    _ => Outcome::Skip,
                }
            } else {
                Outcome::Skip
            },
            Outcome::Skip => Outcome::Done(seq![first], e),
            Outcome::Fail(_, _) => Outcome::Skip,
        },
        _ => Outcome::Skip,
    }
}

/// The head of a closure: `(`, parameters, `)`, whitespace, `->`,
/// whitespace. `Skip` unless all of it is there.
pub open spec fn closure_head_spec(s: Seq<char>, i: int, min_indent: int) -> Outcome<
    Seq<PatternView>,
> {
    if char_at(s, i, '(') {
        match pattern_list_spec(s, i + 1, min_indent) {
            Outcome::Done(patterns, e) => if char_at(s, e, ')') {
                match indented_whitespaces1_spec(s, e + 1, min_indent) {
                    Outcome::Done(_, a) => if literal_at(s, a, seq!['-', '>']) {
                        match indented_whitespaces1_spec(s, a + 2, min_indent) {
                            Outcome::Done(_, b) => Outcome::Done(patterns, b),
                            _ => Outcome::Skip,
                        }
                    } else {
                        Outcome::Skip
                    },
                    _ => Outcome::Skip,
                }
            } else {
                Outcome::Skip
            },
            _ => Outcome::Skip,
        }
    } else {
        Outcome::Skip
    }
}

/// The head of a declaration: a pattern, any whitespace, and `=` with
/// neither `=` nor `>` behind it. `Done` holds the pattern, the index
/// behind it, and the index behind `=`.
pub open spec fn let_head_spec(s: Seq<char>, i: int, min_indent: int) -> Option<
    (PatternView, int, int),
> {
    match pattern_spec(s, i, min_indent) {
        Outcome::Done(pattern, e) => {
            let w = whitespace_end(s, e);
            if char_at(s, w, '=') && !char_at(s, w + 1, '=') && !char_at(s, w + 1, '>') {
                Some((pattern, e, w + 1))
            } else {
                None
            }
        },
        _ => None,
    }
}

/// An expression with the operator and right operand that follow it, if
/// they do. Operators have no precedence: the right operand is the whole
/// rest of the chain.
pub open spec fn expr_body_spec(s: Seq<char>, i: int, min_indent: int) -> Outcome<ExprView>
    decreases s.len() - i, 6int,
{
    match expr_body_without_operators_spec(s, i, min_indent) {
        Outcome::Done(left, e) => match operator_tail_spec(s, e, min_indent) {
            Outcome::Done(op, k) => if inside(s, i, k) {
                match expr_body_spec(s, k, min_indent) {
                    Outcome::Done(right, end) => Outcome::Done(
                        ExprView::Operator(Box::new(left), op, Box::new(right)),
                        end,
                    ),
                    _ => Outcome::Done(left, e),
                }
            } else {
                Outcome::Done(left, e)
            },
            _ => Outcome::Done(left, e),
        },
        other => other,
    }
}

/// An expression without a trailing operator: the first of the
/// alternatives, in this order, that starts.
pub open spec fn expr_body_without_operators_spec(s: Seq<char>, i: int, min_indent: int) -> Outcome<
    ExprView,
>
    decreases s.len() - i, 4int,
{
    closure_spec(s, i, min_indent).or(parenthetical_expr_spec(s, i, min_indent)).or(
        if literal_at(s, i, seq!['{', '}']) {
            Outcome::Done(ExprView::EmptyRecord, i + 2)
        } else {
            Outcome::Skip
        },
    ).or(string_literal_spec(s, i)).or(number_literal_spec(s, i)).or(char_literal_spec(s, i)).or(
        if_expr_spec(s, i, min_indent),
    ).or(match_expr_spec(s, i, min_indent)).or(let_expr_spec(s, i, min_indent)).or(
        apply_variant_spec(s, i, min_indent),
    ).or(func_or_var_spec(s, i, min_indent))
}

/// A closure: its head, then the body, which must be there.
pub open spec fn closure_spec(s: Seq<char>, i: int, min_indent: int) -> Outcome<ExprView>
    decreases s.len() - i, 3int,
{
    match closure_head_spec(s, i, min_indent) {
        Outcome::Done(patterns, k) => if inside(s, i, k) {
            match expr_body_spec(s, k, min_indent).or_fail(k, Expectation::Expression) {
                Outcome::Done(body, end) => Outcome::Done(
                    ExprView::Closure(patterns, Box::new(body)),
                    end,
                ),
                other => other,
            }
        } else {
            Outcome::Skip
        },
        _ => Outcome::Skip,
    }
}

/// An expression in parentheses, applied to the arguments behind it if
/// there are any.
pub open spec fn parenthetical_expr_spec(s: Seq<char>, i: int, min_indent: int) -> Outcome<ExprView>
    decreases s.len() - i, 3int,
{
    if !char_at(s, i, '(') {
        Outcome::Skip
    } else {
        match indented_whitespaces_spec(s, i + 1, min_indent) {
            Outcome::Done(_, a) => if inside(s, i, a) {
                match expr_body_spec(s, a, min_indent).or_fail(a, Expectation::Expression) {
                    Outcome::Done(inner, b) => match indented_whitespaces_spec(s, b, min_indent) {
                        Outcome::Done(_, c) => if !char_at(s, c, ')') {
                            Outcome::Fail(c, ErrorKind::Expected(Expectation::CloseParen))
                        } else if inside(s, i, c + 1) {
                            match function_application_spec(s, c + 1, min_indent) {
                                Outcome::Done(args, end) => Outcome::Done(
                                    ExprView::Apply(Box::new(inner), args),
                                    end,
                                ),
                                _ => Outcome::Done(inner, c + 1),
                            }
                        } else {
                            Outcome::Skip
                        },
                        other => other.cast(),
                    },
                    other => other,
                }
            } else {
                Outcome::Skip
            },
            other => other.cast(),
        }
    }
}

/// `if`, a condition, `then`, an expression, `else`, an expression, with
/// whitespace between all of them.
pub open spec fn if_expr_spec(s: Seq<char>, i: int, min_indent: int) -> Outcome<ExprView>
    decreases s.len() - i, 3int,
{
    match keyword_head_spec(s, i, Keyword::If, min_indent) {
        Outcome::Done(_, a) => if inside(s, i, a) {
            match expr_body_spec(s, a, min_indent).or_fail(a, Expectation::Expression) {
                Outcome::Done(condition, b) => match separator_spec(
                    s,
                    b,
                    Keyword::Then,
                    min_indent,
                ) {
                    Outcome::Done(_, c) => if inside(s, i, c) {
                        match expr_body_spec(s, c, min_indent).or_fail(c, Expectation::Expression) {
                            Outcome::Done(then_branch, d) => match separator_spec(
                                s,
                                d,
                                Keyword::Else,
                                min_indent,
                            ) {
                                Outcome::Done(_, e) => if inside(s, i, e) {
                                    match expr_body_spec(s, e, min_indent).or_fail(
                                        e,
                                        Expectation::Expression,
                                    ) {
                                        Outcome::Done(else_branch, end) => Outcome::Done(
                                            ExprView::If(
                                                Box::new(condition),
                                                Box::new(then_branch),
                                                Box::new(else_branch),
                                            ),
                                            end,
                                        ),
                                        other => other,
                                    }
                                } else {
                                    Outcome::Skip
                                },
                                other => other.cast(),
                            },
                            other => other,
                        }
                    } else {
                        Outcome::Skip
                    },
                    other => other.cast(),
                },
                other => other,
            }
        } else {
            Outcome::Skip
        },
        _ => Outcome::Skip,
    }
}

/// `o` with the branch `front` ahead of its own.
pub open spec fn with_branch(
    front: (PatternView, ExprView),
    o: Outcome<Seq<(PatternView, ExprView)>>,
) -> Outcome<Seq<(PatternView, ExprView)>> {
    match o {
        Outcome::Done(rest, end) => Outcome::Done(seq![front] + rest, end),
        other => other,
    }
}

/// The index behind the `when` that starts a branch at `i`, where
/// whitespace of the block may stand in front of it. `Skip` if no branch
/// starts.
pub open spec fn branch_head_spec(s: Seq<char>, i: int, min_indent: int) -> Outcome<()> {
    match indented_whitespaces_spec(s, i, min_indent) {
        Outcome::Done(_, j) => if literal_at(s, j, Keyword::When.text()) {
            Outcome::Done((), j + Keyword::When.text().len())
        } else {
            Outcome::Skip
        },
        _ => Outcome::Skip,
    }
}

/// The branches of a `case` from `i` on: `when`, a pattern, `then`, an
/// expression, for as long as a `when` follows. Never `Skip`; `Done` with
/// no branch ends at `i`.
pub open spec fn branches_spec(s: Seq<char>, i: int, min_indent: int) -> Outcome<
    Seq<(PatternView, ExprView)>,
>
    decreases s.len() - i, 0int,
{
    match branch_head_spec(s, i, min_indent) {
        Outcome::Done(_, w) => match indented_whitespaces1_spec(s, w, min_indent).or_fail(
            w,
            Expectation::Whitespace,
        ) {
            Outcome::Done(_, a) => match pattern_spec(s, a, min_indent).or_fail(
                a,
                Expectation::Pattern,
            ) {
                Outcome::Done(pattern, b) => match separator_spec(s, b, Keyword::Then, min_indent) {
                    Outcome::Done(_, c) => if inside(s, i, c) {
                        match expr_body_spec(s, c, min_indent).or_fail(c, Expectation::Expression) {
                            Outcome::Done(body, d) => if inside(s, i, d) {
                                with_branch((pattern, body), branches_spec(s, d, min_indent))
                            } else {
                                Outcome::Skip
                            },
                            other => other.cast(),
                        }
                    } else {
                        Outcome::Skip
                    },
                    other => other.cast(),
                },
                other => other.cast(),
            },
            other => other.cast(),
        },
        _ => Outcome::Done(Seq::empty(), i),
    }
}

/// `case`, the scrutinee, and the branches, of which there must be one at
/// least.
pub open spec fn match_expr_spec(s: Seq<char>, i: int, min_indent: int) -> Outcome<ExprView>
    decreases s.len() - i, 3int,
{
    match keyword_head_spec(s, i, Keyword::Case, min_indent) {
        Outcome::Done(_, a) => if inside(s, i, a) {
            match expr_body_spec(s, a, min_indent).or_fail(a, Expectation::Expression) {
                Outcome::Done(scrutinee, b) => match indented_whitespaces1_spec(
                    s,
                    b,
                    min_indent,
                ).or_fail(b, Expectation::Whitespace) {
                    Outcome::Done(_, c) => if inside(s, i, c) {
                        match branches_spec(s, c, min_indent) {
                            Outcome::Done(branches, end) => if branches.len() == 0 {
                                Outcome::Fail(c, ErrorKind::EmptyCase)
                            } else {
                                Outcome::Done(
                                    ExprView::Case(Box::new(scrutinee), branches),
                                    end,
                                )
                            },
                            other => other.cast(),
                        }
                    } else {
                        Outcome::Skip
                    },
                    other => other.cast(),
                },
                other => other,
            }
        } else {
            Outcome::Skip
        },
        _ => Outcome::Skip,
    }
}

/// A declaration and the expression in which it holds.
///
/// With the indent column `d` of the line on which the pattern ends: `d`
/// must be `min_indent` or more, the line on which `=` stands must be
/// indented to `d` or more, the bound expression forms a block of minimum
/// indent `d + 1`, and the body, behind whitespace, one of minimum indent
/// `d` that ends on a line indented to `d` exactly.
pub open spec fn let_expr_spec(s: Seq<char>, i: int, min_indent: int) -> Outcome<ExprView>
    decreases s.len() - i, 3int,
{
    match let_head_spec(s, i, min_indent) {
        Some((pattern, pattern_end, equals_end)) => {
            let a = whitespace_end(s, equals_end);
            let original_indent = indent_col_at(s, pattern_end);
            if original_indent < min_indent {
                Outcome::Fail(a, ErrorKind::DeclarationOutdented)
            } else if indent_col_at(s, equals_end) < original_indent {
                Outcome::Fail(a, ErrorKind::EqualsOutdented)
            } else if inside(s, i, a) {
                match expr_body_spec(s, a, original_indent + 1).or_fail(
                    a,
                    Expectation::Expression,
                ) {
                    Outcome::Done(bound, b) => match whitespace1_spec(s, b).or_fail(
                        b,
                        Expectation::Whitespace,
                    ) {
                        Outcome::Done(_, c) => if inside(s, i, c) {
                            match expr_body_spec(s, c, original_indent).or_fail(
                                c,
                                Expectation::Expression,
                            ) {
                                Outcome::Done(body, end) => if indent_col_at(s, end)
                                    != original_indent {
                                    Outcome::Fail(end, ErrorKind::BodyIndentMismatch)
                                } else {
                                    Outcome::Done(
                                        ExprView::Let(pattern, Box::new(bound), Box::new(body)),
                                        end,
                                    )
                                },
                                other => other,
                            }
                        } else {
                            Outcome::Skip
                        },
                        other => other.cast(),
                    },
                    other => other,
                }
            } else {
                Outcome::Skip
            }
        },
        None => Outcome::Skip,
    }
}

/// A tag, applied to the arguments behind it if there are any.
pub open spec fn apply_variant_spec(s: Seq<char>, i: int, min_indent: int) -> Outcome<ExprView>
    decreases s.len() - i, 3int,
{
    match variant_name_spec(s, i) {
        Outcome::Done(name, e) => if inside(s, i, e) {
            match function_application_spec(s, e, min_indent) {
                Outcome::Done(args, end) => Outcome::Done(
                    ExprView::ApplyVariant(name, Some(args)),
                    end,
                ),
                _ => Outcome::Done(ExprView::ApplyVariant(name, None), e),
            }
        } else {
            Outcome::Skip
        },
        other => other.cast(),
    }
}

/// An identifier: a function applied to the arguments behind it if there
/// are any, and a variable otherwise.
pub open spec fn func_or_var_spec(s: Seq<char>, i: int, min_indent: int) -> Outcome<ExprView>
    decreases s.len() - i, 3int,
{
    match ident_spec(s, i) {
        Outcome::Done(name, e) => if inside(s, i, e) {
            match function_application_spec(s, e, min_indent) {
                Outcome::Done(args, end) => Outcome::Done(ExprView::Func(name, args), end),
                _ => Outcome::Done(ExprView::Var(name), e),
            }
        } else {
            Outcome::Skip
        },
        other => other.cast(),
    }
}

/// The arguments of an application: whitespace, then one argument or
/// more, separated by commas. `Skip` unless all of it is there; never
/// fails.
pub open spec fn function_application_spec(s: Seq<char>, i: int, min_indent: int) -> Outcome<
    Seq<ExprView>,
>
    decreases s.len() - i, 6int,
{
    match indented_whitespaces1_spec(s, i, min_indent) {
        Outcome::Done(_, j) => if inside(s, i, j) {
            argument_list_spec(s, j, min_indent)
        } else {
            Outcome::Skip
        },
        _ => Outcome::Skip,
    }
}

/// One argument: an expression without a trailing operator that does not
/// start with `then`, `else` or `when`, and the whitespace behind it.
pub open spec fn argument_spec(s: Seq<char>, i: int, min_indent: int) -> Outcome<ExprView>
    decreases s.len() - i, 5int,
{
    if terminator_at(s, i) {
        Outcome::Skip
    } else {
        match expr_body_without_operators_spec(s, i, min_indent) {
            Outcome::Done(arg, e) => match indented_whitespaces_spec(s, e, min_indent) {
                Outcome::Done(_, k) => Outcome::Done(arg, k),
                _ => Outcome::Skip,
            },
            _ => Outcome::Skip,
        }
    }
}

/// One argument or more, separated by commas; `Skip` unless every comma
/// is followed by an argument.
pub open spec fn argument_list_spec(s: Seq<char>, i: int, min_indent: int) -> Outcome<Seq<ExprView>>
    decreases s.len() - i, 6int,
{
    match argument_spec(s, i, min_indent) {
        Outcome::Done(first, e) => match comma_spec(s, e, min_indent) {
            Outcome::Done(_, k) => if inside(s, i, k) {
                match argument_list_spec(s, k, min_indent) {
                    Outcome::Done(rest, end) => Outcome::Done(seq![first] + rest, end),
                    _ => Outcome::Skip,
                }
            } else {
                Outcome::Skip
            },
            Outcome::Skip => Outcome::Done(seq![first], e),
            Outcome::Fail(_, _) => Outcome::Skip,
        },
        _ => Outcome::Skip,
    }
}

/// The outermost rule: spaces, an expression in a block of minimum indent
/// 1, then the end of the input or whitespace.
pub open spec fn expr_spec(s: Seq<char>, i: int) -> Outcome<ExprView> {
    let start = crate::chars::run_end(s, i, crate::chars::CharClass::Space);
    match expr_body_spec(s, start, 1).or_fail(start, Expectation::Expression) {
        Outcome::Done(value, e) => match crate::layout::whitespace_or_eof_spec(s, e) {
            Outcome::Done(_, end) => Outcome::Done(value, end),
            _ => Outcome::Fail(e, ErrorKind::Expected(Expectation::EndOfInput)),
        },
        other => other,
    }
}

/// The parse of a whole input: one expression, and nothing behind it but
/// whitespace.
pub open spec fn parse_spec(s: Seq<char>) -> Outcome<ExprView> {
    if s.len() > crate::parse_state::MAX_INPUT_LEN {
        Outcome::Fail(0, ErrorKind::InputTooLong)
    } else {
        match expr_spec(s, 0) {
            Outcome::Done(value, end) => if end == s.len() {
                Outcome::Done(value, end)
            } else {
                Outcome::Fail(end, ErrorKind::Expected(Expectation::EndOfInput))
            },
            other => other,
        }
    }
}

} // verus!
