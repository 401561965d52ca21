//! What holds of the grammar on every input.

use vstd::prelude::*;
use crate::chars::{
    char_at, is_alnum, is_digit, is_lower, is_upper, lemma_run_end, lemma_run_end_is, literal_at, run_end,
    CharClass,
};
use crate::error::{ErrorKind, Keyword, Outcome};
use crate::expr::{
    branches_wf, exprs_wf, patterns_wf, ExprView, PatternView,
};
use crate::grammar::{
    apply_variant_spec, argument_list_spec, argument_spec, branch_head_spec, branches_spec,
    closure_head_spec, closure_spec, comma_spec, expr_body_spec, expr_body_without_operators_spec,
    expr_spec, func_or_var_spec, function_application_spec, if_expr_spec, keyword_head_spec,
    let_expr_spec, let_head_spec, match_expr_spec, match_variant_spec, operator_spec,
    operator_tail_spec, parenthetical_expr_spec, parse_spec, pattern_list_spec, pattern_spec,
    separator_spec,
};
use crate::ident::{
    ident_spec, lemma_ident_accepts, lemma_ident_valid, lemma_variant_name_valid, valid_ident,
    valid_variant_name, variant_name_spec,
};
use crate::layout::{
    blank_lines_end, indented_whitespace_spec, indented_whitespaces1_spec, indented_whitespaces_spec,
    lemma_indented_whitespaces, whitespace1_spec, whitespace_end, whitespace_or_eof_spec,
};
use crate::number::{
    all_digits, decimal_value, grouped_digits, grouped_end, grouped_next,
    lemma_grouped, lemma_pow10_grows, number_literal_spec, pow10, signed,
};
use crate::parse_state::{
    first_non_space, line_feeds_before, line_start, position_at, MAX_INPUT_LEN,
};
use crate::text::{
    body_char_spec, char_literal_spec, lemma_body_char, segments_spec, string_literal_spec,
    text_run_spec,
};

verus! {

/// No whitespace of a block starts at a letter, at a digit or at the end
/// of the input.
proof fn lemma_no_whitespace_at(s: Seq<char>, i: int, min_indent: int)
    requires
        0 <= i <= s.len(),
        i < s.len() ==> is_alnum(s[i]),
    ensures
        indented_whitespace_spec(s, i, min_indent) is Skip,
        indented_whitespaces1_spec(s, i, min_indent) is Skip,
        indented_whitespaces_spec(s, i, min_indent) == Outcome::Done((), i),
        whitespace_end(s, i) == i,
{
}

/// Every identifier, standing alone, parses as the variable of its name.
///
/// That is: a lowercase letter followed by letters and digits, other than
/// a reserved word and short enough to be parsed at all.
#[verifier::spinoff_prover]
#[verifier::rlimit(40)]
pub proof fn law_identifier_parses_as_variable(name: Seq<char>)
    requires
        valid_ident(name),
        name.len() <= MAX_INPUT_LEN,
    ensures
        parse_spec(name) == Outcome::Done(ExprView::Var(name), name.len() as int),
{
    let s = name;
    let n = s.len() as int;
    let m = 1int;
    assert(is_lower(s[0]) && is_alnum(s[0]));
    assert(s.subrange(0, n) =~= name);
    lemma_ident_accepts(s, 0, name);
    lemma_no_whitespace_at(s, n, m);
    if 2 <= n {
        lemma_no_whitespace_at(s, 2, m);
    }
    if 4 <= n {
        lemma_no_whitespace_at(s, 4, m);
    }
    assert(run_end(s, 0, CharClass::Space) == 0);
    assert(closure_head_spec(s, 0, m) is Skip);
    assert(closure_spec(s, 0, m) is Skip);
    assert(parenthetical_expr_spec(s, 0, m) is Skip);
    assert(!literal_at(s, 0, seq!['{', '}'])) by {
        if literal_at(s, 0, seq!['{', '}']) {
            assert(s[0int + 0int] == seq!['{', '}'][0int]);
        }
    }
    assert(string_literal_spec(s, 0) is Skip);
    assert(number_literal_spec(s, 0) is Skip);
    assert(char_literal_spec(s, 0) is Skip);
    assert(keyword_head_spec(s, 0, Keyword::If, m) is Skip) by {
        assert(Keyword::If.text().len() == 2);
    }
    assert(if_expr_spec(s, 0, m) is Skip);
    assert(keyword_head_spec(s, 0, Keyword::Case, m) is Skip) by {
        assert(Keyword::Case.text().len() == 4);
    }
    assert(match_expr_spec(s, 0, m) is Skip);
    assert(pattern_spec(s, 0, m) == Outcome::Done(PatternView::Identifier(name), n));
    assert(let_head_spec(s, 0, m) is None);
    assert(let_expr_spec(s, 0, m) is Skip);
    assert(variant_name_spec(s, 0) is Skip);
    assert(apply_variant_spec(s, 0, m) is Skip);
    assert(function_application_spec(s, n, m) is Skip);
    assert(func_or_var_spec(s, 0, m) == Outcome::Done(ExprView::Var(name), n));
    assert(expr_body_without_operators_spec(s, 0, m) == Outcome::Done(ExprView::Var(name), n));
    assert(operator_spec(s, n) is Skip);
    assert(operator_tail_spec(s, n, m) is Skip);
    assert(expr_body_spec(s, 0, m) == Outcome::Done(ExprView::Var(name), n));
    assert(whitespace_or_eof_spec(s, n) == Outcome::Done((), n));
    assert(expr_spec(s, 0) == Outcome::Done(ExprView::Var(name), n));
}

/// A rule's ending is sound at `i`: what it matched is well formed and
/// ends behind `i` within the input, and a failure lies at or behind `i`
/// within the input.
pub open spec fn sound_expr(o: Outcome<ExprView>, s: Seq<char>, i: int) -> bool {
    match o {
        Outcome::Done(value, end) => value.wf() && i < end <= s.len(),
        Outcome::Skip => true,
        Outcome::Fail(at, _) => i <= at <= s.len(),
    }
}

/// As [`sound_expr`], for a pattern.
pub open spec fn sound_pattern(o: Outcome<PatternView>, s: Seq<char>, i: int) -> bool {
    match o {
        Outcome::Done(value, end) => value.wf() && i < end <= s.len(),
        Outcome::Skip => true,
        Outcome::Fail(at, _) => i <= at <= s.len(),
    }
}

/// As [`sound_expr`], for a list that is never empty and a rule that never
/// fails.
pub open spec fn sound_exprs(o: Outcome<Seq<ExprView>>, s: Seq<char>, i: int) -> bool {
    match o {
        Outcome::Done(values, end) => values.len() > 0 && exprs_wf(values) && i < end <= s.len(),
        Outcome::Skip => true,
        Outcome::Fail(_, _) => false,
    }
}

/// As [`sound_exprs`], for patterns.
pub open spec fn sound_patterns(o: Outcome<Seq<PatternView>>, s: Seq<char>, i: int) -> bool {
    match o {
        Outcome::Done(values, end) => values.len() > 0 && patterns_wf(values) && i < end
            <= s.len(),
        Outcome::Skip => true,
        Outcome::Fail(_, _) => false,
    }
}

/// As [`sound_expr`], for the branches of a `case`, of which there may be
/// none.
pub open spec fn sound_branches(o: Outcome<Seq<(PatternView, ExprView)>>, s: Seq<char>, i: int) -> bool {
    match o {
        Outcome::Done(values, end) => branches_wf(values) && i <= end <= s.len(),
        Outcome::Skip => false,
        Outcome::Fail(at, _) => i <= at <= s.len(),
    }
}

/// A step between two parts of a rule ends behind `i`, within the input.
pub open spec fn sound_step(o: Outcome<()>, s: Seq<char>, i: int) -> bool {
    match o {
        Outcome::Done(_, end) => i < end <= s.len(),
        Outcome::Skip => true,
        Outcome::Fail(at, _) => i <= at <= s.len(),
    }
}

#[verifier::spinoff_prover]
#[verifier::rlimit(40)]
proof fn lemma_steps(s: Seq<char>, i: int, word: Keyword, min_indent: int)
    requires
        0 <= i <= s.len(),
    ensures
        sound_step(keyword_head_spec(s, i, word, min_indent), s, i),
        !(keyword_head_spec(s, i, word, min_indent) is Fail),
        sound_step(separator_spec(s, i, word, min_indent), s, i),
        !(separator_spec(s, i, word, min_indent) is Skip),
        sound_step(comma_spec(s, i, min_indent), s, i),
        sound_step(branch_head_spec(s, i, min_indent), s, i),
        !(branch_head_spec(s, i, min_indent) is Fail),
        sound_step(indented_whitespaces1_spec(s, i, min_indent), s, i),
        sound_step(whitespace1_spec(s, i), s, i),
        i <= whitespace_end(s, i) <= s.len(),
        match indented_whitespaces_spec(s, i, min_indent) {
            Outcome::Done(_, end) => i <= end <= s.len(),
            Outcome::Skip => false,
            Outcome::Fail(at, _) => i <= at <= s.len(),
        },
        match operator_tail_spec(s, i, min_indent) {
            Outcome::Done(_, end) => i < end <= s.len(),
            Outcome::Skip => true,
            Outcome::Fail(_, _) => false,
        },
{
    lemma_indented_whitespaces(s, i, min_indent);
    lemma_run_end(s, i, CharClass::Blank);
    assert(word.text().len() == 2 || word.text().len() == 4);
    assert(Keyword::When.text().len() == 4);
    if literal_at(s, i, word.text()) {
        lemma_indented_whitespaces(s, i + word.text().len(), min_indent);
    }
    match indented_whitespaces1_spec(s, i, min_indent) {
        Outcome::Done(_, j) => {
            if literal_at(s, j, word.text()) {
                lemma_indented_whitespaces(s, j + word.text().len(), min_indent);
            }
        },
        _ => {},
    }
    if char_at(s, i, ',') {
        lemma_indented_whitespaces(s, i + 1, min_indent);
    }
    match indented_whitespaces_spec(s, i, min_indent) {
        Outcome::Done(_, j) => {
            match operator_spec(s, j) {
                Outcome::Done(_, k) => {
                    lemma_run_end(s, k, CharClass::Blank);
                },
                _ => {},
            }
        },
        _ => {},
    }
}

/// A number literal that parses is well formed.
pub proof fn lemma_number_sound(s: Seq<char>, i: int)
    requires
        0 <= i <= s.len(),
    ensures
        sound_expr(number_literal_spec(s, i), s, i),
{
    let negative = char_at(s, i, '-');
    let first = if negative {
        i + 1
    } else {
        i
    };
    if first < s.len() && is_digit(s[first]) {
        lemma_grouped(s, first);
        let int_end = grouped_end(s, first);
        if char_at(s, int_end, '.') {
            lemma_run_end(s, int_end + 1, CharClass::Alnum);
            let end = run_end(s, int_end + 1, CharClass::Alnum);
            if end > int_end + 1 {
                let fraction = s.subrange(int_end + 1, end);
                let v = decimal_value(grouped_digits(s, first)) as int;
                let denominator = pow10(fraction.len()) as int;
                lemma_pow10_grows(1, fraction.len());
                assert(v * denominator >= 0) by (nonlinear_arith)
                    requires
                        v >= 0,
                        denominator >= 0,
                ;
                assert(fraction.len() >= 1 && denominator == pow10(fraction.len()));
            }
        }
    }
}

proof fn lemma_text_run(s: Seq<char>, i: int)
    requires
        0 <= i <= s.len(),
    ensures
        match text_run_spec(s, i) {
            Outcome::Done(_, j) => i <= j <= s.len(),
            Outcome::Skip => false,
            Outcome::Fail(at, _) => i < at <= s.len(),
        },
    decreases s.len() - i,
{
    lemma_body_char(s, i, '"');
    match body_char_spec(s, i, '"') {
        Outcome::Done(_, j) => {
            lemma_text_run(s, j);
        },
        _ => {},
    }
}

proof fn lemma_segments(s: Seq<char>, i: int)
    requires
        0 <= i <= s.len(),
    ensures
        match segments_spec(s, i) {
            Outcome::Done((segments, _), end) => {
                &&& i < end <= s.len()
                &&& forall|k: int|
                    0 <= k < segments.len() ==> valid_ident((#[trigger] segments[k]).0)
            },
            Outcome::Skip => false,
            Outcome::Fail(at, _) => i <= at <= s.len(),
        },
    decreases s.len() - i,
{
    lemma_text_run(s, i);
    match text_run_spec(s, i) {
        Outcome::Done(text, j) => {
            if !char_at(s, j, '"') && literal_at(s, j, seq!['\\', '(']) {
                lemma_ident_valid(s, j + 2);
                match ident_spec(s, j + 2) {
                    Outcome::Done(name, e) => {
                        if char_at(s, e, ')') {
                            lemma_segments(s, e + 1);
                            match segments_spec(s, e + 1) {
                                Outcome::Done((rest, _), _) => {
                                    let all = seq![(name, text)] + rest;
                                    assert forall|k: int| 0 <= k < all.len() implies valid_ident(
                                        (#[trigger] all[k]).0,
                                    ) by {
                                        if k > 0 {
                                            assert(all[k] == rest[k - 1]);
                                        }
                                    }
                                },
                                _ => {},
                            }
                        }
                    },
                    _ => {},
                }
            }
        },
        _ => {},
    }
}

/// A string or character literal that parses is well formed.
pub proof fn lemma_text_sound(s: Seq<char>, i: int)
    requires
        0 <= i <= s.len(),
    ensures
        sound_expr(string_literal_spec(s, i), s, i),
        sound_expr(char_literal_spec(s, i), s, i),
{
    if char_at(s, i, '"') {
        lemma_segments(s, i + 1);
    }
    if char_at(s, i, '\'') {
        lemma_body_char(s, i + 1, '\'');
    }
}

proof fn lemma_pattern_sound(s: Seq<char>, i: int, min_indent: int)
    requires
        0 <= i <= s.len(),
    ensures
        sound_pattern(pattern_spec(s, i, min_indent), s, i),
    decreases s.len() - i, 1int,
{
    lemma_ident_valid(s, i);
    if i < s.len() {
        lemma_match_variant_sound(s, i, min_indent);
    }
}

proof fn lemma_match_variant_sound(s: Seq<char>, i: int, min_indent: int)
    requires
        0 <= i <= s.len(),
    ensures
        sound_pattern(match_variant_spec(s, i, min_indent), s, i),
        !(match_variant_spec(s, i, min_indent) is Fail),
    decreases s.len() - i, 0int,
{
    lemma_variant_name_valid(s, i);
    match variant_name_spec(s, i) {
        Outcome::Done(_, e) => {
            lemma_pattern_list_sound(s, e, min_indent);
        },
        _ => {},
    }
}

proof fn lemma_pattern_list_sound(s: Seq<char>, i: int, min_indent: int)
    requires
        0 <= i <= s.len(),
    ensures
        sound_patterns(pattern_list_spec(s, i, min_indent), s, i),
    decreases s.len() - i, 2int,
{
    lemma_pattern_sound(s, i, min_indent);
    match pattern_spec(s, i, min_indent) {
        Outcome::Done(first, e) => {
            lemma_steps(s, e, Keyword::If, min_indent);
            match comma_spec(s, e, min_indent) {
                Outcome::Done(_, k) => {
                    lemma_pattern_list_sound(s, k, min_indent);
                    match pattern_list_spec(s, k, min_indent) {
                        Outcome::Done(rest, _) => {
                            let all = seq![first] + rest;
                            assert forall|j: int| 0 <= j < all.len() implies (#[trigger] all[j]).wf() by {
                                if j > 0 {
                                    assert(all[j] == rest[j - 1]);
                                }
                            }
                        },
                        _ => {},
                    }
                },
                _ => {},
            }
        },
        _ => {},
    }
}

#[verifier::spinoff_prover]
#[verifier::rlimit(40)]
proof fn lemma_heads_sound(s: Seq<char>, i: int, min_indent: int)
    requires
        0 <= i <= s.len(),
    ensures
        sound_patterns(closure_head_spec(s, i, min_indent), s, i),
        match let_head_spec(s, i, min_indent) {
            Some((pattern, pattern_end, equals_end)) => pattern.wf() && i < pattern_end
                < equals_end <= s.len(),
            None => true,
        },
{
    if char_at(s, i, '(') {
        lemma_pattern_list_sound(s, i + 1, min_indent);
        match pattern_list_spec(s, i + 1, min_indent) {
            Outcome::Done(_, e) => {
                if char_at(s, e, ')') {
                    lemma_steps(s, e + 1, Keyword::If, min_indent);
                    match indented_whitespaces1_spec(s, e + 1, min_indent) {
                        Outcome::Done(_, a) => {
                            if literal_at(s, a, seq!['-', '>']) {
                                lemma_steps(s, a + 2, Keyword::If, min_indent);
                            }
                        },
                        _ => {},
                    }
                }
            },
            _ => {},
        }
    }
    lemma_pattern_sound(s, i, min_indent);
    match pattern_spec(s, i, min_indent) {
        Outcome::Done(_, e) => {
            lemma_run_end(s, e, CharClass::Blank);
        },
        _ => {},
    }
}

proof fn lemma_expr_body_sound(s: Seq<char>, i: int, min_indent: int)
    requires
        0 <= i <= s.len(),
    ensures
        sound_expr(expr_body_spec(s, i, min_indent), s, i),
    decreases s.len() - i, 6int,
{
    lemma_leaf_sound(s, i, min_indent);
    match expr_body_without_operators_spec(s, i, min_indent) {
        Outcome::Done(_, e) => {
            lemma_steps(s, e, Keyword::If, min_indent);
            match operator_tail_spec(s, e, min_indent) {
                Outcome::Done(_, k) => {
                    lemma_expr_body_sound(s, k, min_indent);
                },
                _ => {},
            }
        },
        _ => {},
    }
}

#[verifier::spinoff_prover]
#[verifier::rlimit(40)]
proof fn lemma_leaf_sound(s: Seq<char>, i: int, min_indent: int)
    requires
        0 <= i <= s.len(),
    ensures
        sound_expr(expr_body_without_operators_spec(s, i, min_indent), s, i),
    decreases s.len() - i, 4int,
{
    lemma_closure_sound(s, i, min_indent);
    lemma_parenthetical_sound(s, i, min_indent);
    lemma_text_sound(s, i);
    lemma_number_sound(s, i);
    lemma_if_sound(s, i, min_indent);
    lemma_match_sound(s, i, min_indent);
    lemma_let_sound(s, i, min_indent);
    lemma_apply_variant_sound(s, i, min_indent);
    lemma_func_or_var_sound(s, i, min_indent);
}

proof fn lemma_closure_sound(s: Seq<char>, i: int, min_indent: int)
    requires
        0 <= i <= s.len(),
    ensures
        sound_expr(closure_spec(s, i, min_indent), s, i),
    decreases s.len() - i, 3int,
{
    lemma_heads_sound(s, i, min_indent);
    match closure_head_spec(s, i, min_indent) {
        Outcome::Done(_, k) => {
            lemma_expr_body_sound(s, k, min_indent);
        },
        _ => {},
    }
}

#[verifier::spinoff_prover]
#[verifier::rlimit(40)]
proof fn lemma_parenthetical_sound(s: Seq<char>, i: int, min_indent: int)
    requires
        0 <= i <= s.len(),
    ensures
        sound_expr(parenthetical_expr_spec(s, i, min_indent), s, i),
    decreases s.len() - i, 3int,
{
    if char_at(s, i, '(') {
        lemma_steps(s, i + 1, Keyword::If, min_indent);
        match indented_whitespaces_spec(s, i + 1, min_indent) {
            Outcome::Done(_, a) => {
                lemma_expr_body_sound(s, a, min_indent);
                match expr_body_spec(s, a, min_indent) {
                    Outcome::Done(_, b) => {
                        lemma_steps(s, b, Keyword::If, min_indent);
                        match indented_whitespaces_spec(s, b, min_indent) {
                            Outcome::Done(_, c) => {
                                if char_at(s, c, ')') {
                                    lemma_function_application_sound(s, c + 1, min_indent);
                                }
                            },
                            _ => {},
                        }
                    },
                    _ => {},
                }
            },
            _ => {},
        }
    }
}

#[verifier::spinoff_prover]
#[verifier::rlimit(40)]
proof fn lemma_if_sound(s: Seq<char>, i: int, min_indent: int)
    requires
        0 <= i <= s.len(),
    ensures
        sound_expr(if_expr_spec(s, i, min_indent), s, i),
    decreases s.len() - i, 3int,
{
    lemma_steps(s, i, Keyword::If, min_indent);
    match keyword_head_spec(s, i, Keyword::If, min_indent) {
        Outcome::Done(_, a) => {
            lemma_expr_body_sound(s, a, min_indent);
            match expr_body_spec(s, a, min_indent) {
                Outcome::Done(_, b) => {
                    lemma_steps(s, b, Keyword::Then, min_indent);
                    match separator_spec(s, b, Keyword::Then, min_indent) {
                        Outcome::Done(_, c) => {
                            lemma_expr_body_sound(s, c, min_indent);
                            match expr_body_spec(s, c, min_indent) {
                                Outcome::Done(_, d) => {
                                    lemma_steps(s, d, Keyword::Else, min_indent);
                                    match separator_spec(s, d, Keyword::Else, min_indent) {
                                        Outcome::Done(_, e) => {
                                            lemma_expr_body_sound(s, e, min_indent);
                                        },
                                        _ => {},
                                    }
                                },
                                _ => {},
                            }
                        },
                        _ => {},
                    }
                },
                _ => {},
            }
        },
        _ => {},
    }
}

#[verifier::spinoff_prover]
#[verifier::rlimit(40)]
proof fn lemma_branches_sound(s: Seq<char>, i: int, min_indent: int)
    requires
        0 <= i <= s.len(),
    ensures
        sound_branches(branches_spec(s, i, min_indent), s, i),
    decreases s.len() - i, 0int,
{
    lemma_steps(s, i, Keyword::When, min_indent);
    match branch_head_spec(s, i, min_indent) {
        Outcome::Done(_, w) => {
            lemma_steps(s, w, Keyword::When, min_indent);
            match indented_whitespaces1_spec(s, w, min_indent) {
                Outcome::Done(_, a) => {
                    lemma_pattern_sound(s, a, min_indent);
                    match pattern_spec(s, a, min_indent) {
                        Outcome::Done(pattern, b) => {
                            lemma_steps(s, b, Keyword::Then, min_indent);
                            match separator_spec(s, b, Keyword::Then, min_indent) {
                                Outcome::Done(_, c) => {
                                    lemma_expr_body_sound(s, c, min_indent);
                                    match expr_body_spec(s, c, min_indent) {
                                        Outcome::Done(body, d) => {
                                            lemma_branches_sound(s, d, min_indent);
                                            match branches_spec(s, d, min_indent) {
                                                Outcome::Done(rest, _) => {
                                                    let all = seq![(pattern, body)] + rest;
                                                    assert forall|k: int|
                                                        0 <= k < all.len() implies (#[trigger] all[k]).0.wf()
                                                        && all[k].1.wf() by {
                                                        if k > 0 {
                                                            assert(all[k] == rest[k - 1]);
                                                        }
                                                    }
                                                },
                                                _ => {},
                                            }
                                        },
                                        _ => {},
                                    }
                                },
                                _ => {},
                            }
                        },
                        _ => {},
                    }
                },
                _ => {},
            }
        },
        _ => {},
    }
}

#[verifier::spinoff_prover]
#[verifier::rlimit(40)]
proof fn lemma_match_sound(s: Seq<char>, i: int, min_indent: int)
    requires
        0 <= i <= s.len(),
    ensures
        sound_expr(match_expr_spec(s, i, min_indent), s, i),
    decreases s.len() - i, 3int,
{
    lemma_steps(s, i, Keyword::Case, min_indent);
    match keyword_head_spec(s, i, Keyword::Case, min_indent) {
        Outcome::Done(_, a) => {
            lemma_expr_body_sound(s, a, min_indent);
            match expr_body_spec(s, a, min_indent) {
                Outcome::Done(_, b) => {
                    lemma_steps(s, b, Keyword::Case, min_indent);
                    match indented_whitespaces1_spec(s, b, min_indent) {
                        Outcome::Done(_, c) => {
                            lemma_branches_sound(s, c, min_indent);
                        },
                        _ => {},
                    }
                },
                _ => {},
            }
        },
        _ => {},
    }
}

#[verifier::spinoff_prover]
#[verifier::rlimit(40)]
proof fn lemma_let_sound(s: Seq<char>, i: int, min_indent: int)
    requires
        0 <= i <= s.len(),
    ensures
        sound_expr(let_expr_spec(s, i, min_indent), s, i),
    decreases s.len() - i, 3int,
{
    lemma_heads_sound(s, i, min_indent);
    match let_head_spec(s, i, min_indent) {
        Some((_, pattern_end, equals_end)) => {
            lemma_run_end(s, equals_end, CharClass::Blank);
            let a = whitespace_end(s, equals_end);
            let original_indent = crate::grammar::indent_col_at(s, pattern_end);
            lemma_expr_body_sound(s, a, original_indent + 1);
            match expr_body_spec(s, a, original_indent + 1) {
                Outcome::Done(_, b) => {
                    lemma_steps(s, b, Keyword::If, min_indent);
                    match whitespace1_spec(s, b) {
                        Outcome::Done(_, c) => {
                            lemma_expr_body_sound(s, c, original_indent);
                        },
                        _ => {},
                    }
                },
                _ => {},
            }
        },
        None => {},
    }
}

proof fn lemma_apply_variant_sound(s: Seq<char>, i: int, min_indent: int)
    requires
        0 <= i <= s.len(),
    ensures
        sound_expr(apply_variant_spec(s, i, min_indent), s, i),
    decreases s.len() - i, 3int,
{
    lemma_variant_name_valid(s, i);
    match variant_name_spec(s, i) {
        Outcome::Done(_, e) => {
            lemma_function_application_sound(s, e, min_indent);
        },
        _ => {},
    }
}

proof fn lemma_func_or_var_sound(s: Seq<char>, i: int, min_indent: int)
    requires
        0 <= i <= s.len(),
    ensures
        sound_expr(func_or_var_spec(s, i, min_indent), s, i),
    decreases s.len() - i, 3int,
{
    lemma_ident_valid(s, i);
    match ident_spec(s, i) {
        Outcome::Done(_, e) => {
            lemma_function_application_sound(s, e, min_indent);
        },
        _ => {},
    }
}

proof fn lemma_function_application_sound(s: Seq<char>, i: int, min_indent: int)
    requires
        0 <= i <= s.len(),
    ensures
        sound_exprs(function_application_spec(s, i, min_indent), s, i),
    decreases s.len() - i, 6int,
{
    lemma_steps(s, i, Keyword::If, min_indent);
    match indented_whitespaces1_spec(s, i, min_indent) {
        Outcome::Done(_, j) => {
            lemma_argument_list_sound(s, j, min_indent);
        },
        _ => {},
    }
}

proof fn lemma_argument_sound(s: Seq<char>, i: int, min_indent: int)
    requires
        0 <= i <= s.len(),
    ensures
        sound_expr(argument_spec(s, i, min_indent), s, i),
        !(argument_spec(s, i, min_indent) is Fail),
    decreases s.len() - i, 5int,
{
    lemma_leaf_sound(s, i, min_indent);
    match expr_body_without_operators_spec(s, i, min_indent) {
        Outcome::Done(_, e) => {
            lemma_steps(s, e, Keyword::If, min_indent);
        },
        _ => {},
    }
}

proof fn lemma_argument_list_sound(s: Seq<char>, i: int, min_indent: int)
    requires
        0 <= i <= s.len(),
    ensures
        sound_exprs(argument_list_spec(s, i, min_indent), s, i),
    decreases s.len() - i, 6int,
{
    lemma_argument_sound(s, i, min_indent);
    match argument_spec(s, i, min_indent) {
        Outcome::Done(first, e) => {
            lemma_steps(s, e, Keyword::If, min_indent);
            match comma_spec(s, e, min_indent) {
                Outcome::Done(_, k) => {
                    lemma_argument_list_sound(s, k, min_indent);
                    match argument_list_spec(s, k, min_indent) {
                        Outcome::Done(rest, _) => {
                            let all = seq![first] + rest;
                            assert forall|j: int| 0 <= j < all.len() implies (#[trigger] all[j]).wf() by {
                                if j > 0 {
                                    assert(all[j] == rest[j - 1]);
                                }
                            }
                        },
                        _ => {},
                    }
                },
                _ => {},
            }
        },
        _ => {},
    }
}

/// Every expression that parses is well formed: its identifiers and tag
/// names are valid, its numbers fit their fields, the denominator of a
/// fraction is a power of ten, and none of its lists of branches,
/// arguments, parameters or splices is empty. It ends behind its start,
/// and a failure lies within the input.
pub proof fn law_expression_is_well_formed(s: Seq<char>, i: int, min_indent: int)
    requires
        0 <= i <= s.len(),
    ensures
        sound_expr(expr_body_spec(s, i, min_indent), s, i),
        sound_expr(expr_body_without_operators_spec(s, i, min_indent), s, i),
        sound_pattern(pattern_spec(s, i, min_indent), s, i),
        sound_exprs(function_application_spec(s, i, min_indent), s, i),
{
    lemma_expr_body_sound(s, i, min_indent);
    lemma_leaf_sound(s, i, min_indent);
    lemma_pattern_sound(s, i, min_indent);
    lemma_function_application_sound(s, i, min_indent);
}

/// Every parse of a whole input gives a well-formed expression or a
/// failure at an index of the input; it never ends undecided.
pub proof fn law_parse_is_well_formed(s: Seq<char>)
    ensures
        match parse_spec(s) {
            Outcome::Done(value, end) => value.wf() && end == s.len(),
            Outcome::Skip => false,
            Outcome::Fail(at, _) => 0 <= at <= s.len(),
        },
{
    if s.len() <= MAX_INPUT_LEN {
        lemma_run_end(s, 0, CharClass::Space);
        let start = run_end(s, 0, CharClass::Space);
        lemma_expr_body_sound(s, start, 1);
        match expr_body_spec(s, start, 1) {
            Outcome::Done(_, e) => {
                lemma_run_end(s, e, CharClass::Blank);
            },
            _ => {},
        }
    }
}

proof fn lemma_line_start(s: Seq<char>, i: int)
    requires
        0 <= i <= s.len(),
    ensures
        0 <= line_start(s, i) <= i,
        0 <= line_feeds_before(s, i) <= i,
    decreases i,
{
    if i > 0 {
        lemma_line_start(s, i - 1);
    }
}

proof fn lemma_first_non_space_grows(s: Seq<char>, from: int, i: int)
    requires
        0 <= from < i <= s.len(),
    ensures
        from <= first_non_space(s, from, i - 1) <= i - 1,
        first_non_space(s, from, i) == (if first_non_space(s, from, i - 1) < i - 1 {
            first_non_space(s, from, i - 1)
        } else if s[i - 1] == ' ' {
            i
        } else {
            i - 1
        }),
    decreases i - from,
{
    reveal_with_fuel(first_non_space, 2);
    if from < i - 1 && s[from] == ' ' {
        lemma_first_non_space_grows(s, from + 1, i);
    }
}

/// What a position counts.
///
/// In front of index `i` the line is one more than the number of line
/// feeds read, and the column one more than the number of characters read
/// on the line. The line is still indenting if it has shown spaces only;
/// once it has shown another character, the indent column is the column of
/// the first such character, and until then it is 1.
pub proof fn law_position_counts_lines_and_columns(s: Seq<char>, i: int)
    requires
        0 <= i <= s.len() <= MAX_INPUT_LEN,
    ensures
        position_at(s, i).line == 1 + line_feeds_before(s, i),
        position_at(s, i).column == i - line_start(s, i) + 1,
        position_at(s, i).is_indenting <==> first_non_space(s, line_start(s, i), i) == i,
        position_at(s, i).indent_col == (if first_non_space(s, line_start(s, i), i) == i {
            1
        } else {
            first_non_space(s, line_start(s, i), i) - line_start(s, i) + 1
        }),
    decreases i,
{
    if i > 0 {
        law_position_counts_lines_and_columns(s, i - 1);
        lemma_line_start(s, i - 1);
        crate::parse_state::lemma_position_bounds(s, i - 1);
        if s[i - 1] != '\n' {
            lemma_first_non_space_grows(s, line_start(s, i - 1), i);
        }
    }
}

/// Whether a line feed stands at or behind `i` and in front of `j`.
pub open spec fn line_feed_in(s: Seq<char>, i: int, j: int) -> bool
    decreases j - i,
{
    if i >= j || i < 0 || i >= s.len() {
        false
    } else {
        s[i] == '\n' || line_feed_in(s, i + 1, j)
    }
}

proof fn lemma_line_start_over_spaces(s: Seq<char>, a: int, k: int)
    requires
        0 <= a <= k <= s.len(),
        forall|x: int| a <= x < k ==> s[x] == ' ',
    ensures
        line_start(s, k) == line_start(s, a),
        !line_feed_in(s, a, k),
    decreases k - a,
{
    if a < k {
        lemma_line_start_over_spaces(s, a, k - 1);
        lemma_line_start_over_spaces(s, a + 1, k);
    }
}

proof fn lemma_blank_lines_reach(s: Seq<char>, a: int)
    requires
        1 <= a <= s.len(),
        s[a - 1] == '\n',
    ensures
        ({
            let line = blank_lines_end(s, a);
            let k = run_end(s, line, CharClass::Space);
            &&& a <= line <= k <= s.len()
            &&& line_start(s, k) == line
            &&& k == run_end(s, a, CharClass::Blank)
        }),
    decreases s.len() - a,
{
    lemma_run_end(s, a, CharClass::Space);
    let k0 = run_end(s, a, CharClass::Space);
    assert forall|x: int| a <= x < k0 implies s[x] == ' ' by {
        assert(CharClass::Space.holds(s[x]));
    }
    if char_at(s, k0, '\n') {
        lemma_blank_lines_reach(s, k0 + 1);
        let line = blank_lines_end(s, k0 + 1);
        let k = run_end(s, line, CharClass::Space);
        lemma_run_end(s, k0 + 1, CharClass::Blank);
        assert forall|x: int| a <= x < k implies CharClass::Blank.holds(#[trigger] s[x]) by {
            if x < k0 {
                assert(CharClass::Space.holds(s[x]));
            }
        }
        lemma_run_end_is(s, a, k, CharClass::Blank);
    } else {
        lemma_line_start_over_spaces(s, a, k0);
        assert forall|x: int| a <= x < k0 implies CharClass::Blank.holds(#[trigger] s[x]) by {
            assert(CharClass::Space.holds(s[x]));
        }
        lemma_run_end_is(s, a, k0, CharClass::Blank);
    }
}

/// The offside rule, said directly.
///
/// Whitespace in a block of minimum indent `min_indent` takes all the
/// spaces and line feeds at `i`. If there is a line feed among them, the
/// line on which they end must be indented by `min_indent` spaces or more,
/// unless the input ends there; if it is not, the whitespace fails with
/// [`ErrorKind::Outdent`] at the first character of that line.
pub proof fn law_offside_rule(s: Seq<char>, i: int, min_indent: int)
    requires
        0 <= i <= s.len(),
    ensures
        ({
            let end = run_end(s, i, CharClass::Blank);
            indented_whitespaces_spec(s, i, min_indent) == (if !line_feed_in(s, i, end) || end
                == s.len() || end - line_start(s, end) >= min_indent {
                Outcome::Done((), end)
            } else {
                Outcome::<()>::Fail(end, ErrorKind::Outdent)
            })
        }),
    decreases s.len() - i,
{
    lemma_run_end(s, i, CharClass::Blank);
    let end = run_end(s, i, CharClass::Blank);
    if char_at(s, i, ' ') {
        law_offside_rule(s, i + 1, min_indent);
    } else if char_at(s, i, '\n') {
        lemma_blank_lines_reach(s, i + 1);
        let line = blank_lines_end(s, i + 1);
        let k = run_end(s, line, CharClass::Space);
        assert(k == end);
        assert(line_feed_in(s, i, end));
        lemma_run_end(s, line, CharClass::Space);
        if k < s.len() {
            assert(!CharClass::Blank.holds(s[k]));
        }
        assert(indented_whitespace_spec(s, k, min_indent) is Skip);
        assert(indented_whitespaces_spec(s, k, min_indent) == Outcome::Done((), k));
    } else {
        assert(end == i);
    }
}

/// Letters and digits that stand side by side, with neither a letter, a
/// digit nor a space behind them, are an integer part as they stand.
proof fn lemma_grouped_plain(s: Seq<char>, i: int, e: int)
    requires
        0 <= i < e <= s.len(),
        forall|k: int| i <= k < e ==> is_alnum(#[trigger] s[k]),
        e < s.len() ==> !is_alnum(s[e]) && s[e] != ' ',
    ensures
        grouped_end(s, i) == e,
        grouped_digits(s, i) == s.subrange(i, e),
    decreases e - i,
{
    assert(is_alnum(s[i]));
    if i + 1 < e {
        assert(is_alnum(s[i + 1]));
        assert(grouped_next(s, i) == Some(i + 1));
        lemma_grouped_plain(s, i + 1, e);
        assert(seq![s[i]] + s.subrange(i + 1, e) =~= s.subrange(i, e));
    } else {
        assert(grouped_next(s, i) is None);
        assert(seq![s[i]] =~= s.subrange(i, e));
    }
}

/// A number literal that spans the whole input is the parse of the
/// input.
#[verifier::spinoff_prover]
#[verifier::rlimit(40)]
proof fn lemma_number_alone(s: Seq<char>)
    requires
        s.len() <= MAX_INPUT_LEN,
        number_literal_spec(s, 0) matches Outcome::Done(_, end) && end == s.len(),
    ensures
        parse_spec(s) == number_literal_spec(s, 0),
{
    let n = s.len() as int;
    let m = 1int;
    assert(s[0] == '-' || is_digit(s[0]));
    assert(run_end(s, 0, CharClass::Space) == 0);
    assert(closure_head_spec(s, 0, m) is Skip);
    assert(closure_spec(s, 0, m) is Skip);
    assert(parenthetical_expr_spec(s, 0, m) is Skip);
    assert(!literal_at(s, 0, seq!['{', '}'])) by {
        if literal_at(s, 0, seq!['{', '}']) {
            assert(s[0int + 0int] == seq!['{', '}'][0int]);
        }
    }
    assert(string_literal_spec(s, 0) is Skip);
    assert(expr_body_without_operators_spec(s, 0, m) == number_literal_spec(s, 0));
    assert(indented_whitespace_spec(s, n, m) is Skip);
    assert(indented_whitespaces_spec(s, n, m) == Outcome::Done((), n));
    assert(operator_spec(s, n) is Skip);
    assert(operator_tail_spec(s, n, m) is Skip);
    assert(expr_body_spec(s, 0, m) == number_literal_spec(s, 0));
    assert(whitespace_or_eof_spec(s, n) == Outcome::Done((), n));
    assert(expr_spec(s, 0) == number_literal_spec(s, 0));
}

/// The text of a number: the sign, if there is one, and the digits.
pub open spec fn with_minus(negative: bool, text: Seq<char>) -> Seq<char> {
    if negative {
        seq!['-'] + text
    } else {
        text
    }
}

/// Every run of decimal digits whose value fits `i64`, standing alone or
/// behind `-`, parses as the integer of that value.
pub proof fn law_digits_parse_as_integer(negative: bool, digits: Seq<char>)
    requires
        digits.len() > 0,
        all_digits(digits),
        decimal_value(digits) <= i64::MAX,
        digits.len() < MAX_INPUT_LEN,
    ensures
        parse_spec(with_minus(negative, digits)) == Outcome::Done(
            ExprView::Int(signed(negative, decimal_value(digits) as int)),
            with_minus(negative, digits).len() as int,
        ),
{
    let s = with_minus(negative, digits);
    let first: int = if negative {
        1
    } else {
        0
    };
    let n = s.len() as int;
    assert forall|k: int| first <= k < n implies is_alnum(#[trigger] s[k]) by {
        assert(s[k] == digits[k - first]);
        assert(is_digit(digits[k - first]));
    }
    assert(s[first] == digits[0] && is_digit(digits[0]));
    assert(s.subrange(first, n) =~= digits);
    lemma_grouped_plain(s, first, n);
    assert(number_literal_spec(s, 0) == Outcome::Done(
        ExprView::Int(signed(negative, decimal_value(digits) as int)),
        n,
    ));
    lemma_number_alone(s);
}

/// Every decimal literal parses as the exact fraction that it writes: with
/// `n` digits behind the point, the integer part times `10^n` plus the
/// fraction, over `10^n`, provided that this numerator fits `i64` and this
/// denominator `u64`.
pub proof fn law_decimal_parses_as_fraction(negative: bool, integer: Seq<char>, fraction: Seq<char>)
    requires
        integer.len() > 0,
        fraction.len() > 0,
        all_digits(integer),
        all_digits(fraction),
        pow10(fraction.len()) <= u64::MAX,
        decimal_value(integer) * pow10(fraction.len()) + decimal_value(fraction) <= i64::MAX,
        integer.len() + fraction.len() + 2 <= MAX_INPUT_LEN,
    ensures
        parse_spec(with_minus(negative, integer + seq!['.'] + fraction)) == Outcome::Done(
            ExprView::Frac(
                signed(
                    negative,
                    (decimal_value(integer) * pow10(fraction.len()) + decimal_value(fraction))
                        as int,
                ),
                pow10(fraction.len()) as int,
            ),
            with_minus(negative, integer + seq!['.'] + fraction).len() as int,
        ),
{
    let s = with_minus(negative, integer + seq!['.'] + fraction);
    let first: int = if negative {
        1
    } else {
        0
    };
    let n = s.len() as int;
    let dot = first + integer.len();
    assert forall|k: int| first <= k < dot implies is_alnum(#[trigger] s[k]) by {
        assert(s[k] == integer[k - first]);
        assert(is_digit(integer[k - first]));
    }
    assert(s[first] == integer[0] && is_digit(integer[0]));
    assert(s[dot] == '.');
    assert(s.subrange(first, dot) =~= integer);
    lemma_grouped_plain(s, first, dot);
    assert forall|k: int| dot + 1 <= k < n implies CharClass::Alnum.holds(#[trigger] s[k]) by {
        assert(s[k] == fraction[k - dot - 1]);
        assert(is_digit(fraction[k - dot - 1]));
    }
    lemma_run_end_is(s, dot + 1, n, CharClass::Alnum);
    assert(s.subrange(dot + 1, n) =~= fraction);
    lemma_number_alone(s);
}

/// Every tag name, standing alone, parses as the tag without arguments.
#[verifier::spinoff_prover]
#[verifier::rlimit(40)]
pub proof fn law_tag_name_parses_as_variant(name: Seq<char>)
    requires
        valid_variant_name(name),
        name.len() <= MAX_INPUT_LEN,
    ensures
        parse_spec(name) == Outcome::Done(
            ExprView::ApplyVariant(name, None),
            name.len() as int,
        ),
{
    let s = name;
    let n = s.len() as int;
    let m = 1int;
    assert(is_upper(s[0]) && is_alnum(s[0]));
    assert(s.subrange(0, n) =~= name);
    assert forall|k: int| 0 <= k < n implies CharClass::Alnum.holds(#[trigger] s[k]) by {
        assert(is_alnum(name[k]));
    }
    lemma_run_end_is(s, 0, n, CharClass::Alnum);
    lemma_no_whitespace_at(s, n, m);
    assert(variant_name_spec(s, 0) == Outcome::Done(name, n));
    assert(run_end(s, 0, CharClass::Space) == 0);
    assert(closure_head_spec(s, 0, m) is Skip);
    assert(closure_spec(s, 0, m) is Skip);
    assert(parenthetical_expr_spec(s, 0, m) is Skip);
    assert(!literal_at(s, 0, seq!['{', '}'])) by {
        if literal_at(s, 0, seq!['{', '}']) {
            assert(s[0int + 0int] == seq!['{', '}'][0int]);
        }
    }
    assert(string_literal_spec(s, 0) is Skip);
    assert(number_literal_spec(s, 0) is Skip);
    assert(char_literal_spec(s, 0) is Skip);
    assert(keyword_head_spec(s, 0, Keyword::If, m) is Skip) by {
        if literal_at(s, 0, Keyword::If.text()) {
            assert(s[0int + 0int] == Keyword::If.text()[0int]);
        }
    }
    assert(if_expr_spec(s, 0, m) is Skip);
    assert(keyword_head_spec(s, 0, Keyword::Case, m) is Skip) by {
        if literal_at(s, 0, Keyword::Case.text()) {
            assert(s[0int + 0int] == Keyword::Case.text()[0int]);
        }
    }
    assert(match_expr_spec(s, 0, m) is Skip);
    assert(ident_spec(s, n) is Skip);
    assert(pattern_spec(s, n, m) is Skip) by {
        if literal_at(s, n, seq!['{', '}']) {
            assert(seq!['{', '}'].len() == 2);
        }
    }
    assert(pattern_list_spec(s, n, m) is Skip);
    assert(match_variant_spec(s, 0, m) == Outcome::Done(PatternView::Variant(name, None), n));
    assert(pattern_spec(s, 0, m) == Outcome::Done(PatternView::Variant(name, None), n));
    assert(let_head_spec(s, 0, m) is None);
    assert(let_expr_spec(s, 0, m) is Skip);
    assert(function_application_spec(s, n, m) is Skip);
    assert(apply_variant_spec(s, 0, m) == Outcome::Done(ExprView::ApplyVariant(name, None), n));
    assert(expr_body_without_operators_spec(s, 0, m) == Outcome::Done(
        ExprView::ApplyVariant(name, None),
        n,
    ));
    assert(operator_spec(s, n) is Skip);
    assert(operator_tail_spec(s, n, m) is Skip);
    assert(expr_body_spec(s, 0, m) == Outcome::Done(ExprView::ApplyVariant(name, None), n));
    assert(whitespace_or_eof_spec(s, n) == Outcome::Done((), n));
    assert(expr_spec(s, 0) == Outcome::Done(ExprView::ApplyVariant(name, None), n));
}

} // verus!
