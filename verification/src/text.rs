//! String and character literals, with their escapes and splices.

use vstd::prelude::*;
use crate::chars::{
    at_char, at_pair, char_at, hex_digit, is_digit, is_hex_digit, literal_at, push_char,
};
use crate::error::{agrees, ErrorKind, Expectation, Outcome, ParseError, Parsed};
use crate::expr::{Expr, ExprView};
use crate::ident::{ident, ident_spec, lemma_ident_valid};
use crate::parse_state::{State, MAX_INPUT_LEN};

verus! {

/// What a backslash in front of `c` stands for inside a literal delimited
/// by `quote`.
pub open spec fn escaped_char(c: char, quote: char) -> Option<char> {
    if c == quote {
        Some(quote)
    } else if c == '\\' {
        Some('\\')
    } else if c == 't' {
        Some('\t')
    } else if c == 'n' {
        Some('\n')
    } else if c == 'r' {
        Some('\r')
    } else {
        None
    }
}

/// A code point that is a character: up to `10FFFF`, and no surrogate.
pub open spec fn is_scalar_value(code: int) -> bool {
    0 <= code <= 0xD7FF || 0xE000 <= code <= 0x10FFFF
}

pub open spec fn hex_digit_value(c: char) -> int {
    if is_digit(c) {
        c as int - '0' as int
    } else if 'a' <= c && c <= 'f' {
        c as int - 'a' as int + 10
    } else {
        c as int - 'A' as int + 10
    }
}

/// The number that the hexadecimal digits `digits` write.
pub open spec fn hex_value(digits: Seq<char>) -> int
    decreases digits.len(),
{
    if digits.len() == 0 {
        0
    } else {
        hex_value(digits.drop_last()) * 16 + hex_digit_value(digits.last())
    }
}

/// The index behind the hexadecimal digits at `i`, `budget` of them at
/// most.
pub open spec fn hex_run_end(s: Seq<char>, i: int, budget: nat) -> int
    decreases budget,
{
    if budget > 0 && 0 <= i < s.len() && is_hex_digit(s[i]) {
        hex_run_end(s, i + 1, (budget - 1) as nat)
    } else {
        i
    }
}

/// The escape `u{H..H}` at `i`, behind a backslash: one to six hexadecimal
/// digits in braces, which write the code of the character.
pub open spec fn unicode_escape_spec(s: Seq<char>, i: int) -> Outcome<char> {
    if !char_at(s, i, 'u') {
        Outcome::Skip
    } else if !char_at(s, i + 1, '{') {
        Outcome::Fail(i + 1, ErrorKind::InvalidEscape)
    } else {
        let e = hex_run_end(s, i + 2, 6);
        if e <= i + 2 || !char_at(s, e, '}') {
            Outcome::Fail(e, ErrorKind::InvalidHexCode)
        } else {
            let code = hex_value(s.subrange(i + 2, e));
            if code > 0x10FFFF {
                Outcome::Fail(e, ErrorKind::CodePointTooLarge)
            } else if !is_scalar_value(code) {
                Outcome::Fail(e, ErrorKind::InvalidCodePoint)
            } else {
                Outcome::Done(code as char, e + 1)
            }
        }
    }
}

/// One character of the body of a literal delimited by `quote`.
///
/// `Skip` at the end of the input, at `quote`, and, in a string, at the
/// backslash of a splice `\(`. A backslash otherwise escapes what follows
/// it, by [`escaped_char`] or [`unicode_escape_spec`]; if neither fits, the
/// character fails with [`ErrorKind::InvalidEscape`].
pub open spec fn body_char_spec(s: Seq<char>, i: int, quote: char) -> Outcome<char> {
    if !(0 <= i < s.len()) || s[i] == quote {
        Outcome::Skip
    } else if s[i] != '\\' {
        Outcome::Done(s[i], i + 1)
    } else if quote == '"' && char_at(s, i + 1, '(') {
        Outcome::Skip
    } else if i + 1 < s.len() && escaped_char(s[i + 1], quote) is Some {
        Outcome::Done(escaped_char(s[i + 1], quote).unwrap(), i + 2)
    } else if char_at(s, i + 1, 'u') {
        unicode_escape_spec(s, i + 1)
    } else {
        Outcome::Fail(i + 1, ErrorKind::InvalidEscape)
    }
}

/// `o` with `front` ahead of its text.
pub open spec fn with_front(front: Seq<char>, o: Outcome<Seq<char>>) -> Outcome<Seq<char>> {
    match o {
        Outcome::Done(rest, e) => Outcome::Done(front + rest, e),
        other => other,
    }
}

/// The literal text of a string from `i` on: body characters for as long
/// as one starts. Never `Skip`.
pub open spec fn text_run_spec(s: Seq<char>, i: int) -> Outcome<Seq<char>>
    decreases s.len() - i,
{
    match body_char_spec(s, i, '"') {
        Outcome::Done(c, j) => if i < j <= s.len() {
            with_front(seq![c], text_run_spec(s, j))
        } else {
            Outcome::Done(Seq::empty(), i)
        },
        Outcome::Skip => Outcome::Done(Seq::empty(), i),
        Outcome::Fail(at, kind) => Outcome::Fail(at, kind),
    }
}

/// The splices of a string, each as its name and the text in front of it,
/// and the text behind the last one.
pub type Segments = (Seq<(Seq<char>, Seq<char>)>, Seq<char>);

/// `o` with the splices `front` ahead of its own.
pub open spec fn with_segments(front: Seq<(Seq<char>, Seq<char>)>, o: Outcome<Segments>) -> Outcome<
    Segments,
> {
    match o {
        Outcome::Done((segments, trailing), e) => Outcome::Done((front + segments, trailing), e),
        other => other,
    }
}

/// The rest of a string literal from `i` on, up to and with its closing
/// quote: text, then either the quote or a splice `\(name)` and the rest
/// behind it.
pub open spec fn segments_spec(s: Seq<char>, i: int) -> Outcome<Segments>
    decreases s.len() - i,
{
    match text_run_spec(s, i) {
        Outcome::Done(text, j) => {
            if char_at(s, j, '"') {
                Outcome::Done((Seq::empty(), text), j + 1)
            } else if literal_at(s, j, seq!['\\', '(']) {
                match ident_spec(s, j + 2) {
                    Outcome::Done(name, e) => {
                        if !char_at(s, e, ')') {
                            Outcome::Fail(e, ErrorKind::Expected(Expectation::CloseParen))
                        } else if i <= e < s.len() {
                            with_segments(seq![(name, text)], segments_spec(s, e + 1))
                        } else {
                            Outcome::Skip
                        }
                    },
                    Outcome::Skip => Outcome::Fail(
                        j + 2,
                        ErrorKind::Expected(Expectation::Identifier),
                    ),
                    Outcome::Fail(at, kind) => Outcome::Fail(at, kind),
                }
            } else {
                Outcome::Fail(j, ErrorKind::Expected(Expectation::Quote))
            }
        },
        other => other.cast(),
    }
}

/// The expression that a string literal with these splices and this
/// trailing text stands for.
pub open spec fn string_expr(segments: Seq<(Seq<char>, Seq<char>)>, trailing: Seq<char>) -> ExprView {
    if segments.len() > 0 {
        ExprView::InterpolatedStr(segments, trailing)
    } else if trailing.len() > 0 {
        ExprView::Str(trailing)
    } else {
        ExprView::EmptyStr
    }
}

/// A string literal at `i`: `"`, the body, `"`. Anything but `"` at `i`
/// is `Skip`.
pub open spec fn string_literal_spec(s: Seq<char>, i: int) -> Outcome<ExprView> {
    if !char_at(s, i, '"') {
        Outcome::Skip
    } else {
        match segments_spec(s, i + 1) {
            Outcome::Done((segments, trailing), e) => Outcome::Done(
                string_expr(segments, trailing),
                e,
            ),
            other => other.cast(),
        }
    }
}

/// A character literal at `i`: `'`, one body character, `'`. Anything but
/// `'` at `i` is `Skip`; `''` fails with [`ErrorKind::EmptyChar`].
pub open spec fn char_literal_spec(s: Seq<char>, i: int) -> Outcome<ExprView> {
    if !char_at(s, i, '\'') {
        Outcome::Skip
    } else if char_at(s, i + 1, '\'') {
        Outcome::Fail(i + 1, ErrorKind::EmptyChar)
    } else {
        match body_char_spec(s, i + 1, '\'') {
            Outcome::Done(c, j) => if char_at(s, j, '\'') {
                Outcome::Done(ExprView::Char(c), j + 1)
            } else {
                Outcome::Fail(j, ErrorKind::Expected(Expectation::Apostrophe))
            },
            Outcome::Skip => Outcome::Fail(i + 1, ErrorKind::Expected(Expectation::Character)),
            Outcome::Fail(at, kind) => Outcome::Fail(at, kind),
        }
    }
}

/// Every character is a Unicode scalar value.
pub proof fn lemma_char_is_scalar(c: char)
    ensures
        is_scalar_value(c as int),
{
}

/// Sixteen to the power `n`.
pub open spec fn pow16(n: nat) -> nat
    decreases n,
{
    if n == 0 {
        1
    } else {
        16 * pow16((n - 1) as nat)
    }
}

/// A run of hexadecimal digits ends within its budget and within the
/// input, and holds such digits only.
pub proof fn lemma_hex_run(s: Seq<char>, i: int, budget: nat)
    requires
        0 <= i <= s.len(),
    ensures
        i <= hex_run_end(s, i, budget) <= s.len(),
        hex_run_end(s, i, budget) <= i + budget,
    decreases budget,
{
    if budget > 0 && i < s.len() && is_hex_digit(s[i]) {
        lemma_hex_run(s, i + 1, (budget - 1) as nat);
    }
}

/// A body character that matches consumes at least one character, within
/// the input.
pub proof fn lemma_body_char(s: Seq<char>, i: int, quote: char)
    requires
        0 <= i <= s.len(),
    ensures
        match body_char_spec(s, i, quote) {
            Outcome::Done(_, j) => i < j <= s.len(),
            Outcome::Skip => true,
            Outcome::Fail(at, _) => i < at <= s.len(),
        },
{
    if i + 3 <= s.len() {
        lemma_hex_run(s, i + 3, 6);
    }
}

/// `char::from_u32` of std: the character whose code is `code`, if `code`
/// is a Unicode scalar value, and nothing otherwise.
#[verifier::external_body]
fn char_from_code(code: u32) -> (c: Option<char>)
    ensures
        c == (if is_scalar_value(code as int) {
            Some(code as char)
        } else {
            None::<char>
        }),
{
    char::from_u32(code)
}

fn hex_digit_of(c: char) -> (v: u32)
    requires
        is_hex_digit(c),
    ensures
        v == hex_digit_value(c),
        v < 16,
{
    if '0' <= c && c <= '9' {
        c as u32 - '0' as u32
    } else if 'a' <= c && c <= 'f' {
        c as u32 - 'a' as u32 + 10
    } else {
        c as u32 - 'A' as u32 + 10
    }
}

/// The state behind the hexadecimal digits at `st`, six of them at most,
/// and the number that they write.
fn scan_hex(input: &[char], st: State) -> (r: (State, u32))
    requires
        input@.len() <= MAX_INPUT_LEN,
        st.wf(input@),
    ensures
        r.0.index == hex_run_end(input@, st.index as int, 6),
        r.0.wf(input@),
        st.index <= r.0.index,
        r.1 == hex_value(input@.subrange(st.index as int, r.0.index as int)),
{
    let mut cur = st;
    let mut value: u32 = 0;
    let mut count: usize = 0;
    assert(input@.subrange(st.index as int, st.index as int) =~= Seq::empty());
    assert(pow16(6) == 16777216) by {
        reveal_with_fuel(pow16, 7);
    }
    while count < 6 && cur.index < input.len() && hex_digit(input[cur.index])
        invariant
            input@.len() <= MAX_INPUT_LEN,
            cur.wf(input@),
            count <= 6,
            cur.index == st.index + count,
            hex_run_end(input@, st.index as int, 6) == hex_run_end(
                input@,
                cur.index as int,
                (6 - count) as nat,
            ),
            value == hex_value(input@.subrange(st.index as int, cur.index as int)),
            value < pow16(count as nat),
            pow16(6) == 16777216,
        decreases 6 - count,
    {
        let d = hex_digit_of(input[cur.index]);
        proof {
            let longer = input@.subrange(st.index as int, cur.index + 1);
            assert(longer.drop_last() =~= input@.subrange(st.index as int, cur.index as int));
            assert(longer.last() == input@[cur.index as int]);
            lemma_pow16_grows((count + 1) as nat, 6);
        }
        value = value * 16 + d;
        cur = cur.advance(input);
        count = count + 1;
    }
    (cur, value)
}

/// Powers of sixteen grow.
pub proof fn lemma_pow16_grows(a: nat, b: nat)
    requires
        a <= b,
    ensures
        1 <= pow16(a) <= pow16(b),
    decreases b,
{
    if b == 0 {
    } else if a == b {
        lemma_pow16_grows((a - 1) as nat, (b - 1) as nat);
    } else {
        lemma_pow16_grows(a, (b - 1) as nat);
    }
}

/// Parses the escape `u{H..H}` behind a backslash.
fn unicode_code_pt(input: &[char], st: State) -> (r: Parsed<char>)
    requires
        input@.len() <= MAX_INPUT_LEN,
        st.wf(input@),
    ensures
        agrees(r, unicode_escape_spec(input@, st.index as int), input@),
        r matches Parsed::Done(c, _) ==> is_scalar_value(c as int),
{
    if !at_char(input, st.index, 'u') {
        return Parsed::Skip;
    }
    let brace = st.advance(input);
    if !at_char(input, brace.index, '{') {
        return Parsed::Fail(ParseError { position: brace.position, kind: ErrorKind::InvalidEscape });
    }
    let (end, code) = scan_hex(input, brace.advance(input));
    if end.index <= brace.index + 1 || !at_char(input, end.index, '}') {
        return Parsed::Fail(ParseError { position: end.position, kind: ErrorKind::InvalidHexCode });
    }
    if code > 0x10FFFF {
        return Parsed::Fail(
            ParseError { position: end.position, kind: ErrorKind::CodePointTooLarge },
        );
    }
    match char_from_code(code) {
        Some(c) => Parsed::Done(c, end.advance(input)),
        None => Parsed::Fail(
            ParseError { position: end.position, kind: ErrorKind::InvalidCodePoint },
        ),
    }
}

fn escaped(c: char, quote: char) -> (r: Option<char>)
    ensures
        r == escaped_char(c, quote),
{
    if c == quote {
        Some(quote)
    } else if c == '\\' {
        Some('\\')
    } else if c == 't' {
        Some('\t')
    } else if c == 'n' {
        Some('\n')
    } else if c == 'r' {
        Some('\r')
    } else {
        None
    }
}

/// Parses one character of the body of a literal delimited by `quote`.
fn body_char(input: &[char], st: State, quote: char) -> (r: Parsed<char>)
    requires
        input@.len() <= MAX_INPUT_LEN,
        st.wf(input@),
    ensures
        agrees(r, body_char_spec(input@, st.index as int, quote), input@),
        r matches Parsed::Done(c, _) ==> is_scalar_value(c as int),
{
    if st.index >= input.len() || input[st.index] == quote {
        return Parsed::Skip;
    }
    let c = input[st.index];
    let next = st.advance(input);
    if c != '\\' {
        proof {
            lemma_char_is_scalar(c);
        }
        return Parsed::Done(c, next);
    }
    if quote == '"' && at_char(input, next.index, '(') {
        return Parsed::Skip;
    }
    if next.index < input.len() {
        match escaped(input[next.index], quote) {
            Some(e) => {
                return Parsed::Done(e, next.advance(input));
            },
            None => {},
        }
    }
    if at_char(input, next.index, 'u') {
        unicode_code_pt(input, next)
    } else {
        Parsed::Fail(ParseError { position: next.position, kind: ErrorKind::InvalidEscape })
    }
}

/// Parses one character of a string literal's text.
pub fn string_body(input: &[char], st: State) -> (r: Parsed<char>)
    requires
        input@.len() <= MAX_INPUT_LEN,
        st.wf(input@),
    ensures
        agrees(r, body_char_spec(input@, st.index as int, '"'), input@),
        r matches Parsed::Done(c, _) ==> is_scalar_value(c as int),
{
    body_char(input, st, '"')
}

/// Parses the one character of a character literal.
pub fn char_body(input: &[char], st: State) -> (r: Parsed<char>)
    requires
        input@.len() <= MAX_INPUT_LEN,
        st.wf(input@),
    ensures
        agrees(r, body_char_spec(input@, st.index as int, '\''), input@),
        r matches Parsed::Done(c, _) ==> is_scalar_value(c as int),
{
    body_char(input, st, '\'')
}

/// Parses the literal text of a string from `st` on.
fn text_run(input: &[char], st: State) -> (r: Parsed<String>)
    requires
        input@.len() <= MAX_INPUT_LEN,
        st.wf(input@),
    ensures
        agrees(r, text_run_spec(input@, st.index as int), input@),
        r matches Parsed::Done(_, end) ==> st.index <= end.index,
{
    let mut cur = st;
    let mut text = String::new();
    assert(with_front(text@, text_run_spec(input@, st.index as int)) == text_run_spec(
        input@,
        st.index as int,
    )) by {
        match text_run_spec(input@, st.index as int) {
            Outcome::Done(rest, _) => {
                assert(text@ + rest =~= rest);
            },
            _ => {},
        }
    }
    loop
        invariant
            input@.len() <= MAX_INPUT_LEN,
            cur.wf(input@),
            st.index <= cur.index,
            text_run_spec(input@, st.index as int) == with_front(
                text@,
                text_run_spec(input@, cur.index as int),
            ),
        decreases input@.len() - cur.index,
    {
        proof {
            lemma_body_char(input@, cur.index as int, '"');
        }
        match string_body(input, cur) {
            Parsed::Done(c, next) => {
                let ghost before = text@;
                push_char(&mut text, c);
                proof {
                    match text_run_spec(input@, next.index as int) {
                        Outcome::Done(rest, _) => {
                            assert(before + (seq![c] + rest) =~= text@ + rest);
                        },
                        _ => {},
                    }
                }
                cur = next;
            },
            Parsed::Skip => {
                assert(text@ + Seq::<char>::empty() =~= text@);
                return Parsed::Done(text, cur);
            },
            Parsed::Fail(e) => {
                return Parsed::Fail(e);
            },
        }
    }
}

/// The value of the splices collected in `segments`.
pub open spec fn segments_view(segments: Seq<(String, String)>) -> Seq<(Seq<char>, Seq<char>)> {
    Seq::new(segments.len(), |k: int| (segments[k].0@, segments[k].1@))
}

/// Parses a string literal: `EmptyStr`, `Str` or, with splices,
/// `InterpolatedStr`.
pub fn string_literal(input: &[char], st: State) -> (r: Parsed<Expr>)
    requires
        input@.len() <= MAX_INPUT_LEN,
        st.wf(input@),
    ensures
        agrees(r, string_literal_spec(input@, st.index as int), input@),
        r matches Parsed::Done(_, end) ==> st.index < end.index,
{
    if !at_char(input, st.index, '"') {
        return Parsed::Skip;
    }
    let body = st.advance(input);
    let mut cur = body;
    let mut segments: Vec<(String, String)> = Vec::new();
    assert(with_segments(segments_view(segments@), segments_spec(input@, body.index as int))
        == segments_spec(input@, body.index as int)) by {
        match segments_spec(input@, body.index as int) {
            Outcome::Done((rest, _), _) => {
                assert(segments_view(segments@) + rest =~= rest);
            },
            _ => {},
        }
    }
    loop
        invariant
            input@.len() <= MAX_INPUT_LEN,
            cur.wf(input@),
            body.index <= cur.index,
            char_at(input@, st.index as int, '"'),
            body.index == st.index + 1,
            segments_spec(input@, body.index as int) == with_segments(
                segments_view(segments@),
                segments_spec(input@, cur.index as int),
            ),
        decreases input@.len() - cur.index,
    {
        let (text, at) = match text_run(input, cur) {
            Parsed::Done(text, at) => (text, at),
            Parsed::Skip => {
                return Parsed::Skip;
            },
            Parsed::Fail(e) => {
                return Parsed::Fail(e);
            },
        };
        if at_char(input, at.index, '"') {
            let end = at.advance(input);
            proof {
                assert(segments_view(segments@) + Seq::<(Seq<char>, Seq<char>)>::empty()
                    =~= segments_view(segments@));
            }
            if segments.len() > 0 {
                proof {
                    assert(Expr::InterpolatedStr(segments, text).to_view()->InterpolatedStr_0
                        =~= segments_view(segments@));
                }
                return Parsed::Done(Expr::InterpolatedStr(segments, text), end);
            } else if !text.as_str().is_empty() {
                return Parsed::Done(Expr::Str(text), end);
            } else {
                return Parsed::Done(Expr::EmptyStr, end);
            }
        }
        if !at_pair(input, at.index, '\\', '(') {
            return Parsed::Fail(
                ParseError { position: at.position, kind: ErrorKind::Expected(Expectation::Quote) },
            );
        }
        let name_at = at.advance_by(input, 2);
        proof {
            lemma_ident_valid(input@, name_at.index as int);
        }
        let (name, close) = match ident(input, name_at) {
            Parsed::Done(name, close) => (name, close),
            Parsed::Skip => {
                return Parsed::Fail(
                    ParseError {
                        position: name_at.position,
                        kind: ErrorKind::Expected(Expectation::Identifier),
                    },
                );
            },
            Parsed::Fail(e) => {
                return Parsed::Fail(e);
            },
        };
        if !at_char(input, close.index, ')') {
            return Parsed::Fail(
                ParseError {
                    position: close.position,
                    kind: ErrorKind::Expected(Expectation::CloseParen),
                },
            );
        }
        let ghost before = segments_view(segments@);
        let ghost pair = (name@, text@);
        segments.push((name, text));
        cur = close.advance(input);
        proof {
            assert(segments_view(segments@) =~= before.push(pair));
            match segments_spec(input@, cur.index as int) {
                Outcome::Done((rest, _), _) => {
                    assert(before + (seq![pair] + rest) =~= segments_view(segments@) + rest);
                },
                _ => {},
            }
        }
    }
}

/// Parses a character literal.
pub fn char_literal(input: &[char], st: State) -> (r: Parsed<Expr>)
    requires
        input@.len() <= MAX_INPUT_LEN,
        st.wf(input@),
    ensures
        agrees(r, char_literal_spec(input@, st.index as int), input@),
        r matches Parsed::Done(_, end) ==> st.index < end.index,
{
    if !at_char(input, st.index, '\'') {
        return Parsed::Skip;
    }
    let body = st.advance(input);
    if at_char(input, body.index, '\'') {
        return Parsed::Fail(ParseError { position: body.position, kind: ErrorKind::EmptyChar });
    }
    proof {
        lemma_body_char(input@, body.index as int, '\'');
    }
    match char_body(input, body) {
        Parsed::Done(c, close) => {
            if at_char(input, close.index, '\'') {
                Parsed::Done(Expr::Char(c), close.advance(input))
            } else {
                Parsed::Fail(
                    ParseError {
                        position: close.position,
                        kind: ErrorKind::Expected(Expectation::Apostrophe),
                    },
                )
            }
        },
        Parsed::Skip => Parsed::Fail(
            ParseError { position: body.position, kind: ErrorKind::Expected(Expectation::Character) },
        ),
        Parsed::Fail(e) => Parsed::Fail(e),
    }
}

} // verus!
