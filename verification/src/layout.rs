//! Whitespace under the offside rule.
//!
//! A space continues the current line. A line feed continues the current
//! block only if the next line that is not blank is indented by at least
//! the block's minimum, or if the input ends first.

use vstd::prelude::*;
use crate::chars::{at_char, char_at, lemma_run_end, run_end, scan_run, CharClass};
use crate::error::{agrees, ErrorKind, Outcome, ParseError, Parsed};
use crate::parse_state::{State, MAX_INPUT_LEN};

verus! {

/// The index behind the blank lines that start at `line`: lines of spaces
/// only, each ended by a line feed.
pub open spec fn blank_lines_end(s: Seq<char>, line: int) -> int
    decreases s.len() - line,
{
    let k = run_end(s, line, CharClass::Space);
    if 0 <= line <= k && char_at(s, k, '\n') {
        blank_lines_end(s, k + 1)
    } else {
        line
    }
}

/// One step of whitespace inside a block of minimum indent `min_indent`:
/// a space, or a line feed with the blank lines behind it and the indent of
/// the line that follows them. That indent must be `min_indent` spaces or
/// more unless the input ends behind it; if it is less, the step fails with
/// [`ErrorKind::Outdent`] at the first character of that line.
pub open spec fn indented_whitespace_spec(s: Seq<char>, i: int, min_indent: int) -> Outcome<()> {
    if char_at(s, i, ' ') {
        Outcome::Done((), i + 1)
    } else if char_at(s, i, '\n') {
        let line = blank_lines_end(s, i + 1);
        let k = run_end(s, line, CharClass::Space);
        if k >= s.len() || k - line >= min_indent {
            Outcome::Done((), k)
        } else {
            Outcome::Fail(k, ErrorKind::Outdent)
        }
    } else {
        Outcome::Skip
    }
}

/// Steps of [`indented_whitespace_spec`] for as long as one starts; never
/// `Skip`.
pub open spec fn indented_whitespaces_spec(s: Seq<char>, i: int, min_indent: int) -> Outcome<()>
    decreases s.len() - i,
{
    match indented_whitespace_spec(s, i, min_indent) {
        Outcome::Done(_, j) => if i < j <= s.len() {
            indented_whitespaces_spec(s, j, min_indent)
        } else {
            Outcome::Done((), i)
        },
        Outcome::Skip => Outcome::Done((), i),
        Outcome::Fail(at, kind) => Outcome::Fail(at, kind),
    }
}

/// One step of [`indented_whitespace_spec`] or more.
pub open spec fn indented_whitespaces1_spec(s: Seq<char>, i: int, min_indent: int) -> Outcome<()> {
    match indented_whitespace_spec(s, i, min_indent) {
        Outcome::Done(_, j) => indented_whitespaces_spec(s, j, min_indent),
        other => other,
    }
}

/// The index behind the spaces and line feeds at `i`, whatever their
/// layout.
pub open spec fn whitespace_end(s: Seq<char>, i: int) -> int {
    run_end(s, i, CharClass::Blank)
}

/// One space or line feed or more, whatever their layout.
pub open spec fn whitespace1_spec(s: Seq<char>, i: int) -> Outcome<()> {
    if 0 <= i < s.len() && CharClass::Blank.holds(s[i]) {
        Outcome::Done((), whitespace_end(s, i))
    } else {
        Outcome::Skip
    }
}

/// What may follow the outermost expression: the end of the input, or
/// spaces and line feeds.
pub open spec fn whitespace_or_eof_spec(s: Seq<char>, i: int) -> Outcome<()> {
    if i == s.len() {
        Outcome::Done((), i)
    } else {
        whitespace1_spec(s, i)
    }
}

/// Blank lines end within the input, at the start of a line that is not
/// blank.
pub proof fn lemma_blank_lines_end(s: Seq<char>, line: int)
    requires
        0 <= line <= s.len(),
    ensures
        line <= blank_lines_end(s, line) <= s.len(),
        !char_at(s, run_end(s, blank_lines_end(s, line), CharClass::Space), '\n'),
    decreases s.len() - line,
{
    lemma_run_end(s, line, CharClass::Space);
    let k = run_end(s, line, CharClass::Space);
    if char_at(s, k, '\n') {
        lemma_blank_lines_end(s, k + 1);
    }
}

/// A step of whitespace that matches consumes at least one character and
/// stays within the input; one that fails does so within the input.
pub proof fn lemma_indented_whitespace(s: Seq<char>, i: int, min_indent: int)
    requires
        0 <= i <= s.len(),
    ensures
        match indented_whitespace_spec(s, i, min_indent) {
            Outcome::Done(_, j) => i < j <= s.len(),
            Outcome::Skip => true,
            Outcome::Fail(at, _) => i < at < s.len(),
        },
{
    if char_at(s, i, '\n') {
        lemma_blank_lines_end(s, i + 1);
        lemma_run_end(s, blank_lines_end(s, i + 1), CharClass::Space);
    }
}

/// Whitespace in a block ends at or behind its start, within the input.
pub proof fn lemma_indented_whitespaces(s: Seq<char>, i: int, min_indent: int)
    requires
        0 <= i <= s.len(),
    ensures
        match indented_whitespaces_spec(s, i, min_indent) {
            Outcome::Done(_, j) => i <= j <= s.len(),
            Outcome::Skip => false,
            Outcome::Fail(at, _) => i < at < s.len(),
        },
        match indented_whitespaces1_spec(s, i, min_indent) {
            Outcome::Done(_, j) => i < j <= s.len(),
            Outcome::Skip => true,
            Outcome::Fail(at, _) => i < at < s.len(),
        },
    decreases s.len() - i,
{
    lemma_indented_whitespace(s, i, min_indent);
    match indented_whitespace_spec(s, i, min_indent) {
        Outcome::Done(_, j) => {
            lemma_indented_whitespaces(s, j, min_indent);
        },
        _ => {},
    }
}

/// The state behind the spaces at `st`.
pub fn spaces(input: &[char], st: State) -> (end: State)
    requires
        input@.len() <= MAX_INPUT_LEN,
        st.wf(input@),
    ensures
        end.index == run_end(input@, st.index as int, CharClass::Space),
        end.wf(input@),
{
    scan_run(input, st, CharClass::Space)
}

/// The state behind the spaces and line feeds at `st`.
pub fn whitespace(input: &[char], st: State) -> (end: State)
    requires
        input@.len() <= MAX_INPUT_LEN,
        st.wf(input@),
    ensures
        end.index == whitespace_end(input@, st.index as int),
        st.index <= end.index,
        end.wf(input@),
{
    scan_run(input, st, CharClass::Blank)
}

/// One space or line feed or more.
pub fn whitespace1(input: &[char], st: State) -> (r: Parsed<()>)
    requires
        input@.len() <= MAX_INPUT_LEN,
        st.wf(input@),
    ensures
        agrees(r, whitespace1_spec(input@, st.index as int), input@),
{
    if st.index < input.len() && CharClass::Blank.has(input[st.index]) {
        Parsed::Done((), scan_run(input, st, CharClass::Blank))
    } else {
        Parsed::Skip
    }
}

/// The end of the input, or spaces and line feeds.
pub fn whitespace_or_eof(input: &[char], st: State) -> (r: Parsed<()>)
    requires
        input@.len() <= MAX_INPUT_LEN,
        st.wf(input@),
    ensures
        agrees(r, whitespace_or_eof_spec(input@, st.index as int), input@),
{
    if st.index == input.len() {
        Parsed::Done((), st)
    } else {
        whitespace1(input, st)
    }
}

/// The state at the start of the first line at or behind `line` that is
/// not blank.
fn skip_blank_lines(input: &[char], line: State) -> (end: State)
    requires
        input@.len() <= MAX_INPUT_LEN,
        line.wf(input@),
    ensures
        end.index == blank_lines_end(input@, line.index as int),
        end.wf(input@),
{
    let mut cur = line;
    loop
        invariant
            input@.len() <= MAX_INPUT_LEN,
            cur.wf(input@),
            blank_lines_end(input@, line.index as int) == blank_lines_end(
                input@,
                cur.index as int,
            ),
        decreases input@.len() - cur.index,
    {
        let k = scan_run(input, cur, CharClass::Space);
        if at_char(input, k.index, '\n') {
            cur = k.advance(input);
        } else {
            return cur;
        }
    }
}

/// One step of whitespace inside a block.
pub fn indented_whitespace(input: &[char], st: State, min_indent: i32) -> (r: Parsed<()>)
    requires
        input@.len() <= MAX_INPUT_LEN,
        st.wf(input@),
    ensures
        agrees(r, indented_whitespace_spec(input@, st.index as int, min_indent as int), input@),
{
    if at_char(input, st.index, ' ') {
        Parsed::Done((), st.advance(input))
    } else if at_char(input, st.index, '\n') {
        let line = skip_blank_lines(input, st.advance(input));
        let k = scan_run(input, line, CharClass::Space);
        let indented = min_indent <= 0 || k.index - line.index >= min_indent as usize;
        if k.index >= input.len() || indented {
            Parsed::Done((), k)
        } else {
            Parsed::Fail(ParseError { position: k.position, kind: ErrorKind::Outdent })
        }
    } else {
        Parsed::Skip
    }
}

/// Whitespace inside a block, as far as it goes; never `Skip`.
pub fn indented_whitespaces(input: &[char], st: State, min_indent: i32) -> (r: Parsed<()>)
    requires
        input@.len() <= MAX_INPUT_LEN,
        st.wf(input@),
    ensures
        agrees(r, indented_whitespaces_spec(input@, st.index as int, min_indent as int), input@),
        r matches Parsed::Done(_, end) ==> st.index <= end.index,
{
    let mut cur = st;
    loop
        invariant
            input@.len() <= MAX_INPUT_LEN,
            cur.wf(input@),
            st.index <= cur.index,
            indented_whitespaces_spec(input@, st.index as int, min_indent as int)
                == indented_whitespaces_spec(input@, cur.index as int, min_indent as int),
        decreases input@.len() - cur.index,
    {
        proof {
            lemma_indented_whitespace(input@, cur.index as int, min_indent as int);
        }
        match indented_whitespace(input, cur, min_indent) {
            Parsed::Done(_, next) => {
                cur = next;
            },
            Parsed::Skip => {
                return Parsed::Done((), cur);
            },
            Parsed::Fail(e) => {
                return Parsed::Fail(e);
            },
        }
    }
}

/// Whitespace inside a block, one step or more.
pub fn indented_whitespaces1(input: &[char], st: State, min_indent: i32) -> (r: Parsed<()>)
    requires
        input@.len() <= MAX_INPUT_LEN,
        st.wf(input@),
    ensures
        agrees(r, indented_whitespaces1_spec(input@, st.index as int, min_indent as int), input@),
        r matches Parsed::Done(_, end) ==> st.index < end.index,
{
    proof {
        lemma_indented_whitespace(input@, st.index as int, min_indent as int);
    }
    match indented_whitespace(input, st, min_indent) {
        Parsed::Done(_, next) => indented_whitespaces(input, next, min_indent),
        Parsed::Skip => Parsed::Skip,
        Parsed::Fail(e) => Parsed::Fail(e),
    }
}

} // verus!
