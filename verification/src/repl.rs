//! What an interactive session needs around the parser: the module text in
//! which an entered expression is compiled, and the shape of an answer.

use vstd::prelude::*;
use vstd::string::*;
use crate::chars::push_char;
use crate::parse::chars_of;

verus! {

/// The head of the module that wraps an entered expression.
pub const MODULE_HEADER: &'static str =
    "app \"app\" provides [ replOutput ] to \"./platform\"\n\nreplOutput =\n";

/// What stands for a value that is a function.
pub const FUNCTION_PLACEHOLDER: &'static str = "<function>";

/// The prefix of the names of built-in symbols.
pub const BUILTIN_PREFIX: &'static str = "roc_builtins";

/// The answer to an entered expression.
#[derive(Debug, PartialEq, Eq)]
pub enum ReplOutput {
    /// The reports of what is wrong with it.
    Problems(Vec<String>),
    /// Its value and its type, both as text.
    NoProblems { expr: String, expr_type: String },
}

/// Why a computed value has no text.
#[derive(Clone, Copy, Debug, PartialEq, Eq, Structural)]
pub enum ToAstProblem {
    /// The value is a function.
    FunctionLayout,
}

/// The index of the first line feed at or behind `i`, or the length of
/// the text if there is none.
pub open spec fn line_end(s: Seq<char>, i: int) -> int
    decreases s.len() - i,
{
    if 0 <= i < s.len() && s[i] != '\n' {
        line_end(s, i + 1)
    } else {
        i
    }
}

/// The index behind the line that starts at `i`, without its line ending:
/// a line feed, or a carriage return and a line feed.
pub open spec fn line_text_end(s: Seq<char>, i: int) -> int {
    let e = line_end(s, i);
    if e < s.len() && i < e && s[e - 1] == '\r' {
        e - 1
    } else {
        e
    }
}

/// The lines of `s` from `i` on, each indented by four spaces and ended by
/// a line feed. A line ending at the very end of `s` starts no further
/// line.
pub open spec fn indented_lines(s: Seq<char>, i: int) -> Seq<char>
    decreases s.len() - i,
{
    if 0 <= i < s.len() {
        let e = line_end(s, i);
        let line = seq![' ', ' ', ' ', ' '] + s.subrange(i, line_text_end(s, i)) + seq!['\n'];
        if i <= e < s.len() {
            line + indented_lines(s, e + 1)
        } else {
            line
        }
    } else {
        Seq::empty()
    }
}

/// A line ends at or behind its start, within the text, and holds no line
/// feed.
pub proof fn lemma_line_end(s: Seq<char>, i: int)
    requires
        0 <= i <= s.len(),
    ensures
        i <= line_text_end(s, i) <= line_end(s, i) <= s.len(),
        line_end(s, i) < s.len() ==> s[line_end(s, i)] == '\n',
        forall|k: int| i <= k < line_end(s, i) ==> s[k] != '\n',
    decreases s.len() - i,
{
    if i < s.len() && s[i] != '\n' {
        lemma_line_end(s, i + 1);
    }
}

/// The index of the first line feed at or behind `from`.
fn find_line_end(input: &[char], from: usize) -> (e: usize)
    requires
        from <= input@.len(),
    ensures
        e == line_end(input@, from as int),
        from <= e <= input@.len(),
{
    let mut k = from;
    while k < input.len() && input[k] != '\n'
        invariant
            from <= k <= input@.len(),
            line_end(input@, from as int) == line_end(input@, k as int),
        decreases input@.len() - k,
    {
        k = k + 1;
    }
    k
}

/// Appends the text of the input from `from` up to `to`.
fn push_range(out: &mut String, input: &[char], from: usize, to: usize)
    requires
        from <= to <= input@.len(),
    ensures
        final(out)@ == old(out)@ + input@.subrange(from as int, to as int),
{
    let ghost before = out@;
    let mut k = from;
    assert(out@ =~= before + input@.subrange(from as int, k as int));
    while k < to
        invariant
            from <= k <= to <= input@.len(),
            out@ == before + input@.subrange(from as int, k as int),
        decreases to - k,
    {
        push_char(out, input[k]);
        k = k + 1;
        assert(out@ =~= before + input@.subrange(from as int, k as int));
    }
}

/// Wraps an entered expression in a module: the header, then each line of
/// `src` indented by four spaces and ended by a line feed.
pub fn promote_expr_to_module(src: &str) -> (module: String)
    ensures
        module@ == MODULE_HEADER@ + indented_lines(src@, 0),
{
    let chars = chars_of(src);
    let input = chars.as_slice();
    let mut buffer = String::from_str(MODULE_HEADER);
    let mut i: usize = 0;
    let mut more = input.len() > 0;
    assert(buffer@ + indented_lines(input@, 0) =~= MODULE_HEADER@ + indented_lines(input@, 0));
    while more
        invariant
            i <= input@.len(),
            input@ == src@,
            more <==> i < input@.len(),
            MODULE_HEADER@ + indented_lines(input@, 0) == buffer@ + indented_lines(
                input@,
                i as int,
            ),
        decreases input@.len() - i + (if more { 1int } else { 0int }),
    {
        proof {
            lemma_line_end(input@, i as int);
        }
        let ghost before = buffer@;
        let e = find_line_end(input, i);
        let text_end = if e < input.len() && i < e && input[e - 1] == '\r' {
            e - 1
        } else {
            e
        };
        push_char(&mut buffer, ' ');
        push_char(&mut buffer, ' ');
        push_char(&mut buffer, ' ');
        push_char(&mut buffer, ' ');
        push_range(&mut buffer, input, i, text_end);
        push_char(&mut buffer, '\n');
        proof {
            let line = seq![' ', ' ', ' ', ' '] + input@.subrange(i as int, text_end as int)
                + seq!['\n'];
            assert(buffer@ =~= before + line);
            if e < input@.len() {
                assert(before + (line + indented_lines(input@, e + 1)) =~= buffer@
                    + indented_lines(input@, e + 1));
            } else {
                assert(buffer@ + indented_lines(input@, input@.len() as int) =~= before + line);
            }
        }
        if e < input.len() {
            i = e + 1;
            more = i < input.len();
        } else {
            i = e;
            more = false;
        }
    }
    assert(buffer@ + indented_lines(input@, i as int) =~= buffer@);
    buffer
}

/// The answer for a value that was computed: its text where it has one,
/// and the placeholder for a function where it has none.
pub fn format_answer(res_answer: Result<String, ToAstProblem>, expr_type_str: String) -> (r:
    ReplOutput)
    ensures
        r matches ReplOutput::NoProblems { expr, expr_type } && expr_type@ == expr_type_str@
            && expr@ == (match res_answer {
            Ok(answer) => answer@,
            Err(_) => FUNCTION_PLACEHOLDER@,
        }),
{
    let expr = match res_answer {
        Ok(answer) => answer,
        Err(ToAstProblem::FunctionLayout) => String::from_str(FUNCTION_PLACEHOLDER),
    };
    ReplOutput::NoProblems { expr, expr_type: expr_type_str }
}

/// Whether `text` starts with `prefix`.
pub fn starts_with(text: &str, prefix: &str) -> (found: bool)
    ensures
        found == prefix@.is_prefix_of(text@),
{
    let chars = chars_of(text);
    let wanted = chars_of(prefix);
    if wanted.len() > chars.len() {
        return false;
    }
    let mut k: usize = 0;
    while k < wanted.len()
        invariant
            k <= wanted@.len() <= chars@.len(),
            chars@ == text@,
            wanted@ == prefix@,
            forall|j: int| 0 <= j < k ==> chars@[j] == wanted@[j],
        decreases wanted@.len() - k,
    {
        if chars[k] != wanted[k] {
            assert(text@.subrange(0, prefix@.len() as int)[k as int] != prefix@[k as int]);
            return false;
        }
        k = k + 1;
    }
    assert(text@.subrange(0, prefix@.len() as int) =~= prefix@);
    true
}

/// Whether `name` names a built-in symbol, which is kept internal to the
/// compiled module.
pub fn is_builtin_symbol(name: &str) -> (builtin: bool)
    ensures
        builtin == BUILTIN_PREFIX@.is_prefix_of(name@),
{
    starts_with(name, BUILTIN_PREFIX)
}

/// The answer that reports `lines`, if there is anything to report.
pub fn report_problems(lines: Vec<String>) -> (r: Option<ReplOutput>)
    ensures
        lines@.len() == 0 ==> r is None,
        lines@.len() > 0 ==> r == Some(ReplOutput::Problems(lines)),
{
    if lines.len() == 0 {
        None
    } else {
        Some(ReplOutput::Problems(lines))
    }
}

/// The reports among `reports` that are there, in their order.
pub open spec fn present(reports: Seq<Option<String>>) -> Seq<String>
    decreases reports.len(),
{
    if reports.len() == 0 {
        Seq::empty()
    } else {
        match reports.last() {
            Some(report) => present(reports.drop_last()).push(report),
            None => present(reports.drop_last()),
        }
    }
}

/// The reports on one module in the order in which they are shown: those
/// of naming, then those of typing as far as a problem has a report, then
/// those of specialization.
pub fn gather_reports(can: Vec<String>, types: Vec<Option<String>>, mono: Vec<String>) -> (lines:
    Vec<String>)
    ensures
        lines@ == can@ + present(types@) + mono@,
{
    let ghost first = can@;
    let ghost all = types@;
    let mut lines = can;
    assert(all.take(0) =~= Seq::empty());
    assert(lines@ =~= first + present(all.take(0)));
    for report in it: types
        invariant
            it.seq() == all,
            lines@ == first + present(all.take(it.index() as int)),
    {
        let ghost before = lines@;
        proof {
            let longer = all.take(it.index() + 1);
            assert(longer.drop_last() =~= all.take(it.index() as int));
            assert(longer.last() == report);
        }
        match report {
            Some(text) => {
                lines.push(text);
                assert(lines@ =~= first + present(all.take(it.index() + 1)));
            },
            None => {},
        }
    }
    assert(all.take(all.len() as int) =~= all);
    let mut rest = mono;
    lines.append(&mut rest);
    lines
}

} // verus!
