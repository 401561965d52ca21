//! Character classes, runs of one class, and literal text at an index.

use vstd::prelude::*;
use crate::error::Keyword;
use crate::parse_state::{State, MAX_INPUT_LEN};

verus! {

pub open spec fn is_digit(c: char) -> bool {
    '0' <= c && c <= '9'
}

pub open spec fn is_lower(c: char) -> bool {
    'a' <= c && c <= 'z'
}

pub open spec fn is_upper(c: char) -> bool {
    'A' <= c && c <= 'Z'
}

/// A letter of the Latin alphabet or a decimal digit.
pub open spec fn is_alnum(c: char) -> bool {
    is_digit(c) || is_lower(c) || is_upper(c)
}

pub open spec fn is_hex_digit(c: char) -> bool {
    is_digit(c) || ('a' <= c && c <= 'f') || ('A' <= c && c <= 'F')
}

pub fn digit(c: char) -> (b: bool)
    ensures
        b == is_digit(c),
{
    '0' <= c && c <= '9'
}

pub fn lower(c: char) -> (b: bool)
    ensures
        b == is_lower(c),
{
    'a' <= c && c <= 'z'
}

pub fn upper(c: char) -> (b: bool)
    ensures
        b == is_upper(c),
{
    'A' <= c && c <= 'Z'
}

pub fn alnum(c: char) -> (b: bool)
    ensures
        b == is_alnum(c),
{
    digit(c) || lower(c) || upper(c)
}

pub fn hex_digit(c: char) -> (b: bool)
    ensures
        b == is_hex_digit(c),
{
    digit(c) || ('a' <= c && c <= 'f') || ('A' <= c && c <= 'F')
}

/// The classes of which the grammar reads whole runs.
#[derive(Clone, Copy, Debug, PartialEq, Eq, Structural)]
pub enum CharClass {
    /// The space character.
    Space,
    /// A space or a line feed.
    Blank,
    /// A letter or a digit.
    Alnum,
}

impl CharClass {
    pub open spec fn holds(self, c: char) -> bool {
        match self {
            CharClass::Space => c == ' ',
            CharClass::Blank => c == ' ' || c == '\n',
            CharClass::Alnum => is_alnum(c),
        }
    }

    pub fn has(&self, c: char) -> (b: bool)
        ensures
            b == self.holds(c),
    {
        match self {
            CharClass::Space => c == ' ',
            CharClass::Blank => c == ' ' || c == '\n',
            CharClass::Alnum => alnum(c),
        }
    }
}

/// The index behind the longest run of `class` that starts at `i`.
pub open spec fn run_end(s: Seq<char>, i: int, class: CharClass) -> int
    decreases s.len() - i,
{
    if 0 <= i < s.len() && class.holds(s[i]) {
        run_end(s, i + 1, class)
    } else {
        i
    }
}

/// A run ends within the input, holds the class throughout, and stops at
/// the first character outside it.
pub proof fn lemma_run_end(s: Seq<char>, i: int, class: CharClass)
    requires
        0 <= i <= s.len(),
    ensures
        i <= run_end(s, i, class) <= s.len(),
        forall|k: int| i <= k < run_end(s, i, class) ==> class.holds(#[trigger] s[k]),
        run_end(s, i, class) < s.len() ==> !class.holds(s[run_end(s, i, class)]),
    decreases s.len() - i,
{
    if i < s.len() && class.holds(s[i]) {
        lemma_run_end(s, i + 1, class);
    }
}

/// The run from `i` ends at `e` when the class holds from `i` to `e` and
/// stops there.
pub proof fn lemma_run_end_is(s: Seq<char>, i: int, e: int, class: CharClass)
    requires
        0 <= i <= e <= s.len(),
        forall|k: int| i <= k < e ==> class.holds(#[trigger] s[k]),
        e < s.len() ==> !class.holds(s[e]),
    ensures
        run_end(s, i, class) == e,
    decreases e - i,
{
    if i < e {
        lemma_run_end_is(s, i + 1, e, class);
    }
}

/// `lit` starts at `i` and ends at `e` exactly when `s[i..e]` is `lit`.
pub proof fn lemma_literal_is_subrange(s: Seq<char>, i: int, e: int, lit: Seq<char>)
    requires
        0 <= i <= e <= s.len(),
    ensures
        (s.subrange(i, e) == lit) <==> (e - i == lit.len() && literal_at(s, i, lit)),
{
    if s.subrange(i, e) == lit {
        assert forall|k: int| 0 <= k < lit.len() implies s[i + k] == #[trigger] lit[k] by {
            assert(s.subrange(i, e)[k] == s[i + k]);
        }
    }
    if e - i == lit.len() && literal_at(s, i, lit) {
        assert(s.subrange(i, e) =~= lit);
    }
}

/// The input holds `c` at index `i`.
pub open spec fn char_at(s: Seq<char>, i: int, c: char) -> bool {
    0 <= i < s.len() && s[i] == c
}

/// The input holds the text `lit` from index `i` on.
pub open spec fn literal_at(s: Seq<char>, i: int, lit: Seq<char>) -> bool {
    &&& 0 <= i
    &&& i + lit.len() <= s.len()
    &&& forall|k: int| 0 <= k < lit.len() ==> s[i + k] == #[trigger] lit[k]
}

/// One of `then`, `else`, `when` starts at index `i`: the words that end a
/// list of arguments and a grouped number.
pub open spec fn terminator_at(s: Seq<char>, i: int) -> bool {
    ||| literal_at(s, i, Keyword::Then.text())
    ||| literal_at(s, i, Keyword::Else.text())
    ||| literal_at(s, i, Keyword::When.text())
}

/// `String::push` of std: the character is appended, and nothing else
/// changes.
#[verifier::external_body]
pub(crate) fn push_char(text: &mut String, c: char)
    ensures
        final(text)@ == old(text)@.push(c),
{
    text.push(c)
}

/// The text of the input from `from` up to `to`.
pub fn collect(input: &[char], from: usize, to: usize) -> (text: String)
    requires
        from <= to <= input@.len(),
    ensures
        text@ == input@.subrange(from as int, to as int),
{
    let mut text = String::new();
    let mut k = from;
    while k < to
        invariant
            from <= k <= to <= input@.len(),
            text@ == input@.subrange(from as int, k as int),
        decreases to - k,
    {
        push_char(&mut text, input[k]);
        k = k + 1;
        assert(text@ =~= input@.subrange(from as int, k as int));
    }
    text
}

/// The state behind the run of `class` that starts at `st`.
pub fn scan_run(input: &[char], st: State, class: CharClass) -> (end: State)
    requires
        input@.len() <= MAX_INPUT_LEN,
        st.wf(input@),
    ensures
        end.index == run_end(input@, st.index as int, class),
        st.index <= end.index,
        end.wf(input@),
{
    let mut cur = st;
    while cur.index < input.len() && class.has(input[cur.index])
        invariant
            input@.len() <= MAX_INPUT_LEN,
            st.index <= cur.index,
            cur.wf(input@),
            run_end(input@, st.index as int, class) == run_end(input@, cur.index as int, class),
        decreases input@.len() - cur.index,
    {
        cur = cur.advance(input);
    }
    cur
}

pub fn at_char(input: &[char], index: usize, c: char) -> (b: bool)
    ensures
        b == char_at(input@, index as int, c),
{
    index < input.len() && input[index] == c
}

/// Whether the two characters `a`, `b` stand at `index`.
pub fn at_pair(input: &[char], index: usize, a: char, b: char) -> (found: bool)
    ensures
        found == literal_at(input@, index as int, seq![a, b]),
{
    let found = index < input.len() && input.len() - index >= 2 && input[index] == a && input[index
        + 1] == b;
    proof {
        let lit = seq![a, b];
        if found {
            assert forall|k: int| 0 <= k < lit.len() implies input@[index + k] == #[trigger] lit[k] by {
                if k == 0 {
                } else {
                    assert(k == 1);
                }
            }
        } else if literal_at(input@, index as int, lit) {
            assert(input@[index + 0] == lit[0]);
            assert(input@[index + 1] == lit[1]);
        }
    }
    found
}

/// Whether the four characters `a`, `b`, `c`, `d` stand at `index`.
fn at_quad(input: &[char], index: usize, a: char, b: char, c: char, d: char) -> (found: bool)
    ensures
        found == literal_at(input@, index as int, seq![a, b, c, d]),
{
    let found = index < input.len() && input.len() - index >= 4 && input[index] == a && input[index
        + 1] == b && input[index + 2] == c && input[index + 3] == d;
    proof {
        let lit = seq![a, b, c, d];
        if found {
            assert forall|k: int| 0 <= k < lit.len() implies input@[index + k] == #[trigger] lit[k] by {
                if k == 0 {
                } else if k == 1 {
                } else if k == 2 {
                } else {
                    assert(k == 3);
                }
            }
        } else if literal_at(input@, index as int, lit) {
            assert(input@[index + 0] == lit[0]);
            assert(input@[index + 1] == lit[1]);
            assert(input@[index + 2] == lit[2]);
            assert(input@[index + 3] == lit[3]);
        }
    }
    found
}

/// Whether the reserved word `word` stands at `index`, whatever follows it.
pub fn at_keyword(input: &[char], index: usize, word: Keyword) -> (found: bool)
    ensures
        found == literal_at(input@, index as int, word.text()),
{
    match word {
        Keyword::If => at_pair(input, index, 'i', 'f'),
        Keyword::Then => at_quad(input, index, 't', 'h', 'e', 'n'),
        Keyword::Else => at_quad(input, index, 'e', 'l', 's', 'e'),
        Keyword::Case => at_quad(input, index, 'c', 'a', 's', 'e'),
        Keyword::When => at_quad(input, index, 'w', 'h', 'e', 'n'),
    }
}

/// Whether `then`, `else` or `when` stands at `index`.
pub fn at_terminator(input: &[char], index: usize) -> (found: bool)
    ensures
        found == terminator_at(input@, index as int),
{
    at_keyword(input, index, Keyword::Then) || at_keyword(input, index, Keyword::Else)
        || at_keyword(input, index, Keyword::When)
}

} // verus!
