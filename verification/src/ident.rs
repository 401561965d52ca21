//! Identifiers and tag names.

use vstd::prelude::*;
use crate::chars::{
    at_keyword, collect, is_alnum, is_lower, is_upper, lemma_literal_is_subrange, lemma_run_end,
    lemma_run_end_is, lower, run_end, scan_run, upper, CharClass,
};
use crate::error::{agrees, ErrorKind, Keyword, Outcome, ParseError, Parsed};
use crate::parse_state::{State, MAX_INPUT_LEN};

verus! {

/// The reserved word that `name` spells, if it spells one.
pub open spec fn reserved_word(name: Seq<char>) -> Option<Keyword> {
    if name == Keyword::If.text() {
        Some(Keyword::If)
    } else if name == Keyword::Then.text() {
        Some(Keyword::Then)
    } else if name == Keyword::Else.text() {
        Some(Keyword::Else)
    } else if name == Keyword::Case.text() {
        Some(Keyword::Case)
    } else if name == Keyword::When.text() {
        Some(Keyword::When)
    } else {
        None
    }
}

/// A lowercase letter, then letters and digits, and no reserved word.
pub open spec fn valid_ident(name: Seq<char>) -> bool {
    &&& name.len() > 0
    &&& is_lower(name[0])
    &&& forall|k: int| 0 <= k < name.len() ==> is_alnum(#[trigger] name[k])
    &&& reserved_word(name) is None
}

/// An uppercase letter, then letters and digits.
pub open spec fn valid_variant_name(name: Seq<char>) -> bool {
    &&& name.len() > 0
    &&& is_upper(name[0])
    &&& forall|k: int| 0 <= k < name.len() ==> is_alnum(#[trigger] name[k])
}

/// An identifier at `i`: the longest run of letters and digits there.
///
/// No such character at `i`: `Skip`. A run that starts with anything but a
/// lowercase letter, or that spells a reserved word, fails behind the run.
pub open spec fn ident_spec(s: Seq<char>, i: int) -> Outcome<Seq<char>> {
    let e = run_end(s, i, CharClass::Alnum);
    if 0 <= i < e <= s.len() {
        let name = s.subrange(i, e);
        if !is_lower(s[i]) {
            Outcome::Fail(e, ErrorKind::InvalidIdentStart)
        } else {
            match reserved_word(name) {
                Some(word) => Outcome::Fail(e, ErrorKind::ReservedKeyword(word)),
                None => Outcome::Done(name, e),
            }
        }
    } else {
        Outcome::Skip
    }
}

/// A tag name at `i`: an uppercase letter and the letters and digits
/// behind it. Never fails.
pub open spec fn variant_name_spec(s: Seq<char>, i: int) -> Outcome<Seq<char>> {
    let e = run_end(s, i, CharClass::Alnum);
    if 0 <= i < e <= s.len() && is_upper(s[i]) {
        Outcome::Done(s.subrange(i, e), e)
    } else {
        Outcome::Skip
    }
}

/// What [`ident_spec`] accepts is a valid identifier, taken from the input
/// where it stands.
pub proof fn lemma_ident_valid(s: Seq<char>, i: int)
    requires
        0 <= i <= s.len(),
    ensures
        match ident_spec(s, i) {
            Outcome::Done(name, e) => valid_ident(name) && i < e <= s.len() && name == s.subrange(
                i,
                e,
            ),
            Outcome::Skip => true,
            Outcome::Fail(at, _) => i < at <= s.len(),
        },
{
    lemma_run_end(s, i, CharClass::Alnum);
    let e = run_end(s, i, CharClass::Alnum);
    if i < e {
        let name = s.subrange(i, e);
        assert forall|k: int| 0 <= k < name.len() implies is_alnum(#[trigger] name[k]) by {
            assert(name[k] == s[i + k]);
        }
    }
}

/// What [`variant_name_spec`] accepts is a valid tag name.
pub proof fn lemma_variant_name_valid(s: Seq<char>, i: int)
    requires
        0 <= i <= s.len(),
    ensures
        match variant_name_spec(s, i) {
            Outcome::Done(name, e) => valid_variant_name(name) && i < e <= s.len() && name
                == s.subrange(i, e),
            Outcome::Skip => true,
            Outcome::Fail(_, _) => false,
        },
{
    lemma_run_end(s, i, CharClass::Alnum);
    let e = run_end(s, i, CharClass::Alnum);
    if i < e {
        let name = s.subrange(i, e);
        assert forall|k: int| 0 <= k < name.len() implies is_alnum(#[trigger] name[k]) by {
            assert(name[k] == s[i + k]);
        }
    }
}

/// Every valid identifier is accepted where it stands, provided that no
/// letter or digit follows it.
pub proof fn lemma_ident_accepts(s: Seq<char>, i: int, name: Seq<char>)
    requires
        valid_ident(name),
        0 <= i,
        i + name.len() <= s.len(),
        s.subrange(i, i + name.len()) == name,
        i + name.len() < s.len() ==> !is_alnum(s[i + name.len()]),
    ensures
        ident_spec(s, i) == Outcome::Done(name, i + name.len()),
{
    let e = i + name.len();
    assert forall|k: int| i <= k < e implies CharClass::Alnum.holds(#[trigger] s[k]) by {
        assert(s[k] == s.subrange(i, e)[k - i]);
    }
    lemma_run_end_is(s, i, e, CharClass::Alnum);
    assert(s[i] == s.subrange(i, e)[0]);
}

/// Whether the reserved word `word` is all that stands between `from` and
/// `to`.
fn spells(input: &[char], from: usize, to: usize, word: Keyword) -> (b: bool)
    requires
        from <= to <= input@.len(),
    ensures
        b == (input@.subrange(from as int, to as int) == word.text()),
{
    proof {
        lemma_literal_is_subrange(input@, from as int, to as int, word.text());
    }
    let len: usize = match word {
        Keyword::If => 2,
        _ => 4,
    };
    to - from == len && at_keyword(input, from, word)
}

/// The reserved word between `from` and `to`, if the text there spells one.
fn reserved(input: &[char], from: usize, to: usize) -> (word: Option<Keyword>)
    requires
        from <= to <= input@.len(),
    ensures
        word == reserved_word(input@.subrange(from as int, to as int)),
{
    if spells(input, from, to, Keyword::If) {
        Some(Keyword::If)
    } else if spells(input, from, to, Keyword::Then) {
        Some(Keyword::Then)
    } else if spells(input, from, to, Keyword::Else) {
        Some(Keyword::Else)
    } else if spells(input, from, to, Keyword::Case) {
        Some(Keyword::Case)
    } else if spells(input, from, to, Keyword::When) {
        Some(Keyword::When)
    } else {
        None
    }
}

/// Parses an identifier: a lowercase letter followed by letters and digits,
/// other than `if`, `then`, `else`, `case`, `when`.
pub fn ident(input: &[char], st: State) -> (r: Parsed<String>)
    requires
        input@.len() <= MAX_INPUT_LEN,
        st.wf(input@),
    ensures
        agrees(r, ident_spec(input@, st.index as int), input@),
        r matches Parsed::Done(_, end) ==> st.index < end.index,
{
    let end = scan_run(input, st, CharClass::Alnum);
    proof {
        lemma_run_end(input@, st.index as int, CharClass::Alnum);
    }
    if end.index == st.index {
        Parsed::Skip
    } else if !lower(input[st.index]) {
        Parsed::Fail(ParseError { position: end.position, kind: ErrorKind::InvalidIdentStart })
    } else {
        match reserved(input, st.index, end.index) {
            Some(word) => Parsed::Fail(
                ParseError { position: end.position, kind: ErrorKind::ReservedKeyword(word) },
            ),
            None => Parsed::Done(collect(input, st.index, end.index), end),
        }
    }
}

/// Parses a tag name: an uppercase letter followed by letters and digits.
pub fn variant_name(input: &[char], st: State) -> (r: Parsed<String>)
    requires
        input@.len() <= MAX_INPUT_LEN,
        st.wf(input@),
    ensures
        agrees(r, variant_name_spec(input@, st.index as int), input@),
        r matches Parsed::Done(_, end) ==> st.index < end.index,
        !(r is Fail),
{
    if st.index < input.len() && upper(input[st.index]) {
        let end = scan_run(input, st, CharClass::Alnum);
        proof {
            lemma_run_end(input@, st.index as int, CharClass::Alnum);
        }
        Parsed::Done(collect(input, st.index, end.index), end)
    } else {
        proof {
            lemma_run_end(input@, st.index as int, CharClass::Alnum);
        }
        Parsed::Skip
    }
}

} // verus!
