//! Positions in the input: line, column and the indent column of the current
//! line, as a function of the text consumed so far.

use vstd::prelude::*;

verus! {

/// The longest input, in characters, for which every line and column (and
/// the column one past an indent) fits the position's `i32` fields.
pub const MAX_INPUT_LEN: usize = 2147483645;

/// Where the parser stands, counted from 1.
///
/// `indent_col` is the column of the first character other than a space on
/// the current line, and 1 as long as the line has shown none;
/// `is_indenting` says that it has shown none yet.
#[derive(Clone, Copy, Debug, PartialEq, Eq, Structural)]
pub struct IndentablePosition {
    pub line: i32,
    pub column: i32,
    pub indent_col: i32,
    pub is_indenting: bool,
}

impl IndentablePosition {
    /// The position in front of the first character.
    pub open spec fn origin() -> IndentablePosition {
        IndentablePosition { line: 1, column: 1, indent_col: 1, is_indenting: true }
    }

    /// The position behind `c`, when `self` is the position in front of it.
    pub open spec fn step(self, c: char) -> IndentablePosition {
        if c == '\n' {
            IndentablePosition {
                line: (self.line + 1) as i32,
                column: 1,
                indent_col: 1,
                is_indenting: true,
            }
        } else if c == ' ' {
            IndentablePosition { column: (self.column + 1) as i32, ..self }
        } else {
            IndentablePosition {
                line: self.line,
                column: (self.column + 1) as i32,
                indent_col: if self.is_indenting {
                    self.column
                } else {
                    self.indent_col
                },
                is_indenting: false,
            }
        }
    }

    /// Lines and columns start at 1, and the indent column lies on the line.
    pub open spec fn in_bounds(self, limit: int) -> bool {
        &&& 1 <= self.line <= limit
        &&& 1 <= self.indent_col <= self.column <= limit
    }

    pub fn new() -> (p: IndentablePosition)
        ensures
            p == IndentablePosition::origin(),
    {
        IndentablePosition { line: 1, column: 1, indent_col: 1, is_indenting: true }
    }

    /// Moves the position over `c`.
    pub fn update(&mut self, c: char)
        requires
            old(self).line < i32::MAX,
            old(self).column < i32::MAX,
        ensures
            *final(self) == old(self).step(c),
    {
        if c == '\n' {
            self.column = 1;
            self.line = self.line + 1;
            self.indent_col = 1;
            self.is_indenting = true;
        } else if c == ' ' {
            self.column = self.column + 1;
        } else {
            if self.is_indenting {
                self.indent_col = self.column;
                self.is_indenting = false;
            }
            self.column = self.column + 1;
        }
    }
}

impl Default for IndentablePosition {
    fn default() -> (p: IndentablePosition)
        ensures
            p == IndentablePosition::origin(),
    {
        IndentablePosition::new()
    }
}

/// The position in front of `s[i]`: the origin moved over `s[0]`, ..,
/// `s[i - 1]` in turn.
pub open spec fn position_at(s: Seq<char>, i: int) -> IndentablePosition
    decreases i,
{
    if i <= 0 || i > s.len() {
        IndentablePosition::origin()
    } else {
        position_at(s, i - 1).step(s[i - 1])
    }
}

/// The number of line feeds in front of index `i`.
pub open spec fn line_feeds_before(s: Seq<char>, i: int) -> int
    decreases i,
{
    if i <= 0 || i > s.len() {
        0
    } else if s[i - 1] == '\n' {
        line_feeds_before(s, i - 1) + 1
    } else {
        line_feeds_before(s, i - 1)
    }
}

/// The index at which the line of index `i` starts: behind the last line
/// feed in front of `i`.
pub open spec fn line_start(s: Seq<char>, i: int) -> int
    decreases i,
{
    if i <= 0 || i > s.len() {
        0
    } else if s[i - 1] == '\n' {
        i
    } else {
        line_start(s, i - 1)
    }
}

/// The index of the first character from `from` on and in front of `i`
/// that is no space, or `i` if there is none.
pub open spec fn first_non_space(s: Seq<char>, from: int, i: int) -> int
    decreases i - from,
{
    if 0 <= from < i && from < s.len() && s[from] == ' ' {
        first_non_space(s, from + 1, i)
    } else if from < i {
        from
    } else {
        i
    }
}

/// No position within an input runs past the number of characters in front
/// of it.
pub proof fn lemma_position_bounds(s: Seq<char>, i: int)
    requires
        0 <= i <= s.len() <= MAX_INPUT_LEN,
    ensures
        position_at(s, i).in_bounds(i + 1),
    decreases i,
{
    if i > 0 {
        lemma_position_bounds(s, i - 1);
    }
}

/// A place in the input: the index of the next character and the position
/// that belongs to it.
#[derive(Clone, Copy, Debug, PartialEq, Eq, Structural)]
pub struct State {
    pub index: usize,
    pub position: IndentablePosition,
}

impl State {
    /// The state lies within `s`, and its position is the one that `s` gives
    /// its index.
    pub open spec fn wf(self, s: Seq<char>) -> bool {
        &&& self.index <= s.len()
        &&& self.position == position_at(s, self.index as int)
    }

    /// The state in front of the first character.
    pub fn start() -> (st: State)
        ensures
            st.index == 0,
            st.position == IndentablePosition::origin(),
            forall|s: Seq<char>| st.wf(s),
    {
        State { index: 0, position: IndentablePosition::new() }
    }

    /// The indent column of the line on which the state stands.
    pub fn indent_col(&self) -> (column: i32)
        ensures
            column == self.position.indent_col,
    {
        self.position.indent_col
    }

    /// The state behind the next character.
    pub fn advance(self, input: &[char]) -> (next: State)
        requires
            input@.len() <= MAX_INPUT_LEN,
            self.wf(input@),
            self.index < input@.len(),
        ensures
            next.index == self.index + 1,
            next.wf(input@),
    {
        proof {
            lemma_position_bounds(input@, self.index as int);
        }
        let mut position = self.position;
        position.update(input[self.index]);
        State { index: self.index + 1, position }
    }

    /// The state `count` characters on.
    pub fn advance_by(self, input: &[char], count: usize) -> (next: State)
        requires
            input@.len() <= MAX_INPUT_LEN,
            self.wf(input@),
            self.index + count <= input@.len(),
        ensures
            next.index == self.index + count,
            next.wf(input@),
    {
        let mut st = self;
        let mut done: usize = 0;
        while done < count
            invariant
                input@.len() <= MAX_INPUT_LEN,
                done <= count,
                self.index + count <= input@.len(),
                st.index == self.index + done,
                st.wf(input@),
            decreases count - done,
        {
            st = st.advance(input);
            done = done + 1;
        }
        st
    }
}

} // verus!
