//! Number literals: integers, and decimals as exact fractions.

use vstd::prelude::*;
use crate::chars::{
    alnum, at_char, at_terminator, char_at, digit, is_alnum, is_digit, lemma_run_end, run_end,
    scan_run, terminator_at, CharClass,
};
use crate::error::{agrees, ErrorKind, Expectation, Outcome, ParseError, Parsed};
use crate::expr::{Expr, ExprView};
use crate::parse_state::{State, MAX_INPUT_LEN};

verus! {

/// The number that the decimal digits `digits` write.
pub open spec fn decimal_value(digits: Seq<char>) -> nat
    decreases digits.len(),
{
    if digits.len() == 0 {
        0
    } else {
        (decimal_value(digits.drop_last()) * 10 + (digits.last() as int - '0' as int)) as nat
    }
}

pub open spec fn all_digits(digits: Seq<char>) -> bool {
    forall|k: int| 0 <= k < digits.len() ==> is_digit(#[trigger] digits[k])
}

/// The value of `digits`, if they are digits and write no more than
/// `limit`.
pub open spec fn checked_value(digits: Seq<char>, limit: int) -> Option<int> {
    if all_digits(digits) && decimal_value(digits) <= limit {
        Some(decimal_value(digits) as int)
    } else {
        None
    }
}

/// Ten to the power `n`.
pub open spec fn pow10(n: nat) -> nat
    decreases n,
{
    if n == 0 {
        1
    } else {
        10 * pow10((n - 1) as nat)
    }
}

/// In the integer part of a number, the index of the letter or digit that
/// follows the one at `i`: the next character, or the one behind a single
/// space, unless `then`, `else` or `when` starts there.
pub open spec fn grouped_next(s: Seq<char>, i: int) -> Option<int> {
    if i + 1 < s.len() && is_alnum(s[i + 1]) {
        Some(i + 1)
    } else if char_at(s, i + 1, ' ') && i + 2 < s.len() && is_alnum(s[i + 2]) && !terminator_at(
        s,
        i + 2,
    ) {
        Some(i + 2)
    } else {
        None
    }
}

/// The index behind the integer part that starts at `i`.
pub open spec fn grouped_end(s: Seq<char>, i: int) -> int
    decreases s.len() - i,
{
    if 0 <= i < s.len() && is_alnum(s[i]) {
        match grouped_next(s, i) {
            Some(j) => grouped_end(s, j),
            None => i + 1,
        }
    } else {
        i
    }
}

/// The letters and digits of the integer part that starts at `i`, without
/// the spaces between them.
pub open spec fn grouped_digits(s: Seq<char>, i: int) -> Seq<char>
    decreases s.len() - i,
{
    if 0 <= i < s.len() && is_alnum(s[i]) {
        match grouped_next(s, i) {
            Some(j) => seq![s[i]] + grouped_digits(s, j),
            None => seq![s[i]],
        }
    } else {
        Seq::empty()
    }
}

/// A number literal at `i`.
///
/// It starts with a digit, or with `-` and a digit; anything else is
/// `Skip`. The integer part is read as letters and digits in groups, then,
/// behind a `.`, the fraction as letters and digits; a `.` with no letter
/// or digit behind it fails with [`Expectation::Digit`]. A character in
/// either part that is no digit fails with [`ErrorKind::MalformedNumber`].
///
/// Without a fraction the literal is the integer that its digits write,
/// negated behind `-`. With `n` digits in the fraction it is the fraction
/// `(integer * 10^n + fraction) / 10^n`, negated behind `-` and never
/// reduced. Digits whose integer or numerator exceeds `i64::MAX`, or whose
/// denominator `10^n` exceeds `u64::MAX`, fail with
/// [`ErrorKind::NumberOutOfRange`].
pub open spec fn number_literal_spec(s: Seq<char>, i: int) -> Outcome<ExprView> {
    let negative = char_at(s, i, '-');
    let first = if negative {
        i + 1
    } else {
        i
    };
    if 0 <= i && first < s.len() && is_digit(s[first]) {
        let int_end = grouped_end(s, first);
        let integer = grouped_digits(s, first);
        if !char_at(s, int_end, '.') {
            if !all_digits(integer) {
                Outcome::Fail(int_end, ErrorKind::MalformedNumber)
            } else if decimal_value(integer) > i64::MAX {
                Outcome::Fail(int_end, ErrorKind::NumberOutOfRange)
            } else {
                Outcome::Done(
                    ExprView::Int(signed(negative, decimal_value(integer) as int)),
                    int_end,
                )
            }
        } else {
            let end = run_end(s, int_end + 1, CharClass::Alnum);
            if end <= int_end + 1 {
                Outcome::Fail(int_end + 1, ErrorKind::Expected(Expectation::Digit))
            } else {
                let fraction = s.subrange(int_end + 1, end);
                if !all_digits(integer) || !all_digits(fraction) {
                    Outcome::Fail(end, ErrorKind::MalformedNumber)
                } else {
                    let denominator = pow10(fraction.len()) as int;
                    let numerator = decimal_value(integer) * denominator + decimal_value(
                        fraction,
                    );
                    if denominator > u64::MAX || numerator > i64::MAX {
                        Outcome::Fail(end, ErrorKind::NumberOutOfRange)
                    } else {
                        Outcome::Done(
                            ExprView::Frac(signed(negative, numerator), denominator),
                            end,
                        )
                    }
                }
            }
        }
    } else {
        Outcome::Skip
    }
}

pub open spec fn signed(negative: bool, magnitude: int) -> int {
    if negative {
        -magnitude
    } else {
        magnitude
    }
}

/// Appending a digit multiplies by ten and adds the digit.
pub proof fn lemma_decimal_value_push(digits: Seq<char>, c: char)
    ensures
        decimal_value(digits.push(c)) == decimal_value(digits) * 10 + (c as int - '0' as int)
            || !is_digit(c),
        all_digits(digits.push(c)) <==> all_digits(digits) && is_digit(c),
{
    let longer = digits.push(c);
    assert(longer.drop_last() =~= digits);
    assert(longer.last() == c);
    if all_digits(longer) {
        assert(is_digit(longer[digits.len() as int]));
        assert forall|k: int| 0 <= k < digits.len() implies is_digit(#[trigger] digits[k]) by {
            assert(longer[k] == digits[k]);
        }
    }
    if all_digits(digits) && is_digit(c) {
        assert forall|k: int| 0 <= k < longer.len() implies is_digit(#[trigger] longer[k]) by {
            if k < digits.len() {
                assert(longer[k] == digits[k]);
            }
        }
    }
}

/// Powers of ten grow.
pub proof fn lemma_pow10_grows(a: nat, b: nat)
    requires
        a <= b,
    ensures
        1 <= pow10(a) <= pow10(b),
    decreases b,
{
    if b == 0 {
    } else if a == b {
        lemma_pow10_grows((a - 1) as nat, (b - 1) as nat);
    } else {
        lemma_pow10_grows(a, (b - 1) as nat);
    }
}

/// The integer part ends behind its start, within the input, and holds at
/// least one character.
pub proof fn lemma_grouped(s: Seq<char>, i: int)
    requires
        0 <= i < s.len(),
        is_alnum(s[i]),
    ensures
        i < grouped_end(s, i) <= s.len(),
        grouped_digits(s, i).len() > 0,
    decreases s.len() - i,
{
    match grouped_next(s, i) {
        Some(j) => {
            lemma_grouped(s, j);
        },
        None => {},
    }
}

/// What has been read of a run of digits: whether all of it was digits,
/// and their value as long as it is no more than `i64::MAX`.
#[derive(Clone, Copy)]
struct Reading {
    digits_only: bool,
    value: Option<u64>,
}

impl Reading {
    /// The reading is that of the characters `seen`.
    spec fn of(self, seen: Seq<char>) -> bool {
        &&& self.digits_only == all_digits(seen)
        &&& match self.value {
            Some(v) => checked_value(seen, i64::MAX as int) == Some(v as int),
            None => checked_value(seen, i64::MAX as int) is None,
        }
    }

    /// The reading of no character.
    fn start() -> (r: Reading)
        ensures
            r.of(Seq::empty()),
    {
        Reading { digits_only: true, value: Some(0) }
    }

    /// The reading with `c` read next.
    fn push(self, c: char, Ghost(seen): Ghost<Seq<char>>) -> (r: Reading)
        requires
            self.of(seen),
        ensures
            r.of(seen.push(c)),
    {
        proof {
            lemma_decimal_value_push(seen, c);
        }
        if !digit(c) {
            return Reading { digits_only: false, value: None };
        }
        let d: u64 = (c as u32 - '0' as u32) as u64;
        let value = match self.value {
            Some(v) => {
                if v <= (0x7fff_ffff_ffff_ffff - d) / 10 {
                    Some(v * 10 + d)
                } else {
                    None
                }
            },
            None => None,
        };
        Reading { digits_only: self.digits_only, value }
    }
}

/// The state behind the integer part at `st`, and the reading of its
/// letters and digits.
fn scan_grouped(input: &[char], st: State) -> (r: (State, Reading))
    requires
        input@.len() <= MAX_INPUT_LEN,
        st.wf(input@),
        st.index < input@.len(),
        is_alnum(input@[st.index as int]),
    ensures
        r.0.index == grouped_end(input@, st.index as int),
        r.0.wf(input@),
        st.index < r.0.index,
        r.1.of(grouped_digits(input@, st.index as int)),
{
    let mut cur = st;
    let mut reading = Reading::start();
    let ghost mut seen: Seq<char> = Seq::empty();
    assert(seen + grouped_digits(input@, st.index as int) =~= grouped_digits(
        input@,
        st.index as int,
    ));
    loop
        invariant
            input@.len() <= MAX_INPUT_LEN,
            cur.wf(input@),
            st.index <= cur.index < input@.len(),
            is_alnum(input@[cur.index as int]),
            grouped_end(input@, st.index as int) == grouped_end(input@, cur.index as int),
            grouped_digits(input@, st.index as int) == seen + grouped_digits(
                input@,
                cur.index as int,
            ),
            reading.of(seen),
        decreases input@.len() - cur.index,
    {
        let c = input[cur.index];
        let ghost before = seen;
        reading = reading.push(c, Ghost(seen));
        proof {
            seen = seen.push(c);
        }
        let next = cur.advance(input);
        if next.index < input.len() && alnum(input[next.index]) {
            assert(grouped_next(input@, cur.index as int) == Some(next.index as int));
            assert(before + (seq![c] + grouped_digits(input@, next.index as int)) =~= seen
                + grouped_digits(input@, next.index as int));
            cur = next;
        } else if at_char(input, next.index, ' ') && next.index + 1 < input.len() && alnum(
            input[next.index + 1],
        ) && !at_terminator(input, next.index + 1) {
            assert(grouped_next(input@, cur.index as int) == Some(next.index + 1));
            assert(before + (seq![c] + grouped_digits(input@, next.index + 1)) =~= seen
                + grouped_digits(input@, next.index + 1));
            cur = next.advance(input);
        } else {
            assert(grouped_next(input@, cur.index as int) is None);
            assert(before + seq![c] =~= seen);
            return (next, reading);
        }
    }
}

/// Ten to the power `n`, if it is no more than `u64::MAX`.
fn power_of_ten(n: usize) -> (r: Option<u64>)
    ensures
        match r {
            Some(p) => p == pow10(n as nat),
            None => pow10(n as nat) > u64::MAX,
        },
{
    let mut p: u64 = 1;
    let mut k: usize = 0;
    while k < n
        invariant
            k <= n,
            p == pow10(k as nat),
        decreases n - k,
    {
        if p > 0xffff_ffff_ffff_ffff / 10 {
            proof {
                lemma_pow10_grows((k + 1) as nat, n as nat);
            }
            return None;
        }
        p = p * 10;
        k = k + 1;
    }
    Some(p)
}

/// The reading of the text between `from` and `to`.
fn read_fraction(input: &[char], from: usize, to: usize) -> (r: Reading)
    requires
        from <= to <= input@.len(),
    ensures
        r.of(input@.subrange(from as int, to as int)),
{
    let mut reading = Reading::start();
    let mut k = from;
    assert(input@.subrange(from as int, from as int) =~= Seq::empty());
    while k < to
        invariant
            from <= k <= to <= input@.len(),
            reading.of(input@.subrange(from as int, k as int)),
        decreases to - k,
    {
        reading = reading.push(input[k], Ghost(input@.subrange(from as int, k as int)));
        assert(input@.subrange(from as int, k as int).push(input@[k as int]) =~= input@.subrange(
            from as int,
            k + 1,
        ));
        k = k + 1;
    }
    reading
}

/// `magnitude`, negated if `negative`.
fn with_sign(negative: bool, magnitude: u64) -> (n: i64)
    requires
        magnitude <= i64::MAX,
    ensures
        n == signed(negative, magnitude as int),
{
    if negative {
        0 - (magnitude as i64)
    } else {
        magnitude as i64
    }
}

/// Parses a number literal: `Int` without a decimal point, `Frac` with
/// one.
pub fn number_literal(input: &[char], st: State) -> (r: Parsed<Expr>)
    requires
        input@.len() <= MAX_INPUT_LEN,
        st.wf(input@),
    ensures
        agrees(r, number_literal_spec(input@, st.index as int), input@),
        r matches Parsed::Done(_, end) ==> st.index < end.index,
{
    let negative = at_char(input, st.index, '-');
    let first = if negative {
        st.advance(input)
    } else {
        st
    };
    if !(first.index < input.len() && digit(input[first.index])) {
        return Parsed::Skip;
    }
    let (int_end, integer) = scan_grouped(input, first);
    if !at_char(input, int_end.index, '.') {
        if !integer.digits_only {
            return Parsed::Fail(
                ParseError { position: int_end.position, kind: ErrorKind::MalformedNumber },
            );
        }
        return match integer.value {
            Some(v) => Parsed::Done(Expr::Int(with_sign(negative, v)), int_end),
            None => Parsed::Fail(
                ParseError { position: int_end.position, kind: ErrorKind::NumberOutOfRange },
            ),
        };
    }
    let dot = int_end.advance(input);
    let end = scan_run(input, dot, CharClass::Alnum);
    proof {
        lemma_run_end(input@, dot.index as int, CharClass::Alnum);
    }
    if end.index <= dot.index {
        return Parsed::Fail(
            ParseError { position: dot.position, kind: ErrorKind::Expected(Expectation::Digit) },
        );
    }
    let fraction = read_fraction(input, dot.index, end.index);
    if !integer.digits_only || !fraction.digits_only {
        return Parsed::Fail(ParseError { position: end.position, kind: ErrorKind::MalformedNumber });
    }
    let out_of_range = Parsed::Fail(
        ParseError { position: end.position, kind: ErrorKind::NumberOutOfRange },
    );
    let ghost int_value = decimal_value(grouped_digits(input@, first.index as int)) as int;
    let ghost frac_digits = input@.subrange(dot.index as int, end.index as int);
    let ghost frac_value = decimal_value(frac_digits) as int;
    let ghost ten_n = pow10(frac_digits.len()) as int;
    proof {
        lemma_pow10_grows(0, frac_digits.len());
        assert(int_value * ten_n >= int_value) by (nonlinear_arith)
            requires
                int_value >= 0,
                ten_n >= 1,
        ;
    }
    let v = match integer.value {
        Some(v) => v,
        None => {
            return out_of_range;
        },
    };
    let f = match fraction.value {
        Some(f) => f,
        None => {
            return out_of_range;
        },
    };
    let denominator = match power_of_ten(end.index - dot.index) {
        Some(d) => d,
        None => {
            return out_of_range;
        },
    };
    let numerator = match v.checked_mul(denominator) {
        Some(product) => match product.checked_add(f) {
            Some(n) => n,
            None => {
                return out_of_range;
            },
        },
        None => {
            return out_of_range;
        },
    };
    if numerator > 0x7fff_ffff_ffff_ffff {
        return out_of_range;
    }
    Parsed::Done(Expr::Frac(with_sign(negative, numerator), denominator), end)
}

} // verus!
