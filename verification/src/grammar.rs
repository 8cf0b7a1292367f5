//! The lexical grammar, as a model over sequences of characters.
//!
//! Offsets count characters. The scanner only ever moves over ASCII
//! characters, so up to its cursor an offset in characters is an offset in
//! bytes as well (see [`crate::encoding`]).

use crate::token::{Fault, Lexeme, Shape};
use vstd::prelude::*;

verus! {

/// The character that the scanner reads at offset `i`: the source's own, or
/// NUL at and past the end of the source.
pub open spec fn char_at(s: Seq<char>, i: int) -> char {
    if 0 <= i < s.len() {
        s[i]
    } else {
        '\0'
    }
}

/// The classes of characters of which the scanner consumes whole runs.
#[derive(Debug, Clone, Copy, PartialEq, Eq)]
pub enum CharClass {
    /// The space character, and no other white space.
    Space,
    /// The decimal digits.
    Digit,
    /// The ASCII letters of both cases.
    Letter,
}

impl CharClass {
    /// Whether `c` belongs to the class.
    pub open spec fn has(self, c: char) -> bool {
        match self {
            CharClass::Space => c == ' ',
            CharClass::Digit => '0' <= c <= '9',
            CharClass::Letter => ('a' <= c <= 'z') || ('A' <= c <= 'Z'),
        }
    }

    /// Whether `c` belongs to the class.
    pub fn contains(self, c: char) -> (b: bool)
        ensures
            b == self.has(c),
    {
        match self {
            CharClass::Space => c == ' ',
            CharClass::Digit => '0' <= c && c <= '9',
            CharClass::Letter => ('a' <= c && c <= 'z') || ('A' <= c && c <= 'Z'),
        }
    }
}

/// The end of the maximal run of characters of `class` that starts at
/// `from`; `from` itself where the run is empty.
pub open spec fn run_end(s: Seq<char>, from: int, class: CharClass) -> int
    decreases s.len() - from,
{
    if 0 <= from < s.len() && class.has(s[from]) {
        run_end(s, from + 1, class)
    } else {
        from
    }
}

/// The shape of the one-character token that `c` is, if it is one.
pub open spec fn punctuation(c: char) -> Option<Shape> {
    if c == '+' {
        Some(Shape::Plus)
    } else if c == '-' {
        Some(Shape::Minus)
    } else if c == '*' {
        Some(Shape::Mul)
    } else if c == '/' {
        Some(Shape::Div)
    } else if c == '%' {
        Some(Shape::Mod)
    } else if c == '^' {
        Some(Shape::Pow)
    } else if c == ',' {
        Some(Shape::Comma)
    } else if c == '(' {
        Some(Shape::LParen)
    } else if c == ')' {
        Some(Shape::RParen)
    } else {
        None
    }
}

/// Where the fractional part that may follow the integral digits ends: past
/// a `.` at `at` and the digits behind it, or at `at` where there is no `.`.
pub open spec fn fraction_end(s: Seq<char>, at: int) -> int {
    if char_at(s, at) == '.' {
        run_end(s, at + 1, CharClass::Digit)
    } else {
        at
    }
}

/// Where the exponent that may follow ends: past an `e` or `E` at `at`, one
/// sign if there is one, and the digits behind it; or at `at` where there
/// is no `e` or `E`.
pub open spec fn exponent_end(s: Seq<char>, at: int) -> int {
    if char_at(s, at) == 'e' || char_at(s, at) == 'E' {
        if char_at(s, at + 1) == '+' || char_at(s, at + 1) == '-' {
            run_end(s, at + 2, CharClass::Digit)
        } else {
            run_end(s, at + 1, CharClass::Digit)
        }
    } else {
        at
    }
}

/// Where the numeric literal that starts at `start` ends.
pub open spec fn number_end(s: Seq<char>, start: int) -> int {
    exponent_end(s, fraction_end(s, run_end(s, start, CharClass::Digit)))
}

/// Whether the numeric literal that starts at `start` has a fractional part
/// or an exponent.
pub open spec fn number_is_float(s: Seq<char>, start: int) -> bool {
    let c = char_at(s, run_end(s, start, CharClass::Digit));
    c == '.' || c == 'e' || c == 'E'
}

/// The shape of the token that starts at `start`, or `None` where the
/// character there starts no token.
pub open spec fn shape_at(s: Seq<char>, start: int) -> Option<Shape> {
    let c = char_at(s, start);
    if CharClass::Digit.has(c) {
        if number_is_float(s, start) {
            Some(Shape::Float)
        } else {
            Some(Shape::Int)
        }
    } else if CharClass::Letter.has(c) {
        Some(Shape::Name)
    } else if c == '\0' {
        Some(Shape::Eof)
    } else {
        punctuation(c)
    }
}

/// Where the token that starts at `start` ends. The end marker, and a
/// character that starts no token, end where they start.
pub open spec fn end_at(s: Seq<char>, start: int) -> int {
    let c = char_at(s, start);
    if CharClass::Digit.has(c) {
        number_end(s, start)
    } else if CharClass::Letter.has(c) {
        run_end(s, start, CharClass::Letter)
    } else if punctuation(c) is Some {
        start + 1
    } else {
        start
    }
}

/// The token that starts at `start`, where one does.
pub open spec fn lexeme_at(s: Seq<char>, start: int) -> Lexeme
    recommends
        shape_at(s, start) is Some,
{
    Lexeme {
        shape: shape_at(s, start)->0,
        text: s.subrange(start, end_at(s, start)),
        start: start as nat,
    }
}

/// Where the next token starts for a scanner whose cursor is at `cursor`:
/// behind the spaces there.
pub open spec fn token_start(s: Seq<char>, cursor: int) -> int {
    run_end(s, cursor, CharClass::Space)
}

/// The error that the scanner reports where the character at `start`
/// starts no token.
pub open spec fn fault_at(s: Seq<char>, start: int) -> Fault {
    Fault { ch: char_at(s, start), pos: start as nat }
}

/// What one step of a scanner whose cursor is at `cursor` gives: the token
/// behind the spaces there, or the error for the character found there.
pub open spec fn next_lexeme(s: Seq<char>, cursor: int) -> Result<Lexeme, Fault> {
    let start = token_start(s, cursor);
    if shape_at(s, start) is Some {
        Ok(lexeme_at(s, start))
    } else {
        Err(fault_at(s, start))
    }
}

/// Where that step leaves the cursor: at the end of the token; at its
/// start where this is the end marker; at the offending character where
/// the step fails.
pub open spec fn next_cursor(s: Seq<char>, cursor: int) -> int {
    end_at(s, token_start(s, cursor))
}

/// What scanning `s` from `cursor` to the end marker gives: the tokens in
/// the order of the source, the end marker last, or the first lexical
/// error.
pub open spec fn scan(s: Seq<char>, cursor: int) -> Result<Seq<Lexeme>, Fault>
    decreases s.len() - cursor,
{
    match next_lexeme(s, cursor) {
        Err(e) => Err(e),
        Ok(first) => if first.shape == Shape::Eof {
            Ok(seq![first])
        } else {
            proof {
                lemma_token_spans(s, cursor);
            }
            match scan(s, next_cursor(s, cursor)) {
                Ok(rest) => Ok(seq![first] + rest),
                Err(e) => Err(e),
            }
        },
    }
}

/// A run stays inside the source, holds only characters of its class, and
/// ends before a character that is not of the class.
pub proof fn lemma_run(s: Seq<char>, from: int, class: CharClass)
    requires
        0 <= from <= s.len(),
    ensures
        from <= run_end(s, from, class) <= s.len(),
        forall|i: int| from <= i < run_end(s, from, class) ==> class.has(#[trigger] s[i]),
        !class.has(char_at(s, run_end(s, from, class))),
    decreases s.len() - from,
{
    if from < s.len() && class.has(s[from]) {
        lemma_run(s, from + 1, class);
    }
}

/// A run is determined by what `lemma_run` says of it: where the
/// characters from `from` up to `to` are of the class and the one at `to`
/// is not, the run from `from` ends at `to`.
pub proof fn lemma_run_ends_at(s: Seq<char>, from: int, to: int, class: CharClass)
    requires
        0 <= from <= to <= s.len(),
        forall|i: int| from <= i < to ==> class.has(#[trigger] s[i]),
        !class.has(char_at(s, to)),
    ensures
        run_end(s, from, class) == to,
    decreases to - from,
{
    if from < to {
        lemma_run_ends_at(s, from + 1, to, class);
    }
}

/// Whether `c` can stand inside a token: a digit, a letter, the `.` of a
/// fraction, or an operator or delimiter (the sign of an exponent is one).
pub open spec fn token_char(c: char) -> bool {
    CharClass::Digit.has(c) || CharClass::Letter.has(c) || c == '.' || punctuation(c) is Some
}

/// Every character from the start of a token up to its end can stand
/// inside a token.
pub proof fn lemma_token_chars(s: Seq<char>, start: int)
    requires
        0 <= start <= s.len(),
    ensures
        forall|i: int| start <= i < end_at(s, start) ==> token_char(#[trigger] s[i]),
{
    if start < s.len() {
        let c = s[start];
        if CharClass::Digit.has(c) {
            let a = run_end(s, start, CharClass::Digit);
            let b = fraction_end(s, a);
            lemma_number_spans(s, start);
            lemma_run(s, start, CharClass::Digit);
            if char_at(s, a) == '.' {
                lemma_run(s, a + 1, CharClass::Digit);
            }
            if char_at(s, b) == 'e' || char_at(s, b) == 'E' {
                if char_at(s, b + 1) == '+' || char_at(s, b + 1) == '-' {
                    lemma_run(s, b + 2, CharClass::Digit);
                } else {
                    lemma_run(s, b + 1, CharClass::Digit);
                }
            }
        } else if CharClass::Letter.has(c) {
            lemma_run(s, start, CharClass::Letter);
        }
    }
}

/// A token other than the end marker starts at or behind the cursor, ends
/// behind its start, and ends inside the source.
pub proof fn lemma_token_spans(s: Seq<char>, cursor: int)
    ensures
        ({
            let start = token_start(s, cursor);
            shape_at(s, start) is Some && shape_at(s, start) != Some(Shape::Eof) ==> 0 <= cursor
                <= start < end_at(s, start) <= s.len()
        }),
{
    let start = token_start(s, cursor);
    if shape_at(s, start) is Some && shape_at(s, start) != Some(Shape::Eof) {
        if 0 <= cursor <= s.len() {
            lemma_run(s, cursor, CharClass::Space);
        }
        assert(0 <= start < s.len());
        let c = s[start];
        if CharClass::Digit.has(c) {
            lemma_number_spans(s, start);
        } else if CharClass::Letter.has(c) {
            lemma_run(s, start + 1, CharClass::Letter);
        }
    }
}

/// A numeric literal ends behind its first digit and inside the source.
pub proof fn lemma_number_spans(s: Seq<char>, start: int)
    requires
        0 <= start < s.len(),
        CharClass::Digit.has(s[start]),
    ensures
        start < run_end(s, start, CharClass::Digit) <= fraction_end(
            s,
            run_end(s, start, CharClass::Digit),
        ) <= number_end(s, start) <= s.len(),
{
    let a = run_end(s, start, CharClass::Digit);
    lemma_run(s, start + 1, CharClass::Digit);
    let b = fraction_end(s, a);
    if char_at(s, a) == '.' {
        lemma_run(s, a + 1, CharClass::Digit);
    }
    if char_at(s, b) == 'e' || char_at(s, b) == 'E' {
        if char_at(s, b + 1) == '+' || char_at(s, b + 1) == '-' {
            lemma_run(s, b + 2, CharClass::Digit);
        } else {
            lemma_run(s, b + 1, CharClass::Digit);
        }
    }
}

} // verus!
