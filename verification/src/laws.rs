//! What holds of the grammar for every source: the laws that relate the
//! scanner's steps to each other and to the shape of the text.

use crate::encoding::{ascii_prefix, byte_offset, is_ascii_char, lemma_byte_offset};
use crate::grammar::{
    char_at, end_at, fault_at, lemma_run, lemma_run_ends_at, lemma_token_chars,
    lemma_token_spans, next_cursor, next_lexeme, punctuation, scan, shape_at, token_char,
    token_start, CharClass,
};
use crate::token::{Fault, Lexeme, Shape};
use vstd::prelude::*;

verus! {

/// The end marker at offset `at`.
pub open spec fn eof_at(at: int) -> Lexeme {
    Lexeme { shape: Shape::Eof, text: Seq::<char>::empty(), start: at as nat }
}

/// A step never moves the cursor back, nor past the end of the source. The
/// token it gives starts at or behind the old cursor and spans the source
/// from its start to the new cursor; only the end marker is empty.
pub proof fn step_moves_forward(s: Seq<char>, cursor: int)
    requires
        0 <= cursor <= s.len(),
    ensures
        cursor <= token_start(s, cursor) <= next_cursor(s, cursor) <= s.len(),
        match next_lexeme(s, cursor) {
            Ok(token) => {
                &&& token.start == token_start(s, cursor)
                &&& token.text == s.subrange(token.start as int, next_cursor(s, cursor))
                &&& token.start + token.text.len() == next_cursor(s, cursor)
                &&& (token.text.len() == 0) == (token.shape == Shape::Eof)
            },
            Err(error) => {
                &&& error.pos == token_start(s, cursor)
                &&& next_cursor(s, cursor) == token_start(s, cursor)
            },
        },
{
    lemma_run(s, cursor, CharClass::Space);
    lemma_token_spans(s, cursor);
}

/// A source that is one operator or delimiter scans to that token at
/// offset 0, followed by the end marker at offset 1.
pub proof fn single_punctuation_scans_to_itself(s: Seq<char>)
    requires
        s.len() == 1,
        punctuation(s[0]) is Some,
    ensures
        scan(s, 0) == Ok::<_, Fault>(
            seq![(Lexeme { shape: punctuation(s[0])->0, text: s, start: 0 }), eof_at(1)],
        ),
{
    assert(token_start(s, 0) == 0);
    assert(end_at(s, 0) == 1);
    assert(s.subrange(0, 1) =~= s);
    assert(token_start(s, 1) == 1);
    assert(s.subrange(1, 1) =~= Seq::<char>::empty());
    assert(scan(s, 1) == Ok::<_, Fault>(seq![eof_at(1)]));
    assert(seq![(Lexeme { shape: punctuation(s[0])->0, text: s, start: 0 })] + seq![eof_at(1)]
        =~= seq![(Lexeme { shape: punctuation(s[0])->0, text: s, start: 0 }), eof_at(1)]);
}

/// A source that is a string of digits, with nothing before or behind
/// them, scans to one `Int` whose text is the whole source, leading zeros
/// included, followed by the end marker at the length of the source.
pub proof fn digits_scan_to_one_int(s: Seq<char>)
    requires
        s.len() > 0,
        forall|i: int| 0 <= i < s.len() ==> CharClass::Digit.has(#[trigger] s[i]),
    ensures
        scan(s, 0) == Ok::<_, Fault>(
            seq![(Lexeme { shape: Shape::Int, text: s, start: 0 }), eof_at(s.len() as int)],
        ),
{
    let n = s.len() as int;
    let int_token = Lexeme { shape: Shape::Int, text: s, start: 0 };
    assert(token_start(s, 0) == 0);
    lemma_run_ends_at(s, 0, n, CharClass::Digit);
    assert(end_at(s, 0) == n);
    assert(s.subrange(0, n) =~= s);
    assert(next_lexeme(s, 0) == Ok::<_, Fault>(int_token));
    scan_at_the_end(s);
    assert(seq![int_token] + seq![eof_at(n)] =~= seq![int_token, eof_at(n)]);
}

/// A source of the form digits, `.`, digits scans to one `Float` whose text
/// is the whole source, followed by the end marker. The digits behind the
/// `.` may be none.
pub proof fn digits_dot_digits_scan_to_one_float(s: Seq<char>, dot: int)
    requires
        0 < dot < s.len(),
        s[dot] == '.',
        forall|i: int| 0 <= i < s.len() && i != dot ==> CharClass::Digit.has(#[trigger] s[i]),
    ensures
        scan(s, 0) == Ok::<_, Fault>(
            seq![(Lexeme { shape: Shape::Float, text: s, start: 0 }), eof_at(s.len() as int)],
        ),
{
    let n = s.len() as int;
    let float_token = Lexeme { shape: Shape::Float, text: s, start: 0 };
    assert(token_start(s, 0) == 0);
    assert(CharClass::Digit.has(s[0]));
    lemma_run_ends_at(s, 0, dot, CharClass::Digit);
    lemma_run_ends_at(s, dot + 1, n, CharClass::Digit);
    assert(end_at(s, 0) == n);
    assert(s.subrange(0, n) =~= s);
    assert(next_lexeme(s, 0) == Ok::<_, Fault>(float_token));
    scan_at_the_end(s);
    assert(seq![float_token] + seq![eof_at(n)] =~= seq![float_token, eof_at(n)]);
}

/// At the end of the source a scan gives the end marker alone.
pub proof fn scan_at_the_end(s: Seq<char>)
    ensures
        scan(s, s.len() as int) == Ok::<_, Fault>(seq![eof_at(s.len() as int)]),
{
    let n = s.len() as int;
    assert(token_start(s, n) == n);
    assert(s.subrange(n, n) =~= Seq::<char>::empty());
}

/// Spaces under the cursor are skipped: a step, and a whole scan, from
/// before a run of spaces gives what it gives from behind them. So spaces
/// before the first token and between two tokens make no token of their
/// own and change none.
pub proof fn spaces_are_skipped(s: Seq<char>, cursor: int, to: int)
    requires
        0 <= cursor <= to <= s.len(),
        forall|i: int| cursor <= i < to ==> #[trigger] s[i] == ' ',
    ensures
        token_start(s, cursor) == token_start(s, to),
        next_lexeme(s, cursor) == next_lexeme(s, to),
        next_cursor(s, cursor) == next_cursor(s, to),
        scan(s, cursor) == scan(s, to),
    decreases to - cursor,
{
    if cursor < to {
        spaces_are_skipped(s, cursor + 1, to);
    }
}

/// Spaces up to the end of the source are skipped too: where nothing but
/// spaces is left, a scan gives the end marker alone, at the length of the
/// source.
pub proof fn trailing_spaces_scan_to_eof(s: Seq<char>, cursor: int)
    requires
        0 <= cursor <= s.len(),
        forall|i: int| cursor <= i < s.len() ==> #[trigger] s[i] == ' ',
    ensures
        scan(s, cursor) == Ok::<_, Fault>(seq![eof_at(s.len() as int)]),
{
    spaces_are_skipped(s, cursor, s.len() as int);
    scan_at_the_end(s);
}

/// Whether `s` holds nothing but spaces from `from` up to `to`.
pub open spec fn only_spaces(s: Seq<char>, from: int, to: int) -> bool {
    &&& from <= to
    &&& forall|i: int| from <= i < to ==> #[trigger] s[i] == ' '
}

/// Whether `tokens` lie in `s` from `cursor` on, in their order: each with
/// the text that the source holds from its start to its end, and with
/// nothing but spaces before the first and between one and the next; the
/// last of them is the end marker, and no other is.
pub open spec fn laid_out(s: Seq<char>, cursor: int, tokens: Seq<Lexeme>) -> bool {
    &&& tokens.len() > 0
    &&& only_spaces(s, cursor, tokens[0].start as int)
    &&& forall|k: int|
        0 <= k < tokens.len() ==> (#[trigger] tokens[k]).end() <= s.len() && tokens[k].text
            == s.subrange(tokens[k].start as int, tokens[k].end())
    &&& forall|k: int| 0 <= k < tokens.len() - 1 ==> #[trigger] followed(s, tokens, k)
    &&& tokens.last().shape == Shape::Eof
}

/// Whether the token at index `k` is followed by the next one in `s`: it
/// is not the end marker, and nothing but spaces lies between its end and
/// the start of the next.
pub open spec fn followed(s: Seq<char>, tokens: Seq<Lexeme>, k: int) -> bool {
    &&& tokens[k].shape != Shape::Eof
    &&& only_spaces(s, tokens[k].end(), tokens[k + 1].start as int)
}

/// The tokens that a scan gives lie in the source, in their order, with
/// nothing but spaces before and between them, and end with the only end
/// marker among them.
pub proof fn scan_covers_the_source(s: Seq<char>, cursor: int)
    requires
        0 <= cursor <= s.len(),
    ensures
        scan(s, cursor) matches Ok(tokens) ==> laid_out(s, cursor, tokens),
    decreases s.len() - cursor,
{
    if scan(s, cursor) is Ok {
        let first = next_lexeme(s, cursor)->Ok_0;
        step_moves_forward(s, cursor);
        lemma_run(s, cursor, CharClass::Space);
        assert(only_spaces(s, cursor, first.start as int)) by {
            assert forall|i: int| cursor <= i < first.start implies #[trigger] s[i] == ' ' by {
                assert(CharClass::Space.has(s[i]));
            }
        }
        if first.shape != Shape::Eof {
            let rest = scan(s, next_cursor(s, cursor))->Ok_0;
            scan_covers_the_source(s, next_cursor(s, cursor));
            lemma_laid_out_behind(s, cursor, first, rest);
        }
    }
}

/// A token that lies in the source behind `cursor`, put before tokens that
/// lie in the source from its end on, gives tokens that lie in the source
/// from `cursor` on.
proof fn lemma_laid_out_behind(s: Seq<char>, cursor: int, first: Lexeme, rest: Seq<Lexeme>)
    requires
        only_spaces(s, cursor, first.start as int),
        first.end() <= s.len(),
        first.text == s.subrange(first.start as int, first.end()),
        first.shape != Shape::Eof,
        laid_out(s, first.end(), rest),
    ensures
        laid_out(s, cursor, seq![first] + rest),
{
    let tokens = seq![first] + rest;
    assert(tokens[0] == first);
    assert forall|k: int| 0 <= k < tokens.len() implies (#[trigger] tokens[k]).end() <= s.len()
        && tokens[k].text == s.subrange(tokens[k].start as int, tokens[k].end()) by {
        if k > 0 {
            assert(tokens[k] == rest[k - 1]);
        }
    }
    assert forall|k: int| 0 <= k < tokens.len() - 1 implies #[trigger] followed(s, tokens, k) by {
        assert(tokens[k + 1] == rest[k]);
        if k > 0 {
            assert(tokens[k] == rest[k - 1]);
            assert(followed(s, rest, k - 1));
        }
    }
    assert(tokens.last() == rest.last());
}

/// No token that a step gives holds a space.
pub proof fn token_holds_no_space(s: Seq<char>, cursor: int)
    requires
        0 <= cursor <= s.len(),
    ensures
        next_lexeme(s, cursor) matches Ok(token) ==> !token.text.contains(' '),
{
    let start = token_start(s, cursor);
    lemma_run(s, cursor, CharClass::Space);
    if next_lexeme(s, cursor) is Ok {
        let text = next_lexeme(s, cursor)->Ok_0.text;
        lemma_token_spans(s, cursor);
        if text.contains(' ') {
            let i = choose|i: int| 0 <= i < text.len() && text[i] == ' ';
            lemma_token_chars(s, start);
            assert(token_char(s[start + i]));
        }
    }
}

/// No token that a scan gives holds a space.
pub proof fn scan_holds_no_space(s: Seq<char>, cursor: int)
    requires
        0 <= cursor <= s.len(),
    ensures
        scan(s, cursor) matches Ok(tokens) ==> forall|k: int|
            0 <= k < tokens.len() ==> !(#[trigger] tokens[k]).text.contains(' '),
    decreases s.len() - cursor,
{
    if scan(s, cursor) is Ok {
        let first = next_lexeme(s, cursor)->Ok_0;
        token_holds_no_space(s, cursor);
        if first.shape != Shape::Eof {
            lemma_token_spans(s, cursor);
            scan_holds_no_space(s, next_cursor(s, cursor));
        }
    }
}

/// Once a step has given the end marker, every later step gives the same
/// end marker and leaves the cursor where it is.
pub proof fn eof_is_final(s: Seq<char>, cursor: int)
    requires
        0 <= cursor <= s.len(),
        next_lexeme(s, cursor) matches Ok(token) && token.shape == Shape::Eof,
    ensures
        next_lexeme(s, next_cursor(s, cursor)) == next_lexeme(s, cursor),
        next_cursor(s, next_cursor(s, cursor)) == next_cursor(s, cursor),
{
    let start = token_start(s, cursor);
    lemma_run(s, cursor, CharClass::Space);
    assert(char_at(s, start) == '\0');
    assert(token_start(s, start) == start);
}

/// A character that starts no token makes the step at it fail, and the
/// scan with it, with an error that holds this character and its offset.
/// No token is given for it.
pub proof fn unknown_character_fails(s: Seq<char>, cursor: int)
    requires
        0 <= cursor <= s.len(),
        shape_at(s, token_start(s, cursor)) is None,
    ensures
        next_lexeme(s, cursor) == Err::<Lexeme, _>(fault_at(s, token_start(s, cursor))),
        scan(s, cursor) == Err::<Seq<Lexeme>, _>(fault_at(s, token_start(s, cursor))),
        fault_at(s, token_start(s, cursor)).ch == s[token_start(s, cursor)],
{
    lemma_run(s, cursor, CharClass::Space);
}

/// A step moves over ASCII characters only: where all the characters
/// before the cursor are ASCII, so are all those before the new cursor.
pub proof fn step_keeps_ascii_prefix(s: Seq<char>, cursor: int)
    requires
        ascii_prefix(s, cursor),
    ensures
        ascii_prefix(s, token_start(s, cursor)),
        ascii_prefix(s, next_cursor(s, cursor)),
{
    let start = token_start(s, cursor);
    lemma_run(s, cursor, CharClass::Space);
    lemma_token_spans(s, cursor);
    lemma_token_chars(s, start);
    assert forall|i: int| 0 <= i < next_cursor(s, cursor) implies is_ascii_char(
        #[trigger] s[i],
    ) by {
        if cursor <= i < start {
            assert(CharClass::Space.has(s[i]));
        } else if start <= i {
            assert(token_char(s[i]));
        }
    }
}

/// The offsets that a scan reports count bytes as well as characters:
/// where the scan starts behind ASCII characters only, as one from the
/// start of the source does, the source holds as many bytes as characters
/// before each token, and before the character of an error.
pub proof fn offsets_count_bytes(s: Seq<char>, cursor: int)
    requires
        ascii_prefix(s, cursor),
    ensures
        match scan(s, cursor) {
            Ok(tokens) => forall|k: int|
                0 <= k < tokens.len() ==> byte_offset(s, (#[trigger] tokens[k]).start as int)
                    == tokens[k].start,
            Err(fault) => byte_offset(s, fault.pos as int) == fault.pos,
        },
    decreases s.len() - cursor,
{
    let start = token_start(s, cursor);
    step_keeps_ascii_prefix(s, cursor);
    lemma_byte_offset(s, start);
    match next_lexeme(s, cursor) {
        Err(_) => {},
        Ok(first) => {
            if first.shape != Shape::Eof {
                lemma_token_spans(s, cursor);
                offsets_count_bytes(s, next_cursor(s, cursor));
            }
        },
    }
}

} // verus!
