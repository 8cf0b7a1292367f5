//! The scanner.

use crate::encoding::{
    ascii_prefix, is_ascii_char, lemma_ascii_prefix, lemma_byte_at, lemma_prefix_decodes,
};
use crate::grammar::{
    char_at, lemma_number_spans, lemma_run, lemma_token_spans, next_cursor, next_lexeme, run_end,
    scan, CharClass,
};
use crate::laws::step_keeps_ascii_prefix;
use crate::token::{lexemes, Fault, LexError, Lexeme, Token};
use vstd::prelude::*;
use vstd::string::*;

verus! {

/// A scanner over the text of one expression.
///
/// It borrows the text and keeps a cursor, the offset of the next unread
/// character. The cursor only moves forward, and only over ASCII
/// characters, so it counts characters and bytes alike.
#[derive(Debug)]
pub struct Lexer<'a> {
    expr: &'a str,
    cursor: usize,
}

impl<'a> Lexer<'a> {
    #[verifier::type_invariant]
    spec fn inv(self) -> bool {
        ascii_prefix(self.expr@, self.cursor as int)
    }

    /// The characters of the text that is scanned.
    pub closed spec fn source(self) -> Seq<char> {
        self.expr@
    }

    /// The cursor.
    pub closed spec fn position(self) -> int {
        self.cursor as int
    }

    /// A scanner at the start of `expr`.
    pub fn new(expr: &'a str) -> (lexer: Self)
        ensures
            lexer.source() == expr@,
            lexer.position() == 0,
    {
        Lexer { expr, cursor: 0 }
    }

    /// The text that is scanned.
    pub fn expr(&self) -> (text: &'a str)
        ensures
            text@ == self.source(),
    {
        self.expr
    }

    /// The cursor: the offset of the next unread character.
    pub fn cursor(&self) -> (at: usize)
        ensures
            at == self.position(),
            ascii_prefix(self.source(), at as int),
    {
        proof {
            use_type_invariant(self);
        }
        self.cursor
    }

    /// Scans from the cursor to the end marker and returns the tokens in the
    /// order of the source, the end marker last; or the first lexical error,
    /// with no token.
    pub fn tokenise(&mut self) -> (r: Result<Vec<Token<'a>>, LexError>)
        ensures
            final(self).source() == old(self).source(),
            match r {
                Ok(tokens) => {
                    &&& scan(old(self).source(), old(self).position()) == Ok::<_, Fault>(
                        lexemes(tokens@),
                    )
                    &&& final(self).position() == tokens@.last().start()
                },
                Err(error) => {
                    &&& scan(old(self).source(), old(self).position()) == Err::<Seq<Lexeme>, _>(
                        error@,
                    )
                    &&& final(self).position() == error.pos
                },
            },
    {
        let ghost src = self.source();
        let ghost goal = scan(self.source(), self.position());
        let mut found_eof_token = false;
        let mut tokens: Vec<Token<'a>> = Vec::new();
        proof {
            use_type_invariant(&*self);
            assert(lexemes(tokens@) =~= Seq::<Lexeme>::empty());
        }

        while !found_eof_token
            invariant
                self.source() == src,
                src == old(self).source(),
                goal == scan(old(self).source(), old(self).position()),
                0 <= self.position() <= src.len(),
                found_eof_token ==> goal == Ok::<_, Fault>(lexemes(tokens@)) && tokens@.len() > 0
                    && self.position() == tokens@.last().start(),
                !found_eof_token ==> goal == prepend(lexemes(tokens@), scan(src, self.position())),
            decreases
                    if found_eof_token {
                        0
                    } else {
                        1 + src.len() - self.position()
                    },
        {
            let ghost at = self.position();
            let ghost before = tokens@;
            proof {
                lemma_token_spans(src, at);
            }
            let token = match self.next_token() {
                Ok(token) => token,
                Err(error) => {
                    return Err(error);
                },
            };
            if token.is_eof() {
                found_eof_token = true;
            }
            tokens.push(token);
            proof {
                use_type_invariant(&*self);
                assert(lexemes(tokens@) =~= lexemes(before).push(token@));
                match scan(src, self.position()) {
                    Ok(rest) => {
                        assert(lexemes(before) + (seq![token@] + rest) =~= lexemes(tokens@)
                            + rest);
                    },
                    Err(_) => {},
                }
                assert(lexemes(before) + seq![token@] =~= lexemes(tokens@));
            }
        }
        Ok(tokens)
    }

    /// Scans the next token: skips the spaces under the cursor, then reads
    /// the token that starts there and leaves the cursor behind it. Only
    /// ASCII characters are ever passed, so the offsets of tokens and errors
    /// are offsets in bytes as well as in characters.
    ///
    /// A digit starts a numeric literal: digits, then an optional `.` with
    /// the digits behind it, then an optional exponent (`e` or `E`, an
    /// optional sign, digits). With neither part it is an `INT`, else a
    /// `FLOAT`. A letter starts a `NAME`, a run of ASCII letters. At the end
    /// of the text, or at a NUL, the token is `EOF` and the cursor stays, so
    /// that every later call gives `EOF` again. Any other character is an
    /// error, and the cursor stays on it.
    pub fn next_token(&mut self) -> (r: Result<Token<'a>, LexError>)
        ensures
            final(self).source() == old(self).source(),
            final(self).position() == next_cursor(old(self).source(), old(self).position()),
            old(self).position() <= final(self).position() <= final(self).source().len(),
            ascii_prefix(final(self).source(), final(self).position()),
            match r {
                Ok(token) => next_lexeme(old(self).source(), old(self).position()) == Ok::<
                    _,
                    Fault,
                >(token@),
                Err(error) => next_lexeme(old(self).source(), old(self).position()) == Err::<
                    Lexeme,
                    _,
                >(error@),
            },
    {
        let ghost src = self.source();
        proof {
            use_type_invariant(&*self);
            lemma_run(src, self.position(), CharClass::Space);
            lemma_token_spans(src, self.position());
            step_keeps_ascii_prefix(src, self.position());
        }
        let mut ch = self.advance_while(CharClass::Space);
        let start = self.cursor;

        if CharClass::Digit.contains(ch) {
            proof {
                lemma_number_spans(src, start as int);
            }
            ch = self.advance_while(CharClass::Digit);
            let float = ch == '.' || ch == 'e' || ch == 'E';

            if ch == '.' {
                self.advance();
                ch = self.advance_while(CharClass::Digit);
            }
            if ch == 'e' || ch == 'E' {
                ch = self.advance();
                if ch == '+' || ch == '-' {
                    self.advance();
                }
                ch = self.advance_while(CharClass::Digit);
            }
            let text = self.text_from(start);
            return Ok(
                if float {
                    Token::FLOAT(text, start)
                } else {
                    Token::INT(text, start)
                },
            );
        }
        if CharClass::Letter.contains(ch) {
            proof {
                lemma_run(src, start as int, CharClass::Letter);
            }
            self.advance_while(CharClass::Letter);
            let text = self.text_from(start);
            return Ok(Token::NAME(text, start));
        }
        let token = match ch {
            '+' => Token::PLUS(start),
            '-' => Token::MINUS(start),
            '*' => Token::MUL(start),
            '/' => Token::DIV(start),
            '%' => Token::MOD(start),
            '^' => Token::POW(start),
            ',' => Token::COMMA(start),
            '(' => Token::LPAREN(start),
            ')' => Token::RPAREN(start),
            '\0' => {
                assert(src.subrange(start as int, start as int) =~= Seq::<char>::empty());
                return Ok(Token::EOF(start));
            },
            _ => {
                return Err(LexError { ch, pos: start });
            },
        };
        assert(src.subrange(start as int, start + 1) =~= seq![ch]);
        self.advance();
        Ok(token)
    }

    /// The character under the cursor, or NUL at the end of the text.
    fn curr_char(&self) -> (c: char)
        ensures
            c == char_at(self.source(), self.position()),
    {
        proof {
            use_type_invariant(self);
            lemma_byte_at(self.expr@, self.cursor as int);
        }
        let bytes = self.expr.as_bytes();
        if self.cursor >= bytes.len() {
            '\0'
        } else {
            let b = bytes[self.cursor];
            if b < 0x80 {
                b as char
            } else {
                self.expr.get_char(self.cursor)
            }
        }
    }

    /// Moves to the next character, unless the cursor is at the end of the
    /// text, and returns the character then under the cursor.
    fn advance(&mut self) -> (c: char)
        requires
            is_ascii_char(char_at(old(self).source(), old(self).position())),
        ensures
            final(self).source() == old(self).source(),
            final(self).position() == if old(self).position() < old(self).source().len() {
                old(self).position() + 1
            } else {
                old(self).position()
            },
            c == char_at(final(self).source(), final(self).position()),
    {
        proof {
            use_type_invariant(&*self);
            lemma_byte_at(self.expr@, self.cursor as int);
        }
        if self.cursor >= self.expr.as_bytes().len() {
            return '\0';
        }
        self.cursor += 1;
        self.curr_char()
    }

    /// Moves over the maximal run of characters of `class` under the
    /// cursor, and returns the character behind the run.
    fn advance_while(&mut self, class: CharClass) -> (c: char)
        ensures
            final(self).source() == old(self).source(),
            final(self).position() == run_end(old(self).source(), old(self).position(), class),
            c == char_at(final(self).source(), final(self).position()),
    {
        let ghost src = self.source();
        let ghost end = run_end(self.source(), self.position(), class);
        proof {
            use_type_invariant(&*self);
        }
        let mut ch = self.curr_char();
        while class.contains(ch)
            invariant
                self.source() == src,
                0 <= self.position() <= src.len(),
                run_end(src, self.position(), class) == end,
                ch == char_at(src, self.position()),
            decreases src.len() - self.position(),
        {
            ch = self.advance();
        }
        ch
    }

    /// The text between `start` and the cursor.
    fn text_from(&self, start: usize) -> (text: &'a str)
        requires
            start <= self.position(),
        ensures
            text@ == self.source().subrange(start as int, self.position()),
    {
        proof {
            use_type_invariant(self);
            lemma_ascii_prefix(self.expr@, self.cursor as int);
        }
        let (head, _) = self.expr.split_at(self.cursor);
        proof {
            lemma_prefix_decodes(self.expr@, self.cursor as int, head@);
        }
        head.substring_ascii(start, self.cursor)
    }
}

/// `result` with the tokens of `head` put before its own.
spec fn prepend(head: Seq<Lexeme>, result: Result<Seq<Lexeme>, Fault>) -> Result<
    Seq<Lexeme>,
    Fault,
> {
    match result {
        Ok(rest) => Ok(head + rest),
        Err(error) => Err(error),
    }
}

/// The tokens of `expr` in the order of the source, the end marker last; or
/// the first lexical error.
pub fn tokenise<'a>(expr: &'a str) -> (r: Result<Vec<Token<'a>>, LexError>)
    ensures
        match r {
            Ok(tokens) => scan(expr@, 0) == Ok::<_, Fault>(lexemes(tokens@)),
            Err(error) => scan(expr@, 0) == Err::<Seq<Lexeme>, _>(error@),
        },
{
    let mut lexer = Lexer::new(expr);
    lexer.tokenise()
}

} // verus!
