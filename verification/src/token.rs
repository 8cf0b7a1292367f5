//! Tokens, their mathematical view, and the lexical error.

use vstd::prelude::*;

verus! {

/// What a token is, apart from its text and its place.
pub enum Shape {
    Int,
    Float,
    Name,
    Plus,
    Minus,
    Mul,
    Div,
    Mod,
    Pow,
    LParen,
    RParen,
    Comma,
    Eof,
}

/// The view of a token: its shape, the characters it spans in the source,
/// and the offset of the first of them.
///
/// An operator or delimiter spans its one character, the end marker spans
/// nothing.
pub struct Lexeme {
    pub shape: Shape,
    pub text: Seq<char>,
    pub start: nat,
}

impl Lexeme {
    /// The offset behind the last character of the token.
    pub open spec fn end(self) -> int {
        (self.start + self.text.len()) as int
    }
}

/// A token of the expression language. Every variant ends with the offset
/// at which the token starts; a literal or a name also borrows its text
/// from the source, unparsed and with its case kept.
#[derive(Debug, Clone, Copy, PartialEq, Eq)]
pub enum Token<'a> {
    INT(&'a str, usize),
    FLOAT(&'a str, usize),
    NAME(&'a str, usize),
    PLUS(usize),
    MINUS(usize),
    MUL(usize),
    DIV(usize),
    MOD(usize),
    POW(usize),
    LPAREN(usize),
    RPAREN(usize),
    COMMA(usize),
    EOF(usize),
}

impl<'a> Token<'a> {
    /// The token's kind.
    pub open spec fn shape(self) -> Shape {
        match self {
            Token::INT(_, _) => Shape::Int,
            Token::FLOAT(_, _) => Shape::Float,
            Token::NAME(_, _) => Shape::Name,
            Token::PLUS(_) => Shape::Plus,
            Token::MINUS(_) => Shape::Minus,
            Token::MUL(_) => Shape::Mul,
            Token::DIV(_) => Shape::Div,
            Token::MOD(_) => Shape::Mod,
            Token::POW(_) => Shape::Pow,
            Token::LPAREN(_) => Shape::LParen,
            Token::RPAREN(_) => Shape::RParen,
            Token::COMMA(_) => Shape::Comma,
            Token::EOF(_) => Shape::Eof,
        }
    }

    /// The characters of the source that the token spans.
    pub open spec fn text(self) -> Seq<char> {
        match self {
            Token::INT(t, _) => t@,
            Token::FLOAT(t, _) => t@,
            Token::NAME(t, _) => t@,
            Token::PLUS(_) => seq!['+'],
            Token::MINUS(_) => seq!['-'],
            Token::MUL(_) => seq!['*'],
            Token::DIV(_) => seq!['/'],
            Token::MOD(_) => seq!['%'],
            Token::POW(_) => seq!['^'],
            Token::LPAREN(_) => seq!['('],
            Token::RPAREN(_) => seq![')'],
            Token::COMMA(_) => seq![','],
            Token::EOF(_) => Seq::<char>::empty(),
        }
    }

    /// The offset in the source at which the token starts.
    pub open spec fn start(self) -> nat {
        match self {
            Token::INT(_, p) => p as nat,
            Token::FLOAT(_, p) => p as nat,
            Token::NAME(_, p) => p as nat,
            Token::PLUS(p) => p as nat,
            Token::MINUS(p) => p as nat,
            Token::MUL(p) => p as nat,
            Token::DIV(p) => p as nat,
            Token::MOD(p) => p as nat,
            Token::POW(p) => p as nat,
            Token::LPAREN(p) => p as nat,
            Token::RPAREN(p) => p as nat,
            Token::COMMA(p) => p as nat,
            Token::EOF(p) => p as nat,
        }
    }

    /// The offset at which the token starts.
    pub fn position(&self) -> (p: usize)
        ensures
            p == self.start(),
    {
        match *self {
            Token::INT(_, p) => p,
            Token::FLOAT(_, p) => p,
            Token::NAME(_, p) => p,
            Token::PLUS(p) => p,
            Token::MINUS(p) => p,
            Token::MUL(p) => p,
            Token::DIV(p) => p,
            Token::MOD(p) => p,
            Token::POW(p) => p,
            Token::LPAREN(p) => p,
            Token::RPAREN(p) => p,
            Token::COMMA(p) => p,
            Token::EOF(p) => p,
        }
    }

    /// Whether this is the end marker.
    pub fn is_eof(&self) -> (b: bool)
        ensures
            b == (self.shape() == Shape::Eof),
    {
        match *self {
            Token::EOF(_) => true,
            _ => false,
        }
    }
}

impl<'a> View for Token<'a> {
    type V = Lexeme;

    open spec fn view(&self) -> Lexeme {
        Lexeme { shape: self.shape(), text: self.text(), start: self.start() }
    }
}

/// The views of a sequence of tokens, in order.
pub open spec fn lexemes(tokens: Seq<Token<'_>>) -> Seq<Lexeme> {
    tokens.map_values(|t: Token<'_>| t@)
}

/// The lexical error: the character that starts no token, and its offset.
#[derive(Debug, Clone, Copy, PartialEq, Eq)]
pub struct LexError {
    pub ch: char,
    pub pos: usize,
}

/// The view of a lexical error.
pub struct Fault {
    pub ch: char,
    pub pos: nat,
}

impl View for LexError {
    type V = Fault;

    open spec fn view(&self) -> Fault {
        Fault { ch: self.ch, pos: self.pos as nat }
    }
}

} // verus!
