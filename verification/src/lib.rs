//! A lexical scanner for arithmetic expressions.
//!
//! The scanner turns the text of an expression into tokens: integer and
//! floating-point literals, names, operators, delimiters and an end marker,
//! each with the offset at which it starts. What it returns is stated against
//! the grammar of [`grammar`], a model over sequences of characters.

pub mod encoding;
pub mod grammar;
pub mod laws;
pub mod lexer;
pub mod token;
