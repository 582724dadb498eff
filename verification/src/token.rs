//! Tokens as the parser hands them to the core: a lexical category, the
//! lexeme text, an optional literal value, and a source line for error
//! reporting.

use vstd::prelude::*;

use crate::value::Object;

verus! {

/// The closed set of lexical categories.
#[derive(Clone, Copy, PartialEq, Eq, Structural, Debug)]
pub enum TokenType {
    LeftParen,
    RightParen,
    LeftBrace,
    RightBrace,
    Comma,
    Dot,
    Minus,
    Plus,
    Semicolon,
    Slash,
    Star,
    Bang,
    BangEqual,
    Equal,
    EqualEqual,
    Greater,
    GreaterEqual,
    Less,
    LessEqual,
    Identifier,
    LoxString,
    Number,
    And,
    Else,
    False,
    Fun,
    For,
    If,
    Nil,
    Or,
    Print,
    Return,
    True,
    Var,
    While,
    Eof,
}

/// One token of source text. Produced externally; immutable once built.
pub struct Token {
    pub token_type: TokenType,
    pub lexeme: String,
    pub literal: Object,
    pub line: usize,
}

impl Token {
    pub fn new(token_type: TokenType, lexeme: &str, literal: Object, line: usize) -> (t: Token)
        ensures
            t.token_type == token_type,
            t.lexeme@ == lexeme@,
            t.literal == literal,
            t.line == line,
    {
        Token { token_type, lexeme: lexeme.to_owned(), literal, line }
    }

    pub fn is_eof(&self) -> (r: bool)
        ensures
            r == (self.token_type == TokenType::Eof),
    {
        self.token_type == TokenType::Eof
    }

    /// A copy of the token, equal to the original.
    pub fn dup(&self) -> (t: Token)
        ensures
            t == *self,
    {
        Token {
            token_type: self.token_type,
            lexeme: self.lexeme.clone(),
            literal: self.literal.dup(),
            line: self.line,
        }
    }
}

} // verus!
