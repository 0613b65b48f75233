//! Tokens: a kind, the text it was read from, and the line it ends on.
use vstd::prelude::*;

verus! {

/// The kind of a token.
#[derive(Debug, Copy, Clone, Eq, PartialEq, Structural)]
pub enum TokenType {
    // Single-character tokens.
    TOKEN_LEFT_PAREN,
    TOKEN_RIGHT_PAREN,
    TOKEN_LEFT_BRACE,
    TOKEN_RIGHT_BRACE,
    TOKEN_COMMA,
    TOKEN_DOT,
    TOKEN_MINUS,
    TOKEN_PLUS,
    TOKEN_SEMICOLON,
    TOKEN_SLASH,
    TOKEN_STAR,
    // One or two character tokens.
    TOKEN_BANG,
    TOKEN_BANG_EQUAL,
    TOKEN_EQUAL,
    TOKEN_EQUAL_EQUAL,
    TOKEN_GREATER,
    TOKEN_GREATER_EQUAL,
    TOKEN_LESS,
    TOKEN_LESS_EQUAL,
    // Literals.
    TOKEN_IDENTIFIER,
    TOKEN_STRING,
    TOKEN_NUMBER,
    // Keywords.
    TOKEN_AND,
    TOKEN_CLASS,
    TOKEN_ELSE,
    TOKEN_FALSE,
    TOKEN_FUN,
    TOKEN_FOR,
    TOKEN_IF,
    TOKEN_NIL,
    TOKEN_OR,
    TOKEN_PRINT,
    TOKEN_RETURN,
    TOKEN_SUPER,
    TOKEN_THIS,
    TOKEN_TRUE,
    TOKEN_VAR,
    TOKEN_WHILE,
    TOKEN_ERROR,
    TOKEN_EOF,
}

/// What a token is: its kind, the characters of its text and its line.
pub struct TokenView {
    pub ty: TokenType,
    pub raw: Seq<char>,
    pub line: u64,
}

/// A token. `raw` is the slice of the source that the token was read from,
/// or, for an error token, the diagnostic. `line` counts from 1.
#[derive(Debug, Copy, Clone, Eq, PartialEq)]
pub struct Token<'a> {
    pub ty: TokenType,
    pub raw: &'a str,
    pub line: u64,
}

impl<'a> View for Token<'a> {
    type V = TokenView;

    open spec fn view(&self) -> TokenView {
        TokenView { ty: self.ty, raw: self.raw@, line: self.line }
    }
}

impl<'a> Token<'a> {
    pub fn new(ty: TokenType, raw: &'a str, line: u64) -> (r: Self)
        ensures
            r.ty == ty,
            r.raw == raw,
            r.line == line,
    {
        Token { ty, raw, line }
    }
}

} // verus!
