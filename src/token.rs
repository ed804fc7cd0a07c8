//! Tokens: a kind and the literal text it was read from.
use vstd::prelude::*;

verus! {

/// The closed set of token kinds.
#[derive(Clone, Copy, Debug, PartialEq, Eq, Structural)]
pub enum Kind {
    Illegal,
    Eof,
    Ident,
    Int,
    Bool,
    Assign,
    Plus,
    Comma,
    Semicolon,
    Bang,
    Minus,
    Slash,
    Asterisk,
    ArrowLeft,
    ArrowRight,
    LeftParen,
    RightParen,
    LeftBrace,
    RightBrace,
    Function,
    Let,
    Return,
    If,
    Else,
    Equal,
    NotEqual,
}

/// One lexical unit.
#[derive(Clone, Debug, PartialEq, Eq)]
pub struct Token {
    pub kind: Kind,
    pub literal: String,
}

/// What a token is, as a mathematical value: its kind and its text.
pub type TokenV = (Kind, Seq<char>);

impl View for Token {
    type V = TokenV;

    open spec fn view(&self) -> TokenV {
        (self.kind, self.literal@)
    }
}

/// The views of a sequence of tokens.
pub open spec fn views(ts: Seq<Token>) -> Seq<TokenV> {
    ts.map_values(|t: Token| t@)
}

impl Token {
    pub fn new(kind: Kind, literal: &str) -> (r: Token)
        ensures
            r@ == (kind, literal@),
    {
        Token { kind, literal: String::from_str(literal) }
    }
}

} // verus!
