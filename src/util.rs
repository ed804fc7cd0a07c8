//! Syntax errors and the aggregator that collects them across one parse.
use vstd::prelude::*;

use crate::token::Kind;

verus! {

/// Why one construct could not be parsed.
#[derive(Clone, Copy, Debug, PartialEq, Eq, Structural)]
pub enum ParseError {
    /// A token of kind `expected` was required where one of kind `actual` stands.
    UnexpectedToken { expected: Kind, actual: Kind },
    /// No expression can start with a token of this kind.
    NoPrefixRule { kind: Kind },
    /// No operator rule exists for a token of this kind.
    NoInfixRule { kind: Kind },
    /// An integer literal that is not a 64-bit signed integer.
    InvalidInteger,
    /// The input ended while a construct was still open.
    UnexpectedEnd,
}

/// The kind of statement that an error was found in.
#[derive(Clone, Copy, Debug, PartialEq, Eq, Structural)]
pub enum Context {
    Let,
    Return,
    Expression,
}

/// A failed statement: its kind and the error that stopped it.
#[derive(Clone, Copy, Debug, PartialEq, Eq, Structural)]
pub struct SyntaxError {
    pub context: Context,
    pub error: ParseError,
}

/// The name of a token kind, as messages show it.
pub open spec fn kind_text(k: Kind) -> Seq<char> {
    match k {
        Kind::Illegal => "Illegal"@,
        Kind::Eof => "Eof"@,
        Kind::Ident => "Ident"@,
        Kind::Int => "Int"@,
        Kind::Bool => "Bool"@,
        Kind::Assign => "Assign"@,
        Kind::Plus => "Plus"@,
        Kind::Comma => "Comma"@,
        Kind::Semicolon => "Semicolon"@,
        Kind::Bang => "Bang"@,
        Kind::Minus => "Minus"@,
        Kind::Slash => "Slash"@,
        Kind::Asterisk => "Asterisk"@,
        Kind::ArrowLeft => "ArrowLeft"@,
        Kind::ArrowRight => "ArrowRight"@,
        Kind::LeftParen => "LeftParen"@,
        Kind::RightParen => "RightParen"@,
        Kind::LeftBrace => "LeftBrace"@,
        Kind::RightBrace => "RightBrace"@,
        Kind::Function => "Function"@,
        Kind::Let => "Let"@,
        Kind::Return => "Return"@,
        Kind::If => "If"@,
        Kind::Else => "Else"@,
        Kind::Equal => "Equal"@,
        Kind::NotEqual => "NotEqual"@,
    }
}

fn kind_name(k: Kind) -> (r: &'static str)
    ensures
        r@ == kind_text(k),
{
    match k {
        Kind::Illegal => "Illegal",
        Kind::Eof => "Eof",
        Kind::Ident => "Ident",
        Kind::Int => "Int",
        Kind::Bool => "Bool",
        Kind::Assign => "Assign",
        Kind::Plus => "Plus",
        Kind::Comma => "Comma",
        Kind::Semicolon => "Semicolon",
        Kind::Bang => "Bang",
        Kind::Minus => "Minus",
        Kind::Slash => "Slash",
        Kind::Asterisk => "Asterisk",
        Kind::ArrowLeft => "ArrowLeft",
        Kind::ArrowRight => "ArrowRight",
        Kind::LeftParen => "LeftParen",
        Kind::RightParen => "RightParen",
        Kind::LeftBrace => "LeftBrace",
        Kind::RightBrace => "RightBrace",
        Kind::Function => "Function",
        Kind::Let => "Let",
        Kind::Return => "Return",
        Kind::If => "If",
        Kind::Else => "Else",
        Kind::Equal => "Equal",
        Kind::NotEqual => "NotEqual",
    }
}

/// The text that names the kind of statement.
pub open spec fn context_text(c: Context) -> Seq<char> {
    match c {
        Context::Let => "'let' statement"@,
        Context::Return => "'return' statement"@,
        Context::Expression => "expression statement"@,
    }
}

/// What went wrong, in words.
pub open spec fn error_text(e: ParseError) -> Seq<char> {
    match e {
        ParseError::UnexpectedToken { expected, actual } => "expected "@ + kind_text(expected)
            + ", got "@ + kind_text(actual),
        ParseError::NoPrefixRule { kind } => "no prefix parse rule for token "@ + kind_text(kind),
        ParseError::NoInfixRule { kind } => "no infix parse rule for token "@ + kind_text(kind),
        ParseError::InvalidInteger => "integer literal is not a 64-bit signed integer"@,
        ParseError::UnexpectedEnd => "unexpected end of input"@,
    }
}

/// The message of a failed statement: its kind, then what went wrong.
pub open spec fn message_text(e: SyntaxError) -> Seq<char> {
    context_text(e.context) + ": "@ + error_text(e.error)
}

/// The messages of `errors`, one line each.
pub open spec fn report_text(errors: Seq<SyntaxError>) -> Seq<char>
    decreases errors.len(),
{
    if errors.len() == 0 {
        seq![]
    } else {
        report_text(errors.drop_last()) + "  -> "@ + message_text(errors.last()) + "\n"@
    }
}

impl SyntaxError {
    /// The message of this error: the kind of statement, then what went wrong.
    pub fn message(&self) -> (r: String)
        ensures
            r@ == message_text(*self),
    {
        let mut out = String::new();
        match self.context {
            Context::Let => out.append("'let' statement"),
            Context::Return => out.append("'return' statement"),
            Context::Expression => out.append("expression statement"),
        }
        out.append(": ");
        match self.error {
            ParseError::UnexpectedToken { expected, actual } => {
                out.append("expected ");
                out.append(kind_name(expected));
                out.append(", got ");
                out.append(kind_name(actual));
            },
            ParseError::NoPrefixRule { kind } => {
                out.append("no prefix parse rule for token ");
                out.append(kind_name(kind));
            },
            ParseError::NoInfixRule { kind } => {
                out.append("no infix parse rule for token ");
                out.append(kind_name(kind));
            },
            ParseError::InvalidInteger => out.append("integer literal is not a 64-bit signed integer"),
            ParseError::UnexpectedEnd => out.append("unexpected end of input"),
        }
        assert(out@ =~= message_text(*self));
        out
    }
}

/// The errors of one parse, in the order they were found.
#[derive(Debug)]
pub struct MultiError(Vec<SyntaxError>);

impl View for MultiError {
    type V = Seq<SyntaxError>;

    closed spec fn view(&self) -> Seq<SyntaxError> {
        self.0@
    }
}

impl MultiError {
    pub fn new() -> (r: MultiError)
        ensures
            r@ == Seq::<SyntaxError>::empty(),
    {
        MultiError(Vec::new())
    }

    pub fn push(&mut self, err: SyntaxError)
        ensures
            final(self)@ == old(self)@.push(err),
    {
        self.0.push(err)
    }

    pub fn len(&self) -> (r: usize)
        ensures
            r == self@.len(),
    {
        self.0.len()
    }

    /// The error at `i`.
    pub fn get(&self, i: usize) -> (r: SyntaxError)
        requires
            i < self@.len(),
        ensures
            r == self@[i as int],
    {
        self.0[i]
    }

    pub fn from_vec(errors: Vec<SyntaxError>) -> (r: MultiError)
        ensures
            r@ == errors@,
    {
        MultiError(errors)
    }

    /// Every error's message, one line each, in order.
    pub fn report(&self) -> (r: String)
        ensures
            r@ == report_text(self@),
    {
        let mut out = String::new();
        let mut k: usize = 0;
        while k < self.0.len()
            invariant
                k <= self@.len(),
                out@ == report_text(self@.subrange(0, k as int)),
            decreases self@.len() - k,
        {
            let ghost sub = self@.subrange(0, k + 1);
            out.append("  -> ");
            let m = self.0[k].message();
            out.append(m.as_str());
            out.append("\n");
            assert(sub.drop_last() =~= self@.subrange(0, k as int));
            assert(out@ =~= report_text(sub));
            k = k + 1;
        }
        assert(self@.subrange(0, k as int) =~= self@);
        out
    }

    /// The errors, in order.
    pub fn into_vec(self) -> (r: Vec<SyntaxError>)
        ensures
            r@ == self@,
    {
        self.0
    }
}

} // verus!
