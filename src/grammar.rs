//! The grammar as mathematical functions over a token sequence.
//!
//! Each rule reads the token sequence `t` with the cursor on position `i` (the
//! current token), and gives its result, the position of the cursor afterwards
//! (on the last token that the rule consumed), and the error log afterwards:
//! statements inside blocks that fail are recorded there and parsing goes on.
//! Positions only move forward; the conditions `moved(..)` below state that
//! where a rule goes on from a position that another rule returned, so that
//! termination is evident.
use vstd::prelude::*;

use crate::ast::{precedence_of, rank, Infix, NodeV, Precedence, Prefix};
use crate::token::{Kind, TokenV};
use crate::util::{Context, ParseError, SyntaxError};

verus! {

/// What a rule gives: its result, the cursor afterwards, and the error log afterwards.
pub type Outcome = (Result<NodeV, ParseError>, int, Seq<SyntaxError>);

/// The kind of the token at `i`; the end of input beyond the last token.
pub open spec fn kind_at(t: Seq<TokenV>, i: int) -> Kind {
    if 0 <= i < t.len() {
        t[i].0
    } else {
        Kind::Eof
    }
}

/// The text of the token at `i`.
pub open spec fn text_at(t: Seq<TokenV>, i: int) -> Seq<char> {
    if 0 <= i < t.len() {
        t[i].1
    } else {
        seq![]
    }
}

pub open spec fn at_end(t: Seq<TokenV>, i: int) -> bool {
    kind_at(t, i) == Kind::Eof
}

/// The position after `i`; the end of input stays where it is.
pub open spec fn next(t: Seq<TokenV>, i: int) -> int {
    if at_end(t, i) {
        i
    } else {
        i + 1
    }
}

/// `j` is a position at or after `i` within the input.
pub open spec fn moved(t: Seq<TokenV>, i: int, j: int) -> bool {
    i <= j <= t.len()
}

/// The error where a token of kind `k` is required at `i` and is not there.
pub open spec fn mismatch(t: Seq<TokenV>, i: int, k: Kind) -> ParseError {
    if at_end(t, i) {
        ParseError::UnexpectedEnd
    } else {
        ParseError::UnexpectedToken { expected: k, actual: kind_at(t, i) }
    }
}

/// The value of a string of decimal digits.
pub open spec fn digits_value(s: Seq<char>) -> int
    decreases s.len(),
{
    if s.len() == 0 {
        0
    } else {
        digits_value(s.drop_last()) * 10 + (s.last() as int - '0' as int)
    }
}

pub open spec fn all_digits(s: Seq<char>) -> bool {
    forall|k: int| 0 <= k < s.len() ==> '0' <= #[trigger] s[k] <= '9'
}

/// The 64-bit signed value of an integer literal, if it is one.
pub open spec fn int_value(s: Seq<char>) -> Option<i64> {
    if s.len() > 0 && all_digits(s) && digits_value(s) <= i64::MAX {
        Some(digits_value(s) as i64)
    } else {
        None
    }
}

/// The infix operator of a token kind, if it is one.
pub open spec fn infix_of(k: Kind) -> Option<Infix> {
    match k {
        Kind::Plus => Some(Infix::Add),
        Kind::Minus => Some(Infix::Subtract),
        Kind::Slash => Some(Infix::Divide),
        Kind::Asterisk => Some(Infix::Multiply),
        Kind::Equal => Some(Infix::Eq),
        Kind::NotEqual => Some(Infix::NotEq),
        Kind::ArrowLeft => Some(Infix::LessThan),
        Kind::ArrowRight => Some(Infix::GreaterThan),
        _ => None,
    }
}

/// The first position at or after `i` that holds `;` or the end of input.
pub open spec fn scan_to_semicolon(t: Seq<TokenV>, i: int) -> int
    decreases t.len() - i,
{
    if i < 0 || i >= t.len() || kind_at(t, i) == Kind::Semicolon || at_end(t, i) {
        i
    } else {
        scan_to_semicolon(t, i + 1)
    }
}

/// From `i`, inside `depth` braces opened since the failure: the first `;` or `}`
/// outside them, or the end of input.
pub open spec fn skip_to_boundary(t: Seq<TokenV>, i: int, depth: nat) -> int
    decreases t.len() - i,
{
    if i < 0 || i >= t.len() || at_end(t, i) {
        i
    } else if depth == 0 && (kind_at(t, i) == Kind::Semicolon || kind_at(t, i)
        == Kind::RightBrace) {
        i
    } else if kind_at(t, i) == Kind::LeftBrace {
        skip_to_boundary(t, i + 1, depth + 1)
    } else if kind_at(t, i) == Kind::RightBrace {
        skip_to_boundary(t, i + 1, (depth - 1) as nat)
    } else {
        skip_to_boundary(t, i + 1, depth)
    }
}

/// Where parsing resumes after a statement failed with the cursor at `i`: the
/// statement boundary (`;`, or the `}` of the enclosing block) that ends it. A
/// boundary under the cursor is that boundary itself.
pub open spec fn recover(t: Seq<TokenV>, i: int) -> int {
    if kind_at(t, i) == Kind::Semicolon || kind_at(t, i) == Kind::RightBrace || at_end(t, i) {
        i
    } else if kind_at(t, i) == Kind::LeftBrace {
        skip_to_boundary(t, i + 1, 1)
    } else {
        skip_to_boundary(t, i + 1, 0)
    }
}

/// The parameter list of a function literal, from the `(` or `,` at `i`.
pub open spec fn parameters_from(t: Seq<TokenV>, i: int, acc: Seq<NodeV>) -> (Result<
    Seq<NodeV>,
    ParseError,
>, int)
    decreases t.len() - i,
{
    if kind_at(t, i + 1) != Kind::Ident {
        (Err(mismatch(t, i + 1, Kind::Ident)), i)
    } else {
        let acc2 = acc.push(NodeV::Identifier(text_at(t, i + 1)));
        if kind_at(t, i + 2) == Kind::Comma {
            parameters_from(t, i + 2, acc2)
        } else if kind_at(t, i + 2) == Kind::RightParen {
            (Ok(acc2), i + 2)
        } else {
            (Err(mismatch(t, i + 2, Kind::RightParen)), i + 1)
        }
    }
}

/// The parameter list of a function literal, from its `(` at `i` to its `)`.
pub open spec fn parameters(t: Seq<TokenV>, i: int) -> (Result<Seq<NodeV>, ParseError>, int) {
    if kind_at(t, i + 1) == Kind::RightParen {
        (Ok(seq![]), i + 1)
    } else {
        parameters_from(t, i, seq![])
    }
}

/// A `let` statement, from `let` at `i`. Its initializer is skipped, up to `;`.
pub open spec fn let_statement(t: Seq<TokenV>, i: int) -> (Result<NodeV, ParseError>, int) {
    if kind_at(t, i + 1) != Kind::Ident {
        (Err(mismatch(t, i + 1, Kind::Ident)), i)
    } else if kind_at(t, i + 2) != Kind::Assign {
        (Err(mismatch(t, i + 2, Kind::Assign)), i + 1)
    } else {
        (
            Ok(NodeV::Let(text_at(t, i + 1), Box::new(NodeV::Placeholder))),
            scan_to_semicolon(t, i + 2),
        )
    }
}

/// A `return` statement, from `return` at `i`. Its operand is skipped, up to `;`.
pub open spec fn return_statement(t: Seq<TokenV>, i: int) -> (Result<NodeV, ParseError>, int) {
    (Ok(NodeV::Return(Box::new(NodeV::Placeholder))), scan_to_semicolon(t, next(t, i)))
}

/// The statements of a block from `i`, after those in `acc`, up to the closing `}`.
pub open spec fn block_from(
    t: Seq<TokenV>,
    i: int,
    acc: Seq<NodeV>,
    log: Seq<SyntaxError>,
) -> Outcome
    decreases t.len() - i, 10int,
{
    if !(0 <= i <= t.len()) {
        (Err(ParseError::UnexpectedEnd), i, log)
    } else if kind_at(t, i) == Kind::RightBrace {
        (Ok(NodeV::Block(acc)), i, log)
    } else if at_end(t, i) {
        (Err(ParseError::UnexpectedEnd), i, log)
    } else {
        let (r, j, log2) = statement(t, i, log);
        if !moved(t, i, j) {
            (Err(ParseError::UnexpectedEnd), j, log2)
        } else {
            match r {
                Ok(n) => block_from(t, next(t, j), acc.push(n), log2),
                Err(e) => {
                    let k = recover(t, j);
                    if !moved(t, j, k) {
                        (Err(ParseError::UnexpectedEnd), k, log2.push(e))
                    } else if kind_at(t, k) == Kind::RightBrace {
                        (Ok(NodeV::Block(acc)), k, log2.push(e))
                    } else if at_end(t, k) {
                        (Err(ParseError::UnexpectedEnd), k, log2.push(e))
                    } else {
                        block_from(t, k + 1, acc, log2.push(e))
                    }
                },
            }
        }
    }
}

/// A block, from its `{` at `i` to its `}`.
pub open spec fn block(t: Seq<TokenV>, i: int, log: Seq<SyntaxError>) -> Outcome
    decreases t.len() - i, 2int,
{
    if !(0 <= i < t.len()) {
        (Err(ParseError::UnexpectedEnd), i, log)
    } else {
        block_from(t, i + 1, seq![], log)
    }
}

/// One statement at `i`; a failure carries the kind of statement it was.
pub open spec fn statement(t: Seq<TokenV>, i: int, log: Seq<SyntaxError>) -> (Result<
    NodeV,
    SyntaxError,
>, int, Seq<SyntaxError>)
    decreases t.len() - i, 9int,
{
    if kind_at(t, i) == Kind::Let {
        let (r, j) = let_statement(t, i);
        match r {
            Ok(n) => (Ok(n), j, log),
            Err(e) => (Err(SyntaxError { context: Context::Let, error: e }), j, log),
        }
    } else if kind_at(t, i) == Kind::Return {
        let (r, j) = return_statement(t, i);
        match r {
            Ok(n) => (Ok(n), j, log),
            Err(e) => (Err(SyntaxError { context: Context::Return, error: e }), j, log),
        }
    } else {
        let (r, j, log2) = expression_statement(t, i, log);
        match r {
            Ok(n) => (Ok(n), j, log2),
            Err(e) => (Err(SyntaxError { context: Context::Expression, error: e }), j, log2),
        }
    }
}

/// An expression statement at `i`, with its `;` where one follows.
pub open spec fn expression_statement(t: Seq<TokenV>, i: int, log: Seq<SyntaxError>) -> Outcome
    decreases t.len() - i, 8int,
{
    let (r, j, log2) = expression(t, i, Precedence::Lowest, log);
    if r is Ok && kind_at(t, j + 1) == Kind::Semicolon {
        (r, j + 1, log2)
    } else {
        (r, j, log2)
    }
}

/// An expression at `i` whose operators all bind more tightly than `p`.
pub open spec fn expression(
    t: Seq<TokenV>,
    i: int,
    p: Precedence,
    log: Seq<SyntaxError>,
) -> Outcome
    decreases t.len() - i, 7int,
{
    let (r, j, log2) = prefix(t, i, log);
    match r {
        Err(e) => (Err(e), j, log2),
        Ok(left) => if moved(t, i, j) {
            climb(t, j, p, left, log2)
        } else {
            (Err(ParseError::UnexpectedEnd), j, log2)
        },
    }
}

/// The climbing loop: with `left` parsed up to `i`, absorbs each following operator
/// that binds more tightly than `p`.
pub open spec fn climb(
    t: Seq<TokenV>,
    i: int,
    p: Precedence,
    left: NodeV,
    log: Seq<SyntaxError>,
) -> Outcome
    decreases t.len() - i, 5int,
{
    if 0 <= i && kind_at(t, i + 1) != Kind::Semicolon && rank(p) < rank(
        precedence_of(kind_at(t, i + 1)),
    ) {
        let (r, j, log2) = infix(t, i + 1, left, log);
        match r {
            Err(e) => (Err(e), j, log2),
            Ok(n) => if moved(t, i + 1, j) {
                climb(t, j, p, n, log2)
            } else {
                (Err(ParseError::UnexpectedEnd), j, log2)
            },
        }
    } else {
        (Ok(left), i, log)
    }
}

/// The expression that starts with the token at `i`.
pub open spec fn prefix(t: Seq<TokenV>, i: int, log: Seq<SyntaxError>) -> Outcome
    decreases t.len() - i, 6int,
{
    let k = kind_at(t, i);
    if !(0 <= i <= t.len()) {
        (Err(ParseError::UnexpectedEnd), i, log)
    } else if k == Kind::Ident {
        (Ok(NodeV::Identifier(text_at(t, i))), i, log)
    } else if k == Kind::Int {
        match int_value(text_at(t, i)) {
            Some(v) => (Ok(NodeV::Int(v)), i, log),
            None => (Err(ParseError::InvalidInteger), i, log),
        }
    } else if k == Kind::Bool {
        (Ok(NodeV::Boolean(text_at(t, i) == seq!['t', 'r', 'u', 'e'])), i, log)
    } else if k == Kind::Bang || k == Kind::Minus {
        let op = if k == Kind::Bang {
            Prefix::Not
        } else {
            Prefix::Negative
        };
        let (r, j, log2) = expression(t, i + 1, Precedence::Prefix, log);
        match r {
            Ok(n) => (Ok(NodeV::Prefix(op, Box::new(n))), j, log2),
            Err(e) => (Err(e), j, log2),
        }
    } else if k == Kind::If {
        if_expression(t, i, log)
    } else if k == Kind::Function {
        function_literal(t, i, log)
    } else if k == Kind::Eof {
        (Err(ParseError::UnexpectedEnd), i, log)
    } else {
        (Err(ParseError::NoPrefixRule { kind: k }), i, log)
    }
}

/// `if (predicate) { .. }` with an optional `else { .. }`, from `if` at `i`.
pub open spec fn if_expression(t: Seq<TokenV>, i: int, log: Seq<SyntaxError>) -> Outcome
    decreases t.len() - i, 5int,
{
    if !(0 <= i < t.len()) || kind_at(t, i + 1) != Kind::LeftParen {
        (Err(mismatch(t, i + 1, Kind::LeftParen)), i, log)
    } else {
        let (pr, j, log2) = expression(t, i + 2, Precedence::Lowest, log);
        match pr {
            Err(e) => (Err(e), j, log2),
            Ok(predicate) => if !moved(t, i + 2, j) {
                (Err(ParseError::UnexpectedEnd), j, log2)
            } else if kind_at(t, j + 1) != Kind::RightParen {
                (Err(mismatch(t, j + 1, Kind::RightParen)), j, log2)
            } else if kind_at(t, j + 2) != Kind::LeftBrace {
                (Err(mismatch(t, j + 2, Kind::LeftBrace)), j + 1, log2)
            } else {
                let (sr, k, log3) = block(t, j + 2, log2);
                match sr {
                    Err(e) => (Err(e), k, log3),
                    Ok(success) => if !moved(t, j + 2, k) {
                        (Err(ParseError::UnexpectedEnd), k, log3)
                    } else if kind_at(t, k + 1) != Kind::Else {
                        (Ok(NodeV::If(Box::new(predicate), Box::new(success), None)), k, log3)
                    } else if kind_at(t, k + 2) != Kind::LeftBrace {
                        (Err(mismatch(t, k + 2, Kind::LeftBrace)), k + 1, log3)
                    } else {
                        let (fr, m, log4) = block(t, k + 2, log3);
                        match fr {
                            Err(e) => (Err(e), m, log4),
                            Ok(fail) => (
                                Ok(
                                    NodeV::If(
                                        Box::new(predicate),
                                        Box::new(success),
                                        Some(Box::new(fail)),
                                    ),
                                ),
                                m,
                                log4,
                            ),
                        }
                    },
                }
            },
        }
    }
}

/// `fn (parameters) { body }`, from `fn` at `i`.
pub open spec fn function_literal(t: Seq<TokenV>, i: int, log: Seq<SyntaxError>) -> Outcome
    decreases t.len() - i, 5int,
{
    if !(0 <= i < t.len()) || kind_at(t, i + 1) != Kind::LeftParen {
        (Err(mismatch(t, i + 1, Kind::LeftParen)), i, log)
    } else {
        let (ps, j) = parameters(t, i + 1);
        match ps {
            Err(e) => (Err(e), j, log),
            Ok(params) => if !moved(t, i + 1, j) {
                (Err(ParseError::UnexpectedEnd), j, log)
            } else if kind_at(t, j + 1) != Kind::LeftBrace {
                (Err(mismatch(t, j + 1, Kind::LeftBrace)), j, log)
            } else {
                let (br, k, log2) = block(t, j + 1, log);
                match br {
                    Err(e) => (Err(e), k, log2),
                    Ok(body) => (Ok(NodeV::Function(params, Box::new(body))), k, log2),
                }
            },
        }
    }
}

/// The operator at `i` applied to `left`: an infix expression or a call.
pub open spec fn infix(t: Seq<TokenV>, i: int, left: NodeV, log: Seq<SyntaxError>) -> Outcome
    decreases t.len() - i, 4int,
{
    let k = kind_at(t, i);
    if !(0 <= i < t.len()) {
        (Err(ParseError::UnexpectedEnd), i, log)
    } else if infix_of(k) is Some {
        let (r, j, log2) = expression(t, i + 1, precedence_of(k), log);
        match r {
            Ok(right) => (Ok(NodeV::Infix(Box::new(left), infix_of(k)->0, Box::new(right))), j, log2),
            Err(e) => (Err(e), j, log2),
        }
    } else if k == Kind::LeftParen {
        call(t, i, left, log)
    } else {
        (Err(ParseError::NoInfixRule { kind: k }), i, log)
    }
}

/// A call of `function`, from its `(` at `i` to its `)`.
pub open spec fn call(t: Seq<TokenV>, i: int, function: NodeV, log: Seq<SyntaxError>) -> Outcome
    decreases t.len() - i, 3int,
{
    if !(0 <= i < t.len()) {
        (Err(ParseError::UnexpectedEnd), i, log)
    } else if kind_at(t, i + 1) == Kind::RightParen {
        (Ok(NodeV::Call(Box::new(function), seq![])), i + 1, log)
    } else {
        arguments_from(t, i + 1, function, seq![], log)
    }
}

/// The arguments of a call from the one at `i`, after those in `acc`.
pub open spec fn arguments_from(
    t: Seq<TokenV>,
    i: int,
    function: NodeV,
    acc: Seq<NodeV>,
    log: Seq<SyntaxError>,
) -> Outcome
    decreases t.len() - i, 8int,
{
    let (r, j, log2) = expression(t, i, Precedence::Lowest, log);
    match r {
        Err(e) => (Err(e), j, log2),
        Ok(a) => if !moved(t, i, j) {
            (Err(ParseError::UnexpectedEnd), j, log2)
        } else if kind_at(t, j + 1) == Kind::Comma {
            arguments_from(t, j + 2, function, acc.push(a), log2)
        } else if kind_at(t, j + 1) == Kind::RightParen {
            (Ok(NodeV::Call(Box::new(function), acc.push(a))), j + 1, log2)
        } else {
            (Err(mismatch(t, j + 1, Kind::RightParen)), j, log2)
        },
    }
}

/// The statements from `i` on, after the statements `acc` and the errors `log`.
pub open spec fn program_from(
    t: Seq<TokenV>,
    i: int,
    acc: Seq<NodeV>,
    log: Seq<SyntaxError>,
) -> (Seq<NodeV>, Seq<SyntaxError>)
    decreases t.len() - i,
{
    if !(0 <= i < t.len()) || at_end(t, i) {
        (acc, log)
    } else {
        let (r, j, log2) = statement(t, i, log);
        if !moved(t, i, j) {
            (acc, log2)
        } else {
            match r {
                Ok(n) => program_from(t, next(t, j), acc.push(n), log2),
                Err(e) => {
                    let k = recover(t, j);
                    if !moved(t, j, k) {
                        (acc, log2.push(e))
                    } else {
                        program_from(t, next(t, k), acc, log2.push(e))
                    }
                },
            }
        }
    }
}

/// A whole program: its statements where no statement failed, else every error found.
pub open spec fn program(t: Seq<TokenV>) -> Result<Seq<NodeV>, Seq<SyntaxError>> {
    let (nodes, errors) = program_from(t, 0, seq![], seq![]);
    if errors.len() == 0 {
        Ok(nodes)
    } else {
        Err(errors)
    }
}


/// `c` ends or opens nothing: it is no `;`, no brace and not the end of input.
pub open spec fn inner_kind(c: Kind) -> bool {
    c != Kind::Semicolon && c != Kind::LeftBrace && c != Kind::RightBrace && c != Kind::Eof
}

/// The tokens from `a` up to `b` hold no brace and are ended by their only `;`,
/// at `b - 1`.
pub open spec fn plain_span(t: Seq<TokenV>, a: int, b: int) -> bool {
    &&& 0 <= a < b <= t.len()
    &&& kind_at(t, b - 1) == Kind::Semicolon
    &&& forall|m: int| a <= m < b - 1 ==> inner_kind(#[trigger] kind_at(t, m))
}

/// The errors that the statements from `a` on report when the input ends at `b`.
pub open spec fn errors_within(t: Seq<TokenV>, a: int, b: int) -> Seq<SyntaxError> {
    program_from(t.subrange(0, b), a, seq![], seq![]).1
}

/// `t` and its first `b` tokens `u`, where `a..b` is a plain span.
pub open spec fn framed(t: Seq<TokenV>, u: Seq<TokenV>, a: int, b: int) -> bool {
    &&& plain_span(t, a, b)
    &&& u == t.subrange(0, b)
    &&& forall|x: int|
        0 <= x < b ==> #[trigger] kind_at(u, x) == kind_at(t, x) && text_at(u, x) == text_at(t, x)
}

/// Two outcomes of one rule started at `i`, on `t` with log `l1` and on `u` with
/// log `l2`, agree, leave the logs alone, and stop at or before the `;` at `e`
/// (before it, where they succeed).
pub open spec fn same_outcome(
    o1: Outcome,
    o2: Outcome,
    l1: Seq<SyntaxError>,
    l2: Seq<SyntaxError>,
    i: int,
    e: int,
) -> bool {
    &&& o1.0 == o2.0
    &&& o1.1 == o2.1
    &&& o1.2 == l1
    &&& o2.2 == l2
    &&& i <= o1.1 <= e
    &&& (o1.0 is Ok ==> o1.1 < e)
}

proof fn lemma_framed(t: Seq<TokenV>, a: int, b: int)
    requires
        plain_span(t, a, b),
    ensures
        framed(t, t.subrange(0, b), a, b),
{
}

proof fn lemma_frame_scan(t: Seq<TokenV>, u: Seq<TokenV>, a: int, b: int, x: int)
    requires
        framed(t, u, a, b),
        a <= x <= b - 1,
    ensures
        scan_to_semicolon(t, x) == b - 1,
        scan_to_semicolon(u, x) == b - 1,
    decreases b - x,
{
    assert(kind_at(u, x) == kind_at(t, x));
    if x < b - 1 {
        assert(inner_kind(kind_at(t, x)));
        lemma_frame_scan(t, u, a, b, x + 1);
    }
}

proof fn lemma_frame_skip(t: Seq<TokenV>, u: Seq<TokenV>, a: int, b: int, x: int)
    requires
        framed(t, u, a, b),
        a <= x <= b - 1,
    ensures
        skip_to_boundary(t, x, 0) == b - 1,
        skip_to_boundary(u, x, 0) == b - 1,
    decreases b - x,
{
    assert(kind_at(u, x) == kind_at(t, x));
    if x < b - 1 {
        assert(inner_kind(kind_at(t, x)));
        lemma_frame_skip(t, u, a, b, x + 1);
    }
}

proof fn lemma_frame_recover(t: Seq<TokenV>, u: Seq<TokenV>, a: int, b: int, j: int)
    requires
        framed(t, u, a, b),
        a <= j <= b - 1,
    ensures
        recover(t, j) == b - 1,
        recover(u, j) == b - 1,
{
    assert(kind_at(u, j) == kind_at(t, j));
    if j < b - 1 {
        assert(inner_kind(kind_at(t, j)));
        lemma_frame_skip(t, u, a, b, j + 1);
    }
}

proof fn lemma_frame_parameters_from(
    t: Seq<TokenV>,
    u: Seq<TokenV>,
    a: int,
    b: int,
    i: int,
    acc: Seq<NodeV>,
)
    requires
        framed(t, u, a, b),
        a <= i < b - 1,
    ensures
        parameters_from(t, i, acc) == parameters_from(u, i, acc),
        i <= parameters_from(t, i, acc).1 <= b - 1,
        parameters_from(t, i, acc).0 is Ok ==> parameters_from(t, i, acc).1 < b - 1,
    decreases b - i,
{
    assert(kind_at(u, i + 1) == kind_at(t, i + 1));
    if kind_at(t, i + 1) == Kind::Ident {
        assert(inner_kind(kind_at(t, i + 1)) || i + 1 == b - 1);
        assert(kind_at(u, i + 2) == kind_at(t, i + 2));
        assert(text_at(u, i + 1) == text_at(t, i + 1));
        if kind_at(t, i + 2) == Kind::Comma {
            assert(i + 2 < b - 1);
            lemma_frame_parameters_from(
                t,
                u,
                a,
                b,
                i + 2,
                acc.push(NodeV::Identifier(text_at(t, i + 1))),
            );
        }
    }
}

proof fn lemma_frame_parameters(t: Seq<TokenV>, u: Seq<TokenV>, a: int, b: int, i: int)
    requires
        framed(t, u, a, b),
        a <= i < b - 1,
    ensures
        parameters(t, i) == parameters(u, i),
        i <= parameters(t, i).1 <= b - 1,
        parameters(t, i).0 is Ok ==> parameters(t, i).1 < b - 1,
{
    assert(kind_at(u, i + 1) == kind_at(t, i + 1));
    if kind_at(t, i + 1) != Kind::RightParen {
        lemma_frame_parameters_from(t, u, a, b, i, seq![]);
    }
}

proof fn lemma_frame_expression(
    t: Seq<TokenV>,
    u: Seq<TokenV>,
    a: int,
    b: int,
    i: int,
    p: Precedence,
    l1: Seq<SyntaxError>,
    l2: Seq<SyntaxError>,
)
    requires
        framed(t, u, a, b),
        a <= i <= b - 1,
    ensures
        same_outcome(expression(t, i, p, l1), expression(u, i, p, l2), l1, l2, i, b - 1),
    decreases b - i, 7int,
{
    lemma_frame_prefix(t, u, a, b, i, l1, l2);
    let (r, j, _) = prefix(t, i, l1);
    if r is Ok {
        lemma_frame_climb(t, u, a, b, j, p, r->Ok_0, l1, l2);
    }
}

proof fn lemma_frame_climb(
    t: Seq<TokenV>,
    u: Seq<TokenV>,
    a: int,
    b: int,
    j: int,
    p: Precedence,
    left: NodeV,
    l1: Seq<SyntaxError>,
    l2: Seq<SyntaxError>,
)
    requires
        framed(t, u, a, b),
        a <= j < b - 1,
    ensures
        same_outcome(climb(t, j, p, left, l1), climb(u, j, p, left, l2), l1, l2, j, b - 1),
    decreases b - j, 5int,
{
    assert(kind_at(u, j + 1) == kind_at(t, j + 1));
    let k = kind_at(t, j + 1);
    if k != Kind::Semicolon && rank(p) < rank(precedence_of(k)) {
        assert(j + 1 < b - 1);
        lemma_frame_infix(t, u, a, b, j + 1, left, l1, l2);
        let (r, m, _) = infix(t, j + 1, left, l1);
        if r is Ok {
            lemma_frame_climb(t, u, a, b, m, p, r->Ok_0, l1, l2);
        }
    }
}

proof fn lemma_frame_prefix(
    t: Seq<TokenV>,
    u: Seq<TokenV>,
    a: int,
    b: int,
    i: int,
    l1: Seq<SyntaxError>,
    l2: Seq<SyntaxError>,
)
    requires
        framed(t, u, a, b),
        a <= i <= b - 1,
    ensures
        same_outcome(prefix(t, i, l1), prefix(u, i, l2), l1, l2, i, b - 1),
    decreases b - i, 6int,
{
    assert(kind_at(u, i) == kind_at(t, i));
    assert(text_at(u, i) == text_at(t, i));
    let k = kind_at(t, i);
    if i < b - 1 {
        assert(inner_kind(k));
    }
    if k == Kind::Bang || k == Kind::Minus {
        lemma_frame_expression(t, u, a, b, i + 1, Precedence::Prefix, l1, l2);
    } else if k == Kind::If {
        lemma_frame_if(t, u, a, b, i, l1, l2);
    } else if k == Kind::Function {
        lemma_frame_function(t, u, a, b, i, l1, l2);
    }
}

proof fn lemma_frame_if(
    t: Seq<TokenV>,
    u: Seq<TokenV>,
    a: int,
    b: int,
    i: int,
    l1: Seq<SyntaxError>,
    l2: Seq<SyntaxError>,
)
    requires
        framed(t, u, a, b),
        a <= i < b - 1,
    ensures
        same_outcome(if_expression(t, i, l1), if_expression(u, i, l2), l1, l2, i, b - 1),
    decreases b - i, 5int,
{
    assert(kind_at(u, i + 1) == kind_at(t, i + 1));
    if kind_at(t, i + 1) == Kind::LeftParen {
        assert(i + 1 < b - 1);
        lemma_frame_expression(t, u, a, b, i + 2, Precedence::Lowest, l1, l2);
        let (r, j, _) = expression(t, i + 2, Precedence::Lowest, l1);
        if r is Ok {
            assert(kind_at(u, j + 1) == kind_at(t, j + 1));
            if kind_at(t, j + 1) == Kind::RightParen {
                assert(j + 1 < b - 1);
                assert(kind_at(u, j + 2) == kind_at(t, j + 2));
                if j + 2 < b - 1 {
                    assert(inner_kind(kind_at(t, j + 2)));
                }
            }
        }
    }
}

proof fn lemma_frame_function(
    t: Seq<TokenV>,
    u: Seq<TokenV>,
    a: int,
    b: int,
    i: int,
    l1: Seq<SyntaxError>,
    l2: Seq<SyntaxError>,
)
    requires
        framed(t, u, a, b),
        a <= i < b - 1,
    ensures
        same_outcome(function_literal(t, i, l1), function_literal(u, i, l2), l1, l2, i, b - 1),
    decreases b - i, 5int,
{
    assert(kind_at(u, i + 1) == kind_at(t, i + 1));
    if kind_at(t, i + 1) == Kind::LeftParen {
        assert(i + 1 < b - 1);
        lemma_frame_parameters(t, u, a, b, i + 1);
        let (r, j) = parameters(t, i + 1);
        if r is Ok {
            assert(kind_at(u, j + 1) == kind_at(t, j + 1));
            if j + 1 < b - 1 {
                assert(inner_kind(kind_at(t, j + 1)));
            }
        }
    }
}

proof fn lemma_frame_infix(
    t: Seq<TokenV>,
    u: Seq<TokenV>,
    a: int,
    b: int,
    i: int,
    left: NodeV,
    l1: Seq<SyntaxError>,
    l2: Seq<SyntaxError>,
)
    requires
        framed(t, u, a, b),
        a <= i < b - 1,
    ensures
        same_outcome(infix(t, i, left, l1), infix(u, i, left, l2), l1, l2, i, b - 1),
    decreases b - i, 4int,
{
    assert(kind_at(u, i) == kind_at(t, i));
    let k = kind_at(t, i);
    if infix_of(k) is Some {
        lemma_frame_expression(t, u, a, b, i + 1, precedence_of(k), l1, l2);
    } else if k == Kind::LeftParen {
        lemma_frame_call(t, u, a, b, i, left, l1, l2);
    }
}

proof fn lemma_frame_call(
    t: Seq<TokenV>,
    u: Seq<TokenV>,
    a: int,
    b: int,
    i: int,
    function: NodeV,
    l1: Seq<SyntaxError>,
    l2: Seq<SyntaxError>,
)
    requires
        framed(t, u, a, b),
        a <= i < b - 1,
    ensures
        same_outcome(call(t, i, function, l1), call(u, i, function, l2), l1, l2, i, b - 1),
    decreases b - i, 3int,
{
    assert(kind_at(u, i + 1) == kind_at(t, i + 1));
    if kind_at(t, i + 1) != Kind::RightParen {
        lemma_frame_arguments(t, u, a, b, i + 1, function, seq![], l1, l2);
    }
}

proof fn lemma_frame_arguments(
    t: Seq<TokenV>,
    u: Seq<TokenV>,
    a: int,
    b: int,
    i: int,
    function: NodeV,
    acc: Seq<NodeV>,
    l1: Seq<SyntaxError>,
    l2: Seq<SyntaxError>,
)
    requires
        framed(t, u, a, b),
        a <= i <= b - 1,
    ensures
        same_outcome(
            arguments_from(t, i, function, acc, l1),
            arguments_from(u, i, function, acc, l2),
            l1,
            l2,
            i,
            b - 1,
        ),
    decreases b - i, 8int,
{
    lemma_frame_expression(t, u, a, b, i, Precedence::Lowest, l1, l2);
    let (r, j, _) = expression(t, i, Precedence::Lowest, l1);
    if r is Ok {
        assert(kind_at(u, j + 1) == kind_at(t, j + 1));
        if kind_at(t, j + 1) == Kind::Comma {
            assert(j + 1 < b - 1);
            lemma_frame_arguments(t, u, a, b, j + 2, function, acc.push(r->Ok_0), l1, l2);
        }
    }
}

proof fn lemma_frame_statement(
    t: Seq<TokenV>,
    u: Seq<TokenV>,
    a: int,
    b: int,
    i: int,
    l1: Seq<SyntaxError>,
    l2: Seq<SyntaxError>,
)
    requires
        framed(t, u, a, b),
        a <= i <= b - 1,
    ensures
        statement(t, i, l1).0 == statement(u, i, l2).0,
        statement(t, i, l1).1 == statement(u, i, l2).1,
        statement(t, i, l1).2 == l1,
        statement(u, i, l2).2 == l2,
        i <= statement(t, i, l1).1 <= b - 1,
{
    assert(kind_at(u, i) == kind_at(t, i));
    let k = kind_at(t, i);
    if i < b - 1 {
        assert(inner_kind(k));
    }
    if k == Kind::Let {
        assert(kind_at(u, i + 1) == kind_at(t, i + 1));
        assert(text_at(u, i + 1) == text_at(t, i + 1));
        if kind_at(t, i + 1) == Kind::Ident {
            assert(kind_at(u, i + 2) == kind_at(t, i + 2));
            if kind_at(t, i + 2) == Kind::Assign {
                assert(i + 2 < b - 1);
                lemma_frame_scan(t, u, a, b, i + 2);
            }
        }
    } else if k == Kind::Return {
        lemma_frame_scan(t, u, a, b, i + 1);
    } else {
        lemma_frame_expression(t, u, a, b, i, Precedence::Lowest, l1, l2);
        let (r, j, _) = expression(t, i, Precedence::Lowest, l1);
        if r is Ok {
            assert(kind_at(u, j + 1) == kind_at(t, j + 1));
        }
    }
}

/// One step of parsing a program at a position `i` that is not the end of input:
/// its statement, then the position after it or after recovery.
proof fn lemma_program_step(t: Seq<TokenV>, i: int, acc: Seq<NodeV>, log: Seq<SyntaxError>)
    requires
        0 <= i < t.len(),
        !at_end(t, i),
        moved(t, i, statement(t, i, log).1),
        statement(t, i, log).0 is Err ==> moved(
            t,
            statement(t, i, log).1,
            recover(t, statement(t, i, log).1),
        ),
    ensures
        ({
            let (r, j, log2) = statement(t, i, log);
            program_from(t, i, acc, log) == match r {
                Ok(n) => program_from(t, next(t, j), acc.push(n), log2),
                Err(e) => program_from(t, next(t, recover(t, j)), acc, log2.push(e)),
            }
        }),
{
}

/// Parsing on from `i` inside a plain span first takes the statements of the span
/// as if the input ended after it, then goes on after its `;`; the span adds at
/// most one error, and how many does not depend on what came before.
proof fn lemma_span(
    t: Seq<TokenV>,
    u: Seq<TokenV>,
    a: int,
    b: int,
    i: int,
    acc: Seq<NodeV>,
    log: Seq<SyntaxError>,
    acc2: Seq<NodeV>,
    log2: Seq<SyntaxError>,
)
    requires
        framed(t, u, a, b),
        a <= i <= b - 1,
    ensures
        ({
            let q = program_from(u, i, acc, log);
            &&& program_from(t, i, acc, log) == program_from(t, b, q.0, q.1)
            &&& log.len() <= q.1.len() <= log.len() + 1
            &&& q.1.len() - log.len() == program_from(u, i, acc2, log2).1.len() - log2.len()
        }),
    decreases b - i,
{
    lemma_frame_statement(t, u, a, b, i, log, log);
    lemma_frame_statement(t, u, a, b, i, log, log2);
    assert(kind_at(u, i) == kind_at(t, i));
    if i < b - 1 {
        assert(inner_kind(kind_at(t, i)));
    }
    let (r, j, _) = statement(t, i, log);
    assert(kind_at(u, j) == kind_at(t, j));
    if j < b - 1 {
        assert(inner_kind(kind_at(t, j)));
    }
    assert(u.len() == b);
    if r is Err {
        lemma_frame_recover(t, u, a, b, j);
    }
    lemma_program_step(t, i, acc, log);
    lemma_program_step(u, i, acc, log);
    lemma_program_step(u, i, acc2, log2);
    assert(next(t, j) == j + 1 && next(u, j) == j + 1);
    match r {
        Ok(n) => {
            if j + 1 <= b - 1 {
                lemma_span(t, u, a, b, j + 1, acc.push(n), log, acc2.push(n), log2);
            } else {
                assert(program_from(u, b, acc.push(n), log) == (acc.push(n), log));
                assert(program_from(u, b, acc2.push(n), log2) == (acc2.push(n), log2));
            }
        },
        Err(e) => {
            assert(program_from(u, b, acc, log.push(e)) == (acc, log.push(e)));
            assert(program_from(u, b, acc2, log2.push(e)) == (acc2, log2.push(e)));
        },
    }
}

/// The spans from `bounds[k]` to `bounds[k + 1]` are plain.
pub open spec fn span_at(t: Seq<TokenV>, bounds: Seq<int>, k: int) -> bool {
    plain_span(t, bounds[k], bounds[k + 1])
}

/// How many of the spans from the `k`-th on report an error of their own.
pub open spec fn malformed_spans(t: Seq<TokenV>, bounds: Seq<int>, k: int) -> nat
    decreases bounds.len() - k,
{
    if k < 0 || k >= bounds.len() - 1 {
        0
    } else {
        (if errors_within(t, bounds[k], bounds[k + 1]).len() > 0 {
            1nat
        } else {
            0nat
        }) + malformed_spans(t, bounds, k + 1)
    }
}

/// Statements ended by `;`, with no braces, some malformed and some not, wherever
/// their errors lie: parsing reports exactly one error for each malformed one
/// and does not stop at the first. `bounds` holds where each `;`-ended span
/// starts, and the end of input; a span is malformed when its statements report
/// an error with the input ending right after its `;`.
pub proof fn lemma_errors_batched(t: Seq<TokenV>, bounds: Seq<int>)
    requires
        bounds.len() >= 1,
        bounds[0] == 0,
        bounds.last() == t.len(),
        forall|k: int| 0 <= k < bounds.len() - 1 ==> #[trigger] span_at(t, bounds, k),
    ensures
        program_from(t, 0, seq![], seq![]).1.len() == malformed_spans(t, bounds, 0),
        program(t) is Err <==> malformed_spans(t, bounds, 0) > 0,
        forall|k: int|
            0 <= k < bounds.len() - 1 ==> #[trigger] errors_within(t, bounds[k], bounds[k + 1]).len()
                <= 1,
{
    lemma_batched_from(t, bounds, 0, seq![], seq![]);
    assert forall|k: int| 0 <= k < bounds.len() - 1 implies #[trigger] errors_within(
        t,
        bounds[k],
        bounds[k + 1],
    ).len() <= 1 by {
        assert(span_at(t, bounds, k));
        lemma_framed(t, bounds[k], bounds[k + 1]);
        lemma_span(
            t,
            t.subrange(0, bounds[k + 1]),
            bounds[k],
            bounds[k + 1],
            bounds[k],
            seq![],
            seq![],
            seq![],
            seq![],
        );
    }
}

proof fn lemma_batched_from(
    t: Seq<TokenV>,
    bounds: Seq<int>,
    k: int,
    acc: Seq<NodeV>,
    log: Seq<SyntaxError>,
)
    requires
        bounds.len() >= 1,
        bounds[0] == 0,
        bounds.last() == t.len(),
        forall|m: int| 0 <= m < bounds.len() - 1 ==> #[trigger] span_at(t, bounds, m),
        0 <= k < bounds.len(),
    ensures
        program_from(t, bounds[k], acc, log).1.len() == log.len() + malformed_spans(t, bounds, k),
    decreases bounds.len() - k,
{
    if k == bounds.len() - 1 {
        assert(program_from(t, bounds[k], acc, log) == (acc, log));
    } else {
        assert(span_at(t, bounds, k));
        let a = bounds[k];
        let b = bounds[k + 1];
        let u = t.subrange(0, b);
        lemma_framed(t, a, b);
        lemma_span(t, u, a, b, a, acc, log, seq![], seq![]);
        let q = program_from(u, a, acc, log);
        lemma_batched_from(t, bounds, k + 1, q.0, q.1);
    }
}


/// The precedence of an infix operator.
pub open spec fn operator_precedence(op: Infix) -> Precedence {
    match op {
        Infix::Eq | Infix::NotEq => Precedence::Equals,
        Infix::LessThan | Infix::GreaterThan => Precedence::LessGreater,
        Infix::Add | Infix::Subtract => Precedence::Sum,
        Infix::Multiply | Infix::Divide => Precedence::Product,
    }
}

/// The shape of an expression parsed at precedence `p`: each infix operator at its
/// top binds more tightly than `p`; the right operand of an infix node binds more
/// tightly than its operator, and its left operand at least as tightly; the
/// operand of a prefix node and the callee of a call are no infix nodes; each
/// argument of a call has that shape at the lowest precedence.
pub open spec fn binds_above(n: NodeV, p: Precedence) -> bool
    decreases n,
{
    match n {
        NodeV::Infix(l, op, r) => {
            &&& rank(p) < rank(operator_precedence(op))
            &&& binds_above(*l, p)
            &&& binds_above(*r, operator_precedence(op))
            &&& match *l {
                NodeV::Infix(_, lop, _) => rank(operator_precedence(op)) <= rank(
                    operator_precedence(lop),
                ),
                _ => true,
            }
        },
        NodeV::Prefix(_, v) => !(*v is Infix) && binds_above(*v, Precedence::Prefix),
        NodeV::Call(f, args) => {
            &&& !(*f is Infix)
            &&& binds_above(*f, p)
            &&& forall|k: int|
                0 <= k < args.len() ==> binds_above(#[trigger] args[k], Precedence::Lowest)
        },
        _ => true,
    }
}

/// The expression that ends at `j` stopped before a `;` or before an operator
/// that binds no more tightly than `p`.
pub open spec fn stops(t: Seq<TokenV>, j: int, p: Precedence) -> bool {
    kind_at(t, j + 1) == Kind::Semicolon || rank(precedence_of(kind_at(t, j + 1))) <= rank(p)
}

/// An infix node whose operand ended at `j`, and whose next token binds no more
/// tightly than its operator.
pub open spec fn closed_at(t: Seq<TokenV>, j: int, n: NodeV) -> bool {
    match n {
        NodeV::Infix(_, op, _) => stops(t, j, operator_precedence(op)),
        _ => true,
    }
}

proof fn lemma_operator_precedence(k: Kind)
    requires
        infix_of(k) is Some,
    ensures
        operator_precedence(infix_of(k)->0) == precedence_of(k),
{
}

/// Precedence climbing gives every expression the shape of its precedence: a
/// right operand binds more tightly than its operator, a left operand at least as
/// tightly, and a prefix operand is never an infix node.
pub proof fn lemma_precedence_shape(t: Seq<TokenV>, i: int, p: Precedence, log: Seq<SyntaxError>)
    requires
        0 <= i <= t.len(),
    ensures
        expression(t, i, p, log).0 is Ok ==> binds_above(expression(t, i, p, log).0->Ok_0, p),
    decreases t.len() - i, 7int,
{
    lemma_shape_expression(t, i, p, log);
}

proof fn lemma_shape_expression(t: Seq<TokenV>, i: int, p: Precedence, log: Seq<SyntaxError>)
    requires
        0 <= i <= t.len(),
    ensures
        ({
            let o = expression(t, i, p, log);
            o.0 is Ok ==> binds_above(o.0->Ok_0, p) && stops(t, o.1, p)
        }),
    decreases t.len() - i, 7int,
{
    lemma_shape_prefix(t, i, p, log);
    let (r, j, log2) = prefix(t, i, log);
    if r is Ok && moved(t, i, j) {
        lemma_shape_climb(t, j, p, r->Ok_0, log2);
    }
}

proof fn lemma_shape_prefix(t: Seq<TokenV>, i: int, p: Precedence, log: Seq<SyntaxError>)
    requires
        0 <= i <= t.len(),
    ensures
        ({
            let o = prefix(t, i, log);
            o.0 is Ok ==> binds_above(o.0->Ok_0, p) && !(o.0->Ok_0 is Infix)
        }),
    decreases t.len() - i, 6int,
{
    let k = kind_at(t, i);
    if k == Kind::Bang || k == Kind::Minus {
        lemma_shape_expression(t, i + 1, Precedence::Prefix, log);
        let (r, j, log2) = expression(t, i + 1, Precedence::Prefix, log);
        if r is Ok {
            let v = r->Ok_0;
            if v is Infix {
                assert(rank(Precedence::Prefix) < rank(operator_precedence(v->Infix_1)));
            }
        }
    }
}

proof fn lemma_shape_climb(
    t: Seq<TokenV>,
    j: int,
    p: Precedence,
    left: NodeV,
    log: Seq<SyntaxError>,
)
    requires
        0 <= j <= t.len(),
        binds_above(left, p),
        closed_at(t, j, left),
    ensures
        ({
            let o = climb(t, j, p, left, log);
            o.0 is Ok ==> binds_above(o.0->Ok_0, p) && stops(t, o.1, p)
        }),
    decreases t.len() - j, 5int,
{
    let k = kind_at(t, j + 1);
    if k != Kind::Semicolon && rank(p) < rank(precedence_of(k)) {
        let (r, m, log2) = infix(t, j + 1, left, log);
        if infix_of(k) is Some {
            lemma_operator_precedence(k);
            lemma_shape_expression(t, j + 2, precedence_of(k), log);
        } else if k == Kind::LeftParen {
            lemma_shape_call(t, j + 1, left, log);
            if left is Infix {
                assert(rank(precedence_of(k)) <= rank(operator_precedence(left->Infix_1)));
            }
        }
        if r is Ok && moved(t, j + 1, m) {
            lemma_shape_climb(t, m, p, r->Ok_0, log2);
        }
    }
}

proof fn lemma_shape_call(t: Seq<TokenV>, i: int, function: NodeV, log: Seq<SyntaxError>)
    requires
        0 <= i < t.len(),
    ensures
        ({
            let o = call(t, i, function, log);
            o.0 is Ok ==> exists|args: Seq<NodeV>|
                {
                    &&& o.0->Ok_0 == NodeV::Call(Box::new(function), args)
                    &&& forall|k: int|
                        0 <= k < args.len() ==> binds_above(#[trigger] args[k], Precedence::Lowest)
                }
        }),
    decreases t.len() - i, 3int,
{
    if kind_at(t, i + 1) == Kind::RightParen {
        let args = Seq::<NodeV>::empty();
        assert(call(t, i, function, log).0->Ok_0 == NodeV::Call(Box::new(function), args));
    } else {
        lemma_shape_arguments(t, i + 1, function, seq![], log);
    }
}

proof fn lemma_shape_arguments(
    t: Seq<TokenV>,
    i: int,
    function: NodeV,
    acc: Seq<NodeV>,
    log: Seq<SyntaxError>,
)
    requires
        0 <= i <= t.len(),
        forall|k: int| 0 <= k < acc.len() ==> binds_above(#[trigger] acc[k], Precedence::Lowest),
    ensures
        ({
            let o = arguments_from(t, i, function, acc, log);
            o.0 is Ok ==> exists|args: Seq<NodeV>|
                {
                    &&& o.0->Ok_0 == NodeV::Call(Box::new(function), args)
                    &&& forall|k: int|
                        0 <= k < args.len() ==> binds_above(#[trigger] args[k], Precedence::Lowest)
                }
        }),
    decreases t.len() - i, 8int,
{
    lemma_shape_expression(t, i, Precedence::Lowest, log);
    let (r, j, log2) = expression(t, i, Precedence::Lowest, log);
    if r is Ok && moved(t, i, j) {
        let acc2 = acc.push(r->Ok_0);
        assert forall|k: int| 0 <= k < acc2.len() implies binds_above(
            #[trigger] acc2[k],
            Precedence::Lowest,
        ) by {
            if k < acc.len() {
                assert(acc2[k] == acc[k]);
            }
        }
        if kind_at(t, j + 1) == Kind::Comma {
            lemma_shape_arguments(t, j + 2, function, acc2, log2);
        } else if kind_at(t, j + 1) == Kind::RightParen {
            assert(arguments_from(t, i, function, acc, log).0->Ok_0 == NodeV::Call(
                Box::new(function),
                acc2,
            ));
        }
    }
}

} // verus!
