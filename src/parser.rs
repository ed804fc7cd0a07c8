//! The parser: precedence climbing over the tokens of one input, with errors
//! collected per statement.
use vstd::prelude::*;

use crate::ast::{list_view, Infix, Node, NodeV, Precedence, Prefix, Program};
use crate::grammar::{
    all_digits, arguments_from, at_end, block, block_from, call, climb, digits_value, expression,
    expression_statement, function_literal, if_expression, infix, infix_of, int_value, kind_at,
    let_statement, mismatch, next, parameters, parameters_from, prefix, program, program_from,
    recover, return_statement, scan_to_semicolon, skip_to_boundary, statement, text_at, Outcome,
};
use crate::lexer::{chars_of, is_word, lemma_tokens_from_len, lex, Lexer};
use crate::token::{views, Kind, Token, TokenV};
use crate::util::{Context, MultiError, ParseError, SyntaxError};

verus! {

/// The view of a parse result.
pub open spec fn result_view(r: Result<Node, ParseError>) -> Result<NodeV, ParseError> {
    match r {
        Ok(n) => Ok(n@),
        Err(e) => Err(e),
    }
}

/// A token sequence short enough that positions a few past its end fit in `usize`.
pub open spec fn fits(t: &Vec<Token>) -> bool {
    t@.len() < usize::MAX - 3
}

/// The exec result `r` and final log `log` are the outcome `o` of a rule started at `i`.
pub open spec fn agrees(
    t: &Vec<Token>,
    i: int,
    r: (Result<Node, ParseError>, usize),
    log: Seq<SyntaxError>,
    o: Outcome,
) -> bool {
    &&& result_view(r.0) == o.0
    &&& r.1 == o.1
    &&& log == o.2
    &&& i <= r.1 <= t@.len()
}

fn kind(t: &Vec<Token>, i: usize) -> (r: Kind)
    ensures
        r == kind_at(views(t@), i as int),
{
    if i < t.len() {
        t[i].kind
    } else {
        Kind::Eof
    }
}

fn text(t: &Vec<Token>, i: usize) -> (r: String)
    requires
        i < t@.len(),
    ensures
        r@ == text_at(views(t@), i as int),
{
    t[i].literal.clone()
}

fn advance(t: &Vec<Token>, i: usize) -> (r: usize)
    requires
        fits(t),
        i <= t@.len(),
    ensures
        r == next(views(t@), i as int),
        i <= r <= t@.len(),
{
    if kind(t, i) == Kind::Eof {
        i
    } else {
        i + 1
    }
}

fn mismatch_at(t: &Vec<Token>, i: usize, k: Kind) -> (r: ParseError)
    ensures
        r == mismatch(views(t@), i as int, k),
{
    let actual = kind(t, i);
    if actual == Kind::Eof {
        ParseError::UnexpectedEnd
    } else {
        ParseError::UnexpectedToken { expected: k, actual }
    }
}

fn infix_operator(k: Kind) -> (r: Option<Infix>)
    ensures
        r == infix_of(k),
{
    match k {
        Kind::Plus => Some(Infix::Add),
        Kind::Minus => Some(Infix::Subtract),
        Kind::Slash => Some(Infix::Divide),
        Kind::Asterisk => Some(Infix::Multiply),
        Kind::Equal => Some(Infix::Eq),
        Kind::NotEqual => Some(Infix::NotEq),
        Kind::ArrowLeft => Some(Infix::LessThan),
        Kind::ArrowRight => Some(Infix::GreaterThan),
        _ => None,
    }
}

/// Bound used while reading an integer literal: one past the largest `i64`.
const BEYOND_I64: u128 = 9223372036854775808;

/// The 64-bit signed value of an integer literal, if it is one.
pub fn integer_value(s: &String) -> (r: Option<i64>)
    ensures
        r == int_value(s@),
{
    let cs = chars_of(s.as_str());
    if cs.len() == 0 {
        return None;
    }
    let mut acc: u128 = 0;
    let mut k: usize = 0;
    while k < cs.len()
        invariant
            k <= cs@.len(),
            cs@ == s@,
            forall|m: int| 0 <= m < k ==> '0' <= #[trigger] cs@[m] <= '9',
            acc as int == if digits_value(cs@.subrange(0, k as int)) < BEYOND_I64 {
                digits_value(cs@.subrange(0, k as int))
            } else {
                BEYOND_I64 as int
            },
        decreases cs@.len() - k,
    {
        let c = cs[k];
        if !('0' <= c && c <= '9') {
            assert(!all_digits(s@));
            return None;
        }
        let d = (c as u32 - '0' as u32) as u128;
        let ghost before = cs@.subrange(0, k as int);
        assert(cs@.subrange(0, k + 1).drop_last() =~= before);
        assert(digits_value(cs@.subrange(0, k + 1)) == digits_value(before) * 10 + d);
        assert(digits_value(before) >= 0) by {
            lemma_digits_value_nonneg(before);
        }
        let v = acc * 10 + d;
        acc = if v > BEYOND_I64 {
            BEYOND_I64
        } else {
            v
        };
        k = k + 1;
    }
    assert(cs@.subrange(0, k as int) =~= s@);
    if acc < BEYOND_I64 {
        Some(acc as i64)
    } else {
        None
    }
}

proof fn lemma_digits_value_nonneg(s: Seq<char>)
    requires
        all_digits(s),
    ensures
        digits_value(s) >= 0,
    decreases s.len(),
{
    if s.len() > 0 {
        assert(s.drop_last().len() < s.len());
        assert forall|k: int| 0 <= k < s.drop_last().len() implies '0' <= #[trigger] s.drop_last()[k] <= '9' by {
            assert(s.drop_last()[k] == s[k]);
        }
        lemma_digits_value_nonneg(s.drop_last());
        assert('0' <= s[s.len() - 1] <= '9');
    }
}

/// Whether a boolean literal reads `true`.
fn is_true(s: &String) -> (r: bool)
    ensures
        r == (s@ == seq!['t', 'r', 'u', 'e']),
{
    let cs = chars_of(s.as_str());
    assert(cs@.subrange(0, cs@.len() as int) =~= cs@);
    let word = vec!['t', 'r', 'u', 'e'];
    assert(word@ =~= seq!['t', 'r', 'u', 'e']);
    is_word(&cs, 0, cs.len(), &word)
}


fn scan_semicolon(t: &Vec<Token>, i: usize) -> (r: usize)
    requires
        i <= t@.len(),
    ensures
        r == scan_to_semicolon(views(t@), i as int),
        i <= r <= t@.len(),
{
    let mut j = i;
    while j < t.len() && kind(t, j) != Kind::Semicolon && kind(t, j) != Kind::Eof
        invariant
            i <= j <= t@.len(),
            scan_to_semicolon(views(t@), j as int) == scan_to_semicolon(views(t@), i as int),
        decreases t@.len() - j,
    {
        j = j + 1;
    }
    j
}

/// Where parsing resumes after a statement failed with the cursor at `i`.
fn recover_from(t: &Vec<Token>, i: usize) -> (r: usize)
    requires
        fits(t),
        i <= t@.len(),
    ensures
        r == recover(views(t@), i as int),
        i <= r <= t@.len(),
{
    let k = kind(t, i);
    if k == Kind::Semicolon || k == Kind::RightBrace || k == Kind::Eof {
        return i;
    }
    let mut depth: usize = if k == Kind::LeftBrace {
        1
    } else {
        0
    };
    let mut j = i + 1;
    let ghost d0 = depth as nat;
    while j < t.len() && kind(t, j) != Kind::Eof && !(depth == 0 && (kind(t, j) == Kind::Semicolon
        || kind(t, j) == Kind::RightBrace))
        invariant
            fits(t),
            i < j <= t@.len(),
            depth <= j - i,
            skip_to_boundary(views(t@), j as int, depth as nat) == skip_to_boundary(
                views(t@),
                i + 1,
                d0,
            ),
        decreases t@.len() - j,
    {
        let k = kind(t, j);
        if k == Kind::LeftBrace {
            depth = depth + 1;
        } else if k == Kind::RightBrace {
            depth = depth - 1;
        }
        j = j + 1;
    }
    j
}

/// The parameter list of a function literal, from its `(` at `i` to its `)`.
fn parse_parameters(t: &Vec<Token>, i: usize) -> (r: (Result<Vec<Node>, ParseError>, usize))
    requires
        fits(t),
        i < t@.len(),
    ensures
        ({
            let o = parameters(views(t@), i as int);
            &&& r.1 == o.1
            &&& i <= r.1 <= t@.len()
            &&& match (r.0, o.0) {
                (Ok(ps), Ok(qs)) => list_view(ps) == qs,
                (Err(e), Err(f)) => e == f,
                _ => false,
            }
        }),
{
    let mut params: Vec<Node> = Vec::new();
    assert(list_view(params) =~= seq![]);
    if kind(t, i + 1) == Kind::RightParen {
        return (Ok(params), i + 1);
    }
    let mut j = i;
    loop
        invariant
            fits(t),
            i <= j < t@.len(),
            parameters_from(views(t@), j as int, list_view(params)) == parameters(
                views(t@),
                i as int,
            ),
        decreases t@.len() - j,
    {
        if kind(t, j + 1) != Kind::Ident {
            return (Err(mismatch_at(t, j + 1, Kind::Ident)), j);
        }
        let ghost before = params;
        params.push(Node::Identifier { value: text(t, j + 1) });
        assert(list_view(params) =~= list_view(before).push(
            NodeV::Identifier(text_at(views(t@), j + 1)),
        ));
        let k = kind(t, j + 2);
        if k == Kind::Comma {
            j = j + 2;
        } else if k == Kind::RightParen {
            return (Ok(params), j + 2);
        } else {
            return (Err(mismatch_at(t, j + 2, Kind::RightParen)), j + 1);
        }
    }
}


/// A `let` statement, from `let` at `i`.
fn parse_let(t: &Vec<Token>, i: usize) -> (r: (Result<Node, ParseError>, usize))
    requires
        fits(t),
        i < t@.len(),
    ensures
        result_view(r.0) == let_statement(views(t@), i as int).0,
        r.1 == let_statement(views(t@), i as int).1,
        i <= r.1 <= t@.len(),
{
    if kind(t, i + 1) != Kind::Ident {
        return (Err(mismatch_at(t, i + 1, Kind::Ident)), i);
    }
    let name = text(t, i + 1);
    if kind(t, i + 2) != Kind::Assign {
        return (Err(mismatch_at(t, i + 2, Kind::Assign)), i + 1);
    }
    let end = scan_semicolon(t, i + 2);
    let placeholder = Node::Placeholder;
    assert(placeholder@ == NodeV::Placeholder);
    (Ok(Node::Let { name, value: Box::new(placeholder) }), end)
}

/// A `return` statement, from `return` at `i`.
fn parse_return(t: &Vec<Token>, i: usize) -> (r: (Result<Node, ParseError>, usize))
    requires
        fits(t),
        i <= t@.len(),
    ensures
        result_view(r.0) == return_statement(views(t@), i as int).0,
        r.1 == return_statement(views(t@), i as int).1,
        i <= r.1 <= t@.len(),
{
    let j = advance(t, i);
    let end = scan_semicolon(t, j);
    let placeholder = Node::Placeholder;
    assert(placeholder@ == NodeV::Placeholder);
    (Ok(Node::Return { value: Box::new(placeholder) }), end)
}

/// One statement at `i`.
fn parse_statement(t: &Vec<Token>, i: usize, log: &mut Vec<SyntaxError>) -> (r: (
    Result<Node, SyntaxError>,
    usize,
))
    requires
        fits(t),
        i <= t@.len(),
    ensures
        ({
            let o = statement(views(t@), i as int, old(log)@);
            &&& r.1 == o.1
            &&& final(log)@ == o.2
            &&& i <= r.1 <= t@.len()
            &&& match (r.0, o.0) {
                (Ok(n), Ok(m)) => n@ == m,
                (Err(e), Err(f)) => e == f,
                _ => false,
            }
        }),
    decreases t@.len() - i, 9int,
{
    let k = kind(t, i);
    if k == Kind::Let {
        let (r, j) = parse_let(t, i);
        match r {
            Ok(n) => (Ok(n), j),
            Err(e) => (Err(SyntaxError { context: Context::Let, error: e }), j),
        }
    } else if k == Kind::Return {
        let (r, j) = parse_return(t, i);
        match r {
            Ok(n) => (Ok(n), j),
            Err(e) => (Err(SyntaxError { context: Context::Return, error: e }), j),
        }
    } else {
        let (r, j) = parse_expression_statement(t, i, log);
        match r {
            Ok(n) => (Ok(n), j),
            Err(e) => (Err(SyntaxError { context: Context::Expression, error: e }), j),
        }
    }
}

/// An expression statement at `i`, with its `;` where one follows.
fn parse_expression_statement(t: &Vec<Token>, i: usize, log: &mut Vec<SyntaxError>) -> (r: (
    Result<Node, ParseError>,
    usize,
))
    requires
        fits(t),
        i <= t@.len(),
    ensures
        agrees(t, i as int, r, final(log)@, expression_statement(views(t@), i as int, old(log)@)),
    decreases t@.len() - i, 8int,
{
    let (r, j) = parse_expression(t, i, Precedence::Lowest, log);
    if r.is_ok() && kind(t, j + 1) == Kind::Semicolon {
        (r, j + 1)
    } else {
        (r, j)
    }
}

/// An expression at `i` whose operators all bind more tightly than `p`.
fn parse_expression(t: &Vec<Token>, i: usize, p: Precedence, log: &mut Vec<SyntaxError>) -> (r: (
    Result<Node, ParseError>,
    usize,
))
    requires
        fits(t),
        i <= t@.len(),
    ensures
        agrees(t, i as int, r, final(log)@, expression(views(t@), i as int, p, old(log)@)),
    decreases t@.len() - i, 7int,
{
    let (r, j0) = parse_prefix(t, i, log);
    let mut left = match r {
        Err(e) => {
            return (Err(e), j0);
        },
        Ok(n) => n,
    };
    let mut j = j0;
    loop
        invariant
            fits(t),
            i <= j <= t@.len(),
            climb(views(t@), j as int, p, left@, log@) == expression(
                views(t@),
                i as int,
                p,
                old(log)@,
            ),
        decreases t@.len() - j,
    {
        let k = kind(t, j + 1);
        if k == Kind::Semicolon || !p.is_below(&Precedence::from(k)) {
            return (Ok(left), j);
        }
        let (r, m) = parse_infix(t, j + 1, left, log);
        match r {
            Err(e) => {
                return (Err(e), m);
            },
            Ok(n) => {
                left = n;
                j = m;
            },
        }
    }
}

/// The expression that starts with the token at `i`.
fn parse_prefix(t: &Vec<Token>, i: usize, log: &mut Vec<SyntaxError>) -> (r: (
    Result<Node, ParseError>,
    usize,
))
    requires
        fits(t),
        i <= t@.len(),
    ensures
        agrees(t, i as int, r, final(log)@, prefix(views(t@), i as int, old(log)@)),
    decreases t@.len() - i, 6int,
{
    let k = kind(t, i);
    match k {
        Kind::Ident => (Ok(Node::Identifier { value: text(t, i) }), i),
        Kind::Int => match integer_value(&t[i].literal) {
            Some(v) => (Ok(Node::Int(v)), i),
            None => (Err(ParseError::InvalidInteger), i),
        },
        Kind::Bool => (Ok(Node::Boolean(is_true(&t[i].literal))), i),
        Kind::Bang | Kind::Minus => {
            let operator = if k == Kind::Bang {
                Prefix::Not
            } else {
                Prefix::Negative
            };
            let (r, j) = parse_expression(t, i + 1, Precedence::Prefix, log);
            match r {
                Ok(n) => (Ok(Node::Prefix { operator, value: Box::new(n) }), j),
                Err(e) => (Err(e), j),
            }
        },
        Kind::If => parse_if(t, i, log),
        Kind::Function => parse_function(t, i, log),
        Kind::Eof => (Err(ParseError::UnexpectedEnd), i),
        _ => (Err(ParseError::NoPrefixRule { kind: k }), i),
    }
}

/// `if (predicate) { .. }` with an optional `else { .. }`, from `if` at `i`.
fn parse_if(t: &Vec<Token>, i: usize, log: &mut Vec<SyntaxError>) -> (r: (
    Result<Node, ParseError>,
    usize,
))
    requires
        fits(t),
        i <= t@.len(),
    ensures
        agrees(t, i as int, r, final(log)@, if_expression(views(t@), i as int, old(log)@)),
    decreases t@.len() - i, 5int,
{
    if i >= t.len() || kind(t, i + 1) != Kind::LeftParen {
        return (Err(mismatch_at(t, i + 1, Kind::LeftParen)), i);
    }
    let (pr, j) = parse_expression(t, i + 2, Precedence::Lowest, log);
    let predicate = match pr {
        Err(e) => {
            return (Err(e), j);
        },
        Ok(n) => n,
    };
    if kind(t, j + 1) != Kind::RightParen {
        return (Err(mismatch_at(t, j + 1, Kind::RightParen)), j);
    }
    if kind(t, j + 2) != Kind::LeftBrace {
        return (Err(mismatch_at(t, j + 2, Kind::LeftBrace)), j + 1);
    }
    let (sr, k) = parse_block(t, j + 2, log);
    let success = match sr {
        Err(e) => {
            return (Err(e), k);
        },
        Ok(n) => n,
    };
    if kind(t, k + 1) != Kind::Else {
        return (
            Ok(Node::If { predicate: Box::new(predicate), success: Box::new(success), fail: None }),
            k,
        );
    }
    if kind(t, k + 2) != Kind::LeftBrace {
        return (Err(mismatch_at(t, k + 2, Kind::LeftBrace)), k + 1);
    }
    let (fr, m) = parse_block(t, k + 2, log);
    match fr {
        Err(e) => (Err(e), m),
        Ok(fail) => (
            Ok(
                Node::If {
                    predicate: Box::new(predicate),
                    success: Box::new(success),
                    fail: Some(Box::new(fail)),
                },
            ),
            m,
        ),
    }
}

/// `fn (parameters) { body }`, from `fn` at `i`.
fn parse_function(t: &Vec<Token>, i: usize, log: &mut Vec<SyntaxError>) -> (r: (
    Result<Node, ParseError>,
    usize,
))
    requires
        fits(t),
        i <= t@.len(),
    ensures
        agrees(t, i as int, r, final(log)@, function_literal(views(t@), i as int, old(log)@)),
    decreases t@.len() - i, 5int,
{
    if i >= t.len() || kind(t, i + 1) != Kind::LeftParen {
        return (Err(mismatch_at(t, i + 1, Kind::LeftParen)), i);
    }
    let (ps, j) = parse_parameters(t, i + 1);
    let parameters = match ps {
        Err(e) => {
            return (Err(e), j);
        },
        Ok(v) => v,
    };
    if kind(t, j + 1) != Kind::LeftBrace {
        return (Err(mismatch_at(t, j + 1, Kind::LeftBrace)), j);
    }
    let (br, k) = parse_block(t, j + 1, log);
    match br {
        Err(e) => (Err(e), k),
        Ok(body) => (Ok(Node::Function { parameters, body: Box::new(body) }), k),
    }
}

/// The operator at `i` applied to `left`.
fn parse_infix(t: &Vec<Token>, i: usize, left: Node, log: &mut Vec<SyntaxError>) -> (r: (
    Result<Node, ParseError>,
    usize,
))
    requires
        fits(t),
        i <= t@.len(),
    ensures
        agrees(t, i as int, r, final(log)@, infix(views(t@), i as int, left@, old(log)@)),
    decreases t@.len() - i, 4int,
{
    if i >= t.len() {
        return (Err(ParseError::UnexpectedEnd), i);
    }
    let k = kind(t, i);
    match infix_operator(k) {
        Some(operator) => {
            let (r, j) = parse_expression(t, i + 1, Precedence::from(k), log);
            match r {
                Ok(right) => (
                    Ok(Node::Infix { left: Box::new(left), operator, right: Box::new(right) }),
                    j,
                ),
                Err(e) => (Err(e), j),
            }
        },
        None => {
            if k == Kind::LeftParen {
                parse_call(t, i, left, log)
            } else {
                (Err(ParseError::NoInfixRule { kind: k }), i)
            }
        },
    }
}

/// A call of `function`, from its `(` at `i` to its `)`.
fn parse_call(t: &Vec<Token>, i: usize, function: Node, log: &mut Vec<SyntaxError>) -> (r: (
    Result<Node, ParseError>,
    usize,
))
    requires
        fits(t),
        i <= t@.len(),
    ensures
        agrees(t, i as int, r, final(log)@, call(views(t@), i as int, function@, old(log)@)),
    decreases t@.len() - i, 3int,
{
    if i >= t.len() {
        return (Err(ParseError::UnexpectedEnd), i);
    }
    let mut arguments: Vec<Node> = Vec::new();
    assert(list_view(arguments) =~= seq![]);
    if kind(t, i + 1) == Kind::RightParen {
        return (Ok(Node::Call { function: Box::new(function), arguments }), i + 1);
    }
    let mut j = i + 1;
    loop
        invariant
            fits(t),
            i < j <= t@.len(),
            arguments_from(views(t@), j as int, function@, list_view(arguments), log@) == call(
                views(t@),
                i as int,
                function@,
                old(log)@,
            ),
        decreases t@.len() - j,
    {
        let (r, k) = parse_expression(t, j, Precedence::Lowest, log);
        let a = match r {
            Err(e) => {
                return (Err(e), k);
            },
            Ok(n) => n,
        };
        let ghost before = arguments;
        let ghost av = a@;
        arguments.push(a);
        assert(list_view(arguments) =~= list_view(before).push(av));
        let next_kind = kind(t, k + 1);
        if next_kind == Kind::Comma {
            j = k + 2;
        } else if next_kind == Kind::RightParen {
            return (Ok(Node::Call { function: Box::new(function), arguments }), k + 1);
        } else {
            return (Err(mismatch_at(t, k + 1, Kind::RightParen)), k);
        }
    }
}

/// A block, from its `{` at `i` to its `}`. A statement in it that fails is
/// recorded in `log`, and the block goes on after that statement.
#[verifier::rlimit(40)]
fn parse_block(t: &Vec<Token>, i: usize, log: &mut Vec<SyntaxError>) -> (r: (
    Result<Node, ParseError>,
    usize,
))
    requires
        fits(t),
        i <= t@.len(),
    ensures
        agrees(t, i as int, r, final(log)@, block(views(t@), i as int, old(log)@)),
    decreases t@.len() - i, 2int,
{
    if i >= t.len() {
        return (Err(ParseError::UnexpectedEnd), i);
    }
    let mut statements: Vec<Node> = Vec::new();
    assert(list_view(statements) =~= seq![]);
    let mut j = i + 1;
    loop
        invariant
            fits(t),
            i < j <= t@.len(),
            block_from(views(t@), j as int, list_view(statements), log@) == block(
                views(t@),
                i as int,
                old(log)@,
            ),
        decreases t@.len() - j,
    {
        let k = kind(t, j);
        if k == Kind::RightBrace {
            return (Ok(Node::Block(statements)), j);
        }
        if k == Kind::Eof {
            return (Err(ParseError::UnexpectedEnd), j);
        }
        let ghost tv = views(t@);
        let ghost acc = list_view(statements);
        let ghost g = log@;
        let ghost j0 = j as int;
        let (r, m) = parse_statement(t, j, log);
        let ghost log2 = log@;
        match r {
            Ok(n) => {
                let ghost before = statements;
                let ghost nv = n@;
                statements.push(n);
                assert(list_view(statements) =~= list_view(before).push(nv));
                j = advance(t, m);
                assert(block_from(tv, j as int, list_view(statements), log2) == block_from(
                    tv,
                    j0,
                    acc,
                    g,
                ));
            },
            Err(e) => {
                log.push(e);
                let b = recover_from(t, m);
                let bk = kind(t, b);
                assert(log@ == log2.push(e));
                if bk == Kind::RightBrace {
                    assert(block_from(tv, j0, acc, g) == (
                        Ok::<NodeV, ParseError>(NodeV::Block(acc)),
                        b as int,
                        log@,
                    ));
                    return (Ok(Node::Block(statements)), b);
                }
                if bk == Kind::Eof {
                    return (Err(ParseError::UnexpectedEnd), b);
                }
                j = b + 1;
                assert(block_from(tv, j as int, acc, log@) == block_from(tv, j0, acc, g));
            },
        }
    }
}


/// Parses the tokens of one input into a program.
pub struct Parser {
    tokens: Vec<Token>,
}

impl Parser {
    /// The tokens to parse.
    pub closed spec fn tokens(&self) -> Seq<TokenV> {
        views(self.tokens@)
    }

    pub closed spec fn wf(&self) -> bool {
        fits(&self.tokens)
    }

    /// A parser over all the tokens that `lexer` has still to give.
    pub fn new(lexer: Lexer) -> (r: Parser)
        requires
            lexer.wf(),
        ensures
            r.wf(),
            r.tokens() == lexer.rest(),
    {
        let mut lexer = lexer;
        proof {
            lemma_tokens_from_len(lexer.text(), lexer.position());
        }
        let tokens = lexer.collect();
        Parser { tokens }
    }

    /// Parses every statement. The statements come back where none failed; else
    /// every failed statement gives one error, in source order, and parsing goes
    /// on after the `;` or `}` that ends it.
    pub fn parse(&self) -> (r: Result<Program, MultiError>)
        requires
            self.wf(),
        ensures
            match program(self.tokens()) {
                Ok(nodes) => r is Ok && list_view(r->Ok_0.statements) == nodes,
                Err(errors) => r is Err && r->Err_0@ == errors,
            },
    {
        let t = &self.tokens;
        let ghost tv = views(t@);
        let mut statements: Vec<Node> = Vec::new();
        let mut errors: Vec<SyntaxError> = Vec::new();
        assert(list_view(statements) =~= seq![]);
        let mut i: usize = 0;
        while i < t.len() && kind(t, i) != Kind::Eof
            invariant
                fits(t),
                tv == views(t@),
                i <= t@.len(),
                program_from(tv, i as int, list_view(statements), errors@) == program_from(
                    tv,
                    0,
                    seq![],
                    seq![],
                ),
            decreases t@.len() - i,
        {
            let ghost acc = list_view(statements);
            let ghost g = errors@;
            let ghost i0 = i as int;
            let (r, j) = parse_statement(t, i, &mut errors);
            match r {
                Ok(n) => {
                    let ghost before = statements;
                    let ghost nv = n@;
                    statements.push(n);
                    assert(list_view(statements) =~= list_view(before).push(nv));
                    i = advance(t, j);
                },
                Err(e) => {
                    errors.push(e);
                    let k = recover_from(t, j);
                    i = advance(t, k);
                },
            }
            assert(program_from(tv, i as int, list_view(statements), errors@) == program_from(
                tv,
                i0,
                acc,
                g,
            ));
        }
        assert(tv.len() == t@.len());
        assert(at_end(tv, i as int));
        assert(program_from(tv, i as int, list_view(statements), errors@) == (
            list_view(statements),
            errors@,
        ));
        if errors.len() == 0 {
            Ok(Program::new(statements))
        } else {
            Err(MultiError::from_vec(errors))
        }
    }
}

/// Tokenizes and parses one source text.
pub fn parse_program(input: &str) -> (r: Result<Program, MultiError>)
    requires
        input@.len() < usize::MAX - 3,
    ensures
        match program(lex(input@)) {
            Ok(nodes) => r is Ok && list_view(r->Ok_0.statements) == nodes,
            Err(errors) => r is Err && r->Err_0@ == errors,
        },
{
    let parser = Parser::new(Lexer::new(input));
    parser.parse()
}

} // verus!
