//! The tokenizer: turns a character sequence into tokens, one at a time.
use vstd::prelude::*;
use vstd::std_specs::iter::IteratorSpec;

use crate::token::{views, Kind, Token, TokenV};

verus! {

/// Whether a character has Unicode's `Alphabetic` property.
pub uninterp spec fn alphabetic(c: char) -> bool;

/// Whether a character is numeric in Unicode's sense.
pub uninterp spec fn numeric(c: char) -> bool;

/// Whether a character has Unicode's `White_Space` property: tab through
/// carriage return, space, next line, no-break space, ogham space mark, the
/// spaces from en quad to hair space, the line and paragraph separators, narrow
/// no-break space, medium mathematical space and ideographic space.
pub open spec fn whitespace(c: char) -> bool {
    ('\u{9}' <= c <= '\u{d}') || c == ' ' || c == '\u{85}' || c == '\u{a0}' || c == '\u{1680}'
        || ('\u{2000}' <= c <= '\u{200a}') || c == '\u{2028}' || c == '\u{2029}' || c
        == '\u{202f}' || c == '\u{205f}' || c == '\u{3000}'
}

/// Relies on char::is_alphabetic, a function of the character alone.
#[verifier::external_body]
fn is_alphabetic(c: char) -> (r: bool)
    ensures
        r == alphabetic(c),
{
    c.is_alphabetic()
}

/// Relies on char::is_numeric, a function of the character alone.
#[verifier::external_body]
fn is_numeric(c: char) -> (r: bool)
    ensures
        r == numeric(c),
{
    c.is_numeric()
}

fn is_whitespace(c: char) -> (r: bool)
    ensures
        r == whitespace(c),
{
    ('\u{9}' <= c && c <= '\u{d}') || c == ' ' || c == '\u{85}' || c == '\u{a0}' || c
        == '\u{1680}' || ('\u{2000}' <= c && c <= '\u{200a}') || c == '\u{2028}' || c
        == '\u{2029}' || c == '\u{202f}' || c == '\u{205f}' || c == '\u{3000}'
}

/// Whether `c` is alphabetic (`alpha`) or numeric (not `alpha`).
fn in_class(c: char, alpha: bool) -> (r: bool)
    ensures
        r == if alpha { alphabetic(c) } else { numeric(c) },
{
    if alpha {
        is_alphabetic(c)
    } else {
        is_numeric(c)
    }
}

/// The characters of the string, in order.
pub(crate) fn chars_of(s: &str) -> (r: Vec<char>)
    ensures
        r@ == s@,
{
    broadcast use vstd::string::axiom_spec_iter, vstd::string::next_postcondition;

    let mut it = s.chars();
    let mut out: Vec<char> = Vec::new();
    loop
        invariant
            it.obeys_prophetic_iter_laws(),
            it.decrease() is Some,
            out@ + it.remaining() == s@,
        decreases it.decrease()->0,
    {
        let ghost before = it.remaining();
        match it.next() {
            Some(c) => {
                out.push(c);
                assert(out@ + it.remaining() =~= s@) by {
                    assert(before =~= seq![c] + it.remaining());
                }
            },
            None => {
                assert(out@ =~= s@);
                return out;
            },
        }
    }
}

/// Relies on String's FromIterator over characters: the string of `cs[from..to]`.
#[verifier::external_body]
pub(crate) fn string_of(cs: &Vec<char>, from: usize, to: usize) -> (r: String)
    requires
        from <= to <= cs@.len(),
    ensures
        r@ == cs@.subrange(from as int, to as int),
{
    String::from_iter(&cs[from..to])
}

/// The first position at or after `i` that holds no whitespace.
pub open spec fn skip_space(cs: Seq<char>, i: int) -> int
    decreases cs.len() - i,
{
    if 0 <= i < cs.len() && whitespace(cs[i]) {
        skip_space(cs, i + 1)
    } else {
        i
    }
}

/// The end of the run that starts at `i` of characters in the class (alphabetic or numeric).
pub open spec fn run_end(cs: Seq<char>, i: int, alpha: bool) -> int
    decreases cs.len() - i,
{
    if 0 <= i < cs.len() && (if alpha { alphabetic(cs[i]) } else { numeric(cs[i]) }) {
        run_end(cs, i + 1, alpha)
    } else {
        i
    }
}

/// The kind of a word: a keyword's own kind, else an identifier.
pub open spec fn word_kind(w: Seq<char>) -> Kind {
    if w == seq!['f', 'n'] {
        Kind::Function
    } else if w == seq!['l', 'e', 't'] {
        Kind::Let
    } else if w == seq!['r', 'e', 't', 'u', 'r', 'n'] {
        Kind::Return
    } else if w == seq!['i', 'f'] {
        Kind::If
    } else if w == seq!['e', 'l', 's', 'e'] {
        Kind::Else
    } else if w == seq!['t', 'r', 'u', 'e'] || w == seq!['f', 'a', 'l', 's', 'e'] {
        Kind::Bool
    } else {
        Kind::Ident
    }
}

/// The kind of a token made of the single character `c`, where `c` is a symbol
/// that stands for itself.
pub open spec fn symbol_kind(c: char) -> Option<Kind> {
    match c {
        '+' => Some(Kind::Plus),
        '(' => Some(Kind::LeftParen),
        ')' => Some(Kind::RightParen),
        '{' => Some(Kind::LeftBrace),
        '}' => Some(Kind::RightBrace),
        ',' => Some(Kind::Comma),
        ';' => Some(Kind::Semicolon),
        '-' => Some(Kind::Minus),
        '/' => Some(Kind::Slash),
        '<' => Some(Kind::ArrowLeft),
        '>' => Some(Kind::ArrowRight),
        '*' => Some(Kind::Asterisk),
        _ => None,
    }
}

/// The token that starts at the first non-blank position at or after `i`, and the
/// position just past it; `None` where only whitespace is left.
pub open spec fn token_at(cs: Seq<char>, i: int) -> Option<(TokenV, int)> {
    let j = skip_space(cs, i);
    if !(0 <= j < cs.len()) {
        None
    } else {
        let c = cs[j];
        let two = j + 1 < cs.len() && cs[j + 1] == '=';
        if symbol_kind(c) is Some {
            Some(((symbol_kind(c)->0, seq![c]), j + 1))
        } else if c == '=' {
            if two {
                Some(((Kind::Equal, seq!['=', '=']), j + 2))
            } else {
                Some(((Kind::Assign, seq!['=']), j + 1))
            }
        } else if c == '!' {
            if two {
                Some(((Kind::NotEqual, seq!['!', '=']), j + 2))
            } else {
                Some(((Kind::Bang, seq!['!']), j + 1))
            }
        } else if alphabetic(c) {
            let e = run_end(cs, j + 1, true);
            Some(((word_kind(cs.subrange(j, e)), cs.subrange(j, e)), e))
        } else if numeric(c) {
            let e = run_end(cs, j + 1, false);
            Some(((Kind::Int, cs.subrange(j, e)), e))
        } else {
            Some(((Kind::Illegal, seq![c]), j + 1))
        }
    }
}

/// All tokens of `cs` from position `i` on.
pub open spec fn tokens_from(cs: Seq<char>, i: int) -> Seq<TokenV>
    decreases cs.len() - i,
{
    match token_at(cs, i) {
        None => seq![],
        Some((t, j)) => if i < j <= cs.len() {
            seq![t] + tokens_from(cs, j)
        } else {
            seq![]
        },
    }
}

/// The tokens of a whole source text.
pub open spec fn lex(cs: Seq<char>) -> Seq<TokenV> {
    tokens_from(cs, 0)
}


/// Whether `cs[from..to]` is the word `w`.
pub(crate) fn is_word(cs: &Vec<char>, from: usize, to: usize, w: &Vec<char>) -> (r: bool)
    requires
        from <= to <= cs@.len(),
    ensures
        r == (cs@.subrange(from as int, to as int) == w@),
{
    if to - from != w.len() {
        return false;
    }
    let mut k: usize = 0;
    while k < w.len()
        invariant
            0 <= k <= w@.len(),
            to - from == w@.len(),
            from <= to <= cs@.len(),
            forall|m: int| 0 <= m < k ==> cs@[from + m] == w@[m],
        decreases w@.len() - k,
    {
        if cs[from + k] != w[k] {
            assert(cs@.subrange(from as int, to as int)[k as int] != w@[k as int]);
            return false;
        }
        k = k + 1;
    }
    assert(cs@.subrange(from as int, to as int) =~= w@);
    true
}

/// The kind of the word `cs[from..to]`.
fn word_kind_of(cs: &Vec<char>, from: usize, to: usize) -> (r: Kind)
    requires
        from <= to <= cs@.len(),
    ensures
        r == word_kind(cs@.subrange(from as int, to as int)),
{
    if is_word(cs, from, to, &vec!['f', 'n']) {
        Kind::Function
    } else if is_word(cs, from, to, &vec!['l', 'e', 't']) {
        Kind::Let
    } else if is_word(cs, from, to, &vec!['r', 'e', 't', 'u', 'r', 'n']) {
        Kind::Return
    } else if is_word(cs, from, to, &vec!['i', 'f']) {
        Kind::If
    } else if is_word(cs, from, to, &vec!['e', 'l', 's', 'e']) {
        Kind::Else
    } else if is_word(cs, from, to, &vec!['t', 'r', 'u', 'e']) || is_word(
        cs,
        from,
        to,
        &vec!['f', 'a', 'l', 's', 'e'],
    ) {
        Kind::Bool
    } else {
        Kind::Ident
    }
}

fn symbol_kind_of(c: char) -> (r: Option<Kind>)
    ensures
        r == symbol_kind(c),
{
    match c {
        '+' => Some(Kind::Plus),
        '(' => Some(Kind::LeftParen),
        ')' => Some(Kind::RightParen),
        '{' => Some(Kind::LeftBrace),
        '}' => Some(Kind::RightBrace),
        ',' => Some(Kind::Comma),
        ';' => Some(Kind::Semicolon),
        '-' => Some(Kind::Minus),
        '/' => Some(Kind::Slash),
        '<' => Some(Kind::ArrowLeft),
        '>' => Some(Kind::ArrowRight),
        '*' => Some(Kind::Asterisk),
        _ => None,
    }
}

/// Each token takes at least one character.
pub proof fn lemma_tokens_from_len(cs: Seq<char>, i: int)
    requires
        0 <= i <= cs.len(),
    ensures
        tokens_from(cs, i).len() <= cs.len() - i,
    decreases cs.len() - i,
{
    if let Some((t, j)) = token_at(cs, i) {
        if i < j <= cs.len() {
            lemma_tokens_from_len(cs, j);
        }
    }
}

/// A single-pass tokenizer over a character sequence.
pub struct Lexer {
    chars: Vec<char>,
    pos: usize,
}

impl Lexer {
    /// The characters being read.
    pub closed spec fn text(&self) -> Seq<char> {
        self.chars@
    }

    /// The position of the next character to read.
    pub closed spec fn position(&self) -> int {
        self.pos as int
    }

    pub open spec fn wf(&self) -> bool {
        0 <= self.position() <= self.text().len() < usize::MAX - 3
    }

    /// The tokens that are still to come.
    pub open spec fn rest(&self) -> Seq<TokenV> {
        tokens_from(self.text(), self.position())
    }

    pub fn new(input: &str) -> (r: Lexer)
        requires
            input@.len() < usize::MAX - 3,
        ensures
            r.wf(),
            r.text() == input@,
            r.position() == 0,
            r.rest() == lex(input@),
    {
        Lexer { chars: chars_of(input), pos: 0 }
    }

    /// Reads the next token; `None` once only whitespace is left.
    pub fn next_token(&mut self) -> (r: Option<Token>)
        requires
            old(self).wf(),
        ensures
            final(self).wf(),
            final(self).text() == old(self).text(),
            match token_at(old(self).text(), old(self).position()) {
                None => r is None,
                Some((t, j)) => r is Some && r->0@ == t && final(self).position() == j,
            },
            r is Some ==> final(self).position() > old(self).position(),
            r is None ==> final(self).rest() == Seq::<TokenV>::empty(),
    {
        self.skip_space();
        let start = self.pos;
        if start >= self.chars.len() {
            assert(skip_space(self.chars@, start as int) == start as int);
            assert(tokens_from(self.chars@, start as int) =~= Seq::<TokenV>::empty());
            return None;
        }
        let ghost cs = self.chars@;
        let c = self.chars[start];
        let two = start + 1 < self.chars.len() && self.chars[start + 1] == '=';
        if let Some(kind) = symbol_kind_of(c) {
            self.pos = start + 1;
            assert(cs.subrange(start as int, start + 1) =~= seq![c]);
            return Some(Token { kind, literal: string_of(&self.chars, start, start + 1) });
        }
        if c == '=' || c == '!' {
            let kind = if c == '=' {
                if two {
                    Kind::Equal
                } else {
                    Kind::Assign
                }
            } else {
                if two {
                    Kind::NotEqual
                } else {
                    Kind::Bang
                }
            };
            let end = if two {
                start + 2
            } else {
                start + 1
            };
            self.pos = end;
            assert(cs.subrange(start as int, start + 1) =~= seq![c]);
            assert(two ==> cs.subrange(start as int, start + 2) =~= seq![c, '=']);
            return Some(Token { kind, literal: string_of(&self.chars, start, end) });
        }
        if is_alphabetic(c) {
            self.pos = start + 1;
            self.skip_run(true);
            let kind = word_kind_of(&self.chars, start, self.pos);
            return Some(Token { kind, literal: string_of(&self.chars, start, self.pos) });
        }
        if is_numeric(c) {
            self.pos = start + 1;
            self.skip_run(false);
            return Some(Token { kind: Kind::Int, literal: string_of(&self.chars, start, self.pos) });
        }
        self.pos = start + 1;
        assert(cs.subrange(start as int, start + 1) =~= seq![c]);
        Some(Token { kind: Kind::Illegal, literal: string_of(&self.chars, start, start + 1) })
    }

    /// Reads all the tokens that are left, in order.
    pub fn collect(&mut self) -> (r: Vec<Token>)
        requires
            old(self).wf(),
        ensures
            views(r@) == old(self).rest(),
            final(self).wf(),
            final(self).text() == old(self).text(),
            final(self).rest() == Seq::<TokenV>::empty(),
    {
        let mut out: Vec<Token> = Vec::new();
        loop
            invariant
                self.wf(),
                self.text() == old(self).text(),
                views(out@) + self.rest() == old(self).rest(),
            decreases self.text().len() - self.position(),
        {
            let ghost before = self.position();
            let ghost done = out@;
            match self.next_token() {
                None => {
                    assert(tokens_from(self.text(), before) =~= Seq::<TokenV>::empty());
                    assert(views(out@) =~= views(out@) + tokens_from(self.text(), before));
                    return out;
                },
                Some(t) => {
                    assert(tokens_from(self.text(), before) == seq![t@] + self.rest());
                    out.push(t);
                    assert(views(out@) =~= views(done).push(t@));
                    assert(views(out@) + self.rest() =~= views(done) + (seq![t@] + self.rest()));
                },
            }
        }
    }

    fn skip_space(&mut self)
        requires
            old(self).wf(),
        ensures
            final(self).wf(),
            final(self).chars == old(self).chars,
            final(self).pos == skip_space(old(self).chars@, old(self).pos as int),
            final(self).pos >= old(self).pos,
    {
        while self.pos < self.chars.len() && is_whitespace(self.chars[self.pos])
            invariant
                self.wf(),
                self.chars == old(self).chars,
                self.pos >= old(self).pos,
                skip_space(self.chars@, self.pos as int) == skip_space(
                    old(self).chars@,
                    old(self).pos as int,
                ),
            decreases self.chars@.len() - self.pos,
        {
            self.pos = self.pos + 1;
        }
    }

    /// Moves past the run of characters of one class that starts at the current position.
    fn skip_run(&mut self, alpha: bool)
        requires
            old(self).wf(),
        ensures
            final(self).wf(),
            final(self).chars == old(self).chars,
            final(self).pos == run_end(old(self).chars@, old(self).pos as int, alpha),
            final(self).pos >= old(self).pos,
    {
        while self.pos < self.chars.len() && in_class(self.chars[self.pos], alpha)
            invariant
                self.wf(),
                self.chars == old(self).chars,
                self.pos >= old(self).pos,
                run_end(self.chars@, self.pos as int, alpha) == run_end(
                    old(self).chars@,
                    old(self).pos as int,
                    alpha,
                ),
            decreases self.chars@.len() - self.pos,
        {
            self.pos = self.pos + 1;
        }
    }
}


/// The tokens of a whole source text.
pub fn tokenize(input: &str) -> (r: Vec<Token>)
    requires
        input@.len() < usize::MAX - 3,
    ensures
        views(r@) == lex(input@),
{
    let mut lexer = Lexer::new(input);
    lexer.collect()
}

} // verus!
