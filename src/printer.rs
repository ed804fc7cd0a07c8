//! Canonical rendering of a syntax tree: every prefix and infix expression fully
//! parenthesized, so that precedence and associativity can be read off the text.
use vstd::prelude::*;

use crate::ast::{list_view, Infix, Node, NodeV, Prefix, Program};
use crate::lexer::string_of;

verus! {

pub open spec fn prefix_text(op: Prefix) -> Seq<char> {
    match op {
        Prefix::Not => seq!['!'],
        Prefix::Negative => seq!['-'],
    }
}

pub open spec fn infix_text(op: Infix) -> Seq<char> {
    match op {
        Infix::Add => seq!['+'],
        Infix::Subtract => seq!['-'],
        Infix::Multiply => seq!['*'],
        Infix::Divide => seq!['/'],
        Infix::Eq => seq!['=', '='],
        Infix::NotEq => seq!['!', '='],
        Infix::LessThan => seq!['<'],
        Infix::GreaterThan => seq!['>'],
    }
}

/// The decimal digit of `d`, for `d` below ten.
pub open spec fn digit(d: nat) -> char {
    ((d + '0' as nat) as u8) as char
}

/// The decimal digits of `m`, without leading zeros.
pub open spec fn digits(m: nat) -> Seq<char>
    decreases m,
{
    if m < 10 {
        seq![digit(m)]
    } else {
        digits(m / 10).push(digit(m % 10))
    }
}

/// The decimal text of an integer.
pub open spec fn decimal(n: int) -> Seq<char> {
    if n < 0 {
        seq!['-'] + digits((-n) as nat)
    } else {
        digits(n as nat)
    }
}

/// The renderings of `s`, with `sep` between two neighbours.
pub open spec fn render_list(s: Seq<NodeV>, sep: Seq<char>) -> Seq<char>
    decreases s,
{
    if s.len() == 0 {
        seq![]
    } else if s.len() == 1 {
        render(s[0])
    } else {
        render_list(s.drop_last(), sep) + sep + render(s.last())
    }
}

/// The canonical text of a node.
pub open spec fn render(n: NodeV) -> Seq<char>
    decreases n,
{
    match n {
        NodeV::Prefix(op, v) => seq!['('] + prefix_text(op) + render(*v) + seq![')'],
        NodeV::Infix(l, op, r) => seq!['('] + render(*l) + seq![' '] + infix_text(op) + seq![' ']
            + render(*r) + seq![')'],
        NodeV::Int(v) => decimal(v as int),
        NodeV::Str(s) => s,
        NodeV::Boolean(b) => if b {
            seq!['t', 'r', 'u', 'e']
        } else {
            seq!['f', 'a', 'l', 's', 'e']
        },
        NodeV::Identifier(s) => s,
        NodeV::If(p, s, f) => match f {
            None => seq!['i', 'f', ' '] + render(*p) + seq![' ', '{', ' '] + render(*s) + seq![
                ' ',
                '}',
            ],
            Some(f) => seq!['i', 'f', ' '] + render(*p) + seq![' ', '{', ' '] + render(*s) + seq![
                ' ',
                '}',
                ' ',
                'e',
                'l',
                's',
                'e',
                ' ',
                '{',
                ' ',
            ] + render(*f) + seq![' ', '}'],
        },
        NodeV::Block(list) => render_list(list, seq![]),
        NodeV::Function(params, body) => seq!['('] + render_list(params, seq![',', ' ']) + seq![
            ')',
        ] + render(*body),
        NodeV::Call(f, args) => render(*f) + seq!['('] + render_list(args, seq![',', ' ']) + seq![
            ')',
        ],
        NodeV::Let(name, v) => seq!['l', 'e', 't', ' '] + name + seq![' ', '=', ' '] + render(*v)
            + seq![';'],
        _ => seq!['n', 'a'],
    }
}


/// The canonical text of a program: its statements' texts, one after another.
pub open spec fn render_program(statements: Seq<NodeV>) -> Seq<char> {
    render_list(statements, seq![])
}

fn push_chars(out: &mut String, cs: Vec<char>)
    ensures
        final(out)@ == old(out)@ + cs@,
{
    let s = string_of(&cs, 0, cs.len());
    assert(cs@.subrange(0, cs@.len() as int) =~= cs@);
    out.append(s.as_str());
}

fn push_char(out: &mut String, c: char)
    ensures
        final(out)@ == old(out)@.push(c),
{
    let cs = vec![c];
    assert(cs@ =~= seq![c]);
    push_chars(out, cs);
    assert(old(out)@ + seq![c] =~= old(out)@.push(c));
}

fn write_digits(m: u64, out: &mut String)
    ensures
        final(out)@ == old(out)@ + digits(m as nat),
    decreases m,
{
    if m >= 10 {
        write_digits(m / 10, out);
    }
    let d = (m % 10) as u8;
    push_char(out, (d + 48) as char);
    assert(out@ =~= old(out)@ + digits(m as nat));
}

fn write_int(v: i64, out: &mut String)
    ensures
        final(out)@ == old(out)@ + decimal(v as int),
{
    if v < 0 {
        push_char(out, '-');
        let m = (0 - (v as i128)) as u64;
        write_digits(m, out);
        assert(out@ =~= old(out)@ + decimal(v as int));
    } else {
        write_digits(v as u64, out);
    }
}

fn write_list(list: &Vec<Node>, sep: &Vec<char>, out: &mut String)
    ensures
        final(out)@ == old(out)@ + render_list(list_view(*list), sep@),
    decreases list,
{
    let ghost s = list_view(*list);
    let mut k: usize = 0;
    assert(s.subrange(0, 0) =~= seq![]);
    while k < list.len()
        invariant
            k <= list@.len(),
            s == list_view(*list),
            out@ == old(out)@ + render_list(s.subrange(0, k as int), sep@),
        decreases list@.len() - k,
    {
        let ghost before = out@;
        if k > 0 {
            push_chars(out, sep.clone());
        }
        write_node(&list[k], out);
        let ghost sub = s.subrange(0, k + 1);
        assert(sub.drop_last() =~= s.subrange(0, k as int));
        assert(sub.last() == list@[k as int]@);
        assert(out@ =~= old(out)@ + render_list(sub, sep@));
        k = k + 1;
    }
    assert(s.subrange(0, k as int) =~= s);
}

fn write_node(n: &Node, out: &mut String)
    ensures
        final(out)@ == old(out)@ + render(n@),
    decreases n,
{
    let ghost start = out@;
    match n {
        Node::Prefix { operator, value } => {
            push_char(out, '(');
            match operator {
                Prefix::Not => push_char(out, '!'),
                Prefix::Negative => push_char(out, '-'),
            }
            write_node(value, out);
            push_char(out, ')');
        },
        Node::Infix { left, operator, right } => {
            push_char(out, '(');
            write_node(left, out);
            push_char(out, ' ');
            match operator {
                Infix::Add => push_char(out, '+'),
                Infix::Subtract => push_char(out, '-'),
                Infix::Multiply => push_char(out, '*'),
                Infix::Divide => push_char(out, '/'),
                Infix::Eq => push_chars(out, vec!['=', '=']),
                Infix::NotEq => push_chars(out, vec!['!', '=']),
                Infix::LessThan => push_char(out, '<'),
                Infix::GreaterThan => push_char(out, '>'),
            }
            push_char(out, ' ');
            write_node(right, out);
            push_char(out, ')');
        },
        Node::Int(v) => write_int(*v, out),
        Node::String(s) => out.append(s.as_str()),
        Node::Boolean(b) => {
            if *b {
                push_chars(out, vec!['t', 'r', 'u', 'e']);
            } else {
                push_chars(out, vec!['f', 'a', 'l', 's', 'e']);
            }
        },
        Node::Identifier { value } => out.append(value.as_str()),
        Node::If { predicate, success, fail } => {
            push_chars(out, vec!['i', 'f', ' ']);
            write_node(predicate, out);
            push_chars(out, vec![' ', '{', ' ']);
            write_node(success, out);
            push_chars(out, vec![' ', '}']);
            match fail {
                None => {},
                Some(f) => {
                    push_chars(out, vec![' ', 'e', 'l', 's', 'e', ' ', '{', ' ']);
                    write_node(f, out);
                    push_chars(out, vec![' ', '}']);
                },
            }
        },
        Node::Block(list) => write_list(list, &Vec::new(), out),
        Node::Function { parameters, body } => {
            push_char(out, '(');
            write_list(parameters, &vec![',', ' '], out);
            push_char(out, ')');
            write_node(body, out);
        },
        Node::Call { function, arguments } => {
            write_node(function, out);
            push_char(out, '(');
            write_list(arguments, &vec![',', ' '], out);
            push_char(out, ')');
        },
        Node::Let { name, value } => {
            push_chars(out, vec!['l', 'e', 't', ' ']);
            out.append(name.as_str());
            push_chars(out, vec![' ', '=', ' ']);
            write_node(value, out);
            push_char(out, ';');
        },
        _ => push_chars(out, vec!['n', 'a']),
    }
    assert(out@ =~= start + render(n@));
}

impl Node {
    /// The canonical, fully parenthesized text of this node.
    pub fn to_string(&self) -> (r: String)
        ensures
            r@ == render(self@),
    {
        let mut out = String::new();
        write_node(self, &mut out);
        assert(out@ =~= render(self@));
        out
    }
}

impl Program {
    /// The canonical text of the program: its statements' texts, one after another.
    pub fn to_string(&self) -> (r: String)
        ensures
            r@ == render_program(list_view(self.statements)),
    {
        let mut out = String::new();
        write_list(&self.statements, &Vec::new(), &mut out);
        assert(out@ =~= render_program(list_view(self.statements)));
        out
    }
}

} // verus!
