//! The syntax tree: nodes, operators and the precedence ranking.
use vstd::prelude::*;

use crate::token::Kind;

verus! {

/// A prefix operator.
#[derive(Clone, Copy, Debug, PartialEq, Eq, Structural)]
pub enum Prefix {
    Not,
    Negative,
}

/// An infix operator.
#[derive(Clone, Copy, Debug, PartialEq, Eq, Structural)]
pub enum Infix {
    Eq,
    NotEq,
    LessThan,
    GreaterThan,
    Add,
    Subtract,
    Divide,
    Multiply,
}

/// Binding strength of operators, from loosest to tightest.
#[derive(Clone, Copy, Debug, PartialEq, Eq, Structural, PartialOrd)]
pub enum Precedence {
    Lowest,
    Equals,
    LessGreater,
    Sum,
    Product,
    Prefix,
    Call,
}

/// The place of a precedence level in the ranking.
pub open spec fn rank(p: Precedence) -> nat {
    match p {
        Precedence::Lowest => 0,
        Precedence::Equals => 1,
        Precedence::LessGreater => 2,
        Precedence::Sum => 3,
        Precedence::Product => 4,
        Precedence::Prefix => 5,
        Precedence::Call => 6,
    }
}

/// The precedence of a token kind in operator position.
pub open spec fn precedence_of(k: Kind) -> Precedence {
    match k {
        Kind::Equal | Kind::NotEqual => Precedence::Equals,
        Kind::ArrowLeft | Kind::ArrowRight => Precedence::LessGreater,
        Kind::Plus | Kind::Minus => Precedence::Sum,
        Kind::Slash | Kind::Asterisk => Precedence::Product,
        Kind::LeftParen => Precedence::Call,
        _ => Precedence::Lowest,
    }
}

impl Precedence {
    /// The precedence of a token kind in operator position.
    pub fn from(token: Kind) -> (r: Precedence)
        ensures
            r == precedence_of(token),
    {
        match token {
            Kind::Equal | Kind::NotEqual => Precedence::Equals,
            Kind::ArrowLeft | Kind::ArrowRight => Precedence::LessGreater,
            Kind::Plus | Kind::Minus => Precedence::Sum,
            Kind::Slash | Kind::Asterisk => Precedence::Product,
            Kind::LeftParen => Precedence::Call,
            _ => Precedence::Lowest,
        }
    }

    /// Whether `self` binds strictly more loosely than `other`.
    pub fn is_below(&self, other: &Precedence) -> (r: bool)
        ensures
            r == (rank(*self) < rank(*other)),
    {
        self.level() < other.level()
    }

    fn level(&self) -> (r: u8)
        ensures
            r as nat == rank(*self),
    {
        match self {
            Precedence::Lowest => 0,
            Precedence::Equals => 1,
            Precedence::LessGreater => 2,
            Precedence::Sum => 3,
            Precedence::Product => 4,
            Precedence::Prefix => 5,
            Precedence::Call => 6,
        }
    }
}

/// A node of the syntax tree.
#[derive(Debug, PartialEq, Eq)]
#[allow(inconsistent_fields)]
pub enum Node {
    /// A value that is not parsed (the initializer of `let`, the operand of `return`).
    Placeholder,
    Int(i64),
    String(String),
    Boolean(bool),
    Identifier { value: String },
    Let { name: String, value: Box<Node> },
    Return { value: Box<Node> },
    If { predicate: Box<Node>, success: Box<Node>, fail: Option<Box<Node>> },
    Block(Vec<Node>),
    Prefix { operator: Prefix, value: Box<Node> },
    Infix { left: Box<Node>, operator: Infix, right: Box<Node> },
    Function { parameters: Vec<Node>, body: Box<Node> },
    /// `function` is an identifier or a function literal; `arguments` are expressions.
    Call { function: Box<Node>, arguments: Vec<Node> },
}

/// A node as a mathematical value.
pub enum NodeV {
    Placeholder,
    Int(i64),
    Str(Seq<char>),
    Boolean(bool),
    Identifier(Seq<char>),
    Let(Seq<char>, Box<NodeV>),
    Return(Box<NodeV>),
    If(Box<NodeV>, Box<NodeV>, Option<Box<NodeV>>),
    Block(Seq<NodeV>),
    Prefix(Prefix, Box<NodeV>),
    Infix(Box<NodeV>, Infix, Box<NodeV>),
    Function(Seq<NodeV>, Box<NodeV>),
    Call(Box<NodeV>, Seq<NodeV>),
}

/// The views of a list of nodes.
pub open spec fn list_view(v: Vec<Node>) -> Seq<NodeV>
    decreases v,
{
    Seq::new(
        v@.len(),
        |i: int|
            if 0 <= i < v@.len() {
                node_view(v[i])
            } else {
                NodeV::Placeholder
            },
    )
}

pub open spec fn node_view(n: Node) -> NodeV
    decreases n,
{
    match n {
        Node::Placeholder => NodeV::Placeholder,
        Node::Int(v) => NodeV::Int(v),
        Node::String(s) => NodeV::Str(s@),
        Node::Boolean(b) => NodeV::Boolean(b),
        Node::Identifier { value } => NodeV::Identifier(value@),
        Node::Let { name, value } => NodeV::Let(name@, Box::new(node_view(*value))),
        Node::Return { value } => NodeV::Return(Box::new(node_view(*value))),
        Node::If { predicate, success, fail } => NodeV::If(
            Box::new(node_view(*predicate)),
            Box::new(node_view(*success)),
            match fail {
                Some(f) => Some(Box::new(node_view(*f))),
                None => None,
            },
        ),
        Node::Block(list) => NodeV::Block(list_view(list)),
        Node::Prefix { operator, value } => NodeV::Prefix(operator, Box::new(node_view(*value))),
        Node::Infix { left, operator, right } => NodeV::Infix(
            Box::new(node_view(*left)),
            operator,
            Box::new(node_view(*right)),
        ),
        Node::Function { parameters, body } => NodeV::Function(
            list_view(parameters),
            Box::new(node_view(*body)),
        ),
        Node::Call { function, arguments } => NodeV::Call(
            Box::new(node_view(*function)),
            list_view(arguments),
        ),
    }
}

impl View for Node {
    type V = NodeV;

    open spec fn view(&self) -> NodeV {
        node_view(*self)
    }
}

/// A parsed program: its top-level statements, in source order.
#[derive(Debug)]
pub struct Program {
    pub statements: Vec<Node>,
}

impl Program {
    pub fn new(statements: Vec<Node>) -> (r: Program)
        ensures
            r.statements == statements,
    {
        Program { statements }
    }
}

} // verus!
