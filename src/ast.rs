//! The syntax tree.

use vstd::prelude::*;

pub mod parser;

use crate::lexer::model::TokenKind;
use crate::lexer::Decimal;

verus! {

/// A node of the syntax tree.
#[derive(Debug, PartialEq)]
pub struct Expr {
    /// The expression definition
    pub def: AstNode,
}

impl Expr {
    pub fn new(def: AstNode) -> (r: Self)
        ensures
            r.def == def,
    {
        Self { def }
    }
}

#[derive(Debug, PartialEq)]
pub enum AstNode {
    Block(Vec<Expr>),
    /// The callee (a string constant) and the arguments, in the order written.
    FunctionCall(Box<Expr>, Vec<Expr>),
    Condition(Box<Condition>),
    IConstant(i64),
    FConstant(Decimal),
    SConstant(String),
    /// A named argument `name = value`: the name (a string constant) and the value.
    Override(Box<Expr>, Box<Expr>),
    LeOp,
    GeOp,
    EqOp,
    NeOp,
    AndOp,
    OrOp,
    True,
    False,
}

#[derive(Debug, PartialEq)]
pub struct Condition {
    pub lhs: AstNode,
    pub rhs: AstNode,
    pub op: AstNode,
}

impl Condition {
    /// The condition `lhs == true`.
    pub fn new_lhs(lhs: AstNode) -> (r: Self)
        ensures
            r.lhs == lhs,
            r.rhs == AstNode::True,
            r.op == AstNode::EqOp,
    {
        Self { lhs, rhs: AstNode::True, op: AstNode::EqOp }
    }
}

// ---------------------------------------------------------------------------
// The part of the tree that the parser builds, as plain values
/// An argument of a call: positional, or named (`name = value`). The value
/// is an integer or a float constant.
pub enum ArgModel {
    Positional(TokenKind),
    Named(Seq<char>, TokenKind),
}

/// A call statement: the callee's name and the arguments in source order.
pub struct CallModel {
    pub callee: Seq<char>,
    pub args: Seq<ArgModel>,
}

/// Whether node `n` is the constant `v` (an integer or a float).
pub open spec fn is_constant(n: AstNode, v: TokenKind) -> bool {
    match v {
        TokenKind::Int(x) => n matches AstNode::IConstant(y) && y == x,
        TokenKind::Float(w, f) => n matches AstNode::FConstant(d) && d.whole == w && d.fraction@
            == f,
        _ => false,
    }
}

/// Whether `e` is the string constant `s`.
pub open spec fn is_name(e: Expr, s: Seq<char>) -> bool {
    e.def matches AstNode::SConstant(t) && t@ == s
}

/// Whether `e` is the argument `a`.
pub open spec fn is_arg(e: Expr, a: ArgModel) -> bool {
    match a {
        ArgModel::Positional(v) => is_constant(e.def, v),
        ArgModel::Named(name, v) => e.def matches AstNode::Override(k, val) && is_name(*k, name)
            && is_constant(val.def, v),
    }
}

/// Whether `e` is a call of `c.callee` with the arguments `c.args`.
pub open spec fn is_call(e: Expr, c: CallModel) -> bool {
    e.def matches AstNode::FunctionCall(callee, args) && is_name(*callee, c.callee)
        && args@.len() == c.args.len() && forall|j: int|
        0 <= j < c.args.len() ==> is_arg(#[trigger] args@[j], c.args[j])
}

/// Whether `e` is a block of the calls `calls`, in order.
pub open spec fn is_block(e: Expr, calls: Seq<CallModel>) -> bool {
    e.def matches AstNode::Block(stmts) && stmts@.len() == calls.len() && forall|j: int|
        0 <= j < calls.len() ==> is_call(#[trigger] stmts@[j], calls[j])
}

} // verus!
