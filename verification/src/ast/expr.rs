//! The expression tree the compiler lowers.

use vstd::prelude::*;

verus! {

/// One node of the syntax tree.  Number literals keep their spelling; the
/// embedding host decodes them into machine numbers when they are loaded.
#[derive(Debug)]
pub enum Expr {
    Noop(Noop),
    // Literal
    String(StringLit),
    Number(NumberLit),
    // Stmt
    If(Box<If>),
    Call(Box<Call>),
    Assign(Box<Assign>),
    Define(Box<Define>),
    Function(Box<Function>),
    UnaryOp(Box<UnaryOp>),
    BinaryOp(Box<BinaryOp>),
    // Reference
    RefVar(RefVar),
    RefParam(RefParam),
    // Utility
    Compound(Box<Compound>),
}

#[derive(Debug, Clone)]
pub struct Noop;

#[derive(Debug, Clone)]
pub struct StringLit(pub String);

#[derive(Debug, Clone)]
pub struct NumberLit(pub String);

#[derive(Debug)]
pub struct If {
    pub condition: Expr,
    pub body: Expr,
    pub fallthrough: Option<Expr>,
}

#[derive(Debug)]
pub struct Call {
    pub name: String,
    pub args: Option<Expr>,
}

#[derive(Debug)]
pub struct Assign {
    pub ident: String,
    pub expr: Expr,
}

#[derive(Debug)]
pub struct Define {
    pub ident: String,
    pub expr: Expr,
}

#[derive(Debug)]
pub struct Function {
    pub name: String,
    pub params: Vec<String>,
    pub body: Expr,
}

#[derive(Debug)]
pub struct UnaryOp {
    pub op: UnaryOperator,
    pub expr: Expr,
}

#[derive(Debug)]
pub struct BinaryOp {
    pub lhs: Expr,
    pub op: BinaryOperator,
    pub rhs: Expr,
}

#[derive(Debug, Clone)]
pub struct RefVar(pub String);

#[derive(Debug, Clone)]
pub struct RefParam(pub String);

#[derive(Debug)]
pub struct Compound(pub Vec<Expr>);

#[derive(Debug, Clone, Copy, PartialEq, Eq, Structural)]
pub enum UnaryOperator {
    Neg,
    BNot,
    AddInc,
    SubInc,
}

#[derive(Debug, Clone, Copy, PartialEq, Eq, Structural)]
pub enum BinaryOperator {
    Add,
    Sub,
    Mul,
    Div,
    Mod,
    Pow,
    BOr,
    BAnd,
    LShift,
    RShift,
    Eq,
    NEq,
    Lt,
    LtEq,
    Gt,
    GtEq,
}

} // verus!
