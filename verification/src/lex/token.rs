//! The tokens the lexer produces.

use crate::types::Span;
use vstd::prelude::*;

verus! {

/// What kind of token was read, with the token's text where it matters.
/// A number keeps its spelling; turning it into a machine number is the
/// host's business.
#[derive(Debug, Clone)]
pub enum TokenKind {
    LParen,
    RParen,
    String(String),
    Number(String),
    Var(String),
    Ident(String),
    // Arithmetic
    Add,
    Sub,
    Div,
    Mul,
    Pow,
    Mod,
    // Compound arithmetic
    AddInc,
    SubInc,
    // Binary
    BOr,
    BNot,
    BAnd,
    BLShift,
    BRShift,
    // Logical
    Lt,
    LtEq,
    Gt,
    GtEq,
}

impl TokenKind {
    /// Attach a span to the kind, making a token.
    pub fn into_token<'buf>(self, span: Span<'buf>) -> (r: Token<'buf>)
        ensures
            r.0 == span,
            r.1 == self,
    {
        Token(span, self)
    }
}

/// A token: where it stands in the buffer, and what it is.
#[derive(Debug, Clone)]
pub struct Token<'buf>(pub Span<'buf>, pub TokenKind);

} // verus!
