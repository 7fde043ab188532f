//! The flat instruction set the compiler emits and the machine executes.

use crate::hir::scope::Local;
use crate::util::uuid::Uuid;
use vstd::prelude::*;

verus! {

/// A jump target token, unique within one compiled program.
#[derive(Debug, Clone, Copy, PartialEq, Eq, Structural)]
pub struct Label(pub Uuid);

/// One element of the flat program.  Number constants carry their source
/// spelling; the host decodes them into machine numbers when loaded.
#[derive(Debug)]
pub enum Instruction {
    Nop,
    LdNull,
    LdTrue,
    LdFalse,
    LdStr(String),
    LdNum(String),
    LdLoc(Local),
    LdAddr(usize),
    LdImport(String),
    StLoc(Local),
    Label(Label),
    Jmp(Label),
    JmpEq(Label),
    JmpNEq(Label),
    JmpLt(Label),
    JmpGt(Label),
    JmpLtEq(Label),
    JmpGtEq(Label),
    Call(Label),
    CallF(String),
    Ret,
    Add,
    Sub,
    Mul,
    Div,
    Mod,
    Pow,
    Eq,
    NEq,
    Lt,
    Gt,
    LtEq,
    GtEq,
    BOr,
    BNot,
    BAnd,
    LShift,
    RShift,
}

impl Clone for Instruction {
    /// An equal copy of the instruction.
    fn clone(&self) -> (r: Self)
        ensures
            r == self,
    {
        match self {
            Instruction::Nop => Instruction::Nop,
            Instruction::LdNull => Instruction::LdNull,
            Instruction::LdTrue => Instruction::LdTrue,
            Instruction::LdFalse => Instruction::LdFalse,
            Instruction::LdStr(s) => Instruction::LdStr(s.clone()),
            Instruction::LdNum(s) => Instruction::LdNum(s.clone()),
            Instruction::LdLoc(l) => Instruction::LdLoc(*l),
            Instruction::LdAddr(a) => Instruction::LdAddr(*a),
            Instruction::LdImport(s) => Instruction::LdImport(s.clone()),
            Instruction::StLoc(l) => Instruction::StLoc(*l),
            Instruction::Label(l) => Instruction::Label(*l),
            Instruction::Jmp(l) => Instruction::Jmp(*l),
            Instruction::JmpEq(l) => Instruction::JmpEq(*l),
            Instruction::JmpNEq(l) => Instruction::JmpNEq(*l),
            Instruction::JmpLt(l) => Instruction::JmpLt(*l),
            Instruction::JmpGt(l) => Instruction::JmpGt(*l),
            Instruction::JmpLtEq(l) => Instruction::JmpLtEq(*l),
            Instruction::JmpGtEq(l) => Instruction::JmpGtEq(*l),
            Instruction::Call(l) => Instruction::Call(*l),
            Instruction::CallF(s) => Instruction::CallF(s.clone()),
            Instruction::Ret => Instruction::Ret,
            Instruction::Add => Instruction::Add,
            Instruction::Sub => Instruction::Sub,
            Instruction::Mul => Instruction::Mul,
            Instruction::Div => Instruction::Div,
            Instruction::Mod => Instruction::Mod,
            Instruction::Pow => Instruction::Pow,
            Instruction::Eq => Instruction::Eq,
            Instruction::NEq => Instruction::NEq,
            Instruction::Lt => Instruction::Lt,
            Instruction::Gt => Instruction::Gt,
            Instruction::LtEq => Instruction::LtEq,
            Instruction::GtEq => Instruction::GtEq,
            Instruction::BOr => Instruction::BOr,
            Instruction::BNot => Instruction::BNot,
            Instruction::BAnd => Instruction::BAnd,
            Instruction::LShift => Instruction::LShift,
            Instruction::RShift => Instruction::RShift,
        }
    }
}

} // verus!
