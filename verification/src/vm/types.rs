//! Runtime values and the machine's step outcomes.

use crate::ir::instr::Label;
use vstd::prelude::*;

verus! {

/// A runtime value.  Numbers are carried as the 64 bits of their machine
/// representation; the host computes on them.  Strings are handles into the
/// machine's shared arena, so copies of one handle alias one buffer.
/// Built-in handles name a host function and are never equal to anything.
/// (The derived equality below compares representations, for tests and
/// hosts; the machine's own notion of value equality is `values_equal`.)
#[derive(Debug, PartialEq)]
pub enum Value {
    Null,
    Addr(usize),
    Bool(bool),
    Number(u64),
    Str(usize),
    BuiltIn(String),
}

impl Clone for Value {
    /// A copy of the value: a string copy aliases the same buffer.
    fn clone(&self) -> (r: Self)
        ensures
            r == self,
    {
        match self {
            Value::Null => Value::Null,
            Value::Addr(a) => Value::Addr(*a),
            Value::Bool(b) => Value::Bool(*b),
            Value::Number(n) => Value::Number(*n),
            Value::Str(i) => Value::Str(*i),
            Value::BuiltIn(n) => Value::BuiltIn(n.clone()),
        }
    }
}

/// What executing one instruction decides: fall through, jump to a label,
/// or jump to an absolute offset.
#[derive(Debug, Clone, Copy, PartialEq, Eq, Structural)]
pub enum Step {
    Next,
    Jmp(Label),
    JmpAddr(usize),
}

/// The arithmetic the host is asked to perform on two numbers.
#[derive(Debug, Clone, Copy, PartialEq, Eq, Structural)]
pub enum ArithOp {
    Add,
    Sub,
    Mul,
    Div,
    Mod,
    Pow,
}

/// The comparison the host is asked to decide on two numbers.
#[derive(Debug, Clone, Copy, PartialEq, Eq, Structural)]
pub enum CmpKind {
    Eq,
    NEq,
    Lt,
    Gt,
    LtEq,
    GtEq,
}

/// The bitwise operation finished by the machine once the host has
/// truncated the operands.
#[derive(Debug, Clone, Copy, PartialEq, Eq, Structural)]
pub enum BitOp {
    Or,
    And,
    Shl,
    Shr,
}

/// What the machine asks of its host.  Number arithmetic, comparison,
/// decoding and truncation are functions of machine numbers, which the
/// library does not compute on; the host answers each request and resumes
/// the machine.
#[derive(Debug)]
pub enum Effect {
    /// The program ran to completion.
    Done,
    /// The step budget ran out; running again continues the program.
    Paused,
    /// Decode a number constant's spelling; answer with `resume_number`.
    NumDecode { spelling: String },
    /// Apply arithmetic to two numbers; answer with `resume_number`.
    NumBinary { op: ArithOp, lhs: u64, rhs: u64 },
    /// Decide a comparison of two numbers; answer with `resume_flag`.
    NumCompare { op: CmpKind, lhs: u64, rhs: u64 },
    /// Truncate both numbers to unsigned integers; answer with
    /// `resume_ints`.
    NumTruncate { lhs: u64, rhs: u64 },
    /// Truncate one number to an unsigned 32-bit integer; answer with
    /// `resume_int`.
    NumTruncate32 { value: u64 },
    /// Turn an unsigned integer back into a number; answer with
    /// `resume_number`.
    NumWiden { value: u64 },
    /// Run the named host function against the evaluation stack; answer
    /// with `resume_ran`.
    Builtin { name: String },
}

/// What the machine is waiting for, between an effect and its answer.
#[derive(Debug, Clone, Copy, PartialEq, Eq, Structural)]
pub enum Pending {
    /// `resume_number` will push the number and move on.
    PushNumber,
    /// `resume_flag` will jump to the label or fall through.
    JumpIf { target: Label },
    /// `resume_flag` will push the boolean and move on.
    PushFlag,
    /// `resume_ints` will apply the bitwise operation and ask the host to
    /// widen the result.
    FinishBitwise { op: BitOp },
    /// `resume_int` will complement the 32-bit value and ask the host to
    /// widen the result.
    FinishBNot,
    /// `resume_ran` acknowledges the host ran the builtin, and moves on.
    RunBuiltin,
}

} // verus!
