//! Faults that stop the machine.

use crate::ir::instr::Label;
use vstd::prelude::*;

verus! {

pub type VmResult<T> = Result<T, VmError>;

/// A runtime fault.  Every one is fatal: execution stops and nothing is
/// resumed or repaired.
#[derive(Debug)]
pub enum VmError {
    /// A value was popped from an empty evaluation stack.
    StackUnderflow,
    /// A value was pushed onto a full evaluation stack.
    StackOverflow,
    /// A jump names a label the program never marks.
    UnknownLabel(Label),
    /// A call names a host function that was never registered.
    UnknownBuiltin(String),
    /// An arithmetic or bitwise instruction met an operand that is not a
    /// number.
    TypeMismatch,
    /// A return ran with no call outstanding.
    ReturnWithoutCall,
    /// A value carries a string handle the arena does not hold.
    BadStringHandle,
}

} // verus!
