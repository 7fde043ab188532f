//! Faults that abort lowering.

use vstd::prelude::*;

verus! {

/// A compile-time fault.  Every one is fatal: lowering stops at the first
/// fault and nothing is recovered.
#[derive(Debug)]
pub enum CompileError {
    /// A variable reference or assignment names a variable no enclosing
    /// scope defines.
    UndefinedVariable(String),
    /// A parameter reference names a parameter no enclosing scope defines.
    UndefinedParameter(String),
    /// A definition reuses a name already defined in the same scope.
    DuplicateVariable(String),
    /// A function declares the same parameter name twice.
    DuplicateParameter(String),
    /// The increment and decrement forms are not lowered.
    UnsupportedUnary,
    /// A function definition was not seen by the pre-scan.
    MissingFunction(String),
    /// The identifier mint ran out of fresh tokens.
    OutOfIdentifiers,
}

} // verus!
