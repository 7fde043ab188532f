//! The bytecode program.

pub mod instr;
