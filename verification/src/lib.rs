//! Compiler and virtual machine for a small S-expression scripting
//! language.
//!
//! The library turns source text into tokens, lowers a syntax tree into a
//! flat bytecode program, and executes that program on a stack-based
//! virtual machine with a fixed-capacity evaluation stack, a local store,
//! and a shared string arena.  The recursive-descent parser that turns
//! tokens into the tree is a conventional collaborator left to the
//! embedding host, which consumes tokens from [`lex`] and hands the tree to
//! [`hir::compile`].
//!
//! Machine numbers never appear in the library: number constants carry
//! their spelling, runtime numbers are carried as their 64 bit patterns,
//! and the machine hands every numeric primitive (decoding, arithmetic,
//! comparison, truncation) to the host as an effect and is resumed with the
//! answer.  Everything the library itself does is stated in contracts and
//! proved.

pub mod ast;
pub mod hir;
pub mod ir;
pub mod lex;
pub mod semantics;
pub mod tokens;
pub mod types;
pub mod unicode;
pub mod util;
pub mod vm;
