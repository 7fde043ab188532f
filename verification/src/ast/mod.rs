//! Syntax tree and its parser.

pub mod expr;
