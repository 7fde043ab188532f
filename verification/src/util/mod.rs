//! Small shared utilities.

pub mod uuid;
