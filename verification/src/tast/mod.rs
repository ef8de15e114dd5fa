//! The typed syntax tree: what the type checker gives back, every
//! expression with its resolved type.

pub mod expr;
pub mod stmt;
pub mod decl;
