//! Type checking: name tables, inference, environments, interface rules,
//! the dependency graph of declarations and the purity audit.

pub mod table;
pub mod environment;
pub mod error;
pub mod inference;
pub mod unify_laws;
pub mod interfaces;
pub mod dag;
pub mod effects;
pub mod checker;
