//! Kata language front-end: lexer, syntax tree, and type checker.

pub mod lexer;
pub mod text;
pub mod ast;
pub mod parser;
pub mod tast;
pub mod type_checker;
