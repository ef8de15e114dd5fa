//! Parsing of token streams into modules.
//!
//! Each parser reads a vector of tokens from a position and gives back
//! what it read and the position after it, or nothing; alternatives are
//! tried in order and the first that succeeds is taken, and a repetition
//! takes as many as it can. Spans of the nodes are token positions.

pub mod error;
pub mod common;
pub mod cursor;
pub mod literal;
pub mod type_parser;
pub mod pattern;
pub mod expr;
pub mod stmt;
pub mod decl;

pub use error::{ParseError, ErrorCollector, ParseResult};

use vstd::prelude::*;
use crate::lexer::token::SpannedToken;
use crate::ast::decl::{Module, ModuleView};
use crate::lexer::token::Span;
use crate::parser::common::convert_result;
use crate::parser::decl::{module, module_at, is_import_or_export};

verus! {

/// A module from its tokens, as the grammar `module_at` reads it; a
/// failure is one parse error, "unexpected token" at the token where the
/// declarations stop.
pub fn parse_module(tokens: Vec<SpannedToken>) -> (r: Result<Module, Vec<ParseError>>)
    ensures
        r matches Ok(m) ==> m.name@.len() == 0 && forall|i: int|
            0 <= i < m.declarations@.len() ==> !is_import_or_export(#[trigger] m.declarations@[i].node),
        r matches Err(es) ==> es@.len() == 1 && es@[0].message@ == "unexpected token"@,
        match r {
            Ok(m) => module_at(tokens@) == Ok::<ModuleView, Span>(m@),
            Err(es) => module_at(tokens@) == Err::<ModuleView, Span>(es@[0].span),
        },
{
    let m = module(&tokens);
    convert_result(m)
}

/// The same as `parse_module`.
pub fn parse(tokens: Vec<SpannedToken>) -> (r: Result<Module, Vec<ParseError>>)
    ensures
        r matches Ok(m) ==> m.name@.len() == 0 && forall|i: int|
            0 <= i < m.declarations@.len() ==> !is_import_or_export(#[trigger] m.declarations@[i].node),
        r matches Err(es) ==> es@.len() == 1 && es@[0].message@ == "unexpected token"@,
        match r {
            Ok(m) => module_at(tokens@) == Ok::<ModuleView, Span>(m@),
            Err(es) => module_at(tokens@) == Err::<ModuleView, Span>(es@[0].span),
        },
{
    parse_module(tokens)
}

} // verus!
