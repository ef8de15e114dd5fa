//! Typed statements of the action domain.

use vstd::prelude::*;
use crate::ast::id::Ident;
use crate::ast::pattern::Pattern;
use crate::tast::expr::TypedExpr;
use crate::lexer::token::Span;

verus! {

/// A typed statement.
#[derive(Debug, PartialEq)]
pub struct TypedStmt {
    pub kind: StmtKind,
    pub span: Span,
}

/// The forms of typed statements.
#[derive(Debug, PartialEq)]
pub enum StmtKind {
    /// Immutable binding: `let x 1`.
    Let { pattern: Pattern, value: TypedExpr },
    /// Mutable binding: `var x 1`.
    Var { pattern: Pattern, value: TypedExpr },
    /// Assignment: `var x 2`.
    Assign { name: Ident, value: TypedExpr },
    /// Match statement.
    Match { value: TypedExpr, cases: Vec<TypedMatchCase> },
    /// Infinite loop.
    Loop { body: Vec<TypedStmt> },
    /// For loop.
    For { var: Ident, iterable: TypedExpr, body: Vec<TypedStmt> },
    /// Break statement.
    Break,
    /// Continue statement.
    Continue,
    /// Select statement.
    Select { cases: Vec<TypedSelectCase>, timeout: Option<TypedSelectTimeout> },
    /// Expression statement.
    Expr(TypedExpr),
    /// Return statement.
    Return(TypedExpr),
    /// Panic statement.
    Panic { message: TypedExpr },
    /// Assert statement.
    Assert { condition: TypedExpr, message: TypedExpr },
}

/// A typed case of a match statement.
#[derive(Debug, PartialEq)]
pub struct TypedMatchCase {
    pub pattern: Pattern,
    pub body: Vec<TypedStmt>,
}

/// A typed case of a select statement.
#[derive(Debug, PartialEq)]
pub struct TypedSelectCase {
    pub operation: TypedChannelOp,
    pub binding: Option<Ident>,
    pub body: Vec<TypedStmt>,
}

/// A typed channel operation.
#[derive(Debug, PartialEq)]
pub enum TypedChannelOp {
    Receive { channel: TypedExpr, non_blocking: bool },
    Send { value: TypedExpr, channel: TypedExpr },
}

/// The typed timeout case of a select statement.
#[derive(Debug, PartialEq)]
pub struct TypedSelectTimeout {
    pub duration: TypedExpr,
    pub body: Vec<TypedStmt>,
}

} // verus!
