//! Typed expressions.

use vstd::prelude::*;
use crate::ast::id::{Ident, Literal, QualifiedIdent};
use crate::ast::types::Type;
use crate::ast::pattern::Pattern;
use crate::lexer::token::Span;

verus! {

/// An expression together with its resolved type.
#[derive(Debug, PartialEq)]
pub struct TypedExpr {
    /// The expression.
    pub kind: ExprKind,
    /// Its resolved type.
    pub typ: Type,
    /// The source it came from.
    pub span: Span,
}

/// The forms of typed expressions.
#[derive(Debug, PartialEq)]
pub enum ExprKind {
    /// Literal value: `42`, `"hello"`, `True`.
    Literal(Literal),
    /// Variable reference.
    Var(Ident),
    /// Qualified reference: `Module::function`.
    QualifiedRef(QualifiedIdent),
    /// Tuple: `(1 2 3)`.
    Tuple(Vec<TypedExpr>),
    /// List: `[1 2 3]`.
    List(Vec<TypedExpr>),
    /// Cons: `x : xs`.
    Cons { head: Box<TypedExpr>, tail: Box<TypedExpr> },
    /// Array: `{1 2 3}`.
    Array(Vec<TypedExpr>),
    /// Tensor: `{1 2 ; 3 4}`.
    Tensor { dimensions: Vec<usize>, elements: Vec<TypedExpr> },
    /// Range: `[1..10]`.
    Range {
        start: Box<TypedExpr>,
        end: Box<TypedExpr>,
        step: Option<Box<TypedExpr>>,
        inclusive: bool,
    },
    /// Dictionary: `Dict [("key" "value")]`.
    Dict(Vec<(TypedExpr, TypedExpr)>),
    /// Set: `Set [1 2 3]`.
    SetLiteral(Vec<TypedExpr>),
    /// Function application: `+ 1 2`.
    Apply { func: Box<TypedExpr>, args: Vec<TypedExpr> },
    /// Explicit application: `$(+ 1 2)`.
    ExplicitApply { func: Box<TypedExpr>, args: Vec<TypedExpr> },
    /// Method call: `obj.method arg1 arg2`.
    Method { object: Box<TypedExpr>, method: Ident, args: Vec<TypedExpr> },
    /// Field access: `obj.field`.
    Field { object: Box<TypedExpr>, field: Ident },
    /// Index access: `arr .at i`.
    Index { object: Box<TypedExpr>, index: Box<TypedExpr> },
    /// Lambda.
    Lambda { clauses: Vec<TypedLambdaClause> },
    /// Hole for partial application: `_`.
    Hole,
    /// Pipeline: `expr |> f`.
    Pipeline { value: Box<TypedExpr>, func: Box<TypedExpr> },
    /// Type cast: `Int x`.
    TypeCast { target_type: Type, value: Box<TypedExpr> },
    /// Block: the last expression is the value.
    Block(Vec<TypedExpr>),
    /// Expression with bindings.
    WithBlock { body: Box<TypedExpr>, bindings: Vec<TypedWithBinding> },
}

/// A typed clause of a function or lambda.
#[derive(Debug, PartialEq)]
pub struct TypedLambdaClause {
    pub patterns: Vec<Pattern>,
    pub guards: Vec<TypedGuardClause>,
    pub body: Option<TypedExpr>,
    pub with: Vec<TypedWithBinding>,
}

/// A typed guard clause.
#[derive(Debug, PartialEq)]
pub struct TypedGuardClause {
    pub label: Ident,
    pub guard: TypedGuardCondition,
    pub body: TypedExpr,
}

/// The condition of a typed guard clause.
#[derive(Debug, PartialEq)]
pub enum TypedGuardCondition {
    Named(Ident),
    Otherwise,
}

/// A typed value binding of a `with` block.
#[derive(Debug, PartialEq)]
pub struct TypedWithBinding {
    pub name: Ident,
    pub value: TypedExpr,
}

} // verus!
