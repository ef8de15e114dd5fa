//! Typed top-level declarations.

use vstd::prelude::*;
use crate::ast::id::{Ident, Directive};
use crate::ast::types::{FunctionSig, Type};
use crate::ast::decl::Import;
use crate::tast::expr::TypedLambdaClause;
use crate::tast::stmt::TypedStmt;
use crate::lexer::token::Span;

verus! {

/// A typed declaration of a module.
#[derive(Debug, PartialEq)]
pub struct TypedDecl {
    pub kind: DeclKind,
    pub span: Span,
}

/// The forms of typed declarations.
#[derive(Debug, PartialEq)]
pub enum DeclKind {
    Function(TypedFunctionDef),
    Action(TypedActionDef),
    Data(TypedDataDef),
    Enum(TypedEnumDef),
    Interface(TypedInterfaceDef),
    Implements(TypedImplDef),
    Alias(TypedAliasDef),
    Import(Import),
    /// The exported names.
    Export(Vec<String>),
    /// A statement of the entry point.
    Statement(TypedStmt),
}

/// A typed function definition.
#[derive(Debug, PartialEq)]
pub struct TypedFunctionDef {
    pub name: Ident,
    pub sig: FunctionSig,
    pub arity: usize,
    pub directives: Vec<Directive>,
    pub clauses: Vec<TypedLambdaClause>,
}

/// A typed action definition; its return type is always resolved.
#[derive(Debug, PartialEq)]
pub struct TypedActionDef {
    pub name: Ident,
    pub params: Vec<Ident>,
    pub return_type: Type,
    pub directives: Vec<Directive>,
    pub body: Vec<TypedStmt>,
}

/// A typed data definition.
#[derive(Debug, PartialEq)]
pub struct TypedDataDef {
    pub name: Ident,
    pub type_params: Vec<Ident>,
    pub fields: Vec<TypedFieldDef>,
}

/// A typed field.
#[derive(Debug, PartialEq)]
pub struct TypedFieldDef {
    pub name: Ident,
    pub typ: Type,
}

/// A typed enum definition.
#[derive(Debug, PartialEq)]
pub struct TypedEnumDef {
    pub name: Ident,
    pub type_params: Vec<Ident>,
    pub variants: Vec<TypedVariantDef>,
}

/// A typed enum variant.
#[derive(Debug, PartialEq)]
pub struct TypedVariantDef {
    pub name: Ident,
    pub payload: TypedVariantPayload,
}

/// What a typed variant carries.
#[derive(Debug, PartialEq)]
pub enum TypedVariantPayload {
    Unit,
    Typed(Type),
}

/// A typed interface definition.
#[derive(Debug, PartialEq)]
pub struct TypedInterfaceDef {
    pub name: Ident,
    pub extends: Vec<Ident>,
    pub members: Vec<TypedInterfaceMember>,
}

/// A typed interface member.
#[derive(Debug, PartialEq)]
pub enum TypedInterfaceMember {
    Signature(Ident, FunctionSig),
    FunctionDef(TypedFunctionDef),
}

/// A typed implementation.
#[derive(Debug, PartialEq)]
pub struct TypedImplDef {
    pub for_type: Type,
    pub interface: Ident,
    pub implementations: Vec<TypedFunctionDef>,
}

/// A typed alias.
#[derive(Debug, PartialEq)]
pub struct TypedAliasDef {
    pub name: Ident,
    pub target: Type,
}

} // verus!
