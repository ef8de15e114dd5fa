//! The abstract syntax tree of Kata programs.

pub mod id;
pub mod types;
pub mod pattern;
pub mod expr;
pub mod stmt;
pub mod decl;

use vstd::prelude::*;
use crate::lexer::token::Span;

pub use id::{Ident, QualifiedIdent, Literal, Directive, CacheStrategy, RestartPolicy};
pub use types::{Type, Predicate, CompareOp, LiteralValue, FunctionSig};
pub use pattern::{Pattern, Guard};
pub use expr::{Expr, LambdaClause, GuardClause, GuardCondition, WithBinding};
pub use stmt::{Stmt, MatchCase, SelectCase, ChannelOp, SelectTimeout, ErrorPropagation};
pub use decl::{
    Module, TopLevel, FunctionDef, ActionDef, DataDef, DataKind, FieldDef, EnumDef, VariantDef,
    VariantPayload, InterfaceDef, InterfaceMember, ImplDef, AliasDef, Import, Export,
};
pub use crate::lexer::token::Span as LexerSpan;

verus! {

/// A syntax tree node together with the span of source it came from.
#[derive(Debug, Clone, PartialEq)]
pub struct Spanned<T> {
    pub node: T,
    pub span: Span,
}

impl<T> Spanned<T> {
    /// The node `node` at `span`.
    pub fn new(node: T, span: Span) -> (r: Spanned<T>)
        ensures
            r.node == node,
            r.span == span,
    {
        Spanned { node, span }
    }

    /// The node transformed by `f`, at the same span.
    pub fn map<U, F: FnOnce(T) -> U>(self, f: F) -> (r: Spanned<U>)
        requires
            f.requires((self.node,)),
        ensures
            f.ensures((self.node,), r.node),
            r.span == self.span,
            forall|g: spec_fn(T) -> U|
                (forall|x: T, y: U| #[trigger] f.ensures((x,), y) ==> y == g(x)) ==> r == #[trigger] self.map_spec(g),
    {
        Spanned { node: f(self.node), span: self.span }
    }

    /// The node transformed by the function `g`, at the same span.
    pub open spec fn map_spec<U>(self, g: spec_fn(T) -> U) -> Spanned<U> {
        Spanned { node: g(self.node), span: self.span }
    }
}

/// Mapping the identity changes nothing.
pub proof fn law_map_identity<T>(s: Spanned<T>)
    ensures
        s.map_spec(|x: T| x) == s,
{
}

/// Mapping `f`, then `g`, is mapping their composition, and keeps the span.
pub proof fn law_map_compose<T, U, V>(s: Spanned<T>, f: spec_fn(T) -> U, g: spec_fn(U) -> V)
    ensures
        s.map_spec(f).map_spec(g) == s.map_spec(|x: T| g(f(x))),
        s.map_spec(f).map_spec(g).span == s.span,
{
}

} // verus!
