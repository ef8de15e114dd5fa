//! Expressions of the pure, functional domain.
//!
//! Expressions have no side effects and produce values.

use vstd::prelude::*;
use crate::ast::Spanned;
use crate::ast::id::{
    Ident, Literal, LiteralView, QualifiedIdent, literal_display, qualified_display,
};
use crate::ast::pattern::{
    Pattern, PatternView, spanned_patterns_view, patterns_display, push_patterns_display,
};
use crate::ast::types::{
    Type, TypeView, FunctionSig, FunctionSigView, type_display, sig_display, push_type_display,
};
use crate::lexer::token::Span;
use crate::text::{string_from_chars, push_str};

verus! {

broadcast use vstd::string::group_string_axioms;

// =============================================================================
// EXPRESSIONS
// =============================================================================

/// An expression of the functional domain.
#[derive(Debug, PartialEq)]
pub enum Expr {
    /// Literal value: `42`, `"hello"`, `True`.
    Literal(Literal),
    /// Variable reference, possibly with a type ascription: `x`, `x::Int`.
    Var { name: Ident, type_ascription: Option<Type> },
    /// Qualified reference: `Module::function`.
    QualifiedRef(QualifiedIdent),
    /// Tuple: `(1 2 3)`.
    Tuple(Vec<Spanned<Expr>>),
    /// List: `[1 2 3]`.
    List(Vec<Spanned<Expr>>),
    /// Cons of a head onto a tail: `x : xs`.
    Cons { head: Box<Spanned<Expr>>, tail: Box<Spanned<Expr>> },
    /// Array: `{1 2 3}`.
    Array(Vec<Spanned<Expr>>),
    /// Tensor with dimensions `[rows, cols]`: `{1 2 ; 3 4}`.
    Tensor { dimensions: Vec<usize>, elements: Vec<Spanned<Expr>> },
    /// Range: `[1..10]`, `[1..2..100]`, `[1..=10]`.
    Range {
        start: Box<Spanned<Expr>>,
        end: Box<Spanned<Expr>>,
        step: Option<Box<Spanned<Expr>>>,
        inclusive: bool,
    },
    /// Dictionary: `Dict [("key" "value")]`.
    Dict(Vec<(Spanned<Expr>, Spanned<Expr>)>),
    /// Set: `Set [1 2 3]`.
    SetLiteral(Vec<Spanned<Expr>>),
    /// Prefix application: `+ 1 2`, `f x y`.
    Apply { func: Box<Spanned<Expr>>, args: Vec<Spanned<Expr>> },
    /// Explicit application: `$(+ 1 2)`.
    ExplicitApply { func: Box<Spanned<Expr>>, args: Vec<Spanned<Expr>> },
    /// Method call: `obj.method arg1 arg2`.
    Method { object: Box<Spanned<Expr>>, method: Ident, args: Vec<Spanned<Expr>> },
    /// Field access: `obj.field`.
    Field { object: Box<Spanned<Expr>>, field: Ident },
    /// Index access: `(arr .at i)`.
    Index { object: Box<Spanned<Expr>>, index: Box<Spanned<Expr>> },
    /// Lambda with one or more clauses.
    Lambda { clauses: Vec<LambdaClause> },
    /// Hole for partial application: `_`.
    Hole,
    /// Pipeline: `value |> func`.
    Pipeline { value: Box<Spanned<Expr>>, func: Box<Spanned<Expr>> },
    /// Type cast: `Int x`.
    TypeCast { cast_type: QualifiedIdent, value: Box<Spanned<Expr>> },
    /// Sequence of expressions; the last one is the value.
    Block(Vec<Spanned<Expr>>),
    /// Expression with a `with` block of bindings.
    WithBlock { body: Box<Spanned<Expr>>, bindings: Vec<WithBinding> },
}

/// A clause of a lambda: patterns, then guards or a body, then bindings.
#[derive(Debug, PartialEq)]
pub struct LambdaClause {
    /// Patterns matched against the arguments.
    pub patterns: Vec<Spanned<Pattern>>,
    /// Guard clauses, possibly none.
    pub guards: Vec<GuardClause>,
    /// Body, absent when guards give the results.
    pub body: Option<Spanned<Expr>>,
    /// Bindings of the `with` block, possibly none.
    pub with: Vec<WithBinding>,
}

/// A guard clause: `label: body`.
#[derive(Debug, PartialEq)]
pub struct GuardClause {
    /// Label of the guard.
    pub label: Ident,
    /// Condition of the guard.
    pub guard: GuardCondition,
    /// Result when the guard holds.
    pub body: Spanned<Expr>,
}

/// Condition of a guard clause.
#[derive(Debug, Clone, PartialEq)]
pub enum GuardCondition {
    /// A named condition, bound in the `with` block.
    Named(Ident),
    /// The default clause.
    Otherwise,
}

/// A binding of a `with` block.
#[derive(Debug, PartialEq)]
pub enum WithBinding {
    /// Value binding: `name as expr`.
    Value { name: Ident, value: Spanned<Expr> },
    /// Signature constraint: `+ :: A B => C`.
    Signature { name: Ident, sig: FunctionSig },
    /// Interface constraint: `T implements ORD`.
    Interface { typ: Type, interface: Ident },
}

// =============================================================================
// VIEWS
// =============================================================================

/// An expression with its span, by contents.
pub type SpannedExprView = (ExprView, Span);

/// An expression by its contents: names and texts as character sequences,
/// types and patterns by their views, and each sub-expression with its span.
pub enum ExprView {
    Literal(LiteralView),
    Var { name: Seq<char>, ascription: Option<TypeView> },
    QualifiedRef((Option<Seq<char>>, Seq<char>)),
    Tuple(Seq<SpannedExprView>),
    List(Seq<SpannedExprView>),
    Cons { head: Box<SpannedExprView>, tail: Box<SpannedExprView> },
    Array(Seq<SpannedExprView>),
    Tensor { dimensions: Seq<usize>, elements: Seq<SpannedExprView> },
    Range {
        start: Box<SpannedExprView>,
        end: Box<SpannedExprView>,
        step: Option<Box<SpannedExprView>>,
        inclusive: bool,
    },
    Dict(Seq<(SpannedExprView, SpannedExprView)>),
    SetLiteral(Seq<SpannedExprView>),
    Apply { func: Box<SpannedExprView>, args: Seq<SpannedExprView> },
    ExplicitApply { func: Box<SpannedExprView>, args: Seq<SpannedExprView> },
    Method { object: Box<SpannedExprView>, method: Seq<char>, args: Seq<SpannedExprView> },
    Field { object: Box<SpannedExprView>, field: Seq<char> },
    Index { object: Box<SpannedExprView>, index: Box<SpannedExprView> },
    Lambda(Seq<ClauseView>),
    Hole,
    Pipeline { value: Box<SpannedExprView>, func: Box<SpannedExprView> },
    TypeCast { cast_type: (Option<Seq<char>>, Seq<char>), value: Box<SpannedExprView> },
    Block(Seq<SpannedExprView>),
    WithBlock { body: Box<SpannedExprView>, bindings: Seq<BindingView> },
}

/// A lambda clause by its contents.
pub struct ClauseView {
    pub patterns: Seq<(PatternView, Span)>,
    pub guards: Seq<GuardView>,
    pub body: Option<SpannedExprView>,
    pub with: Seq<BindingView>,
}

/// A guard clause by its contents: its label, the name of its condition
/// (none for `otherwise`), and its body.
pub struct GuardView {
    pub label: Seq<char>,
    pub condition: Option<Seq<char>>,
    pub body: SpannedExprView,
}

/// A binding of a `with` block by its contents.
pub enum BindingView {
    Value { name: Seq<char>, value: SpannedExprView },
    Signature { name: Seq<char>, sig: FunctionSigView },
    Interface { typ: TypeView, interface: Seq<char> },
}

/// The view of an expression.
pub open spec fn expr_view(e: Expr) -> ExprView
    decreases e,
{
    match e {
        Expr::Literal(l) => ExprView::Literal(l@),
        Expr::Var { name, type_ascription } => ExprView::Var {
            name: name@,
            ascription: match type_ascription {
                Some(t) => Some(t@),
                None => None,
            },
        },
        Expr::QualifiedRef(q) => ExprView::QualifiedRef(q@),
        Expr::Tuple(es) => ExprView::Tuple(exprs_view(es@)),
        Expr::List(es) => ExprView::List(exprs_view(es@)),
        Expr::Cons { head, tail } => ExprView::Cons {
            head: Box::new((expr_view(head.node), head.span)),
            tail: Box::new((expr_view(tail.node), tail.span)),
        },
        Expr::Array(es) => ExprView::Array(exprs_view(es@)),
        Expr::Tensor { dimensions, elements } => ExprView::Tensor {
            dimensions: dimensions@,
            elements: exprs_view(elements@),
        },
        Expr::Range { start, end, step, inclusive } => ExprView::Range {
            start: Box::new((expr_view(start.node), start.span)),
            end: Box::new((expr_view(end.node), end.span)),
            step: match step {
                Some(s) => Some(Box::new((expr_view(s.node), s.span))),
                None => None,
            },
            inclusive,
        },
        Expr::Dict(entries) => ExprView::Dict(entries_view(entries@)),
        Expr::SetLiteral(es) => ExprView::SetLiteral(exprs_view(es@)),
        Expr::Apply { func, args } => ExprView::Apply {
            func: Box::new((expr_view(func.node), func.span)),
            args: exprs_view(args@),
        },
        Expr::ExplicitApply { func, args } => ExprView::ExplicitApply {
            func: Box::new((expr_view(func.node), func.span)),
            args: exprs_view(args@),
        },
        Expr::Method { object, method, args } => ExprView::Method {
            object: Box::new((expr_view(object.node), object.span)),
            method: method@,
            args: exprs_view(args@),
        },
        Expr::Field { object, field } => ExprView::Field {
            object: Box::new((expr_view(object.node), object.span)),
            field: field@,
        },
        Expr::Index { object, index } => ExprView::Index {
            object: Box::new((expr_view(object.node), object.span)),
            index: Box::new((expr_view(index.node), index.span)),
        },
        Expr::Lambda { clauses } => ExprView::Lambda(clauses_view(clauses@)),
        Expr::Hole => ExprView::Hole,
        Expr::Pipeline { value, func } => ExprView::Pipeline {
            value: Box::new((expr_view(value.node), value.span)),
            func: Box::new((expr_view(func.node), func.span)),
        },
        Expr::TypeCast { cast_type, value } => ExprView::TypeCast {
            cast_type: cast_type@,
            value: Box::new((expr_view(value.node), value.span)),
        },
        Expr::Block(es) => ExprView::Block(exprs_view(es@)),
        Expr::WithBlock { body, bindings } => ExprView::WithBlock {
            body: Box::new((expr_view(body.node), body.span)),
            bindings: bindings_view(bindings@),
        },
    }
}

/// The view of a spanned expression, with its span.
pub open spec fn spanned_expr_view(e: Spanned<Expr>) -> SpannedExprView {
    (expr_view(e.node), e.span)
}

/// The views of spanned expressions.
pub open spec fn exprs_view(es: Seq<Spanned<Expr>>) -> Seq<SpannedExprView>
    decreases es,
{
    if es.len() == 0 {
        Seq::empty()
    } else {
        exprs_view(es.drop_last()).push((expr_view(es.last().node), es.last().span))
    }
}

/// The views of dictionary entries.
pub open spec fn entries_view(es: Seq<(Spanned<Expr>, Spanned<Expr>)>) -> Seq<(SpannedExprView, SpannedExprView)>
    decreases es,
{
    if es.len() == 0 {
        Seq::empty()
    } else {
        entries_view(es.drop_last()).push(
            (
                (expr_view(es.last().0.node), es.last().0.span),
                (expr_view(es.last().1.node), es.last().1.span),
            ),
        )
    }
}

/// The view of a lambda clause.
pub open spec fn clause_view(c: LambdaClause) -> ClauseView
    decreases c,
{
    ClauseView {
        patterns: spanned_patterns_view(c.patterns@),
        guards: guards_view(c.guards@),
        body: match c.body {
            Some(b) => Some((expr_view(b.node), b.span)),
            None => None,
        },
        with: bindings_view(c.with@),
    }
}

/// The views of lambda clauses.
pub open spec fn clauses_view(cs: Seq<LambdaClause>) -> Seq<ClauseView>
    decreases cs,
{
    if cs.len() == 0 {
        Seq::empty()
    } else {
        clauses_view(cs.drop_last()).push(clause_view(cs.last()))
    }
}

/// The view of a guard clause.
pub open spec fn guard_view(g: GuardClause) -> GuardView
    decreases g,
{
    GuardView {
        label: g.label@,
        condition: match g.guard {
            GuardCondition::Named(n) => Some(n@),
            GuardCondition::Otherwise => None,
        },
        body: (expr_view(g.body.node), g.body.span),
    }
}

/// The views of guard clauses.
pub open spec fn guards_view(gs: Seq<GuardClause>) -> Seq<GuardView>
    decreases gs,
{
    if gs.len() == 0 {
        Seq::empty()
    } else {
        guards_view(gs.drop_last()).push(guard_view(gs.last()))
    }
}

/// The view of a binding.
pub open spec fn binding_view(b: WithBinding) -> BindingView
    decreases b,
{
    match b {
        WithBinding::Value { name, value } => BindingView::Value {
            name: name@,
            value: (expr_view(value.node), value.span),
        },
        WithBinding::Signature { name, sig } => BindingView::Signature { name: name@, sig: sig@ },
        WithBinding::Interface { typ, interface } => BindingView::Interface { typ: typ@, interface: interface@ },
    }
}

/// The views of bindings.
pub open spec fn bindings_view(bs: Seq<WithBinding>) -> Seq<BindingView>
    decreases bs,
{
    if bs.len() == 0 {
        Seq::empty()
    } else {
        bindings_view(bs.drop_last()).push(binding_view(bs.last()))
    }
}

impl View for Expr {
    type V = ExprView;

    open spec fn view(&self) -> ExprView {
        expr_view(*self)
    }
}

/// The views of `es` with one more expression after them.
pub proof fn lemma_exprs_view_push(es: Seq<Spanned<Expr>>, e: Spanned<Expr>)
    ensures
        exprs_view(es.push(e)) == exprs_view(es).push(spanned_expr_view(e)),
{
    assert(es.push(e).drop_last() =~= es);
}

/// There is one view for each expression.
pub proof fn lemma_exprs_view_len(es: Seq<Spanned<Expr>>)
    ensures
        exprs_view(es).len() == es.len(),
    decreases es.len(),
{
    if es.len() > 0 {
        lemma_exprs_view_len(es.drop_last());
    }
}

/// The view of the `i`-th expression is the `i`-th view.
pub proof fn lemma_exprs_view_index(es: Seq<Spanned<Expr>>, i: int)
    requires
        0 <= i < es.len(),
    ensures
        exprs_view(es)[i] == spanned_expr_view(es[i]),
        exprs_view(es).len() == es.len(),
    decreases es.len(),
{
    lemma_exprs_view_len(es);
    if i < es.len() - 1 {
        lemma_exprs_view_index(es.drop_last(), i);
    }
}

/// The views of two sequences of expressions one after the other.
pub proof fn lemma_exprs_view_concat(a: Seq<Spanned<Expr>>, b: Seq<Spanned<Expr>>)
    ensures
        exprs_view(a + b) == exprs_view(a) + exprs_view(b),
    decreases b.len(),
{
    if b.len() == 0 {
        assert(a + b =~= a);
        assert(exprs_view(a) + exprs_view(b) =~= exprs_view(a));
    } else {
        lemma_exprs_view_concat(a, b.drop_last());
        assert((a + b).drop_last() =~= a + b.drop_last());
        assert((a + b).last() == b.last());
        assert(exprs_view(a) + exprs_view(b) =~= (exprs_view(a) + exprs_view(b.drop_last())).push(
            spanned_expr_view(b.last()),
        ));
    }
}

/// The views of `es` with one more entry after them.
pub proof fn lemma_entries_view_push(es: Seq<(Spanned<Expr>, Spanned<Expr>)>, e: (Spanned<Expr>, Spanned<Expr>))
    ensures
        entries_view(es.push(e)) == entries_view(es).push((spanned_expr_view(e.0), spanned_expr_view(e.1))),
{
    assert(es.push(e).drop_last() =~= es);
}

/// The views of `gs` with one more guard after them.
pub proof fn lemma_guards_view_push(gs: Seq<GuardClause>, g: GuardClause)
    ensures
        guards_view(gs.push(g)) == guards_view(gs).push(guard_view(g)),
{
    assert(gs.push(g).drop_last() =~= gs);
}

/// There is one view for each guard.
pub proof fn lemma_guards_view_len(gs: Seq<GuardClause>)
    ensures
        guards_view(gs).len() == gs.len(),
    decreases gs.len(),
{
    if gs.len() > 0 {
        lemma_guards_view_len(gs.drop_last());
    }
}

/// The views of `cs` are as many as `cs`.
pub proof fn lemma_clauses_view_len(cs: Seq<LambdaClause>)
    ensures
        clauses_view(cs).len() == cs.len(),
    decreases cs.len(),
{
    if cs.len() > 0 {
        lemma_clauses_view_len(cs.drop_last());
    }
}

/// The views of `bs` with one more binding after them.
pub proof fn lemma_bindings_view_push(bs: Seq<WithBinding>, b: WithBinding)
    ensures
        bindings_view(bs.push(b)) == bindings_view(bs).push(binding_view(b)),
{
    assert(bs.push(b).drop_last() =~= bs);
}

/// The views of `cs` with one more clause after them.
pub proof fn lemma_clauses_view_push(cs: Seq<LambdaClause>, c: LambdaClause)
    ensures
        clauses_view(cs.push(c)) == clauses_view(cs).push(clause_view(c)),
{
    assert(cs.push(c).drop_last() =~= cs);
}

// =============================================================================
// WELL-FORMEDNESS
// =============================================================================

/// The number of elements per row of a tensor: its second dimension, or all
/// elements when it has fewer than two dimensions.
pub open spec fn tensor_row_size(dimensions: Seq<usize>, n: nat) -> nat {
    if dimensions.len() >= 2 {
        dimensions[1] as nat
    } else {
        n
    }
}

/// Whether an expression can be displayed: every tensor in it with more than
/// one element has a row size other than zero.
pub open spec fn expr_wf(e: Expr) -> bool
    decreases e,
{
    match e {
        Expr::Literal(_) | Expr::Var { .. } | Expr::QualifiedRef(_) | Expr::Hole => true,
        Expr::Tuple(es) | Expr::List(es) | Expr::Array(es) | Expr::SetLiteral(es) | Expr::Block(es) => exprs_wf(es@),
        Expr::Cons { head, tail } => expr_wf(head.node) && expr_wf(tail.node),
        Expr::Tensor { dimensions, elements } => exprs_wf(elements@) && (elements.len() > 1
            ==> tensor_row_size(dimensions@, elements.len() as nat) > 0),
        Expr::Range { start, end, step, .. } => expr_wf(start.node) && expr_wf(end.node) && match step {
            Some(s) => expr_wf(s.node),
            None => true,
        },
        Expr::Dict(entries) => entries_wf(entries@),
        Expr::Apply { func, args } | Expr::ExplicitApply { func, args } => expr_wf(func.node)
            && exprs_wf(args@),
        Expr::Method { object, args, .. } => expr_wf(object.node) && exprs_wf(args@),
        Expr::Field { object, .. } => expr_wf(object.node),
        Expr::Index { object, index } => expr_wf(object.node) && expr_wf(index.node),
        Expr::Lambda { clauses } => clauses_wf(clauses@),
        Expr::Pipeline { value, func } => expr_wf(value.node) && expr_wf(func.node),
        Expr::TypeCast { value, .. } => expr_wf(value.node),
        Expr::WithBlock { body, bindings } => expr_wf(body.node) && bindings_wf(bindings@),
    }
}

pub open spec fn exprs_wf(es: Seq<Spanned<Expr>>) -> bool
    decreases es,
{
    if es.len() == 0 {
        true
    } else {
        exprs_wf(es.drop_last()) && expr_wf(es.last().node)
    }
}

pub open spec fn entries_wf(es: Seq<(Spanned<Expr>, Spanned<Expr>)>) -> bool
    decreases es,
{
    if es.len() == 0 {
        true
    } else {
        entries_wf(es.drop_last()) && expr_wf(es.last().0.node) && expr_wf(es.last().1.node)
    }
}

pub open spec fn clause_wf(c: LambdaClause) -> bool
    decreases c,
{
    guards_wf(c.guards@) && match c.body {
        Some(b) => expr_wf(b.node),
        None => true,
    } && bindings_wf(c.with@)
}

pub open spec fn clauses_wf(cs: Seq<LambdaClause>) -> bool
    decreases cs,
{
    if cs.len() == 0 {
        true
    } else {
        clauses_wf(cs.drop_last()) && clause_wf(cs.last())
    }
}

pub open spec fn guards_wf(gs: Seq<GuardClause>) -> bool
    decreases gs,
{
    if gs.len() == 0 {
        true
    } else {
        guards_wf(gs.drop_last()) && expr_wf(gs.last().body.node)
    }
}

pub open spec fn binding_wf(b: WithBinding) -> bool
    decreases b,
{
    match b {
        WithBinding::Value { value, .. } => expr_wf(value.node),
        _ => true,
    }
}

pub open spec fn bindings_wf(bs: Seq<WithBinding>) -> bool
    decreases bs,
{
    if bs.len() == 0 {
        true
    } else {
        bindings_wf(bs.drop_last()) && binding_wf(bs.last())
    }
}

// =============================================================================
// DISPLAY
// =============================================================================

/// The displays of `es` joined by `sep`.
pub open spec fn exprs_display(es: Seq<Spanned<Expr>>, sep: Seq<char>) -> Seq<char>
    decreases es,
{
    if es.len() == 0 {
        Seq::empty()
    } else if es.len() == 1 {
        expr_display(es[0].node)
    } else {
        exprs_display(es.drop_last(), sep) + sep + expr_display(es.last().node)
    }
}

/// The displays of `es`, each preceded by a space.
pub open spec fn args_display(es: Seq<Spanned<Expr>>) -> Seq<char>
    decreases es,
{
    if es.len() == 0 {
        Seq::empty()
    } else {
        args_display(es.drop_last()) + " "@ + expr_display(es.last().node)
    }
}

/// The elements of a tensor with `row` elements per row: elements of a row
/// separated by a space, rows separated by ` ; `.
pub open spec fn tensor_display(es: Seq<Spanned<Expr>>, row: nat) -> Seq<char>
    decreases es,
{
    if es.len() == 0 {
        Seq::empty()
    } else if es.len() == 1 {
        expr_display(es[0].node)
    } else {
        tensor_display(es.drop_last(), row) + (if (es.len() - 1) % (row as int) == 0 {
            " ; "@
        } else {
            " "@
        }) + expr_display(es.last().node)
    }
}

/// The entries of a dictionary, each `(key value)`, separated by spaces.
pub open spec fn entries_display(es: Seq<(Spanned<Expr>, Spanned<Expr>)>) -> Seq<char>
    decreases es,
{
    if es.len() == 0 {
        Seq::empty()
    } else {
        let e = es.last();
        let shown = "("@ + expr_display(e.0.node) + " "@ + expr_display(e.1.node) + ")"@;
        if es.len() == 1 {
            shown
        } else {
            entries_display(es.drop_last()) + " "@ + shown
        }
    }
}

/// The clauses of a lambda, separated by line breaks.
pub open spec fn clauses_display(cs: Seq<LambdaClause>) -> Seq<char>
    decreases cs,
{
    if cs.len() == 0 {
        Seq::empty()
    } else if cs.len() == 1 {
        clause_display(cs[0])
    } else {
        clauses_display(cs.drop_last()) + "\n"@ + clause_display(cs.last())
    }
}

/// Each guard on a line of its own: `label: body`.
pub open spec fn guards_display(gs: Seq<GuardClause>) -> Seq<char>
    decreases gs,
{
    if gs.len() == 0 {
        Seq::empty()
    } else {
        guards_display(gs.drop_last()) + "\n    "@ + gs.last().label@ + ": "@ + expr_display(
            gs.last().body.node,
        )
    }
}

/// Each binding on a line of its own, indented.
pub open spec fn bindings_display(bs: Seq<WithBinding>) -> Seq<char>
    decreases bs,
{
    if bs.len() == 0 {
        Seq::empty()
    } else {
        bindings_display(bs.drop_last()) + "\n        "@ + binding_display(bs.last())
    }
}

/// How a binding is written: `name as value`, `name :: sig`,
/// `T implements I`.
pub open spec fn binding_display(b: WithBinding) -> Seq<char>
    decreases b,
{
    match b {
        WithBinding::Value { name, value } => name@ + " as "@ + expr_display(value.node),
        WithBinding::Signature { name, sig } => name@ + " :: "@ + sig_display(sig@),
        WithBinding::Interface { typ, interface } => type_display(typ@) + " implements "@
            + interface@,
    }
}

/// How a lambda clause is written: the patterns, a colon, then the guards or
/// the body, then the `with` block.
pub open spec fn clause_display(c: LambdaClause) -> Seq<char>
    decreases c,
{
    patterns_display(c.patterns@, " "@) + ":"@ + (if c.guards.len() > 0 {
        guards_display(c.guards@)
    } else {
        match c.body {
            Some(b) => " "@ + expr_display(b.node),
            None => Seq::empty(),
        }
    }) + (if c.with.len() > 0 {
        "\n    with"@ + bindings_display(c.with@)
    } else {
        Seq::empty()
    })
}

/// How an expression is written.
pub open spec fn expr_display(e: Expr) -> Seq<char>
    decreases e,
{
    match e {
        Expr::Literal(l) => literal_display(l@),
        Expr::Var { name, type_ascription } => match type_ascription {
            Some(t) => name@ + "::"@ + type_display(t@),
            None => name@,
        },
        Expr::QualifiedRef(q) => qualified_display(q@),
        Expr::Tuple(es) => "("@ + exprs_display(es@, " "@) + ")"@,
        Expr::List(es) => "["@ + exprs_display(es@, " "@) + "]"@,
        Expr::Cons { head, tail } => expr_display(head.node) + " : "@ + expr_display(tail.node),
        Expr::Array(es) => "{"@ + exprs_display(es@, " "@) + "}"@,
        Expr::Tensor { dimensions, elements } => "{"@ + tensor_display(
            elements@,
            tensor_row_size(dimensions@, elements.len() as nat),
        ) + "}"@,
        Expr::Range { start, end, step, inclusive } => "["@ + expr_display(start.node) + match step {
            Some(s) => ".."@ + expr_display(s.node) + ".."@,
            None => ".."@,
        } + (if inclusive {
            "="@
        } else {
            Seq::empty()
        }) + expr_display(end.node) + "]"@,
        Expr::Dict(entries) => "Dict ["@ + entries_display(entries@) + "]"@,
        Expr::SetLiteral(es) => "Set ["@ + exprs_display(es@, " "@) + "]"@,
        Expr::Apply { func, args } => expr_display(func.node) + args_display(args@),
        Expr::ExplicitApply { func, args } => "$("@ + expr_display(func.node) + args_display(args@)
            + ")"@,
        Expr::Method { object, method, args } => expr_display(object.node) + "."@ + method@
            + args_display(args@),
        Expr::Field { object, field } => expr_display(object.node) + "."@ + field@,
        Expr::Index { object, index } => "("@ + expr_display(object.node) + " .at "@ + expr_display(
            index.node,
        ) + ")"@,
        Expr::Lambda { clauses } => "λ "@ + clauses_display(clauses@),
        Expr::Hole => "_"@,
        Expr::Pipeline { value, func } => expr_display(value.node) + " |>"@ + " "@ + expr_display(
            func.node,
        ),
        Expr::TypeCast { cast_type, value } => qualified_display(cast_type@) + " "@ + expr_display(
            value.node,
        ),
        Expr::Block(es) => exprs_display(es@, "\n"@),
        Expr::WithBlock { body, bindings } => expr_display(body.node) + "\n    with"@
            + bindings_display(bindings@),
    }
}

pub open spec fn guard_condition_display(g: GuardCondition) -> Seq<char> {
    match g {
        GuardCondition::Named(n) => n@,
        GuardCondition::Otherwise => "otherwise"@,
    }
}

// =============================================================================
// LEMMAS
// =============================================================================

pub proof fn lemma_exprs_wf_index(es: Seq<Spanned<Expr>>, i: int)
    requires
        exprs_wf(es),
        0 <= i < es.len(),
    ensures
        expr_wf(es[i].node),
    decreases es.len(),
{
    if i < es.len() - 1 {
        lemma_exprs_wf_index(es.drop_last(), i);
    }
}

proof fn lemma_entries_wf_index(es: Seq<(Spanned<Expr>, Spanned<Expr>)>, i: int)
    requires
        entries_wf(es),
        0 <= i < es.len(),
    ensures
        expr_wf(es[i].0.node),
        expr_wf(es[i].1.node),
    decreases es.len(),
{
    if i < es.len() - 1 {
        lemma_entries_wf_index(es.drop_last(), i);
    }
}

pub proof fn lemma_clauses_wf_index(cs: Seq<LambdaClause>, i: int)
    requires
        clauses_wf(cs),
        0 <= i < cs.len(),
    ensures
        clause_wf(cs[i]),
    decreases cs.len(),
{
    if i < cs.len() - 1 {
        lemma_clauses_wf_index(cs.drop_last(), i);
    }
}

proof fn lemma_guards_wf_index(gs: Seq<GuardClause>, i: int)
    requires
        guards_wf(gs),
        0 <= i < gs.len(),
    ensures
        expr_wf(gs[i].body.node),
    decreases gs.len(),
{
    if i < gs.len() - 1 {
        lemma_guards_wf_index(gs.drop_last(), i);
    }
}

proof fn lemma_bindings_wf_index(bs: Seq<WithBinding>, i: int)
    requires
        bindings_wf(bs),
        0 <= i < bs.len(),
    ensures
        binding_wf(bs[i]),
    decreases bs.len(),
{
    if i < bs.len() - 1 {
        lemma_bindings_wf_index(bs.drop_last(), i);
    }
}

// =============================================================================
// PRINTING
// =============================================================================

/// `out` followed by the displays of `es` joined by `sep`.
pub fn push_exprs_display(out: &mut Vec<char>, es: &Vec<Spanned<Expr>>, sep: &str)
    requires
        exprs_wf(es@),
    ensures
        final(out)@ == old(out)@ + exprs_display(es@, sep@),
    decreases es,
{
    let ghost start = out@;
    let mut i: usize = 0;
    assert(es@.take(0) =~= Seq::<Spanned<Expr>>::empty());
    assert(out@ =~= start + exprs_display(es@.take(0), sep@));
    while i < es.len()
        invariant
            i <= es.len(),
            exprs_wf(es@),
            out@ == start + exprs_display(es@.take(i as int), sep@),
        decreases es.len() - i,
    {
        assert(es@.take(i + 1).drop_last() =~= es@.take(i as int));
        proof {
            lemma_exprs_wf_index(es@, i as int);
        }
        if i > 0 {
            push_str(out, sep);
        }
        push_expr_display(out, &es[i].node);
        assert(out@ =~= start + exprs_display(es@.take(i + 1), sep@));
        i = i + 1;
    }
    assert(es@.take(es@.len() as int) =~= es@);
}

/// `out` followed by the displays of `es`, each after a space.
pub fn push_args_display(out: &mut Vec<char>, es: &Vec<Spanned<Expr>>)
    requires
        exprs_wf(es@),
    ensures
        final(out)@ == old(out)@ + args_display(es@),
    decreases es,
{
    let ghost start = out@;
    let mut i: usize = 0;
    assert(es@.take(0) =~= Seq::<Spanned<Expr>>::empty());
    assert(out@ =~= start + args_display(es@.take(0)));
    while i < es.len()
        invariant
            i <= es.len(),
            exprs_wf(es@),
            out@ == start + args_display(es@.take(i as int)),
        decreases es.len() - i,
    {
        assert(es@.take(i + 1).drop_last() =~= es@.take(i as int));
        proof {
            lemma_exprs_wf_index(es@, i as int);
        }
        push_str(out, " ");
        push_expr_display(out, &es[i].node);
        assert(out@ =~= start + args_display(es@.take(i + 1)));
        i = i + 1;
    }
    assert(es@.take(es@.len() as int) =~= es@);
}

/// `out` followed by the elements of a tensor with `row` elements per row.
pub fn push_tensor_display(out: &mut Vec<char>, es: &Vec<Spanned<Expr>>, row: usize)
    requires
        exprs_wf(es@),
        es.len() > 1 ==> row > 0,
    ensures
        final(out)@ == old(out)@ + tensor_display(es@, row as nat),
    decreases es,
{
    let ghost start = out@;
    let mut i: usize = 0;
    assert(es@.take(0) =~= Seq::<Spanned<Expr>>::empty());
    assert(out@ =~= start + tensor_display(es@.take(0), row as nat));
    while i < es.len()
        invariant
            i <= es.len(),
            exprs_wf(es@),
            es.len() > 1 ==> row > 0,
            out@ == start + tensor_display(es@.take(i as int), row as nat),
        decreases es.len() - i,
    {
        assert(es@.take(i + 1).drop_last() =~= es@.take(i as int));
        proof {
            lemma_exprs_wf_index(es@, i as int);
        }
        if i > 0 {
            if i % row == 0 {
                push_str(out, " ; ");
            } else {
                push_str(out, " ");
            }
        }
        push_expr_display(out, &es[i].node);
        assert(out@ =~= start + tensor_display(es@.take(i + 1), row as nat));
        i = i + 1;
    }
    assert(es@.take(es@.len() as int) =~= es@);
}

/// `out` followed by the entries of a dictionary.
pub fn push_entries_display(out: &mut Vec<char>, es: &Vec<(Spanned<Expr>, Spanned<Expr>)>)
    requires
        entries_wf(es@),
    ensures
        final(out)@ == old(out)@ + entries_display(es@),
    decreases es,
{
    let ghost start = out@;
    let mut i: usize = 0;
    assert(es@.take(0) =~= Seq::<(Spanned<Expr>, Spanned<Expr>)>::empty());
    assert(out@ =~= start + entries_display(es@.take(0)));
    while i < es.len()
        invariant
            i <= es.len(),
            entries_wf(es@),
            out@ == start + entries_display(es@.take(i as int)),
        decreases es.len() - i,
    {
        assert(es@.take(i + 1).drop_last() =~= es@.take(i as int));
        proof {
            lemma_entries_wf_index(es@, i as int);
        }
        if i > 0 {
            push_str(out, " ");
        }
        push_str(out, "(");
        push_expr_display(out, &es[i].0.node);
        push_str(out, " ");
        push_expr_display(out, &es[i].1.node);
        push_str(out, ")");
        assert(out@ =~= start + entries_display(es@.take(i + 1)));
        i = i + 1;
    }
    assert(es@.take(es@.len() as int) =~= es@);
}

/// `out` followed by the clauses of a lambda.
pub fn push_clauses_display(out: &mut Vec<char>, cs: &Vec<LambdaClause>)
    requires
        clauses_wf(cs@),
    ensures
        final(out)@ == old(out)@ + clauses_display(cs@),
    decreases cs,
{
    let ghost start = out@;
    let mut i: usize = 0;
    assert(cs@.take(0) =~= Seq::<LambdaClause>::empty());
    assert(out@ =~= start + clauses_display(cs@.take(0)));
    while i < cs.len()
        invariant
            i <= cs.len(),
            clauses_wf(cs@),
            out@ == start + clauses_display(cs@.take(i as int)),
        decreases cs.len() - i,
    {
        assert(cs@.take(i + 1).drop_last() =~= cs@.take(i as int));
        proof {
            lemma_clauses_wf_index(cs@, i as int);
        }
        if i > 0 {
            push_str(out, "\n");
        }
        push_clause_display(out, &cs[i]);
        assert(out@ =~= start + clauses_display(cs@.take(i + 1)));
        i = i + 1;
    }
    assert(cs@.take(cs@.len() as int) =~= cs@);
}

/// `out` followed by the guards, each on a line of its own.
pub fn push_guards_display(out: &mut Vec<char>, gs: &Vec<GuardClause>)
    requires
        guards_wf(gs@),
    ensures
        final(out)@ == old(out)@ + guards_display(gs@),
    decreases gs,
{
    let ghost start = out@;
    let mut i: usize = 0;
    assert(gs@.take(0) =~= Seq::<GuardClause>::empty());
    assert(out@ =~= start + guards_display(gs@.take(0)));
    while i < gs.len()
        invariant
            i <= gs.len(),
            guards_wf(gs@),
            out@ == start + guards_display(gs@.take(i as int)),
        decreases gs.len() - i,
    {
        assert(gs@.take(i + 1).drop_last() =~= gs@.take(i as int));
        proof {
            lemma_guards_wf_index(gs@, i as int);
        }
        push_str(out, "\n    ");
        push_str(out, gs[i].label.0.as_str());
        push_str(out, ": ");
        push_expr_display(out, &gs[i].body.node);
        assert(out@ =~= start + guards_display(gs@.take(i + 1)));
        i = i + 1;
    }
    assert(gs@.take(gs@.len() as int) =~= gs@);
}

/// `out` followed by the bindings, each on a line of its own.
pub fn push_bindings_display(out: &mut Vec<char>, bs: &Vec<WithBinding>)
    requires
        bindings_wf(bs@),
    ensures
        final(out)@ == old(out)@ + bindings_display(bs@),
    decreases bs,
{
    let ghost start = out@;
    let mut i: usize = 0;
    assert(bs@.take(0) =~= Seq::<WithBinding>::empty());
    assert(out@ =~= start + bindings_display(bs@.take(0)));
    while i < bs.len()
        invariant
            i <= bs.len(),
            bindings_wf(bs@),
            out@ == start + bindings_display(bs@.take(i as int)),
        decreases bs.len() - i,
    {
        assert(bs@.take(i + 1).drop_last() =~= bs@.take(i as int));
        proof {
            lemma_bindings_wf_index(bs@, i as int);
        }
        push_str(out, "\n        ");
        push_binding_display(out, &bs[i]);
        assert(out@ =~= start + bindings_display(bs@.take(i + 1)));
        i = i + 1;
    }
    assert(bs@.take(bs@.len() as int) =~= bs@);
}

/// `out` followed by the display of a binding.
pub fn push_binding_display(out: &mut Vec<char>, b: &WithBinding)
    requires
        binding_wf(*b),
    ensures
        final(out)@ == old(out)@ + binding_display(*b),
    decreases b,
{
    match b {
        WithBinding::Value { name, value } => {
            push_str(out, name.0.as_str());
            push_str(out, " as ");
            push_expr_display(out, &value.node);
        },
        WithBinding::Signature { name, sig } => {
            push_str(out, name.0.as_str());
            push_str(out, " :: ");
            let s = sig.to_string();
            push_str(out, s.as_str());
        },
        WithBinding::Interface { typ, interface } => {
            push_type_display(out, typ);
            push_str(out, " implements ");
            push_str(out, interface.0.as_str());
        },
    }
    assert(out@ =~= old(out)@ + binding_display(*b));
}

/// `out` followed by the display of a lambda clause.
pub fn push_clause_display(out: &mut Vec<char>, c: &LambdaClause)
    requires
        clause_wf(*c),
    ensures
        final(out)@ == old(out)@ + clause_display(*c),
    decreases c,
{
    push_patterns_display(out, &c.patterns, " ");
    push_str(out, ":");
    if c.guards.len() > 0 {
        push_guards_display(out, &c.guards);
    } else {
        match &c.body {
            Some(b) => {
                push_str(out, " ");
                push_expr_display(out, &b.node);
            },
            None => {},
        }
    }
    if c.with.len() > 0 {
        push_str(out, "\n    with");
        push_bindings_display(out, &c.with);
    }
    assert(out@ =~= old(out)@ + clause_display(*c));
}

/// `out` followed by the display of an expression.
pub fn push_expr_display(out: &mut Vec<char>, e: &Expr)
    requires
        expr_wf(*e),
    ensures
        final(out)@ == old(out)@ + expr_display(*e),
    decreases e,
{
    match e {
        Expr::Literal(l) => l.push_display(out),
        Expr::Var { name, type_ascription } => {
            push_str(out, name.0.as_str());
            match type_ascription {
                Some(t) => {
                    push_str(out, "::");
                    push_type_display(out, t);
                },
                None => {},
            }
        },
        Expr::QualifiedRef(q) => {
            let s = q.to_string();
            push_str(out, s.as_str());
        },
        Expr::Tuple(es) => {
            push_str(out, "(");
            push_exprs_display(out, es, " ");
            push_str(out, ")");
        },
        Expr::List(es) => {
            push_str(out, "[");
            push_exprs_display(out, es, " ");
            push_str(out, "]");
        },
        Expr::Cons { head, tail } => {
            push_expr_display(out, &head.node);
            push_str(out, " : ");
            push_expr_display(out, &tail.node);
        },
        Expr::Array(es) => {
            push_str(out, "{");
            push_exprs_display(out, es, " ");
            push_str(out, "}");
        },
        Expr::Tensor { dimensions, elements } => {
            let row: usize = if dimensions.len() >= 2 {
                dimensions[1]
            } else {
                elements.len()
            };
            push_str(out, "{");
            push_tensor_display(out, elements, row);
            push_str(out, "}");
        },
        Expr::Range { start, end, step, inclusive } => {
            push_str(out, "[");
            push_expr_display(out, &start.node);
            match step {
                Some(s) => {
                    push_str(out, "..");
                    push_expr_display(out, &s.node);
                    push_str(out, "..");
                },
                None => push_str(out, ".."),
            }
            if *inclusive {
                push_str(out, "=");
            }
            push_expr_display(out, &end.node);
            push_str(out, "]");
        },
        Expr::Dict(entries) => {
            push_str(out, "Dict [");
            push_entries_display(out, entries);
            push_str(out, "]");
        },
        Expr::SetLiteral(es) => {
            push_str(out, "Set [");
            push_exprs_display(out, es, " ");
            push_str(out, "]");
        },
        Expr::Apply { func, args } => {
            push_expr_display(out, &func.node);
            push_args_display(out, args);
        },
        Expr::ExplicitApply { func, args } => {
            push_str(out, "$(");
            push_expr_display(out, &func.node);
            push_args_display(out, args);
            push_str(out, ")");
        },
        Expr::Method { object, method, args } => {
            push_expr_display(out, &object.node);
            push_str(out, ".");
            push_str(out, method.0.as_str());
            push_args_display(out, args);
        },
        Expr::Field { object, field } => {
            push_expr_display(out, &object.node);
            push_str(out, ".");
            push_str(out, field.0.as_str());
        },
        Expr::Index { object, index } => {
            push_str(out, "(");
            push_expr_display(out, &object.node);
            push_str(out, " .at ");
            push_expr_display(out, &index.node);
            push_str(out, ")");
        },
        Expr::Lambda { clauses } => {
            push_str(out, "λ ");
            push_clauses_display(out, clauses);
        },
        Expr::Hole => push_str(out, "_"),
        Expr::Pipeline { value, func } => {
            push_expr_display(out, &value.node);
            push_str(out, " |>");
            push_str(out, " ");
            push_expr_display(out, &func.node);
        },
        Expr::TypeCast { cast_type, value } => {
            let s = cast_type.to_string();
            push_str(out, s.as_str());
            push_str(out, " ");
            push_expr_display(out, &value.node);
        },
        Expr::Block(es) => push_exprs_display(out, es, "\n"),
        Expr::WithBlock { body, bindings } => {
            push_expr_display(out, &body.node);
            push_str(out, "\n    with");
            push_bindings_display(out, bindings);
        },
    }
    assert(out@ =~= old(out)@ + expr_display(*e));
}

// =============================================================================
// CONSTRUCTORS AND QUERIES
// =============================================================================

impl Expr {
    /// The literal expression `lit`.
    pub fn literal(lit: Literal) -> (r: Expr)
        ensures
            r == Expr::Literal(lit),
    {
        Expr::Literal(lit)
    }

    /// A reference to the variable `name`.
    pub fn var(name: &str) -> (r: Expr)
        ensures
            r matches Expr::Var { name: n, type_ascription: None } && n@ == name@,
    {
        Expr::Var { name: Ident::new(name), type_ascription: None }
    }

    /// A reference to the variable `name` with the type ascription `typ`.
    pub fn var_typed(name: &str, typ: Type) -> (r: Expr)
        ensures
            r matches Expr::Var { name: n, type_ascription: Some(t) } && n@ == name@ && t == typ,
    {
        Expr::Var { name: Ident::new(name), type_ascription: Some(typ) }
    }

    /// The tuple of `exprs`.
    pub fn tuple(exprs: Vec<Spanned<Expr>>) -> (r: Expr)
        ensures
            r == Expr::Tuple(exprs),
    {
        Expr::Tuple(exprs)
    }

    /// The list of `exprs`.
    pub fn list(exprs: Vec<Spanned<Expr>>) -> (r: Expr)
        ensures
            r == Expr::List(exprs),
    {
        Expr::List(exprs)
    }

    /// The array of `exprs`.
    pub fn array(exprs: Vec<Spanned<Expr>>) -> (r: Expr)
        ensures
            r == Expr::Array(exprs),
    {
        Expr::Array(exprs)
    }

    /// The application of `func` to `args`.
    pub fn apply(func: Spanned<Expr>, args: Vec<Spanned<Expr>>) -> (r: Expr)
        ensures
            r == (Expr::Apply { func: Box::new(func), args }),
    {
        Expr::Apply { func: Box::new(func), args }
    }

    /// The hole `_`.
    pub fn hole() -> (r: Expr)
        ensures
            r == Expr::Hole,
    {
        Expr::Hole
    }

    /// The pipeline `value |> func`.
    pub fn pipeline(value: Spanned<Expr>, func: Spanned<Expr>) -> (r: Expr)
        ensures
            r == (Expr::Pipeline { value: Box::new(value), func: Box::new(func) }),
    {
        Expr::Pipeline { value: Box::new(value), func: Box::new(func) }
    }

    /// Whether this is a literal.
    pub fn is_literal(&self) -> (r: bool)
        ensures
            r == (*self is Literal),
    {
        matches!(self, Expr::Literal(_))
    }

    /// Whether this is a variable reference.
    pub fn is_var(&self) -> (r: bool)
        ensures
            r == (*self is Var),
    {
        matches!(self, Expr::Var { .. })
    }

    /// Whether this is the hole `_`.
    pub fn is_hole(&self) -> (r: bool)
        ensures
            r == (*self is Hole),
    {
        matches!(self, Expr::Hole)
    }

    /// The expression as written.
    pub fn to_string(&self) -> (r: String)
        requires
            expr_wf(*self),
        ensures
            r@ == expr_display(*self),
    {
        let mut out: Vec<char> = Vec::new();
        push_expr_display(&mut out, self);
        assert(out@ =~= expr_display(*self));
        string_from_chars(&out)
    }
}

impl LambdaClause {
    /// The clause `patterns: body`, without guards or bindings.
    pub fn new(patterns: Vec<Spanned<Pattern>>, body: Spanned<Expr>) -> (r: LambdaClause)
        ensures
            r.patterns == patterns,
            r.guards@.len() == 0,
            r.body == Some(body),
            r.with@.len() == 0,
    {
        LambdaClause { patterns, guards: Vec::new(), body: Some(body), with: Vec::new() }
    }

    /// The clause with `guards` and an optional body, without bindings.
    pub fn with_guards(
        patterns: Vec<Spanned<Pattern>>,
        guards: Vec<GuardClause>,
        body: Option<Spanned<Expr>>,
    ) -> (r: LambdaClause)
        ensures
            r.patterns == patterns,
            r.guards == guards,
            r.body == body,
            r.with@.len() == 0,
    {
        LambdaClause { patterns, guards, body, with: Vec::new() }
    }

    /// The clause with guards, an optional body and the bindings `with`.
    pub fn with_bindings(
        patterns: Vec<Spanned<Pattern>>,
        guards: Vec<GuardClause>,
        body: Option<Spanned<Expr>>,
        with: Vec<WithBinding>,
    ) -> (r: LambdaClause)
        ensures
            r == (LambdaClause { patterns, guards, body, with }),
    {
        LambdaClause { patterns, guards, body, with }
    }

    /// The clause as written.
    pub fn to_string(&self) -> (r: String)
        requires
            clause_wf(*self),
        ensures
            r@ == clause_display(*self),
    {
        let mut out: Vec<char> = Vec::new();
        push_clause_display(&mut out, self);
        assert(out@ =~= clause_display(*self));
        string_from_chars(&out)
    }
}

impl GuardCondition {
    /// The condition as written.
    pub fn to_string(&self) -> (r: String)
        ensures
            r@ == guard_condition_display(*self),
    {
        let mut out: Vec<char> = Vec::new();
        match self {
            GuardCondition::Named(n) => push_str(&mut out, n.0.as_str()),
            GuardCondition::Otherwise => push_str(&mut out, "otherwise"),
        }
        assert(out@ =~= guard_condition_display(*self));
        string_from_chars(&out)
    }
}

impl WithBinding {
    /// The binding as written.
    pub fn to_string(&self) -> (r: String)
        requires
            binding_wf(*self),
        ensures
            r@ == binding_display(*self),
    {
        let mut out: Vec<char> = Vec::new();
        push_binding_display(&mut out, self);
        assert(out@ =~= binding_display(*self));
        string_from_chars(&out)
    }
}

} // verus!
