//! The dependency graph of the top-level declarations of a module, used to
//! check declarations in dependency order and to drop those that no entry
//! point reaches.

use vstd::prelude::*;
use crate::ast::Spanned;
use crate::ast::id::{Ident, qualified_display};
use crate::ast::types::{Type, FunctionSig};
use crate::ast::expr::{Expr, LambdaClause, WithBinding};
use crate::ast::stmt::{Stmt, MatchCase};
use crate::ast::decl::{Module, TopLevel, DataKind, VariantPayload, VariantDef, FieldDef};
use crate::text::{push_str, string_from_chars, str_eq};
use crate::type_checker::table::{
    Table, Entries, entry_insert, key_index, lemma_key_index, distinct_keys, entries_view,
};

verus! {

broadcast use vstd::string::group_string_axioms;

// =============================================================================
// DEPENDENCIES
// =============================================================================

/// The names a type refers to: every named type, with its parameters.
pub open spec fn type_deps(t: Type) -> Set<Seq<char>>
    decreases t,
{
    match t {
        Type::Named { name, params } => set![name.name@].union(types_deps(params@)),
        Type::Tuple(ts) => types_deps(ts@),
        Type::Function { params, return_type } => types_deps(params@).union(type_deps(*return_type)),
        Type::Refined { base, .. } => type_deps(*base),
        Type::Var(_) => Set::empty(),
    }
}

pub open spec fn types_deps(ts: Seq<Type>) -> Set<Seq<char>>
    decreases ts,
{
    if ts.len() == 0 {
        Set::empty()
    } else {
        types_deps(ts.drop_last()).union(type_deps(ts.last()))
    }
}

pub open spec fn sig_deps(s: FunctionSig) -> Set<Seq<char>> {
    types_deps(s.params@).union(type_deps(s.return_type))
}

/// The names a binding of a `with` block refers to.
pub open spec fn binding_deps(b: WithBinding) -> Set<Seq<char>>
    decreases b,
{
    match b {
        WithBinding::Value { value, .. } => expr_deps(value.node),
        WithBinding::Signature { sig, .. } => sig_deps(sig),
        WithBinding::Interface { typ, interface } => set![interface@].union(type_deps(typ)),
    }
}

pub open spec fn bindings_deps(bs: Seq<WithBinding>) -> Set<Seq<char>>
    decreases bs,
{
    if bs.len() == 0 {
        Set::empty()
    } else {
        bindings_deps(bs.drop_last()).union(binding_deps(bs.last()))
    }
}

/// The names a lambda clause refers to: in its body and its bindings.
pub open spec fn clause_deps(c: LambdaClause) -> Set<Seq<char>>
    decreases c,
{
    match c.body {
        Some(b) => expr_deps(b.node),
        None => Set::empty(),
    }.union(bindings_deps(c.with@))
}

pub open spec fn clauses_deps(cs: Seq<LambdaClause>) -> Set<Seq<char>>
    decreases cs,
{
    if cs.len() == 0 {
        Set::empty()
    } else {
        clauses_deps(cs.drop_last()).union(clause_deps(cs.last()))
    }
}

/// The names an expression refers to: variables, in applications,
/// pipelines, collections, lambdas and `with` blocks.
pub open spec fn expr_deps(e: Expr) -> Set<Seq<char>>
    decreases e,
{
    match e {
        Expr::Var { name, .. } => set![name@],
        Expr::Apply { func, args } | Expr::ExplicitApply { func, args } => expr_deps(func.node).union(
            exprs_deps(args@),
        ),
        Expr::Pipeline { value, func } => expr_deps(value.node).union(expr_deps(func.node)),
        Expr::Tuple(es) | Expr::List(es) | Expr::Array(es) | Expr::Block(es) => exprs_deps(es@),
        Expr::Cons { head, tail } => expr_deps(head.node).union(expr_deps(tail.node)),
        Expr::Lambda { clauses } => clauses_deps(clauses@),
        Expr::WithBlock { body, bindings } => expr_deps(body.node).union(bindings_deps(bindings@)),
        _ => Set::empty(),
    }
}

pub open spec fn exprs_deps(es: Seq<Spanned<Expr>>) -> Set<Seq<char>>
    decreases es,
{
    if es.len() == 0 {
        Set::empty()
    } else {
        exprs_deps(es.drop_last()).union(expr_deps(es.last().node))
    }
}

/// The names of a sequence of expressions include those of each of them.
proof fn lemma_exprs_deps_index(es: Seq<Spanned<Expr>>, i: int)
    requires
        0 <= i < es.len(),
    ensures
        expr_deps(es[i].node).subset_of(exprs_deps(es)),
    decreases es.len(),
{
    if i < es.len() - 1 {
        lemma_exprs_deps_index(es.drop_last(), i);
        assert(es.drop_last()[i] == es[i]);
    }
}

/// An expression depends on every name it uses, at any depth: a variable
/// on its own name, and an expression on every name that one of its parts
/// depends on: the function and each argument of an application, each
/// element of a collection or block, both sides of a cons or pipeline and
/// the body of a `with` block.
pub proof fn law_deps_cover_parts(e: Expr)
    ensures
        e matches Expr::Var { name, .. } ==> expr_deps(e).contains(name@),
        e matches Expr::Apply { func, args } ==> expr_deps(func.node).subset_of(expr_deps(e)) && forall|i: int|
            0 <= i < args@.len() ==> #[trigger] expr_deps(args@[i].node).subset_of(expr_deps(e)),
        e matches Expr::ExplicitApply { func, args } ==> expr_deps(func.node).subset_of(expr_deps(e)) && forall|i: int|
            0 <= i < args@.len() ==> #[trigger] expr_deps(args@[i].node).subset_of(expr_deps(e)),
        e matches Expr::Tuple(es) ==> forall|i: int|
            0 <= i < es@.len() ==> #[trigger] expr_deps(es@[i].node).subset_of(expr_deps(e)),
        e matches Expr::List(es) ==> forall|i: int|
            0 <= i < es@.len() ==> #[trigger] expr_deps(es@[i].node).subset_of(expr_deps(e)),
        e matches Expr::Array(es) ==> forall|i: int|
            0 <= i < es@.len() ==> #[trigger] expr_deps(es@[i].node).subset_of(expr_deps(e)),
        e matches Expr::Block(es) ==> forall|i: int|
            0 <= i < es@.len() ==> #[trigger] expr_deps(es@[i].node).subset_of(expr_deps(e)),
        e matches Expr::Cons { head, tail } ==> expr_deps(head.node).subset_of(expr_deps(e)) && expr_deps(
            tail.node,
        ).subset_of(expr_deps(e)),
        e matches Expr::Pipeline { value, func } ==> expr_deps(value.node).subset_of(expr_deps(e)) && expr_deps(
            func.node,
        ).subset_of(expr_deps(e)),
        e matches Expr::WithBlock { body, .. } ==> expr_deps(body.node).subset_of(expr_deps(e)),
        e matches Expr::WithBlock { bindings, .. } ==> forall|i: int|
            0 <= i < bindings@.len() ==> #[trigger] binding_deps(bindings@[i]).subset_of(expr_deps(e)),
        e matches Expr::Lambda { clauses } ==> forall|i: int|
            0 <= i < clauses@.len() ==> #[trigger] clause_deps(clauses@[i]).subset_of(expr_deps(e)),
{
    match e {
        Expr::WithBlock { bindings, .. } => {
            assert forall|i: int| 0 <= i < bindings@.len() implies #[trigger] binding_deps(bindings@[i]).subset_of(expr_deps(e)) by {
                lemma_bindings_deps_index(bindings@, i);
            }
        },
        Expr::Lambda { clauses } => {
            assert forall|i: int| 0 <= i < clauses@.len() implies #[trigger] clause_deps(clauses@[i]).subset_of(expr_deps(e)) by {
                lemma_clauses_deps_index(clauses@, i);
            }
        },
        Expr::Apply { func, args } | Expr::ExplicitApply { func, args } => {
            assert forall|i: int| 0 <= i < args@.len() implies #[trigger] expr_deps(args@[i].node).subset_of(expr_deps(e)) by {
                lemma_exprs_deps_index(args@, i);
            }
        },
        Expr::Tuple(es) | Expr::List(es) | Expr::Array(es) | Expr::Block(es) => {
            assert forall|i: int| 0 <= i < es@.len() implies #[trigger] expr_deps(es@[i].node).subset_of(expr_deps(e)) by {
                lemma_exprs_deps_index(es@, i);
            }
        },
        _ => {},
    }
}

/// The names a statement refers to.
pub open spec fn stmt_deps(s: Stmt) -> Set<Seq<char>>
    decreases s,
{
    match s {
        Stmt::Let { value, .. } | Stmt::Var { value, .. } | Stmt::Assign { value, .. } => expr_deps(
            value.node,
        ),
        Stmt::Expr(e) | Stmt::Return(e) => expr_deps(e.node),
        Stmt::Match { value, cases } => expr_deps(value.node).union(cases_deps(cases@)),
        Stmt::Loop { body } => stmts_deps(body@),
        Stmt::For { iterable, body, .. } => expr_deps(iterable.node).union(stmts_deps(body@)),
        _ => Set::empty(),
    }
}

pub open spec fn stmts_deps(ss: Seq<Spanned<Stmt>>) -> Set<Seq<char>>
    decreases ss,
{
    if ss.len() == 0 {
        Set::empty()
    } else {
        stmts_deps(ss.drop_last()).union(stmt_deps(ss.last().node))
    }
}

pub open spec fn cases_deps(cs: Seq<MatchCase>) -> Set<Seq<char>>
    decreases cs,
{
    if cs.len() == 0 {
        Set::empty()
    } else {
        cases_deps(cs.drop_last()).union(stmts_deps(cs.last().body@))
    }
}

pub open spec fn fields_deps(fs: Seq<FieldDef>) -> Set<Seq<char>>
    decreases fs.len(),
{
    if fs.len() == 0 {
        Set::empty()
    } else {
        fields_deps(fs.drop_last()).union(
            match fs.last().type_annotation {
                Some(t) => type_deps(t),
                None => Set::empty(),
            },
        )
    }
}

pub open spec fn variants_deps(vs: Seq<VariantDef>) -> Set<Seq<char>>
    decreases vs.len(),
{
    if vs.len() == 0 {
        Set::empty()
    } else {
        variants_deps(vs.drop_last()).union(
            match vs.last().payload {
                VariantPayload::Typed(t) => type_deps(t),
                _ => Set::empty(),
            },
        )
    }
}

/// The names a declaration depends on. A function depends on the types of
/// its signature and on the names in its clauses' bodies and bindings; an
/// action on its return type and its statements; a data or enum type on
/// the types of its fields or variants; a top-level statement on the names
/// it uses.
pub open spec fn decl_deps(d: TopLevel) -> Set<Seq<char>> {
    match d {
        TopLevel::Function(f) => sig_deps(f.sig).union(clauses_deps(f.clauses@)),
        TopLevel::Action(a) => match a.return_type {
            Some(t) => type_deps(t),
            None => Set::empty(),
        }.union(stmts_deps(a.body@)),
        TopLevel::Data(d) => match d.kind {
            DataKind::Product(fs) => fields_deps(fs@),
            DataKind::Refinement(t) => type_deps(t),
        },
        TopLevel::Enum(e) => variants_deps(e.variants@),
        TopLevel::Statement(s) => stmt_deps(s),
        _ => Set::empty(),
    }
}

proof fn lemma_clauses_deps_index(cs: Seq<LambdaClause>, i: int)
    requires
        0 <= i < cs.len(),
    ensures
        clause_deps(cs[i]).subset_of(clauses_deps(cs)),
    decreases cs.len(),
{
    if i < cs.len() - 1 {
        lemma_clauses_deps_index(cs.drop_last(), i);
        assert(cs.drop_last()[i] == cs[i]);
    }
}

proof fn lemma_bindings_deps_index(bs: Seq<WithBinding>, i: int)
    requires
        0 <= i < bs.len(),
    ensures
        binding_deps(bs[i]).subset_of(bindings_deps(bs)),
    decreases bs.len(),
{
    if i < bs.len() - 1 {
        lemma_bindings_deps_index(bs.drop_last(), i);
        assert(bs.drop_last()[i] == bs[i]);
    }
}

proof fn lemma_stmts_deps_index(ss: Seq<Spanned<Stmt>>, i: int)
    requires
        0 <= i < ss.len(),
    ensures
        stmt_deps(ss[i].node).subset_of(stmts_deps(ss)),
    decreases ss.len(),
{
    if i < ss.len() - 1 {
        lemma_stmts_deps_index(ss.drop_last(), i);
        assert(ss.drop_last()[i] == ss[i]);
    }
}

/// A clause depends on the names of its body and of the values it binds.
pub proof fn law_clause_deps_cover_parts(c: LambdaClause)
    ensures
        c.body matches Some(b) ==> expr_deps(b.node).subset_of(clause_deps(c)),
        forall|i: int|
            0 <= i < c.with@.len() && (#[trigger] c.with@[i]) is Value ==> expr_deps(
                c.with@[i]->Value_value.node,
            ).subset_of(clause_deps(c)),
{
    assert forall|i: int|
        0 <= i < c.with@.len() && (#[trigger] c.with@[i]) is Value implies expr_deps(
            c.with@[i]->Value_value.node,
        ).subset_of(clause_deps(c)) by {
        lemma_bindings_deps_index(c.with@, i);
    }
}

/// A statement depends on the names of the expressions it evaluates and of
/// the statements it holds.
pub proof fn law_stmt_deps_cover_parts(s: Stmt)
    ensures
        s matches Stmt::Let { value, .. } ==> expr_deps(value.node).subset_of(stmt_deps(s)),
        s matches Stmt::Var { value, .. } ==> expr_deps(value.node).subset_of(stmt_deps(s)),
        s matches Stmt::Assign { value, .. } ==> expr_deps(value.node).subset_of(stmt_deps(s)),
        s matches Stmt::Expr(e) ==> expr_deps(e.node).subset_of(stmt_deps(s)),
        s matches Stmt::Return(e) ==> expr_deps(e.node).subset_of(stmt_deps(s)),
        s matches Stmt::Match { value, .. } ==> expr_deps(value.node).subset_of(stmt_deps(s)),
        s matches Stmt::For { iterable, .. } ==> expr_deps(iterable.node).subset_of(stmt_deps(s)),
        s matches Stmt::Loop { body } ==> forall|i: int|
            0 <= i < body@.len() ==> #[trigger] stmt_deps(body@[i].node).subset_of(stmt_deps(s)),
        s matches Stmt::For { body, .. } ==> forall|i: int|
            0 <= i < body@.len() ==> #[trigger] stmt_deps(body@[i].node).subset_of(stmt_deps(s)),
{
    match s {
        Stmt::Loop { body } | Stmt::For { body, .. } => {
            assert forall|i: int| 0 <= i < body@.len() implies #[trigger] stmt_deps(body@[i].node).subset_of(stmt_deps(s)) by {
                lemma_stmts_deps_index(body@, i);
            }
        },
        _ => {},
    }
}

/// A declaration depends on the names its bodies use: a function on those
/// of each of its clauses, an action on those of each of its statements,
/// and a top-level statement on its own.
pub proof fn law_decl_deps_cover_bodies(d: TopLevel)
    ensures
        d matches TopLevel::Function(f) ==> forall|i: int|
            0 <= i < f.clauses@.len() ==> #[trigger] clause_deps(f.clauses@[i]).subset_of(decl_deps(d)),
        d matches TopLevel::Action(a) ==> forall|i: int|
            0 <= i < a.body@.len() ==> #[trigger] stmt_deps(a.body@[i].node).subset_of(decl_deps(d)),
        d matches TopLevel::Statement(s) ==> stmt_deps(s).subset_of(decl_deps(d)),
{
    match d {
        TopLevel::Function(f) => {
            assert forall|i: int| 0 <= i < f.clauses@.len() implies #[trigger] clause_deps(f.clauses@[i]).subset_of(decl_deps(d)) by {
                lemma_clauses_deps_index(f.clauses@, i);
            }
        },
        TopLevel::Action(a) => {
            assert forall|i: int| 0 <= i < a.body@.len() implies #[trigger] stmt_deps(a.body@[i].node).subset_of(decl_deps(d)) by {
                lemma_stmts_deps_index(a.body@, i);
            }
        },
        _ => {},
    }
}

/// The name of a declaration in the graph. An implementation is named
/// `impl_Type_INTERFACE`; top-level statements, imports and exports share a
/// name each.
pub open spec fn decl_id(d: TopLevel) -> Seq<char> {
    match d {
        TopLevel::Function(f) => f.name@,
        TopLevel::Action(a) => a.name@,
        TopLevel::Data(d) => d.name@,
        TopLevel::Enum(e) => e.name@,
        TopLevel::Interface(i) => i.name@,
        TopLevel::Implements(i) => "impl_"@ + qualified_display(i.for_type@) + "_"@ + i.interface@,
        TopLevel::Alias(a) => a.name@,
        TopLevel::Statement(_) => "__top_level_stmt"@,
        TopLevel::Import(_) => "__import"@,
        TopLevel::Export(_) => "__export"@,
    }
}

// =============================================================================
// COLLECTING DEPENDENCIES
// =============================================================================

/// The names held by a vector of identifiers.
pub open spec fn ident_set(v: Seq<Ident>) -> Set<Seq<char>> {
    Set::new(|x: Seq<char>| exists|i: int| 0 <= i < v.len() && (#[trigger] v[i])@ == x)
}

/// Whether no name occurs twice in a vector of identifiers.
pub open spec fn idents_distinct(v: Seq<Ident>) -> bool {
    forall|i: int, j: int| 0 <= i < j < v.len() ==> v[i]@ != v[j]@
}

fn add_dep(deps: &mut Vec<Ident>, name: &str)
    requires
        idents_distinct(old(deps)@),
    ensures
        idents_distinct(final(deps)@),
        ident_set(final(deps)@) == ident_set(old(deps)@).insert(name@),
{
    let mut i: usize = 0;
    while i < deps.len()
        invariant
            i <= deps.len(),
            deps@ == old(deps)@,
            idents_distinct(deps@),
            forall|k: int| 0 <= k < i ==> deps@[k]@ != name@,
        decreases deps.len() - i,
    {
        if str_eq(deps[i].0.as_str(), name) {
            assert(ident_set(deps@) =~= ident_set(deps@).insert(name@)) by {
                assert(deps@[i as int]@ == name@);
            }
            return;
        }
        i = i + 1;
    }
    let ghost before = deps@;
    deps.push(Ident::new(name));
    assert(ident_set(deps@) =~= ident_set(before).insert(name@)) by {
        assert forall|y: Seq<char>| ident_set(before).insert(name@).contains(y) implies ident_set(deps@).contains(y) by {
            if y == name@ {
                assert(deps@[before.len() as int]@ == y);
            } else {
                let k = choose|k: int| 0 <= k < before.len() && (#[trigger] before[k])@ == y;
                assert(deps@[k]@ == y);
            }
        }
    }
}

fn collect_type_deps(t: &Type, deps: &mut Vec<Ident>)
    requires
        idents_distinct(old(deps)@),
    ensures
        idents_distinct(final(deps)@),
        ident_set(final(deps)@) == ident_set(old(deps)@).union(type_deps(*t)),
    decreases t,
{
    match t {
        Type::Named { name, params } => {
            add_dep(deps, name.name.as_str());
            collect_types_deps(params, deps);
        },
        Type::Tuple(ts) => collect_types_deps(ts, deps),
        Type::Function { params, return_type } => {
            collect_types_deps(params, deps);
            collect_type_deps(return_type, deps);
        },
        Type::Refined { base, .. } => collect_type_deps(base, deps),
        Type::Var(_) => {},
    }
    assert(ident_set(deps@) =~= ident_set(old(deps)@).union(type_deps(*t)));
}

fn collect_types_deps(v: &Vec<Type>, deps: &mut Vec<Ident>)
    requires
        idents_distinct(old(deps)@),
    ensures
        idents_distinct(final(deps)@),
        ident_set(final(deps)@) == ident_set(old(deps)@).union(types_deps(v@)),
    decreases v,
{
    let ghost start = ident_set(deps@);
    let mut i: usize = 0;
    assert(v@.take(0) =~= Seq::<Type>::empty());
    assert(ident_set(deps@) =~= start.union(types_deps(v@.take(0))));
    while i < v.len()
        invariant
            i <= v.len(),
            idents_distinct(deps@),
            ident_set(deps@) == start.union(types_deps(v@.take(i as int))),
        decreases v.len() - i,
    {
        assert(v@.take(i + 1).drop_last() =~= v@.take(i as int));
        collect_type_deps(&v[i], deps);
        assert(ident_set(deps@) =~= start.union(types_deps(v@.take(i + 1))));
        i = i + 1;
    }
    assert(v@.take(v@.len() as int) =~= v@);
}

fn collect_sig_deps(sig: &FunctionSig, deps: &mut Vec<Ident>)
    requires
        idents_distinct(old(deps)@),
    ensures
        idents_distinct(final(deps)@),
        ident_set(final(deps)@) == ident_set(old(deps)@).union(sig_deps(*sig)),
{
    collect_types_deps(&sig.params, deps);
    collect_type_deps(&sig.return_type, deps);
    assert(ident_set(deps@) =~= ident_set(old(deps)@).union(sig_deps(*sig)));
}

fn collect_binding_deps(b: &WithBinding, deps: &mut Vec<Ident>)
    requires
        idents_distinct(old(deps)@),
    ensures
        idents_distinct(final(deps)@),
        ident_set(final(deps)@) == ident_set(old(deps)@).union(binding_deps(*b)),
    decreases b,
{
    match b {
        WithBinding::Value { value, .. } => collect_expr_deps(&value.node, deps),
        WithBinding::Signature { sig, .. } => collect_sig_deps(sig, deps),
        WithBinding::Interface { typ, interface } => {
            add_dep(deps, interface.0.as_str());
            collect_type_deps(typ, deps);
        },
    }
    assert(ident_set(deps@) =~= ident_set(old(deps)@).union(binding_deps(*b)));
}

fn collect_bindings_deps(v: &Vec<WithBinding>, deps: &mut Vec<Ident>)
    requires
        idents_distinct(old(deps)@),
    ensures
        idents_distinct(final(deps)@),
        ident_set(final(deps)@) == ident_set(old(deps)@).union(bindings_deps(v@)),
    decreases v,
{
    let ghost start = ident_set(deps@);
    let mut i: usize = 0;
    assert(v@.take(0) =~= Seq::<WithBinding>::empty());
    assert(ident_set(deps@) =~= start.union(bindings_deps(v@.take(0))));
    while i < v.len()
        invariant
            i <= v.len(),
            idents_distinct(deps@),
            ident_set(deps@) == start.union(bindings_deps(v@.take(i as int))),
        decreases v.len() - i,
    {
        assert(v@.take(i + 1).drop_last() =~= v@.take(i as int));
        collect_binding_deps(&v[i], deps);
        assert(ident_set(deps@) =~= start.union(bindings_deps(v@.take(i + 1))));
        i = i + 1;
    }
    assert(v@.take(v@.len() as int) =~= v@);
}

fn collect_clause_deps(c: &LambdaClause, deps: &mut Vec<Ident>)
    requires
        idents_distinct(old(deps)@),
    ensures
        idents_distinct(final(deps)@),
        ident_set(final(deps)@) == ident_set(old(deps)@).union(clause_deps(*c)),
    decreases c,
{
    match &c.body {
        Some(b) => collect_expr_deps(&b.node, deps),
        None => {},
    }
    collect_bindings_deps(&c.with, deps);
    assert(ident_set(deps@) =~= ident_set(old(deps)@).union(clause_deps(*c)));
}

fn collect_clauses_deps(v: &Vec<LambdaClause>, deps: &mut Vec<Ident>)
    requires
        idents_distinct(old(deps)@),
    ensures
        idents_distinct(final(deps)@),
        ident_set(final(deps)@) == ident_set(old(deps)@).union(clauses_deps(v@)),
    decreases v,
{
    let ghost start = ident_set(deps@);
    let mut i: usize = 0;
    assert(v@.take(0) =~= Seq::<LambdaClause>::empty());
    assert(ident_set(deps@) =~= start.union(clauses_deps(v@.take(0))));
    while i < v.len()
        invariant
            i <= v.len(),
            idents_distinct(deps@),
            ident_set(deps@) == start.union(clauses_deps(v@.take(i as int))),
        decreases v.len() - i,
    {
        assert(v@.take(i + 1).drop_last() =~= v@.take(i as int));
        collect_clause_deps(&v[i], deps);
        assert(ident_set(deps@) =~= start.union(clauses_deps(v@.take(i + 1))));
        i = i + 1;
    }
    assert(v@.take(v@.len() as int) =~= v@);
}

fn collect_expr_deps(e: &Expr, deps: &mut Vec<Ident>)
    requires
        idents_distinct(old(deps)@),
    ensures
        idents_distinct(final(deps)@),
        ident_set(final(deps)@) == ident_set(old(deps)@).union(expr_deps(*e)),
    decreases e,
{
    match e {
        Expr::Var { name, .. } => add_dep(deps, name.0.as_str()),
        Expr::Apply { func, args } | Expr::ExplicitApply { func, args } => {
            collect_expr_deps(&func.node, deps);
            collect_exprs_deps(args, deps);
        },
        Expr::Pipeline { value, func } => {
            collect_expr_deps(&value.node, deps);
            collect_expr_deps(&func.node, deps);
        },
        Expr::Tuple(es) | Expr::List(es) | Expr::Array(es) | Expr::Block(es) => collect_exprs_deps(es, deps),
        Expr::Cons { head, tail } => {
            collect_expr_deps(&head.node, deps);
            collect_expr_deps(&tail.node, deps);
        },
        Expr::Lambda { clauses } => collect_clauses_deps(clauses, deps),
        Expr::WithBlock { body, bindings } => {
            collect_expr_deps(&body.node, deps);
            collect_bindings_deps(bindings, deps);
        },
        _ => {},
    }
    assert(ident_set(deps@) =~= ident_set(old(deps)@).union(expr_deps(*e)));
}

fn collect_exprs_deps(v: &Vec<Spanned<Expr>>, deps: &mut Vec<Ident>)
    requires
        idents_distinct(old(deps)@),
    ensures
        idents_distinct(final(deps)@),
        ident_set(final(deps)@) == ident_set(old(deps)@).union(exprs_deps(v@)),
    decreases v,
{
    let ghost start = ident_set(deps@);
    let mut i: usize = 0;
    assert(v@.take(0) =~= Seq::<Spanned<Expr>>::empty());
    assert(ident_set(deps@) =~= start.union(exprs_deps(v@.take(0))));
    while i < v.len()
        invariant
            i <= v.len(),
            idents_distinct(deps@),
            ident_set(deps@) == start.union(exprs_deps(v@.take(i as int))),
        decreases v.len() - i,
    {
        assert(v@.take(i + 1).drop_last() =~= v@.take(i as int));
        collect_expr_deps(&v[i].node, deps);
        assert(ident_set(deps@) =~= start.union(exprs_deps(v@.take(i + 1))));
        i = i + 1;
    }
    assert(v@.take(v@.len() as int) =~= v@);
}

fn collect_stmt_deps(st: &Stmt, deps: &mut Vec<Ident>)
    requires
        idents_distinct(old(deps)@),
    ensures
        idents_distinct(final(deps)@),
        ident_set(final(deps)@) == ident_set(old(deps)@).union(stmt_deps(*st)),
    decreases st,
{
    match st {
        Stmt::Let { value, .. } | Stmt::Var { value, .. } | Stmt::Assign { value, .. } => {
            collect_expr_deps(&value.node, deps)
        },
        Stmt::Expr(e) | Stmt::Return(e) => collect_expr_deps(&e.node, deps),
        Stmt::Match { value, cases } => {
            collect_expr_deps(&value.node, deps);
            collect_cases_deps(cases, deps);
        },
        Stmt::Loop { body } => collect_stmts_deps(body, deps),
        Stmt::For { iterable, body, .. } => {
            collect_expr_deps(&iterable.node, deps);
            collect_stmts_deps(body, deps);
        },
        _ => {},
    }
    assert(ident_set(deps@) =~= ident_set(old(deps)@).union(stmt_deps(*st)));
}

fn collect_stmts_deps(v: &Vec<Spanned<Stmt>>, deps: &mut Vec<Ident>)
    requires
        idents_distinct(old(deps)@),
    ensures
        idents_distinct(final(deps)@),
        ident_set(final(deps)@) == ident_set(old(deps)@).union(stmts_deps(v@)),
    decreases v,
{
    let ghost start = ident_set(deps@);
    let mut i: usize = 0;
    assert(v@.take(0) =~= Seq::<Spanned<Stmt>>::empty());
    assert(ident_set(deps@) =~= start.union(stmts_deps(v@.take(0))));
    while i < v.len()
        invariant
            i <= v.len(),
            idents_distinct(deps@),
            ident_set(deps@) == start.union(stmts_deps(v@.take(i as int))),
        decreases v.len() - i,
    {
        assert(v@.take(i + 1).drop_last() =~= v@.take(i as int));
        collect_stmt_deps(&v[i].node, deps);
        assert(ident_set(deps@) =~= start.union(stmts_deps(v@.take(i + 1))));
        i = i + 1;
    }
    assert(v@.take(v@.len() as int) =~= v@);
}

fn collect_cases_deps(v: &Vec<MatchCase>, deps: &mut Vec<Ident>)
    requires
        idents_distinct(old(deps)@),
    ensures
        idents_distinct(final(deps)@),
        ident_set(final(deps)@) == ident_set(old(deps)@).union(cases_deps(v@)),
    decreases v,
{
    let ghost start = ident_set(deps@);
    let mut i: usize = 0;
    assert(v@.take(0) =~= Seq::<MatchCase>::empty());
    assert(ident_set(deps@) =~= start.union(cases_deps(v@.take(0))));
    while i < v.len()
        invariant
            i <= v.len(),
            idents_distinct(deps@),
            ident_set(deps@) == start.union(cases_deps(v@.take(i as int))),
        decreases v.len() - i,
    {
        assert(v@.take(i + 1).drop_last() =~= v@.take(i as int));
        collect_stmts_deps(&v[i].body, deps);
        assert(ident_set(deps@) =~= start.union(cases_deps(v@.take(i + 1))));
        i = i + 1;
    }
    assert(v@.take(v@.len() as int) =~= v@);
}

fn collect_fields_deps(v: &Vec<FieldDef>, deps: &mut Vec<Ident>)
    requires
        idents_distinct(old(deps)@),
    ensures
        idents_distinct(final(deps)@),
        ident_set(final(deps)@) == ident_set(old(deps)@).union(fields_deps(v@)),
    decreases v,
{
    let ghost start = ident_set(deps@);
    let mut i: usize = 0;
    assert(v@.take(0) =~= Seq::<FieldDef>::empty());
    assert(ident_set(deps@) =~= start.union(fields_deps(v@.take(0))));
    while i < v.len()
        invariant
            i <= v.len(),
            idents_distinct(deps@),
            ident_set(deps@) == start.union(fields_deps(v@.take(i as int))),
        decreases v.len() - i,
    {
        assert(v@.take(i + 1).drop_last() =~= v@.take(i as int));
        match &v[i].type_annotation {
            Some(t) => collect_type_deps(t, deps),
            None => {},
        }
        assert(ident_set(deps@) =~= start.union(fields_deps(v@.take(i + 1))));
        i = i + 1;
    }
    assert(v@.take(v@.len() as int) =~= v@);
}

fn collect_variants_deps(v: &Vec<VariantDef>, deps: &mut Vec<Ident>)
    requires
        idents_distinct(old(deps)@),
    ensures
        idents_distinct(final(deps)@),
        ident_set(final(deps)@) == ident_set(old(deps)@).union(variants_deps(v@)),
    decreases v,
{
    let ghost start = ident_set(deps@);
    let mut i: usize = 0;
    assert(v@.take(0) =~= Seq::<VariantDef>::empty());
    assert(ident_set(deps@) =~= start.union(variants_deps(v@.take(0))));
    while i < v.len()
        invariant
            i <= v.len(),
            idents_distinct(deps@),
            ident_set(deps@) == start.union(variants_deps(v@.take(i as int))),
        decreases v.len() - i,
    {
        assert(v@.take(i + 1).drop_last() =~= v@.take(i as int));
        match &v[i].payload {
            VariantPayload::Typed(t) => collect_type_deps(t, deps),
            _ => {},
        }
        assert(ident_set(deps@) =~= start.union(variants_deps(v@.take(i + 1))));
        i = i + 1;
    }
    assert(v@.take(v@.len() as int) =~= v@);
}

/// The names `d` depends on, each once.
fn find_dependencies(d: &TopLevel) -> (r: Vec<Ident>)
    ensures
        idents_distinct(r@),
        ident_set(r@) == decl_deps(*d),
{
    let mut deps: Vec<Ident> = Vec::new();
    assert(ident_set(deps@) =~= Set::<Seq<char>>::empty());
    match d {
        TopLevel::Function(f) => {
            collect_sig_deps(&f.sig, &mut deps);
            collect_clauses_deps(&f.clauses, &mut deps);
        },
        TopLevel::Action(a) => {
            match &a.return_type {
                Some(t) => collect_type_deps(t, &mut deps),
                None => {},
            }
            collect_stmts_deps(&a.body, &mut deps);
        },
        TopLevel::Data(x) => match &x.kind {
            DataKind::Product(fs) => collect_fields_deps(fs, &mut deps),
            DataKind::Refinement(t) => collect_type_deps(t, &mut deps),
        },
        TopLevel::Enum(e) => collect_variants_deps(&e.variants, &mut deps),
        TopLevel::Statement(st) => collect_stmt_deps(st, &mut deps),
        _ => {},
    }
    assert(ident_set(deps@) =~= decl_deps(*d));
    deps
}

/// The name of `d` in the graph.
fn get_declaration_id(d: &TopLevel) -> (r: Ident)
    ensures
        r@ == decl_id(*d),
{
    match d {
        TopLevel::Function(f) => f.name.copy(),
        TopLevel::Action(a) => a.name.copy(),
        TopLevel::Data(x) => x.name.copy(),
        TopLevel::Enum(e) => e.name.copy(),
        TopLevel::Interface(i) => i.name.copy(),
        TopLevel::Implements(i) => {
            let mut out: Vec<char> = Vec::new();
            push_str(&mut out, "impl_");
            let q = i.for_type.to_string();
            push_str(&mut out, q.as_str());
            push_str(&mut out, "_");
            push_str(&mut out, i.interface.0.as_str());
            assert(out@ =~= decl_id(*d));
            Ident(string_from_chars(&out))
        },
        TopLevel::Alias(a) => a.name.copy(),
        TopLevel::Statement(_) => Ident::new("__top_level_stmt"),
        TopLevel::Import(_) => Ident::new("__import"),
        TopLevel::Export(_) => Ident::new("__export"),
    }
}

// =============================================================================
// THE GRAPH
// =============================================================================

/// A declaration with its name and the names it depends on.
#[derive(Debug)]
pub struct DependencyNode {
    pub id: Ident,
    /// The names the declaration depends on, each once.
    pub dependencies: Vec<Ident>,
    pub declaration: Spanned<TopLevel>,
}

/// The dependency graph of a module: one node per declaration name, in
/// the order the names first occur.
#[derive(Debug)]
pub struct DependencyGraph {
    pub nodes: Table<DependencyNode>,
}

/// What the graph records of a node: its name, its dependencies and its
/// declaration.
pub open spec fn node_view(n: DependencyNode) -> (Seq<char>, Set<Seq<char>>, Spanned<TopLevel>) {
    (n.id@, ident_set(n.dependencies@), n.declaration)
}

/// The nodes of a graph, by name.
pub open spec fn graph_view(g: DependencyGraph) -> Entries<(Seq<char>, Set<Seq<char>>, Spanned<TopLevel>)> {
    g.nodes.entries().map_values(
        |e: (Seq<char>, DependencyNode)| (e.0, node_view(e.1)),
    )
}

/// The nodes built from `decls` in order; a later declaration replaces an
/// earlier one of the same name.
pub open spec fn build_graph(decls: Seq<Spanned<TopLevel>>) -> Entries<
    (Seq<char>, Set<Seq<char>>, Spanned<TopLevel>),
>
    decreases decls.len(),
{
    if decls.len() == 0 {
        Seq::empty()
    } else {
        let d = decls.last();
        entry_insert(
            build_graph(decls.drop_last()),
            decl_id(d.node),
            (decl_id(d.node), decl_deps(d.node), d),
        )
    }
}

proof fn lemma_graph_view_insert(e: Entries<DependencyNode>, k: Seq<char>, n: DependencyNode)
    ensures
        entry_insert(e, k, n).map_values(|x: (Seq<char>, DependencyNode)| (x.0, node_view(x.1)))
            == entry_insert(
            e.map_values(|x: (Seq<char>, DependencyNode)| (x.0, node_view(x.1))),
            k,
            node_view(n),
        ),
{
    let f = |x: (Seq<char>, DependencyNode)| (x.0, node_view(x.1));
    lemma_map_key_index(e, k);
    lemma_key_index(e, k);
    assert(entry_insert(e, k, n).map_values(f) =~= entry_insert(e.map_values(f), k, node_view(n)));
}

proof fn lemma_map_key_index(e: Entries<DependencyNode>, k: Seq<char>)
    ensures
        key_index(e.map_values(|x: (Seq<char>, DependencyNode)| (x.0, node_view(x.1))), k) == key_index(e, k),
    decreases e.len(),
{
    let f = |x: (Seq<char>, DependencyNode)| (x.0, node_view(x.1));
    if e.len() > 0 {
        assert(e.drop_last().map_values(f) =~= e.map_values(f).drop_last());
        lemma_map_key_index(e.drop_last(), k);
    }
}

impl DependencyGraph {
    /// The graph of the declarations of `module`, which it takes over.
    pub fn from_module(module: Module) -> (r: DependencyGraph)
        ensures
            graph_view(r) == build_graph(module.declarations@),
    {
        let ghost all = module.declarations@;
        let mut decls = module.declarations;
        let mut nodes: Table<DependencyNode> = Table::new();
        let mut i: usize = 0;
        let n = decls.len();
        assert(all.take(0) =~= Seq::<Spanned<TopLevel>>::empty());
        assert(graph_view(DependencyGraph { nodes }) =~= build_graph(all.take(0)));
        while i < n
            invariant
                i <= n,
                n == all.len(),
                decls@ == all.skip(i as int),
                graph_view(DependencyGraph { nodes }) == build_graph(all.take(i as int)),
            decreases n - i,
        {
            assert(all.take(i + 1).drop_last() =~= all.take(i as int));
            let decl = decls.remove(0);
            assert(decls@ =~= all.skip(i + 1));
            let id = get_declaration_id(&decl.node);
            let dependencies = find_dependencies(&decl.node);
            let key = id.0.clone();
            let node = DependencyNode { id, dependencies, declaration: decl };
            proof {
                lemma_graph_view_insert(nodes.entries(), key@, node);
            }
            nodes.insert(key, node);
            i = i + 1;
        }
        assert(all.take(n as int) =~= all);
        DependencyGraph { nodes }
    }
}

// =============================================================================
// DEPENDENCY ORDER
// =============================================================================

/// Whether node `i` depends on node `j` (a node may depend on itself).
pub open spec fn depends(g: DependencyGraph, i: int, j: int) -> bool {
    let v = graph_view(g);
    0 <= i < v.len() && 0 <= j < v.len() && v[i].1.1.contains(v[j].0)
}

/// Whether node `i` depends on a node `j` other than itself.
pub open spec fn edge(g: DependencyGraph, i: int, j: int) -> bool {
    depends(g, i, j) && i != j
}

/// Whether each node of `p` depends on the next, another node.
pub open spec fn is_path(g: DependencyGraph, p: Seq<int>) -> bool {
    forall|k: int| 0 <= k < p.len() - 1 ==> edge(g, #[trigger] p[k], p[k + 1])
}

/// Whether no declaration depends, through one or more others, on itself
/// (a declaration that refers to itself alone, such as a recursive
/// function, is no cycle).
pub open spec fn acyclic(g: DependencyGraph) -> bool {
    forall|p: Seq<int>| #[trigger] is_path(g, p) && p.len() >= 2 ==> p[0] != p.last()
}

/// Whether every node of `r` comes after the other nodes it depends on.
pub open spec fn ordered(g: DependencyGraph, r: Seq<int>) -> bool {
    forall|a: int, b: int| 0 <= a < r.len() && #[trigger] edge(g, r[a], b) ==> r.take(a).contains(b)
}

/// Whether `r` holds each node of `g` exactly once.
pub open spec fn is_permutation(g: DependencyGraph, r: Seq<int>) -> bool {
    &&& r.len() == graph_view(g).len()
    &&& r.no_duplicates()
    &&& forall|k: int| 0 <= k < r.len() ==> 0 <= #[trigger] r[k] < r.len()
}

/// Whether `adj` lists, for each node, the nodes it depends on.
pub open spec fn adjacency_of(g: DependencyGraph, adj: Seq<Vec<usize>>) -> bool {
    &&& adj.len() == graph_view(g).len()
    &&& forall|i: int, k: int|
        0 <= i < adj.len() && 0 <= k < adj[i]@.len() ==> #[trigger] adj[i]@[k] < adj.len()
    &&& forall|i: int, j: int|
        0 <= i < adj.len() && 0 <= j < adj.len() ==> (depends(g, i, j) <==> #[trigger] adj[i]@.contains(
            j as usize,
        ))
}

proof fn lemma_graph_view_index(g: DependencyGraph, i: int)
    requires
        0 <= i < g.nodes.entries().len(),
    ensures
        graph_view(g).len() == g.nodes.entries().len(),
        graph_view(g)[i] == (g.nodes.entries()[i].0, node_view(g.nodes.entries()[i].1)),
{
}

impl DependencyGraph {
    fn adjacency(&self) -> (adj: Vec<Vec<usize>>)
        ensures
            adjacency_of(*self, adj@),
    {
        let n = self.nodes.len();
        let mut adj: Vec<Vec<usize>> = Vec::new();
        let mut i: usize = 0;
        while i < n
            invariant
                i <= n,
                n == self.nodes.entries().len(),
                distinct_keys(self.nodes.entries()),
                adj@.len() == i,
                forall|a: int, k: int|
                    0 <= a < i && 0 <= k < adj@[a]@.len() ==> #[trigger] adj@[a]@[k] < n,
                forall|a: int, j: int|
                    0 <= a < i && 0 <= j < n ==> (depends(*self, a, j) <==> #[trigger] adj@[a]@.contains(
                        j as usize,
                    )),
            decreases n - i,
        {
            let (_, node) = self.nodes.entry(i);
            let deps = &node.dependencies;
            let mut targets: Vec<usize> = Vec::new();
            let mut k: usize = 0;
            while k < deps.len()
                invariant
                    k <= deps.len(),
                    i < n,
                    n == self.nodes.entries().len(),
                    distinct_keys(self.nodes.entries()),
                    *deps == self.nodes.entries()[i as int].1.dependencies,
                    forall|m: int| 0 <= m < targets@.len() ==> #[trigger] targets@[m] < n,
                    forall|j: int|
                        0 <= j < n ==> (#[trigger] targets@.contains(j as usize) <==> exists|m: int|
                            0 <= m < k && deps@[m]@ == self.nodes.entries()[j].0),
                decreases deps.len() - k,
            {
                let pos = self.nodes.position(deps[k].0.as_str());
                proof {
                    lemma_key_index(self.nodes.entries(), deps@[k as int]@);
                }
                let ghost old_t = targets@;
                match pos {
                    Some(j) => {
                        targets.push(j);
                        proof {
                            assert(targets@ == old_t.push(j));
                            assert forall|j2: int| 0 <= j2 < n implies (#[trigger] targets@.contains(j2 as usize) <==> exists|m: int|
                                0 <= m < k + 1 && deps@[m]@ == self.nodes.entries()[j2].0) by {
                                assert(targets@.contains(j2 as usize) <==> (old_t.contains(j2 as usize) || j2 == j)) by {
                                    if targets@.contains(j2 as usize) && j2 != j {
                                        let t = choose|t: int| 0 <= t < targets@.len() && targets@[t] == j2 as usize;
                                        assert(old_t[t] == j2 as usize);
                                    }
                                    if old_t.contains(j2 as usize) {
                                        let t = choose|t: int| 0 <= t < old_t.len() && old_t[t] == j2 as usize;
                                        assert(targets@[t] == j2 as usize);
                                    }
                                    if j2 == j {
                                        assert(targets@[old_t.len() as int] == j2 as usize);
                                    }
                                }
                                assert((deps@[k as int]@ == self.nodes.entries()[j2].0) <==> j2 == j) by {
                                    if deps@[k as int]@ == self.nodes.entries()[j2].0 {
                                        crate::type_checker::table::lemma_key_index_at(self.nodes.entries(), deps@[k as int]@, j2);
                                    }
                                }
                            }
                        }
                    },
                    None => {
                        proof {
                            assert forall|j2: int| 0 <= j2 < n implies (#[trigger] targets@.contains(j2 as usize) <==> exists|m: int|
                                0 <= m < k + 1 && deps@[m]@ == self.nodes.entries()[j2].0) by {
                                assert(deps@[k as int]@ != self.nodes.entries()[j2].0);
                            }
                        }
                    },
                }
                k = k + 1;
            }
            proof {
                assert forall|j: int| 0 <= j < n implies (depends(*self, i as int, j) <==> #[trigger] targets@.contains(
                    j as usize,
                )) by {
                    lemma_graph_view_index(*self, i as int);
                    lemma_graph_view_index(*self, j);
                    let key = self.nodes.entries()[j].0;
                    if ident_set(deps@).contains(key) {
                        let m = choose|m: int| 0 <= m < deps@.len() && (#[trigger] deps@[m])@ == key;
                        assert(deps@[m]@ == self.nodes.entries()[j].0);
                    }
                    if exists|m: int| 0 <= m < deps@.len() && deps@[m]@ == self.nodes.entries()[j].0 {
                        let m = choose|m: int| 0 <= m < deps@.len() && deps@[m]@ == self.nodes.entries()[j].0;
                        assert(ident_set(deps@).contains(key));
                    }
                }
            }
            adj.push(targets);
            i = i + 1;
        }
        adj
    }
}

/// The number of positions below `k` that are neither visited nor being
/// visited.
pub open spec fn count_free(vd: Seq<bool>, vg: Seq<bool>, k: int) -> nat
    decreases k,
{
    if k <= 0 {
        0
    } else {
        count_free(vd, vg, k - 1) + if !vd[k - 1] && !vg[k - 1] {
            1nat
        } else {
            0nat
        }
    }
}

proof fn lemma_count_free_mono(
    vd0: Seq<bool>,
    vg0: Seq<bool>,
    vd1: Seq<bool>,
    vg1: Seq<bool>,
    k: int,
)
    requires
        0 <= k,
        forall|j: int| 0 <= j < k && !vd1[j] && !vg1[j] ==> !vd0[j] && !vg0[j],
    ensures
        count_free(vd1, vg1, k) <= count_free(vd0, vg0, k),
        (exists|j: int| 0 <= j < k && !vd0[j] && !vg0[j] && !(!vd1[j] && !vg1[j])) ==> count_free(
            vd1,
            vg1,
            k,
        ) < count_free(vd0, vg0, k),
    decreases k,
{
    if k > 0 {
        lemma_count_free_mono(vd0, vg0, vd1, vg1, k - 1);
    }
}

/// `n` positions, none marked.
pub open spec fn no_marks(n: nat) -> Seq<bool> {
    Seq::new(n, |j: int| false)
}

/// A sequence of positions as integers.
pub open spec fn as_ints(s: Seq<usize>) -> Seq<int> {
    s.map_values(|x: usize| x as int)
}

proof fn lemma_perm_len(s: Seq<int>, n: int)
    requires
        0 <= n,
        s.no_duplicates(),
        forall|k: int| 0 <= k < s.len() ==> 0 <= #[trigger] s[k] < n,
        forall|j: int| 0 <= j < n ==> s.contains(j),
    ensures
        s.len() == n,
{
    assert(s.to_set() =~= vstd::set_lib::set_int_range(0, n));
    vstd::set_lib::lemma_int_range(0, n);
    s.unique_seq_to_set();
}

/// Whether `adj` is a well-formed adjacency of `n` nodes.
pub open spec fn adj_wf(adj: Seq<Vec<usize>>, n: int) -> bool {
    &&& adj.len() == n
    &&& forall|i: int, k: int| 0 <= i < n && 0 <= k < adj[i]@.len() ==> #[trigger] adj[i]@[k] < n
}

fn dfs_order(adj: &Vec<Vec<usize>>, i: usize, visited: &mut Vec<bool>, order: &mut Vec<usize>)
    requires
        adj_wf(adj@, adj@.len() as int),
        i < adj.len(),
        old(visited)@.len() == adj.len(),
        as_ints(old(order)@).no_duplicates(),
        forall|k: int| 0 <= k < old(order)@.len() ==> #[trigger] old(order)@[k] < adj.len() && old(visited)@[old(order)@[k] as int],
    ensures
        final(visited)@.len() == adj.len(),
        final(visited)@[i as int],
        forall|j: int| 0 <= j < adj.len() && old(visited)@[j] ==> final(visited)@[j],
        as_ints(final(order)@).no_duplicates(),
        final(order)@.len() >= old(order)@.len(),
        final(order)@.take(old(order)@.len() as int) == old(order)@,
        forall|k: int| 0 <= k < final(order)@.len() ==> #[trigger] final(order)@[k] < adj.len() && final(visited)@[final(order)@[k] as int],
        forall|k: int|
            old(order)@.len() <= k < final(order)@.len() ==> !old(visited)@[#[trigger] final(order)@[k] as int],
        forall|j: int|
            0 <= j < adj.len() && !old(visited)@[j] && #[trigger] final(visited)@[j] ==> final(order)@.contains(
                j as usize,
            ),
    decreases count_free(old(visited)@, no_marks(old(visited)@.len()), adj.len() as int),
{
    if visited[i] {
        return;
    }
    let ghost vd0 = visited@;
    let ghost none = no_marks(vd0.len());
    let ghost ord0 = order@;
    visited.set(i, true);
    let mut k: usize = 0;
    while k < adj[i].len()
        invariant
            adj_wf(adj@, adj@.len() as int),
            i < adj.len(),
            visited@.len() == adj.len(),
            none == no_marks(vd0.len()),
            vd0 == old(visited)@,
            vd0.len() == adj.len(),
            !vd0[i as int],
            visited@[i as int],
            forall|j: int| 0 <= j < adj.len() && vd0[j] ==> visited@[j],
            as_ints(order@).no_duplicates(),
            order@.len() >= ord0.len(),
            order@.take(ord0.len() as int) == ord0,
            forall|m: int| 0 <= m < order@.len() ==> #[trigger] order@[m] < adj.len() && visited@[order@[m] as int],
            forall|m: int| ord0.len() <= m < order@.len() ==> !vd0[#[trigger] order@[m] as int],
            forall|m: int| ord0.len() <= m < order@.len() ==> #[trigger] order@[m] != i,
            forall|j: int|
                0 <= j < adj.len() && !vd0[j] && #[trigger] visited@[j] && j != i ==> order@.contains(j as usize),
        decreases adj[i as int]@.len() - k,
    {
        let j = adj[i][k];
        proof {
            let n = adj.len() as int;
            let now_none = no_marks(visited@.len());
            assert(!vd0[i as int] && !none[i as int] && !(!visited@[i as int] && !now_none[i as int]));
            lemma_count_free_mono(vd0, none, visited@, now_none, n);
        }
        let ghost vd1 = visited@;
        let ghost ord1 = order@;
        dfs_order(adj, j, visited, order);
        proof {
            assert forall|m: int| ord0.len() <= m < order@.len() implies #[trigger] order@[m] != i by {
                if m >= ord1.len() {
                    assert(!vd1[order@[m] as int]);
                } else {
                    assert(order@[m] == ord1[m]);
                }
            }
            assert forall|m: int| ord0.len() <= m < order@.len() implies !vd0[#[trigger] order@[m] as int] by {
                if m < ord1.len() {
                    assert(order@[m] == ord1[m]);
                }
            }
            assert(order@.take(ord0.len() as int) =~= ord0) by {
                assert(order@.take(ord1.len() as int) == ord1);
            }
        }
        k = k + 1;
    }
    let ghost ord2 = order@;
    order.push(i);
    proof {
        assert(as_ints(order@) == as_ints(ord2).push(i as int));
        assert forall|m: int| 0 <= m < ord2.len() implies as_ints(ord2)[m] != i as int by {
            if m >= ord0.len() {
            } else {
                assert(ord2[m] == ord0[m]);
                assert(vd0[ord0[m] as int]);
            }
        }
        assert(order@.take(ord0.len() as int) =~= ord0) by {
            assert(ord2.take(ord0.len() as int) == ord0);
        }
        assert forall|j: int| 0 <= j < adj.len() && !vd0[j] && #[trigger] visited@[j] implies order@.contains(j as usize) by {
            if j == i {
                assert(order@[order@.len() - 1] == i);
            } else {
                let t = choose|t: int| 0 <= t < ord2.len() && ord2[t] == j as usize;
                assert(order@[t] == j as usize);
            }
        }
    }
}

/// What holds between calls of the second depth-first pass: `vd` marks the
/// nodes already in `res`; `vg` marks the nodes of `stack`, the path of
/// nodes being visited; under no cycle, `res` is in dependency order.
pub open spec fn visit_inv(
    g: DependencyGraph,
    vd: Seq<bool>,
    vg: Seq<bool>,
    res: Seq<usize>,
    stack: Seq<int>,
) -> bool {
    let n = graph_view(g).len();
    &&& vd.len() == n
    &&& vg.len() == n
    &&& as_ints(res).no_duplicates()
    &&& forall|k: int| 0 <= k < res.len() ==> #[trigger] res[k] < n
    &&& forall|j: int| 0 <= j < n ==> (#[trigger] vd[j] <==> res.contains(j as usize))
    &&& forall|j: int| 0 <= j < n ==> (#[trigger] vg[j] <==> stack.contains(j))
    &&& forall|k: int| 0 <= k < stack.len() ==> 0 <= #[trigger] stack[k] < n
    &&& is_path(g, stack)
    &&& forall|j: int| 0 <= j < n && #[trigger] vg[j] ==> !vd[j]
    &&& acyclic(g) ==> ordered(g, as_ints(res))
}

proof fn lemma_back_edge_cycle(g: DependencyGraph, stack: Seq<int>, i: int, b: int)
    requires
        is_path(g, stack),
        stack.len() > 0,
        stack.last() == i,
        stack.contains(b),
        edge(g, i, b),
    ensures
        !acyclic(g),
{
    let m = choose|m: int| 0 <= m < stack.len() && stack[m] == b;
    let p = stack.subrange(m, stack.len() as int).push(b);
    assert forall|k: int| 0 <= k < p.len() - 1 implies edge(g, #[trigger] p[k], p[k + 1]) by {
        if k < p.len() - 2 {
            assert(p[k] == stack[m + k]);
            assert(p[k + 1] == stack[m + k + 1]);
        } else {
            assert(p[k] == i);
        }
    }
    assert(is_path(g, p));
    assert(p[0] == b);
}

impl DependencyGraph {
    fn visit_allow_cycles(
        &self,
        adj: &Vec<Vec<usize>>,
        i: usize,
        visited: &mut Vec<bool>,
        visiting: &mut Vec<bool>,
        result: &mut Vec<usize>,
        Ghost(stack): Ghost<Seq<int>>,
    )
        requires
            adjacency_of(*self, adj@),
            i < adj.len(),
            visit_inv(*self, old(visited)@, old(visiting)@, old(result)@, stack),
            stack.len() > 0 ==> depends(*self, stack.last(), i as int),
        ensures
            visit_inv(*self, final(visited)@, final(visiting)@, final(result)@, stack),
            final(visiting)@ == old(visiting)@,
            forall|j: int| 0 <= j < adj.len() && old(visited)@[j] ==> #[trigger] final(visited)@[j],
            !old(visiting)@[i as int] ==> final(visited)@[i as int],
        decreases count_free(old(visited)@, old(visiting)@, adj.len() as int),
    {
        if visiting[i] || visited[i] {
            return;
        }
        let ghost n = adj.len() as int;
        let ghost vd0 = visited@;
        let ghost vg0 = visiting@;
        let ghost st = stack.push(i as int);
        visiting.set(i, true);
        proof {
            assert forall|j: int| 0 <= j < n implies (#[trigger] visiting@[j] <==> st.contains(j)) by {
                if j == i {
                    assert(st[st.len() - 1] == j);
                } else if stack.contains(j) {
                    let t = choose|t: int| 0 <= t < stack.len() && stack[t] == j;
                    assert(st[t] == j);
                } else if st.contains(j) {
                    let t = choose|t: int| 0 <= t < st.len() && st[t] == j;
                    assert(t < stack.len());
                    assert(stack[t] == j);
                }
            }
            assert(is_path(*self, st)) by {
                assert forall|k: int| 0 <= k < st.len() - 1 implies edge(*self, #[trigger] st[k], st[k + 1]) by {
                    if k < stack.len() - 1 {
                        assert(st[k] == stack[k]);
                        assert(st[k + 1] == stack[k + 1]);
                    } else {
                        assert(st[k] == stack.last());
                        assert(st[k + 1] == i);
                        assert(stack.last() != i as int);
                    }
                }
            }
        }
        let mut k: usize = 0;
        while k < adj[i].len()
            invariant
                adjacency_of(*self, adj@),
                i < adj.len(),
                n == adj.len(),
                vd0 == old(visited)@,
                vg0 == old(visiting)@,
                vd0.len() == n,
                vg0.len() == n,
                !vd0[i as int] && !vg0[i as int],
                st == stack.push(i as int),
                visit_inv(*self, visited@, visiting@, result@, st),
                visiting@ == vg0.update(i as int, true),
                forall|j: int| 0 <= j < n && vd0[j] ==> #[trigger] visited@[j],
                forall|m: int|
                    0 <= m < k ==> #[trigger] visited@[adj@[i as int]@[m] as int] || visiting@[adj@[i as int]@[m] as int],
            decreases adj@[i as int]@.len() - k,
        {
            let j = adj[i][k];
            if !visited[j] {
                proof {
                    assert(adj@[i as int]@.contains(j));
                    assert(visiting@[i as int]);
                    assert(!vd0[i as int] && !vg0[i as int] && !(!visited@[i as int] && !visiting@[i as int]));
                    assert forall|x: int| 0 <= x < n && !visited@[x] && !visiting@[x] implies !vd0[x] && !vg0[x] by {
                        if vd0[x] {
                            assert(visited@[x]);
                        }
                        if x != i {
                            assert(visiting@[x] == vg0[x]);
                        }
                    }
                    lemma_count_free_mono(vd0, vg0, visited@, visiting@, n);
                }
                let ghost vd1 = visited@;
                self.visit_allow_cycles(adj, j, visited, visiting, result, Ghost(st));
                proof {
                    assert forall|m: int| 0 <= m < k + 1 implies #[trigger] visited@[adj@[i as int]@[m] as int]
                        || visiting@[adj@[i as int]@[m] as int] by {
                        if m < k {
                            let x = adj@[i as int]@[m] as int;
                            if vd1[x] {
                            }
                        }
                    }
                }
            }
            k = k + 1;
        }
        let ghost res0 = result@;
        proof {
            assert(visiting@[i as int]);
            assert(!visited@[i as int]);
            assert(!res0.contains(i));
            assert forall|b: int| #[trigger] edge(*self, i as int, b) && acyclic(*self) implies res0.contains(b as usize) by {
                assert(adj@[i as int]@.contains(b as usize));
                let m = choose|m: int| 0 <= m < adj@[i as int]@.len() && adj@[i as int]@[m] == b as usize;
                assert(visited@[adj@[i as int]@[m] as int] || visiting@[adj@[i as int]@[m] as int]);
                assert(visited@[b] || visiting@[b]);
                if visiting@[b] {
                    assert(st.contains(b));
                    lemma_back_edge_cycle(*self, st, i as int, b);
                }
            }
        }
        result.push(i);
        visiting.set(i, false);
        visited.set(i, true);
        proof {
            assert(visiting@ =~= vg0);
            assert(as_ints(result@) == as_ints(res0).push(i as int));
            assert forall|m: int| 0 <= m < res0.len() implies as_ints(res0)[m] != i as int by {
                if as_ints(res0)[m] == i as int {
                    assert(res0[m] == i);
                    assert(res0.contains(i));
                }
            }
            assert forall|j: int| 0 <= j < n implies (#[trigger] visited@[j] <==> result@.contains(j as usize)) by {
                if j == i {
                    assert(result@[result@.len() - 1] == i);
                } else {
                    if res0.contains(j as usize) {
                        let t = choose|t: int| 0 <= t < res0.len() && res0[t] == j as usize;
                        assert(result@[t] == j as usize);
                    }
                    if result@.contains(j as usize) {
                        let t = choose|t: int| 0 <= t < result@.len() && result@[t] == j as usize;
                        assert(t < res0.len());
                        assert(res0[t] == j as usize);
                    }
                }
            }
            if acyclic(*self) {
                let r = as_ints(result@);
                assert forall|a: int, b: int| 0 <= a < r.len() && #[trigger] edge(*self, r[a], b) implies r.take(a).contains(b) by {
                    if a < res0.len() {
                        assert(r.take(a) =~= as_ints(res0).take(a));
                        assert(r[a] == as_ints(res0)[a]);
                    } else {
                        assert(r[a] == i as int);
                        assert(res0.contains(b as usize));
                        let t = choose|t: int| 0 <= t < res0.len() && res0[t] == b as usize;
                        assert(r.take(a)[t] == b);
                    }
                }
            }
        }
    }
}

/// Whether `ds` holds the declarations of the nodes of `g` in the order
/// `order`, a permutation of the nodes, which under no cycle puts every
/// node after the other nodes it depends on.
pub open spec fn sorted_by(g: DependencyGraph, ds: Seq<Spanned<TopLevel>>, order: Seq<int>) -> bool {
    &&& is_permutation(g, order)
    &&& ds.len() == order.len()
    &&& forall|k: int| 0 <= k < ds.len() ==> #[trigger] ds[k] == graph_view(g)[order[k]].1.2
    &&& acyclic(g) ==> ordered(g, order)
}

fn false_marks(n: usize) -> (r: Vec<bool>)
    ensures
        r@ == no_marks(n as nat),
{
    let mut r: Vec<bool> = Vec::new();
    let mut i: usize = 0;
    while i < n
        invariant
            i <= n,
            r@ == no_marks(i as nat),
        decreases n - i,
    {
        r.push(false);
        i = i + 1;
        assert(r@ =~= no_marks(i as nat));
    }
    r
}

impl DependencyGraph {
    /// The declarations in dependency order: each node once, after the
    /// nodes it depends on when there is no cycle. A node on a cycle comes
    /// after the nodes it depends on that are not being visited at the time.
    pub fn topological_sort(self) -> (r: Result<Vec<Spanned<TopLevel>>, String>)
        ensures
            r matches Ok(ds) && exists|order: Seq<int>| #[trigger] sorted_by(self, ds@, order),
    {
        let ghost g0 = self;
        let adj = self.adjacency();
        let n = adj.len();
        let ghost g = self;
        // First pass: an order in which every node comes after those it reaches.
        let mut visited = false_marks(n);
        let mut order: Vec<usize> = Vec::new();
        let mut i: usize = 0;
        assert(as_ints(order@) =~= Seq::<int>::empty());
        while i < n
            invariant
                i <= n,
                n == adj.len(),
                adjacency_of(g, adj@),
                visited@.len() == n,
                as_ints(order@).no_duplicates(),
                forall|k: int| 0 <= k < order@.len() ==> #[trigger] order@[k] < n && visited@[order@[k] as int],
                forall|j: int| 0 <= j < n && #[trigger] visited@[j] ==> order@.contains(j as usize),
                forall|j: int| 0 <= j < i ==> #[trigger] visited@[j],
            decreases n - i,
        {
            let ghost vd0 = visited@;
            let ghost ord0 = order@;
            dfs_order(&adj, i, &mut visited, &mut order);
            proof {
                assert forall|j: int| 0 <= j < n && #[trigger] visited@[j] implies order@.contains(j as usize) by {
                    if vd0[j] {
                        let t = choose|t: int| 0 <= t < ord0.len() && ord0[t] == j as usize;
                        assert(order@.take(ord0.len() as int)[t] == j as usize);
                        assert(order@[t] == j as usize);
                    }
                }
            }
            i = i + 1;
        }
        proof {
            assert forall|j: int| 0 <= j < n implies as_ints(order@).contains(j) by {
                assert(visited@[j]);
                let t = choose|t: int| 0 <= t < order@.len() && order@[t] == j as usize;
                assert(as_ints(order@)[t] == j);
            }
            lemma_perm_len(as_ints(order@), n as int);
        }
        // Second pass: from the last node of the first order to the first.
        let mut visited2 = false_marks(n);
        let mut visiting = false_marks(n);
        let mut result: Vec<usize> = Vec::new();
        let mut idx: usize = order.len();
        proof {
            assert(as_ints(result@) =~= Seq::<int>::empty());
            assert forall|j: int| 0 <= j < n implies (#[trigger] visited2@[j] <==> result@.contains(j as usize)) by {
            }
            assert(is_path(g, Seq::<int>::empty()));
            assert(ordered(g, as_ints(result@)));
        }
        while idx > 0
            invariant
                idx <= order@.len(),
                order@.len() == n,
                n == adj.len(),
                adjacency_of(g, adj@),
                g == self,
                forall|k: int| 0 <= k < order@.len() ==> #[trigger] order@[k] < n,
                forall|j: int| 0 <= j < n ==> #[trigger] as_ints(order@).contains(j),
                visit_inv(g, visited2@, visiting@, result@, Seq::<int>::empty()),
                visiting@ == no_marks(n as nat),
                forall|t: int| idx <= t < order@.len() ==> #[trigger] visited2@[order@[t] as int],
            decreases idx,
        {
            let id = order[idx - 1];
            if !visited2[id] {
                let ghost vd0 = visited2@;
                self.visit_allow_cycles(&adj, id, &mut visited2, &mut visiting, &mut result, Ghost(Seq::empty()));
                proof {
                    assert forall|t: int| idx - 1 <= t < order@.len() implies #[trigger] visited2@[order@[t] as int] by {
                        if t >= idx {
                            assert(vd0[order@[t] as int]);
                        }
                    }
                }
            }
            idx = idx - 1;
        }
        proof {
            assert forall|j: int| 0 <= j < n implies as_ints(result@).contains(j) by {
                assert(as_ints(order@).contains(j));
                let t = choose|t: int| 0 <= t < order@.len() && as_ints(order@)[t] == j;
                assert(order@[t] as int == j);
                assert(visited2@[order@[t] as int]);
                assert(result@.contains(j as usize));
                let u = choose|u: int| 0 <= u < result@.len() && result@[u] == j as usize;
                assert(as_ints(result@)[u] == j);
            }
            assert forall|k: int| 0 <= k < as_ints(result@).len() implies 0 <= #[trigger] as_ints(result@)[k] < n by {
                assert(result@[k] < n);
            }
            lemma_perm_len(as_ints(result@), n as int);
        }
        // Move the declarations out of the graph in that order.
        let ghost gv = graph_view(self);
        let mut entries = self.nodes.into_entries();
        let ghost ents = entries@;
        let mut slots: Vec<Option<Spanned<TopLevel>>> = Vec::new();
        let mut m: usize = 0;
        while m < n
            invariant
                m <= n,
                n == gv.len(),
                gv == graph_view(g),
                g.nodes.entries() == entries_view(ents),
                entries@ == ents.skip(m as int),
                slots@.len() == m,
                forall|j: int| 0 <= j < m ==> #[trigger] slots@[j] == Some(gv[j].1.2),
            decreases n - m,
        {
            let e = entries.remove(0);
            assert(entries@ =~= ents.skip(m + 1));
            proof {
                lemma_graph_view_index(g, m as int);
                assert(e == ents[m as int]);
            }
            slots.push(Some(e.1.declaration));
            m = m + 1;
        }
        let ghost res = as_ints(result@);
        let mut decls: Vec<Spanned<TopLevel>> = Vec::new();
        let mut k: usize = 0;
        while k < n
            invariant
                k <= n,
                n == gv.len(),
                result@.len() == n,
                res == as_ints(result@),
                res.no_duplicates(),
                forall|t: int| 0 <= t < n ==> #[trigger] result@[t] < n,
                slots@.len() == n,
                forall|j: int|
                    0 <= j < n ==> #[trigger] slots@[j] == if res.take(k as int).contains(j) {
                        None
                    } else {
                        Some(gv[j].1.2)
                    },
                decls@.len() == k,
                forall|t: int| 0 <= t < k ==> #[trigger] decls@[t] == gv[res[t]].1.2,
            decreases n - k,
        {
            let o = result[k];
            proof {
                assert(res[k as int] == o as int);
                assert(!res.take(k as int).contains(o as int)) by {
                    if res.take(k as int).contains(o as int) {
                        let t = choose|t: int| 0 <= t < k && #[trigger] res.take(k as int)[t] == o as int;
                        assert(res[t] == res[k as int]);
                    }
                }
            }
            let d = slots[o].take();
            proof {
                assert forall|j: int| 0 <= j < n implies #[trigger] slots@[j] == if res.take(k + 1).contains(j) {
                    None
                } else {
                    Some(gv[j].1.2)
                } by {
                    if j == o as int {
                        assert(res.take(k + 1)[k as int] == j);
                    } else {
                        assert(res.take(k + 1).contains(j) <==> res.take(k as int).contains(j)) by {
                            if res.take(k + 1).contains(j) {
                                let t = choose|t: int| 0 <= t < k + 1 && #[trigger] res.take(k + 1)[t] == j;
                                assert(t < k);
                                assert(res.take(k as int)[t] == j);
                            }
                            if res.take(k as int).contains(j) {
                                let t = choose|t: int| 0 <= t < k && #[trigger] res.take(k as int)[t] == j;
                                assert(res.take(k + 1)[t] == j);
                            }
                        }
                    }
                }
            }
            match d {
                Some(decl) => decls.push(decl),
                None => {},
            }
            k = k + 1;
        }
        let r: Result<Vec<Spanned<TopLevel>>, String> = Ok(decls);
        proof {
            assert(sorted_by(g, decls@, res));
            assert(r matches Ok(ds) && ds@ == decls@);
        }
        r
    }
}

// =============================================================================
// REACHABILITY
// =============================================================================

/// Whether each node of `p` depends on the next.
pub open spec fn is_dep_path(g: DependencyGraph, p: Seq<int>) -> bool {
    &&& forall|k: int| 0 <= k < p.len() ==> 0 <= #[trigger] p[k] < graph_view(g).len()
    &&& forall|k: int| 0 <= k < p.len() - 1 ==> depends(g, #[trigger] p[k], p[k + 1])
}

/// Whether node `j` is reached from one of the names `roots`, following
/// dependencies.
pub open spec fn reaches(g: DependencyGraph, roots: Seq<Seq<char>>, j: int) -> bool {
    exists|p: Seq<int>|
        #![trigger is_dep_path(g, p), p.last()]
        p.len() >= 1 && is_dep_path(g, p) && roots.contains(graph_view(g)[p[0]].0) && p.last() == j
}

/// The declarations of the nodes below `k` that `keep` holds, in node order.
pub open spec fn kept_decls(g: DependencyGraph, keep: Set<int>, k: int) -> Seq<Spanned<TopLevel>>
    decreases k,
{
    if k <= 0 {
        Seq::empty()
    } else if keep.contains(k - 1) {
        kept_decls(g, keep, k - 1).push(graph_view(g)[k - 1].1.2)
    } else {
        kept_decls(g, keep, k - 1)
    }
}

/// The names of a vector of identifiers, in order.
pub open spec fn ident_names(v: Seq<Ident>) -> Seq<Seq<char>> {
    v.map_values(|x: Ident| x@)
}

/// The number of positions below `k` not marked in `m`.
pub open spec fn count_unmarked(m: Seq<bool>, k: int) -> nat
    decreases k,
{
    if k <= 0 {
        0
    } else {
        count_unmarked(m, k - 1) + if !m[k - 1] {
            1nat
        } else {
            0nat
        }
    }
}

pub proof fn lemma_count_unmarked_update(m: Seq<bool>, i: int, k: int)
    requires
        0 <= i < m.len(),
        0 <= k <= m.len(),
        !m[i],
    ensures
        count_unmarked(m.update(i, true), k) + (if i < k {
            1nat
        } else {
            0nat
        }) == count_unmarked(m, k),
    decreases k,
{
    if k > 0 {
        lemma_count_unmarked_update(m, i, k - 1);
    }
}

/// Whether `j` is in the queue at or after the head `h`.
pub open spec fn pending(q: Seq<usize>, h: int, j: int) -> bool {
    exists|t: int| h <= t < q.len() && #[trigger] q[t] as int == j
}

proof fn lemma_pending_pop(q: Seq<usize>, h: int, j: int)
    requires
        0 <= h < q.len(),
        pending(q, h, j),
        q[h] as int != j,
    ensures
        pending(q, h + 1, j),
{
    let t = choose|t: int| h <= t < q.len() && #[trigger] q[t] as int == j;
    assert(t != h);
}

proof fn lemma_closed_reaches(g: DependencyGraph, roots: Seq<Seq<char>>, c: Seq<bool>, p: Seq<int>)
    requires
        c.len() == graph_view(g).len(),
        p.len() >= 1,
        is_dep_path(g, p),
        roots.contains(graph_view(g)[p[0]].0),
        forall|j: int| 0 <= j < c.len() && roots.contains(#[trigger] graph_view(g)[j].0) ==> c[j],
        forall|i: int, j: int| 0 <= i < c.len() && 0 <= j < c.len() && c[i] && #[trigger] depends(g, i, j) ==> c[j],
    ensures
        c[p.last()],
    decreases p.len(),
{
    if p.len() > 1 {
        let q = p.drop_last();
        assert(is_dep_path(g, q)) by {
            assert forall|k: int| 0 <= k < q.len() - 1 implies depends(g, #[trigger] q[k], q[k + 1]) by {
                assert(q[k] == p[k] && q[k + 1] == p[k + 1]);
            }
        }
        lemma_closed_reaches(g, roots, c, q);
        assert(depends(g, p[p.len() - 2], p[p.len() - 1]));
        assert(c[q.last()]);
    }
}

proof fn lemma_reaches_root(g: DependencyGraph, roots: Seq<Seq<char>>, j: int)
    requires
        0 <= j < graph_view(g).len(),
        roots.contains(graph_view(g)[j].0),
    ensures
        reaches(g, roots, j),
{
    let p = seq![j];
    assert(is_dep_path(g, p));
    assert(p.last() == j);
}

proof fn lemma_reaches_step(g: DependencyGraph, roots: Seq<Seq<char>>, i: int, x: int)
    requires
        reaches(g, roots, i),
        depends(g, i, x),
    ensures
        reaches(g, roots, x),
{
    let p0 = choose|p: Seq<int>|
        #![trigger is_dep_path(g, p), p.last()]
        p.len() >= 1 && is_dep_path(g, p) && roots.contains(graph_view(g)[p[0]].0) && p.last() == i;
    let p1 = p0.push(x);
    assert(is_dep_path(g, p1)) by {
        assert forall|t: int| 0 <= t < p1.len() - 1 implies depends(g, #[trigger] p1[t], p1[t + 1]) by {
            if t < p0.len() - 1 {
                assert(p1[t] == p0[t] && p1[t + 1] == p0[t + 1]);
            }
        }
    }
    assert(p1[0] == p0[0]);
    assert(p1.last() == x);
}

/// What holds during the breadth-first search of `reachability_analysis`.
pub open spec fn bfs_inv(g: DependencyGraph, rs: Seq<Seq<char>>, reached: Seq<bool>, q: Seq<usize>, h: int) -> bool {
    let n = graph_view(g).len();
    &&& 0 <= h <= q.len()
    &&& reached.len() == n
    &&& forall|k: int| 0 <= k < q.len() ==> #[trigger] q[k] < n
    &&& forall|k: int| 0 <= k < q.len() ==> reaches(g, rs, #[trigger] q[k] as int)
    &&& forall|j: int| 0 <= j < n && #[trigger] reached[j] ==> reaches(g, rs, j)
    &&& forall|j: int| 0 <= j < n && rs.contains(#[trigger] graph_view(g)[j].0) ==> reached[j] || pending(q, h, j)
    &&& forall|i: int, j: int|
        0 <= i < n && 0 <= j < n && reached[i] && #[trigger] depends(g, i, j) ==> reached[j] || pending(q, h, j)
}

proof fn lemma_bfs_skip(g: DependencyGraph, rs: Seq<Seq<char>>, reached: Seq<bool>, q: Seq<usize>, h: int)
    requires
        bfs_inv(g, rs, reached, q, h),
        h < q.len(),
        reached[q[h] as int],
    ensures
        bfs_inv(g, rs, reached, q, h + 1),
{
    let n = graph_view(g).len();
    assert forall|j: int| 0 <= j < n && rs.contains(#[trigger] graph_view(g)[j].0) implies reached[j] || pending(q, h + 1, j) by {
        if !reached[j] {
            lemma_pending_pop(q, h, j);
        }
    }
    assert forall|i: int, j: int|
        0 <= i < n && 0 <= j < n && reached[i] && #[trigger] depends(g, i, j) implies reached[j] || pending(q, h + 1, j) by {
        if !reached[j] {
            lemma_pending_pop(q, h, j);
        }
    }
}

/// Visiting the node at the head of the queue: marking it and queueing its
/// dependencies keeps the search invariant.
proof fn lemma_bfs_visit(
    g: DependencyGraph,
    rs: Seq<Seq<char>>,
    adj: Seq<Vec<usize>>,
    m0: Seq<bool>,
    q0: Seq<usize>,
    q: Seq<usize>,
    h: int,
)
    requires
        adjacency_of(g, adj),
        adj.len() <= usize::MAX,
        bfs_inv(g, rs, m0, q0, h),
        h < q0.len(),
        q.len() == q0.len() + adj[q0[h] as int]@.len(),
        forall|t: int| 0 <= t < q0.len() ==> #[trigger] q[t] == q0[t],
        forall|t: int| 0 <= t < adj[q0[h] as int]@.len() ==> q[q0.len() + t] == #[trigger] adj[q0[h] as int]@[t],
        forall|t: int| 0 <= t < q.len() ==> #[trigger] q[t] < graph_view(g).len(),
        forall|t: int| 0 <= t < q.len() ==> reaches(g, rs, #[trigger] q[t] as int),
    ensures
        bfs_inv(g, rs, m0.update(q0[h] as int, true), q, h + 1),
{
    let n = graph_view(g).len();
    let id = q0[h] as int;
    let m1 = m0.update(id, true);
    assert forall|j: int| 0 <= j < n && #[trigger] m1[j] implies reaches(g, rs, j) by {
        if j == id {
            assert(reaches(g, rs, q0[h] as int));
        }
    }
    lemma_pending_keep(m0, q0, q, h, id);
    assert forall|j: int| 0 <= j < n && rs.contains(#[trigger] graph_view(g)[j].0) implies m1[j] || pending(q, h + 1, j) by {
        if !m1[j] {
            assert(!m0[j]);
        }
    }
    lemma_queued_dependencies(g, adj, q0, q, h);
    assert forall|i: int, j: int|
        0 <= i < n && 0 <= j < n && m1[i] && #[trigger] depends(g, i, j) implies m1[j] || pending(q, h + 1, j) by {
        if !m1[j] && i != id {
            assert(m0[i]);
            assert(!m0[j]);
        }
    }
}

/// Each dependency of the head is queued behind it.
proof fn lemma_queued_dependencies(g: DependencyGraph, adj: Seq<Vec<usize>>, q0: Seq<usize>, q: Seq<usize>, h: int)
    requires
        adjacency_of(g, adj),
        adj.len() <= usize::MAX,
        0 <= h < q0.len(),
        q0[h] < adj.len(),
        q.len() == q0.len() + adj[q0[h] as int]@.len(),
        forall|t: int| 0 <= t < adj[q0[h] as int]@.len() ==> q[q0.len() + t] == #[trigger] adj[q0[h] as int]@[t],
    ensures
        forall|j: int| 0 <= j < adj.len() && #[trigger] depends(g, q0[h] as int, j) ==> pending(q, h + 1, j),
{
    let id = q0[h] as int;
    assert forall|j: int| 0 <= j < adj.len() && #[trigger] depends(g, q0[h] as int, j) implies pending(q, h + 1, j) by {
        assert(adj[id]@.contains(j as usize));
        let t = choose|t: int| 0 <= t < adj[id]@.len() && adj[id]@[t] == j as usize;
        assert(adj[q0[h] as int]@[t] == j as usize);
        assert(q[q0.len() + t] == j as usize);
        assert(h + 1 <= q0.len() + t < q.len());
        assert(q[q0.len() + t] as int == j);
        assert(pending(q, h + 1, j));
    }
}

/// What was pending behind the head, and is not the head itself, stays
/// pending once the head is popped and more is queued.
proof fn lemma_pending_keep(m0: Seq<bool>, q0: Seq<usize>, q: Seq<usize>, h: int, id: int)
    requires
        0 <= h < q0.len(),
        q0[h] as int == id,
        q0.len() <= q.len(),
        forall|t: int| 0 <= t < q0.len() ==> #[trigger] q[t] == q0[t],
    ensures
        forall|j: int| #![trigger pending(q, h + 1, j)] j != id && pending(q0, h, j) ==> pending(q, h + 1, j),
{
    assert forall|j: int| #![trigger pending(q, h + 1, j)] j != id && pending(q0, h, j) implies pending(q, h + 1, j) by {
        lemma_pending_pop(q0, h, j);
        let t = choose|t: int| h + 1 <= t < q0.len() && #[trigger] q0[t] as int == j;
        assert(q[t] as int == j);
    }
}

impl DependencyGraph {
    /// The declarations reached from the names `roots` by following
    /// dependencies, in the order of the graph's nodes (tree shaking).
    pub fn reachability_analysis(self, roots: &[Ident]) -> (r: Vec<Spanned<TopLevel>>)
        ensures
            r@ == kept_decls(
                self,
                Set::new(|j: int| reaches(self, ident_names(roots@), j)),
                graph_view(self).len() as int,
            ),
    {
        let ghost g = self;
        let ghost rs = ident_names(roots@);
        let adj = self.adjacency();
        let n = adj.len();
        let _ = self.nodes.len();
        let mut reached = false_marks(n);
        let mut queue: Vec<usize> = Vec::new();
        let mut r0: usize = 0;
        while r0 < roots.len()
            invariant
                r0 <= roots@.len(),
                n == adj.len(),
                n == graph_view(g).len(),
                g == self,
                rs == ident_names(roots@),
                distinct_keys(self.nodes.entries()),
                reached@ == no_marks(n as nat),
                forall|k: int| 0 <= k < queue@.len() ==> #[trigger] queue@[k] < n,
                forall|k: int| 0 <= k < queue@.len() ==> reaches(g, rs, #[trigger] queue@[k] as int),
                forall|j: int|
                    0 <= j < n && #[trigger] ident_names(roots@).take(r0 as int).contains(graph_view(g)[j].0)
                        ==> pending(queue@, 0, j),
            decreases roots@.len() - r0,
        {
            let pos = self.nodes.position(roots[r0].0.as_str());
            let ghost q0 = queue@;
            proof {
                lemma_key_index(self.nodes.entries(), roots@[r0 as int]@);
            }
            match pos {
                Some(j) => {
                    queue.push(j);
                    proof {
                        lemma_graph_view_index(g, j as int);
                        assert(rs[r0 as int] == roots@[r0 as int]@);
                        lemma_reaches_root(g, rs, j as int);
                    }
                },
                None => {},
            }
            proof {
                assert forall|k: int| 0 <= k < queue@.len() implies reaches(g, rs, #[trigger] queue@[k] as int) by {
                    if k < q0.len() {
                        assert(queue@[k] == q0[k]);
                    }
                }
                assert forall|j: int|
                    0 <= j < n && #[trigger] ident_names(roots@).take(r0 + 1).contains(graph_view(g)[j].0)
                        implies pending(queue@, 0, j) by {
                    lemma_graph_view_index(g, j);
                    let t = choose|t: int| 0 <= t < r0 + 1 && #[trigger] ident_names(roots@).take(r0 + 1)[t] == graph_view(g)[j].0;
                    if t < r0 {
                        assert(ident_names(roots@).take(r0 as int)[t] == graph_view(g)[j].0);
                        assert(ident_names(roots@).take(r0 as int).contains(graph_view(g)[j].0));
                        assert(pending(q0, 0, j));
                        let u = choose|u: int| 0 <= u < q0.len() && #[trigger] q0[u] as int == j;
                        assert(queue@[u] as int == j);
                    } else {
                        crate::type_checker::table::lemma_key_index_at(self.nodes.entries(), roots@[r0 as int]@, j);
                        assert(queue@[q0.len() as int] as int == j);
                    }
                }
            }
            r0 = r0 + 1;
        }
        let mut h: usize = 0;
        proof {
            assert(ident_names(roots@).take(roots@.len() as int) =~= rs);
            assert forall|j: int| 0 <= j < n && rs.contains(#[trigger] graph_view(g)[j].0) implies reached@[j]
                || pending(queue@, 0, j) by {
                assert(pending(queue@, 0, j));
            }
            assert(bfs_inv(g, rs, reached@, queue@, 0));
        }
        while h < queue.len()
            invariant
                n == adj.len(),
                n == graph_view(g).len(),
                adjacency_of(g, adj@),
                bfs_inv(g, rs, reached@, queue@, h as int),
            decreases count_unmarked(reached@, n as int), queue@.len() - h,
        {
            let id = queue[h];
            if !reached[id] {
                proof {
                    lemma_count_unmarked_update(reached@, id as int, n as int);
                }
                let ghost q0 = queue@;
                let ghost m0 = reached@;
                reached.set(id, true);
                let mut k: usize = 0;
                while k < adj[id].len()
                    invariant
                        k <= adj@[id as int]@.len(),
                        id < n,
                        h < q0.len(),
                        q0[h as int] == id,
                        n == adj.len(),
                        n == graph_view(g).len(),
                        adjacency_of(g, adj@),
                        bfs_inv(g, rs, m0, q0, h as int),
                        reached@ == m0.update(id as int, true),
                        queue@.len() == q0.len() + k,
                        forall|t: int| 0 <= t < q0.len() ==> #[trigger] queue@[t] == q0[t],
                        forall|t: int| 0 <= t < k ==> queue@[q0.len() + t] == #[trigger] adj@[id as int]@[t],
                        forall|t: int| 0 <= t < queue@.len() ==> #[trigger] queue@[t] < n,
                        forall|t: int| 0 <= t < queue@.len() ==> reaches(g, rs, #[trigger] queue@[t] as int),
                    decreases adj@[id as int]@.len() - k,
                {
                    let x = adj[id][k];
                    proof {
                        assert(adj@[id as int]@.contains((x as int) as usize));
                        assert(depends(g, id as int, x as int));
                        assert(reaches(g, rs, q0[h as int] as int));
                        lemma_reaches_step(g, rs, id as int, x as int);
                    }
                    let ghost qk = queue@;
                    queue.push(x);
                    proof {
                        assert forall|t: int| 0 <= t < queue@.len() implies reaches(g, rs, #[trigger] queue@[t] as int) by {
                            if t < qk.len() {
                                assert(queue@[t] == qk[t]);
                            }
                        }
                        assert forall|t: int| 0 <= t < q0.len() implies #[trigger] queue@[t] == q0[t] by {
                            assert(queue@[t] == qk[t]);
                        }
                        assert forall|t: int| 0 <= t < k + 1 implies queue@[q0.len() + t] == #[trigger] adj@[id as int]@[t] by {
                            if t < k {
                                assert(queue@[q0.len() + t] == qk[q0.len() + t]);
                            }
                        }
                    }
                    k = k + 1;
                }
                proof {
                    lemma_bfs_visit(g, rs, adj@, m0, q0, queue@, h as int);
                }
            } else {
                proof {
                    lemma_bfs_skip(g, rs, reached@, queue@, h as int);
                }
            }
            h = h + 1;
        }
        let ghost keep = Set::new(|j: int| reaches(g, rs, j));
        proof {
            assert forall|j: int| 0 <= j < n && rs.contains(#[trigger] graph_view(g)[j].0) implies reached@[j] by {
                assert(!pending(queue@, h as int, j));
            }
            assert forall|i: int, j: int|
                0 <= i < n && 0 <= j < n && reached@[i] && #[trigger] depends(g, i, j) implies reached@[j] by {
                assert(!pending(queue@, h as int, j));
            }
            assert forall|j: int| 0 <= j < n implies (reached@[j] <==> keep.contains(j)) by {
                if reaches(g, rs, j) {
                    let p = choose|p: Seq<int>|
                        #![trigger is_dep_path(g, p), p.last()]
                        p.len() >= 1 && is_dep_path(g, p) && rs.contains(graph_view(g)[p[0]].0) && p.last() == j;
                    lemma_closed_reaches(g, rs, reached@, p);
                }
            }
        }
        // Move the kept declarations out, in node order.
        let ghost gv = graph_view(self);
        let mut entries = self.nodes.into_entries();
        let ghost ents = entries@;
        let mut out: Vec<Spanned<TopLevel>> = Vec::new();
        let mut m: usize = 0;
        while m < n
            invariant
                m <= n,
                n == gv.len(),
                gv == graph_view(g),
                g.nodes.entries() == entries_view(ents),
                entries@ == ents.skip(m as int),
                reached@.len() == n,
                forall|j: int| 0 <= j < n ==> (#[trigger] reached@[j] <==> keep.contains(j)),
                out@ == kept_decls(g, keep, m as int),
            decreases n - m,
        {
            let e = entries.remove(0);
            assert(entries@ =~= ents.skip(m + 1));
            proof {
                lemma_graph_view_index(g, m as int);
                assert(e == ents[m as int]);
            }
            if reached[m] {
                out.push(e.1.declaration);
            }
            m = m + 1;
        }
        out
    }
}

} // verus!
