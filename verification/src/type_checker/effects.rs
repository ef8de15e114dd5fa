//! The effect audit: no pure function may refer to an action.
//!
//! Actions are the names that end with `!`. The audit walks every pure
//! function of a typed module (free functions, default members of
//! interfaces, functions of implementations) and reports the first
//! reference to an action that it meets, in source order.

use vstd::prelude::*;
use crate::ast::id::{Ident, qualified_display};
use crate::lexer::token::Span;
use crate::tast::expr::{ExprKind, TypedExpr, TypedLambdaClause, TypedGuardClause, TypedWithBinding};
use crate::tast::decl::{DeclKind, TypedDecl, TypedFunctionDef, TypedInterfaceMember};
use crate::type_checker::error::{TypeError, TypeErrorView};
use crate::type_checker::interfaces::check_result_view;

verus! {

broadcast use vstd::string::group_string_axioms;

/// An impure reference: the name as written, and where.
pub type Hit = (Seq<char>, Span);

/// `a` if there is one, else `b`.
pub open spec fn or_else(a: Option<Hit>, b: Option<Hit>) -> Option<Hit> {
    match a {
        Some(h) => Some(h),
        None => b,
    }
}

/// Whether a name is the name of an action: it ends with `!`.
pub open spec fn names_action(n: Seq<char>) -> bool {
    n.len() > 0 && n.last() == '!'
}

/// The result of an audit whose first impure reference is `h`.
pub open spec fn hit_result(h: Option<Hit>) -> Result<(), TypeErrorView> {
    match h {
        None => Ok(()),
        Some(h) => Err(TypeErrorView::ImpureCallInPureContext { action_name: h.0, span: h.1 }),
    }
}

/// The first reference to an action in an expression, in source order.
pub open spec fn first_in_expr(e: TypedExpr) -> Option<Hit>
    decreases e,
{
    match e.kind {
        ExprKind::Var(id) => if names_action(id@) {
            Some((id@, e.span))
        } else {
            None
        },
        ExprKind::QualifiedRef(q) => if names_action(q.name@) {
            Some((qualified_display(q@), e.span))
        } else {
            None
        },
        ExprKind::Tuple(es) | ExprKind::List(es) | ExprKind::Array(es) | ExprKind::Block(es)
        | ExprKind::SetLiteral(es) => first_in_exprs(es@),
        ExprKind::Cons { head, tail } => or_else(first_in_expr(*head), first_in_expr(*tail)),
        ExprKind::Tensor { elements, .. } => first_in_exprs(elements@),
        ExprKind::Range { start, end, step, .. } => or_else(
            first_in_expr(*start),
            or_else(
                first_in_expr(*end),
                match step {
                    Some(s) => first_in_expr(*s),
                    None => None,
                },
            ),
        ),
        ExprKind::Dict(pairs) => first_in_pairs(pairs@),
        ExprKind::Apply { func, args } | ExprKind::ExplicitApply { func, args } => or_else(
            first_in_expr(*func),
            first_in_exprs(args@),
        ),
        ExprKind::Method { object, method, args } => or_else(
            first_in_expr(*object),
            if names_action(method@) {
                Some((method@, e.span))
            } else {
                first_in_exprs(args@)
            },
        ),
        ExprKind::Field { object, .. } => first_in_expr(*object),
        ExprKind::Index { object, index } => or_else(first_in_expr(*object), first_in_expr(*index)),
        ExprKind::Lambda { clauses } => first_in_clauses(clauses@),
        ExprKind::Pipeline { value, func } => or_else(first_in_expr(*value), first_in_expr(*func)),
        ExprKind::TypeCast { value, .. } => first_in_expr(*value),
        ExprKind::WithBlock { body, bindings } => or_else(first_in_expr(*body), first_in_bindings(bindings@)),
        ExprKind::Literal(_) | ExprKind::Hole => None,
    }
}

/// The first reference to an action in a clause: its body, then its
/// guards, then its bindings.
pub open spec fn first_in_clause(c: TypedLambdaClause) -> Option<Hit>
    decreases c,
{
    or_else(
        match c.body {
            Some(b) => first_in_expr(b),
            None => None,
        },
        or_else(first_in_guards(c.guards@), first_in_bindings(c.with@)),
    )
}

/// The first reference to an action in a function's clauses.
pub open spec fn first_in_function(f: TypedFunctionDef) -> Option<Hit> {
    first_in_clauses(f.clauses@)
}

/// The first reference to an action in an interface member: only a default
/// definition has one.
pub open spec fn first_in_member(m: TypedInterfaceMember) -> Option<Hit> {
    match m {
        TypedInterfaceMember::FunctionDef(f) => first_in_function(f),
        TypedInterfaceMember::Signature(..) => None,
    }
}

/// The first reference to an action in the pure functions of a declaration.
pub open spec fn first_in_decl(d: TypedDecl) -> Option<Hit> {
    match d.kind {
        DeclKind::Function(f) => first_in_function(f),
        DeclKind::Interface(i) => first_in_members(i.members@),
        DeclKind::Implements(imp) => first_in_functions(imp.implementations@),
        _ => None,
    }
}

/// The first impure reference in the expressions, in order.
pub open spec fn first_in_exprs(v: Seq<TypedExpr>) -> Option<Hit>
    decreases v,
{
    if v.len() == 0 {
        None
    } else {
        let x = v.last();
        or_else(first_in_exprs(v.drop_last()), first_in_expr(x))
    }
}

proof fn lemma_first_in_exprs_prefix(v: Seq<TypedExpr>, k: int)
    requires
        0 <= k <= v.len(),
        first_in_exprs(v.take(k)) is Some,
    ensures
        first_in_exprs(v) == first_in_exprs(v.take(k)),
    decreases v.len(),
{
    if k < v.len() {
        assert(v.drop_last().take(k) =~= v.take(k));
        lemma_first_in_exprs_prefix(v.drop_last(), k);
    } else {
        assert(v.take(k) =~= v);
    }
}

/// A sequence holds a reference to an action when one of its expressions
/// does.
proof fn lemma_exprs_find(v: Seq<TypedExpr>, i: int)
    requires
        0 <= i < v.len(),
        first_in_expr(v[i]) is Some,
    ensures
        first_in_exprs(v) is Some,
    decreases v.len(),
{
    if i < v.len() - 1 {
        lemma_exprs_find(v.drop_last(), i);
        assert(v.drop_last()[i] == v[i]);
    }
}

proof fn lemma_bindings_find(v: Seq<TypedWithBinding>, i: int)
    requires
        0 <= i < v.len(),
        first_in_expr(v[i].value) is Some,
    ensures
        first_in_bindings(v) is Some,
    decreases v.len(),
{
    if i < v.len() - 1 {
        lemma_bindings_find(v.drop_last(), i);
        assert(v.drop_last()[i] == v[i]);
    }
}

proof fn lemma_clauses_find(v: Seq<TypedLambdaClause>, i: int)
    requires
        0 <= i < v.len(),
        first_in_clause(v[i]) is Some,
    ensures
        first_in_clauses(v) is Some,
    decreases v.len(),
{
    if i < v.len() - 1 {
        lemma_clauses_find(v.drop_last(), i);
        assert(v.drop_last()[i] == v[i]);
    }
}

proof fn lemma_decls_find(v: Seq<TypedDecl>, i: int)
    requires
        0 <= i < v.len(),
        first_in_decl(v[i]) is Some,
    ensures
        first_in_decls(v) is Some,
    decreases v.len(),
{
    if i < v.len() - 1 {
        lemma_decls_find(v.drop_last(), i);
        assert(v.drop_last()[i] == v[i]);
    }
}

/// A pure function whose clause body holds a reference to an action fails
/// the audit of any module it is in, and so does one whose `with` block
/// binds a value that holds one.
pub proof fn law_audit_refuses_impure_functions(decls: Seq<TypedDecl>, k: int, i: int)
    requires
        0 <= k < decls.len(),
        decls[k].kind matches DeclKind::Function(f) && 0 <= i < f.clauses@.len() && ((
        f.clauses@[i].body matches Some(b) && first_in_expr(b) is Some) || first_in_bindings(f.clauses@[i].with@) is Some),
    ensures
        first_in_decls(decls) is Some,
        hit_result(first_in_decls(decls)) is Err,
{
    let f = decls[k].kind->Function_0;
    assert(first_in_clause(f.clauses@[i]) is Some);
    lemma_clauses_find(f.clauses@, i);
    lemma_decls_find(decls, k);
}

/// The audit finds a reference to an action at any depth: a variable that
/// names an action is one, and an expression holds one whenever one of its
/// parts does: the function or any argument of an application, any element
/// of a collection, either side of a cons, pipeline or index, the object of
/// a field, the value of a cast and the body of a `with` block.
pub proof fn law_audit_finds_nested_actions(e: TypedExpr)
    ensures
        (e.kind matches ExprKind::Var(id) && names_action(id@)) ==> first_in_expr(e) == Some::<Hit>((e.kind->Var_0@, e.span)),
        e.kind matches ExprKind::Apply { func, args } ==> (first_in_expr(*func) is Some ==> first_in_expr(e) is Some) && (
        forall|i: int| 0 <= i < args@.len() && #[trigger] first_in_expr(args@[i]) is Some ==> first_in_expr(e) is Some),
        e.kind matches ExprKind::ExplicitApply { func, args } ==> (first_in_expr(*func) is Some ==> first_in_expr(e) is Some) && (
        forall|i: int| 0 <= i < args@.len() && #[trigger] first_in_expr(args@[i]) is Some ==> first_in_expr(e) is Some),
        e.kind matches ExprKind::Tuple(es) ==> forall|i: int|
            0 <= i < es@.len() && #[trigger] first_in_expr(es@[i]) is Some ==> first_in_expr(e) is Some,
        e.kind matches ExprKind::List(es) ==> forall|i: int|
            0 <= i < es@.len() && #[trigger] first_in_expr(es@[i]) is Some ==> first_in_expr(e) is Some,
        e.kind matches ExprKind::Array(es) ==> forall|i: int|
            0 <= i < es@.len() && #[trigger] first_in_expr(es@[i]) is Some ==> first_in_expr(e) is Some,
        e.kind matches ExprKind::Block(es) ==> forall|i: int|
            0 <= i < es@.len() && #[trigger] first_in_expr(es@[i]) is Some ==> first_in_expr(e) is Some,
        e.kind matches ExprKind::SetLiteral(es) ==> forall|i: int|
            0 <= i < es@.len() && #[trigger] first_in_expr(es@[i]) is Some ==> first_in_expr(e) is Some,
        e.kind matches ExprKind::Cons { head, tail } ==> (first_in_expr(*head) is Some || first_in_expr(*tail) is Some
            ==> first_in_expr(e) is Some),
        e.kind matches ExprKind::Pipeline { value, func } ==> (first_in_expr(*value) is Some || first_in_expr(*func) is Some
            ==> first_in_expr(e) is Some),
        e.kind matches ExprKind::Index { object, index } ==> (first_in_expr(*object) is Some || first_in_expr(*index) is Some
            ==> first_in_expr(e) is Some),
        e.kind matches ExprKind::Field { object, .. } ==> (first_in_expr(*object) is Some ==> first_in_expr(e) is Some),
        e.kind matches ExprKind::TypeCast { value, .. } ==> (first_in_expr(*value) is Some ==> first_in_expr(e) is Some),
        e.kind matches ExprKind::WithBlock { body, .. } ==> (first_in_expr(*body) is Some ==> first_in_expr(e) is Some),
        e.kind matches ExprKind::WithBlock { bindings, .. } ==> forall|i: int|
            0 <= i < bindings@.len() && #[trigger] first_in_expr(bindings@[i].value) is Some ==> first_in_expr(e) is Some,
        e.kind matches ExprKind::Method { object, method, args } ==> (first_in_expr(*object) is Some || names_action(method@)
            ==> first_in_expr(e) is Some) && forall|i: int|
            0 <= i < args@.len() && #[trigger] first_in_expr(args@[i]) is Some ==> first_in_expr(e) is Some,
        e.kind matches ExprKind::Range { start, end, .. } ==> (first_in_expr(*start) is Some || first_in_expr(*end) is Some
            ==> first_in_expr(e) is Some),
        e.kind matches ExprKind::Lambda { clauses } ==> forall|i: int|
            0 <= i < clauses@.len() && #[trigger] first_in_clause(clauses@[i]) is Some ==> first_in_expr(e) is Some,
{
    match e.kind {
        ExprKind::WithBlock { bindings, .. } => {
            assert forall|i: int| 0 <= i < bindings@.len() && #[trigger] first_in_expr(bindings@[i].value) is Some implies first_in_expr(e) is Some by {
                lemma_bindings_find(bindings@, i);
            }
        },
        ExprKind::Method { args, .. } => {
            assert forall|i: int| 0 <= i < args@.len() && #[trigger] first_in_expr(args@[i]) is Some implies first_in_expr(e) is Some by {
                lemma_exprs_find(args@, i);
            }
        },
        ExprKind::Lambda { clauses } => {
            assert forall|i: int| 0 <= i < clauses@.len() && #[trigger] first_in_clause(clauses@[i]) is Some implies first_in_expr(e) is Some by {
                lemma_clauses_find(clauses@, i);
            }
        },
        ExprKind::Apply { func, args } | ExprKind::ExplicitApply { func, args } => {
            assert forall|i: int| 0 <= i < args@.len() && #[trigger] first_in_expr(args@[i]) is Some implies first_in_expr(e) is Some by {
                lemma_exprs_find(args@, i);
            }
        },
        ExprKind::Tuple(es) | ExprKind::List(es) | ExprKind::Array(es) | ExprKind::Block(es)
        | ExprKind::SetLiteral(es) => {
            assert forall|i: int| 0 <= i < es@.len() && #[trigger] first_in_expr(es@[i]) is Some implies first_in_expr(e) is Some by {
                lemma_exprs_find(es@, i);
            }
        },
        _ => {},
    }
}

/// The first impure reference in the dictionary entries, key before value, in order.
pub open spec fn first_in_pairs(v: Seq<(TypedExpr, TypedExpr)>) -> Option<Hit>
    decreases v,
{
    if v.len() == 0 {
        None
    } else {
        let x = v.last();
        or_else(first_in_pairs(v.drop_last()), or_else(first_in_expr(x.0), first_in_expr(x.1)))
    }
}

proof fn lemma_first_in_pairs_prefix(v: Seq<(TypedExpr, TypedExpr)>, k: int)
    requires
        0 <= k <= v.len(),
        first_in_pairs(v.take(k)) is Some,
    ensures
        first_in_pairs(v) == first_in_pairs(v.take(k)),
    decreases v.len(),
{
    if k < v.len() {
        assert(v.drop_last().take(k) =~= v.take(k));
        lemma_first_in_pairs_prefix(v.drop_last(), k);
    } else {
        assert(v.take(k) =~= v);
    }
}

/// The first impure reference in the clauses, in order.
pub open spec fn first_in_clauses(v: Seq<TypedLambdaClause>) -> Option<Hit>
    decreases v,
{
    if v.len() == 0 {
        None
    } else {
        let x = v.last();
        or_else(first_in_clauses(v.drop_last()), first_in_clause(x))
    }
}

proof fn lemma_first_in_clauses_prefix(v: Seq<TypedLambdaClause>, k: int)
    requires
        0 <= k <= v.len(),
        first_in_clauses(v.take(k)) is Some,
    ensures
        first_in_clauses(v) == first_in_clauses(v.take(k)),
    decreases v.len(),
{
    if k < v.len() {
        assert(v.drop_last().take(k) =~= v.take(k));
        lemma_first_in_clauses_prefix(v.drop_last(), k);
    } else {
        assert(v.take(k) =~= v);
    }
}

/// The first impure reference in the guard bodies, in order.
pub open spec fn first_in_guards(v: Seq<TypedGuardClause>) -> Option<Hit>
    decreases v,
{
    if v.len() == 0 {
        None
    } else {
        let x = v.last();
        or_else(first_in_guards(v.drop_last()), first_in_expr(x.body))
    }
}

proof fn lemma_first_in_guards_prefix(v: Seq<TypedGuardClause>, k: int)
    requires
        0 <= k <= v.len(),
        first_in_guards(v.take(k)) is Some,
    ensures
        first_in_guards(v) == first_in_guards(v.take(k)),
    decreases v.len(),
{
    if k < v.len() {
        assert(v.drop_last().take(k) =~= v.take(k));
        lemma_first_in_guards_prefix(v.drop_last(), k);
    } else {
        assert(v.take(k) =~= v);
    }
}

/// The first impure reference in the binding values, in order.
pub open spec fn first_in_bindings(v: Seq<TypedWithBinding>) -> Option<Hit>
    decreases v,
{
    if v.len() == 0 {
        None
    } else {
        let x = v.last();
        or_else(first_in_bindings(v.drop_last()), first_in_expr(x.value))
    }
}

proof fn lemma_first_in_bindings_prefix(v: Seq<TypedWithBinding>, k: int)
    requires
        0 <= k <= v.len(),
        first_in_bindings(v.take(k)) is Some,
    ensures
        first_in_bindings(v) == first_in_bindings(v.take(k)),
    decreases v.len(),
{
    if k < v.len() {
        assert(v.drop_last().take(k) =~= v.take(k));
        lemma_first_in_bindings_prefix(v.drop_last(), k);
    } else {
        assert(v.take(k) =~= v);
    }
}

/// The first impure reference in the interface members, in order.
pub open spec fn first_in_members(v: Seq<TypedInterfaceMember>) -> Option<Hit>
    decreases v,
{
    if v.len() == 0 {
        None
    } else {
        let x = v.last();
        or_else(first_in_members(v.drop_last()), first_in_member(x))
    }
}

proof fn lemma_first_in_members_prefix(v: Seq<TypedInterfaceMember>, k: int)
    requires
        0 <= k <= v.len(),
        first_in_members(v.take(k)) is Some,
    ensures
        first_in_members(v) == first_in_members(v.take(k)),
    decreases v.len(),
{
    if k < v.len() {
        assert(v.drop_last().take(k) =~= v.take(k));
        lemma_first_in_members_prefix(v.drop_last(), k);
    } else {
        assert(v.take(k) =~= v);
    }
}

/// The first impure reference in the functions, in order.
pub open spec fn first_in_functions(v: Seq<TypedFunctionDef>) -> Option<Hit>
    decreases v,
{
    if v.len() == 0 {
        None
    } else {
        let x = v.last();
        or_else(first_in_functions(v.drop_last()), first_in_function(x))
    }
}

proof fn lemma_first_in_functions_prefix(v: Seq<TypedFunctionDef>, k: int)
    requires
        0 <= k <= v.len(),
        first_in_functions(v.take(k)) is Some,
    ensures
        first_in_functions(v) == first_in_functions(v.take(k)),
    decreases v.len(),
{
    if k < v.len() {
        assert(v.drop_last().take(k) =~= v.take(k));
        lemma_first_in_functions_prefix(v.drop_last(), k);
    } else {
        assert(v.take(k) =~= v);
    }
}

/// The first impure reference in the declarations, in order.
pub open spec fn first_in_decls(v: Seq<TypedDecl>) -> Option<Hit>
    decreases v,
{
    if v.len() == 0 {
        None
    } else {
        let x = v.last();
        or_else(first_in_decls(v.drop_last()), first_in_decl(x))
    }
}

proof fn lemma_first_in_decls_prefix(v: Seq<TypedDecl>, k: int)
    requires
        0 <= k <= v.len(),
        first_in_decls(v.take(k)) is Some,
    ensures
        first_in_decls(v) == first_in_decls(v.take(k)),
    decreases v.len(),
{
    if k < v.len() {
        assert(v.drop_last().take(k) =~= v.take(k));
        lemma_first_in_decls_prefix(v.drop_last(), k);
    } else {
        assert(v.take(k) =~= v);
    }
}

/// The error for a reference to the action `name` at `span`.
fn impure(name: String, span: Span) -> (r: Result<(), TypeError>)
    ensures
        check_result_view(r) == hit_result(Some((name@, span))),
{
    Err(TypeError::ImpureCallInPureContext { action_name: name, span })
}

fn audit_expr(e: &TypedExpr) -> (r: Result<(), TypeError>)
    ensures
        check_result_view(r) == hit_result(first_in_expr(*e)),
    decreases e,
{
    match &e.kind {
        ExprKind::Var(id) => {
            if id.is_action() {
                return impure(id.to_string(), e.span);
            }
            Ok(())
        },
        ExprKind::QualifiedRef(q) => {
            let n = Ident(q.name.clone());
            if n.is_action() {
                return impure(q.to_string(), e.span);
            }
            Ok(())
        },
        ExprKind::Tuple(es) | ExprKind::List(es) | ExprKind::Array(es) | ExprKind::Block(es)
        | ExprKind::SetLiteral(es) => audit_exprs(es),
        ExprKind::Cons { head, tail } => {
            audit_expr(head)?;
            audit_expr(tail)
        },
        ExprKind::Tensor { elements, .. } => audit_exprs(elements),
        ExprKind::Range { start, end, step, .. } => {
            audit_expr(start)?;
            audit_expr(end)?;
            match step {
                Some(s) => audit_expr(s),
                None => Ok(()),
            }
        },
        ExprKind::Dict(pairs) => audit_pairs(pairs),
        ExprKind::Apply { func, args } | ExprKind::ExplicitApply { func, args } => {
            audit_expr(func)?;
            audit_exprs(args)
        },
        ExprKind::Method { object, method, args } => {
            audit_expr(object)?;
            if method.is_action() {
                return impure(method.to_string(), e.span);
            }
            audit_exprs(args)
        },
        ExprKind::Field { object, .. } => audit_expr(object),
        ExprKind::Index { object, index } => {
            audit_expr(object)?;
            audit_expr(index)
        },
        ExprKind::Lambda { clauses } => audit_clauses(clauses),
        ExprKind::Pipeline { value, func } => {
            audit_expr(value)?;
            audit_expr(func)
        },
        ExprKind::TypeCast { value, .. } => audit_expr(value),
        ExprKind::WithBlock { body, bindings } => {
            audit_expr(body)?;
            audit_bindings(bindings)
        },
        ExprKind::Literal(_) | ExprKind::Hole => Ok(()),
    }
}

fn audit_pairs(v: &Vec<(TypedExpr, TypedExpr)>) -> (r: Result<(), TypeError>)
    ensures
        check_result_view(r) == hit_result(first_in_pairs(v@)),
    decreases v,
{
    let mut i: usize = 0;
    while i < v.len()
        invariant
            i <= v.len(),
            first_in_pairs(v@.take(i as int)) is None,
        decreases v.len() - i,
    {
        assert(v@.take(i + 1).drop_last() =~= v@.take(i as int));
        let a = audit_expr(&v[i].0);
        if a.is_err() {
            proof {
                lemma_first_in_pairs_prefix(v@, i + 1);
            }
            return a;
        }
        let b = audit_expr(&v[i].1);
        if b.is_err() {
            proof {
                lemma_first_in_pairs_prefix(v@, i + 1);
            }
            return b;
        }
        i = i + 1;
    }
    assert(v@.take(v@.len() as int) =~= v@);
    Ok(())
}

fn audit_clause(c: &TypedLambdaClause) -> (r: Result<(), TypeError>)
    ensures
        check_result_view(r) == hit_result(first_in_clause(*c)),
    decreases c,
{
    match &c.body {
        Some(b) => audit_expr(b)?,
        None => {},
    }
    audit_guards(&c.guards)?;
    audit_bindings(&c.with)
}

fn audit_function_def(f: &TypedFunctionDef) -> (r: Result<(), TypeError>)
    ensures
        check_result_view(r) == hit_result(first_in_function(*f)),
{
    audit_clauses(&f.clauses)
}

fn audit_member(m: &TypedInterfaceMember) -> (r: Result<(), TypeError>)
    ensures
        check_result_view(r) == hit_result(first_in_member(*m)),
{
    match m {
        TypedInterfaceMember::FunctionDef(f) => audit_function_def(f),
        TypedInterfaceMember::Signature(..) => Ok(()),
    }
}

fn audit_decl(d: &TypedDecl) -> (r: Result<(), TypeError>)
    ensures
        check_result_view(r) == hit_result(first_in_decl(*d)),
{
    match &d.kind {
        DeclKind::Function(f) => audit_function_def(f),
        DeclKind::Interface(i) => audit_members(&i.members),
        DeclKind::Implements(imp) => audit_functions(&imp.implementations),
        _ => Ok(()),
    }
}

/// Checks that no pure function of the module refers to an action: the
/// error names the first such reference, in source order.
pub fn audit_effects(decls: &[TypedDecl]) -> (r: Result<(), TypeError>)
    ensures
        check_result_view(r) == hit_result(first_in_decls(decls@)),
{
    let mut i: usize = 0;
    while i < decls.len()
        invariant
            i <= decls@.len(),
            first_in_decls(decls@.take(i as int)) is None,
        decreases decls@.len() - i,
    {
        assert(decls@.take(i + 1).drop_last() =~= decls@.take(i as int));
        let a = audit_decl(&decls[i]);
        if a.is_err() {
            proof {
                lemma_first_in_decls_prefix(decls@, i + 1);
            }
            return a;
        }
        i = i + 1;
    }
    assert(decls@.take(decls@.len() as int) =~= decls@);
    Ok(())
}

fn audit_exprs(v: &Vec<TypedExpr>) -> (r: Result<(), TypeError>)
    ensures
        check_result_view(r) == hit_result(first_in_exprs(v@)),
    decreases v,
{
    let mut i: usize = 0;
    while i < v.len()
        invariant
            i <= v.len(),
            first_in_exprs(v@.take(i as int)) is None,
        decreases v.len() - i,
    {
        assert(v@.take(i + 1).drop_last() =~= v@.take(i as int));
        let a = audit_expr(&v[i]);
        if a.is_err() {
            proof {
                lemma_first_in_exprs_prefix(v@, i + 1);
            }
            return a;
        }
        i = i + 1;
    }
    assert(v@.take(v@.len() as int) =~= v@);
    Ok(())
}

fn audit_clauses(v: &Vec<TypedLambdaClause>) -> (r: Result<(), TypeError>)
    ensures
        check_result_view(r) == hit_result(first_in_clauses(v@)),
    decreases v,
{
    let mut i: usize = 0;
    while i < v.len()
        invariant
            i <= v.len(),
            first_in_clauses(v@.take(i as int)) is None,
        decreases v.len() - i,
    {
        assert(v@.take(i + 1).drop_last() =~= v@.take(i as int));
        let a = audit_clause(&v[i]);
        if a.is_err() {
            proof {
                lemma_first_in_clauses_prefix(v@, i + 1);
            }
            return a;
        }
        i = i + 1;
    }
    assert(v@.take(v@.len() as int) =~= v@);
    Ok(())
}

fn audit_guards(v: &Vec<TypedGuardClause>) -> (r: Result<(), TypeError>)
    ensures
        check_result_view(r) == hit_result(first_in_guards(v@)),
    decreases v,
{
    let mut i: usize = 0;
    while i < v.len()
        invariant
            i <= v.len(),
            first_in_guards(v@.take(i as int)) is None,
        decreases v.len() - i,
    {
        assert(v@.take(i + 1).drop_last() =~= v@.take(i as int));
        let a = audit_expr(&v[i].body);
        if a.is_err() {
            proof {
                lemma_first_in_guards_prefix(v@, i + 1);
            }
            return a;
        }
        i = i + 1;
    }
    assert(v@.take(v@.len() as int) =~= v@);
    Ok(())
}

fn audit_bindings(v: &Vec<TypedWithBinding>) -> (r: Result<(), TypeError>)
    ensures
        check_result_view(r) == hit_result(first_in_bindings(v@)),
    decreases v,
{
    let mut i: usize = 0;
    while i < v.len()
        invariant
            i <= v.len(),
            first_in_bindings(v@.take(i as int)) is None,
        decreases v.len() - i,
    {
        assert(v@.take(i + 1).drop_last() =~= v@.take(i as int));
        let a = audit_expr(&v[i].value);
        if a.is_err() {
            proof {
                lemma_first_in_bindings_prefix(v@, i + 1);
            }
            return a;
        }
        i = i + 1;
    }
    assert(v@.take(v@.len() as int) =~= v@);
    Ok(())
}

fn audit_members(v: &Vec<TypedInterfaceMember>) -> (r: Result<(), TypeError>)
    ensures
        check_result_view(r) == hit_result(first_in_members(v@)),
    decreases v,
{
    let mut i: usize = 0;
    while i < v.len()
        invariant
            i <= v.len(),
            first_in_members(v@.take(i as int)) is None,
        decreases v.len() - i,
    {
        assert(v@.take(i + 1).drop_last() =~= v@.take(i as int));
        let a = audit_member(&v[i]);
        if a.is_err() {
            proof {
                lemma_first_in_members_prefix(v@, i + 1);
            }
            return a;
        }
        i = i + 1;
    }
    assert(v@.take(v@.len() as int) =~= v@);
    Ok(())
}

fn audit_functions(v: &Vec<TypedFunctionDef>) -> (r: Result<(), TypeError>)
    ensures
        check_result_view(r) == hit_result(first_in_functions(v@)),
    decreases v,
{
    let mut i: usize = 0;
    while i < v.len()
        invariant
            i <= v.len(),
            first_in_functions(v@.take(i as int)) is None,
        decreases v.len() - i,
    {
        assert(v@.take(i + 1).drop_last() =~= v@.take(i as int));
        let a = audit_function_def(&v[i]);
        if a.is_err() {
            proof {
                lemma_first_in_functions_prefix(v@, i + 1);
            }
            return a;
        }
        i = i + 1;
    }
    assert(v@.take(v@.len() as int) =~= v@);
    Ok(())
}

} // verus!
