//! The core type checker: turns a sorted module into the typed tree,
//! inferring types, resolving multiple dispatch by arity and distance, and
//! keeping pure functions apart from actions.

use vstd::prelude::*;
use crate::ast::Spanned;
use crate::ast::id::{Ident, Literal};
use crate::ast::types::{Type, TypeView, FunctionSig, FunctionSigView, types_view, copy_type, type_display};
use crate::ast::pattern::Pattern;
use crate::ast::expr::{Expr, WithBinding};
use crate::ast::stmt::Stmt;
use crate::ast::decl::{TopLevel, FunctionDef, ActionDef};
use crate::lexer::token::Span;
use crate::tast::expr::{TypedExpr, ExprKind, TypedLambdaClause};
use crate::tast::stmt::{TypedStmt, StmtKind, TypedMatchCase};
use crate::tast::decl::{TypedDecl, DeclKind, TypedFunctionDef, TypedActionDef};
use crate::type_checker::environment::{Environment, InterfaceInfo, lookup_in_scopes, satisfies};
use crate::type_checker::error::{TypeError, TypeErrorView};
use crate::type_checker::inference::{
    compose_view, Substitution, subst_view, subst_apply, apply, compose, unify, unify_spec, instantiate, fresh_type,
    type_names_ok, fresh_name, next_counter,
};
use crate::type_checker::interfaces::{sig_names_ok, interface_names_ok, named_type};
use crate::type_checker::table::{Table, Entries, entry_get, entry_insert, key_index};
use crate::text::{push_str, push_decimal, string_from_chars, str_eq};

verus! {

broadcast use vstd::string::group_string_axioms;

/// A constraint of a `with` block, checked once its clause is inferred.
#[derive(Debug)]
pub enum Constraint {
    /// `name :: sig`: some signature of `name` must match `sig`.
    Signature(Ident, FunctionSig, Span),
    /// `T implements I`: the type must satisfy the interface.
    Interface(Type, Ident, Span),
}

/// The state of the type checker.
#[derive(Debug)]
pub struct Checker {
    /// Scopes and global registries.
    pub env: Environment,
    /// The substitution inferred so far.
    pub substitutions: Substitution,
    /// Whether the checker is inside an action.
    pub in_action_context: bool,
    /// Constraints collected from `with` blocks.
    pub constraints: Vec<Constraint>,
    /// The number of the next fresh type variable.
    pub next_var: usize,
}

/// Whether every name with signatures has at least one, each naming its
/// type variables with at least one character.
pub open spec fn dispatch_ok(t: Table<Vec<FunctionSig>>) -> bool {
    forall|k: Seq<char>| #[trigger] t.spec_get(k) matches Some(v) ==> sigs_ok(v@)
}

/// Whether `v` is a nonempty list of signatures whose type variables have
/// names of at least one character.
pub open spec fn sigs_ok(v: Seq<FunctionSig>) -> bool {
    &&& v.len() > 0
    &&& forall|i: int| 0 <= i < v.len() ==> sig_names_ok(#[trigger] v[i]@)
}

/// Whether the members of every interface name their type variables with at
/// least one character.
pub open spec fn interfaces_ok(t: Table<InterfaceInfo>) -> bool {
    forall|k: Seq<char>| #[trigger] t.spec_get(k) matches Some(info) ==> members_ok(info.members.entries())
}

/// Whether the signatures of the members name their type variables with at
/// least one character.
pub open spec fn members_ok(ms: Entries<FunctionSig>) -> bool {
    forall|i: int| 0 <= i < ms.len() ==> sig_names_ok((#[trigger] ms[i]).1@)
}

/// Whether two environments have the same global registries.
pub open spec fn same_registries(a: Environment, b: Environment) -> bool {
    &&& a.dispatch_table == b.dispatch_table
    &&& a.defined_types == b.defined_types
    &&& a.interfaces == b.interfaces
    &&& a.local_types == b.local_types
    &&& a.local_interfaces == b.local_interfaces
    &&& a.type_implements == b.type_implements
}

/// The name of the type of a literal.
pub open spec fn literal_type_name(l: Literal) -> Seq<char> {
    match l {
        Literal::Int(_) => "Int"@,
        Literal::Float(_) => "Float"@,
        Literal::String(_) => "Text"@,
        Literal::Bool(_) => "Bool"@,
        Literal::Bytes(_) => "Bytes"@,
        Literal::Unit => "Unit"@,
    }
}

/// A literal's type is fixed by its kind: an integer is `Int`, a number
/// with a fraction `Float`, a string `Text`, a boolean `Bool`, a byte
/// string `Bytes` and `()` is `Unit`; and checking a literal gives it that
/// type, whatever the environment.
pub proof fn law_literal_type_by_kind(l: Literal, span: Span, env: Environment, k: nat, r: Result<TypedExpr, TypeError>)
    requires
        expr_outcome(Spanned { node: Expr::Literal(l), span }, env, k, r),
    ensures
        r matches Ok(t) && t.span == span,
        l is Int ==> r->Ok_0.typ@ == named_type("Int"@),
        l is Float ==> r->Ok_0.typ@ == named_type("Float"@),
        l is String ==> r->Ok_0.typ@ == named_type("Text"@),
        l is Bool ==> r->Ok_0.typ@ == named_type("Bool"@),
        l is Bytes ==> r->Ok_0.typ@ == named_type("Bytes"@),
        l is Unit ==> r->Ok_0.typ@ == named_type("Unit"@),
{
}

/// The error for a form the checker does not handle yet.
pub open spec fn unhandled(what: Seq<char>, span: Span) -> TypeErrorView {
    TypeErrorView::UnboundVariable { name: what, span }
}

/// The patterns the checker does not handle.
pub open spec fn unhandled_pattern(p: Pattern) -> bool {
    p is Array || p is Or || p is Guarded || p is Typed || p is Range
}

/// Whether `t` is `List` of a type with no free type variables.
pub open spec fn ground_list_type(t: TypeView) -> bool {
    &&& t matches TypeView::Named { name, params }
    &&& t->Named_name == (None::<Seq<char>>, "List"@)
    &&& t->Named_params.len() == 1
    &&& crate::type_checker::inference::ftv(t->Named_params[0]).is_empty()
}

/// Whether each variable that the patterns `ps` bind is bound in the scopes
/// `ss` to the parameter type at the position of its last binding.
pub open spec fn pattern_bindings(ps: Seq<Spanned<Pattern>>, params: Seq<Type>, ss: Seq<Entries<Type>>) -> bool {
    forall|nm: Seq<char>|
        #[trigger] last_binding(ps, nm) >= 0 ==> (lookup_in_scopes(ss, nm) matches Some(u) && u@
            == params[last_binding(ps, nm)]@)
}

/// The signatures registered under `n` in the dispatch table `t`.
pub open spec fn dispatch_sigs(t: Table<Vec<FunctionSig>>, n: Seq<char>) -> Seq<FunctionSigView> {
    match t.spec_get(n) {
        Some(v) => v@.map_values(|g: FunctionSig| g@),
        None => Seq::empty(),
    }
}

/// The signatures of the functions of `fs` named `n`, in order.
pub open spec fn sigs_named(fs: Seq<FunctionDef>, n: Seq<char>) -> Seq<FunctionSigView>
    decreases fs.len(),
{
    if fs.len() == 0 {
        Seq::empty()
    } else if fs.last().name@ == n {
        sigs_named(fs.drop_last(), n).push(fs.last().sig@)
    } else {
        sigs_named(fs.drop_last(), n)
    }
}

/// Registering `sig` under `name` appends it to the signatures of `name`.
proof fn lemma_register_appends(before: Table<Vec<FunctionSig>>, after: Table<Vec<FunctionSig>>, name: Seq<char>, sig: FunctionSig)
    requires
        after.spec_get(name) matches Some(v) && v@ == match before.spec_get(name) {
            Some(w) => w@.push(sig),
            None => seq![sig],
        },
        forall|k: Seq<char>| k != name ==> #[trigger] after.spec_get(k) == before.spec_get(k),
    ensures
        forall|n: Seq<char>|
            #[trigger] dispatch_sigs(after, n) == if n == name {
                dispatch_sigs(before, n).push(sig@)
            } else {
                dispatch_sigs(before, n)
            },
{
    assert forall|n: Seq<char>|
        #[trigger] dispatch_sigs(after, n) == if n == name {
            dispatch_sigs(before, n).push(sig@)
        } else {
            dispatch_sigs(before, n)
        } by {
        if n == name {
            match before.spec_get(name) {
                Some(w) => {
                    assert(w@.push(sig).map_values(|g: FunctionSig| g@) =~= w@.map_values(|g: FunctionSig| g@).push(sig@));
                },
                None => {
                    assert(seq![sig].map_values(|g: FunctionSig| g@) =~= Seq::<FunctionSigView>::empty().push(sig@));
                },
            }
        } else {
            assert(after.spec_get(n) == before.spec_get(n));
        }
    }
}

/// Whether each variable among the patterns `ps` is bound to `t` in the
/// scopes `ss`.
pub open spec fn binds_elements(ps: Seq<Spanned<Pattern>>, ss: Seq<Entries<Type>>, t: TypeView) -> bool {
    forall|k: int|
        0 <= k < ps.len() && (#[trigger] ps[k]).node is Var ==> (lookup_in_scopes(ss, ps[k].node->Var_0@) matches Some(
            u,
        ) && u@ == t)
}

/// Whether `p` matches any type and gives it back: a wildcard or a variable.
pub open spec fn binds_anything(p: Pattern) -> bool {
    p is Wildcard || p is Var
}

/// Whether every pattern of `ps` matches any type.
pub open spec fn all_bind_anything(ps: Seq<Spanned<Pattern>>) -> bool {
    forall|i: int| 0 <= i < ps.len() ==> binds_anything(#[trigger] ps[i].node)
}

/// Whether checking `ps` in order stops at the pattern `k` as one the
/// checker does not handle: it is the first pattern that does not match
/// any type.
pub open spec fn stops_unhandled_at(ps: Seq<Spanned<Pattern>>, k: int) -> bool {
    &&& 0 <= k < ps.len()
    &&& unhandled_pattern(ps[k].node)
    &&& all_bind_anything(ps.take(k))
}

/// A check of `ps` that fails at `i`, after no unhandled pattern, can stop
/// as unhandled only at `i`: before it none is unhandled, and past it the
/// pattern at `i` would have to match any type.
proof fn lemma_stop_is_here(ps: Seq<Spanned<Pattern>>, i: int)
    requires
        0 <= i < ps.len(),
        forall|j: int| 0 <= j < i ==> !unhandled_pattern(#[trigger] ps[j].node),
        !binds_anything(ps[i].node),
    ensures
        forall|k: int| #[trigger] stops_unhandled_at(ps, k) ==> k == i,
{
    assert forall|k: int| #[trigger] stops_unhandled_at(ps, k) implies k == i by {
        if k < i {
            assert(!unhandled_pattern(ps[k].node));
        } else if k > i {
            assert(ps.take(k)[i] == ps[i]);
            assert(binds_anything(ps.take(k)[i].node));
        }
    }
}

/// Where no pattern of `ps` is unhandled, the check stops at none of them.
proof fn lemma_no_stop(ps: Seq<Spanned<Pattern>>)
    requires
        forall|j: int| 0 <= j < ps.len() ==> !unhandled_pattern(#[trigger] ps[j].node),
    ensures
        forall|k: int| !#[trigger] stops_unhandled_at(ps, k),
{
    assert forall|k: int| !#[trigger] stops_unhandled_at(ps, k) by {
        if 0 <= k < ps.len() {
            assert(!unhandled_pattern(ps[k].node));
        }
    }
}

impl Checker {
    /// What holds of the checker between steps: there is a scope, every
    /// dispatch entry has signatures, and registered signatures name their
    /// type variables.
    pub open spec fn inv(&self) -> bool {
        &&& self.env.wf()
        &&& dispatch_ok(self.env.dispatch_table)
        &&& interfaces_ok(self.env.interfaces)
    }

    /// A checker with a fresh environment, no substitution, outside any
    /// action, with no constraints.
    pub fn new() -> (r: Checker)
        ensures
            r.inv(),
            r.env.scope_tables() == seq![Seq::<(Seq<char>, Type)>::empty()],
            r.env.dispatch_table.entries().len() == 0,
            r.env.interfaces.entries().len() == 0,
            r.substitutions.entries().len() == 0,
            !r.in_action_context,
            r.constraints@.len() == 0,
            r.next_var == 1,
    {
        let r = Checker {
            env: Environment::new(),
            substitutions: Table::new(),
            in_action_context: false,
            constraints: Vec::new(),
            next_var: 1,
        };
        r
    }

    /// A fresh type variable from the checker's counter.
    fn fresh(&mut self) -> (r: Type)
        ensures
            r@ == TypeView::Var(fresh_name(old(self).next_var as nat)),
            final(self).next_var == next_counter(old(self).next_var as nat),
            final(self).env == old(self).env,
            final(self).substitutions == old(self).substitutions,
            final(self).in_action_context == old(self).in_action_context,
            final(self).constraints == old(self).constraints,
    {
        fresh_type(&mut self.next_var)
    }

    /// Records the substitution `s` after the current one.
    fn extend(&mut self, s: &Substitution)
        ensures
            subst_view(final(self).substitutions.entries()) == crate::type_checker::inference::compose_view(
                subst_view(old(self).substitutions.entries()),
                subst_view(s.entries()),
            ),
            final(self).env == old(self).env,
            final(self).next_var == old(self).next_var,
            final(self).in_action_context == old(self).in_action_context,
            final(self).constraints == old(self).constraints,
    {
        self.substitutions = compose(&self.substitutions, s);
    }

    /// Unifies `t1` with `t2` and records the result.
    fn unify_in(&mut self, t1: &Type, t2: &Type, span: &Span) -> (r: Result<(), TypeError>)
        ensures
            r is Ok <==> unify_spec(t1@, t2@, old(self).env) is Ok,
            match unify_spec(t1@, t2@, old(self).env) {
                Ok((sv, _)) => subst_view(final(self).substitutions.entries())
                    == crate::type_checker::inference::compose_view(
                    subst_view(old(self).substitutions.entries()),
                    sv,
                ),
                Err(x) => r matches Err(e) && crate::type_checker::inference::reports(e, x, *span)
                    && final(self).substitutions == old(self).substitutions,
            },
            final(self).env == old(self).env,
            final(self).next_var == old(self).next_var,
            final(self).in_action_context == old(self).in_action_context,
            final(self).constraints == old(self).constraints,
    {
        let (s, _) = match unify(t1, t2, &self.env, span) {
            Ok(u) => u,
            Err(e) => {
                return Err(e);
            },
        };
        self.extend(&s);
        Ok(())
    }
}

/// The type of a literal.
fn literal_type(l: &Literal) -> (r: Type)
    ensures
        r@ == named_type(literal_type_name(*l)),
        l is Int ==> r@ == named_type("Int"@),
        l is Float ==> r@ == named_type("Float"@),
        l is String ==> r@ == named_type("Text"@),
        l is Bool ==> r@ == named_type("Bool"@),
        l is Bytes ==> r@ == named_type("Bytes"@),
        l is Unit ==> r@ == named_type("Unit"@),
{
    match l {
        Literal::Int(_) => Type::named("Int"),
        Literal::Float(_) => Type::named("Float"),
        Literal::String(_) => Type::named("Text"),
        Literal::Bool(_) => Type::named("Bool"),
        Literal::Bytes(_) => Type::named("Bytes"),
        Literal::Unit => Type::named("Unit"),
    }
}

/// The error for a form the checker does not handle yet.
fn unhandled_error(what: &str, span: Span) -> (r: TypeError)
    ensures
        r@ == unhandled(what@, span),
{
    TypeError::UnboundVariable { name: String::from_str(what), span }
}

// =============================================================================
// PATTERNS
// =============================================================================

impl Checker {
    /// Checks `sp` against `expected`, binding the variables it names in the
    /// innermost scope; gives back the type the pattern matches.
    fn check_pattern(&mut self, sp: &Spanned<Pattern>, expected: &Type) -> (r: Result<Type, TypeError>)
        requires
            old(self).inv(),
        ensures
            final(self).inv(),
            final(self).env.scope_tables().len() == old(self).env.scope_tables().len(),
            final(self).env.scope_tables().drop_last() == old(self).env.scope_tables().drop_last(),
            same_registries(final(self).env, old(self).env),
            final(self).in_action_context == old(self).in_action_context,
            final(self).constraints == old(self).constraints,
            sp.node is Wildcard ==> (r matches Ok(t) && t@ == expected@ && final(self).env
                == old(self).env),
            sp.node matches Pattern::Literal(l) ==> match unify_spec(
                named_type(literal_type_name(l)),
                expected@,
                old(self).env,
            ) {
                Ok((u, _)) => r matches Ok(t) && subst_view(final(self).substitutions.entries())
                    == crate::type_checker::inference::compose_view(
                    subst_view(old(self).substitutions.entries()),
                    u,
                ) && t@ == subst_apply(
                    named_type(literal_type_name(l)),
                    subst_view(final(self).substitutions.entries()),
                ) && final(self).env == old(self).env,
                Err(x) => r matches Err(e) && crate::type_checker::inference::reports(e, x, sp.span)
                    && final(self).substitutions == old(self).substitutions,
            },
            sp.node matches Pattern::Var(_) ==> final(self).substitutions == old(self).substitutions
                && final(self).next_var == old(self).next_var,
            sp.node matches Pattern::List { elements, .. } ==> forall|k: int| #[trigger]
                stops_unhandled_at(elements@, k) ==> (r matches Err(e) && e@ == unhandled(
                    "Unimplemented pattern check"@,
                    elements@[k].span,
                )),
            sp.node matches Pattern::List { elements, rest } ==> (rest is None && all_bind_anything(elements@)
                && ground_list_type(expected@) ==> (r matches Ok(u) && u@ == expected@)),
            sp.node matches Pattern::List { elements, rest } ==> (rest is None && all_bind_anything(elements@)
                && ground_list_type(expected@) ==> binds_elements(
                elements@,
                final(self).env.scope_tables(),
                expected@->Named_params[0],
            )),
            sp.node matches Pattern::Tuple(ps) && *expected matches Type::Tuple(ets) && ps@.len()
                != ets@.len() ==> (r matches Err(e) && e matches TypeError::TypeMismatch {
                expected: x,
                span: s,
                ..
            } && x@ == expected@ && s == sp.span),
            sp.node matches Pattern::Var(id) ==> (r matches Ok(t) && t@ == expected@
                && (lookup_in_scopes(final(self).env.scope_tables(), id@) matches Some(u) && u@
                == expected@)),
            sp.node matches Pattern::Var(id) ==> forall|y: Seq<char>|
                y != id@ ==> #[trigger] lookup_in_scopes(final(self).env.scope_tables(), y) == lookup_in_scopes(
                    old(self).env.scope_tables(),
                    y,
                ),
            unhandled_pattern(sp.node) ==> (r matches Err(e) && e@ == unhandled(
                "Unimplemented pattern check"@,
                sp.span,
            )),
        decreases sp,
    {
        let span = sp.span;
        match &sp.node {
            Pattern::Wildcard => Ok(copy_type(expected)),
            Pattern::Literal(lit) => {
                let lit_type = literal_type(lit);
                self.unify_in(&lit_type, expected, &span)?;
                Ok(apply(&lit_type, &self.substitutions))
            },
            Pattern::Var(id) => {
                self.env.bind_var(id.0.as_str(), copy_type(expected));
                assert(self.env.scope_tables().drop_last() =~= old(self).env.scope_tables().drop_last());
                Ok(copy_type(expected))
            },
            Pattern::Tuple(patterns) => {
                match expected {
                    Type::Tuple(expected_types) => {
                        if patterns.len() != expected_types.len() {
                            let mut fresh: Vec<Type> = Vec::new();
                            let mut i: usize = 0;
                            while i < patterns.len()
                                invariant
                                    i <= patterns.len(),
                                    self.inv(),
                                    self.env == old(self).env,
                                    self.in_action_context == old(self).in_action_context,
                                    self.constraints == old(self).constraints,
                                decreases patterns.len() - i,
                            {
                                fresh.push(self.fresh());
                                i = i + 1;
                            }
                            return Err(TypeError::TypeMismatch {
                                expected: copy_type(expected),
                                found: Type::tuple(fresh),
                                span,
                            });
                        }
                        let matched = self.check_patterns(patterns, expected_types)?;
                        Ok(Type::tuple(matched))
                    },
                    _ => {
                        let mut fresh: Vec<Type> = Vec::new();
                        let mut i: usize = 0;
                        while i < patterns.len()
                            invariant
                                i <= patterns.len(),
                                fresh@.len() == i,
                                self.inv(),
                                self.env == old(self).env,
                                self.in_action_context == old(self).in_action_context,
                                self.constraints == old(self).constraints,
                            decreases patterns.len() - i,
                        {
                            fresh.push(self.fresh());
                            i = i + 1;
                        }
                        let fresh_tuple = Type::tuple(fresh);
                        self.unify_in(&fresh_tuple, expected, &span)?;
                        let resolved = apply(&fresh_tuple, &self.substitutions);
                        match resolved {
                            Type::Tuple(resolved_types) => {
                                proof {
                                    crate::type_checker::inference::lemma_apply_all_len(
                                        types_view(fresh@),
                                        subst_view(self.substitutions.entries()),
                                        subst_view(self.substitutions.entries()).len(),
                                    );
                                    crate::ast::types::lemma_types_view_len(fresh@);
                                    crate::ast::types::lemma_types_view_len(resolved_types@);
                                }
                                let matched = self.check_patterns(patterns, &resolved_types)?;
                                Ok(Type::tuple(matched))
                            },
                            _ => {
                                proof {
                                    assert(false);
                                }
                                Ok(resolved)
                            },
                        }
                    },
                }
            },
            Pattern::List { elements, rest } => {
                let elem_type = match expected {
                    Type::Named { name, params } => {
                        proof {
                            crate::ast::types::lemma_types_view_len(params@);
                            if params@.len() > 0 {
                                crate::ast::types::lemma_types_view_index(params@, 0);
                            }
                        }
                        if str_eq(name.name.as_str(), "List") && params.len() == 1 {
                            copy_type(&params[0])
                        } else {
                            self.fresh()
                        }
                    },
                    _ => self.fresh(),
                };
                let ghost ev = elem_type@;
                proof {
                    if ground_list_type(expected@) {
                        assert(ev == expected@->Named_params[0]);
                    }
                }
                let matched_elem = self.check_elements(elements, elem_type, &span)?;
                let ghost mv = matched_elem@;
                let mut ps: Vec<Type> = Vec::new();
                ps.push(matched_elem);
                let list_type = Type::generic("List", ps);
                proof {
                    crate::ast::types::lemma_types_view_index(ps@, 0);
                    if rest is None && all_bind_anything(elements@) && ground_list_type(expected@) {
                        assert(types_view(ps@) =~= seq![mv]);
                        assert(mv == ev);
                        assert(expected@->Named_params =~= seq![mv]);
                        assert(list_type@ == expected@);
                        crate::type_checker::inference::law_unify_reflexive(list_type@, self.env);
                    }
                }
                self.unify_in(&list_type, expected, &span)?;
                match rest {
                    Some(r) => {
                        let applied = apply(&list_type, &self.substitutions);
                        self.check_pattern(r, &applied)?;
                    },
                    None => {},
                }
                proof {
                    if rest is None && all_bind_anything(elements@) && ground_list_type(expected@) {
                        assert(mv == ev);
                        assert(crate::type_checker::inference::ftv(mv).is_empty());
                        assert(seq![mv].drop_last() =~= Seq::<TypeView>::empty());
                        assert(seq![mv].last() == mv);
                        assert(crate::type_checker::inference::ftvs(Seq::<TypeView>::empty()) =~= Set::empty());
                        assert(crate::type_checker::inference::ftvs(seq![mv]) =~= Set::empty());
                        assert(crate::type_checker::inference::ftv(list_type@) =~= Set::empty());
                        crate::type_checker::inference::law_apply_unbound(
                            list_type@,
                            subst_view(self.substitutions.entries()),
                            subst_view(self.substitutions.entries()).len(),
                        );
                    }
                }
                Ok(apply(&list_type, &self.substitutions))
            },
            Pattern::Cons { head, tail } => {
                let elem_type = self.fresh();
                let mut ps: Vec<Type> = Vec::new();
                ps.push(copy_type(&elem_type));
                let list_type = Type::generic("List", ps);
                self.unify_in(&list_type, expected, &span)?;
                let resolved_elem = apply(&elem_type, &self.substitutions);
                let resolved_list = apply(&list_type, &self.substitutions);
                self.check_pattern(head, &resolved_elem)?;
                self.check_pattern(tail, &resolved_list)?;
                Ok(resolved_list)
            },
            Pattern::Variant { args, .. } => {
                self.check_fresh_args(args)?;
                Ok(copy_type(expected))
            },
            _ => Err(unhandled_error("Unimplemented pattern check", span)),
        }
    }

    /// Checks each pattern of `ps` against the type at the same position.
    fn check_patterns(&mut self, ps: &Vec<Spanned<Pattern>>, ts: &Vec<Type>) -> (r: Result<Vec<Type>, TypeError>)
        requires
            old(self).inv(),
            ps.len() == ts.len(),
        ensures
            final(self).inv(),
            final(self).env.scope_tables().len() == old(self).env.scope_tables().len(),
            final(self).env.scope_tables().drop_last() == old(self).env.scope_tables().drop_last(),
            same_registries(final(self).env, old(self).env),
            final(self).in_action_context == old(self).in_action_context,
            final(self).constraints == old(self).constraints,
            r matches Ok(v) ==> (v@.len() == ps@.len() && forall|i: int|
                0 <= i < ps@.len() && binds_anything(#[trigger] ps@[i].node) ==> v@[i]@ == ts@[i]@),
            all_bind_anything(ps@) ==> r is Ok,
            forall|k: int| #[trigger] stops_unhandled_at(ps@, k) ==> (r matches Err(e) && e@ == unhandled(
                "Unimplemented pattern check"@,
                ps@[k].span,
            )),
        decreases ps,
    {
        let mut matched: Vec<Type> = Vec::new();
        let mut i: usize = 0;
        while i < ps.len()
            invariant
                i <= ps.len(),
                ps.len() == ts.len(),
                matched@.len() == i,
                forall|j: int| 0 <= j < i && binds_anything(#[trigger] ps@[j].node) ==> matched@[j]@ == ts@[j]@,
                forall|j: int| 0 <= j < i ==> !unhandled_pattern(#[trigger] ps@[j].node),
                self.inv(),
                self.env.scope_tables().len() == old(self).env.scope_tables().len(),
                self.env.scope_tables().drop_last() == old(self).env.scope_tables().drop_last(),
                same_registries(self.env, old(self).env),
                self.in_action_context == old(self).in_action_context,
                self.constraints == old(self).constraints,
            decreases ps.len() - i,
        {
            let t = match self.check_pattern(&ps[i], &ts[i]) {
                Ok(t) => t,
                Err(e) => {
                    proof {
                        lemma_stop_is_here(ps@, i as int);
                    }
                    return Err(e);
                },
            };
            matched.push(t);
            i = i + 1;
        }
        proof {
            lemma_no_stop(ps@);
        }
        Ok(matched)
    }

    /// Checks the elements of a list pattern one after another against the
    /// element type, refined as it goes; gives back the element type.
    fn check_elements(&mut self, ps: &Vec<Spanned<Pattern>>, elem: Type, span: &Span) -> (r: Result<Type, TypeError>)
        requires
            old(self).inv(),
        ensures
            final(self).inv(),
            final(self).env.scope_tables().len() == old(self).env.scope_tables().len(),
            final(self).env.scope_tables().drop_last() == old(self).env.scope_tables().drop_last(),
            same_registries(final(self).env, old(self).env),
            final(self).in_action_context == old(self).in_action_context,
            final(self).constraints == old(self).constraints,
            ps@.len() == 0 ==> r == Ok::<Type, TypeError>(elem),
            all_bind_anything(ps@) ==> r is Ok,
            all_bind_anything(ps@) && crate::type_checker::inference::ftv(elem@).is_empty() ==> (r matches Ok(
                m,
            ) && m@ == elem@),
            all_bind_anything(ps@) && crate::type_checker::inference::ftv(elem@).is_empty() ==> binds_elements(
                ps@,
                final(self).env.scope_tables(),
                elem@,
            ),
            forall|k: int| #[trigger] stops_unhandled_at(ps@, k) ==> (r matches Err(e) && e@ == unhandled(
                "Unimplemented pattern check"@,
                ps@[k].span,
            )),
        decreases ps,
    {
        let ghost e0 = elem@;
        let mut matched_elem = elem;
        let mut i: usize = 0;
        while i < ps.len()
            invariant
                i <= ps.len(),
                i == 0 ==> matched_elem == elem,
                all_bind_anything(ps@) && crate::type_checker::inference::ftv(e0).is_empty() ==> matched_elem@ == e0,
                all_bind_anything(ps@) && crate::type_checker::inference::ftv(e0).is_empty() ==> binds_elements(
                    ps@.take(i as int),
                    self.env.scope_tables(),
                    e0,
                ),
                e0 == elem@,
                forall|j: int| 0 <= j < i ==> !unhandled_pattern(#[trigger] ps@[j].node),
                self.inv(),
                self.env.scope_tables().len() == old(self).env.scope_tables().len(),
                self.env.scope_tables().drop_last() == old(self).env.scope_tables().drop_last(),
                same_registries(self.env, old(self).env),
                self.in_action_context == old(self).in_action_context,
                self.constraints == old(self).constraints,
            decreases ps.len() - i,
        {
            let t = match self.check_pattern(&ps[i], &matched_elem) {
                Ok(t) => t,
                Err(e) => {
                    proof {
                        lemma_stop_is_here(ps@, i as int);
                    }
                    return Err(e);
                },
            };
            proof {
                if binds_anything(ps@[i as int].node) {
                    crate::type_checker::inference::law_unify_reflexive(t@, self.env);
                }
            }
            match self.unify_in(&t, &matched_elem, span) {
                Ok(()) => {},
                Err(e) => {
                    proof {
                        lemma_stop_is_here(ps@, i as int);
                    }
                    return Err(e);
                },
            }
            let ghost m0 = matched_elem@;
            proof {
                if all_bind_anything(ps@) && crate::type_checker::inference::ftv(e0).is_empty() {
                    let tk = ps@.take(i + 1);
                    assert forall|k: int| 0 <= k < tk.len() && (#[trigger] tk[k]).node is Var implies (lookup_in_scopes(
                        self.env.scope_tables(),
                        tk[k].node->Var_0@,
                    ) matches Some(u) && u@ == e0) by {
                        if k < i {
                            assert(ps@.take(i as int)[k] == tk[k]);
                        }
                    }
                }
            }
            matched_elem = apply(&matched_elem, &self.substitutions);
            proof {
                if all_bind_anything(ps@) && crate::type_checker::inference::ftv(e0).is_empty() {
                    crate::type_checker::inference::law_apply_unbound(
                        m0,
                        subst_view(self.substitutions.entries()),
                        subst_view(self.substitutions.entries()).len(),
                    );
                }
            }
            i = i + 1;
        }
        proof {
            lemma_no_stop(ps@);
            assert(ps@.take(ps@.len() as int) =~= ps@);
        }
        Ok(matched_elem)
    }

    /// Checks each pattern against a fresh type variable.
    fn check_fresh_args(&mut self, ps: &Vec<Spanned<Pattern>>) -> (r: Result<(), TypeError>)
        requires
            old(self).inv(),
        ensures
            final(self).inv(),
            final(self).env.scope_tables().len() == old(self).env.scope_tables().len(),
            final(self).env.scope_tables().drop_last() == old(self).env.scope_tables().drop_last(),
            same_registries(final(self).env, old(self).env),
            final(self).in_action_context == old(self).in_action_context,
            final(self).constraints == old(self).constraints,
            all_bind_anything(ps@) ==> r is Ok,
            forall|k: int| #[trigger] stops_unhandled_at(ps@, k) ==> (r matches Err(e) && e@ == unhandled(
                "Unimplemented pattern check"@,
                ps@[k].span,
            )),
        decreases ps,
    {
        let mut i: usize = 0;
        while i < ps.len()
            invariant
                i <= ps.len(),
                forall|j: int| 0 <= j < i ==> !unhandled_pattern(#[trigger] ps@[j].node),
                self.inv(),
                self.env.scope_tables().len() == old(self).env.scope_tables().len(),
                self.env.scope_tables().drop_last() == old(self).env.scope_tables().drop_last(),
                same_registries(self.env, old(self).env),
                self.in_action_context == old(self).in_action_context,
                self.constraints == old(self).constraints,
            decreases ps.len() - i,
        {
            let fresh = self.fresh();
            match self.check_pattern(&ps[i], &fresh) {
                Ok(_) => {},
                Err(e) => {
                    proof {
                        lemma_stop_is_here(ps@, i as int);
                    }
                    return Err(e);
                },
            }
            i = i + 1;
        }
        proof {
            lemma_no_stop(ps@);
        }
        Ok(())
    }
}

// =============================================================================
// EXPRESSIONS
// =============================================================================

/// The size of an expression, counting the subexpressions the checker
/// visits.
pub open spec fn expr_size(e: Expr) -> nat
    decreases e,
{
    match e {
        Expr::Tuple(es) | Expr::List(es) | Expr::Block(es) => 1 + exprs_size(es@),
        Expr::Apply { func, args } | Expr::ExplicitApply { func, args } => 1 + expr_size(func.node)
            + exprs_size(args@),
        Expr::WithBlock { body, bindings } => 1 + expr_size(body.node) + bindings_size(bindings@),
        _ => 1,
    }
}

/// The total size of a sequence of expressions.
pub open spec fn exprs_size(es: Seq<Spanned<Expr>>) -> nat
    decreases es,
{
    if es.len() == 0 {
        0
    } else {
        expr_size(es[0].node) + exprs_size(es.subrange(1, es.len() as int))
    }
}

/// The total size of the values of `with` bindings.
pub open spec fn bindings_size(bs: Seq<WithBinding>) -> nat
    decreases bs,
{
    if bs.len() == 0 {
        0
    } else {
        (match bs[0] {
            WithBinding::Value { value, .. } => expr_size(value.node),
            _ => 0,
        }) + bindings_size(bs.subrange(1, bs.len() as int))
    }
}

/// The types of typed expressions.
pub open spec fn typs_of(ts: Seq<TypedExpr>) -> Seq<TypeView> {
    ts.map_values(|t: TypedExpr| t.typ@)
}

/// Whether `t` is what checking `e` gives in some environment with the
/// scope tables `tables` and the registries of `env`.
pub open spec fn checked_in(t: TypedExpr, e: Spanned<Expr>, tables: Seq<Entries<Type>>, env: Environment) -> bool {
    exists|e0: Environment, k: nat|
        #[trigger] expr_outcome(e, e0, k, Ok::<TypedExpr, TypeError>(t)) && e0.scope_tables() == tables
            && same_registries(e0, env)
}

/// Whether each of `ts` is the checked form of the expression of `es` at
/// the same position.
pub open spec fn all_checked_in(ts: Seq<TypedExpr>, es: Seq<Spanned<Expr>>, tables: Seq<Entries<Type>>, env: Environment) -> bool {
    &&& ts.len() == es.len()
    &&& forall|i: int| 0 <= i < es.len() ==> #[trigger] checked_in(ts[i], es[i], tables, env)
}

/// Whether the substitution `s` is some substitution followed by `u`.
pub open spec fn ends_with(s: Entries<TypeView>, u: Entries<TypeView>) -> bool {
    exists|mid: Entries<TypeView>| #[trigger] compose_view(mid, u) == s
}

/// What a checked list literal is, given its element variable `v`, the
/// environment `env` and the substitution `s` after it: every element's
/// type unifies with `v`, the last unification ends `s`, and the list's
/// type is `List` of `v` under `s`.
pub open spec fn list_outcome(t: TypedExpr, v: TypeView, env: Environment, s: Entries<TypeView>) -> bool {
    &&& t.kind matches ExprKind::List(ts)
    &&& forall|i: int| 0 <= i < ts@.len() ==> unify_spec(#[trigger] ts@[i].typ@, v, env) is Ok
    &&& ts@.len() > 0 ==> ends_with(s, unify_spec(ts@.last().typ@, v, env)->Ok_0.0)
    &&& t.typ@ == (TypeView::Named { name: (None, "List"@), params: seq![subst_apply(v, s)] })
}

/// What a checked explicit application is, in `env` with the substitution
/// `s` after it: the function's type unifies with the function type from
/// the arguments' types to a fresh variable, that unification ends `s`, and
/// the type is that variable under `s`.
pub open spec fn applied_outcome(t: TypedExpr, env: Environment, s: Entries<TypeView>) -> bool {
    &&& t.kind matches ExprKind::Apply { func: f, args: a }
    &&& exists|k: nat| {
        &&& #[trigger] call_unify(f.typ@, typs_of(a@), k, env) is Ok
        &&& ends_with(s, call_unify(f.typ@, typs_of(a@), k, env)->Ok_0.0)
        &&& t.typ@ == subst_apply(TypeView::Var(fresh_name(k)), s)
    }
}

/// The unification of a function's type `f` with the function type from
/// `args` to the fresh variable numbered `k`.
pub open spec fn call_unify(f: TypeView, args: Seq<TypeView>, k: nat, env: Environment) -> Result<
    (Entries<TypeView>, nat),
    crate::type_checker::inference::UnifyError,
> {
    unify_spec(f, TypeView::Function { params: args, ret: Box::new(TypeView::Var(fresh_name(k))) }, env)
}

/// The types `ps` with their generic variables replaced by fresh ones, each
/// type on its own, the counter starting at `k`; and the counter after.
pub open spec fn params_instantiation(ps: Seq<TypeView>, k: nat) -> (Seq<TypeView>, nat)
    decreases ps.len(),
{
    if ps.len() == 0 {
        (Seq::empty(), k)
    } else {
        let (a, k1) = params_instantiation(ps.drop_last(), k);
        let (t, k2) = crate::type_checker::inference::instantiation(ps.last(), k1);
        (a.push(t), k2)
    }
}

/// A signature with its generic variables replaced by fresh ones, the
/// parameters first and the return type last; and the counter after.
pub open spec fn sig_instantiation(s: FunctionSigView, k: nat) -> (FunctionSigView, nat) {
    let (ps, k1) = params_instantiation(s.params, k);
    let (r, k2) = crate::type_checker::inference::instantiation(s.ret, k1);
    (FunctionSigView { params: ps, ret: r }, k2)
}

/// The views of signatures.
pub open spec fn sig_views(v: Seq<FunctionSig>) -> Seq<FunctionSigView> {
    v.map_values(|s: FunctionSig| s@)
}

/// Trying parameters `ps` against argument types `args`, over the first
/// `n` pairs, from the substitution `base`: each pair is unified on its
/// own, the substitutions composed after `base` and the scores summed
/// (capped at the largest `usize`); `None` when a pair does not unify.
pub open spec fn trial(
    ps: Seq<TypeView>,
    args: Seq<TypeView>,
    n: nat,
    env: Environment,
    base: Entries<TypeView>,
) -> Option<(Entries<TypeView>, nat)>
    decreases n,
{
    if n == 0 {
        Some((base, 0))
    } else {
        match trial(ps, args, (n - 1) as nat, env, base) {
            None => None,
            Some((s, c)) => match unify_spec(ps[n - 1], args[n - 1], env) {
                Ok((u, c1)) => Some((compose_view(s, u), crate::type_checker::inference::sat_add(c, c1))),
                Err(_) => None,
            },
        }
    }
}

/// The number of pairs a signature with `np` parameters is tried on.
pub open spec fn pairs_tried(np: nat, na: nat) -> nat {
    if np < na {
        np
    } else {
        na
    }
}

/// The fresh-variable counter before the signature `j` of `sigs` is
/// instantiated, the first one at `k0`.
pub open spec fn counter_before(sigs: Seq<FunctionSigView>, k0: nat, j: int) -> nat
    decreases j,
{
    if j <= 0 {
        k0
    } else {
        sig_instantiation(sigs[j - 1], counter_before(sigs, k0, j - 1)).1
    }
}

/// The signature `j` of `sigs`, instantiated in turn after those before it.
pub open spec fn inst_of(sigs: Seq<FunctionSigView>, k0: nat, j: int) -> FunctionSigView {
    sig_instantiation(sigs[j], counter_before(sigs, k0, j)).0
}

/// Whether the signature `j` matches the argument types: its instantiated
/// parameters unify with them, at a score below the largest `usize`; the
/// substitution and the score if so.
pub open spec fn candidate(
    sigs: Seq<FunctionSigView>,
    args: Seq<TypeView>,
    env: Environment,
    base: Entries<TypeView>,
    k0: nat,
    j: int,
) -> Option<(Entries<TypeView>, nat)> {
    let p = inst_of(sigs, k0, j).params;
    match trial(p, args, pairs_tried(p.len(), args.len()), env, base) {
        Some((s, c)) => if c < usize::MAX {
            Some((s, c))
        } else {
            None
        },
        None => None,
    }
}

/// Whether the signature `j` is the one dispatch chooses: it matches, every
/// matching signature scores at least as much, and every earlier one more.
pub open spec fn wins(
    sigs: Seq<FunctionSigView>,
    args: Seq<TypeView>,
    env: Environment,
    base: Entries<TypeView>,
    k0: nat,
    j: int,
) -> bool {
    &&& 0 <= j < sigs.len()
    &&& candidate(sigs, args, env, base, k0, j) is Some
    &&& forall|i: int|
        0 <= i < sigs.len() && #[trigger] candidate(sigs, args, env, base, k0, i) is Some ==> {
            &&& candidate(sigs, args, env, base, k0, j)->Some_0.1 <= candidate(sigs, args, env, base, k0, i)->Some_0.1
            &&& i < j ==> candidate(sigs, args, env, base, k0, j)->Some_0.1 < candidate(sigs, args, env, base, k0, i)->Some_0.1
        }
}

/// What a dispatched application is, in `env` with the substitution `s`
/// after it: some signature of `sigs` wins for the arguments' types, `s` is
/// its substitution, and the type is its instantiated return type under
/// `s`.
pub open spec fn dispatch_outcome(t: TypedExpr, sigs: Seq<FunctionSigView>, env: Environment, s: Entries<TypeView>) -> bool {
    &&& t.kind matches ExprKind::Apply { args: ta, .. }
    &&& exists|k0: nat, base: Entries<TypeView>, j: int| {
        &&& #[trigger] wins(sigs, typs_of(t.kind->Apply_args@), env, base, k0, j)
        &&& s == candidate(sigs, typs_of(t.kind->Apply_args@), env, base, k0, j)->Some_0.0
        &&& t.typ@ == subst_apply(inst_of(sigs, k0, j).ret, s)
    }
}

/// Whether signatures match alike in two environments with the same
/// interface tables.
proof fn lemma_wins_tables(
    sigs: Seq<FunctionSigView>,
    args: Seq<TypeView>,
    e1: Environment,
    e2: Environment,
    base: Entries<TypeView>,
    k0: nat,
    j: int,
)
    requires
        crate::type_checker::environment::same_interface_tables(e1, e2),
        wins(sigs, args, e1, base, k0, j),
    ensures
        wins(sigs, args, e2, base, k0, j),
        candidate(sigs, args, e1, base, k0, j) == candidate(sigs, args, e2, base, k0, j),
{
    assert forall|i: int| 0 <= i < sigs.len() implies #[trigger] candidate(sigs, args, e2, base, k0, i)
        == candidate(sigs, args, e1, base, k0, i) by {
        let p = inst_of(sigs, k0, i).params;
        lemma_trial_tables(p, args, pairs_tried(p.len(), args.len()), e1, e2, base);
    }
    assert(candidate(sigs, args, e2, base, k0, j) == candidate(sigs, args, e1, base, k0, j));
    assert forall|i: int|
        0 <= i < sigs.len() && #[trigger] candidate(sigs, args, e2, base, k0, i) is Some implies {
            &&& candidate(sigs, args, e2, base, k0, j)->Some_0.1 <= candidate(sigs, args, e2, base, k0, i)->Some_0.1
            &&& i < j ==> candidate(sigs, args, e2, base, k0, j)->Some_0.1 < candidate(sigs, args, e2, base, k0, i)->Some_0.1
        } by {
        assert(candidate(sigs, args, e1, base, k0, i) is Some);
    }
}

/// A trial that fails on some pair fails on every longer prefix.
proof fn lemma_trial_stays_none(ps: Seq<TypeView>, args: Seq<TypeView>, m: nat, n: nat, env: Environment, base: Entries<TypeView>)
    requires
        m <= n,
        trial(ps, args, m, env, base) is None,
    ensures
        trial(ps, args, n, env, base) is None,
    decreases n - m,
{
    if m < n {
        lemma_trial_stays_none(ps, args, m, (n - 1) as nat, env, base);
    }
}

/// Trials in two environments with the same interface tables agree.
proof fn lemma_trial_tables(ps: Seq<TypeView>, args: Seq<TypeView>, n: nat, e1: Environment, e2: Environment, base: Entries<TypeView>)
    requires
        crate::type_checker::environment::same_interface_tables(e1, e2),
    ensures
        trial(ps, args, n, e1, base) == trial(ps, args, n, e2, base),
    decreases n,
{
    if n > 0 {
        lemma_trial_tables(ps, args, (n - 1) as nat, e1, e2, base);
        crate::type_checker::inference::lemma_unify_tables(ps[n - 1], args[n - 1], e1, e2);
    }
}

/// Whether `e` is a name with signatures in `env`.
pub open spec fn names_dispatch(e: Expr, env: Environment) -> bool {
    e matches Expr::Var { name, .. } && env.dispatch_table.spec_get(name@) is Some
}

/// Whether `e` is an argument whose type is read off directly: a literal,
/// or a name without an ascription that the scopes bind and that names no
/// function.
pub open spec fn direct_arg(e: Expr, env: Environment) -> bool {
    match e {
        Expr::Literal(_) => true,
        Expr::Var { name, type_ascription } => type_ascription is None && lookup_in_scopes(
            env.scope_tables(),
            name@,
        ) is Some && env.dispatch_table.spec_get(name@) is None,
        _ => false,
    }
}

/// The type of a direct argument: a literal's type, or the type the scopes
/// bind the name to.
pub open spec fn direct_type(e: Expr, env: Environment) -> TypeView {
    match e {
        Expr::Literal(l) => named_type(literal_type_name(l)),
        Expr::Var { name, .. } => lookup_in_scopes(env.scope_tables(), name@)->Some_0@,
        _ => named_type("Unit"@),
    }
}

/// The types of direct arguments.
pub open spec fn direct_types(es: Seq<Spanned<Expr>>, env: Environment) -> Seq<TypeView> {
    es.map_values(|e: Spanned<Expr>| direct_type(e.node, env))
}

/// The signatures of the function that `f` names in `env`.
pub open spec fn called_sigs(f: Expr, env: Environment) -> Seq<FunctionSigView> {
    sig_views(env.dispatch_table.spec_get(f->Var_name@)->Some_0@)
}

/// Whether `f` applied to `args` is a call of a function with signatures
/// in `env` that has enough arguments, the ones it takes all direct.
pub open spec fn simple_call(f: Expr, args: Seq<Spanned<Expr>>, env: Environment) -> bool {
    &&& names_dispatch(f, env)
    &&& dispatch_arity(f, env) <= args.len()
    &&& forall|i: int| 0 <= i < dispatch_arity(f, env) ==> direct_arg(#[trigger] args[i].node, env)
}

/// The types of the arguments a simple call takes.
pub open spec fn call_arg_types(f: Expr, args: Seq<Spanned<Expr>>, env: Environment) -> Seq<TypeView> {
    direct_types(args.take(dispatch_arity(f, env)), env)
}

/// Whether some signature of a simple call matches its arguments, with
/// the substitution `base` and fresh variables counted from `k0`.
pub open spec fn call_matches(f: Expr, args: Seq<Spanned<Expr>>, env: Environment, base: Entries<TypeView>, k0: nat) -> bool {
    sigs_match(called_sigs(f, env), call_arg_types(f, args, env), env, base, k0)
}

/// Whether some signature of `sigs` matches the argument types `tys`, with
/// the substitution `base` and fresh variables counted from `k0`.
pub open spec fn sigs_match(sigs: Seq<FunctionSigView>, tys: Seq<TypeView>, env: Environment, base: Entries<TypeView>, k0: nat) -> bool {
    exists|j: int| 0 <= j < sigs.len() && #[trigger] candidate(sigs, tys, env, base, k0, j) is Some
}

/// Whether `e` is an argument of a call in a clause with the patterns `ps`
/// that is accepted as it stands: a literal, or a name without an
/// ascription that the patterns bind and that names no function.
pub open spec fn clause_arg(e: Expr, ps: Seq<Spanned<Pattern>>, env: Environment) -> bool {
    match e {
        Expr::Literal(_) => true,
        Expr::Var { name, type_ascription } => type_ascription is None && last_binding(ps, name@) >= 0
            && env.dispatch_table.spec_get(name@) is None,
        _ => false,
    }
}

/// The type of such an argument: a literal's type, or the parameter type
/// at the position of the pattern that binds the name last.
pub open spec fn clause_arg_type(e: Expr, ps: Seq<Spanned<Pattern>>, params: Seq<Type>) -> TypeView {
    match e {
        Expr::Literal(l) => named_type(literal_type_name(l)),
        Expr::Var { name, .. } => params[last_binding(ps, name@)]@,
        _ => named_type("Unit"@),
    }
}

/// The types of the arguments a call in a clause takes.
pub open spec fn clause_call_types(f: Expr, args: Seq<Spanned<Expr>>, ps: Seq<Spanned<Pattern>>, params: Seq<Type>, env: Environment) -> Seq<TypeView> {
    args.take(dispatch_arity(f, env)).map_values(|a: Spanned<Expr>| clause_arg_type(a.node, ps, params))
}

/// Whether a clause body that calls `f` on `args` is accepted: `f` has
/// signatures, the arguments it takes are there and accepted as they
/// stand, some signature matches them, and the return type of the one
/// that wins unifies with `ret`, whatever substitution and fresh-variable
/// counter the call starts from.
pub open spec fn call_accepted(
    f: Expr,
    args: Seq<Spanned<Expr>>,
    ps: Seq<Spanned<Pattern>>,
    params: Seq<Type>,
    ret: TypeView,
    env: Environment,
) -> bool {
    let sigs = called_sigs(f, env);
    let tys = clause_call_types(f, args, ps, params, env);
    &&& names_dispatch(f, env)
    &&& dispatch_arity(f, env) <= args.len()
    &&& forall|i: int| 0 <= i < dispatch_arity(f, env) ==> clause_arg(#[trigger] args[i].node, ps, env)
    &&& forall|base: Entries<TypeView>, k0: nat| #[trigger] sigs_match(sigs, tys, env, base, k0)
    &&& forall|base: Entries<TypeView>, k0: nat, j: int|
        #[trigger] wins(sigs, tys, env, base, k0, j) ==> unify_spec(
            subst_apply(inst_of(sigs, k0, j).ret, candidate(sigs, tys, env, base, k0, j)->Some_0.0),
            ret,
            env,
        ) is Ok
}

/// The number of parameters of the first signature of the function that
/// `e` names in `env`.
pub open spec fn dispatch_arity(e: Expr, env: Environment) -> int {
    env.dispatch_table.spec_get(e->Var_name@)->Some_0@[0]@.params.len() as int
}

/// The function type of a signature.
pub open spec fn sig_type(s: FunctionSig) -> TypeView {
    TypeView::Function { params: s@.params, ret: Box::new(s@.ret) }
}

/// What checking `se` gives, in an environment `env` with fresh variables
/// counted from `next`.
pub open spec fn expr_outcome(se: Spanned<Expr>, env: Environment, next: nat, r: Result<TypedExpr, TypeError>) -> bool
    decreases se,
{
    match se.node {
        Expr::Literal(l) => r matches Ok(t) && t.kind == ExprKind::Literal(l) && t.typ@ == named_type(
            literal_type_name(l),
        ) && t.span == se.span,
        Expr::Var { name, type_ascription } => match lookup_in_scopes(env.scope_tables(), name@) {
            Some(u) => match type_ascription {
                None => r matches Ok(t) && t.kind == ExprKind::Var(name) && t.typ@ == u@ && t.span
                    == se.span,
                Some(a) => (r is Ok <==> unify_spec(u@, a@, env) is Ok) && (r matches Ok(t) ==> (t.kind
                    == ExprKind::Var(name) && t.span == se.span)),
            },
            None => match env.dispatch_table.spec_get(name@) {
                Some(sigs) => r matches Ok(t) && t.kind == ExprKind::Var(name) && t.typ@
                    == crate::type_checker::inference::instantiation(sig_type(sigs@[0]), next).0
                    && t.span == se.span,
                None => r matches Err(e) && e@ == (TypeErrorView::UnboundVariable {
                    name: name@,
                    span: se.span,
                }),
            },
        },
        Expr::Hole => r matches Ok(t) && t.kind == ExprKind::Hole && t.typ@ == TypeView::Var(
            fresh_name(next),
        ) && t.span == se.span,
        Expr::Tuple(es) => r matches Ok(t) ==> (t.kind matches ExprKind::Tuple(ts) && ts@.len()
            == es@.len() && t.typ@ == TypeView::Tuple(typs_of(ts@)) && t.span == se.span),
        Expr::List(es) => r matches Ok(t) ==> (t.kind matches ExprKind::List(ts) && ts@.len()
            == es@.len() && t.span == se.span && (t.typ@ matches TypeView::Named { name, params }
            && name == (None::<Seq<char>>, "List"@) && params.len() == 1)),
        Expr::Block(es) => r matches Ok(t) ==> (t.kind matches ExprKind::Block(ts) && ts@.len()
            == es@.len() && t.span == se.span && t.typ@ == if ts@.len() == 0 {
            named_type("Unit"@)
        } else {
            ts@.last().typ@
        }),
        Expr::ExplicitApply { .. } => r matches Ok(t) ==> (t.kind is Apply && t.span == se.span),
        Expr::Apply { func, args } => if names_dispatch(func.node, env) {
            &&& r matches Ok(t) ==> (t.kind matches ExprKind::Apply { func: f, .. } && f.kind
                == ExprKind::Var(func.node->name) && t.span == func.span)
            &&& dispatch_arity(func.node, env) > args@.len() ==> r is Err
        } else {
            expr_outcome(*func, env, next, r)
        },
        Expr::WithBlock { .. } => true,
        _ => r matches Err(e) && e@ == unhandled("Unimplemented expression check"@, se.span),
    }
}

/// The position of the last value binding of `bs` that gives the name `n`,
/// or -1 when none does.
pub open spec fn last_value(bs: Seq<WithBinding>, n: Seq<char>) -> int
    decreases bs.len(),
{
    if bs.len() == 0 {
        -1
    } else if bs.last() is Value && bs.last()->Value_name@ == n {
        bs.len() - 1
    } else {
        last_value(bs.drop_last(), n)
    }
}

/// The last value binding of a name is a value binding of that name in
/// `bs`.
proof fn lemma_last_value(bs: Seq<WithBinding>, n: Seq<char>)
    ensures
        -1 <= last_value(bs, n) < bs.len(),
        last_value(bs, n) >= 0 ==> bs[last_value(bs, n)] is Value && bs[last_value(bs, n)]->Value_name@ == n,
    decreases bs.len(),
{
    if bs.len() > 0 {
        lemma_last_value(bs.drop_last(), n);
        if last_value(bs, n) >= 0 && last_value(bs, n) < bs.len() - 1 {
            assert(bs.drop_last()[last_value(bs, n)] == bs[last_value(bs, n)]);
        }
    }
}

/// Whether the scope `sc` holds the value bindings of `bs`: it binds
/// exactly the names they give, each to the type of a checked form of the
/// value bound to it last, checked in an environment with the registries of
/// `env`.
pub open spec fn with_scope(bs: Seq<WithBinding>, sc: Entries<Type>, env: Environment) -> bool {
    forall|n: Seq<char>|
        #[trigger] entry_get(sc, n) == if last_value(bs, n) < 0 {
            None::<Type>
        } else {
            entry_get(sc, n)
        } && (entry_get(sc, n) matches Some(u) ==> exists|e1: Environment, k1: nat, tv: TypedExpr|
            #[trigger] expr_outcome(bs[last_value(bs, n)]->Value_value, e1, k1, Ok::<TypedExpr, TypeError>(tv))
                && same_registries(e1, env) && tv.typ == u) && (last_value(bs, n) >= 0 ==> entry_get(sc, n) is Some)
}

/// What a checked `with` block is: its body checked in an inner scope that
/// holds the block's value bindings, on top of the scopes of `env`.
pub open spec fn with_outcome(t: TypedExpr, body: Spanned<Expr>, bs: Seq<WithBinding>, env: Environment) -> bool {
    exists|e0: Environment, k: nat|
        {
            &&& #[trigger] expr_outcome(body, e0, k, Ok::<TypedExpr, TypeError>(t))
            &&& same_registries(e0, env)
            &&& e0.scope_tables().len() == env.scope_tables().len() + 1
            &&& e0.scope_tables().drop_last() == env.scope_tables()
            &&& with_scope(bs, e0.scope_tables().last(), env)
        }
}

/// The names that an expression checked in `env` can refer to: the
/// variables in its scopes and the functions in its dispatch table.
pub open spec fn resolvable(env: Environment) -> Set<Seq<char>> {
    Set::new(
        |n: Seq<char>|
            lookup_in_scopes(env.scope_tables(), n) is Some || env.dispatch_table.spec_get(n) is Some,
    )
}

/// Whether `e` is built only of literals, holes, names in `names` without
/// a type ascription, and tuples and blocks of such expressions. Checking
/// such an expression cannot fail.
pub open spec fn plainly_typed(e: Expr, names: Set<Seq<char>>) -> bool
    decreases e,
{
    match e {
        Expr::Literal(_) => true,
        Expr::Hole => true,
        Expr::Var { name, type_ascription } => type_ascription is None && names.contains(name@),
        Expr::Tuple(es) => all_plainly_typed(es@, names),
        Expr::Block(es) => all_plainly_typed(es@, names),
        _ => false,
    }
}

/// Whether every expression of `es` is plainly typed.
pub open spec fn all_plainly_typed(es: Seq<Spanned<Expr>>, names: Set<Seq<char>>) -> bool
    decreases es,
{
    if es.len() == 0 {
        true
    } else {
        plainly_typed(es[0].node, names) && all_plainly_typed(es.subrange(1, es.len() as int), names)
    }
}

/// A scope with no entries on top of `ss` changes no lookup.
proof fn lemma_lookup_past_empty_scope(ss: Seq<Entries<Type>>, n: Seq<char>)
    ensures
        lookup_in_scopes(ss.push(Seq::empty()), n) == lookup_in_scopes(ss, n),
{
    assert(ss.push(Seq::empty()).drop_last() =~= ss);
    assert(crate::type_checker::table::key_index(Seq::<(Seq<char>, Type)>::empty(), n) < 0);
}

/// The free variables of a function type of signature whose types name
/// their variables have names of at least one character.
proof fn lemma_sig_type_names(s: FunctionSig)
    requires
        sig_names_ok(s@),
    ensures
        type_names_ok(sig_type(s)),
{
    lemma_ftvs_names(s@.params);
    assert forall|v: Seq<char>| #[trigger] crate::type_checker::inference::ftv(sig_type(s)).contains(v) implies v.len() > 0 by {
        if crate::type_checker::inference::ftvs(s@.params).contains(v) {
        } else {
            assert(crate::type_checker::inference::ftv(s@.ret).contains(v));
        }
    }
}

proof fn lemma_ftvs_names(ts: Seq<TypeView>)
    requires
        forall|i: int| 0 <= i < ts.len() ==> type_names_ok(#[trigger] ts[i]),
    ensures
        forall|v: Seq<char>| #[trigger] crate::type_checker::inference::ftvs(ts).contains(v) ==> v.len() > 0,
    decreases ts.len(),
{
    if ts.len() > 0 {
        let d = ts.drop_last();
        assert forall|i: int| 0 <= i < d.len() implies type_names_ok(#[trigger] d[i]) by {
            assert(d[i] == ts[i]);
        }
        lemma_ftvs_names(d);
        assert(type_names_ok(ts[ts.len() - 1]));
        assert forall|v: Seq<char>| #[trigger] crate::type_checker::inference::ftvs(ts).contains(v) implies v.len() > 0 by {
            if crate::type_checker::inference::ftvs(d).contains(v) {
            } else {
                assert(crate::type_checker::inference::ftv(ts.last()).contains(v));
            }
        }
    }
}

/// A copy of a list of signatures.
fn copy_sigs(v: &Vec<FunctionSig>) -> (r: Vec<FunctionSig>)
    ensures
        r@.len() == v@.len(),
        forall|i: int| 0 <= i < v@.len() ==> (#[trigger] r@[i])@ == v@[i]@,
{
    let mut r: Vec<FunctionSig> = Vec::new();
    let mut i: usize = 0;
    while i < v.len()
        invariant
            i <= v.len(),
            r@.len() == i,
            forall|j: int| 0 <= j < i ==> (#[trigger] r@[j])@ == v@[j]@,
        decreases v.len() - i,
    {
        r.push(v[i].copy());
        i = i + 1;
    }
    r
}

/// The message of a prefix application of `name`, which takes `arity`
/// arguments, that ran out of atoms after `given` of them.
pub open spec fn arity_message_text(name: Seq<char>, arity: nat, given: nat) -> Seq<char> {
    "Function `"@ + name + "` expects "@ + crate::text::decimal(arity) + " arguments, but only "@
        + crate::text::decimal(given) + " were provided. Use '_' for partial application."@
}

/// The arity message of a prefix application that ran out of arguments.
fn arity_message(name: &Ident, arity: usize, given: usize) -> (r: String)
    ensures
        r@ == arity_message_text(name@, arity as nat, given as nat),
{
    let mut out: Vec<char> = Vec::new();
    push_str(&mut out, "Function `");
    push_str(&mut out, name.0.as_str());
    push_str(&mut out, "` expects ");
    push_decimal(&mut out, arity as u64);
    push_str(&mut out, " arguments, but only ");
    push_decimal(&mut out, given as u64);
    push_str(&mut out, " were provided. Use '_' for partial application.");
    assert(out@ =~= arity_message_text(name@, arity as nat, given as nat));
    string_from_chars(&out)
}

impl Checker {
    /// `sig` with its generic variables replaced by fresh ones, each type
    /// on its own.
    fn instantiate_sig(&mut self, sig: &FunctionSig) -> (r: FunctionSig)
        requires
            sig_names_ok(sig@),
        ensures
            (r@, final(self).next_var as nat) == sig_instantiation(sig@, old(self).next_var as nat),
            r.params@.len() == sig.params@.len(),
            final(self).env == old(self).env,
            final(self).substitutions == old(self).substitutions,
            final(self).in_action_context == old(self).in_action_context,
            final(self).constraints == old(self).constraints,
    {
        proof {
            crate::ast::types::lemma_types_view_len(sig.params@);
        }
        let mut params: Vec<Type> = Vec::new();
        let mut i: usize = 0;
        assert(sig@.params.take(0) =~= Seq::<TypeView>::empty());
        assert(types_view(params@) =~= Seq::<TypeView>::empty());
        while i < sig.params.len()
            invariant
                i <= sig.params@.len(),
                params@.len() == i,
                (types_view(params@), self.next_var as nat) == params_instantiation(
                    sig@.params.take(i as int),
                    old(self).next_var as nat,
                ),
                sig_names_ok(sig@),
                types_view(sig.params@).len() == sig.params@.len(),
                self.env == old(self).env,
                self.substitutions == old(self).substitutions,
                self.in_action_context == old(self).in_action_context,
                self.constraints == old(self).constraints,
            decreases sig.params@.len() - i,
        {
            proof {
                crate::ast::types::lemma_types_view_index(sig.params@, i as int);
                assert(type_names_ok(sig@.params[i as int]));
            }
            let ghost p0 = params@;
            let t = instantiate(&sig.params[i], &mut self.next_var);
            proof {
                crate::ast::types::lemma_types_view_push(p0, t);
                assert(sig@.params.take(i + 1).drop_last() =~= sig@.params.take(i as int));
            }
            params.push(t);
            i = i + 1;
        }
        assert(sig@.params.take(i as int) =~= sig@.params);
        let ret = instantiate(&sig.return_type, &mut self.next_var);
        FunctionSig { params, return_type: ret }
    }

    /// Chooses among `sigs` the signature for the typed arguments `args`:
    /// each is instantiated in turn and its parameters unified with the
    /// arguments' types pair by pair; of those that match, the first with
    /// the lowest score wins. Gives it, instantiated, with its
    /// substitution, or `None` when no signature matches.
    fn choose_signature(&mut self, sigs: &Vec<FunctionSig>, args: &Vec<TypedExpr>, span: &Span) -> (r: Option<(FunctionSig, Substitution)>)
        requires
            old(self).inv(),
            forall|i: int| 0 <= i < sigs@.len() ==> sig_names_ok(#[trigger] sigs@[i]@),
        ensures
            final(self).inv(),
            final(self).env == old(self).env,
            final(self).substitutions == old(self).substitutions,
            final(self).in_action_context == old(self).in_action_context,
            final(self).constraints == old(self).constraints,
            final(self).next_var as nat == counter_before(
                sig_views(sigs@),
                old(self).next_var as nat,
                sigs@.len() as int,
            ),
            match r {
                Some((inst, s)) => exists|j: int| {
                    &&& #[trigger] wins(
                        sig_views(sigs@),
                        typs_of(args@),
                        old(self).env,
                        subst_view(old(self).substitutions.entries()),
                        old(self).next_var as nat,
                        j,
                    )
                    &&& inst@ == inst_of(sig_views(sigs@), old(self).next_var as nat, j)
                    &&& subst_view(s.entries()) == candidate(
                        sig_views(sigs@),
                        typs_of(args@),
                        old(self).env,
                        subst_view(old(self).substitutions.entries()),
                        old(self).next_var as nat,
                        j,
                    )->Some_0.0
                },
                None => forall|i: int|
                    0 <= i < sigs@.len() ==> #[trigger] candidate(
                        sig_views(sigs@),
                        typs_of(args@),
                        old(self).env,
                        subst_view(old(self).substitutions.entries()),
                        old(self).next_var as nat,
                        i,
                    ) is None,
            },
    {
        let ghost sv = sig_views(sigs@);
        let ghost av = typs_of(args@);
        let ghost env = self.env;
        let ghost base = subst_view(self.substitutions.entries());
        let ghost k0 = self.next_var as nat;
        let mut best: Option<(FunctionSig, Substitution)> = None;
        let mut min_score: usize = usize::MAX;
        let ghost mut jb: int = 0;
        let mut j: usize = 0;
        while j < sigs.len()
            invariant
                j <= sigs@.len(),
                sv == sig_views(sigs@),
                av == typs_of(args@),
                forall|i: int| 0 <= i < sigs@.len() ==> sig_names_ok(#[trigger] sigs@[i]@),
                self.inv(),
                self.env == old(self).env,
                env == old(self).env,
                self.substitutions == old(self).substitutions,
                self.in_action_context == old(self).in_action_context,
                self.constraints == old(self).constraints,
                base == subst_view(old(self).substitutions.entries()),
                k0 == old(self).next_var as nat,
                self.next_var as nat == counter_before(sv, k0, j as int),
                best is None ==> min_score == usize::MAX && forall|i: int|
                    0 <= i < j ==> #[trigger] candidate(sv, av, env, base, k0, i) is None,
                best matches Some((inst, temp)) ==> {
                    &&& 0 <= jb < j
                    &&& candidate(sv, av, env, base, k0, jb) == Some((subst_view(temp.entries()), min_score as nat))
                    &&& inst@ == inst_of(sv, k0, jb)
                    &&& forall|i: int|
                        0 <= i < j && #[trigger] candidate(sv, av, env, base, k0, i) is Some ==> {
                            &&& min_score <= candidate(sv, av, env, base, k0, i)->Some_0.1
                            &&& i < jb ==> min_score < candidate(sv, av, env, base, k0, i)->Some_0.1
                        }
                },
            decreases sigs@.len() - j,
        {
            assert(sv[j as int] == sigs@[j as int]@);
            let inst_sig = self.instantiate_sig(&sigs[j]);
            proof {
                crate::ast::types::lemma_types_view_len(inst_sig.params@);
            }
            let n: usize = if inst_sig.params.len() < args.len() {
                inst_sig.params.len()
            } else {
                args.len()
            };
            let mut temp = crate::type_checker::inference::copy_subst(&self.substitutions);
            let mut possible = true;
            let mut score: usize = 0;
            let mut m: usize = 0;
            while m < n && possible
                invariant
                    m <= n,
                    n <= inst_sig.params@.len(),
                    n <= args@.len(),
                    n == pairs_tried(inst_sig@.params.len(), av.len()),
                    inst_sig@.params.len() == inst_sig.params@.len(),
                    av == typs_of(args@),
                    self.env == env,
                    possible ==> trial(inst_sig@.params, av, m as nat, env, base) == Some(
                        (subst_view(temp.entries()), score as nat),
                    ),
                    !possible ==> m < n && trial(inst_sig@.params, av, (m + 1) as nat, env, base) is None,
                decreases n - m + if possible {
                    1int
                } else {
                    0int
                },
            {
                proof {
                    crate::ast::types::lemma_types_view_index(inst_sig.params@, m as int);
                }
                match unify(&inst_sig.params[m], &args[m].typ, &self.env, span) {
                    Ok((s, sc)) => {
                        temp = compose(&temp, &s);
                        score = score.saturating_add(sc);
                        m = m + 1;
                    },
                    Err(_) => {
                        possible = false;
                    },
                }
            }
            proof {
                if !possible {
                    lemma_trial_stays_none(inst_sig@.params, av, (m + 1) as nat, n as nat, env, base);
                }
                assert(inst_sig@ == inst_of(sv, k0, j as int));
            }
            if possible && score < min_score {
                min_score = score;
                best = Some((inst_sig, temp));
                proof {
                    jb = j as int;
                }
            }
            j = j + 1;
        }
        proof {
            assert(sv.len() == sigs@.len());
            if best is Some {
                assert(wins(sv, av, env, base, k0, jb));
            }
        }
        best
    }

    /// Resolves a prefix application from the front of `atoms`: a name with
    /// signatures takes as many arguments as its first signature has
    /// parameters, each resolved in turn, and the signature that unifies
    /// with them at the lowest distance is chosen; anything else is checked
    /// on its own. What is not consumed stays in `atoms`.
    #[verifier::spinoff_prover]
    #[verifier::rlimit(80)]
    fn resolve_prefix_apply(&mut self, atoms: &mut Vec<Spanned<Expr>>) -> (r: Result<TypedExpr, TypeError>)
        requires
            old(self).inv(),
        ensures
            final(self).inv(),
            same_registries(final(self).env, old(self).env),
            final(self).in_action_context == old(self).in_action_context,
            r is Ok ==> final(self).env.scope_tables() == old(self).env.scope_tables(),
            exprs_size(final(atoms)@) <= exprs_size(old(atoms)@),
            old(atoms)@.len() == 0 ==> (r matches Err(e) && e@ == unhandled(
                "Unexpected empty application"@,
                Span { start: 0, end: 0 },
            )),
            old(atoms)@.len() > 0 && names_dispatch(old(atoms)@[0].node, old(self).env) ==> (r matches Ok(
                t,
            ) ==> (t.kind matches ExprKind::Apply { func: f, .. } && f.kind == ExprKind::Var(
                old(atoms)@[0].node->name,
            ) && t.span == old(atoms)@[0].span)),
            final(atoms)@.len() <= old(atoms)@.len(),
            r is Ok ==> final(atoms)@.len() < old(atoms)@.len(),
            old(atoms)@.len() > 0 && !names_dispatch(old(atoms)@[0].node, old(self).env) ==> (
            final(atoms)@ == old(atoms)@.subrange(1, old(atoms)@.len() as int) && expr_outcome(
                old(atoms)@[0],
                old(self).env,
                old(self).next_var as nat,
                r,
            ) && (plainly_typed(old(atoms)@[0].node, resolvable(old(self).env)) ==> r is Ok)),
            old(atoms)@.len() > 0 && names_dispatch(old(atoms)@[0].node, old(self).env) && dispatch_arity(
                old(atoms)@[0].node,
                old(self).env,
            ) >= old(atoms)@.len() ==> r is Err,
            old(atoms)@.len() > 0 && names_dispatch(old(atoms)@[0].node, old(self).env) ==> (r matches Ok(t)
                ==> dispatch_outcome(
                t,
                sig_views(old(self).env.dispatch_table.spec_get(old(atoms)@[0].node->Var_name@)->Some_0@),
                old(self).env,
                subst_view(final(self).substitutions.entries()),
            )),
            old(atoms)@.len() > 0 && direct_arg(old(atoms)@[0].node, old(self).env) ==> (r matches Ok(t) && t.typ@
                == direct_type(old(atoms)@[0].node, old(self).env) && final(self).next_var == old(self).next_var
                && final(self).substitutions == old(self).substitutions && final(self).env == old(self).env
                && final(self).constraints == old(self).constraints),
            old(atoms)@.len() > 0 && simple_call(
                old(atoms)@[0].node,
                old(atoms)@.subrange(1, old(atoms)@.len() as int),
                old(self).env,
            ) ==> ((r is Ok <==> call_matches(
                old(atoms)@[0].node,
                old(atoms)@.subrange(1, old(atoms)@.len() as int),
                old(self).env,
                subst_view(old(self).substitutions.entries()),
                old(self).next_var as nat,
            )) && final(self).constraints == old(self).constraints && (r matches Ok(t) ==> (t.kind matches ExprKind::Apply {
                args: ta,
                ..
            } && typs_of(ta@) == call_arg_types(
                old(atoms)@[0].node,
                old(atoms)@.subrange(1, old(atoms)@.len() as int),
                old(self).env,
            )))),
        decreases exprs_size(old(atoms)@), 2nat,
    {
        if atoms.len() == 0 {
            return Err(unhandled_error("Unexpected empty application", Span { start: 0, end: 0 }));
        }
        let ghost a0 = atoms@;
        let first = atoms.remove(0);
        assert(atoms@ =~= a0.subrange(1, a0.len() as int));
        assert(expr_size(first.node) >= 1);
        assert(exprs_size(a0) == expr_size(first.node) + exprs_size(atoms@));
        let span = first.span;
        let dispatch = match &first.node {
            Expr::Var { name, .. } => match self.env.lookup_dispatch(name.0.as_str()) {
                Some(sigs) => Some((name.copy(), copy_sigs(sigs))),
                None => None,
            },
            _ => None,
        };
        match dispatch {
            Some((name, sigs)) => {
                let ghost orig = self.env.dispatch_table.spec_get(name@)->Some_0@;
                assert(sigs_ok(orig));
                assert forall|i: int| 0 <= i < sigs@.len() implies sig_names_ok(#[trigger] sigs@[i]@) by {
                    assert(sig_names_ok(orig[i]@));
                }
                let arity = sigs[0].params.len();
                proof {
                    crate::ast::types::lemma_types_view_len(sigs@[0].params@);
                    assert(arity == dispatch_arity(a0[0].node, old(self).env));
                }
                let mut typed_args: Vec<TypedExpr> = Vec::new();
                let ghost simple = simple_call(a0[0].node, a0.subrange(1, a0.len() as int), old(self).env);
                let mut k: usize = 0;
                while k < arity
                    invariant
                        k <= arity,
                        arity == dispatch_arity(a0[0].node, old(self).env),
                        simple == simple_call(a0[0].node, a0.subrange(1, a0.len() as int), old(self).env),
                        simple ==> (atoms@ == a0.subrange(1 + k, a0.len() as int) && self.next_var == old(self).next_var
                            && self.substitutions == old(self).substitutions && self.env == old(self).env
                            && self.constraints == old(self).constraints && typs_of(typed_args@) == direct_types(
                            a0.subrange(1, 1 + k),
                            old(self).env,
                        )),
                        atoms@.len() + k <= a0.len() - 1,
                        names_dispatch(a0[0].node, old(self).env),
                        typed_args@.len() == k,
                        self.inv(),
                        same_registries(self.env, old(self).env),
                        self.in_action_context == old(self).in_action_context,
                        self.env.scope_tables() == old(self).env.scope_tables(),
                        exprs_size(atoms@) < exprs_size(a0),
                        a0 == old(atoms)@,
                        a0.len() > 0,
                        forall|i: int| 0 <= i < sigs@.len() ==> sig_names_ok(#[trigger] sigs@[i]@),
                        sigs@.len() > 0,
                    decreases arity - k,
                {
                    if atoms.len() == 0 {
                        let msg = arity_message(&name, arity, typed_args.len());
                        return Err(TypeError::UnboundVariable { name: msg, span });
                    }
                    proof {
                        if simple {
                            assert(a0.subrange(1, a0.len() as int)[k as int] == a0[1 + k]);
                            assert(direct_arg(a0.subrange(1, a0.len() as int)[k as int].node, old(self).env));
                            assert(atoms@[0] == a0[1 + k]);
                        }
                    }
                    let ghost ta0 = typed_args@;
                    let arg = self.resolve_prefix_apply(atoms)?;
                    typed_args.push(arg);
                    proof {
                        if simple {
                            assert(atoms@ =~= a0.subrange(1 + k + 1, a0.len() as int));
                            assert(typs_of(typed_args@) =~= typs_of(ta0).push(arg.typ@));
                            assert(direct_types(a0.subrange(1, 1 + k + 1), old(self).env) =~= direct_types(
                                a0.subrange(1, 1 + k),
                                old(self).env,
                            ).push(direct_type(a0[1 + k].node, old(self).env)));
                        }
                    }
                    k = k + 1;
                }
                proof {
                    if simple {
                        assert(a0.subrange(1, a0.len() as int).take(arity as int) =~= a0.subrange(1, 1 + arity));
                    }
                }
                let ghost env1 = self.env;
                let ghost base1 = subst_view(self.substitutions.entries());
                let ghost k1 = self.next_var as nat;
                let best = self.choose_signature(&sigs, &typed_args, &span);
                match best {
                    Some((inst_sig, matched)) => {
                        self.substitutions = matched;
                        let final_ret = apply(&inst_sig.return_type, &self.substitutions);
                        proof {
                            let sv = sig_views(sigs@);
                            assert(sv =~= sig_views(orig));
                            let j = choose|j: int| {
                                &&& #[trigger] wins(sv, typs_of(typed_args@), env1, base1, k1, j)
                                &&& inst_sig@ == inst_of(sv, k1, j)
                                &&& subst_view(matched.entries()) == candidate(sv, typs_of(typed_args@), env1, base1, k1, j)->Some_0.0
                            };
                            lemma_wins_tables(sv, typs_of(typed_args@), env1, old(self).env, base1, k1, j);
                            assert(wins(sv, typs_of(typed_args@), old(self).env, base1, k1, j));
                            if simple {
                                let f0 = a0[0].node;
                                let rest0 = a0.subrange(1, a0.len() as int);
                                assert(sv == called_sigs(f0, old(self).env));
                                assert(typs_of(typed_args@) == call_arg_types(f0, rest0, old(self).env));
                                assert(candidate(
                                    called_sigs(f0, old(self).env),
                                    call_arg_types(f0, rest0, old(self).env),
                                    old(self).env,
                                    subst_view(old(self).substitutions.entries()),
                                    old(self).next_var as nat,
                                    j,
                                ) is Some);
                                assert(call_matches(
                                    f0,
                                    rest0,
                                    old(self).env,
                                    subst_view(old(self).substitutions.entries()),
                                    old(self).next_var as nat,
                                ));
                            }
                        }
                        let typed_func = TypedExpr {
                            kind: ExprKind::Var(name),
                            typ: Type::function(inst_sig.params, inst_sig.return_type),
                            span,
                        };
                        Ok(TypedExpr {
                            kind: ExprKind::Apply { func: Box::new(typed_func), args: typed_args },
                            typ: final_ret,
                            span,
                        })
                    },
                    None => {
                        proof {
                            if simple {
                                let f0 = a0[0].node;
                                let rest0 = a0.subrange(1, a0.len() as int);
                                let sv = sig_views(sigs@);
                                assert(sv =~= sig_views(orig));
                                assert(sv == called_sigs(f0, old(self).env));
                                assert(typs_of(typed_args@) == call_arg_types(f0, rest0, old(self).env));
                                assert(!call_matches(
                                    f0,
                                    rest0,
                                    old(self).env,
                                    subst_view(old(self).substitutions.entries()),
                                    old(self).next_var as nat,
                                ));
                            }
                        }
                        let mut arg_types: Vec<Type> = Vec::new();
                        let mut m: usize = 0;
                        while m < typed_args.len()
                            decreases typed_args@.len() - m,
                        {
                            arg_types.push(copy_type(&typed_args[m].typ));
                            m = m + 1;
                        }
                        Err(TypeError::NoMatchingDispatch { func_name: name.0, args: arg_types, span })
                    },
                }
            },
            None => self.check_expr(first),
        }
    }

    /// Checks every constraint collected so far against the current
    /// substitution, and drops them all.
    fn validate_constraints(&mut self) -> (r: Result<(), TypeError>)
        requires
            old(self).inv(),
        ensures
            final(self).inv(),
            final(self).env == old(self).env,
            final(self).substitutions == old(self).substitutions,
            final(self).in_action_context == old(self).in_action_context,
            final(self).constraints@.len() == 0,
            old(self).constraints@.len() == 0 ==> r is Ok,
            r matches Err(e) ==> e is UnboundVariable,
            r is Ok ==> forall|i: int|
                0 <= i < old(self).constraints@.len() ==> constraint_met(
                    #[trigger] old(self).constraints@[i],
                    old(self).env,
                    subst_view(old(self).substitutions.entries()),
                ),
    {
        let mut constraints: Vec<Constraint> = Vec::new();
        std::mem::swap(&mut constraints, &mut self.constraints);
        let ghost all = constraints@;
        let ghost sv = subst_view(self.substitutions.entries());
        while constraints.len() > 0
            invariant
                self.inv(),
                self.env == old(self).env,
                self.substitutions == old(self).substitutions,
                self.in_action_context == old(self).in_action_context,
                self.constraints@.len() == 0,
                all == old(self).constraints@,
                sv == subst_view(old(self).substitutions.entries()),
                constraints@.len() <= all.len(),
                constraints@ == all.subrange(all.len() - constraints@.len(), all.len() as int),
                forall|i: int|
                    0 <= i < all.len() - constraints@.len() ==> constraint_met(#[trigger] all[i], self.env, sv),
            decreases constraints@.len(),
        {
            let ghost c0 = constraints@;
            let constraint = constraints.remove(0);
            proof {
                assert(constraint == all[all.len() - c0.len()]);
                assert(constraints@ =~= all.subrange(all.len() - constraints@.len(), all.len() as int));
            }
            match constraint {
                Constraint::Signature(name, sig, span) => {
                    let mut applied_params: Vec<Type> = Vec::new();
                    let mut i: usize = 0;
                    while i < sig.params.len()
                        decreases sig.params@.len() - i,
                    {
                        applied_params.push(apply(&sig.params[i], &self.substitutions));
                        i = i + 1;
                    }
                    let applied = FunctionSig {
                        params: applied_params,
                        return_type: apply(&sig.return_type, &self.substitutions),
                    };
                    let available = match self.env.lookup_dispatch(name.0.as_str()) {
                        Some(sigs) => Some(copy_sigs(sigs)),
                        None => None,
                    };
                    match available {
                        Some(avail) => {
                            let ghost orig = self.env.dispatch_table.spec_get(name@)->Some_0@;
                            assert(sigs_ok(orig));
                            let mut matched = false;
                            let mut j: usize = 0;
                            while j < avail.len()
                                invariant
                                    j <= avail@.len(),
                                    avail@.len() == orig.len(),
                                    forall|i: int| 0 <= i < avail@.len() ==> (#[trigger] avail@[i])@ == orig[i]@,
                                    sigs_ok(orig),
                                    self.inv(),
                                    self.env == old(self).env,
                                    self.substitutions == old(self).substitutions,
                                    self.in_action_context == old(self).in_action_context,
                                    self.constraints@.len() == 0,
                                decreases avail@.len() - j,
                            {
                                assert(sig_names_ok(orig[j as int]@));
                                let inst = self.instantiate_sig(&avail[j]);
                                if inst.params.len() == applied.params.len() {
                                    let mut possible = true;
                                    let mut m: usize = 0;
                                    while m < applied.params.len()
                                        invariant
                                            m <= applied.params@.len(),
                                            inst.params@.len() == applied.params@.len(),
                                        decreases applied.params@.len() - m,
                                    {
                                        match unify(&applied.params[m], &inst.params[m], &self.env, &span) {
                                            Ok(_) => {},
                                            Err(_) => {
                                                possible = false;
                                                break;
                                            },
                                        }
                                        m = m + 1;
                                    }
                                    if possible {
                                        match unify(&applied.return_type, &inst.return_type, &self.env, &span) {
                                            Ok(_) => {
                                                matched = true;
                                                break;
                                            },
                                            Err(_) => {},
                                        }
                                    }
                                }
                                j = j + 1;
                            }
                            if !matched {
                                let mut out: Vec<char> = Vec::new();
                                push_str(&mut out, "Constraint Mismatch: No implementation found for `");
                                push_str(&mut out, name.0.as_str());
                                push_str(&mut out, " :: ");
                                let shown = applied.to_string();
                                push_str(&mut out, shown.as_str());
                                push_str(&mut out, "`");
                                return Err(TypeError::UnboundVariable { name: string_from_chars(&out), span });
                            }
                        },
                        None => {
                            let mut out: Vec<char> = Vec::new();
                            push_str(&mut out, "Constraint Mismatch: Function `");
                            push_str(&mut out, name.0.as_str());
                            push_str(&mut out, "` not found");
                            return Err(TypeError::UnboundVariable { name: string_from_chars(&out), span });
                        },
                    }
                },
                Constraint::Interface(typ, interface, span) => {
                    let applied = apply(&typ, &self.substitutions);
                    if self.env.satisfies_interface(&applied, interface.0.as_str()).is_none() {
                        let mut out: Vec<char> = Vec::new();
                        push_str(&mut out, "Type `");
                        let shown = applied.to_string();
                        push_str(&mut out, shown.as_str());
                        push_str(&mut out, "` does not satisfy interface `");
                        push_str(&mut out, interface.0.as_str());
                        push_str(&mut out, "` (missing one or more members)");
                        return Err(TypeError::UnboundVariable { name: string_from_chars(&out), span });
                    }
                },
            }
        }
        Ok(())
    }
}

/// What a constraint that validation let through satisfies: a named
/// function is registered, and a type, with the substitution `s` applied,
/// satisfies the interface.
pub open spec fn constraint_met(c: Constraint, env: Environment, s: Seq<(Seq<char>, TypeView)>) -> bool {
    match c {
        Constraint::Signature(name, _, _) => env.dispatch_table.spec_get(name@) is Some,
        Constraint::Interface(t, i, _) => satisfies(env, subst_apply(t@, s), i@) is Some,
    }
}

impl Checker {
    /// Checks an expression and gives back its typed form.
    #[verifier::spinoff_prover]
    #[verifier::rlimit(60)]
    fn check_expr(&mut self, se: Spanned<Expr>) -> (r: Result<TypedExpr, TypeError>)
        requires
            old(self).inv(),
        ensures
            final(self).inv(),
            same_registries(final(self).env, old(self).env),
            final(self).in_action_context == old(self).in_action_context,
            r is Ok ==> final(self).env.scope_tables() == old(self).env.scope_tables(),
            expr_outcome(se, old(self).env, old(self).next_var as nat, r),
            plainly_typed(se.node, resolvable(old(self).env)) ==> r is Ok,
            se.node is List ==> (r matches Ok(t) ==> list_outcome(
                t,
                TypeView::Var(fresh_name(old(self).next_var as nat)),
                old(self).env,
                subst_view(final(self).substitutions.entries()),
            )),
            se.node matches Expr::List(es) ==> (all_plainly_typed(es@, resolvable(old(self).env)) ==> (
            r matches Err(e) ==> exists|ty: TypeView|
                #[trigger] unify_spec(ty, TypeView::Var(fresh_name(old(self).next_var as nat)), old(self).env)
                    matches Err(x) && crate::type_checker::inference::reports(e, x, se.span))),
            se.node is ExplicitApply ==> (r matches Ok(t) ==> applied_outcome(
                t,
                old(self).env,
                subst_view(final(self).substitutions.entries()),
            )),
            se.node is WithBlock ==> (r is Ok ==> final(self).constraints@.len() == 0),
            se.node matches Expr::WithBlock { body, bindings } ==> (r matches Ok(t) ==> with_outcome(
                t,
                *body,
                bindings@,
                old(self).env,
            )),
            se.node is Literal ==> final(self).constraints == old(self).constraints,
            se.node matches Expr::Var { name, type_ascription: None } ==> (lookup_in_scopes(
                old(self).env.scope_tables(),
                name@,
            ) is Some ==> final(self).constraints == old(self).constraints),
            direct_arg(se.node, old(self).env) ==> (r matches Ok(t) && t.typ@ == direct_type(se.node, old(self).env)
                && final(self).next_var == old(self).next_var && final(self).substitutions == old(self).substitutions
                && final(self).env == old(self).env && final(self).constraints == old(self).constraints),
            se.node matches Expr::Apply { func, args } ==> (simple_call(func.node, args@, old(self).env) ==> (
            (r is Ok <==> call_matches(
                func.node,
                args@,
                old(self).env,
                subst_view(old(self).substitutions.entries()),
                old(self).next_var as nat,
            )) && final(self).constraints == old(self).constraints && (r matches Ok(t) ==> (t.kind matches ExprKind::Apply {
                args: ta,
                ..
            } && typs_of(ta@) == call_arg_types(func.node, args@, old(self).env))))),
            se.node matches Expr::Tuple(es) ==> (r matches Ok(t) ==> (t.kind matches ExprKind::Tuple(ts)
                && all_checked_in(ts@, es@, old(self).env.scope_tables(), old(self).env))),
            se.node matches Expr::List(es) ==> (r matches Ok(t) ==> (t.kind matches ExprKind::List(ts)
                && all_checked_in(ts@, es@, old(self).env.scope_tables(), old(self).env))),
            se.node matches Expr::Block(es) ==> (r matches Ok(t) ==> (t.kind matches ExprKind::Block(ts)
                && all_checked_in(ts@, es@, old(self).env.scope_tables().push(Seq::empty()), old(self).env))),
            se.node matches Expr::ExplicitApply { func, args } ==> (r matches Ok(t) ==> (t.kind matches ExprKind::Apply {
                func: f,
                args: ta,
            } && checked_in(*f, *func, old(self).env.scope_tables(), old(self).env) && all_checked_in(
                ta@,
                args@,
                old(self).env.scope_tables(),
                old(self).env,
            ))),
            se.node matches Expr::Apply { func, .. } ==> (names_dispatch(func.node, old(self).env) ==> (
            r matches Ok(t) ==> dispatch_outcome(
                t,
                sig_views(old(self).env.dispatch_table.spec_get(func.node->Var_name@)->Some_0@),
                old(self).env,
                subst_view(final(self).substitutions.entries()),
            ))),
        decreases expr_size(se.node), 1nat,
    {
        let span = se.span;
        let ghost size = expr_size(se.node);
        match se.node {
            Expr::Literal(lit) => {
                let typ = literal_type(&lit);
                Ok(TypedExpr { kind: ExprKind::Literal(lit), typ, span })
            },
            Expr::Var { name, type_ascription } => {
                let local = match self.env.lookup_var(name.0.as_str()) {
                    Some(t) => Some(copy_type(t)),
                    None => None,
                };
                match local {
                    Some(typ) => {
                        let mut final_typ = typ;
                        match type_ascription {
                            Some(asc) => {
                                self.unify_in(&final_typ, &asc, &span)?;
                                final_typ = apply(&final_typ, &self.substitutions);
                            },
                            None => {},
                        }
                        return Ok(TypedExpr { kind: ExprKind::Var(name), typ: final_typ, span });
                    },
                    None => {},
                }
                let first_sig = match self.env.lookup_dispatch(name.0.as_str()) {
                    Some(sigs) => Some(sigs[0].copy()),
                    None => None,
                };
                match first_sig {
                    Some(sig) => {
                        proof {
                            let v = self.env.dispatch_table.spec_get(name@)->Some_0@;
                            assert(sigs_ok(v));
                            assert(sig_names_ok(v[0]@));
                            lemma_sig_type_names(sig);
                        }
                        let func_type = Type::function(sig.params, sig.return_type);
                        let inst = instantiate(&func_type, &mut self.next_var);
                        Ok(TypedExpr { kind: ExprKind::Var(name), typ: inst, span })
                    },
                    None => Err(TypeError::UnboundVariable { name: name.0, span }),
                }
            },
            Expr::ExplicitApply { func, args } => {
                let ghost f0 = *func;
                let ghost e_f = self.env;
                let ghost k_f = self.next_var as nat;
                let typed_func = self.check_expr(*func)?;
                assert(checked_in(typed_func, f0, old(self).env.scope_tables(), old(self).env));
                let ghost es0 = args@;
                let ghost n0 = args@.len();
                let mut rest = args;
                let mut typed_args: Vec<TypedExpr> = Vec::new();
                let mut arg_types: Vec<Type> = Vec::new();
                while rest.len() > 0
                    invariant
                        exprs_size(rest@) < size,
                        size == expr_size(se.node),
                        self.inv(),
                        same_registries(self.env, old(self).env),
                        self.in_action_context == old(self).in_action_context,
                        self.env.scope_tables() == old(self).env.scope_tables(),
                        se.node is ExplicitApply,
                        types_view(arg_types@) == typs_of(typed_args@),
                        typed_args@.len() + rest@.len() == n0,
                        es0.len() == n0,
                        rest@ == es0.subrange(typed_args@.len() as int, n0 as int),
                        forall|i: int| 0 <= i < typed_args@.len() ==> #[trigger] checked_in(
                            typed_args@[i],
                            es0[i],
                            old(self).env.scope_tables(),
                            old(self).env,
                        ),
                    decreases rest@.len(),
                {
                    let ghost r0 = rest@;
                    let ghost idx = typed_args@.len() as int;
                    assert(r0 == es0.subrange(idx, n0 as int));
                    assert(r0[0] == es0[idx]);
                    let a = rest.remove(0);
                    assert(a == es0[idx]);
                    assert(rest@ =~= r0.subrange(1, r0.len() as int));
                    assert(rest@ =~= es0.subrange(idx + 1, n0 as int));
                    let ghost e_a = self.env;
                    let ghost k_a = self.next_var as nat;
                    let ta = self.check_expr(a)?;
                    assert(checked_in(ta, es0[idx], old(self).env.scope_tables(), old(self).env));
                    let ghost t0 = typed_args@;
                    let c = copy_type(&ta.typ);
                    proof {
                        crate::ast::types::lemma_types_view_push(arg_types@, c);
                    }
                    arg_types.push(c);
                    typed_args.push(ta);
                    assert(typs_of(typed_args@) =~= typs_of(t0).push(typed_args@.last().typ@));
                    assert forall|i: int| 0 <= i < typed_args@.len() implies #[trigger] checked_in(
                        typed_args@[i],
                        es0[i],
                        old(self).env.scope_tables(),
                        old(self).env,
                    ) by {
                        if i < idx {
                            assert(typed_args@[i] == t0[i]);
                        }
                    }
                }
                let ghost k = self.next_var as nat;
                let ret = self.fresh();
                let expected = Type::function(arg_types, copy_type(&ret));
                proof {
                    crate::type_checker::inference::lemma_unify_tables(typed_func.typ@, expected@, self.env, old(self).env);
                }
                let ghost s0 = subst_view(self.substitutions.entries());
                self.unify_in(&typed_func.typ, &expected, &span)?;
                let typ = apply(&ret, &self.substitutions);
                proof {
                    assert(expected@ == TypeView::Function { params: typs_of(typed_args@), ret: Box::new(TypeView::Var(fresh_name(k))) });
                    assert(call_unify(typed_func.typ@, typs_of(typed_args@), k, old(self).env) is Ok);
                    assert(compose_view(s0, call_unify(typed_func.typ@, typs_of(typed_args@), k, old(self).env)->Ok_0.0)
                        == subst_view(self.substitutions.entries()));
                }
                Ok(TypedExpr { kind: ExprKind::Apply { func: Box::new(typed_func), args: typed_args }, typ, span })
            },
            Expr::Apply { func, args } => {
                let mut atoms = args;
                let ghost a0 = atoms@;
                atoms.insert(0, *func);
                assert(atoms@.subrange(1, atoms@.len() as int) =~= a0);
                self.resolve_prefix_apply(&mut atoms)
            },
            Expr::Tuple(exprs) => {
                let ghost es0 = exprs@;
                let mut rest = exprs;
                let mut typed: Vec<TypedExpr> = Vec::new();
                let mut types: Vec<Type> = Vec::new();
                let ghost n0 = rest@.len();
                while rest.len() > 0
                    invariant
                        exprs_size(rest@) < size,
                        size == expr_size(se.node),
                        typed@.len() + rest@.len() == n0,
                        types_view(types@) == typs_of(typed@),
                        self.inv(),
                        same_registries(self.env, old(self).env),
                        self.in_action_context == old(self).in_action_context,
                        self.env.scope_tables() == old(self).env.scope_tables(),
                        plainly_typed(se.node, resolvable(old(self).env)) ==> all_plainly_typed(
                            rest@,
                            resolvable(old(self).env),
                        ),
                        se.node is Tuple,
                        es0.len() == n0,
                        rest@ == es0.subrange(typed@.len() as int, n0 as int),
                        forall|i: int| 0 <= i < typed@.len() ==> #[trigger] checked_in(
                            typed@[i],
                            es0[i],
                            old(self).env.scope_tables(),
                            old(self).env,
                        ),
                    decreases rest@.len(),
                {
                    let ghost r0 = rest@;
                    let ghost idx = typed@.len() as int;
                    assert(r0 == es0.subrange(idx, n0 as int));
                    assert(r0[0] == es0[idx]);
                    let e = rest.remove(0);
                    assert(rest@ =~= r0.subrange(1, r0.len() as int));
                    assert(rest@ =~= es0.subrange(idx + 1, n0 as int));
                    let ghost t_before = typed@;
                    assert(resolvable(self.env) =~= resolvable(old(self).env));
                    let te = self.check_expr(e)?;
                    assert(checked_in(te, es0[idx], old(self).env.scope_tables(), old(self).env));
                    let ghost t0 = typed@;
                    let c = copy_type(&te.typ);
                    proof {
                        crate::ast::types::lemma_types_view_push(types@, c);
                    }
                    types.push(c);
                    typed.push(te);
                    assert forall|i: int| 0 <= i < typed@.len() implies #[trigger] checked_in(
                        typed@[i],
                        es0[i],
                        old(self).env.scope_tables(),
                        old(self).env,
                    ) by {
                        if i < idx {
                            assert(typed@[i] == t_before[i]);
                        }
                    }
                    assert(typs_of(typed@) =~= typs_of(t0).push(typed@.last().typ@));
                }
                Ok(TypedExpr { kind: ExprKind::Tuple(typed), typ: Type::tuple(types), span })
            },
            Expr::List(exprs) => {
                let ghost es0 = exprs@;
                let mut rest = exprs;
                let mut typed: Vec<TypedExpr> = Vec::new();
                let elem_type = self.fresh();
                let ghost v = elem_type@;
                let ghost mut mid: Seq<(Seq<char>, TypeView)> = Seq::empty();
                let ghost n0 = rest@.len();
                while rest.len() > 0
                    invariant
                        exprs_size(rest@) < size,
                        size == expr_size(se.node),
                        typed@.len() + rest@.len() == n0,
                        self.inv(),
                        same_registries(self.env, old(self).env),
                        self.in_action_context == old(self).in_action_context,
                        self.env.scope_tables() == old(self).env.scope_tables(),
                        se.node is List,
                        elem_type@ == v,
                        v == TypeView::Var(fresh_name(old(self).next_var as nat)),
                        forall|i: int| 0 <= i < typed@.len() ==> unify_spec(#[trigger] typed@[i].typ@, v, old(self).env) is Ok,
                        typed@.len() > 0 ==> compose_view(mid, unify_spec(typed@.last().typ@, v, old(self).env)->Ok_0.0)
                            == subst_view(self.substitutions.entries()),
                        se.node matches Expr::List(es) && (all_plainly_typed(es@, resolvable(old(self).env))
                            ==> all_plainly_typed(rest@, resolvable(old(self).env))),
                        span == se.span,
                        es0.len() == n0,
                        rest@ == es0.subrange(typed@.len() as int, n0 as int),
                        forall|i: int| 0 <= i < typed@.len() ==> #[trigger] checked_in(
                            typed@[i],
                            es0[i],
                            old(self).env.scope_tables(),
                            old(self).env,
                        ),
                    decreases rest@.len(),
                {
                    let ghost r0 = rest@;
                    let ghost idx = typed@.len() as int;
                    assert(r0 == es0.subrange(idx, n0 as int));
                    assert(r0[0] == es0[idx]);
                    let e = rest.remove(0);
                    assert(rest@ =~= r0.subrange(1, r0.len() as int));
                    assert(rest@ =~= es0.subrange(idx + 1, n0 as int));
                    let ghost t_before = typed@;
                    assert(resolvable(self.env) =~= resolvable(old(self).env));
                    let te = self.check_expr(e)?;
                    assert(checked_in(te, es0[idx], old(self).env.scope_tables(), old(self).env));
                    proof {
                        crate::type_checker::inference::lemma_unify_tables(te.typ@, v, self.env, old(self).env);
                        mid = subst_view(self.substitutions.entries());
                    }
                    match self.unify_in(&te.typ, &elem_type, &span) {
                        Ok(()) => {},
                        Err(err) => {
                            proof {
                                assert(unify_spec(te.typ@, v, old(self).env) matches Err(x)
                                    && crate::type_checker::inference::reports(err, x, se.span));
                            }
                            return Err(err);
                        },
                    }
                    let ghost t0 = typed@;
                    typed.push(te);
                    assert forall|i: int| 0 <= i < typed@.len() implies #[trigger] checked_in(
                        typed@[i],
                        es0[i],
                        old(self).env.scope_tables(),
                        old(self).env,
                    ) by {
                        if i < idx {
                            assert(typed@[i] == t_before[i]);
                        }
                    }
                    proof {
                        assert forall|i: int| 0 <= i < typed@.len() implies unify_spec(#[trigger] typed@[i].typ@, v, old(self).env) is Ok by {
                            if i < t0.len() {
                                assert(typed@[i] == t0[i]);
                            }
                        }
                    }
                }
                let final_elem = apply(&elem_type, &self.substitutions);
                let mut ps: Vec<Type> = Vec::new();
                ps.push(final_elem);
                proof {
                    assert(types_view(ps@).len() == 1) by {
                        crate::ast::types::lemma_types_view_len(ps@);
                    }
                    assert(types_view(ps@) =~= seq![subst_apply(v, subst_view(self.substitutions.entries()))]) by {
                        crate::ast::types::lemma_types_view_len(ps@);
                        assert(types_view(ps@)[0] == ps@[0]@) by {
                            crate::ast::types::lemma_types_view_index(ps@, 0);
                        }
                    }
                    if typed@.len() > 0 {
                        assert(compose_view(mid, unify_spec(typed@.last().typ@, v, old(self).env)->Ok_0.0)
                            == subst_view(self.substitutions.entries()));
                    }
                }
                Ok(TypedExpr { kind: ExprKind::List(typed), typ: Type::generic("List", ps), span })
            },
            Expr::Block(exprs) => {
                let ghost es0 = exprs@;
                let mut rest = exprs;
                let mut typed: Vec<TypedExpr> = Vec::new();
                let mut block_type = Type::named("Unit");
                let len = rest.len();
                self.env.enter_scope();
                while rest.len() > 0
                    invariant
                        exprs_size(rest@) < size,
                        size == expr_size(se.node),
                        typed@.len() + rest@.len() == len,
                        typed@.len() == 0 ==> block_type@ == named_type("Unit"@),
                        typed@.len() > 0 ==> block_type@ == typed@.last().typ@,
                        self.inv(),
                        same_registries(self.env, old(self).env),
                        self.in_action_context == old(self).in_action_context,
                        self.env.scope_tables() == old(self).env.scope_tables().push(Seq::empty()),
                        plainly_typed(se.node, resolvable(old(self).env)) ==> all_plainly_typed(
                            rest@,
                            resolvable(old(self).env),
                        ),
                        se.node is Block,
                        es0.len() == len,
                        rest@ == es0.subrange(typed@.len() as int, len as int),
                        forall|i: int| 0 <= i < typed@.len() ==> #[trigger] checked_in(
                            typed@[i],
                            es0[i],
                            old(self).env.scope_tables().push(Seq::empty()),
                            old(self).env,
                        ),
                    decreases rest@.len(),
                {
                    let ghost r0 = rest@;
                    let ghost idx = typed@.len() as int;
                    assert(r0 == es0.subrange(idx, len as int));
                    assert(r0[0] == es0[idx]);
                    let e = rest.remove(0);
                    assert(rest@ =~= r0.subrange(1, r0.len() as int));
                    assert(rest@ =~= es0.subrange(idx + 1, len as int));
                    let ghost t_before = typed@;
                    proof {
                        assert forall|n: Seq<char>| #[trigger] resolvable(self.env).contains(n) == resolvable(old(self).env).contains(n) by {
                            lemma_lookup_past_empty_scope(old(self).env.scope_tables(), n);
                        }
                        assert(resolvable(self.env) =~= resolvable(old(self).env));
                    }
                    let te = self.check_expr(e)?;
                    assert(checked_in(te, es0[idx], old(self).env.scope_tables().push(Seq::empty()), old(self).env));
                    block_type = copy_type(&te.typ);
                    typed.push(te);
                    assert forall|i: int| 0 <= i < typed@.len() implies #[trigger] checked_in(
                        typed@[i],
                        es0[i],
                        old(self).env.scope_tables().push(Seq::empty()),
                        old(self).env,
                    ) by {
                        if i < idx {
                            assert(typed@[i] == t_before[i]);
                        }
                    }
                }
                self.env.exit_scope();
                assert(old(self).env.scope_tables().push(Seq::empty()).drop_last() =~= old(self).env.scope_tables());
                Ok(TypedExpr { kind: ExprKind::Block(typed), typ: block_type, span })
            },
            Expr::WithBlock { body, bindings } => {
                self.env.enter_scope();
                let ghost depth = self.env.scope_tables().len();
                let ghost b0 = bindings@;
                let mut rest = bindings;
                proof {
                    assert(b0.take(0) =~= Seq::<WithBinding>::empty());
                    assert forall|n: Seq<char>| #[trigger] entry_get(self.env.scope_tables().last(), n) is None by {
                        crate::type_checker::table::lemma_key_index(self.env.scope_tables().last(), n);
                    }
                }
                while rest.len() > 0
                    invariant
                        rest@.len() <= b0.len(),
                        rest@ == b0.subrange(b0.len() - rest@.len(), b0.len() as int),
                        with_scope(b0.take(b0.len() - rest@.len()), self.env.scope_tables().last(), old(self).env),
                        bindings_size(rest@) < size,
                        size == expr_size(se.node),
                        se.node is WithBlock,
                        self.inv(),
                        same_registries(self.env, old(self).env),
                        self.in_action_context == old(self).in_action_context,
                        self.env.scope_tables().len() == depth,
                        depth == old(self).env.scope_tables().len() + 1,
                        self.env.scope_tables().drop_last() == old(self).env.scope_tables(),
                    decreases rest@.len(),
                {
                    let ghost r0 = rest@;
                    let ghost idx = b0.len() - r0.len();
                    let ghost p0 = b0.take(idx);
                    let ghost p1 = b0.take(idx + 1);
                    let b = rest.remove(0);
                    assert(rest@ =~= r0.subrange(1, r0.len() as int));
                    assert(b == b0[idx]);
                    assert(rest@ =~= b0.subrange(b0.len() - rest@.len(), b0.len() as int));
                    assert(p1.drop_last() =~= p0);
                    assert(p1.last() == b);
                    let ghost sc0 = self.env.scope_tables().last();
                    match b {
                        WithBinding::Value { name, value } => {
                            let ghost e1 = self.env;
                            let ghost k1 = self.next_var as nat;
                            let ghost v0 = value;
                            let tv = self.check_expr(value)?;
                            let ghost before = self.env.scope_tables();
                            let ghost sc1 = before.last();
                            let ghost ty = tv.typ;
                            self.env.bind_var(name.0.as_str(), tv.typ);
                            assert(self.env.scope_tables().drop_last() =~= before.drop_last());
                            proof {
                                let sc = self.env.scope_tables().last();
                                assert(sc == entry_insert(sc1, name@, ty));
                                assert forall|n: Seq<char>|
                                    #[trigger] entry_get(sc, n) == if last_value(p1, n) < 0 {
                                        None::<Type>
                                    } else {
                                        entry_get(sc, n)
                                    } && (entry_get(sc, n) matches Some(u) ==> exists|e: Environment, k: nat, t: TypedExpr|
                                        #[trigger] expr_outcome(p1[last_value(p1, n)]->Value_value, e, k, Ok::<TypedExpr, TypeError>(t))
                                            && same_registries(e, old(self).env) && t.typ == u) && (last_value(p1, n) >= 0
                                        ==> entry_get(sc, n) is Some) by {
                                    crate::type_checker::table::lemma_insert_get(sc1, name@, ty, n);
                                    if n == name@ {
                                        assert(last_value(p1, n) == idx);
                                        assert(p1[idx]->Value_value == v0);
                                        assert(expr_outcome(v0, e1, k1, Ok::<TypedExpr, TypeError>(tv)));
                                    } else {
                                        assert(last_value(p1, n) == last_value(p0, n));
                                        assert(entry_get(sc, n) == entry_get(sc0, n));
                                        lemma_last_value(p0, n);
                                        if last_value(p0, n) >= 0 {
                                            assert(p1[last_value(p0, n)] == p0[last_value(p0, n)]);
                                        }
                                    }
                                }
                            }
                        },
                        WithBinding::Signature { name, sig } => {
                            self.constraints.push(Constraint::Signature(name, sig, span));
                            proof {
                                assert forall|n: Seq<char>|
                                    #[trigger] entry_get(sc0, n) == if last_value(p1, n) < 0 {
                                        None::<Type>
                                    } else {
                                        entry_get(sc0, n)
                                    } && (entry_get(sc0, n) matches Some(u) ==> exists|e: Environment, k: nat, t: TypedExpr|
                                        #[trigger] expr_outcome(p1[last_value(p1, n)]->Value_value, e, k, Ok::<TypedExpr, TypeError>(t))
                                            && same_registries(e, old(self).env) && t.typ == u) && (last_value(p1, n) >= 0
                                        ==> entry_get(sc0, n) is Some) by {
                                    assert(last_value(p1, n) == last_value(p0, n));
                                    lemma_last_value(p0, n);
                                    if last_value(p0, n) >= 0 {
                                        assert(p1[last_value(p0, n)] == p0[last_value(p0, n)]);
                                    }
                                }
                            }
                        },
                        WithBinding::Interface { typ, interface } => {
                            self.constraints.push(Constraint::Interface(typ, interface, span));
                            proof {
                                assert forall|n: Seq<char>|
                                    #[trigger] entry_get(sc0, n) == if last_value(p1, n) < 0 {
                                        None::<Type>
                                    } else {
                                        entry_get(sc0, n)
                                    } && (entry_get(sc0, n) matches Some(u) ==> exists|e: Environment, k: nat, t: TypedExpr|
                                        #[trigger] expr_outcome(p1[last_value(p1, n)]->Value_value, e, k, Ok::<TypedExpr, TypeError>(t))
                                            && same_registries(e, old(self).env) && t.typ == u) && (last_value(p1, n) >= 0
                                        ==> entry_get(sc0, n) is Some) by {
                                    assert(last_value(p1, n) == last_value(p0, n));
                                    lemma_last_value(p0, n);
                                    if last_value(p0, n) >= 0 {
                                        assert(p1[last_value(p0, n)] == p0[last_value(p0, n)]);
                                    }
                                }
                            }
                        },
                    }
                }
                let ghost eb = self.env;
                let ghost kb = self.next_var as nat;
                assert(b0.take(b0.len() as int) =~= b0);
                let typed_body = self.check_expr(*body)?;
                assert(expr_outcome(*body, eb, kb, Ok::<TypedExpr, TypeError>(typed_body)));
                self.validate_constraints()?;
                self.env.exit_scope();
                Ok(typed_body)
            },
            Expr::Hole => {
                let typ = self.fresh();
                Ok(TypedExpr { kind: ExprKind::Hole, typ, span })
            },
            _ => Err(unhandled_error("Unimplemented expression check", span)),
        }
    }
}

// =============================================================================
// STATEMENTS
// =============================================================================

/// The size of a statement, counting the nested statements the checker
/// visits.
pub open spec fn stmt_size(s: Stmt) -> nat
    decreases s,
{
    match s {
        Stmt::Loop { body } => 1 + stmts_size(body@),
        Stmt::Match { cases, .. } => 1 + cases_size(cases@),
        _ => 1,
    }
}

/// The total size of a sequence of statements.
pub open spec fn stmts_size(ss: Seq<Spanned<Stmt>>) -> nat
    decreases ss,
{
    if ss.len() == 0 {
        0
    } else {
        stmt_size(ss[0].node) + stmts_size(ss.subrange(1, ss.len() as int))
    }
}

/// The total size of the bodies of match cases.
pub open spec fn cases_size(cs: Seq<crate::ast::stmt::MatchCase>) -> nat
    decreases cs,
{
    if cs.len() == 0 {
        0
    } else {
        stmts_size(cs[0].body@) + cases_size(cs.subrange(1, cs.len() as int))
    }
}

/// What checking the statement `ss` gives, in an environment `env`.
pub open spec fn stmt_outcome(ss: Spanned<Stmt>, env: Environment, r: Result<TypedStmt, TypeError>) -> bool {
    match ss.node {
        Stmt::Break => r == Ok::<TypedStmt, TypeError>(TypedStmt { kind: StmtKind::Break, span: ss.span }),
        Stmt::Continue => r == Ok::<TypedStmt, TypeError>(TypedStmt { kind: StmtKind::Continue, span: ss.span }),
        Stmt::Expr(e) => (r matches Ok(t) ==> (t.kind is Expr && t.span == ss.span)) && (plainly_typed(
            e.node,
            resolvable(env),
        ) ==> r is Ok),
        Stmt::Return(e) => (r matches Ok(t) ==> (t.kind is Return && t.span == ss.span)) && (plainly_typed(
            e.node,
            resolvable(env),
        ) ==> r is Ok),
        Stmt::Let { pattern, value } => (r matches Ok(t) ==> (t.kind matches StmtKind::Let { pattern: p, .. }
            && p == pattern.node && t.span == ss.span)) && (plainly_typed(value.node, resolvable(env)) ==> r is Ok),
        Stmt::Var { pattern, value } => (r matches Ok(t) ==> (t.kind matches StmtKind::Var { pattern: p, .. }
            && p == pattern.node && t.span == ss.span)) && (plainly_typed(value.node, resolvable(env)) ==> r is Ok),
        Stmt::Assign { name, .. } => (lookup_in_scopes(env.scope_tables(), name@) is None ==> r is Err) && (
        r matches Ok(t) ==> (t.kind matches StmtKind::Assign { name: n, .. } && n == name && t.span
            == ss.span)),
        Stmt::Loop { body } => r matches Ok(t) ==> (t.kind matches StmtKind::Loop { body: b } && b@.len()
            == body@.len() && t.span == ss.span),
        Stmt::Match { cases, .. } => r matches Ok(t) ==> (t.kind matches StmtKind::Match { cases: cs, .. }
            && cs@.len() == cases@.len() && t.span == ss.span),
        _ => r matches Err(e) && e@ == unhandled("Unimplemented statement check"@, ss.span),
    }
}

impl Checker {
    /// Checks a statement of an action.
    fn check_action_stmt(&mut self, ss: Spanned<Stmt>) -> (r: Result<TypedStmt, TypeError>)
        requires
            old(self).inv(),
            old(self).in_action_context,
        ensures
            final(self).inv(),
            same_registries(final(self).env, old(self).env),
            final(self).in_action_context == old(self).in_action_context,
            r is Ok ==> final(self).env.scope_tables().len() == old(self).env.scope_tables().len(),
            r is Ok ==> final(self).env.scope_tables().drop_last() == old(self).env.scope_tables().drop_last(),
            stmt_outcome(ss, old(self).env, r),
        decreases stmt_size(ss.node),
    {
        let span = ss.span;
        let ghost size = stmt_size(ss.node);
        match ss.node {
            Stmt::Expr(e) => {
                let te = self.check_expr(e)?;
                Ok(TypedStmt { kind: StmtKind::Expr(te), span })
            },
            Stmt::Let { pattern, value } => {
                let tv = self.check_expr(value)?;
                match &pattern.node {
                    Pattern::Var(id) => {
                        self.env.bind_var(id.0.as_str(), copy_type(&tv.typ));
                        assert(self.env.scope_tables().drop_last() =~= old(self).env.scope_tables().drop_last());
                    },
                    _ => {},
                }
                Ok(TypedStmt { kind: StmtKind::Let { pattern: pattern.node, value: tv }, span })
            },
            Stmt::Var { pattern, value } => {
                let tv = self.check_expr(value)?;
                match &pattern.node {
                    Pattern::Var(id) => {
                        self.env.bind_var(id.0.as_str(), copy_type(&tv.typ));
                        assert(self.env.scope_tables().drop_last() =~= old(self).env.scope_tables().drop_last());
                    },
                    _ => {},
                }
                Ok(TypedStmt { kind: StmtKind::Var { pattern: pattern.node, value: tv }, span })
            },
            Stmt::Assign { name, value } => {
                let tv = self.check_expr(value)?;
                let expected = match self.env.lookup_var(name.0.as_str()) {
                    Some(t) => Some(copy_type(t)),
                    None => None,
                };
                match expected {
                    Some(t) => {
                        self.unify_in(&tv.typ, &t, &span)?;
                    },
                    None => {
                        return Err(TypeError::UnboundVariable { name: name.0, span });
                    },
                }
                Ok(TypedStmt { kind: StmtKind::Assign { name, value: tv }, span })
            },
            Stmt::Return(e) => {
                let te = self.check_expr(e)?;
                Ok(TypedStmt { kind: StmtKind::Return(te), span })
            },
            Stmt::Break => Ok(TypedStmt { kind: StmtKind::Break, span }),
            Stmt::Continue => Ok(TypedStmt { kind: StmtKind::Continue, span }),
            Stmt::Loop { body } => {
                let mut rest = body;
                let n = rest.len();
                let mut typed: Vec<TypedStmt> = Vec::new();
                self.env.enter_scope();
                let ghost depth = self.env.scope_tables().len();
                while rest.len() > 0
                    invariant
                        stmts_size(rest@) < size,
                        size == stmt_size(ss.node),
                        typed@.len() + rest@.len() == n,
                        self.inv(),
                        self.in_action_context,
                        self.in_action_context == old(self).in_action_context,
                        same_registries(self.env, old(self).env),
                        self.env.scope_tables().len() == depth,
                        depth == old(self).env.scope_tables().len() + 1,
                        self.env.scope_tables().drop_last() == old(self).env.scope_tables(),
                    decreases rest@.len(),
                {
                    let ghost r0 = rest@;
                    let s = rest.remove(0);
                    assert(rest@ =~= r0.subrange(1, r0.len() as int));
                    let ts = self.check_action_stmt(s)?;
                    typed.push(ts);
                }
                self.env.exit_scope();
                Ok(TypedStmt { kind: StmtKind::Loop { body: typed }, span })
            },
            Stmt::Match { value, cases } => {
                let tv = self.check_expr(value)?;
                let mut rest = cases;
                let n = rest.len();
                let mut typed_cases: Vec<TypedMatchCase> = Vec::new();
                while rest.len() > 0
                    invariant
                        cases_size(rest@) < size,
                        size == stmt_size(ss.node),
                        ss.node is Match,
                        typed_cases@.len() + rest@.len() == n,
                        self.inv(),
                        self.in_action_context,
                        self.in_action_context == old(self).in_action_context,
                        same_registries(self.env, old(self).env),
                        self.env.scope_tables() == old(self).env.scope_tables(),
                    decreases rest@.len(),
                {
                    let ghost r0 = rest@;
                    let case = rest.remove(0);
                    assert(rest@ =~= r0.subrange(1, r0.len() as int));
                    self.env.enter_scope();
                    self.check_pattern(&case.pattern, &tv.typ)?;
                    let mut body = case.body;
                    let m = body.len();
                    let mut typed_body: Vec<TypedStmt> = Vec::new();
                    while body.len() > 0
                        invariant
                            stmts_size(body@) + cases_size(rest@) < size,
                            size == stmt_size(ss.node),
                            typed_body@.len() + body@.len() == m,
                            self.inv(),
                            self.in_action_context,
                            self.in_action_context == old(self).in_action_context,
                            same_registries(self.env, old(self).env),
                            self.env.scope_tables().len() == old(self).env.scope_tables().len() + 1,
                            self.env.scope_tables().drop_last() == old(self).env.scope_tables(),
                        decreases body@.len(),
                    {
                        let ghost b0 = body@;
                        let s = body.remove(0);
                        assert(body@ =~= b0.subrange(1, b0.len() as int));
                        let ts = self.check_action_stmt(s)?;
                        typed_body.push(ts);
                    }
                    typed_cases.push(TypedMatchCase { pattern: case.pattern.node, body: typed_body });
                    self.env.exit_scope();
                }
                Ok(TypedStmt { kind: StmtKind::Match { value: tv, cases: typed_cases }, span })
            },
            _ => Err(unhandled_error("Unimplemented statement check", span)),
        }
    }
}

// =============================================================================
// DECLARATIONS
// =============================================================================

/// Whether the signatures a declaration registers name their type
/// variables with at least one character.
pub open spec fn decl_ok(d: TopLevel) -> bool {
    match d {
        TopLevel::Function(f) => sig_names_ok(f.sig@),
        TopLevel::Action(a) => match a.return_type {
            Some(t) => type_names_ok(t@),
            None => true,
        },
        TopLevel::Interface(i) => forall|k: int| 0 <= k < i.members@.len() ==> member_ok(#[trigger] i.members@[k]),
        TopLevel::Implements(imp) => forall|k: int|
            0 <= k < imp.implementations@.len() ==> sig_names_ok(#[trigger] imp.implementations@[k].sig@),
        _ => true,
    }
}

/// Whether the signature of an interface member names its type variables.
pub open spec fn member_ok(m: crate::ast::decl::InterfaceMember) -> bool {
    match m {
        crate::ast::decl::InterfaceMember::Signature(_, sig) => sig_names_ok(sig@),
        crate::ast::decl::InterfaceMember::FunctionDef(f) => sig_names_ok(f.sig@),
    }
}

/// Whether a typed declaration is of the same kind as the declaration it
/// came from, with the same name.
pub open spec fn kind_matches(d: TopLevel, k: DeclKind) -> bool {
    match (d, k) {
        (TopLevel::Function(f), DeclKind::Function(t)) => t.name == f.name,
        (TopLevel::Action(a), DeclKind::Action(t)) => t.name == a.name,
        (TopLevel::Data(x), DeclKind::Data(t)) => t.name == x.name,
        (TopLevel::Enum(x), DeclKind::Enum(t)) => t.name == x.name,
        (TopLevel::Interface(x), DeclKind::Interface(t)) => t.name == x.name,
        (TopLevel::Implements(x), DeclKind::Implements(t)) => t.interface == x.interface,
        (TopLevel::Alias(x), DeclKind::Alias(t)) => t.name == x.name && t.target == x.target,
        (TopLevel::Import(x), DeclKind::Import(t)) => t == x,
        (TopLevel::Export(x), DeclKind::Export(t)) => t@.len() == x.items@.len() && forall|j: int|
            0 <= j < t@.len() ==> (#[trigger] t@[j])@ == x.items@[j]@,
        (TopLevel::Statement(_), DeclKind::Statement(_)) => true,
        _ => false,
    }
}

/// Whether checking a declaration always succeeds: data, enum, alias,
/// import and export declarations are taken as they stand, and so are a
/// function without clauses, an action without statements and an
/// interface whose members are all signatures.
pub open spec fn always_accepted(d: TopLevel) -> bool {
    match d {
        TopLevel::Data(_) | TopLevel::Enum(_) | TopLevel::Alias(_) | TopLevel::Import(_)
        | TopLevel::Export(_) => true,
        TopLevel::Function(f) => f.clauses@.len() == 0,
        TopLevel::Action(a) => a.body@.len() == 0,
        TopLevel::Interface(i) => forall|k: int| 0 <= k < i.members@.len() ==> (#[trigger] i.members@[k]) is Signature,
        _ => false,
    }
}

/// The position of the last of the patterns `ps` that is the variable
/// `name`, or -1 when none is.
pub open spec fn last_binding(ps: Seq<Spanned<Pattern>>, name: Seq<char>) -> int
    decreases ps.len(),
{
    if ps.len() == 0 {
        -1
    } else if ps.last().node is Var && ps.last().node->Var_0@ == name {
        ps.len() - 1
    } else {
        last_binding(ps.drop_last(), name)
    }
}

/// Whether a function clause is accepted for a function with the parameter
/// types `params` and the return type `ret`: its patterns (none, or one per
/// parameter) match anything, it has no `with` bindings, and its body, if
/// any, is a literal, or a variable that one of its patterns binds, whose
/// type unifies with `ret`, or an accepted call (`call_accepted`).
pub open spec fn clause_accepted(c: crate::ast::expr::LambdaClause, params: Seq<Type>, ret: TypeView, env: Environment) -> bool {
    &&& (c.patterns@.len() == 0 || c.patterns@.len() == params.len())
    &&& all_bind_anything(c.patterns@)
    &&& c.with@.len() == 0
    &&& match c.body {
        None => true,
        Some(b) => match b.node {
            Expr::Literal(l) => unify_spec(named_type(literal_type_name(l)), ret, env) is Ok,
            Expr::Var { name, type_ascription: None } => last_binding(c.patterns@, name@) >= 0 && unify_spec(
                params[last_binding(c.patterns@, name@)]@,
                ret,
                env,
            ) is Ok,
            Expr::Apply { func, args } => call_accepted(func.node, args@, c.patterns@, params, ret, env),
            _ => false,
        },
    }
}

/// Whether every clause of the function `f` is accepted.
pub open spec fn function_accepted(f: FunctionDef, env: Environment) -> bool {
    forall|i: int|
        0 <= i < f.clauses@.len() ==> clause_accepted(
            #[trigger] f.clauses@[i],
            f.sig.params@,
            f.sig.return_type@,
            env,
        )
}

/// Whether checking the declaration `d` succeeds in `env`: it is always
/// accepted, or it is a function whose clauses are all accepted.
pub open spec fn accepted_in(d: TopLevel, env: Environment) -> bool {
    ||| always_accepted(d)
    ||| (d matches TopLevel::Function(f) && function_accepted(f, env))
}

/// Candidates and winners read nothing of an environment but its
/// interface tables.
proof fn lemma_candidates_tables(sigs: Seq<FunctionSigView>, tys: Seq<TypeView>, e1: Environment, e2: Environment)
    requires
        crate::type_checker::environment::same_interface_tables(e1, e2),
    ensures
        forall|base: Entries<TypeView>, k0: nat, j: int|
            #[trigger] candidate(sigs, tys, e1, base, k0, j) == candidate(sigs, tys, e2, base, k0, j),
        forall|base: Entries<TypeView>, k0: nat, j: int|
            #[trigger] wins(sigs, tys, e1, base, k0, j) == wins(sigs, tys, e2, base, k0, j),
        forall|base: Entries<TypeView>, k0: nat|
            #[trigger] sigs_match(sigs, tys, e1, base, k0) == sigs_match(sigs, tys, e2, base, k0),
{
    assert forall|base: Entries<TypeView>, k0: nat, j: int|
        #[trigger] candidate(sigs, tys, e1, base, k0, j) == candidate(sigs, tys, e2, base, k0, j) by {
        let p = inst_of(sigs, k0, j).params;
        lemma_trial_tables(p, tys, pairs_tried(p.len(), tys.len()), e1, e2, base);
    }
    assert forall|base: Entries<TypeView>, k0: nat, j: int|
        #[trigger] wins(sigs, tys, e1, base, k0, j) == wins(sigs, tys, e2, base, k0, j) by {
        if wins(sigs, tys, e1, base, k0, j) {
            lemma_wins_tables(sigs, tys, e1, e2, base, k0, j);
        }
        if wins(sigs, tys, e2, base, k0, j) {
            lemma_wins_tables(sigs, tys, e2, e1, base, k0, j);
        }
    }
    assert forall|base: Entries<TypeView>, k0: nat|
        #[trigger] sigs_match(sigs, tys, e1, base, k0) == sigs_match(sigs, tys, e2, base, k0) by {
        if sigs_match(sigs, tys, e1, base, k0) {
            let j = choose|j: int| 0 <= j < sigs.len() && #[trigger] candidate(sigs, tys, e1, base, k0, j) is Some;
            assert(candidate(sigs, tys, e2, base, k0, j) is Some);
        }
        if sigs_match(sigs, tys, e2, base, k0) {
            let j = choose|j: int| 0 <= j < sigs.len() && #[trigger] candidate(sigs, tys, e2, base, k0, j) is Some;
            assert(candidate(sigs, tys, e1, base, k0, j) is Some);
        }
    }
}

/// An accepted call stays accepted in an environment with the same
/// interface tables.
proof fn lemma_call_accepted_tables(
    f: Expr,
    args: Seq<Spanned<Expr>>,
    ps: Seq<Spanned<Pattern>>,
    params: Seq<Type>,
    ret: TypeView,
    e1: Environment,
    e2: Environment,
)
    requires
        crate::type_checker::environment::same_interface_tables(e1, e2),
        call_accepted(f, args, ps, params, ret, e1),
    ensures
        call_accepted(f, args, ps, params, ret, e2),
{
    let sigs = called_sigs(f, e1);
    let tys = clause_call_types(f, args, ps, params, e1);
    assert(called_sigs(f, e2) == sigs);
    assert(clause_call_types(f, args, ps, params, e2) == tys);
    lemma_candidates_tables(sigs, tys, e1, e2);
    assert forall|i: int| 0 <= i < dispatch_arity(f, e2) implies clause_arg(#[trigger] args[i].node, ps, e2) by {
        assert(clause_arg(args[i].node, ps, e1));
    }
    assert forall|base: Entries<TypeView>, k0: nat| #[trigger] sigs_match(sigs, tys, e2, base, k0) by {
        assert(sigs_match(sigs, tys, e1, base, k0));
    }
    assert forall|base: Entries<TypeView>, k0: nat, j: int|
        #[trigger] wins(sigs, tys, e2, base, k0, j) implies unify_spec(
            subst_apply(inst_of(sigs, k0, j).ret, candidate(sigs, tys, e2, base, k0, j)->Some_0.0),
            ret,
            e2,
        ) is Ok by {
        assert(wins(sigs, tys, e1, base, k0, j));
        crate::type_checker::inference::lemma_unify_tables(
            subst_apply(inst_of(sigs, k0, j).ret, candidate(sigs, tys, e1, base, k0, j)->Some_0.0),
            ret,
            e1,
            e2,
        );
    }
}

/// An accepted call in a clause whose pattern variables are bound as its
/// patterns say is a simple call that matches, whatever substitution and
/// counter it starts from, and the type of its winner unifies with `ret`.
proof fn lemma_accepted_call(
    f: Expr,
    args: Seq<Spanned<Expr>>,
    ps: Seq<Spanned<Pattern>>,
    params: Seq<Type>,
    ret: TypeView,
    genv: Environment,
    env: Environment,
    base: Entries<TypeView>,
    k0: nat,
)
    requires
        call_accepted(f, args, ps, params, ret, genv),
        same_registries(env, genv),
        pattern_bindings(ps, params, env.scope_tables()),
    ensures
        simple_call(f, args, env),
        call_matches(f, args, env, base, k0),
        forall|b: Entries<TypeView>, k: nat, j: int|
            #[trigger] wins(called_sigs(f, env), call_arg_types(f, args, env), env, b, k, j) ==> unify_spec(
                subst_apply(
                    inst_of(called_sigs(f, env), k, j).ret,
                    candidate(called_sigs(f, env), call_arg_types(f, args, env), env, b, k, j)->Some_0.0,
                ),
                ret,
                env,
            ) is Ok,
{
    lemma_call_accepted_tables(f, args, ps, params, ret, genv, env);
    let n = dispatch_arity(f, env);
    assert forall|i: int| 0 <= i < n implies direct_arg(#[trigger] args[i].node, env) by {
        assert(clause_arg(args[i].node, ps, env));
    }
    let tys = clause_call_types(f, args, ps, params, env);
    assert forall|i: int| 0 <= i < n implies call_arg_types(f, args, env)[i] == tys[i] by {
        assert(clause_arg(args[i].node, ps, env));
        assert(args.take(n)[i] == args[i]);
    }
    assert(call_arg_types(f, args, env) =~= tys);
    assert(sigs_match(called_sigs(f, env), tys, env, base, k0));
}

/// Acceptance reads nothing of an environment but its interface tables.
proof fn lemma_accepted_tables(d: TopLevel, e1: Environment, e2: Environment)
    requires
        crate::type_checker::environment::same_interface_tables(e1, e2),
    ensures
        accepted_in(d, e1) == accepted_in(d, e2),
{
    match d {
        TopLevel::Function(f) => {
            assert forall|i: int| 0 <= i < f.clauses@.len() implies clause_accepted(
                #[trigger] f.clauses@[i],
                f.sig.params@,
                f.sig.return_type@,
                e1,
            ) == clause_accepted(f.clauses@[i], f.sig.params@, f.sig.return_type@, e2) by {
                match f.clauses@[i].body {
                    Some(b) => match b.node {
                        Expr::Literal(l) => {
                            crate::type_checker::inference::lemma_unify_tables(
                                named_type(literal_type_name(l)),
                                f.sig.return_type@,
                                e1,
                                e2,
                            );
                        },
                        Expr::Var { name, type_ascription: None } => {
                            crate::type_checker::inference::lemma_unify_tables(
                                f.sig.params@[last_binding(f.clauses@[i].patterns@, name@)]@,
                                f.sig.return_type@,
                                e1,
                                e2,
                            );
                        },
                        Expr::Apply { func, args } => {
                            let ps = f.clauses@[i].patterns@;
                            if call_accepted(func.node, args@, ps, f.sig.params@, f.sig.return_type@, e1) {
                                lemma_call_accepted_tables(func.node, args@, ps, f.sig.params@, f.sig.return_type@, e1, e2);
                            }
                            if call_accepted(func.node, args@, ps, f.sig.params@, f.sig.return_type@, e2) {
                                lemma_call_accepted_tables(func.node, args@, ps, f.sig.params@, f.sig.return_type@, e2, e1);
                            }
                        },
                        _ => {},
                    },
                    None => {},
                }
            }
            assert(function_accepted(f, e1) == function_accepted(f, e2));
        },
        _ => {},
    }
}

/// Whether the typed body `tb` is the checked form of the body `sb` whose
/// type unifies with the return type `ret` in `env`: the result of checking
/// `sb` in an environment with the same interface tables, with its type
/// then put under a later substitution.
pub open spec fn body_checked(tb: Option<TypedExpr>, sb: Option<Spanned<Expr>>, ret: TypeView, env: Environment) -> bool {
    match (tb, sb) {
        (None, None) => true,
        (Some(b), Some(e)) => exists|b0: TypedExpr, e0: Environment, k: nat, sf: Entries<TypeView>|
            #![trigger expr_outcome(e, e0, k, Ok::<TypedExpr, TypeError>(b0)), subst_apply(b0.typ@, sf)]
        {
            &&& crate::type_checker::environment::same_interface_tables(e0, env)
            &&& expr_outcome(e, e0, k, Ok::<TypedExpr, TypeError>(b0))
            &&& unify_spec(b0.typ@, ret, env) is Ok
            &&& b.kind == b0.kind
            &&& b.span == b0.span
            &&& b.typ@ == subst_apply(b0.typ@, sf)
        },
        _ => false,
    }
}

/// Whether `t` is the checked form of the function `f` in `env`: a clause
/// for each clause, each body checked against the return type.
pub open spec fn function_typed(t: TypedFunctionDef, f: FunctionDef, env: Environment) -> bool {
    &&& t.clauses@.len() == f.clauses@.len()
    &&& forall|i: int|
        0 <= i < f.clauses@.len() ==> body_checked(
            (#[trigger] t.clauses@[i]).body,
            f.clauses@[i].body,
            f.sig.return_type@,
            env,
        )
}

/// A function checked in one environment is checked alike in any with the
/// same interface tables.
proof fn lemma_function_typed_tables(t: TypedFunctionDef, f: FunctionDef, e1: Environment, e2: Environment)
    requires
        function_typed(t, f, e1),
        crate::type_checker::environment::same_interface_tables(e1, e2),
    ensures
        function_typed(t, f, e2),
{
    assert forall|i: int| 0 <= i < f.clauses@.len() implies body_checked(
        (#[trigger] t.clauses@[i]).body,
        f.clauses@[i].body,
        f.sig.return_type@,
        e2,
    ) by {
        assert(body_checked(t.clauses@[i].body, f.clauses@[i].body, f.sig.return_type@, e1));
        match (t.clauses@[i].body, f.clauses@[i].body) {
            (Some(b), Some(e)) => {
                let (b0, e0, k, sf) = choose|b0: TypedExpr, e0: Environment, k: nat, sf: Entries<TypeView>|
                    #![trigger expr_outcome(e, e0, k, Ok::<TypedExpr, TypeError>(b0)), subst_apply(b0.typ@, sf)]
                {
                    &&& crate::type_checker::environment::same_interface_tables(e0, e1)
                    &&& expr_outcome(e, e0, k, Ok::<TypedExpr, TypeError>(b0))
                    &&& unify_spec(b0.typ@, f.sig.return_type@, e1) is Ok
                    &&& b.kind == b0.kind
                    &&& b.span == b0.span
                    &&& b.typ@ == subst_apply(b0.typ@, sf)
                };
                crate::type_checker::inference::lemma_unify_tables(b0.typ@, f.sig.return_type@, e1, e2);
                assert(crate::type_checker::environment::same_interface_tables(e0, e2));
            },
            _ => {},
        }
    }
}

/// Whether a declaration checked to `k` was checked as a function is
/// checked: its typed form has every body checked against the return type.
pub open spec fn decl_typed(d: TopLevel, k: DeclKind, env: Environment) -> bool {
    d matches TopLevel::Function(f) ==> (k matches DeclKind::Function(tf) && function_typed(tf, f, env))
}

/// Whether the first clause of a function, if any, has no patterns or one
/// per parameter.
pub open spec fn first_clause_fits(func: FunctionDef) -> bool {
    func.clauses@.len() > 0 ==> (func.clauses@[0].patterns@.len() == 0
        || func.clauses@[0].patterns@.len() == func.sig.params@.len())
}

/// The message of a function clause with the wrong number of patterns.
pub open spec fn arity_mismatch_text(name: Seq<char>, expected: nat, found: nat) -> Seq<char> {
    "Arity Mismatch in function `"@ + name + "`: expected "@ + crate::text::decimal(expected)
        + ", but found "@ + crate::text::decimal(found)
}

/// The message of a type mismatch in `place` of the function `fname`.
pub open spec fn function_mismatch_text(fname: Seq<char>, place: Seq<char>, expected: TypeView, found: TypeView) -> Seq<char> {
    "Type Mismatch in function `"@ + fname + "` "@ + place + ": expected `"@ + type_display(expected)
        + "`, but found `"@ + type_display(found) + "`"@
}

/// The message of a type mismatch in a pattern or the result of a function.
fn function_mismatch(fname: &Ident, place: &str, expected: &Type, found: &Type) -> (r: String)
    ensures
        r@ == function_mismatch_text(fname@, place@, expected@, found@),
{
    let mut out: Vec<char> = Vec::new();
    push_str(&mut out, "Type Mismatch in function `");
    push_str(&mut out, fname.0.as_str());
    push_str(&mut out, "` ");
    push_str(&mut out, place);
    push_str(&mut out, ": expected `");
    crate::ast::types::push_type_display(&mut out, expected);
    push_str(&mut out, "`, but found `");
    crate::ast::types::push_type_display(&mut out, found);
    push_str(&mut out, "`");
    assert(out@ =~= function_mismatch_text(fname@, place@, expected@, found@));
    string_from_chars(&out)
}

/// A pattern error rephrased for the function `fname`: a type mismatch is
/// reported with the function's name, anything else as it is.
fn pattern_error(fname: &Ident, e: TypeError) -> (r: TypeError)
    ensures
        match e {
            TypeError::TypeMismatch { expected, found, span } => r@ == (TypeErrorView::UnboundVariable {
                name: function_mismatch_text(fname@, "pattern"@, expected@, found@),
                span,
            }),
            _ => r == e,
        },
{
    match e {
        TypeError::TypeMismatch { expected, found, span } => TypeError::UnboundVariable {
            name: function_mismatch(fname, "pattern", &expected, &found),
            span,
        },
        other => other,
    }
}

impl Checker {
    /// Checks a pure function: each clause in a scope of its own, its
    /// patterns against the signature's parameters, its `with` bindings,
    /// and its body against the return type.
    fn check_function_def(&mut self, func: FunctionDef) -> (r: Result<TypedFunctionDef, TypeError>)
        requires
            old(self).inv(),
        ensures
            final(self).inv(),
            same_registries(final(self).env, old(self).env),
            !final(self).in_action_context,
            r is Ok ==> final(self).env.scope_tables() == old(self).env.scope_tables(),
            r matches Ok(t) ==> (t.name == func.name && t.sig == func.sig && t.arity == func.arity
                && t.directives == func.directives && t.clauses@.len() == func.clauses@.len()),
            !first_clause_fits(func) ==> (r matches Err(e)
                && e@ == (TypeErrorView::UnboundVariable {
                name: arity_mismatch_text(
                    func.name@,
                    func.sig.params@.len() as nat,
                    func.clauses@[0].patterns@.len() as nat,
                ),
                span: Span { start: 0, end: 0 },
            })),
            func.clauses@.len() == 0 ==> r is Ok,
            r matches Ok(t) ==> function_typed(t, func, old(self).env),
            r is Ok && old(self).constraints@.len() == 0 ==> final(self).constraints@.len() == 0,
            old(self).constraints@.len() == 0 && function_accepted(func, old(self).env) ==> r is Ok,
    {
        let ghost acc = old(self).constraints@.len() == 0 && function_accepted(func, old(self).env);
        self.in_action_context = false;
        self.env.enter_scope();
        let FunctionDef { name, sig, arity, directives, clauses } = func;
        let mut rest = clauses;
        let n = rest.len();
        let mut typed_clauses: Vec<TypedLambdaClause> = Vec::new();
        let zero = Span { start: 0, end: 0 };
        while rest.len() > 0
            invariant
                typed_clauses@.len() + rest@.len() == n,
                n == func.clauses@.len(),
                typed_clauses@.len() == 0 ==> rest@ == func.clauses@,
                typed_clauses@.len() > 0 ==> first_clause_fits(func),
                sig == func.sig,
                name == func.name,
                self.inv(),
                !self.in_action_context,
                same_registries(self.env, old(self).env),
                self.env.scope_tables() == old(self).env.scope_tables().push(Seq::empty()),
                rest@ == func.clauses@.subrange(typed_clauses@.len() as int, n as int),
                acc == (old(self).constraints@.len() == 0 && function_accepted(func, old(self).env)),
                (typed_clauses@.len() > 0 || old(self).constraints@.len() == 0) ==> self.constraints@.len() == 0,
                forall|i: int|
                    0 <= i < typed_clauses@.len() ==> body_checked(
                        (#[trigger] typed_clauses@[i]).body,
                        func.clauses@[i].body,
                        func.sig.return_type@,
                        old(self).env,
                    ),
            decreases rest@.len(),
        {
            let ghost r0 = rest@;
            let ghost ci = typed_clauses@.len() as int;
            let clause = rest.remove(0);
            assert(clause == func.clauses@[ci]);
            assert(rest@ =~= func.clauses@.subrange(ci + 1, n as int));
            let ghost first = typed_clauses@.len() == 0;
            assert(first ==> clause == func.clauses@[0]);
            assert(acc ==> clause_accepted(clause, func.sig.params@, func.sig.return_type@, old(self).env));
            let ghost cp = clause.patterns@;
            self.env.enter_scope();
            let ghost inner = self.env.scope_tables();
            let ghost pl = clause.patterns@.len();
            let mut patterns = clause.patterns;
            if patterns.len() == 0 {
                let mut k: usize = 0;
                while k < sig.params.len()
                    invariant
                        k <= sig.params@.len(),
                        patterns@.len() == k,
                        all_bind_anything(patterns@),
                    decreases sig.params@.len() - k,
                {
                    patterns.push(Spanned { node: Pattern::Wildcard, span: zero });
                    k = k + 1;
                }
            }
            assert(acc ==> all_bind_anything(patterns@) && patterns@.len() == sig.params@.len());
            assert(cp.len() > 0 ==> patterns@ == cp);
            if patterns.len() != sig.params.len() {
                let mut out: Vec<char> = Vec::new();
                push_str(&mut out, "Arity Mismatch in function `");
                push_str(&mut out, name.0.as_str());
                push_str(&mut out, "`: expected ");
                push_decimal(&mut out, sig.params.len() as u64);
                push_str(&mut out, ", but found ");
                push_decimal(&mut out, patterns.len() as u64);
                let msg = string_from_chars(&out);
                assert(msg@ =~= arity_mismatch_text(name@, sig.params@.len() as nat, patterns@.len() as nat));
                proof {
                    if first {
                        assert(pl > 0);
                        assert(patterns@.len() == pl);
                        assert(func.clauses@[0].patterns@.len() == pl);
                        assert(name@ == func.name@);
                        assert(sig.params@.len() == func.sig.params@.len());
                    } else {
                        assert(first_clause_fits(func));
                    }
                    assert(!first_clause_fits(func) ==> msg@ == arity_mismatch_text(
                        func.name@,
                        func.sig.params@.len() as nat,
                        func.clauses@[0].patterns@.len() as nat,
                    ));
                }
                return Err(TypeError::UnboundVariable { name: msg, span: Span { start: 0, end: 0 } });
            }
            assert(first_clause_fits(func));
            let mut k: usize = 0;
            while k < patterns.len()
                invariant
                    first_clause_fits(func),
                    func.clauses@.len() > 0,
                    k <= patterns@.len(),
                    patterns@.len() == sig.params@.len(),
                    self.inv(),
                    !self.in_action_context,
                    same_registries(self.env, old(self).env),
                    self.env.scope_tables().len() == inner.len(),
                    self.env.scope_tables().drop_last() == inner.drop_last(),
                    acc ==> all_bind_anything(patterns@),
                    acc ==> self.constraints@.len() == 0,
                    acc == (old(self).constraints@.len() == 0 && function_accepted(func, old(self).env)),
                    acc ==> pattern_bindings(patterns@.take(k as int), sig.params@, self.env.scope_tables()),
                decreases patterns@.len() - k,
            {
                assert(acc ==> binds_anything(patterns@[k as int].node));
                let ghost ss0 = self.env.scope_tables();
                match self.check_pattern(&patterns[k], &sig.params[k]) {
                    Ok(_) => {},
                    Err(e) => {
                        return Err(pattern_error(&name, e));
                    },
                }
                proof {
                    if acc {
                        let tk = patterns@.take(k + 1);
                        assert(tk.drop_last() =~= patterns@.take(k as int));
                        assert(tk.last() == patterns@[k as int]);
                        assert forall|nm: Seq<char>| #[trigger] last_binding(tk, nm) >= 0 implies (lookup_in_scopes(
                            self.env.scope_tables(),
                            nm,
                        ) matches Some(u) && u@ == sig.params@[last_binding(tk, nm)]@) by {
                            if !(tk.last().node is Var && tk.last().node->Var_0@ == nm) {
                                assert(last_binding(tk, nm) == last_binding(patterns@.take(k as int), nm));
                                if patterns@[k as int].node is Var {
                                    assert(lookup_in_scopes(self.env.scope_tables(), nm) == lookup_in_scopes(ss0, nm));
                                }
                            }
                        }
                    }
                }
                k = k + 1;
            }
            assert(patterns@.take(k as int) =~= patterns@);
            let mut bindings = clause.with;
            while bindings.len() > 0
                invariant
                    first_clause_fits(func),
                    func.clauses@.len() > 0,
                    self.inv(),
                    !self.in_action_context,
                    same_registries(self.env, old(self).env),
                    self.env.scope_tables().len() == inner.len(),
                    self.env.scope_tables().drop_last() == inner.drop_last(),
                    acc ==> bindings@.len() == 0,
                    acc ==> self.constraints@.len() == 0,
                    acc == (old(self).constraints@.len() == 0 && function_accepted(func, old(self).env)),
                    acc ==> pattern_bindings(patterns@, sig.params@, self.env.scope_tables()),
                decreases bindings@.len(),
            {
                let b = bindings.remove(0);
                match b {
                    WithBinding::Value { name: bname, value } => {
                        let tv = self.check_expr(value)?;
                        let ghost before = self.env.scope_tables();
                        self.env.bind_var(bname.0.as_str(), tv.typ);
                        assert(self.env.scope_tables().drop_last() =~= before.drop_last());
                    },
                    WithBinding::Signature { name: cname, sig: csig } => {
                        self.constraints.push(Constraint::Signature(cname, csig, zero));
                    },
                    WithBinding::Interface { typ, interface } => {
                        self.constraints.push(Constraint::Interface(typ, interface, zero));
                    },
                }
            }
            let ghost body_src = clause.body;
            let typed_body = match clause.body {
                Some(body) => {
                    let ghost e0 = self.env;
                    let ghost k0 = self.next_var as nat;
                    let ghost bnode = body.node;
                    proof {
                        if acc {
                            assert(pattern_bindings(cp, sig.params@, e0.scope_tables())) by {
                                if cp.len() == 0 {
                                    assert forall|nm: Seq<char>| last_binding(cp, nm) == -1 by {}
                                }
                            }
                            match bnode {
                                Expr::Apply { func, args } => {
                                    lemma_accepted_call(
                                        func.node,
                                        args@,
                                        cp,
                                        sig.params@,
                                        sig.return_type@,
                                        old(self).env,
                                        e0,
                                        subst_view(self.substitutions.entries()),
                                        k0,
                                    );
                                },
                                _ => {},
                            }
                        }
                    }
                    let mut checked = self.check_expr(body)?;
                    let ghost b0 = checked;
                    proof {
                        crate::type_checker::inference::lemma_unify_tables(b0.typ@, sig.return_type@, self.env, old(self).env);
                        crate::type_checker::inference::lemma_unify_tables(b0.typ@, sig.return_type@, e0, self.env);
                        if acc {
                            match bnode {
                                Expr::Apply { func, args } => {
                                    let sigs = called_sigs(func.node, e0);
                                    let tys = call_arg_types(func.node, args@, e0);
                                    let ta = b0.kind->Apply_args@;
                                    assert(typs_of(ta) == tys);
                                    let (kk, bb, jj) = choose|kk: nat, bb: Entries<TypeView>, jj: int| {
                                        &&& #[trigger] wins(sigs, typs_of(ta), e0, bb, kk, jj)
                                        &&& subst_view(self.substitutions.entries()) == candidate(sigs, typs_of(ta), e0, bb, kk, jj)->Some_0.0
                                        &&& b0.typ@ == subst_apply(inst_of(sigs, kk, jj).ret, subst_view(self.substitutions.entries()))
                                    };
                                    assert(wins(sigs, tys, e0, bb, kk, jj));
                                    assert(unify_spec(b0.typ@, sig.return_type@, e0) is Ok);
                                },
                                _ => {},
                            }
                        }
                    }
                    let s = match unify(&checked.typ, &sig.return_type, &self.env, &checked.span) {
                        Ok((s, _)) => s,
                        Err(e) => {
                            return Err(
                                match e {
                                    TypeError::TypeMismatch { expected, found, span } => TypeError::UnboundVariable {
                                        name: function_mismatch(&name, "return", &expected, &found),
                                        span,
                                    },
                                    other => other,
                                },
                            );
                        },
                    };
                    self.extend(&s);
                    checked.typ = apply(&checked.typ, &self.substitutions);
                    proof {
                        let sf = subst_view(self.substitutions.entries());
                        assert(crate::type_checker::environment::same_interface_tables(e0, old(self).env));
                        assert(expr_outcome(body, e0, k0, Ok::<TypedExpr, TypeError>(b0)));
                        assert(body_checked(Some(checked), body_src, func.sig.return_type@, old(self).env));
                    }
                    Some(checked)
                },
                None => None,
            };
            assert(body_checked(typed_body, body_src, func.sig.return_type@, old(self).env));
            self.validate_constraints()?;
            let mut pattern_nodes: Vec<Pattern> = Vec::new();
            while patterns.len() > 0
                decreases patterns@.len(),
            {
                let p = patterns.remove(0);
                pattern_nodes.push(p.node);
            }
            typed_clauses.push(TypedLambdaClause {
                patterns: pattern_nodes,
                guards: Vec::new(),
                body: typed_body,
                with: Vec::new(),
            });
            self.env.exit_scope();
            assert(inner.drop_last() == old(self).env.scope_tables().push(Seq::empty()));
        }
        self.env.exit_scope();
        assert(old(self).env.scope_tables().push(Seq::empty()).drop_last() =~= old(self).env.scope_tables());
        Ok(TypedFunctionDef { name, sig, arity, directives, clauses: typed_clauses })
    }

    /// Checks an action: its parameters get fresh types, its statements are
    /// checked in an action context, and a missing return type is `Unit`.
    fn check_action_def(&mut self, action: ActionDef) -> (r: Result<TypedActionDef, TypeError>)
        requires
            old(self).inv(),
        ensures
            final(self).inv(),
            same_registries(final(self).env, old(self).env),
            r is Ok ==> !final(self).in_action_context,
            r is Ok ==> final(self).env.scope_tables() == old(self).env.scope_tables(),
            r matches Ok(t) ==> (t.name == action.name && t.params == action.params && t.directives
                == action.directives && t.body@.len() == action.body@.len() && t.return_type@
                == match action.return_type {
                Some(rt) => rt@,
                None => named_type("Unit"@),
            }),
            action.body@.len() == 0 ==> r is Ok,
            action.body@.len() == 0 ==> final(self).constraints == old(self).constraints,
    {
        self.in_action_context = true;
        self.env.enter_scope();
        let ActionDef { name, params, return_type, directives, body } = action;
        let return_type = match return_type {
            Some(t) => t,
            None => Type::named("Unit"),
        };
        let mut k: usize = 0;
        while k < params.len()
            invariant
                k <= params@.len(),
                self.inv(),
                self.in_action_context,
                same_registries(self.env, old(self).env),
                self.env.scope_tables().len() == old(self).env.scope_tables().len() + 1,
                self.env.scope_tables().drop_last() == old(self).env.scope_tables(),
                self.constraints == old(self).constraints,
            decreases params@.len() - k,
        {
            let t = self.fresh();
            let ghost before = self.env.scope_tables();
            self.env.bind_var(params[k].0.as_str(), t);
            assert(self.env.scope_tables().drop_last() =~= before.drop_last());
            k = k + 1;
        }
        let mut rest = body;
        let n = rest.len();
        let mut typed: Vec<TypedStmt> = Vec::new();
        while rest.len() > 0
            invariant
                typed@.len() + rest@.len() == n,
                n == action.body@.len(),
                n == 0 ==> self.constraints == old(self).constraints,
                self.inv(),
                self.in_action_context,
                same_registries(self.env, old(self).env),
                self.env.scope_tables().len() == old(self).env.scope_tables().len() + 1,
                self.env.scope_tables().drop_last() == old(self).env.scope_tables(),
            decreases rest@.len(),
        {
            let s = rest.remove(0);
            let ts = self.check_action_stmt(s)?;
            typed.push(ts);
        }
        self.env.exit_scope();
        self.in_action_context = false;
        Ok(TypedActionDef { name, params, return_type, directives, body: typed })
    }

    /// A data definition with its fields' types; a field without one has
    /// the type `Any`.
    fn check_data_def(&self, d: crate::ast::decl::DataDef) -> (r: crate::tast::decl::TypedDataDef)
        ensures
            r.name == d.name,
            r.type_params == d.type_params,
            match d.kind {
                crate::ast::decl::DataKind::Product(fs) => r.fields@.len() == fs@.len() && forall|i: int|
                    0 <= i < fs@.len() ==> (#[trigger] r.fields@[i]).name == fs@[i].name && r.fields@[i].typ@
                        == match fs@[i].type_annotation {
                        Some(t) => t@,
                        None => named_type("Any"@),
                    },
                crate::ast::decl::DataKind::Refinement(_) => r.fields@.len() == 0,
            },
    {
        let crate::ast::decl::DataDef { name, type_params, kind } = d;
        let mut fields: Vec<crate::tast::decl::TypedFieldDef> = Vec::new();
        match kind {
            crate::ast::decl::DataKind::Product(fs) => {
                let ghost f0 = fs@;
                let mut rest = fs;
                while rest.len() > 0
                    invariant
                        fields@.len() + rest@.len() == f0.len(),
                        rest@ == f0.subrange(fields@.len() as int, f0.len() as int),
                        forall|i: int| 0 <= i < fields@.len() ==> (#[trigger] fields@[i]).name == f0[i].name
                            && fields@[i].typ@ == match f0[i].type_annotation {
                            Some(t) => t@,
                            None => named_type("Any"@),
                        },
                    decreases rest@.len(),
                {
                    let ghost r0 = rest@;
                    let f = rest.remove(0);
                    assert(rest@ =~= f0.subrange(fields@.len() + 1int, f0.len() as int));
                    let typ = match f.type_annotation {
                        Some(t) => t,
                        None => Type::named("Any"),
                    };
                    fields.push(crate::tast::decl::TypedFieldDef { name: f.name, typ });
                }
            },
            crate::ast::decl::DataKind::Refinement(_) => {},
        }
        crate::tast::decl::TypedDataDef { name, type_params, fields }
    }

    /// An enum definition; a variant with a fixed value or a predicate is
    /// kept without payload.
    fn check_enum_def(&self, e: crate::ast::decl::EnumDef) -> (r: crate::tast::decl::TypedEnumDef)
        ensures
            r.name == e.name,
            r.type_params == e.type_params,
            r.variants@.len() == e.variants@.len(),
            forall|i: int| 0 <= i < e.variants@.len() ==> (#[trigger] r.variants@[i]).name == e.variants@[i].name
                && r.variants@[i].payload == match e.variants@[i].payload {
                crate::ast::decl::VariantPayload::Typed(t) => crate::tast::decl::TypedVariantPayload::Typed(t),
                _ => crate::tast::decl::TypedVariantPayload::Unit,
            },
    {
        let crate::ast::decl::EnumDef { name, type_params, variants } = e;
        let ghost v0 = variants@;
        let mut rest = variants;
        let mut typed: Vec<crate::tast::decl::TypedVariantDef> = Vec::new();
        while rest.len() > 0
            invariant
                typed@.len() + rest@.len() == v0.len(),
                rest@ == v0.subrange(typed@.len() as int, v0.len() as int),
                forall|i: int| 0 <= i < typed@.len() ==> (#[trigger] typed@[i]).name == v0[i].name
                    && typed@[i].payload == match v0[i].payload {
                    crate::ast::decl::VariantPayload::Typed(t) => crate::tast::decl::TypedVariantPayload::Typed(t),
                    _ => crate::tast::decl::TypedVariantPayload::Unit,
                },
            decreases rest@.len(),
        {
            let v = rest.remove(0);
            assert(rest@ =~= v0.subrange(typed@.len() + 1int, v0.len() as int));
            let payload = match v.payload {
                crate::ast::decl::VariantPayload::Typed(t) => crate::tast::decl::TypedVariantPayload::Typed(t),
                _ => crate::tast::decl::TypedVariantPayload::Unit,
            };
            typed.push(crate::tast::decl::TypedVariantDef { name: v.name, payload });
        }
        crate::tast::decl::TypedEnumDef { name, type_params, variants: typed }
    }

    /// An interface definition with its default members checked.
    fn check_interface_def(&mut self, i: crate::ast::decl::InterfaceDef) -> (r: Result<crate::tast::decl::TypedInterfaceDef, TypeError>)
        requires
            old(self).inv(),
        ensures
            final(self).inv(),
            same_registries(final(self).env, old(self).env),
            r is Ok ==> final(self).env.scope_tables() == old(self).env.scope_tables(),
            final(self).in_action_context == old(self).in_action_context || !final(self).in_action_context,
            r matches Ok(t) ==> (t.name == i.name && t.extends == i.extends && t.members@.len()
                == i.members@.len()),
            (forall|k: int| 0 <= k < i.members@.len() ==> (#[trigger] i.members@[k]) is Signature) ==> r is Ok,
            (forall|k: int| 0 <= k < i.members@.len() ==> (#[trigger] i.members@[k]) is Signature)
                ==> final(self).constraints == old(self).constraints,
    {
        let crate::ast::decl::InterfaceDef { name, extends, members } = i;
        let mut rest = members;
        let n = rest.len();
        let mut typed: Vec<crate::tast::decl::TypedInterfaceMember> = Vec::new();
        while rest.len() > 0
            invariant
                typed@.len() + rest@.len() == n,
                n == i.members@.len(),
                rest@ == i.members@.subrange(typed@.len() as int, n as int),
                (forall|k: int| 0 <= k < typed@.len() ==> (#[trigger] i.members@[k]) is Signature)
                    ==> self.constraints == old(self).constraints,
                self.inv(),
                same_registries(self.env, old(self).env),
                self.env.scope_tables() == old(self).env.scope_tables(),
                self.in_action_context == old(self).in_action_context || !self.in_action_context,
            decreases rest@.len(),
        {
            let m = rest.remove(0);
            assert(m == i.members@[typed@.len() as int]);
            assert(rest@ =~= i.members@.subrange(typed@.len() + 1int, n as int));
            match m {
                crate::ast::decl::InterfaceMember::Signature(mname, msig) => {
                    typed.push(crate::tast::decl::TypedInterfaceMember::Signature(mname, msig));
                },
                crate::ast::decl::InterfaceMember::FunctionDef(f) => {
                    let tf = self.check_function_def(f)?;
                    typed.push(crate::tast::decl::TypedInterfaceMember::FunctionDef(tf));
                },
            }
        }
        Ok(crate::tast::decl::TypedInterfaceDef { name, extends, members: typed })
    }

    /// An implementation: the orphan rule, then the interface's contract,
    /// then each function.
    fn check_implements(&mut self, impl_def: crate::ast::decl::ImplDef, span: Span) -> (r: Result<crate::tast::decl::TypedImplDef, TypeError>)
        requires
            old(self).inv(),
        ensures
            final(self).inv(),
            same_registries(final(self).env, old(self).env),
            r is Ok ==> final(self).env.scope_tables() == old(self).env.scope_tables(),
            final(self).in_action_context == old(self).in_action_context || !final(self).in_action_context,
            !crate::type_checker::interfaces::orphan_ok(old(self).env, impl_def.for_type.name@, impl_def.interface@)
                ==> (r matches Err(e) && e@ == (TypeErrorView::OrphanRuleViolation {
                ty_name: impl_def.for_type.name@,
                interface_name: impl_def.interface@,
                span,
            })),
            crate::type_checker::interfaces::orphan_ok(old(self).env, impl_def.for_type.name@, impl_def.interface@)
                ==> (crate::type_checker::interfaces::validate_spec(
                old(self).env,
                impl_def,
                span,
                old(self).next_var as nat,
            ).0 matches Err(v) ==> (r matches Err(e) && e@ == v)),
            r is Ok ==> crate::type_checker::interfaces::validate_spec(
                old(self).env,
                impl_def,
                span,
                old(self).next_var as nat,
            ).0 is Ok,
            r matches Ok(t) ==> (t.interface == impl_def.interface && t.for_type@ == named_type(
                impl_def.for_type.name@,
            ) && t.implementations@.len() == impl_def.implementations@.len()),
    {
        crate::type_checker::interfaces::check_orphan_rule(&self.env, &impl_def, span)?;
        proof {
            assert(interfaces_ok(self.env.interfaces));
            assert(self.env.interfaces.spec_get(impl_def.interface@) == entry_get(self.env.interfaces.entries(), impl_def.interface@));
            assert(interface_names_ok(self.env, impl_def.interface@));
        }
        let ghost next0 = self.next_var as nat;
        crate::type_checker::interfaces::validate_interface_impl(&self.env, &impl_def, span, &mut self.next_var)?;
        assert(crate::type_checker::interfaces::validate_spec(old(self).env, impl_def, span, next0).0 is Ok);
        let crate::ast::decl::ImplDef { for_type, interface, implementations } = impl_def;
        let mut rest = implementations;
        let n = rest.len();
        let mut typed: Vec<TypedFunctionDef> = Vec::new();
        while rest.len() > 0
            invariant
                typed@.len() + rest@.len() == n,
                crate::type_checker::interfaces::orphan_ok(old(self).env, impl_def.for_type.name@, impl_def.interface@),
                crate::type_checker::interfaces::validate_spec(
                    old(self).env,
                    impl_def,
                    span,
                    old(self).next_var as nat,
                ).0 is Ok,
                self.inv(),
                same_registries(self.env, old(self).env),
                self.env.scope_tables() == old(self).env.scope_tables(),
                self.in_action_context == old(self).in_action_context || !self.in_action_context,
            decreases rest@.len(),
        {
            let f = rest.remove(0);
            let tf = self.check_function_def(f)?;
            typed.push(tf);
        }
        Ok(crate::tast::decl::TypedImplDef {
            for_type: Type::named(for_type.name.as_str()),
            interface,
            implementations: typed,
        })
    }
}

// =============================================================================
// MODULE
// =============================================================================

/// Whether `env` records the type named `ty` as implementing `iface`.
pub open spec fn implements_iface(env: Environment, ty: Seq<char>, iface: Seq<char>) -> bool {
    env.type_implements.spec_get(ty) matches Some(s) && crate::type_checker::environment::set_has(s.entries(), iface)
}

/// Whether the names in `r` include the parents of every interface of
/// `ifaces` among them.
pub open spec fn closed_under_extends(r: Set<Seq<char>>, ifaces: Entries<InterfaceInfo>) -> bool {
    forall|j: Seq<char>, x: int|
        #![trigger r.contains(j), entry_get(ifaces, j)->Some_0.extends@[x]]
        r.contains(j) && entry_get(ifaces, j) is Some && 0 <= x < entry_get(ifaces, j)->Some_0.extends@.len()
            ==> r.contains(entry_get(ifaces, j)->Some_0.extends@[x]@)
}

/// What registering `imp` does: the type implements the interface and, in
/// `ifaces`, every interface reached from it through `extends`; and each
/// function of `imp` has its signature among the dispatch entries of its
/// name.
pub open spec fn implementation_registered(env: Environment, imp: crate::ast::decl::ImplDef, ifaces: Entries<InterfaceInfo>) -> bool {
    &&& exists|r: Set<Seq<char>>| {
        &&& #[trigger] r.contains(imp.interface@)
        &&& closed_under_extends(r, ifaces)
        &&& forall|j: Seq<char>| r.contains(j) ==> implements_iface(env, imp.for_type.name@, j)
    }
    &&& forall|k: int| 0 <= k < imp.implementations@.len() ==> has_signature(
        env,
        (#[trigger] imp.implementations@[k]).name@,
        imp.implementations@[k].sig@,
    )
}

/// For an implementation declaration, whether `env` records its type as
/// implementing the interface and has each of its functions' signatures
/// among the dispatch entries of its name; true of other declarations.
pub open spec fn decl_implementation_kept(env: Environment, d: TopLevel) -> bool {
    d matches TopLevel::Implements(imp) ==> {
        &&& implements_iface(env, imp.for_type.name@, imp.interface@)
        &&& forall|k: int| 0 <= k < imp.implementations@.len() ==> has_signature(
            env,
            (#[trigger] imp.implementations@[k]).name@,
            imp.implementations@[k].sig@,
        )
    }
}

/// Whether `sig` is among the dispatch entries of `name` in `env`.
pub open spec fn has_signature(env: Environment, name: Seq<char>, sig: FunctionSigView) -> bool {
    env.dispatch_table.spec_get(name) matches Some(v) && exists|i: int| 0 <= i < v@.len() && (#[trigger] v@[i])@ == sig
}

/// A name set with one more name keeps the names it had and has the new one.
proof fn lemma_set_has_insert(s: Entries<()>, k: Seq<char>, j: Seq<char>)
    requires
        crate::type_checker::environment::set_has(s, j) || j == k,
    ensures
        crate::type_checker::environment::set_has(entry_insert(s, k, ()), j),
{
    let t = entry_insert(s, k, ());
    crate::type_checker::table::lemma_key_index(s, k);
    crate::type_checker::table::lemma_key_index(s, j);
    crate::type_checker::table::lemma_key_index(t, j);
    if j == k {
        if key_index(s, k) >= 0 {
            assert(t[key_index(s, k)].0 == k);
        } else {
            assert(t[t.len() - 1].0 == k);
        }
    } else {
        let i = key_index(s, j);
        assert(t[i].0 == j);
    }
}

/// The key under which an action is registered: its name ending with `!`.
pub open spec fn action_key(n: Seq<char>) -> Seq<char> {
    if n.len() > 0 && n.last() == '!' {
        n
    } else {
        n + "!"@
    }
}

/// The type a data or enum definition registers: its name, applied to its
/// type parameters as variables when it has any.
pub open spec fn defined_type(name: Seq<char>, params: Seq<Ident>) -> TypeView {
    if params.len() == 0 {
        named_type(name)
    } else {
        TypeView::Named { name: (None, name), params: params.map_values(|p: Ident| TypeView::Var(p@)) }
    }
}

proof fn lemma_members_insert(ms: Entries<FunctionSig>, k: Seq<char>, v: FunctionSig)
    requires
        members_ok(ms),
        sig_names_ok(v@),
    ensures
        members_ok(crate::type_checker::table::entry_insert(ms, k, v)),
{
    let t = crate::type_checker::table::entry_insert(ms, k, v);
    crate::type_checker::table::lemma_key_index(ms, k);
    assert forall|i: int| 0 <= i < t.len() implies sig_names_ok((#[trigger] t[i]).1@) by {
        if i < ms.len() && t[i] == ms[i] {
        } else {
            assert(t[i].1 == v);
        }
    }
}

/// Whether every type variable of `t` has a name of at least one character.
fn type_names_nonempty(t: &Type) -> (r: bool)
    ensures
        r == type_names_ok(t@),
{
    let vars = crate::type_checker::inference::free_type_vars(t);
    let mut i: usize = 0;
    while i < vars.len()
        invariant
            i <= vars@.len(),
            crate::type_checker::inference::names_of(vars@) == crate::type_checker::inference::ftv(t@),
            forall|j: int| 0 <= j < i ==> (#[trigger] vars@[j])@.len() > 0,
        decreases vars@.len() - i,
    {
        if vars[i].unicode_len() == 0 {
            assert(crate::type_checker::inference::names_of(vars@).contains(vars@[i as int]@));
            return false;
        }
        i = i + 1;
    }
    assert forall|v: Seq<char>| #[trigger] crate::type_checker::inference::ftv(t@).contains(v) implies v.len() > 0 by {
        assert(crate::type_checker::inference::names_of(vars@).contains(v));
        let j = choose|j: int| 0 <= j < vars@.len() && (#[trigger] vars@[j])@ == v;
    }
    true
}

/// Whether a signature's types name their type variables.
fn sig_names_nonempty(sig: &FunctionSig) -> (r: bool)
    ensures
        r == sig_names_ok(sig@),
{
    proof {
        crate::ast::types::lemma_types_view_len(sig.params@);
    }
    let mut i: usize = 0;
    while i < sig.params.len()
        invariant
            i <= sig.params@.len(),
            types_view(sig.params@).len() == sig.params@.len(),
            forall|j: int| 0 <= j < i ==> type_names_ok(#[trigger] sig@.params[j]),
        decreases sig.params@.len() - i,
    {
        proof {
            crate::ast::types::lemma_types_view_index(sig.params@, i as int);
        }
        if !type_names_nonempty(&sig.params[i]) {
            assert(!type_names_ok(sig@.params[i as int]));
            return false;
        }
        i = i + 1;
    }
    type_names_nonempty(&sig.return_type)
}

/// Whether a declaration meets what the checker needs of it (`decl_ok`).
pub fn decl_names_ok(d: &TopLevel) -> (r: bool)
    ensures
        r == decl_ok(*d),
{
    match d {
        TopLevel::Function(f) => sig_names_nonempty(&f.sig),
        TopLevel::Action(a) => match &a.return_type {
            Some(t) => type_names_nonempty(t),
            None => true,
        },
        TopLevel::Interface(i) => {
            let mut k: usize = 0;
            while k < i.members.len()
                invariant
                    k <= i.members@.len(),
                    *d == TopLevel::Interface(*i),
                    forall|j: int| 0 <= j < k ==> member_ok(#[trigger] i.members@[j]),
                decreases i.members@.len() - k,
            {
                let ok = match &i.members[k] {
                    crate::ast::decl::InterfaceMember::Signature(_, sig) => sig_names_nonempty(sig),
                    crate::ast::decl::InterfaceMember::FunctionDef(f) => sig_names_nonempty(&f.sig),
                };
                if !ok {
                    assert(!member_ok(i.members@[k as int]));
                    assert(d->Interface_0.members@[k as int] == i.members@[k as int]);
                    assert(!decl_ok(*d));
                    return false;
                }
                k = k + 1;
            }
            true
        },
        TopLevel::Implements(imp) => {
            let mut k: usize = 0;
            while k < imp.implementations.len()
                invariant
                    k <= imp.implementations@.len(),
                    *d == TopLevel::Implements(*imp),
                    forall|j: int| 0 <= j < k ==> sig_names_ok(#[trigger] imp.implementations@[j].sig@),
                decreases imp.implementations@.len() - k,
            {
                if !sig_names_nonempty(&imp.implementations[k].sig) {
                    assert(!sig_names_ok(imp.implementations@[k as int].sig@));
                    assert(d->Implements_0.implementations@[k as int] == imp.implementations@[k as int]);
                    assert(!decl_ok(*d));
                    return false;
                }
                k = k + 1;
            }
            true
        },
        _ => true,
    }
}

impl Checker {
    /// Adds `sig` to the signatures of `name`.
    fn register(&mut self, name: &str, sig: FunctionSig)
        requires
            old(self).inv(),
            sig_names_ok(sig@),
        ensures
            final(self).inv(),
            final(self).env.dispatch_table.spec_get(name@) matches Some(v) && v@.last()@ == sig@,
            final(self).env.dispatch_table.spec_get(name@) matches Some(v) && v@ == match old(
                self,
            ).env.dispatch_table.spec_get(name@) {
                Some(w) => w@.push(sig),
                None => seq![sig],
            },
            forall|k: Seq<char>|
                k != name@ ==> #[trigger] final(self).env.dispatch_table.spec_get(k) == old(
                    self,
                ).env.dispatch_table.spec_get(k),
            forall|n: Seq<char>, sg: FunctionSigView|
                #[trigger] has_signature(old(self).env, n, sg) ==> has_signature(final(self).env, n, sg),
            final(self).env.scope_tables() == old(self).env.scope_tables(),
            final(self).env.defined_types == old(self).env.defined_types,
            final(self).env.interfaces == old(self).env.interfaces,
            final(self).env.local_types == old(self).env.local_types,
            final(self).env.local_interfaces == old(self).env.local_interfaces,
            final(self).env.type_implements == old(self).env.type_implements,
            final(self).in_action_context == old(self).in_action_context,
            final(self).next_var == old(self).next_var,
            final(self).constraints == old(self).constraints,
    {
        let ghost sv = sig@;
        let ghost before = self.env;
        self.env.register_dispatch(name, sig);
        assert forall|n: Seq<char>, sg: FunctionSigView|
            #[trigger] has_signature(before, n, sg) implies has_signature(self.env, n, sg) by {
            if n == name@ {
                let w = before.dispatch_table.spec_get(n)->Some_0@;
                let v = self.env.dispatch_table.spec_get(n)->Some_0@;
                let i0 = choose|i: int| 0 <= i < w.len() && (#[trigger] w[i])@ == sg;
                assert(v[i0] == w[i0]);
            }
        }
        assert forall|k: Seq<char>| #[trigger] self.env.dispatch_table.spec_get(k) is Some implies sigs_ok(
            self.env.dispatch_table.spec_get(k)->Some_0@,
        ) by {
            if k == name@ {
                let v = self.env.dispatch_table.spec_get(k)->Some_0;
                match old(self).env.dispatch_table.spec_get(k) {
                    Some(w) => {
                        assert(sigs_ok(w@));
                        assert forall|i: int| 0 <= i < v@.len() implies sig_names_ok(#[trigger] v@[i]@) by {
                            if i < w@.len() {
                                assert(v@[i] == w@[i]);
                            }
                        }
                    },
                    None => {},
                }
            } else {
                assert(self.env.dispatch_table.spec_get(k) == old(self).env.dispatch_table.spec_get(k));
            }
        }
    }

    /// Registers the signatures and types a declaration introduces, without
    /// checking any body.
    fn register_global_signature(&mut self, decl: &TopLevel)
        requires
            old(self).inv(),
            decl_ok(*decl),
        ensures
            final(self).inv(),
            final(self).env.scope_tables() == old(self).env.scope_tables(),
            final(self).in_action_context == old(self).in_action_context,
            final(self).constraints == old(self).constraints,
            decl matches TopLevel::Function(f) ==> (final(self).env.dispatch_table.spec_get(f.name@) matches Some(v)
                && v@.last()@ == f.sig@),
            decl matches TopLevel::Function(f) ==> forall|n: Seq<char>|
                #[trigger] dispatch_sigs(final(self).env.dispatch_table, n) == if n == f.name@ {
                    dispatch_sigs(old(self).env.dispatch_table, n).push(f.sig@)
                } else {
                    dispatch_sigs(old(self).env.dispatch_table, n)
                },
            decl matches TopLevel::Implements(d) ==> forall|n: Seq<char>|
                #[trigger] dispatch_sigs(final(self).env.dispatch_table, n) == dispatch_sigs(
                    old(self).env.dispatch_table,
                    n,
                ) + sigs_named(d.implementations@, n),
            decl matches TopLevel::Action(a) ==> final(self).env.dispatch_table.spec_get(action_key(a.name@)) is Some,
            decl matches TopLevel::Data(d) ==> (final(self).env.defined_types.spec_get(d.name@) matches Some(t)
                && t@ == defined_type(d.name@, d.type_params@) && crate::type_checker::environment::set_has(
                final(self).env.local_types.entries(),
                d.name@,
            )),
            decl matches TopLevel::Enum(e) ==> (final(self).env.defined_types.spec_get(e.name@) matches Some(t)
                && t@ == defined_type(e.name@, e.type_params@) && crate::type_checker::environment::set_has(
                final(self).env.local_types.entries(),
                e.name@,
            )),
            decl matches TopLevel::Interface(i) ==> (final(self).env.interfaces.spec_get(i.name@) is Some
                && crate::type_checker::environment::set_has(final(self).env.local_interfaces.entries(), i.name@)),
            (decl is Import || decl is Export || decl is Alias || decl is Statement) ==> final(self).env
                == old(self).env,
            decl matches TopLevel::Implements(imp) ==> implementation_registered(
                final(self).env,
                *imp,
                old(self).env.interfaces.entries(),
            ),
            forall|t: Seq<char>, x: Seq<char>|
                #[trigger] implements_iface(old(self).env, t, x) ==> implements_iface(final(self).env, t, x),
            forall|n: Seq<char>, sg: FunctionSigView|
                #[trigger] has_signature(old(self).env, n, sg) ==> has_signature(final(self).env, n, sg),
    {
        match decl {
            TopLevel::Function(f) => {
                let ghost before = self.env.dispatch_table;
                let c = f.sig.copy();
                self.register(f.name.0.as_str(), c);
                proof {
                    lemma_register_appends(before, self.env.dispatch_table, f.name@, c);
                }
            },
            TopLevel::Action(a) => {
                let ret = match &a.return_type {
                    Some(t) => copy_type(t),
                    None => Type::named("Unit"),
                };
                proof {
                    reveal_strlit("Unit");
                    match &a.return_type {
                        Some(t) => {},
                        None => {
                            assert forall|v: Seq<char>| #[trigger] crate::type_checker::inference::ftv(ret@).contains(v) implies v.len() > 0 by {
                                if crate::type_checker::inference::generic_name("Unit"@) {
                                    assert(v == "Unit"@);
                                } else {
                                    assert(crate::type_checker::inference::ftvs(Seq::<TypeView>::empty()) =~= Set::<Seq<char>>::empty());
                                }
                            }
                        },
                    }
                    assert(type_names_ok(ret@));
                }
                let mut params: Vec<Type> = Vec::new();
                let mut k: usize = 0;
                while k < a.params.len()
                    invariant
                        k <= a.params@.len(),
                        forall|j: int| 0 <= j < params@.len() ==> type_names_ok(#[trigger] params@[j]@),
                        params@.len() == k,
                        type_names_ok(ret@),
                        self.env == old(self).env,
                        self.in_action_context == old(self).in_action_context,
                        self.constraints == old(self).constraints,
                    decreases a.params@.len() - k,
                {
                    let t = self.fresh();
                    proof {
                        reveal_strlit("t_");
                        assert(type_names_ok(t@));
                    }
                    params.push(t);
                    k = k + 1;
                }
                let sig = FunctionSig::new(params, ret);
                proof {
                    crate::ast::types::lemma_types_view_len(sig.params@);
                    assert forall|j: int| 0 <= j < sig@.params.len() implies type_names_ok(#[trigger] sig@.params[j]) by {
                        crate::ast::types::lemma_types_view_index(sig.params@, j);
                        assert(type_names_ok(sig.params@[j]@));
                    }
                    reveal_strlit("Unit");
                }
                let mut key: Vec<char> = crate::text::chars_of(a.name.0.as_str());
                if !a.name.is_action() {
                    push_str(&mut key, "!");
                }
                let key_str = string_from_chars(&key);
                assert(key_str@ =~= action_key(a.name@));
                self.register(key_str.as_str(), sig);
            },
            TopLevel::Data(d) => {
                let typ = self.defined_type_of(&d.name, &d.type_params);
                self.register_local_type(&d.name, typ);
            },
            TopLevel::Enum(e) => {
                let typ = self.defined_type_of(&e.name, &e.type_params);
                self.register_local_type(&e.name, typ);
            },
            TopLevel::Interface(i) => {
                let mut extends: Vec<String> = Vec::new();
                let mut k: usize = 0;
                while k < i.extends.len()
                    decreases i.extends@.len() - k,
                {
                    extends.push(i.extends[k].0.clone());
                    k = k + 1;
                }
                let mut members: Table<FunctionSig> = Table::new();
                let mut k: usize = 0;
                while k < i.members.len()
                    invariant
                        self.constraints == old(self).constraints,
                        k <= i.members@.len(),
                        forall|j: int| 0 <= j < i.members@.len() ==> member_ok(#[trigger] i.members@[j]),
                        members_ok(members.entries()),
                        self.inv(),
                        self.env.scope_tables() == old(self).env.scope_tables(),
                        self.env.interfaces == old(self).env.interfaces,
                        self.env.local_interfaces == old(self).env.local_interfaces,
                        self.in_action_context == old(self).in_action_context,
                        self.env.type_implements == old(self).env.type_implements,
                        forall|t: Seq<char>, x: Seq<char>|
                            #[trigger] implements_iface(old(self).env, t, x) ==> implements_iface(self.env, t, x),
                        forall|n: Seq<char>, sg: FunctionSigView|
                            #[trigger] has_signature(old(self).env, n, sg) ==> has_signature(self.env, n, sg),
                    decreases i.members@.len() - k,
                {
                    assert(member_ok(i.members@[k as int]));
                    let (mname, msig) = match &i.members[k] {
                        crate::ast::decl::InterfaceMember::Signature(n, s) => (n, s),
                        crate::ast::decl::InterfaceMember::FunctionDef(f) => (&f.name, &f.sig),
                    };
                    let c = msig.copy();
                    proof {
                        lemma_members_insert(members.entries(), mname@, c);
                    }
                    members.insert(mname.0.clone(), c);
                    self.register(mname.0.as_str(), msig.copy());
                    k = k + 1;
                }
                let info = crate::type_checker::environment::InterfaceInfo {
                    name: i.name.0.clone(),
                    extends,
                    members,
                };
                let _ = self.env.interfaces.len();
                let _ = self.env.local_interfaces.len();
                let ghost before = self.env.interfaces.entries();
                let ghost before_t = self.env.interfaces;
                let ghost info_v = info;
                assert(info.name@ == i.name@);
                assert(members_ok(info.members.entries()));
                proof {
                    crate::type_checker::table::lemma_insert_distinct(before, info.name@, info);
                }
                self.env.register_interface(info, true);
                proof {
                    crate::type_checker::table::lemma_insert_distinct(
                        old(self).env.local_interfaces.entries(),
                        i.name@,
                        (),
                    );
                }
                assert forall|k: Seq<char>| #[trigger] self.env.interfaces.spec_get(k) is Some implies members_ok(
                    self.env.interfaces.spec_get(k)->Some_0.members.entries(),
                ) by {
                    if k != i.name@ {
                        assert(self.env.interfaces.spec_get(k) == entry_get(before, k));
                        assert(before_t.spec_get(k) == entry_get(before, k));
                        assert(interfaces_ok(before_t));
                    } else {
                        assert(self.env.interfaces.spec_get(k) == Some(info_v));
                    }
                }
            },
            TopLevel::Implements(impl_def) => {
                let ty = impl_def.for_type.name.as_str();
                let ghost ifaces = self.env.interfaces.entries();
                let ghost tyv = impl_def.for_type.name@;
                let ghost env0 = self.env;
                self.env.register_implementation(ty, impl_def.interface.0.as_str());
                proof {
                    assert forall|t: Seq<char>, x: Seq<char>|
                        #[trigger] implements_iface(env0, t, x) implies implements_iface(self.env, t, x) by {
                        if t == impl_def.for_type.name@ {
                            lemma_set_has_insert(
                                match env0.type_implements.spec_get(t) {
                                    Some(st) => st.entries(),
                                    None => Seq::empty(),
                                },
                                impl_def.interface@,
                                x,
                            );
                        }
                    }
                    lemma_set_has_insert(
                        match old(self).env.type_implements.spec_get(tyv) {
                            Some(st) => st.entries(),
                            None => Seq::empty(),
                        },
                        impl_def.interface@,
                        impl_def.interface@,
                    );
                }
                let n = self.env.interfaces.len();
                let mut seen: Vec<bool> = Vec::new();
                let mut k: usize = 0;
                while k < n
                    invariant
                        k <= n,
                        seen@.len() == k,
                        forall|p: int| 0 <= p < k ==> !seen@[p],
                    decreases n - k,
                {
                    seen.push(false);
                    k = k + 1;
                }
                let mut queue: Vec<String> = Vec::new();
                queue.push(impl_def.interface.0.clone());
                let ghost mut reg: Set<Seq<char>> = set![impl_def.interface@];
                proof {
                    assert(queue@.map_values(|q: String| q@)[0] == impl_def.interface@);
                    assert(ty@ == tyv);
                }
                while queue.len() > 0
                    invariant
                        self.constraints == old(self).constraints,
                        seen@.len() == n,
                        n == self.env.interfaces.entries().len(),
                        ifaces == self.env.interfaces.entries(),
                        self.inv(),
                        self.env.scope_tables() == old(self).env.scope_tables(),
                        self.env.dispatch_table == old(self).env.dispatch_table,
                        self.env.interfaces == old(self).env.interfaces,
                        self.in_action_context == old(self).in_action_context,
                        tyv == impl_def.for_type.name@,
                        ty@ == tyv,
                        forall|t: Seq<char>, x: Seq<char>|
                            #[trigger] implements_iface(old(self).env, t, x) ==> implements_iface(self.env, t, x),
                        forall|n: Seq<char>, sg: FunctionSigView|
                            #[trigger] has_signature(old(self).env, n, sg) ==> has_signature(self.env, n, sg),
                        reg.contains(impl_def.interface@),
                        forall|x: Seq<char>| #[trigger] reg.contains(x) ==> implements_iface(self.env, tyv, x),
                        forall|x: Seq<char>|
                            #[trigger] reg.contains(x) && key_index(ifaces, x) >= 0 ==> seen@[key_index(ifaces, x)]
                                || queue@.map_values(|q: String| q@).contains(x),
                        forall|p: int, x: int|
                            #![trigger seen@[p], ifaces[p].1.extends@[x]]
                            0 <= p < n && seen@[p] && 0 <= x < ifaces[p].1.extends@.len() ==> reg.contains(
                                ifaces[p].1.extends@[x]@,
                            ) || queue@.map_values(|q: String| q@).contains(ifaces[p].1.extends@[x]@),
                    decreases crate::type_checker::dag::count_unmarked(seen@, n as int), queue@.len(),
                {
                    let ghost q0 = queue@.map_values(|q: String| q@);
                    let cur = queue.pop().unwrap();
                    let ghost q1 = queue@.map_values(|q: String| q@);
                    proof {
                        assert(q0 =~= q1.push(cur@));
                    }
                    let ghost before = self.env;
                    let ghost seen0 = seen@;
                    let ghost reg0 = reg;
                    assert(forall|x: Seq<char>| reg.contains(x) ==> implements_iface(before, tyv, x));
                    self.env.register_implementation(ty, cur.as_str());
                    proof {
                        assert forall|t: Seq<char>, x: Seq<char>|
                            #[trigger] implements_iface(before, t, x) implies implements_iface(self.env, t, x) by {
                            if t == tyv {
                                lemma_set_has_insert(
                                    match before.type_implements.spec_get(tyv) {
                                        Some(st) => st.entries(),
                                        None => Seq::empty(),
                                    },
                                    cur@,
                                    x,
                                );
                            }
                        }
                        assert forall|x: Seq<char>| reg.contains(x) || x == cur@ implies implements_iface(self.env, tyv, x) by {
                            if reg.contains(x) {
                                assert(implements_iface(before, tyv, x));
                            }
                            lemma_set_has_insert(
                                match before.type_implements.spec_get(tyv) {
                                    Some(st) => st.entries(),
                                    None => Seq::empty(),
                                },
                                cur@,
                                x,
                            );
                        }
                        reg = reg.insert(cur@);
                    }
                    match self.env.interfaces.position(cur.as_str()) {
                        Some(p) => {
                            proof {
                                crate::type_checker::table::lemma_key_index(self.env.interfaces.entries(), cur@);
                            }
                            if !seen[p] {
                                proof {
                                    crate::type_checker::dag::lemma_count_unmarked_update(seen@, p as int, n as int);
                                }
                                seen.set(p, true);
                                let (_, info) = self.env.interfaces.entry(p);
                                let mut j: usize = 0;
                                while j < info.extends.len()
                                    invariant
                                        j <= info.extends@.len(),
                                        queue@.map_values(|q: String| q@) =~= q1 + info.extends@.take(j as int).map_values(|q: String| q@),
                                    decreases info.extends@.len() - j,
                                {
                                    let ghost qa = queue@;
                                    queue.push(info.extends[j].clone());
                                    proof {
                                        assert(info.extends@.take(j + 1) =~= info.extends@.take(j as int).push(info.extends@[j as int]));
                                        assert(queue@ =~= qa.push(info.extends@[j as int]));
                                        assert(queue@.map_values(|q: String| q@) =~= qa.map_values(|q: String| q@).push(info.extends@[j as int]@));
                                        assert(info.extends@.take(j + 1).map_values(|q: String| q@) =~= info.extends@.take(j as int).map_values(|q: String| q@).push(info.extends@[j as int]@));
                                    }
                                    j = j + 1;
                                }
                                proof {
                                    assert(info.extends@.take(j as int) =~= info.extends@);
                                    let qv = queue@.map_values(|q: String| q@);
                                    assert forall|x: int| 0 <= x < info.extends@.len() implies qv.contains(info.extends@[x]@) by {
                                        assert(qv[q1.len() + x] == info.extends@[x]@);
                                    }
                                    assert forall|y: Seq<char>| q1.contains(y) implies qv.contains(y) by {
                                        let m = choose|m: int| 0 <= m < q1.len() && q1[m] == y;
                                        assert(qv[m] == y);
                                    }
                                }
                            }
                        },
                        None => {},
                    }
                    proof {
                        let qv = queue@.map_values(|q: String| q@);
                        assert(forall|y: Seq<char>| q1.contains(y) ==> qv.contains(y));
                        crate::type_checker::table::lemma_key_index(ifaces, cur@);
                        assert(seen@.len() == n);
                        if key_index(ifaces, cur@) >= 0 {
                            assert(seen@[key_index(ifaces, cur@)]);
                        }
                        assert forall|x: Seq<char>|
                            #[trigger] reg.contains(x) && key_index(ifaces, x) >= 0 implies seen@[key_index(ifaces, x)]
                                || qv.contains(x) by {
                            crate::type_checker::table::lemma_key_index(ifaces, x);
                            if x != cur@ {
                                assert(reg0.contains(x));
                                if !seen0[key_index(ifaces, x)] {
                                    assert(q0.contains(x));
                                    let m = choose|m: int| 0 <= m < q0.len() && q0[m] == x;
                                    assert(m < q1.len());
                                    assert(q1[m] == x);
                                    assert(q1.contains(x));
                                }
                            }
                        }
                        assert forall|pp: int, x: int|
                            #![trigger seen@[pp], ifaces[pp].1.extends@[x]]
                            0 <= pp < n && seen@[pp] && 0 <= x < ifaces[pp].1.extends@.len() implies reg.contains(
                                ifaces[pp].1.extends@[x]@,
                            ) || qv.contains(ifaces[pp].1.extends@[x]@) by {
                            let y = ifaces[pp].1.extends@[x]@;
                            if seen0[pp] {
                                if !reg0.contains(y) && y != cur@ {
                                    assert(q0.contains(y));
                                    let m = choose|m: int| 0 <= m < q0.len() && q0[m] == y;
                                    assert(m < q1.len());
                                    assert(q1[m] == y);
                                    assert(q1.contains(y));
                                }
                            }
                        }
                    }
                }
                proof {
                    assert forall|x: Seq<char>, e: int|
                        #![trigger reg.contains(x), entry_get(ifaces, x)->Some_0.extends@[e]]
                        reg.contains(x) && entry_get(ifaces, x) is Some && 0 <= e < entry_get(ifaces, x)->Some_0.extends@.len()
                        implies reg.contains(entry_get(ifaces, x)->Some_0.extends@[e]@) by {
                        crate::type_checker::table::lemma_key_index(ifaces, x);
                        let p = key_index(ifaces, x);
                        assert(queue@.map_values(|q: String| q@).len() == 0);
                        assert(!queue@.map_values(|q: String| q@).contains(x));
                        assert(seen@[p]);
                        assert(ifaces[p].1 == entry_get(ifaces, x)->Some_0);
                        assert(ifaces[p].1.extends@[e] == entry_get(ifaces, x)->Some_0.extends@[e]);
                    }
                    assert(closed_under_extends(reg, ifaces));
                }
                proof {
                    assert(impl_def.implementations@.take(0) =~= Seq::<FunctionDef>::empty());
                    assert forall|nm: Seq<char>| #[trigger] dispatch_sigs(self.env.dispatch_table, nm) == dispatch_sigs(
                        old(self).env.dispatch_table,
                        nm,
                    ) + sigs_named(impl_def.implementations@.take(0), nm) by {
                        assert(dispatch_sigs(old(self).env.dispatch_table, nm) + Seq::<FunctionSigView>::empty()
                            =~= dispatch_sigs(old(self).env.dispatch_table, nm));
                    }
                }
                let mut k: usize = 0;
                while k < impl_def.implementations.len()
                    invariant
                        k <= impl_def.implementations@.len(),
                        forall|nm: Seq<char>| #[trigger] dispatch_sigs(self.env.dispatch_table, nm) == dispatch_sigs(
                            old(self).env.dispatch_table,
                            nm,
                        ) + sigs_named(impl_def.implementations@.take(k as int), nm),
                        decl_ok(*decl),
                        *decl == TopLevel::Implements(*impl_def),
                        self.constraints == old(self).constraints,
                        self.inv(),
                        self.env.scope_tables() == old(self).env.scope_tables(),
                        self.in_action_context == old(self).in_action_context,
                        self.env.interfaces == old(self).env.interfaces,
                        forall|x: Seq<char>| #[trigger] reg.contains(x) ==> implements_iface(self.env, tyv, x),
                        forall|t: Seq<char>, x: Seq<char>|
                            #[trigger] implements_iface(old(self).env, t, x) ==> implements_iface(self.env, t, x),
                        forall|n: Seq<char>, sg: FunctionSigView|
                            #[trigger] has_signature(old(self).env, n, sg) ==> has_signature(self.env, n, sg),

                        forall|m: int| 0 <= m < k ==> has_signature(
                            self.env,
                            (#[trigger] impl_def.implementations@[m]).name@,
                            impl_def.implementations@[m].sig@,
                        ),
                    decreases impl_def.implementations@.len() - k,
                {
                    let f = &impl_def.implementations[k];
                    assert(decl->Implements_0.implementations@[k as int] == impl_def.implementations@[k as int]);
                    assert(sig_names_ok(impl_def.implementations@[k as int].sig@));
                    let ghost before = self.env;
                    let c = f.sig.copy();
                    self.register(f.name.0.as_str(), c);
                    proof {
                        lemma_register_appends(before.dispatch_table, self.env.dispatch_table, f.name@, c);
                        let tk = impl_def.implementations@.take(k + 1);
                        assert(tk.drop_last() =~= impl_def.implementations@.take(k as int));
                        assert(tk.last() == *f);
                        assert forall|nm: Seq<char>| #[trigger] dispatch_sigs(self.env.dispatch_table, nm) == dispatch_sigs(
                            old(self).env.dispatch_table,
                            nm,
                        ) + sigs_named(tk, nm) by {
                            let a = dispatch_sigs(old(self).env.dispatch_table, nm);
                            let x = sigs_named(impl_def.implementations@.take(k as int), nm);
                            if nm == f.name@ {
                                assert((a + x).push(c@) =~= a + x.push(f.sig@));
                            }
                        }
                        assert forall|m: int| 0 <= m <= k implies has_signature(
                            self.env,
                            (#[trigger] impl_def.implementations@[m]).name@,
                            impl_def.implementations@[m].sig@,
                        ) by {
                            let nm = impl_def.implementations@[m].name@;
                            let v = self.env.dispatch_table.spec_get(nm)->Some_0@;
                            if m == k {
                                assert(v.last()@ == impl_def.implementations@[m].sig@);
                                assert(v[v.len() - 1]@ == impl_def.implementations@[m].sig@);
                            } else if nm == f.name@ {
                                let w = before.dispatch_table.spec_get(nm)->Some_0@;
                                let i0 = choose|i: int| 0 <= i < w.len() && (#[trigger] w[i])@ == impl_def.implementations@[m].sig@;
                                assert(v[i0] == w[i0]);
                            } else {
                                assert(self.env.dispatch_table.spec_get(nm) == before.dispatch_table.spec_get(nm));
                            }
                        }
                    }
                    k = k + 1;
                }
                proof {
                    assert(implementation_registered(self.env, *impl_def, ifaces));
                    assert(impl_def.implementations@.take(k as int) =~= impl_def.implementations@);
                }
            },
            _ => {},
        }
    }

    /// The type registered for a data or enum definition.
    fn defined_type_of(&self, name: &Ident, params: &Vec<Ident>) -> (r: Type)
        ensures
            r@ == defined_type(name@, params@),
    {
        if params.len() == 0 {
            Type::named(name.0.as_str())
        } else {
            let mut ts: Vec<Type> = Vec::new();
            let mut k: usize = 0;
            while k < params.len()
                invariant
                    k <= params@.len(),
                    types_view(ts@) == params@.take(k as int).map_values(|p: Ident| TypeView::Var(p@)),
                decreases params@.len() - k,
            {
                let t = Type::var(params[k].0.as_str());
                proof {
                    crate::ast::types::lemma_types_view_push(ts@, t);
                    assert(params@.take(k + 1).map_values(|p: Ident| TypeView::Var(p@)) =~= params@.take(
                        k as int,
                    ).map_values(|p: Ident| TypeView::Var(p@)).push(TypeView::Var(params@[k as int]@)));
                }
                ts.push(t);
                k = k + 1;
            }
            assert(params@.take(params@.len() as int) =~= params@);
            Type::generic(name.0.as_str(), ts)
        }
    }

    /// Registers the type `name` as defined in the module.
    fn register_local_type(&mut self, name: &Ident, typ: Type)
        requires
            old(self).inv(),
        ensures
            final(self).inv(),
            final(self).env.defined_types.spec_get(name@) == Some(typ),
            crate::type_checker::environment::set_has(final(self).env.local_types.entries(), name@),
            final(self).env.scope_tables() == old(self).env.scope_tables(),
            final(self).env.dispatch_table == old(self).env.dispatch_table,
            final(self).env.interfaces == old(self).env.interfaces,
            final(self).env.local_interfaces == old(self).env.local_interfaces,
            final(self).env.type_implements == old(self).env.type_implements,
            final(self).in_action_context == old(self).in_action_context,
            final(self).constraints == old(self).constraints,
    {
        let _ = self.env.defined_types.len();
        let _ = self.env.local_types.len();
        proof {
            crate::type_checker::table::lemma_insert_distinct(self.env.defined_types.entries(), name@, typ);
            crate::type_checker::table::lemma_insert_distinct(self.env.local_types.entries(), name@, ());
        }
        self.env.register_type(name.0.as_str(), typ, true);
    }
}

impl Checker {
    /// Checks a top-level declaration. A statement is checked as part of the
    /// entry point, in an action context.
    fn check_top_level(&mut self, sd: Spanned<TopLevel>) -> (r: Result<TypedDecl, TypeError>)
        requires
            old(self).inv(),
            decl_ok(sd.node),
        ensures
            final(self).inv(),
            same_registries(final(self).env, old(self).env),
            r is Ok ==> final(self).env.scope_tables().len() == old(self).env.scope_tables().len(),
            r matches Ok(t) ==> (t.span == sd.span && kind_matches(sd.node, t.kind)),
            r matches Ok(t) ==> decl_typed(sd.node, t.kind, old(self).env),
            always_accepted(sd.node) ==> r is Ok,
            old(self).constraints@.len() == 0 && accepted_in(sd.node, old(self).env) ==> (r is Ok
                && final(self).constraints@.len() == 0),
    {
        let span = sd.span;
        let kind = match sd.node {
            TopLevel::Function(f) => DeclKind::Function(self.check_function_def(f)?),
            TopLevel::Action(a) => DeclKind::Action(self.check_action_def(a)?),
            TopLevel::Data(d) => DeclKind::Data(self.check_data_def(d)),
            TopLevel::Enum(e) => DeclKind::Enum(self.check_enum_def(e)),
            TopLevel::Interface(i) => DeclKind::Interface(self.check_interface_def(i)?),
            TopLevel::Implements(impl_def) => DeclKind::Implements(self.check_implements(impl_def, span)?),
            TopLevel::Alias(a) => DeclKind::Alias(crate::tast::decl::TypedAliasDef { name: a.name, target: a.target }),
            TopLevel::Statement(s) => {
                self.in_action_context = true;
                let typed = self.check_action_stmt(Spanned { node: s, span })?;
                self.in_action_context = false;
                DeclKind::Statement(typed)
            },
            TopLevel::Import(i) => DeclKind::Import(i),
            TopLevel::Export(e) => {
                let mut rest = e.items;
                let n = rest.len();
                let mut names: Vec<String> = Vec::new();
                let ghost items = rest@;
                while rest.len() > 0
                    invariant
                        names@.len() + rest@.len() == n,
                        n == items.len(),
                        rest@ == items.subrange(names@.len() as int, n as int),
                        forall|j: int| 0 <= j < names@.len() ==> (#[trigger] names@[j])@ == items[j]@,
                    decreases rest@.len(),
                {
                    let id = rest.remove(0);
                    assert(id == items[names@.len() as int]);
                    names.push(id.0);
                    assert(rest@ =~= items.subrange(names@.len() as int, n as int));
                }
                DeclKind::Export(names)
            },
        };
        Ok(TypedDecl { kind, span })
    }

    /// Checks a whole module whose declarations are already sorted by their
    /// dependencies: first every signature and type is registered, so that
    /// declarations can refer to each other, then each declaration is
    /// checked in order.
    pub fn check_module(&mut self, sorted_decls: Vec<Spanned<TopLevel>>) -> (r: Result<Vec<TypedDecl>, TypeError>)
        requires
            old(self).inv(),
            forall|i: int| 0 <= i < sorted_decls@.len() ==> decl_ok(#[trigger] sorted_decls@[i].node),
        ensures
            final(self).inv(),
            r matches Ok(ds) ==> (ds@.len() == sorted_decls@.len() && forall|i: int|
                0 <= i < ds@.len() ==> (#[trigger] ds@[i]).span == sorted_decls@[i].span && kind_matches(
                    sorted_decls@[i].node,
                    ds@[i].kind,
                )),
            (forall|i: int| 0 <= i < sorted_decls@.len() ==> always_accepted(#[trigger] sorted_decls@[i].node))
                ==> r is Ok,
            r is Err ==> exists|i: int|
                0 <= i < sorted_decls@.len() && !always_accepted(#[trigger] sorted_decls@[i].node),
            old(self).constraints@.len() == 0 && (forall|i: int|
                0 <= i < sorted_decls@.len() ==> accepted_in(#[trigger] sorted_decls@[i].node, final(self).env))
                ==> r is Ok,
            old(self).constraints@.len() == 0 && r is Err ==> exists|i: int|
                0 <= i < sorted_decls@.len() && !accepted_in(#[trigger] sorted_decls@[i].node, final(self).env),
            forall|i: int|
                0 <= i < sorted_decls@.len() ==> decl_implementation_kept(final(self).env, #[trigger] sorted_decls@[i].node),
            r matches Ok(ds) ==> forall|i: int|
                0 <= i < ds@.len() ==> decl_typed(sorted_decls@[i].node, (#[trigger] ds@[i]).kind, final(self).env),
    {
        let mut k: usize = 0;
        while k < sorted_decls.len()
            invariant
                k <= sorted_decls@.len(),
                self.inv(),
                self.constraints == old(self).constraints,
                forall|i: int| 0 <= i < sorted_decls@.len() ==> decl_ok(#[trigger] sorted_decls@[i].node),
                forall|i: int| 0 <= i < k ==> decl_implementation_kept(self.env, #[trigger] sorted_decls@[i].node),
            decreases sorted_decls@.len() - k,
        {
            let ghost before = self.env;
            self.register_global_signature(&sorted_decls[k].node);
            proof {
                assert forall|i: int| 0 <= i <= k implies decl_implementation_kept(self.env, #[trigger] sorted_decls@[i].node) by {
                    if i < k {
                        assert(decl_implementation_kept(before, sorted_decls@[i].node));
                        match sorted_decls@[i].node {
                            TopLevel::Implements(imp) => {
                                assert(implements_iface(before, imp.for_type.name@, imp.interface@));
                                assert forall|m: int| 0 <= m < imp.implementations@.len() implies has_signature(
                                    self.env,
                                    (#[trigger] imp.implementations@[m]).name@,
                                    imp.implementations@[m].sig@,
                                ) by {
                                    assert(has_signature(before, imp.implementations@[m].name@, imp.implementations@[m].sig@));
                                }
                            },
                            _ => {},
                        }
                    } else {
                        match sorted_decls@[i].node {
                            TopLevel::Implements(imp) => {
                                assert(implementation_registered(self.env, imp, before.interfaces.entries()));
                                let r = choose|r: Set<Seq<char>>| {
                                    &&& #[trigger] r.contains(imp.interface@)
                                    &&& closed_under_extends(r, before.interfaces.entries())
                                    &&& forall|j: Seq<char>| r.contains(j) ==> implements_iface(self.env, imp.for_type.name@, j)
                                };
                                assert(implements_iface(self.env, imp.for_type.name@, imp.interface@));
                            },
                            _ => {},
                        }
                    }
                }
            }
            k = k + 1;
        }
        let ghost reg_env = self.env;
        let ghost orig = sorted_decls@;
        let mut rest = sorted_decls;
        let mut typed: Vec<TypedDecl> = Vec::new();
        while rest.len() > 0
            invariant
                typed@.len() + rest@.len() == orig.len(),
                rest@ == orig.subrange(typed@.len() as int, orig.len() as int),
                forall|i: int| 0 <= i < orig.len() ==> decl_ok(#[trigger] orig[i].node),
                forall|i: int|
                    0 <= i < typed@.len() ==> (#[trigger] typed@[i]).span == orig[i].span && kind_matches(
                        orig[i].node,
                        typed@[i].kind,
                    ),
                self.inv(),
                orig == sorted_decls@,
                same_registries(self.env, reg_env),
                forall|i: int| 0 <= i < orig.len() ==> decl_implementation_kept(reg_env, #[trigger] orig[i].node),
                forall|i: int| 0 <= i < typed@.len() ==> decl_typed(orig[i].node, (#[trigger] typed@[i]).kind, reg_env),
                (old(self).constraints@.len() == 0 && forall|j: int|
                    0 <= j < typed@.len() ==> accepted_in(#[trigger] orig[j].node, reg_env)) ==> self.constraints@.len() == 0,
            decreases rest@.len(),
        {
            let d = rest.remove(0);
            let ghost k = typed@.len() as int;
            assert(rest@ =~= orig.subrange(typed@.len() + 1int, orig.len() as int));
            assert(d == orig[k]);
            let ghost env_k = self.env;
            let t = match self.check_top_level(d) {
                Ok(t) => t,
                Err(e) => {
                    assert(!always_accepted(orig[k].node));
                    proof {
                        if old(self).constraints@.len() == 0 {
                            if forall|j: int| 0 <= j < k ==> accepted_in(#[trigger] orig[j].node, reg_env) {
                                assert(!accepted_in(orig[k].node, env_k));
                                lemma_accepted_tables(orig[k].node, env_k, self.env);
                                assert(!accepted_in(sorted_decls@[k].node, self.env));
                            } else {
                                let j = choose|j: int| 0 <= j < k && !accepted_in(#[trigger] orig[j].node, reg_env);
                                lemma_accepted_tables(orig[j].node, reg_env, self.env);
                                assert(!accepted_in(sorted_decls@[j].node, self.env));
                            }
                        }
                    }
                    return Err(e);
                },
            };
            proof {
                if old(self).constraints@.len() == 0 && forall|j: int|
                    0 <= j <= k ==> accepted_in(#[trigger] orig[j].node, reg_env) {
                    assert(accepted_in(orig[k].node, reg_env));
                    lemma_accepted_tables(orig[k].node, reg_env, env_k);
                }
            }
            proof {
                match orig[k].node {
                    TopLevel::Function(f) => {
                        let tf = t.kind->Function_0;
                        lemma_function_typed_tables(tf, f, env_k, reg_env);
                    },
                    _ => {},
                }
            }
            typed.push(t);
        }
        proof {
            assert forall|i: int| 0 <= i < typed@.len() implies decl_typed(
                orig[i].node,
                (#[trigger] typed@[i]).kind,
                self.env,
            ) by {
                match orig[i].node {
                    TopLevel::Function(f) => {
                        assert(decl_typed(orig[i].node, typed@[i].kind, reg_env));
                        lemma_function_typed_tables(typed@[i].kind->Function_0, f, reg_env, self.env);
                    },
                    _ => {},
                }
            }
        }
        Ok(typed)
    }
}

} // verus!
