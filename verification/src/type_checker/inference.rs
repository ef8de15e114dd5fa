//! Type inference: substitutions, unification and instantiation.
//!
//! A type variable is either a `Var`, or a simple named type without
//! parameters whose name is generic: upper-case letters, digits and `_`,
//! such as `A`, `T` or `NUM`.

use vstd::prelude::*;
use crate::ast::id::Ident;
use crate::ast::types::{
    Type, TypeView, types_view, copy_type, lemma_types_view_len, lemma_types_view_index,
    lemma_types_view_push,
};
use crate::lexer::token::Span;
use crate::type_checker::environment::{Environment, satisfies, same_interface_tables, lemma_satisfies_tables};
use crate::type_checker::error::TypeError;
use crate::ast::types::type_eq;
use crate::type_checker::table::{
    Table, Entries, entry_get, entry_insert, key_index, lemma_key_index, distinct_keys,
};
use crate::text::{decimal, push_decimal, push_str, string_from_chars, str_eq};

verus! {

broadcast use vstd::string::group_string_axioms;

// =============================================================================
// GENERIC NAMES AND FREE VARIABLES
// =============================================================================

pub open spec fn is_generic_char(c: char) -> bool {
    ('A' <= c && c <= 'Z') || ('0' <= c && c <= '9') || c == '_'
}

/// Whether a name follows the convention of generic names, a single
/// upper-case letter or an all-capitals name: at least one character, and
/// upper-case letters, digits and `_` only.
pub open spec fn generic_name(s: Seq<char>) -> bool {
    &&& s.len() > 0
    &&& forall|i: int| 0 <= i < s.len() ==> is_generic_char(#[trigger] s[i])
}

/// Whether `name` follows the convention of generic names.
pub fn is_generic_name(name: &str) -> (r: bool)
    ensures
        r == generic_name(name@),
        name@.len() == 0 ==> !r,
{
    let n = name.unicode_len();
    if n == 0 {
        return false;
    }
    let mut i: usize = 0;
    while i < n
        invariant
            n == name@.len(),
            i <= n,
            forall|k: int| 0 <= k < i ==> is_generic_char(#[trigger] name@[k]),
        decreases n - i,
    {
        let c = name.get_char(i);
        if !(('A' <= c && c <= 'Z') || ('0' <= c && c <= '9') || c == '_') {
            return false;
        }
        i = i + 1;
    }
    true
}

/// The name of a type that stands for a variable as a generic named type:
/// simple, without parameters, with a generic name.
pub open spec fn generic_named(t: TypeView) -> Option<Seq<char>> {
    match t {
        TypeView::Named { name, params } => if params.len() == 0 && name.0 is None && generic_name(
            name.1,
        ) {
            Some(name.1)
        } else {
            None
        },
        _ => None,
    }
}

/// The free type variables of a type.
pub open spec fn ftv(t: TypeView) -> Set<Seq<char>>
    decreases t,
{
    match t {
        TypeView::Var(v) => set![v],
        TypeView::Named { name, params } => if params.len() == 0 && name.0 is None && generic_name(
            name.1,
        ) {
            set![name.1]
        } else {
            ftvs(params)
        },
        TypeView::Tuple(ts) => ftvs(ts),
        TypeView::Function { params, ret } => ftvs(params).union(ftv(*ret)),
        TypeView::Refined { base, .. } => ftv(*base),
    }
}

/// The free type variables of a sequence of types.
pub open spec fn ftvs(ts: Seq<TypeView>) -> Set<Seq<char>>
    decreases ts,
{
    if ts.len() == 0 {
        Set::empty()
    } else {
        ftvs(ts.drop_last()).union(ftv(ts.last()))
    }
}

/// The names held by a vector of strings.
pub open spec fn names_of(v: Seq<String>) -> Set<Seq<char>> {
    Set::new(|x: Seq<char>| exists|i: int| 0 <= i < v.len() && (#[trigger] v[i])@ == x)
}

/// Whether no name occurs twice in a vector of strings.
pub open spec fn names_distinct(v: Seq<String>) -> bool {
    forall|i: int, j: int| 0 <= i < j < v.len() ==> v[i]@ != v[j]@
}

/// The names of a vector of strings, in order.
pub open spec fn names_seq(v: Seq<String>) -> Seq<Seq<char>> {
    v.map_values(|x: String| x@)
}

/// `acc` with `x` added at the end, unless it is there already.
pub open spec fn add_name(acc: Seq<Seq<char>>, x: Seq<char>) -> Seq<Seq<char>> {
    if acc.contains(x) {
        acc
    } else {
        acc.push(x)
    }
}

/// `acc` followed by the free variables of `t` that it lacks, in the order
/// they occur in `t`.
pub open spec fn ftv_acc(t: TypeView, acc: Seq<Seq<char>>) -> Seq<Seq<char>>
    decreases t,
{
    match t {
        TypeView::Var(v) => add_name(acc, v),
        TypeView::Named { name, params } => if params.len() == 0 && name.0 is None && generic_name(
            name.1,
        ) {
            add_name(acc, name.1)
        } else {
            ftvs_acc(params, acc)
        },
        TypeView::Tuple(ts) => ftvs_acc(ts, acc),
        TypeView::Function { params, ret } => ftv_acc(*ret, ftvs_acc(params, acc)),
        TypeView::Refined { base, .. } => ftv_acc(*base, acc),
    }
}

pub open spec fn ftvs_acc(ts: Seq<TypeView>, acc: Seq<Seq<char>>) -> Seq<Seq<char>>
    decreases ts,
{
    if ts.len() == 0 {
        acc
    } else {
        ftv_acc(ts.last(), ftvs_acc(ts.drop_last(), acc))
    }
}

/// The free variables of `t`, each once, in the order they occur.
pub open spec fn ftv_seq(t: TypeView) -> Seq<Seq<char>> {
    ftv_acc(t, Seq::empty())
}

fn push_unique(v: &mut Vec<String>, x: &str)
    requires
        names_distinct(old(v)@),
    ensures
        names_distinct(final(v)@),
        names_of(final(v)@) == names_of(old(v)@).insert(x@),
        names_seq(final(v)@) == add_name(names_seq(old(v)@), x@),
{
    let mut i: usize = 0;
    while i < v.len()
        invariant
            i <= v.len(),
            v@ == old(v)@,
            names_distinct(v@),
            forall|k: int| 0 <= k < i ==> v@[k]@ != x@,
        decreases v.len() - i,
    {
        if str_eq(v[i].as_str(), x) {
            assert(names_of(v@) =~= names_of(v@).insert(x@)) by {
                assert(v@[i as int]@ == x@);
            }
            assert(names_seq(v@)[i as int] == x@);
            return;
        }
        i = i + 1;
    }
    let ghost before = v@;
    assert(!names_seq(before).contains(x@)) by {
        if names_seq(before).contains(x@) {
            let k = choose|k: int| 0 <= k < names_seq(before).len() && names_seq(before)[k] == x@;
            assert(before[k]@ == x@);
        }
    }
    v.push(String::from_str(x));
    assert(names_seq(v@) =~= names_seq(before).push(x@));
    assert(names_of(v@) =~= names_of(before).insert(x@)) by {
        assert forall|y: Seq<char>| names_of(before).insert(x@).contains(y) implies names_of(v@).contains(y) by {
            if y == x@ {
                assert(v@[before.len() as int]@ == y);
            } else {
                let k = choose|k: int| 0 <= k < before.len() && (#[trigger] before[k])@ == y;
                assert(v@[k]@ == y);
            }
        }
    }
}

fn collect_ftv(t: &Type, acc: &mut Vec<String>)
    requires
        names_distinct(old(acc)@),
    ensures
        names_distinct(final(acc)@),
        names_of(final(acc)@) == names_of(old(acc)@).union(ftv(t@)),
        names_seq(final(acc)@) == ftv_acc(t@, names_seq(old(acc)@)),
    decreases t,
{
    match t {
        Type::Var(id) => {
            push_unique(acc, id.0.as_str());
            assert(names_of(acc@) =~= names_of(old(acc)@).union(ftv(t@)));
        },
        Type::Named { name, params } => {
            proof {
                lemma_types_view_len(params@);
            }
            if params.len() == 0 && name.module.is_none() && is_generic_name(name.name.as_str()) {
                push_unique(acc, name.name.as_str());
                assert(names_of(acc@) =~= names_of(old(acc)@).union(ftv(t@)));
            } else {
                collect_ftvs(params, acc);
            }
        },
        Type::Tuple(ts) => collect_ftvs(ts, acc),
        Type::Function { params, return_type } => {
            collect_ftvs(params, acc);
            collect_ftv(return_type, acc);
            assert(names_of(acc@) =~= names_of(old(acc)@).union(ftv(t@)));
        },
        Type::Refined { base, .. } => collect_ftv(base, acc),
    }
}

fn collect_ftvs(ts: &Vec<Type>, acc: &mut Vec<String>)
    requires
        names_distinct(old(acc)@),
    ensures
        names_distinct(final(acc)@),
        names_of(final(acc)@) == names_of(old(acc)@).union(ftvs(types_view(ts@))),
        names_seq(final(acc)@) == ftvs_acc(types_view(ts@), names_seq(old(acc)@)),
    decreases ts,
{
    let ghost start = names_of(acc@);
    let ghost start_seq = names_seq(acc@);
    let mut i: usize = 0;
    assert(ts@.take(0) =~= Seq::<Type>::empty());
    assert(types_view(ts@.take(0)) =~= Seq::<TypeView>::empty());
    assert(names_of(acc@) =~= start.union(ftvs(types_view(ts@.take(0)))));
    while i < ts.len()
        invariant
            i <= ts.len(),
            names_distinct(acc@),
            names_of(acc@) == start.union(ftvs(types_view(ts@.take(i as int)))),
            names_seq(acc@) == ftvs_acc(types_view(ts@.take(i as int)), start_seq),
        decreases ts.len() - i,
    {
        proof {
            assert(ts@.take(i + 1) =~= ts@.take(i as int).push(ts@[i as int]));
            lemma_types_view_push(ts@.take(i as int), ts@[i as int]);
            assert(types_view(ts@.take(i + 1)).drop_last() =~= types_view(ts@.take(i as int)));
        }
        collect_ftv(&ts[i], acc);
        assert(names_of(acc@) =~= start.union(ftvs(types_view(ts@.take(i + 1)))));
        i = i + 1;
    }
    assert(ts@.take(ts@.len() as int) =~= ts@);
}

/// The free type variables of `t`, each once.
pub fn free_type_vars(t: &Type) -> (r: Vec<String>)
    ensures
        names_distinct(r@),
        names_of(r@) == ftv(t@),
        names_seq(r@) == ftv_seq(t@),
{
    let mut acc: Vec<String> = Vec::new();
    assert(names_of(acc@) =~= Set::<Seq<char>>::empty());
    assert(names_seq(acc@) =~= Seq::<Seq<char>>::empty());
    collect_ftv(t, &mut acc);
    assert(names_of(acc@) =~= ftv(t@));
    acc
}

// =============================================================================
// SUBSTITUTIONS
// =============================================================================

/// A substitution: the types that type variables stand for.
pub type Substitution = Table<Type>;

/// The entries of a substitution with the types by their views.
pub open spec fn subst_view(s: Entries<Type>) -> Entries<TypeView> {
    s.map_values(|e: (Seq<char>, Type)| (e.0, e.1@))
}

pub proof fn lemma_subst_view_key_index(s: Entries<Type>, k: Seq<char>)
    ensures
        key_index(subst_view(s), k) == key_index(s, k),
        subst_view(s).len() == s.len(),
    decreases s.len(),
{
    if s.len() > 0 {
        assert(subst_view(s.drop_last()) =~= subst_view(s).drop_last());
        lemma_subst_view_key_index(s.drop_last(), k);
    }
}

pub proof fn lemma_subst_view_get(s: Entries<Type>, k: Seq<char>)
    ensures
        entry_get(subst_view(s), k) == match entry_get(s, k) {
            Some(t) => Some(t@),
            None => None,
        },
{
    lemma_subst_view_key_index(s, k);
    lemma_key_index(s, k);
}

/// `t` with the variables that `s` binds replaced, following chains of
/// bindings at most `fuel` steps deep.
pub open spec fn apply_fuel(t: TypeView, s: Entries<TypeView>, fuel: nat) -> TypeView
    decreases fuel, t,
{
    match t {
        TypeView::Var(v) => match entry_get(s, v) {
            Some(u) => if fuel == 0 {
                t
            } else {
                apply_fuel(u, s, (fuel - 1) as nat)
            },
            None => t,
        },
        TypeView::Named { name, params } => if params.len() == 0 && name.0 is None {
            if generic_name(name.1) && entry_get(s, name.1) is Some {
                if fuel == 0 {
                    t
                } else {
                    apply_fuel(entry_get(s, name.1)->Some_0, s, (fuel - 1) as nat)
                }
            } else {
                t
            }
        } else {
            TypeView::Named { name, params: apply_all(params, s, fuel) }
        },
        TypeView::Tuple(ts) => TypeView::Tuple(apply_all(ts, s, fuel)),
        TypeView::Function { params, ret } => TypeView::Function {
            params: apply_all(params, s, fuel),
            ret: Box::new(apply_fuel(*ret, s, fuel)),
        },
        TypeView::Refined { base, predicate } => TypeView::Refined {
            base: Box::new(apply_fuel(*base, s, fuel)),
            predicate,
        },
    }
}

/// Each type of `ts` with `apply_fuel`.
pub open spec fn apply_all(ts: Seq<TypeView>, s: Entries<TypeView>, fuel: nat) -> Seq<TypeView>
    decreases fuel, ts,
{
    if ts.len() == 0 {
        Seq::empty()
    } else {
        apply_all(ts.drop_last(), s, fuel).push(apply_fuel(ts.last(), s, fuel))
    }
}

/// `t` under the substitution `s`: each bound variable is replaced by its
/// type, to which `s` is applied in turn. Chains of bindings are followed
/// as many steps as `s` has entries, which is as far as a chain without a
/// cycle goes.
pub open spec fn subst_apply(t: TypeView, s: Entries<TypeView>) -> TypeView {
    apply_fuel(t, s, s.len())
}

pub proof fn lemma_apply_all_len(ts: Seq<TypeView>, s: Entries<TypeView>, fuel: nat)
    ensures
        apply_all(ts, s, fuel).len() == ts.len(),
    decreases ts.len(),
{
    if ts.len() > 0 {
        lemma_apply_all_len(ts.drop_last(), s, fuel);
    }
}

fn apply_with(t: &Type, s: &Substitution, fuel: usize) -> (r: Type)
    ensures
        r@ == apply_fuel(t@, subst_view(s.entries()), fuel as nat),
    decreases fuel, t,
{
    match t {
        Type::Var(id) => {
            proof {
                lemma_subst_view_get(s.entries(), id@);
            }
            match s.get(id.0.as_str()) {
                Some(u) => if fuel == 0 {
                    copy_type(t)
                } else {
                    apply_with(u, s, fuel - 1)
                },
                None => copy_type(t),
            }
        },
        Type::Named { name, params } => {
            proof {
                lemma_types_view_len(params@);
            }
            if params.len() == 0 && name.module.is_none() {
                proof {
                    lemma_subst_view_get(s.entries(), name.name@);
                }
                if is_generic_name(name.name.as_str()) {
                    match s.get(name.name.as_str()) {
                        Some(u) => {
                            return if fuel == 0 {
                                copy_type(t)
                            } else {
                                apply_with(u, s, fuel - 1)
                            };
                        },
                        None => {},
                    }
                }
                copy_type(t)
            } else {
                Type::Named { name: name.copy(), params: apply_types_with(params, s, fuel) }
            }
        },
        Type::Tuple(ts) => Type::Tuple(apply_types_with(ts, s, fuel)),
        Type::Function { params, return_type } => Type::Function {
            params: apply_types_with(params, s, fuel),
            return_type: Box::new(apply_with(return_type, s, fuel)),
        },
        Type::Refined { base, predicate } => Type::Refined {
            base: Box::new(apply_with(base, s, fuel)),
            predicate: predicate.copy(),
        },
    }
}

fn apply_types_with(ts: &Vec<Type>, s: &Substitution, fuel: usize) -> (r: Vec<Type>)
    ensures
        types_view(r@) == apply_all(types_view(ts@), subst_view(s.entries()), fuel as nat),
    decreases fuel, ts,
{
    let ghost sv = subst_view(s.entries());
    let mut r: Vec<Type> = Vec::new();
    let mut i: usize = 0;
    assert(ts@.take(0) =~= Seq::<Type>::empty());
    assert(types_view(r@) =~= apply_all(types_view(ts@.take(0)), sv, fuel as nat));
    while i < ts.len()
        invariant
            i <= ts.len(),
            sv == subst_view(s.entries()),
            types_view(r@) == apply_all(types_view(ts@.take(i as int)), sv, fuel as nat),
        decreases ts.len() - i,
    {
        proof {
            assert(ts@.take(i + 1) =~= ts@.take(i as int).push(ts@[i as int]));
            lemma_types_view_push(ts@.take(i as int), ts@[i as int]);
            assert(types_view(ts@.take(i + 1)).drop_last() =~= types_view(ts@.take(i as int)));
        }
        let u = apply_with(&ts[i], s, fuel);
        proof {
            lemma_types_view_push(r@, u);
        }
        r.push(u);
        i = i + 1;
    }
    assert(ts@.take(ts@.len() as int) =~= ts@);
    r
}

/// `t` under the substitution `s`.
pub fn apply(t: &Type, s: &Substitution) -> (r: Type)
    ensures
        r@ == subst_apply(t@, subst_view(s.entries())),
{
    let n = s.len();
    proof {
        lemma_subst_view_key_index(s.entries(), Seq::empty());
    }
    apply_with(t, s, n)
}

/// Types that substitutions can be applied to.
pub trait Substitutable: Sized {
    /// This value under the substitution `subst`.
    fn apply(&self, subst: &Substitution) -> Self;

    /// The free type variables of this value, each once.
    fn free_type_vars(&self) -> Vec<String>;
}

impl Substitutable for Type {
    fn apply(&self, subst: &Substitution) -> (r: Type)
        ensures
            r@ == subst_apply(self@, subst_view(subst.entries())),
    {
        apply(self, subst)
    }

    fn free_type_vars(&self) -> (r: Vec<String>)
        ensures
            names_distinct(r@),
            names_of(r@) == ftv(self@),
    {
        free_type_vars(self)
    }
}

pub proof fn lemma_subst_view_insert(e: Entries<Type>, k: Seq<char>, v: Type)
    ensures
        subst_view(entry_insert(e, k, v)) == entry_insert(subst_view(e), k, v@),
{
    lemma_subst_view_key_index(e, k);
    lemma_key_index(e, k);
    assert(subst_view(entry_insert(e, k, v)) =~= entry_insert(subst_view(e), k, v@));
}

/// A copy of a substitution.
pub fn copy_subst(s: &Substitution) -> (r: Substitution)
    ensures
        subst_view(r.entries()) == subst_view(s.entries()),
{
    let n = s.len();
    let mut r: Substitution = Table::new();
    let mut i: usize = 0;
    assert(subst_view(r.entries()) =~= subst_view(s.entries()).take(0));
    while i < n
        invariant
            i <= n,
            n == s.entries().len(),
            distinct_keys(s.entries()),
            subst_view(r.entries()) == subst_view(s.entries()).take(i as int),
        decreases n - i,
    {
        let (k, v) = s.entry(i);
        let c = copy_type(v);
        proof {
            lemma_subst_view_key_index(r.entries(), k@);
            lemma_subst_view_key_index(s.entries(), k@);
            lemma_key_index(subst_view(s.entries()).take(i as int), k@);
            assert forall|m: int| 0 <= m < i implies subst_view(s.entries()).take(i as int)[m].0 != k@ by {
                assert(s.entries()[m].0 != s.entries()[i as int].0);
            }
            lemma_key_index(subst_view(r.entries()), k@);
            lemma_subst_view_insert(r.entries(), k@, c);
        }
        r.insert(k.clone(), c);
        assert(subst_view(r.entries()) =~= subst_view(s.entries()).take(i + 1));
        i = i + 1;
    }
    assert(subst_view(s.entries()).take(n as int) =~= subst_view(s.entries()));
    r
}

/// The substitution that applies `s1`, then `s2`: the bindings of `s2`,
/// and each binding of `s1` with `s2` applied to its type.
pub open spec fn compose_view(s1: Entries<TypeView>, s2: Entries<TypeView>) -> Entries<TypeView>
    decreases s1.len(),
{
    if s1.len() == 0 {
        s2
    } else {
        entry_insert(compose_view(s1.drop_last(), s2), s1.last().0, subst_apply(s1.last().1, s2))
    }
}

/// The substitution that applies `s1`, then `s2`.
pub fn compose(s1: &Substitution, s2: &Substitution) -> (r: Substitution)
    ensures
        subst_view(r.entries()) == compose_view(subst_view(s1.entries()), subst_view(s2.entries())),
        crate::type_checker::unify_laws::idempotent(subst_view(s1.entries()))
            && crate::type_checker::unify_laws::idempotent(subst_view(s2.entries()))
            && crate::type_checker::unify_laws::keeps_clear(subst_view(s1.entries()), subst_view(s2.entries()))
            ==> forall|t: TypeView| #[trigger] subst_apply(t, subst_view(r.entries())) == subst_apply(
            subst_apply(t, subst_view(s1.entries())),
            subst_view(s2.entries()),
        ),
{
    let ghost v1 = subst_view(s1.entries());
    let ghost v2 = subst_view(s2.entries());
    let mut result = copy_subst(s2);
    let n = s1.len();
    proof {
        lemma_subst_view_key_index(s1.entries(), Seq::empty());
        assert(v1.take(0) =~= Seq::<(Seq<char>, TypeView)>::empty());
    }
    let mut i: usize = 0;
    while i < n
        invariant
            i <= n,
            n == v1.len(),
            v1 == subst_view(s1.entries()),
            v2 == subst_view(s2.entries()),
            subst_view(result.entries()) == compose_view(v1.take(i as int), v2),
        decreases n - i,
    {
        let (k, v) = s1.entry(i);
        let u = apply(v, s2);
        proof {
            assert(v1.take(i + 1).drop_last() =~= v1.take(i as int));
            lemma_subst_view_insert(result.entries(), k@, u);
        }
        result.insert(k.clone(), u);
        i = i + 1;
    }
    assert(v1.take(n as int) =~= v1);
    proof {
        if crate::type_checker::unify_laws::idempotent(v1) && crate::type_checker::unify_laws::idempotent(v2)
            && crate::type_checker::unify_laws::keeps_clear(v1, v2) {
            assert forall|t: TypeView| #[trigger] subst_apply(t, compose_view(v1, v2)) == subst_apply(subst_apply(t, v1), v2) by {
                crate::type_checker::unify_laws::law_compose_applies_in_turn(t, v1, v2);
            }
        }
    }
    result
}

// =============================================================================
// UNIFICATION
// =============================================================================

/// Why two types do not unify.
pub enum UnifyError {
    /// The first type was expected where the second was found.
    Mismatch(TypeView, TypeView),
    /// Binding the variable to the type would make an infinite type.
    Infinite(Seq<char>, TypeView),
}

/// Whether the error `e` at `span` is the one described by `u`.
pub open spec fn reports(e: TypeError, u: UnifyError, span: Span) -> bool {
    match u {
        UnifyError::Mismatch(a, b) => e matches TypeError::TypeMismatch { expected, found, span: sp }
            && expected@ == a && found@ == b && sp == span,
        UnifyError::Infinite(v, t) => e matches TypeError::InfiniteType { var, typ, span: sp } && var@
            == v && typ@ == t && sp == span,
    }
}

/// `a + b`, or the largest `usize` when that is larger.
pub open spec fn sat_add(a: nat, b: nat) -> nat {
    if a + b > usize::MAX {
        usize::MAX as nat
    } else {
        a + b
    }
}

/// The result of binding the variable `v` to `t`: the substitution of `t`
/// for `v` with the score of a binding, or an infinite type when `v` occurs
/// in `t`.
pub open spec fn bind_spec(v: Seq<char>, t: TypeView) -> Result<(Entries<TypeView>, nat), UnifyError> {
    if ftv(t).contains(v) {
        Err(UnifyError::Infinite(v, t))
    } else {
        Ok((seq![(v, t)], 100))
    }
}

/// How many levels deep unification may go: the largest `usize`, deeper
/// than any type held in memory nests.
pub open spec fn unify_depth() -> nat {
    usize::MAX as nat
}

/// The unification of `t1` and `t2` in `env`, at most `fuel` levels deep:
/// a substitution and a score (lower is a closer match), or why they do not
/// unify.
///
/// Equal types unify with nothing to substitute. A type variable, be it a
/// `Var` or a generic named type, is bound to the other type. Tuples,
/// function types and named types of the same name and number of parameters
/// unify part by part, each pair under the substitution of the pairs before.
/// A named type without parameters that names an interface unifies with a
/// type that satisfies that interface, scored by the depth of satisfaction.
pub open spec fn unify_fuel(
    t1: TypeView,
    t2: TypeView,
    env: Environment,
    fuel: nat,
) -> Result<(Entries<TypeView>, nat), UnifyError>
    decreases fuel, 0nat, 0nat,
{
    let mismatch = Err(UnifyError::Mismatch(t1, t2));
    if t1 == t2 {
        Ok((Seq::empty(), 0))
    } else if generic_named(t1) is Some {
        bind_spec(generic_named(t1)->Some_0, t2)
    } else if generic_named(t2) is Some {
        bind_spec(generic_named(t2)->Some_0, t1)
    } else if t1 is Var {
        bind_spec(t1->Var_0, t2)
    } else if t2 is Var {
        bind_spec(t2->Var_0, t1)
    } else {
        match (t1, t2) {
            (TypeView::Tuple(a), TypeView::Tuple(b)) => if a.len() == b.len() && fuel > 0 {
                unify_pairs(a, b, a.len(), env, (fuel - 1) as nat)
            } else {
                mismatch
            },
            (
                TypeView::Function { params: p1, ret: r1 },
                TypeView::Function { params: p2, ret: r2 },
            ) => if p1.len() == p2.len() && fuel > 0 {
                match unify_pairs(p1, p2, p1.len(), env, (fuel - 1) as nat) {
                    Err(e) => Err(e),
                    Ok((s, sc)) => match unify_fuel(
                        subst_apply(*r1, s),
                        subst_apply(*r2, s),
                        env,
                        (fuel - 1) as nat,
                    ) {
                        Err(e) => Err(e),
                        Ok((s2, sc2)) => Ok((compose_view(s, s2), sat_add(sc, sc2))),
                    },
                }
            } else {
                mismatch
            },
            (
                TypeView::Named { name: n1, params: p1 },
                TypeView::Named { name: n2, params: p2 },
            ) => if n1 == n2 && p1.len() == p2.len() {
                if fuel > 0 {
                    unify_pairs(p1, p2, p1.len(), env, (fuel - 1) as nat)
                } else {
                    mismatch
                }
            } else if p1.len() == 0 && entry_get(env.interfaces.entries(), n1.1) is Some {
                match satisfies(env, t2, n1.1) {
                    Some(d) => Ok((Seq::empty(), d)),
                    None => mismatch,
                }
            } else if p2.len() == 0 && entry_get(env.interfaces.entries(), n2.1) is Some {
                match satisfies(env, t1, n2.1) {
                    Some(d) => Ok((Seq::empty(), d)),
                    None => Err(UnifyError::Mismatch(t2, t1)),
                }
            } else {
                mismatch
            },
            _ => mismatch,
        }
    }
}

/// The unification of the first `n` pairs of `a` and `b`, left to right,
/// each pair under the substitution of the pairs before: the composed
/// substitution and the summed score.
pub open spec fn unify_pairs(
    a: Seq<TypeView>,
    b: Seq<TypeView>,
    n: nat,
    env: Environment,
    fuel: nat,
) -> Result<(Entries<TypeView>, nat), UnifyError>
    decreases fuel, 1nat, n,
{
    if n == 0 {
        Ok((Seq::empty(), 0))
    } else {
        match unify_pairs(a, b, (n - 1) as nat, env, fuel) {
            Err(e) => Err(e),
            Ok((s, sc)) => match unify_fuel(
                subst_apply(a[n - 1], s),
                subst_apply(b[n - 1], s),
                env,
                fuel,
            ) {
                Err(e) => Err(e),
                Ok((s1, sc1)) => Ok((compose_view(s, s1), sat_add(sc, sc1))),
            },
        }
    }
}

/// Unification reads nothing of an environment but its interface tables.
proof fn lemma_unify_fuel_tables(t1: TypeView, t2: TypeView, e1: Environment, e2: Environment, fuel: nat)
    requires
        same_interface_tables(e1, e2),
    ensures
        unify_fuel(t1, t2, e1, fuel) == unify_fuel(t1, t2, e2, fuel),
    decreases fuel, 0nat, 0nat,
{
    lemma_satisfies_tables(e1, e2, t1, t2->Named_name.1);
    lemma_satisfies_tables(e1, e2, t2, t1->Named_name.1);
    if fuel > 0 {
        match (t1, t2) {
            (TypeView::Tuple(a), TypeView::Tuple(b)) => {
                lemma_unify_pairs_tables(a, b, a.len(), e1, e2, (fuel - 1) as nat);
            },
            (TypeView::Function { params: p1, ret: r1 }, TypeView::Function { params: p2, ret: r2 }) => {
                lemma_unify_pairs_tables(p1, p2, p1.len(), e1, e2, (fuel - 1) as nat);
                match unify_pairs(p1, p2, p1.len(), e1, (fuel - 1) as nat) {
                    Ok((s, _)) => {
                        lemma_unify_fuel_tables(subst_apply(*r1, s), subst_apply(*r2, s), e1, e2, (fuel - 1) as nat);
                    },
                    Err(_) => {},
                }
            },
            (TypeView::Named { params: p1, .. }, TypeView::Named { params: p2, .. }) => {
                lemma_unify_pairs_tables(p1, p2, p1.len(), e1, e2, (fuel - 1) as nat);
            },
            _ => {},
        }
    }
}

proof fn lemma_unify_pairs_tables(a: Seq<TypeView>, b: Seq<TypeView>, n: nat, e1: Environment, e2: Environment, fuel: nat)
    requires
        same_interface_tables(e1, e2),
    ensures
        unify_pairs(a, b, n, e1, fuel) == unify_pairs(a, b, n, e2, fuel),
    decreases fuel, 1nat, n,
{
    if n > 0 {
        lemma_unify_pairs_tables(a, b, (n - 1) as nat, e1, e2, fuel);
        match unify_pairs(a, b, (n - 1) as nat, e1, fuel) {
            Ok((s, _)) => {
                lemma_unify_fuel_tables(subst_apply(a[n - 1], s), subst_apply(b[n - 1], s), e1, e2, fuel);
            },
            Err(_) => {},
        }
    }
}

/// Unification in two environments with the same interface tables agrees.
pub proof fn lemma_unify_tables(t1: TypeView, t2: TypeView, e1: Environment, e2: Environment)
    requires
        same_interface_tables(e1, e2),
    ensures
        unify_spec(t1, t2, e1) == unify_spec(t1, t2, e2),
{
    lemma_unify_fuel_tables(t1, t2, e1, e2, unify_depth());
}

/// The unification of `t1` and `t2` in `env`.
pub open spec fn unify_spec(t1: TypeView, t2: TypeView, env: Environment) -> Result<
    (Entries<TypeView>, nat),
    UnifyError,
> {
    unify_fuel(t1, t2, env, unify_depth())
}

/// Whether `r` is the exec form of the unification result `u` at `span`.
pub open spec fn unify_result_is(
    r: Result<(Substitution, usize), TypeError>,
    u: Result<(Entries<TypeView>, nat), UnifyError>,
    span: Span,
) -> bool {
    match r {
        Ok((s, sc)) => u == Ok::<(Entries<TypeView>, nat), UnifyError>((subst_view(s.entries()), sc as nat)),
        Err(e) => u matches Err(x) && reports(e, x, span),
    }
}

fn generic_named_exec(t: &Type) -> (r: Option<&String>)
    ensures
        match r {
            Some(n) => generic_named(t@) == Some(n@),
            None => generic_named(t@) is None,
        },
{
    match t {
        Type::Named { name, params } => {
            proof {
                lemma_types_view_len(params@);
            }
            if params.len() == 0 && name.module.is_none() && is_generic_name(name.name.as_str()) {
                Some(&name.name)
            } else {
                None
            }
        },
        _ => None,
    }
}

fn contains_name(v: &Vec<String>, x: &str) -> (r: bool)
    ensures
        r == names_of(v@).contains(x@),
{
    let mut i: usize = 0;
    while i < v.len()
        invariant
            i <= v.len(),
            forall|k: int| 0 <= k < i ==> v@[k]@ != x@,
        decreases v.len() - i,
    {
        if str_eq(v[i].as_str(), x) {
            assert(v@[i as int]@ == x@);
            return true;
        }
        i = i + 1;
    }
    false
}

/// Binds the variable `var_name` to `typ`, unless it occurs in `typ`.
fn bind_var(var_name: &str, typ: &Type, span: &Span) -> (r: Result<(Substitution, usize), TypeError>)
    ensures
        unify_result_is(r, bind_spec(var_name@, typ@), *span),
{
    let vars = free_type_vars(typ);
    if contains_name(&vars, var_name) {
        return Err(TypeError::InfiniteType {
            var: String::from_str(var_name),
            typ: copy_type(typ),
            span: *span,
        });
    }
    let mut subst: Substitution = Table::new();
    let c = copy_type(typ);
    subst.insert(String::from_str(var_name), c);
    proof {
        lemma_key_index(Seq::<(Seq<char>, Type)>::empty(), var_name@);
    }
    assert(subst_view(subst.entries()) =~= seq![(var_name@, typ@)]);
    Ok((subst, 100))
}

fn mismatch(t1: &Type, t2: &Type, span: &Span) -> (r: TypeError)
    ensures
        reports(r, UnifyError::Mismatch(t1@, t2@), *span),
{
    TypeError::TypeMismatch { expected: copy_type(t1), found: copy_type(t2), span: *span }
}

fn unify_with(t1: &Type, t2: &Type, env: &Environment, span: &Span, fuel: usize) -> (r: Result<
    (Substitution, usize),
    TypeError,
>)
    ensures
        unify_result_is(r, unify_fuel(t1@, t2@, *env, fuel as nat), *span),
    decreases fuel, 0nat,
{
    if type_eq(t1, t2) {
        let s: Substitution = Table::new();
        assert(subst_view(s.entries()) =~= Seq::<(Seq<char>, TypeView)>::empty());
        return Ok((s, 0));
    }
    match generic_named_exec(t1) {
        Some(n) => return bind_var(n.as_str(), t2, span),
        None => {},
    }
    match generic_named_exec(t2) {
        Some(n) => return bind_var(n.as_str(), t1, span),
        None => {},
    }
    match t1 {
        Type::Var(id) => return bind_var(id.0.as_str(), t2, span),
        _ => {},
    }
    match t2 {
        Type::Var(id) => return bind_var(id.0.as_str(), t1, span),
        _ => {},
    }
    match (t1, t2) {
        (Type::Tuple(a), Type::Tuple(b)) => {
            proof {
                lemma_types_view_len(a@);
                lemma_types_view_len(b@);
            }
            if a.len() == b.len() && fuel > 0 {
                unify_pairs_exec(a, b, env, span, fuel - 1)
            } else {
                Err(mismatch(t1, t2, span))
            }
        },
        (
            Type::Function { params: p1, return_type: r1 },
            Type::Function { params: p2, return_type: r2 },
        ) => {
            proof {
                lemma_types_view_len(p1@);
                lemma_types_view_len(p2@);
            }
            if p1.len() == p2.len() && fuel > 0 {
                match unify_pairs_exec(p1, p2, env, span, fuel - 1) {
                    Err(e) => Err(e),
                    Ok((s, sc)) => {
                        let a1 = apply(r1, &s);
                        let a2 = apply(r2, &s);
                        match unify_with(&a1, &a2, env, span, fuel - 1) {
                            Err(e) => Err(e),
                            Ok((s2, sc2)) => Ok((compose(&s, &s2), sc.saturating_add(sc2))),
                        }
                    },
                }
            } else {
                Err(mismatch(t1, t2, span))
            }
        },
        (Type::Named { name: n1, params: p1 }, Type::Named { name: n2, params: p2 }) => {
            proof {
                lemma_types_view_len(p1@);
                lemma_types_view_len(p2@);
            }
            if crate::ast::types::qualified_eq(n1, n2) && p1.len() == p2.len() {
                if fuel > 0 {
                    unify_pairs_exec(p1, p2, env, span, fuel - 1)
                } else {
                    Err(mismatch(t1, t2, span))
                }
            } else if p1.len() == 0 && env.interfaces.contains_key(n1.name.as_str()) {
                match env.satisfies_interface(t2, n1.name.as_str()) {
                    Some(d) => {
                        let s: Substitution = Table::new();
                        assert(subst_view(s.entries()) =~= Seq::<(Seq<char>, TypeView)>::empty());
                        Ok((s, d))
                    },
                    None => Err(mismatch(t1, t2, span)),
                }
            } else if p2.len() == 0 && env.interfaces.contains_key(n2.name.as_str()) {
                match env.satisfies_interface(t1, n2.name.as_str()) {
                    Some(d) => {
                        let s: Substitution = Table::new();
                        assert(subst_view(s.entries()) =~= Seq::<(Seq<char>, TypeView)>::empty());
                        Ok((s, d))
                    },
                    None => Err(mismatch(t2, t1, span)),
                }
            } else {
                Err(mismatch(t1, t2, span))
            }
        },
        _ => Err(mismatch(t1, t2, span)),
    }
}

fn unify_pairs_exec(a: &Vec<Type>, b: &Vec<Type>, env: &Environment, span: &Span, fuel: usize) -> (r: Result<
    (Substitution, usize),
    TypeError,
>)
    requires
        a.len() == b.len(),
    ensures
        unify_result_is(
            r,
            unify_pairs(types_view(a@), types_view(b@), a.len() as nat, *env, fuel as nat),
            *span,
        ),
    decreases fuel, 1nat,
{
    let ghost av = types_view(a@);
    let ghost bv = types_view(b@);
    proof {
        lemma_types_view_len(a@);
        lemma_types_view_len(b@);
    }
    let mut subst: Substitution = Table::new();
    let mut score: usize = 0;
    assert(subst_view(subst.entries()) =~= Seq::<(Seq<char>, TypeView)>::empty());
    let mut i: usize = 0;
    while i < a.len()
        invariant
            i <= a.len(),
            a.len() == b.len(),
            av == types_view(a@),
            bv == types_view(b@),
            av.len() == a.len(),
            bv.len() == b.len(),
            unify_pairs(av, bv, i as nat, *env, fuel as nat) == Ok::<
                (Entries<TypeView>, nat),
                UnifyError,
            >((subst_view(subst.entries()), score as nat)),
        decreases a.len() - i,
    {
        proof {
            lemma_types_view_index(a@, i as int);
            lemma_types_view_index(b@, i as int);
        }
        let x = apply(&a[i], &subst);
        let y = apply(&b[i], &subst);
        match unify_with(&x, &y, env, span, fuel) {
            Err(e) => {
                proof {
                    lemma_pairs_err_extends(av, bv, (i + 1) as nat, a.len() as nat, *env, fuel as nat);
                }
                return Err(e);
            },
            Ok((s1, sc1)) => {
                subst = compose(&subst, &s1);
                score = score.saturating_add(sc1);
            },
        }
        i = i + 1;
    }
    Ok((subst, score))
}

proof fn lemma_pairs_err_extends(
    a: Seq<TypeView>,
    b: Seq<TypeView>,
    n: nat,
    m: nat,
    env: Environment,
    fuel: nat,
)
    requires
        n <= m,
        unify_pairs(a, b, n, env, fuel) is Err,
    ensures
        unify_pairs(a, b, m, env, fuel) == unify_pairs(a, b, n, env, fuel),
    decreases m - n,
{
    if n < m {
        lemma_pairs_err_extends(a, b, n, (m - 1) as nat, env, fuel);
    }
}

/// The unification of `t1` and `t2` in `env`: a substitution that makes
/// them equal and a score of how closely they match (lower is closer), or
/// the error at `span` that tells why they do not unify.
pub fn unify(t1: &Type, t2: &Type, env: &Environment, span: &Span) -> (r: Result<
    (Substitution, usize),
    TypeError,
>)
    ensures
        unify_result_is(r, unify_spec(t1@, t2@, *env), *span),
        env.interfaces.entries().len() == 0 ==> (r matches Ok((s, _)) ==> subst_apply(
            t1@,
            subst_view(s.entries()),
        ) == subst_apply(t2@, subst_view(s.entries()))),
{
    proof {
        if env.interfaces.entries().len() == 0 {
            crate::type_checker::unify_laws::law_unify_equates(t1@, t2@, *env);
        }
    }
    unify_with(t1, t2, env, span, usize::MAX)
}

// =============================================================================
// FRESH VARIABLES AND INSTANTIATION
// =============================================================================

/// The name of the fresh type variable numbered `n`: `t_n`.
pub open spec fn fresh_name(n: nat) -> Seq<char> {
    "t_"@ + decimal(n)
}

/// The counter after a fresh variable was taken at `n`; it wraps around at
/// the end of the range of `usize`.
pub open spec fn next_counter(n: nat) -> nat {
    if n >= usize::MAX {
        0
    } else {
        n + 1
    }
}

/// Fresh variable names are `t_` followed by one or more decimal digits,
/// and two taken one after the other differ: the counter always moves on,
/// and different counts give different names.
pub proof fn law_fresh_names_differ(n: nat, m: nat)
    ensures
        fresh_name(n).len() >= 3,
        fresh_name(n).take(2) == "t_"@,
        forall|i: int| 2 <= i < fresh_name(n).len() ==> '0' <= #[trigger] fresh_name(n)[i] <= '9',
        n != m ==> fresh_name(n) != fresh_name(m),
        n <= usize::MAX ==> next_counter(n) != n,
{
    reveal_strlit("t_");
    crate::text::lemma_decimal_digits(n);
    assert(fresh_name(n).take(2) =~= "t_"@);
    assert forall|i: int| 2 <= i < fresh_name(n).len() implies '0' <= #[trigger] fresh_name(n)[i] <= '9' by {
        assert(fresh_name(n)[i] == decimal(n)[i - 2]);
    }
    if n != m && fresh_name(n) == fresh_name(m) {
        assert(fresh_name(n).skip(2) =~= decimal(n));
        assert(fresh_name(m).skip(2) =~= decimal(m));
        crate::text::lemma_decimal_injective(n, m);
    }
}

/// A fresh type variable name, `t_n`, where `n` is the counter, which then
/// moves on.
pub fn fresh_type_var(next: &mut usize) -> (r: String)
    ensures
        r@ == fresh_name(*old(next) as nat),
        *final(next) == next_counter(*old(next) as nat),
{
    let id = *next;
    *next = if id == usize::MAX {
        0
    } else {
        id + 1
    };
    let mut out: Vec<char> = Vec::new();
    push_str(&mut out, "t_");
    push_decimal(&mut out, id as u64);
    assert(out@ =~= fresh_name(id as nat));
    string_from_chars(&out)
}

/// A fresh type variable.
pub fn fresh_type(next: &mut usize) -> (r: Type)
    ensures
        r@ == TypeView::Var(fresh_name(*old(next) as nat)),
        *final(next) == next_counter(*old(next) as nat),
{
    let name = fresh_type_var(next);
    Type::Var(Ident(name))
}

/// Whether a name starts with an upper-case ASCII letter.
pub open spec fn starts_upper(v: Seq<char>) -> bool {
    v.len() > 0 && 'A' <= v[0] && v[0] <= 'Z'
}

/// The substitution that gives each of `vars` that starts with an
/// upper-case letter a fresh variable, in order, from the counter `n`; and
/// the counter after.
pub open spec fn fresh_subst(vars: Seq<Seq<char>>, n: nat) -> (Entries<TypeView>, nat)
    decreases vars.len(),
{
    if vars.len() == 0 {
        (Seq::empty(), n)
    } else {
        let (s, m) = fresh_subst(vars.drop_last(), n);
        if starts_upper(vars.last()) {
            (entry_insert(s, vars.last(), TypeView::Var(fresh_name(m))), next_counter(m))
        } else {
            (s, m)
        }
    }
}

proof fn lemma_ftv_acc_names(t: TypeView, acc: Seq<Seq<char>>)
    ensures
        forall|v: Seq<char>| #[trigger] ftv_acc(t, acc).contains(v) ==> acc.contains(v) || ftv(t).contains(v),
    decreases t,
{
    match t {
        TypeView::Var(x) => {
            assert forall|v: Seq<char>| #[trigger] ftv_acc(t, acc).contains(v) implies acc.contains(v) || ftv(t).contains(v) by {
                assert(ftv(t) == set![x]);
                if v == x {
                    assert(ftv(t).contains(v));
                } else if !acc.contains(x) {
                    assert(ftv_acc(t, acc) == acc.push(x));
                    let i = choose|i: int| 0 <= i < acc.push(x).len() && acc.push(x)[i] == v;
                    assert(i < acc.len());
                    assert(acc[i] == v);
                } else {
                    assert(ftv_acc(t, acc) == acc);
                }
            }
        },
        TypeView::Named { name, params } => {
            if params.len() == 0 && name.0 is None && generic_name(name.1) {
                assert forall|v: Seq<char>| #[trigger] ftv_acc(t, acc).contains(v) implies acc.contains(v) || ftv(t).contains(v) by {
                    if !acc.contains(name.1) && v != name.1 {
                        let i = choose|i: int| 0 <= i < acc.push(name.1).len() && acc.push(name.1)[i] == v;
                        assert(acc[i] == v);
                    }
                }
            } else {
                lemma_ftvs_acc_names(params, acc);
                assert(ftv_acc(t, acc) == ftvs_acc(params, acc));
                assert(ftv(t) == ftvs(params));
            }
        },
        TypeView::Tuple(ts) => {
            lemma_ftvs_acc_names(ts, acc);
            assert(ftv_acc(t, acc) == ftvs_acc(ts, acc));
            assert(ftv(t) == ftvs(ts));
        },
        TypeView::Function { params, ret } => {
            lemma_ftvs_acc_names(params, acc);
            lemma_ftv_acc_names(*ret, ftvs_acc(params, acc));
            assert forall|v: Seq<char>| #[trigger] ftv_acc(t, acc).contains(v) implies acc.contains(v) || ftv(t).contains(v) by {
                assert(ftv_acc(t, acc) == ftv_acc(*ret, ftvs_acc(params, acc)));
                assert(ftv(t) == ftvs(params).union(ftv(*ret)));
                if ftvs_acc(params, acc).contains(v) {
                } else {
                    assert(ftv(*ret).contains(v));
                }
            }
        },
        TypeView::Refined { base, .. } => {
            lemma_ftv_acc_names(*base, acc);
            assert(ftv_acc(t, acc) == ftv_acc(*base, acc));
            assert(ftv(t) == ftv(*base));
        },
    }
}

proof fn lemma_ftvs_acc_names(ts: Seq<TypeView>, acc: Seq<Seq<char>>)
    ensures
        forall|v: Seq<char>| #[trigger] ftvs_acc(ts, acc).contains(v) ==> acc.contains(v) || ftvs(ts).contains(v),
    decreases ts,
{
    if ts.len() > 0 {
        lemma_ftvs_acc_names(ts.drop_last(), acc);
        lemma_ftv_acc_names(ts.last(), ftvs_acc(ts.drop_last(), acc));
        assert forall|v: Seq<char>| #[trigger] ftvs_acc(ts, acc).contains(v) implies acc.contains(v) || ftvs(ts).contains(v) by {
            assert(ftvs_acc(ts, acc) == ftv_acc(ts.last(), ftvs_acc(ts.drop_last(), acc)));
            assert(ftvs(ts) == ftvs(ts.drop_last()).union(ftv(ts.last())));
            if ftvs_acc(ts.drop_last(), acc).contains(v) {
            } else {
                assert(ftv(ts.last()).contains(v));
            }
        }
    } else {
        assert(ftvs_acc(ts, acc) == acc);
    }
}

proof fn lemma_fresh_subst_none(vars: Seq<Seq<char>>, n: nat)
    requires
        forall|i: int| 0 <= i < vars.len() ==> !starts_upper(#[trigger] vars[i]),
    ensures
        fresh_subst(vars, n) == (Seq::<(Seq<char>, TypeView)>::empty(), n),
    decreases vars.len(),
{
    if vars.len() > 0 {
        lemma_fresh_subst_none(vars.drop_last(), n);
        assert(!starts_upper(vars[vars.len() - 1]));
    }
}

/// Whether every value of `s` is a variable whose name does not start with
/// an upper-case letter and is not itself bound in `s`.
pub open spec fn lower_var_values(s: Entries<TypeView>) -> bool {
    forall|i: int|
        0 <= i < s.len() ==> (#[trigger] s[i]).1 is Var && !starts_upper(s[i].1->Var_0) && entry_get(
            s,
            s[i].1->Var_0,
        ) is None
}

proof fn lemma_bound_value(s: Entries<TypeView>, v: Seq<char>)
    requires
        lower_var_values(s),
        entry_get(s, v) is Some,
    ensures
        entry_get(s, v)->Some_0 is Var,
        !starts_upper(entry_get(s, v)->Some_0->Var_0),
        entry_get(s, entry_get(s, v)->Some_0->Var_0) is None,
{
    crate::type_checker::table::lemma_key_index(s, v);
    let i = key_index(s, v);
    assert(s[i].1 == entry_get(s, v)->Some_0);
}

/// Applying a substitution that binds every upper-case free variable of
/// `t` to a lower-case variable leaves no upper-case free variable.
proof fn lemma_apply_lowers(t: TypeView, s: Entries<TypeView>, fuel: nat)
    requires
        fuel >= 1,
        lower_var_values(s),
        forall|v: Seq<char>| #[trigger] ftv(t).contains(v) && starts_upper(v) ==> entry_get(s, v) is Some,
    ensures
        forall|v: Seq<char>| #[trigger] ftv(apply_fuel(t, s, fuel)).contains(v) ==> !starts_upper(v),
    decreases t,
{
    match t {
        TypeView::Var(x) => {
            if entry_get(s, x) is Some {
                lemma_bound_value(s, x);
                let u = entry_get(s, x)->Some_0;
                assert(apply_fuel(t, s, fuel) == apply_fuel(u, s, (fuel - 1) as nat));
                assert(apply_fuel(u, s, (fuel - 1) as nat) == u);
                assert(ftv(u) == set![u->Var_0]);
            } else {
                assert(ftv(t) == set![x]);
                assert(ftv(t).contains(x));
            }
        },
        TypeView::Named { name, params } => {
            if params.len() == 0 && name.0 is None {
                if generic_name(name.1) && entry_get(s, name.1) is Some {
                    lemma_bound_value(s, name.1);
                    let u = entry_get(s, name.1)->Some_0;
                    assert(apply_fuel(u, s, (fuel - 1) as nat) == u);
                    assert(ftv(u) == set![u->Var_0]);
                } else if generic_name(name.1) {
                    assert(ftv(t) == set![name.1]);
                    assert(ftv(t).contains(name.1));
                } else {
                    assert(apply_fuel(t, s, fuel) == t);
                    assert(ftv(t) == ftvs(params));
                    assert(ftvs(params) =~= Set::empty());
                }
            } else {
                assert(ftv(t) == ftvs(params));
                assert forall|v: Seq<char>| #[trigger] ftvs(params).contains(v) && starts_upper(v) implies entry_get(s, v) is Some by {
                    assert(ftv(t).contains(v));
                }
                lemma_apply_all_lowers(params, s, fuel);
                lemma_apply_all_len(params, s, fuel);
                assert(ftv(apply_fuel(t, s, fuel)) == ftvs(apply_all(params, s, fuel)));
            }
        },
        TypeView::Tuple(ts) => {
            assert(ftv(t) == ftvs(ts));
            assert forall|v: Seq<char>| #[trigger] ftvs(ts).contains(v) && starts_upper(v) implies entry_get(s, v) is Some by {
                assert(ftv(t).contains(v));
            }
            lemma_apply_all_lowers(ts, s, fuel);
            assert(ftv(apply_fuel(t, s, fuel)) == ftvs(apply_all(ts, s, fuel)));
        },
        TypeView::Function { params, ret } => {
            assert(ftv(t) == ftvs(params).union(ftv(*ret)));
            assert forall|v: Seq<char>| #[trigger] ftvs(params).contains(v) && starts_upper(v) implies entry_get(s, v) is Some by {
                assert(ftv(t).contains(v));
            }
            assert forall|v: Seq<char>| #[trigger] ftv(*ret).contains(v) && starts_upper(v) implies entry_get(s, v) is Some by {
                assert(ftv(t).contains(v));
            }
            lemma_apply_all_lowers(params, s, fuel);
            lemma_apply_lowers(*ret, s, fuel);
            let a = apply_fuel(t, s, fuel);
            assert(ftv(a) == ftvs(apply_all(params, s, fuel)).union(ftv(apply_fuel(*ret, s, fuel))));
            assert forall|v: Seq<char>| #[trigger] ftv(a).contains(v) implies !starts_upper(v) by {
                if ftvs(apply_all(params, s, fuel)).contains(v) {
                } else {
                    assert(ftv(apply_fuel(*ret, s, fuel)).contains(v));
                }
            }
        },
        TypeView::Refined { base, .. } => {
            assert(ftv(t) == ftv(*base));
            assert forall|v: Seq<char>| #[trigger] ftv(*base).contains(v) && starts_upper(v) implies entry_get(s, v) is Some by {
                assert(ftv(t).contains(v));
            }
            lemma_apply_lowers(*base, s, fuel);
            assert(ftv(apply_fuel(t, s, fuel)) == ftv(apply_fuel(*base, s, fuel)));
        },
    }
}

proof fn lemma_apply_all_lowers(ts: Seq<TypeView>, s: Entries<TypeView>, fuel: nat)
    requires
        fuel >= 1,
        lower_var_values(s),
        forall|v: Seq<char>| #[trigger] ftvs(ts).contains(v) && starts_upper(v) ==> entry_get(s, v) is Some,
    ensures
        forall|v: Seq<char>| #[trigger] ftvs(apply_all(ts, s, fuel)).contains(v) ==> !starts_upper(v),
    decreases ts,
{
    if ts.len() > 0 {
        assert(ftvs(ts) == ftvs(ts.drop_last()).union(ftv(ts.last())));
        assert forall|v: Seq<char>| #[trigger] ftvs(ts.drop_last()).contains(v) && starts_upper(v) implies entry_get(s, v) is Some by {
            assert(ftvs(ts).contains(v));
        }
        assert forall|v: Seq<char>| #[trigger] ftv(ts.last()).contains(v) && starts_upper(v) implies entry_get(s, v) is Some by {
            assert(ftvs(ts).contains(v));
        }
        lemma_apply_all_lowers(ts.drop_last(), s, fuel);
        lemma_apply_lowers(ts.last(), s, fuel);
        let a = apply_all(ts, s, fuel);
        assert(a == apply_all(ts.drop_last(), s, fuel).push(apply_fuel(ts.last(), s, fuel)));
        assert(a.drop_last() =~= apply_all(ts.drop_last(), s, fuel));
        assert(ftvs(a) == ftvs(a.drop_last()).union(ftv(a.last())));
    } else {
        assert(apply_all(ts, s, fuel) =~= Seq::<TypeView>::empty());
    }
}

proof fn lemma_ftv_in_acc(t: TypeView, acc: Seq<Seq<char>>)
    ensures
        forall|v: Seq<char>| acc.contains(v) || ftv(t).contains(v) ==> #[trigger] ftv_acc(t, acc).contains(v),
    decreases t,
{
    match t {
        TypeView::Var(x) => {
            assert forall|v: Seq<char>| acc.contains(v) || ftv(t).contains(v) implies #[trigger] ftv_acc(t, acc).contains(v) by {
                assert(ftv(t) == set![x]);
                if !acc.contains(x) {
                    assert(ftv_acc(t, acc) == acc.push(x));
                    if v == x {
                        assert(acc.push(x)[acc.len() as int] == x);
                    } else {
                        let i = choose|i: int| 0 <= i < acc.len() && acc[i] == v;
                        assert(acc.push(x)[i] == v);
                    }
                }
            }
        },
        TypeView::Named { name, params } => {
            if params.len() == 0 && name.0 is None && generic_name(name.1) {
                assert forall|v: Seq<char>| acc.contains(v) || ftv(t).contains(v) implies #[trigger] ftv_acc(t, acc).contains(v) by {
                    if !acc.contains(name.1) {
                        if v == name.1 {
                            assert(acc.push(name.1)[acc.len() as int] == name.1);
                        } else {
                            let i = choose|i: int| 0 <= i < acc.len() && acc[i] == v;
                            assert(acc.push(name.1)[i] == v);
                        }
                    }
                }
            } else {
                lemma_ftvs_in_acc(params, acc);
                assert(ftv_acc(t, acc) == ftvs_acc(params, acc));
                assert(ftv(t) == ftvs(params));
            }
        },
        TypeView::Tuple(ts) => {
            lemma_ftvs_in_acc(ts, acc);
            assert(ftv_acc(t, acc) == ftvs_acc(ts, acc));
            assert(ftv(t) == ftvs(ts));
        },
        TypeView::Function { params, ret } => {
            lemma_ftvs_in_acc(params, acc);
            lemma_ftv_in_acc(*ret, ftvs_acc(params, acc));
            assert(ftv_acc(t, acc) == ftv_acc(*ret, ftvs_acc(params, acc)));
            assert(ftv(t) == ftvs(params).union(ftv(*ret)));
        },
        TypeView::Refined { base, .. } => {
            lemma_ftv_in_acc(*base, acc);
            assert(ftv_acc(t, acc) == ftv_acc(*base, acc));
            assert(ftv(t) == ftv(*base));
        },
    }
}

proof fn lemma_ftvs_in_acc(ts: Seq<TypeView>, acc: Seq<Seq<char>>)
    ensures
        forall|v: Seq<char>| acc.contains(v) || ftvs(ts).contains(v) ==> #[trigger] ftvs_acc(ts, acc).contains(v),
    decreases ts,
{
    if ts.len() > 0 {
        lemma_ftvs_in_acc(ts.drop_last(), acc);
        lemma_ftv_in_acc(ts.last(), ftvs_acc(ts.drop_last(), acc));
        assert(ftvs_acc(ts, acc) == ftv_acc(ts.last(), ftvs_acc(ts.drop_last(), acc)));
        assert(ftvs(ts) == ftvs(ts.drop_last()).union(ftv(ts.last())));
    } else {
        assert(ftvs_acc(ts, acc) == acc);
    }
}

/// What the substitution of an instantiation is: it binds every variable
/// of `vars` that starts with an upper-case letter, only such variables,
/// each to a fresh lower-case variable.
proof fn lemma_fresh_subst_shape(vars: Seq<Seq<char>>, n: nat)
    ensures
        distinct_keys(fresh_subst(vars, n).0),
        forall|i: int| 0 <= i < fresh_subst(vars, n).0.len() ==> starts_upper(#[trigger] fresh_subst(vars, n).0[i].0),
        lower_var_values(fresh_subst(vars, n).0),
        forall|i: int| 0 <= i < vars.len() && starts_upper(#[trigger] vars[i]) ==> entry_get(fresh_subst(vars, n).0, vars[i]) is Some,
    decreases vars.len(),
{
    reveal_strlit("t_");
    if vars.len() > 0 {
        let (s0, m) = fresh_subst(vars.drop_last(), n);
        lemma_fresh_subst_shape(vars.drop_last(), n);
        let x = vars.last();
        if starts_upper(x) {
            let val = TypeView::Var(fresh_name(m));
            let s1 = entry_insert(s0, x, val);
            crate::type_checker::table::lemma_insert_distinct(s0, x, val);
            crate::type_checker::table::lemma_key_index(s0, x);
            assert(fresh_name(m)[0] == 't');
            assert(!starts_upper(fresh_name(m)));
            assert forall|i: int| 0 <= i < s1.len() implies starts_upper(#[trigger] s1[i].0) by {
                if i < s0.len() && key_index(s0, x) != i {
                    assert(s1[i] == s0[i]);
                }
            }
            assert forall|w: Seq<char>| !starts_upper(w) implies entry_get(s1, w) is None by {
                crate::type_checker::table::lemma_key_index(s1, w);
                if key_index(s1, w) >= 0 {
                    assert(starts_upper(s1[key_index(s1, w)].0));
                }
            }
            assert forall|i: int| 0 <= i < s1.len() implies (#[trigger] s1[i]).1 is Var && !starts_upper(s1[i].1->Var_0)
                && entry_get(s1, s1[i].1->Var_0) is None by {
                if i < s0.len() && key_index(s0, x) != i {
                    assert(s1[i] == s0[i]);
                }
            }
            assert forall|i: int| 0 <= i < vars.len() && starts_upper(#[trigger] vars[i]) implies entry_get(s1, vars[i]) is Some by {
                if i < vars.len() - 1 {
                    assert(vars.drop_last()[i] == vars[i]);
                    if vars[i] != x {
                        assert(entry_get(s0, vars[i]) is Some);
                    }
                }
            }
        } else {
            assert forall|i: int| 0 <= i < vars.len() && starts_upper(#[trigger] vars[i]) implies entry_get(s0, vars[i]) is Some by {
                if i < vars.len() - 1 {
                    assert(vars.drop_last()[i] == vars[i]);
                }
            }
        }
    }
}

/// Instantiation leaves no free variable that starts with an upper-case
/// letter: each of them is replaced by a fresh `t_` variable.
pub proof fn law_instantiate_leaves_no_generic(t: TypeView, n: nat)
    ensures
        forall|v: Seq<char>| #[trigger] ftv(instantiation(t, n).0).contains(v) ==> !starts_upper(v),
{
    let vars = ftv_seq(t);
    let s = fresh_subst(vars, n).0;
    lemma_fresh_subst_shape(vars, n);
    lemma_ftv_in_acc(t, Seq::empty());
    assert forall|v: Seq<char>| #[trigger] ftv(t).contains(v) && starts_upper(v) implies entry_get(s, v) is Some by {
        assert(vars.contains(v));
        let i = choose|i: int| 0 <= i < vars.len() && vars[i] == v;
        assert(starts_upper(vars[i]));
    }
    if s.len() == 0 {
        law_apply_unbound(t, s, 0);
        assert forall|v: Seq<char>| #[trigger] ftv(instantiation(t, n).0).contains(v) implies !starts_upper(v) by {
            if starts_upper(v) {
                assert(entry_get(s, v) is Some);
                crate::type_checker::table::lemma_key_index(s, v);
            }
        }
    } else {
        lemma_apply_lowers(t, s, s.len());
    }
}

/// The counter after an instantiation's substitution moves on from `n` by
/// at most one per variable, and each value is a fresh variable numbered
/// in between.
proof fn lemma_fresh_subst_range(vars: Seq<Seq<char>>, n: nat)
    requires
        n + vars.len() <= usize::MAX,
    ensures
        n <= fresh_subst(vars, n).1 <= n + vars.len(),
        forall|i: int|
            0 <= i < fresh_subst(vars, n).0.len() ==> exists|k: nat|
                n <= k < fresh_subst(vars, n).1 && (#[trigger] fresh_subst(vars, n).0[i]).1 == TypeView::Var(
                    fresh_name(k),
                ),
    decreases vars.len(),
{
    if vars.len() > 0 {
        let (s0, m) = fresh_subst(vars.drop_last(), n);
        lemma_fresh_subst_range(vars.drop_last(), n);
        let x = vars.last();
        if starts_upper(x) {
            let val = TypeView::Var(fresh_name(m));
            let s1 = entry_insert(s0, x, val);
            crate::type_checker::table::lemma_key_index(s0, x);
            assert(next_counter(m) == m + 1);
            assert forall|i: int| 0 <= i < s1.len() implies exists|k: nat|
                n <= k < m + 1 && (#[trigger] s1[i]).1 == TypeView::Var(fresh_name(k)) by {
                if i < s0.len() && key_index(s0, x) != i {
                    assert(s1[i] == s0[i]);
                    let k = choose|k: nat| n <= k < m && s0[i].1 == TypeView::Var(fresh_name(k));
                    assert(n <= k < m + 1);
                } else {
                    assert(s1[i].1 == val);
                }
            }
        }
    }
}

/// Two instantiations of a type, the second from the counter the first
/// leaves, bring in different fresh variables: no variable the first binds
/// a generic variable to is one the second binds one to.
pub proof fn law_instantiations_differ(t: TypeView, n: nat)
    requires
        n + 2 * ftv_seq(t).len() <= usize::MAX,
    ensures
        forall|i: int, j: int|
            0 <= i < fresh_subst(ftv_seq(t), n).0.len() && 0 <= j < fresh_subst(
                ftv_seq(t),
                instantiation(t, n).1,
            ).0.len() ==> (#[trigger] fresh_subst(ftv_seq(t), n).0[i]).1 != (
            #[trigger] fresh_subst(ftv_seq(t), instantiation(t, n).1).0[j]).1,
{
    let vars = ftv_seq(t);
    let n1 = instantiation(t, n).1;
    lemma_fresh_subst_range(vars, n);
    assert(n1 == fresh_subst(vars, n).1);
    lemma_fresh_subst_range(vars, n1);
    let s1 = fresh_subst(vars, n).0;
    let s2 = fresh_subst(vars, n1).0;
    assert forall|i: int, j: int| 0 <= i < s1.len() && 0 <= j < s2.len() implies (#[trigger] s1[i]).1 != (#[trigger] s2[j]).1 by {
        let k1 = choose|k: nat| n <= k < n1 && s1[i].1 == TypeView::Var(fresh_name(k));
        let k2 = choose|k: nat| n1 <= k < fresh_subst(vars, n1).1 && s2[j].1 == TypeView::Var(fresh_name(k));
        law_fresh_names_differ(k1, k2);
    }
}

/// Instantiating a type whose free variables do not start with an
/// upper-case letter leaves it as it is and takes no fresh variable.
pub proof fn law_instantiate_non_generic(t: TypeView, n: nat)
    requires
        forall|v: Seq<char>| #[trigger] ftv(t).contains(v) ==> !starts_upper(v),
    ensures
        instantiation(t, n) == (t, n),
{
    lemma_ftv_acc_names(t, Seq::empty());
    let vars = ftv_seq(t);
    assert forall|i: int| 0 <= i < vars.len() implies !starts_upper(#[trigger] vars[i]) by {
        assert(vars.contains(vars[i]));
        assert(ftv(t).contains(vars[i]));
    }
    lemma_fresh_subst_none(vars, n);
    law_apply_empty(t);
}

/// `t` instantiated from the counter `n`: the free variables that start with
/// an upper-case letter, in the order they occur, replaced by fresh
/// variables; and the counter after.
pub open spec fn instantiation(t: TypeView, n: nat) -> (TypeView, nat) {
    let (s, m) = fresh_subst(ftv_seq(t), n);
    (subst_apply(t, s), m)
}

/// `typ` with each free variable that starts with an upper-case letter
/// replaced by a fresh variable, so that two uses of a generic signature
/// are not tied to each other.
pub fn instantiate(typ: &Type, next: &mut usize) -> (r: Type)
    requires
        forall|v: Seq<char>| ftv(typ@).contains(v) ==> v.len() > 0,
    ensures
        (r@, *final(next) as nat) == instantiation(typ@, *old(next) as nat),
{
    let vars = free_type_vars(typ);
    let ghost vs = names_seq(vars@);
    let ghost start = *next as nat;
    let mut subst: Substitution = Table::new();
    let mut i: usize = 0;
    assert(vs.take(0) =~= Seq::<Seq<char>>::empty());
    assert(subst_view(subst.entries()) =~= Seq::<(Seq<char>, TypeView)>::empty());
    while i < vars.len()
        invariant
            i <= vars.len(),
            vs == names_seq(vars@),
            names_of(vars@) == ftv(typ@),
            forall|v: Seq<char>| ftv(typ@).contains(v) ==> v.len() > 0,
            fresh_subst(vs.take(i as int), start) == (subst_view(subst.entries()), *next as nat),
        decreases vars.len() - i,
    {
        assert(vs.take(i + 1).drop_last() =~= vs.take(i as int));
        assert(names_of(vars@).contains(vars@[i as int]@));
        let first = vars[i].get_char(0);
        if 'A' <= first && first <= 'Z' {
            let f = fresh_type(next);
            proof {
                lemma_subst_view_insert(subst.entries(), vars@[i as int]@, f);
            }
            subst.insert(vars[i].clone(), f);
        }
        i = i + 1;
    }
    let r = apply(typ, &subst);
    proof {
        assert(vs.take(vars@.len() as int) =~= vs);
    }
    r
}

// =============================================================================
// LAWS
// =============================================================================

/// Applying a substitution that binds none of the free variables of `t`
/// leaves `t` as it is.
pub proof fn law_apply_unbound(t: TypeView, s: Entries<TypeView>, fuel: nat)
    requires
        forall|k: Seq<char>| #[trigger] ftv(t).contains(k) ==> entry_get(s, k) is None,
    ensures
        apply_fuel(t, s, fuel) == t,
    decreases t,
{
    match t {
        TypeView::Named { name, params } => {
            if !(params.len() == 0 && name.0 is None) {
                assert forall|k: Seq<char>| #[trigger] ftvs(params).contains(k) implies entry_get(s, k) is None by {
                    assert(ftv(t).contains(k));
                }
                lemma_apply_all_unbound(params, s, fuel);
            } else if generic_name(name.1) {
                assert(ftv(t).contains(name.1));
            }
        },
        TypeView::Tuple(ts) => {
            assert forall|k: Seq<char>| #[trigger] ftvs(ts).contains(k) implies entry_get(s, k) is None by {
                assert(ftv(t).contains(k));
            }
            lemma_apply_all_unbound(ts, s, fuel);
        },
        TypeView::Function { params, ret } => {
            assert forall|k: Seq<char>| #[trigger] ftvs(params).contains(k) implies entry_get(s, k) is None by {
                assert(ftv(t).contains(k));
            }
            assert forall|k: Seq<char>| #[trigger] ftv(*ret).contains(k) implies entry_get(s, k) is None by {
                assert(ftv(t).contains(k));
            }
            lemma_apply_all_unbound(params, s, fuel);
            law_apply_unbound(*ret, s, fuel);
        },
        TypeView::Refined { base, .. } => {
            assert forall|k: Seq<char>| #[trigger] ftv(*base).contains(k) implies entry_get(s, k) is None by {
                assert(ftv(t).contains(k));
            }
            law_apply_unbound(*base, s, fuel);
        },
        TypeView::Var(v) => {
            assert(ftv(t).contains(v));
        },
    }
}

proof fn lemma_apply_all_unbound(ts: Seq<TypeView>, s: Entries<TypeView>, fuel: nat)
    requires
        forall|k: Seq<char>| #[trigger] ftvs(ts).contains(k) ==> entry_get(s, k) is None,
    ensures
        apply_all(ts, s, fuel) == ts,
    decreases ts,
{
    if ts.len() > 0 {
        assert forall|k: Seq<char>| #[trigger] ftvs(ts.drop_last()).contains(k) implies entry_get(s, k) is None by {
            assert(ftvs(ts).contains(k));
        }
        assert forall|k: Seq<char>| #[trigger] ftv(ts.last()).contains(k) implies entry_get(s, k) is None by {
            assert(ftvs(ts).contains(k));
        }
        lemma_apply_all_unbound(ts.drop_last(), s, fuel);
        law_apply_unbound(ts.last(), s, fuel);
        assert(apply_all(ts, s, fuel) =~= ts);
    }
}

/// The empty substitution changes no type.
pub proof fn law_apply_empty(t: TypeView)
    ensures
        subst_apply(t, Seq::empty()) == t,
{
    law_apply_unbound(t, Seq::empty(), 0);
}

/// A type unifies with itself, with nothing to substitute and a score of 0.
pub proof fn law_unify_reflexive(t: TypeView, env: Environment)
    ensures
        unify_spec(t, t, env) == Ok::<(Entries<TypeView>, nat), UnifyError>((Seq::empty(), 0)),
{
}

/// Binding a variable that does not occur in `t` makes the variable and `t`
/// equal under the substitution; binding one that occurs in `t` is refused
/// as an infinite type.
pub proof fn law_bind_unifies(v: Seq<char>, t: TypeView)
    ensures
        ftv(t).contains(v) ==> bind_spec(v, t) == Err::<(Entries<TypeView>, nat), UnifyError>(
            UnifyError::Infinite(v, t),
        ),
        !ftv(t).contains(v) ==> (bind_spec(v, t) matches Ok((s, _)) && subst_apply(
            TypeView::Var(v),
            s,
        ) == t && subst_apply(t, s) == t),
{
    if !ftv(t).contains(v) {
        let s = seq![(v, t)];
        assert(s.drop_last() =~= Seq::<(Seq<char>, TypeView)>::empty());
        assert forall|k: Seq<char>| #[trigger] ftv(t).contains(k) implies entry_get(s, k) is None by {
            assert(k != v);
            assert(key_index(s.drop_last(), k) == -1);
        }
        law_apply_unbound(t, s, 0);
        law_apply_unbound(t, s, 1);
    }
}

/// The free variables of the types a substitution binds.
pub open spec fn range_ftv(s: Entries<TypeView>) -> Set<Seq<char>> {
    Set::new(|v: Seq<char>| exists|i: int| 0 <= i < s.len() && #[trigger] ftv(s[i].1).contains(v))
}

/// Whether every free variable of `t` has a name of at least one character.
pub open spec fn type_names_ok(t: TypeView) -> bool {
    forall|v: Seq<char>| #[trigger] ftv(t).contains(v) ==> v.len() > 0
}

/// The free variables of a type under a substitution are free in the type
/// or in the types the substitution binds.
pub proof fn lemma_ftv_apply(t: TypeView, s: Entries<TypeView>, fuel: nat)
    ensures
        forall|v: Seq<char>| #[trigger]
            ftv(apply_fuel(t, s, fuel)).contains(v) ==> ftv(t).contains(v) || range_ftv(s).contains(v),
    decreases fuel, t,
{
    match t {
        TypeView::Var(x) => {
            lemma_key_index(s, x);
            if entry_get(s, x) is Some && fuel > 0 {
                let u = entry_get(s, x)->Some_0;
                lemma_ftv_apply(u, s, (fuel - 1) as nat);
                assert(apply_fuel(t, s, fuel) == apply_fuel(u, s, (fuel - 1) as nat));
                assert forall|v: Seq<char>| #[trigger] ftv(u).contains(v) implies range_ftv(s).contains(v) by {
                    assert(ftv(s[key_index(s, x)].1).contains(v));
                }
            }
        },
        TypeView::Named { name, params } => {
            if params.len() == 0 && name.0 is None {
                lemma_key_index(s, name.1);
                if generic_name(name.1) && entry_get(s, name.1) is Some && fuel > 0 {
                    let u = entry_get(s, name.1)->Some_0;
                    lemma_ftv_apply(u, s, (fuel - 1) as nat);
                    assert(apply_fuel(t, s, fuel) == apply_fuel(u, s, (fuel - 1) as nat));
                    assert forall|v: Seq<char>| #[trigger] ftv(u).contains(v) implies range_ftv(s).contains(v) by {
                        assert(ftv(s[key_index(s, name.1)].1).contains(v));
                    }
                }
            } else {
                lemma_ftvs_apply(params, s, fuel);
                lemma_apply_all_len(params, s, fuel);
                let r = apply_fuel(t, s, fuel);
                assert(r == TypeView::Named { name, params: apply_all(params, s, fuel) });
                assert(ftv(r) == ftvs(apply_all(params, s, fuel)));
                assert(ftv(t) == ftvs(params));
            }
        },
        TypeView::Tuple(ts) => {
            lemma_ftvs_apply(ts, s, fuel);
            assert(ftv(apply_fuel(t, s, fuel)) == ftvs(apply_all(ts, s, fuel)));
        },
        TypeView::Function { params, ret } => {
            lemma_ftvs_apply(params, s, fuel);
            lemma_ftv_apply(*ret, s, fuel);
            assert(ftv(apply_fuel(t, s, fuel)) == ftvs(apply_all(params, s, fuel)).union(
                ftv(apply_fuel(*ret, s, fuel)),
            ));
        },
        TypeView::Refined { base, .. } => {
            lemma_ftv_apply(*base, s, fuel);
            assert(ftv(apply_fuel(t, s, fuel)) == ftv(apply_fuel(*base, s, fuel)));
        },
    }
}

proof fn lemma_ftvs_apply(ts: Seq<TypeView>, s: Entries<TypeView>, fuel: nat)
    ensures
        forall|v: Seq<char>| #[trigger]
            ftvs(apply_all(ts, s, fuel)).contains(v) ==> ftvs(ts).contains(v) || range_ftv(s).contains(v),
    decreases fuel, ts,
{
    if ts.len() > 0 {
        lemma_ftvs_apply(ts.drop_last(), s, fuel);
        lemma_ftv_apply(ts.last(), s, fuel);
        assert(apply_all(ts, s, fuel).drop_last() == apply_all(ts.drop_last(), s, fuel));
        lemma_apply_all_len(ts.drop_last(), s, fuel);
        assert(apply_all(ts, s, fuel).last() == apply_fuel(ts.last(), s, fuel));
        let x = apply_all(ts, s, fuel);
        assert forall|v: Seq<char>| #[trigger] ftvs(x).contains(v) implies ftvs(ts).contains(v) || range_ftv(
            s,
        ).contains(v) by {
            assert(ftvs(x) == ftvs(x.drop_last()).union(ftv(x.last())));
            assert(ftvs(ts) == ftvs(ts.drop_last()).union(ftv(ts.last())));
            if ftvs(x.drop_last()).contains(v) {
            } else {
                assert(ftv(x.last()).contains(v));
            }
        }
    }
}

} // verus!
