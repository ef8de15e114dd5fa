//! What substitutions and unification promise: applying a composition is
//! applying its parts in turn, and what unification gives makes the two
//! types equal.

use vstd::prelude::*;
use crate::ast::types::TypeView;
use crate::type_checker::environment::Environment;
use crate::type_checker::inference::{
    apply_fuel, apply_all, subst_apply, compose_view, ftv, ftvs, range_ftv, generic_name, generic_named,
    bind_spec, unify_fuel, unify_pairs, unify_spec, unify_depth, law_apply_unbound,
    law_apply_empty, law_bind_unifies, lemma_apply_all_len, lemma_ftv_apply,
};
use crate::type_checker::table::{Entries, entry_get, entry_insert, key_index, lemma_key_index, lemma_insert_get};

verus! {

/// Whether the substitution `s` binds the variable `v`.
pub open spec fn binds(s: Entries<TypeView>, v: Seq<char>) -> bool {
    entry_get(s, v) is Some
}

/// Whether no variable that `s` binds is free in a type that `s` holds.
pub open spec fn idempotent(s: Entries<TypeView>) -> bool {
    forall|v: Seq<char>| #[trigger] range_ftv(s).contains(v) ==> !binds(s, v)
}

/// Whether no variable that `s1` binds is free in a type that `s2` holds.
pub open spec fn keeps_clear(s1: Entries<TypeView>, s2: Entries<TypeView>) -> bool {
    forall|v: Seq<char>| #[trigger] range_ftv(s2).contains(v) ==> !binds(s1, v)
}

/// The type an idempotent substitution binds to `x` has no bound variable.
proof fn lemma_bound_clear(s: Entries<TypeView>, x: Seq<char>)
    requires
        idempotent(s),
        binds(s, x),
    ensures
        forall|k: Seq<char>| #[trigger] ftv(entry_get(s, x)->Some_0).contains(k) ==> entry_get(s, k) is None,
        ftv(entry_get(s, x)->Some_0).subset_of(range_ftv(s)),
{
    lemma_key_index(s, x);
    let i = key_index(s, x);
    assert forall|k: Seq<char>| #[trigger] ftv(entry_get(s, x)->Some_0).contains(k) implies range_ftv(s).contains(k) by {
        assert(ftv(s[i].1).contains(k));
    }
}

/// With no fuel, applying a substitution changes nothing.
proof fn lemma_apply_zero(t: TypeView, s: Entries<TypeView>)
    ensures
        apply_fuel(t, s, 0) == t,
    decreases t,
{
    match t {
        TypeView::Named { name, params } => {
            if !(params.len() == 0 && name.0 is None) {
                lemma_apply_all_zero(params, s);
            }
        },
        TypeView::Tuple(ts) => {
            lemma_apply_all_zero(ts, s);
        },
        TypeView::Function { params, ret } => {
            lemma_apply_all_zero(params, s);
            lemma_apply_zero(*ret, s);
        },
        TypeView::Refined { base, .. } => {
            lemma_apply_zero(*base, s);
        },
        TypeView::Var(_) => {},
    }
}

proof fn lemma_apply_all_zero(ts: Seq<TypeView>, s: Entries<TypeView>)
    ensures
        apply_all(ts, s, 0) == ts,
    decreases ts,
{
    if ts.len() > 0 {
        lemma_apply_all_zero(ts.drop_last(), s);
        lemma_apply_zero(ts.last(), s);
        assert(apply_all(ts, s, 0) =~= ts);
    }
}

/// An idempotent substitution does all its work in one step.
proof fn lemma_apply_once(t: TypeView, s: Entries<TypeView>, fuel: nat)
    requires
        idempotent(s),
        fuel >= 1,
    ensures
        apply_fuel(t, s, fuel) == apply_fuel(t, s, 1),
    decreases t,
{
    match t {
        TypeView::Var(x) => {
            if binds(s, x) {
                lemma_bound_clear(s, x);
                law_apply_unbound(entry_get(s, x)->Some_0, s, (fuel - 1) as nat);
                law_apply_unbound(entry_get(s, x)->Some_0, s, 0);
            }
        },
        TypeView::Named { name, params } => {
            if params.len() == 0 && name.0 is None {
                if generic_name(name.1) && binds(s, name.1) {
                    lemma_bound_clear(s, name.1);
                    law_apply_unbound(entry_get(s, name.1)->Some_0, s, (fuel - 1) as nat);
                    law_apply_unbound(entry_get(s, name.1)->Some_0, s, 0);
                }
            } else {
                lemma_apply_all_once(params, s, fuel);
            }
        },
        TypeView::Tuple(ts) => {
            lemma_apply_all_once(ts, s, fuel);
        },
        TypeView::Function { params, ret } => {
            lemma_apply_all_once(params, s, fuel);
            lemma_apply_once(*ret, s, fuel);
        },
        TypeView::Refined { base, .. } => {
            lemma_apply_once(*base, s, fuel);
        },
    }
}

proof fn lemma_apply_all_once(ts: Seq<TypeView>, s: Entries<TypeView>, fuel: nat)
    requires
        idempotent(s),
        fuel >= 1,
    ensures
        apply_all(ts, s, fuel) == apply_all(ts, s, 1),
    decreases ts,
{
    if ts.len() > 0 {
        lemma_apply_all_once(ts.drop_last(), s, fuel);
        lemma_apply_once(ts.last(), s, fuel);
    }
}

/// Applying an idempotent substitution is one step of it.
proof fn lemma_subst_once(t: TypeView, s: Entries<TypeView>)
    requires
        idempotent(s),
    ensures
        subst_apply(t, s) == apply_fuel(t, s, 1),
{
    if s.len() == 0 {
        assert forall|k: Seq<char>| #[trigger] ftv(t).contains(k) implies entry_get(s, k) is None by {
            lemma_key_index(s, k);
        }
        law_apply_unbound(t, s, 0);
        law_apply_unbound(t, s, 1);
    } else {
        lemma_apply_once(t, s, s.len());
    }
}

/// One step of an idempotent substitution leaves no variable it binds.
proof fn lemma_apply_clears(t: TypeView, s: Entries<TypeView>)
    requires
        idempotent(s),
    ensures
        forall|v: Seq<char>| #[trigger] ftv(apply_fuel(t, s, 1)).contains(v) ==> !binds(s, v),
    decreases t,
{
    match t {
        TypeView::Var(x) => {
            if binds(s, x) {
                lemma_bound_clear(s, x);
                lemma_apply_zero(entry_get(s, x)->Some_0, s);
                assert(apply_fuel(t, s, 1) == entry_get(s, x)->Some_0);
            } else {
                assert(apply_fuel(t, s, 1) == t);
                assert(ftv(t) =~= set![x]);
            }
        },
        TypeView::Named { name, params } => {
            if params.len() == 0 && name.0 is None {
                if generic_name(name.1) && binds(s, name.1) {
                    lemma_bound_clear(s, name.1);
                    lemma_apply_zero(entry_get(s, name.1)->Some_0, s);
                    assert(apply_fuel(t, s, 1) == entry_get(s, name.1)->Some_0);
                } else {
                    assert(apply_fuel(t, s, 1) == t);
                    if !generic_name(name.1) {
                        assert(ftv(t) == ftvs(params));
                        assert(ftvs(params) == Set::<Seq<char>>::empty());
                    }
                }
            } else {
                lemma_apply_all_clears(params, s);
                lemma_apply_all_len(params, s, 1);
                assert(ftv(apply_fuel(t, s, 1)) == ftvs(apply_all(params, s, 1)));
            }
        },
        TypeView::Tuple(ts) => {
            lemma_apply_all_clears(ts, s);
            assert(ftv(apply_fuel(t, s, 1)) == ftvs(apply_all(ts, s, 1)));
        },
        TypeView::Function { params, ret } => {
            lemma_apply_all_clears(params, s);
            lemma_apply_clears(*ret, s);
            assert(ftv(apply_fuel(t, s, 1)) == ftvs(apply_all(params, s, 1)).union(ftv(apply_fuel(*ret, s, 1))));
        },
        TypeView::Refined { base, .. } => {
            lemma_apply_clears(*base, s);
            assert(ftv(apply_fuel(t, s, 1)) == ftv(apply_fuel(*base, s, 1)));
        },
    }
}

proof fn lemma_apply_all_clears(ts: Seq<TypeView>, s: Entries<TypeView>)
    requires
        idempotent(s),
    ensures
        forall|v: Seq<char>| #[trigger] ftvs(apply_all(ts, s, 1)).contains(v) ==> !binds(s, v),
    decreases ts,
{
    if ts.len() > 0 {
        lemma_apply_all_clears(ts.drop_last(), s);
        lemma_apply_clears(ts.last(), s);
        lemma_apply_all_len(ts.drop_last(), s, 1);
        let x = apply_all(ts, s, 1);
        assert(x.drop_last() == apply_all(ts.drop_last(), s, 1));
        assert(x.last() == apply_fuel(ts.last(), s, 1));
        assert(ftvs(x) == ftvs(x.drop_last()).union(ftv(x.last())));
    }
}

/// Applying an idempotent substitution leaves no variable it binds.
pub proof fn lemma_subst_clears(t: TypeView, s: Entries<TypeView>)
    requires
        idempotent(s),
    ensures
        forall|v: Seq<char>| #[trigger] ftv(subst_apply(t, s)).contains(v) ==> !binds(s, v),
{
    lemma_subst_once(t, s);
    lemma_apply_clears(t, s);
}

/// Looking a key up in entries by their last one.
proof fn lemma_get_last(s: Entries<TypeView>, x: Seq<char>)
    requires
        s.len() > 0,
    ensures
        entry_get(s, x) == if s.last().0 == x {
            Some(s.last().1)
        } else {
            entry_get(s.drop_last(), x)
        },
{
    lemma_key_index(s.drop_last(), x);
}

/// What a composition binds: the types of `s1` with `s2` applied, and the
/// bindings of `s2` for the variables `s1` leaves.
pub proof fn lemma_compose_get(s1: Entries<TypeView>, s2: Entries<TypeView>, x: Seq<char>)
    ensures
        entry_get(compose_view(s1, s2), x) == if binds(s1, x) {
            Some(subst_apply(entry_get(s1, x)->Some_0, s2))
        } else {
            entry_get(s2, x)
        },
    decreases s1.len(),
{
    if s1.len() == 0 {
        lemma_key_index(s1, x);
    } else {
        let m = compose_view(s1.drop_last(), s2);
        lemma_compose_get(s1.drop_last(), s2, x);
        lemma_insert_get(m, s1.last().0, subst_apply(s1.last().1, s2), x);
        lemma_get_last(s1, x);
    }
}

/// The free variables of the types in the composition of `s1` and `s2`.
pub open spec fn mapped_ftv(s1: Entries<TypeView>, s2: Entries<TypeView>) -> Set<Seq<char>> {
    Set::new(
        |v: Seq<char>|
            exists|i: int| 0 <= i < s1.len() && #[trigger] ftv(subst_apply(s1[i].1, s2)).contains(v),
    )
}

/// The types an insertion leaves are those before it and the new one.
proof fn lemma_insert_range(m: Entries<TypeView>, k: Seq<char>, v: TypeView)
    ensures
        forall|x: Seq<char>| #[trigger] range_ftv(entry_insert(m, k, v)).contains(x) ==> range_ftv(m).contains(x)
            || ftv(v).contains(x),
{
    let t = entry_insert(m, k, v);
    assert forall|x: Seq<char>| #[trigger] range_ftv(t).contains(x) implies range_ftv(m).contains(x) || ftv(v).contains(x) by {
        let j = choose|j: int| 0 <= j < t.len() && #[trigger] ftv(t[j].1).contains(x);
        lemma_key_index(m, k);
        let i = key_index(m, k);
        if t[j].1 != v {
            if i >= 0 {
                assert(j != i);
            } else {
                assert(j != m.len());
            }
            assert(j < m.len() && t[j] == m[j]);
            assert(ftv(m[j].1).contains(x));
        }
    }
}

/// The variables a composition binds, and the free variables of the types
/// it holds.
pub proof fn lemma_compose_vars(s1: Entries<TypeView>, s2: Entries<TypeView>)
    ensures
        forall|x: Seq<char>| #[trigger] binds(compose_view(s1, s2), x) == (binds(s1, x) || binds(s2, x)),
        forall|x: Seq<char>| #[trigger] range_ftv(compose_view(s1, s2)).contains(x) ==> range_ftv(s2).contains(x)
            || mapped_ftv(s1, s2).contains(x),
    decreases s1.len(),
{
    assert forall|x: Seq<char>| #[trigger] binds(compose_view(s1, s2), x) == (binds(s1, x) || binds(s2, x)) by {
        lemma_compose_get(s1, s2, x);
    }
    if s1.len() > 0 {
        let m = compose_view(s1.drop_last(), s2);
        let val = subst_apply(s1.last().1, s2);
        lemma_compose_vars(s1.drop_last(), s2);
        lemma_insert_range(m, s1.last().0, val);
        assert forall|x: Seq<char>| #[trigger] range_ftv(compose_view(s1, s2)).contains(x) implies range_ftv(s2).contains(x)
            || mapped_ftv(s1, s2).contains(x) by {
            if ftv(val).contains(x) {
                assert(ftv(subst_apply(s1[s1.len() - 1].1, s2)).contains(x));
            } else if !range_ftv(s2).contains(x) {
                assert(range_ftv(m).contains(x));
                assert(mapped_ftv(s1.drop_last(), s2).contains(x));
                let i = choose|i: int| 0 <= i < s1.drop_last().len() && #[trigger] ftv(subst_apply(s1.drop_last()[i].1, s2)).contains(x);
                assert(s1.drop_last()[i] == s1[i]);
                assert(ftv(subst_apply(s1[i].1, s2)).contains(x));
            }
        }
    }
}

/// The composition of idempotent substitutions, the first binding no
/// variable free in the second, is idempotent.
pub proof fn lemma_compose_idempotent(s1: Entries<TypeView>, s2: Entries<TypeView>)
    requires
        idempotent(s1),
        idempotent(s2),
        keeps_clear(s1, s2),
    ensures
        idempotent(compose_view(s1, s2)),
{
    let c = compose_view(s1, s2);
    lemma_compose_vars(s1, s2);
    assert forall|v: Seq<char>| #[trigger] range_ftv(c).contains(v) implies !binds(c, v) by {
        if !range_ftv(s2).contains(v) {
            let i = choose|i: int| 0 <= i < s1.len() && #[trigger] ftv(subst_apply(s1[i].1, s2)).contains(v);
            lemma_subst_clears(s1[i].1, s2);
            lemma_ftv_apply(s1[i].1, s2, s2.len());
            if ftv(s1[i].1).contains(v) {
                assert(range_ftv(s1).contains(v));
            }
        }
        assert(binds(c, v) == (binds(s1, v) || binds(s2, v)));
    }
}

/// One step of a composition is one step of each part in turn.
proof fn lemma_compose_apply(t: TypeView, s1: Entries<TypeView>, s2: Entries<TypeView>)
    requires
        idempotent(s1),
        idempotent(s2),
        keeps_clear(s1, s2),
    ensures
        apply_fuel(t, compose_view(s1, s2), 1) == apply_fuel(apply_fuel(t, s1, 1), s2, 1),
    decreases t,
{
    let c = compose_view(s1, s2);
    match t {
        TypeView::Var(x) => {
            lemma_compose_get(s1, s2, x);
            if binds(s1, x) {
                let u = entry_get(s1, x)->Some_0;
                lemma_apply_zero(subst_apply(u, s2), c);
                lemma_apply_zero(u, s1);
                lemma_subst_once(u, s2);
            } else if binds(s2, x) {
                lemma_apply_zero(entry_get(s2, x)->Some_0, c);
                lemma_apply_zero(entry_get(s2, x)->Some_0, s2);
            }
        },
        TypeView::Named { name, params } => {
            if params.len() == 0 && name.0 is None {
                if generic_name(name.1) {
                    let x = name.1;
                    lemma_compose_get(s1, s2, x);
                    if binds(s1, x) {
                        let u = entry_get(s1, x)->Some_0;
                        lemma_apply_zero(subst_apply(u, s2), c);
                        lemma_apply_zero(u, s1);
                        lemma_subst_once(u, s2);
                    } else if binds(s2, x) {
                        lemma_apply_zero(entry_get(s2, x)->Some_0, c);
                        lemma_apply_zero(entry_get(s2, x)->Some_0, s2);
                    }
                }
            } else {
                lemma_compose_apply_all(params, s1, s2);
                lemma_apply_all_len(params, s1, 1);
            }
        },
        TypeView::Tuple(ts) => {
            lemma_compose_apply_all(ts, s1, s2);
        },
        TypeView::Function { params, ret } => {
            lemma_compose_apply_all(params, s1, s2);
            lemma_compose_apply(*ret, s1, s2);
        },
        TypeView::Refined { base, .. } => {
            lemma_compose_apply(*base, s1, s2);
        },
    }
}

proof fn lemma_compose_apply_all(ts: Seq<TypeView>, s1: Entries<TypeView>, s2: Entries<TypeView>)
    requires
        idempotent(s1),
        idempotent(s2),
        keeps_clear(s1, s2),
    ensures
        apply_all(ts, compose_view(s1, s2), 1) == apply_all(apply_all(ts, s1, 1), s2, 1),
    decreases ts,
{
    if ts.len() > 0 {
        lemma_compose_apply_all(ts.drop_last(), s1, s2);
        lemma_compose_apply(ts.last(), s1, s2);
        lemma_apply_all_len(ts.drop_last(), s1, 1);
        let x = apply_all(ts, s1, 1);
        assert(x.drop_last() == apply_all(ts.drop_last(), s1, 1));
        assert(x.last() == apply_fuel(ts.last(), s1, 1));
    }
}

/// Applying the composition of `s1` and `s2` is applying `s1`, then `s2`,
/// when neither binds a variable free in a type it holds and `s1` binds no
/// variable free in a type that `s2` holds.
pub proof fn law_compose_applies_in_turn(t: TypeView, s1: Entries<TypeView>, s2: Entries<TypeView>)
    requires
        idempotent(s1),
        idempotent(s2),
        keeps_clear(s1, s2),
    ensures
        subst_apply(t, compose_view(s1, s2)) == subst_apply(subst_apply(t, s1), s2),
{
    lemma_compose_idempotent(s1, s2);
    lemma_subst_once(t, compose_view(s1, s2));
    lemma_subst_once(t, s1);
    lemma_subst_once(subst_apply(t, s1), s2);
    lemma_compose_apply(t, s1, s2);
}

/// Whether `s` is what sound unification of `t1` and `t2` gives: it makes
/// them equal, binds no variable free in a type it holds, and names only
/// variables free in the two types.
pub open spec fn sound_unifier(s: Entries<TypeView>, t1: TypeView, t2: TypeView) -> bool {
    &&& subst_apply(t1, s) == subst_apply(t2, s)
    &&& idempotent(s)
    &&& forall|v: Seq<char>| #[trigger] binds(s, v) ==> ftv(t1).contains(v) || ftv(t2).contains(v)
    &&& forall|v: Seq<char>| #[trigger] range_ftv(s).contains(v) ==> ftv(t1).contains(v) || ftv(t2).contains(v)
}

/// The same for the first `n` pairs of `a` and `b`.
pub open spec fn sound_pairs_unifier(s: Entries<TypeView>, a: Seq<TypeView>, b: Seq<TypeView>, n: nat) -> bool {
    &&& forall|i: int| 0 <= i < n ==> #[trigger] subst_apply(a[i], s) == subst_apply(b[i], s)
    &&& idempotent(s)
    &&& forall|v: Seq<char>| #[trigger] binds(s, v) ==> ftvs(a).contains(v) || ftvs(b).contains(v)
    &&& forall|v: Seq<char>| #[trigger] range_ftv(s).contains(v) ==> ftvs(a).contains(v) || ftvs(b).contains(v)
}

/// The empty substitution binds nothing and changes nothing.
proof fn lemma_empty_subst()
    ensures
        idempotent(Seq::<(Seq<char>, TypeView)>::empty()),
        forall|v: Seq<char>| !#[trigger] binds(Seq::<(Seq<char>, TypeView)>::empty(), v),
        forall|v: Seq<char>| !#[trigger] range_ftv(Seq::<(Seq<char>, TypeView)>::empty()).contains(v),
        forall|t: TypeView| #[trigger] subst_apply(t, Seq::<(Seq<char>, TypeView)>::empty()) == t,
{
    let e = Seq::<(Seq<char>, TypeView)>::empty();
    assert forall|v: Seq<char>| !#[trigger] binds(e, v) by {
        lemma_key_index(e, v);
    }
    assert forall|t: TypeView| #[trigger] subst_apply(t, e) == t by {
        law_apply_empty(t);
    }
}

/// The free variables of an element are among those of the sequence.
proof fn lemma_ftvs_index(ts: Seq<TypeView>, i: int)
    requires
        0 <= i < ts.len(),
    ensures
        ftv(ts[i]).subset_of(ftvs(ts)),
    decreases ts.len(),
{
    if i < ts.len() - 1 {
        lemma_ftvs_index(ts.drop_last(), i);
        assert(ts.drop_last()[i] == ts[i]);
    }
}

/// The `i`-th type of a sequence under a substitution.
proof fn lemma_apply_all_index(ts: Seq<TypeView>, s: Entries<TypeView>, fuel: nat, i: int)
    requires
        0 <= i < ts.len(),
    ensures
        apply_all(ts, s, fuel)[i] == apply_fuel(ts[i], s, fuel),
    decreases ts.len(),
{
    lemma_apply_all_len(ts.drop_last(), s, fuel);
    if i < ts.len() - 1 {
        lemma_apply_all_index(ts.drop_last(), s, fuel, i);
        assert(ts.drop_last()[i] == ts[i]);
    }
}

/// Two sequences whose types agree under a substitution agree as a whole.
proof fn lemma_apply_all_agree(a: Seq<TypeView>, b: Seq<TypeView>, s: Entries<TypeView>)
    requires
        a.len() == b.len(),
        forall|i: int| 0 <= i < a.len() ==> #[trigger] subst_apply(a[i], s) == subst_apply(b[i], s),
    ensures
        apply_all(a, s, s.len()) == apply_all(b, s, s.len()),
{
    lemma_apply_all_len(a, s, s.len());
    lemma_apply_all_len(b, s, s.len());
    assert forall|i: int| 0 <= i < a.len() implies apply_all(a, s, s.len())[i] == apply_all(b, s, s.len())[i] by {
        lemma_apply_all_index(a, s, s.len(), i);
        lemma_apply_all_index(b, s, s.len(), i);
        assert(subst_apply(a[i], s) == subst_apply(b[i], s));
    }
    assert(apply_all(a, s, s.len()) =~= apply_all(b, s, s.len()));
}

/// Binding a variable that does not occur in `t` soundly unifies the
/// variable, be it a `Var` or a generic named type, with `t`.
proof fn lemma_bind_sound(x: TypeView, v: Seq<char>, t: TypeView)
    requires
        x == TypeView::Var(v) || generic_named(x) == Some(v),
    ensures
        bind_spec(v, t) matches Ok((s, _)) ==> sound_unifier(s, x, t) && sound_unifier(s, t, x),
{
    law_bind_unifies(v, t);
    if !ftv(t).contains(v) {
        let s = seq![(v, t)];
        assert(s.drop_last() =~= Seq::<(Seq<char>, TypeView)>::empty());
        assert(entry_get(s, v) == Some(t));
        lemma_apply_zero(t, s);
        assert(subst_apply(x, s) == t);
        assert forall|k: Seq<char>| #[trigger] binds(s, k) implies k == v by {
            lemma_key_index(s.drop_last(), k);
        }
        assert forall|k: Seq<char>| #[trigger] range_ftv(s).contains(k) implies ftv(t).contains(k) by {
            let i = choose|i: int| 0 <= i < s.len() && #[trigger] ftv(s[i].1).contains(k);
            assert(i == 0);
        }
        assert(ftv(x).contains(v));
    }
}

/// A step of unification: with `s` unifying what came before, a sound
/// unifier `s1` of two types under `s` composes with `s` into a sound
/// substitution that makes them equal.
proof fn lemma_step(s: Entries<TypeView>, s1: Entries<TypeView>, x1: TypeView, x2: TypeView, vs: Set<Seq<char>>)
    requires
        idempotent(s),
        forall|v: Seq<char>| #[trigger] binds(s, v) ==> vs.contains(v),
        forall|v: Seq<char>| #[trigger] range_ftv(s).contains(v) ==> vs.contains(v),
        ftv(x1).subset_of(vs),
        ftv(x2).subset_of(vs),
        sound_unifier(s1, subst_apply(x1, s), subst_apply(x2, s)),
    ensures
        keeps_clear(s, s1),
        idempotent(s1),
        idempotent(compose_view(s, s1)),
        subst_apply(x1, compose_view(s, s1)) == subst_apply(x2, compose_view(s, s1)),
        forall|v: Seq<char>| #[trigger] binds(compose_view(s, s1), v) ==> vs.contains(v),
        forall|v: Seq<char>| #[trigger] range_ftv(compose_view(s, s1)).contains(v) ==> vs.contains(v),
{
    lemma_subst_clears(x1, s);
    lemma_subst_clears(x2, s);
    lemma_ftv_apply(x1, s, s.len());
    lemma_ftv_apply(x2, s, s.len());
    assert forall|v: Seq<char>| #[trigger] range_ftv(s1).contains(v) implies !binds(s, v) by {
        assert(ftv(subst_apply(x1, s)).contains(v) || ftv(subst_apply(x2, s)).contains(v));
    }
    lemma_compose_idempotent(s, s1);
    law_compose_applies_in_turn(x1, s, s1);
    law_compose_applies_in_turn(x2, s, s1);
    lemma_compose_vars(s, s1);
    let c = compose_view(s, s1);
    assert forall|v: Seq<char>| #[trigger] binds(c, v) implies vs.contains(v) by {
        if binds(s1, v) {
            assert(ftv(subst_apply(x1, s)).contains(v) || ftv(subst_apply(x2, s)).contains(v));
        }
    }
    assert forall|v: Seq<char>| #[trigger] range_ftv(c).contains(v) implies vs.contains(v) by {
        if range_ftv(s1).contains(v) {
            assert(ftv(subst_apply(x1, s)).contains(v) || ftv(subst_apply(x2, s)).contains(v));
        } else {
            assert(mapped_ftv(s, s1).contains(v));
            let i = choose|i: int| 0 <= i < s.len() && #[trigger] ftv(subst_apply(s[i].1, s1)).contains(v);
            lemma_ftv_apply(s[i].1, s1, s1.len());
            if ftv(s[i].1).contains(v) {
                assert(range_ftv(s).contains(v));
            } else {
                assert(range_ftv(s1).contains(v));
            }
        }
    }
}

/// Unification in an environment without interfaces is sound.
proof fn lemma_unify_sound(t1: TypeView, t2: TypeView, env: Environment, fuel: nat)
    requires
        env.interfaces.entries().len() == 0,
    ensures
        unify_fuel(t1, t2, env, fuel) matches Ok((s, _)) ==> sound_unifier(s, t1, t2),
    decreases fuel, 0nat, 0nat,
{
    lemma_empty_subst();
    if t1 == t2 {
    } else if generic_named(t1) is Some {
        lemma_bind_sound(t1, generic_named(t1)->Some_0, t2);
    } else if generic_named(t2) is Some {
        lemma_bind_sound(t2, generic_named(t2)->Some_0, t1);
    } else if t1 is Var {
        lemma_bind_sound(t1, t1->Var_0, t2);
    } else if t2 is Var {
        lemma_bind_sound(t2, t2->Var_0, t1);
    } else {
        match (t1, t2) {
            (TypeView::Tuple(a), TypeView::Tuple(b)) => {
                if a.len() == b.len() && fuel > 0 {
                    lemma_pairs_sound(a, b, a.len(), env, (fuel - 1) as nat);
                    match unify_pairs(a, b, a.len(), env, (fuel - 1) as nat) {
                        Ok((s, _)) => {
                            lemma_apply_all_agree(a, b, s);
                        },
                        Err(_) => {},
                    }
                }
            },
            (TypeView::Function { params: p1, ret: r1 }, TypeView::Function { params: p2, ret: r2 }) => {
                if p1.len() == p2.len() && fuel > 0 {
                    lemma_pairs_sound(p1, p2, p1.len(), env, (fuel - 1) as nat);
                    match unify_pairs(p1, p2, p1.len(), env, (fuel - 1) as nat) {
                        Ok((s, _)) => {
                            lemma_unify_sound(subst_apply(*r1, s), subst_apply(*r2, s), env, (fuel - 1) as nat);
                            match unify_fuel(subst_apply(*r1, s), subst_apply(*r2, s), env, (fuel - 1) as nat) {
                                Ok((s2, _)) => {
                                    let vs = ftv(t1).union(ftv(t2));
                                    lemma_step(s, s2, *r1, *r2, vs);
                                    let c = compose_view(s, s2);
                                    assert forall|i: int| 0 <= i < p1.len() implies #[trigger] subst_apply(p1[i], c)
                                        == subst_apply(p2[i], c) by {
                                        law_compose_applies_in_turn(p1[i], s, s2);
                                        law_compose_applies_in_turn(p2[i], s, s2);
                                        assert(subst_apply(p1[i], s) == subst_apply(p2[i], s));
                                    }
                                    lemma_apply_all_agree(p1, p2, c);
                                },
                                Err(_) => {},
                            }
                        },
                        Err(_) => {},
                    }
                }
            },
            (TypeView::Named { name: n1, params: p1 }, TypeView::Named { name: n2, params: p2 }) => {
                lemma_key_index(env.interfaces.entries(), n1.1);
                lemma_key_index(env.interfaces.entries(), n2.1);
                if n1 == n2 && p1.len() == p2.len() && fuel > 0 {
                    if p1.len() == 0 {
                        assert(p1 =~= p2);
                    }
                    lemma_pairs_sound(p1, p2, p1.len(), env, (fuel - 1) as nat);
                    match unify_pairs(p1, p2, p1.len(), env, (fuel - 1) as nat) {
                        Ok((s, _)) => {
                            lemma_apply_all_agree(p1, p2, s);
                        },
                        Err(_) => {},
                    }
                }
            },
            _ => {},
        }
    }
}

/// Unification of the first `n` pairs in an environment without
/// interfaces is sound.
proof fn lemma_pairs_sound(a: Seq<TypeView>, b: Seq<TypeView>, n: nat, env: Environment, fuel: nat)
    requires
        env.interfaces.entries().len() == 0,
        n <= a.len(),
        n <= b.len(),
    ensures
        unify_pairs(a, b, n, env, fuel) matches Ok((s, _)) ==> sound_pairs_unifier(s, a, b, n),
    decreases fuel, 1nat, n,
{
    lemma_empty_subst();
    if n > 0 {
        lemma_pairs_sound(a, b, (n - 1) as nat, env, fuel);
        match unify_pairs(a, b, (n - 1) as nat, env, fuel) {
            Ok((s, _)) => {
                let x1 = a[n - 1];
                let x2 = b[n - 1];
                lemma_unify_sound(subst_apply(x1, s), subst_apply(x2, s), env, fuel);
                match unify_fuel(subst_apply(x1, s), subst_apply(x2, s), env, fuel) {
                    Ok((s1, _)) => {
                        let vs = ftvs(a).union(ftvs(b));
                        lemma_ftvs_index(a, n - 1);
                        lemma_ftvs_index(b, n - 1);
                        lemma_step(s, s1, x1, x2, vs);
                        let c = compose_view(s, s1);
                        assert forall|i: int| 0 <= i < n implies #[trigger] subst_apply(a[i], c) == subst_apply(b[i], c) by {
                            if i < n - 1 {
                                law_compose_applies_in_turn(a[i], s, s1);
                                law_compose_applies_in_turn(b[i], s, s1);
                                assert(subst_apply(a[i], s) == subst_apply(b[i], s));
                            }
                        }
                    },
                    Err(_) => {},
                }
            },
            Err(_) => {},
        }
    }
}

/// Unification in an environment without interfaces gives a substitution
/// that makes the two types equal, and binds no variable free in a type it
/// holds.
pub proof fn law_unify_equates(t1: TypeView, t2: TypeView, env: Environment)
    requires
        env.interfaces.entries().len() == 0,
    ensures
        unify_spec(t1, t2, env) matches Ok((s, _)) ==> subst_apply(t1, s) == subst_apply(t2, s) && idempotent(s),
{
    lemma_unify_sound(t1, t2, env, unify_depth());
}

} // verus!
