//! Coherence of interface implementations: the orphan rule and the contract
//! of an interface.

use vstd::prelude::*;
use crate::ast::decl::{ImplDef, FunctionDef};
use crate::ast::types::{
    Type, TypeView, FunctionSig, FunctionSigView, types_view, lemma_types_view_len,
    lemma_types_view_index, copy_type,
};
use crate::lexer::token::Span;
use crate::type_checker::environment::{Environment, set_has};
use crate::type_checker::error::{TypeError, TypeErrorView};
use crate::type_checker::inference::{
    Substitution, subst_view, subst_apply, compose, compose_view, apply, unify, unify_spec,
    instantiate, instantiation, free_type_vars, names_seq, ftv_seq, ftv, ftvs, generic_name,
    is_generic_name, type_names_ok, lemma_ftv_apply, range_ftv,
};
use crate::type_checker::table::{Table, Entries, entry_get, entry_insert, lemma_key_index};
use crate::text::{decimal, push_decimal, push_str, string_from_chars};

verus! {

broadcast use vstd::string::group_string_axioms;

// =============================================================================
// ORPHAN RULE
// =============================================================================

/// The orphan rule: an interface may be implemented for a type only when the
/// type or the interface is defined in the module being checked.
pub open spec fn orphan_ok(env: Environment, ty: Seq<char>, iface: Seq<char>) -> bool {
    set_has(env.local_types.entries(), ty) || set_has(env.local_interfaces.entries(), iface)
}

/// Checks the orphan rule for `impl_def`; the error names both sides.
pub fn check_orphan_rule(env: &Environment, impl_def: &ImplDef, span: Span) -> (r: Result<(), TypeError>)
    ensures
        match r {
            Ok(()) => orphan_ok(*env, impl_def.for_type.name@, impl_def.interface@),
            Err(e) => !orphan_ok(*env, impl_def.for_type.name@, impl_def.interface@) && e@
                == (TypeErrorView::OrphanRuleViolation {
                ty_name: impl_def.for_type.name@,
                interface_name: impl_def.interface@,
                span,
            }),
        },
{
    let type_is_local = env.is_local_type(impl_def.for_type.name.as_str());
    let interface_is_local = env.is_local_interface(impl_def.interface.0.as_str());
    if !type_is_local && !interface_is_local {
        return Err(TypeError::OrphanRuleViolation {
            ty_name: impl_def.for_type.name.clone(),
            interface_name: impl_def.interface.0.clone(),
            span,
        });
    }
    Ok(())
}

// =============================================================================
// INTERFACE CONTRACT
// =============================================================================

/// The simple named type `n`.
pub open spec fn named_type(n: Seq<char>) -> TypeView {
    TypeView::Named { name: (None, n), params: Seq::empty() }
}

/// `s` with each generic name of `vars` bound to the named type `ty`.
pub open spec fn bind_generics(s: Entries<TypeView>, vars: Seq<Seq<char>>, ty: Seq<char>) -> Entries<
    TypeView,
>
    decreases vars.len(),
{
    if vars.len() == 0 {
        s
    } else {
        let s1 = bind_generics(s, vars.drop_last(), ty);
        if generic_name(vars.last()) {
            entry_insert(s1, vars.last(), named_type(ty))
        } else {
            s1
        }
    }
}

/// `s` with the generic variables of each of `ps` bound to `ty`.
pub open spec fn bind_param_generics(s: Entries<TypeView>, ps: Seq<TypeView>, ty: Seq<char>) -> Entries<
    TypeView,
>
    decreases ps.len(),
{
    if ps.len() == 0 {
        s
    } else {
        bind_generics(bind_param_generics(s, ps.drop_last(), ty), ftv_seq(ps.last()), ty)
    }
}

/// The substitution that makes an interface's signature that of its
/// implementation for `ty`: the interface name and every generic variable
/// of the signature stand for `ty`.
pub open spec fn self_subst(iface: Seq<char>, ty: Seq<char>, sig: FunctionSigView) -> Entries<TypeView> {
    bind_generics(
        bind_param_generics(seq![(iface, named_type(ty))], sig.params, ty),
        ftv_seq(sig.ret),
        ty,
    )
}

/// Each type of `ts` under `s`.
pub open spec fn apply_each(ts: Seq<TypeView>, s: Entries<TypeView>) -> Seq<TypeView> {
    ts.map_values(|t: TypeView| subst_apply(t, s))
}

/// The types of `ts` instantiated one after the other from the counter `n`,
/// and the counter after.
pub open spec fn instantiate_each(ts: Seq<TypeView>, n: nat) -> (Seq<TypeView>, nat)
    decreases ts.len(),
{
    if ts.len() == 0 {
        (Seq::empty(), n)
    } else {
        let (a, m) = instantiate_each(ts.drop_last(), n);
        let (t, k) = instantiation(ts.last(), m);
        (a.push(t), k)
    }
}

/// The first function of `fs` named `name`.
pub open spec fn find_function(fs: Seq<FunctionDef>, name: Seq<char>) -> Option<FunctionDef>
    decreases fs.len(),
{
    if fs.len() == 0 {
        None
    } else {
        match find_function(fs.drop_last(), name) {
            Some(f) => Some(f),
            None => if fs.last().name@ == name {
                Some(fs.last())
            } else {
                None
            },
        }
    }
}

/// The unification of the first `k` parameter types of an implementation
/// (`a`) with the expected ones (`b`), each pair under the substitution of
/// the pairs before; a failure is reported as a mismatch of the pair.
pub open spec fn unify_impl_params(
    env: Environment,
    a: Seq<TypeView>,
    b: Seq<TypeView>,
    k: nat,
    span: Span,
) -> Result<Entries<TypeView>, TypeErrorView>
    decreases k,
{
    if k == 0 {
        Ok(Seq::empty())
    } else {
        match unify_impl_params(env, a, b, (k - 1) as nat, span) {
            Err(e) => Err(e),
            Ok(s) => match unify_spec(subst_apply(a[k - 1], s), subst_apply(b[k - 1], s), env) {
                Ok((s1, _)) => Ok(compose_view(s, s1)),
                Err(_) => Err(TypeErrorView::TypeMismatch { expected: b[k - 1], found: a[k - 1], span }),
            },
        }
    }
}

/// The message for an arity mismatch of a member.
pub open spec fn member_arity_message(member: Seq<char>, expected: nat, found: nat) -> Seq<char> {
    "Arity Mismatch in member `"@ + member + "`: expected "@ + decimal(expected) + ", but found "@
        + decimal(found)
}

/// The check of one member of the interface against the implementation,
/// with the fresh-variable counter before and after.
pub open spec fn member_check(
    env: Environment,
    imp: ImplDef,
    member: Seq<char>,
    exp: FunctionSigView,
    span: Span,
    n: nat,
) -> (Result<(), TypeErrorView>, nat) {
    let iface = imp.interface@;
    match find_function(imp.implementations@, member) {
        None => (
            Err(
                TypeErrorView::UnboundVariable {
                    name: "Member `"@ + member + "` of interface `"@ + iface + "`"@,
                    span,
                },
            ),
            n,
        ),
        Some(f) => {
            let s = self_subst(iface, imp.for_type.name@, exp);
            let (ips, m) = instantiate_each(apply_each(exp.params, s), n);
            let (iret, m2) = instantiation(subst_apply(exp.ret, s), m);
            let fparams = f.sig@.params;
            if fparams.len() != ips.len() {
                (
                    Err(
                        TypeErrorView::UnboundVariable {
                            name: member_arity_message(member, ips.len(), fparams.len()),
                            span,
                        },
                    ),
                    m2,
                )
            } else {
                match unify_impl_params(env, fparams, ips, fparams.len(), span) {
                    Err(e) => (Err(e), m2),
                    Ok(s2) => match unify_spec(
                        subst_apply(f.sig@.ret, s2),
                        subst_apply(iret, s2),
                        env,
                    ) {
                        Ok(_) => (Ok(()), m2),
                        Err(_) => (
                            Err(TypeErrorView::TypeMismatch { expected: iret, found: f.sig@.ret, span }),
                            m2,
                        ),
                    },
                }
            }
        },
    }
}

/// The checks of the first `k` members of `ms`, stopping at the first
/// failure, with the counter before and after.
pub open spec fn members_check(
    env: Environment,
    imp: ImplDef,
    ms: Entries<FunctionSig>,
    k: nat,
    span: Span,
    n: nat,
) -> (Result<(), TypeErrorView>, nat)
    decreases k,
{
    if k == 0 {
        (Ok(()), n)
    } else {
        let (r, m) = members_check(env, imp, ms, (k - 1) as nat, span, n);
        if r is Err {
            (r, m)
        } else {
            member_check(env, imp, ms[k - 1].0, ms[k - 1].1@, span, m)
        }
    }
}

/// The check that an implementation meets its interface: every member of
/// the interface is implemented with a matching signature.
pub open spec fn validate_spec(env: Environment, imp: ImplDef, span: Span, n: nat) -> (Result<
    (),
    TypeErrorView,
>, nat) {
    match entry_get(env.interfaces.entries(), imp.interface@) {
        None => (
            Err(
                TypeErrorView::UnboundVariable {
                    name: "Interface `"@ + imp.interface@ + "`"@,
                    span,
                },
            ),
            n,
        ),
        Some(info) => members_check(
            env,
            imp,
            info.members.entries(),
            info.members.entries().len(),
            span,
            n,
        ),
    }
}

/// Whether the signature's types name their variables with at least one
/// character.
pub open spec fn sig_names_ok(sig: FunctionSigView) -> bool {
    &&& forall|i: int| 0 <= i < sig.params.len() ==> type_names_ok(#[trigger] sig.params[i])
    &&& type_names_ok(sig.ret)
}

/// Whether the members of the interface `iface`, if it is known, have
/// signatures whose variables have names of at least one character.
pub open spec fn interface_names_ok(env: Environment, iface: Seq<char>) -> bool {
    match entry_get(env.interfaces.entries(), iface) {
        Some(info) => forall|i: int|
            0 <= i < info.members.entries().len() ==> sig_names_ok(
                (#[trigger] info.members.entries()[i]).1@,
            ),
        None => true,
    }
}

/// The view of a result of a check.
pub open spec fn check_result_view(r: Result<(), TypeError>) -> Result<(), TypeErrorView> {
    match r {
        Ok(()) => Ok(()),
        Err(e) => Err(e@),
    }
}

/// Whether every binding of `s` is to `v`.
pub open spec fn values_all(s: Entries<TypeView>, v: TypeView) -> bool {
    forall|i: int| 0 <= i < s.len() ==> (#[trigger] s[i]).1 == v
}

proof fn lemma_insert_values_all(s: Entries<TypeView>, k: Seq<char>, v: TypeView)
    requires
        values_all(s, v),
    ensures
        values_all(entry_insert(s, k, v), v),
{
    lemma_key_index(s, k);
}

proof fn lemma_bind_generics_values(s: Entries<TypeView>, vars: Seq<Seq<char>>, ty: Seq<char>)
    requires
        values_all(s, named_type(ty)),
    ensures
        values_all(bind_generics(s, vars, ty), named_type(ty)),
    decreases vars.len(),
{
    if vars.len() > 0 {
        lemma_bind_generics_values(s, vars.drop_last(), ty);
        lemma_insert_values_all(bind_generics(s, vars.drop_last(), ty), vars.last(), named_type(ty));
    }
}

proof fn lemma_bind_param_generics_values(s: Entries<TypeView>, ps: Seq<TypeView>, ty: Seq<char>)
    requires
        values_all(s, named_type(ty)),
    ensures
        values_all(bind_param_generics(s, ps, ty), named_type(ty)),
    decreases ps.len(),
{
    if ps.len() > 0 {
        lemma_bind_param_generics_values(s, ps.drop_last(), ty);
        lemma_bind_generics_values(bind_param_generics(s, ps.drop_last(), ty), ftv_seq(ps.last()), ty);
    }
}

/// Types under the substitution of an implementation keep names of at least
/// one character.
proof fn lemma_self_subst_names_ok(iface: Seq<char>, ty: Seq<char>, sig: FunctionSigView, t: TypeView)
    requires
        type_names_ok(t),
    ensures
        type_names_ok(subst_apply(t, self_subst(iface, ty, sig))),
{
    let s = self_subst(iface, ty, sig);
    let s0 = seq![(iface, named_type(ty))];
    assert(values_all(s0, named_type(ty)));
    lemma_bind_param_generics_values(s0, sig.params, ty);
    lemma_bind_generics_values(bind_param_generics(s0, sig.params, ty), ftv_seq(sig.ret), ty);
    lemma_ftv_apply(t, s, s.len());
    assert forall|v: Seq<char>| #[trigger] ftv(subst_apply(t, s)).contains(v) implies v.len() > 0 by {
        if range_ftv(s).contains(v) {
            let i = choose|i: int| 0 <= i < s.len() && #[trigger] ftv(s[i].1).contains(v);
            assert(s[i].1 == named_type(ty));
            if !generic_name(ty) {
                assert(ftvs(Seq::<TypeView>::empty()) =~= Set::<Seq<char>>::empty());
                assert(ftv(named_type(ty)) == ftvs(Seq::<TypeView>::empty()));
            }
        }
    }
}

fn bind_generics_exec(s: &mut Substitution, vars: &Vec<String>, ty: &str)
    ensures
        subst_view(final(s).entries()) == bind_generics(subst_view(old(s).entries()), names_seq(vars@), ty@),
{
    let ghost start = subst_view(s.entries());
    let mut i: usize = 0;
    assert(names_seq(vars@).take(0) =~= Seq::<Seq<char>>::empty());
    while i < vars.len()
        invariant
            i <= vars.len(),
            subst_view(s.entries()) == bind_generics(start, names_seq(vars@).take(i as int), ty@),
        decreases vars.len() - i,
    {
        assert(names_seq(vars@).take(i + 1).drop_last() =~= names_seq(vars@).take(i as int));
        if is_generic_name(vars[i].as_str()) {
            let t = Type::named(ty);
            proof {
                crate::type_checker::inference::lemma_subst_view_insert(s.entries(), vars@[i as int]@, t);
            }
            s.insert(vars[i].clone(), t);
        }
        i = i + 1;
    }
    assert(names_seq(vars@).take(vars@.len() as int) =~= names_seq(vars@));
}

fn build_self_subst(iface: &str, ty: &str, sig: &FunctionSig) -> (r: Substitution)
    ensures
        subst_view(r.entries()) == self_subst(iface@, ty@, sig@),
{
    let mut s: Substitution = Table::new();
    let t = Type::named(ty);
    proof {
        crate::type_checker::inference::lemma_subst_view_insert(s.entries(), iface@, t);
        lemma_key_index(Seq::<(Seq<char>, TypeView)>::empty(), iface@);
    }
    s.insert(String::from_str(iface), t);
    assert(subst_view(s.entries()) =~= seq![(iface@, named_type(ty@))]);
    let ghost s0 = subst_view(s.entries());
    let ghost ps = types_view(sig.params@);
    proof {
        lemma_types_view_len(sig.params@);
        assert(ps.take(0) =~= Seq::<TypeView>::empty());
    }
    let mut i: usize = 0;
    while i < sig.params.len()
        invariant
            i <= sig.params.len(),
            ps == types_view(sig.params@),
            ps.len() == sig.params@.len(),
            subst_view(s.entries()) == bind_param_generics(s0, ps.take(i as int), ty@),
        decreases sig.params.len() - i,
    {
        proof {
            lemma_types_view_index(sig.params@, i as int);
            assert(ps.take(i + 1).drop_last() =~= ps.take(i as int));
        }
        let vars = free_type_vars(&sig.params[i]);
        bind_generics_exec(&mut s, &vars, ty);
        i = i + 1;
    }
    assert(ps.take(ps.len() as int) =~= ps);
    let vars = free_type_vars(&sig.return_type);
    bind_generics_exec(&mut s, &vars, ty);
    s
}

fn find_function_exec<'a>(fs: &'a Vec<FunctionDef>, name: &String) -> (r: Option<&'a FunctionDef>)
    ensures
        match r {
            Some(f) => find_function(fs@, name@) == Some(*f),
            None => find_function(fs@, name@) is None,
        },
{
    let mut i: usize = 0;
    assert(fs@.take(0) =~= Seq::<FunctionDef>::empty());
    while i < fs.len()
        invariant
            i <= fs.len(),
            find_function(fs@.take(i as int), name@) is None,
        decreases fs.len() - i,
    {
        assert(fs@.take(i + 1).drop_last() =~= fs@.take(i as int));
        if fs[i].name.0 == *name {
            proof {
                lemma_find_prefix(fs@, (i + 1) as nat, name@);
            }
            return Some(&fs[i]);
        }
        i = i + 1;
    }
    assert(fs@.take(fs@.len() as int) =~= fs@);
    None
}

proof fn lemma_find_prefix(fs: Seq<FunctionDef>, n: nat, name: Seq<char>)
    requires
        n <= fs.len(),
        find_function(fs.take(n as int), name) is Some,
    ensures
        find_function(fs, name) == find_function(fs.take(n as int), name),
    decreases fs.len() - n,
{
    if n < fs.len() {
        assert(fs.take((n + 1) as int).drop_last() =~= fs.take(n as int));
        lemma_find_prefix(fs, n + 1, name);
    } else {
        assert(fs.take(n as int) =~= fs);
    }
}

proof fn lemma_impl_params_err(
    env: Environment,
    a: Seq<TypeView>,
    b: Seq<TypeView>,
    k: nat,
    m: nat,
    span: Span,
)
    requires
        k <= m,
        unify_impl_params(env, a, b, k, span) is Err,
    ensures
        unify_impl_params(env, a, b, m, span) == unify_impl_params(env, a, b, k, span),
    decreases m - k,
{
    if k < m {
        lemma_impl_params_err(env, a, b, k, (m - 1) as nat, span);
    }
}

proof fn lemma_members_err(
    env: Environment,
    imp: ImplDef,
    ms: Entries<FunctionSig>,
    k: nat,
    m: nat,
    span: Span,
    n: nat,
)
    requires
        k <= m,
        members_check(env, imp, ms, k, span, n).0 is Err,
    ensures
        members_check(env, imp, ms, m, span, n) == members_check(env, imp, ms, k, span, n),
    decreases m - k,
{
    if k < m {
        lemma_members_err(env, imp, ms, k, (m - 1) as nat, span, n);
    }
}

fn check_member(
    env: &Environment,
    impl_def: &ImplDef,
    member: &String,
    expected_sig: &FunctionSig,
    span: Span,
    next: &mut usize,
) -> (r: Result<(), TypeError>)
    requires
        sig_names_ok(expected_sig@),
    ensures
        (check_result_view(r), *final(next) as nat) == member_check(
            *env,
            *impl_def,
            member@,
            expected_sig@,
            span,
            *old(next) as nat,
        ),
{
    let iface = &impl_def.interface.0;
    let f = match find_function_exec(&impl_def.implementations, member) {
        Some(f) => f,
        None => {
            let mut out: Vec<char> = Vec::new();
            push_str(&mut out, "Member `");
            push_str(&mut out, member.as_str());
            push_str(&mut out, "` of interface `");
            push_str(&mut out, iface.as_str());
            push_str(&mut out, "`");
            let name = string_from_chars(&out);
            assert(name@ =~= "Member `"@ + member@ + "` of interface `"@ + iface@ + "`"@);
            return Err(TypeError::UnboundVariable { name, span });
        },
    };
    let ty = &impl_def.for_type.name;
    let s = build_self_subst(iface.as_str(), ty.as_str(), expected_sig);
    let ghost sv = self_subst(iface@, ty@, expected_sig@);
    let ghost eps = expected_sig@.params;
    proof {
        lemma_types_view_len(expected_sig.params@);
    }
    let mut inst_params: Vec<Type> = Vec::new();
    let mut i: usize = 0;
    let ghost n0 = *next as nat;
    assert(eps.take(0) =~= Seq::<TypeView>::empty());
    assert(apply_each(eps.take(0), sv) =~= Seq::<TypeView>::empty());
    assert(types_view(inst_params@) =~= Seq::<TypeView>::empty());
    while i < expected_sig.params.len()
        invariant
            i <= expected_sig.params.len(),
            eps == types_view(expected_sig.params@),
            eps.len() == expected_sig.params@.len(),
            sv == subst_view(s.entries()),
            sv == self_subst(iface@, ty@, expected_sig@),
            iface@ == impl_def.interface@,
            ty@ == impl_def.for_type.name@,
            sig_names_ok(expected_sig@),
            instantiate_each(apply_each(eps.take(i as int), sv), n0) == (
                types_view(inst_params@),
                *next as nat,
            ),
        decreases expected_sig.params.len() - i,
    {
        proof {
            lemma_types_view_index(expected_sig.params@, i as int);
            assert(apply_each(eps.take(i + 1), sv).drop_last() =~= apply_each(eps.take(i as int), sv));
            lemma_self_subst_names_ok(iface@, ty@, expected_sig@, eps[i as int]);
        }
        let p = apply(&expected_sig.params[i], &s);
        let q = instantiate(&p, next);
        proof {
            crate::ast::types::lemma_types_view_push(inst_params@, q);
        }
        inst_params.push(q);
        i = i + 1;
    }
    assert(eps.take(eps.len() as int) =~= eps);
    proof {
        lemma_self_subst_names_ok(iface@, ty@, expected_sig@, expected_sig@.ret);
        lemma_types_view_len(inst_params@);
        lemma_types_view_len(f.sig.params@);
    }
    let ret = apply(&expected_sig.return_type, &s);
    let ghost mid = *next as nat;
    let inst_ret = instantiate(&ret, next);
    if f.sig.params.len() != inst_params.len() {
        let mut out: Vec<char> = Vec::new();
        push_str(&mut out, "Arity Mismatch in member `");
        push_str(&mut out, member.as_str());
        push_str(&mut out, "`: expected ");
        push_decimal(&mut out, inst_params.len() as u64);
        push_str(&mut out, ", but found ");
        push_decimal(&mut out, f.sig.params.len() as u64);
        let name = string_from_chars(&out);
        assert(name@ =~= member_arity_message(member@, inst_params@.len() as nat, f.sig.params@.len() as nat));
        return Err(TypeError::UnboundVariable { name, span });
    }
    let ghost a = types_view(f.sig.params@);
    let ghost b = types_view(inst_params@);
    let mut subst: Substitution = Table::new();
    assert(subst_view(subst.entries()) =~= Seq::<(Seq<char>, TypeView)>::empty());
    let mut j: usize = 0;
    while j < f.sig.params.len()
        invariant
            j <= f.sig.params.len(),
            f.sig.params.len() == inst_params.len(),
            a == types_view(f.sig.params@),
            b == types_view(inst_params@),
            a.len() == f.sig.params@.len(),
            b.len() == inst_params@.len(),
            find_function(impl_def.implementations@, member@) == Some(*f),
            iface@ == impl_def.interface@,
            ty@ == impl_def.for_type.name@,
            sv == self_subst(iface@, ty@, expected_sig@),
            n0 == *old(next) as nat,
            instantiate_each(apply_each(expected_sig@.params, sv), n0) == (b, mid),
            instantiation(subst_apply(expected_sig@.ret, sv), mid) == (inst_ret@, *next as nat),
            unify_impl_params(*env, a, b, j as nat, span) == Ok::<Entries<TypeView>, TypeErrorView>(
                subst_view(subst.entries()),
            ),
        decreases f.sig.params.len() - j,
    {
        proof {
            lemma_types_view_index(f.sig.params@, j as int);
            lemma_types_view_index(inst_params@, j as int);
        }
        let x = apply(&f.sig.params[j], &subst);
        let y = apply(&inst_params[j], &subst);
        match unify(&x, &y, env, &span) {
            Ok((s1, _)) => {
                subst = compose(&subst, &s1);
            },
            Err(_) => {
                assert(unify_impl_params(*env, a, b, (j + 1) as nat, span) == Err::<
                    Entries<TypeView>,
                    TypeErrorView,
                >(TypeErrorView::TypeMismatch { expected: b[j as int], found: a[j as int], span }));
                proof {
                    lemma_impl_params_err(*env, a, b, (j + 1) as nat, a.len(), span);
                }
                let err = TypeError::TypeMismatch {
                    expected: copy_type(&inst_params[j]),
                    found: copy_type(&f.sig.params[j]),
                    span,
                };
                assert(err@ == TypeErrorView::TypeMismatch { expected: b[j as int], found: a[j as int], span });
                assert(unify_impl_params(*env, f.sig@.params, b, f.sig@.params.len(), span) == Err::<
                    Entries<TypeView>,
                    TypeErrorView,
                >(err@));
                assert(member_check(*env, *impl_def, member@, expected_sig@, span, n0) == (
                    Err::<(), TypeErrorView>(err@),
                    *next as nat,
                ));
                return Err(err);
            },
        }
        j = j + 1;
    }
    let x = apply(&f.sig.return_type, &subst);
    let y = apply(&inst_ret, &subst);
    match unify(&x, &y, env, &span) {
        Ok(_) => Ok(()),
        Err(_) => Err(TypeError::TypeMismatch {
            expected: copy_type(&inst_ret),
            found: copy_type(&f.sig.return_type),
            span,
        }),
    }
}

/// Checks that `impl_def` meets the contract of its interface: every member
/// is implemented, with as many parameters as the member's signature and
/// with types that unify with it once the interface and the signature's
/// generic variables stand for the implementing type. Fresh variables are
/// taken from the counter `next`.
pub fn validate_interface_impl(env: &Environment, impl_def: &ImplDef, span: Span, next: &mut usize) -> (r: Result<
    (),
    TypeError,
>)
    requires
        interface_names_ok(*env, impl_def.interface@),
    ensures
        (check_result_view(r), *final(next) as nat) == validate_spec(
            *env,
            *impl_def,
            span,
            *old(next) as nat,
        ),
{
    let info = match env.interfaces.get(impl_def.interface.0.as_str()) {
        Some(info) => info,
        None => {
            let mut out: Vec<char> = Vec::new();
            push_str(&mut out, "Interface `");
            push_str(&mut out, impl_def.interface.0.as_str());
            push_str(&mut out, "`");
            let name = string_from_chars(&out);
            assert(name@ =~= "Interface `"@ + impl_def.interface@ + "`"@);
            return Err(TypeError::UnboundVariable { name, span });
        },
    };
    let ghost ms = info.members.entries();
    let ghost n0 = *next as nat;
    assert(entry_get(env.interfaces.entries(), impl_def.interface@) == Some(*info));
    assert forall|i: int| 0 <= i < ms.len() implies sig_names_ok((#[trigger] ms[i]).1@) by {
        let inf = entry_get(env.interfaces.entries(), impl_def.interface@)->Some_0;
        assert(inf == *info);
        assert(interface_names_ok(*env, impl_def.interface@));
        assert(sig_names_ok(inf.members.entries()[i].1@));
    }
    let n = info.members.len();
    let mut k: usize = 0;
    while k < n
        invariant
            k <= n,
            n == ms.len(),
            ms == info.members.entries(),
            entry_get(env.interfaces.entries(), impl_def.interface@) == Some(*info),
            n0 == *old(next) as nat,
            forall|i: int| 0 <= i < ms.len() ==> sig_names_ok((#[trigger] ms[i]).1@),
            members_check(*env, *impl_def, ms, k as nat, span, n0) == (
                Ok::<(), TypeErrorView>(()),
                *next as nat,
            ),
        decreases n - k,
    {
        let (name, sig) = info.members.entry(k);
        let r = check_member(env, impl_def, name, sig, span, next);
        assert((check_result_view(r), *next as nat) == members_check(
            *env,
            *impl_def,
            ms,
            (k + 1) as nat,
            span,
            n0,
        ));
        if r.is_err() {
            assert(members_check(*env, *impl_def, ms, (k + 1) as nat, span, n0).0 is Err);
            proof {
                lemma_members_err(*env, *impl_def, ms, (k + 1) as nat, n as nat, span, n0);
            }
            return r;
        }
        k = k + 1;
    }
    Ok(())
}

} // verus!
