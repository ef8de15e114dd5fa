//! The environment of the type checker: a stack of lexical scopes and the
//! global registries of dispatch signatures, types, interfaces and
//! implementations.

use vstd::prelude::*;
use crate::ast::types::{Type, FunctionSig, TypeView};
use crate::type_checker::table::{
    Table, Entries, entry_get, entry_insert, key_index, lemma_key_index,
};

verus! {

broadcast use vstd::string::group_string_axioms;

/// A set of names.
pub type NameSet = Table<()>;

/// Whether the set `s` holds `k`.
pub open spec fn set_has(s: Entries<()>, k: Seq<char>) -> bool {
    entry_get(s, k) is Some
}

/// What is known of an interface.
#[derive(Debug)]
pub struct InterfaceInfo {
    pub name: String,
    /// Parent interfaces.
    pub extends: Vec<String>,
    /// Member signatures by member name.
    pub members: Table<FunctionSig>,
}

/// One lexical scope.
#[derive(Debug)]
pub struct Scope {
    /// Types of the variables bound in the scope.
    pub variables: Table<Type>,
    /// Types bound to generic type variables.
    pub type_bindings: Table<Type>,
}

impl Scope {
    /// A scope with no bindings.
    pub fn new() -> (r: Scope)
        ensures
            r.variables.entries() == Seq::<(Seq<char>, Type)>::empty(),
            r.type_bindings.entries() == Seq::<(Seq<char>, Type)>::empty(),
    {
        Scope { variables: Table::new(), type_bindings: Table::new() }
    }
}

/// The type of `k` in the innermost of the scopes `ss` that binds it.
pub open spec fn lookup_in_scopes(ss: Seq<Entries<Type>>, k: Seq<char>) -> Option<Type>
    decreases ss.len(),
{
    if ss.len() == 0 {
        None
    } else {
        match entry_get(ss.last(), k) {
            Some(t) => Some(t),
            None => lookup_in_scopes(ss.drop_last(), k),
        }
    }
}

/// The environment of the type checker.
#[derive(Debug)]
pub struct Environment {
    /// The lexical scopes, outermost first.
    pub scopes: Vec<Scope>,
    /// Signatures of the multiple-dispatch functions by name.
    pub dispatch_table: Table<Vec<FunctionSig>>,
    /// Types defined by `data` and `enum`, by name.
    pub defined_types: Table<Type>,
    /// Interfaces by name.
    pub interfaces: Table<InterfaceInfo>,
    /// Types defined in the module being checked.
    pub local_types: NameSet,
    /// Interfaces defined in the module being checked.
    pub local_interfaces: NameSet,
    /// For each type name, the interfaces it implements.
    pub type_implements: Table<NameSet>,
}

/// Whether every member of an interface has a dispatch entry.
pub open spec fn members_dispatched(env: Environment, members: Entries<FunctionSig>) -> bool {
    forall|i: int|
        0 <= i < members.len() ==> #[trigger] entry_get(env.dispatch_table.entries(), members[i].0) is Some
}

/// Whether `t` is registered as implementing `iface`.
pub open spec fn registered_impl(env: Environment, t: TypeView, iface: Seq<char>) -> bool {
    match t {
        TypeView::Named { name, .. } => match entry_get(env.type_implements.entries(), name.1) {
            Some(set) => set_has(set.entries(), iface),
            None => false,
        },
        _ => false,
    }
}

/// The depth at which `t` satisfies `iface`, looking through at most `fuel`
/// levels of parent interfaces: 1 when `t` is registered as implementing
/// it; otherwise, when every member of `iface` has a dispatch entry and `t`
/// satisfies every parent, one more than the deepest parent (at least 1).
pub open spec fn satisfies_fuel(env: Environment, t: TypeView, iface: Seq<char>, fuel: nat) -> Option<nat>
    decreases fuel, 0nat, 0nat,
{
    if registered_impl(env, t, iface) {
        Some(1)
    } else {
        match entry_get(env.interfaces.entries(), iface) {
            None => None,
            Some(info) => if !members_dispatched(env, info.members.entries()) || fuel == 0 {
                None
            } else {
                parents_depth(env, t, info.extends@, (fuel - 1) as nat)
            },
        }
    }
}

/// The deepest depth plus one at which `t` satisfies the interfaces named by
/// `ps`, at least 1; `None` when one of them is not satisfied.
pub open spec fn parents_depth(env: Environment, t: TypeView, ps: Seq<String>, fuel: nat) -> Option<nat>
    decreases fuel, 1nat, ps.len(),
{
    if ps.len() == 0 {
        Some(1)
    } else {
        match parents_depth(env, t, ps.drop_last(), fuel) {
            None => None,
            Some(m) => match satisfies_fuel(env, t, ps.last()@, fuel) {
                None => None,
                Some(d) => Some(if d + 1 > m {
                    d + 1
                } else {
                    m
                }),
            },
        }
    }
}

/// How many levels of parent interfaces are followed: as many as there are
/// interfaces, within the range of `usize`.
pub open spec fn depth_bound(n: nat) -> nat {
    if n < usize::MAX {
        n
    } else {
        (usize::MAX - 1) as nat
    }
}

/// Whether two environments hold the same interfaces, implementations and
/// dispatch entries: all that satisfying an interface reads.
pub open spec fn same_interface_tables(a: Environment, b: Environment) -> bool {
    &&& a.interfaces == b.interfaces
    &&& a.type_implements == b.type_implements
    &&& a.dispatch_table == b.dispatch_table
}

/// Satisfying an interface reads nothing of an environment but its
/// interfaces, implementations and dispatch entries.
pub proof fn lemma_satisfies_fuel_tables(e1: Environment, e2: Environment, t: TypeView, iface: Seq<char>, fuel: nat)
    requires
        same_interface_tables(e1, e2),
    ensures
        satisfies_fuel(e1, t, iface, fuel) == satisfies_fuel(e2, t, iface, fuel),
    decreases fuel, 0nat, 0nat,
{
    match entry_get(e1.interfaces.entries(), iface) {
        Some(info) => {
            if fuel > 0 {
                lemma_parents_depth_tables(e1, e2, t, info.extends@, (fuel - 1) as nat);
            }
        },
        None => {},
    }
}

proof fn lemma_parents_depth_tables(e1: Environment, e2: Environment, t: TypeView, ps: Seq<String>, fuel: nat)
    requires
        same_interface_tables(e1, e2),
    ensures
        parents_depth(e1, t, ps, fuel) == parents_depth(e2, t, ps, fuel),
    decreases fuel, 1nat, ps.len(),
{
    if ps.len() > 0 {
        lemma_parents_depth_tables(e1, e2, t, ps.drop_last(), fuel);
        lemma_satisfies_fuel_tables(e1, e2, t, ps.last()@, fuel);
    }
}

/// `satisfies` in two environments with the same interface tables agrees.
pub proof fn lemma_satisfies_tables(e1: Environment, e2: Environment, t: TypeView, iface: Seq<char>)
    requires
        same_interface_tables(e1, e2),
    ensures
        satisfies(e1, t, iface) == satisfies(e2, t, iface),
{
    lemma_satisfies_fuel_tables(e1, e2, t, iface, depth_bound(e1.interfaces.entries().len()));
}

/// The depth at which `t` satisfies `iface`, if it does.
pub open spec fn satisfies(env: Environment, t: TypeView, iface: Seq<char>) -> Option<nat> {
    satisfies_fuel(env, t, iface, depth_bound(env.interfaces.entries().len()))
}

/// Scopes nest: a name bound in a scope just entered is found there and
/// hides any outer binding of it, other names are found as before, and
/// leaving the scope gives back every lookup of the scopes before it.
pub proof fn law_scope_shadowing(ts: Seq<Entries<Type>>, name: Seq<char>, t: Type, k: Seq<char>)
    ensures
        lookup_in_scopes(ts.push(entry_insert(Seq::empty(), name, t)), name) == Some(t),
        k != name ==> lookup_in_scopes(ts.push(entry_insert(Seq::empty(), name, t)), k)
            == lookup_in_scopes(ts, k),
        lookup_in_scopes(ts.push(entry_insert(Seq::empty(), name, t)).drop_last(), k)
            == lookup_in_scopes(ts, k),
{
    let inner = entry_insert(Seq::<(Seq<char>, Type)>::empty(), name, t);
    assert(key_index(Seq::<(Seq<char>, Type)>::empty(), name) == -1);
    assert(inner == seq![(name, t)]);
    assert(inner.drop_last() =~= Seq::<(Seq<char>, Type)>::empty());
    assert(key_index(inner, name) == 0);
    if k != name {
        assert(key_index(inner, k) == key_index(inner.drop_last(), k));
        assert(key_index(inner, k) == -1);
    }
    assert(ts.push(inner).drop_last() =~= ts);
}

/// The scope tables `ts` after each of `binds` is bound, in order, in the
/// innermost scope, as `bind_var` binds a name.
pub open spec fn bind_all(ts: Seq<Entries<Type>>, binds: Seq<(Seq<char>, Type)>) -> Seq<Entries<Type>>
    decreases binds.len(),
{
    if binds.len() == 0 {
        ts
    } else {
        let t2 = bind_all(ts, binds.drop_last());
        t2.update(t2.len() - 1, entry_insert(t2.last(), binds.last().0, binds.last().1))
    }
}

/// Binding names in the innermost scope touches no outer scope.
proof fn lemma_bind_all_outer(ss: Seq<Entries<Type>>, top: Entries<Type>, binds: Seq<(Seq<char>, Type)>)
    ensures
        bind_all(ss.push(top), binds).len() == ss.len() + 1,
        bind_all(ss.push(top), binds).drop_last() == ss,
    decreases binds.len(),
{
    if binds.len() > 0 {
        lemma_bind_all_outer(ss, top, binds.drop_last());
        let t2 = bind_all(ss.push(top), binds.drop_last());
        assert(t2.update(t2.len() - 1, entry_insert(t2.last(), binds.last().0, binds.last().1)).drop_last() =~= t2.drop_last());
    } else {
        assert(ss.push(top).drop_last() =~= ss);
    }
}

/// Entering a scope, binding any number of names in it and leaving it
/// gives back every lookup as it was before.
pub proof fn law_scope_round_trip(ss: Seq<Entries<Type>>, binds: Seq<(Seq<char>, Type)>, n: Seq<char>)
    ensures
        lookup_in_scopes(bind_all(ss.push(Seq::empty()), binds).drop_last(), n) == lookup_in_scopes(ss, n),
{
    lemma_bind_all_outer(ss, Seq::empty(), binds);
}

/// Recording that a type implements an interface a second time changes
/// nothing: the set of its interfaces is as after the first time.
pub proof fn law_implementation_registered_once(s: Entries<()>, iface: Seq<char>)
    ensures
        entry_insert(entry_insert(s, iface, ()), iface, ()) == entry_insert(s, iface, ()),
{
    let t = entry_insert(s, iface, ());
    lemma_key_index(s, iface);
    lemma_key_index(t, iface);
    if key_index(s, iface) >= 0 {
        let i = key_index(s, iface);
        assert(t[i].0 == iface);
        lemma_key_index_is_last(s, iface);
        assert forall|j: int| i < j < t.len() implies t[j].0 != iface by {
            assert(t[j] == s[j]);
        }
        lemma_key_index_last(t, iface, i);
        assert(t.update(i, (iface, ())) =~= t);
    } else {
        let i = t.len() - 1;
        assert(t[i].0 == iface);
        assert(key_index(t, iface) == i);
        assert(t.update(i, (iface, ())) =~= t);
    }
}

/// The entry `key_index` finds for `k` is its last.
proof fn lemma_key_index_is_last<V>(s: Entries<V>, k: Seq<char>)
    ensures
        forall|j: int| key_index(s, k) < j < s.len() ==> s[j].0 != k,
    decreases s.len(),
{
    lemma_key_index(s, k);
    if s.len() > 0 && s.last().0 != k {
        lemma_key_index_is_last(s.drop_last(), k);
        assert forall|j: int| key_index(s, k) < j < s.len() implies s[j].0 != k by {
            if j < s.len() - 1 {
                assert(s.drop_last()[j] == s[j]);
            }
        }
    }
}

/// In `t`, which has `k` at `i` and nowhere after it, `k` is found at `i`.
proof fn lemma_key_index_last<V>(t: Entries<V>, k: Seq<char>, i: int)
    requires
        0 <= i < t.len(),
        t[i].0 == k,
        forall|j: int| i < j < t.len() ==> t[j].0 != k,
    ensures
        key_index(t, k) == i,
    decreases t.len(),
{
    if t.len() - 1 > i {
        assert(t.last().0 != k);
        assert forall|j: int| i < j < t.drop_last().len() implies t.drop_last()[j].0 != k by {
            assert(t.drop_last()[j] == t[j]);
        }
        lemma_key_index_last(t.drop_last(), k, i);
    }
}

impl Environment {
    /// The variable tables of the scopes, outermost first.
    pub open spec fn scope_tables(&self) -> Seq<Entries<Type>> {
        self.scopes@.map_values(|s: Scope| s.variables.entries())
    }

    /// Whether there is at least one scope.
    pub open spec fn wf(&self) -> bool {
        self.scope_tables().len() >= 1
    }

    /// An environment with one empty global scope and empty registries.
    pub fn new() -> (r: Environment)
        ensures
            r.wf(),
            r.scope_tables() == seq![Seq::<(Seq<char>, Type)>::empty()],
            r.dispatch_table.entries().len() == 0,
            r.defined_types.entries().len() == 0,
            r.interfaces.entries().len() == 0,
            r.local_types.entries().len() == 0,
            r.local_interfaces.entries().len() == 0,
            r.type_implements.entries().len() == 0,
    {
        let mut scopes: Vec<Scope> = Vec::new();
        scopes.push(Scope::new());
        let r = Environment {
            scopes,
            dispatch_table: Table::new(),
            defined_types: Table::new(),
            interfaces: Table::new(),
            local_types: Table::new(),
            local_interfaces: Table::new(),
            type_implements: Table::new(),
        };
        assert(r.scope_tables() =~= seq![Seq::<(Seq<char>, Type)>::empty()]);
        r
    }

    /// Enters a new, empty innermost scope.
    pub fn enter_scope(&mut self)
        ensures
            final(self).scope_tables() == old(self).scope_tables().push(Seq::empty()),
            final(self).dispatch_table == old(self).dispatch_table,
            final(self).defined_types == old(self).defined_types,
            final(self).interfaces == old(self).interfaces,
            final(self).local_types == old(self).local_types,
            final(self).local_interfaces == old(self).local_interfaces,
            final(self).type_implements == old(self).type_implements,
    {
        self.scopes.push(Scope::new());
        assert(self.scope_tables() =~= old(self).scope_tables().push(Seq::empty()));
    }

    /// Leaves the innermost scope, dropping its bindings.
    pub fn exit_scope(&mut self)
        requires
            old(self).scope_tables().len() > 1,
        ensures
            final(self).scope_tables() == old(self).scope_tables().drop_last(),
            final(self).dispatch_table == old(self).dispatch_table,
            final(self).defined_types == old(self).defined_types,
            final(self).interfaces == old(self).interfaces,
            final(self).local_types == old(self).local_types,
            final(self).local_interfaces == old(self).local_interfaces,
            final(self).type_implements == old(self).type_implements,
    {
        self.scopes.pop();
        assert(self.scope_tables() =~= old(self).scope_tables().drop_last());
    }

    /// Binds `name` to `typ` in the innermost scope.
    pub fn bind_var(&mut self, name: &str, typ: Type)
        requires
            old(self).wf(),
        ensures
            final(self).scope_tables() == old(self).scope_tables().update(
                old(self).scope_tables().len() - 1,
                entry_insert(old(self).scope_tables().last(), name@, typ),
            ),
            lookup_in_scopes(final(self).scope_tables(), name@) == Some(typ),
            forall|y: Seq<char>|
                y != name@ ==> #[trigger] lookup_in_scopes(final(self).scope_tables(), y) == lookup_in_scopes(
                    old(self).scope_tables(),
                    y,
                ),
            final(self).dispatch_table == old(self).dispatch_table,
            final(self).defined_types == old(self).defined_types,
            final(self).interfaces == old(self).interfaces,
            final(self).local_types == old(self).local_types,
            final(self).local_interfaces == old(self).local_interfaces,
            final(self).type_implements == old(self).type_implements,
    {
        let n = self.scopes.len();
        let mut scope = self.scopes.pop().unwrap();
        let ghost vars0 = scope.variables;
        assert(vars0.entries() == old(self).scope_tables().last());
        scope.variables.insert(String::from_str(name), typ);
        self.scopes.push(scope);
        assert(self.scope_tables().last() == scope.variables.entries());
        assert(self.scope_tables() =~= old(self).scope_tables().update(
            n - 1,
            entry_insert(old(self).scope_tables().last(), name@, typ),
        ));
        assert forall|y: Seq<char>| y != name@ implies #[trigger] lookup_in_scopes(self.scope_tables(), y)
            == lookup_in_scopes(old(self).scope_tables(), y) by {
            assert(scope.variables.spec_get(y) == vars0.spec_get(y));
            assert(self.scope_tables().drop_last() =~= old(self).scope_tables().drop_last());
        }
    }

    /// The type of `name` in the innermost scope that binds it.
    pub fn lookup_var(&self, name: &str) -> (r: Option<&Type>)
        ensures
            match r {
                Some(t) => lookup_in_scopes(self.scope_tables(), name@) == Some(*t),
                None => lookup_in_scopes(self.scope_tables(), name@) is None,
            },
    {
        let mut i: usize = self.scopes.len();
        assert(self.scope_tables().take(i as int) =~= self.scope_tables());
        while i > 0
            invariant
                i <= self.scopes@.len(),
                self.scope_tables().len() == self.scopes@.len(),
                lookup_in_scopes(self.scope_tables(), name@) == lookup_in_scopes(
                    self.scope_tables().take(i as int),
                    name@,
                ),
            decreases i,
        {
            let ghost pre = self.scope_tables().take(i as int);
            assert(pre.drop_last() =~= self.scope_tables().take(i - 1));
            assert(pre.last() == self.scopes@[i - 1].variables.entries());
            match self.scopes[i - 1].variables.get(name) {
                Some(t) => {
                    return Some(t);
                },
                None => {},
            }
            i = i - 1;
        }
        None
    }

    /// Adds `sig` to the signatures of `name`.
    pub fn register_dispatch(&mut self, name: &str, sig: FunctionSig)
        ensures
            final(self).dispatch_table.spec_get(name@) matches Some(v) && v@ == match old(
                self,
            ).dispatch_table.spec_get(name@) {
                Some(w) => w@.push(sig),
                None => seq![sig],
            },
            forall|k: Seq<char>|
                k != name@ ==> #[trigger] final(self).dispatch_table.spec_get(k) == old(
                    self,
                ).dispatch_table.spec_get(k),
            final(self).scope_tables() == old(self).scope_tables(),
            final(self).defined_types == old(self).defined_types,
            final(self).interfaces == old(self).interfaces,
            final(self).local_types == old(self).local_types,
            final(self).local_interfaces == old(self).local_interfaces,
            final(self).type_implements == old(self).type_implements,
    {
        proof {
            lemma_key_index(self.dispatch_table.entries(), name@);
        }
        match self.dispatch_table.position(name) {
            Some(i) => {
                let mut sigs = self.dispatch_table.replace_at(i, Vec::new());
                sigs.push(sig);
                self.dispatch_table.replace_at(i, sigs);
            },
            None => {
                let mut sigs: Vec<FunctionSig> = Vec::new();
                sigs.push(sig);
                self.dispatch_table.insert(String::from_str(name), sigs);
            },
        }
    }

    /// The signatures of `name`, if any.
    pub fn lookup_dispatch(&self, name: &str) -> (r: Option<&Vec<FunctionSig>>)
        ensures
            match r {
                Some(v) => self.dispatch_table.spec_get(name@) == Some(*v),
                None => self.dispatch_table.spec_get(name@) is None,
            },
    {
        self.dispatch_table.get(name)
    }

    /// Registers the type `name`; marks it local to the module when
    /// `is_local`.
    pub fn register_type(&mut self, name: &str, typ: Type, is_local: bool)
        ensures
            final(self).defined_types.entries() == entry_insert(old(self).defined_types.entries(), name@, typ),
            final(self).local_types.entries() == if is_local {
                entry_insert(old(self).local_types.entries(), name@, ())
            } else {
                old(self).local_types.entries()
            },
            final(self).scope_tables() == old(self).scope_tables(),
            final(self).dispatch_table == old(self).dispatch_table,
            final(self).interfaces == old(self).interfaces,
            final(self).local_interfaces == old(self).local_interfaces,
            final(self).type_implements == old(self).type_implements,
    {
        self.defined_types.insert(String::from_str(name), typ);
        if is_local {
            self.local_types.insert(String::from_str(name), ());
        }
    }

    /// Whether the type `name` is registered.
    pub fn is_type_defined(&self, name: &str) -> (r: bool)
        ensures
            r == (self.defined_types.spec_get(name@) is Some),
    {
        self.defined_types.contains_key(name)
    }

    /// Registers an interface; marks it local to the module when `is_local`.
    pub fn register_interface(&mut self, info: InterfaceInfo, is_local: bool)
        ensures
            final(self).interfaces.entries() == entry_insert(old(self).interfaces.entries(), info.name@, info),
            final(self).local_interfaces.entries() == if is_local {
                entry_insert(old(self).local_interfaces.entries(), info.name@, ())
            } else {
                old(self).local_interfaces.entries()
            },
            final(self).scope_tables() == old(self).scope_tables(),
            final(self).dispatch_table == old(self).dispatch_table,
            final(self).defined_types == old(self).defined_types,
            final(self).local_types == old(self).local_types,
            final(self).type_implements == old(self).type_implements,
    {
        let name = info.name.clone();
        let name2 = info.name.clone();
        self.interfaces.insert(name, info);
        if is_local {
            self.local_interfaces.insert(name2, ());
        }
    }

    /// Whether the type `name` is local to the module.
    pub fn is_local_type(&self, name: &str) -> (r: bool)
        ensures
            r == set_has(self.local_types.entries(), name@),
    {
        self.local_types.contains_key(name)
    }

    /// Whether the interface `name` is local to the module.
    pub fn is_local_interface(&self, name: &str) -> (r: bool)
        ensures
            r == set_has(self.local_interfaces.entries(), name@),
    {
        self.local_interfaces.contains_key(name)
    }

    /// Records that the type `ty_name` implements `interface_name`.
    pub fn register_implementation(&mut self, ty_name: &str, interface_name: &str)
        ensures
            final(self).type_implements.spec_get(ty_name@) matches Some(set)
                && set.entries() == entry_insert(
                match old(self).type_implements.spec_get(ty_name@) {
                    Some(s) => s.entries(),
                    None => Seq::empty(),
                },
                interface_name@,
                (),
            ),
            forall|k: Seq<char>|
                k != ty_name@ ==> #[trigger] final(self).type_implements.spec_get(k) == old(
                    self,
                ).type_implements.spec_get(k),
            final(self).scope_tables() == old(self).scope_tables(),
            final(self).dispatch_table == old(self).dispatch_table,
            final(self).defined_types == old(self).defined_types,
            final(self).interfaces == old(self).interfaces,
            final(self).local_types == old(self).local_types,
            final(self).local_interfaces == old(self).local_interfaces,
    {
        proof {
            lemma_key_index(self.type_implements.entries(), ty_name@);
        }
        match self.type_implements.position(ty_name) {
            Some(i) => {
                let mut set = self.type_implements.replace_at(i, Table::new());
                set.insert(String::from_str(interface_name), ());
                self.type_implements.replace_at(i, set);
            },
            None => {
                let mut set: NameSet = Table::new();
                set.insert(String::from_str(interface_name), ());
                assert(set.entries() == entry_insert(Seq::<(Seq<char>, ())>::empty(), interface_name@, ()));
                self.type_implements.insert(String::from_str(ty_name), set);
            },
        }
    }
}

proof fn lemma_parents_none_prefix(env: Environment, t: TypeView, ps: Seq<String>, n: int, fuel: nat)
    requires
        0 <= n <= ps.len(),
        parents_depth(env, t, ps.take(n), fuel) is None,
    ensures
        parents_depth(env, t, ps, fuel) is None,
    decreases ps.len() - n,
{
    if n < ps.len() {
        assert(ps.take(n + 1).drop_last() =~= ps.take(n));
        lemma_parents_none_prefix(env, t, ps, n + 1, fuel);
    } else {
        assert(ps.take(n) =~= ps);
    }
}

impl Environment {
    fn registered_impl_exec(&self, typ: &Type, iface: &str) -> (r: bool)
        ensures
            r == registered_impl(*self, typ@, iface@),
    {
        match typ {
            Type::Named { name, .. } => match self.type_implements.get(name.name.as_str()) {
                Some(set) => set.contains_key(iface),
                None => false,
            },
            _ => false,
        }
    }

    fn satisfies_with(&self, typ: &Type, iface: &str, fuel: usize) -> (r: Option<usize>)
        requires
            fuel < usize::MAX,
        ensures
            match r {
                Some(d) => satisfies_fuel(*self, typ@, iface@, fuel as nat) == Some(d as nat) && 1
                    <= d <= fuel + 1,
                None => satisfies_fuel(*self, typ@, iface@, fuel as nat) is None,
            },
        decreases fuel,
    {
        if self.registered_impl_exec(typ, iface) {
            return Some(1);
        }
        let info = match self.interfaces.get(iface) {
            Some(info) => info,
            None => return None,
        };
        let mut i: usize = 0;
        while i < info.members.len()
            invariant
                i <= info.members.entries().len(),
                !registered_impl(*self, typ@, iface@),
                entry_get(self.interfaces.entries(), iface@) == Some(*info),
                forall|m: int|
                    0 <= m < i ==> #[trigger] entry_get(
                        self.dispatch_table.entries(),
                        info.members.entries()[m].0,
                    ) is Some,
            decreases info.members.entries().len() - i,
        {
            let (k, _) = info.members.entry(i);
            if self.lookup_dispatch(k.as_str()).is_none() {
                assert(!members_dispatched(*self, info.members.entries()));
                return None;
            }
            i = i + 1;
        }
        assert(!registered_impl(*self, typ@, iface@));
        assert(entry_get(self.interfaces.entries(), iface@) == Some(*info));
        assert(members_dispatched(*self, info.members.entries()));
        if fuel == 0 {
            return None;
        }
        let ghost ps = info.extends@;
        let mut max_depth: usize = 1;
        let mut j: usize = 0;
        assert(ps.take(0) =~= Seq::<String>::empty());
        while j < info.extends.len()
            invariant
                j <= ps.len(),
                ps == info.extends@,
                1 <= max_depth <= fuel + 1,
                0 < fuel < usize::MAX,
                !registered_impl(*self, typ@, iface@),
                entry_get(self.interfaces.entries(), iface@) == Some(*info),
                members_dispatched(*self, info.members.entries()),
                parents_depth(*self, typ@, ps.take(j as int), (fuel - 1) as nat) == Some(max_depth as nat),
            decreases ps.len() - j,
        {
            assert(ps.take(j + 1).drop_last() =~= ps.take(j as int));
            match self.satisfies_with(typ, info.extends[j].as_str(), fuel - 1) {
                Some(d) => {
                    if d >= max_depth {
                        max_depth = d + 1;
                    }
                },
                None => {
                    proof {
                        lemma_parents_none_prefix(*self, typ@, ps, j + 1, (fuel - 1) as nat);
                    }
                    return None;
                },
            }
            j = j + 1;
        }
        assert(ps.take(ps.len() as int) =~= ps);
        Some(max_depth)
    }

    /// The depth at which `typ` satisfies the interface `interface_name`:
    /// 1 when the type is registered as implementing it, else one more than
    /// the deepest of its parents, when all its members have signatures.
    pub fn satisfies_interface(&self, typ: &Type, interface_name: &str) -> (r: Option<usize>)
        ensures
            match r {
                Some(d) => satisfies(*self, typ@, interface_name@) == Some(d as nat),
                None => satisfies(*self, typ@, interface_name@) is None,
            },
    {
        let n = self.interfaces.len();
        let fuel: usize = if n < usize::MAX {
            n
        } else {
            usize::MAX - 1
        };
        self.satisfies_with(typ, interface_name, fuel)
    }
}

} // verus!
