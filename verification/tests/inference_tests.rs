use kata::ast::{Ident, Literal, Type, FunctionSig, Expr, LambdaClause, Module, TopLevel, FunctionDef, Spanned, LexerSpan};
use kata::type_checker::dag::DependencyGraph;
use kata::type_checker::environment::Environment;
use kata::type_checker::error::TypeError;
use kata::type_checker::inference::{
    apply, compose, fresh_type, fresh_type_var, free_type_vars, instantiate, is_generic_name, unify, Substitution,
};
use kata::type_checker::table::Table;

fn span(start: usize, end: usize) -> LexerSpan {
    LexerSpan { start, end }
}

fn spanned<T>(node: T, start: usize, end: usize) -> Spanned<T> {
    Spanned::new(node, span(start, end))
}

#[test]
fn unify_equal_types_needs_no_binding() {
    let env = Environment::new();
    let (s, _) = unify(&Type::named("Int"), &Type::named("Int"), &env, &span(0, 1)).unwrap();
    assert_eq!(s.len(), 0);
}

#[test]
fn unify_variable_binds_it() {
    let env = Environment::new();
    let (s, _) = unify(&Type::var("a"), &Type::named("Int"), &env, &span(0, 1)).unwrap();
    assert_eq!(s.len(), 1);
    assert_eq!(s.get("a"), Some(&Type::named("Int")));
}

#[test]
fn unify_different_names_is_a_mismatch() {
    let env = Environment::new();
    let r = unify(&Type::named("Int"), &Type::named("Bool"), &env, &span(2, 3));
    assert_eq!(
        r.unwrap_err(),
        TypeError::TypeMismatch { expected: Type::named("Int"), found: Type::named("Bool"), span: span(2, 3) }
    );
}

#[test]
fn unify_variable_with_type_containing_it_is_infinite() {
    let env = Environment::new();
    let r = unify(&Type::var("a"), &Type::generic("List", vec![Type::var("a")]), &env, &span(0, 1));
    assert!(matches!(r, Err(TypeError::InfiniteType { .. })));
}

#[test]
fn apply_replaces_bound_variables_only() {
    let mut s: Substitution = Table::new();
    s.insert("a".to_string(), Type::named("Int"));
    let t = Type::tuple(vec![Type::var("a"), Type::var("b")]);
    assert_eq!(apply(&t, &s), Type::tuple(vec![Type::named("Int"), Type::var("b")]));
}

#[test]
fn compose_applies_the_second_substitution_to_the_first() {
    let mut s1: Substitution = Table::new();
    s1.insert("a".to_string(), Type::var("b"));
    let mut s2: Substitution = Table::new();
    s2.insert("b".to_string(), Type::named("Int"));
    let c = compose(&s1, &s2);
    assert_eq!(apply(&Type::var("a"), &c), Type::named("Int"));
    assert_eq!(apply(&Type::var("b"), &c), Type::named("Int"));
}

#[test]
fn fresh_variables_are_numbered() {
    let mut next: usize = 5;
    assert_eq!(fresh_type_var(&mut next), "t_5");
    assert_eq!(next, 6);
    assert_eq!(fresh_type(&mut next), Type::var("t_6"));
    assert_eq!(next, 7);
}

#[test]
fn instantiate_renames_generic_variables_consistently() {
    let mut next: usize = 0;
    let t = Type::function(vec![Type::var("T")], Type::var("T"));
    let inst = instantiate(&t, &mut next);
    assert_eq!(inst, Type::function(vec![Type::var("t_0")], Type::var("t_0")));
    assert_eq!(next, 1);
    let lower = Type::var("a");
    assert_eq!(instantiate(&lower, &mut next), Type::var("a"));
}

#[test]
fn generic_names_are_upper_case() {
    assert!(is_generic_name("T"));
    assert!(is_generic_name("K2"));
    assert!(!is_generic_name("Int"));
}

#[test]
fn free_variables_are_listed_once_in_order() {
    let t = Type::function(vec![Type::var("T"), Type::generic("List", vec![Type::var("U")])], Type::var("T"));
    assert_eq!(free_type_vars(&t), vec!["T".to_string(), "U".to_string()]);
}

#[test]
fn inner_scope_shadows_and_exit_restores() {
    let mut env = Environment::new();
    env.bind_var("x", Type::named("Int"));
    env.enter_scope();
    assert_eq!(env.lookup_var("x"), Some(&Type::named("Int")));
    env.bind_var("x", Type::named("Bool"));
    assert_eq!(env.lookup_var("x"), Some(&Type::named("Bool")));
    env.exit_scope();
    assert_eq!(env.lookup_var("x"), Some(&Type::named("Int")));
    assert_eq!(env.lookup_var("y"), None);
}

#[test]
fn dispatch_entries_accumulate() {
    let mut env = Environment::new();
    env.register_dispatch("+", FunctionSig::binary(Type::named("Int"), Type::named("Int"), Type::named("Int")));
    env.register_dispatch("+", FunctionSig::binary(Type::named("Float"), Type::named("Float"), Type::named("Float")));
    assert_eq!(env.lookup_dispatch("+").unwrap().len(), 2);
    assert!(env.lookup_dispatch("-").is_none());
}

#[test]
fn registered_implementation_satisfies_the_interface() {
    let mut env = Environment::new();
    env.register_type("Point", Type::named("Point"), true);
    assert!(env.is_type_defined("Point"));
    assert!(env.is_local_type("Point"));
    assert!(!env.is_local_interface("SHOW"));
    env.register_implementation("Point", "SHOW");
    assert_eq!(env.satisfies_interface(&Type::named("Point"), "SHOW"), Some(1));
    assert_eq!(env.satisfies_interface(&Type::named("Point"), "EQ"), None);
}

#[test]
fn type_error_messages() {
    let e = TypeError::UnboundVariable { name: "x".to_string(), span: span(0, 1) };
    assert_eq!(e.to_string(), "Unbound Variable: `x` is not defined in this scope");
    let o = TypeError::OrphanRuleViolation { ty_name: "Int".to_string(), interface_name: "NUM".to_string(), span: span(0, 1) };
    assert_eq!(o.to_string(), "Orphan Rule Violation: cannot implement foreign interface `NUM` for foreign type `Int`");
    assert_eq!(o.span(), span(0, 1));
}

fn calls(name: &str, callee: &str) -> Spanned<TopLevel> {
    let f = FunctionDef::new(name, FunctionSig::nullary(Type::named("Int"))).add_clause(LambdaClause::new(
        vec![],
        spanned(Expr::Var { name: Ident::new(callee), type_ascription: None }, 0, 1),
    ));
    spanned(TopLevel::Function(f), 0, 1)
}

fn leaf(name: &str) -> Spanned<TopLevel> {
    let f = FunctionDef::new(name, FunctionSig::nullary(Type::named("Int")))
        .add_clause(LambdaClause::new(vec![], spanned(Expr::literal(Literal::integer("1")), 0, 1)));
    spanned(TopLevel::Function(f), 0, 1)
}

fn names(ds: &Vec<Spanned<TopLevel>>) -> Vec<String> {
    ds.iter()
        .map(|d| match &d.node {
            TopLevel::Function(f) => f.name.0.clone(),
            _ => String::new(),
        })
        .collect()
}

#[test]
fn dependencies_come_before_their_users() {
    let module = Module::new("m").with_declarations(vec![calls("main", "helper"), calls("helper", "base"), leaf("base")]);
    let sorted = DependencyGraph::from_module(module).topological_sort().unwrap();
    assert_eq!(names(&sorted), vec!["base".to_string(), "helper".to_string(), "main".to_string()]);
}

#[test]
fn tree_shaking_keeps_what_the_roots_reach() {
    let module = Module::new("m").with_declarations(vec![calls("main", "helper"), leaf("unused"), leaf("helper")]);
    let kept = DependencyGraph::from_module(module).reachability_analysis(&[Ident::new("main")]);
    assert_eq!(names(&kept), vec!["main".to_string(), "helper".to_string()]);
}

#[test]
fn unknown_roots_keep_nothing() {
    let module = Module::new("m").with_declarations(vec![leaf("a")]);
    let kept = DependencyGraph::from_module(module).reachability_analysis(&[Ident::new("zzz")]);
    assert_eq!(kept.len(), 0);
}

#[test]
fn the_empty_name_is_not_generic() {
    assert!(!is_generic_name(""));
    assert!(is_generic_name("NUM"));
    assert!(!is_generic_name("t_1"));
}

#[test]
fn registering_an_implementation_twice_is_as_registering_it_once() {
    let mut env = Environment::new();
    env.register_implementation("Point", "SHOW");
    env.register_implementation("Point", "SHOW");
    assert_eq!(env.satisfies_interface(&Type::named("Point"), "SHOW"), Some(1));
    let mut next: usize = 3;
    let plain = Type::function(vec![Type::var("a")], Type::named("Int"));
    assert_eq!(instantiate(&plain, &mut next), Type::function(vec![Type::var("a")], Type::named("Int")));
    assert_eq!(next, 3);
    let mut counter: usize = 9;
    let first = fresh_type_var(&mut counter);
    let second = fresh_type_var(&mut counter);
    assert_ne!(first, second);
    assert_eq!(first, "t_9");
    assert_eq!(second, "t_10");
}

#[test]
fn unify_makes_both_types_equal() {
    let env = Environment::new();
    let t1 = Type::tuple(vec![Type::var("a"), Type::named("Int"), Type::var("a")]);
    let t2 = Type::tuple(vec![Type::named("Bool"), Type::var("b"), Type::var("a")]);
    let (s, _) = unify(&t1, &t2, &env, &span(0, 1)).unwrap();
    assert_eq!(apply(&t1, &s), apply(&t2, &s));
    assert_eq!(apply(&t1, &s), Type::tuple(vec![Type::named("Bool"), Type::named("Int"), Type::named("Bool")]));
}

#[test]
fn applying_a_composition_applies_each_part_in_turn() {
    let mut s1: Substitution = Table::new();
    s1.insert("a".to_string(), Type::generic("List", vec![Type::var("b")]));
    let mut s2: Substitution = Table::new();
    s2.insert("b".to_string(), Type::named("Int"));
    s2.insert("c".to_string(), Type::named("Text"));
    let c = compose(&s1, &s2);
    let t = Type::function(vec![Type::var("a"), Type::var("c")], Type::var("b"));
    assert_eq!(apply(&t, &c), apply(&apply(&t, &s1), &s2));
    assert_eq!(
        apply(&t, &c),
        Type::function(vec![Type::generic("List", vec![Type::named("Int")]), Type::named("Text")], Type::named("Int"))
    );
}
