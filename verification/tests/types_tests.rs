use kata::ast::{Type, Predicate, CompareOp, LiteralValue, FunctionSig, QualifiedIdent};

fn check_type_named() {
    let t = Type::named("Int");
    assert!(t.is_simple());
    assert_eq!(t.to_string(), "Int");
}

fn check_type_generic() {
    let t = Type::generic("Optional", vec![Type::named("Int")]);
    assert_eq!(t.to_string(), "Optional::Int");

    let t2 = Type::generic("Result", vec![Type::named("Int"), Type::var("E")]);
    assert_eq!(t2.to_string(), "Result::Int::E");
}

fn check_type_var() {
    let t = Type::var("T");
    assert!(t.is_var());
    assert_eq!(t.to_string(), "T");
}

fn check_type_tuple() {
    let t = Type::tuple(vec![Type::named("Int"), Type::named("Float")]);
    assert_eq!(t.to_string(), "(Int Float)");
}

fn check_type_function() {
    let t = Type::function(vec![Type::named("Int"), Type::named("Int")], Type::named("Int"));
    assert_eq!(t.to_string(), "(Int Int) -> Int");
}

fn check_type_refined() {
    let t = Type::refined(
        Type::named("Int"),
        Predicate::Comparison { op: CompareOp::Gt, value: LiteralValue::Int(0) },
    );
    assert_eq!(t.to_string(), "(Int, > _ 0)");
}

fn check_function_sig() {
    let sig = FunctionSig::binary(Type::named("Int"), Type::named("Int"), Type::named("Int"));
    assert_eq!(sig.arity(), 2);
    assert_eq!(sig.to_string(), "Int Int => Int");
}

fn check_function_sig_unary() {
    let sig = FunctionSig::unary(Type::named("Int"), Type::named("Bool"));
    assert_eq!(sig.arity(), 1);
    assert_eq!(sig.to_string(), "Int => Bool");
}

fn check_function_sig_nullary() {
    let sig = FunctionSig::nullary(Type::named("Unit"));
    assert_eq!(sig.arity(), 0);
    assert_eq!(sig.to_string(), "Unit");
}

fn check_predicate_comparison() {
    let p = Predicate::Comparison { op: CompareOp::Lt, value: LiteralValue::Int(10) };
    assert_eq!(p.to_string(), "< _ 10");
}

fn check_predicate_except() {
    let p = Predicate::Except(QualifiedIdent::simple("Complex"));
    assert_eq!(p.to_string(), "except Complex");
}

fn check_compare_op_display() {
    assert_eq!(CompareOp::Gt.to_string(), ">");
    assert_eq!(CompareOp::Gte.to_string(), ">=");
    assert_eq!(CompareOp::Lt.to_string(), "<");
    assert_eq!(CompareOp::Lte.to_string(), "<=");
    assert_eq!(CompareOp::Eq.to_string(), "=");
    assert_eq!(CompareOp::Neq.to_string(), "!=");
}

#[test]
fn types_test_type_named() {
    check_type_named();
}

#[test]
fn types_test_type_generic() {
    check_type_generic();
}

#[test]
fn types_test_type_var() {
    check_type_var();
}

#[test]
fn types_test_type_tuple() {
    check_type_tuple();
}

#[test]
fn types_test_type_function() {
    check_type_function();
}

#[test]
fn types_test_type_refined() {
    check_type_refined();
}

#[test]
fn types_test_function_sig() {
    check_function_sig();
}

#[test]
fn types_test_function_sig_unary() {
    check_function_sig_unary();
}

#[test]
fn types_test_function_sig_nullary() {
    check_function_sig_nullary();
}

#[test]
fn types_test_predicate_comparison() {
    check_predicate_comparison();
}

#[test]
fn types_test_predicate_except() {
    check_predicate_except();
}

#[test]
fn types_test_compare_op_display() {
    check_compare_op_display();
}

#[test]
fn tests_test_type_named() {
    check_type_named();
}

#[test]
fn tests_test_type_generic() {
    check_type_generic();
}

#[test]
fn tests_test_type_var() {
    check_type_var();
}

#[test]
fn tests_test_type_tuple() {
    check_type_tuple();
}

#[test]
fn tests_test_type_function() {
    check_type_function();
}

#[test]
fn tests_test_type_refined() {
    check_type_refined();
}

#[test]
fn tests_test_function_sig() {
    check_function_sig();
}

#[test]
fn tests_test_function_sig_unary() {
    check_function_sig_unary();
}

#[test]
fn tests_test_function_sig_nullary() {
    check_function_sig_nullary();
}

#[test]
fn tests_test_predicate_comparison() {
    check_predicate_comparison();
}

#[test]
fn tests_test_predicate_except() {
    check_predicate_except();
}

#[test]
fn tests_test_compare_op_display() {
    check_compare_op_display();
}

#[test]
fn function_type_of_one_parameter_has_no_parentheses() {
    let t = Type::function(vec![Type::named("Int")], Type::named("Bool"));
    assert_eq!(t.to_string(), "Int -> Bool");
}

#[test]
fn predicate_conjunction_and_range_display() {
    let p = Predicate::And(vec![
        Predicate::Comparison { op: CompareOp::Gte, value: LiteralValue::Int(0) },
        Predicate::Range { op: CompareOp::Lte, value: LiteralValue::Float("25.0".to_string()) },
    ]);
    let shown = p.to_string();
    assert!(shown.contains(">= _ 0"));
    assert!(shown.contains("25.0"));
}
