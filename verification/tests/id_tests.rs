use kata::ast::{Ident, QualifiedIdent, Literal, Directive};

#[test]
fn id_test_ident_creation() {
    let ident = Ident::new("minha_funcao");
    assert_eq!(ident.0, "minha_funcao");
    assert_eq!(ident.to_string(), "minha_funcao");
}

#[test]
fn id_test_ident_is_operator() {
    assert!(Ident::new("+").is_operator());
    assert!(Ident::new("-").is_operator());
    assert!(Ident::new("*").is_operator());
    assert!(Ident::new("/").is_operator());
    assert!(Ident::new("<=").is_operator());
    assert!(Ident::new("==").is_operator());
    assert!(!Ident::new("soma").is_operator());
    assert!(!Ident::new("x").is_operator());
}

#[test]
fn id_test_ident_is_action() {
    assert!(Ident::new("echo!").is_action());
    assert!(Ident::new("main!").is_action());
    assert!(!Ident::new("soma").is_action());
    assert!(!Ident::new("x").is_action());
}

#[test]
fn id_test_qualified_ident_simple() {
    let ident = QualifiedIdent::simple("Int");
    assert!(ident.is_simple());
    assert_eq!(ident.to_string(), "Int");
}

#[test]
fn id_test_qualified_ident_qualified() {
    let ident = QualifiedIdent::qualified("types", "NUM");
    assert!(!ident.is_simple());
    assert_eq!(ident.to_string(), "types::NUM");
}

#[test]
fn id_test_qualified_ident_from_ident() {
    let ident = Ident::new("List");
    let qualified = QualifiedIdent::from(ident);
    assert!(qualified.is_simple());
    assert_eq!(qualified.to_string(), "List");
}

#[test]
fn id_test_literal_int() {
    let lit = Literal::integer("42");
    assert_eq!(lit.to_string(), "42");

    let hex = Literal::integer("0xFF");
    assert_eq!(hex.to_string(), "0xFF");
}

#[test]
fn id_test_literal_float() {
    let lit = Literal::float("3.14");
    assert_eq!(lit.to_string(), "3.14");

    let nan = Literal::float("nan");
    assert_eq!(nan.to_string(), "nan");
}

#[test]
fn id_test_literal_string() {
    let lit = Literal::string("hello world");
    assert_eq!(lit.to_string(), "\"hello world\"");
}

#[test]
fn id_test_literal_bool() {
    assert_eq!(Literal::bool(true).to_string(), "True");
    assert_eq!(Literal::bool(false).to_string(), "False");
}

#[test]
fn id_test_literal_unit() {
    assert_eq!(Literal::unit().to_string(), "()");
}

#[test]
fn id_test_directive_test() {
    let dir = Directive::Test { description: "test description".to_string() };
    assert_eq!(dir.to_string(), "@test(\"test description\")");
}

#[test]
fn id_test_directive_parallel() {
    let dir = Directive::Parallel;
    assert_eq!(dir.to_string(), "@parallel");
}

#[test]
fn id_test_directive_ffi() {
    let dir = Directive::Ffi { symbol: "kata_rt_add".to_string() };
    assert_eq!(dir.to_string(), "@ffi(\"kata_rt_add\")");
}

#[test]
fn tests_test_ident_creation() {
    let ident = Ident::new("minha_funcao");
    assert_eq!(ident.0, "minha_funcao");
    assert_eq!(ident.to_string(), "minha_funcao");
}

#[test]
fn tests_test_ident_is_operator() {
    assert!(Ident::new("+").is_operator());
    assert!(Ident::new("-").is_operator());
    assert!(Ident::new("*").is_operator());
    assert!(Ident::new("/").is_operator());
    assert!(Ident::new("<=").is_operator());
    assert!(Ident::new("==").is_operator());
    assert!(!Ident::new("soma").is_operator());
    assert!(!Ident::new("x").is_operator());
}

#[test]
fn tests_test_ident_is_action() {
    assert!(Ident::new("echo!").is_action());
    assert!(Ident::new("main!").is_action());
    assert!(!Ident::new("soma").is_action());
    assert!(!Ident::new("x").is_action());
}

#[test]
fn tests_test_qualified_ident_simple() {
    let ident = QualifiedIdent::simple("Int");
    assert!(ident.is_simple());
    assert_eq!(ident.to_string(), "Int");
}

#[test]
fn tests_test_qualified_ident_qualified() {
    let ident = QualifiedIdent::qualified("types", "NUM");
    assert!(!ident.is_simple());
    assert_eq!(ident.to_string(), "types::NUM");
}

#[test]
fn tests_test_qualified_ident_from_ident() {
    let ident = Ident::new("List");
    let qualified = QualifiedIdent::from(ident);
    assert!(qualified.is_simple());
    assert_eq!(qualified.to_string(), "List");
}

#[test]
fn tests_test_literal_int() {
    let lit = Literal::integer("42");
    assert_eq!(lit.to_string(), "42");

    let hex = Literal::integer("0xFF");
    assert_eq!(hex.to_string(), "0xFF");
}

#[test]
fn tests_test_literal_float() {
    let lit = Literal::float("3.14");
    assert_eq!(lit.to_string(), "3.14");

    let nan = Literal::float("nan");
    assert_eq!(nan.to_string(), "nan");
}

#[test]
fn tests_test_literal_string() {
    let lit = Literal::string("hello world");
    assert_eq!(lit.to_string(), "\"hello world\"");
}

#[test]
fn tests_test_literal_bool() {
    assert_eq!(Literal::bool(true).to_string(), "True");
    assert_eq!(Literal::bool(false).to_string(), "False");
}

#[test]
fn tests_test_literal_unit() {
    assert_eq!(Literal::unit().to_string(), "()");
}

#[test]
fn tests_test_directive_test() {
    let dir = Directive::Test { description: "test description".to_string() };
    assert_eq!(dir.to_string(), "@test(\"test description\")");
}

#[test]
fn tests_test_directive_parallel() {
    let dir = Directive::Parallel;
    assert_eq!(dir.to_string(), "@parallel");
}

#[test]
fn tests_test_directive_ffi() {
    let dir = Directive::Ffi { symbol: "kata_rt_add".to_string() };
    assert_eq!(dir.to_string(), "@ffi(\"kata_rt_add\")");
}

#[test]
fn test_ident_operator() {
    let plus = Ident::new("+");
    assert!(plus.is_operator());

    let func = Ident::new("minha_funcao");
    assert!(!func.is_operator());
}

#[test]
fn test_ident_action() {
    let action = Ident::new("echo!");
    assert!(action.is_action());

    let func = Ident::new("soma");
    assert!(!func.is_action());
}

#[test]
fn test_qualified_ident() {
    let simple = QualifiedIdent::simple("Int");
    assert!(simple.is_simple());
    assert_eq!(simple.to_string(), "Int");

    let qualified = QualifiedIdent::qualified("types", "NUM");
    assert!(!qualified.is_simple());
    assert_eq!(qualified.to_string(), "types::NUM");
}

#[test]
fn test_literal_display() {
    assert_eq!(Literal::integer("42").to_string(), "42");
    assert_eq!(Literal::string("hello").to_string(), "\"hello\"");
    assert_eq!(Literal::bool(true).to_string(), "True");
    assert_eq!(Literal::unit().to_string(), "()");
}

#[test]
fn ident_of_empty_name_is_neither_operator_nor_action() {
    assert!(!Ident::new("").is_operator());
    assert!(!Ident::new("").is_action());
    assert!(!Ident::new("!x").is_action());
    assert!(Ident::new("!x").is_operator());
}
