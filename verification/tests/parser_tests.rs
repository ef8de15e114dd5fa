use kata::ast::decl::{Import, Module, TopLevel};
use kata::ast::expr::Expr;
use kata::ast::id::{Ident, Literal};
use kata::ast::pattern::Pattern;
use kata::ast::stmt::Stmt;
use kata::ast::types::Type;
use kata::lexer::{KataLexer, SpannedToken, Span};
use kata::parser::common::{convert_result, SyntaxError};
use kata::parser::cursor::{ident, int_literal, string_literal};
use kata::parser::decl::{module, top_level};
use kata::parser::error::ParseError;
use kata::parser::expr::expression;
use kata::parser::pattern::pattern;
use kata::parser::stmt::statement;
use kata::parser::type_parser::type_expr;
use kata::parser::{parse, parse_module};

fn lexed(source: &str) -> Result<Vec<SpannedToken>, Vec<ParseError>> {
    KataLexer::lex_with_indent(source)
        .map_err(|e| e.into_iter().map(|e| ParseError::new(e.to_string().as_str(), e.span().clone())).collect::<Vec<_>>())
}

fn at_start<T>(tokens: &Vec<SpannedToken>, found: Option<(T, usize)>) -> Result<T, Vec<ParseError>> {
    let result = match found {
        Some((v, _)) => Ok(v),
        None => Err(vec![SyntaxError { span: Span::new(0, 1), expected: vec![], found: None }]),
    };
    let _ = tokens;
    convert_result(result)
}

fn parse_expr(source: &str) -> Result<Expr, Vec<ParseError>> {
    let tokens = lexed(source)?;
    at_start(&tokens, expression(&tokens, 0)).map(|e| e.node)
}

fn parse_pattern(source: &str) -> Result<Pattern, Vec<ParseError>> {
    let tokens = lexed(source)?;
    at_start(&tokens, pattern(&tokens, 0)).map(|p| p.node)
}

fn parse_stmt(source: &str) -> Result<Stmt, Vec<ParseError>> {
    let tokens = lexed(source)?;
    at_start(&tokens, statement(&tokens, 0)).map(|s| s.node)
}

fn parse_type(source: &str) -> Result<Type, Vec<ParseError>> {
    let tokens = lexed(source)?;
    at_start(&tokens, type_expr(&tokens, 0)).map(|t| t.node)
}

fn parse_top(source: &str) -> Result<TopLevel, Vec<ParseError>> {
    let tokens = KataLexer::lex_with_indent(source).unwrap();
    at_start(&tokens, top_level(&tokens, 0)).map(|d| d.node)
}

fn parse_source(source: &str) -> Result<Module, Vec<ParseError>> {
    let tokens = lexed(source)?;
    convert_result(module(&tokens))
}

// ----------------------------------------------------------------------------
// Token matchers
// ----------------------------------------------------------------------------

#[test]
fn test_ident_parser() {
    let tokens = KataLexer::lex_with_indent("foo bar baz").unwrap();
    let mut names = Vec::new();
    let mut p = 0;
    while let Some((s, q)) = ident(&tokens, p) {
        names.push(s);
        p = q;
    }
    assert_eq!(names, vec!["foo".to_string(), "bar".to_string(), "baz".to_string()]);
}

#[test]
fn test_int_literal_parser() {
    let tokens = KataLexer::lex_with_indent("42").unwrap();
    let result = int_literal(&tokens, 0).map(|(s, _)| s);
    assert!(result.is_some());
    assert_eq!(result.unwrap(), "42");
}

#[test]
fn test_string_literal_parser() {
    let tokens = KataLexer::lex_with_indent("\"hello\"").unwrap();
    let result = string_literal(&tokens, 0).map(|(s, _)| s);
    assert!(result.is_some());
    assert_eq!(result.unwrap(), "hello");
}

// ----------------------------------------------------------------------------
// Expressions
// ----------------------------------------------------------------------------

#[test]
fn expr_tests_test_literal_int() {
    let result = parse_expr("42");
    assert!(result.is_ok());
    assert_eq!(result.unwrap(), Expr::Literal(Literal::Int("42".to_string())));
}

#[test]
fn test_var() {
    let result = parse_expr("x");
    assert!(result.is_ok());
    assert_eq!(result.unwrap(), Expr::Var { name: Ident::new("x"), type_ascription: None });
}

#[test]
fn test_hole() {
    let result = parse_expr("_");
    assert!(result.is_ok());
    assert_eq!(result.unwrap(), Expr::Hole);
}

#[test]
fn test_tuple() {
    let result = parse_expr("(1 2 3)");
    assert!(result.is_ok(), "Parse failed: {:?}", result.err());
    let expr = result.unwrap();
    match expr {
        Expr::Tuple(items) => assert_eq!(items.len(), 3),
        _ => panic!("Expected tuple, got: {:?}", expr),
    }
}

#[test]
fn test_apply() {
    let result = parse_expr("+ 1 2");
    assert!(result.is_ok(), "Parse failed: {:?}", result.err());
    let expr = result.unwrap();
    match expr {
        Expr::Apply { func, args } => {
            assert!(
                matches!(func.node, Expr::Var { name: ref v, type_ascription: _ } if v.0 == "+"),
                "Expected func to be Var(+), got: {:?}",
                func
            );
            assert_eq!(args.len(), 2, "Expected 2 args, got: {:?}", args);
        },
        _ => panic!("Expected apply, got: {:?}", expr),
    }
}

#[test]
fn test_pipeline() {
    let result = parse_expr("x |> f");
    assert!(result.is_ok());
    let expr = result.unwrap();
    match expr {
        Expr::Pipeline { value, func } => {
            assert!(matches!(value.node, Expr::Var { name: ref v, type_ascription: _ } if v.0 == "x"));
            assert!(matches!(func.node, Expr::Var { name: ref v, type_ascription: _ } if v.0 == "f"));
        },
        _ => panic!("Expected pipeline"),
    }
}

#[test]
fn test_list() {
    let result = parse_expr("[1, 2, 3]");
    assert!(result.is_ok());
    let expr = result.unwrap();
    match expr {
        Expr::List(items) => assert_eq!(items.len(), 3),
        _ => panic!("Expected list"),
    }
}

#[test]
fn test_explicit_apply() {
    let result = parse_expr("$(+ 1 2)");
    assert!(result.is_ok());
    let expr = result.unwrap();
    match expr {
        Expr::ExplicitApply { func, args } => {
            assert!(matches!(func.node, Expr::Var { name: ref v, type_ascription: _ } if v.0 == "+"));
            assert_eq!(args.len(), 2);
        },
        _ => panic!("Expected explicit apply"),
    }
}

// ----------------------------------------------------------------------------
// Patterns
// ----------------------------------------------------------------------------

#[test]
fn test_wildcard() {
    let result = parse_pattern("_");
    assert!(result.is_ok());
    assert_eq!(result.unwrap(), Pattern::Wildcard);
}

#[test]
fn test_var_pattern() {
    let result = parse_pattern("x");
    assert!(result.is_ok());
    assert_eq!(result.unwrap(), Pattern::Var(Ident::new("x")));
}

#[test]
fn test_literal_pattern() {
    let result = parse_pattern("42");
    assert!(result.is_ok());
    assert_eq!(result.unwrap(), Pattern::Literal(Literal::Int("42".to_string())));
}

#[test]
fn test_tuple_pattern() {
    let result = parse_pattern("(a b c)");
    assert!(result.is_ok());
    let pat = result.unwrap();
    match pat {
        Pattern::Tuple(items) => assert_eq!(items.len(), 3),
        _ => panic!("Expected tuple pattern"),
    }
}

#[test]
fn test_variant_pattern() {
    let result = parse_pattern("Ok(value)");
    assert!(result.is_ok());
    let pat = result.unwrap();
    match pat {
        Pattern::Variant { name, args } => {
            assert_eq!(name.0, "Ok");
            assert_eq!(args.len(), 1);
        },
        _ => panic!("Expected variant pattern"),
    }
}

#[test]
fn test_unit_variant() {
    let result = parse_pattern("None");
    assert!(result.is_ok());
    let pat = result.unwrap();
    match pat {
        Pattern::Variant { name, args } => {
            assert_eq!(name.0, "None");
            assert!(args.is_empty());
        },
        _ => panic!("Expected variant pattern"),
    }
}

// ----------------------------------------------------------------------------
// Statements
// ----------------------------------------------------------------------------

#[test]
fn test_let_binding() {
    let result = parse_stmt("let x 42");
    assert!(result.is_ok());
    match result.unwrap() {
        Stmt::Let { pattern, value: _ } => {
            assert_eq!(pattern.node.to_string(), "x");
        },
        _ => panic!("Expected let binding"),
    }
}

#[test]
fn test_var_binding() {
    let result = parse_stmt("var counter 0");
    assert!(result.is_ok());
    match result.unwrap() {
        Stmt::Var { pattern, value: _ } => {
            assert_eq!(pattern.node.to_string(), "counter");
        },
        _ => panic!("Expected var binding"),
    }
}

#[test]
fn test_break() {
    let result = parse_stmt("break");
    assert!(result.is_ok());
    assert_eq!(result.unwrap(), Stmt::Break);
}

#[test]
fn test_continue() {
    let result = parse_stmt("continue");
    assert!(result.is_ok());
    assert_eq!(result.unwrap(), Stmt::Continue);
}

// ----------------------------------------------------------------------------
// Types
// ----------------------------------------------------------------------------

#[test]
fn test_simple_type() {
    let result = parse_type("Int");
    assert!(result.is_ok());
    assert!(matches!(result.unwrap(), Type::Named { .. }));
}

#[test]
fn test_type_variable() {
    let result = parse_type("T");
    assert!(result.is_ok());
    assert!(matches!(result.unwrap(), Type::Named { .. }));
}

#[test]
fn test_tuple_type() {
    let result = parse_type("(Int Float Text)");
    assert!(result.is_ok());
    match result.unwrap() {
        Type::Tuple(types) => assert_eq!(types.len(), 3),
        _ => panic!("Expected tuple type"),
    }
}

#[test]
fn test_function_type() {
    let result = parse_type("Int -> Float");
    assert!(result.is_ok());
    match result.unwrap() {
        Type::Function { params, return_type } => {
            assert_eq!(params.len(), 1);
            assert!(matches!(*return_type, Type::Named { .. }));
        },
        _ => panic!("Expected function type"),
    }
}

// ----------------------------------------------------------------------------
// Declarations and modules
// ----------------------------------------------------------------------------

#[test]
fn decl_tests_test_action_unit() {
    let source = "action foo\n    echo! 1";
    let result = parse_top(source);
    assert!(result.is_ok(), "Parse failed: {:?}", result.err());
    match result.unwrap() {
        TopLevel::Action(a) => assert_eq!(a.name.0, "foo"),
        _ => panic!("Expected Action"),
    }
}

#[test]
fn test_empty_module() {
    let result = parse_source("");
    assert!(result.is_ok());
    let module = result.unwrap();
    assert!(module.declarations.is_empty());
}

#[test]
fn decl_tests_test_import() {
    let result = parse_source("import types");
    assert!(result.is_ok());
    let module = result.unwrap();
    assert_eq!(module.imports.len(), 1);
}

#[test]
fn decl_tests_test_import_item() {
    let result = parse_source("import types.NUM");
    assert!(result.is_ok());
    let module = result.unwrap();
    match &module.imports[0] {
        Import::Item { module, item } => {
            assert_eq!(module, "types");
            assert_eq!(item, "NUM");
        },
        _ => panic!("Expected item import"),
    }
}
