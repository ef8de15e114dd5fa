use kata::ast::decl::{DataKind, Import, Module, TopLevel, VariantPayload, InterfaceMember, CompareOp as VariantCompare};
use kata::ast::expr::{Expr, GuardCondition, WithBinding};
use kata::ast::id::{Directive, Ident, Literal};
use kata::ast::pattern::Pattern;
use kata::ast::stmt::{ChannelOp, Stmt};
use kata::ast::types::Type;
use kata::lexer::{KataLexer, Span, SpannedToken};
use kata::parser::common::{convert_result, to_parse_error, SyntaxError};
use kata::parser::decl::{directive, module};
use kata::parser::expr::{expression, qualified_ident};
use kata::parser::literal::{literal, numeric};
use kata::parser::pattern::pattern;
use kata::parser::stmt::recursive_statement;
use kata::parser::type_parser::function_sig;
use kata::parser::{parse, parse_module, ParseError};

fn toks(source: &str) -> Vec<SpannedToken> {
    KataLexer::lex_with_indent(source).unwrap()
}

fn expr_of(source: &str) -> (Expr, usize, usize) {
    let t = toks(source);
    let (e, q) = expression(&t, 0).expect("expression");
    (e.node, q, t.len())
}

fn module_of(source: &str) -> Module {
    parse_module(toks(source)).expect("module")
}

#[test]
fn literal_forms() {
    let t = toks("() True False 1.5 7 \"s\"");
    let (l, q) = literal(&t, 0).unwrap();
    assert_eq!((l, q), (Literal::Unit, 2));
    assert_eq!(literal(&t, 2).unwrap(), (Literal::Bool(true), 3));
    assert_eq!(literal(&t, 3).unwrap(), (Literal::Bool(false), 4));
    assert_eq!(literal(&t, 4).unwrap(), (Literal::Float("1.5".to_string()), 5));
    assert_eq!(literal(&t, 5).unwrap(), (Literal::Int("7".to_string()), 6));
    assert_eq!(literal(&t, 6).unwrap(), (Literal::String("s".to_string()), 7));
    assert!(numeric(&t, 6).is_none());
    assert_eq!(numeric(&t, 5).unwrap(), (Literal::Int("7".to_string()), 6));
    let names = toks("maybe");
    assert!(literal(&names, 0).is_none());
}

#[test]
fn qualified_names() {
    let t = toks("a::b::c");
    let (qi, q) = qualified_ident(&t, 0).unwrap();
    assert_eq!(q, 5);
    assert_eq!(qi.module, Some("a::b".to_string()));
    assert_eq!(qi.name, "c");
    let (e, _, _) = expr_of("Math::pi");
    match e {
        Expr::QualifiedRef(qi) => {
            assert_eq!(qi.module, Some("Math".to_string()));
            assert_eq!(qi.name, "pi");
        },
        other => panic!("expected a qualified reference, got {:?}", other),
    }
}

#[test]
fn variable_with_ascription() {
    let (e, _, _) = expr_of("x::Int");
    // `x::Int` reads as the qualified name `x::Int`, since names joined by `::` come first.
    assert!(matches!(e, Expr::QualifiedRef(_)));
    let (e, _, _) = expr_of("x::(Int)");
    match e {
        Expr::Var { name, type_ascription } => {
            assert_eq!(name.0, "x");
            assert!(matches!(type_ascription, Some(Type::Named { .. })));
        },
        other => panic!("expected a variable, got {:?}", other),
    }
}

#[test]
fn application_span_covers_arguments() {
    let t = toks("f x y");
    let (e, q) = expression(&t, 0).unwrap();
    assert_eq!(q, 3);
    assert_eq!(e.span, Span::new(0, 3));
    match e.node {
        Expr::Apply { func, args } => {
            assert_eq!(func.span, Span::new(0, 1));
            assert_eq!(args.len(), 2);
            assert_eq!(args[1].span, Span::new(2, 3));
        },
        other => panic!("expected an application, got {:?}", other),
    }
}

#[test]
fn ranges() {
    let (e, _, _) = expr_of("[1..10]");
    match e {
        Expr::Range { step, inclusive, .. } => {
            assert!(step.is_none());
            assert!(!inclusive);
        },
        other => panic!("expected a range, got {:?}", other),
    }
    let (e, _, _) = expr_of("[1..2..=9]");
    match e {
        Expr::Range { start, step, end, inclusive } => {
            assert_eq!(start.node, Expr::Literal(Literal::Int("1".to_string())));
            assert_eq!(step.unwrap().node, Expr::Literal(Literal::Int("2".to_string())));
            assert_eq!(end.node, Expr::Literal(Literal::Int("9".to_string())));
            assert!(inclusive);
        },
        other => panic!("expected a range, got {:?}", other),
    }
}

#[test]
fn cons_list_folds_right() {
    let (e, _, _) = expr_of("[h : m : t]");
    match e {
        Expr::Cons { head, tail } => {
            assert_eq!(head.node, Expr::Var { name: Ident::new("h"), type_ascription: None });
            match tail.node {
                Expr::Cons { head, tail } => {
                    assert_eq!(head.node, Expr::Var { name: Ident::new("m"), type_ascription: None });
                    assert_eq!(tail.node, Expr::Var { name: Ident::new("t"), type_ascription: None });
                },
                other => panic!("expected a cons, got {:?}", other),
            }
        },
        other => panic!("expected a cons, got {:?}", other),
    }
}

#[test]
fn arrays_and_tensors() {
    let (e, _, _) = expr_of("{1 2 3}");
    match e {
        Expr::Array(items) => assert_eq!(items.len(), 3),
        other => panic!("expected an array, got {:?}", other),
    }
    let (e, _, _) = expr_of("{1 2 ; 3 4 ; 5 6}");
    match e {
        Expr::Tensor { dimensions, elements } => {
            assert_eq!(dimensions, vec![3, 2]);
            assert_eq!(elements.len(), 6);
        },
        other => panic!("expected a tensor, got {:?}", other),
    }
    let (e, _, _) = expr_of("{1 2 ;}");
    match e {
        Expr::Tensor { dimensions, elements } => {
            assert_eq!(dimensions, vec![1, 2]);
            assert_eq!(elements.len(), 2);
        },
        other => panic!("expected a tensor, got {:?}", other),
    }
}

#[test]
fn dictionaries_and_sets() {
    let (e, _, _) = expr_of("Dict [(\"a\" 1), (\"b\" 2)]");
    match e {
        Expr::Dict(entries) => {
            assert_eq!(entries.len(), 2);
            assert_eq!(entries[1].0.node, Expr::Literal(Literal::String("b".to_string())));
        },
        other => panic!("expected a dictionary, got {:?}", other),
    }
    let (e, _, _) = expr_of("Set [1, 2, 3]");
    match e {
        Expr::SetLiteral(items) => assert_eq!(items.len(), 3),
        other => panic!("expected a set, got {:?}", other),
    }
}

#[test]
fn field_and_method_access() {
    let (e, _, _) = expr_of("p.x");
    match e {
        Expr::Field { object, field } => {
            assert_eq!(field.0, "x");
            assert_eq!(object.node, Expr::Var { name: Ident::new("p"), type_ascription: None });
        },
        other => panic!("expected a field access, got {:?}", other),
    }
    let (e, _, _) = expr_of("xs.push 1 2");
    match e {
        Expr::Method { method, args, .. } => {
            assert_eq!(method.0, "push");
            assert_eq!(args.len(), 2);
        },
        other => panic!("expected a method call, got {:?}", other),
    }
}

#[test]
fn pipelines_fold_left() {
    let (e, _, _) = expr_of("x |> f |> g");
    match e {
        Expr::Pipeline { value, func } => {
            assert_eq!(func.node, Expr::Var { name: Ident::new("g"), type_ascription: None });
            assert!(matches!(value.node, Expr::Pipeline { .. }));
        },
        other => panic!("expected a pipeline, got {:?}", other),
    }
}

#[test]
fn lambda_with_body() {
    let (e, _, _) = expr_of("λ x y: x");
    match e {
        Expr::Lambda { clauses } => {
            assert_eq!(clauses.len(), 1);
            assert_eq!(clauses[0].patterns.len(), 2);
            assert!(clauses[0].guards.is_empty());
            assert_eq!(clauses[0].body.as_ref().unwrap().node, Expr::Var { name: Ident::new("x"), type_ascription: None });
        },
        other => panic!("expected a lambda, got {:?}", other),
    }
}

#[test]
fn lambda_with_guards_and_bindings() {
    let source = "λ x:\n    small: 0\n    otherwise: 1\n    with\n        small as x\n";
    let (e, _, _) = expr_of(source);
    match e {
        Expr::Lambda { clauses } => {
            let c = &clauses[0];
            assert!(c.body.is_none());
            assert_eq!(c.guards.len(), 2);
            assert_eq!(c.guards[0].guard, GuardCondition::Named(Ident::new("small")));
            assert_eq!(c.guards[1].guard, GuardCondition::Otherwise);
            assert_eq!(c.with.len(), 1);
            assert!(matches!(c.with[0], WithBinding::Value { .. }));
        },
        other => panic!("expected a lambda, got {:?}", other),
    }
}

#[test]
fn unit_and_grouping() {
    let (e, _, _) = expr_of("()");
    assert_eq!(e, Expr::Tuple(vec![]));
    let t = toks("(x)");
    let (e, q) = expression(&t, 0).unwrap();
    assert_eq!(q, 3);
    // One item in parentheses is that item, with its own span.
    assert_eq!(e.span, Span::new(1, 2));
    assert_eq!(e.node, Expr::Var { name: Ident::new("x"), type_ascription: None });
}

#[test]
fn keyword_functions() {
    let (e, _, _) = expr_of("channel!");
    assert_eq!(e, Expr::Var { name: Ident::new("channel!"), type_ascription: None });
}

#[test]
fn pattern_forms() {
    let t = toks("a | B | _");
    let (p, _) = pattern(&t, 0).unwrap();
    match p.node {
        Pattern::Or(ps) => assert_eq!(ps.len(), 3),
        other => panic!("expected alternatives, got {:?}", other),
    }
    let t = toks("n::Int");
    let (p, _) = pattern(&t, 0).unwrap();
    assert!(matches!(p.node, Pattern::Typed { .. }));
    let t = toks("[a, b ...rest]");
    let (p, _) = pattern(&t, 0).unwrap();
    match p.node {
        Pattern::List { elements, rest } => {
            assert_eq!(elements.len(), 2);
            assert!(rest.is_some());
        },
        other => panic!("expected a list pattern, got {:?}", other),
    }
    let t = toks("[h : t]");
    let (p, _) = pattern(&t, 0).unwrap();
    assert!(matches!(p.node, Pattern::Cons { .. }));
    let t = toks("[1..=9]");
    let (p, _) = pattern(&t, 0).unwrap();
    assert_eq!(
        p.node,
        Pattern::Range { start: Literal::Int("1".to_string()), end: Literal::Int("9".to_string()), inclusive: true }
    );
    let t = toks("{a, b}");
    let (p, q) = pattern(&t, 0).unwrap();
    assert_eq!(q, 5);
    match p.node {
        Pattern::Array(ps) => assert_eq!(ps.len(), 2),
        other => panic!("expected an array pattern, got {:?}", other),
    }
}

#[test]
fn statements_with_blocks() {
    let t = toks("loop\n    break\n");
    let (s, _) = recursive_statement(&t, 0).unwrap();
    match s.node {
        Stmt::Loop { body } => assert_eq!(body.len(), 1),
        other => panic!("expected a loop, got {:?}", other),
    }
    let t = toks("for i in xs\n    print i\n    continue\n");
    let (s, _) = recursive_statement(&t, 0).unwrap();
    match s.node {
        Stmt::For { var, body, .. } => {
            assert_eq!(var.0, "i");
            assert_eq!(body.len(), 2);
        },
        other => panic!("expected a for loop, got {:?}", other),
    }
    let t = toks("match x\n    0:\n        break\n    _:\n        continue\n");
    let (s, _) = recursive_statement(&t, 0).unwrap();
    match s.node {
        Stmt::Match { cases, .. } => assert_eq!(cases.len(), 2),
        other => panic!("expected a match, got {:?}", other),
    }
}

#[test]
fn select_statement() {
    let t = toks("select\n    case <! rx -> v:\n        print v\n    timeout 100:\n        break\n");
    let (s, _) = recursive_statement(&t, 0).unwrap();
    match s.node {
        Stmt::Select { cases, timeout } => {
            assert_eq!(cases.len(), 1);
            assert_eq!(cases[0].binding, Some(Ident::new("v")));
            assert!(matches!(cases[0].operation, ChannelOp::Receive { non_blocking: false, .. }));
            assert!(timeout.is_some());
        },
        other => panic!("expected a select, got {:?}", other),
    }
}

#[test]
fn return_panic_assert() {
    let t = toks("return 1");
    let (s, _) = recursive_statement(&t, 0).unwrap();
    assert!(matches!(s.node, Stmt::Return(_)));
    let t = toks("panic! \"boom\"");
    let (s, _) = recursive_statement(&t, 0).unwrap();
    assert!(matches!(s.node, Stmt::Panic { .. }));
    let t = toks("x var 5");
    let (s, _) = recursive_statement(&t, 0).unwrap();
    match s.node {
        Stmt::Assign { name, .. } => assert_eq!(name.0, "x"),
        other => panic!("expected an assignment, got {:?}", other),
    }
}

#[test]
fn function_definition_with_clauses() {
    let m = module_of("double :: Int => Int\nλ x: * x 2\n");
    assert_eq!(m.declarations.len(), 1);
    match &m.declarations[0].node {
        TopLevel::Function(f) => {
            assert_eq!(f.name.0, "double");
            assert_eq!(f.arity, 1);
            assert_eq!(f.clauses.len(), 1);
            assert!(matches!(f.clauses[0].body.as_ref().unwrap().node, Expr::Apply { .. }));
        },
        other => panic!("expected a function, got {:?}", other),
    }
}

#[test]
fn signature_and_otherwise() {
    let t = toks("Int Int => Bool");
    let (sig, q) = function_sig(&t, 0).unwrap();
    assert_eq!(sig.params.len(), 2);
    assert_eq!(q, 4);
    let m = module_of("f :: Int => Int\notherwise: 0\n");
    match &m.declarations[0].node {
        TopLevel::Function(f) => {
            assert_eq!(f.clauses.len(), 1);
            assert!(f.clauses[0].patterns.is_empty());
        },
        other => panic!("expected a function, got {:?}", other),
    }
}

#[test]
fn directives_attach_to_functions() {
    let m = module_of("@parallel\n@test(\"adds\")\nadd :: Int Int => Int\n");
    match &m.declarations[0].node {
        TopLevel::Function(f) => {
            assert_eq!(f.directives, vec![Directive::Parallel, Directive::Test { description: "adds".to_string() }]);
        },
        other => panic!("expected a function, got {:?}", other),
    }
    let t = toks("@ffi(\"c_add\")");
    assert_eq!(directive(&t, 0).unwrap().0, Directive::Ffi { symbol: "c_add".to_string() });
}

#[test]
fn action_definitions() {
    let m = module_of("action main (a, b) => Int\n    print a\n    print b\n");
    match &m.declarations[0].node {
        TopLevel::Action(a) => {
            assert_eq!(a.name.0, "main");
            assert_eq!(a.params.len(), 2);
            assert!(a.return_type.is_some());
            assert_eq!(a.body.len(), 2);
        },
        other => panic!("expected an action, got {:?}", other),
    }
}

#[test]
fn data_enum_alias() {
    let m = module_of("data Point (x::Int y::Int)\n");
    match &m.declarations[0].node {
        TopLevel::Data(d) => match &d.kind {
            DataKind::Product(fields) => assert_eq!(fields.len(), 2),
            other => panic!("expected fields, got {:?}", other),
        },
        other => panic!("expected data, got {:?}", other),
    }
    let m = module_of("enum Shape | Circle(Float) | Dot | Small(< 10)\n");
    match &m.declarations[0].node {
        TopLevel::Enum(e) => {
            assert_eq!(e.variants.len(), 3);
            assert!(matches!(e.variants[0].payload, VariantPayload::Typed(_)));
            assert_eq!(e.variants[1].payload, VariantPayload::Unit);
            match &e.variants[2].payload {
                VariantPayload::Predicated { predicate } => {
                    let kata::ast::decl::VariantPredicate::Comparison { op, .. } = predicate;
                    assert_eq!(*op, VariantCompare::Lt);
                },
                other => panic!("expected a predicate, got {:?}", other),
            }
        },
        other => panic!("expected an enum, got {:?}", other),
    }
    let m = module_of("alias Int as Count\n");
    match &m.declarations[0].node {
        TopLevel::Alias(a) => assert_eq!(a.name.0, "Count"),
        other => panic!("expected an alias, got {:?}", other),
    }
}

#[test]
fn interfaces_and_implementations() {
    let m = module_of("interface Eq\n    == :: Self Self => Bool\n\nPoint implements Eq\n    == :: Point Point => Bool\n    λ a b: True\n");
    assert_eq!(m.declarations.len(), 2);
    match &m.declarations[0].node {
        TopLevel::Interface(i) => {
            assert_eq!(i.name.0, "Eq");
            assert_eq!(i.members.len(), 1);
            assert!(matches!(i.members[0], InterfaceMember::Signature(..)));
        },
        other => panic!("expected an interface, got {:?}", other),
    }
    match &m.declarations[1].node {
        TopLevel::Implements(i) => {
            assert_eq!(i.interface.0, "Eq");
            assert_eq!(i.for_type.name, "Point");
            assert_eq!(i.implementations.len(), 1);
            assert_eq!(i.implementations[0].clauses.len(), 1);
        },
        other => panic!("expected an implementation, got {:?}", other),
    }
}

#[test]
fn imports_and_exports_leave_declarations() {
    let m = module_of("import math.(sin cos)\nexport f g\nf :: Int => Int\nimport io\n");
    assert_eq!(m.name, "");
    assert_eq!(m.declarations.len(), 1);
    assert_eq!(m.imports.len(), 2);
    assert_eq!(m.imports[0], Import::Items { module: "math".to_string(), items: vec!["sin".to_string(), "cos".to_string()] });
    assert_eq!(m.imports[1], Import::Namespace { module: "io".to_string() });
    assert_eq!(m.exports, vec![Ident::new("f"), Ident::new("g")]);
}

#[test]
fn parse_failure_is_one_error() {
    let r = parse(toks("f :: Int => Int\n)"));
    match r {
        Err(es) => {
            assert_eq!(es.len(), 1);
            assert_eq!(es[0].message, "unexpected token");
        },
        Ok(m) => panic!("expected an error, got {:?}", m),
    }
}

#[test]
fn module_declarations_span_their_tokens() {
    let t = toks("x :: Int\ny :: Int\n");
    let m = module(&t).unwrap();
    assert_eq!(m.declarations.len(), 2);
    assert_eq!(m.declarations[0].span, Span::new(0, 3));
    assert_eq!(m.declarations[1].span, Span::new(4, 7));
}

#[test]
fn errors_convert_to_parse_errors() {
    let plain = to_parse_error(SyntaxError { span: Span::new(3, 4), expected: vec![], found: None });
    assert_eq!(plain, ParseError::new("unexpected token", Span::new(3, 4)));
    let detailed = to_parse_error(SyntaxError {
        span: Span::new(1, 2),
        expected: vec!["Colon".to_string()],
        found: Some("Comma".to_string()),
    });
    assert_eq!(detailed.message, "Expected Colon, found 'Comma'");
    let ok: Result<u8, Vec<SyntaxError>> = Ok(5);
    assert_eq!(convert_result(ok), Ok(5));
    let bad: Result<u8, Vec<SyntaxError>> = Err(vec![
        SyntaxError { span: Span::new(0, 1), expected: vec![], found: None },
        SyntaxError { span: Span::new(2, 3), expected: vec![], found: None },
    ]);
    let converted = convert_result(bad).unwrap_err();
    assert_eq!(converted.len(), 2);
    assert_eq!(converted[1].span, Span::new(2, 3));
}
