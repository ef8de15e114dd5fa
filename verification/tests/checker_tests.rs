use kata::ast::{
    Ident, QualifiedIdent, Literal, Type, FunctionSig, Pattern, Expr, LambdaClause, Stmt, Module,
    TopLevel, FunctionDef, ActionDef, DataDef, EnumDef, AliasDef, Export, InterfaceDef, ImplDef, Spanned, LexerSpan,
    WithBinding,
};
use kata::tast::decl::DeclKind;
use kata::ast::types::copy_type;
use kata::tast::expr::ExprKind;
use kata::tast::stmt::StmtKind;
use kata::type_checker::checker::{Checker, decl_names_ok};
use kata::type_checker::effects::audit_effects;
use kata::type_checker::error::TypeError;

fn span(start: usize, end: usize) -> LexerSpan {
    LexerSpan { start, end }
}

fn spanned<T>(node: T, start: usize, end: usize) -> Spanned<T> {
    Spanned::new(node, span(start, end))
}

fn var(name: &str) -> Expr {
    Expr::Var { name: Ident::new(name), type_ascription: None }
}

fn int_lit(v: &str) -> Expr {
    Expr::literal(Literal::integer(v))
}

fn identity() -> FunctionDef {
    FunctionDef::new("id", FunctionSig::unary(Type::named("Int"), Type::named("Int")))
        .add_clause(LambdaClause::new(vec![spanned(Pattern::var("x"), 0, 1)], spanned(var("x"), 3, 4)))
}

#[test]
fn empty_module_checks_to_nothing() {
    let mut c = Checker::new();
    let r = c.check_module(vec![]);
    assert_eq!(r.unwrap().len(), 0);
}

#[test]
fn identity_function_checks() {
    let mut c = Checker::new();
    let decls = vec![spanned(TopLevel::Function(identity()), 0, 10)];
    let typed = c.check_module(decls).unwrap();
    assert_eq!(typed.len(), 1);
    assert_eq!(typed[0].span, span(0, 10));
    match &typed[0].kind {
        DeclKind::Function(f) => {
            assert_eq!(f.name, Ident::new("id"));
            assert_eq!(f.clauses.len(), 1);
            let body = f.clauses[0].body.as_ref().unwrap();
            assert_eq!(body.typ, Type::named("Int"));
            assert_eq!(body.kind, ExprKind::Var(Ident::new("x")));
        },
        other => panic!("unexpected {:?}", other),
    }
}

#[test]
fn clause_with_too_many_patterns_is_an_arity_mismatch() {
    let f = FunctionDef::new("id", FunctionSig::unary(Type::named("Int"), Type::named("Int"))).add_clause(
        LambdaClause::new(
            vec![spanned(Pattern::var("x"), 0, 1), spanned(Pattern::var("y"), 2, 3)],
            spanned(var("x"), 5, 6),
        ),
    );
    let mut c = Checker::new();
    let r = c.check_module(vec![spanned(TopLevel::Function(f), 0, 10)]);
    assert_eq!(
        r.unwrap_err(),
        TypeError::UnboundVariable {
            name: "Arity Mismatch in function `id`: expected 1, but found 2".to_string(),
            span: span(0, 0),
        }
    );
}

#[test]
fn wrong_return_type_is_reported_with_the_function() {
    let f = FunctionDef::new("f", FunctionSig::nullary(Type::named("Bool")))
        .add_clause(LambdaClause::new(vec![], spanned(int_lit("42"), 3, 5)));
    let mut c = Checker::new();
    let r = c.check_module(vec![spanned(TopLevel::Function(f), 0, 10)]);
    assert_eq!(
        r.unwrap_err(),
        TypeError::UnboundVariable {
            name: "Type Mismatch in function `f` return: expected `Int`, but found `Bool`".to_string(),
            span: span(3, 5),
        }
    );
}

#[test]
fn unknown_name_is_unbound() {
    let f = FunctionDef::new("f", FunctionSig::nullary(Type::named("Int")))
        .add_clause(LambdaClause::new(vec![], spanned(var("y"), 3, 4)));
    let mut c = Checker::new();
    let r = c.check_module(vec![spanned(TopLevel::Function(f), 0, 10)]);
    assert_eq!(r.unwrap_err(), TypeError::UnboundVariable { name: "y".to_string(), span: span(3, 4) });
}

#[test]
fn prefix_application_is_resolved_by_arity() {
    let two = FunctionDef::new("two", FunctionSig::nullary(Type::named("Int"))).add_clause(LambdaClause::new(
        vec![],
        spanned(Expr::Apply { func: Box::new(spanned(var("id"), 10, 12)), args: vec![spanned(int_lit("1"), 13, 14)] }, 10, 14),
    ));
    let mut c = Checker::new();
    let typed = c
        .check_module(vec![spanned(TopLevel::Function(identity()), 0, 8), spanned(TopLevel::Function(two), 9, 20)])
        .unwrap();
    match &typed[1].kind {
        DeclKind::Function(f) => {
            let body = f.clauses[0].body.as_ref().unwrap();
            assert_eq!(body.typ, Type::named("Int"));
            assert_eq!(body.span, span(10, 12));
            match &body.kind {
                ExprKind::Apply { func, args } => {
                    assert_eq!(func.kind, ExprKind::Var(Ident::new("id")));
                    assert_eq!(args.len(), 1);
                },
                other => panic!("unexpected {:?}", other),
            }
        },
        other => panic!("unexpected {:?}", other),
    }
}

#[test]
fn application_without_enough_arguments_asks_for_holes() {
    let two = FunctionDef::new("two", FunctionSig::nullary(Type::named("Int"))).add_clause(LambdaClause::new(
        vec![],
        spanned(Expr::Apply { func: Box::new(spanned(var("id"), 10, 12)), args: vec![] }, 10, 12),
    ));
    let mut c = Checker::new();
    let r = c.check_module(vec![spanned(TopLevel::Function(identity()), 0, 8), spanned(TopLevel::Function(two), 9, 20)]);
    assert_eq!(
        r.unwrap_err(),
        TypeError::UnboundVariable {
            name: "Function `id` expects 1 arguments, but only 0 were provided. Use '_' for partial application."
                .to_string(),
            span: span(10, 12),
        }
    );
}

#[test]
fn top_level_statement_checks_in_an_action_context() {
    let mut c = Checker::new();
    let typed = c.check_module(vec![spanned(TopLevel::Statement(Stmt::Break), 4, 9)]).unwrap();
    assert_eq!(typed[0].span, span(4, 9));
    match &typed[0].kind {
        DeclKind::Statement(s) => assert_eq!(s.kind, StmtKind::Break),
        other => panic!("unexpected {:?}", other),
    }
    assert!(!c.in_action_context);
}

#[test]
fn action_binds_and_assigns() {
    let body = vec![
        spanned(Stmt::Let { pattern: spanned(Pattern::var("x"), 4, 5), value: spanned(int_lit("1"), 6, 7) }, 0, 7),
        spanned(Stmt::Assign { name: Ident::new("x"), value: spanned(int_lit("2"), 14, 15) }, 8, 15),
    ];
    let action = ActionDef::new("main").with_body(body);
    let mut c = Checker::new();
    let typed = c.check_module(vec![spanned(TopLevel::Action(action), 0, 20)]).unwrap();
    match &typed[0].kind {
        DeclKind::Action(a) => {
            assert_eq!(a.body.len(), 2);
            assert_eq!(a.return_type, Type::named("Unit"));
        },
        other => panic!("unexpected {:?}", other),
    }
}

#[test]
fn assignment_to_unknown_variable_fails() {
    let body = vec![spanned(Stmt::Assign { name: Ident::new("z"), value: spanned(int_lit("2"), 6, 7) }, 0, 7)];
    let action = ActionDef::new("main").with_body(body);
    let mut c = Checker::new();
    let r = c.check_module(vec![spanned(TopLevel::Action(action), 0, 20)]);
    assert_eq!(r.unwrap_err(), TypeError::UnboundVariable { name: "z".to_string(), span: span(0, 7) });
}

#[test]
fn unhandled_statement_is_reported() {
    let body = vec![spanned(Stmt::Panic { message: spanned(Expr::literal(Literal::string("boom")), 7, 13) }, 0, 13)];
    let action = ActionDef::new("main").with_body(body);
    let mut c = Checker::new();
    let r = c.check_module(vec![spanned(TopLevel::Action(action), 0, 20)]);
    assert_eq!(
        r.unwrap_err(),
        TypeError::UnboundVariable { name: "Unimplemented statement check".to_string(), span: span(0, 13) }
    );
}

#[test]
fn orphan_implementation_is_refused() {
    let imp = ImplDef::new(QualifiedIdent::simple("Int"), "NUM");
    let mut c = Checker::new();
    let r = c.check_module(vec![spanned(TopLevel::Implements(imp), 3, 30)]);
    assert_eq!(
        r.unwrap_err(),
        TypeError::OrphanRuleViolation {
            ty_name: "Int".to_string(),
            interface_name: "NUM".to_string(),
            span: span(3, 30),
        }
    );
}

#[test]
fn local_type_may_implement_a_local_interface() {
    let decls = vec![
        spanned(TopLevel::Data(DataDef::new("Point").add_field("x", Some(Type::named("Int")))), 0, 10),
        spanned(TopLevel::Interface(InterfaceDef::new("MARK")), 11, 20),
        spanned(TopLevel::Implements(ImplDef::new(QualifiedIdent::simple("Point"), "MARK")), 21, 40),
    ];
    let mut c = Checker::new();
    let typed = c.check_module(decls).unwrap();
    assert_eq!(typed.len(), 3);
    match &typed[0].kind {
        DeclKind::Data(d) => {
            assert_eq!(d.fields.len(), 1);
            assert_eq!(d.fields[0].typ, Type::named("Int"));
        },
        other => panic!("unexpected {:?}", other),
    }
    match &typed[2].kind {
        DeclKind::Implements(i) => {
            assert_eq!(i.for_type, Type::named("Point"));
            assert_eq!(i.interface, Ident::new("MARK"));
        },
        other => panic!("unexpected {:?}", other),
    }
    assert!(c.env.satisfies_interface(&Type::named("Point"), "MARK").is_some());
}

#[test]
fn pure_function_calling_an_action_fails_the_audit() {
    let log = ActionDef::new("log");
    let f = FunctionDef::new("f", FunctionSig::nullary(Type::named("Unit"))).add_clause(LambdaClause::new(
        vec![],
        spanned(Expr::Apply { func: Box::new(spanned(var("log!"), 20, 24)), args: vec![] }, 20, 24),
    ));
    let mut c = Checker::new();
    let typed = c
        .check_module(vec![spanned(TopLevel::Action(log), 0, 10), spanned(TopLevel::Function(f), 11, 30)])
        .unwrap();
    assert_eq!(
        audit_effects(&typed).unwrap_err(),
        TypeError::ImpureCallInPureContext { action_name: "log!".to_string(), span: span(20, 24) }
    );
}

#[test]
fn pure_module_passes_the_audit() {
    let mut c = Checker::new();
    let typed = c.check_module(vec![spanned(TopLevel::Function(identity()), 0, 10)]).unwrap();
    assert!(audit_effects(&typed).is_ok());
}

#[test]
fn declarations_with_unnamed_type_variables_are_flagged() {
    let bad = TopLevel::Function(FunctionDef::new("f", FunctionSig::nullary(Type::var(""))));
    assert!(!decl_names_ok(&bad));
    assert!(decl_names_ok(&TopLevel::Function(identity())));
    let unnamed = TopLevel::Implements(ImplDef::new(QualifiedIdent::simple(""), "MARK"));
    assert!(decl_names_ok(&unnamed));
}

#[test]
fn module_declarations_are_kept_by_the_builder() {
    let m = Module::new("m").with_declarations(vec![spanned(TopLevel::Function(identity()), 0, 1)]);
    assert_eq!(m.declarations.len(), 1);
}

#[test]
fn data_enum_alias_and_export_declarations_are_always_accepted() {
    let decls = vec![
        spanned(TopLevel::Data(DataDef::new("Point").add_field("x", Some(Type::named("Int")))), 0, 10),
        spanned(TopLevel::Enum(EnumDef::new("Color")), 11, 20),
        spanned(TopLevel::Alias(AliasDef { name: Ident::new("Num"), target: Type::named("Int") }), 21, 30),
        spanned(TopLevel::Export(Export { items: vec![Ident::new("Point"), Ident::new("Color")] }), 31, 40),
    ];
    let mut c = Checker::new();
    let typed = c.check_module(decls).unwrap();
    assert_eq!(typed.len(), 4);
    assert_eq!(typed[3].span, span(31, 40));
    match &typed[3].kind {
        DeclKind::Export(names) => assert_eq!(names, &vec!["Point".to_string(), "Color".to_string()]),
        other => panic!("unexpected {:?}", other),
    }
}

#[test]
fn tuple_and_block_of_literals_and_holes_check() {
    let tuple = Expr::Tuple(vec![spanned(int_lit("1"), 1, 2), spanned(Expr::Hole, 4, 5)]);
    let block = Expr::Block(vec![spanned(tuple, 0, 6), spanned(Expr::literal(Literal::string("s")), 7, 10)]);
    let mut c = Checker::new();
    let typed = c.check_module(vec![spanned(TopLevel::Statement(Stmt::Expr(spanned(block, 0, 10))), 0, 10)]).unwrap();
    match &typed[0].kind {
        DeclKind::Statement(s) => match &s.kind {
            StmtKind::Expr(e) => {
                assert_eq!(e.typ, Type::named("Text"));
                match &e.kind {
                    ExprKind::Block(items) => {
                        assert_eq!(items.len(), 2);
                        match &items[0].typ {
                            Type::Tuple(ts) => {
                                assert_eq!(ts.len(), 2);
                                assert_eq!(ts[0], Type::named("Int"));
                            },
                            other => panic!("unexpected {:?}", other),
                        }
                    },
                    other => panic!("unexpected {:?}", other),
                }
            },
            other => panic!("unexpected {:?}", other),
        },
        other => panic!("unexpected {:?}", other),
    }
}

#[test]
fn application_of_a_local_value_checks_the_head_alone() {
    let body = vec![
        spanned(Stmt::Let { pattern: spanned(Pattern::var("f"), 4, 5), value: spanned(int_lit("1"), 8, 9) }, 0, 9),
        spanned(
            Stmt::Expr(spanned(
                Expr::Apply { func: Box::new(spanned(var("f"), 10, 11)), args: vec![spanned(int_lit("2"), 12, 13)] },
                10,
                13,
            )),
            10,
            13,
        ),
    ];
    let action = ActionDef::new("main").with_body(body);
    let mut c = Checker::new();
    let typed = c.check_module(vec![spanned(TopLevel::Action(action), 0, 20)]).unwrap();
    match &typed[0].kind {
        DeclKind::Action(a) => match &a.body[1].kind {
            StmtKind::Expr(e) => {
                assert_eq!(e.kind, ExprKind::Var(Ident::new("f")));
                assert_eq!(e.typ, Type::named("Int"));
                assert_eq!(e.span, span(10, 11));
            },
            other => panic!("unexpected {:?}", other),
        },
        other => panic!("unexpected {:?}", other),
    }
}

#[test]
fn signature_constraint_on_an_unknown_function_fails() {
    let with = Expr::WithBlock {
        body: Box::new(spanned(int_lit("1"), 0, 1)),
        bindings: vec![WithBinding::Signature {
            name: Ident::new("g"),
            sig: FunctionSig::unary(Type::named("Int"), Type::named("Int")),
        }],
    };
    let mut c = Checker::new();
    let r = c.check_module(vec![spanned(TopLevel::Statement(Stmt::Expr(spanned(with, 0, 9))), 0, 9)]);
    assert_eq!(
        r.unwrap_err(),
        TypeError::UnboundVariable { name: "Constraint Mismatch: Function `g` not found".to_string(), span: span(0, 9) }
    );
}

#[test]
fn declarations_that_cannot_fail_make_an_accepted_module() {
    let iface = InterfaceDef::new("SHOW")
        .add_signature("show", FunctionSig::unary(Type::var("T"), Type::named("Text")));
    let decls = vec![
        spanned(TopLevel::Interface(iface), 0, 10),
        spanned(TopLevel::Action(ActionDef::new("main")), 11, 20),
        spanned(TopLevel::Function(FunctionDef::new("f", FunctionSig::unary(Type::named("Int"), Type::named("Int")))), 21, 30),
    ];
    let mut c = Checker::new();
    let typed = c.check_module(decls).unwrap();
    assert_eq!(typed.len(), 3);
    match &typed[0].kind {
        DeclKind::Interface(i) => assert_eq!(i.members.len(), 1),
        other => panic!("unexpected {:?}", other),
    }
    match &typed[1].kind {
        DeclKind::Action(a) => assert_eq!(a.body.len(), 0),
        other => panic!("unexpected {:?}", other),
    }
}

fn statement_type(e: Expr) -> Result<Type, TypeError> {
    let mut c = Checker::new();
    let typed = c.check_module(vec![spanned(TopLevel::Statement(Stmt::Expr(spanned(e, 0, 9))), 0, 9)])?;
    match &typed[0].kind {
        DeclKind::Statement(s) => match &s.kind {
            StmtKind::Expr(e) => Ok(copy_type(&e.typ)),
            other => panic!("unexpected {:?}", other),
        },
        other => panic!("unexpected {:?}", other),
    }
}

#[test]
fn a_list_of_integers_is_a_list_of_int() {
    let list = Expr::List(vec![spanned(int_lit("1"), 1, 2), spanned(int_lit("2"), 3, 4), spanned(int_lit("3"), 5, 6)]);
    assert_eq!(statement_type(list).unwrap(), Type::generic("List", vec![Type::named("Int")]));
}

#[test]
fn dispatch_prefers_the_signature_that_matches_exactly() {
    let exact = FunctionDef::new("f", FunctionSig::unary(Type::named("Int"), Type::named("Int")));
    let generic = FunctionDef::new("f", FunctionSig::unary(Type::var("T"), Type::named("Text")));
    let call = Expr::Apply { func: Box::new(spanned(var("f"), 20, 21)), args: vec![spanned(int_lit("1"), 22, 23)] };
    let mut c = Checker::new();
    let typed = c
        .check_module(vec![
            spanned(TopLevel::Function(generic), 0, 9),
            spanned(TopLevel::Function(exact), 10, 19),
            spanned(TopLevel::Statement(Stmt::Expr(spanned(call, 20, 23))), 20, 23),
        ])
        .unwrap();
    match &typed[2].kind {
        DeclKind::Statement(s) => match &s.kind {
            StmtKind::Expr(e) => assert_eq!(e.typ, Type::named("Int")),
            other => panic!("unexpected {:?}", other),
        },
        other => panic!("unexpected {:?}", other),
    }
}

#[test]
fn a_body_of_the_wrong_type_is_refused() {
    let g = FunctionDef::new("g", FunctionSig::nullary(Type::named("Text")))
        .add_clause(LambdaClause::new(vec![], spanned(int_lit("1"), 5, 6)));
    let mut c = Checker::new();
    let r = c.check_module(vec![spanned(TopLevel::Function(g), 0, 6)]);
    assert!(matches!(r, Err(TypeError::UnboundVariable { .. })));
}

#[test]
fn an_implementation_also_implements_the_parent_interfaces() {
    let eq = InterfaceDef::new("EQ");
    let ord = InterfaceDef::new("ORD").with_extends(vec![Ident::new("EQ")]);
    let imp = ImplDef::new(QualifiedIdent::simple("Point"), "ORD");
    let mut c = Checker::new();
    c.check_module(vec![
        spanned(TopLevel::Interface(eq), 0, 5),
        spanned(TopLevel::Interface(ord), 6, 11),
        spanned(TopLevel::Data(DataDef::new("Point")), 12, 20),
        spanned(TopLevel::Implements(imp), 21, 30),
    ])
    .unwrap();
    assert_eq!(c.env.satisfies_interface(&Type::named("Point"), "EQ"), Some(1));
    assert_eq!(c.env.satisfies_interface(&Type::named("Point"), "ORD"), Some(1));
}

#[test]
fn a_list_pattern_binds_its_elements_to_the_element_type() {
    let pattern = Pattern::List { elements: vec![spanned(Pattern::var("x"), 1, 2)], rest: None };
    let head = FunctionDef::new(
        "head",
        FunctionSig::unary(Type::generic("List", vec![Type::named("Int")]), Type::named("Int")),
    )
    .add_clause(LambdaClause::new(vec![spanned(pattern, 0, 3)], spanned(var("x"), 5, 6)));
    let mut c = Checker::new();
    let typed = c.check_module(vec![spanned(TopLevel::Function(head), 0, 6)]).unwrap();
    match &typed[0].kind {
        DeclKind::Function(f) => assert_eq!(f.clauses[0].body.as_ref().unwrap().typ, Type::named("Int")),
        other => panic!("unexpected {:?}", other),
    }
}

#[test]
fn functions_with_literal_bodies_and_plain_patterns_check() {
    let one = FunctionDef::new("one", FunctionSig::unary(Type::named("Int"), Type::named("Int")))
        .add_clause(LambdaClause::new(vec![spanned(Pattern::Wildcard, 0, 1)], spanned(int_lit("1"), 3, 4)));
    let two = FunctionDef::new("two", FunctionSig::unary(Type::named("Int"), Type::named("Int")))
        .add_clause(LambdaClause::new(vec![spanned(Pattern::var("n"), 10, 11)], spanned(int_lit("2"), 13, 14)));
    let mut c = Checker::new();
    let typed = c
        .check_module(vec![spanned(TopLevel::Function(one), 0, 5), spanned(TopLevel::Function(two), 6, 15)])
        .unwrap();
    assert_eq!(typed.len(), 2);
    match &typed[1].kind {
        DeclKind::Function(f) => {
            let body = f.clauses[0].body.as_ref().unwrap();
            assert_eq!(body.typ, Type::named("Int"));
            assert_eq!(body.span, span(13, 14));
        },
        other => panic!("unexpected {:?}", other),
    }
}

#[test]
fn a_function_whose_body_calls_another_checks() {
    let g = FunctionDef::new("g", FunctionSig::unary(Type::named("Int"), Type::named("Int")))
        .add_clause(LambdaClause::new(
            vec![spanned(Pattern::var("n"), 10, 11)],
            spanned(Expr::Apply { func: Box::new(spanned(var("id"), 13, 15)), args: vec![spanned(var("n"), 16, 17)] }, 13, 17),
        ));
    let mut c = Checker::new();
    let typed = c
        .check_module(vec![spanned(TopLevel::Function(identity()), 0, 8), spanned(TopLevel::Function(g), 9, 18)])
        .unwrap();
    match &typed[1].kind {
        DeclKind::Function(f) => {
            let body = f.clauses[0].body.as_ref().unwrap();
            assert_eq!(body.typ, Type::named("Int"));
            assert!(matches!(body.kind, ExprKind::Apply { .. }));
        },
        other => panic!("unexpected {:?}", other),
    }
}

#[test]
fn a_call_that_no_signature_matches_is_refused() {
    let g = FunctionDef::new("g", FunctionSig::nullary(Type::named("Int"))).add_clause(LambdaClause::new(
        vec![],
        spanned(
            Expr::Apply {
                func: Box::new(spanned(var("id"), 13, 15)),
                args: vec![spanned(Expr::literal(Literal::string("a")), 16, 19)],
            },
            13,
            19,
        ),
    ));
    let mut c = Checker::new();
    let r = c.check_module(vec![spanned(TopLevel::Function(identity()), 0, 8), spanned(TopLevel::Function(g), 9, 20)]);
    assert!(matches!(r, Err(TypeError::NoMatchingDispatch { .. })));
}

#[test]
fn an_implementation_of_an_unnamed_type_is_checked_like_any_other() {
    let show = InterfaceDef::new("MARK");
    let imp = ImplDef::new(QualifiedIdent::simple(""), "MARK");
    let mut c = Checker::new();
    let r = c.check_module(vec![spanned(TopLevel::Interface(show), 0, 5), spanned(TopLevel::Implements(imp), 6, 12)]);
    assert!(r.is_ok());
}
