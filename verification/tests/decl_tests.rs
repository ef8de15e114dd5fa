use kata::ast::{
    Ident, QualifiedIdent, Directive, Type, Predicate, CompareOp, LiteralValue, FunctionSig,
    Module, TopLevel, FunctionDef, ActionDef, DataDef, DataKind, EnumDef, InterfaceDef, ImplDef,
    AliasDef, Import, Export, Spanned, LexerSpan,
};

fn span(start: usize, end: usize) -> LexerSpan {
    LexerSpan { start, end }
}

fn spanned<T>(node: T, start: usize, end: usize) -> Spanned<T> {
    Spanned::new(node, span(start, end))
}

fn check_function_def() {
    let func = FunctionDef::new(
        "soma",
        FunctionSig::binary(Type::named("Int"), Type::named("Int"), Type::named("Int")),
    );
    assert_eq!(func.name.to_string(), "soma");
    assert_eq!(func.arity, 2);
    assert!(!func.is_ffi());
}

fn check_function_def_ffi() {
    let func = FunctionDef::new(
        "+",
        FunctionSig::binary(Type::named("Int"), Type::named("Int"), Type::named("Int")),
    )
    .with_directives(vec![Directive::Ffi { symbol: "kata_rt_add".to_string() }]);
    assert!(func.is_ffi());
}

fn check_action_def() {
    let action = ActionDef::new("main").with_params(vec![Ident::new("args")]);
    assert_eq!(action.name.to_string(), "main");
    assert_eq!(action.params.len(), 1);
    assert!(!action.is_parallel());
}

fn check_action_def_parallel() {
    let action = ActionDef::new("worker").with_directives(vec![Directive::Parallel]);
    assert!(action.is_parallel());
}

fn check_data_def() {
    let data = DataDef::new("Vec2")
        .add_field("x", Some(Type::named("Float")))
        .add_field("y", Some(Type::named("Float")));
    if let DataKind::Product(fields) = &data.kind {
        assert_eq!(fields.len(), 2);
    } else {
        panic!("Expected Product kind");
    }
    assert_eq!(data.to_string(), "data Vec2 (x::Float y::Float)");
}

fn check_data_def_generic() {
    let data = DataDef::new("Caixa")
        .with_type_params(vec![Ident::new("T")])
        .add_field("conteudo", Some(Type::var("T")))
        .add_field("peso", Some(Type::named("Int")));
    assert_eq!(data.type_params.len(), 1);
}

fn check_enum_def() {
    let enum_def = EnumDef::new("Bool").add_unit_variant("True").add_unit_variant("False");
    assert_eq!(enum_def.variants.len(), 2);
}

fn check_enum_def_generic() {
    let enum_def = EnumDef::new("Result")
        .with_type_params(vec![Ident::new("T"), Ident::new("E")])
        .add_typed_variant("Ok", Type::var("T"))
        .add_typed_variant("Err", Type::var("E"));
    assert_eq!(enum_def.type_params.len(), 2);
    assert_eq!(enum_def.variants.len(), 2);
}

fn check_interface_def() {
    let interface = InterfaceDef::new("EQ").with_extends(vec![Ident::new("HASH")]);
    assert_eq!(interface.name.to_string(), "EQ");
    assert_eq!(interface.extends.len(), 1);
}

fn check_impl_def() {
    let impl_def = ImplDef::new(QualifiedIdent::simple("Int"), "NUM");
    assert_eq!(impl_def.for_type.to_string(), "Int");
    assert_eq!(impl_def.interface.to_string(), "NUM");
}

fn check_alias_def() {
    let alias = AliasDef::new(
        "NonZero",
        Type::refined(Type::named("Int"), Predicate::Comparison { op: CompareOp::Neq, value: LiteralValue::Int(0) }),
    );
    assert_eq!(alias.name.to_string(), "NonZero");
}

fn check_import_namespace() {
    let import = Import::Namespace { module: "types".to_string() };
    assert_eq!(import.to_string(), "import types");
}

fn check_import_item() {
    let import = Import::Item { module: "types".to_string(), item: "NUM".to_string() };
    assert_eq!(import.to_string(), "import types.NUM");
}

fn check_import_items() {
    let import = Import::Items { module: "types".to_string(), items: vec!["NUM".to_string(), "ORD".to_string()] };
    assert_eq!(import.to_string(), "import types.(NUM ORD)");
}

fn check_export() {
    let export = Export::new(vec![Ident::new("soma"), Ident::new("subtrai")]);
    assert_eq!(export.items.len(), 2);
    assert_eq!(export.to_string(), "export soma subtrai");
}

#[test]
fn decl_test_function_def() {
    check_function_def();
}

#[test]
fn decl_test_function_def_ffi() {
    check_function_def_ffi();
}

#[test]
fn decl_test_action_def() {
    check_action_def();
}

#[test]
fn decl_test_action_def_parallel() {
    check_action_def_parallel();
}

#[test]
fn decl_test_data_def() {
    check_data_def();
}

#[test]
fn decl_test_data_def_generic() {
    check_data_def_generic();
}

#[test]
fn decl_test_enum_def() {
    check_enum_def();
    check_enum_def_generic();
}

#[test]
fn decl_test_enum_def_generic() {
    check_enum_def_generic();
}

#[test]
fn decl_test_interface_def() {
    check_interface_def();
}

#[test]
fn decl_test_impl_def() {
    check_impl_def();
}

#[test]
fn decl_test_alias_def() {
    check_alias_def();
}

#[test]
fn decl_test_import_namespace() {
    check_import_namespace();
}

#[test]
fn decl_test_import_item() {
    check_import_item();
}

#[test]
fn decl_test_import_items() {
    check_import_items();
}

#[test]
fn decl_test_import() {
    check_import_item();
}

#[test]
fn decl_test_export() {
    check_export();
}

#[test]
fn decl_test_module() {
    let module = Module::new("main")
        .with_imports(vec![Import::Namespace { module: "types".to_string() }])
        .with_declarations(vec![spanned(
            TopLevel::Function(FunctionDef::new("main", FunctionSig::nullary(Type::named("Unit")))),
            0,
            50,
        )])
        .with_exports(vec![Ident::new("main")]);
    assert_eq!(module.name, "main");
    assert_eq!(module.imports.len(), 1);
    assert_eq!(module.declarations.len(), 1);
    assert_eq!(module.exports.len(), 1);
}

#[test]
fn tests_test_function_def() {
    check_function_def();
}

#[test]
fn tests_test_function_def_ffi() {
    check_function_def_ffi();
}

#[test]
fn tests_test_action_def() {
    check_action_def();
}

#[test]
fn tests_test_action_def_parallel() {
    check_action_def_parallel();
}

#[test]
fn tests_test_data_def() {
    check_data_def();
}

#[test]
fn tests_test_data_def_generic() {
    check_data_def_generic();
}

#[test]
fn tests_test_enum_def() {
    check_enum_def();
}

#[test]
fn tests_test_enum_def_generic() {
    check_enum_def_generic();
}

#[test]
fn tests_test_interface_def() {
    check_interface_def();
}

#[test]
fn tests_test_impl_def() {
    check_impl_def();
}

#[test]
fn tests_test_alias_def() {
    check_alias_def();
}

#[test]
fn tests_test_import_namespace() {
    check_import_namespace();
}

#[test]
fn tests_test_import_item() {
    check_import_item();
}

#[test]
fn tests_test_import_items() {
    check_import_items();
}

#[test]
fn tests_test_export() {
    check_export();
}

#[test]
fn refinement_data_has_no_fields() {
    let data = DataDef::refinement("Positive", Type::named("Int"));
    assert!(matches!(data.kind, DataKind::Refinement(_)));
}
