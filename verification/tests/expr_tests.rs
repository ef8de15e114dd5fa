use kata::ast::{Ident, Literal, Pattern, Expr, LambdaClause, Spanned, LexerSpan};

fn span(start: usize, end: usize) -> LexerSpan {
    LexerSpan { start, end }
}

fn spanned<T>(node: T, start: usize, end: usize) -> Spanned<T> {
    Spanned::new(node, span(start, end))
}

fn var(name: &str) -> Expr {
    Expr::Var { name: Ident::new(name), type_ascription: None }
}

fn int_lit(v: &str) -> Expr {
    Expr::literal(Literal::integer(v))
}

#[test]
fn expr_test_expr_literal() {
    let e = Expr::literal(Literal::integer("42"));
    assert!(e.is_literal());
    assert!(!e.is_var());
    assert_eq!(e.to_string(), "42");
}

#[test]
fn expr_test_expr_var() {
    let e = var("x");
    assert!(e.is_var());
    assert!(!e.is_literal());
    assert_eq!(e.to_string(), "x");
}

#[test]
fn expr_test_expr_hole() {
    let e = Expr::Hole;
    assert!(e.is_hole());
    assert_eq!(e.to_string(), "_");
}

#[test]
fn expr_test_expr_tuple() {
    let e = Expr::Tuple(vec![spanned(int_lit("1"), 1, 2), spanned(int_lit("2"), 3, 4)]);
    assert_eq!(e.to_string(), "(1 2)");
}

#[test]
fn expr_test_expr_list() {
    let e = Expr::List(vec![spanned(int_lit("1"), 1, 2), spanned(int_lit("2"), 3, 4), spanned(int_lit("3"), 5, 6)]);
    assert_eq!(e.to_string(), "[1 2 3]");
}

#[test]
fn expr_test_expr_array() {
    let e = Expr::Array(vec![spanned(int_lit("1"), 1, 2), spanned(int_lit("2"), 3, 4)]);
    assert_eq!(e.to_string(), "{1 2}");
}

#[test]
fn expr_test_expr_apply() {
    let e = Expr::Apply {
        func: Box::new(spanned(var("+"), 0, 1)),
        args: vec![spanned(int_lit("1"), 2, 3), spanned(int_lit("2"), 4, 5)],
    };
    assert_eq!(e.to_string(), "+ 1 2");
}

#[test]
fn expr_test_expr_pipeline() {
    let e = Expr::Pipeline {
        value: Box::new(spanned(Expr::List(vec![spanned(int_lit("1"), 1, 2)]), 0, 3)),
        func: Box::new(spanned(var("map"), 7, 10)),
    };
    assert_eq!(e.to_string(), "[1] |> map");
}

#[test]
fn expr_test_lambda_clause() {
    let clause = LambdaClause::new(
        vec![spanned(Pattern::var("x"), 3, 4), spanned(Pattern::var("y"), 5, 6)],
        spanned(
            Expr::Apply {
                func: Box::new(spanned(var("+"), 9, 10)),
                args: vec![spanned(var("x"), 11, 12), spanned(var("y"), 13, 14)],
            },
            9,
            14,
        ),
    );
    assert_eq!(clause.to_string(), "x y: + x y");
}

#[test]
fn test_literal_expr() {
    let expr = Expr::literal(Literal::integer("42"));
    assert_eq!(expr.to_string(), "42");
    assert!(expr.is_literal());
}

#[test]
fn test_var_expr() {
    let expr = Expr::var("x");
    assert_eq!(expr.to_string(), "x");
    assert!(expr.is_var());
}

#[test]
fn test_apply_expr() {
    let expr = Expr::apply(
        spanned(Expr::var("+"), 0, 0),
        vec![spanned(int_lit("1"), 0, 0), spanned(int_lit("2"), 0, 0)],
    );
    assert_eq!(expr.to_string(), "+ 1 2");
}

#[test]
fn test_pipeline_expr() {
    let expr = Expr::pipeline(
        spanned(Expr::list(vec![spanned(int_lit("1"), 0, 0), spanned(int_lit("2"), 0, 0)]), 0, 0),
        spanned(Expr::var("map"), 0, 0),
    );
    assert_eq!(expr.to_string(), "[1 2] |> map");
}

#[test]
fn test_tuple_expr() {
    let expr = Expr::tuple(vec![spanned(int_lit("1"), 0, 0), spanned(int_lit("2"), 0, 0)]);
    assert_eq!(expr.to_string(), "(1 2)");
}

#[test]
fn test_hole_expr() {
    let expr = Expr::hole();
    assert!(expr.is_hole());
    assert_eq!(expr.to_string(), "_");
}

#[test]
fn tests_test_expr_literal() {
    let e = Expr::literal(Literal::integer("42"));
    assert!(e.is_literal());
    assert!(!e.is_var());
    assert_eq!(e.to_string(), "42");
}

#[test]
fn tests_test_expr_var() {
    let e = Expr::var("x");
    assert!(e.is_var());
    assert!(!e.is_literal());
    assert_eq!(e.to_string(), "x");
}

#[test]
fn tests_test_expr_hole() {
    let e = Expr::hole();
    assert!(e.is_hole());
    assert_eq!(e.to_string(), "_");
}

#[test]
fn tests_test_expr_tuple() {
    let e = Expr::tuple(vec![spanned(int_lit("1"), 0, 0), spanned(int_lit("2"), 0, 0)]);
    assert_eq!(e.to_string(), "(1 2)");
}

#[test]
fn tests_test_expr_list() {
    let e = Expr::list(vec![spanned(int_lit("1"), 0, 0), spanned(int_lit("2"), 0, 0), spanned(int_lit("3"), 0, 0)]);
    assert_eq!(e.to_string(), "[1 2 3]");
}

#[test]
fn tests_test_expr_array() {
    let e = Expr::array(vec![spanned(int_lit("1"), 0, 0), spanned(int_lit("2"), 0, 0)]);
    assert_eq!(e.to_string(), "{1 2}");
}

#[test]
fn tests_test_expr_apply() {
    let e = Expr::apply(spanned(Expr::var("+"), 0, 0), vec![spanned(int_lit("1"), 0, 0), spanned(int_lit("2"), 0, 0)]);
    assert_eq!(e.to_string(), "+ 1 2");
}

#[test]
fn tests_test_expr_pipeline() {
    let e = Expr::pipeline(
        spanned(Expr::list(vec![spanned(int_lit("1"), 0, 0)]), 0, 0),
        spanned(Expr::var("map"), 0, 0),
    );
    assert_eq!(e.to_string(), "[1] |> map");
}

#[test]
fn typed_variable_shows_its_ascription() {
    let e = Expr::var_typed("x", kata::ast::Type::named("Int"));
    assert_eq!(e.to_string(), "x::Int");
}

#[test]
fn mapping_a_spanned_node_keeps_its_span() {
    let s: Spanned<u32> = spanned(3, 4, 9);
    assert_eq!(spanned(3u32, 4, 9).map(|x| x), s);
    let twice = spanned(3u32, 4, 9).map(|x| x + 1).map(|x| x * 2);
    let composed = spanned(3u32, 4, 9).map(|x| (x + 1) * 2);
    assert_eq!(twice, composed);
    assert_eq!(twice.node, 8);
    assert_eq!(twice.span, span(4, 9));
}
