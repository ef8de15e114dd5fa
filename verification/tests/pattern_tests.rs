use kata::ast::{Ident, Literal, Pattern, Guard, Spanned, LexerSpan};

fn span(start: usize, end: usize) -> LexerSpan {
    LexerSpan { start, end }
}

fn spanned<T>(node: T, start: usize, end: usize) -> Spanned<T> {
    Spanned::new(node, span(start, end))
}

fn check_pattern_literal() {
    let p = Pattern::literal(Literal::integer("42"));
    assert!(!p.captures_variables());
    assert_eq!(p.to_string(), "42");
}

fn check_pattern_var() {
    let p = Pattern::var("x");
    assert!(p.captures_variables());
    assert_eq!(p.captured_variables().len(), 1);
    assert_eq!(p.to_string(), "x");
}

fn check_pattern_wildcard() {
    let p = Pattern::wildcard();
    assert!(!p.captures_variables());
    assert_eq!(p.to_string(), "_");
}

fn check_pattern_or() {
    let p = Pattern::Or(vec![
        spanned(Pattern::literal(Literal::integer("0")), 0, 1),
        spanned(Pattern::literal(Literal::integer("1")), 4, 5),
    ]);
    assert_eq!(p.to_string(), "0 | 1");
}

fn check_pattern_list_with_rest() {
    let p = Pattern::List {
        elements: vec![spanned(Pattern::var("head"), 1, 5)],
        rest: Some(Box::new(spanned(Pattern::var("tail"), 9, 13))),
    };
    assert!(p.captures_variables());
    assert_eq!(p.to_string(), "[head ...tail]");
}

fn check_pattern_range() {
    let p = Pattern::Range { start: Literal::integer("1"), end: Literal::integer("10"), inclusive: false };
    assert_eq!(p.to_string(), "[1..10]");
}

fn check_pattern_range_inclusive() {
    let p = Pattern::Range { start: Literal::integer("1"), end: Literal::integer("10"), inclusive: true };
    assert_eq!(p.to_string(), "[1..=10]");
}

#[test]
fn pattern_test_pattern_literal() {
    check_pattern_literal();
}

#[test]
fn pattern_test_pattern_var() {
    check_pattern_var();
}

#[test]
fn pattern_test_pattern_wildcard() {
    check_pattern_wildcard();
}

#[test]
fn pattern_test_pattern_tuple() {
    let p = Pattern::Tuple(vec![
        spanned(Pattern::var("a"), 1, 2),
        spanned(Pattern::var("b"), 3, 4),
        spanned(Pattern::wildcard(), 5, 6),
    ]);
    assert!(p.captures_variables());
    assert_eq!(p.captured_variables().len(), 2);
    assert_eq!(p.to_string(), "(a b _)");
}

#[test]
fn pattern_test_pattern_variant() {
    let p = Pattern::Variant { name: Ident::new("Ok"), args: vec![spanned(Pattern::var("value"), 3, 8)] };
    assert_eq!(p.to_string(), "Ok(value)");
    assert!(p.captures_variables());
}

#[test]
fn pattern_test_pattern_variant_unit() {
    let p = Pattern::Variant { name: Ident::new("None"), args: vec![] };
    assert_eq!(p.to_string(), "None");
    assert!(!p.captures_variables());
}

#[test]
fn pattern_test_pattern_or() {
    check_pattern_or();
}

#[test]
fn pattern_test_pattern_empty_list() {
    let p = Pattern::List { elements: vec![], rest: None };
    assert_eq!(p.to_string(), "[]");
    assert!(!p.captures_variables());
}

#[test]
fn pattern_test_pattern_list_with_rest() {
    check_pattern_list_with_rest();
}

#[test]
fn pattern_test_pattern_range() {
    check_pattern_range();
}

#[test]
fn pattern_test_pattern_range_inclusive() {
    check_pattern_range_inclusive();
}

#[test]
fn pattern_test_guard_display() {
    assert_eq!(Guard::Otherwise.to_string(), "otherwise");
}

#[test]
fn tests_test_pattern_literal() {
    check_pattern_literal();
}

#[test]
fn tests_test_pattern_var() {
    check_pattern_var();
}

#[test]
fn tests_test_pattern_wildcard() {
    check_pattern_wildcard();
}

#[test]
fn tests_test_pattern_or() {
    check_pattern_or();
}

#[test]
fn tests_test_pattern_list_with_rest() {
    check_pattern_list_with_rest();
}

#[test]
fn tests_test_pattern_range() {
    check_pattern_range();
}

#[test]
fn tests_test_pattern_range_inclusive() {
    check_pattern_range_inclusive();
}

#[test]
fn tests_test_guard_display() {
    assert_eq!(Guard::Otherwise.to_string(), "otherwise");
}

#[test]
fn captured_variables_come_left_to_right_through_nesting() {
    let p = Pattern::Cons {
        head: Box::new(spanned(Pattern::var("h"), 0, 1)),
        tail: Box::new(spanned(
            Pattern::Tuple(vec![spanned(Pattern::var("a"), 3, 4), spanned(Pattern::var("b"), 5, 6)]),
            2,
            7,
        )),
    };
    let names: Vec<String> = p.captured_variables().iter().map(|i| i.0.clone()).collect();
    assert_eq!(names, vec!["h".to_string(), "a".to_string(), "b".to_string()]);
    assert!(p.captures_variables());
}
