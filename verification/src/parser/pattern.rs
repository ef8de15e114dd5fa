//! Patterns: literals, wildcards, variables, tuples, lists, arrays,
//! variants, ranges, typed patterns and alternatives.

use vstd::prelude::*;
use crate::lexer::token::{Token, SpannedToken};
use crate::ast::Spanned;
use crate::ast::id::{Ident, Literal};

use crate::ast::pattern::{
    Pattern, PatternView, spanned_patterns_view, spanned_pattern_view, pattern_view,
    lemma_spanned_patterns_view_push, lemma_spanned_patterns_view_len,
    lemma_spanned_patterns_view_index, lemma_spanned_patterns_view_concat,
};
use crate::lexer::token::Span;
use crate::parser::cursor::{
    ident_at, pure_ident, starts_upper, span_of, is_tok, ident_of, plain_ident_of, after_separators,
};
use crate::parser::literal::{literal, literal_at};
use crate::parser::type_parser::{type_expr, type_expr_at, upper_name};

verus! {

// =============================================================================
// THE GRAMMAR OF PATTERNS
// =============================================================================
//
// Each rule gives what it reads at a position, with its span, and the
// position after it, or nothing.

/// A pattern with its span.
pub type SpannedView = (PatternView, Span);

/// The span `p..q`.
pub open spec fn span_at(p: int, q: int) -> Span {
    Span { start: p as usize, end: q as usize }
}

/// Any pattern: typed patterns joined by `|`; two or more make an `Or`
/// pattern over the whole span.
pub open spec fn pattern_at(t: Seq<SpannedToken>, p: int) -> Option<(SpannedView, int)>
    decreases t.len() - p, 3int,
{
    match typed_at(t, p) {
        Some((first, q0)) => if p < q0 <= t.len() {
            let r = or_rest(t, q0);
            if r.0.len() == 0 {
                Some((first, q0))
            } else {
                Some(((PatternView::Or(seq![first] + r.0), span_at(p, r.1)), r.1))
            }
        } else {
            None
        },
        None => None,
    }
}

/// Typed patterns from `q` on, each after `|`.
pub open spec fn or_rest(t: Seq<SpannedToken>, q: int) -> (Seq<SpannedView>, int)
    decreases t.len() - q, 5int,
{
    if is_tok(t, q, Token::Pipe) {
        match typed_at(t, q + 1) {
            Some((a, q2)) => if q < q2 <= t.len() {
                let r = or_rest(t, q2);
                (seq![a] + r.0, r.1)
            } else {
                (Seq::empty(), q)
            },
            None => (Seq::empty(), q),
        }
    } else {
        (Seq::empty(), q)
    }
}

/// An atomic pattern, with `::` and a type after it if they follow.
pub open spec fn typed_at(t: Seq<SpannedToken>, p: int) -> Option<(SpannedView, int)>
    decreases t.len() - p, 2int,
{
    match atom_at(t, p) {
        Some((a, q)) => if is_tok(t, q, Token::DoubleColon) {
            match type_expr_at(t, q + 1) {
                Some((ty, q2)) => Some(((PatternView::Typed { pattern: Box::new(a), typ: ty }, span_at(p, q2)), q2)),
                None => Some((a, q)),
            }
        } else {
            Some((a, q))
        },
        None => None,
    }
}

/// An atomic pattern: the first of a tuple, a list, an array, a variant, a
/// range, a literal, the wildcard `_`, or a variable.
pub open spec fn atom_at(t: Seq<SpannedToken>, p: int) -> Option<(SpannedView, int)>
    decreases t.len() - p, 1int,
{
    if tuple_pattern_at(t, p) is Some {
        tuple_pattern_at(t, p)
    } else if list_pattern_at(t, p) is Some {
        list_pattern_at(t, p)
    } else if array_pattern_at(t, p) is Some {
        array_pattern_at(t, p)
    } else if variant_pattern_at(t, p) is Some {
        variant_pattern_at(t, p)
    } else if range_pattern_at(t, p) is Some {
        range_pattern_at(t, p)
    } else {
        match literal_at(t, p) {
            Some((l, q)) => Some(((PatternView::Literal(l), span_at(p, q)), q)),
            None => if is_tok(t, p, Token::Hole) {
                Some(((PatternView::Wildcard, span_at(p, p + 1)), p + 1))
            } else {
                match plain_ident_of(t, p) {
                    Some(s) => Some(((PatternView::Var(s), span_at(p, p + 1)), p + 1)),
                    None => None,
                }
            },
        }
    }
}

/// Patterns from `q` on, with commas and newlines around each.
pub open spec fn tuple_items(t: Seq<SpannedToken>, q: int) -> (Seq<SpannedView>, int)
    decreases t.len() - q, 4int,
{
    let s = after_separators(t, q);
    if q <= s <= t.len() {
        match pattern_at(t, s) {
            Some((a, q2)) => if s < q2 <= after_separators(t, q2) <= t.len() {
                let r = tuple_items(t, after_separators(t, q2));
                (seq![a] + r.0, r.1)
            } else {
                (Seq::empty(), q)
            },
            None => (Seq::empty(), q),
        }
    } else {
        (Seq::empty(), q)
    }
}

/// `(` patterns `)`: one pattern is itself, others a tuple.
pub open spec fn tuple_pattern_at(t: Seq<SpannedToken>, p: int) -> Option<(SpannedView, int)>
    decreases t.len() - p, 0int,
{
    if is_tok(t, p, Token::LParen) {
        let r = tuple_items(t, p + 1);
        if is_tok(t, r.1, Token::RParen) {
            if r.0.len() == 1 {
                Some((r.0[0], r.1 + 1))
            } else {
                Some(((PatternView::Tuple(r.0), span_at(p, r.1 + 1)), r.1 + 1))
            }
        } else {
            None
        }
    } else {
        None
    }
}

/// Patterns from `q` on, each after `:`.
pub open spec fn colon_rest(t: Seq<SpannedToken>, q: int) -> (Seq<SpannedView>, int)
    decreases t.len() - q, 5int,
{
    if is_tok(t, q, Token::Colon) {
        match pattern_at(t, q + 1) {
            Some((a, q2)) => if q < q2 <= t.len() {
                let r = colon_rest(t, q2);
                (seq![a] + r.0, r.1)
            } else {
                (Seq::empty(), q)
            },
            None => (Seq::empty(), q),
        }
    } else {
        (Seq::empty(), q)
    }
}

/// Patterns folded from the right into cons patterns, each taking the span
/// of its tail.
pub open spec fn fold_cons(ps: Seq<SpannedView>) -> SpannedView
    decreases ps.len(),
{
    if ps.len() <= 1 {
        ps[0]
    } else {
        let tail = fold_cons(ps.skip(1));
        (PatternView::Cons { head: Box::new(ps[0]), tail: Box::new(tail) }, tail.1)
    }
}

/// Two or more patterns joined by `:`, folded into a cons pattern.
pub open spec fn cons_items_at(t: Seq<SpannedToken>, p: int) -> Option<(PatternView, int)>
    decreases t.len() - p, 4int,
{
    match pattern_at(t, p) {
        Some((first, q0)) => if p < q0 <= t.len() {
            let r = colon_rest(t, q0);
            if r.0.len() == 0 {
                None
            } else {
                Some((fold_cons(seq![first] + r.0).0, r.1))
            }
        } else {
            None
        },
        None => None,
    }
}

/// Patterns from `q` on, each followed by a comma if one follows.
pub open spec fn list_elements(t: Seq<SpannedToken>, q: int) -> (Seq<SpannedView>, int)
    decreases t.len() - q, 4int,
{
    match pattern_at(t, q) {
        Some((a, q2)) => if q < q2 < t.len() && is_tok(t, q2, Token::Comma) {
            let r = list_elements(t, q2 + 1);
            (seq![a] + r.0, r.1)
        } else if q < q2 <= t.len() {
            let r = list_elements(t, q2);
            (seq![a] + r.0, r.1)
        } else {
            (Seq::empty(), q)
        },
        None => (Seq::empty(), q),
    }
}

/// The elements of a list pattern, and the pattern after `...` if there is
/// one.
pub open spec fn list_body_at(t: Seq<SpannedToken>, p: int) -> (PatternView, int)
    decreases t.len() - p, 5int,
{
    let r = list_elements(t, p);
    if p <= r.1 && is_tok(t, r.1, Token::DotDotDot) {
        match pattern_at(t, r.1 + 1) {
            Some((a, q2)) => (PatternView::List { elements: r.0, rest: Some(Box::new(a)) }, q2),
            None => (PatternView::List { elements: r.0, rest: None }, r.1),
        }
    } else {
        (PatternView::List { elements: r.0, rest: None }, r.1)
    }
}

/// `[` `]` around cons patterns, or around list elements.
pub open spec fn list_pattern_at(t: Seq<SpannedToken>, p: int) -> Option<(SpannedView, int)>
    decreases t.len() - p, 0int,
{
    if is_tok(t, p, Token::LBracket) {
        let inner = match cons_items_at(t, p + 1) {
            Some(x) => x,
            None => list_body_at(t, p + 1),
        };
        if is_tok(t, inner.1, Token::RBracket) {
            Some(((inner.0, span_at(p, inner.1 + 1)), inner.1 + 1))
        } else {
            None
        }
    } else {
        None
    }
}

/// Patterns from `q` on, each after a comma or a newline.
pub open spec fn separated_rest(t: Seq<SpannedToken>, q: int) -> (Seq<SpannedView>, int)
    decreases t.len() - q, 5int,
{
    if is_tok(t, q, Token::Comma) || is_tok(t, q, Token::Newline) {
        match pattern_at(t, q + 1) {
            Some((a, q2)) => if q < q2 <= t.len() {
                let r = separated_rest(t, q2);
                (seq![a] + r.0, r.1)
            } else {
                (Seq::empty(), q)
            },
            None => (Seq::empty(), q),
        }
    } else {
        (Seq::empty(), q)
    }
}

/// No patterns, or patterns separated by single commas or newlines.
pub open spec fn separated_at(t: Seq<SpannedToken>, p: int) -> (Seq<SpannedView>, int)
    decreases t.len() - p, 4int,
{
    match pattern_at(t, p) {
        Some((a, q0)) => if p < q0 <= t.len() {
            let r = separated_rest(t, q0);
            (seq![a] + r.0, r.1)
        } else {
            (Seq::empty(), p)
        },
        None => (Seq::empty(), p),
    }
}

/// `{` separated patterns `}`.
pub open spec fn array_pattern_at(t: Seq<SpannedToken>, p: int) -> Option<(SpannedView, int)>
    decreases t.len() - p, 0int,
{
    if is_tok(t, p, Token::LBrace) {
        let r = separated_at(t, p + 1);
        if is_tok(t, r.1, Token::RBrace) {
            Some(((PatternView::Array(r.0), span_at(p, r.1 + 1)), r.1 + 1))
        } else {
            None
        }
    } else {
        None
    }
}

/// A variant: a name that starts with an upper-case letter, then its
/// separated arguments in parentheses if they follow.
pub open spec fn variant_pattern_at(t: Seq<SpannedToken>, p: int) -> Option<(SpannedView, int)>
    decreases t.len() - p, 0int,
{
    match ident_of(t, p) {
        Some(name) => if upper_name(name) {
            let with_args = if is_tok(t, p + 1, Token::LParen) {
                let r = separated_at(t, p + 2);
                if is_tok(t, r.1, Token::RParen) {
                    Some(((PatternView::Variant { name, args: r.0 }, span_at(p, r.1 + 1)), r.1 + 1))
                } else {
                    None
                }
            } else {
                None
            };
            if with_args is Some {
                with_args
            } else {
                Some(((PatternView::Variant { name, args: Seq::empty() }, span_at(p, p + 1)), p + 1))
            }
        } else {
            None
        },
        None => None,
    }
}

/// `[` a literal, `..` or `..=`, a literal `]`.
pub open spec fn range_pattern_at(t: Seq<SpannedToken>, p: int) -> Option<(SpannedView, int)> {
    if is_tok(t, p, Token::LBracket) {
        match literal_at(t, p + 1) {
            Some((start, q0)) => {
                let inclusive = is_tok(t, q0, Token::DotDotEqual);
                if is_tok(t, q0, Token::DotDot) || inclusive {
                    match literal_at(t, q0 + 1) {
                        Some((end, q1)) => if is_tok(t, q1, Token::RBracket) {
                            Some(((PatternView::Range { start, end, inclusive }, span_at(p, q1 + 1)), q1 + 1))
                        } else {
                            None
                        },
                        None => None,
                    }
                } else {
                    None
                }
            },
            None => None,
        }
    } else {
        None
    }
}

/// Whether a parser's result is, by its view, what a rule reads.
pub open spec fn pattern_result(r: Option<(Spanned<Pattern>, usize)>, expected: Option<(SpannedView, int)>) -> bool {
    match r {
        Some((x, q)) => expected == Some((spanned_pattern_view(x), q as int)),
        None => expected is None,
    }
}


/// Any pattern.
pub fn pattern(t: &Vec<SpannedToken>, p: usize) -> (r: Option<(Spanned<Pattern>, usize)>)
    requires
        p <= t@.len(),
    ensures
        r matches Some((_, q)) ==> p < q <= t@.len(),
        pattern_result(r, pattern_at(t@, p as int)),
{
    alternatives(t, p)
}

/// A pattern as a lambda argument takes it; the grammar is that of
/// `pattern`, since a cons pattern only stands inside brackets.
pub fn base_pattern(t: &Vec<SpannedToken>, p: usize) -> (r: Option<(Spanned<Pattern>, usize)>)
    requires
        p <= t@.len(),
    ensures
        r matches Some((_, q)) ==> p < q <= t@.len(),
        pattern_result(r, pattern_at(t@, p as int)),
{
    alternatives(t, p)
}

/// A pattern with cons patterns allowed; the grammar is that of `pattern`.
pub fn full_pattern(t: &Vec<SpannedToken>, p: usize) -> (r: Option<(Spanned<Pattern>, usize)>)
    requires
        p <= t@.len(),
    ensures
        r matches Some((_, q)) ==> p < q <= t@.len(),
        pattern_result(r, pattern_at(t@, p as int)),
{
    alternatives(t, p)
}

/// Typed patterns joined by `|`; two or more make an `Or` pattern.
fn alternatives(t: &Vec<SpannedToken>, p: usize) -> (r: Option<(Spanned<Pattern>, usize)>)
    requires
        p <= t@.len(),
    ensures
        r matches Some((_, q)) ==> p < q <= t@.len(),
        pattern_result(r, pattern_at(t@, p as int)),
    decreases t@.len() - p, 3nat,
{
    let (first, q0) = match typed(t, p) {
        Some(x) => x,
        None => {
            return None;
        },
    };
    let ghost whole = or_rest(t@, q0 as int);
    let mut rest: Vec<Spanned<Pattern>> = Vec::new();
    let mut q = q0;
    while q < t.len() && matches!(t[q].token, Token::Pipe)
        invariant
            p < q0 <= q <= t@.len(),
            whole == or_rest(t@, q0 as int),
            spanned_patterns_view(rest@) + or_rest(t@, q as int).0 == whole.0,
            or_rest(t@, q as int).1 == whole.1,
        ensures
            p < q0 <= q <= t@.len(),
            spanned_patterns_view(rest@) + or_rest(t@, q as int).0 == whole.0,
            or_rest(t@, q as int).1 == whole.1,
            or_rest(t@, q as int) == (Seq::<SpannedView>::empty(), q as int),
        decreases t@.len() - q,
    {
        match typed(t, q + 1) {
            Some((a, q2)) => {
                proof {
                    lemma_spanned_patterns_view_push(rest@, a);
                    let more = or_rest(t@, q2 as int);
                    assert(or_rest(t@, q as int) == (seq![spanned_pattern_view(a)] + more.0, more.1));
                    assert(spanned_patterns_view(rest@).push(spanned_pattern_view(a)) + more.0
                        =~= spanned_patterns_view(rest@) + (seq![spanned_pattern_view(a)] + more.0));
                }
                rest.push(a);
                q = q2;
            },
            None => {
                break;
            },
        }
    }
    assert(spanned_patterns_view(rest@) =~= whole.0);
    proof {
        lemma_spanned_patterns_view_len(rest@);
    }
    if rest.len() == 0 {
        return Some((first, q0));
    }
    let ghost rest_seq = rest@;
    let ghost first_v = spanned_pattern_view(first);
    let mut all: Vec<Spanned<Pattern>> = Vec::new();
    all.push(first);
    all.append(&mut rest);
    proof {
        assert(all@ =~= seq![all@[0]] + rest_seq);
        lemma_spanned_patterns_view_concat(seq![all@[0]], rest_seq);
        lemma_spanned_patterns_view_push(Seq::empty(), all@[0]);
        assert(Seq::<Spanned<Pattern>>::empty().push(all@[0]) =~= seq![all@[0]]);
        assert(spanned_patterns_view(Seq::<Spanned<Pattern>>::empty()) =~= Seq::<SpannedView>::empty());
        assert(Seq::<SpannedView>::empty().push(first_v) =~= seq![first_v]);
    }
    Some((Spanned { node: Pattern::Or(all), span: span_of(p, q) }, q))
}

/// An atomic pattern, with a type annotation `::T` if one follows.
fn typed(t: &Vec<SpannedToken>, p: usize) -> (r: Option<(Spanned<Pattern>, usize)>)
    requires
        p <= t@.len(),
    ensures
        r matches Some((_, q)) ==> p < q <= t@.len(),
        pattern_result(r, typed_at(t@, p as int)),
    decreases t@.len() - p, 2nat,
{
    let (a, q) = match atom(t, p) {
        Some(x) => x,
        None => {
            return None;
        },
    };
    if q < t.len() && matches!(t[q].token, Token::DoubleColon) {
        match type_expr(t, q + 1) {
            Some((ty, q2)) => {
                return Some((
                    Spanned { node: Pattern::Typed { pattern: Box::new(a), type_annotation: ty.node }, span: span_of(p, q2) },
                    q2,
                ));
            },
            None => {},
        }
    }
    Some((a, q))
}

/// The first of: a tuple, a list, an array, a variant, a range, a
/// literal, the wildcard `_`, or a variable.
fn atom(t: &Vec<SpannedToken>, p: usize) -> (r: Option<(Spanned<Pattern>, usize)>)
    requires
        p <= t@.len(),
    ensures
        r matches Some((_, q)) ==> p < q <= t@.len(),
        pattern_result(r, atom_at(t@, p as int)),
    decreases t@.len() - p, 1nat,
{
    match tuple_pattern(t, p) {
        Some(x) => {
            return Some(x);
        },
        None => {},
    }
    match list_pattern(t, p) {
        Some(x) => {
            return Some(x);
        },
        None => {},
    }
    match array_pattern(t, p) {
        Some(x) => {
            return Some(x);
        },
        None => {},
    }
    match variant_pattern(t, p) {
        Some(x) => {
            return Some(x);
        },
        None => {},
    }
    match range_pattern(t, p) {
        Some(x) => {
            return Some(x);
        },
        None => {},
    }
    match literal(t, p) {
        Some((l, q)) => {
            return Some((Spanned { node: Pattern::Literal(l), span: span_of(p, q) }, q));
        },
        None => {},
    }
    if p < t.len() && matches!(t[p].token, Token::Hole) {
        return Some((Spanned { node: Pattern::Wildcard, span: span_of(p, p + 1) }, p + 1));
    }
    match pure_ident(t, p) {
        Some((s, q)) => Some((Spanned { node: Pattern::Var(Ident(s)), span: span_of(p, q) }, q)),
        None => None,
    }
}

/// The position after any commas and newlines from `p` on.
fn skip_separators(t: &Vec<SpannedToken>, p: usize) -> (q: usize)
    requires
        p <= t@.len(),
    ensures
        p <= q <= t@.len(),
        q == after_separators(t@, p as int),
{
    crate::parser::cursor::skip_separators(t, p)
}

/// `(` patterns `)`, with commas and newlines around them allowed: one
/// pattern is itself, others a tuple.
fn tuple_pattern(t: &Vec<SpannedToken>, p: usize) -> (r: Option<(Spanned<Pattern>, usize)>)
    requires
        p <= t@.len(),
    ensures
        r matches Some((_, q)) ==> p < q <= t@.len(),
        pattern_result(r, tuple_pattern_at(t@, p as int)),
    decreases t@.len() - p, 0nat,
{
    if !(p < t.len() && matches!(t[p].token, Token::LParen)) {
        return None;
    }
    let ghost whole = tuple_items(t@, p + 1);
    let mut items: Vec<Spanned<Pattern>> = Vec::new();
    let mut q = p + 1;
    loop
        invariant
            p < q <= t@.len(),
            whole == tuple_items(t@, p + 1),
            spanned_patterns_view(items@) + tuple_items(t@, q as int).0 == whole.0,
            tuple_items(t@, q as int).1 == whole.1,
        ensures
            p < q <= t@.len(),
            spanned_patterns_view(items@) + tuple_items(t@, q as int).0 == whole.0,
            tuple_items(t@, q as int).1 == whole.1,
            tuple_items(t@, q as int) == (Seq::<SpannedView>::empty(), q as int),
        decreases t@.len() - q,
    {
        let s = skip_separators(t, q);
        match alternatives(t, s) {
            Some((a, q2)) => {
                let q3 = skip_separators(t, q2);
                proof {
                    lemma_spanned_patterns_view_push(items@, a);
                    let more = tuple_items(t@, q3 as int);
                    assert(tuple_items(t@, q as int) == (seq![spanned_pattern_view(a)] + more.0, more.1));
                    assert(spanned_patterns_view(items@).push(spanned_pattern_view(a)) + more.0
                        =~= spanned_patterns_view(items@) + (seq![spanned_pattern_view(a)] + more.0));
                }
                items.push(a);
                q = q3;
            },
            None => {
                break;
            },
        }
    }
    assert(spanned_patterns_view(items@) =~= whole.0);
    proof {
        lemma_spanned_patterns_view_len(items@);
    }
    if !(q < t.len() && matches!(t[q].token, Token::RParen)) {
        return None;
    }
    if items.len() == 1 {
        proof {
            lemma_spanned_patterns_view_index(items@, 0);
        }
        let a = items.pop().unwrap();
        return Some((a, q + 1));
    }
    Some((Spanned { node: Pattern::Tuple(items), span: span_of(p, q + 1) }, q + 1))
}

/// Patterns joined by `:` after a first one, folded from the right into
/// cons patterns, each taking its tail's span.
fn cons_items(t: &Vec<SpannedToken>, p: usize) -> (r: Option<(Pattern, usize)>)
    requires
        p <= t@.len(),
    ensures
        r matches Some((_, q)) ==> p < q <= t@.len(),
        match r {
            Some((x, q)) => cons_items_at(t@, p as int) == Some((pattern_view(x), q as int)),
            None => cons_items_at(t@, p as int) is None,
        },
    decreases t@.len() - p, 4nat,
{
    let (first, q0) = match alternatives(t, p) {
        Some(x) => x,
        None => {
            return None;
        },
    };
    let ghost whole = colon_rest(t@, q0 as int);
    let ghost first_v = spanned_pattern_view(first);
    let mut all: Vec<Spanned<Pattern>> = Vec::new();
    all.push(first);
    proof {
        lemma_spanned_patterns_view_push(Seq::empty(), all@[0]);
        assert(Seq::<Spanned<Pattern>>::empty().push(all@[0]) =~= all@);
        assert(spanned_patterns_view(Seq::<Spanned<Pattern>>::empty()) =~= Seq::<SpannedView>::empty());
        assert(Seq::<SpannedView>::empty().push(first_v) =~= seq![first_v]);
    }
    let mut q = q0;
    while q < t.len() && matches!(t[q].token, Token::Colon)
        invariant
            p < q0 <= q <= t@.len(),
            all@.len() >= 1,
            whole == colon_rest(t@, q0 as int),
            spanned_patterns_view(all@) + colon_rest(t@, q as int).0 == seq![first_v] + whole.0,
            colon_rest(t@, q as int).1 == whole.1,
        ensures
            p < q0 <= q <= t@.len(),
            all@.len() >= 1,
            spanned_patterns_view(all@) + colon_rest(t@, q as int).0 == seq![first_v] + whole.0,
            colon_rest(t@, q as int).1 == whole.1,
            colon_rest(t@, q as int) == (Seq::<SpannedView>::empty(), q as int),
        decreases t@.len() - q,
    {
        match alternatives(t, q + 1) {
            Some((a, q2)) => {
                proof {
                    lemma_spanned_patterns_view_push(all@, a);
                    let more = colon_rest(t@, q2 as int);
                    assert(colon_rest(t@, q as int) == (seq![spanned_pattern_view(a)] + more.0, more.1));
                    assert(spanned_patterns_view(all@).push(spanned_pattern_view(a)) + more.0
                        =~= spanned_patterns_view(all@) + (seq![spanned_pattern_view(a)] + more.0));
                }
                all.push(a);
                q = q2;
            },
            None => {
                break;
            },
        }
    }
    let ghost views = seq![first_v] + whole.0;
    assert(spanned_patterns_view(all@) =~= views);
    proof {
        lemma_spanned_patterns_view_len(all@);
    }
    if all.len() < 2 {
        return None;
    }
    let n = all.len();
    let ghost all0 = all@;
    let mut acc = all.pop().unwrap();
    proof {
        lemma_spanned_patterns_view_index(all0, n - 1);
        assert(views.subrange(n - 1, n as int) =~= seq![views[n - 1]]);
    }
    while all.len() > 0
        invariant
            all@ == all0.take(all@.len() as int),
            all@.len() < n,
            n == all0.len(),
            views == spanned_patterns_view(all0),
            views.len() == n,
            spanned_pattern_view(acc) == fold_cons(views.subrange(all@.len() as int, n as int)),
        decreases all@.len(),
    {
        let k = all.len();
        let head = all.pop().unwrap();
        proof {
            assert(head == all0[k - 1]);
            lemma_spanned_patterns_view_index(all0, k - 1);
            let sub = views.subrange(k - 1, n as int);
            assert(sub.len() >= 2);
            assert(sub[0] == spanned_pattern_view(head));
            assert(sub.skip(1) =~= views.subrange(k as int, n as int));
            assert(all@ =~= all0.take(all@.len() as int));
        }
        let tail_span = acc.span;
        acc = Spanned { node: Pattern::Cons { head: Box::new(head), tail: Box::new(acc) }, span: tail_span };
    }
    assert(views.subrange(0, n as int) =~= views);
    Some((acc.node, q))
}

/// `[` patterns `]`: either cons patterns `[h : t]`, or elements, each
/// followed by a comma if at all, and then `...rest` if there is one.
fn list_pattern(t: &Vec<SpannedToken>, p: usize) -> (r: Option<(Spanned<Pattern>, usize)>)
    requires
        p <= t@.len(),
    ensures
        r matches Some((_, q)) ==> p < q <= t@.len(),
        pattern_result(r, list_pattern_at(t@, p as int)),
    decreases t@.len() - p, 0nat,
{
    if !(p < t.len() && matches!(t[p].token, Token::LBracket)) {
        return None;
    }
    let (node, q) = match cons_items(t, p + 1) {
        Some(x) => x,
        None => list_body(t, p + 1),
    };
    if q < t.len() && matches!(t[q].token, Token::RBracket) {
        Some((Spanned { node, span: span_of(p, q + 1) }, q + 1))
    } else {
        None
    }
}

/// The elements of a list pattern, each followed by a comma if one
/// follows, and then `...` and the rest if they follow.
fn list_body(t: &Vec<SpannedToken>, p: usize) -> (r: (Pattern, usize))
    requires
        p <= t@.len(),
    ensures
        p <= r.1 <= t@.len(),
        list_body_at(t@, p as int) == (pattern_view(r.0), r.1 as int),
    decreases t@.len() - p, 5nat,
{
    let ghost whole = list_elements(t@, p as int);
    let mut elements: Vec<Spanned<Pattern>> = Vec::new();
    let mut q = p;
    loop
        invariant
            p <= q <= t@.len(),
            whole == list_elements(t@, p as int),
            spanned_patterns_view(elements@) + list_elements(t@, q as int).0 == whole.0,
            list_elements(t@, q as int).1 == whole.1,
        ensures
            p <= q <= t@.len(),
            spanned_patterns_view(elements@) + list_elements(t@, q as int).0 == whole.0,
            list_elements(t@, q as int).1 == whole.1,
            list_elements(t@, q as int) == (Seq::<SpannedView>::empty(), q as int),
        decreases t@.len() - q,
    {
        match alternatives(t, q) {
            Some((a, q2)) => {
                let q3 = if q2 < t.len() && matches!(t[q2].token, Token::Comma) {
                    q2 + 1
                } else {
                    q2
                };
                proof {
                    lemma_spanned_patterns_view_push(elements@, a);
                    let more = list_elements(t@, q3 as int);
                    assert(list_elements(t@, q as int) == (seq![spanned_pattern_view(a)] + more.0, more.1));
                    assert(spanned_patterns_view(elements@).push(spanned_pattern_view(a)) + more.0
                        =~= spanned_patterns_view(elements@) + (seq![spanned_pattern_view(a)] + more.0));
                }
                elements.push(a);
                q = q3;
            },
            None => {
                break;
            },
        }
    }
    assert(spanned_patterns_view(elements@) =~= whole.0);
    let mut rest: Option<Box<Spanned<Pattern>>> = None;
    if q < t.len() && matches!(t[q].token, Token::DotDotDot) {
        match alternatives(t, q + 1) {
            Some((a, q2)) => {
                rest = Some(Box::new(a));
                q = q2;
            },
            None => {},
        }
    }
    (Pattern::List { elements, rest }, q)
}

/// Patterns separated by single commas or newlines, from `p` on: none,
/// or one, then one more after each separator that a pattern follows.
fn separated_patterns(t: &Vec<SpannedToken>, p: usize) -> (r: (Vec<Spanned<Pattern>>, usize))
    requires
        p <= t@.len(),
    ensures
        p <= r.1 <= t@.len(),
        separated_at(t@, p as int) == (spanned_patterns_view(r.0@), r.1 as int),
    decreases t@.len() - p, 4nat,
{
    let mut items: Vec<Spanned<Pattern>> = Vec::new();
    let (first, q0) = match alternatives(t, p) {
        Some(x) => x,
        None => {
            assert(spanned_patterns_view(items@) =~= Seq::<SpannedView>::empty());
            return (items, p);
        },
    };
    let ghost whole = separated_rest(t@, q0 as int);
    let ghost first_v = spanned_pattern_view(first);
    items.push(first);
    proof {
        lemma_spanned_patterns_view_push(Seq::empty(), items@[0]);
        assert(Seq::<Spanned<Pattern>>::empty().push(items@[0]) =~= items@);
        assert(spanned_patterns_view(Seq::<Spanned<Pattern>>::empty()) =~= Seq::<SpannedView>::empty());
        assert(Seq::<SpannedView>::empty().push(first_v) =~= seq![first_v]);
    }
    let mut q = q0;
    while q < t.len() && (matches!(t[q].token, Token::Comma) || matches!(t[q].token, Token::Newline))
        invariant
            p < q0 <= q <= t@.len(),
            whole == separated_rest(t@, q0 as int),
            spanned_patterns_view(items@) + separated_rest(t@, q as int).0 == seq![first_v] + whole.0,
            separated_rest(t@, q as int).1 == whole.1,
        ensures
            p < q0 <= q <= t@.len(),
            spanned_patterns_view(items@) + separated_rest(t@, q as int).0 == seq![first_v] + whole.0,
            separated_rest(t@, q as int).1 == whole.1,
            separated_rest(t@, q as int) == (Seq::<SpannedView>::empty(), q as int),
        decreases t@.len() - q,
    {
        match alternatives(t, q + 1) {
            Some((a, q2)) => {
                proof {
                    lemma_spanned_patterns_view_push(items@, a);
                    let more = separated_rest(t@, q2 as int);
                    assert(separated_rest(t@, q as int) == (seq![spanned_pattern_view(a)] + more.0, more.1));
                    assert(spanned_patterns_view(items@).push(spanned_pattern_view(a)) + more.0
                        =~= spanned_patterns_view(items@) + (seq![spanned_pattern_view(a)] + more.0));
                }
                items.push(a);
                q = q2;
            },
            None => {
                break;
            },
        }
    }
    assert(spanned_patterns_view(items@) =~= seq![first_v] + whole.0);
    (items, q)
}

/// `{` patterns separated by commas or newlines `}`.
fn array_pattern(t: &Vec<SpannedToken>, p: usize) -> (r: Option<(Spanned<Pattern>, usize)>)
    requires
        p <= t@.len(),
    ensures
        r matches Some((_, q)) ==> p < q <= t@.len(),
        pattern_result(r, array_pattern_at(t@, p as int)),
    decreases t@.len() - p, 0nat,
{
    if !(p < t.len() && matches!(t[p].token, Token::LBrace)) {
        return None;
    }
    let (items, q) = separated_patterns(t, p + 1);
    if q < t.len() && matches!(t[q].token, Token::RBrace) {
        Some((Spanned { node: Pattern::Array(items), span: span_of(p, q + 1) }, q + 1))
    } else {
        None
    }
}

/// A variant: a name that starts with an upper-case letter, then its
/// arguments in parentheses, separated by commas or newlines, if any.
fn variant_pattern(t: &Vec<SpannedToken>, p: usize) -> (r: Option<(Spanned<Pattern>, usize)>)
    requires
        p <= t@.len(),
    ensures
        r matches Some((_, q)) ==> p < q <= t@.len(),
        pattern_result(r, variant_pattern_at(t@, p as int)),
    decreases t@.len() - p, 0nat,
{
    if p >= t.len() {
        return None;
    }
    let name = match ident_at(t, p) {
        Some(s) => {
            if starts_upper(s.as_str()) {
                Ident(s.clone())
            } else {
                return None;
            }
        },
        None => {
            return None;
        },
    };
    let q0 = p + 1;
    if q0 < t.len() && matches!(t[q0].token, Token::LParen) {
        let (args, q) = separated_patterns(t, q0 + 1);
        if q < t.len() && matches!(t[q].token, Token::RParen) {
            return Some((Spanned { node: Pattern::Variant { name, args }, span: span_of(p, q + 1) }, q + 1));
        }
    }
    let none: Vec<Spanned<Pattern>> = Vec::new();
    assert(spanned_patterns_view(none@) =~= Seq::<SpannedView>::empty());
    Some((Spanned { node: Pattern::Variant { name, args: none }, span: span_of(p, q0) }, q0))
}

/// `[` literal `..` literal `]`, or with `..=` for an inclusive range.
fn range_pattern(t: &Vec<SpannedToken>, p: usize) -> (r: Option<(Spanned<Pattern>, usize)>)
    requires
        p <= t@.len(),
    ensures
        r matches Some((_, q)) ==> p < q <= t@.len(),
        pattern_result(r, range_pattern_at(t@, p as int)),
{
    if !(p < t.len() && matches!(t[p].token, Token::LBracket)) {
        return None;
    }
    let (start, q0) = match literal(t, p + 1) {
        Some(x) => x,
        None => {
            return None;
        },
    };
    if q0 >= t.len() {
        return None;
    }
    let inclusive = if matches!(t[q0].token, Token::DotDot) {
        false
    } else if matches!(t[q0].token, Token::DotDotEqual) {
        true
    } else {
        return None;
    };
    let (end, q1) = match literal(t, q0 + 1) {
        Some(x) => x,
        None => {
            return None;
        },
    };
    if q1 < t.len() && matches!(t[q1].token, Token::RBracket) {
        Some((Spanned { node: Pattern::Range { start, end, inclusive }, span: span_of(p, q1 + 1) }, q1 + 1))
    } else {
        None
    }
}

} // verus!
