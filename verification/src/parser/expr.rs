//! Expressions: atoms, groups, collections, lambdas, field and method
//! access, pipelines and prefix application.

use vstd::prelude::*;
use crate::lexer::token::{Token, SpannedToken};
use crate::ast::Spanned;
use crate::ast::id::{Ident, QualifiedIdent};
use crate::ast::expr::{
    Expr, ExprView, SpannedExprView, ClauseView, GuardView, BindingView, LambdaClause, GuardClause,
    GuardCondition, WithBinding, spanned_expr_view, exprs_view, entries_view, clause_view, guard_view,
    guards_view, binding_view, bindings_view, lemma_exprs_view_push, lemma_exprs_view_len,
    lemma_exprs_view_index, lemma_exprs_view_concat, lemma_entries_view_push, lemma_guards_view_push,
    lemma_bindings_view_push,
};
use crate::ast::pattern::{
    Pattern, PatternView, spanned_patterns_view, spanned_pattern_view,
    lemma_spanned_patterns_view_push,
};
use crate::lexer::token::Span;
use crate::parser::cursor::{
    ident, ident_is, span_of, skip_newlines, is_tok, ident_of, after_newlines, after_one_separator,
};
use crate::parser::literal::{literal, literal_at};
use crate::parser::pattern::{base_pattern, pattern_at};
use crate::parser::type_parser::{
    type_expr, function_sig, join_path, type_expr_at, function_sig_at, path_rest, joined, texts,
};

verus! {

// =============================================================================
// THE GRAMMAR OF EXPRESSIONS
// =============================================================================
//
// Each rule gives what it reads at a position, with its span, and the
// position after it, or nothing. `full` tells the bodies of a lambda
// clause: items in an expression, whole expressions in a function
// definition.

/// The span `p..q`.
pub open spec fn sp(p: int, q: int) -> Span {
    Span { start: p as usize, end: q as usize }
}

/// A name, or names joined by `::`: the last is the name, the others,
/// joined by `::`, the module.
pub open spec fn qualified_ident_at(t: Seq<SpannedToken>, p: int) -> Option<((Option<Seq<char>>, Seq<char>), int)> {
    match ident_of(t, p) {
        Some(first) => {
            let r = path_rest(t, p + 1);
            let parts = seq![first] + r.0;
            if parts.len() == 1 {
                Some(((None, first), r.1))
            } else {
                Some(((Some(joined(parts, parts.len() - 1)), parts.last()), r.1))
            }
        },
        None => None,
    }
}

/// A variable of the given name with no type ascription, over `p..q`.
pub open spec fn var_at(name: Seq<char>, p: int, q: int) -> SpannedExprView {
    (ExprView::Var { name, ascription: None }, sp(p, q))
}

/// An atom: `_`, the keywords that name built-in functions, `()`, a
/// literal, or a name (with `::` and a type if they follow) or qualified
/// reference.
pub open spec fn atom_at(t: Seq<SpannedToken>, p: int) -> Option<(SpannedExprView, int)> {
    let early = if 0 <= p < t.len() {
        match t[p].token {
            Token::Hole => Some(((ExprView::Hole, sp(p, p + 1)), p + 1)),
            Token::At => Some((var_at("at"@, p, p + 1), p + 1)),
            Token::Channel => Some((var_at("channel!"@, p, p + 1), p + 1)),
            Token::Queue => Some((var_at("queue!"@, p, p + 1), p + 1)),
            Token::Broadcast => Some((var_at("broadcast!"@, p, p + 1), p + 1)),
            Token::LParen => if is_tok(t, p + 1, Token::RParen) {
                Some(((ExprView::Tuple(Seq::empty()), sp(p, p + 2)), p + 2))
            } else {
                None
            },
            _ => None,
        }
    } else {
        None
    };
    if early is Some {
        early
    } else {
        match literal_at(t, p) {
            Some((l, q)) => Some(((ExprView::Literal(l), sp(p, q)), q)),
            None => match qualified_ident_at(t, p) {
                Some((qi, q0)) => {
                    let asc = if is_tok(t, q0, Token::DoubleColon) {
                        match type_expr_at(t, q0 + 1) {
                            Some((ty, q2)) => (Some(ty), q2),
                            None => (None, q0),
                        }
                    } else {
                        (None, q0)
                    };
                    if qi.0 is None {
                        Some(((ExprView::Var { name: qi.1, ascription: asc.0 }, sp(p, asc.1)), asc.1))
                    } else {
                        Some(((ExprView::QualifiedRef(qi), sp(p, asc.1)), asc.1))
                    }
                },
                None => None,
            },
        }
    }
}

/// Items one after another from `q` on.
pub open spec fn items_from_at(t: Seq<SpannedToken>, q: int) -> (Seq<SpannedExprView>, int)
    decreases t.len() - q, 5int,
{
    match item_at(t, q) {
        Some((a, q2)) => if q < q2 <= t.len() {
            let r = items_from_at(t, q2);
            (seq![a] + r.0, r.1)
        } else {
            (Seq::empty(), q)
        },
        None => (Seq::empty(), q),
    }
}

/// Items from `q` on, each with at most one comma or newline before and
/// after it.
pub open spec fn padded_items_at(t: Seq<SpannedToken>, q: int) -> (Seq<SpannedExprView>, int)
    decreases t.len() - q, 5int,
{
    let s = after_one_separator(t, q);
    if q <= s <= t.len() {
        match item_at(t, s) {
            Some((a, q2)) => if s < q2 <= after_one_separator(t, q2) <= t.len() {
                let r = padded_items_at(t, after_one_separator(t, q2));
                (seq![a] + r.0, r.1)
            } else {
                (Seq::empty(), q)
            },
            None => (Seq::empty(), q),
        }
    } else {
        (Seq::empty(), q)
    }
}

/// The position after the commas, newlines, indents and dedents from `q`
/// on.
pub open spec fn after_row_separators(t: Seq<SpannedToken>, q: int) -> int
    decreases t.len() - q,
{
    if 0 <= q < t.len() && (t[q].token is Comma || t[q].token is Newline || t[q].token is Indent
        || t[q].token is Dedent) {
        after_row_separators(t, q + 1)
    } else {
        q
    }
}

/// A row of a braced collection: items with commas, newlines, indents and
/// dedents around them.
pub open spec fn row_at(t: Seq<SpannedToken>, q: int) -> (Seq<SpannedExprView>, int)
    decreases t.len() - q, 5int,
{
    let s = after_row_separators(t, q);
    if q <= s <= t.len() {
        match item_at(t, s) {
            Some((a, q2)) => if s < q2 <= after_row_separators(t, q2) <= t.len() {
                let r = row_at(t, after_row_separators(t, q2));
                (seq![a] + r.0, r.1)
            } else {
                (Seq::empty(), q)
            },
            None => (Seq::empty(), q),
        }
    } else {
        (Seq::empty(), q)
    }
}

/// `(` one or more items `)`: one item is itself, more a tuple.
pub open spec fn tuple_at(t: Seq<SpannedToken>, p: int) -> Option<(SpannedExprView, int)>
    decreases t.len() - p, 0int,
{
    if is_tok(t, p, Token::LParen) {
        let r = items_from_at(t, p + 1);
        if r.0.len() == 0 || !is_tok(t, r.1, Token::RParen) {
            None
        } else if r.0.len() == 1 {
            Some((r.0[0], r.1 + 1))
        } else {
            Some(((ExprView::Tuple(r.0), sp(p, r.1 + 1)), r.1 + 1))
        }
    } else {
        None
    }
}

/// The range operator at `q`: `..` is exclusive, `..=` inclusive.
pub open spec fn range_op_at(t: Seq<SpannedToken>, q: int) -> Option<bool> {
    if is_tok(t, q, Token::DotDot) {
        Some(false)
    } else if is_tok(t, q, Token::DotDotEqual) {
        Some(true)
    } else {
        None
    }
}

/// `[` start `..` end `]`, or `[` start `..` step `..` end `]`, where the
/// last operator tells whether the end is included.
pub open spec fn range_at(t: Seq<SpannedToken>, p: int) -> Option<(SpannedExprView, int)>
    decreases t.len() - p, 0int,
{
    if is_tok(t, p, Token::LBracket) {
        match item_at(t, p + 1) {
            Some((start, q0)) => if p < q0 <= t.len() {
                match range_op_at(t, q0) {
                    Some(inclusive1) => match item_at(t, q0 + 1) {
                        Some((middle, q1)) => if q0 < q1 <= t.len() {
                            let third = match range_op_at(t, q1) {
                                Some(inclusive2) => match item_at(t, q1 + 1) {
                                    Some((e, q2)) => Some((inclusive2, e, q2)),
                                    None => None,
                                },
                                None => None,
                            };
                            let q = match third {
                                Some(x) => x.2,
                                None => q1,
                            };
                            if is_tok(t, q, Token::RBracket) {
                                let node = match third {
                                    Some(x) => ExprView::Range {
                                        start: Box::new(start),
                                        end: Box::new(x.1),
                                        step: Some(Box::new(middle)),
                                        inclusive: x.0,
                                    },
                                    None => ExprView::Range {
                                        start: Box::new(start),
                                        end: Box::new(middle),
                                        step: None,
                                        inclusive: inclusive1,
                                    },
                                };
                                Some(((node, sp(p, q + 1)), q + 1))
                            } else {
                                None
                            }
                        } else {
                            None
                        },
                        None => None,
                    },
                    None => None,
                }
            } else {
                None
            },
            None => None,
        }
    } else {
        None
    }
}

/// Items from `q` on, each after `:`.
pub open spec fn colon_items(t: Seq<SpannedToken>, q: int) -> (Seq<SpannedExprView>, int)
    decreases t.len() - q, 6int,
{
    if is_tok(t, q, Token::Colon) {
        match item_at(t, q + 1) {
            Some((a, q2)) => if q < q2 <= t.len() {
                let r = colon_items(t, q2);
                (seq![a] + r.0, r.1)
            } else {
                (Seq::empty(), q)
            },
            None => (Seq::empty(), q),
        }
    } else {
        (Seq::empty(), q)
    }
}

/// Expressions folded from the right into cons expressions, each taking
/// the span of its tail.
pub open spec fn fold_cons(es: Seq<SpannedExprView>) -> SpannedExprView
    decreases es.len(),
{
    if es.len() <= 1 {
        es[0]
    } else {
        let tail = fold_cons(es.skip(1));
        (ExprView::Cons { head: Box::new(es[0]), tail: Box::new(tail) }, tail.1)
    }
}

/// Two or more items joined by `:`, folded into a cons expression.
pub open spec fn cons_items_at(t: Seq<SpannedToken>, p: int) -> Option<(ExprView, int)>
    decreases t.len() - p, 5int,
{
    match item_at(t, p) {
        Some((first, q0)) => if p < q0 <= t.len() {
            let r = colon_items(t, q0);
            if r.0.len() == 0 {
                None
            } else {
                Some((fold_cons(seq![first] + r.0).0, r.1))
            }
        } else {
            None
        },
        None => None,
    }
}

/// `[` `]` around cons items, or around padded items for a list.
pub open spec fn list_at(t: Seq<SpannedToken>, p: int) -> Option<(SpannedExprView, int)>
    decreases t.len() - p, 0int,
{
    if is_tok(t, p, Token::LBracket) {
        let inner = match cons_items_at(t, p + 1) {
            Some(x) => x,
            None => {
                let r = padded_items_at(t, p + 1);
                (ExprView::List(r.0), r.1)
            },
        };
        if is_tok(t, inner.1, Token::RBracket) {
            Some(((inner.0, sp(p, inner.1 + 1)), inner.1 + 1))
        } else {
            None
        }
    } else {
        None
    }
}

/// Rows from `q` on, each after `;`: their items, how many of them are not
/// empty, whether there was one, and the position after them.
pub open spec fn rows_rest(t: Seq<SpannedToken>, q: int) -> (Seq<SpannedExprView>, nat, bool, int)
    decreases t.len() - q, 6int,
{
    if is_tok(t, q, Token::Semicolon) {
        let r = row_at(t, q + 1);
        if q < r.1 <= t.len() {
            let rest = rows_rest(t, r.1);
            (r.0 + rest.0, (if r.0.len() > 0 {
                1nat
            } else {
                0nat
            }) + rest.1, true, rest.3)
        } else {
            (Seq::empty(), 0, false, q)
        }
    } else {
        (Seq::empty(), 0, false, q)
    }
}

/// `{` rows separated by `;` `}`: one row is an array; more make a tensor
/// of `[rows, columns]`, where the rows are the first and the other
/// non-empty ones, and the columns those of the first row.
pub open spec fn braced_at(t: Seq<SpannedToken>, p: int) -> Option<(SpannedExprView, int)>
    decreases t.len() - p, 0int,
{
    if is_tok(t, p, Token::LBrace) {
        let r0 = row_at(t, p + 1);
        if p < r0.1 <= t.len() {
            let rr = rows_rest(t, r0.1);
            if is_tok(t, rr.3, Token::RBrace) {
                if !rr.2 {
                    Some(((ExprView::Array(r0.0), sp(p, rr.3 + 1)), rr.3 + 1))
                } else {
                    Some((
                        (
                            ExprView::Tensor {
                                dimensions: seq![(1 + rr.1) as usize, r0.0.len() as usize],
                                elements: r0.0 + rr.0,
                            },
                            sp(p, rr.3 + 1),
                        ),
                        rr.3 + 1,
                    ))
                }
            } else {
                None
            }
        } else {
            None
        }
    } else {
        None
    }
}

/// A dictionary entry: `(` key, a newline if one follows, value `)`.
pub open spec fn dict_entry_at(t: Seq<SpannedToken>, p: int) -> Option<((SpannedExprView, SpannedExprView), int)>
    decreases t.len() - p, 5int,
{
    if is_tok(t, p, Token::LParen) {
        match item_at(t, p + 1) {
            Some((key, q0)) => if p < q0 <= t.len() {
                let q1 = if is_tok(t, q0, Token::Newline) {
                    q0 + 1
                } else {
                    q0
                };
                match item_at(t, q1) {
                    Some((value, q2)) => if is_tok(t, q2, Token::RParen) {
                        Some(((key, value), q2 + 1))
                    } else {
                        None
                    },
                    None => None,
                }
            } else {
                None
            },
            None => None,
        }
    } else {
        None
    }
}

/// Dictionary entries from `q` on, each with at most one comma or newline
/// before and after it.
pub open spec fn dict_entries_at(t: Seq<SpannedToken>, q: int) -> (Seq<(SpannedExprView, SpannedExprView)>, int)
    decreases t.len() - q, 6int,
{
    let s = after_one_separator(t, q);
    if q <= s <= t.len() {
        match dict_entry_at(t, s) {
            Some((e, q2)) => if s < q2 <= after_one_separator(t, q2) <= t.len() {
                let r = dict_entries_at(t, after_one_separator(t, q2));
                (seq![e] + r.0, r.1)
            } else {
                (Seq::empty(), q)
            },
            None => (Seq::empty(), q),
        }
    } else {
        (Seq::empty(), q)
    }
}

/// `Dict [` entries `]`.
pub open spec fn dict_at(t: Seq<SpannedToken>, p: int) -> Option<(SpannedExprView, int)>
    decreases t.len() - p, 0int,
{
    if ident_of(t, p) == Some("Dict"@) && is_tok(t, p + 1, Token::LBracket) {
        let r = dict_entries_at(t, p + 2);
        if is_tok(t, r.1, Token::RBracket) {
            Some(((ExprView::Dict(r.0), sp(p, r.1 + 1)), r.1 + 1))
        } else {
            None
        }
    } else {
        None
    }
}

/// `Set [` padded items `]`.
pub open spec fn set_at(t: Seq<SpannedToken>, p: int) -> Option<(SpannedExprView, int)>
    decreases t.len() - p, 0int,
{
    if ident_of(t, p) == Some("Set"@) && is_tok(t, p + 1, Token::LBracket) {
        let r = padded_items_at(t, p + 2);
        if is_tok(t, r.1, Token::RBracket) {
            Some(((ExprView::SetLiteral(r.0), sp(p, r.1 + 1)), r.1 + 1))
        } else {
            None
        }
    } else {
        None
    }
}

/// The body of a lambda clause: an item, or a whole expression where
/// `full` holds.
pub open spec fn body_expr_at(t: Seq<SpannedToken>, p: int, full: bool) -> Option<(SpannedExprView, int)>
    decreases t.len() - p, 6int,
{
    if full {
        expression_at(t, p)
    } else {
        item_at(t, p)
    }
}

/// A binding: a name, `::` and a signature; a type, `implements` and a
/// name; or a name, `as` and a body.
pub open spec fn with_binding_at(t: Seq<SpannedToken>, p: int, full: bool) -> Option<(BindingView, int)>
    decreases t.len() - p, 5int,
{
    let signature = match ident_of(t, p) {
        Some(name) => if is_tok(t, p + 1, Token::DoubleColon) {
            match function_sig_at(t, p + 2) {
                Some((sig, q)) => Some((BindingView::Signature { name, sig }, q)),
                None => None,
            }
        } else {
            None
        },
        None => None,
    };
    let interface = match type_expr_at(t, p) {
        Some((typ, q0)) => if is_tok(t, q0, Token::Implements) {
            match ident_of(t, q0 + 1) {
                Some(interface) => Some((BindingView::Interface { typ, interface }, q0 + 2)),
                None => None,
            }
        } else {
            None
        },
        None => None,
    };
    if signature is Some {
        signature
    } else if interface is Some {
        interface
    } else {
        match ident_of(t, p) {
            Some(name) => if is_tok(t, p + 1, Token::As) {
                match body_expr_at(t, p + 2, full) {
                    Some((value, q)) => Some((BindingView::Value { name, value }, q)),
                    None => None,
                }
            } else {
                None
            },
            None => None,
        }
    }
}

/// Bindings from `q` on, each with newlines around it.
pub open spec fn binding_items(t: Seq<SpannedToken>, q: int, full: bool) -> (Seq<BindingView>, int)
    decreases t.len() - q, 7int,
{
    let s = after_newlines(t, q);
    if q <= s <= t.len() {
        match with_binding_at(t, s, full) {
            Some((b, q2)) => if s < q2 <= after_newlines(t, q2) <= t.len() {
                let r = binding_items(t, after_newlines(t, q2), full);
                (seq![b] + r.0, r.1)
            } else {
                (Seq::empty(), q)
            },
            None => (Seq::empty(), q),
        }
    } else {
        (Seq::empty(), q)
    }
}

/// `with`, newlines, an indent, bindings, newlines and a dedent.
pub open spec fn with_bindings_at(t: Seq<SpannedToken>, p: int, full: bool) -> Option<(Seq<BindingView>, int)>
    decreases t.len() - p, 6int,
{
    if is_tok(t, p, Token::With) {
        let q0 = after_newlines(t, p + 1);
        if p < q0 && is_tok(t, q0, Token::Indent) {
            let r = binding_items(t, q0 + 1, full);
            let q = after_newlines(t, r.1);
            if is_tok(t, q, Token::Dedent) {
                Some((r.0, q + 1))
            } else {
                None
            }
        } else {
            None
        }
    } else {
        None
    }
}

/// Newlines and a `with` block, if they follow.
pub open spec fn trailing_with_at(t: Seq<SpannedToken>, p: int, full: bool) -> (Seq<BindingView>, int)
    decreases t.len() - p, 7int,
{
    let s = after_newlines(t, p);
    if p <= s <= t.len() {
        match with_bindings_at(t, s, full) {
            Some(x) => x,
            None => (Seq::empty(), p),
        }
    } else {
        (Seq::empty(), p)
    }
}

/// A guard clause: a name or `otherwise`, `:`, and its body.
pub open spec fn guard_clause_at(t: Seq<SpannedToken>, p: int, full: bool) -> Option<(GuardView, int)>
    decreases t.len() - p, 5int,
{
    let head = match ident_of(t, p) {
        Some(i) => Some((i, Some(i))),
        None => if is_tok(t, p, Token::Otherwise) {
            Some(("otherwise"@, None::<Seq<char>>))
        } else {
            None
        },
    };
    match head {
        Some((label, condition)) => if is_tok(t, p + 1, Token::Colon) {
            match body_expr_at(t, p + 2, full) {
                Some((body, q)) => Some((GuardView { label, condition, body }, q)),
                None => None,
            }
        } else {
            None
        },
        None => None,
    }
}

/// Guard clauses from `q` on, each followed by newlines.
pub open spec fn guard_items(t: Seq<SpannedToken>, q: int, full: bool) -> (Seq<GuardView>, int)
    decreases t.len() - q, 6int,
{
    match guard_clause_at(t, q, full) {
        Some((g, q2)) => if q < q2 <= after_newlines(t, q2) <= t.len() {
            let r = guard_items(t, after_newlines(t, q2), full);
            (seq![g] + r.0, r.1)
        } else {
            (Seq::empty(), q)
        },
        None => (Seq::empty(), q),
    }
}

/// Newlines, an indent, guard clauses, a `with` block if one follows,
/// newlines and a dedent.
pub open spec fn guards_and_with_at(t: Seq<SpannedToken>, p: int, full: bool) -> Option<(Seq<GuardView>, Seq<BindingView>, int)>
    decreases t.len() - p, 8int,
{
    if is_tok(t, p, Token::Newline) {
        let q0 = after_newlines(t, p + 1);
        if p < q0 && is_tok(t, q0, Token::Indent) {
            let r = guard_items(t, q0 + 1, full);
            if r.0.len() == 0 || !(p < r.1 <= t.len()) {
                None
            } else {
                let w = match with_bindings_at(t, r.1, full) {
                    Some(x) => x,
                    None => (Seq::empty(), r.1),
                };
                let q2 = after_newlines(t, w.1);
                if is_tok(t, q2, Token::Dedent) {
                    Some((r.0, w.0, q2 + 1))
                } else {
                    None
                }
            }
        } else {
            None
        }
    } else {
        None
    }
}

/// The body of a lambda clause, on its own indented lines or on the same
/// line, with a `with` block if one follows.
pub open spec fn lambda_body_at(t: Seq<SpannedToken>, p: int, full: bool) -> Option<(SpannedExprView, Seq<BindingView>, int)>
    decreases t.len() - p, 8int,
{
    let indented = if is_tok(t, p, Token::Newline) {
        let q0 = after_newlines(t, p + 1);
        if p < q0 && is_tok(t, q0, Token::Indent) {
            match body_expr_at(t, q0 + 1, full) {
                Some((body, q1)) => if p < q1 <= t.len() {
                    let w = trailing_with_at(t, q1, full);
                    let q3 = after_newlines(t, w.1);
                    if is_tok(t, q3, Token::Dedent) {
                        Some((body, w.0, q3 + 1))
                    } else {
                        None
                    }
                } else {
                    None
                },
                None => None,
            }
        } else {
            None
        }
    } else {
        None
    };
    if indented is Some {
        indented
    } else {
        match body_expr_at(t, p, full) {
            Some((body, q1)) => if p < q1 <= t.len() {
                let w = trailing_with_at(t, q1, full);
                Some((body, w.0, w.1))
            } else {
                None
            },
            None => None,
        }
    }
}

/// The keyword of a lambda: the `λ` token, or the names `lambda` and `λ`
/// too where `names` holds.
pub open spec fn lambda_keyword_at(t: Seq<SpannedToken>, p: int, names: bool) -> bool {
    is_tok(t, p, Token::Lambda) || (names && (ident_of(t, p) == Some("lambda"@) || ident_of(t, p) == Some(
        "λ"@,
    )))
}

/// Patterns from `q` on, with newlines around each.
pub open spec fn lambda_patterns(t: Seq<SpannedToken>, q: int) -> (Seq<(PatternView, Span)>, int)
    decreases t.len() - q,
{
    let s = after_newlines(t, q);
    if q <= s <= t.len() {
        match pattern_at(t, s) {
            Some((a, q2)) => if s < q2 <= after_newlines(t, q2) <= t.len() {
                let r = lambda_patterns(t, after_newlines(t, q2));
                (seq![a] + r.0, r.1)
            } else {
                (Seq::empty(), q)
            },
            None => (Seq::empty(), q),
        }
    } else {
        (Seq::empty(), q)
    }
}

/// A lambda clause: its keyword, patterns, `:`, then guard clauses or a
/// body, with a `with` block if one follows.
pub open spec fn lambda_clause_at(t: Seq<SpannedToken>, p: int, full: bool) -> Option<(ClauseView, int)>
    decreases t.len() - p, 0int,
{
    if 0 <= p < t.len() && lambda_keyword_at(t, p, !full) {
        let r = lambda_patterns(t, p + 1);
        if p < r.1 && is_tok(t, r.1, Token::Colon) {
            match guards_and_with_at(t, r.1 + 1, full) {
                Some((guards, with, q)) => Some((ClauseView { patterns: r.0, guards, body: None, with }, q)),
                None => match lambda_body_at(t, r.1 + 1, full) {
                    Some((body, with, q)) => Some((
                        ClauseView { patterns: r.0, guards: Seq::empty(), body: Some(body), with },
                        q,
                    )),
                    None => None,
                },
            }
        } else {
            None
        }
    } else {
        None
    }
}

/// A lambda expression: one lambda clause whose bodies are items.
pub open spec fn lambda_at(t: Seq<SpannedToken>, p: int) -> Option<(SpannedExprView, int)>
    decreases t.len() - p, 1int,
{
    match lambda_clause_at(t, p, false) {
        Some((c, q)) => Some(((ExprView::Lambda(seq![c]), sp(p, q)), q)),
        None => None,
    }
}

/// `$(` a function and its arguments `)`.
pub open spec fn explicit_at(t: Seq<SpannedToken>, p: int) -> Option<(SpannedExprView, int)>
    decreases t.len() - p, 0int,
{
    if is_tok(t, p, Token::Dollar) && is_tok(t, p + 1, Token::LParen) {
        match item_at(t, p + 2) {
            Some((func, q0)) => if p < q0 <= t.len() {
                let r = items_from_at(t, q0);
                if is_tok(t, r.1, Token::RParen) {
                    Some(((ExprView::ExplicitApply { func: Box::new(func), args: r.0 }, sp(p, r.1 + 1)), r.1 + 1))
                } else {
                    None
                }
            } else {
                None
            },
            None => None,
        }
    } else {
        None
    }
}

/// The first of: a tuple, a range, a list, a braced collection, a
/// dictionary, a set, a lambda, an explicit application, or an atom.
pub open spec fn primary_at(t: Seq<SpannedToken>, p: int) -> Option<(SpannedExprView, int)>
    decreases t.len() - p, 2int,
{
    if tuple_at(t, p) is Some {
        tuple_at(t, p)
    } else if range_at(t, p) is Some {
        range_at(t, p)
    } else if list_at(t, p) is Some {
        list_at(t, p)
    } else if braced_at(t, p) is Some {
        braced_at(t, p)
    } else if dict_at(t, p) is Some {
        dict_at(t, p)
    } else if set_at(t, p) is Some {
        set_at(t, p)
    } else if lambda_at(t, p) is Some {
        lambda_at(t, p)
    } else if explicit_at(t, p) is Some {
        explicit_at(t, p)
    } else {
        atom_at(t, p)
    }
}

/// Accesses from `q` on: `.`, a name, and the items that follow it.
pub open spec fn access_rest(t: Seq<SpannedToken>, q: int) -> (Seq<(Seq<char>, Seq<SpannedExprView>)>, int)
    decreases t.len() - q, 4int,
{
    if is_tok(t, q, Token::Dot) && ident_of(t, q + 1) is Some {
        let r = items_from_at(t, q + 2);
        if q + 2 <= r.1 <= t.len() {
            let rest = access_rest(t, r.1);
            (seq![(ident_of(t, q + 1)->Some_0, r.0)] + rest.0, rest.1)
        } else {
            (Seq::empty(), q)
        }
    } else {
        (Seq::empty(), q)
    }
}

/// Accesses applied from the left to `base`: with no items a field, with
/// some a method call; each takes the span `span`.
pub open spec fn fold_access(base: SpannedExprView, accesses: Seq<(Seq<char>, Seq<SpannedExprView>)>, span: Span) -> SpannedExprView
    decreases accesses.len(),
{
    if accesses.len() == 0 {
        base
    } else {
        let inner = fold_access(base, accesses.drop_last(), span);
        let a = accesses.last();
        if a.1.len() == 0 {
            (ExprView::Field { object: Box::new(inner), field: a.0 }, span)
        } else {
            (ExprView::Method { object: Box::new(inner), method: a.0, args: a.1 }, span)
        }
    }
}

/// A primary expression followed by its accesses, each of which takes the
/// span of the whole.
pub open spec fn field_access_at(t: Seq<SpannedToken>, p: int) -> Option<(SpannedExprView, int)>
    decreases t.len() - p, 3int,
{
    match primary_at(t, p) {
        Some((base, q0)) => if p < q0 <= t.len() {
            let r = access_rest(t, q0);
            Some((fold_access(base, r.0, sp(p, r.1)), r.1))
        } else {
            None
        },
        None => None,
    }
}

/// Field accesses from `q` on, each after `|>`.
pub open spec fn pipe_rest(t: Seq<SpannedToken>, q: int) -> (Seq<SpannedExprView>, int)
    decreases t.len() - q, 4int,
{
    if is_tok(t, q, Token::Pipeline) {
        match field_access_at(t, q + 1) {
            Some((f, q2)) => if q < q2 <= t.len() {
                let r = pipe_rest(t, q2);
                (seq![f] + r.0, r.1)
            } else {
                (Seq::empty(), q)
            },
            None => (Seq::empty(), q),
        }
    } else {
        (Seq::empty(), q)
    }
}

/// Stages applied from the left to `first`, each a pipeline over `span`.
pub open spec fn fold_pipe(first: SpannedExprView, stages: Seq<SpannedExprView>, span: Span) -> SpannedExprView
    decreases stages.len(),
{
    if stages.len() == 0 {
        first
    } else {
        (
            ExprView::Pipeline {
                value: Box::new(fold_pipe(first, stages.drop_last(), span)),
                func: Box::new(stages.last()),
            },
            span,
        )
    }
}

/// An item: field accesses joined by `|>`.
pub open spec fn item_at(t: Seq<SpannedToken>, p: int) -> Option<(SpannedExprView, int)>
    decreases t.len() - p, 4int,
{
    match field_access_at(t, p) {
        Some((first, q0)) => if p < q0 <= t.len() {
            let r = pipe_rest(t, q0);
            Some((fold_pipe(first, r.0, sp(p, r.1)), r.1))
        } else {
            None
        },
        None => None,
    }
}

/// An expression: an item, applied to the items that follow it if any.
#[verifier::opaque]
pub open spec fn expression_at(t: Seq<SpannedToken>, p: int) -> Option<(SpannedExprView, int)>
    decreases t.len() - p, 5int,
{
    match item_at(t, p) {
        Some((func, q0)) => if p < q0 <= t.len() {
            let r = items_from_at(t, q0);
            if r.0.len() == 0 {
                Some((func, q0))
            } else {
                Some(((ExprView::Apply { func: Box::new(func), args: r.0 }, sp(p, r.1)), r.1))
            }
        } else {
            None
        },
        None => None,
    }
}

/// Whether a parser's result is, by its view, what a rule reads.
pub open spec fn expr_result(r: Option<(Spanned<Expr>, usize)>, expected: Option<(SpannedExprView, int)>) -> bool {
    match r {
        Some((x, q)) => expected == Some((spanned_expr_view(x), q as int)),
        None => expected is None,
    }
}


/// A name, or names joined by `::`: the last is the name, the others,
/// joined by `::`, the module.
pub fn qualified_ident(t: &Vec<SpannedToken>, p: usize) -> (r: Option<(QualifiedIdent, usize)>)
    requires
        p <= t@.len(),
    ensures
        r matches Some((_, q)) ==> p < q <= t@.len(),
        match r {
            Some((qi, q)) => qualified_ident_at(t@, p as int) == Some((qi@, q as int)),
            None => qualified_ident_at(t@, p as int) is None,
        },
{
    let (first, q0) = match ident(t, p) {
        Some(x) => x,
        None => {
            return None;
        },
    };
    let ghost f = first@;
    let mut parts: Vec<String> = Vec::new();
    parts.push(first);
    assert(texts(parts@) =~= seq![f]);
    let mut q = q0;
    while q < t.len() && matches!(t[q].token, Token::DoubleColon)
        invariant
            p < q <= t@.len(),
            q0 == p + 1,
            parts@.len() >= 1,
            texts(parts@) + path_rest(t@, q as int).0 == seq![f] + path_rest(t@, p + 1).0,
            path_rest(t@, q as int).1 == path_rest(t@, p + 1).1,
        ensures
            p < q <= t@.len(),
            parts@.len() >= 1,
            texts(parts@) + path_rest(t@, q as int).0 == seq![f] + path_rest(t@, p + 1).0,
            path_rest(t@, q as int).1 == path_rest(t@, p + 1).1,
            path_rest(t@, q as int) == (Seq::<Seq<char>>::empty(), q as int),
        decreases t@.len() - q,
    {
        match ident(t, q + 1) {
            Some((s, q2)) => {
                let ghost old_parts = texts(parts@);
                parts.push(s);
                assert(texts(parts@) =~= old_parts.push(s@));
                let ghost r = path_rest(t@, q2 as int);
                assert(path_rest(t@, q as int) == (seq![s@] + r.0, r.1));
                assert(texts(parts@) + r.0 =~= old_parts + (seq![s@] + r.0));
                q = q2;
            },
            None => {
                break;
            },
        }
    }
    assert(texts(parts@) =~= seq![f] + path_rest(t@, p + 1).0);
    let n = parts.len();
    let name = parts[n - 1].clone();
    assert(texts(parts@).last() == name@);
    if n == 1 {
        return Some((QualifiedIdent { module: None, name }, q));
    }
    let module = join_path(&parts, n - 1);
    Some((QualifiedIdent { module: Some(module), name }, q))
}

/// Any identifier, as an `Ident`.
pub fn simple_ident(t: &Vec<SpannedToken>, p: usize) -> (r: Option<(Ident, usize)>)
    ensures
        r matches Some((i, q)) ==> q == p + 1 && p < t@.len() && t@[p as int].token == Token::Ident(i.0),
        match r {
            Some((i, q)) => ident_of(t@, p as int) == Some(i@),
            None => ident_of(t@, p as int) is None,
        },
{
    match ident(t, p) {
        Some((s, q)) => Some((Ident(s), q)),
        None => None,
    }
}

/// Whether the token at `p` is a newline.
fn at_newline(t: &Vec<SpannedToken>, p: usize) -> (r: bool)
    ensures
        r == (p < t@.len() && t@[p as int].token is Newline),
{
    p < t.len() && matches!(t[p].token, Token::Newline)
}

/// A variable named `name`, with no type ascription, over `p..q`.
fn named_var(name: &str, p: usize, q: usize) -> (r: Spanned<Expr>)
    ensures
        spanned_expr_view(r) == var_at(name@, p as int, q as int),
{
    Spanned { node: Expr::Var { name: Ident(String::from_str(name)), type_ascription: None }, span: span_of(p, q) }
}

/// An atom: the hole `_`, the keywords that name built-in functions, the
/// empty tuple `()`, a literal, or a variable or qualified reference; a
/// variable may carry a type ascription `::T`.
fn atom(t: &Vec<SpannedToken>, p: usize) -> (r: Option<(Spanned<Expr>, usize)>)
    requires
        p <= t@.len(),
    ensures
        r matches Some((_, q)) ==> p < q <= t@.len(),
        expr_result(r, atom_at(t@, p as int)),
{
    if p >= t.len() {
        return None;
    }
    match &t[p].token {
        Token::Hole => {
            return Some((Spanned { node: Expr::Hole, span: span_of(p, p + 1) }, p + 1));
        },
        Token::At => {
            return Some((named_var("at", p, p + 1), p + 1));
        },
        Token::Channel => {
            return Some((named_var("channel!", p, p + 1), p + 1));
        },
        Token::Queue => {
            return Some((named_var("queue!", p, p + 1), p + 1));
        },
        Token::Broadcast => {
            return Some((named_var("broadcast!", p, p + 1), p + 1));
        },
        Token::LParen => {
            if p + 1 < t.len() && matches!(t[p + 1].token, Token::RParen) {
                let none: Vec<Spanned<Expr>> = Vec::new();
                assert(exprs_view(none@) =~= Seq::<SpannedExprView>::empty());
                return Some((Spanned { node: Expr::Tuple(none), span: span_of(p, p + 2) }, p + 2));
            }
        },
        _ => {},
    }
    match literal(t, p) {
        Some((l, q)) => {
            return Some((Spanned { node: Expr::Literal(l), span: span_of(p, q) }, q));
        },
        None => {},
    }
    let (qi, q0) = match qualified_ident(t, p) {
        Some(x) => x,
        None => {
            return None;
        },
    };
    let mut q = q0;
    let mut ascription = None;
    if q0 < t.len() && matches!(t[q0].token, Token::DoubleColon) {
        match type_expr(t, q0 + 1) {
            Some((ty, q2)) => {
                ascription = Some(ty.node);
                q = q2;
            },
            None => {},
        }
    }
    if qi.module.is_none() {
        Some((Spanned { node: Expr::Var { name: Ident(qi.name), type_ascription: ascription }, span: span_of(p, q) }, q))
    } else {
        Some((Spanned { node: Expr::QualifiedRef(qi), span: span_of(p, q) }, q))
    }
}

/// Items one after another from `p` on, as many as there are.
fn items_from(t: &Vec<SpannedToken>, p: usize) -> (r: (Vec<Spanned<Expr>>, usize))
    requires
        p <= t@.len(),
    ensures
        p <= r.1 <= t@.len(),
        items_from_at(t@, p as int) == (exprs_view(r.0@), r.1 as int),
    decreases t@.len() - p, 5nat,
{
    let ghost whole = items_from_at(t@, p as int);
    let mut items: Vec<Spanned<Expr>> = Vec::new();
    let mut q = p;
    loop
        invariant
            p <= q <= t@.len(),
            whole == items_from_at(t@, p as int),
            exprs_view(items@) + items_from_at(t@, q as int).0 == whole.0,
            items_from_at(t@, q as int).1 == whole.1,
        ensures
            p <= q <= t@.len(),
            exprs_view(items@) + items_from_at(t@, q as int).0 == whole.0,
            items_from_at(t@, q as int).1 == whole.1,
            items_from_at(t@, q as int) == (Seq::<SpannedExprView>::empty(), q as int),
        decreases t@.len() - q,
    {
        match item(t, q) {
            Some((a, q2)) => {
                proof {
                    lemma_exprs_view_push(items@, a);
                    let more = items_from_at(t@, q2 as int);
                    assert(items_from_at(t@, q as int) == (seq![spanned_expr_view(a)] + more.0, more.1));
                    assert(exprs_view(items@).push(spanned_expr_view(a)) + more.0 =~= exprs_view(items@) + (
                    seq![spanned_expr_view(a)] + more.0));
                }
                items.push(a);
                q = q2;
            },
            None => {
                break;
            },
        }
    }
    assert(exprs_view(items@) =~= whole.0);
    (items, q)
}

/// Items from `p` on, each with at most one comma or newline before and
/// after it.
fn padded_items(t: &Vec<SpannedToken>, p: usize) -> (r: (Vec<Spanned<Expr>>, usize))
    requires
        p <= t@.len(),
    ensures
        p <= r.1 <= t@.len(),
        padded_items_at(t@, p as int) == (exprs_view(r.0@), r.1 as int),
    decreases t@.len() - p, 5nat,
{
    let ghost whole = padded_items_at(t@, p as int);
    let mut items: Vec<Spanned<Expr>> = Vec::new();
    let mut q = p;
    loop
        invariant
            p <= q <= t@.len(),
            whole == padded_items_at(t@, p as int),
            exprs_view(items@) + padded_items_at(t@, q as int).0 == whole.0,
            padded_items_at(t@, q as int).1 == whole.1,
        ensures
            p <= q <= t@.len(),
            exprs_view(items@) + padded_items_at(t@, q as int).0 == whole.0,
            padded_items_at(t@, q as int).1 == whole.1,
            padded_items_at(t@, q as int) == (Seq::<SpannedExprView>::empty(), q as int),
        decreases t@.len() - q,
    {
        let s = one_separator(t, q);
        match item(t, s) {
            Some((a, q2)) => {
                let q3 = one_separator(t, q2);
                proof {
                    lemma_exprs_view_push(items@, a);
                    let more = padded_items_at(t@, q3 as int);
                    assert(padded_items_at(t@, q as int) == (seq![spanned_expr_view(a)] + more.0, more.1));
                    assert(exprs_view(items@).push(spanned_expr_view(a)) + more.0 =~= exprs_view(items@) + (
                    seq![spanned_expr_view(a)] + more.0));
                }
                items.push(a);
                q = q3;
            },
            None => {
                break;
            },
        }
    }
    assert(exprs_view(items@) =~= whole.0);
    (items, q)
}

/// The position after a comma or a newline at `p`, or `p` if neither is
/// there.
fn one_separator(t: &Vec<SpannedToken>, p: usize) -> (q: usize)
    requires
        p <= t@.len(),
    ensures
        p <= q <= t@.len(),
        q == after_one_separator(t@, p as int),
{
    crate::parser::cursor::skip_one_separator(t, p)
}

/// The position after any commas, newlines, indents and dedents from `p`
/// on.
fn skip_row_separators(t: &Vec<SpannedToken>, p: usize) -> (q: usize)
    requires
        p <= t@.len(),
    ensures
        p <= q <= t@.len(),
        q == after_row_separators(t@, p as int),
{
    let mut q = p;
    while q < t.len() && (matches!(t[q].token, Token::Comma) || matches!(t[q].token, Token::Newline)
        || matches!(t[q].token, Token::Indent) || matches!(t[q].token, Token::Dedent))
        invariant
            p <= q <= t@.len(),
            after_row_separators(t@, q as int) == after_row_separators(t@, p as int),
        decreases t@.len() - q,
    {
        q = q + 1;
    }
    q
}

/// A row of a braced collection: items with commas, newlines, indents
/// and dedents around them.
fn row(t: &Vec<SpannedToken>, p: usize) -> (r: (Vec<Spanned<Expr>>, usize))
    requires
        p <= t@.len(),
    ensures
        p <= r.1 <= t@.len(),
        row_at(t@, p as int) == (exprs_view(r.0@), r.1 as int),
    decreases t@.len() - p, 5nat,
{
    let ghost whole = row_at(t@, p as int);
    let mut items: Vec<Spanned<Expr>> = Vec::new();
    let mut q = p;
    loop
        invariant
            p <= q <= t@.len(),
            whole == row_at(t@, p as int),
            exprs_view(items@) + row_at(t@, q as int).0 == whole.0,
            row_at(t@, q as int).1 == whole.1,
        ensures
            p <= q <= t@.len(),
            exprs_view(items@) + row_at(t@, q as int).0 == whole.0,
            row_at(t@, q as int).1 == whole.1,
            row_at(t@, q as int) == (Seq::<SpannedExprView>::empty(), q as int),
        decreases t@.len() - q,
    {
        let s = skip_row_separators(t, q);
        match item(t, s) {
            Some((a, q2)) => {
                let q3 = skip_row_separators(t, q2);
                proof {
                    lemma_exprs_view_push(items@, a);
                    let more = row_at(t@, q3 as int);
                    assert(row_at(t@, q as int) == (seq![spanned_expr_view(a)] + more.0, more.1));
                    assert(exprs_view(items@).push(spanned_expr_view(a)) + more.0 =~= exprs_view(items@) + (
                    seq![spanned_expr_view(a)] + more.0));
                }
                items.push(a);
                q = q3;
            },
            None => {
                break;
            },
        }
    }
    assert(exprs_view(items@) =~= whole.0);
    (items, q)
}

/// `(` one or more items `)`: one item is itself, more a tuple.
fn tuple_parser(t: &Vec<SpannedToken>, p: usize) -> (r: Option<(Spanned<Expr>, usize)>)
    requires
        p <= t@.len(),
    ensures
        r matches Some((_, q)) ==> p < q <= t@.len(),
        expr_result(r, tuple_at(t@, p as int)),
    decreases t@.len() - p, 0nat,
{
    if !(p < t.len() && matches!(t[p].token, Token::LParen)) {
        return None;
    }
    let (mut items, q) = items_from(t, p + 1);
    proof {
        lemma_exprs_view_len(items@);
    }
    if items.len() == 0 || !(q < t.len() && matches!(t[q].token, Token::RParen)) {
        return None;
    }
    if items.len() == 1 {
        proof {
            lemma_exprs_view_index(items@, 0);
        }
        let a = items.pop().unwrap();
        return Some((a, q + 1));
    }
    Some((Spanned { node: Expr::Tuple(items), span: span_of(p, q + 1) }, q + 1))
}

/// The range operator at `p`: `..` is exclusive, `..=` inclusive.
fn range_op(t: &Vec<SpannedToken>, p: usize) -> (r: Option<bool>)
    ensures
        r is Some ==> p < t@.len(),
        r == range_op_at(t@, p as int),
{
    if p < t.len() && matches!(t[p].token, Token::DotDot) {
        Some(false)
    } else if p < t.len() && matches!(t[p].token, Token::DotDotEqual) {
        Some(true)
    } else {
        None
    }
}

/// `[` start `..` end `]`, or `[` start `..` step `..` end `]`; `..=`
/// makes the end inclusive.
fn range_parser(t: &Vec<SpannedToken>, p: usize) -> (r: Option<(Spanned<Expr>, usize)>)
    requires
        p <= t@.len(),
    ensures
        r matches Some((_, q)) ==> p < q <= t@.len(),
        expr_result(r, range_at(t@, p as int)),
    decreases t@.len() - p, 0nat,
{
    if !(p < t.len() && matches!(t[p].token, Token::LBracket)) {
        return None;
    }
    let (start, q0) = match item(t, p + 1) {
        Some(x) => x,
        None => {
            return None;
        },
    };
    let inclusive1 = match range_op(t, q0) {
        Some(b) => b,
        None => {
            return None;
        },
    };
    let (middle, q1) = match item(t, q0 + 1) {
        Some(x) => x,
        None => {
            return None;
        },
    };
    let mut q = q1;
    let mut third: Option<(bool, Spanned<Expr>)> = None;
    match range_op(t, q1) {
        Some(inclusive2) => {
            match item(t, q1 + 1) {
                Some((e, q2)) => {
                    third = Some((inclusive2, e));
                    q = q2;
                },
                None => {},
            }
        },
        None => {},
    }
    if !(q < t.len() && matches!(t[q].token, Token::RBracket)) {
        return None;
    }
    let node = match third {
        Some((inclusive2, end)) => Expr::Range {
            start: Box::new(start),
            end: Box::new(end),
            step: Some(Box::new(middle)),
            inclusive: inclusive2,
        },
        None => Expr::Range { start: Box::new(start), end: Box::new(middle), step: None, inclusive: inclusive1 },
    };
    Some((Spanned { node, span: span_of(p, q + 1) }, q + 1))
}

/// Items joined by `:` after a first one, folded from the right into
/// cons expressions, each taking its tail's span.
fn cons_items(t: &Vec<SpannedToken>, p: usize) -> (r: Option<(Expr, usize)>)
    requires
        p <= t@.len(),
    ensures
        r matches Some((_, q)) ==> p < q <= t@.len(),
        match r {
            Some((x, q)) => cons_items_at(t@, p as int) == Some((crate::ast::expr::expr_view(x), q as int)),
            None => cons_items_at(t@, p as int) is None,
        },
    decreases t@.len() - p, 5nat,
{
    let (first, q0) = match item(t, p) {
        Some(x) => x,
        None => {
            return None;
        },
    };
    let ghost whole = colon_items(t@, q0 as int);
    let ghost first_v = spanned_expr_view(first);
    let mut all: Vec<Spanned<Expr>> = Vec::new();
    all.push(first);
    proof {
        lemma_exprs_view_push(Seq::empty(), all@[0]);
        assert(Seq::<Spanned<Expr>>::empty().push(all@[0]) =~= all@);
        assert(exprs_view(Seq::<Spanned<Expr>>::empty()) =~= Seq::<SpannedExprView>::empty());
        assert(Seq::<SpannedExprView>::empty().push(first_v) =~= seq![first_v]);
    }
    let mut q = q0;
    while q < t.len() && matches!(t[q].token, Token::Colon)
        invariant
            p < q0 <= q <= t@.len(),
            all@.len() >= 1,
            whole == colon_items(t@, q0 as int),
            exprs_view(all@) + colon_items(t@, q as int).0 == seq![first_v] + whole.0,
            colon_items(t@, q as int).1 == whole.1,
        ensures
            p < q0 <= q <= t@.len(),
            all@.len() >= 1,
            exprs_view(all@) + colon_items(t@, q as int).0 == seq![first_v] + whole.0,
            colon_items(t@, q as int).1 == whole.1,
            colon_items(t@, q as int) == (Seq::<SpannedExprView>::empty(), q as int),
        decreases t@.len() - q,
    {
        match item(t, q + 1) {
            Some((a, q2)) => {
                proof {
                    lemma_exprs_view_push(all@, a);
                    let more = colon_items(t@, q2 as int);
                    assert(colon_items(t@, q as int) == (seq![spanned_expr_view(a)] + more.0, more.1));
                    assert(exprs_view(all@).push(spanned_expr_view(a)) + more.0 =~= exprs_view(all@) + (seq![
                        spanned_expr_view(a),
                    ] + more.0));
                }
                all.push(a);
                q = q2;
            },
            None => {
                break;
            },
        }
    }
    let ghost views = seq![first_v] + whole.0;
    assert(exprs_view(all@) =~= views);
    proof {
        lemma_exprs_view_len(all@);
    }
    if all.len() < 2 {
        return None;
    }
    let n = all.len();
    let ghost all0 = all@;
    let mut acc = all.pop().unwrap();
    proof {
        lemma_exprs_view_index(all0, n - 1);
        assert(views.subrange(n - 1, n as int) =~= seq![views[n - 1]]);
    }
    while all.len() > 0
        invariant
            all@ == all0.take(all@.len() as int),
            all@.len() < n,
            n == all0.len(),
            views == exprs_view(all0),
            views.len() == n,
            spanned_expr_view(acc) == fold_cons(views.subrange(all@.len() as int, n as int)),
        decreases all@.len(),
    {
        let k = all.len();
        let head = all.pop().unwrap();
        proof {
            assert(head == all0[k - 1]);
            lemma_exprs_view_index(all0, k - 1);
            let sub = views.subrange(k - 1, n as int);
            assert(sub.len() >= 2);
            assert(sub[0] == spanned_expr_view(head));
            assert(sub.skip(1) =~= views.subrange(k as int, n as int));
            assert(all@ =~= all0.take(all@.len() as int));
        }
        let tail_span = acc.span;
        acc = Spanned { node: Expr::Cons { head: Box::new(head), tail: Box::new(acc) }, span: tail_span };
    }
    assert(views.subrange(0, n as int) =~= views);
    Some((acc.node, q))
}

/// `[` `]` around cons items `h : t`, or around items, each with at most
/// one comma or newline before and after it.
fn list_parser(t: &Vec<SpannedToken>, p: usize) -> (r: Option<(Spanned<Expr>, usize)>)
    requires
        p <= t@.len(),
    ensures
        r matches Some((_, q)) ==> p < q <= t@.len(),
        expr_result(r, list_at(t@, p as int)),
    decreases t@.len() - p, 0nat,
{
    if !(p < t.len() && matches!(t[p].token, Token::LBracket)) {
        return None;
    }
    let (node, q) = match cons_items(t, p + 1) {
        Some(x) => x,
        None => {
            let (items, q) = padded_items(t, p + 1);
            (Expr::List(items), q)
        },
    };
    if q < t.len() && matches!(t[q].token, Token::RBracket) {
        Some((Spanned { node, span: span_of(p, q + 1) }, q + 1))
    } else {
        None
    }
}

/// `{` rows separated by `;` `}`: one row is an array; more rows make a
/// tensor of `[rows, columns]`, where the rows are the first and the
/// other non-empty ones, and the columns those of the first row.
fn braced_parser(t: &Vec<SpannedToken>, p: usize) -> (r: Option<(Spanned<Expr>, usize)>)
    requires
        p <= t@.len(),
    ensures
        r matches Some((_, q)) ==> p < q <= t@.len(),
        expr_result(r, braced_at(t@, p as int)),
    decreases t@.len() - p, 0nat,
{
    if !(p < t.len() && matches!(t[p].token, Token::LBrace)) {
        return None;
    }
    let (mut elements, q0) = row(t, p + 1);
    let ghost first_v = exprs_view(elements@);
    let ghost whole = rows_rest(t@, q0 as int);
    let columns = elements.len();
    proof {
        lemma_exprs_view_len(elements@);
    }
    let mut rows: usize = 1;
    let mut more_rows = false;
    let mut q = q0;
    while q < t.len() && matches!(t[q].token, Token::Semicolon)
        invariant
            p < q0 <= q <= t@.len(),
            1 <= rows <= q - p,
            whole == rows_rest(t@, q0 as int),
            exprs_view(elements@) + rows_rest(t@, q as int).0 == first_v + whole.0,
            rows - 1 + rows_rest(t@, q as int).1 == whole.1,
            whole.2 == (more_rows || rows_rest(t@, q as int).2),
            rows_rest(t@, q as int).3 == whole.3,
        decreases t@.len() - q,
    {
        let (mut next, q2) = row(t, q + 1);
        proof {
            lemma_exprs_view_len(next@);
            lemma_exprs_view_concat(elements@, next@);
            let more = rows_rest(t@, q2 as int);
            assert(rows_rest(t@, q as int) == (exprs_view(next@) + more.0, (if next@.len() > 0 {
                1nat
            } else {
                0nat
            }) + more.1, true, more.3));
            assert(exprs_view(elements@) + exprs_view(next@) + more.0 =~= exprs_view(elements@) + (
            exprs_view(next@) + more.0));
        }
        more_rows = true;
        if next.len() > 0 {
            elements.append(&mut next);
            rows = rows + 1;
        }
        q = q2;
    }
    assert(exprs_view(elements@) =~= first_v + whole.0);
    if !(q < t.len() && matches!(t[q].token, Token::RBrace)) {
        return None;
    }
    if !more_rows {
        assert(whole.0 =~= Seq::<SpannedExprView>::empty());
        return Some((Spanned { node: Expr::Array(elements), span: span_of(p, q + 1) }, q + 1));
    }
    let mut dimensions: Vec<usize> = Vec::new();
    dimensions.push(rows);
    dimensions.push(columns);
    assert(dimensions@ =~= seq![(1 + whole.1) as usize, first_v.len() as usize]);
    Some((Spanned { node: Expr::Tensor { dimensions, elements }, span: span_of(p, q + 1) }, q + 1))
}

/// `Dict [` entries `]`, each entry `(` key value `)` (a newline may
/// stand between them) with at most one comma or newline around it.
fn dict_parser(t: &Vec<SpannedToken>, p: usize) -> (r: Option<(Spanned<Expr>, usize)>)
    requires
        p <= t@.len(),
    ensures
        r matches Some((_, q)) ==> p < q <= t@.len(),
        expr_result(r, dict_at(t@, p as int)),
    decreases t@.len() - p, 0nat,
{
    if p >= t.len() {
        return None;
    }
    if !(ident_is(t, p, "Dict") && p + 1 < t.len() && matches!(t[p + 1].token, Token::LBracket)) {
        return None;
    }
    let ghost whole = dict_entries_at(t@, p + 2);
    let mut entries: Vec<(Spanned<Expr>, Spanned<Expr>)> = Vec::new();
    let mut q = p + 2;
    loop
        invariant
            p < q <= t@.len(),
            whole == dict_entries_at(t@, p + 2),
            entries_view(entries@) + dict_entries_at(t@, q as int).0 == whole.0,
            dict_entries_at(t@, q as int).1 == whole.1,
        ensures
            p < q <= t@.len(),
            entries_view(entries@) + dict_entries_at(t@, q as int).0 == whole.0,
            dict_entries_at(t@, q as int).1 == whole.1,
            dict_entries_at(t@, q as int) == (Seq::<(SpannedExprView, SpannedExprView)>::empty(), q as int),
        decreases t@.len() - q,
    {
        let s = one_separator(t, q);
        match dict_entry(t, s) {
            Some((entry, q2)) => {
                let q3 = one_separator(t, q2);
                proof {
                    lemma_entries_view_push(entries@, entry);
                    let ev = (spanned_expr_view(entry.0), spanned_expr_view(entry.1));
                    let more = dict_entries_at(t@, q3 as int);
                    assert(dict_entries_at(t@, q as int) == (seq![ev] + more.0, more.1));
                    assert(entries_view(entries@).push(ev) + more.0 =~= entries_view(entries@) + (seq![ev]
                        + more.0));
                }
                entries.push(entry);
                q = q3;
            },
            None => {
                break;
            },
        }
    }
    assert(entries_view(entries@) =~= whole.0);
    if q < t.len() && matches!(t[q].token, Token::RBracket) {
        Some((Spanned { node: Expr::Dict(entries), span: span_of(p, q + 1) }, q + 1))
    } else {
        None
    }
}

/// A dictionary entry: `(` key, a newline if any, value `)`.
fn dict_entry(t: &Vec<SpannedToken>, p: usize) -> (r: Option<((Spanned<Expr>, Spanned<Expr>), usize)>)
    requires
        p <= t@.len(),
    ensures
        r matches Some((_, q)) ==> p < q <= t@.len(),
        match r {
            Some((e, q)) => dict_entry_at(t@, p as int) == Some(((spanned_expr_view(e.0), spanned_expr_view(e.1)), q as int)),
            None => dict_entry_at(t@, p as int) is None,
        },
    decreases t@.len() - p, 5nat,
{
    if !(p < t.len() && matches!(t[p].token, Token::LParen)) {
        return None;
    }
    let (key, q0) = match item(t, p + 1) {
        Some(x) => x,
        None => {
            return None;
        },
    };
    let q1 = if at_newline(t, q0) {
        q0 + 1
    } else {
        q0
    };
    let (value, q2) = match item(t, q1) {
        Some(x) => x,
        None => {
            return None;
        },
    };
    if q2 < t.len() && matches!(t[q2].token, Token::RParen) {
        Some(((key, value), q2 + 1))
    } else {
        None
    }
}

/// `Set [` items, each with at most one comma or newline around it `]`.
fn set_parser(t: &Vec<SpannedToken>, p: usize) -> (r: Option<(Spanned<Expr>, usize)>)
    requires
        p <= t@.len(),
    ensures
        r matches Some((_, q)) ==> p < q <= t@.len(),
        expr_result(r, set_at(t@, p as int)),
    decreases t@.len() - p, 0nat,
{
    if p >= t.len() {
        return None;
    }
    if !(ident_is(t, p, "Set") && p + 1 < t.len() && matches!(t[p + 1].token, Token::LBracket)) {
        return None;
    }
    let (items, q) = padded_items(t, p + 2);
    if q < t.len() && matches!(t[q].token, Token::RBracket) {
        Some((Spanned { node: Expr::SetLiteral(items), span: span_of(p, q + 1) }, q + 1))
    } else {
        None
    }
}

/// A binding of a `with` block: a signature `name :: sig`, an interface
/// constraint `T implements Name`, or a value `name as body`.
#[verifier::spinoff_prover]
#[verifier::rlimit(50)]
fn with_binding(t: &Vec<SpannedToken>, p: usize, full: bool) -> (r: Option<(WithBinding, usize)>)
    requires
        p <= t@.len(),
    ensures
        r matches Some((_, q)) ==> p < q <= t@.len(),
        match r {
            Some((b, q)) => with_binding_at(t@, p as int, full) == Some((binding_view(b), q as int)),
            None => with_binding_at(t@, p as int, full) is None,
        },
    decreases t@.len() - p, 5nat,
{
    match simple_ident(t, p) {
        Some((name, q0)) => {
            if q0 < t.len() && matches!(t[q0].token, Token::DoubleColon) {
                match function_sig(t, q0 + 1) {
                    Some((sig, q)) => {
                        return Some((WithBinding::Signature { name, sig }, q));
                    },
                    None => {},
                }
            }
        },
        None => {},
    }
    match type_expr(t, p) {
        Some((typ, q0)) => {
            if q0 < t.len() && matches!(t[q0].token, Token::Implements) {
                match simple_ident(t, q0 + 1) {
                    Some((interface, q)) => {
                        return Some((WithBinding::Interface { typ: typ.node, interface }, q));
                    },
                    None => {},
                }
            }
        },
        None => {},
    }
    match simple_ident(t, p) {
        Some((name, q0)) => {
            if q0 < t.len() && matches!(t[q0].token, Token::As) {
                match body_expr(t, q0 + 1, full) {
                    Some((value, q)) => {
                        return Some((WithBinding::Value { name, value }, q));
                    },
                    None => {},
                }
            }
        },
        None => {},
    }
    None
}

/// `with`, newlines if any, then an indented block of bindings, each with
/// newlines around it if any.
fn with_bindings(t: &Vec<SpannedToken>, p: usize, full: bool) -> (r: Option<(Vec<WithBinding>, usize)>)
    requires
        p <= t@.len(),
    ensures
        r matches Some((_, q)) ==> p < q <= t@.len(),
        match r {
            Some((bs, q)) => with_bindings_at(t@, p as int, full) == Some((bindings_view(bs@), q as int)),
            None => with_bindings_at(t@, p as int, full) is None,
        },
    decreases t@.len() - p, 6nat,
{
    if !(p < t.len() && matches!(t[p].token, Token::With)) {
        return None;
    }
    let q0 = skip_newlines(t, p + 1);
    if !(q0 < t.len() && matches!(t[q0].token, Token::Indent)) {
        return None;
    }
    let ghost whole = binding_items(t@, q0 + 1, full);
    let mut bindings: Vec<WithBinding> = Vec::new();
    let mut q = q0 + 1;
    loop
        invariant
            p < q0 < q <= t@.len(),
            whole == binding_items(t@, q0 + 1, full),
            bindings_view(bindings@) + binding_items(t@, q as int, full).0 == whole.0,
            binding_items(t@, q as int, full).1 == whole.1,
        ensures
            p < q0 < q <= t@.len(),
            bindings_view(bindings@) + binding_items(t@, q as int, full).0 == whole.0,
            binding_items(t@, q as int, full).1 == whole.1,
            binding_items(t@, q as int, full) == (Seq::<BindingView>::empty(), q as int),
        decreases t@.len() - q,
    {
        let s = skip_newlines(t, q);
        match with_binding(t, s, full) {
            Some((b, q2)) => {
                let q3 = skip_newlines(t, q2);
                proof {
                    lemma_bindings_view_push(bindings@, b);
                    let more = binding_items(t@, q3 as int, full);
                    assert(binding_items(t@, q as int, full) == (seq![binding_view(b)] + more.0, more.1));
                    assert(bindings_view(bindings@).push(binding_view(b)) + more.0 =~= bindings_view(bindings@)
                        + (seq![binding_view(b)] + more.0));
                }
                bindings.push(b);
                q = q3;
            },
            None => {
                break;
            },
        }
    }
    assert(bindings_view(bindings@) =~= whole.0);
    let q = skip_newlines(t, q);
    if q < t.len() && matches!(t[q].token, Token::Dedent) {
        Some((bindings, q + 1))
    } else {
        None
    }
}

/// Newlines if any, then a `with` block, if one follows.
fn trailing_with(t: &Vec<SpannedToken>, p: usize, full: bool) -> (r: (Vec<WithBinding>, usize))
    requires
        p <= t@.len(),
    ensures
        p <= r.1 <= t@.len(),
        trailing_with_at(t@, p as int, full) == (bindings_view(r.0@), r.1 as int),
    decreases t@.len() - p, 7nat,
{
    let s = skip_newlines(t, p);
    match with_bindings(t, s, full) {
        Some((b, q)) => (b, q),
        None => {
            let none: Vec<WithBinding> = Vec::new();
            assert(bindings_view(none@) =~= Seq::<BindingView>::empty());
            (none, p)
        },
    }
}

/// A guard clause: a name or `otherwise`, `:`, and the body it gives.
fn guard_clause(t: &Vec<SpannedToken>, p: usize, full: bool) -> (r: Option<(GuardClause, usize)>)
    requires
        p <= t@.len(),
    ensures
        r matches Some((_, q)) ==> p < q <= t@.len(),
        match r {
            Some((g, q)) => guard_clause_at(t@, p as int, full) == Some((guard_view(g), q as int)),
            None => guard_clause_at(t@, p as int, full) is None,
        },
    decreases t@.len() - p, 5nat,
{
    if p >= t.len() {
        return None;
    }
    let (label, guard, q0) = match simple_ident(t, p) {
        Some((i, q)) => {
            let c = Ident(i.0.clone());
            (i, GuardCondition::Named(c), q)
        },
        None => {
            if matches!(t[p].token, Token::Otherwise) {
                (Ident(String::from_str("otherwise")), GuardCondition::Otherwise, p + 1)
            } else {
                return None;
            }
        },
    };
    if !(q0 < t.len() && matches!(t[q0].token, Token::Colon)) {
        return None;
    }
    match body_expr(t, q0 + 1, full) {
        Some((body, q)) => Some((GuardClause { label, guard, body }, q)),
        None => None,
    }
}

/// The position after one or more newlines at `p`, if there is one.
fn some_newlines(t: &Vec<SpannedToken>, p: usize) -> (r: Option<usize>)
    requires
        p <= t@.len(),
    ensures
        r matches Some(q) ==> p < q <= t@.len() && q == after_newlines(t@, p + 1),
        r is Some <==> is_tok(t@, p as int, Token::Newline),
{
    if p >= t.len() {
        return None;
    }
    if at_newline(t, p) {
        Some(skip_newlines(t, p + 1))
    } else {
        None
    }
}

/// Newlines, an indent, guard clauses each followed by newlines if any,
/// a `with` block if one follows, newlines if any, and a dedent.
#[verifier::spinoff_prover]
#[verifier::rlimit(50)]
fn guards_and_with(t: &Vec<SpannedToken>, p: usize, full: bool) -> (r: Option<(Vec<GuardClause>, Vec<WithBinding>, usize)>)
    requires
        p <= t@.len(),
    ensures
        r matches Some((_, _, q)) ==> p < q <= t@.len(),
        match r {
            Some((gs, ws, q)) => guards_and_with_at(t@, p as int, full) == Some(
                (guards_view(gs@), bindings_view(ws@), q as int),
            ),
            None => guards_and_with_at(t@, p as int, full) is None,
        },
    decreases t@.len() - p, 8nat,
{
    let q0 = match some_newlines(t, p) {
        Some(q) => q,
        None => {
            return None;
        },
    };
    if !(q0 < t.len() && matches!(t[q0].token, Token::Indent)) {
        return None;
    }
    let ghost whole = guard_items(t@, q0 + 1, full);
    let mut guards: Vec<GuardClause> = Vec::new();
    let mut q = q0 + 1;
    loop
        invariant
            p < q0 < q <= t@.len(),
            whole == guard_items(t@, q0 + 1, full),
            guards_view(guards@) + guard_items(t@, q as int, full).0 == whole.0,
            guard_items(t@, q as int, full).1 == whole.1,
        ensures
            p < q0 < q <= t@.len(),
            guards_view(guards@) + guard_items(t@, q as int, full).0 == whole.0,
            guard_items(t@, q as int, full).1 == whole.1,
            guard_items(t@, q as int, full) == (Seq::<GuardView>::empty(), q as int),
        decreases t@.len() - q,
    {
        match guard_clause(t, q, full) {
            Some((g, q2)) => {
                let q3 = skip_newlines(t, q2);
                proof {
                    lemma_guards_view_push(guards@, g);
                    let more = guard_items(t@, q3 as int, full);
                    assert(guard_items(t@, q as int, full) == (seq![guard_view(g)] + more.0, more.1));
                    assert(guards_view(guards@).push(guard_view(g)) + more.0 =~= guards_view(guards@) + (seq![
                        guard_view(g),
                    ] + more.0));
                }
                guards.push(g);
                q = q3;
            },
            None => {
                break;
            },
        }
    }
    assert(guards_view(guards@) =~= whole.0);
    proof {
        crate::ast::expr::lemma_guards_view_len(guards@);
    }
    if guards.len() == 0 {
        return None;
    }
    let (with, q1) = match with_bindings(t, q, full) {
        Some((b, q2)) => (b, q2),
        None => {
            let none: Vec<WithBinding> = Vec::new();
            assert(bindings_view(none@) =~= Seq::<BindingView>::empty());
            (none, q)
        },
    };
    let q2 = skip_newlines(t, q1);
    if q2 < t.len() && matches!(t[q2].token, Token::Dedent) {
        Some((guards, with, q2 + 1))
    } else {
        None
    }
}

/// The body of a lambda: on its own indented lines, or on the same line;
/// a `with` block may follow it either way.
#[verifier::spinoff_prover]
#[verifier::rlimit(50)]
fn lambda_body(t: &Vec<SpannedToken>, p: usize, full: bool) -> (r: Option<(Spanned<Expr>, Vec<WithBinding>, usize)>)
    requires
        p <= t@.len(),
    ensures
        r matches Some((_, _, q)) ==> p < q <= t@.len(),
        match r {
            Some((b, ws, q)) => lambda_body_at(t@, p as int, full) == Some(
                (spanned_expr_view(b), bindings_view(ws@), q as int),
            ),
            None => lambda_body_at(t@, p as int, full) is None,
        },
    decreases t@.len() - p, 8nat,
{
    match some_newlines(t, p) {
        Some(q0) => {
            if q0 < t.len() && matches!(t[q0].token, Token::Indent) {
                match body_expr(t, q0 + 1, full) {
                    Some((body, q1)) => {
                        let (with, q2) = trailing_with(t, q1, full);
                        let q3 = skip_newlines(t, q2);
                        if q3 < t.len() && matches!(t[q3].token, Token::Dedent) {
                            return Some((body, with, q3 + 1));
                        }
                    },
                    None => {},
                }
            }
        },
        None => {},
    }
    match body_expr(t, p, full) {
        Some((body, q1)) => {
            let (with, q2) = trailing_with(t, q1, full);
            Some((body, with, q2))
        },
        None => None,
    }
}

/// The keyword of a lambda: the `λ` token, or, where `names` holds, the
/// names `lambda` and `λ` too.
fn lambda_keyword(t: &Vec<SpannedToken>, p: usize, names: bool) -> (r: bool)
    ensures
        r ==> p < t@.len(),
        r == lambda_keyword_at(t@, p as int, names),
{
    (p < t.len() && matches!(t[p].token, Token::Lambda)) || (names && (ident_is(t, p, "lambda") || ident_is(
        t,
        p,
        "λ",
    )))
}

/// An item, or where `full` holds a whole expression: what the bodies of
/// a lambda clause are made of.
#[verifier::spinoff_prover]
fn body_expr(t: &Vec<SpannedToken>, p: usize, full: bool) -> (r: Option<(Spanned<Expr>, usize)>)
    requires
        p <= t@.len(),
    ensures
        r matches Some((_, q)) ==> p < q <= t@.len(),
        expr_result(r, body_expr_at(t@, p as int, full)),
    decreases t@.len() - p, 6nat,
{
    if full {
        expression(t, p)
    } else {
        item(t, p)
    }
}

/// A lambda clause: its keyword, patterns (newlines may stand around
/// them), `:`, then guard clauses or a body, with a `with` block if one
/// follows. In an expression (`full` false) the bodies are items and the
/// keyword may be written as a name; in a function definition (`full`
/// true) the bodies are whole expressions and the keyword is the token.
pub fn lambda_clause(t: &Vec<SpannedToken>, p: usize, full: bool) -> (r: Option<(LambdaClause, usize)>)
    requires
        p <= t@.len(),
    ensures
        r matches Some((_, q)) ==> p < q <= t@.len(),
        match r {
            Some((c, q)) => lambda_clause_at(t@, p as int, full) == Some((clause_view(c), q as int)),
            None => lambda_clause_at(t@, p as int, full) is None,
        },
    decreases t@.len() - p, 0nat,
{
    if p >= t.len() {
        return None;
    }
    if !lambda_keyword(t, p, !full) {
        return None;
    }
    let ghost whole = lambda_patterns(t@, p + 1);
    let mut patterns: Vec<Spanned<Pattern>> = Vec::new();
    let mut q = p + 1;
    loop
        invariant
            p < q <= t@.len(),
            whole == lambda_patterns(t@, p + 1),
            spanned_patterns_view(patterns@) + lambda_patterns(t@, q as int).0 == whole.0,
            lambda_patterns(t@, q as int).1 == whole.1,
        ensures
            p < q <= t@.len(),
            spanned_patterns_view(patterns@) + lambda_patterns(t@, q as int).0 == whole.0,
            lambda_patterns(t@, q as int).1 == whole.1,
            lambda_patterns(t@, q as int) == (Seq::<(PatternView, Span)>::empty(), q as int),
        decreases t@.len() - q,
    {
        let s = skip_newlines(t, q);
        match base_pattern(t, s) {
            Some((a, q2)) => {
                let q3 = skip_newlines(t, q2);
                proof {
                    lemma_spanned_patterns_view_push(patterns@, a);
                    let more = lambda_patterns(t@, q3 as int);
                    assert(lambda_patterns(t@, q as int) == (seq![spanned_pattern_view(a)] + more.0, more.1));
                    assert(spanned_patterns_view(patterns@).push(spanned_pattern_view(a)) + more.0
                        =~= spanned_patterns_view(patterns@) + (seq![spanned_pattern_view(a)] + more.0));
                }
                patterns.push(a);
                q = q3;
            },
            None => {
                break;
            },
        }
    }
    assert(spanned_patterns_view(patterns@) =~= whole.0);
    if !(q < t.len() && matches!(t[q].token, Token::Colon)) {
        return None;
    }
    let (guards, body, with, q_end) = match guards_and_with(t, q + 1, full) {
        Some((g, w, q2)) => (g, None, w, q2),
        None => match lambda_body(t, q + 1, full) {
            Some((b, w, q2)) => {
                let none: Vec<GuardClause> = Vec::new();
                assert(guards_view(none@) =~= Seq::<GuardView>::empty());
                (none, Some(b), w, q2)
            },
            None => {
                return None;
            },
        },
    };
    Some((LambdaClause { patterns, guards, body, with }, q_end))
}

/// A lambda expression: one lambda clause.
fn lambda_parser(t: &Vec<SpannedToken>, p: usize) -> (r: Option<(Spanned<Expr>, usize)>)
    requires
        p <= t@.len(),
    ensures
        r matches Some((_, q)) ==> p < q <= t@.len(),
        expr_result(r, lambda_at(t@, p as int)),
    decreases t@.len() - p, 1nat,
{
    match lambda_clause(t, p, false) {
        Some((clause, q)) => {
            let mut clauses: Vec<LambdaClause> = Vec::new();
            clauses.push(clause);
            proof {
                crate::ast::expr::lemma_clauses_view_push(Seq::empty(), clauses@[0]);
                assert(Seq::<LambdaClause>::empty().push(clauses@[0]) =~= clauses@);
                assert(crate::ast::expr::clauses_view(Seq::<LambdaClause>::empty()) =~= Seq::<ClauseView>::empty());
                assert(Seq::<ClauseView>::empty().push(clause_view(clauses@[0])) =~= seq![clause_view(clauses@[0])]);
            }
            Some((Spanned { node: Expr::Lambda { clauses }, span: span_of(p, q) }, q))
        },
        None => None,
    }
}

/// `$(` function arguments `)`: an explicit application.
fn explicit_apply_parser(t: &Vec<SpannedToken>, p: usize) -> (r: Option<(Spanned<Expr>, usize)>)
    requires
        p <= t@.len(),
    ensures
        r matches Some((_, q)) ==> p < q <= t@.len(),
        expr_result(r, explicit_at(t@, p as int)),
    decreases t@.len() - p, 0nat,
{
    if p >= t.len() {
        return None;
    }
    if !(p + 1 < t.len() && matches!(t[p].token, Token::Dollar) && matches!(t[p + 1].token, Token::LParen)) {
        return None;
    }
    let (func, q0) = match item(t, p + 2) {
        Some(x) => x,
        None => {
            return None;
        },
    };
    let (args, q) = items_from(t, q0);
    if q < t.len() && matches!(t[q].token, Token::RParen) {
        Some((Spanned { node: Expr::ExplicitApply { func: Box::new(func), args }, span: span_of(p, q + 1) }, q + 1))
    } else {
        None
    }
}

/// The first of: a tuple, a range, a list, a braced collection, a
/// dictionary, a set, a lambda, an explicit application, or an atom.
fn primary(t: &Vec<SpannedToken>, p: usize) -> (r: Option<(Spanned<Expr>, usize)>)
    requires
        p <= t@.len(),
    ensures
        r matches Some((_, q)) ==> p < q <= t@.len(),
        expr_result(r, primary_at(t@, p as int)),
    decreases t@.len() - p, 2nat,
{
    match tuple_parser(t, p) {
        Some(x) => {
            return Some(x);
        },
        None => {},
    }
    match range_parser(t, p) {
        Some(x) => {
            return Some(x);
        },
        None => {},
    }
    match list_parser(t, p) {
        Some(x) => {
            return Some(x);
        },
        None => {},
    }
    match braced_parser(t, p) {
        Some(x) => {
            return Some(x);
        },
        None => {},
    }
    match dict_parser(t, p) {
        Some(x) => {
            return Some(x);
        },
        None => {},
    }
    match set_parser(t, p) {
        Some(x) => {
            return Some(x);
        },
        None => {},
    }
    match lambda_parser(t, p) {
        Some(x) => {
            return Some(x);
        },
        None => {},
    }
    match explicit_apply_parser(t, p) {
        Some(x) => {
            return Some(x);
        },
        None => {},
    }
    atom(t, p)
}

/// The accesses read so far: each name with the views of its arguments.
pub open spec fn accesses_view(a: Seq<(Ident, Vec<Spanned<Expr>>)>) -> Seq<(Seq<char>, Seq<SpannedExprView>)> {
    a.map_values(|x: (Ident, Vec<Spanned<Expr>>)| (x.0@, exprs_view(x.1@)))
}

/// A primary expression followed by accesses `.name`, each with the
/// items that follow it as arguments: with none it reads a field, with
/// some it calls a method. Every access takes the span of the whole.
fn field_access(t: &Vec<SpannedToken>, p: usize) -> (r: Option<(Spanned<Expr>, usize)>)
    requires
        p <= t@.len(),
    ensures
        r matches Some((_, q)) ==> p < q <= t@.len(),
        expr_result(r, field_access_at(t@, p as int)),
    decreases t@.len() - p, 3nat,
{
    let (base, q0) = match primary(t, p) {
        Some(x) => x,
        None => {
            return None;
        },
    };
    let ghost whole = access_rest(t@, q0 as int);
    let mut accesses: Vec<(Ident, Vec<Spanned<Expr>>)> = Vec::new();
    let mut q = q0;
    while q < t.len() && matches!(t[q].token, Token::Dot)
        invariant
            p < q0 <= q <= t@.len(),
            whole == access_rest(t@, q0 as int),
            accesses_view(accesses@) + access_rest(t@, q as int).0 == whole.0,
            access_rest(t@, q as int).1 == whole.1,
        ensures
            p < q0 <= q <= t@.len(),
            accesses_view(accesses@) + access_rest(t@, q as int).0 == whole.0,
            access_rest(t@, q as int).1 == whole.1,
            access_rest(t@, q as int) == (Seq::<(Seq<char>, Seq<SpannedExprView>)>::empty(), q as int),
        decreases t@.len() - q,
    {
        match simple_ident(t, q + 1) {
            Some((name, q1)) => {
                let (args, q2) = items_from(t, q1);
                proof {
                    let x = (name@, exprs_view(args@));
                    let more = access_rest(t@, q2 as int);
                    assert(access_rest(t@, q as int) == (seq![x] + more.0, more.1));
                    assert(accesses_view(accesses@.push((name, args))) =~= accesses_view(accesses@).push(x));
                    assert(accesses_view(accesses@).push(x) + more.0 =~= accesses_view(accesses@) + (seq![x]
                        + more.0));
                }
                accesses.push((name, args));
                q = q2;
            },
            None => {
                break;
            },
        }
    }
    assert(accesses_view(accesses@) =~= whole.0);
    let span = span_of(p, q);
    let ghost all = accesses_view(accesses@);
    let ghost base_v = spanned_expr_view(base);
    let ghost n = accesses@.len();
    let mut acc = base;
    let mut rest = accesses;
    assert(all.take(0) =~= Seq::<(Seq<char>, Seq<SpannedExprView>)>::empty());
    while rest.len() > 0
        invariant
            0 <= n - rest@.len() <= n,
            n == all.len(),
            accesses_view(rest@) == all.skip(n - rest@.len()),
            spanned_expr_view(acc) == fold_access(base_v, all.take(n - rest@.len()), span),
        decreases rest@.len(),
    {
        let ghost k = n - rest@.len();
        let ghost r0 = rest@;
        let (name, args) = rest.remove(0);
        proof {
            assert(accesses_view(r0)[0] == all[k]);
            assert(accesses_view(rest@) =~= accesses_view(r0).skip(1));
            assert(all.skip(k).skip(1) =~= all.skip(k + 1));
            assert(all.take(k + 1).drop_last() =~= all.take(k));
            assert(all.take(k + 1).last() == all[k]);
            lemma_exprs_view_len(args@);
        }
        if args.len() == 0 {
            acc = Spanned { node: Expr::Field { object: Box::new(acc), field: name }, span };
        } else {
            acc = Spanned { node: Expr::Method { object: Box::new(acc), method: name, args }, span };
        }
    }
    assert(all.take(n as int) =~= all);
    Some((acc, q))
}

/// Field accesses joined by `|>`, folded from the left into pipelines,
/// each taking the span of the whole. This is the item that collections,
/// arguments and bodies are made of.
fn item(t: &Vec<SpannedToken>, p: usize) -> (r: Option<(Spanned<Expr>, usize)>)
    requires
        p <= t@.len(),
    ensures
        r matches Some((_, q)) ==> p < q <= t@.len(),
        expr_result(r, item_at(t@, p as int)),
    decreases t@.len() - p, 4nat,
{
    let (first, q0) = match field_access(t, p) {
        Some(x) => x,
        None => {
            return None;
        },
    };
    let ghost whole = pipe_rest(t@, q0 as int);
    let mut stages: Vec<Spanned<Expr>> = Vec::new();
    let mut q = q0;
    while q < t.len() && matches!(t[q].token, Token::Pipeline)
        invariant
            p < q0 <= q <= t@.len(),
            whole == pipe_rest(t@, q0 as int),
            exprs_view(stages@) + pipe_rest(t@, q as int).0 == whole.0,
            pipe_rest(t@, q as int).1 == whole.1,
        ensures
            p < q0 <= q <= t@.len(),
            exprs_view(stages@) + pipe_rest(t@, q as int).0 == whole.0,
            pipe_rest(t@, q as int).1 == whole.1,
            pipe_rest(t@, q as int) == (Seq::<SpannedExprView>::empty(), q as int),
        decreases t@.len() - q,
    {
        match field_access(t, q + 1) {
            Some((f, q2)) => {
                proof {
                    lemma_exprs_view_push(stages@, f);
                    let more = pipe_rest(t@, q2 as int);
                    assert(pipe_rest(t@, q as int) == (seq![spanned_expr_view(f)] + more.0, more.1));
                    assert(exprs_view(stages@).push(spanned_expr_view(f)) + more.0 =~= exprs_view(stages@) + (
                    seq![spanned_expr_view(f)] + more.0));
                }
                stages.push(f);
                q = q2;
            },
            None => {
                break;
            },
        }
    }
    assert(exprs_view(stages@) =~= whole.0);
    let span = span_of(p, q);
    let ghost all = exprs_view(stages@);
    let ghost first_v = spanned_expr_view(first);
    let ghost n = stages@.len();
    proof {
        lemma_exprs_view_len(stages@);
    }
    let mut acc = first;
    assert(all.take(0) =~= Seq::<SpannedExprView>::empty());
    while stages.len() > 0
        invariant
            0 <= n - stages@.len() <= n,
            n == all.len(),
            exprs_view(stages@) == all.skip(n - stages@.len()),
            spanned_expr_view(acc) == fold_pipe(first_v, all.take(n - stages@.len()), span),
        decreases stages@.len(),
    {
        let ghost k = n - stages@.len();
        let ghost r0 = stages@;
        let f = stages.remove(0);
        proof {
            lemma_exprs_view_index(r0, 0);
            assert(exprs_view(r0)[0] == all[k]);
            assert(stages@ =~= r0.subrange(1, r0.len() as int));
            assert(r0 =~= seq![r0[0]] + stages@);
            lemma_exprs_view_concat(seq![r0[0]], stages@);
            lemma_exprs_view_push(Seq::empty(), r0[0]);
            assert(Seq::<Spanned<Expr>>::empty().push(r0[0]) =~= seq![r0[0]]);
            assert(exprs_view(Seq::<Spanned<Expr>>::empty()) =~= Seq::<SpannedExprView>::empty());
            assert(exprs_view(stages@) =~= exprs_view(r0).skip(1));
            assert(all.skip(k).skip(1) =~= all.skip(k + 1));
            assert(all.take(k + 1).drop_last() =~= all.take(k));
            assert(all.take(k + 1).last() == all[k]);
        }
        acc = Spanned { node: Expr::Pipeline { value: Box::new(acc), func: Box::new(f) }, span };
    }
    assert(all.take(n as int) =~= all);
    Some((acc, q))
}

/// Any expression: an item, applied to the items that follow it if there
/// are any; the application spans all of them.
#[verifier::spinoff_prover]
#[verifier::rlimit(50)]
pub fn expression(t: &Vec<SpannedToken>, p: usize) -> (r: Option<(Spanned<Expr>, usize)>)
    requires
        p <= t@.len(),
    ensures
        r matches Some((_, q)) ==> p < q <= t@.len(),
        expr_result(r, expression_at(t@, p as int)),
    decreases t@.len() - p, 5nat,
{
    reveal(expression_at);
    let (func, q0) = match item(t, p) {
        Some(x) => x,
        None => {
            return None;
        },
    };
    let (args, q) = items_from(t, q0);
    proof {
        lemma_exprs_view_len(args@);
    }
    if args.len() == 0 {
        return Some((func, q0));
    }
    Some((Spanned { node: Expr::Apply { func: Box::new(func), args }, span: span_of(p, q) }, q))
}

/// An atom alone.
pub fn simple_expression(t: &Vec<SpannedToken>, p: usize) -> (r: Option<(Spanned<Expr>, usize)>)
    requires
        p <= t@.len(),
    ensures
        r matches Some((_, q)) ==> p < q <= t@.len(),
        expr_result(r, atom_at(t@, p as int)),
{
    atom(t, p)
}

} // verus!
