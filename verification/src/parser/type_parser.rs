//! Type expressions: named and generic types, type variables, lists,
//! tuples, functions and refined types; and function signatures.

use vstd::prelude::*;
use crate::lexer::token::{Token, SpannedToken};
use crate::ast::Spanned;
use crate::ast::id::{Ident, QualifiedIdent};
use crate::ast::types::{
    Type, TypeView, FunctionSig, FunctionSigView, Predicate, PredicateView, CompareOp, LiteralValue,
    LiteralValueView, type_view, types_view, predicate_view, predicates_view, lemma_types_view_push,
};
use crate::parser::cursor::{
    ident, ident_is, starts_upper, type_var_name, skip_separators, span_of, parse_i64, is_tok,
    ident_of, after_separators, parsed_i64,
};
use crate::text::{push_str, string_from_chars};

verus! {

broadcast use vstd::string::group_string_axioms;

// =============================================================================
// THE GRAMMAR OF TYPES
// =============================================================================
//
// Each rule gives, for the tokens `t` and a position `p`, what the rule reads
// there and the position after it, or nothing. A rule that repeats another
// reads as many as it can; a choice takes the first alternative that reads.

/// `parts[0..n]` joined by `::`.
pub open spec fn joined(parts: Seq<Seq<char>>, n: int) -> Seq<char>
    decreases n,
{
    if n <= 0 {
        Seq::empty()
    } else if n == 1 {
        parts[0]
    } else {
        joined(parts, n - 1) + "::"@ + parts[n - 1]
    }
}

/// The names that follow `q` each after `::`.
pub open spec fn path_rest(t: Seq<SpannedToken>, q: int) -> (Seq<Seq<char>>, int)
    decreases t.len() - q,
{
    if is_tok(t, q, Token::DoubleColon) && ident_of(t, q + 1) is Some {
        let r = path_rest(t, q + 2);
        (seq![ident_of(t, q + 1)->Some_0] + r.0, r.1)
    } else {
        (Seq::empty(), q)
    }
}

/// Whether a name starts with an upper-case ASCII letter.
pub open spec fn upper_name(s: Seq<char>) -> bool {
    s.len() > 0 && 'A' <= s[0] && s[0] <= 'Z'
}

/// Whether a name can be a type variable.
pub open spec fn var_name(s: Seq<char>) -> bool {
    (s.len() == 0 || ('a' <= s[0] && s[0] <= 'z')) && s != "_"@
}

/// A type name: names joined by `::` (the last is the name, the others the
/// module), or one name that starts with an upper-case letter.
pub open spec fn named_type_at(t: Seq<SpannedToken>, p: int) -> Option<((Option<Seq<char>>, Seq<char>), int)> {
    match ident_of(t, p) {
        Some(first) => {
            let r = path_rest(t, p + 1);
            let parts = seq![first] + r.0;
            if parts.len() >= 2 {
                Some(((Some(joined(parts, parts.len() - 1)), parts.last()), r.1))
            } else if upper_name(first) {
                Some(((None, first), p + 1))
            } else {
                None
            }
        },
        None => None,
    }
}

/// A type variable.
pub open spec fn type_var_at(t: Seq<SpannedToken>, p: int) -> Option<(TypeView, int)> {
    match ident_of(t, p) {
        Some(s) => if var_name(s) {
            Some((TypeView::Var(s), p + 1))
        } else {
            None
        },
        None => None,
    }
}

/// The list type of `a`.
pub open spec fn list_of(a: TypeView) -> TypeView {
    TypeView::Named { name: (None, "List"@), params: seq![a] }
}

/// A generic type: a type name, then `::` and an argument, as many times as
/// they follow.
pub open spec fn generic_type_at(t: Seq<SpannedToken>, p: int) -> Option<(TypeView, int)>
    decreases t.len() - p, 2int,
{
    match named_type_at(t, p) {
        Some((name, q0)) => if p < q0 <= t.len() {
            let r = generic_args(t, q0);
            Some((TypeView::Named { name, params: r.0 }, r.1))
        } else {
            None
        },
        None => None,
    }
}

/// Arguments of a generic type from `q` on, each after `::`.
pub open spec fn generic_args(t: Seq<SpannedToken>, q: int) -> (Seq<TypeView>, int)
    decreases t.len() - q, 3int,
{
    if is_tok(t, q, Token::DoubleColon) {
        match type_arg_at(t, q + 1) {
            Some((a, q2)) => if q < q2 <= t.len() {
                let r = generic_args(t, q2);
                (seq![a] + r.0, r.1)
            } else {
                (Seq::empty(), q)
            },
            None => (Seq::empty(), q),
        }
    } else {
        (Seq::empty(), q)
    }
}

/// Generic types from `q` on, each after `::`.
pub open spec fn generic_type_args(t: Seq<SpannedToken>, q: int) -> (Seq<TypeView>, int)
    decreases t.len() - q, 3int,
{
    if is_tok(t, q, Token::DoubleColon) {
        match generic_type_at(t, q + 1) {
            Some((a, q2)) => if q < q2 <= t.len() {
                let r = generic_type_args(t, q2);
                (seq![a] + r.0, r.1)
            } else {
                (Seq::empty(), q)
            },
            None => (Seq::empty(), q),
        }
    } else {
        (Seq::empty(), q)
    }
}

/// Generic types one after another from `q` on.
pub open spec fn generic_types_from(t: Seq<SpannedToken>, q: int) -> (Seq<TypeView>, int)
    decreases t.len() - q, 3int,
{
    match generic_type_at(t, q) {
        Some((a, q2)) => if q < q2 <= t.len() {
            let r = generic_types_from(t, q2);
            (seq![a] + r.0, r.1)
        } else {
            (Seq::empty(), q)
        },
        None => (Seq::empty(), q),
    }
}

/// An argument of a generic type: a type name with generic types after
/// `::`, a type variable, `[` a generic type `]`, or `(` generic types `)`
/// (one is itself, more a tuple).
pub open spec fn type_arg_at(t: Seq<SpannedToken>, p: int) -> Option<(TypeView, int)>
    decreases t.len() - p, 0int,
{
    match named_type_at(t, p) {
        Some((name, q0)) => if p < q0 <= t.len() {
            let r = generic_type_args(t, q0);
            Some((TypeView::Named { name, params: r.0 }, r.1))
        } else {
            None
        },
        None => match type_var_at(t, p) {
            Some(x) => Some(x),
            None => if is_tok(t, p, Token::LBracket) {
                match generic_type_at(t, p + 1) {
                    Some((a, q)) => if is_tok(t, q, Token::RBracket) {
                        Some((list_of(a), q + 1))
                    } else {
                        None
                    },
                    None => None,
                }
            } else if is_tok(t, p, Token::LParen) {
                match generic_type_at(t, p + 1) {
                    Some((first, q0)) => if p < q0 <= t.len() {
                        let r = generic_types_from(t, q0);
                        if is_tok(t, r.1, Token::RParen) {
                            if r.0.len() == 0 {
                                Some((first, r.1 + 1))
                            } else {
                                Some((TypeView::Tuple(seq![first] + r.0), r.1 + 1))
                            }
                        } else {
                            None
                        }
                    } else {
                        None
                    },
                    None => None,
                }
            } else {
                None
            },
        },
    }
}

/// A comparison operator, written as a name.
pub open spec fn compare_op_at(t: Seq<SpannedToken>, p: int) -> Option<(CompareOp, int)> {
    match ident_of(t, p) {
        Some(s) => if s == ">"@ {
            Some((CompareOp::Gt, p + 1))
        } else if s == ">="@ {
            Some((CompareOp::Gte, p + 1))
        } else if s == "<"@ {
            Some((CompareOp::Lt, p + 1))
        } else if s == "<="@ {
            Some((CompareOp::Lte, p + 1))
        } else if s == "="@ {
            Some((CompareOp::Eq, p + 1))
        } else if s == "!="@ {
            Some((CompareOp::Neq, p + 1))
        } else {
            None
        },
        None => None,
    }
}

/// A literal value of a predicate: an integer that fits in an `i64`, a
/// float, `True` or `False`.
pub open spec fn literal_value_at(t: Seq<SpannedToken>, p: int) -> Option<(LiteralValueView, int)> {
    if 0 <= p < t.len() {
        match t[p].token {
            Token::Int(s) => match parsed_i64(s@) {
                Some(v) => Some((LiteralValueView::Int(v), p + 1)),
                None => None,
            },
            Token::Float(s) => Some((LiteralValueView::Float(s@), p + 1)),
            Token::Ident(s) => if s@ == "True"@ {
                Some((LiteralValueView::Bool(true), p + 1))
            } else if s@ == "False"@ {
                Some((LiteralValueView::Bool(false), p + 1))
            } else {
                None
            },
            _ => None,
        }
    } else {
        None
    }
}

/// A predicate: an operator, `_` and a value; or `except` and a type name.
pub open spec fn predicate_at(t: Seq<SpannedToken>, p: int) -> Option<(PredicateView, int)> {
    let cmp = match compare_op_at(t, p) {
        Some((op, q)) => if is_tok(t, q, Token::Hole) {
            match literal_value_at(t, q + 1) {
                Some((value, q2)) => Some((PredicateView::Comparison { op, value }, q2)),
                None => None,
            }
        } else {
            None
        },
        None => None,
    };
    if cmp is Some {
        cmp
    } else if is_tok(t, p, Token::Except) {
        match named_type_at(t, p + 1) {
            Some((name, q)) => Some((PredicateView::Except(name), q)),
            None => None,
        }
    } else {
        None
    }
}

/// Predicates from `q` on, each after a comma.
pub open spec fn predicates_from(t: Seq<SpannedToken>, q: int) -> (Seq<PredicateView>, int)
    decreases t.len() - q,
{
    if is_tok(t, q, Token::Comma) {
        match predicate_at(t, q + 1) {
            Some((pr, q2)) => if q < q2 <= t.len() {
                let r = predicates_from(t, q2);
                (seq![pr] + r.0, r.1)
            } else {
                (Seq::empty(), q)
            },
            None => (Seq::empty(), q),
        }
    } else {
        (Seq::empty(), q)
    }
}

/// Type expressions from `q` on, with commas and newlines before each.
pub open spec fn separated_types(t: Seq<SpannedToken>, q: int) -> (Seq<TypeView>, int)
    decreases t.len() - q, 6int,
{
    let s = after_separators(t, q);
    if q <= s <= t.len() {
        match type_expr_at(t, s) {
            Some((a, q2)) => if q < q2 <= t.len() {
                let r = separated_types(t, q2);
                (seq![a] + r.0, r.1)
            } else {
                (Seq::empty(), q)
            },
            None => (Seq::empty(), q),
        }
    } else {
        (Seq::empty(), q)
    }
}

/// A base type: `(` a type, predicates after commas `)` for a refined type;
/// `[` a type `]` for a list; `(` types `)` for a tuple, where one type is
/// itself and `()` the empty tuple; a generic type; or a type variable.
pub open spec fn base_type_at(t: Seq<SpannedToken>, p: int) -> Option<(TypeView, int)>
    decreases t.len() - p, 4int,
{
    let list = if is_tok(t, p, Token::LBracket) {
        match type_expr_at(t, p + 1) {
            Some((a, q)) => if is_tok(t, q, Token::RBracket) {
                Some((list_of(a), q + 1))
            } else {
                None
            },
            None => None,
        }
    } else {
        None
    };
    if refined_at(t, p) is Some {
        refined_at(t, p)
    } else if list is Some {
        list
    } else if tuple_at(t, p) is Some {
        tuple_at(t, p)
    } else {
        match generic_type_at(t, p) {
            Some(x) => Some(x),
            None => type_var_at(t, p),
        }
    }
}

/// Base types from `q` on, each after `->`.
pub open spec fn arrow_rest(t: Seq<SpannedToken>, q: int) -> (Seq<TypeView>, int)
    decreases t.len() - q, 6int,
{
    if is_tok(t, q, Token::SimpleArrow) {
        match base_type_at(t, q + 1) {
            Some((a, q2)) => if q < q2 <= t.len() {
                let r = arrow_rest(t, q2);
                (seq![a] + r.0, r.1)
            } else {
                (Seq::empty(), q)
            },
            None => (Seq::empty(), q),
        }
    } else {
        (Seq::empty(), q)
    }
}

/// Types joined by `->`, nested to the right: each takes one argument.
pub open spec fn arrows(ts: Seq<TypeView>) -> TypeView
    decreases ts.len(),
{
    if ts.len() <= 1 {
        ts[0]
    } else {
        TypeView::Function { params: seq![ts[0]], ret: Box::new(arrows(ts.skip(1))) }
    }
}

/// A type expression: base types joined by `->`, nested to the right.
pub open spec fn type_expr_at(t: Seq<SpannedToken>, p: int) -> Option<(TypeView, int)>
    decreases t.len() - p, 5int,
{
    match base_type_at(t, p) {
        Some((first, q0)) => if p < q0 <= t.len() {
            let r = arrow_rest(t, q0);
            if r.0.len() == 0 {
                Some((first, q0))
            } else {
                Some((arrows(seq![first] + r.0), r.1))
            }
        } else {
            None
        },
        None => None,
    }
}

/// Parameter types from `q` on, with commas and newlines after each.
pub open spec fn sig_params(t: Seq<SpannedToken>, q: int) -> (Seq<TypeView>, int)
    decreases t.len() - q,
{
    match type_expr_at(t, q) {
        Some((a, q2)) => if q < q2 <= after_separators(t, q2) <= t.len() {
            let r = sig_params(t, after_separators(t, q2));
            (seq![a] + r.0, r.1)
        } else {
            (Seq::empty(), q)
        },
        None => (Seq::empty(), q),
    }
}

/// A function signature: parameter types, `=>`, and the return type.
pub open spec fn function_sig_at(t: Seq<SpannedToken>, p: int) -> Option<(FunctionSigView, int)> {
    let r = sig_params(t, p);
    if is_tok(t, r.1, Token::Arrow) {
        match type_expr_at(t, r.1 + 1) {
            Some((ret, q)) => Some((FunctionSigView { params: r.0, ret }, q)),
            None => None,
        }
    } else {
        None
    }
}

/// Whether a parser's result is, by its view, what a rule reads.
pub open spec fn type_result(r: Option<(Spanned<Type>, usize)>, expected: Option<(TypeView, int)>) -> bool {
    match r {
        Some((x, q)) => expected == Some((x.node@, q as int)),
        None => expected is None,
    }
}


/// `parts` joined by `::`.
pub fn join_path(parts: &Vec<String>, n: usize) -> (r: String)
    requires
        n <= parts@.len(),
    ensures
        r@ == joined(texts(parts@), n as int),
{
    let ghost ps = texts(parts@);
    let mut out: Vec<char> = Vec::new();
    let mut i: usize = 0;
    while i < n
        invariant
            i <= n <= parts@.len(),
            ps == texts(parts@),
            out@ == joined(ps, i as int),
        decreases n - i,
    {
        if i > 0 {
            push_str(&mut out, "::");
        }
        push_str(&mut out, parts[i].as_str());
        proof {
            reveal_strlit("::");
            assert(ps[i as int] == parts@[i as int]@);
            if i == 0 {
                assert(out@ =~= joined(ps, 1));
            } else {
                assert(out@ =~= joined(ps, i + 1));
            }
        }
        i = i + 1;
    }
    string_from_chars(&out)
}

/// The texts of strings.
pub open spec fn texts(parts: Seq<String>) -> Seq<Seq<char>> {
    parts.map_values(|s: String| s@)
}

/// A type name: a path of two or more names joined by `::`, whose last is
/// the name and the others the module; or a single name that starts with
/// an upper-case letter.
pub fn named_type(t: &Vec<SpannedToken>, p: usize) -> (r: Option<(QualifiedIdent, usize)>)
    requires
        p <= t@.len(),
    ensures
        r matches Some((_, q)) ==> p < q <= t@.len(),
        match r {
            Some((qi, q)) => named_type_at(t@, p as int) == Some((qi@, q as int)),
            None => named_type_at(t@, p as int) is None,
        },
{
    match ident(t, p) {
        Some((first, q0)) => {
            let ghost f = first@;
            let mut parts: Vec<String> = Vec::new();
            parts.push(first);
            let mut q = q0;
            assert(texts(parts@) =~= seq![f]);
            while q < t.len() && matches!(t[q].token, Token::DoubleColon)
                invariant
                    p < q <= t@.len(),
                    q0 == p + 1,
                    parts@.len() >= 1,
                    texts(parts@) + path_rest(t@, q as int).0 == seq![f] + path_rest(t@, p + 1).0,
                    path_rest(t@, q as int).1 == path_rest(t@, p + 1).1,
                ensures
                    p < q <= t@.len(),
                    parts@.len() >= 1,
                    texts(parts@) + path_rest(t@, q as int).0 == seq![f] + path_rest(t@, p + 1).0,
                    path_rest(t@, q as int).1 == path_rest(t@, p + 1).1,
                    path_rest(t@, q as int) == (Seq::<Seq<char>>::empty(), q as int),
                decreases t@.len() - q,
            {
                match ident(t, q + 1) {
                    Some((s, q2)) => {
                        let ghost old_parts = texts(parts@);
                        parts.push(s);
                        assert(texts(parts@) =~= old_parts.push(s@));
                        assert(ident_of(t@, q + 1) == Some(s@));
                        let ghost r = path_rest(t@, q2 as int);
                        assert(path_rest(t@, q as int) == (seq![s@] + r.0, r.1));
                        assert(texts(parts@) + r.0 =~= old_parts + (seq![s@] + r.0));
                        q = q2;
                    },
                    None => {
                        break;
                    },
                }
            }
            assert(texts(parts@) =~= seq![f] + path_rest(t@, p + 1).0);
            if parts.len() >= 2 {
                let n = parts.len();
                let module = join_path(&parts, n - 1);
                let name = parts[n - 1].clone();
                assert(texts(parts@).last() == name@);
                return Some((QualifiedIdent { module: Some(module), name }, q));
            }
            assert(path_rest(t@, p + 1).0.len() == 0);
            assert(texts(parts@)[0] == parts@[0]@);
            if starts_upper(parts[0].as_str()) {
                let name = parts[0].clone();
                Some((QualifiedIdent { module: None, name }, q0))
            } else {
                None
            }
        },
        None => None,
    }
}

/// A type variable: a name that is empty or starts with a lower-case
/// letter, other than `_`.
pub fn type_var(t: &Vec<SpannedToken>, p: usize) -> (r: Option<(Ident, usize)>)
    ensures
        r matches Some((_, q)) ==> q == p + 1 && p < t@.len(),
        match r {
            Some((v, q)) => type_var_at(t@, p as int) == Some((TypeView::Var(v@), q as int)),
            None => type_var_at(t@, p as int) is None,
        },
{
    match ident(t, p) {
        Some((s, q)) => {
            if type_var_name(s.as_str()) {
                Some((Ident(s), q))
            } else {
                None
            }
        },
        None => None,
    }
}

proof fn lemma_types_view_concat(a: Seq<Type>, b: Seq<Type>)
    ensures
        types_view(a + b) == types_view(a) + types_view(b),
    decreases b.len(),
{
    if b.len() == 0 {
        assert(a + b =~= a);
        assert(types_view(a) + types_view(b) =~= types_view(a));
    } else {
        lemma_types_view_concat(a, b.drop_last());
        assert((a + b).drop_last() =~= a + b.drop_last());
        assert((a + b).last() == b.last());
        assert(types_view(a) + types_view(b) =~= (types_view(a) + types_view(b.drop_last())).push(
            type_view(b.last()),
        ));
    }
}

proof fn lemma_types_view_one(x: Type)
    ensures
        types_view(seq![x]) == seq![type_view(x)],
{
    lemma_types_view_push(Seq::empty(), x);
    assert(Seq::<Type>::empty().push(x) =~= seq![x]);
    assert(Seq::<TypeView>::empty().push(type_view(x)) =~= seq![type_view(x)]);
}

/// A generic type: a type name followed by `::` and an argument for each
/// parameter.
fn generic_type(t: &Vec<SpannedToken>, p: usize) -> (r: Option<(Spanned<Type>, usize)>)
    requires
        p <= t@.len(),
    ensures
        r matches Some((_, q)) ==> p < q <= t@.len(),
        type_result(r, generic_type_at(t@, p as int)),
    decreases t@.len() - p, 1nat,
{
    let (name, q0) = match named_type(t, p) {
        Some(x) => x,
        None => {
            return None;
        },
    };
    let ghost whole = generic_args(t@, q0 as int);
    let mut params: Vec<Type> = Vec::new();
    let mut q = q0;
    while q < t.len() && matches!(t[q].token, Token::DoubleColon)
        invariant
            p < q0 <= q <= t@.len(),
            whole == generic_args(t@, q0 as int),
            types_view(params@) + generic_args(t@, q as int).0 == whole.0,
            generic_args(t@, q as int).1 == whole.1,
        ensures
            p < q0 <= q <= t@.len(),
            types_view(params@) + generic_args(t@, q as int).0 == whole.0,
            generic_args(t@, q as int).1 == whole.1,
            generic_args(t@, q as int) == (Seq::<TypeView>::empty(), q as int),
        decreases t@.len() - q,
    {
        match type_arg(t, q + 1) {
            Some((a, q2)) => {
                proof {
                    lemma_types_view_push(params@, a.node);
                    let rest = generic_args(t@, q2 as int);
                    assert(generic_args(t@, q as int) == (seq![a.node@] + rest.0, rest.1));
                    assert(types_view(params@).push(type_view(a.node)) + rest.0 =~= types_view(params@) + (
                    seq![a.node@] + rest.0));
                }
                params.push(a.node);
                q = q2;
            },
            None => {
                break;
            },
        }
    }
    assert(types_view(params@) =~= whole.0);
    Some((Spanned { node: Type::Named { name, params }, span: span_of(p, q) }, q))
}

/// An argument of a generic type: a named type with its own arguments, a
/// type variable, a list type `[T]`, or a parenthesised type or tuple.
fn type_arg(t: &Vec<SpannedToken>, p: usize) -> (r: Option<(Spanned<Type>, usize)>)
    requires
        p <= t@.len(),
    ensures
        r matches Some((_, q)) ==> p < q <= t@.len(),
        type_result(r, type_arg_at(t@, p as int)),
    decreases t@.len() - p, 0nat,
{
    match named_type(t, p) {
        Some((name, q0)) => {
            let ghost whole = generic_type_args(t@, q0 as int);
            let mut params: Vec<Type> = Vec::new();
            let mut q = q0;
            while q < t.len() && matches!(t[q].token, Token::DoubleColon)
                invariant
                    p < q0 <= q <= t@.len(),
                    whole == generic_type_args(t@, q0 as int),
                    types_view(params@) + generic_type_args(t@, q as int).0 == whole.0,
                    generic_type_args(t@, q as int).1 == whole.1,
                ensures
                    p < q0 <= q <= t@.len(),
                    types_view(params@) + generic_type_args(t@, q as int).0 == whole.0,
                    generic_type_args(t@, q as int).1 == whole.1,
                    generic_type_args(t@, q as int) == (Seq::<TypeView>::empty(), q as int),
                decreases t@.len() - q,
            {
                match generic_type(t, q + 1) {
                    Some((a, q2)) => {
                        proof {
                            lemma_types_view_push(params@, a.node);
                            let rest = generic_type_args(t@, q2 as int);
                            assert(generic_type_args(t@, q as int) == (seq![a.node@] + rest.0, rest.1));
                            assert(types_view(params@).push(type_view(a.node)) + rest.0 =~= types_view(params@)
                                + (seq![a.node@] + rest.0));
                        }
                        params.push(a.node);
                        q = q2;
                    },
                    None => {
                        break;
                    },
                }
            }
            assert(types_view(params@) =~= whole.0);
            return Some((Spanned { node: Type::Named { name, params }, span: span_of(p, q) }, q));
        },
        None => {},
    }
    match type_var(t, p) {
        Some((v, q)) => {
            return Some((Spanned { node: Type::Var(v), span: span_of(p, q) }, q));
        },
        None => {},
    }
    if p < t.len() && matches!(t[p].token, Token::LBracket) {
        match generic_type(t, p + 1) {
            Some((a, q)) => {
                if q < t.len() && matches!(t[q].token, Token::RBracket) {
                    let mut ps: Vec<Type> = Vec::new();
                    ps.push(a.node);
                    proof {
                        lemma_types_view_one(a.node);
                        assert(ps@ =~= seq![a.node]);
                    }
                    return Some((
                        Spanned {
                            node: Type::Named { name: QualifiedIdent { module: None, name: String::from_str("List") }, params: ps },
                            span: span_of(p, q + 1),
                        },
                        q + 1,
                    ));
                }
            },
            None => {},
        }
        return None;
    }
    if p < t.len() && matches!(t[p].token, Token::LParen) {
        let (first, q0) = match generic_type(t, p + 1) {
            Some(x) => x,
            None => {
                return None;
            },
        };
        let ghost whole = generic_types_from(t@, q0 as int);
        let mut rest: Vec<Type> = Vec::new();
        let mut q = q0;
        loop
            invariant
                p < q0 <= q <= t@.len(),
                whole == generic_types_from(t@, q0 as int),
                types_view(rest@) + generic_types_from(t@, q as int).0 == whole.0,
                generic_types_from(t@, q as int).1 == whole.1,
            ensures
                p < q0 <= q <= t@.len(),
                types_view(rest@) + generic_types_from(t@, q as int).0 == whole.0,
                generic_types_from(t@, q as int).1 == whole.1,
                generic_types_from(t@, q as int) == (Seq::<TypeView>::empty(), q as int),
            decreases t@.len() - q,
        {
            match generic_type(t, q) {
                Some((a, q2)) => {
                    proof {
                        lemma_types_view_push(rest@, a.node);
                        let more = generic_types_from(t@, q2 as int);
                        assert(generic_types_from(t@, q as int) == (seq![a.node@] + more.0, more.1));
                        assert(types_view(rest@).push(type_view(a.node)) + more.0 =~= types_view(rest@) + (
                        seq![a.node@] + more.0));
                    }
                    rest.push(a.node);
                    q = q2;
                },
                None => {
                    break;
                },
            }
        }
        assert(types_view(rest@) =~= whole.0);
        if q < t.len() && matches!(t[q].token, Token::RParen) {
            if rest.len() == 0 {
                return Some((first, q + 1));
            }
            let ghost rest_seq = rest@;
            let mut items: Vec<Type> = Vec::new();
            items.push(first.node);
            items.append(&mut rest);
            proof {
                assert(items@ =~= seq![first.node] + rest_seq);
                lemma_types_view_concat(seq![first.node], rest_seq);
                lemma_types_view_one(first.node);
            }
            return Some((Spanned { node: Type::Tuple(items), span: span_of(p, q + 1) }, q + 1));
        }
        return None;
    }
    None
}

/// A comparison operator of a predicate, written as an identifier.
fn compare_op(t: &Vec<SpannedToken>, p: usize) -> (r: Option<(CompareOp, usize)>)
    requires
        p <= t@.len(),
    ensures
        r matches Some((_, q)) ==> q == p + 1 && p < t@.len(),
        match r {
            Some((op, q)) => compare_op_at(t@, p as int) == Some((op, q as int)),
            None => compare_op_at(t@, p as int) is None,
        },
{
    if p >= t.len() {
        return None;
    }
    if ident_is(t, p, ">") {
        Some((CompareOp::Gt, p + 1))
    } else if ident_is(t, p, ">=") {
        Some((CompareOp::Gte, p + 1))
    } else if ident_is(t, p, "<") {
        Some((CompareOp::Lt, p + 1))
    } else if ident_is(t, p, "<=") {
        Some((CompareOp::Lte, p + 1))
    } else if ident_is(t, p, "=") {
        Some((CompareOp::Eq, p + 1))
    } else if ident_is(t, p, "!=") {
        Some((CompareOp::Neq, p + 1))
    } else {
        None
    }
}

/// A literal value of a predicate: an integer that fits in an `i64`, a
/// float, or `True` or `False`.
fn literal_value(t: &Vec<SpannedToken>, p: usize) -> (r: Option<(LiteralValue, usize)>)
    ensures
        r matches Some((_, q)) ==> q == p + 1 && p < t@.len(),
        match r {
            Some((v, q)) => literal_value_at(t@, p as int) == Some((v@, q as int)),
            None => literal_value_at(t@, p as int) is None,
        },
{
    if p >= t.len() {
        return None;
    }
    match &t[p].token {
        Token::Int(s) => match parse_i64(s.as_str()) {
            Some(v) => Some((LiteralValue::Int(v), p + 1)),
            None => None,
        },
        Token::Float(s) => Some((LiteralValue::Float(s.clone()), p + 1)),
        Token::Ident(s) => {
            if crate::text::str_eq(s.as_str(), "True") {
                Some((LiteralValue::Bool(true), p + 1))
            } else if crate::text::str_eq(s.as_str(), "False") {
                Some((LiteralValue::Bool(false), p + 1))
            } else {
                None
            }
        },
        _ => None,
    }
}

/// A predicate of a refined type: `op _ value`, or `except Name`.
fn predicate(t: &Vec<SpannedToken>, p: usize) -> (r: Option<(Predicate, usize)>)
    requires
        p <= t@.len(),
    ensures
        r matches Some((_, q)) ==> p < q <= t@.len(),
        match r {
            Some((pr, q)) => predicate_at(t@, p as int) == Some((pr@, q as int)),
            None => predicate_at(t@, p as int) is None,
        },
{
    match compare_op(t, p) {
        Some((op, q)) => {
            if q < t.len() && matches!(t[q].token, Token::Hole) {
                match literal_value(t, q + 1) {
                    Some((value, q2)) => {
                        return Some((Predicate::Comparison { op, value }, q2));
                    },
                    None => {},
                }
            }
        },
        None => {},
    }
    if p < t.len() && matches!(t[p].token, Token::Except) {
        match named_type(t, p + 1) {
            Some((name, q)) => {
                return Some((Predicate::Except(name), q));
            },
            None => {},
        }
    }
    None
}

/// Reads a type expression between parentheses from `p`, then commas and
/// predicates: a refined type when at least one predicate and `)` follow.
fn refined_type(t: &Vec<SpannedToken>, p: usize) -> (r: Option<(Spanned<Type>, usize)>)
    requires
        p <= t@.len(),
        is_tok(t@, p as int, Token::LParen),
    ensures
        r matches Some((_, q)) ==> p < q <= t@.len(),
        type_result(r, refined_at(t@, p as int)),
    decreases t@.len() - p, 3nat,
{
    if p >= t.len() {
        return None;
    }
    match type_expr(t, p + 1) {
        Some((base, q0)) => {
            let ghost whole = predicates_from(t@, q0 as int);
            let mut preds: Vec<Predicate> = Vec::new();
            let mut q = q0;
            while q < t.len() && matches!(t[q].token, Token::Comma)
                invariant
                    p < q0 <= q <= t@.len(),
                    whole == predicates_from(t@, q0 as int),
                    predicates_view(preds@) + predicates_from(t@, q as int).0 == whole.0,
                    predicates_from(t@, q as int).1 == whole.1,
                ensures
                    p < q0 <= q <= t@.len(),
                    predicates_view(preds@) + predicates_from(t@, q as int).0 == whole.0,
                    predicates_from(t@, q as int).1 == whole.1,
                    predicates_from(t@, q as int) == (Seq::<PredicateView>::empty(), q as int),
                decreases t@.len() - q,
            {
                match predicate(t, q + 1) {
                    Some((pr, q2)) => {
                        proof {
                            crate::ast::types::lemma_predicates_view_push(preds@, pr);
                            let more = predicates_from(t@, q2 as int);
                            assert(predicates_from(t@, q as int) == (seq![pr@] + more.0, more.1));
                            assert(predicates_view(preds@).push(predicate_view(pr)) + more.0
                                =~= predicates_view(preds@) + (seq![pr@] + more.0));
                        }
                        preds.push(pr);
                        q = q2;
                    },
                    None => {
                        break;
                    },
                }
            }
            assert(predicates_view(preds@) =~= whole.0);
            proof {
                crate::ast::types::lemma_predicates_view_len(preds@);
            }
            if preds.len() > 0 && q < t.len() && matches!(t[q].token, Token::RParen) {
                let predicate = if preds.len() == 1 {
                    proof {
                        crate::ast::types::lemma_predicates_view_index(preds@, 0);
                    }
                    preds.pop().unwrap()
                } else {
                    Predicate::And(preds)
                };
                return Some((
                    Spanned { node: Type::Refined { base: Box::new(base.node), predicate }, span: span_of(p, q + 1) },
                    q + 1,
                ));
            }
            None
        },
        None => None,
    }
}

/// The refined type at `p`, as `base_type_at` reads it.
pub open spec fn refined_at(t: Seq<SpannedToken>, p: int) -> Option<(TypeView, int)>
    decreases t.len() - p, 3int,
{
    if is_tok(t, p, Token::LParen) {
        match type_expr_at(t, p + 1) {
            Some((base, q0)) => if p < q0 <= t.len() {
                let r = predicates_from(t, q0);
                if r.0.len() > 0 && is_tok(t, r.1, Token::RParen) {
                    Some((
                        TypeView::Refined {
                            base: Box::new(base),
                            predicate: if r.0.len() == 1 {
                                r.0[0]
                            } else {
                                PredicateView::And(r.0)
                            },
                        },
                        r.1 + 1,
                    ))
                } else {
                    None
                }
            } else {
                None
            },
            None => None,
        }
    } else {
        None
    }
}

/// `(` type expressions `)`, with commas and newlines before each but the
/// first: one is itself, more a tuple, and `()` is the empty tuple.
fn tuple_type(t: &Vec<SpannedToken>, p: usize) -> (r: Option<(Spanned<Type>, usize)>)
    requires
        p <= t@.len(),
        is_tok(t@, p as int, Token::LParen),
    ensures
        r matches Some((_, q)) ==> p < q <= t@.len(),
        type_result(r, tuple_at(t@, p as int)),
    decreases t@.len() - p, 3nat,
{
    if p >= t.len() {
        return None;
    }
    match type_expr(t, p + 1) {
        Some((first, q0)) => {
            let ghost whole = separated_types(t@, q0 as int);
            let mut rest: Vec<Type> = Vec::new();
            let mut q = q0;
            loop
                invariant
                    p < q0 <= q <= t@.len(),
                    whole == separated_types(t@, q0 as int),
                    types_view(rest@) + separated_types(t@, q as int).0 == whole.0,
                    separated_types(t@, q as int).1 == whole.1,
                ensures
                    p < q0 <= q <= t@.len(),
                    types_view(rest@) + separated_types(t@, q as int).0 == whole.0,
                    separated_types(t@, q as int).1 == whole.1,
                    separated_types(t@, q as int) == (Seq::<TypeView>::empty(), q as int),
                decreases t@.len() - q,
            {
                let s = skip_separators(t, q);
                match type_expr(t, s) {
                    Some((a, q2)) => {
                        proof {
                            lemma_types_view_push(rest@, a.node);
                            let more = separated_types(t@, q2 as int);
                            assert(separated_types(t@, q as int) == (seq![a.node@] + more.0, more.1));
                            assert(types_view(rest@).push(type_view(a.node)) + more.0 =~= types_view(rest@) + (
                            seq![a.node@] + more.0));
                        }
                        rest.push(a.node);
                        q = q2;
                    },
                    None => {
                        break;
                    },
                }
            }
            assert(types_view(rest@) =~= whole.0);
            if q < t.len() && matches!(t[q].token, Token::RParen) {
                if rest.len() == 0 {
                    return Some((first, q + 1));
                }
                let ghost rest_seq = rest@;
                let mut items: Vec<Type> = Vec::new();
                items.push(first.node);
                items.append(&mut rest);
                proof {
                    assert(items@ =~= seq![first.node] + rest_seq);
                    lemma_types_view_concat(seq![first.node], rest_seq);
                    lemma_types_view_one(first.node);
                }
                return Some((Spanned { node: Type::Tuple(items), span: span_of(p, q + 1) }, q + 1));
            }
            None
        },
        None => {
            if p + 1 < t.len() && matches!(t[p + 1].token, Token::RParen) {
                let none: Vec<Type> = Vec::new();
                assert(types_view(none@) =~= Seq::<TypeView>::empty());
                return Some((Spanned { node: Type::Tuple(none), span: span_of(p, p + 2) }, p + 2));
            }
            None
        },
    }
}

/// The tuple or parenthesised type at `p`, as `base_type_at` reads it.
pub open spec fn tuple_at(t: Seq<SpannedToken>, p: int) -> Option<(TypeView, int)>
    decreases t.len() - p, 3int,
{
    if is_tok(t, p, Token::LParen) {
        match type_expr_at(t, p + 1) {
            Some((first, q0)) => if p < q0 <= t.len() {
                let r = separated_types(t, q0);
                if is_tok(t, r.1, Token::RParen) {
                    if r.0.len() == 0 {
                        Some((first, r.1 + 1))
                    } else {
                        Some((TypeView::Tuple(seq![first] + r.0), r.1 + 1))
                    }
                } else {
                    None
                }
            } else {
                None
            },
            None => if is_tok(t, p + 1, Token::RParen) {
                Some((TypeView::Tuple(Seq::empty()), p + 2))
            } else {
                None
            },
        }
    } else {
        None
    }
}

/// A type other than a function type: a refined type `(T, pred, ...)`, a
/// list type `[T]`, a tuple `(A B)` (one type in parentheses is that type,
/// none is the empty tuple), a generic type, or a type variable.
fn base_type(t: &Vec<SpannedToken>, p: usize) -> (r: Option<(Spanned<Type>, usize)>)
    requires
        p <= t@.len(),
    ensures
        r matches Some((_, q)) ==> p < q <= t@.len(),
        type_result(r, base_type_at(t@, p as int)),
    decreases t@.len() - p, 4nat,
{
    if p < t.len() && matches!(t[p].token, Token::LParen) {
        match refined_type(t, p) {
            Some(x) => {
                return Some(x);
            },
            None => {},
        }
    }
    if p < t.len() && matches!(t[p].token, Token::LBracket) {
        match type_expr(t, p + 1) {
            Some((a, q)) => {
                if q < t.len() && matches!(t[q].token, Token::RBracket) {
                    let mut ps: Vec<Type> = Vec::new();
                    ps.push(a.node);
                    proof {
                        lemma_types_view_one(a.node);
                        assert(ps@ =~= seq![a.node]);
                    }
                    return Some((
                        Spanned {
                            node: Type::Named { name: QualifiedIdent { module: None, name: String::from_str("List") }, params: ps },
                            span: span_of(p, q + 1),
                        },
                        q + 1,
                    ));
                }
            },
            None => {},
        }
    }
    if p < t.len() && matches!(t[p].token, Token::LParen) {
        match tuple_type(t, p) {
            Some(x) => {
                return Some(x);
            },
            None => {},
        }
    }
    match generic_type(t, p) {
        Some(x) => {
            return Some(x);
        },
        None => {},
    }
    match type_var(t, p) {
        Some((v, q)) => Some((Spanned { node: Type::Var(v), span: span_of(p, q) }, q)),
        None => None,
    }
}

/// A type expression: a base type, or base types joined by `->`, which
/// nest to the right: `A -> B -> C` takes an `A` to a function from `B`.
pub fn type_expr(t: &Vec<SpannedToken>, p: usize) -> (r: Option<(Spanned<Type>, usize)>)
    requires
        p <= t@.len(),
    ensures
        r matches Some((_, q)) ==> p < q <= t@.len(),
        type_result(r, type_expr_at(t@, p as int)),
    decreases t@.len() - p, 5nat,
{
    let (first, q0) = match base_type(t, p) {
        Some(x) => x,
        None => {
            return None;
        },
    };
    let ghost whole = arrow_rest(t@, q0 as int);
    let mut all: Vec<Type> = Vec::new();
    let mut q = q0;
    while q < t.len() && matches!(t[q].token, Token::SimpleArrow)
        invariant
            p < q0 <= q <= t@.len(),
            whole == arrow_rest(t@, q0 as int),
            types_view(all@) + arrow_rest(t@, q as int).0 == whole.0,
            arrow_rest(t@, q as int).1 == whole.1,
        ensures
            p < q0 <= q <= t@.len(),
            types_view(all@) + arrow_rest(t@, q as int).0 == whole.0,
            arrow_rest(t@, q as int).1 == whole.1,
            arrow_rest(t@, q as int) == (Seq::<TypeView>::empty(), q as int),
        decreases t@.len() - q,
    {
        match base_type(t, q + 1) {
            Some((a, q2)) => {
                proof {
                    lemma_types_view_push(all@, a.node);
                    let more = arrow_rest(t@, q2 as int);
                    assert(arrow_rest(t@, q as int) == (seq![a.node@] + more.0, more.1));
                    assert(types_view(all@).push(type_view(a.node)) + more.0 =~= types_view(all@) + (seq![
                        a.node@,
                    ] + more.0));
                }
                all.push(a.node);
                q = q2;
            },
            None => {
                break;
            },
        }
    }
    assert(types_view(all@) =~= whole.0);
    proof {
        crate::ast::types::lemma_types_view_len(all@);
    }
    if all.len() == 0 {
        return Some((first, q0));
    }
    let ghost views = seq![first.node@] + whole.0;
    let n = all.len();
    let ghost all0 = all@;
    let mut ret = all.pop().unwrap();
    proof {
        crate::ast::types::lemma_types_view_index(all0, n - 1);
        assert(views.subrange(n as int, n + 1) =~= seq![views[n as int]]);
        assert(arrows(views.subrange(n as int, n + 1)) == views[n as int]);
    }
    while all.len() > 0
        invariant
            all@ == all0.take(all@.len() as int),
            all@.len() < n,
            n == all0.len(),
            views == seq![first.node@] + types_view(all0),
            types_view(all0).len() == n,
            ret@ == arrows(views.subrange(all@.len() as int + 1, n + 1)),
        decreases all@.len(),
    {
        let k = all.len();
        let arg = all.pop().unwrap();
        let mut ps: Vec<Type> = Vec::new();
        ps.push(arg);
        proof {
            lemma_types_view_one(arg);
            assert(ps@ =~= seq![arg]);
            assert(arg == all0[k - 1]);
            crate::ast::types::lemma_types_view_index(all0, k - 1);
            let sub = views.subrange(k as int, n + 1);
            assert(sub.len() >= 2);
            assert(sub[0] == type_view(arg));
            assert(sub.skip(1) =~= views.subrange(k + 1, n + 1));
            assert(all@ =~= all0.take(all@.len() as int));
        }
        ret = Type::Function { params: ps, return_type: Box::new(ret) };
    }
    let mut ps: Vec<Type> = Vec::new();
    ps.push(first.node);
    proof {
        lemma_types_view_one(first.node);
        assert(ps@ =~= seq![first.node]);
        let sub = views.subrange(0, n + 1);
        assert(sub =~= views);
        assert(views.skip(1) =~= views.subrange(1, n + 1));
        assert(views.len() >= 2);
    }
    ret = Type::Function { params: ps, return_type: Box::new(ret) };
    Some((Spanned { node: ret, span: span_of(p, q) }, q))
}

/// A function signature: parameter types, separated by commas or line
/// breaks if at all, then `=>` and the return type.
pub fn function_sig(t: &Vec<SpannedToken>, p: usize) -> (r: Option<(FunctionSig, usize)>)
    requires
        p <= t@.len(),
    ensures
        r matches Some((_, q)) ==> p < q <= t@.len(),
        match r {
            Some((sig, q)) => function_sig_at(t@, p as int) == Some((sig@, q as int)),
            None => function_sig_at(t@, p as int) is None,
        },
{
    let ghost whole = sig_params(t@, p as int);
    let mut params: Vec<Type> = Vec::new();
    let mut q = p;
    loop
        invariant
            p <= q <= t@.len(),
            whole == sig_params(t@, p as int),
            types_view(params@) + sig_params(t@, q as int).0 == whole.0,
            sig_params(t@, q as int).1 == whole.1,
        ensures
            p <= q <= t@.len(),
            types_view(params@) + sig_params(t@, q as int).0 == whole.0,
            sig_params(t@, q as int).1 == whole.1,
            sig_params(t@, q as int) == (Seq::<TypeView>::empty(), q as int),
        decreases t@.len() - q,
    {
        match type_expr(t, q) {
            Some((a, q2)) => {
                proof {
                    lemma_types_view_push(params@, a.node);
                }
                params.push(a.node);
                let q3 = skip_separators(t, q2);
                proof {
                    let more = sig_params(t@, q3 as int);
                    assert(sig_params(t@, q as int) == (seq![a.node@] + more.0, more.1));
                    assert(types_view(params@) + more.0 =~= (types_view(params@).drop_last()) + (seq![
                        a.node@,
                    ] + more.0));
                }
                q = q3;
            },
            None => {
                break;
            },
        }
    }
    assert(types_view(params@) =~= whole.0);
    if q < t.len() && matches!(t[q].token, Token::Arrow) {
        match type_expr(t, q + 1) {
            Some((ret, q2)) => Some((FunctionSig { params, return_type: ret.node }, q2)),
            None => None,
        }
    } else {
        None
    }
}

} // verus!
