//! Patterns, used in lambda clauses, match cases and destructuring.

use vstd::prelude::*;
use crate::ast::Spanned;
use crate::ast::id::{Ident, Literal, LiteralView, literal_display};
use crate::lexer::token::Span;
use crate::ast::types::{Type, TypeView, type_display, push_type_display};
use crate::text::{string_from_chars, push_str};

verus! {

broadcast use vstd::string::group_string_axioms;

/// A pattern.
#[derive(Debug, PartialEq)]
pub enum Pattern {
    /// Literal: matches exactly that value.
    Literal(Literal),
    /// Variable: binds the value.
    Var(Ident),
    /// Wildcard `_`: matches anything, binds nothing.
    Wildcard,
    /// Tuple: `(a b c)`.
    Tuple(Vec<Spanned<Pattern>>),
    /// List: `[a b ...rest]`.
    List { elements: Vec<Spanned<Pattern>>, rest: Option<Box<Spanned<Pattern>>> },
    /// Array: `{a b c}`.
    Array(Vec<Spanned<Pattern>>),
    /// Cons: `head:tail`.
    Cons { head: Box<Spanned<Pattern>>, tail: Box<Spanned<Pattern>> },
    /// Enum variant: `Some(x)`, `None`.
    Variant { name: Ident, args: Vec<Spanned<Pattern>> },
    /// Alternatives: `a | b`.
    Or(Vec<Spanned<Pattern>>),
    /// Pattern with a condition.
    Guarded { pattern: Box<Spanned<Pattern>>, condition: Box<Spanned<Pattern>> },
    /// Pattern with a type annotation: `x::Int`.
    Typed { pattern: Box<Spanned<Pattern>>, type_annotation: Type },
    /// Range of literals: `[1..10]`, `[1..=10]`.
    Range { start: Literal, end: Literal, inclusive: bool },
}

/// A pattern by its contents: names and texts as character sequences, and
/// each sub-pattern with its span.
pub enum PatternView {
    Literal(LiteralView),
    Var(Seq<char>),
    Wildcard,
    Tuple(Seq<(PatternView, Span)>),
    List { elements: Seq<(PatternView, Span)>, rest: Option<Box<(PatternView, Span)>> },
    Array(Seq<(PatternView, Span)>),
    Cons { head: Box<(PatternView, Span)>, tail: Box<(PatternView, Span)> },
    Variant { name: Seq<char>, args: Seq<(PatternView, Span)> },
    Or(Seq<(PatternView, Span)>),
    Guarded { pattern: Box<(PatternView, Span)>, condition: Box<(PatternView, Span)> },
    Typed { pattern: Box<(PatternView, Span)>, typ: TypeView },
    Range { start: LiteralView, end: LiteralView, inclusive: bool },
}

/// The view of a pattern.
pub open spec fn pattern_view(p: Pattern) -> PatternView
    decreases p,
{
    match p {
        Pattern::Literal(l) => PatternView::Literal(l@),
        Pattern::Var(v) => PatternView::Var(v@),
        Pattern::Wildcard => PatternView::Wildcard,
        Pattern::Tuple(ps) => PatternView::Tuple(spanned_patterns_view(ps@)),
        Pattern::List { elements, rest } => PatternView::List {
            elements: spanned_patterns_view(elements@),
            rest: match rest {
                Some(r) => Some(Box::new((pattern_view(r.node), r.span))),
                None => None,
            },
        },
        Pattern::Array(ps) => PatternView::Array(spanned_patterns_view(ps@)),
        Pattern::Cons { head, tail } => PatternView::Cons {
            head: Box::new((pattern_view(head.node), head.span)),
            tail: Box::new((pattern_view(tail.node), tail.span)),
        },
        Pattern::Variant { name, args } => PatternView::Variant { name: name@, args: spanned_patterns_view(args@) },
        Pattern::Or(ps) => PatternView::Or(spanned_patterns_view(ps@)),
        Pattern::Guarded { pattern, condition } => PatternView::Guarded {
            pattern: Box::new((pattern_view(pattern.node), pattern.span)),
            condition: Box::new((pattern_view(condition.node), condition.span)),
        },
        Pattern::Typed { pattern, type_annotation } => PatternView::Typed {
            pattern: Box::new((pattern_view(pattern.node), pattern.span)),
            typ: type_annotation@,
        },
        Pattern::Range { start, end, inclusive } => PatternView::Range { start: start@, end: end@, inclusive },
    }
}

/// The views of spanned patterns, each with its span.
pub open spec fn spanned_patterns_view(ps: Seq<Spanned<Pattern>>) -> Seq<(PatternView, Span)>
    decreases ps,
{
    if ps.len() == 0 {
        Seq::empty()
    } else {
        spanned_patterns_view(ps.drop_last()).push((pattern_view(ps.last().node), ps.last().span))
    }
}

/// The view of a spanned pattern, with its span.
pub open spec fn spanned_pattern_view(p: Spanned<Pattern>) -> (PatternView, Span) {
    (pattern_view(p.node), p.span)
}

/// The views of `ps` with one more pattern after them.
pub proof fn lemma_spanned_patterns_view_push(ps: Seq<Spanned<Pattern>>, p: Spanned<Pattern>)
    ensures
        spanned_patterns_view(ps.push(p)) == spanned_patterns_view(ps).push(spanned_pattern_view(p)),
{
    assert(ps.push(p).drop_last() =~= ps);
}

/// There is one view for each pattern.
pub proof fn lemma_spanned_patterns_view_len(ps: Seq<Spanned<Pattern>>)
    ensures
        spanned_patterns_view(ps).len() == ps.len(),
    decreases ps.len(),
{
    if ps.len() > 0 {
        lemma_spanned_patterns_view_len(ps.drop_last());
    }
}

/// The view of the `i`-th pattern is the `i`-th view.
pub proof fn lemma_spanned_patterns_view_index(ps: Seq<Spanned<Pattern>>, i: int)
    requires
        0 <= i < ps.len(),
    ensures
        spanned_patterns_view(ps)[i] == spanned_pattern_view(ps[i]),
        spanned_patterns_view(ps).len() == ps.len(),
    decreases ps.len(),
{
    lemma_spanned_patterns_view_len(ps);
    if i < ps.len() - 1 {
        lemma_spanned_patterns_view_index(ps.drop_last(), i);
    }
}

/// The views of two sequences of patterns one after the other.
pub proof fn lemma_spanned_patterns_view_concat(a: Seq<Spanned<Pattern>>, b: Seq<Spanned<Pattern>>)
    ensures
        spanned_patterns_view(a + b) == spanned_patterns_view(a) + spanned_patterns_view(b),
    decreases b.len(),
{
    if b.len() == 0 {
        assert(a + b =~= a);
        assert(spanned_patterns_view(a) + spanned_patterns_view(b) =~= spanned_patterns_view(a));
    } else {
        lemma_spanned_patterns_view_concat(a, b.drop_last());
        assert((a + b).drop_last() =~= a + b.drop_last());
        assert((a + b).last() == b.last());
        assert(spanned_patterns_view(a) + spanned_patterns_view(b) =~= (spanned_patterns_view(a)
            + spanned_patterns_view(b.drop_last())).push(spanned_pattern_view(b.last())));
    }
}

impl View for Pattern {
    type V = PatternView;

    open spec fn view(&self) -> PatternView {
        pattern_view(*self)
    }
}

/// The variables that a pattern binds, left to right.
pub open spec fn pattern_vars(p: Pattern) -> Seq<Ident>
    decreases p,
{
    match p {
        Pattern::Var(v) => seq![v],
        Pattern::Wildcard | Pattern::Literal(_) | Pattern::Range { .. } => Seq::empty(),
        Pattern::Tuple(ps) => patterns_vars(ps@),
        Pattern::List { elements, rest } => patterns_vars(elements@) + match rest {
            Some(r) => pattern_vars(r.node),
            None => Seq::empty(),
        },
        Pattern::Array(ps) => patterns_vars(ps@),
        Pattern::Cons { head, tail } => pattern_vars(head.node) + pattern_vars(tail.node),
        Pattern::Variant { args, .. } => patterns_vars(args@),
        Pattern::Or(ps) => patterns_vars(ps@),
        Pattern::Guarded { pattern, .. } => pattern_vars(pattern.node),
        Pattern::Typed { pattern, .. } => pattern_vars(pattern.node),
    }
}

/// The variables that a sequence of patterns binds, left to right.
pub open spec fn patterns_vars(ps: Seq<Spanned<Pattern>>) -> Seq<Ident>
    decreases ps,
{
    if ps.len() == 0 {
        Seq::empty()
    } else {
        patterns_vars(ps.drop_last()) + pattern_vars(ps.last().node)
    }
}

/// Whether some pattern of `ps` binds a variable.
pub open spec fn some_captures(ps: Seq<Spanned<Pattern>>) -> bool
    decreases ps,
{
    if ps.len() == 0 {
        false
    } else {
        some_captures(ps.drop_last()) || captures(ps.last().node)
    }
}

/// Whether a pattern binds a variable.
pub open spec fn captures(p: Pattern) -> bool
    decreases p,
{
    match p {
        Pattern::Var(_) => true,
        Pattern::Wildcard | Pattern::Literal(_) | Pattern::Range { .. } => false,
        Pattern::Tuple(ps) => some_captures(ps@),
        Pattern::List { elements, rest } => some_captures(elements@) || match rest {
            Some(r) => captures(r.node),
            None => false,
        },
        Pattern::Array(ps) => some_captures(ps@),
        Pattern::Cons { head, tail } => captures(head.node) || captures(tail.node),
        Pattern::Variant { args, .. } => some_captures(args@),
        Pattern::Or(ps) => some_captures(ps@),
        Pattern::Guarded { pattern, .. } => captures(pattern.node),
        Pattern::Typed { pattern, .. } => captures(pattern.node),
    }
}

/// A pattern binds a variable exactly when its list of bound variables is
/// not empty.
pub proof fn law_captures_iff_vars(p: Pattern)
    ensures
        captures(p) <==> pattern_vars(p).len() > 0,
    decreases p,
{
    match p {
        Pattern::Tuple(ps) => lemma_some_captures_iff(ps@),
        Pattern::List { elements, rest } => {
            lemma_some_captures_iff(elements@);
            if let Some(r) = rest {
                law_captures_iff_vars(r.node);
            }
        },
        Pattern::Array(ps) => lemma_some_captures_iff(ps@),
        Pattern::Cons { head, tail } => {
            law_captures_iff_vars(head.node);
            law_captures_iff_vars(tail.node);
        },
        Pattern::Variant { args, .. } => lemma_some_captures_iff(args@),
        Pattern::Or(ps) => lemma_some_captures_iff(ps@),
        Pattern::Guarded { pattern, .. } => law_captures_iff_vars(pattern.node),
        Pattern::Typed { pattern, .. } => law_captures_iff_vars(pattern.node),
        _ => {},
    }
}

proof fn lemma_some_captures_iff(ps: Seq<Spanned<Pattern>>)
    ensures
        some_captures(ps) <==> patterns_vars(ps).len() > 0,
    decreases ps,
{
    if ps.len() > 0 {
        lemma_some_captures_iff(ps.drop_last());
        law_captures_iff_vars(ps.last().node);
    }
}

/// `ps` followed by the patterns' displays joined by `sep`.
pub open spec fn patterns_display(ps: Seq<Spanned<Pattern>>, sep: Seq<char>) -> Seq<char>
    decreases ps,
{
    if ps.len() == 0 {
        Seq::empty()
    } else if ps.len() == 1 {
        pattern_display(ps[0].node)
    } else {
        patterns_display(ps.drop_last(), sep) + sep + pattern_display(ps.last().node)
    }
}

/// How a pattern is written.
pub open spec fn pattern_display(p: Pattern) -> Seq<char>
    decreases p,
{
    match p {
        Pattern::Literal(l) => literal_display(l@),
        Pattern::Var(v) => v@,
        Pattern::Wildcard => "_"@,
        Pattern::Tuple(ps) => "("@ + patterns_display(ps@, " "@) + ")"@,
        Pattern::List { elements, rest } => "["@ + patterns_display(elements@, " "@) + match rest {
            Some(r) => " ..."@ + pattern_display(r.node),
            None => Seq::empty(),
        } + "]"@,
        Pattern::Array(ps) => "{"@ + patterns_display(ps@, " "@) + "}"@,
        Pattern::Cons { head, tail } => pattern_display(head.node) + ":"@ + pattern_display(
            tail.node,
        ),
        Pattern::Variant { name, args } => if args.len() == 0 {
            name@
        } else {
            name@ + "("@ + patterns_display(args@, " "@) + ")"@
        },
        Pattern::Or(ps) => patterns_display(ps@, " | "@),
        Pattern::Guarded { pattern, condition } => pattern_display(pattern.node) + " where "@
            + pattern_display(condition.node),
        Pattern::Typed { pattern, type_annotation } => pattern_display(pattern.node) + "::"@
            + type_display(type_annotation@),
        Pattern::Range { start, end, inclusive } => if inclusive {
            "["@ + literal_display(start@) + "..="@ + literal_display(end@) + "]"@
        } else {
            "["@ + literal_display(start@) + ".."@ + literal_display(end@) + "]"@
        },
    }
}

fn some_captures_exec(ps: &Vec<Spanned<Pattern>>) -> (r: bool)
    ensures
        r == some_captures(ps@),
    decreases ps,
{
    let mut i: usize = 0;
    while i < ps.len()
        invariant
            i <= ps.len(),
            !some_captures(ps@.take(i as int)),
        decreases ps.len() - i,
    {
        assert(ps@.take(i + 1).drop_last() =~= ps@.take(i as int));
        if captures_exec(&ps[i].node) {
            proof {
                lemma_some_captures_prefix(ps@, i + 1);
            }
            return true;
        }
        i = i + 1;
    }
    assert(ps@.take(ps@.len() as int) =~= ps@);
    false
}

proof fn lemma_some_captures_prefix(ps: Seq<Spanned<Pattern>>, n: int)
    requires
        0 <= n <= ps.len(),
        some_captures(ps.take(n)),
    ensures
        some_captures(ps),
    decreases ps.len() - n,
{
    if n < ps.len() {
        assert(ps.take(n + 1).drop_last() =~= ps.take(n));
        lemma_some_captures_prefix(ps, n + 1);
    } else {
        assert(ps.take(n) =~= ps);
    }
}

fn captures_exec(p: &Pattern) -> (r: bool)
    ensures
        r == captures(*p),
    decreases p,
{
    match p {
        Pattern::Var(_) => true,
        Pattern::Wildcard | Pattern::Literal(_) | Pattern::Range { .. } => false,
        Pattern::Tuple(ps) => some_captures_exec(ps),
        Pattern::List { elements, rest } => {
            if some_captures_exec(elements) {
                true
            } else {
                match rest {
                    Some(r) => captures_exec(&r.node),
                    None => false,
                }
            }
        },
        Pattern::Array(ps) => some_captures_exec(ps),
        Pattern::Cons { head, tail } => captures_exec(&head.node) || captures_exec(&tail.node),
        Pattern::Variant { args, .. } => some_captures_exec(args),
        Pattern::Or(ps) => some_captures_exec(ps),
        Pattern::Guarded { pattern, .. } => captures_exec(&pattern.node),
        Pattern::Typed { pattern, .. } => captures_exec(&pattern.node),
    }
}

/// The identifiers that a sequence of references points to.
pub open spec fn deref_idents(s: Seq<&Ident>) -> Seq<Ident> {
    s.map_values(|x: &Ident| *x)
}

fn collect_patterns_vars<'a>(ps: &'a Vec<Spanned<Pattern>>, vars: &mut Vec<&'a Ident>)
    ensures
        deref_idents(final(vars)@) == deref_idents(old(vars)@) + patterns_vars(ps@),
    decreases ps,
{
    let ghost start = deref_idents(vars@);
    let mut i: usize = 0;
    assert(ps@.take(0) =~= Seq::<Spanned<Pattern>>::empty());
    assert(deref_idents(vars@) =~= start + patterns_vars(ps@.take(0)));
    while i < ps.len()
        invariant
            i <= ps.len(),
            deref_idents(vars@) == start + patterns_vars(ps@.take(i as int)),
        decreases ps.len() - i,
    {
        assert(ps@.take(i + 1).drop_last() =~= ps@.take(i as int));
        collect_vars(&ps[i].node, vars);
        assert(deref_idents(vars@) =~= start + patterns_vars(ps@.take(i + 1)));
        i = i + 1;
    }
    assert(ps@.take(ps@.len() as int) =~= ps@);
}

fn collect_vars<'a>(p: &'a Pattern, vars: &mut Vec<&'a Ident>)
    ensures
        deref_idents(final(vars)@) == deref_idents(old(vars)@) + pattern_vars(*p),
    decreases p,
{
    match p {
        Pattern::Var(v) => {
            vars.push(v);
            assert(deref_idents(vars@) =~= deref_idents(old(vars)@).push(*v));
        },
        Pattern::Wildcard | Pattern::Literal(_) | Pattern::Range { .. } => {},
        Pattern::Tuple(ps) => collect_patterns_vars(ps, vars),
        Pattern::List { elements, rest } => {
            collect_patterns_vars(elements, vars);
            let ghost mid = deref_idents(vars@);
            match rest {
                Some(r) => collect_vars(&r.node, vars),
                None => {},
            }
        },
        Pattern::Array(ps) => collect_patterns_vars(ps, vars),
        Pattern::Cons { head, tail } => {
            collect_vars(&head.node, vars);
            collect_vars(&tail.node, vars);
        },
        Pattern::Variant { args, .. } => collect_patterns_vars(args, vars),
        Pattern::Or(ps) => collect_patterns_vars(ps, vars),
        Pattern::Guarded { pattern, .. } => collect_vars(&pattern.node, vars),
        Pattern::Typed { pattern, .. } => collect_vars(&pattern.node, vars),
    }
    assert(deref_idents(vars@) =~= deref_idents(old(vars)@) + pattern_vars(*p));
}

/// `out` followed by the displays of `ps` joined by `sep`.
pub fn push_patterns_display(out: &mut Vec<char>, ps: &Vec<Spanned<Pattern>>, sep: &str)
    ensures
        final(out)@ == old(out)@ + patterns_display(ps@, sep@),
    decreases ps,
{
    let ghost start = out@;
    let mut i: usize = 0;
    assert(ps@.take(0) =~= Seq::<Spanned<Pattern>>::empty());
    assert(out@ =~= start + patterns_display(ps@.take(0), sep@));
    while i < ps.len()
        invariant
            i <= ps.len(),
            out@ == start + patterns_display(ps@.take(i as int), sep@),
        decreases ps.len() - i,
    {
        assert(ps@.take(i + 1).drop_last() =~= ps@.take(i as int));
        if i > 0 {
            push_str(out, sep);
        }
        push_pattern_display(out, &ps[i].node);
        assert(out@ =~= start + patterns_display(ps@.take(i + 1), sep@));
        i = i + 1;
    }
    assert(ps@.take(ps@.len() as int) =~= ps@);
}

/// `out` followed by the display of `p`.
pub fn push_pattern_display(out: &mut Vec<char>, p: &Pattern)
    ensures
        final(out)@ == old(out)@ + pattern_display(*p),
    decreases p,
{
    match p {
        Pattern::Literal(l) => l.push_display(out),
        Pattern::Var(v) => push_str(out, v.0.as_str()),
        Pattern::Wildcard => push_str(out, "_"),
        Pattern::Tuple(ps) => {
            push_str(out, "(");
            push_patterns_display(out, ps, " ");
            push_str(out, ")");
        },
        Pattern::List { elements, rest } => {
            push_str(out, "[");
            push_patterns_display(out, elements, " ");
            match rest {
                Some(r) => {
                    push_str(out, " ...");
                    push_pattern_display(out, &r.node);
                },
                None => {},
            }
            push_str(out, "]");
        },
        Pattern::Array(ps) => {
            push_str(out, "{");
            push_patterns_display(out, ps, " ");
            push_str(out, "}");
        },
        Pattern::Cons { head, tail } => {
            push_pattern_display(out, &head.node);
            push_str(out, ":");
            push_pattern_display(out, &tail.node);
        },
        Pattern::Variant { name, args } => {
            push_str(out, name.0.as_str());
            if args.len() > 0 {
                push_str(out, "(");
                push_patterns_display(out, args, " ");
                push_str(out, ")");
            }
        },
        Pattern::Or(ps) => push_patterns_display(out, ps, " | "),
        Pattern::Guarded { pattern, condition } => {
            push_pattern_display(out, &pattern.node);
            push_str(out, " where ");
            push_pattern_display(out, &condition.node);
        },
        Pattern::Typed { pattern, type_annotation } => {
            push_pattern_display(out, &pattern.node);
            push_str(out, "::");
            push_type_display(out, type_annotation);
        },
        Pattern::Range { start, end, inclusive } => {
            push_str(out, "[");
            start.push_display(out);
            if *inclusive {
                push_str(out, "..=");
            } else {
                push_str(out, "..");
            }
            end.push_display(out);
            push_str(out, "]");
        },
    }
    assert(out@ =~= old(out)@ + pattern_display(*p));
}

impl Pattern {
    /// The literal pattern `lit`.
    pub fn literal(lit: Literal) -> (r: Pattern)
        ensures
            r == Pattern::Literal(lit),
    {
        Pattern::Literal(lit)
    }

    /// The variable pattern `name`.
    pub fn var(name: &str) -> (r: Pattern)
        ensures
            r matches Pattern::Var(v) && v@ == name@,
    {
        Pattern::Var(Ident::new(name))
    }

    /// The wildcard pattern `_`.
    pub fn wildcard() -> (r: Pattern)
        ensures
            r == Pattern::Wildcard,
    {
        Pattern::Wildcard
    }

    /// Whether the pattern binds any variable.
    pub fn captures_variables(&self) -> (r: bool)
        ensures
            r == captures(*self),
            r == (pattern_vars(*self).len() > 0),
    {
        proof {
            law_captures_iff_vars(*self);
        }
        captures_exec(self)
    }

    /// The variables the pattern binds, left to right.
    pub fn captured_variables(&self) -> (r: Vec<&Ident>)
        ensures
            deref_idents(r@) == pattern_vars(*self),
    {
        let mut vars: Vec<&Ident> = Vec::new();
        collect_vars(self, &mut vars);
        assert(deref_idents(vars@) =~= pattern_vars(*self));
        vars
    }

    /// The pattern as written.
    pub fn to_string(&self) -> (r: String)
        ensures
            r@ == pattern_display(*self),
    {
        let mut out: Vec<char> = Vec::new();
        push_pattern_display(&mut out, self);
        assert(out@ =~= pattern_display(*self));
        string_from_chars(&out)
    }
}

/// A guard in pattern matching.
#[derive(Debug, Clone, PartialEq)]
pub enum Guard {
    /// A named condition.
    Condition(Ident),
    /// The default branch.
    Otherwise,
}

pub open spec fn guard_display(g: Guard) -> Seq<char> {
    match g {
        Guard::Condition(c) => c@,
        Guard::Otherwise => "otherwise"@,
    }
}

impl Guard {
    /// The guard as written.
    pub fn to_string(&self) -> (r: String)
        ensures
            r@ == guard_display(*self),
    {
        let mut out: Vec<char> = Vec::new();
        match self {
            Guard::Condition(c) => push_str(&mut out, c.0.as_str()),
            Guard::Otherwise => push_str(&mut out, "otherwise"),
        }
        assert(out@ =~= guard_display(*self));
        string_from_chars(&out)
    }
}

} // verus!
