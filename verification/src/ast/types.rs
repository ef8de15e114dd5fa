//! Type expressions, refinement predicates and function signatures.
//!
//! Types such as `Int`, `Float`, `Text` are not built in: they are names that
//! implement interfaces such as `NUM`, `ORD`, `EQ`.

use vstd::prelude::*;
use vstd::string::StringExecFns;
use crate::ast::id::{Ident, QualifiedIdent, qualified_display};
use crate::text::{string_from_chars, push_str, push_signed_decimal, signed_decimal};

verus! {

broadcast use vstd::string::group_string_axioms;

// =============================================================================
// TYPES
// =============================================================================

/// A type expression.
#[derive(Debug, PartialEq, Eq)]
pub enum Type {
    /// Named type with optional generic parameters: `Int`, `List::T`, `Result::T::E`.
    Named { name: QualifiedIdent, params: Vec<Type> },
    /// Type variable: `T`, `K`, `V`.
    Var(Ident),
    /// Tuple type: `(A B C)`.
    Tuple(Vec<Type>),
    /// Function type: `A -> B`, `(A B) -> C`.
    Function { params: Vec<Type>, return_type: Box<Type> },
    /// Refined type: `(Int, > _ 0)`.
    Refined { base: Box<Type>, predicate: Predicate },
}

/// Predicate of a refined type.
#[derive(Debug, PartialEq, Eq)]
pub enum Predicate {
    /// Comparison with the hole: `> _ 0`.
    Comparison { op: CompareOp, value: LiteralValue },
    /// Range check: `<= _ 25.0`.
    Range { op: CompareOp, value: LiteralValue },
    /// Exclusion: `except Complex`.
    Except(QualifiedIdent),
    /// Conjunction of predicates.
    And(Vec<Predicate>),
}

/// Comparison operator of a predicate.
#[derive(Debug, Clone, Copy, PartialEq, Eq)]
pub enum CompareOp {
    Gt,
    Gte,
    Lt,
    Lte,
    Eq,
    Neq,
}

/// Literal value in a predicate.
#[derive(Debug, Clone, PartialEq, Eq)]
pub enum LiteralValue {
    Int(i64),
    /// Float text, kept as written.
    Float(String),
    Bool(bool),
}

/// The mathematical content of a literal value.
pub enum LiteralValueView {
    Int(i64),
    Float(Seq<char>),
    Bool(bool),
}

/// The mathematical content of a predicate.
pub enum PredicateView {
    Comparison { op: CompareOp, value: LiteralValueView },
    Range { op: CompareOp, value: LiteralValueView },
    Except((Option<Seq<char>>, Seq<char>)),
    And(Seq<PredicateView>),
}

/// The mathematical content of a type: names as character sequences.
pub enum TypeView {
    Named { name: (Option<Seq<char>>, Seq<char>), params: Seq<TypeView> },
    Var(Seq<char>),
    Tuple(Seq<TypeView>),
    Function { params: Seq<TypeView>, ret: Box<TypeView> },
    Refined { base: Box<TypeView>, predicate: PredicateView },
}

pub open spec fn literal_value_view(v: LiteralValue) -> LiteralValueView {
    match v {
        LiteralValue::Int(n) => LiteralValueView::Int(n),
        LiteralValue::Float(s) => LiteralValueView::Float(s@),
        LiteralValue::Bool(b) => LiteralValueView::Bool(b),
    }
}

pub open spec fn predicate_view(p: Predicate) -> PredicateView
    decreases p,
{
    match p {
        Predicate::Comparison { op, value } => PredicateView::Comparison {
            op,
            value: literal_value_view(value),
        },
        Predicate::Range { op, value } => PredicateView::Range { op, value: literal_value_view(value) },
        Predicate::Except(q) => PredicateView::Except(q@),
        Predicate::And(ps) => PredicateView::And(predicates_view(ps@)),
    }
}

pub open spec fn predicates_view(ps: Seq<Predicate>) -> Seq<PredicateView>
    decreases ps,
{
    if ps.len() == 0 {
        Seq::empty()
    } else {
        predicates_view(ps.drop_last()).push(predicate_view(ps.last()))
    }
}

pub open spec fn type_view(t: Type) -> TypeView
    decreases t,
{
    match t {
        Type::Named { name, params } => TypeView::Named { name: name@, params: types_view(params@) },
        Type::Var(v) => TypeView::Var(v@),
        Type::Tuple(ts) => TypeView::Tuple(types_view(ts@)),
        Type::Function { params, return_type } => TypeView::Function {
            params: types_view(params@),
            ret: Box::new(type_view(*return_type)),
        },
        Type::Refined { base, predicate } => TypeView::Refined {
            base: Box::new(type_view(*base)),
            predicate: predicate_view(predicate),
        },
    }
}

pub open spec fn types_view(ts: Seq<Type>) -> Seq<TypeView>
    decreases ts,
{
    if ts.len() == 0 {
        Seq::empty()
    } else {
        types_view(ts.drop_last()).push(type_view(ts.last()))
    }
}

impl View for Type {
    type V = TypeView;

    open spec fn view(&self) -> TypeView {
        type_view(*self)
    }
}

impl View for Predicate {
    type V = PredicateView;

    open spec fn view(&self) -> PredicateView {
        predicate_view(*self)
    }
}

impl View for LiteralValue {
    type V = LiteralValueView;

    open spec fn view(&self) -> LiteralValueView {
        literal_value_view(*self)
    }
}

pub proof fn lemma_types_view_len(ts: Seq<Type>)
    ensures
        types_view(ts).len() == ts.len(),
    decreases ts.len(),
{
    if ts.len() > 0 {
        lemma_types_view_len(ts.drop_last());
    }
}

pub proof fn lemma_types_view_index(ts: Seq<Type>, i: int)
    requires
        0 <= i < ts.len(),
    ensures
        types_view(ts)[i] == type_view(ts[i]),
        types_view(ts).len() == ts.len(),
    decreases ts.len(),
{
    lemma_types_view_len(ts);
    if i < ts.len() - 1 {
        lemma_types_view_index(ts.drop_last(), i);
    }
}

pub proof fn lemma_types_view_push(ts: Seq<Type>, t: Type)
    ensures
        types_view(ts.push(t)) == types_view(ts).push(type_view(t)),
{
    assert(ts.push(t).drop_last() =~= ts);
}

pub proof fn lemma_predicates_view_push(ps: Seq<Predicate>, p: Predicate)
    ensures
        predicates_view(ps.push(p)) == predicates_view(ps).push(predicate_view(p)),
{
    assert(ps.push(p).drop_last() =~= ps);
}

pub proof fn lemma_predicates_view_index(ps: Seq<Predicate>, i: int)
    requires
        0 <= i < ps.len(),
    ensures
        predicates_view(ps)[i] == predicate_view(ps[i]),
        predicates_view(ps).len() == ps.len(),
    decreases ps.len(),
{
    lemma_predicates_view_len(ps);
    if i < ps.len() - 1 {
        lemma_predicates_view_index(ps.drop_last(), i);
    }
}

pub proof fn lemma_predicates_view_len(ps: Seq<Predicate>)
    ensures
        predicates_view(ps).len() == ps.len(),
    decreases ps.len(),
{
    if ps.len() > 0 {
        lemma_predicates_view_len(ps.drop_last());
    }
}

// =============================================================================
// DISPLAY
// =============================================================================

pub open spec fn compare_op_display(op: CompareOp) -> Seq<char> {
    match op {
        CompareOp::Gt => ">"@,
        CompareOp::Gte => ">="@,
        CompareOp::Lt => "<"@,
        CompareOp::Lte => "<="@,
        CompareOp::Eq => "="@,
        CompareOp::Neq => "!="@,
    }
}

pub open spec fn literal_value_display(v: LiteralValueView) -> Seq<char> {
    match v {
        LiteralValueView::Int(n) => signed_decimal(n as int),
        LiteralValueView::Float(s) => s,
        LiteralValueView::Bool(b) => if b {
            "true"@
        } else {
            "false"@
        },
    }
}

/// How a predicate is written: `> _ 0`, `except Complex`, or the parts of a
/// conjunction separated by spaces.
pub open spec fn predicate_display(p: PredicateView) -> Seq<char>
    decreases p,
{
    match p {
        PredicateView::Comparison { op, value } => compare_op_display(op) + " _ "@
            + literal_value_display(value),
        PredicateView::Range { op, value } => compare_op_display(op) + " _ "@
            + literal_value_display(value),
        PredicateView::Except(q) => "except "@ + qualified_display(q),
        PredicateView::And(ps) => predicates_display(ps),
    }
}

pub open spec fn predicates_display(ps: Seq<PredicateView>) -> Seq<char>
    decreases ps,
{
    if ps.len() == 0 {
        Seq::empty()
    } else if ps.len() == 1 {
        predicate_display(ps[0])
    } else {
        predicates_display(ps.drop_last()) + " "@ + predicate_display(ps.last())
    }
}

/// The displays of `ts` joined by `sep`.
pub open spec fn types_display(ts: Seq<TypeView>, sep: Seq<char>) -> Seq<char>
    decreases ts,
{
    if ts.len() == 0 {
        Seq::empty()
    } else if ts.len() == 1 {
        type_display(ts[0])
    } else {
        types_display(ts.drop_last(), sep) + sep + type_display(ts.last())
    }
}

/// How a type is written: `Int`, `Result::Int::E`, `(Int Float)`,
/// `Int -> Bool`, `(Int Int) -> Int`, `(Int, > _ 0)`.
pub open spec fn type_display(t: TypeView) -> Seq<char>
    decreases t,
{
    match t {
        TypeView::Named { name, params } => if params.len() == 0 {
            qualified_display(name)
        } else {
            qualified_display(name) + "::"@ + types_display(params, "::"@)
        },
        TypeView::Var(v) => v,
        TypeView::Tuple(ts) => "("@ + types_display(ts, " "@) + ")"@,
        TypeView::Function { params, ret } => if params.len() == 1 {
            type_display(params[0]) + " -> "@ + type_display(*ret)
        } else {
            "("@ + types_display(params, " "@) + ") -> "@ + type_display(*ret)
        },
        TypeView::Refined { base, predicate } => "("@ + type_display(*base) + ", "@
            + predicate_display(predicate) + ")"@,
    }
}

impl CompareOp {
    /// The operator's symbol.
    pub fn to_string(&self) -> (r: String)
        ensures
            r@ == compare_op_display(*self),
    {
        match self {
            CompareOp::Gt => String::from_str(">"),
            CompareOp::Gte => String::from_str(">="),
            CompareOp::Lt => String::from_str("<"),
            CompareOp::Lte => String::from_str("<="),
            CompareOp::Eq => String::from_str("="),
            CompareOp::Neq => String::from_str("!="),
        }
    }
}

fn push_compare_op(out: &mut Vec<char>, op: CompareOp)
    ensures
        final(out)@ == old(out)@ + compare_op_display(op),
{
    let s = op.to_string();
    push_str(out, s.as_str());
}

impl LiteralValue {
    /// `out` followed by the value as written.
    pub fn push_display(&self, out: &mut Vec<char>)
        ensures
            final(out)@ == old(out)@ + literal_value_display(self@),
    {
        match self {
            LiteralValue::Int(n) => push_signed_decimal(out, *n),
            LiteralValue::Float(s) => push_str(out, s.as_str()),
            LiteralValue::Bool(b) => if *b {
                push_str(out, "true")
            } else {
                push_str(out, "false")
            },
        }
    }

    /// The value as written.
    pub fn to_string(&self) -> (r: String)
        ensures
            r@ == literal_value_display(self@),
    {
        let mut out: Vec<char> = Vec::new();
        self.push_display(&mut out);
        assert(out@ =~= literal_value_display(self@));
        string_from_chars(&out)
    }

    /// A copy of this value.
    pub fn copy(&self) -> (r: LiteralValue)
        ensures
            r == *self,
    {
        match self {
            LiteralValue::Int(n) => LiteralValue::Int(*n),
            LiteralValue::Float(s) => LiteralValue::Float(s.clone()),
            LiteralValue::Bool(b) => LiteralValue::Bool(*b),
        }
    }
}

/// `out` followed by the predicate `p` as written.
pub fn push_predicate_display(out: &mut Vec<char>, p: &Predicate)
    ensures
        final(out)@ == old(out)@ + predicate_display(p@),
    decreases p,
{
    match p {
        Predicate::Comparison { op, value } => {
            push_compare_op(out, *op);
            push_str(out, " _ ");
            value.push_display(out);
        },
        Predicate::Range { op, value } => {
            push_compare_op(out, *op);
            push_str(out, " _ ");
            value.push_display(out);
        },
        Predicate::Except(q) => {
            push_str(out, "except ");
            let qs = q.to_string();
            push_str(out, qs.as_str());
        },
        Predicate::And(ps) => push_predicates_display(out, ps),
    }
    assert(out@ =~= old(out)@ + predicate_display(p@));
}

/// A copy of the predicate `p`.
pub fn copy_predicate(p: &Predicate) -> (r: Predicate)
    ensures
        r@ == p@,
    decreases p,
{
    match p {
        Predicate::Comparison { op, value } => Predicate::Comparison { op: *op, value: value.copy() },
        Predicate::Range { op, value } => Predicate::Range { op: *op, value: value.copy() },
        Predicate::Except(q) => Predicate::Except(q.copy()),
        Predicate::And(ps) => Predicate::And(copy_predicates(ps)),
    }
}

/// A copy of a vector of predicates.
pub fn copy_predicates(ps: &Vec<Predicate>) -> (r: Vec<Predicate>)
    ensures
        predicates_view(r@) == predicates_view(ps@),
    decreases ps,
{
    let mut r: Vec<Predicate> = Vec::new();
    let mut i: usize = 0;
    while i < ps.len()
        invariant
            i <= ps.len(),
            predicates_view(r@) == predicates_view(ps@.take(i as int)),
        decreases ps.len() - i,
    {
        proof {
            assert(ps@.take(i + 1) =~= ps@.take(i as int).push(ps@[i as int]));
            lemma_predicates_view_push(ps@.take(i as int), ps@[i as int]);
        }
        let c = copy_predicate(&ps[i]);
        proof {
            lemma_predicates_view_push(r@, c);
        }
        r.push(c);
        i = i + 1;
    }
    proof {
        assert(ps@.take(ps@.len() as int) =~= ps@);
    }
    r
}

/// `out` followed by the predicates `ps` separated by spaces.
pub fn push_predicates_display(out: &mut Vec<char>, ps: &Vec<Predicate>)
    ensures
        final(out)@ == old(out)@ + predicates_display(predicates_view(ps@)),
    decreases ps,
{
    let ghost start = out@;
    let mut i: usize = 0;
    proof {
        lemma_predicates_view_len(ps@);
        assert(ps@.take(0) =~= Seq::<Predicate>::empty());
        assert(out@ =~= start + predicates_display(predicates_view(ps@.take(0))));
    }
    while i < ps.len()
        invariant
            i <= ps.len(),
            out@ == start + predicates_display(predicates_view(ps@.take(i as int))),
        decreases ps.len() - i,
    {
        proof {
            assert(ps@.take(i + 1) =~= ps@.take(i as int).push(ps@[i as int]));
            lemma_predicates_view_push(ps@.take(i as int), ps@[i as int]);
            lemma_predicates_view_len(ps@.take(i as int));
        }
        if i > 0 {
            push_str(out, " ");
        }
        push_predicate_display(out, &ps[i]);
        proof {
            let pv = predicates_view(ps@.take(i + 1));
            assert(pv.drop_last() == predicates_view(ps@.take(i as int)));
            assert(out@ =~= start + predicates_display(pv));
        }
        i = i + 1;
    }
    proof {
        assert(ps@.take(ps@.len() as int) =~= ps@);
    }
}

impl Predicate {
    /// The predicate as written.
    pub fn to_string(&self) -> (r: String)
        ensures
            r@ == predicate_display(self@),
    {
        let mut out: Vec<char> = Vec::new();
        push_predicate_display(&mut out, self);
        assert(out@ =~= predicate_display(self@));
        string_from_chars(&out)
    }

    /// A copy of this predicate.
    pub fn copy(&self) -> (r: Predicate)
        ensures
            r@ == self@,
    {
        copy_predicate(self)
    }
}

/// A copy of a type.
pub fn copy_type(t: &Type) -> (r: Type)
    ensures
        r@ == t@,
    decreases t,
{
    match t {
        Type::Named { name, params } => Type::Named { name: name.copy(), params: copy_types(params) },
        Type::Var(v) => Type::Var(v.copy()),
        Type::Tuple(ts) => Type::Tuple(copy_types(ts)),
        Type::Function { params, return_type } => Type::Function {
            params: copy_types(params),
            return_type: Box::new(copy_type(return_type)),
        },
        Type::Refined { base, predicate } => Type::Refined {
            base: Box::new(copy_type(base)),
            predicate: copy_predicate(predicate),
        },
    }
}

/// A copy of a vector of types.
pub fn copy_types(ts: &Vec<Type>) -> (r: Vec<Type>)
    ensures
        types_view(r@) == types_view(ts@),
    decreases ts,
{
    let mut r: Vec<Type> = Vec::new();
    let mut i: usize = 0;
    while i < ts.len()
        invariant
            i <= ts.len(),
            types_view(r@) == types_view(ts@.take(i as int)),
        decreases ts.len() - i,
    {
        proof {
            assert(ts@.take(i + 1) =~= ts@.take(i as int).push(ts@[i as int]));
            lemma_types_view_push(ts@.take(i as int), ts@[i as int]);
        }
        let c = copy_type(&ts[i]);
        proof {
            lemma_types_view_push(r@, c);
        }
        r.push(c);
        i = i + 1;
    }
    proof {
        assert(ts@.take(ts@.len() as int) =~= ts@);
    }
    r
}

/// `out` followed by the displays of `ts` joined by `sep`.
pub fn push_types_display(out: &mut Vec<char>, ts: &Vec<Type>, sep: &str)
    ensures
        final(out)@ == old(out)@ + types_display(types_view(ts@), sep@),
    decreases ts,
{
    let ghost start = out@;
    let mut i: usize = 0;
    proof {
        assert(ts@.take(0) =~= Seq::<Type>::empty());
        assert(out@ =~= start + types_display(types_view(ts@.take(0)), sep@));
    }
    while i < ts.len()
        invariant
            i <= ts.len(),
            out@ == start + types_display(types_view(ts@.take(i as int)), sep@),
        decreases ts.len() - i,
    {
        proof {
            assert(ts@.take(i + 1) =~= ts@.take(i as int).push(ts@[i as int]));
            lemma_types_view_push(ts@.take(i as int), ts@[i as int]);
            lemma_types_view_len(ts@.take(i as int));
        }
        if i > 0 {
            push_str(out, sep);
        }
        push_type_display(out, &ts[i]);
        proof {
            let tv = types_view(ts@.take(i + 1));
            if i == 0 {
                assert(out@ =~= start + types_display(tv, sep@));
            } else {
                assert(tv.drop_last() == types_view(ts@.take(i as int)));
                assert(out@ =~= start + types_display(tv, sep@));
            }
        }
        i = i + 1;
    }
    proof {
        assert(ts@.take(ts@.len() as int) =~= ts@);
    }
}

/// `out` followed by the display of `t`.
pub fn push_type_display(out: &mut Vec<char>, t: &Type)
    ensures
        final(out)@ == old(out)@ + type_display(t@),
    decreases t,
{
    match t {
        Type::Named { name, params } => {
            let q = name.to_string();
            push_str(out, q.as_str());
            proof {
                lemma_types_view_len(params@);
            }
            if params.len() > 0 {
                push_str(out, "::");
                push_types_display(out, params, "::");
            }
        },
        Type::Var(v) => push_str(out, v.0.as_str()),
        Type::Tuple(ts) => {
            push_str(out, "(");
            push_types_display(out, ts, " ");
            push_str(out, ")");
        },
        Type::Function { params, return_type } => {
            proof {
                lemma_types_view_len(params@);
            }
            if params.len() == 1 {
                proof {
                    lemma_types_view_index(params@, 0);
                }
                push_type_display(out, &params[0]);
                push_str(out, " -> ");
                push_type_display(out, return_type);
            } else {
                push_str(out, "(");
                push_types_display(out, params, " ");
                push_str(out, ") -> ");
                push_type_display(out, return_type);
            }
        },
        Type::Refined { base, predicate } => {
            push_str(out, "(");
            push_type_display(out, base);
            push_str(out, ", ");
            push_predicate_display(out, predicate);
            push_str(out, ")");
        },
    }
    assert(out@ =~= old(out)@ + type_display(t@));
}

impl Type {
    /// The type `name`, without parameters.
    pub fn named(name: &str) -> (r: Type)
        ensures
            r@ == (TypeView::Named { name: (None, name@), params: Seq::empty() }),
    {
        let r = Type::Named { name: QualifiedIdent::simple(name), params: Vec::new() };
        assert(types_view(Seq::<Type>::empty()) =~= Seq::<TypeView>::empty());
        r
    }

    /// The type `name` with generic parameters `params`.
    pub fn generic(name: &str, params: Vec<Type>) -> (r: Type)
        ensures
            r@ == (TypeView::Named { name: (None, name@), params: types_view(params@) }),
    {
        Type::Named { name: QualifiedIdent::simple(name), params }
    }

    /// The type variable `name`.
    pub fn var(name: &str) -> (r: Type)
        ensures
            r@ == TypeView::Var(name@),
    {
        Type::Var(Ident::new(name))
    }

    /// The tuple of `types`.
    pub fn tuple(types: Vec<Type>) -> (r: Type)
        ensures
            r@ == TypeView::Tuple(types_view(types@)),
    {
        Type::Tuple(types)
    }

    /// The function type from `params` to `return_type`.
    pub fn function(params: Vec<Type>, return_type: Type) -> (r: Type)
        ensures
            r@ == (TypeView::Function {
                params: types_view(params@),
                ret: Box::new(return_type@),
            }),
    {
        Type::Function { params, return_type: Box::new(return_type) }
    }

    /// `base` refined by `predicate`.
    pub fn refined(base: Type, predicate: Predicate) -> (r: Type)
        ensures
            r@ == (TypeView::Refined { base: Box::new(base@), predicate: predicate@ }),
    {
        Type::Refined { base: Box::new(base), predicate }
    }

    /// Whether this is a type variable.
    pub fn is_var(&self) -> (r: bool)
        ensures
            r == (self@ is Var),
    {
        matches!(self, Type::Var(_))
    }

    /// Whether this is a named type without parameters.
    pub fn is_simple(&self) -> (r: bool)
        ensures
            r == (self@ matches TypeView::Named { params, .. } && params.len() == 0),
    {
        proof {
            if let Type::Named { params, .. } = self {
                lemma_types_view_len(params@);
            }
        }
        match self {
            Type::Named { params, .. } => params.len() == 0,
            _ => false,
        }
    }

    /// The type as written.
    pub fn to_string(&self) -> (r: String)
        ensures
            r@ == type_display(self@),
    {
        let mut out: Vec<char> = Vec::new();
        push_type_display(&mut out, self);
        assert(out@ =~= type_display(self@));
        string_from_chars(&out)
    }
}

// =============================================================================
// FUNCTION SIGNATURE
// =============================================================================

/// Function signature: `Arg1 Arg2 => Return`.
#[derive(Debug, PartialEq)]
pub struct FunctionSig {
    /// Parameter types (left of `=>`).
    pub params: Vec<Type>,
    /// Return type (right of `=>`).
    pub return_type: Type,
}

/// The mathematical content of a signature.
pub struct FunctionSigView {
    pub params: Seq<TypeView>,
    pub ret: TypeView,
}

impl View for FunctionSig {
    type V = FunctionSigView;

    open spec fn view(&self) -> FunctionSigView {
        FunctionSigView { params: types_view(self.params@), ret: self.return_type@ }
    }
}

/// How a signature is written: the return type alone when there are no
/// parameters, else `P1 P2 => R`.
pub open spec fn sig_display(s: FunctionSigView) -> Seq<char> {
    if s.params.len() == 0 {
        type_display(s.ret)
    } else {
        types_display(s.params, " "@) + " => "@ + type_display(s.ret)
    }
}

impl FunctionSig {
    /// The signature from `params` to `return_type`.
    pub fn new(params: Vec<Type>, return_type: Type) -> (r: FunctionSig)
        ensures
            r.params == params,
            r.return_type == return_type,
    {
        FunctionSig { params, return_type }
    }

    /// The signature with no parameters.
    pub fn nullary(return_type: Type) -> (r: FunctionSig)
        ensures
            r.params@.len() == 0,
            r.return_type == return_type,
    {
        FunctionSig { params: Vec::new(), return_type }
    }

    /// The signature with one parameter.
    pub fn unary(param: Type, return_type: Type) -> (r: FunctionSig)
        ensures
            r.params@ == seq![param],
            r.return_type == return_type,
    {
        let mut params: Vec<Type> = Vec::new();
        params.push(param);
        FunctionSig { params, return_type }
    }

    /// The signature with two parameters.
    pub fn binary(param1: Type, param2: Type, return_type: Type) -> (r: FunctionSig)
        ensures
            r.params@ == seq![param1, param2],
            r.return_type == return_type,
    {
        let mut params: Vec<Type> = Vec::new();
        params.push(param1);
        params.push(param2);
        assert(params@ =~= seq![param1, param2]);
        FunctionSig { params, return_type }
    }

    /// The number of parameters.
    pub fn arity(&self) -> (r: usize)
        ensures
            r == self.params@.len(),
    {
        self.params.len()
    }

    /// The function type of this signature.
    pub fn to_type(&self) -> (r: Type)
        ensures
            r@ == (TypeView::Function { params: self@.params, ret: Box::new(self@.ret) }),
    {
        Type::function(copy_types(&self.params), copy_type(&self.return_type))
    }

    /// The signature as written.
    pub fn to_string(&self) -> (r: String)
        ensures
            r@ == sig_display(self@),
    {
        let mut out: Vec<char> = Vec::new();
        proof {
            lemma_types_view_len(self.params@);
        }
        if self.params.len() == 0 {
            push_type_display(&mut out, &self.return_type);
        } else {
            push_types_display(&mut out, &self.params, " ");
            push_str(&mut out, " => ");
            push_type_display(&mut out, &self.return_type);
        }
        assert(out@ =~= sig_display(self@));
        string_from_chars(&out)
    }

    /// A copy of this signature.
    pub fn copy(&self) -> (r: FunctionSig)
        ensures
            r@ == self@,
    {
        FunctionSig { params: copy_types(&self.params), return_type: copy_type(&self.return_type) }
    }
}

// =============================================================================
// EQUALITY
// =============================================================================

fn compare_op_eq(a: CompareOp, b: CompareOp) -> (r: bool)
    ensures
        r == (a == b),
{
    match (a, b) {
        (CompareOp::Gt, CompareOp::Gt) => true,
        (CompareOp::Gte, CompareOp::Gte) => true,
        (CompareOp::Lt, CompareOp::Lt) => true,
        (CompareOp::Lte, CompareOp::Lte) => true,
        (CompareOp::Eq, CompareOp::Eq) => true,
        (CompareOp::Neq, CompareOp::Neq) => true,
        _ => false,
    }
}

fn literal_value_eq(a: &LiteralValue, b: &LiteralValue) -> (r: bool)
    ensures
        r == (a@ == b@),
{
    match (a, b) {
        (LiteralValue::Int(x), LiteralValue::Int(y)) => *x == *y,
        (LiteralValue::Float(x), LiteralValue::Float(y)) => *x == *y,
        (LiteralValue::Bool(x), LiteralValue::Bool(y)) => *x == *y,
        _ => false,
    }
}

/// Whether two qualified names are the same.
pub fn qualified_eq(a: &QualifiedIdent, b: &QualifiedIdent) -> (r: bool)
    ensures
        r == (a@ == b@),
{
    let same_module = match (&a.module, &b.module) {
        (Some(x), Some(y)) => *x == *y,
        (None, None) => true,
        _ => false,
    };
    same_module && a.name == b.name
}

fn predicate_eq(a: &Predicate, b: &Predicate) -> (r: bool)
    ensures
        r == (a@ == b@),
    decreases a,
{
    match (a, b) {
        (Predicate::Comparison { op: o1, value: v1 }, Predicate::Comparison { op: o2, value: v2 }) => {
            compare_op_eq(*o1, *o2) && literal_value_eq(v1, v2)
        },
        (Predicate::Range { op: o1, value: v1 }, Predicate::Range { op: o2, value: v2 }) => {
            compare_op_eq(*o1, *o2) && literal_value_eq(v1, v2)
        },
        (Predicate::Except(q1), Predicate::Except(q2)) => qualified_eq(q1, q2),
        (Predicate::And(p1), Predicate::And(p2)) => predicates_eq(p1, p2),
        _ => false,
    }
}

fn predicates_eq(a: &Vec<Predicate>, b: &Vec<Predicate>) -> (r: bool)
    ensures
        r == (predicates_view(a@) == predicates_view(b@)),
    decreases a,
{
    proof {
        lemma_predicates_view_len(a@);
        lemma_predicates_view_len(b@);
    }
    if a.len() != b.len() {
        return false;
    }
    let mut i: usize = 0;
    while i < a.len()
        invariant
            i <= a.len(),
            a.len() == b.len(),
            predicates_view(a@).len() == a.len(),
            predicates_view(b@).len() == b.len(),
            forall|k: int| 0 <= k < i ==> predicates_view(a@)[k] == predicates_view(b@)[k],
        decreases a.len() - i,
    {
        proof {
            lemma_predicates_view_index(a@, i as int);
            lemma_predicates_view_index(b@, i as int);
        }
        if !predicate_eq(&a[i], &b[i]) {
            return false;
        }
        i = i + 1;
    }
    assert(predicates_view(a@) =~= predicates_view(b@));
    true
}

/// Whether two types are the same.
pub fn type_eq(a: &Type, b: &Type) -> (r: bool)
    ensures
        r == (a@ == b@),
    decreases a,
{
    match (a, b) {
        (Type::Named { name: n1, params: p1 }, Type::Named { name: n2, params: p2 }) => {
            qualified_eq(n1, n2) && types_eq(p1, p2)
        },
        (Type::Var(x), Type::Var(y)) => x.0 == y.0,
        (Type::Tuple(t1), Type::Tuple(t2)) => types_eq(t1, t2),
        (
            Type::Function { params: p1, return_type: r1 },
            Type::Function { params: p2, return_type: r2 },
        ) => types_eq(p1, p2) && type_eq(r1, r2),
        (Type::Refined { base: b1, predicate: q1 }, Type::Refined { base: b2, predicate: q2 }) => {
            type_eq(b1, b2) && predicate_eq(q1, q2)
        },
        _ => false,
    }
}

/// Whether two vectors of types hold the same types.
pub fn types_eq(a: &Vec<Type>, b: &Vec<Type>) -> (r: bool)
    ensures
        r == (types_view(a@) == types_view(b@)),
    decreases a,
{
    proof {
        lemma_types_view_len(a@);
        lemma_types_view_len(b@);
    }
    if a.len() != b.len() {
        return false;
    }
    let mut i: usize = 0;
    while i < a.len()
        invariant
            i <= a.len(),
            a.len() == b.len(),
            types_view(a@).len() == a.len(),
            types_view(b@).len() == b.len(),
            forall|k: int| 0 <= k < i ==> types_view(a@)[k] == types_view(b@)[k],
        decreases a.len() - i,
    {
        proof {
            lemma_types_view_index(a@, i as int);
            lemma_types_view_index(b@, i as int);
        }
        if !type_eq(&a[i], &b[i]) {
            return false;
        }
        i = i + 1;
    }
    assert(types_view(a@) =~= types_view(b@));
    true
}

} // verus!
