//! Identifiers, literals and directives.

use vstd::prelude::*;
use vstd::string::StringExecFns;
use crate::text::{chars_of, string_from_chars, push_str, push_decimal, decimal};

verus! {

broadcast use vstd::string::group_string_axioms;

// =============================================================================
// IDENTIFIERS
// =============================================================================

/// A simple identifier: a variable, function, type or operator name.
///
/// Examples: `x`, `minha_funcao`, `+`, `!>`, `<=`.
#[derive(Debug, Clone, PartialEq, Eq, Hash)]
pub struct Ident(pub String);

impl View for Ident {
    type V = Seq<char>;

    open spec fn view(&self) -> Seq<char> {
        self.0@
    }
}

/// Whether `c` is one of the characters an operator name starts with.
pub open spec fn is_operator_start(c: char) -> bool {
    c == '+' || c == '-' || c == '*' || c == '/' || c == '\\' || c == '=' || c == '!' || c == '<'
        || c == '>' || c == '?' || c == '|' || c == '&' || c == '^' || c == '~' || c == '@' || c
        == '#' || c == '$' || c == '%'
}

/// A copy of the string `s`.
pub fn copy_string(s: &String) -> (r: String)
    ensures
        r@ == s@,
{
    s.clone()
}

impl Ident {
    /// The identifier `name`.
    pub fn new(name: &str) -> (r: Ident)
        ensures
            r@ == name@,
    {
        Ident(String::from_str(name))
    }

    /// Whether this identifier names an operator: it starts with an operator symbol.
    pub fn is_operator(&self) -> (r: bool)
        ensures
            r == (self@.len() > 0 && is_operator_start(self@[0])),
    {
        let cs = chars_of(self.0.as_str());
        if cs.len() == 0 {
            false
        } else {
            let c = cs[0];
            c == '+' || c == '-' || c == '*' || c == '/' || c == '\\' || c == '=' || c == '!' || c
                == '<' || c == '>' || c == '?' || c == '|' || c == '&' || c == '^' || c == '~' || c
                == '@' || c == '#' || c == '$' || c == '%'
        }
    }

    /// Whether this identifier names an action: it ends with `!`.
    pub fn is_action(&self) -> (r: bool)
        ensures
            r == (self@.len() > 0 && self@.last() == '!'),
    {
        let cs = chars_of(self.0.as_str());
        cs.len() > 0 && cs[cs.len() - 1] == '!'
    }

    /// The identifier's text.
    pub fn to_string(&self) -> (r: String)
        ensures
            r@ == self@,
    {
        self.0.clone()
    }

    /// A copy of this identifier.
    pub fn copy(&self) -> (r: Ident)
        ensures
            r == *self,
    {
        Ident(self.0.clone())
    }
}

/// A copy of a vector of identifiers.
pub fn copy_idents(v: &Vec<Ident>) -> (r: Vec<Ident>)
    ensures
        r@.len() == v@.len(),
        forall|i: int| 0 <= i < v@.len() ==> #[trigger] r@[i]@ == v@[i]@,
{
    let mut r: Vec<Ident> = Vec::new();
    let mut i: usize = 0;
    while i < v.len()
        invariant
            i <= v.len(),
            r@ == v@.take(i as int),
        decreases v.len() - i,
    {
        r.push(v[i].copy());
        assert(r@ =~= v@.take(i + 1));
        i = i + 1;
    }
    assert(r@ =~= v@);
    r
}

/// A qualified identifier with an optional module path.
///
/// Examples: `Int`, `types::NUM`.
#[derive(Debug, Clone, PartialEq, Eq, Hash)]
pub struct QualifiedIdent {
    /// Module path (e.g. `types` in `types::NUM`).
    pub module: Option<String>,
    /// Item name (e.g. `NUM` in `types::NUM`).
    pub name: String,
}

impl View for QualifiedIdent {
    type V = (Option<Seq<char>>, Seq<char>);

    open spec fn view(&self) -> (Option<Seq<char>>, Seq<char>) {
        (
            match self.module {
                Some(m) => Some(m@),
                None => None,
            },
            self.name@,
        )
    }
}

/// The text of a qualified identifier: `module::name`, or `name`.
pub open spec fn qualified_display(q: (Option<Seq<char>>, Seq<char>)) -> Seq<char> {
    match q.0 {
        Some(m) => m + "::"@ + q.1,
        None => q.1,
    }
}

impl QualifiedIdent {
    /// The identifier `name` without a module.
    pub fn simple(name: &str) -> (r: QualifiedIdent)
        ensures
            r@ == (None::<Seq<char>>, name@),
    {
        QualifiedIdent { module: None, name: String::from_str(name) }
    }

    /// The identifier `module::name`.
    pub fn qualified(module: &str, name: &str) -> (r: QualifiedIdent)
        ensures
            r@ == (Some(module@), name@),
    {
        QualifiedIdent { module: Some(String::from_str(module)), name: String::from_str(name) }
    }

    /// Whether the identifier has no module.
    pub fn is_simple(&self) -> (r: bool)
        ensures
            r == (self.module is None),
    {
        self.module.is_none()
    }

    /// `module::name`, or `name` for a simple identifier.
    pub fn to_string(&self) -> (r: String)
        ensures
            r@ == qualified_display(self@),
    {
        match &self.module {
            Some(m) => {
                let mut out = chars_of(m.as_str());
                push_str(&mut out, "::");
                push_str(&mut out, self.name.as_str());
                string_from_chars(&out)
            },
            None => self.name.clone(),
        }
    }

    /// A copy of this identifier.
    pub fn copy(&self) -> (r: QualifiedIdent)
        ensures
            r == *self,
    {
        QualifiedIdent {
            module: match &self.module {
                Some(m) => Some(m.clone()),
                None => None,
            },
            name: self.name.clone(),
        }
    }
}

impl From<Ident> for QualifiedIdent {
    fn from(ident: Ident) -> (r: QualifiedIdent) {
        QualifiedIdent { module: None, name: ident.0 }
    }
}

impl vstd::std_specs::convert::FromSpecImpl<Ident> for QualifiedIdent {
    open spec fn obeys_from_spec() -> bool {
        true
    }

    open spec fn from_spec(ident: Ident) -> QualifiedIdent {
        QualifiedIdent { module: None, name: ident.0 }
    }
}

// =============================================================================
// LITERALS
// =============================================================================

/// A literal value in the source code. Numbers keep their source text.
#[derive(Debug, Clone, PartialEq)]
pub enum Literal {
    /// Integer literal: decimal, hex, octal or binary.
    Int(String),
    /// Float literal: decimal, or `nan`, `inf`, `-inf`.
    Float(String),
    /// String literal.
    String(String),
    /// Bytes literal (`b"..."`).
    Bytes(String),
    /// Boolean literal: `True` or `False`.
    Bool(bool),
    /// The unit value `()`.
    Unit,
}

/// The mathematical content of a literal.
pub enum LiteralView {
    Int(Seq<char>),
    Float(Seq<char>),
    Str(Seq<char>),
    Bytes(Seq<char>),
    Bool(bool),
    Unit,
}

impl View for Literal {
    type V = LiteralView;

    open spec fn view(&self) -> LiteralView {
        match self {
            Literal::Int(s) => LiteralView::Int(s@),
            Literal::Float(s) => LiteralView::Float(s@),
            Literal::String(s) => LiteralView::Str(s@),
            Literal::Bytes(s) => LiteralView::Bytes(s@),
            Literal::Bool(b) => LiteralView::Bool(*b),
            Literal::Unit => LiteralView::Unit,
        }
    }
}

/// How a literal is written back: numbers as they were read, strings and
/// bytes quoted, booleans as `True` or `False`, unit as `()`.
pub open spec fn literal_display(l: LiteralView) -> Seq<char> {
    match l {
        LiteralView::Int(s) => s,
        LiteralView::Float(s) => s,
        LiteralView::Str(s) => "\""@ + s + "\""@,
        LiteralView::Bytes(s) => "b\""@ + s + "\""@,
        LiteralView::Bool(b) => if b {
            "True"@
        } else {
            "False"@
        },
        LiteralView::Unit => "()"@,
    }
}

impl Literal {
    /// An integer literal with the given text.
    pub fn integer(value: &str) -> (r: Literal)
        ensures
            r@ == LiteralView::Int(value@),
    {
        Literal::Int(String::from_str(value))
    }

    /// A float literal with the given text.
    pub fn float(value: &str) -> (r: Literal)
        ensures
            r@ == LiteralView::Float(value@),
    {
        Literal::Float(String::from_str(value))
    }

    /// A string literal.
    pub fn string(value: &str) -> (r: Literal)
        ensures
            r@ == LiteralView::Str(value@),
    {
        Literal::String(String::from_str(value))
    }

    /// A bytes literal.
    pub fn bytes(value: &str) -> (r: Literal)
        ensures
            r@ == LiteralView::Bytes(value@),
    {
        Literal::Bytes(String::from_str(value))
    }

    /// A boolean literal.
    pub fn bool(value: bool) -> (r: Literal)
        ensures
            r == Literal::Bool(value),
    {
        Literal::Bool(value)
    }

    /// The unit literal.
    pub fn unit() -> (r: Literal)
        ensures
            r == Literal::Unit,
    {
        Literal::Unit
    }

    /// The literal as written in source.
    pub fn to_string(&self) -> (r: String)
        ensures
            r@ == literal_display(self@),
    {
        let mut out: Vec<char> = Vec::new();
        self.push_display(&mut out);
        string_from_chars(&out)
    }

    /// `out` followed by the literal as written in source.
    pub fn push_display(&self, out: &mut Vec<char>)
        ensures
            final(out)@ == old(out)@ + literal_display(self@),
    {
        match self {
            Literal::Int(s) => push_str(out, s.as_str()),
            Literal::Float(s) => push_str(out, s.as_str()),
            Literal::String(s) => {
                push_str(out, "\"");
                push_str(out, s.as_str());
                push_str(out, "\"");
            },
            Literal::Bytes(s) => {
                push_str(out, "b\"");
                push_str(out, s.as_str());
                push_str(out, "\"");
            },
            Literal::Bool(b) => if *b {
                push_str(out, "True")
            } else {
                push_str(out, "False")
            },
            Literal::Unit => push_str(out, "()"),
        }
        assert(out@ =~= old(out)@ + literal_display(self@));
    }

    /// A copy of this literal.
    pub fn copy(&self) -> (r: Literal)
        ensures
            r == *self,
    {
        match self {
            Literal::Int(s) => Literal::Int(s.clone()),
            Literal::Float(s) => Literal::Float(s.clone()),
            Literal::String(s) => Literal::String(s.clone()),
            Literal::Bytes(s) => Literal::Bytes(s.clone()),
            Literal::Bool(b) => Literal::Bool(*b),
            Literal::Unit => Literal::Unit,
        }
    }
}

// =============================================================================
// DIRECTIVES
// =============================================================================

/// A compiler directive (annotation).
#[derive(Debug, Clone, PartialEq)]
pub enum Directive {
    /// `@test("description")`.
    Test { description: String },
    /// `@parallel`: run in a separate OS process.
    Parallel,
    /// `@comutative`: the function is commutative.
    Comutative,
    /// `@cache_strategy{...}`: memoization configuration.
    CacheStrategy { strategy: CacheStrategy, size: Option<usize>, ttl: Option<u64> },
    /// `@ffi("symbol_name")`: foreign function.
    Ffi { symbol: String },
    /// `@comptime`: compile-time execution.
    Comptime,
    /// `@restart{...}`: restart policy for actions.
    Restart { policy: RestartPolicy, tries: Option<usize>, delay: Option<u64> },
}

/// Cache strategy for memoization.
#[derive(Debug, Clone, Copy, PartialEq, Eq)]
pub enum CacheStrategy {
    Default,
    Lru,
    Lfu,
    Disabled,
}

/// Restart policy for actions.
#[derive(Debug, Clone, Copy, PartialEq, Eq)]
pub enum RestartPolicy {
    Always,
    OnFailure,
}

pub open spec fn cache_strategy_name(c: CacheStrategy) -> Seq<char> {
    match c {
        CacheStrategy::Default => "Default"@,
        CacheStrategy::Lru => "Lru"@,
        CacheStrategy::Lfu => "Lfu"@,
        CacheStrategy::Disabled => "Disabled"@,
    }
}

pub open spec fn restart_policy_name(p: RestartPolicy) -> Seq<char> {
    match p {
        RestartPolicy::Always => "Always"@,
        RestartPolicy::OnFailure => "OnFailure"@,
    }
}

/// `label` followed by the number, or nothing.
pub open spec fn optional_field(label: Seq<char>, n: Option<nat>) -> Seq<char> {
    match n {
        Some(v) => label + decimal(v),
        None => Seq::empty(),
    }
}

pub open spec fn usize_opt(n: Option<usize>) -> Option<nat> {
    match n {
        Some(v) => Some(v as nat),
        None => None,
    }
}

pub open spec fn u64_opt(n: Option<u64>) -> Option<nat> {
    match n {
        Some(v) => Some(v as nat),
        None => None,
    }
}

/// How a directive is written in source.
pub open spec fn directive_display(d: Directive) -> Seq<char> {
    match d {
        Directive::Test { description } => "@test(\""@ + description@ + "\")"@,
        Directive::Parallel => "@parallel"@,
        Directive::Comutative => "@comutative"@,
        Directive::CacheStrategy { strategy, size, ttl } => "@cache_strategy{strategy: "@
            + cache_strategy_name(strategy) + optional_field(", size: "@, usize_opt(size))
            + optional_field(", ttl: "@, u64_opt(ttl)) + "}"@,
        Directive::Ffi { symbol } => "@ffi(\""@ + symbol@ + "\")"@,
        Directive::Comptime => "@comptime"@,
        Directive::Restart { policy, tries, delay } => "@restart{policy: "@ + restart_policy_name(
            policy,
        ) + optional_field(", tries: "@, usize_opt(tries)) + optional_field(
            ", delay: "@,
            u64_opt(delay),
        ) + "}"@,
    }
}

fn push_optional_field(out: &mut Vec<char>, label: &str, n: Option<u64>)
    ensures
        final(out)@ == old(out)@ + optional_field(label@, u64_opt(n)),
{
    match n {
        Some(v) => {
            push_str(out, label);
            push_decimal(out, v);
        },
        None => {},
    }
    assert(out@ =~= old(out)@ + optional_field(label@, u64_opt(n)));
}

impl Directive {
    /// The directive as written in source.
    pub fn to_string(&self) -> (r: String)
        ensures
            r@ == directive_display(*self),
    {
        let mut out: Vec<char> = Vec::new();
        match self {
            Directive::Test { description } => {
                push_str(&mut out, "@test(\"");
                push_str(&mut out, description.as_str());
                push_str(&mut out, "\")");
            },
            Directive::Parallel => push_str(&mut out, "@parallel"),
            Directive::Comutative => push_str(&mut out, "@comutative"),
            Directive::CacheStrategy { strategy, size, ttl } => {
                push_str(&mut out, "@cache_strategy{strategy: ");
                match strategy {
                    CacheStrategy::Default => push_str(&mut out, "Default"),
                    CacheStrategy::Lru => push_str(&mut out, "Lru"),
                    CacheStrategy::Lfu => push_str(&mut out, "Lfu"),
                    CacheStrategy::Disabled => push_str(&mut out, "Disabled"),
                }
                let size64: Option<u64> = match size {
                    Some(v) => Some(*v as u64),
                    None => None,
                };
                push_optional_field(&mut out, ", size: ", size64);
                push_optional_field(&mut out, ", ttl: ", *ttl);
                push_str(&mut out, "}");
            },
            Directive::Ffi { symbol } => {
                push_str(&mut out, "@ffi(\"");
                push_str(&mut out, symbol.as_str());
                push_str(&mut out, "\")");
            },
            Directive::Comptime => push_str(&mut out, "@comptime"),
            Directive::Restart { policy, tries, delay } => {
                push_str(&mut out, "@restart{policy: ");
                match policy {
                    RestartPolicy::Always => push_str(&mut out, "Always"),
                    RestartPolicy::OnFailure => push_str(&mut out, "OnFailure"),
                }
                let tries64: Option<u64> = match tries {
                    Some(v) => Some(*v as u64),
                    None => None,
                };
                push_optional_field(&mut out, ", tries: ", tries64);
                push_optional_field(&mut out, ", delay: ", *delay);
                push_str(&mut out, "}");
            },
        }
        assert(out@ =~= directive_display(*self));
        string_from_chars(&out)
    }

    /// A copy of this directive.
    pub fn copy(&self) -> (r: Directive)
        ensures
            r == *self,
    {
        match self {
            Directive::Test { description } => Directive::Test { description: description.clone() },
            Directive::Parallel => Directive::Parallel,
            Directive::Comutative => Directive::Comutative,
            Directive::CacheStrategy { strategy, size, ttl } => Directive::CacheStrategy {
                strategy: *strategy,
                size: *size,
                ttl: *ttl,
            },
            Directive::Ffi { symbol } => Directive::Ffi { symbol: symbol.clone() },
            Directive::Comptime => Directive::Comptime,
            Directive::Restart { policy, tries, delay } => Directive::Restart {
                policy: *policy,
                tries: *tries,
                delay: *delay,
            },
        }
    }
}

} // verus!
