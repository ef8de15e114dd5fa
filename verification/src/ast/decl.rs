//! Top-level declarations: functions and actions, data and enum types,
//! interfaces and implementations, aliases, imports and exports.

use vstd::prelude::*;
use crate::ast::Spanned;
use crate::ast::expr::{
    LambdaClause, ClauseView, clauses_view, clauses_wf, clause_display, push_clause_display,
    lemma_clauses_wf_index,
};
use crate::ast::id::{Directive, Ident, QualifiedIdent, directive_display, qualified_display};
use crate::ast::stmt::{
    Stmt, StmtView, SpannedStmtView, stmt_view, stmts_view, stmts_wf, stmt_wf, stmt_lines,
    stmt_display, push_stmt_lines, push_stmt_display,
};
use crate::ast::types::{
    FunctionSig, FunctionSigView, Type, TypeView, sig_display, type_display, push_type_display,
};
use crate::lexer::token::Span;
use crate::text::{
    string_from_chars, push_str, str_debug, debug_str, indented_lines, push_indented_lines,
};

verus! {

broadcast use vstd::string::group_string_axioms;

// =============================================================================
// MODULE
// =============================================================================

/// A complete source file.
#[derive(Debug, PartialEq)]
pub struct Module {
    /// Name of the module.
    pub name: String,
    /// Top-level declarations.
    pub declarations: Vec<Spanned<TopLevel>>,
    /// Exported names.
    pub exports: Vec<Ident>,
    /// Imports.
    pub imports: Vec<Import>,
}

impl Module {
    /// The empty module `name`.
    pub fn new(name: &str) -> (r: Module)
        ensures
            r.name@ == name@,
            r.declarations@.len() == 0,
            r.exports@.len() == 0,
            r.imports@.len() == 0,
    {
        Module {
            name: String::from_str(name),
            declarations: Vec::new(),
            exports: Vec::new(),
            imports: Vec::new(),
        }
    }

    /// This module with its imports replaced by `imports`.
    pub fn with_imports(self, imports: Vec<Import>) -> (r: Module)
        ensures
            r == (Module { imports, ..self }),
    {
        Module { imports, ..self }
    }

    /// This module with its declarations replaced by `declarations`.
    pub fn with_declarations(self, declarations: Vec<Spanned<TopLevel>>) -> (r: Module)
        ensures
            r == (Module { declarations, ..self }),
    {
        Module { declarations, ..self }
    }

    /// This module with its exports replaced by `exports`.
    pub fn with_exports(self, exports: Vec<Ident>) -> (r: Module)
        ensures
            r == (Module { exports, ..self }),
    {
        Module { exports, ..self }
    }
}

// =============================================================================
// TOP-LEVEL DECLARATIONS
// =============================================================================

/// A top-level declaration of a module.
#[derive(Debug, PartialEq)]
pub enum TopLevel {
    /// Function definition: `name :: Sig` and its clauses.
    Function(FunctionDef),
    /// Action definition: `action name (args)` and its body.
    Action(ActionDef),
    /// Data type definition.
    Data(DataDef),
    /// Enum definition.
    Enum(EnumDef),
    /// Interface definition.
    Interface(InterfaceDef),
    /// Implementation of an interface by a type.
    Implements(ImplDef),
    /// Type alias.
    Alias(AliasDef),
    /// Import.
    Import(Import),
    /// Export.
    Export(Export),
    /// Top-level statement (entry points).
    Statement(Stmt),
}

// =============================================================================
// FUNCTION DEFINITION
// =============================================================================

/// A function of the pure domain.
#[derive(Debug, PartialEq)]
pub struct FunctionDef {
    /// Name (may be an operator such as `+`).
    pub name: Ident,
    /// Signature.
    pub sig: FunctionSig,
    /// Number of parameters.
    pub arity: usize,
    /// Directives: `@ffi`, `@comutative`, ...
    pub directives: Vec<Directive>,
    /// Lambda clauses.
    pub clauses: Vec<LambdaClause>,
}

/// Whether some directive is `@ffi`.
pub open spec fn has_ffi(ds: Seq<Directive>) -> bool {
    exists|i: int| 0 <= i < ds.len() && (#[trigger] ds[i]) is Ffi
}

/// Whether some directive is `@parallel`.
pub open spec fn has_parallel(ds: Seq<Directive>) -> bool {
    exists|i: int| 0 <= i < ds.len() && (#[trigger] ds[i]) is Parallel
}

impl FunctionDef {
    /// The function `name` with signature `sig`, no directives and no clauses.
    pub fn new(name: &str, sig: FunctionSig) -> (r: FunctionDef)
        ensures
            r.name@ == name@,
            r.sig == sig,
            r.arity == sig.params@.len(),
            r.directives@.len() == 0,
            r.clauses@.len() == 0,
    {
        let arity = sig.arity();
        FunctionDef {
            name: Ident::new(name),
            sig,
            arity,
            directives: Vec::new(),
            clauses: Vec::new(),
        }
    }

    /// This function with its directives replaced by `directives`.
    pub fn with_directives(self, directives: Vec<Directive>) -> (r: FunctionDef)
        ensures
            r == (FunctionDef { directives, ..self }),
    {
        FunctionDef { directives, ..self }
    }

    /// This function with its clauses replaced by `clauses`.
    pub fn with_clauses(self, clauses: Vec<LambdaClause>) -> (r: FunctionDef)
        ensures
            r == (FunctionDef { clauses, ..self }),
    {
        FunctionDef { clauses, ..self }
    }

    /// This function with `clause` added after its clauses.
    pub fn add_clause(self, clause: LambdaClause) -> (r: FunctionDef)
        ensures
            r.name == self.name,
            r.sig == self.sig,
            r.arity == self.arity,
            r.directives == self.directives,
            r.clauses@ == self.clauses@.push(clause),
    {
        let mut f = self;
        f.clauses.push(clause);
        f
    }

    /// Whether the function is foreign (has an `@ffi` directive).
    pub fn is_ffi(&self) -> (r: bool)
        ensures
            r == has_ffi(self.directives@),
    {
        let mut i: usize = 0;
        while i < self.directives.len()
            invariant
                i <= self.directives.len(),
                forall|k: int| 0 <= k < i ==> !(self.directives@[k] is Ffi),
            decreases self.directives.len() - i,
        {
            if matches!(self.directives[i], Directive::Ffi { .. }) {
                assert(self.directives@[i as int] is Ffi);
                return true;
            }
            i = i + 1;
        }
        false
    }
}

// =============================================================================
// ACTION DEFINITION
// =============================================================================

/// An action of the impure domain.
#[derive(Debug, PartialEq)]
pub struct ActionDef {
    /// Name.
    pub name: Ident,
    /// Parameters.
    pub params: Vec<Ident>,
    /// Return type, when given.
    pub return_type: Option<Type>,
    /// Directives: `@parallel`, `@restart`, ...
    pub directives: Vec<Directive>,
    /// Body.
    pub body: Vec<Spanned<Stmt>>,
}

impl ActionDef {
    /// The action `name` with no parameters, return type, directives or body.
    pub fn new(name: &str) -> (r: ActionDef)
        ensures
            r.name@ == name@,
            r.params@.len() == 0,
            r.return_type is None,
            r.directives@.len() == 0,
            r.body@.len() == 0,
    {
        ActionDef {
            name: Ident::new(name),
            params: Vec::new(),
            return_type: None,
            directives: Vec::new(),
            body: Vec::new(),
        }
    }

    /// This action with its parameters replaced by `params`.
    pub fn with_params(self, params: Vec<Ident>) -> (r: ActionDef)
        ensures
            r == (ActionDef { params, ..self }),
    {
        ActionDef { params, ..self }
    }

    /// This action with the return type `return_type`.
    pub fn with_return_type(self, return_type: Type) -> (r: ActionDef)
        ensures
            r == (ActionDef { return_type: Some(return_type), ..self }),
    {
        ActionDef { return_type: Some(return_type), ..self }
    }

    /// This action with its directives replaced by `directives`.
    pub fn with_directives(self, directives: Vec<Directive>) -> (r: ActionDef)
        ensures
            r == (ActionDef { directives, ..self }),
    {
        ActionDef { directives, ..self }
    }

    /// This action with its body replaced by `body`.
    pub fn with_body(self, body: Vec<Spanned<Stmt>>) -> (r: ActionDef)
        ensures
            r == (ActionDef { body, ..self }),
    {
        ActionDef { body, ..self }
    }

    /// Whether the action has a `@parallel` directive.
    pub fn is_parallel(&self) -> (r: bool)
        ensures
            r == has_parallel(self.directives@),
    {
        let mut i: usize = 0;
        while i < self.directives.len()
            invariant
                i <= self.directives.len(),
                forall|k: int| 0 <= k < i ==> !(self.directives@[k] is Parallel),
            decreases self.directives.len() - i,
        {
            if matches!(self.directives[i], Directive::Parallel) {
                assert(self.directives@[i as int] is Parallel);
                return true;
            }
            i = i + 1;
        }
        false
    }
}

// =============================================================================
// DATA DEFINITION
// =============================================================================

/// A data type: a product of fields or a refinement of another type.
#[derive(Debug, PartialEq)]
pub struct DataDef {
    /// Name.
    pub name: Ident,
    /// Type parameters.
    pub type_params: Vec<Ident>,
    /// Product or refinement.
    pub kind: DataKind,
}

/// The kind of a data definition.
#[derive(Debug, PartialEq)]
pub enum DataKind {
    /// Product of named fields.
    Product(Vec<FieldDef>),
    /// Refinement of another type.
    Refinement(Type),
}

/// A field of a data definition.
#[derive(Debug, PartialEq)]
pub struct FieldDef {
    /// Name.
    pub name: Ident,
    /// Type, when given.
    pub type_annotation: Option<Type>,
}

impl DataDef {
    /// The product type `name` with no parameters and no fields.
    pub fn new(name: &str) -> (r: DataDef)
        ensures
            r.name@ == name@,
            r.type_params@.len() == 0,
            r.kind matches DataKind::Product(fs) && fs@.len() == 0,
    {
        DataDef { name: Ident::new(name), type_params: Vec::new(), kind: DataKind::Product(Vec::new()) }
    }

    /// The refinement `name` of `target`.
    pub fn refinement(name: &str, target: Type) -> (r: DataDef)
        ensures
            r.name@ == name@,
            r.type_params@.len() == 0,
            r.kind == DataKind::Refinement(target),
    {
        DataDef { name: Ident::new(name), type_params: Vec::new(), kind: DataKind::Refinement(target) }
    }

    /// This definition with its type parameters replaced by `params`.
    pub fn with_type_params(self, params: Vec<Ident>) -> (r: DataDef)
        ensures
            r == (DataDef { type_params: params, ..self }),
    {
        DataDef { type_params: params, ..self }
    }

    /// This definition made a product of `fields`.
    pub fn with_fields(self, fields: Vec<FieldDef>) -> (r: DataDef)
        ensures
            r == (DataDef { kind: DataKind::Product(fields), ..self }),
    {
        DataDef { kind: DataKind::Product(fields), ..self }
    }

    /// This definition with the field `name` added after its fields; a
    /// refinement is returned unchanged.
    pub fn add_field(self, name: &str, type_annotation: Option<Type>) -> (r: DataDef)
        ensures
            r.name == self.name,
            r.type_params == self.type_params,
            match self.kind {
                DataKind::Product(fs) => r.kind matches DataKind::Product(rs) && rs@.len() == fs@.len() + 1
                    && rs@.drop_last() == fs@ && rs@.last().name@ == name@
                    && rs@.last().type_annotation == type_annotation,
                DataKind::Refinement(_) => r.kind == self.kind,
            },
    {
        let mut d = self;
        match &mut d.kind {
            DataKind::Product(fields) => {
                fields.push(FieldDef { name: Ident::new(name), type_annotation });
            },
            DataKind::Refinement(_) => {},
        }
        d
    }
}

// =============================================================================
// ENUM DEFINITION
// =============================================================================

/// A sum type.
#[derive(Debug, PartialEq)]
pub struct EnumDef {
    /// Name.
    pub name: Ident,
    /// Type parameters.
    pub type_params: Vec<Ident>,
    /// Variants.
    pub variants: Vec<VariantDef>,
}

/// A variant of an enum.
#[derive(Debug, PartialEq)]
pub struct VariantDef {
    /// Name.
    pub name: Ident,
    /// Payload.
    pub payload: VariantPayload,
}

/// The payload of a variant.
#[derive(Debug, PartialEq)]
pub enum VariantPayload {
    /// No payload: `True`, `None`.
    Unit,
    /// A value of a type: `Ok(T)`.
    Typed(Type),
    /// A fixed value: `NotFound(404)`.
    FixedValue(LiteralValue),
    /// A predicate on the value: `Thin(< _ 18.5)`.
    Predicated { predicate: VariantPredicate },
}

/// A literal of a fixed-value variant, kept as written.
#[derive(Debug, Clone, PartialEq)]
pub enum LiteralValue {
    Int(String),
    Float(String),
    String(String),
}

/// The predicate of a predicated variant.
#[derive(Debug, Clone, PartialEq)]
pub enum VariantPredicate {
    /// Comparison with the hole: `< _ 18.5`.
    Comparison { op: CompareOp, value: LiteralValue },
}

/// Comparison operator of a variant predicate.
#[derive(Debug, Clone, Copy, PartialEq, Eq)]
pub enum CompareOp {
    Lt,
    Le,
    Gt,
    Ge,
}

impl EnumDef {
    /// The enum `name` with no parameters and no variants.
    pub fn new(name: &str) -> (r: EnumDef)
        ensures
            r.name@ == name@,
            r.type_params@.len() == 0,
            r.variants@.len() == 0,
    {
        EnumDef { name: Ident::new(name), type_params: Vec::new(), variants: Vec::new() }
    }

    /// This enum with its type parameters replaced by `params`.
    pub fn with_type_params(self, params: Vec<Ident>) -> (r: EnumDef)
        ensures
            r == (EnumDef { type_params: params, ..self }),
    {
        EnumDef { type_params: params, ..self }
    }

    /// This enum with its variants replaced by `variants`.
    pub fn with_variants(self, variants: Vec<VariantDef>) -> (r: EnumDef)
        ensures
            r == (EnumDef { variants, ..self }),
    {
        EnumDef { variants, ..self }
    }

    /// This enum with the unit variant `name` added after its variants.
    pub fn add_unit_variant(self, name: &str) -> (r: EnumDef)
        ensures
            r.name == self.name,
            r.type_params == self.type_params,
            r.variants@.len() == self.variants@.len() + 1,
            r.variants@.drop_last() == self.variants@,
            r.variants@.last().name@ == name@,
            r.variants@.last().payload == VariantPayload::Unit,
    {
        let mut e = self;
        e.variants.push(VariantDef { name: Ident::new(name), payload: VariantPayload::Unit });
        e
    }

    /// This enum with the variant `name(typ)` added after its variants.
    pub fn add_typed_variant(self, name: &str, typ: Type) -> (r: EnumDef)
        ensures
            r.name == self.name,
            r.type_params == self.type_params,
            r.variants@.len() == self.variants@.len() + 1,
            r.variants@.drop_last() == self.variants@,
            r.variants@.last().name@ == name@,
            r.variants@.last().payload == VariantPayload::Typed(typ),
    {
        let mut e = self;
        e.variants.push(VariantDef { name: Ident::new(name), payload: VariantPayload::Typed(typ) });
        e
    }
}

// =============================================================================
// INTERFACE AND IMPLEMENTATION
// =============================================================================

/// An interface: signatures, possibly with default implementations.
#[derive(Debug, PartialEq)]
pub struct InterfaceDef {
    /// Name.
    pub name: Ident,
    /// Parent interfaces.
    pub extends: Vec<Ident>,
    /// Members.
    pub members: Vec<InterfaceMember>,
}

/// A member of an interface.
#[derive(Debug, PartialEq)]
pub enum InterfaceMember {
    /// A signature alone: `= :: A A => Bool`.
    Signature(Ident, FunctionSig),
    /// A signature with a default implementation.
    FunctionDef(FunctionDef),
}

impl InterfaceDef {
    /// The interface `name` with no parents and no members.
    pub fn new(name: &str) -> (r: InterfaceDef)
        ensures
            r.name@ == name@,
            r.extends@.len() == 0,
            r.members@.len() == 0,
    {
        InterfaceDef { name: Ident::new(name), extends: Vec::new(), members: Vec::new() }
    }

    /// This interface with its parents replaced by `extends`.
    pub fn with_extends(self, extends: Vec<Ident>) -> (r: InterfaceDef)
        ensures
            r == (InterfaceDef { extends, ..self }),
    {
        InterfaceDef { extends, ..self }
    }

    /// This interface with its members replaced by `members`.
    pub fn with_members(self, members: Vec<InterfaceMember>) -> (r: InterfaceDef)
        ensures
            r == (InterfaceDef { members, ..self }),
    {
        InterfaceDef { members, ..self }
    }

    /// This interface with the signature `name :: sig` added after its members.
    pub fn add_signature(self, name: &str, sig: FunctionSig) -> (r: InterfaceDef)
        ensures
            r.name == self.name,
            r.extends == self.extends,
            r.members@.len() == self.members@.len() + 1,
            r.members@.drop_last() == self.members@,
            r.members@.last() matches InterfaceMember::Signature(n, s) && n@ == name@ && s == sig,
    {
        let mut i = self;
        i.members.push(InterfaceMember::Signature(Ident::new(name), sig));
        i
    }

    /// This interface with the function `func` added after its members.
    pub fn add_function(self, func: FunctionDef) -> (r: InterfaceDef)
        ensures
            r.name == self.name,
            r.extends == self.extends,
            r.members@ == self.members@.push(InterfaceMember::FunctionDef(func)),
    {
        let mut i = self;
        i.members.push(InterfaceMember::FunctionDef(func));
        i
    }
}

/// The implementation of an interface by a type.
#[derive(Debug, PartialEq)]
pub struct ImplDef {
    /// The implementing type.
    pub for_type: QualifiedIdent,
    /// The implemented interface.
    pub interface: Ident,
    /// The functions of the implementation.
    pub implementations: Vec<FunctionDef>,
}

impl ImplDef {
    /// The implementation of `interface` by `for_type`, with no functions.
    pub fn new(for_type: QualifiedIdent, interface: &str) -> (r: ImplDef)
        ensures
            r.for_type == for_type,
            r.interface@ == interface@,
            r.implementations@.len() == 0,
    {
        ImplDef { for_type, interface: Ident::new(interface), implementations: Vec::new() }
    }

    /// This implementation with its functions replaced by `implementations`.
    pub fn with_implementations(self, implementations: Vec<FunctionDef>) -> (r: ImplDef)
        ensures
            r == (ImplDef { implementations, ..self }),
    {
        ImplDef { implementations, ..self }
    }

    /// This implementation with `func` added after its functions.
    pub fn add_implementation(self, func: FunctionDef) -> (r: ImplDef)
        ensures
            r.for_type == self.for_type,
            r.interface == self.interface,
            r.implementations@ == self.implementations@.push(func),
    {
        let mut i = self;
        i.implementations.push(func);
        i
    }
}

// =============================================================================
// ALIAS, IMPORT, EXPORT
// =============================================================================

/// A type alias: `alias Target as Name`.
#[derive(Debug, PartialEq)]
pub struct AliasDef {
    /// The new name.
    pub name: Ident,
    /// The aliased type.
    pub target: Type,
}

impl AliasDef {
    /// The alias `name` of `target`.
    pub fn new(name: &str, target: Type) -> (r: AliasDef)
        ensures
            r.name@ == name@,
            r.target == target,
    {
        AliasDef { name: Ident::new(name), target }
    }
}

/// An import.
#[derive(Debug, Clone, PartialEq)]
pub enum Import {
    /// `import module`: the whole namespace.
    Namespace { module: String },
    /// `import module.Item`: one item.
    Item { module: String, item: String },
    /// `import module.(Item1 Item2)`: several items.
    Items { module: String, items: Vec<String> },
}

/// An export of names.
#[derive(Debug, Clone, PartialEq)]
pub struct Export {
    /// Exported names.
    pub items: Vec<Ident>,
}

impl Export {
    /// The export of `items`.
    pub fn new(items: Vec<Ident>) -> (r: Export)
        ensures
            r == (Export { items }),
    {
        Export { items }
    }
}

// =============================================================================
// WELL-FORMEDNESS
// =============================================================================

/// Whether every clause of a function can be displayed.
pub open spec fn function_wf(f: FunctionDef) -> bool {
    clauses_wf(f.clauses@)
}

/// Whether every function of `fs` can be displayed.
pub open spec fn functions_wf(fs: Seq<FunctionDef>) -> bool {
    forall|i: int| 0 <= i < fs.len() ==> function_wf(#[trigger] fs[i])
}

/// Whether every default implementation of an interface can be displayed.
pub open spec fn members_wf(ms: Seq<InterfaceMember>) -> bool {
    forall|i: int|
        0 <= i < ms.len() ==> match #[trigger] ms[i] {
            InterfaceMember::FunctionDef(f) => function_wf(f),
            InterfaceMember::Signature(..) => true,
        }
}

/// Whether a declaration can be displayed.
pub open spec fn top_level_wf(d: TopLevel) -> bool {
    match d {
        TopLevel::Function(f) => function_wf(f),
        TopLevel::Action(a) => stmts_wf(a.body@),
        TopLevel::Interface(i) => members_wf(i.members@),
        TopLevel::Implements(i) => functions_wf(i.implementations@),
        TopLevel::Statement(s) => stmt_wf(s),
        _ => true,
    }
}

// =============================================================================
// DISPLAY
// =============================================================================

/// Each name after `prefix`.
pub open spec fn idents_prefixed(ids: Seq<Ident>, prefix: Seq<char>) -> Seq<char>
    decreases ids.len(),
{
    if ids.len() == 0 {
        Seq::empty()
    } else {
        idents_prefixed(ids.drop_last(), prefix) + prefix + ids.last()@
    }
}

/// The names joined by spaces.
pub open spec fn idents_joined(ids: Seq<Ident>) -> Seq<char>
    decreases ids.len(),
{
    if ids.len() == 0 {
        Seq::empty()
    } else if ids.len() == 1 {
        ids[0]@
    } else {
        idents_joined(ids.drop_last()) + " "@ + ids.last()@
    }
}

/// The strings joined by spaces.
pub open spec fn strings_joined(ss: Seq<String>) -> Seq<char>
    decreases ss.len(),
{
    if ss.len() == 0 {
        Seq::empty()
    } else if ss.len() == 1 {
        ss[0]@
    } else {
        strings_joined(ss.drop_last()) + " "@ + ss.last()@
    }
}

pub open spec fn import_display(i: Import) -> Seq<char> {
    match i {
        Import::Namespace { module } => "import "@ + module@,
        Import::Item { module, item } => "import "@ + module@ + "."@ + item@,
        Import::Items { module, items } => "import "@ + module@ + ".("@ + strings_joined(items@)
            + ")"@,
    }
}

pub open spec fn export_display(e: Export) -> Seq<char> {
    "export"@ + idents_prefixed(e.items@, " "@)
}

pub open spec fn alias_display(a: AliasDef) -> Seq<char> {
    "alias "@ + type_display(a.target@) + " as "@ + a.name@
}

pub open spec fn field_display(f: FieldDef) -> Seq<char> {
    f.name@ + match f.type_annotation {
        Some(t) => "::"@ + type_display(t@),
        None => Seq::empty(),
    }
}

/// The fields joined by spaces.
pub open spec fn fields_display(fs: Seq<FieldDef>) -> Seq<char>
    decreases fs.len(),
{
    if fs.len() == 0 {
        Seq::empty()
    } else if fs.len() == 1 {
        field_display(fs[0])
    } else {
        fields_display(fs.drop_last()) + " "@ + field_display(fs.last())
    }
}

/// How a data definition is written: `data Vec2 (x::Float y::Float)`,
/// `data Positive as (Int, > _ 0)`.
pub open spec fn data_display(d: DataDef) -> Seq<char> {
    "data "@ + d.name@ + idents_prefixed(d.type_params@, "::"@) + match d.kind {
        DataKind::Product(fs) => " ("@ + fields_display(fs@) + ")"@,
        DataKind::Refinement(t) => " as "@ + type_display(t@),
    }
}

/// How std's derived `Debug` writes a literal value.
pub open spec fn literal_value_debug(v: LiteralValue) -> Seq<char> {
    match v {
        LiteralValue::Int(s) => "Int("@ + str_debug(s@) + ")"@,
        LiteralValue::Float(s) => "Float("@ + str_debug(s@) + ")"@,
        LiteralValue::String(s) => "String("@ + str_debug(s@) + ")"@,
    }
}

pub open spec fn compare_op_name(op: CompareOp) -> Seq<char> {
    match op {
        CompareOp::Lt => "Lt"@,
        CompareOp::Le => "Le"@,
        CompareOp::Gt => "Gt"@,
        CompareOp::Ge => "Ge"@,
    }
}

/// How std's derived `Debug` writes a variant predicate.
pub open spec fn variant_predicate_debug(p: VariantPredicate) -> Seq<char> {
    match p {
        VariantPredicate::Comparison { op, value } => "Comparison { op: "@ + compare_op_name(op)
            + ", value: "@ + literal_value_debug(value) + " }"@,
    }
}

pub open spec fn payload_display(p: VariantPayload) -> Seq<char> {
    match p {
        VariantPayload::Unit => Seq::empty(),
        VariantPayload::Typed(t) => "("@ + type_display(t@) + ")"@,
        VariantPayload::FixedValue(v) => "("@ + literal_value_debug(v) + ")"@,
        VariantPayload::Predicated { predicate } => "("@ + variant_predicate_debug(predicate)
            + ")"@,
    }
}

/// Each variant on a line of its own: `    | Name(payload)`.
pub open spec fn variants_display(vs: Seq<VariantDef>) -> Seq<char>
    decreases vs.len(),
{
    if vs.len() == 0 {
        Seq::empty()
    } else {
        variants_display(vs.drop_last()) + "    | "@ + vs.last().name@ + payload_display(
            vs.last().payload,
        ) + "\n"@
    }
}

pub open spec fn enum_display(e: EnumDef) -> Seq<char> {
    "enum "@ + e.name@ + idents_prefixed(e.type_params@, "::"@) + "\n"@ + variants_display(
        e.variants@,
    )
}

/// Each directive on a line of its own.
pub open spec fn directive_lines(ds: Seq<Directive>) -> Seq<char>
    decreases ds.len(),
{
    if ds.len() == 0 {
        Seq::empty()
    } else {
        directive_lines(ds.drop_last()) + directive_display(ds.last()) + "\n"@
    }
}

/// Each clause on a line of its own.
pub open spec fn clause_lines(cs: Seq<LambdaClause>) -> Seq<char>
    decreases cs.len(),
{
    if cs.len() == 0 {
        Seq::empty()
    } else {
        clause_lines(cs.drop_last()) + clause_display(cs.last()) + "\n"@
    }
}

/// How a function is written: its directives, `name :: sig`, its clauses,
/// each on a line of its own.
pub open spec fn function_display(f: FunctionDef) -> Seq<char> {
    directive_lines(f.directives@) + f.name@ + " :: "@ + sig_display(f.sig@) + "\n"@
        + clause_lines(f.clauses@)
}

/// Each function's lines indented.
pub open spec fn functions_indented(fs: Seq<FunctionDef>) -> Seq<char>
    decreases fs.len(),
{
    if fs.len() == 0 {
        Seq::empty()
    } else {
        functions_indented(fs.drop_last()) + indented_lines(function_display(fs.last()))
    }
}

/// How an action is written: its directives, `action name(params) => type`,
/// then its statements indented.
pub open spec fn action_display(a: ActionDef) -> Seq<char> {
    directive_lines(a.directives@) + "action "@ + a.name@ + (if a.params.len() > 0 {
        "("@ + idents_joined(a.params@) + ")"@
    } else {
        Seq::empty()
    }) + match a.return_type {
        Some(t) => " => "@ + type_display(t@),
        None => Seq::empty(),
    } + "\n"@ + stmt_lines(a.body@)
}

pub open spec fn member_display(m: InterfaceMember) -> Seq<char> {
    match m {
        InterfaceMember::Signature(name, sig) => "    "@ + name@ + " :: "@ + sig_display(sig@)
            + "\n"@,
        InterfaceMember::FunctionDef(f) => indented_lines(function_display(f)),
    }
}

pub open spec fn members_display(ms: Seq<InterfaceMember>) -> Seq<char>
    decreases ms.len(),
{
    if ms.len() == 0 {
        Seq::empty()
    } else {
        members_display(ms.drop_last()) + member_display(ms.last())
    }
}

/// How an interface is written: `interface NAME implements P1 P2`, then its
/// members indented.
pub open spec fn interface_display(i: InterfaceDef) -> Seq<char> {
    "interface "@ + i.name@ + (if i.extends.len() > 0 {
        " implements"@ + idents_prefixed(i.extends@, " "@)
    } else {
        Seq::empty()
    }) + "\n"@ + members_display(i.members@)
}

/// How an implementation is written: `Type implements INTERFACE`, then its
/// functions indented.
pub open spec fn impl_display(i: ImplDef) -> Seq<char> {
    qualified_display(i.for_type@) + " implements "@ + i.interface@ + "\n"@ + functions_indented(
        i.implementations@,
    )
}

pub open spec fn top_level_display(d: TopLevel) -> Seq<char> {
    match d {
        TopLevel::Function(f) => function_display(f),
        TopLevel::Action(a) => action_display(a),
        TopLevel::Data(d) => data_display(d),
        TopLevel::Enum(e) => enum_display(e),
        TopLevel::Interface(i) => interface_display(i),
        TopLevel::Implements(i) => impl_display(i),
        TopLevel::Alias(a) => alias_display(a),
        TopLevel::Import(i) => import_display(i),
        TopLevel::Export(e) => export_display(e),
        TopLevel::Statement(s) => stmt_display(s),
    }
}

// =============================================================================
// PRINTING
// =============================================================================

fn push_idents_prefixed(out: &mut Vec<char>, v: &Vec<Ident>, prefix: &str)
    ensures
        final(out)@ == old(out)@ + idents_prefixed(v@, prefix@),
{
    let ghost start = out@;
    let mut i: usize = 0;
    assert(v@.take(0) =~= Seq::<Ident>::empty());
    assert(out@ =~= start + idents_prefixed(v@.take(0), prefix@));
    while i < v.len()
        invariant
            i <= v.len(),
            out@ == start + idents_prefixed(v@.take(i as int), prefix@),
        decreases v.len() - i,
    {
        assert(v@.take(i + 1).drop_last() =~= v@.take(i as int));
        push_str(out, prefix);
        push_str(out, v[i].0.as_str());
        assert(out@ =~= start + idents_prefixed(v@.take(i + 1), prefix@));
        i = i + 1;
    }
    assert(v@.take(v@.len() as int) =~= v@);
}

fn push_idents_joined(out: &mut Vec<char>, v: &Vec<Ident>)
    ensures
        final(out)@ == old(out)@ + idents_joined(v@),
{
    let ghost start = out@;
    let mut i: usize = 0;
    assert(v@.take(0) =~= Seq::<Ident>::empty());
    assert(out@ =~= start + idents_joined(v@.take(0)));
    while i < v.len()
        invariant
            i <= v.len(),
            out@ == start + idents_joined(v@.take(i as int)),
        decreases v.len() - i,
    {
        assert(v@.take(i + 1).drop_last() =~= v@.take(i as int));
        if i > 0 {
            push_str(out, " ");
        }
        push_str(out, v[i].0.as_str());
        assert(out@ =~= start + idents_joined(v@.take(i + 1)));
        i = i + 1;
    }
    assert(v@.take(v@.len() as int) =~= v@);
}

fn push_strings_joined(out: &mut Vec<char>, v: &Vec<String>)
    ensures
        final(out)@ == old(out)@ + strings_joined(v@),
{
    let ghost start = out@;
    let mut i: usize = 0;
    assert(v@.take(0) =~= Seq::<String>::empty());
    assert(out@ =~= start + strings_joined(v@.take(0)));
    while i < v.len()
        invariant
            i <= v.len(),
            out@ == start + strings_joined(v@.take(i as int)),
        decreases v.len() - i,
    {
        assert(v@.take(i + 1).drop_last() =~= v@.take(i as int));
        if i > 0 {
            push_str(out, " ");
        }
        push_str(out, v[i].as_str());
        assert(out@ =~= start + strings_joined(v@.take(i + 1)));
        i = i + 1;
    }
    assert(v@.take(v@.len() as int) =~= v@);
}

fn push_fields_display(out: &mut Vec<char>, v: &Vec<FieldDef>)
    ensures
        final(out)@ == old(out)@ + fields_display(v@),
{
    let ghost start = out@;
    let mut i: usize = 0;
    assert(v@.take(0) =~= Seq::<FieldDef>::empty());
    assert(out@ =~= start + fields_display(v@.take(0)));
    while i < v.len()
        invariant
            i <= v.len(),
            out@ == start + fields_display(v@.take(i as int)),
        decreases v.len() - i,
    {
        assert(v@.take(i + 1).drop_last() =~= v@.take(i as int));
        if i > 0 {
            push_str(out, " ");
        }
        push_str(out, v[i].name.0.as_str());
        match &v[i].type_annotation {
            Some(t) => {
                push_str(out, "::");
                push_type_display(out, t);
            },
            None => {},
        }
        assert(out@ =~= start + fields_display(v@.take(i + 1)));
        i = i + 1;
    }
    assert(v@.take(v@.len() as int) =~= v@);
}

fn push_variants_display(out: &mut Vec<char>, v: &Vec<VariantDef>)
    ensures
        final(out)@ == old(out)@ + variants_display(v@),
{
    let ghost start = out@;
    let mut i: usize = 0;
    assert(v@.take(0) =~= Seq::<VariantDef>::empty());
    assert(out@ =~= start + variants_display(v@.take(0)));
    while i < v.len()
        invariant
            i <= v.len(),
            out@ == start + variants_display(v@.take(i as int)),
        decreases v.len() - i,
    {
        assert(v@.take(i + 1).drop_last() =~= v@.take(i as int));
        push_str(out, "    | ");
        push_str(out, v[i].name.0.as_str());
        push_payload_display(out, &v[i].payload);
        push_str(out, "\n");
        assert(out@ =~= start + variants_display(v@.take(i + 1)));
        i = i + 1;
    }
    assert(v@.take(v@.len() as int) =~= v@);
}

fn push_directive_lines(out: &mut Vec<char>, v: &Vec<Directive>)
    ensures
        final(out)@ == old(out)@ + directive_lines(v@),
{
    let ghost start = out@;
    let mut i: usize = 0;
    assert(v@.take(0) =~= Seq::<Directive>::empty());
    assert(out@ =~= start + directive_lines(v@.take(0)));
    while i < v.len()
        invariant
            i <= v.len(),
            out@ == start + directive_lines(v@.take(i as int)),
        decreases v.len() - i,
    {
        assert(v@.take(i + 1).drop_last() =~= v@.take(i as int));
        let d = v[i].to_string();
        push_str(out, d.as_str());
        push_str(out, "\n");
        assert(out@ =~= start + directive_lines(v@.take(i + 1)));
        i = i + 1;
    }
    assert(v@.take(v@.len() as int) =~= v@);
}

fn push_clause_lines(out: &mut Vec<char>, v: &Vec<LambdaClause>)
    requires
        clauses_wf(v@),
    ensures
        final(out)@ == old(out)@ + clause_lines(v@),
{
    let ghost start = out@;
    let mut i: usize = 0;
    assert(v@.take(0) =~= Seq::<LambdaClause>::empty());
    assert(out@ =~= start + clause_lines(v@.take(0)));
    while i < v.len()
        invariant
            i <= v.len(),
            clauses_wf(v@),
            out@ == start + clause_lines(v@.take(i as int)),
        decreases v.len() - i,
    {
        assert(v@.take(i + 1).drop_last() =~= v@.take(i as int));
        proof {
            lemma_clauses_wf_index(v@, i as int);
        }
        push_clause_display(out, &v[i]);
        push_str(out, "\n");
        assert(out@ =~= start + clause_lines(v@.take(i + 1)));
        i = i + 1;
    }
    assert(v@.take(v@.len() as int) =~= v@);
}

fn push_functions_indented(out: &mut Vec<char>, v: &Vec<FunctionDef>)
    requires
        functions_wf(v@),
    ensures
        final(out)@ == old(out)@ + functions_indented(v@),
{
    let ghost start = out@;
    let mut i: usize = 0;
    assert(v@.take(0) =~= Seq::<FunctionDef>::empty());
    assert(out@ =~= start + functions_indented(v@.take(0)));
    while i < v.len()
        invariant
            i <= v.len(),
            functions_wf(v@),
            out@ == start + functions_indented(v@.take(i as int)),
        decreases v.len() - i,
    {
        assert(v@.take(i + 1).drop_last() =~= v@.take(i as int));
        push_function_indented(out, &v[i]);
        assert(out@ =~= start + functions_indented(v@.take(i + 1)));
        i = i + 1;
    }
    assert(v@.take(v@.len() as int) =~= v@);
}

fn push_members_display(out: &mut Vec<char>, v: &Vec<InterfaceMember>)
    requires
        members_wf(v@),
    ensures
        final(out)@ == old(out)@ + members_display(v@),
{
    let ghost start = out@;
    let mut i: usize = 0;
    assert(v@.take(0) =~= Seq::<InterfaceMember>::empty());
    assert(out@ =~= start + members_display(v@.take(0)));
    while i < v.len()
        invariant
            i <= v.len(),
            members_wf(v@),
            out@ == start + members_display(v@.take(i as int)),
        decreases v.len() - i,
    {
        assert(v@.take(i + 1).drop_last() =~= v@.take(i as int));
        match &v[i] {
            InterfaceMember::Signature(name, sig) => {
                push_str(out, "    ");
                push_str(out, name.0.as_str());
                push_str(out, " :: ");
                let t = sig.to_string();
                push_str(out, t.as_str());
                push_str(out, "\n");
            },
            InterfaceMember::FunctionDef(f) => push_function_indented(out, f),
        }
        assert(out@ =~= start + members_display(v@.take(i + 1)));
        i = i + 1;
    }
    assert(v@.take(v@.len() as int) =~= v@);
}

fn push_literal_value_debug(out: &mut Vec<char>, v: &LiteralValue)
    ensures
        final(out)@ == old(out)@ + literal_value_debug(*v),
{
    match v {
        LiteralValue::Int(s) => {
            push_str(out, "Int(");
            let d = debug_str(s.as_str());
            push_str(out, d.as_str());
        },
        LiteralValue::Float(s) => {
            push_str(out, "Float(");
            let d = debug_str(s.as_str());
            push_str(out, d.as_str());
        },
        LiteralValue::String(s) => {
            push_str(out, "String(");
            let d = debug_str(s.as_str());
            push_str(out, d.as_str());
        },
    }
    push_str(out, ")");
    assert(out@ =~= old(out)@ + literal_value_debug(*v));
}

fn push_payload_display(out: &mut Vec<char>, p: &VariantPayload)
    ensures
        final(out)@ == old(out)@ + payload_display(*p),
{
    match p {
        VariantPayload::Unit => {},
        VariantPayload::Typed(t) => {
            push_str(out, "(");
            push_type_display(out, t);
            push_str(out, ")");
        },
        VariantPayload::FixedValue(v) => {
            push_str(out, "(");
            push_literal_value_debug(out, v);
            push_str(out, ")");
        },
        VariantPayload::Predicated { predicate } => {
            push_str(out, "(");
            match predicate {
                VariantPredicate::Comparison { op, value } => {
                    push_str(out, "Comparison { op: ");
                    match op {
                        CompareOp::Lt => push_str(out, "Lt"),
                        CompareOp::Le => push_str(out, "Le"),
                        CompareOp::Gt => push_str(out, "Gt"),
                        CompareOp::Ge => push_str(out, "Ge"),
                    }
                    push_str(out, ", value: ");
                    push_literal_value_debug(out, value);
                    push_str(out, " }");
                },
            }
            push_str(out, ")");
        },
    }
    assert(out@ =~= old(out)@ + payload_display(*p));
}

fn push_function_display(out: &mut Vec<char>, f: &FunctionDef)
    requires
        function_wf(*f),
    ensures
        final(out)@ == old(out)@ + function_display(*f),
{
    push_directive_lines(out, &f.directives);
    push_str(out, f.name.0.as_str());
    push_str(out, " :: ");
    let s = f.sig.to_string();
    push_str(out, s.as_str());
    push_str(out, "\n");
    push_clause_lines(out, &f.clauses);
    assert(out@ =~= old(out)@ + function_display(*f));
}

fn push_function_indented(out: &mut Vec<char>, f: &FunctionDef)
    requires
        function_wf(*f),
    ensures
        final(out)@ == old(out)@ + indented_lines(function_display(*f)),
{
    let mut text: Vec<char> = Vec::new();
    push_function_display(&mut text, f);
    assert(text@ =~= function_display(*f));
    push_indented_lines(out, &text);
}

#[verifier::spinoff_prover]
#[verifier::rlimit(50)]
fn push_action_display(out: &mut Vec<char>, a: &ActionDef)
    requires
        stmts_wf(a.body@),
    ensures
        final(out)@ == old(out)@ + action_display(*a),
{
    push_directive_lines(out, &a.directives);
    push_str(out, "action ");
    push_str(out, a.name.0.as_str());
    if a.params.len() > 0 {
        push_str(out, "(");
        push_idents_joined(out, &a.params);
        push_str(out, ")");
    }
    match &a.return_type {
        Some(t) => {
            push_str(out, " => ");
            push_type_display(out, t);
        },
        None => {},
    }
    push_str(out, "\n");
    push_stmt_lines(out, &a.body);
    assert(out@ =~= old(out)@ + action_display(*a));
}

fn push_data_display(out: &mut Vec<char>, x: &DataDef)
    ensures
        final(out)@ == old(out)@ + data_display(*x),
{
    push_str(out, "data ");
    push_str(out, x.name.0.as_str());
    push_idents_prefixed(out, &x.type_params, "::");
    match &x.kind {
        DataKind::Product(fs) => {
            push_str(out, " (");
            push_fields_display(out, fs);
            push_str(out, ")");
        },
        DataKind::Refinement(t) => {
            push_str(out, " as ");
            push_type_display(out, t);
        },
    }
    assert(out@ =~= old(out)@ + data_display(*x));
}

fn push_enum_display(out: &mut Vec<char>, e: &EnumDef)
    ensures
        final(out)@ == old(out)@ + enum_display(*e),
{
    push_str(out, "enum ");
    push_str(out, e.name.0.as_str());
    push_idents_prefixed(out, &e.type_params, "::");
    push_str(out, "\n");
    push_variants_display(out, &e.variants);
    assert(out@ =~= old(out)@ + enum_display(*e));
}

fn push_interface_display(out: &mut Vec<char>, i: &InterfaceDef)
    requires
        members_wf(i.members@),
    ensures
        final(out)@ == old(out)@ + interface_display(*i),
{
    push_str(out, "interface ");
    push_str(out, i.name.0.as_str());
    if i.extends.len() > 0 {
        push_str(out, " implements");
        push_idents_prefixed(out, &i.extends, " ");
    }
    push_str(out, "\n");
    push_members_display(out, &i.members);
    assert(out@ =~= old(out)@ + interface_display(*i));
}

fn push_impl_display(out: &mut Vec<char>, i: &ImplDef)
    requires
        functions_wf(i.implementations@),
    ensures
        final(out)@ == old(out)@ + impl_display(*i),
{
    let q = i.for_type.to_string();
    push_str(out, q.as_str());
    push_str(out, " implements ");
    push_str(out, i.interface.0.as_str());
    push_str(out, "\n");
    push_functions_indented(out, &i.implementations);
    assert(out@ =~= old(out)@ + impl_display(*i));
}

fn push_alias_display(out: &mut Vec<char>, a: &AliasDef)
    ensures
        final(out)@ == old(out)@ + alias_display(*a),
{
    push_str(out, "alias ");
    push_type_display(out, &a.target);
    push_str(out, " as ");
    push_str(out, a.name.0.as_str());
    assert(out@ =~= old(out)@ + alias_display(*a));
}

fn push_import_display(out: &mut Vec<char>, i: &Import)
    ensures
        final(out)@ == old(out)@ + import_display(*i),
{
    push_str(out, "import ");
    match i {
        Import::Namespace { module } => push_str(out, module.as_str()),
        Import::Item { module, item } => {
            push_str(out, module.as_str());
            push_str(out, ".");
            push_str(out, item.as_str());
        },
        Import::Items { module, items } => {
            push_str(out, module.as_str());
            push_str(out, ".(");
            push_strings_joined(out, items);
            push_str(out, ")");
        },
    }
    assert(out@ =~= old(out)@ + import_display(*i));
}

fn push_export_display(out: &mut Vec<char>, e: &Export)
    ensures
        final(out)@ == old(out)@ + export_display(*e),
{
    push_str(out, "export");
    push_idents_prefixed(out, &e.items, " ");
    assert(out@ =~= old(out)@ + export_display(*e));
}

fn push_top_level_display(out: &mut Vec<char>, d: &TopLevel)
    requires
        top_level_wf(*d),
    ensures
        final(out)@ == old(out)@ + top_level_display(*d),
{
    match d {
        TopLevel::Function(f) => push_function_display(out, f),
        TopLevel::Action(a) => push_action_display(out, a),
        TopLevel::Data(x) => push_data_display(out, x),
        TopLevel::Enum(e) => push_enum_display(out, e),
        TopLevel::Interface(i) => push_interface_display(out, i),
        TopLevel::Implements(i) => push_impl_display(out, i),
        TopLevel::Alias(a) => push_alias_display(out, a),
        TopLevel::Import(i) => push_import_display(out, i),
        TopLevel::Export(e) => push_export_display(out, e),
        TopLevel::Statement(st) => push_stmt_display(out, st),
    }
}

// =============================================================================
// TEXT
// =============================================================================

impl TopLevel {
    /// The declaration as written.
    pub fn to_string(&self) -> (r: String)
        requires
            top_level_wf(*self),
        ensures
            r@ == top_level_display(*self),
    {
        let mut out: Vec<char> = Vec::new();
        push_top_level_display(&mut out, self);
        assert(out@ =~= top_level_display(*self));
        string_from_chars(&out)
    }
}

impl FunctionDef {
    /// The function as written: directives, signature and clauses, each on a line.
    pub fn to_string(&self) -> (r: String)
        requires
            function_wf(*self),
        ensures
            r@ == function_display(*self),
    {
        let mut out: Vec<char> = Vec::new();
        push_function_display(&mut out, self);
        assert(out@ =~= function_display(*self));
        string_from_chars(&out)
    }
}

impl ActionDef {
    /// The action as written: directives, header, then the statements indented.
    pub fn to_string(&self) -> (r: String)
        requires
            stmts_wf(self.body@),
        ensures
            r@ == action_display(*self),
    {
        let mut out: Vec<char> = Vec::new();
        push_action_display(&mut out, self);
        assert(out@ =~= action_display(*self));
        string_from_chars(&out)
    }
}

impl DataDef {
    /// The data definition as written.
    pub fn to_string(&self) -> (r: String)
        ensures
            r@ == data_display(*self),
    {
        let mut out: Vec<char> = Vec::new();
        push_data_display(&mut out, self);
        assert(out@ =~= data_display(*self));
        string_from_chars(&out)
    }
}

impl EnumDef {
    /// The enum as written: header, then one line per variant.
    pub fn to_string(&self) -> (r: String)
        ensures
            r@ == enum_display(*self),
    {
        let mut out: Vec<char> = Vec::new();
        push_enum_display(&mut out, self);
        assert(out@ =~= enum_display(*self));
        string_from_chars(&out)
    }
}

impl InterfaceDef {
    /// The interface as written: header, then the members indented.
    pub fn to_string(&self) -> (r: String)
        requires
            members_wf(self.members@),
        ensures
            r@ == interface_display(*self),
    {
        let mut out: Vec<char> = Vec::new();
        push_interface_display(&mut out, self);
        assert(out@ =~= interface_display(*self));
        string_from_chars(&out)
    }
}

impl ImplDef {
    /// The implementation as written: header, then the functions indented.
    pub fn to_string(&self) -> (r: String)
        requires
            functions_wf(self.implementations@),
        ensures
            r@ == impl_display(*self),
    {
        let mut out: Vec<char> = Vec::new();
        push_impl_display(&mut out, self);
        assert(out@ =~= impl_display(*self));
        string_from_chars(&out)
    }
}

impl AliasDef {
    /// The alias as written: `alias Target as Name`.
    pub fn to_string(&self) -> (r: String)
        ensures
            r@ == alias_display(*self),
    {
        let mut out: Vec<char> = Vec::new();
        push_alias_display(&mut out, self);
        assert(out@ =~= alias_display(*self));
        string_from_chars(&out)
    }
}

impl Import {
    /// The import as written.
    pub fn to_string(&self) -> (r: String)
        ensures
            r@ == import_display(*self),
    {
        let mut out: Vec<char> = Vec::new();
        push_import_display(&mut out, self);
        assert(out@ =~= import_display(*self));
        string_from_chars(&out)
    }
}

impl Export {
    /// The export as written: `export` and the names.
    pub fn to_string(&self) -> (r: String)
        ensures
            r@ == export_display(*self),
    {
        let mut out: Vec<char> = Vec::new();
        push_export_display(&mut out, self);
        assert(out@ =~= export_display(*self));
        string_from_chars(&out)
    }
}

// =============================================================================
// VIEWS
// =============================================================================

/// A function definition by its contents.
pub struct FunctionView {
    pub name: Seq<char>,
    pub sig: FunctionSigView,
    pub arity: usize,
    pub directives: Seq<Directive>,
    pub clauses: Seq<ClauseView>,
}

/// An action definition by its contents.
pub struct ActionView {
    pub name: Seq<char>,
    pub params: Seq<Seq<char>>,
    pub return_type: Option<TypeView>,
    pub directives: Seq<Directive>,
    pub body: Seq<SpannedStmtView>,
}

/// The kind of a data definition by its contents: fields by name and type
/// annotation, or the refined type.
pub enum DataKindView {
    Product(Seq<(Seq<char>, Option<TypeView>)>),
    Refinement(TypeView),
}

/// A data definition by its contents.
pub struct DataView {
    pub name: Seq<char>,
    pub type_params: Seq<Seq<char>>,
    pub kind: DataKindView,
}

/// The payload of a variant by its contents.
pub enum PayloadView {
    Unit,
    Typed(TypeView),
    FixedValue(LiteralValue),
    Predicated(VariantPredicate),
}

/// An enum definition by its contents: its variants by name and payload.
pub struct EnumView {
    pub name: Seq<char>,
    pub type_params: Seq<Seq<char>>,
    pub variants: Seq<(Seq<char>, PayloadView)>,
}

/// A member of an interface by its contents.
pub enum MemberView {
    Signature(Seq<char>, FunctionSigView),
    FunctionDef(FunctionView),
}

/// An interface definition by its contents.
pub struct InterfaceView {
    pub name: Seq<char>,
    pub extends: Seq<Seq<char>>,
    pub members: Seq<MemberView>,
}

/// An implementation by its contents.
pub struct ImplView {
    pub for_type: (Option<Seq<char>>, Seq<char>),
    pub interface: Seq<char>,
    pub implementations: Seq<FunctionView>,
}

/// An import by its contents.
pub enum ImportView {
    Namespace(Seq<char>),
    Item(Seq<char>, Seq<char>),
    Items(Seq<char>, Seq<Seq<char>>),
}

/// A top-level declaration by its contents.
pub enum TopLevelView {
    Function(FunctionView),
    Action(ActionView),
    Data(DataView),
    Enum(EnumView),
    Interface(InterfaceView),
    Implements(ImplView),
    Alias { name: Seq<char>, target: TypeView },
    Import(ImportView),
    Export(Seq<Seq<char>>),
    Statement(StmtView),
}

/// A module by its contents.
pub struct ModuleView {
    pub name: Seq<char>,
    pub declarations: Seq<(TopLevelView, Span)>,
    pub exports: Seq<Seq<char>>,
    pub imports: Seq<ImportView>,
}

/// The texts of identifiers.
pub open spec fn idents_view(is: Seq<Ident>) -> Seq<Seq<char>> {
    is.map_values(|i: Ident| i@)
}

/// The texts of strings.
pub open spec fn strings_view(ss: Seq<String>) -> Seq<Seq<char>> {
    ss.map_values(|s: String| s@)
}

/// The view of a function definition.
pub open spec fn function_view(f: FunctionDef) -> FunctionView {
    FunctionView {
        name: f.name@,
        sig: f.sig@,
        arity: f.arity,
        directives: f.directives@,
        clauses: clauses_view(f.clauses@),
    }
}

/// The views of function definitions.
pub open spec fn functions_view(fs: Seq<FunctionDef>) -> Seq<FunctionView> {
    fs.map_values(|f: FunctionDef| function_view(f))
}

/// The view of an action definition.
pub open spec fn action_view(a: ActionDef) -> ActionView {
    ActionView {
        name: a.name@,
        params: idents_view(a.params@),
        return_type: match a.return_type {
            Some(t) => Some(t@),
            None => None,
        },
        directives: a.directives@,
        body: stmts_view(a.body@),
    }
}

/// The view of a field.
pub open spec fn field_view(f: FieldDef) -> (Seq<char>, Option<TypeView>) {
    (f.name@, match f.type_annotation {
        Some(t) => Some(t@),
        None => None,
    })
}

/// The views of fields.
pub open spec fn fields_view(fs: Seq<FieldDef>) -> Seq<(Seq<char>, Option<TypeView>)> {
    fs.map_values(|f: FieldDef| field_view(f))
}

/// The view of a data definition.
pub open spec fn data_view(d: DataDef) -> DataView {
    DataView {
        name: d.name@,
        type_params: idents_view(d.type_params@),
        kind: match d.kind {
            DataKind::Product(fs) => DataKindView::Product(fields_view(fs@)),
            DataKind::Refinement(t) => DataKindView::Refinement(t@),
        },
    }
}

/// The view of a payload.
pub open spec fn payload_view(p: VariantPayload) -> PayloadView {
    match p {
        VariantPayload::Unit => PayloadView::Unit,
        VariantPayload::Typed(t) => PayloadView::Typed(t@),
        VariantPayload::FixedValue(v) => PayloadView::FixedValue(v),
        VariantPayload::Predicated { predicate } => PayloadView::Predicated(predicate),
    }
}

/// The view of a variant.
pub open spec fn variant_view(v: VariantDef) -> (Seq<char>, PayloadView) {
    (v.name@, payload_view(v.payload))
}

/// The views of variants.
pub open spec fn variants_view(vs: Seq<VariantDef>) -> Seq<(Seq<char>, PayloadView)> {
    vs.map_values(|v: VariantDef| variant_view(v))
}

/// The view of an enum definition.
pub open spec fn enum_view(e: EnumDef) -> EnumView {
    EnumView { name: e.name@, type_params: idents_view(e.type_params@), variants: variants_view(e.variants@) }
}

/// The view of an interface member.
pub open spec fn member_view(m: InterfaceMember) -> MemberView {
    match m {
        InterfaceMember::Signature(n, s) => MemberView::Signature(n@, s@),
        InterfaceMember::FunctionDef(f) => MemberView::FunctionDef(function_view(f)),
    }
}

/// The views of interface members.
pub open spec fn members_view(ms: Seq<InterfaceMember>) -> Seq<MemberView> {
    ms.map_values(|m: InterfaceMember| member_view(m))
}

/// The view of an interface definition.
pub open spec fn interface_view(i: InterfaceDef) -> InterfaceView {
    InterfaceView { name: i.name@, extends: idents_view(i.extends@), members: members_view(i.members@) }
}

/// The view of an implementation.
pub open spec fn impl_view(i: ImplDef) -> ImplView {
    ImplView { for_type: i.for_type@, interface: i.interface@, implementations: functions_view(i.implementations@) }
}

/// The view of an import.
pub open spec fn import_view(i: Import) -> ImportView {
    match i {
        Import::Namespace { module } => ImportView::Namespace(module@),
        Import::Item { module, item } => ImportView::Item(module@, item@),
        Import::Items { module, items } => ImportView::Items(module@, strings_view(items@)),
    }
}

/// The views of imports.
pub open spec fn imports_view(is: Seq<Import>) -> Seq<ImportView> {
    is.map_values(|i: Import| import_view(i))
}

/// The view of a top-level declaration.
pub open spec fn top_level_view(d: TopLevel) -> TopLevelView {
    match d {
        TopLevel::Function(f) => TopLevelView::Function(function_view(f)),
        TopLevel::Action(a) => TopLevelView::Action(action_view(a)),
        TopLevel::Data(x) => TopLevelView::Data(data_view(x)),
        TopLevel::Enum(e) => TopLevelView::Enum(enum_view(e)),
        TopLevel::Interface(i) => TopLevelView::Interface(interface_view(i)),
        TopLevel::Implements(i) => TopLevelView::Implements(impl_view(i)),
        TopLevel::Alias(a) => TopLevelView::Alias { name: a.name@, target: a.target@ },
        TopLevel::Import(i) => TopLevelView::Import(import_view(i)),
        TopLevel::Export(e) => TopLevelView::Export(idents_view(e.items@)),
        TopLevel::Statement(s) => TopLevelView::Statement(stmt_view(s)),
    }
}

/// The views of spanned declarations, each with its span.
pub open spec fn decls_view(ds: Seq<Spanned<TopLevel>>) -> Seq<(TopLevelView, Span)> {
    ds.map_values(|d: Spanned<TopLevel>| (top_level_view(d.node), d.span))
}

/// The view of a module.
pub open spec fn module_view(m: Module) -> ModuleView {
    ModuleView {
        name: m.name@,
        declarations: decls_view(m.declarations@),
        exports: idents_view(m.exports@),
        imports: imports_view(m.imports@),
    }
}

impl View for Module {
    type V = ModuleView;

    open spec fn view(&self) -> ModuleView {
        module_view(*self)
    }
}

} // verus!
