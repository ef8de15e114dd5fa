//! Errors reported by the type checker.

use vstd::prelude::*;
use crate::ast::types::{
    Type, TypeView, type_display, types_display, types_view, push_type_display, push_types_display,
};
use crate::lexer::token::Span;
use crate::text::{decimal, push_decimal, push_str, string_from_chars};

verus! {

broadcast use vstd::string::group_string_axioms;

/// The ways type checking can fail.
#[derive(Debug, PartialEq)]
pub enum TypeError {
    /// Two types do not unify.
    TypeMismatch { expected: Type, found: Type, span: Span },
    /// A type variable would stand for a type that contains it.
    InfiniteType { var: String, typ: Type, span: Span },
    /// A name is used that no scope binds.
    UnboundVariable { name: String, span: Span },
    /// No signature of a multiple-dispatch function accepts the arguments.
    NoMatchingDispatch { func_name: String, args: Vec<Type>, span: Span },
    /// Several signatures accept the arguments equally well.
    AmbiguousDispatch { func_name: String, args: Vec<Type>, span: Span },
    /// A pure function refers to an action.
    ImpureCallInPureContext { action_name: String, span: Span },
    /// Neither the type nor the interface of an implementation is local.
    OrphanRuleViolation { ty_name: String, interface_name: String, span: Span },
    /// A function is applied to the wrong number of arguments.
    ArityMismatch { expected: usize, found: usize, span: Span },
}

/// The message of an error.
pub open spec fn type_error_display(e: TypeError) -> Seq<char> {
    match e {
        TypeError::TypeMismatch { expected, found, .. } => "Type Mismatch: expected `"@
            + type_display(expected@) + "`, but found `"@ + type_display(found@) + "`"@,
        TypeError::InfiniteType { var, typ, .. } => "Infinite Type: variable `"@ + var@
            + "` occurs inside `"@ + type_display(typ@) + "`"@,
        TypeError::UnboundVariable { name, .. } => "Unbound Variable: `"@ + name@
            + "` is not defined in this scope"@,
        TypeError::NoMatchingDispatch { func_name, args, .. } => "No Matching Dispatch: no implementation of `"@
            + func_name@ + "` accepts arguments ("@ + types_display(types_view(args@), " "@) + ")"@,
        TypeError::AmbiguousDispatch { func_name, args, .. } => "Ambiguous Dispatch: multiple implementations of `"@
            + func_name@ + "` match arguments ("@ + types_display(types_view(args@), " "@) + ")"@,
        TypeError::ImpureCallInPureContext { action_name, .. } => "Impure Call in Pure Context: pure functions cannot call action `"@
            + action_name@ + "`"@,
        TypeError::OrphanRuleViolation { ty_name, interface_name, .. } => "Orphan Rule Violation: cannot implement foreign interface `"@
            + interface_name@ + "` for foreign type `"@ + ty_name@ + "`"@,
        TypeError::ArityMismatch { expected, found, .. } => "Arity Mismatch: expected "@ + decimal(
            expected as nat,
        ) + " arguments, but found "@ + decimal(found as nat),
    }
}

impl TypeError {
    /// The span of source the error concerns.
    pub fn span(&self) -> (r: Span)
        ensures
            r == match *self {
                TypeError::TypeMismatch { span, .. } => span,
                TypeError::InfiniteType { span, .. } => span,
                TypeError::UnboundVariable { span, .. } => span,
                TypeError::NoMatchingDispatch { span, .. } => span,
                TypeError::AmbiguousDispatch { span, .. } => span,
                TypeError::ImpureCallInPureContext { span, .. } => span,
                TypeError::OrphanRuleViolation { span, .. } => span,
                TypeError::ArityMismatch { span, .. } => span,
            },
    {
        match self {
            TypeError::TypeMismatch { span, .. } => *span,
            TypeError::InfiniteType { span, .. } => *span,
            TypeError::UnboundVariable { span, .. } => *span,
            TypeError::NoMatchingDispatch { span, .. } => *span,
            TypeError::AmbiguousDispatch { span, .. } => *span,
            TypeError::ImpureCallInPureContext { span, .. } => *span,
            TypeError::OrphanRuleViolation { span, .. } => *span,
            TypeError::ArityMismatch { span, .. } => *span,
        }
    }

    /// The message of the error.
    pub fn to_string(&self) -> (r: String)
        ensures
            r@ == type_error_display(*self),
    {
        let mut out: Vec<char> = Vec::new();
        match self {
            TypeError::TypeMismatch { expected, found, .. } => {
                push_str(&mut out, "Type Mismatch: expected `");
                push_type_display(&mut out, expected);
                push_str(&mut out, "`, but found `");
                push_type_display(&mut out, found);
                push_str(&mut out, "`");
            },
            TypeError::InfiniteType { var, typ, .. } => {
                push_str(&mut out, "Infinite Type: variable `");
                push_str(&mut out, var.as_str());
                push_str(&mut out, "` occurs inside `");
                push_type_display(&mut out, typ);
                push_str(&mut out, "`");
            },
            TypeError::UnboundVariable { name, .. } => {
                push_str(&mut out, "Unbound Variable: `");
                push_str(&mut out, name.as_str());
                push_str(&mut out, "` is not defined in this scope");
            },
            TypeError::NoMatchingDispatch { func_name, args, .. } => {
                push_str(&mut out, "No Matching Dispatch: no implementation of `");
                push_str(&mut out, func_name.as_str());
                push_str(&mut out, "` accepts arguments (");
                push_types_display(&mut out, args, " ");
                push_str(&mut out, ")");
            },
            TypeError::AmbiguousDispatch { func_name, args, .. } => {
                push_str(&mut out, "Ambiguous Dispatch: multiple implementations of `");
                push_str(&mut out, func_name.as_str());
                push_str(&mut out, "` match arguments (");
                push_types_display(&mut out, args, " ");
                push_str(&mut out, ")");
            },
            TypeError::ImpureCallInPureContext { action_name, .. } => {
                push_str(&mut out, "Impure Call in Pure Context: pure functions cannot call action `");
                push_str(&mut out, action_name.as_str());
                push_str(&mut out, "`");
            },
            TypeError::OrphanRuleViolation { ty_name, interface_name, .. } => {
                push_str(&mut out, "Orphan Rule Violation: cannot implement foreign interface `");
                push_str(&mut out, interface_name.as_str());
                push_str(&mut out, "` for foreign type `");
                push_str(&mut out, ty_name.as_str());
                push_str(&mut out, "`");
            },
            TypeError::ArityMismatch { expected, found, .. } => {
                push_str(&mut out, "Arity Mismatch: expected ");
                push_decimal(&mut out, *expected as u64);
                push_str(&mut out, " arguments, but found ");
                push_decimal(&mut out, *found as u64);
            },
        }
        assert(out@ =~= type_error_display(*self));
        string_from_chars(&out)
    }
}

/// The mathematical content of a type error.
pub enum TypeErrorView {
    TypeMismatch { expected: TypeView, found: TypeView, span: Span },
    InfiniteType { var: Seq<char>, typ: TypeView, span: Span },
    UnboundVariable { name: Seq<char>, span: Span },
    NoMatchingDispatch { func_name: Seq<char>, args: Seq<TypeView>, span: Span },
    AmbiguousDispatch { func_name: Seq<char>, args: Seq<TypeView>, span: Span },
    ImpureCallInPureContext { action_name: Seq<char>, span: Span },
    OrphanRuleViolation { ty_name: Seq<char>, interface_name: Seq<char>, span: Span },
    ArityMismatch { expected: usize, found: usize, span: Span },
}

impl View for TypeError {
    type V = TypeErrorView;

    open spec fn view(&self) -> TypeErrorView {
        match *self {
            TypeError::TypeMismatch { expected, found, span } => TypeErrorView::TypeMismatch {
                expected: expected@,
                found: found@,
                span,
            },
            TypeError::InfiniteType { var, typ, span } => TypeErrorView::InfiniteType {
                var: var@,
                typ: typ@,
                span,
            },
            TypeError::UnboundVariable { name, span } => TypeErrorView::UnboundVariable {
                name: name@,
                span,
            },
            TypeError::NoMatchingDispatch { func_name, args, span } => TypeErrorView::NoMatchingDispatch {
                func_name: func_name@,
                args: types_view(args@),
                span,
            },
            TypeError::AmbiguousDispatch { func_name, args, span } => TypeErrorView::AmbiguousDispatch {
                func_name: func_name@,
                args: types_view(args@),
                span,
            },
            TypeError::ImpureCallInPureContext { action_name, span } => TypeErrorView::ImpureCallInPureContext {
                action_name: action_name@,
                span,
            },
            TypeError::OrphanRuleViolation { ty_name, interface_name, span } => TypeErrorView::OrphanRuleViolation {
                ty_name: ty_name@,
                interface_name: interface_name@,
                span,
            },
            TypeError::ArityMismatch { expected, found, span } => TypeErrorView::ArityMismatch {
                expected,
                found,
                span,
            },
        }
    }
}

} // verus!
