//! Declarations: imports and exports, functions, actions, data and enum
//! types, interfaces, implementations, aliases and directives; and the
//! module made of them.

use vstd::prelude::*;
use crate::lexer::token::{Token, SpannedToken};
use crate::ast::Spanned;
use crate::ast::id::{Ident, QualifiedIdent, Directive};
use crate::ast::stmt::Stmt;
use crate::ast::expr::LambdaClause;
use crate::ast::decl::{
    Module, TopLevel, FunctionDef, ActionDef, DataDef, DataKind, FieldDef, EnumDef, VariantDef,
    VariantPayload, VariantPredicate, LiteralValue, CompareOp, InterfaceDef, InterfaceMember, ImplDef,
    AliasDef, Import, Export,
};
use crate::ast::decl::{
    FunctionView, ActionView, DataKindView, DataView, PayloadView, EnumView, MemberView, InterfaceView,
    ImplView, ImportView, TopLevelView, ModuleView, idents_view, function_view, functions_view, action_view,
    field_view, fields_view, data_view, payload_view, variant_view, variants_view, enum_view, member_view,
    members_view, interface_view, impl_view, import_view, imports_view, top_level_view, decls_view,
    module_view,
};
use crate::ast::expr::{
    ClauseView, GuardClause, GuardView, WithBinding, BindingView, clause_view, clauses_view, guards_view,
    bindings_view, lemma_clauses_view_push, lemma_clauses_view_len,
};
use crate::ast::pattern::{Pattern, PatternView, spanned_patterns_view};
use crate::ast::stmt::{
    SpannedStmtView, stmts_view, spanned_stmt_view, lemma_stmts_view_push, lemma_stmts_view_len,
};
use crate::ast::types::{TypeView, lemma_types_view_len};
use crate::lexer::token::Span;
use crate::parser::cursor::{
    ident, ident_at, ident_is, pure_ident, operator_name, starts_upper, span_of, skip_newlines, is_tok,
    ident_of, plain_ident_of, after_newlines, after_separators, operator_char,
};
use crate::parser::expr::{expression, lambda_clause, expression_at, lambda_clause_at, sp};
use crate::parser::stmt::{recursive_statement, recursive_statement_at, block_items};
use crate::parser::type_parser::{
    type_expr, function_sig, join_path, type_expr_at, function_sig_at, upper_name, joined, texts,
};
use crate::parser::common::SyntaxError;

verus! {

// =============================================================================
// THE GRAMMAR OF DECLARATIONS
// =============================================================================
//
// Each rule gives what it reads at a position and the position after it,
// or nothing.

/// The name at `q` when it starts with an upper-case letter.
pub open spec fn type_name_of(t: Seq<SpannedToken>, q: int) -> Option<Seq<char>> {
    match ident_of(t, q) {
        Some(s) => if upper_name(s) {
            Some(s)
        } else {
            None
        },
        None => None,
    }
}

/// The text token at `q`.
pub open spec fn string_of(t: Seq<SpannedToken>, q: int) -> Option<String> {
    if 0 <= q < t.len() && t[q].token is String {
        Some(t[q].token->String_0)
    } else {
        None
    }
}

/// `(` a text `)`.
pub open spec fn paren_string_at(t: Seq<SpannedToken>, p: int) -> Option<(String, int)> {
    if is_tok(t, p, Token::LParen) && string_of(t, p + 1) is Some && is_tok(t, p + 2, Token::RParen) {
        Some((string_of(t, p + 1)->Some_0, p + 3))
    } else {
        None
    }
}

/// A directive, with newlines before and after it: `@test("...")`,
/// `@parallel`, `@comutative`, `@comptime` or `@ffi("...")`.
pub open spec fn directive_at(t: Seq<SpannedToken>, p: int) -> Option<(Directive, int)> {
    let s = after_newlines(t, p);
    if is_tok(t, s, Token::AtSymbol) && s + 1 < t.len() {
        let k = s + 1;
        let d = if ident_of(t, k) == Some("test"@) {
            match paren_string_at(t, k + 1) {
                Some((description, q)) => Some((Directive::Test { description }, q)),
                None => None,
            }
        } else if ident_of(t, k) == Some("parallel"@) {
            Some((Directive::Parallel, k + 1))
        } else if ident_of(t, k) == Some("comutative"@) {
            Some((Directive::Comutative, k + 1))
        } else if ident_of(t, k) == Some("comptime"@) {
            Some((Directive::Comptime, k + 1))
        } else if ident_of(t, k) == Some("ffi"@) {
            match paren_string_at(t, k + 1) {
                Some((symbol, q)) => Some((Directive::Ffi { symbol }, q)),
                None => None,
            }
        } else {
            None
        };
        match d {
            Some((d, q)) => Some((d, after_newlines(t, q))),
            None => None,
        }
    } else {
        None
    }
}

/// Directives from `q` on.
pub open spec fn directives_at(t: Seq<SpannedToken>, q: int) -> (Seq<Directive>, int)
    decreases t.len() - q,
{
    match directive_at(t, q) {
        Some((d, q2)) => if q < q2 <= t.len() {
            let r = directives_at(t, q2);
            (seq![d] + r.0, r.1)
        } else {
            (Seq::empty(), q)
        },
        None => (Seq::empty(), q),
    }
}

/// Names one after another from `q` on.
pub open spec fn idents_from(t: Seq<SpannedToken>, q: int) -> (Seq<Seq<char>>, int)
    decreases t.len() - q,
{
    match ident_of(t, q) {
        Some(s) => {
            let r = idents_from(t, q + 1);
            (seq![s] + r.0, r.1)
        },
        None => (Seq::empty(), q),
    }
}

/// `import` and a module, `module.Item` or `module.(Item ...)`, then a
/// newline if one follows.
pub open spec fn import_at(t: Seq<SpannedToken>, p: int) -> Option<(ImportView, int)> {
    if is_tok(t, p, Token::Import) {
        match ident_of(t, p + 1) {
            Some(module) => {
                let q0 = p + 2;
                let items = if is_tok(t, q0, Token::Dot) && is_tok(t, q0 + 1, Token::LParen) {
                    let r = idents_from(t, q0 + 2);
                    if r.0.len() > 0 && is_tok(t, r.1, Token::RParen) {
                        Some((ImportView::Items(module, r.0), r.1 + 1))
                    } else {
                        None
                    }
                } else {
                    None
                };
                let item = if is_tok(t, q0, Token::Dot) && ident_of(t, q0 + 1) is Some {
                    Some((ImportView::Item(module, ident_of(t, q0 + 1)->Some_0), q0 + 2))
                } else {
                    None
                };
                let found = if items is Some {
                    items->Some_0
                } else if item is Some {
                    item->Some_0
                } else {
                    (ImportView::Namespace(module), q0)
                };
                if is_tok(t, found.1, Token::Newline) {
                    Some((found.0, found.1 + 1))
                } else {
                    Some(found)
                }
            },
            None => None,
        }
    } else {
        None
    }
}

/// `export` and one or more names, then newlines.
pub open spec fn export_at(t: Seq<SpannedToken>, p: int) -> Option<(Seq<Seq<char>>, int)> {
    if is_tok(t, p, Token::Export) {
        let r = idents_from(t, p + 1);
        if r.0.len() == 0 {
            None
        } else {
            Some((r.0, after_newlines(t, r.1)))
        }
    } else {
        None
    }
}

/// The name of a function at `q`: a plain name, or a name made of operator
/// characters.
pub open spec fn function_name_of(t: Seq<SpannedToken>, q: int) -> Option<Seq<char>> {
    match plain_ident_of(t, q) {
        Some(s) => Some(s),
        None => match ident_of(t, q) {
            Some(s) => if forall|i: int| 0 <= i < s.len() ==> operator_char(#[trigger] s[i]) {
                Some(s)
            } else {
                None
            },
            None => None,
        },
    }
}

/// `otherwise`, `:`, and the body: a clause with no patterns.
pub open spec fn otherwise_clause_at(t: Seq<SpannedToken>, p: int) -> Option<(ClauseView, int)> {
    if is_tok(t, p, Token::Otherwise) && is_tok(t, p + 1, Token::Colon) {
        match expression_at(t, p + 2) {
            Some((body, q)) => Some((
                ClauseView { patterns: Seq::empty(), guards: Seq::empty(), body: Some(body), with: Seq::empty() },
                q,
            )),
            None => None,
        }
    } else {
        None
    }
}

/// Clauses from `q` on, each a lambda clause or `otherwise`, with newlines
/// around each.
pub open spec fn clauses_rest(t: Seq<SpannedToken>, q: int) -> (Seq<ClauseView>, int)
    decreases t.len() - q,
{
    let s = after_newlines(t, q);
    if q <= s <= t.len() {
        let found = match lambda_clause_at(t, s, true) {
            Some(x) => Some(x),
            None => otherwise_clause_at(t, s),
        };
        match found {
            Some((c, q2)) => if s < q2 <= after_newlines(t, q2) <= t.len() {
                let r = clauses_rest(t, after_newlines(t, q2));
                (seq![c] + r.0, r.1)
            } else {
                (Seq::empty(), q)
            },
            None => (Seq::empty(), q),
        }
    } else {
        (Seq::empty(), q)
    }
}

/// A function definition: its name, `::`, its signature, and its clauses.
pub open spec fn function_def_at(t: Seq<SpannedToken>, p: int) -> Option<(FunctionView, int)> {
    match function_name_of(t, p) {
        Some(name) => if is_tok(t, p + 1, Token::DoubleColon) {
            match function_sig_at(t, p + 2) {
                Some((sig, q1)) => if p < q1 <= t.len() {
                    let r = clauses_rest(t, q1);
                    Some((
                        FunctionView {
                            name,
                            sig,
                            arity: sig.params.len() as usize,
                            directives: Seq::empty(),
                            clauses: r.0,
                        },
                        r.1,
                    ))
                } else {
                    None
                },
                None => None,
            }
        } else {
            None
        },
        None => None,
    }
}

/// Plain names from `q` on, with commas and newlines around each.
pub open spec fn param_names(t: Seq<SpannedToken>, q: int) -> (Seq<Seq<char>>, int)
    decreases t.len() - q,
{
    let s = after_separators(t, q);
    if q <= s <= t.len() {
        match plain_ident_of(t, s) {
            Some(n) => if s + 1 <= after_separators(t, s + 1) <= t.len() {
                let r = param_names(t, after_separators(t, s + 1));
                (seq![n] + r.0, r.1)
            } else {
                (Seq::empty(), q)
            },
            None => (Seq::empty(), q),
        }
    } else {
        (Seq::empty(), q)
    }
}

/// `(` parameter names `)`.
pub open spec fn action_params_at(t: Seq<SpannedToken>, p: int) -> Option<(Seq<Seq<char>>, int)> {
    if is_tok(t, p, Token::LParen) {
        let r = param_names(t, p + 1);
        if is_tok(t, r.1, Token::RParen) {
            Some((r.0, r.1 + 1))
        } else {
            None
        }
    } else {
        None
    }
}

/// The body of an action: an indent, one or more statements with newlines
/// around each, newlines and a dedent; or one statement.
pub open spec fn action_body_at(t: Seq<SpannedToken>, p: int) -> Option<(Seq<SpannedStmtView>, int)> {
    let block = if is_tok(t, p, Token::Indent) {
        let r = block_items(t, p + 1);
        let q = after_newlines(t, r.1);
        if r.0.len() > 0 && is_tok(t, q, Token::Dedent) {
            Some((r.0, q + 1))
        } else {
            None
        }
    } else {
        None
    };
    if block is Some {
        block
    } else {
        match recursive_statement_at(t, p) {
            Some((st, q)) => Some((seq![st], q)),
            None => None,
        }
    }
}

/// An action definition: `action`, its name, its parameters if any, `=>`
/// and its return type if any, newlines, its body if any, and newlines.
pub open spec fn action_def_at(t: Seq<SpannedToken>, p: int) -> Option<(ActionView, int)> {
    if is_tok(t, p, Token::Action) {
        match plain_ident_of(t, p + 1) {
            Some(name) => {
                let q0 = p + 2;
                let params = match action_params_at(t, q0) {
                    Some(x) => x,
                    None => (Seq::empty(), q0),
                };
                let rt = if is_tok(t, params.1, Token::Arrow) {
                    match type_expr_at(t, params.1 + 1) {
                        Some((ty, q)) => (Some(ty), q),
                        None => (None, params.1),
                    }
                } else {
                    (None, params.1)
                };
                let q3 = after_newlines(t, rt.1);
                let body = match action_body_at(t, q3) {
                    Some(x) => x,
                    None => (Seq::empty(), q3),
                };
                Some((
                    ActionView {
                        name,
                        params: params.0,
                        return_type: rt.0,
                        directives: Seq::empty(),
                        body: body.0,
                    },
                    after_newlines(t, body.1),
                ))
            },
            None => None,
        }
    } else {
        None
    }
}

/// A field: a name, with `::` and its type if they follow.
pub open spec fn field_def_at(t: Seq<SpannedToken>, p: int) -> Option<((Seq<char>, Option<TypeView>), int)> {
    match ident_of(t, p) {
        Some(name) => {
            let typed = if is_tok(t, p + 1, Token::DoubleColon) {
                match type_expr_at(t, p + 2) {
                    Some((ty, q)) => Some(((name, Some(ty)), q)),
                    None => None,
                }
            } else {
                None
            };
            if typed is Some {
                typed
            } else {
                Some(((name, None), p + 1))
            }
        },
        None => None,
    }
}

/// Fields from `q` on, with newlines around each.
pub open spec fn fields_at(t: Seq<SpannedToken>, q: int) -> (Seq<(Seq<char>, Option<TypeView>)>, int)
    decreases t.len() - q,
{
    let s = after_newlines(t, q);
    if q <= s <= t.len() {
        match field_def_at(t, s) {
            Some((f, q2)) => if s < q2 <= after_newlines(t, q2) <= t.len() {
                let r = fields_at(t, after_newlines(t, q2));
                (seq![f] + r.0, r.1)
            } else {
                (Seq::empty(), q)
            },
            None => (Seq::empty(), q),
        }
    } else {
        (Seq::empty(), q)
    }
}

/// Type parameters from `q` on: `::` and a name, as often as they follow.
pub open spec fn type_params_at(t: Seq<SpannedToken>, q: int) -> (Seq<Seq<char>>, int)
    decreases t.len() - q,
{
    if is_tok(t, q, Token::DoubleColon) && ident_of(t, q + 1) is Some {
        let r = type_params_at(t, q + 2);
        (seq![ident_of(t, q + 1)->Some_0] + r.0, r.1)
    } else {
        (Seq::empty(), q)
    }
}

/// A data definition: `data`, its name, its type parameters, then fields
/// in parentheses, fields in an indented block, or `as` and the refined
/// type.
pub open spec fn data_def_at(t: Seq<SpannedToken>, p: int) -> Option<(DataView, int)> {
    if is_tok(t, p, Token::Data) {
        match type_name_of(t, p + 1) {
            Some(name) => {
                let tp = type_params_at(t, p + 2);
                let q1 = tp.1;
                let paren = if is_tok(t, q1, Token::LParen) {
                    let r = fields_at(t, q1 + 1);
                    if is_tok(t, r.1, Token::RParen) {
                        Some((DataKindView::Product(r.0), r.1 + 1))
                    } else {
                        None
                    }
                } else {
                    None
                };
                let block = if is_tok(t, q1, Token::Newline) {
                    let q2 = after_newlines(t, q1 + 1);
                    if is_tok(t, q2, Token::Indent) {
                        let r = fields_at(t, q2 + 1);
                        let q = after_newlines(t, r.1);
                        if r.0.len() > 0 && is_tok(t, q, Token::Dedent) {
                            Some((DataKindView::Product(r.0), q + 1))
                        } else {
                            None
                        }
                    } else {
                        None
                    }
                } else {
                    None
                };
                let refined = if is_tok(t, q1, Token::As) {
                    match type_expr_at(t, q1 + 1) {
                        Some((ty, q)) => Some((DataKindView::Refinement(ty), q)),
                        None => None,
                    }
                } else {
                    None
                };
                let kind = if paren is Some {
                    paren
                } else if block is Some {
                    block
                } else {
                    refined
                };
                match kind {
                    Some((k, q)) => Some((DataView { name, type_params: tp.0, kind: k }, q)),
                    None => None,
                }
            },
            None => None,
        }
    } else {
        None
    }
}

/// A value of a variant payload: an integer, a float or a text.
pub open spec fn payload_value_at(t: Seq<SpannedToken>, p: int) -> Option<(LiteralValue, int)> {
    if 0 <= p < t.len() {
        match t[p].token {
            Token::Int(s) => Some((LiteralValue::Int(s), p + 1)),
            Token::Float(s) => Some((LiteralValue::Float(s), p + 1)),
            Token::String(s) => Some((LiteralValue::String(s), p + 1)),
            _ => None,
        }
    } else {
        None
    }
}

/// A comparison of a variant predicate: `<`, `<=`, `>` or `>=`.
pub open spec fn payload_compare_at(t: Seq<SpannedToken>, p: int) -> Option<(CompareOp, int)> {
    match ident_of(t, p) {
        Some(s) => if s == "<"@ {
            Some((CompareOp::Lt, p + 1))
        } else if s == "<="@ {
            Some((CompareOp::Le, p + 1))
        } else if s == ">"@ {
            Some((CompareOp::Gt, p + 1))
        } else if s == ">="@ {
            Some((CompareOp::Ge, p + 1))
        } else {
            None
        },
        None => None,
    }
}

/// The payload of a variant: a type, a value, or a comparison with `_`
/// (which may be left out) and a value.
pub open spec fn variant_payload_at(t: Seq<SpannedToken>, p: int) -> Option<(PayloadView, int)> {
    match type_expr_at(t, p) {
        Some((ty, q)) => Some((PayloadView::Typed(ty), q)),
        None => match payload_value_at(t, p) {
            Some((v, q)) => Some((PayloadView::FixedValue(v), q)),
            None => match payload_compare_at(t, p) {
                Some((op, q0)) => {
                    let q1 = if is_tok(t, q0, Token::Hole) {
                        q0 + 1
                    } else {
                        q0
                    };
                    match payload_value_at(t, q1) {
                        Some((value, q)) => Some((
                            PayloadView::Predicated(VariantPredicate::Comparison { op, value }),
                            q,
                        )),
                        None => None,
                    }
                },
                None => None,
            },
        },
    }
}

/// A variant: `|`, a type name, and its payload in parentheses if any.
pub open spec fn variant_def_at(t: Seq<SpannedToken>, p: int) -> Option<((Seq<char>, PayloadView), int)> {
    if is_tok(t, p, Token::Pipe) {
        match type_name_of(t, p + 1) {
            Some(name) => {
                let q0 = p + 2;
                let with_payload = if is_tok(t, q0, Token::LParen) {
                    match variant_payload_at(t, q0 + 1) {
                        Some((pl, q)) => if is_tok(t, q, Token::RParen) {
                            Some(((name, pl), q + 1))
                        } else {
                            None
                        },
                        None => None,
                    }
                } else {
                    None
                };
                if with_payload is Some {
                    with_payload
                } else {
                    Some(((name, PayloadView::Unit), q0))
                }
            },
            None => None,
        }
    } else {
        None
    }
}

/// Variants from `q` on, with newlines around each.
pub open spec fn variants_at(t: Seq<SpannedToken>, q: int) -> (Seq<(Seq<char>, PayloadView)>, int)
    decreases t.len() - q,
{
    let s = after_newlines(t, q);
    if q <= s <= t.len() {
        match variant_def_at(t, s) {
            Some((v, q2)) => if s < q2 <= after_newlines(t, q2) <= t.len() {
                let r = variants_at(t, after_newlines(t, q2));
                (seq![v] + r.0, r.1)
            } else {
                (Seq::empty(), q)
            },
            None => (Seq::empty(), q),
        }
    } else {
        (Seq::empty(), q)
    }
}

/// An enum definition: `enum`, its name, its type parameters, and its
/// variants: in an indented block, on the lines that follow, or on the
/// same line.
pub open spec fn enum_def_at(t: Seq<SpannedToken>, p: int) -> Option<(EnumView, int)> {
    if is_tok(t, p, Token::Enum) {
        match type_name_of(t, p + 1) {
            Some(name) => {
                let tp = type_params_at(t, p + 2);
                let q1 = tp.1;
                let below = if is_tok(t, q1, Token::Newline) {
                    let q2 = after_newlines(t, q1 + 1);
                    let block = if is_tok(t, q2, Token::Indent) {
                        let r = variants_at(t, q2 + 1);
                        let q = after_newlines(t, r.1);
                        if is_tok(t, q, Token::Dedent) {
                            Some((r.0, q + 1))
                        } else {
                            None
                        }
                    } else {
                        None
                    };
                    if block is Some {
                        block
                    } else {
                        let r = variants_at(t, q2);
                        if r.0.len() > 0 {
                            Some(r)
                        } else {
                            None
                        }
                    }
                } else {
                    None
                };
                let vs = if below is Some {
                    below->Some_0
                } else {
                    variants_at(t, q1)
                };
                Some((EnumView { name, type_params: tp.0, variants: vs.0 }, vs.1))
            },
            None => None,
        }
    } else {
        None
    }
}

/// A function definition with the directives before it, which replace
/// its own.
pub open spec fn directed_function_at(t: Seq<SpannedToken>, p: int) -> Option<(FunctionView, int)> {
    let ds = directives_at(t, p);
    match function_def_at(t, ds.1) {
        Some((f, q)) => Some((
            FunctionView { name: f.name, sig: f.sig, arity: f.arity, directives: ds.0, clauses: f.clauses },
            q,
        )),
        None => None,
    }
}

/// A member of an interface: a directed function definition; with no
/// clauses it is a signature.
pub open spec fn interface_member_at(t: Seq<SpannedToken>, p: int) -> Option<(MemberView, int)> {
    match directed_function_at(t, p) {
        Some((f, q)) => if f.clauses.len() == 0 {
            Some((MemberView::Signature(f.name, f.sig), q))
        } else {
            Some((MemberView::FunctionDef(f), q))
        },
        None => None,
    }
}

/// Type names one after another from `q` on.
pub open spec fn type_names_from(t: Seq<SpannedToken>, q: int) -> (Seq<Seq<char>>, int)
    decreases t.len() - q,
{
    match type_name_of(t, q) {
        Some(n) => {
            let r = type_names_from(t, q + 1);
            (seq![n] + r.0, r.1)
        },
        None => (Seq::empty(), q),
    }
}

/// Members from `q` on, with newlines around each.
pub open spec fn members_at(t: Seq<SpannedToken>, q: int) -> (Seq<MemberView>, int)
    decreases t.len() - q,
{
    let s = after_newlines(t, q);
    if q <= s <= t.len() {
        match interface_member_at(t, s) {
            Some((m, q2)) => if s < q2 <= after_newlines(t, q2) <= t.len() {
                let r = members_at(t, after_newlines(t, q2));
                (seq![m] + r.0, r.1)
            } else {
                (Seq::empty(), q)
            },
            None => (Seq::empty(), q),
        }
    } else {
        (Seq::empty(), q)
    }
}

/// An interface definition: `interface`, its name, `implements` and the
/// interfaces it extends if any, newlines, and an indented block of
/// members.
pub open spec fn interface_def_at(t: Seq<SpannedToken>, p: int) -> Option<(InterfaceView, int)> {
    if is_tok(t, p, Token::Interface) {
        match type_name_of(t, p + 1) {
            Some(name) => {
                let q0 = p + 2;
                let ext = if is_tok(t, q0, Token::Implements) {
                    type_names_from(t, q0 + 1)
                } else {
                    (Seq::empty(), q0)
                };
                let q2 = after_newlines(t, ext.1);
                if is_tok(t, q2, Token::Indent) {
                    let r = members_at(t, q2 + 1);
                    let q = after_newlines(t, r.1);
                    if is_tok(t, q, Token::Dedent) {
                        Some((InterfaceView { name, extends: ext.0, members: r.0 }, q + 1))
                    } else {
                        None
                    }
                } else {
                    None
                }
            },
            None => None,
        }
    } else {
        None
    }
}

/// Type names from `q` on, each after `::`.
pub open spec fn type_path_rest(t: Seq<SpannedToken>, q: int) -> (Seq<Seq<char>>, int)
    decreases t.len() - q,
{
    if is_tok(t, q, Token::DoubleColon) && type_name_of(t, q + 1) is Some {
        let r = type_path_rest(t, q + 2);
        (seq![type_name_of(t, q + 1)->Some_0] + r.0, r.1)
    } else {
        (Seq::empty(), q)
    }
}

/// A type name, or type names joined by `::`.
pub open spec fn qualified_type_name_at(t: Seq<SpannedToken>, p: int) -> Option<((Option<Seq<char>>, Seq<char>), int)> {
    match type_name_of(t, p) {
        Some(first) => {
            let r = type_path_rest(t, p + 1);
            let parts = seq![first] + r.0;
            if parts.len() == 1 {
                Some(((None, first), r.1))
            } else {
                Some(((Some(joined(parts, parts.len() - 1)), parts.last()), r.1))
            }
        },
        None => None,
    }
}

/// Directed function definitions from `q` on, with newlines around each.
pub open spec fn impl_items(t: Seq<SpannedToken>, q: int) -> (Seq<FunctionView>, int)
    decreases t.len() - q,
{
    let s = after_newlines(t, q);
    if q <= s <= t.len() {
        match directed_function_at(t, s) {
            Some((f, q2)) => if s < q2 <= after_newlines(t, q2) <= t.len() {
                let r = impl_items(t, after_newlines(t, q2));
                (seq![f] + r.0, r.1)
            } else {
                (Seq::empty(), q)
            },
            None => (Seq::empty(), q),
        }
    } else {
        (Seq::empty(), q)
    }
}

/// An implementation: a type name, `implements`, the interface, then an
/// indented block of function definitions if one follows.
pub open spec fn impl_def_at(t: Seq<SpannedToken>, p: int) -> Option<(ImplView, int)> {
    match qualified_type_name_at(t, p) {
        Some((for_type, q0)) => if is_tok(t, q0, Token::Implements) {
            match type_name_of(t, q0 + 1) {
                Some(interface) => {
                    let q1 = q0 + 2;
                    let body = if is_tok(t, q1, Token::Newline) {
                        let q2 = after_newlines(t, q1 + 1);
                        if is_tok(t, q2, Token::Indent) {
                            let r = impl_items(t, q2 + 1);
                            let q = after_newlines(t, r.1);
                            if is_tok(t, q, Token::Dedent) {
                                Some((r.0, q + 1))
                            } else {
                                None
                            }
                        } else {
                            None
                        }
                    } else {
                        None
                    };
                    let b = if body is Some {
                        body->Some_0
                    } else {
                        (Seq::empty(), q1)
                    };
                    Some((ImplView { for_type, interface, implementations: b.0 }, b.1))
                },
                None => None,
            }
        } else {
            None
        },
        None => None,
    }
}

/// A type alias: `alias`, the type, `as`, the new name, and a newline if
/// one follows.
pub open spec fn alias_def_at(t: Seq<SpannedToken>, p: int) -> Option<((Seq<char>, TypeView), int)> {
    if is_tok(t, p, Token::Alias) {
        match type_expr_at(t, p + 1) {
            Some((target, q0)) => if is_tok(t, q0, Token::As) {
                match type_name_of(t, q0 + 1) {
                    Some(name) => {
                        let q1 = q0 + 2;
                        Some(((name, target), if is_tok(t, q1, Token::Newline) {
                            q1 + 1
                        } else {
                            q1
                        }))
                    },
                    None => None,
                }
            } else {
                None
            },
            None => None,
        }
    } else {
        None
    }
}

/// The first of: an import, an export, an action, a function, a data type,
/// an enum, an interface, an implementation, an alias, or a statement.
pub open spec fn top_level_at(t: Seq<SpannedToken>, p: int) -> Option<(TopLevelView, int)> {
    match import_at(t, p) {
        Some((i, q)) => Some((TopLevelView::Import(i), q)),
        None => match export_at(t, p) {
            Some((e, q)) => Some((TopLevelView::Export(e), q)),
            None => match action_def_at(t, p) {
                Some((a, q)) => Some((TopLevelView::Action(a), q)),
                None => match function_def_at(t, p) {
                    Some((f, q)) => Some((TopLevelView::Function(f), q)),
                    None => match data_def_at(t, p) {
                        Some((d, q)) => Some((TopLevelView::Data(d), q)),
                        None => match enum_def_at(t, p) {
                            Some((e, q)) => Some((TopLevelView::Enum(e), q)),
                            None => match interface_def_at(t, p) {
                                Some((i, q)) => Some((TopLevelView::Interface(i), q)),
                                None => match impl_def_at(t, p) {
                                    Some((i, q)) => Some((TopLevelView::Implements(i), q)),
                                    None => match alias_def_at(t, p) {
                                        Some(((name, target), q)) => Some((TopLevelView::Alias { name, target }, q)),
                                        None => match recursive_statement_at(t, p) {
                                            Some((s, q)) => Some((TopLevelView::Statement(s.0), q)),
                                            None => None,
                                        },
                                    },
                                },
                            },
                        },
                    },
                },
            },
        },
    }
}

/// A top-level declaration with the directives before it; functions and
/// actions take them after their own, other declarations drop them. Its
/// span covers the directives.
pub open spec fn top_level_decl_at(t: Seq<SpannedToken>, p: int) -> Option<((TopLevelView, Span), int)> {
    let ds = directives_at(t, p);
    match top_level_at(t, ds.1) {
        Some((node, q)) => {
            let node2 = match node {
                TopLevelView::Function(f) => TopLevelView::Function(
                    FunctionView {
                        name: f.name,
                        sig: f.sig,
                        arity: f.arity,
                        directives: f.directives + ds.0,
                        clauses: f.clauses,
                    },
                ),
                TopLevelView::Action(a) => TopLevelView::Action(
                    ActionView {
                        name: a.name,
                        params: a.params,
                        return_type: a.return_type,
                        directives: a.directives + ds.0,
                        body: a.body,
                    },
                ),
                other => other,
            };
            Some(((node2, sp(p, q)), q))
        },
        None => None,
    }
}

/// Top-level declarations from `q` on, with newlines around each.
pub open spec fn module_items(t: Seq<SpannedToken>, q: int) -> (Seq<(TopLevelView, Span)>, int)
    decreases t.len() - q,
{
    let s = after_newlines(t, q);
    if q <= s <= t.len() {
        match top_level_decl_at(t, s) {
            Some((d, q2)) => if s < q2 <= after_newlines(t, q2) <= t.len() {
                let r = module_items(t, after_newlines(t, q2));
                (seq![d] + r.0, r.1)
            } else {
                (Seq::empty(), q)
            },
            None => (Seq::empty(), q),
        }
    } else {
        (Seq::empty(), q)
    }
}

/// Declarations sorted out: the imports, in order, become the module's
/// imports; the names of the exports, in order, its exports; the other
/// declarations stay, in order.
pub open spec fn hoist(ds: Seq<(TopLevelView, Span)>) -> (Seq<(TopLevelView, Span)>, Seq<Seq<char>>, Seq<ImportView>)
    decreases ds.len(),
{
    if ds.len() == 0 {
        (Seq::empty(), Seq::empty(), Seq::empty())
    } else {
        let r = hoist(ds.drop_last());
        match ds.last().0 {
            TopLevelView::Import(i) => (r.0, r.1, r.2.push(i)),
            TopLevelView::Export(items) => (r.0, r.1 + items, r.2),
            _ => (r.0.push(ds.last()), r.1, r.2),
        }
    }
}

/// A module: newlines, declarations with newlines around each, newlines,
/// and the end of the input; or, where the declarations stop elsewhere,
/// the span of the token where they stop.
pub open spec fn module_at(t: Seq<SpannedToken>) -> Result<ModuleView, Span> {
    let r = module_items(t, after_newlines(t, 0));
    let q = after_newlines(t, r.1);
    if is_tok(t, q, Token::Eof) {
        let h = hoist(r.0);
        Ok(ModuleView { name: Seq::empty(), declarations: h.0, exports: h.1, imports: h.2 })
    } else {
        Err(sp(q, if q < t.len() {
            q + 1
        } else {
            q
        }))
    }
}

/// Whether the token at `p` is a newline.
fn at_newline(t: &Vec<SpannedToken>, p: usize) -> (r: bool)
    ensures
        r == (p < t@.len() && t@[p as int].token is Newline),
        r == is_tok(t@, p as int, Token::Newline),
{
    p < t.len() && matches!(t[p].token, Token::Newline)
}

/// The position after one or more newlines at `p`, if there is one.
fn some_newlines(t: &Vec<SpannedToken>, p: usize) -> (r: Option<usize>)
    requires
        p <= t@.len(),
    ensures
        r matches Some(q) ==> p < q <= t@.len() && q == after_newlines(t@, p + 1),
        r is Some <==> is_tok(t@, p as int, Token::Newline),
{
    if p >= t.len() {
        return None;
    }
    if at_newline(t, p) {
        Some(skip_newlines(t, p + 1))
    } else {
        None
    }
}

/// A name that starts with an upper-case letter, as an `Ident`.
fn type_name_ident(t: &Vec<SpannedToken>, p: usize) -> (r: Option<(Ident, usize)>)
    ensures
        r matches Some((_, q)) ==> q == p + 1 && p < t@.len(),
        match r {
            Some((i, _)) => type_name_of(t@, p as int) == Some(i@),
            None => type_name_of(t@, p as int) is None,
        },
{
    if p >= t.len() {
        return None;
    }
    match ident_at(t, p) {
        Some(s) => {
            if starts_upper(s.as_str()) {
                Some((Ident(s.clone()), p + 1))
            } else {
                None
            }
        },
        None => None,
    }
}

/// Any identifier, as an `Ident`.
fn any_ident(t: &Vec<SpannedToken>, p: usize) -> (r: Option<(Ident, usize)>)
    ensures
        r matches Some((_, q)) ==> q == p + 1 && p < t@.len(),
        match r {
            Some((i, _)) => ident_of(t@, p as int) == Some(i@),
            None => ident_of(t@, p as int) is None,
        },
{
    match ident(t, p) {
        Some((s, q)) => Some((Ident(s), q)),
        None => None,
    }
}

/// The text of a string token at `p`.
fn string_content(t: &Vec<SpannedToken>, p: usize) -> (r: Option<(String, usize)>)
    ensures
        r matches Some((_, q)) ==> q == p + 1 && p < t@.len(),
        match r {
            Some((s, _)) => string_of(t@, p as int) == Some(s),
            None => string_of(t@, p as int) is None,
        },
{
    if p >= t.len() {
        return None;
    }
    match &t[p].token {
        Token::String(s) => Some((s.clone(), p + 1)),
        _ => None,
    }
}

/// `(` a string `)` from `p` on.
fn parenthesised_string(t: &Vec<SpannedToken>, p: usize) -> (r: Option<(String, usize)>)
    requires
        p <= t@.len(),
    ensures
        r matches Some((_, q)) ==> p < q <= t@.len(),
        match r {
            Some((s, q)) => paren_string_at(t@, p as int) == Some((s, q as int)),
            None => paren_string_at(t@, p as int) is None,
        },
{
    if !(p < t.len() && matches!(t[p].token, Token::LParen)) {
        return None;
    }
    match string_content(t, p + 1) {
        Some((s, q)) => {
            if q < t.len() && matches!(t[q].token, Token::RParen) {
                Some((s, q + 1))
            } else {
                None
            }
        },
        None => None,
    }
}

/// A directive, with newlines around it if any: `@test("...")`,
/// `@parallel`, `@comutative`, `@comptime` or `@ffi("...")`.
pub fn directive(t: &Vec<SpannedToken>, p: usize) -> (r: Option<(Directive, usize)>)
    requires
        p <= t@.len(),
    ensures
        r matches Some((_, q)) ==> p < q <= t@.len(),
        match r {
            Some((d, q)) => directive_at(t@, p as int) == Some((d, q as int)),
            None => directive_at(t@, p as int) is None,
        },
{
    let s = skip_newlines(t, p);
    if !(s < t.len() && s + 1 < t.len() && matches!(t[s].token, Token::AtSymbol)) {
        return None;
    }
    let k = s + 1;
    let (d, q) = if ident_is(t, k, "test") {
        match parenthesised_string(t, k + 1) {
            Some((description, q)) => (Directive::Test { description }, q),
            None => {
                return None;
            },
        }
    } else if ident_is(t, k, "parallel") {
        (Directive::Parallel, k + 1)
    } else if ident_is(t, k, "comutative") {
        (Directive::Comutative, k + 1)
    } else if ident_is(t, k, "comptime") {
        (Directive::Comptime, k + 1)
    } else if ident_is(t, k, "ffi") {
        match parenthesised_string(t, k + 1) {
            Some((symbol, q)) => (Directive::Ffi { symbol }, q),
            None => {
                return None;
            },
        }
    } else {
        return None;
    };
    Some((d, skip_newlines(t, q)))
}

/// Directives one after another from `p` on.
fn directives(t: &Vec<SpannedToken>, p: usize) -> (r: (Vec<Directive>, usize))
    requires
        p <= t@.len(),
    ensures
        p <= r.1 <= t@.len(),
        directives_at(t@, p as int) == (r.0@, r.1 as int),
{
    let ghost whole = directives_at(t@, p as int);
    let mut ds: Vec<Directive> = Vec::new();
    let mut q = p;
    loop
        invariant
            p <= q <= t@.len(),
            whole == directives_at(t@, p as int),
            ds@ + directives_at(t@, q as int).0 == whole.0,
            directives_at(t@, q as int).1 == whole.1,
        ensures
            p <= q <= t@.len(),
            ds@ + directives_at(t@, q as int).0 == whole.0,
            directives_at(t@, q as int).1 == whole.1,
            directives_at(t@, q as int) == (Seq::<Directive>::empty(), q as int),
        decreases t@.len() - q,
    {
        match directive(t, q) {
            Some((d, q2)) => {
                proof {
                    let more = directives_at(t@, q2 as int);
                    assert(directives_at(t@, q as int) == (seq![d] + more.0, more.1));
                    assert(ds@.push(d) + more.0 =~= ds@ + (seq![d] + more.0));
                }
                ds.push(d);
                q = q2;
            },
            None => {
                break;
            },
        }
    }
    assert(ds@ =~= whole.0);
    (ds, q)
}

/// Identifiers one after another from `p` on.
fn idents(t: &Vec<SpannedToken>, p: usize) -> (r: (Vec<String>, usize))
    requires
        p <= t@.len(),
    ensures
        p <= r.1 <= t@.len(),
        idents_from(t@, p as int) == (texts(r.0@), r.1 as int),
{
    let ghost whole = idents_from(t@, p as int);
    let mut items: Vec<String> = Vec::new();
    let mut q = p;
    loop
        invariant
            p <= q <= t@.len(),
            whole == idents_from(t@, p as int),
            texts(items@) + idents_from(t@, q as int).0 == whole.0,
            idents_from(t@, q as int).1 == whole.1,
        ensures
            p <= q <= t@.len(),
            texts(items@) + idents_from(t@, q as int).0 == whole.0,
            idents_from(t@, q as int).1 == whole.1,
            idents_from(t@, q as int) == (Seq::<Seq<char>>::empty(), q as int),
        decreases t@.len() - q,
    {
        match ident(t, q) {
            Some((s, q2)) => {
                proof {
                    let more = idents_from(t@, q2 as int);
                    assert(ident_of(t@, q as int) == Some(s@));
                    assert(idents_from(t@, q as int) == (seq![s@] + more.0, more.1));
                    assert(texts(items@.push(s)) =~= texts(items@).push(s@));
                    assert(texts(items@).push(s@) + more.0 =~= texts(items@) + (seq![s@] + more.0));
                }
                items.push(s);
                q = q2;
            },
            None => {
                break;
            },
        }
    }
    assert(texts(items@) =~= whole.0);
    (items, q)
}

/// `import` and a module, `module.Item`, or `module.(Item ...)`, then a
/// newline if one follows.
fn import_decl(t: &Vec<SpannedToken>, p: usize) -> (r: Option<(Import, usize)>)
    requires
        p <= t@.len(),
    ensures
        r matches Some((_, q)) ==> p < q <= t@.len(),
        match r {
            Some((i, q)) => import_at(t@, p as int) == Some((import_view(i), q as int)),
            None => import_at(t@, p as int) is None,
        },
{
    if !(p < t.len() && matches!(t[p].token, Token::Import)) {
        return None;
    }
    let (module, q0) = match ident(t, p + 1) {
        Some(x) => x,
        None => {
            return None;
        },
    };
    let mut result: Option<(Import, usize)> = None;
    if q0 < t.len() && q0 + 1 < t.len() && matches!(t[q0].token, Token::Dot) && matches!(t[q0 + 1].token, Token::LParen) {
        let (items, q) = idents(t, q0 + 2);
        if items.len() > 0 && q < t.len() && matches!(t[q].token, Token::RParen) {
            result = Some((Import::Items { module: module.clone(), items }, q + 1));
        }
    }
    if result.is_none() && q0 < t.len() && matches!(t[q0].token, Token::Dot) {
        match ident(t, q0 + 1) {
            Some((item, q)) => {
                result = Some((Import::Item { module: module.clone(), item }, q));
            },
            None => {},
        }
    }
    let (import, q) = match result {
        Some(x) => x,
        None => (Import::Namespace { module }, q0),
    };
    if at_newline(t, q) {
        Some((import, q + 1))
    } else {
        Some((import, q))
    }
}

/// `export` and one or more names, then newlines if any.
fn export_decl(t: &Vec<SpannedToken>, p: usize) -> (r: Option<(Export, usize)>)
    requires
        p <= t@.len(),
    ensures
        r matches Some((_, q)) ==> p < q <= t@.len(),
        match r {
            Some((e, q)) => export_at(t@, p as int) == Some((idents_view(e.items@), q as int)),
            None => export_at(t@, p as int) is None,
        },
{
    if !(p < t.len() && matches!(t[p].token, Token::Export)) {
        return None;
    }
    let ghost whole = idents_from(t@, p + 1);
    let mut items: Vec<Ident> = Vec::new();
    let mut q = p + 1;
    loop
        invariant
            p < q <= t@.len(),
            whole == idents_from(t@, p + 1),
            idents_view(items@) + idents_from(t@, q as int).0 == whole.0,
            idents_from(t@, q as int).1 == whole.1,
        ensures
            p < q <= t@.len(),
            idents_view(items@) + idents_from(t@, q as int).0 == whole.0,
            idents_from(t@, q as int).1 == whole.1,
            idents_from(t@, q as int) == (Seq::<Seq<char>>::empty(), q as int),
        decreases t@.len() - q,
    {
        match any_ident(t, q) {
            Some((i, q2)) => {
                proof {
                    let more = idents_from(t@, q2 as int);
                    assert(idents_from(t@, q as int) == (seq![i@] + more.0, more.1));
                    assert(idents_view(items@.push(i)) =~= idents_view(items@).push(i@));
                    assert(idents_view(items@).push(i@) + more.0 =~= idents_view(items@) + (seq![i@] + more.0));
                }
                items.push(i);
                q = q2;
            },
            None => {
                break;
            },
        }
    }
    assert(idents_view(items@) =~= whole.0);
    if items.len() == 0 {
        return None;
    }
    Some((Export { items }, skip_newlines(t, q)))
}

/// The name of a function: a plain name, or a name made of operator
/// characters.
fn function_name(t: &Vec<SpannedToken>, p: usize) -> (r: Option<(Ident, usize)>)
    ensures
        r matches Some((_, q)) ==> q == p + 1 && p < t@.len(),
        match r {
            Some((i, _)) => function_name_of(t@, p as int) == Some(i@),
            None => function_name_of(t@, p as int) is None,
        },
{
    match pure_ident(t, p) {
        Some((s, q)) => {
            return Some((Ident(s), q));
        },
        None => {},
    }
    if p >= t.len() {
        return None;
    }
    match ident_at(t, p) {
        Some(s) => {
            if operator_name(s.as_str()) {
                Some((Ident(s.clone()), p + 1))
            } else {
                None
            }
        },
        None => None,
    }
}

/// `otherwise`, `:`, and the body: a clause with no patterns.
fn otherwise_clause(t: &Vec<SpannedToken>, p: usize) -> (r: Option<(LambdaClause, usize)>)
    requires
        p <= t@.len(),
    ensures
        r matches Some((_, q)) ==> p < q <= t@.len(),
        match r {
            Some((c, q)) => otherwise_clause_at(t@, p as int) == Some((clause_view(c), q as int)),
            None => otherwise_clause_at(t@, p as int) is None,
        },
{
    if !(p < t.len() && p + 1 < t.len() && matches!(t[p].token, Token::Otherwise) && matches!(t[p + 1].token, Token::Colon)) {
        return None;
    }
    match expression(t, p + 2) {
        Some((body, q)) => {
            let patterns: Vec<Spanned<Pattern>> = Vec::new();
            let guards: Vec<GuardClause> = Vec::new();
            let with: Vec<WithBinding> = Vec::new();
            assert(spanned_patterns_view(patterns@) =~= Seq::<(PatternView, Span)>::empty());
            assert(guards_view(guards@) =~= Seq::<GuardView>::empty());
            assert(bindings_view(with@) =~= Seq::<BindingView>::empty());
            Some((LambdaClause { patterns, guards, body: Some(body), with }, q))
        },
        None => None,
    }
}

/// A function definition: its name, `::`, its signature, then its
/// clauses (lambda clauses or `otherwise`), newlines around each if any.
fn function_def(t: &Vec<SpannedToken>, p: usize) -> (r: Option<(FunctionDef, usize)>)
    requires
        p <= t@.len(),
    ensures
        r matches Some((_, q)) ==> p < q <= t@.len(),
        match r {
            Some((f, q)) => function_def_at(t@, p as int) == Some((function_view(f), q as int)),
            None => function_def_at(t@, p as int) is None,
        },
{
    let (name, q0) = match function_name(t, p) {
        Some(x) => x,
        None => {
            return None;
        },
    };
    if !(q0 < t.len() && matches!(t[q0].token, Token::DoubleColon)) {
        return None;
    }
    let (sig, q1) = match function_sig(t, q0 + 1) {
        Some(x) => x,
        None => {
            return None;
        },
    };
    let ghost whole = clauses_rest(t@, q1 as int);
    let mut clauses: Vec<LambdaClause> = Vec::new();
    let mut q = q1;
    loop
        invariant
            p < q1 <= q <= t@.len(),
            whole == clauses_rest(t@, q1 as int),
            clauses_view(clauses@) + clauses_rest(t@, q as int).0 == whole.0,
            clauses_rest(t@, q as int).1 == whole.1,
        ensures
            p < q1 <= q <= t@.len(),
            clauses_view(clauses@) + clauses_rest(t@, q as int).0 == whole.0,
            clauses_rest(t@, q as int).1 == whole.1,
            clauses_rest(t@, q as int) == (Seq::<ClauseView>::empty(), q as int),
        decreases t@.len() - q,
    {
        let s = skip_newlines(t, q);
        let found = match lambda_clause(t, s, true) {
            Some(x) => Some(x),
            None => otherwise_clause(t, s),
        };
        match found {
            Some((c, q2)) => {
                let q3 = skip_newlines(t, q2);
                proof {
                    lemma_clauses_view_push(clauses@, c);
                    let more = clauses_rest(t@, q3 as int);
                    assert(clauses_rest(t@, q as int) == (seq![clause_view(c)] + more.0, more.1));
                    assert(clauses_view(clauses@).push(clause_view(c)) + more.0 =~= clauses_view(clauses@) + (
                    seq![clause_view(c)] + more.0));
                }
                clauses.push(c);
                q = q3;
            },
            None => {
                break;
            },
        }
    }
    assert(clauses_view(clauses@) =~= whole.0);
    let arity = sig.arity();
    proof {
        lemma_types_view_len(sig.params@);
    }
    Some((FunctionDef { name, sig, arity, directives: Vec::new(), clauses }, q))
}

/// `(` plain names, with commas and newlines around them `)`.
fn action_params(t: &Vec<SpannedToken>, p: usize) -> (r: Option<(Vec<Ident>, usize)>)
    requires
        p <= t@.len(),
    ensures
        r matches Some((_, q)) ==> p < q <= t@.len(),
        match r {
            Some((ps, q)) => action_params_at(t@, p as int) == Some((idents_view(ps@), q as int)),
            None => action_params_at(t@, p as int) is None,
        },
{
    if !(p < t.len() && matches!(t[p].token, Token::LParen)) {
        return None;
    }
    let ghost whole = param_names(t@, p + 1);
    let mut params: Vec<Ident> = Vec::new();
    let mut q = p + 1;
    loop
        invariant
            p < q <= t@.len(),
            whole == param_names(t@, p + 1),
            idents_view(params@) + param_names(t@, q as int).0 == whole.0,
            param_names(t@, q as int).1 == whole.1,
        ensures
            p < q <= t@.len(),
            idents_view(params@) + param_names(t@, q as int).0 == whole.0,
            param_names(t@, q as int).1 == whole.1,
            param_names(t@, q as int) == (Seq::<Seq<char>>::empty(), q as int),
        decreases t@.len() - q,
    {
        let s = skip_separators(t, q);
        match pure_ident(t, s) {
            Some((name, q2)) => {
                let q3 = skip_separators(t, q2);
                proof {
                    let more = param_names(t@, q3 as int);
                    assert(param_names(t@, q as int) == (seq![name@] + more.0, more.1));
                    let i = Ident(name);
                    assert(idents_view(params@.push(i)) =~= idents_view(params@).push(name@));
                    assert(idents_view(params@).push(name@) + more.0 =~= idents_view(params@) + (seq![name@]
                        + more.0));
                }
                params.push(Ident(name));
                q = q3;
            },
            None => {
                break;
            },
        }
    }
    assert(idents_view(params@) =~= whole.0);
    if q < t.len() && matches!(t[q].token, Token::RParen) {
        Some((params, q + 1))
    } else {
        None
    }
}

/// The separators around the parameters of an action: commas and
/// newlines.
fn skip_separators(t: &Vec<SpannedToken>, p: usize) -> (q: usize)
    requires
        p <= t@.len(),
    ensures
        p <= q <= t@.len(),
        q == after_separators(t@, p as int),
{
    crate::parser::cursor::skip_separators(t, p)
}

/// The body of an action: an indented block of one or more statements,
/// newlines around each if any; or a single statement.
fn action_body(t: &Vec<SpannedToken>, p: usize) -> (r: Option<(Vec<Spanned<Stmt>>, usize)>)
    requires
        p <= t@.len(),
    ensures
        r matches Some((_, q)) ==> p < q <= t@.len(),
        match r {
            Some((b, q)) => action_body_at(t@, p as int) == Some((stmts_view(b@), q as int)),
            None => action_body_at(t@, p as int) is None,
        },
{
    if p < t.len() && matches!(t[p].token, Token::Indent) {
        let ghost whole = block_items(t@, p + 1);
        let mut body: Vec<Spanned<Stmt>> = Vec::new();
        let mut q = p + 1;
        loop
            invariant
                p < q <= t@.len(),
                whole == block_items(t@, p + 1),
                stmts_view(body@) + block_items(t@, q as int).0 == whole.0,
                block_items(t@, q as int).1 == whole.1,
            ensures
                p < q <= t@.len(),
                stmts_view(body@) + block_items(t@, q as int).0 == whole.0,
                block_items(t@, q as int).1 == whole.1,
                block_items(t@, q as int) == (Seq::<SpannedStmtView>::empty(), q as int),
            decreases t@.len() - q,
        {
            let s = skip_newlines(t, q);
            match recursive_statement(t, s) {
                Some((st, q2)) => {
                    let q3 = skip_newlines(t, q2);
                    proof {
                        lemma_stmts_view_push(body@, st);
                        let more = block_items(t@, q3 as int);
                        assert(block_items(t@, q as int) == (seq![spanned_stmt_view(st)] + more.0, more.1));
                        assert(stmts_view(body@).push(spanned_stmt_view(st)) + more.0 =~= stmts_view(body@) + (
                        seq![spanned_stmt_view(st)] + more.0));
                    }
                    body.push(st);
                    q = q3;
                },
                None => {
                    break;
                },
            }
        }
        assert(stmts_view(body@) =~= whole.0);
        proof {
            lemma_stmts_view_len(body@);
        }
        let q = skip_newlines(t, q);
        if body.len() > 0 && q < t.len() && matches!(t[q].token, Token::Dedent) {
            return Some((body, q + 1));
        }
    }
    match recursive_statement(t, p) {
        Some((st, q)) => {
            let mut body: Vec<Spanned<Stmt>> = Vec::new();
            body.push(st);
            proof {
                lemma_stmts_view_push(Seq::empty(), body@[0]);
                assert(Seq::<Spanned<Stmt>>::empty().push(body@[0]) =~= body@);
                assert(stmts_view(Seq::<Spanned<Stmt>>::empty()) =~= Seq::<SpannedStmtView>::empty());
                assert(Seq::<SpannedStmtView>::empty().push(spanned_stmt_view(body@[0])) =~= seq![
                    spanned_stmt_view(body@[0]),
                ]);
            }
            Some((body, q))
        },
        None => None,
    }
}

/// An action definition: `action`, its name, its parameters in
/// parentheses if any, `=>` and its return type if any, newlines if any,
/// its body if any, and newlines if any.
fn action_def(t: &Vec<SpannedToken>, p: usize) -> (r: Option<(ActionDef, usize)>)
    requires
        p <= t@.len(),
    ensures
        r matches Some((_, q)) ==> p < q <= t@.len(),
        match r {
            Some((a, q)) => action_def_at(t@, p as int) == Some((action_view(a), q as int)),
            None => action_def_at(t@, p as int) is None,
        },
{
    if !(p < t.len() && matches!(t[p].token, Token::Action)) {
        return None;
    }
    let (name, q0) = match pure_ident(t, p + 1) {
        Some((s, q)) => (Ident(s), q),
        None => {
            return None;
        },
    };
    let (params, q1) = match action_params(t, q0) {
        Some(x) => x,
        None => {
            let none: Vec<Ident> = Vec::new();
            assert(idents_view(none@) =~= Seq::<Seq<char>>::empty());
            (none, q0)
        },
    };
    let mut q2 = q1;
    let mut return_type = None;
    if q1 < t.len() && matches!(t[q1].token, Token::Arrow) {
        match type_expr(t, q1 + 1) {
            Some((ty, q)) => {
                return_type = Some(ty.node);
                q2 = q;
            },
            None => {},
        }
    }
    let q3 = skip_newlines(t, q2);
    let (body, q4) = match action_body(t, q3) {
        Some(x) => x,
        None => {
            let none: Vec<Spanned<Stmt>> = Vec::new();
            assert(stmts_view(none@) =~= Seq::<SpannedStmtView>::empty());
            (none, q3)
        },
    };
    let q = skip_newlines(t, q4);
    let directives: Vec<Directive> = Vec::new();
    assert(directives@ =~= Seq::<Directive>::empty());
    Some((ActionDef { name, params, return_type, directives, body }, q))
}

/// A field: a name, with `::` and its type if one follows.
fn field_def(t: &Vec<SpannedToken>, p: usize) -> (r: Option<(FieldDef, usize)>)
    requires
        p <= t@.len(),
    ensures
        r matches Some((_, q)) ==> p < q <= t@.len(),
        match r {
            Some((f, q)) => field_def_at(t@, p as int) == Some((field_view(f), q as int)),
            None => field_def_at(t@, p as int) is None,
        },
{
    let (name, q0) = match any_ident(t, p) {
        Some(x) => x,
        None => {
            return None;
        },
    };
    if q0 < t.len() && matches!(t[q0].token, Token::DoubleColon) {
        match type_expr(t, q0 + 1) {
            Some((ty, q)) => {
                return Some((FieldDef { name, type_annotation: Some(ty.node) }, q));
            },
            None => {},
        }
    }
    Some((FieldDef { name, type_annotation: None }, q0))
}

/// Fields from `p` on, each with newlines around it if any.
fn fields(t: &Vec<SpannedToken>, p: usize) -> (r: (Vec<FieldDef>, usize))
    requires
        p <= t@.len(),
    ensures
        p <= r.1 <= t@.len(),
        fields_at(t@, p as int) == (fields_view(r.0@), r.1 as int),
{
    let ghost whole = fields_at(t@, p as int);
    let mut fs: Vec<FieldDef> = Vec::new();
    let mut q = p;
    loop
        invariant
            p <= q <= t@.len(),
            whole == fields_at(t@, p as int),
            fields_view(fs@) + fields_at(t@, q as int).0 == whole.0,
            fields_at(t@, q as int).1 == whole.1,
        ensures
            p <= q <= t@.len(),
            fields_view(fs@) + fields_at(t@, q as int).0 == whole.0,
            fields_at(t@, q as int).1 == whole.1,
            fields_at(t@, q as int) == (Seq::<(Seq<char>, Option<TypeView>)>::empty(), q as int),
        decreases t@.len() - q,
    {
        let s = skip_newlines(t, q);
        match field_def(t, s) {
            Some((f, q2)) => {
                let q3 = skip_newlines(t, q2);
                proof {
                    let more = fields_at(t@, q3 as int);
                    assert(fields_at(t@, q as int) == (seq![field_view(f)] + more.0, more.1));
                    assert(fields_view(fs@.push(f)) =~= fields_view(fs@).push(field_view(f)));
                    assert(fields_view(fs@).push(field_view(f)) + more.0 =~= fields_view(fs@) + (seq![
                        field_view(f),
                    ] + more.0));
                }
                fs.push(f);
                q = q3;
            },
            None => {
                break;
            },
        }
    }
    assert(fields_view(fs@) =~= whole.0);
    (fs, q)
}

/// Type parameters: `::` and a name, one or more times.
fn type_params(t: &Vec<SpannedToken>, p: usize) -> (r: (Vec<Ident>, usize))
    requires
        p <= t@.len(),
    ensures
        p <= r.1 <= t@.len(),
        type_params_at(t@, p as int) == (idents_view(r.0@), r.1 as int),
{
    let ghost whole = type_params_at(t@, p as int);
    let mut params: Vec<Ident> = Vec::new();
    let mut q = p;
    while q < t.len() && matches!(t[q].token, Token::DoubleColon)
        invariant
            p <= q <= t@.len(),
            whole == type_params_at(t@, p as int),
            idents_view(params@) + type_params_at(t@, q as int).0 == whole.0,
            type_params_at(t@, q as int).1 == whole.1,
        ensures
            p <= q <= t@.len(),
            idents_view(params@) + type_params_at(t@, q as int).0 == whole.0,
            type_params_at(t@, q as int).1 == whole.1,
            type_params_at(t@, q as int) == (Seq::<Seq<char>>::empty(), q as int),
        decreases t@.len() - q,
    {
        match any_ident(t, q + 1) {
            Some((i, q2)) => {
                proof {
                    let more = type_params_at(t@, q2 as int);
                    assert(type_params_at(t@, q as int) == (seq![i@] + more.0, more.1));
                    assert(idents_view(params@.push(i)) =~= idents_view(params@).push(i@));
                    assert(idents_view(params@).push(i@) + more.0 =~= idents_view(params@) + (seq![i@] + more.0));
                }
                params.push(i);
                q = q2;
            },
            None => {
                break;
            },
        }
    }
    assert(idents_view(params@) =~= whole.0);
    (params, q)
}

/// A data definition: `data`, its name, its type parameters if any, then
/// fields in parentheses, fields in an indented block, or `as` and the
/// refined type.
fn data_def(t: &Vec<SpannedToken>, p: usize) -> (r: Option<(DataDef, usize)>)
    requires
        p <= t@.len(),
    ensures
        r matches Some((_, q)) ==> p < q <= t@.len(),
        match r {
            Some((d, q)) => data_def_at(t@, p as int) == Some((data_view(d), q as int)),
            None => data_def_at(t@, p as int) is None,
        },
{
    if !(p < t.len() && matches!(t[p].token, Token::Data)) {
        return None;
    }
    let (name, q0) = match type_name_ident(t, p + 1) {
        Some(x) => x,
        None => {
            return None;
        },
    };
    let (type_params, q1) = type_params(t, q0);
    if q1 < t.len() && matches!(t[q1].token, Token::LParen) {
        let (fs, q) = fields(t, q1 + 1);
        if q < t.len() && matches!(t[q].token, Token::RParen) {
            return Some((DataDef { name, type_params, kind: DataKind::Product(fs) }, q + 1));
        }
    }
    match some_newlines(t, q1) {
        Some(q2) => {
            if q2 < t.len() && matches!(t[q2].token, Token::Indent) {
                let (fs, q3) = fields(t, q2 + 1);
                let q = skip_newlines(t, q3);
                if fs.len() > 0 && q < t.len() && matches!(t[q].token, Token::Dedent) {
                    return Some((DataDef { name, type_params, kind: DataKind::Product(fs) }, q + 1));
                }
            }
        },
        None => {},
    }
    if q1 < t.len() && matches!(t[q1].token, Token::As) {
        match type_expr(t, q1 + 1) {
            Some((ty, q)) => {
                return Some((DataDef { name, type_params, kind: DataKind::Refinement(ty.node) }, q));
            },
            None => {},
        }
    }
    None
}

/// A literal value of a variant payload: an integer, a float or a text.
fn literal_value(t: &Vec<SpannedToken>, p: usize) -> (r: Option<(LiteralValue, usize)>)
    ensures
        r matches Some((_, q)) ==> q == p + 1 && p < t@.len(),
        match r {
            Some((v, q)) => payload_value_at(t@, p as int) == Some((v, q as int)),
            None => payload_value_at(t@, p as int) is None,
        },
{
    if p >= t.len() {
        return None;
    }
    match &t[p].token {
        Token::Int(s) => Some((LiteralValue::Int(s.clone()), p + 1)),
        Token::Float(s) => Some((LiteralValue::Float(s.clone()), p + 1)),
        Token::String(s) => Some((LiteralValue::String(s.clone()), p + 1)),
        _ => None,
    }
}

/// A comparison of a variant predicate: `<`, `<=`, `>` or `>=`.
fn compare_op(t: &Vec<SpannedToken>, p: usize) -> (r: Option<(CompareOp, usize)>)
    ensures
        r matches Some((_, q)) ==> q == p + 1 && p < t@.len(),
        match r {
            Some((op, q)) => payload_compare_at(t@, p as int) == Some((op, q as int)),
            None => payload_compare_at(t@, p as int) is None,
        },
{
    if p >= t.len() {
        return None;
    }
    if ident_is(t, p, "<") {
        Some((CompareOp::Lt, p + 1))
    } else if ident_is(t, p, "<=") {
        Some((CompareOp::Le, p + 1))
    } else if ident_is(t, p, ">") {
        Some((CompareOp::Gt, p + 1))
    } else if ident_is(t, p, ">=") {
        Some((CompareOp::Ge, p + 1))
    } else {
        None
    }
}

/// The payload of a variant: a type, a fixed value, or a comparison with
/// `_` (which may be left out) and a value.
fn variant_payload(t: &Vec<SpannedToken>, p: usize) -> (r: Option<(VariantPayload, usize)>)
    requires
        p <= t@.len(),
    ensures
        r matches Some((_, q)) ==> p < q <= t@.len(),
        match r {
            Some((pl, q)) => variant_payload_at(t@, p as int) == Some((payload_view(pl), q as int)),
            None => variant_payload_at(t@, p as int) is None,
        },
{
    match type_expr(t, p) {
        Some((ty, q)) => {
            return Some((VariantPayload::Typed(ty.node), q));
        },
        None => {},
    }
    match literal_value(t, p) {
        Some((v, q)) => {
            return Some((VariantPayload::FixedValue(v), q));
        },
        None => {},
    }
    let (op, q0) = match compare_op(t, p) {
        Some(x) => x,
        None => {
            return None;
        },
    };
    let q1 = if q0 < t.len() && matches!(t[q0].token, Token::Hole) {
        q0 + 1
    } else {
        q0
    };
    match literal_value(t, q1) {
        Some((value, q)) => Some((
            VariantPayload::Predicated { predicate: VariantPredicate::Comparison { op, value } },
            q,
        )),
        None => None,
    }
}

/// A variant: `|`, a name, and its payload in parentheses if any.
fn variant_def(t: &Vec<SpannedToken>, p: usize) -> (r: Option<(VariantDef, usize)>)
    requires
        p <= t@.len(),
    ensures
        r matches Some((_, q)) ==> p < q <= t@.len(),
        match r {
            Some((v, q)) => variant_def_at(t@, p as int) == Some((variant_view(v), q as int)),
            None => variant_def_at(t@, p as int) is None,
        },
{
    if !(p < t.len() && matches!(t[p].token, Token::Pipe)) {
        return None;
    }
    let (name, q0) = match type_name_ident(t, p + 1) {
        Some(x) => x,
        None => {
            return None;
        },
    };
    if q0 < t.len() && matches!(t[q0].token, Token::LParen) {
        match variant_payload(t, q0 + 1) {
            Some((payload, q)) => {
                if q < t.len() && matches!(t[q].token, Token::RParen) {
                    return Some((VariantDef { name, payload }, q + 1));
                }
            },
            None => {},
        }
    }
    Some((VariantDef { name, payload: VariantPayload::Unit }, q0))
}

/// Variants from `p` on, each with newlines around it if any.
fn variants(t: &Vec<SpannedToken>, p: usize) -> (r: (Vec<VariantDef>, usize))
    requires
        p <= t@.len(),
    ensures
        p <= r.1 <= t@.len(),
        variants_at(t@, p as int) == (variants_view(r.0@), r.1 as int),
{
    let ghost whole = variants_at(t@, p as int);
    let mut vs: Vec<VariantDef> = Vec::new();
    let mut q = p;
    loop
        invariant
            p <= q <= t@.len(),
            whole == variants_at(t@, p as int),
            variants_view(vs@) + variants_at(t@, q as int).0 == whole.0,
            variants_at(t@, q as int).1 == whole.1,
        ensures
            p <= q <= t@.len(),
            variants_view(vs@) + variants_at(t@, q as int).0 == whole.0,
            variants_at(t@, q as int).1 == whole.1,
            variants_at(t@, q as int) == (Seq::<(Seq<char>, PayloadView)>::empty(), q as int),
        decreases t@.len() - q,
    {
        let s = skip_newlines(t, q);
        match variant_def(t, s) {
            Some((v, q2)) => {
                let q3 = skip_newlines(t, q2);
                proof {
                    let more = variants_at(t@, q3 as int);
                    assert(variants_at(t@, q as int) == (seq![variant_view(v)] + more.0, more.1));
                    assert(variants_view(vs@.push(v)) =~= variants_view(vs@).push(variant_view(v)));
                    assert(variants_view(vs@).push(variant_view(v)) + more.0 =~= variants_view(vs@) + (seq![
                        variant_view(v),
                    ] + more.0));
                }
                vs.push(v);
                q = q3;
            },
            None => {
                break;
            },
        }
    }
    assert(variants_view(vs@) =~= whole.0);
    (vs, q)
}

/// An enum definition: `enum`, its name, its type parameters if any, and
/// its variants: in an indented block, on the lines that follow, or on
/// the same line.
fn enum_def(t: &Vec<SpannedToken>, p: usize) -> (r: Option<(EnumDef, usize)>)
    requires
        p <= t@.len(),
    ensures
        r matches Some((_, q)) ==> p < q <= t@.len(),
        match r {
            Some((e, q)) => enum_def_at(t@, p as int) == Some((enum_view(e), q as int)),
            None => enum_def_at(t@, p as int) is None,
        },
{
    if !(p < t.len() && matches!(t[p].token, Token::Enum)) {
        return None;
    }
    let (name, q0) = match type_name_ident(t, p + 1) {
        Some(x) => x,
        None => {
            return None;
        },
    };
    let (type_params, q1) = type_params(t, q0);
    match some_newlines(t, q1) {
        Some(q2) => {
            if q2 < t.len() && matches!(t[q2].token, Token::Indent) {
                let (vs, q3) = variants(t, q2 + 1);
                let q = skip_newlines(t, q3);
                if q < t.len() && matches!(t[q].token, Token::Dedent) {
                    return Some((EnumDef { name, type_params, variants: vs }, q + 1));
                }
            }
            let (vs, q) = variants(t, q2);
            if vs.len() > 0 {
                return Some((EnumDef { name, type_params, variants: vs }, q));
            }
        },
        None => {},
    }
    let (vs, q) = variants(t, q1);
    Some((EnumDef { name, type_params, variants: vs }, q))
}

/// A function definition with the directives before it, which replace
/// its own.
fn directed_function(t: &Vec<SpannedToken>, p: usize) -> (r: Option<(FunctionDef, usize)>)
    requires
        p <= t@.len(),
    ensures
        r matches Some((_, q)) ==> p < q <= t@.len(),
        match r {
            Some((f, q)) => directed_function_at(t@, p as int) == Some((function_view(f), q as int)),
            None => directed_function_at(t@, p as int) is None,
        },
{
    let (ds, q0) = directives(t, p);
    match function_def(t, q0) {
        Some((f, q)) => Some((FunctionDef { directives: ds, ..f }, q)),
        None => None,
    }
}

/// A member of an interface: a function definition with its directives;
/// with no clauses it is a signature, and its directives are dropped.
fn interface_member(t: &Vec<SpannedToken>, p: usize) -> (r: Option<(InterfaceMember, usize)>)
    requires
        p <= t@.len(),
    ensures
        r matches Some((_, q)) ==> p < q <= t@.len(),
        match r {
            Some((m, q)) => interface_member_at(t@, p as int) == Some((member_view(m), q as int)),
            None => interface_member_at(t@, p as int) is None,
        },
{
    match directed_function(t, p) {
        Some((f, q)) => {
            proof {
                lemma_clauses_view_len(f.clauses@);
            }
            if f.clauses.len() == 0 {
                Some((InterfaceMember::Signature(f.name, f.sig), q))
            } else {
                Some((InterfaceMember::FunctionDef(f), q))
            }
        },
        None => None,
    }
}

/// An interface definition: `interface`, its name, `implements` and the
/// interfaces it extends if any, then an indented block of members.
fn interface_def(t: &Vec<SpannedToken>, p: usize) -> (r: Option<(InterfaceDef, usize)>)
    requires
        p <= t@.len(),
    ensures
        r matches Some((_, q)) ==> p < q <= t@.len(),
        match r {
            Some((i, q)) => interface_def_at(t@, p as int) == Some((interface_view(i), q as int)),
            None => interface_def_at(t@, p as int) is None,
        },
{
    if !(p < t.len() && matches!(t[p].token, Token::Interface)) {
        return None;
    }
    let (name, q0) = match type_name_ident(t, p + 1) {
        Some(x) => x,
        None => {
            return None;
        },
    };
    let mut extends: Vec<Ident> = Vec::new();
    let mut q1 = q0;
    if q0 < t.len() && matches!(t[q0].token, Token::Implements) {
        let ghost whole = type_names_from(t@, q0 + 1);
        q1 = q0 + 1;
        loop
            invariant
                p < q0 < q1 <= t@.len(),
                whole == type_names_from(t@, q0 + 1),
                idents_view(extends@) + type_names_from(t@, q1 as int).0 == whole.0,
                type_names_from(t@, q1 as int).1 == whole.1,
            ensures
                p < q0 < q1 <= t@.len(),
                idents_view(extends@) + type_names_from(t@, q1 as int).0 == whole.0,
                type_names_from(t@, q1 as int).1 == whole.1,
                type_names_from(t@, q1 as int) == (Seq::<Seq<char>>::empty(), q1 as int),
            decreases t@.len() - q1,
        {
            match type_name_ident(t, q1) {
                Some((i, q2)) => {
                    proof {
                        let more = type_names_from(t@, q2 as int);
                        assert(type_names_from(t@, q1 as int) == (seq![i@] + more.0, more.1));
                        assert(idents_view(extends@.push(i)) =~= idents_view(extends@).push(i@));
                        assert(idents_view(extends@).push(i@) + more.0 =~= idents_view(extends@) + (seq![i@]
                            + more.0));
                    }
                    extends.push(i);
                    q1 = q2;
                },
                None => {
                    break;
                },
            }
        }
        assert(idents_view(extends@) =~= whole.0);
    } else {
        assert(idents_view(extends@) =~= Seq::<Seq<char>>::empty());
    }
    let q2 = skip_newlines(t, q1);
    if !(q2 < t.len() && matches!(t[q2].token, Token::Indent)) {
        return None;
    }
    let ghost whole = members_at(t@, q2 + 1);
    let mut members: Vec<InterfaceMember> = Vec::new();
    let mut q = q2 + 1;
    loop
        invariant
            p < q2 < q <= t@.len(),
            whole == members_at(t@, q2 + 1),
            members_view(members@) + members_at(t@, q as int).0 == whole.0,
            members_at(t@, q as int).1 == whole.1,
        ensures
            p < q2 < q <= t@.len(),
            members_view(members@) + members_at(t@, q as int).0 == whole.0,
            members_at(t@, q as int).1 == whole.1,
            members_at(t@, q as int) == (Seq::<MemberView>::empty(), q as int),
        decreases t@.len() - q,
    {
        let s = skip_newlines(t, q);
        match interface_member(t, s) {
            Some((m, q3)) => {
                let q4 = skip_newlines(t, q3);
                proof {
                    let more = members_at(t@, q4 as int);
                    assert(members_at(t@, q as int) == (seq![member_view(m)] + more.0, more.1));
                    assert(members_view(members@.push(m)) =~= members_view(members@).push(member_view(m)));
                    assert(members_view(members@).push(member_view(m)) + more.0 =~= members_view(members@) + (
                    seq![member_view(m)] + more.0));
                }
                members.push(m);
                q = q4;
            },
            None => {
                break;
            },
        }
    }
    assert(members_view(members@) =~= whole.0);
    let q = skip_newlines(t, q);
    if q < t.len() && matches!(t[q].token, Token::Dedent) {
        Some((InterfaceDef { name, extends, members }, q + 1))
    } else {
        None
    }
}

/// A type name, or type names joined by `::`: the last is the name, the
/// others, joined by `::`, the module.
fn qualified_type_name(t: &Vec<SpannedToken>, p: usize) -> (r: Option<(QualifiedIdent, usize)>)
    requires
        p <= t@.len(),
    ensures
        r matches Some((_, q)) ==> p < q <= t@.len(),
        match r {
            Some((qi, q)) => qualified_type_name_at(t@, p as int) == Some((qi@, q as int)),
            None => qualified_type_name_at(t@, p as int) is None,
        },
{
    let (first, q0) = match type_name_ident(t, p) {
        Some(x) => x,
        None => {
            return None;
        },
    };
    let ghost f = first@;
    let mut parts: Vec<String> = Vec::new();
    parts.push(first.0);
    assert(texts(parts@) =~= seq![f]);
    let mut q = q0;
    while q < t.len() && matches!(t[q].token, Token::DoubleColon)
        invariant
            p < q <= t@.len(),
            q0 == p + 1,
            parts@.len() >= 1,
            texts(parts@) + type_path_rest(t@, q as int).0 == seq![f] + type_path_rest(t@, p + 1).0,
            type_path_rest(t@, q as int).1 == type_path_rest(t@, p + 1).1,
        ensures
            p < q <= t@.len(),
            parts@.len() >= 1,
            texts(parts@) + type_path_rest(t@, q as int).0 == seq![f] + type_path_rest(t@, p + 1).0,
            type_path_rest(t@, q as int).1 == type_path_rest(t@, p + 1).1,
            type_path_rest(t@, q as int) == (Seq::<Seq<char>>::empty(), q as int),
        decreases t@.len() - q,
    {
        match type_name_ident(t, q + 1) {
            Some((i, q2)) => {
                let ghost old_parts = texts(parts@);
                parts.push(i.0);
                proof {
                    assert(texts(parts@) =~= old_parts.push(i@));
                    let more = type_path_rest(t@, q2 as int);
                    assert(type_path_rest(t@, q as int) == (seq![i@] + more.0, more.1));
                    assert(texts(parts@) + more.0 =~= old_parts + (seq![i@] + more.0));
                }
                q = q2;
            },
            None => {
                break;
            },
        }
    }
    assert(texts(parts@) =~= seq![f] + type_path_rest(t@, p + 1).0);
    let n = parts.len();
    let name = parts[n - 1].clone();
    assert(texts(parts@).last() == name@);
    if n == 1 {
        return Some((QualifiedIdent { module: None, name }, q));
    }
    let module = join_path(&parts, n - 1);
    Some((QualifiedIdent { module: Some(module), name }, q))
}

/// An implementation: a type name, `implements`, the interface, then an
/// indented block of function definitions with their directives, if one
/// follows.
fn impl_def(t: &Vec<SpannedToken>, p: usize) -> (r: Option<(ImplDef, usize)>)
    requires
        p <= t@.len(),
    ensures
        r matches Some((_, q)) ==> p < q <= t@.len(),
        match r {
            Some((i, q)) => impl_def_at(t@, p as int) == Some((impl_view(i), q as int)),
            None => impl_def_at(t@, p as int) is None,
        },
{
    let (for_type, q0) = match qualified_type_name(t, p) {
        Some(x) => x,
        None => {
            return None;
        },
    };
    if !(q0 < t.len() && matches!(t[q0].token, Token::Implements)) {
        return None;
    }
    let (interface, q1) = match type_name_ident(t, q0 + 1) {
        Some(x) => x,
        None => {
            return None;
        },
    };
    match some_newlines(t, q1) {
        Some(q2) => {
            if q2 < t.len() && matches!(t[q2].token, Token::Indent) {
                let ghost whole = impl_items(t@, q2 + 1);
                let mut implementations: Vec<FunctionDef> = Vec::new();
                let mut q = q2 + 1;
                loop
                    invariant
                        p < q2 < q <= t@.len(),
                        whole == impl_items(t@, q2 + 1),
                        functions_view(implementations@) + impl_items(t@, q as int).0 == whole.0,
                        impl_items(t@, q as int).1 == whole.1,
                    ensures
                        p < q2 < q <= t@.len(),
                        functions_view(implementations@) + impl_items(t@, q as int).0 == whole.0,
                        impl_items(t@, q as int).1 == whole.1,
                        impl_items(t@, q as int) == (Seq::<FunctionView>::empty(), q as int),
                    decreases t@.len() - q,
                {
                    let s = skip_newlines(t, q);
                    match directed_function(t, s) {
                        Some((f, q3)) => {
                            let q4 = skip_newlines(t, q3);
                            proof {
                                let more = impl_items(t@, q4 as int);
                                assert(impl_items(t@, q as int) == (seq![function_view(f)] + more.0, more.1));
                                assert(functions_view(implementations@.push(f)) =~= functions_view(
                                    implementations@,
                                ).push(function_view(f)));
                                assert(functions_view(implementations@).push(function_view(f)) + more.0
                                    =~= functions_view(implementations@) + (seq![function_view(f)] + more.0));
                            }
                            implementations.push(f);
                            q = q4;
                        },
                        None => {
                            break;
                        },
                    }
                }
                assert(functions_view(implementations@) =~= whole.0);
                let q = skip_newlines(t, q);
                if q < t.len() && matches!(t[q].token, Token::Dedent) {
                    return Some((ImplDef { for_type, interface, implementations }, q + 1));
                }
            }
        },
        None => {},
    }
    let none: Vec<FunctionDef> = Vec::new();
    assert(functions_view(none@) =~= Seq::<FunctionView>::empty());
    Some((ImplDef { for_type, interface, implementations: none }, q1))
}

/// A type alias: `alias`, the type, `as`, the new name, and a newline if
/// one follows.
fn alias_def(t: &Vec<SpannedToken>, p: usize) -> (r: Option<(AliasDef, usize)>)
    requires
        p <= t@.len(),
    ensures
        r matches Some((_, q)) ==> p < q <= t@.len(),
        match r {
            Some((a, q)) => alias_def_at(t@, p as int) == Some(((a.name@, a.target@), q as int)),
            None => alias_def_at(t@, p as int) is None,
        },
{
    if !(p < t.len() && matches!(t[p].token, Token::Alias)) {
        return None;
    }
    let (target, q0) = match type_expr(t, p + 1) {
        Some(x) => x,
        None => {
            return None;
        },
    };
    if !(q0 < t.len() && matches!(t[q0].token, Token::As)) {
        return None;
    }
    match type_name_ident(t, q0 + 1) {
        Some((name, q1)) => {
            let q = if at_newline(t, q1) {
                q1 + 1
            } else {
                q1
            };
            Some((AliasDef { name, target: target.node }, q))
        },
        None => None,
    }
}

/// The first of: an import, an export, an action, a function, a data
/// type, an enum, an interface, an implementation, an alias, or a
/// statement; its span is the tokens it took.
pub fn top_level(t: &Vec<SpannedToken>, p: usize) -> (r: Option<(Spanned<TopLevel>, usize)>)
    requires
        p <= t@.len(),
    ensures
        r matches Some((d, q)) ==> p < q <= t@.len() && d.span == span_of_spec(p, q),
        match r {
            Some((d, q)) => top_level_at(t@, p as int) == Some((top_level_view(d.node), q as int)),
            None => top_level_at(t@, p as int) is None,
        },
{
    let found: Option<(TopLevel, usize)> = match import_decl(t, p) {
        Some((i, q)) => Some((TopLevel::Import(i), q)),
        None => match export_decl(t, p) {
            Some((e, q)) => Some((TopLevel::Export(e), q)),
            None => match action_def(t, p) {
                Some((a, q)) => Some((TopLevel::Action(a), q)),
                None => match function_def(t, p) {
                    Some((f, q)) => Some((TopLevel::Function(f), q)),
                    None => match data_def(t, p) {
                        Some((d, q)) => Some((TopLevel::Data(d), q)),
                        None => match enum_def(t, p) {
                            Some((e, q)) => Some((TopLevel::Enum(e), q)),
                            None => match interface_def(t, p) {
                                Some((i, q)) => Some((TopLevel::Interface(i), q)),
                                None => match impl_def(t, p) {
                                    Some((i, q)) => Some((TopLevel::Implements(i), q)),
                                    None => match alias_def(t, p) {
                                        Some((a, q)) => Some((TopLevel::Alias(a), q)),
                                        None => match recursive_statement(t, p) {
                                            Some((s, q)) => Some((TopLevel::Statement(s.node), q)),
                                            None => None,
                                        },
                                    },
                                },
                            },
                        },
                    },
                },
            },
        },
    };
    match found {
        Some((node, q)) => Some((Spanned { node, span: span_of(p, q) }, q)),
        None => None,
    }
}

/// The span `p..q` in token positions.
pub open spec fn span_of_spec(p: usize, q: usize) -> crate::lexer::token::Span {
    crate::lexer::token::Span { start: p, end: q }
}

/// A top-level declaration with the directives before it; functions and
/// actions take the directives, other declarations drop them. Its span
/// is the tokens it took, directives included.
fn top_level_decl(t: &Vec<SpannedToken>, p: usize) -> (r: Option<(Spanned<TopLevel>, usize)>)
    requires
        p <= t@.len(),
    ensures
        r matches Some((d, q)) ==> p < q <= t@.len() && d.span == span_of_spec(p, q),
        match r {
            Some((d, q)) => top_level_decl_at(t@, p as int) == Some(((top_level_view(d.node), d.span), q as int)),
            None => top_level_decl_at(t@, p as int) is None,
        },
{
    let (mut ds, q0) = directives(t, p);
    let ghost dsv = ds@;
    let (d, q) = match top_level(t, q0) {
        Some(x) => x,
        None => {
            return None;
        },
    };
    let node = match d.node {
        TopLevel::Function(f) => {
            let mut all = f.directives;
            all.append(&mut ds);
            TopLevel::Function(FunctionDef { directives: all, ..f })
        },
        TopLevel::Action(a) => {
            let mut all = a.directives;
            all.append(&mut ds);
            TopLevel::Action(ActionDef { directives: all, ..a })
        },
        other => other,
    };
    Some((Spanned { node, span: span_of(p, q) }, q))
}

/// Whether a declaration is an import or an export.
pub open spec fn is_import_or_export(d: TopLevel) -> bool {
    d is Import || d is Export
}

/// Sorting out declarations leaves no import or export among those that
/// stay.
pub proof fn lemma_hoist_leaves_no_imports(ds: Seq<(TopLevelView, Span)>)
    ensures
        forall|i: int| 0 <= i < hoist(ds).0.len() ==> !(#[trigger] hoist(ds).0[i].0 is Import || hoist(ds).0[i].0 is Export),
    decreases ds.len(),
{
    if ds.len() > 0 {
        lemma_hoist_leaves_no_imports(ds.drop_last());
    }
}

/// A module: newlines if any, top-level declarations with newlines around
/// each if any, then the end of the input. Imports and exports are taken
/// out of the declarations, in their order, into the module's imports and
/// exported names; the other declarations stay, in their order, with
/// their spans. The module has no name yet. Where the declarations stop
/// short of the end, the error is at the token where they stop.
pub fn module(t: &Vec<SpannedToken>) -> (r: Result<Module, Vec<SyntaxError>>)
    ensures
        r matches Ok(m) ==> m.name@.len() == 0 && forall|i: int|
            0 <= i < m.declarations@.len() ==> !is_import_or_export(#[trigger] m.declarations@[i].node),
        r matches Err(es) ==> es@.len() == 1 && es@[0].expected@.len() == 0,
        match r {
            Ok(m) => module_at(t@) == Ok::<ModuleView, Span>(module_view(m)),
            Err(es) => module_at(t@) == Err::<ModuleView, Span>(es@[0].span),
        },
{
    let mut imports: Vec<Import> = Vec::new();
    let mut exports: Vec<Ident> = Vec::new();
    let mut declarations: Vec<Spanned<TopLevel>> = Vec::new();
    let q_start = skip_newlines(t, 0);
    let ghost whole = module_items(t@, q_start as int);
    let ghost mut consumed: Seq<(TopLevelView, Span)> = Seq::empty();
    let mut q = q_start;
    assert(decls_view(declarations@) =~= Seq::<(TopLevelView, Span)>::empty());
    assert(idents_view(exports@) =~= Seq::<Seq<char>>::empty());
    assert(imports_view(imports@) =~= Seq::<ImportView>::empty());
    loop
        invariant
            q_start <= q <= t@.len(),
            whole == module_items(t@, q_start as int),
            consumed + module_items(t@, q as int).0 == whole.0,
            module_items(t@, q as int).1 == whole.1,
            hoist(consumed) == (decls_view(declarations@), idents_view(exports@), imports_view(imports@)),
            forall|i: int|
                0 <= i < declarations@.len() ==> !is_import_or_export(#[trigger] declarations@[i].node),
        ensures
            q_start <= q <= t@.len(),
            consumed + module_items(t@, q as int).0 == whole.0,
            module_items(t@, q as int).1 == whole.1,
            module_items(t@, q as int) == (Seq::<(TopLevelView, Span)>::empty(), q as int),
            hoist(consumed) == (decls_view(declarations@), idents_view(exports@), imports_view(imports@)),
            forall|i: int|
                0 <= i < declarations@.len() ==> !is_import_or_export(#[trigger] declarations@[i].node),
        decreases t@.len() - q,
    {
        let s = skip_newlines(t, q);
        match top_level_decl(t, s) {
            Some((d, q2)) => {
                let q3 = skip_newlines(t, q2);
                let ghost dv = (top_level_view(d.node), d.span);
                proof {
                    let more = module_items(t@, q3 as int);
                    assert(module_items(t@, q as int) == (seq![dv] + more.0, more.1));
                    assert(consumed.push(dv) + more.0 =~= consumed + (seq![dv] + more.0));
                    assert(consumed.push(dv).drop_last() =~= consumed);
                }
                let span = d.span;
                match d.node {
                    TopLevel::Import(i) => {
                        proof {
                            assert(imports_view(imports@.push(i)) =~= imports_view(imports@).push(import_view(i)));
                        }
                        imports.push(i);
                    },
                    TopLevel::Export(e) => {
                        let mut items = e.items;
                        proof {
                            assert(idents_view(exports@ + items@) =~= idents_view(exports@) + idents_view(items@));
                        }
                        exports.append(&mut items);
                    },
                    node => {
                        let sd = Spanned { node, span };
                        proof {
                            assert(decls_view(declarations@.push(sd)) =~= decls_view(declarations@).push(dv));
                        }
                        declarations.push(sd);
                    },
                }
                proof {
                    consumed = consumed.push(dv);
                }
                q = q3;
            },
            None => {
                break;
            },
        }
    }
    assert(consumed =~= whole.0);
    let q = skip_newlines(t, q);
    if q < t.len() && matches!(t[q].token, Token::Eof) {
        let m = Module { name: String::new(), declarations, exports, imports };
        assert(m.name@ =~= Seq::<char>::empty());
        Ok(m)
    } else {
        let end = if q < t.len() {
            q + 1
        } else {
            q
        };
        let mut es: Vec<SyntaxError> = Vec::new();
        es.push(SyntaxError { span: span_of(q, end), expected: Vec::new(), found: None });
        Err(es)
    }
}

} // verus!
