//! Statements of the action domain: bindings, assignment, match, loops,
//! select, return, panic, assert, and expressions.

use vstd::prelude::*;
use crate::lexer::token::{Token, SpannedToken};
use crate::ast::Spanned;
use crate::ast::id::Ident;
use crate::ast::stmt::{
    Stmt, StmtView, SpannedStmtView, CaseView, ChannelOpView, SelectCaseView, TimeoutView,
    MatchCase, SelectCase, ChannelOp, SelectTimeout, spanned_stmt_view, stmts_view, case_view,
    cases_view, channel_op_view, select_case_view, select_cases_view, timeout_view,
    lemma_stmts_view_push, lemma_cases_view_push, lemma_select_cases_view_push,
};
use crate::ast::expr::{Expr, SpannedExprView};


use crate::parser::cursor::{
    ident_is, pure_ident, span_of, skip_newlines, is_tok, ident_of, plain_ident_of, after_newlines,
};
use crate::parser::expr::{expression, expression_at, sp};
use crate::parser::pattern::{pattern, pattern_at};

verus! {

// =============================================================================
// THE GRAMMAR OF STATEMENTS
// =============================================================================
//
// Each rule gives what it reads at a position, with its span, and the
// position after it, or nothing.

/// `let` or `var` (by `mutable`), a pattern, and the value.
pub open spec fn binding_at(t: Seq<SpannedToken>, p: int, mutable: bool) -> Option<(SpannedStmtView, int)> {
    if is_tok(t, p, if mutable {
        Token::Var
    } else {
        Token::Let
    }) {
        match pattern_at(t, p + 1) {
            Some((pat, q0)) => if p < q0 <= t.len() {
                match expression_at(t, q0) {
                    Some((value, q)) => Some((
                        (if mutable {
                            StmtView::Var { pattern: pat, value }
                        } else {
                            StmtView::Let { pattern: pat, value }
                        }, sp(p, q)),
                        q,
                    )),
                    None => None,
                }
            } else {
                None
            },
            None => None,
        }
    } else {
        None
    }
}

/// A plain name, `var`, and the value assigned to it.
pub open spec fn assignment_at(t: Seq<SpannedToken>, p: int) -> Option<(SpannedStmtView, int)> {
    match plain_ident_of(t, p) {
        Some(name) => if is_tok(t, p + 1, Token::Var) {
            match expression_at(t, p + 2) {
                Some((value, q)) => Some(((StmtView::Assign { name, value }, sp(p, q)), q)),
                None => None,
            }
        } else {
            None
        },
        None => None,
    }
}

/// The name `name` and an expression after it.
pub open spec fn keyword_expression_at(t: Seq<SpannedToken>, p: int, name: Seq<char>) -> Option<(SpannedExprView, int)> {
    if ident_of(t, p) == Some(name) {
        expression_at(t, p + 1)
    } else {
        None
    }
}

/// `return` and the value.
pub open spec fn return_at(t: Seq<SpannedToken>, p: int) -> Option<(SpannedStmtView, int)> {
    match keyword_expression_at(t, p, "return"@) {
        Some((e, q)) => Some(((StmtView::Return(e), sp(p, q)), q)),
        None => None,
    }
}

/// `panic!` and its message.
pub open spec fn panic_at(t: Seq<SpannedToken>, p: int) -> Option<(SpannedStmtView, int)> {
    match keyword_expression_at(t, p, "panic!"@) {
        Some((e, q)) => Some(((StmtView::Panic(e), sp(p, q)), q)),
        None => None,
    }
}

/// `assert!`, the condition and the message.
pub open spec fn assert_at(t: Seq<SpannedToken>, p: int) -> Option<(SpannedStmtView, int)> {
    match keyword_expression_at(t, p, "assert!"@) {
        Some((condition, q0)) => match expression_at(t, q0) {
            Some((message, q)) => Some(((StmtView::Assert { condition, message }, sp(p, q)), q)),
            None => None,
        },
        None => None,
    }
}

/// `break` or `continue`.
pub open spec fn jump_at(t: Seq<SpannedToken>, p: int) -> Option<(SpannedStmtView, int)> {
    if is_tok(t, p, Token::Break) {
        Some(((StmtView::Break, sp(p, p + 1)), p + 1))
    } else if is_tok(t, p, Token::Continue) {
        Some(((StmtView::Continue, sp(p, p + 1)), p + 1))
    } else {
        None
    }
}

/// An expression as a statement.
pub open spec fn expression_stmt_at(t: Seq<SpannedToken>, p: int) -> Option<(SpannedStmtView, int)> {
    match expression_at(t, p) {
        Some((e, q)) => Some(((StmtView::Expr(e), sp(p, q)), q)),
        None => None,
    }
}

/// The first of the statements without blocks.
pub open spec fn statement_at(t: Seq<SpannedToken>, p: int) -> Option<(SpannedStmtView, int)> {
    if binding_at(t, p, false) is Some {
        binding_at(t, p, false)
    } else if binding_at(t, p, true) is Some {
        binding_at(t, p, true)
    } else if assignment_at(t, p) is Some {
        assignment_at(t, p)
    } else if jump_at(t, p) is Some {
        jump_at(t, p)
    } else if return_at(t, p) is Some {
        return_at(t, p)
    } else if panic_at(t, p) is Some {
        panic_at(t, p)
    } else if assert_at(t, p) is Some {
        assert_at(t, p)
    } else {
        expression_stmt_at(t, p)
    }
}

/// The first of all statements, blocks included.
pub open spec fn recursive_statement_at(t: Seq<SpannedToken>, p: int) -> Option<(SpannedStmtView, int)>
    decreases t.len() - p, 2int,
{
    if binding_at(t, p, false) is Some {
        binding_at(t, p, false)
    } else if binding_at(t, p, true) is Some {
        binding_at(t, p, true)
    } else if assignment_at(t, p) is Some {
        assignment_at(t, p)
    } else if match_stmt_at(t, p) is Some {
        match_stmt_at(t, p)
    } else if loop_at(t, p) is Some {
        loop_at(t, p)
    } else if for_at(t, p) is Some {
        for_at(t, p)
    } else if jump_at(t, p) is Some {
        jump_at(t, p)
    } else if select_at(t, p) is Some {
        select_at(t, p)
    } else if return_at(t, p) is Some {
        return_at(t, p)
    } else if panic_at(t, p) is Some {
        panic_at(t, p)
    } else if assert_at(t, p) is Some {
        assert_at(t, p)
    } else {
        expression_stmt_at(t, p)
    }
}

/// Statements from `q` on, each with newlines around it.
pub open spec fn block_items(t: Seq<SpannedToken>, q: int) -> (Seq<SpannedStmtView>, int)
    decreases t.len() - q, 3int,
{
    let s = after_newlines(t, q);
    if q <= s <= t.len() {
        match recursive_statement_at(t, s) {
            Some((st, q2)) => if s < q2 <= after_newlines(t, q2) <= t.len() {
                let r = block_items(t, after_newlines(t, q2));
                (seq![st] + r.0, r.1)
            } else {
                (Seq::empty(), q)
            },
            None => (Seq::empty(), q),
        }
    } else {
        (Seq::empty(), q)
    }
}

/// Newlines, an indent, statements, newlines and a dedent.
pub open spec fn statement_block_at(t: Seq<SpannedToken>, p: int) -> Option<(Seq<SpannedStmtView>, int)>
    decreases t.len() - p, 0int,
{
    let q0 = after_newlines(t, p);
    if p <= q0 && is_tok(t, q0, Token::Indent) {
        let r = block_items(t, q0 + 1);
        let q = after_newlines(t, r.1);
        if is_tok(t, q, Token::Dedent) {
            Some((r.0, q + 1))
        } else {
            None
        }
    } else {
        None
    }
}

/// A case of a match: a pattern, `:`, and its block.
pub open spec fn match_case_at(t: Seq<SpannedToken>, p: int) -> Option<(CaseView, int)>
    decreases t.len() - p, 1int,
{
    match pattern_at(t, p) {
        Some((pat, q0)) => if p < q0 && is_tok(t, q0, Token::Colon) {
            match statement_block_at(t, q0 + 1) {
                Some((body, q)) => Some((CaseView { pattern: pat, body }, q)),
                None => None,
            }
        } else {
            None
        },
        None => None,
    }
}

/// Match cases from `q` on, each with newlines around it.
pub open spec fn case_items(t: Seq<SpannedToken>, q: int) -> (Seq<CaseView>, int)
    decreases t.len() - q, 3int,
{
    let s = after_newlines(t, q);
    if q <= s <= t.len() {
        match match_case_at(t, s) {
            Some((c, q2)) => if s < q2 <= after_newlines(t, q2) <= t.len() {
                let r = case_items(t, after_newlines(t, q2));
                (seq![c] + r.0, r.1)
            } else {
                (Seq::empty(), q)
            },
            None => (Seq::empty(), q),
        }
    } else {
        (Seq::empty(), q)
    }
}

/// `match`, the value, then an indented block of cases.
pub open spec fn match_stmt_at(t: Seq<SpannedToken>, p: int) -> Option<(SpannedStmtView, int)>
    decreases t.len() - p, 1int,
{
    if is_tok(t, p, Token::Match) {
        match expression_at(t, p + 1) {
            Some((value, q0)) => {
                let q1 = after_newlines(t, q0);
                if p < q1 && is_tok(t, q1, Token::Indent) {
                    let r = case_items(t, q1 + 1);
                    let q = after_newlines(t, r.1);
                    if is_tok(t, q, Token::Dedent) {
                        Some(((StmtView::Match { value, cases: r.0 }, sp(p, q + 1)), q + 1))
                    } else {
                        None
                    }
                } else {
                    None
                }
            },
            None => None,
        }
    } else {
        None
    }
}

/// `loop` and its block.
pub open spec fn loop_at(t: Seq<SpannedToken>, p: int) -> Option<(SpannedStmtView, int)>
    decreases t.len() - p, 1int,
{
    if is_tok(t, p, Token::Loop) {
        match statement_block_at(t, p + 1) {
            Some((body, q)) => Some(((StmtView::Loop { body }, sp(p, q)), q)),
            None => None,
        }
    } else {
        None
    }
}

/// `for` a plain name `in` the iterable, and its block.
pub open spec fn for_at(t: Seq<SpannedToken>, p: int) -> Option<(SpannedStmtView, int)>
    decreases t.len() - p, 1int,
{
    if is_tok(t, p, Token::For) {
        match plain_ident_of(t, p + 1) {
            Some(var) => if is_tok(t, p + 2, Token::In) {
                match expression_at(t, p + 3) {
                    Some((iterable, q1)) => if p < q1 <= t.len() {
                        match statement_block_at(t, q1) {
                            Some((body, q)) => Some(((StmtView::For { var, iterable, body }, sp(p, q)), q)),
                            None => None,
                        }
                    } else {
                        None
                    },
                    None => None,
                }
            } else {
                None
            },
            None => None,
        }
    } else {
        None
    }
}

/// A channel operation: `<!` or `<!?` and a channel, or a value, `!>` and
/// a channel.
pub open spec fn channel_op_at(t: Seq<SpannedToken>, p: int) -> Option<(ChannelOpView, int)> {
    let receive = if is_tok(t, p, Token::Receive) {
        match expression_at(t, p + 1) {
            Some((channel, q)) => Some((ChannelOpView::Receive { channel, non_blocking: false }, q)),
            None => None,
        }
    } else {
        None
    };
    let receive_now = if is_tok(t, p, Token::ReceiveNonBlocking) {
        match expression_at(t, p + 1) {
            Some((channel, q)) => Some((ChannelOpView::Receive { channel, non_blocking: true }, q)),
            None => None,
        }
    } else {
        None
    };
    if receive is Some {
        receive
    } else if receive_now is Some {
        receive_now
    } else {
        match expression_at(t, p) {
            Some((value, q0)) => if is_tok(t, q0, Token::Send) {
                match expression_at(t, q0 + 1) {
                    Some((channel, q)) => Some((ChannelOpView::Send { value, channel }, q)),
                    None => None,
                }
            } else {
                None
            },
            None => None,
        }
    }
}

/// A case of a select: `case`, a channel operation (in parentheses or
/// not), `->` and a plain name if they follow, `:`, and its block.
pub open spec fn select_case_at(t: Seq<SpannedToken>, p: int) -> Option<(SelectCaseView, int)>
    decreases t.len() - p, 1int,
{
    if is_tok(t, p, Token::Case) {
        let in_parens = if is_tok(t, p + 1, Token::LParen) {
            match channel_op_at(t, p + 2) {
                Some((op, q)) => if is_tok(t, q, Token::RParen) {
                    Some((op, q + 1))
                } else {
                    None
                },
                None => None,
            }
        } else {
            None
        };
        let found = if in_parens is Some {
            in_parens
        } else {
            channel_op_at(t, p + 1)
        };
        match found {
            Some((operation, q0)) => {
                let b = if is_tok(t, q0, Token::SimpleArrow) && plain_ident_of(t, q0 + 1) is Some {
                    (plain_ident_of(t, q0 + 1), q0 + 2)
                } else {
                    (None, q0)
                };
                if p < b.1 && is_tok(t, b.1, Token::Colon) {
                    match statement_block_at(t, b.1 + 1) {
                        Some((body, q)) => Some((SelectCaseView { operation, binding: b.0, body }, q)),
                        None => None,
                    }
                } else {
                    None
                }
            },
            None => None,
        }
    } else {
        None
    }
}

/// Select cases from `q` on, each with newlines around it.
pub open spec fn select_items(t: Seq<SpannedToken>, q: int) -> (Seq<SelectCaseView>, int)
    decreases t.len() - q, 3int,
{
    let s = after_newlines(t, q);
    if q <= s <= t.len() {
        match select_case_at(t, s) {
            Some((c, q2)) => if s < q2 <= after_newlines(t, q2) <= t.len() {
                let r = select_items(t, after_newlines(t, q2));
                (seq![c] + r.0, r.1)
            } else {
                (Seq::empty(), q)
            },
            None => (Seq::empty(), q),
        }
    } else {
        (Seq::empty(), q)
    }
}

/// The timeout of a select: `timeout`, the duration, `:`, and its block.
pub open spec fn select_timeout_at(t: Seq<SpannedToken>, p: int) -> Option<(TimeoutView, int)>
    decreases t.len() - p, 1int,
{
    if is_tok(t, p, Token::Timeout) {
        match expression_at(t, p + 1) {
            Some((duration, q0)) => if p < q0 && is_tok(t, q0, Token::Colon) {
                match statement_block_at(t, q0 + 1) {
                    Some((body, q)) => Some((TimeoutView { duration, body }, q)),
                    None => None,
                }
            } else {
                None
            },
            None => None,
        }
    } else {
        None
    }
}

/// `select`, then an indented block of cases and a timeout if one follows.
pub open spec fn select_at(t: Seq<SpannedToken>, p: int) -> Option<(SpannedStmtView, int)>
    decreases t.len() - p, 1int,
{
    if is_tok(t, p, Token::Select) {
        let q0 = after_newlines(t, p + 1);
        if p < q0 && is_tok(t, q0, Token::Indent) {
            let r = select_items(t, q0 + 1);
            let s = after_newlines(t, r.1);
            let to = if p < s <= t.len() {
                select_timeout_at(t, s)
            } else {
                None
            };
            let q1 = match to {
                Some((_, q2)) => after_newlines(t, q2),
                None => r.1,
            };
            let q = after_newlines(t, q1);
            if is_tok(t, q, Token::Dedent) {
                Some((
                    (
                        StmtView::Select {
                            cases: r.0,
                            timeout: match to {
                                Some((x, _)) => Some(x),
                                None => None,
                            },
                        },
                        sp(p, q + 1),
                    ),
                    q + 1,
                ))
            } else {
                None
            }
        } else {
            None
        }
    } else {
        None
    }
}

/// Whether a parser's result is, by its view, what a rule reads.
pub open spec fn stmt_result(r: Option<(Spanned<Stmt>, usize)>, expected: Option<(SpannedStmtView, int)>) -> bool {
    match r {
        Some((x, q)) => expected == Some((spanned_stmt_view(x), q as int)),
        None => expected is None,
    }
}


/// A plain name, as an `Ident`.
fn plain_ident(t: &Vec<SpannedToken>, p: usize) -> (r: Option<(Ident, usize)>)
    ensures
        r matches Some((_, q)) ==> q == p + 1 && p < t@.len(),
        match r {
            Some((i, q)) => plain_ident_of(t@, p as int) == Some(i@),
            None => plain_ident_of(t@, p as int) is None,
        },
{
    match pure_ident(t, p) {
        Some((s, q)) => Some((Ident(s), q)),
        None => None,
    }
}

/// `let` or `var` (by `mutable`), a pattern, and the value.
fn binding(t: &Vec<SpannedToken>, p: usize, mutable: bool) -> (r: Option<(Spanned<Stmt>, usize)>)
    requires
        p <= t@.len(),
    ensures
        r matches Some((_, q)) ==> p < q <= t@.len(),
        stmt_result(r, binding_at(t@, p as int, mutable)),
{
    if p >= t.len() {
        return None;
    }
    let keyword = if mutable {
        matches!(t[p].token, Token::Var)
    } else {
        matches!(t[p].token, Token::Let)
    };
    if !keyword {
        return None;
    }
    let (pat, q0) = match pattern(t, p + 1) {
        Some(x) => x,
        None => {
            return None;
        },
    };
    let (value, q) = match expression(t, q0) {
        Some(x) => x,
        None => {
            return None;
        },
    };
    let node = if mutable {
        Stmt::Var { pattern: pat, value }
    } else {
        Stmt::Let { pattern: pat, value }
    };
    Some((Spanned { node, span: span_of(p, q) }, q))
}

/// A name, `var`, and the value assigned to it.
fn assignment(t: &Vec<SpannedToken>, p: usize) -> (r: Option<(Spanned<Stmt>, usize)>)
    requires
        p <= t@.len(),
    ensures
        r matches Some((_, q)) ==> p < q <= t@.len(),
        stmt_result(r, assignment_at(t@, p as int)),
{
    let (name, q0) = match plain_ident(t, p) {
        Some(x) => x,
        None => {
            return None;
        },
    };
    if !(q0 < t.len() && matches!(t[q0].token, Token::Var)) {
        return None;
    }
    match expression(t, q0 + 1) {
        Some((value, q)) => Some((Spanned { node: Stmt::Assign { name, value }, span: span_of(p, q) }, q)),
        None => None,
    }
}

/// The keyword `name` (an identifier) followed by an expression.
fn keyword_expression(t: &Vec<SpannedToken>, p: usize, name: &str) -> (r: Option<(Spanned<Expr>, usize)>)
    requires
        p <= t@.len(),
    ensures
        r matches Some((_, q)) ==> p < q <= t@.len(),
        crate::parser::expr::expr_result(r, keyword_expression_at(t@, p as int, name@)),
{
    if p >= t.len() || !ident_is(t, p, name) {
        return None;
    }
    expression(t, p + 1)
}

/// `return` and the value returned.
fn return_stmt(t: &Vec<SpannedToken>, p: usize) -> (r: Option<(Spanned<Stmt>, usize)>)
    requires
        p <= t@.len(),
    ensures
        r matches Some((_, q)) ==> p < q <= t@.len(),
        stmt_result(r, return_at(t@, p as int)),
{
    match keyword_expression(t, p, "return") {
        Some((e, q)) => Some((Spanned { node: Stmt::Return(e), span: span_of(p, q) }, q)),
        None => None,
    }
}

/// `panic!` and its message.
fn panic_stmt(t: &Vec<SpannedToken>, p: usize) -> (r: Option<(Spanned<Stmt>, usize)>)
    requires
        p <= t@.len(),
    ensures
        r matches Some((_, q)) ==> p < q <= t@.len(),
        stmt_result(r, panic_at(t@, p as int)),
{
    match keyword_expression(t, p, "panic!") {
        Some((message, q)) => Some((Spanned { node: Stmt::Panic { message }, span: span_of(p, q) }, q)),
        None => None,
    }
}

/// `assert!`, the condition and the message.
fn assert_stmt(t: &Vec<SpannedToken>, p: usize) -> (r: Option<(Spanned<Stmt>, usize)>)
    requires
        p <= t@.len(),
    ensures
        r matches Some((_, q)) ==> p < q <= t@.len(),
        stmt_result(r, assert_at(t@, p as int)),
{
    let (condition, q0) = match keyword_expression(t, p, "assert!") {
        Some(x) => x,
        None => {
            return None;
        },
    };
    match expression(t, q0) {
        Some((message, q)) => Some((Spanned { node: Stmt::Assert { condition, message }, span: span_of(p, q) }, q)),
        None => None,
    }
}

/// `break` or `continue`.
fn jump(t: &Vec<SpannedToken>, p: usize) -> (r: Option<(Spanned<Stmt>, usize)>)
    requires
        p <= t@.len(),
    ensures
        r matches Some((_, q)) ==> p < q <= t@.len(),
        stmt_result(r, jump_at(t@, p as int)),
{
    if p < t.len() && matches!(t[p].token, Token::Break) {
        Some((Spanned { node: Stmt::Break, span: span_of(p, p + 1) }, p + 1))
    } else if p < t.len() && matches!(t[p].token, Token::Continue) {
        Some((Spanned { node: Stmt::Continue, span: span_of(p, p + 1) }, p + 1))
    } else {
        None
    }
}

/// An expression standing as a statement.
fn expression_stmt(t: &Vec<SpannedToken>, p: usize) -> (r: Option<(Spanned<Stmt>, usize)>)
    requires
        p <= t@.len(),
    ensures
        r matches Some((_, q)) ==> p < q <= t@.len(),
        stmt_result(r, expression_stmt_at(t@, p as int)),
{
    match expression(t, p) {
        Some((e, q)) => Some((Spanned { node: Stmt::Expr(e), span: span_of(p, q) }, q)),
        None => None,
    }
}

/// A statement without nested blocks: a `let` or `var` binding, an
/// assignment, `break`, `continue`, `return`, `panic!`, `assert!`, or an
/// expression.
pub fn statement(t: &Vec<SpannedToken>, p: usize) -> (r: Option<(Spanned<Stmt>, usize)>)
    requires
        p <= t@.len(),
    ensures
        r matches Some((_, q)) ==> p < q <= t@.len(),
        stmt_result(r, statement_at(t@, p as int)),
{
    match binding(t, p, false) {
        Some(x) => {
            return Some(x);
        },
        None => {},
    }
    match binding(t, p, true) {
        Some(x) => {
            return Some(x);
        },
        None => {},
    }
    match assignment(t, p) {
        Some(x) => {
            return Some(x);
        },
        None => {},
    }
    match jump(t, p) {
        Some(x) => {
            return Some(x);
        },
        None => {},
    }
    match return_stmt(t, p) {
        Some(x) => {
            return Some(x);
        },
        None => {},
    }
    match panic_stmt(t, p) {
        Some(x) => {
            return Some(x);
        },
        None => {},
    }
    match assert_stmt(t, p) {
        Some(x) => {
            return Some(x);
        },
        None => {},
    }
    expression_stmt(t, p)
}

/// Any statement, blocks included: a binding, an assignment, `match`,
/// `loop`, `for`, `break`, `continue`, `select`, `return`, `panic!`,
/// `assert!`, or an expression.
pub fn recursive_statement(t: &Vec<SpannedToken>, p: usize) -> (r: Option<(Spanned<Stmt>, usize)>)
    requires
        p <= t@.len(),
    ensures
        r matches Some((_, q)) ==> p < q <= t@.len(),
        stmt_result(r, recursive_statement_at(t@, p as int)),
    decreases t@.len() - p, 2nat,
{
    match binding(t, p, false) {
        Some(x) => {
            return Some(x);
        },
        None => {},
    }
    match binding(t, p, true) {
        Some(x) => {
            return Some(x);
        },
        None => {},
    }
    match assignment(t, p) {
        Some(x) => {
            return Some(x);
        },
        None => {},
    }
    match match_stmt(t, p) {
        Some(x) => {
            return Some(x);
        },
        None => {},
    }
    match loop_stmt(t, p) {
        Some(x) => {
            return Some(x);
        },
        None => {},
    }
    match for_stmt(t, p) {
        Some(x) => {
            return Some(x);
        },
        None => {},
    }
    match jump(t, p) {
        Some(x) => {
            return Some(x);
        },
        None => {},
    }
    match select_stmt(t, p) {
        Some(x) => {
            return Some(x);
        },
        None => {},
    }
    match return_stmt(t, p) {
        Some(x) => {
            return Some(x);
        },
        None => {},
    }
    match panic_stmt(t, p) {
        Some(x) => {
            return Some(x);
        },
        None => {},
    }
    match assert_stmt(t, p) {
        Some(x) => {
            return Some(x);
        },
        None => {},
    }
    expression_stmt(t, p)
}

/// An indented block of statements: newlines if any, an indent, the
/// statements, each with newlines around it if any, and a dedent.
pub fn statement_block(t: &Vec<SpannedToken>, p: usize) -> (r: Option<(Vec<Spanned<Stmt>>, usize)>)
    requires
        p <= t@.len(),
    ensures
        r matches Some((_, q)) ==> p < q <= t@.len(),
        match r {
            Some((b, q)) => statement_block_at(t@, p as int) == Some((stmts_view(b@), q as int)),
            None => statement_block_at(t@, p as int) is None,
        },
    decreases t@.len() - p, 0nat,
{
    let q0 = skip_newlines(t, p);
    if !(q0 < t.len() && matches!(t[q0].token, Token::Indent)) {
        return None;
    }
    let ghost whole = block_items(t@, q0 + 1);
    let mut body: Vec<Spanned<Stmt>> = Vec::new();
    let mut q = q0 + 1;
    loop
        invariant
            p <= q0 < q <= t@.len(),
            whole == block_items(t@, q0 + 1),
            stmts_view(body@) + block_items(t@, q as int).0 == whole.0,
            block_items(t@, q as int).1 == whole.1,
        ensures
            p <= q0 < q <= t@.len(),
            stmts_view(body@) + block_items(t@, q as int).0 == whole.0,
            block_items(t@, q as int).1 == whole.1,
            block_items(t@, q as int) == (Seq::<SpannedStmtView>::empty(), q as int),
        decreases t@.len() - q,
    {
        let s = skip_newlines(t, q);
        match recursive_statement(t, s) {
            Some((st, q2)) => {
                let q3 = skip_newlines(t, q2);
                proof {
                    lemma_stmts_view_push(body@, st);
                    let more = block_items(t@, q3 as int);
                    assert(block_items(t@, q as int) == (seq![spanned_stmt_view(st)] + more.0, more.1));
                    assert(stmts_view(body@).push(spanned_stmt_view(st)) + more.0 =~= stmts_view(body@) + (seq![
                        spanned_stmt_view(st),
                    ] + more.0));
                }
                body.push(st);
                q = q3;
            },
            None => {
                break;
            },
        }
    }
    assert(stmts_view(body@) =~= whole.0);
    let q = skip_newlines(t, q);
    if q < t.len() && matches!(t[q].token, Token::Dedent) {
        Some((body, q + 1))
    } else {
        None
    }
}

/// A case of a match: a pattern, `:`, and its block.
fn match_case(t: &Vec<SpannedToken>, p: usize) -> (r: Option<(MatchCase, usize)>)
    requires
        p <= t@.len(),
    ensures
        r matches Some((_, q)) ==> p < q <= t@.len(),
        match r {
            Some((c, q)) => match_case_at(t@, p as int) == Some((case_view(c), q as int)),
            None => match_case_at(t@, p as int) is None,
        },
    decreases t@.len() - p, 1nat,
{
    let (pat, q0) = match pattern(t, p) {
        Some(x) => x,
        None => {
            return None;
        },
    };
    if !(q0 < t.len() && matches!(t[q0].token, Token::Colon)) {
        return None;
    }
    match statement_block(t, q0 + 1) {
        Some((body, q)) => Some((MatchCase { pattern: pat, body }, q)),
        None => None,
    }
}

/// `match`, the value, then an indented block of cases.
fn match_stmt(t: &Vec<SpannedToken>, p: usize) -> (r: Option<(Spanned<Stmt>, usize)>)
    requires
        p <= t@.len(),
    ensures
        r matches Some((_, q)) ==> p < q <= t@.len(),
        stmt_result(r, match_stmt_at(t@, p as int)),
    decreases t@.len() - p, 1nat,
{
    if !(p < t.len() && matches!(t[p].token, Token::Match)) {
        return None;
    }
    let (value, q0) = match expression(t, p + 1) {
        Some(x) => x,
        None => {
            return None;
        },
    };
    let q1 = skip_newlines(t, q0);
    if !(q1 < t.len() && matches!(t[q1].token, Token::Indent)) {
        return None;
    }
    let ghost whole = case_items(t@, q1 + 1);
    let mut cases: Vec<MatchCase> = Vec::new();
    let mut q = q1 + 1;
    loop
        invariant
            p < q1 < q <= t@.len(),
            whole == case_items(t@, q1 + 1),
            cases_view(cases@) + case_items(t@, q as int).0 == whole.0,
            case_items(t@, q as int).1 == whole.1,
        ensures
            p < q1 < q <= t@.len(),
            cases_view(cases@) + case_items(t@, q as int).0 == whole.0,
            case_items(t@, q as int).1 == whole.1,
            case_items(t@, q as int) == (Seq::<CaseView>::empty(), q as int),
        decreases t@.len() - q,
    {
        let s = skip_newlines(t, q);
        match match_case(t, s) {
            Some((c, q2)) => {
                let q3 = skip_newlines(t, q2);
                proof {
                    lemma_cases_view_push(cases@, c);
                    let more = case_items(t@, q3 as int);
                    assert(case_items(t@, q as int) == (seq![case_view(c)] + more.0, more.1));
                    assert(cases_view(cases@).push(case_view(c)) + more.0 =~= cases_view(cases@) + (seq![
                        case_view(c),
                    ] + more.0));
                }
                cases.push(c);
                q = q3;
            },
            None => {
                break;
            },
        }
    }
    assert(cases_view(cases@) =~= whole.0);
    let q = skip_newlines(t, q);
    if q < t.len() && matches!(t[q].token, Token::Dedent) {
        Some((Spanned { node: Stmt::Match { value, cases }, span: span_of(p, q + 1) }, q + 1))
    } else {
        None
    }
}

/// `loop` and its block.
fn loop_stmt(t: &Vec<SpannedToken>, p: usize) -> (r: Option<(Spanned<Stmt>, usize)>)
    requires
        p <= t@.len(),
    ensures
        r matches Some((_, q)) ==> p < q <= t@.len(),
        stmt_result(r, loop_at(t@, p as int)),
    decreases t@.len() - p, 1nat,
{
    if !(p < t.len() && matches!(t[p].token, Token::Loop)) {
        return None;
    }
    match statement_block(t, p + 1) {
        Some((body, q)) => Some((Spanned { node: Stmt::Loop { body }, span: span_of(p, q) }, q)),
        None => None,
    }
}

/// `for` a name `in` the iterable, and its block.
fn for_stmt(t: &Vec<SpannedToken>, p: usize) -> (r: Option<(Spanned<Stmt>, usize)>)
    requires
        p <= t@.len(),
    ensures
        r matches Some((_, q)) ==> p < q <= t@.len(),
        stmt_result(r, for_at(t@, p as int)),
    decreases t@.len() - p, 1nat,
{
    if !(p < t.len() && matches!(t[p].token, Token::For)) {
        return None;
    }
    let (var, q0) = match plain_ident(t, p + 1) {
        Some(x) => x,
        None => {
            return None;
        },
    };
    if !(q0 < t.len() && matches!(t[q0].token, Token::In)) {
        return None;
    }
    let (iterable, q1) = match expression(t, q0 + 1) {
        Some(x) => x,
        None => {
            return None;
        },
    };
    match statement_block(t, q1) {
        Some((body, q)) => Some((Spanned { node: Stmt::For { var, iterable, body }, span: span_of(p, q) }, q)),
        None => None,
    }
}

/// A channel operation: `<!` or `<!?` and a channel, or a value, `!>`
/// and a channel.
fn channel_op(t: &Vec<SpannedToken>, p: usize) -> (r: Option<(ChannelOp, usize)>)
    requires
        p <= t@.len(),
    ensures
        r matches Some((_, q)) ==> p < q <= t@.len(),
        match r {
            Some((op, q)) => channel_op_at(t@, p as int) == Some((channel_op_view(op), q as int)),
            None => channel_op_at(t@, p as int) is None,
        },
{
    if p < t.len() && matches!(t[p].token, Token::Receive) {
        match expression(t, p + 1) {
            Some((channel, q)) => {
                return Some((ChannelOp::Receive { channel, non_blocking: false }, q));
            },
            None => {},
        }
    }
    if p < t.len() && matches!(t[p].token, Token::ReceiveNonBlocking) {
        match expression(t, p + 1) {
            Some((channel, q)) => {
                return Some((ChannelOp::Receive { channel, non_blocking: true }, q));
            },
            None => {},
        }
    }
    let (value, q0) = match expression(t, p) {
        Some(x) => x,
        None => {
            return None;
        },
    };
    if !(q0 < t.len() && matches!(t[q0].token, Token::Send)) {
        return None;
    }
    match expression(t, q0 + 1) {
        Some((channel, q)) => Some((ChannelOp::Send { value, channel }, q)),
        None => None,
    }
}

/// A case of a select: `case`, a channel operation (in parentheses or
/// not), `->` and a name to bind if any, `:`, and its block.
fn select_case(t: &Vec<SpannedToken>, p: usize) -> (r: Option<(SelectCase, usize)>)
    requires
        p <= t@.len(),
    ensures
        r matches Some((_, q)) ==> p < q <= t@.len(),
        match r {
            Some((c, q)) => select_case_at(t@, p as int) == Some((select_case_view(c), q as int)),
            None => select_case_at(t@, p as int) is None,
        },
    decreases t@.len() - p, 1nat,
{
    if !(p < t.len() && matches!(t[p].token, Token::Case)) {
        return None;
    }
    let mut found: Option<(ChannelOp, usize)> = None;
    if p + 1 < t.len() && matches!(t[p + 1].token, Token::LParen) {
        match channel_op(t, p + 2) {
            Some((op, q)) => {
                if q < t.len() && matches!(t[q].token, Token::RParen) {
                    found = Some((op, q + 1));
                }
            },
            None => {},
        }
    }
    if found.is_none() {
        found = channel_op(t, p + 1);
    }
    let (operation, q0) = match found {
        Some(x) => x,
        None => {
            return None;
        },
    };
    let mut q1 = q0;
    let mut binding: Option<Ident> = None;
    if q0 < t.len() && matches!(t[q0].token, Token::SimpleArrow) {
        match plain_ident(t, q0 + 1) {
            Some((b, q)) => {
                binding = Some(b);
                q1 = q;
            },
            None => {},
        }
    }
    if !(q1 < t.len() && matches!(t[q1].token, Token::Colon)) {
        return None;
    }
    match statement_block(t, q1 + 1) {
        Some((body, q)) => Some((SelectCase { operation, binding, body }, q)),
        None => None,
    }
}

/// The timeout of a select: `timeout`, the duration, `:`, and its block.
fn select_timeout(t: &Vec<SpannedToken>, p: usize) -> (r: Option<(SelectTimeout, usize)>)
    requires
        p <= t@.len(),
    ensures
        r matches Some((_, q)) ==> p < q <= t@.len(),
        match r {
            Some((to, q)) => select_timeout_at(t@, p as int) == Some((timeout_view(to), q as int)),
            None => select_timeout_at(t@, p as int) is None,
        },
    decreases t@.len() - p, 1nat,
{
    if !(p < t.len() && matches!(t[p].token, Token::Timeout)) {
        return None;
    }
    let (duration, q0) = match expression(t, p + 1) {
        Some(x) => x,
        None => {
            return None;
        },
    };
    if !(q0 < t.len() && matches!(t[q0].token, Token::Colon)) {
        return None;
    }
    match statement_block(t, q0 + 1) {
        Some((body, q)) => Some((SelectTimeout { duration, body }, q)),
        None => None,
    }
}

/// `select`, then an indented block of cases and a timeout if any.
fn select_stmt(t: &Vec<SpannedToken>, p: usize) -> (r: Option<(Spanned<Stmt>, usize)>)
    requires
        p <= t@.len(),
    ensures
        r matches Some((_, q)) ==> p < q <= t@.len(),
        stmt_result(r, select_at(t@, p as int)),
    decreases t@.len() - p, 1nat,
{
    if !(p < t.len() && matches!(t[p].token, Token::Select)) {
        return None;
    }
    let q0 = skip_newlines(t, p + 1);
    if !(q0 < t.len() && matches!(t[q0].token, Token::Indent)) {
        return None;
    }
    let ghost whole = select_items(t@, q0 + 1);
    let mut cases: Vec<SelectCase> = Vec::new();
    let mut q = q0 + 1;
    loop
        invariant
            p < q0 < q <= t@.len(),
            whole == select_items(t@, q0 + 1),
            select_cases_view(cases@) + select_items(t@, q as int).0 == whole.0,
            select_items(t@, q as int).1 == whole.1,
        ensures
            p < q0 < q <= t@.len(),
            select_cases_view(cases@) + select_items(t@, q as int).0 == whole.0,
            select_items(t@, q as int).1 == whole.1,
            select_items(t@, q as int) == (Seq::<SelectCaseView>::empty(), q as int),
        decreases t@.len() - q,
    {
        let s = skip_newlines(t, q);
        match select_case(t, s) {
            Some((c, q2)) => {
                let q3 = skip_newlines(t, q2);
                proof {
                    lemma_select_cases_view_push(cases@, c);
                    let more = select_items(t@, q3 as int);
                    assert(select_items(t@, q as int) == (seq![select_case_view(c)] + more.0, more.1));
                    assert(select_cases_view(cases@).push(select_case_view(c)) + more.0 =~= select_cases_view(
                        cases@,
                    ) + (seq![select_case_view(c)] + more.0));
                }
                cases.push(c);
                q = q3;
            },
            None => {
                break;
            },
        }
    }
    assert(select_cases_view(cases@) =~= whole.0);
    let s = skip_newlines(t, q);
    let timeout = match select_timeout(t, s) {
        Some((to, q2)) => {
            q = skip_newlines(t, q2);
            Some(to)
        },
        None => None,
    };
    let q = skip_newlines(t, q);
    if q < t.len() && matches!(t[q].token, Token::Dedent) {
        Some((Spanned { node: Stmt::Select { cases, timeout }, span: span_of(p, q + 1) }, q + 1))
    } else {
        None
    }
}

} // verus!
