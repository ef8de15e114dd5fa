//! Statements of the action domain.
//!
//! Statements may have side effects and appear only inside actions.

use vstd::prelude::*;
use crate::ast::Spanned;
use crate::ast::id::Ident;
use crate::ast::expr::{Expr, SpannedExprView, expr_view, expr_wf, expr_display, push_expr_display};
use crate::ast::pattern::{
    Pattern, PatternView, pattern_view, pattern_display, push_pattern_display,
};
use crate::lexer::token::Span;
use crate::text::{string_from_chars, push_str};

verus! {

broadcast use vstd::string::group_string_axioms;

/// A statement of the action domain.
#[derive(Debug, PartialEq)]
pub enum Stmt {
    /// Immutable binding: `let x 1`.
    Let { pattern: Spanned<Pattern>, value: Spanned<Expr> },
    /// Mutable binding: `var x 1`.
    Var { pattern: Spanned<Pattern>, value: Spanned<Expr> },
    /// Assignment to a mutable variable: `var x (+ x 1)`.
    Assign { name: Ident, value: Spanned<Expr> },
    /// Match over a value.
    Match { value: Spanned<Expr>, cases: Vec<MatchCase> },
    /// Infinite loop.
    Loop { body: Vec<Spanned<Stmt>> },
    /// Loop over the items of a collection: `for x in list`.
    For { var: Ident, iterable: Spanned<Expr>, body: Vec<Spanned<Stmt>> },
    /// Leaves the innermost loop.
    Break,
    /// Goes on with the next round of the innermost loop.
    Continue,
    /// Waits on several channel operations.
    Select { cases: Vec<SelectCase>, timeout: Option<SelectTimeout> },
    /// Expression evaluated for its effects.
    Expr(Spanned<Expr>),
    /// Return of a value.
    Return(Spanned<Expr>),
    /// Panic: `panic! "message"`.
    Panic { message: Spanned<Expr> },
    /// Assertion: `assert! condition "message"`.
    Assert { condition: Spanned<Expr>, message: Spanned<Expr> },
}

/// A case of a match statement.
#[derive(Debug, PartialEq)]
pub struct MatchCase {
    /// Pattern matched against the value.
    pub pattern: Spanned<Pattern>,
    /// Statements run when the pattern matches.
    pub body: Vec<Spanned<Stmt>>,
}

/// A case of a select statement.
#[derive(Debug, PartialEq)]
pub struct SelectCase {
    /// Channel operation waited on.
    pub operation: ChannelOp,
    /// Variable bound to a received value.
    pub binding: Option<Ident>,
    /// Statements run when this case is chosen.
    pub body: Vec<Spanned<Stmt>>,
}

/// A channel operation of a select case.
#[derive(Debug, PartialEq)]
pub enum ChannelOp {
    /// Receive: `<! rx`, or `<!? rx` when it does not block.
    Receive { channel: Spanned<Expr>, non_blocking: bool },
    /// Send: `value !> tx`.
    Send { value: Spanned<Expr>, channel: Spanned<Expr> },
}

/// The timeout case of a select statement.
#[derive(Debug, PartialEq)]
pub struct SelectTimeout {
    /// Duration in milliseconds.
    pub duration: Spanned<Expr>,
    /// Statements run on timeout.
    pub body: Vec<Spanned<Stmt>>,
}

/// Error propagation: `expr?`.
#[derive(Debug, PartialEq)]
pub struct ErrorPropagation {
    pub expr: Spanned<Expr>,
}

// =============================================================================
// VIEWS
// =============================================================================

/// A statement with its span, by contents.
pub type SpannedStmtView = (StmtView, Span);

/// A statement by its contents: names as character sequences, patterns and
/// expressions by their views, each with its span.
pub enum StmtView {
    Let { pattern: (PatternView, Span), value: SpannedExprView },
    Var { pattern: (PatternView, Span), value: SpannedExprView },
    Assign { name: Seq<char>, value: SpannedExprView },
    Match { value: SpannedExprView, cases: Seq<CaseView> },
    Loop { body: Seq<SpannedStmtView> },
    For { var: Seq<char>, iterable: SpannedExprView, body: Seq<SpannedStmtView> },
    Break,
    Continue,
    Select { cases: Seq<SelectCaseView>, timeout: Option<TimeoutView> },
    Expr(SpannedExprView),
    Return(SpannedExprView),
    Panic(SpannedExprView),
    Assert { condition: SpannedExprView, message: SpannedExprView },
}

/// A case of a match by its contents.
pub struct CaseView {
    pub pattern: (PatternView, Span),
    pub body: Seq<SpannedStmtView>,
}

/// A channel operation by its contents.
pub enum ChannelOpView {
    Receive { channel: SpannedExprView, non_blocking: bool },
    Send { value: SpannedExprView, channel: SpannedExprView },
}

/// A case of a select by its contents.
pub struct SelectCaseView {
    pub operation: ChannelOpView,
    pub binding: Option<Seq<char>>,
    pub body: Seq<SpannedStmtView>,
}

/// The timeout of a select by its contents.
pub struct TimeoutView {
    pub duration: SpannedExprView,
    pub body: Seq<SpannedStmtView>,
}

/// The view of a statement.
pub open spec fn stmt_view(s: Stmt) -> StmtView
    decreases s,
{
    match s {
        Stmt::Let { pattern, value } => StmtView::Let {
            pattern: (pattern_view(pattern.node), pattern.span),
            value: (expr_view(value.node), value.span),
        },
        Stmt::Var { pattern, value } => StmtView::Var {
            pattern: (pattern_view(pattern.node), pattern.span),
            value: (expr_view(value.node), value.span),
        },
        Stmt::Assign { name, value } => StmtView::Assign { name: name@, value: (expr_view(value.node), value.span) },
        Stmt::Match { value, cases } => StmtView::Match {
            value: (expr_view(value.node), value.span),
            cases: cases_view(cases@),
        },
        Stmt::Loop { body } => StmtView::Loop { body: stmts_view(body@) },
        Stmt::For { var, iterable, body } => StmtView::For {
            var: var@,
            iterable: (expr_view(iterable.node), iterable.span),
            body: stmts_view(body@),
        },
        Stmt::Break => StmtView::Break,
        Stmt::Continue => StmtView::Continue,
        Stmt::Select { cases, timeout } => StmtView::Select {
            cases: select_cases_view(cases@),
            timeout: match timeout {
                Some(to) => Some(timeout_view(to)),
                None => None,
            },
        },
        Stmt::Expr(e) => StmtView::Expr((expr_view(e.node), e.span)),
        Stmt::Return(e) => StmtView::Return((expr_view(e.node), e.span)),
        Stmt::Panic { message } => StmtView::Panic((expr_view(message.node), message.span)),
        Stmt::Assert { condition, message } => StmtView::Assert {
            condition: (expr_view(condition.node), condition.span),
            message: (expr_view(message.node), message.span),
        },
    }
}

/// The view of a spanned statement, with its span.
pub open spec fn spanned_stmt_view(s: Spanned<Stmt>) -> SpannedStmtView {
    (stmt_view(s.node), s.span)
}

/// The views of spanned statements.
pub open spec fn stmts_view(ss: Seq<Spanned<Stmt>>) -> Seq<SpannedStmtView>
    decreases ss,
{
    if ss.len() == 0 {
        Seq::empty()
    } else {
        stmts_view(ss.drop_last()).push((stmt_view(ss.last().node), ss.last().span))
    }
}

/// The views of `ss` are as many as `ss`.
pub proof fn lemma_stmts_view_len(ss: Seq<Spanned<Stmt>>)
    ensures
        stmts_view(ss).len() == ss.len(),
    decreases ss.len(),
{
    if ss.len() > 0 {
        lemma_stmts_view_len(ss.drop_last());
    }
}

/// The view of a match case.
pub open spec fn case_view(c: MatchCase) -> CaseView
    decreases c,
{
    CaseView { pattern: (pattern_view(c.pattern.node), c.pattern.span), body: stmts_view(c.body@) }
}

/// The views of match cases.
pub open spec fn cases_view(cs: Seq<MatchCase>) -> Seq<CaseView>
    decreases cs,
{
    if cs.len() == 0 {
        Seq::empty()
    } else {
        cases_view(cs.drop_last()).push(case_view(cs.last()))
    }
}

/// The view of a channel operation.
pub open spec fn channel_op_view(op: ChannelOp) -> ChannelOpView {
    match op {
        ChannelOp::Receive { channel, non_blocking } => ChannelOpView::Receive {
            channel: (expr_view(channel.node), channel.span),
            non_blocking,
        },
        ChannelOp::Send { value, channel } => ChannelOpView::Send {
            value: (expr_view(value.node), value.span),
            channel: (expr_view(channel.node), channel.span),
        },
    }
}

/// The view of a select case.
pub open spec fn select_case_view(c: SelectCase) -> SelectCaseView
    decreases c,
{
    SelectCaseView {
        operation: channel_op_view(c.operation),
        binding: match c.binding {
            Some(b) => Some(b@),
            None => None,
        },
        body: stmts_view(c.body@),
    }
}

/// The views of select cases.
pub open spec fn select_cases_view(cs: Seq<SelectCase>) -> Seq<SelectCaseView>
    decreases cs,
{
    if cs.len() == 0 {
        Seq::empty()
    } else {
        select_cases_view(cs.drop_last()).push(select_case_view(cs.last()))
    }
}

/// The view of a timeout.
pub open spec fn timeout_view(to: SelectTimeout) -> TimeoutView
    decreases to,
{
    TimeoutView { duration: (expr_view(to.duration.node), to.duration.span), body: stmts_view(to.body@) }
}

impl View for Stmt {
    type V = StmtView;

    open spec fn view(&self) -> StmtView {
        stmt_view(*self)
    }
}

/// The views of `ss` with one more statement after them.
pub proof fn lemma_stmts_view_push(ss: Seq<Spanned<Stmt>>, s: Spanned<Stmt>)
    ensures
        stmts_view(ss.push(s)) == stmts_view(ss).push(spanned_stmt_view(s)),
{
    assert(ss.push(s).drop_last() =~= ss);
}

/// The views of `cs` with one more case after them.
pub proof fn lemma_cases_view_push(cs: Seq<MatchCase>, c: MatchCase)
    ensures
        cases_view(cs.push(c)) == cases_view(cs).push(case_view(c)),
{
    assert(cs.push(c).drop_last() =~= cs);
}

/// The views of `cs` with one more select case after them.
pub proof fn lemma_select_cases_view_push(cs: Seq<SelectCase>, c: SelectCase)
    ensures
        select_cases_view(cs.push(c)) == select_cases_view(cs).push(select_case_view(c)),
{
    assert(cs.push(c).drop_last() =~= cs);
}

// =============================================================================
// WELL-FORMEDNESS
// =============================================================================

/// Whether every expression in a statement can be displayed.
pub open spec fn stmt_wf(s: Stmt) -> bool
    decreases s,
{
    match s {
        Stmt::Let { value, .. } | Stmt::Var { value, .. } | Stmt::Assign { value, .. } => expr_wf(
            value.node,
        ),
        Stmt::Match { value, cases } => expr_wf(value.node) && cases_wf(cases@),
        Stmt::Loop { body } => stmts_wf(body@),
        Stmt::For { iterable, body, .. } => expr_wf(iterable.node) && stmts_wf(body@),
        Stmt::Break | Stmt::Continue => true,
        Stmt::Select { cases, timeout } => select_cases_wf(cases@) && match timeout {
            Some(t) => expr_wf(t.duration.node) && stmts_wf(t.body@),
            None => true,
        },
        Stmt::Expr(e) | Stmt::Return(e) => expr_wf(e.node),
        Stmt::Panic { message } => expr_wf(message.node),
        Stmt::Assert { condition, message } => expr_wf(condition.node) && expr_wf(message.node),
    }
}

pub open spec fn stmts_wf(ss: Seq<Spanned<Stmt>>) -> bool
    decreases ss,
{
    if ss.len() == 0 {
        true
    } else {
        stmts_wf(ss.drop_last()) && stmt_wf(ss.last().node)
    }
}

pub open spec fn cases_wf(cs: Seq<MatchCase>) -> bool
    decreases cs,
{
    if cs.len() == 0 {
        true
    } else {
        cases_wf(cs.drop_last()) && stmts_wf(cs.last().body@)
    }
}

pub open spec fn channel_op_wf(op: ChannelOp) -> bool {
    match op {
        ChannelOp::Receive { channel, .. } => expr_wf(channel.node),
        ChannelOp::Send { value, channel } => expr_wf(value.node) && expr_wf(channel.node),
    }
}

pub open spec fn select_cases_wf(cs: Seq<SelectCase>) -> bool
    decreases cs,
{
    if cs.len() == 0 {
        true
    } else {
        select_cases_wf(cs.drop_last()) && channel_op_wf(cs.last().operation) && stmts_wf(
            cs.last().body@,
        )
    }
}

// =============================================================================
// DISPLAY
// =============================================================================

/// Statements each on an indented line of its own, each line ended.
pub open spec fn stmt_lines(ss: Seq<Spanned<Stmt>>) -> Seq<char>
    decreases ss,
{
    if ss.len() == 0 {
        Seq::empty()
    } else {
        stmt_lines(ss.drop_last()) + "    "@ + stmt_display(ss.last().node) + "\n"@
    }
}

/// Statements of a case body, joined by a line break and an indentation.
pub open spec fn body_display(ss: Seq<Spanned<Stmt>>) -> Seq<char>
    decreases ss,
{
    if ss.len() == 0 {
        Seq::empty()
    } else if ss.len() == 1 {
        stmt_display(ss[0].node)
    } else {
        body_display(ss.drop_last()) + "\n        "@ + stmt_display(ss.last().node)
    }
}

/// The cases of a match, each after an indentation.
pub open spec fn cases_display(cs: Seq<MatchCase>) -> Seq<char>
    decreases cs,
{
    if cs.len() == 0 {
        Seq::empty()
    } else {
        cases_display(cs.drop_last()) + "    "@ + pattern_display(cs.last().pattern.node) + ": "@
            + body_display(cs.last().body@)
    }
}

pub open spec fn channel_op_display(op: ChannelOp) -> Seq<char> {
    match op {
        ChannelOp::Receive { channel, non_blocking } => if non_blocking {
            "<!? "@ + expr_display(channel.node)
        } else {
            "<! "@ + expr_display(channel.node)
        },
        ChannelOp::Send { value, channel } => expr_display(value.node) + " !> "@ + expr_display(
            channel.node,
        ),
    }
}

/// How a select case is written: `case op: body` or `case op -> var: body`.
pub open spec fn select_case_display(c: SelectCase) -> Seq<char>
    decreases c,
{
    let head = match c.binding {
        Some(v) => "case "@ + channel_op_display(c.operation) + " -> "@ + v@ + ": "@,
        None => "case "@ + channel_op_display(c.operation) + ": "@,
    };
    head + body_display(c.body@)
}

/// The cases of a select, each on an indented line of its own.
pub open spec fn select_cases_display(cs: Seq<SelectCase>) -> Seq<char>
    decreases cs,
{
    if cs.len() == 0 {
        Seq::empty()
    } else {
        select_cases_display(cs.drop_last()) + "    "@ + select_case_display(cs.last()) + "\n"@
    }
}

/// How a timeout case is written: `timeout duration: body`.
pub open spec fn timeout_display(t: SelectTimeout) -> Seq<char>
    decreases t,
{
    "timeout "@ + expr_display(t.duration.node) + ": "@ + body_display(t.body@)
}

/// How a statement is written.
pub open spec fn stmt_display(s: Stmt) -> Seq<char>
    decreases s,
{
    match s {
        Stmt::Let { pattern, value } => "let "@ + pattern_display(pattern.node) + " "@
            + expr_display(value.node),
        Stmt::Var { pattern, value } => "var "@ + pattern_display(pattern.node) + " "@
            + expr_display(value.node),
        Stmt::Assign { name, value } => "var "@ + name@ + " "@ + expr_display(value.node),
        Stmt::Match { value, cases } => "match "@ + expr_display(value.node) + "\n"@
            + cases_display(cases@),
        Stmt::Loop { body } => "loop\n"@ + stmt_lines(body@),
        Stmt::For { var, iterable, body } => "for "@ + var@ + " in "@ + expr_display(iterable.node)
            + "\n"@ + stmt_lines(body@),
        Stmt::Break => "break"@,
        Stmt::Continue => "continue"@,
        Stmt::Select { cases, timeout } => "select\n"@ + select_cases_display(cases@)
            + match timeout {
            Some(t) => "    "@ + timeout_display(t) + "\n"@,
            None => Seq::empty(),
        },
        Stmt::Expr(e) => expr_display(e.node),
        Stmt::Return(e) => "return "@ + expr_display(e.node),
        Stmt::Panic { message } => "panic! "@ + expr_display(message.node),
        Stmt::Assert { condition, message } => "assert! "@ + expr_display(condition.node) + " "@
            + expr_display(message.node),
    }
}

// =============================================================================
// LEMMAS
// =============================================================================

pub proof fn lemma_stmts_wf_index(ss: Seq<Spanned<Stmt>>, i: int)
    requires
        stmts_wf(ss),
        0 <= i < ss.len(),
    ensures
        stmt_wf(ss[i].node),
    decreases ss.len(),
{
    if i < ss.len() - 1 {
        lemma_stmts_wf_index(ss.drop_last(), i);
    }
}

proof fn lemma_cases_wf_index(cs: Seq<MatchCase>, i: int)
    requires
        cases_wf(cs),
        0 <= i < cs.len(),
    ensures
        stmts_wf(cs[i].body@),
    decreases cs.len(),
{
    if i < cs.len() - 1 {
        lemma_cases_wf_index(cs.drop_last(), i);
    }
}

proof fn lemma_select_cases_wf_index(cs: Seq<SelectCase>, i: int)
    requires
        select_cases_wf(cs),
        0 <= i < cs.len(),
    ensures
        channel_op_wf(cs[i].operation),
        stmts_wf(cs[i].body@),
    decreases cs.len(),
{
    if i < cs.len() - 1 {
        lemma_select_cases_wf_index(cs.drop_last(), i);
    }
}

// =============================================================================
// PRINTING
// =============================================================================

/// `out` followed by each statement on an indented line of its own.
pub fn push_stmt_lines(out: &mut Vec<char>, ss: &Vec<Spanned<Stmt>>)
    requires
        stmts_wf(ss@),
    ensures
        final(out)@ == old(out)@ + stmt_lines(ss@),
    decreases ss,
{
    let ghost start = out@;
    let mut i: usize = 0;
    assert(ss@.take(0) =~= Seq::<Spanned<Stmt>>::empty());
    assert(out@ =~= start + stmt_lines(ss@.take(0)));
    while i < ss.len()
        invariant
            i <= ss.len(),
            stmts_wf(ss@),
            out@ == start + stmt_lines(ss@.take(i as int)),
        decreases ss.len() - i,
    {
        assert(ss@.take(i + 1).drop_last() =~= ss@.take(i as int));
        proof {
            lemma_stmts_wf_index(ss@, i as int);
        }
        push_str(out, "    ");
        push_stmt_display(out, &ss[i].node);
        push_str(out, "\n");
        assert(out@ =~= start + stmt_lines(ss@.take(i + 1)));
        i = i + 1;
    }
    assert(ss@.take(ss@.len() as int) =~= ss@);
}

/// `out` followed by the statements of a case body.
pub fn push_body_display(out: &mut Vec<char>, ss: &Vec<Spanned<Stmt>>)
    requires
        stmts_wf(ss@),
    ensures
        final(out)@ == old(out)@ + body_display(ss@),
    decreases ss,
{
    let ghost start = out@;
    let mut i: usize = 0;
    assert(ss@.take(0) =~= Seq::<Spanned<Stmt>>::empty());
    assert(out@ =~= start + body_display(ss@.take(0)));
    while i < ss.len()
        invariant
            i <= ss.len(),
            stmts_wf(ss@),
            out@ == start + body_display(ss@.take(i as int)),
        decreases ss.len() - i,
    {
        assert(ss@.take(i + 1).drop_last() =~= ss@.take(i as int));
        proof {
            lemma_stmts_wf_index(ss@, i as int);
        }
        if i > 0 {
            push_str(out, "\n        ");
        }
        push_stmt_display(out, &ss[i].node);
        assert(out@ =~= start + body_display(ss@.take(i + 1)));
        i = i + 1;
    }
    assert(ss@.take(ss@.len() as int) =~= ss@);
}

/// `out` followed by the cases of a match.
fn push_cases_display(out: &mut Vec<char>, cs: &Vec<MatchCase>)
    requires
        cases_wf(cs@),
    ensures
        final(out)@ == old(out)@ + cases_display(cs@),
    decreases cs,
{
    let ghost start = out@;
    let mut i: usize = 0;
    assert(cs@.take(0) =~= Seq::<MatchCase>::empty());
    assert(out@ =~= start + cases_display(cs@.take(0)));
    while i < cs.len()
        invariant
            i <= cs.len(),
            cases_wf(cs@),
            out@ == start + cases_display(cs@.take(i as int)),
        decreases cs.len() - i,
    {
        assert(cs@.take(i + 1).drop_last() =~= cs@.take(i as int));
        proof {
            lemma_cases_wf_index(cs@, i as int);
        }
        push_str(out, "    ");
        push_pattern_display(out, &cs[i].pattern.node);
        push_str(out, ": ");
        push_body_display(out, &cs[i].body);
        assert(out@ =~= start + cases_display(cs@.take(i + 1)));
        i = i + 1;
    }
    assert(cs@.take(cs@.len() as int) =~= cs@);
}

fn push_channel_op_display(out: &mut Vec<char>, op: &ChannelOp)
    requires
        channel_op_wf(*op),
    ensures
        final(out)@ == old(out)@ + channel_op_display(*op),
{
    match op {
        ChannelOp::Receive { channel, non_blocking } => {
            if *non_blocking {
                push_str(out, "<!? ");
            } else {
                push_str(out, "<! ");
            }
            push_expr_display(out, &channel.node);
        },
        ChannelOp::Send { value, channel } => {
            push_expr_display(out, &value.node);
            push_str(out, " !> ");
            push_expr_display(out, &channel.node);
        },
    }
    assert(out@ =~= old(out)@ + channel_op_display(*op));
}

fn push_select_case_display(out: &mut Vec<char>, c: &SelectCase)
    requires
        channel_op_wf(c.operation),
        stmts_wf(c.body@),
    ensures
        final(out)@ == old(out)@ + select_case_display(*c),
    decreases c,
{
    push_str(out, "case ");
    push_channel_op_display(out, &c.operation);
    match &c.binding {
        Some(v) => {
            push_str(out, " -> ");
            push_str(out, v.0.as_str());
        },
        None => {},
    }
    push_str(out, ": ");
    push_body_display(out, &c.body);
    assert(out@ =~= old(out)@ + select_case_display(*c));
}

fn push_select_cases_display(out: &mut Vec<char>, cs: &Vec<SelectCase>)
    requires
        select_cases_wf(cs@),
    ensures
        final(out)@ == old(out)@ + select_cases_display(cs@),
    decreases cs,
{
    let ghost start = out@;
    let mut i: usize = 0;
    assert(cs@.take(0) =~= Seq::<SelectCase>::empty());
    assert(out@ =~= start + select_cases_display(cs@.take(0)));
    while i < cs.len()
        invariant
            i <= cs.len(),
            select_cases_wf(cs@),
            out@ == start + select_cases_display(cs@.take(i as int)),
        decreases cs.len() - i,
    {
        assert(cs@.take(i + 1).drop_last() =~= cs@.take(i as int));
        proof {
            lemma_select_cases_wf_index(cs@, i as int);
        }
        push_str(out, "    ");
        push_select_case_display(out, &cs[i]);
        push_str(out, "\n");
        assert(out@ =~= start + select_cases_display(cs@.take(i + 1)));
        i = i + 1;
    }
    assert(cs@.take(cs@.len() as int) =~= cs@);
}

fn push_timeout_display(out: &mut Vec<char>, t: &SelectTimeout)
    requires
        expr_wf(t.duration.node),
        stmts_wf(t.body@),
    ensures
        final(out)@ == old(out)@ + timeout_display(*t),
    decreases t,
{
    push_str(out, "timeout ");
    push_expr_display(out, &t.duration.node);
    push_str(out, ": ");
    push_body_display(out, &t.body);
    assert(out@ =~= old(out)@ + timeout_display(*t));
}

/// `out` followed by the display of a statement.
pub fn push_stmt_display(out: &mut Vec<char>, s: &Stmt)
    requires
        stmt_wf(*s),
    ensures
        final(out)@ == old(out)@ + stmt_display(*s),
    decreases s,
{
    match s {
        Stmt::Let { pattern, value } => {
            push_str(out, "let ");
            push_pattern_display(out, &pattern.node);
            push_str(out, " ");
            push_expr_display(out, &value.node);
        },
        Stmt::Var { pattern, value } => {
            push_str(out, "var ");
            push_pattern_display(out, &pattern.node);
            push_str(out, " ");
            push_expr_display(out, &value.node);
        },
        Stmt::Assign { name, value } => {
            push_str(out, "var ");
            push_str(out, name.0.as_str());
            push_str(out, " ");
            push_expr_display(out, &value.node);
        },
        Stmt::Match { value, cases } => {
            push_str(out, "match ");
            push_expr_display(out, &value.node);
            push_str(out, "\n");
            push_cases_display(out, cases);
        },
        Stmt::Loop { body } => {
            push_str(out, "loop\n");
            push_stmt_lines(out, body);
        },
        Stmt::For { var, iterable, body } => {
            push_str(out, "for ");
            push_str(out, var.0.as_str());
            push_str(out, " in ");
            push_expr_display(out, &iterable.node);
            push_str(out, "\n");
            push_stmt_lines(out, body);
        },
        Stmt::Break => push_str(out, "break"),
        Stmt::Continue => push_str(out, "continue"),
        Stmt::Select { cases, timeout } => {
            push_str(out, "select\n");
            push_select_cases_display(out, cases);
            match timeout {
                Some(t) => {
                    push_str(out, "    ");
                    push_timeout_display(out, t);
                    push_str(out, "\n");
                },
                None => {},
            }
        },
        Stmt::Expr(e) => push_expr_display(out, &e.node),
        Stmt::Return(e) => {
            push_str(out, "return ");
            push_expr_display(out, &e.node);
        },
        Stmt::Panic { message } => {
            push_str(out, "panic! ");
            push_expr_display(out, &message.node);
        },
        Stmt::Assert { condition, message } => {
            push_str(out, "assert! ");
            push_expr_display(out, &condition.node);
            push_str(out, " ");
            push_expr_display(out, &message.node);
        },
    }
    assert(out@ =~= old(out)@ + stmt_display(*s));
}

// =============================================================================
// QUERIES
// =============================================================================

impl Stmt {
    /// Whether the statement transfers control: `break`, `continue` or
    /// `return`.
    pub fn is_control_flow(&self) -> (r: bool)
        ensures
            r == (*self is Break || *self is Continue || *self is Return),
    {
        matches!(self, Stmt::Break | Stmt::Continue | Stmt::Return(_))
    }

    /// The statement as written.
    pub fn to_string(&self) -> (r: String)
        requires
            stmt_wf(*self),
        ensures
            r@ == stmt_display(*self),
    {
        let mut out: Vec<char> = Vec::new();
        push_stmt_display(&mut out, self);
        assert(out@ =~= stmt_display(*self));
        string_from_chars(&out)
    }
}

impl MatchCase {
    /// The case `pattern: body`.
    pub fn new(pattern: Spanned<Pattern>, body: Vec<Spanned<Stmt>>) -> (r: MatchCase)
        ensures
            r == (MatchCase { pattern, body }),
    {
        MatchCase { pattern, body }
    }

    /// The case as written: `pattern: body`.
    pub fn to_string(&self) -> (r: String)
        requires
            stmts_wf(self.body@),
        ensures
            r@ == pattern_display(self.pattern.node) + ": "@ + body_display(self.body@),
    {
        let mut out: Vec<char> = Vec::new();
        push_pattern_display(&mut out, &self.pattern.node);
        push_str(&mut out, ": ");
        push_body_display(&mut out, &self.body);
        string_from_chars(&out)
    }
}

impl SelectCase {
    /// The case as written.
    pub fn to_string(&self) -> (r: String)
        requires
            channel_op_wf(self.operation),
            stmts_wf(self.body@),
        ensures
            r@ == select_case_display(*self),
    {
        let mut out: Vec<char> = Vec::new();
        push_select_case_display(&mut out, self);
        assert(out@ =~= select_case_display(*self));
        string_from_chars(&out)
    }
}

impl ChannelOp {
    /// The operation as written.
    pub fn to_string(&self) -> (r: String)
        requires
            channel_op_wf(*self),
        ensures
            r@ == channel_op_display(*self),
    {
        let mut out: Vec<char> = Vec::new();
        push_channel_op_display(&mut out, self);
        assert(out@ =~= channel_op_display(*self));
        string_from_chars(&out)
    }
}

impl SelectTimeout {
    /// The timeout case as written.
    pub fn to_string(&self) -> (r: String)
        requires
            expr_wf(self.duration.node),
            stmts_wf(self.body@),
        ensures
            r@ == timeout_display(*self),
    {
        let mut out: Vec<char> = Vec::new();
        push_timeout_display(&mut out, self);
        assert(out@ =~= timeout_display(*self));
        string_from_chars(&out)
    }
}

impl ErrorPropagation {
    /// The propagation as written: the expression followed by `?`.
    pub fn to_string(&self) -> (r: String)
        requires
            expr_wf(self.expr.node),
        ensures
            r@ == expr_display(self.expr.node) + "?"@,
    {
        let mut out: Vec<char> = Vec::new();
        push_expr_display(&mut out, &self.expr.node);
        push_str(&mut out, "?");
        string_from_chars(&out)
    }
}

} // verus!
