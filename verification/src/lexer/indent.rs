//! Layout: turning leading whitespace into INDENT and DEDENT tokens.
//!
//! The indentation of a line is the width of its leading blanks (a space
//! counts one, a tab four). A stack of open levels starts at `[0]`. At the
//! first token of a line, a deeper indentation pushes a level and emits
//! INDENT; a shallower one pops every deeper level, one DEDENT each. Runs of
//! newlines are reduced to their first newline, emitted before the next token.
//! At the end of file every open level is closed.

use vstd::prelude::*;
use crate::lexer::token::{Token, TokenView, Span, SpannedToken, tokens_view, copy_spanned_token};
use crate::lexer::lexer::{KataLexer, spec_lex, lex_from, step, Step, lemma_step_advances};
use crate::lexer::error::LexerError;
use crate::text::chars_of;

verus! {

/// The width of the leading blanks of the text `src[from..to]`: a space
/// counts one, a tab four; the first other character ends the count.
pub open spec fn indent_width(src: Seq<char>, from: int, to: int) -> nat
    decreases to - from,
{
    if 0 <= from < to && from < src.len() {
        if src[from] == ' ' {
            1 + indent_width(src, from + 1, to)
        } else if src[from] == '\t' {
            4 + indent_width(src, from + 1, to)
        } else {
            0
        }
    } else {
        0
    }
}

/// How many times `c` occurs in `t`.
pub open spec fn char_count(t: Seq<char>, c: char) -> nat
    decreases t.len(),
{
    if t.len() == 0 {
        0
    } else {
        (if t[0] == c {
            1nat
        } else {
            0nat
        }) + char_count(t.drop_first(), c)
    }
}

/// The indentation of a run of blanks is its number of columns: one per
/// space and four per tab.
pub proof fn law_indent_counts_columns(src: Seq<char>, from: int, to: int)
    requires
        0 <= from <= to <= src.len(),
        forall|k: int| from <= k < to ==> src[k] == ' ' || src[k] == '\t',
    ensures
        indent_width(src, from, to) == char_count(src.subrange(from, to), ' ') + 4 * char_count(
            src.subrange(from, to),
            '\t',
        ),
    decreases to - from,
{
    if from < to {
        law_indent_counts_columns(src, from + 1, to);
        assert(src.subrange(from, to).drop_first() =~= src.subrange(from + 1, to));
        assert(src.subrange(from, to)[0] == src[from]);
    }
}

/// The indentation stops at the first character that is not a blank: what
/// follows it does not count.
pub proof fn law_indent_stops_at_text(src: Seq<char>, from: int, mid: int, to: int)
    requires
        0 <= from <= mid < to <= src.len(),
        src[mid] != ' ',
        src[mid] != '\t',
    ensures
        indent_width(src, from, to) == indent_width(src, from, mid),
    decreases mid - from,
{
    if from < mid {
        law_indent_stops_at_text(src, from + 1, mid, to);
    }
}

/// The state of the layout pass between two tokens.
pub struct LayoutState {
    /// Tokens emitted so far.
    pub out: Seq<(TokenView, Span)>,
    /// Open indentation levels, outermost first.
    pub stack: Seq<nat>,
    /// The first newline of the current run, not yet emitted.
    pub pending: Option<(TokenView, Span)>,
    /// Whether the next token is the first of its line.
    pub at_line_start: bool,
    /// Where the current line starts.
    pub line_start: nat,
}

pub open spec fn initial_layout() -> LayoutState {
    LayoutState {
        out: Seq::empty(),
        stack: seq![0nat],
        pending: None,
        at_line_start: true,
        line_start: 0,
    }
}

/// `out` followed by the pending newline, if any.
pub open spec fn flush(out: Seq<(TokenView, Span)>, pending: Option<(TokenView, Span)>) -> Seq<
    (TokenView, Span),
> {
    match pending {
        Some(t) => out.push(t),
        None => out,
    }
}

/// The stack without its levels deeper than `cur`, taken from the top.
pub open spec fn pop_deeper(stack: Seq<nat>, cur: nat) -> Seq<nat>
    decreases stack.len(),
{
    if stack.len() > 0 && stack.last() > cur {
        pop_deeper(stack.drop_last(), cur)
    } else {
        stack
    }
}

/// `n` copies of the DEDENT token at `span`.
pub open spec fn dedents(span: Span, n: nat) -> Seq<(TokenView, Span)>
    decreases n,
{
    if n == 0 {
        Seq::empty()
    } else {
        dedents(span, (n - 1) as nat).push((TokenView::Fixed(Token::Dedent), span))
    }
}

/// The effect of one token on the layout state.
pub open spec fn layout_step(src: Seq<char>, st: LayoutState, tok: (TokenView, Span)) -> LayoutState {
    let (tv, span) = tok;
    if tv == TokenView::Fixed(Token::Newline) {
        LayoutState {
            line_start: span.end as nat,
            pending: if st.pending is None {
                Some(tok)
            } else {
                st.pending
            },
            at_line_start: true,
            ..st
        }
    } else if tv == TokenView::Fixed(Token::Eof) {
        let out = flush(st.out, st.pending);
        LayoutState {
            out: (out + dedents(span, (st.stack.len() - 1) as nat)).push(tok),
            stack: st.stack.take(1),
            pending: None,
            ..st
        }
    } else if st.at_line_start {
        let cur = indent_width(src, st.line_start as int, span.start as int);
        let top = st.stack.last();
        let out = flush(st.out, st.pending);
        if cur > top {
            LayoutState {
                out: out.push((TokenView::Fixed(Token::Indent), span)).push(tok),
                stack: st.stack.push(cur),
                pending: None,
                at_line_start: false,
                ..st
            }
        } else if cur < top {
            let kept = pop_deeper(st.stack, cur);
            LayoutState {
                out: (out + dedents(span, (st.stack.len() - kept.len()) as nat)).push(tok),
                stack: kept,
                pending: None,
                at_line_start: false,
                ..st
            }
        } else {
            LayoutState { out: out.push(tok), pending: None, at_line_start: false, ..st }
        }
    } else {
        LayoutState { out: flush(st.out, st.pending).push(tok), pending: None, ..st }
    }
}

/// The layout state after the first `n` tokens.
pub open spec fn layout_after(src: Seq<char>, toks: Seq<(TokenView, Span)>, n: nat) -> LayoutState
    decreases n,
{
    if n == 0 || n > toks.len() {
        initial_layout()
    } else {
        layout_step(src, layout_after(src, toks, (n - 1) as nat), toks[n - 1])
    }
}

/// The tokens of `toks` with layout tokens inserted, for the source text `src`.
pub open spec fn spec_layout(src: Seq<char>, toks: Seq<(TokenView, Span)>) -> Seq<(TokenView, Span)> {
    layout_after(src, toks, toks.len()).out
}

// ============================================================================
// EXECUTABLE LAYOUT PASS
// ============================================================================

/// Bound on the texts whose indentation is measured, so that widths fit in `usize`.
pub open spec fn fits_layout(src: Seq<char>) -> bool {
    4 * src.len() + 16 <= usize::MAX
}

fn indent_width_exec(src: &Vec<char>, from: usize, to: usize) -> (w: usize)
    requires
        fits_layout(src@),
    ensures
        w == indent_width(src@, from as int, to as int),
{
    let mut i = from;
    let mut w: usize = 0;
    while i < to && i < src.len() && (src[i] == ' ' || src[i] == '\t')
        invariant
            fits_layout(src@),
            from <= i,
            i <= from || i <= src.len(),
            w <= 4 * (i - from),
            i <= to || i == from,
            w + indent_width(src@, i as int, to as int) == indent_width(src@, from as int, to as int),
        decreases src.len() - i,
    {
        if src[i] == ' ' {
            w = w + 1;
        } else {
            w = w + 4;
        }
        i = i + 1;
    }
    w
}

fn flush_exec(out: &mut Vec<SpannedToken>, pending: &Option<SpannedToken>)
    ensures
        tokens_view(final(out)@) == flush(
            tokens_view(old(out)@),
            match pending {
                Some(t) => Some(t@),
                None => None,
            },
        ),
{
    match pending {
        Some(t) => {
            let ghost before = out@;
            out.push(copy_spanned_token(t));
            assert(tokens_view(out@) =~= tokens_view(before).push(t@));
        },
        None => {},
    }
}

fn push_token(out: &mut Vec<SpannedToken>, t: SpannedToken)
    ensures
        tokens_view(final(out)@) == tokens_view(old(out)@).push(t@),
{
    let ghost before = out@;
    let ghost v = t@;
    out.push(t);
    assert(tokens_view(out@) =~= tokens_view(before).push(v));
}

/// The view of the optional pending token.
pub open spec fn pending_view(p: Option<SpannedToken>) -> Option<(TokenView, Span)> {
    match p {
        Some(t) => Some(t@),
        None => None,
    }
}

/// Whether the executable state stands for the spec state.
pub open spec fn layout_matches(
    out: Seq<SpannedToken>,
    stack: Seq<usize>,
    pending: Option<SpannedToken>,
    at_line_start: bool,
    line_start: usize,
    st: LayoutState,
) -> bool {
    &&& tokens_view(out) == st.out
    &&& stack.len() == st.stack.len()
    &&& forall|k: int| 0 <= k < stack.len() ==> stack[k] as nat == #[trigger] st.stack[k]
    &&& pending_view(pending) == st.pending
    &&& at_line_start == st.at_line_start
    &&& line_start as nat == st.line_start
}

pub proof fn lemma_layout_invariant(src: Seq<char>, toks: Seq<(TokenView, Span)>, n: nat)
    requires
        n <= toks.len(),
    ensures
        layout_after(src, toks, n).stack.len() >= 1,
        layout_after(src, toks, n).stack[0] == 0,
    decreases n,
{
    if n > 0 {
        lemma_layout_invariant(src, toks, (n - 1) as nat);
        let st = layout_after(src, toks, (n - 1) as nat);
        let cur = indent_width(src, st.line_start as int, toks[n - 1].1.start as int);
        lemma_pop_deeper_keeps_base(st.stack, cur);
    }
}

pub proof fn lemma_pop_deeper_keeps_base(stack: Seq<nat>, cur: nat)
    requires
        stack.len() >= 1,
        stack[0] == 0,
    ensures
        pop_deeper(stack, cur).len() >= 1,
        pop_deeper(stack, cur).len() <= stack.len(),
        pop_deeper(stack, cur) == stack.take(pop_deeper(stack, cur).len() as int),
        pop_deeper(stack, cur).last() <= cur,
    decreases stack.len(),
{
    if stack.last() > cur {
        assert(stack.len() > 1);
        lemma_pop_deeper_keeps_base(stack.drop_last(), cur);
        let r = pop_deeper(stack.drop_last(), cur);
        assert(r =~= stack.take(r.len() as int));
    } else {
        assert(stack =~= stack.take(stack.len() as int));
    }
}

fn push_dedents(out: &mut Vec<SpannedToken>, span: Span, n: usize)
    ensures
        tokens_view(final(out)@) == tokens_view(old(out)@) + dedents(span, n as nat),
{
    let ghost start = tokens_view(out@);
    let mut k: usize = 0;
    assert(start + dedents(span, 0) =~= start);
    while k < n
        invariant
            k <= n,
            tokens_view(out@) == start + dedents(span, k as nat),
        decreases n - k,
    {
        push_token(out, SpannedToken { token: Token::Dedent, span });
        assert(start + dedents(span, (k + 1) as nat) =~= (start + dedents(span, k as nat)).push(
            (TokenView::Fixed(Token::Dedent), span),
        ));
        k = k + 1;
    }
}

/// Inserts INDENT and DEDENT tokens into `tokens`, measuring the indentation
/// of each line in `src`.
pub fn process_indentation(src: &Vec<char>, tokens: &Vec<SpannedToken>) -> (r: Vec<SpannedToken>)
    requires
        fits_layout(src@),
    ensures
        tokens_view(r@) == spec_layout(src@, tokens_view(tokens@)),
{
    let ghost toks = tokens_view(tokens@);
    let mut out: Vec<SpannedToken> = Vec::new();
    let mut stack: Vec<usize> = Vec::new();
    stack.push(0);
    let mut pending: Option<SpannedToken> = None;
    let mut at_line_start = true;
    let mut line_start: usize = 0;
    let mut i: usize = 0;
    proof {
        assert(tokens_view(out@) =~= Seq::<(TokenView, Span)>::empty());
    }
    while i < tokens.len()
        invariant
            fits_layout(src@),
            toks == tokens_view(tokens@),
            i <= tokens.len(),
            layout_matches(out@, stack@, pending, at_line_start, line_start, layout_after(src@, toks, i as nat)),
        decreases tokens.len() - i,
    {
        proof {
            lemma_layout_invariant(src@, toks, i as nat);
        }
        let ghost st = layout_after(src@, toks, i as nat);
        let t = &tokens[i];
        assert(toks[i as int] == t@);
        match &t.token {
            Token::Newline => {
                line_start = t.span.end;
                if pending.is_none() {
                    pending = Some(copy_spanned_token(t));
                }
                at_line_start = true;
            },
            Token::Eof => {
                flush_exec(&mut out, &pending);
                pending = None;
                let n = stack.len() - 1;
                push_dedents(&mut out, t.span, n);
                push_token(&mut out, copy_spanned_token(t));
                stack.truncate(1);
                proof {
                    assert(stack@.len() == st.stack.take(1).len());
                }
            },
            _ => {
                if at_line_start {
                    let cur = indent_width_exec(src, line_start, t.span.start);
                    let top = stack[stack.len() - 1];
                    assert(top as nat == st.stack.last());
                    flush_exec(&mut out, &pending);
                    pending = None;
                    if cur > top {
                        stack.push(cur);
                        push_token(&mut out, SpannedToken { token: Token::Indent, span: t.span });
                        push_token(&mut out, copy_spanned_token(t));
                    } else if cur < top {
                        let before = stack.len();
                        let ghost kept = pop_deeper(st.stack, cur as nat);
                        proof {
                            lemma_pop_deeper_keeps_base(st.stack, cur as nat);
                            assert(st.stack.take(st.stack.len() as int) =~= st.stack);
                        }
                        while stack.len() > 0 && stack[stack.len() - 1] > cur
                            invariant
                                stack@.len() >= kept.len(),
                                stack@.len() <= before,
                                forall|k: int| 0 <= k < stack@.len() ==> stack@[k] as nat == #[trigger] st.stack[k],
                                before == st.stack.len(),
                                pop_deeper(st.stack.take(stack@.len() as int), cur as nat) == kept,
                                kept == st.stack.take(kept.len() as int),
                                kept.len() >= 1,
                                kept.last() <= cur,
                            decreases stack.len(),
                        {
                            let ghost l = stack@.len();
                            assert(st.stack.take(l as int).drop_last() =~= st.stack.take(l - 1));
                            stack.pop();
                        }
                        proof {
                            let l = stack@.len();
                            if l > kept.len() {
                                assert(st.stack.take(l as int).last() == st.stack[l - 1]);
                                assert(kept[kept.len() - 1] == st.stack[kept.len() - 1]);
                                lemma_pop_deeper_keeps_base(st.stack.take(l as int), cur as nat);
                            }
                            assert(pop_deeper(st.stack.take(l as int), cur as nat) == st.stack.take(l as int));
                            assert(stack@.len() == kept.len());
                        }
                        let n = before - stack.len();
                        push_dedents(&mut out, t.span, n);
                        push_token(&mut out, copy_spanned_token(t));
                    } else {
                        push_token(&mut out, copy_spanned_token(t));
                    }
                    at_line_start = false;
                } else {
                    flush_exec(&mut out, &pending);
                    pending = None;
                    push_token(&mut out, copy_spanned_token(t));
                }
            },
        }
        i = i + 1;
    }
    out
}

/// The tokens of `source` with INDENT and DEDENT tokens for its layout.
pub open spec fn spec_lex_with_indent(src: Seq<char>) -> Result<Seq<(TokenView, Span)>, int> {
    match spec_lex(src) {
        Ok(toks) => Ok(spec_layout(src, toks)),
        Err(p) => Err(p),
    }
}

impl KataLexer {
    /// Splits `source` into tokens and inserts INDENT and DEDENT tokens for
    /// its significant indentation.
    pub fn lex_with_indent(source: &str) -> (r: Result<Vec<SpannedToken>, Vec<LexerError>>)
        requires
            fits_layout(source@),
        ensures
            match r {
                Ok(v) => spec_lex_with_indent(source@) == Ok::<Seq<(TokenView, Span)>, int>(
                    tokens_view(v@),
                ),
                Err(es) => {
                    &&& spec_lex_with_indent(source@) is Err
                    &&& es.len() == 1
                    &&& es[0] is ParseError
                    &&& es[0].spec_span().start == spec_lex_with_indent(source@)->Err_0
                    &&& es[0]->ParseError_message@ == "unexpected input"@
                    &&& es[0].spec_span().end == if spec_lex_with_indent(source@)->Err_0 < source@.len() {
                        spec_lex_with_indent(source@)->Err_0 + 1
                    } else {
                        spec_lex_with_indent(source@)->Err_0
                    }
                },
            },
    {
        let raw = KataLexer::lex(source)?;
        let src = chars_of(source);
        Ok(process_indentation(&src, &raw))
    }
}


// ============================================================================
// LAWS
// ============================================================================

/// How many tokens of `r` are the token `t`.
pub open spec fn count_of(r: Seq<(TokenView, Span)>, t: Token) -> nat
    decreases r.len(),
{
    if r.len() == 0 {
        0
    } else {
        count_of(r.drop_last(), t) + if r.last().0 == TokenView::Fixed(t) {
            1nat
        } else {
            0nat
        }
    }
}

pub proof fn lemma_count_concat(a: Seq<(TokenView, Span)>, b: Seq<(TokenView, Span)>, t: Token)
    ensures
        count_of(a + b, t) == count_of(a, t) + count_of(b, t),
    decreases b.len(),
{
    if b.len() == 0 {
        assert(a + b =~= a);
    } else {
        lemma_count_concat(a, b.drop_last(), t);
        assert((a + b).drop_last() =~= a + b.drop_last());
    }
}

pub proof fn lemma_count_dedents(span: Span, n: nat)
    ensures
        count_of(dedents(span, n), Token::Dedent) == n,
        count_of(dedents(span, n), Token::Indent) == 0,
    decreases n,
{
    if n > 0 {
        lemma_count_dedents(span, (n - 1) as nat);
        let prev = dedents(span, (n - 1) as nat);
        assert(dedents(span, n).drop_last() =~= prev);
        assert(dedents(span, n).last().0 == TokenView::Fixed(Token::Dedent));
        assert(TokenView::Fixed(Token::Dedent) != TokenView::Fixed(Token::Indent));
    }
}

/// Whether `tv` is an INDENT or a DEDENT.
pub open spec fn is_layout_token(tv: TokenView) -> bool {
    tv == TokenView::Fixed(Token::Indent) || tv == TokenView::Fixed(Token::Dedent)
}

proof fn lemma_count_push(r: Seq<(TokenView, Span)>, x: (TokenView, Span), t: Token)
    ensures
        count_of(r.push(x), t) == count_of(r, t) + if x.0 == TokenView::Fixed(t) {
            1nat
        } else {
            0nat
        },
{
    assert(r.push(x).drop_last() =~= r);
}

proof fn lemma_flush_counts(out: Seq<(TokenView, Span)>, p: Option<(TokenView, Span)>, t: Token)
    requires
        p matches Some(x) ==> x.0 == TokenView::Fixed(Token::Newline),
        t != Token::Newline,
    ensures
        count_of(flush(out, p), t) == count_of(out, t),
{
    if let Some(x) = p {
        lemma_count_push(out, x, t);
    }
}

/// Between tokens, the INDENTs emitted exceed the DEDENTs by the number of
/// open levels above the base level.
pub proof fn lemma_layout_balance(src: Seq<char>, toks: Seq<(TokenView, Span)>, n: nat)
    requires
        n <= toks.len(),
        forall|k: int| 0 <= k < toks.len() ==> !is_layout_token(#[trigger] toks[k].0),
    ensures
        count_of(layout_after(src, toks, n).out, Token::Indent) == count_of(
            layout_after(src, toks, n).out,
            Token::Dedent,
        ) + layout_after(src, toks, n).stack.len() - 1,
        layout_after(src, toks, n).pending matches Some(x) ==> x.0 == TokenView::Fixed(
            Token::Newline,
        ),
    decreases n,
{
    lemma_layout_invariant(src, toks, n);
    if n > 0 {
        let m = (n - 1) as nat;
        lemma_layout_balance(src, toks, m);
        lemma_layout_invariant(src, toks, m);
        let st = layout_after(src, toks, m);
        let tok = toks[n - 1];
        let (tv, span) = tok;
        assert(!is_layout_token(tv));
        lemma_flush_counts(st.out, st.pending, Token::Indent);
        lemma_flush_counts(st.out, st.pending, Token::Dedent);
        let fl = flush(st.out, st.pending);
        if tv == TokenView::Fixed(Token::Newline) {
        } else if tv == TokenView::Fixed(Token::Eof) {
            let d = dedents(span, (st.stack.len() - 1) as nat);
            lemma_count_dedents(span, (st.stack.len() - 1) as nat);
            lemma_count_concat(fl, d, Token::Indent);
            lemma_count_concat(fl, d, Token::Dedent);
            lemma_count_push(fl + d, tok, Token::Indent);
            lemma_count_push(fl + d, tok, Token::Dedent);
        } else if st.at_line_start {
            let cur = indent_width(src, st.line_start as int, span.start as int);
            let top = st.stack.last();
            if cur > top {
                let ind = (TokenView::Fixed(Token::Indent), span);
                lemma_count_push(fl, ind, Token::Indent);
                lemma_count_push(fl, ind, Token::Dedent);
                lemma_count_push(fl.push(ind), tok, Token::Indent);
                lemma_count_push(fl.push(ind), tok, Token::Dedent);
            } else if cur < top {
                let kept = pop_deeper(st.stack, cur);
                lemma_pop_deeper_keeps_base(st.stack, cur);
                let d = dedents(span, (st.stack.len() - kept.len()) as nat);
                lemma_count_dedents(span, (st.stack.len() - kept.len()) as nat);
                lemma_count_concat(fl, d, Token::Indent);
                lemma_count_concat(fl, d, Token::Dedent);
                lemma_count_push(fl + d, tok, Token::Indent);
                lemma_count_push(fl + d, tok, Token::Dedent);
            } else {
                lemma_count_push(fl, tok, Token::Indent);
                lemma_count_push(fl, tok, Token::Dedent);
            }
        } else {
            lemma_count_push(fl, tok, Token::Indent);
            lemma_count_push(fl, tok, Token::Dedent);
        }
    }
}

/// Layout closes every block it opens: for a token sequence without layout
/// tokens that ends with the end-of-file token, the output holds as many
/// DEDENT tokens as INDENT tokens.
pub proof fn law_layout_balanced(src: Seq<char>, toks: Seq<(TokenView, Span)>)
    requires
        toks.len() > 0,
        toks.last().0 == TokenView::Fixed(Token::Eof),
        forall|k: int| 0 <= k < toks.len() ==> !is_layout_token(#[trigger] toks[k].0),
    ensures
        count_of(spec_layout(src, toks), Token::Indent) == count_of(
            spec_layout(src, toks),
            Token::Dedent,
        ),
{
    let n = toks.len();
    lemma_layout_balance(src, toks, n);
    lemma_layout_invariant(src, toks, (n - 1) as nat);
    let st = layout_after(src, toks, (n - 1) as nat);
    assert(layout_after(src, toks, n).stack =~= st.stack.take(1));
}


/// Whether no prefix of `r` has more DEDENT tokens than INDENT tokens.
pub open spec fn prefixes_balanced(r: Seq<(TokenView, Span)>) -> bool {
    forall|k: int|
        0 <= k <= r.len() ==> count_of(#[trigger] r.take(k), Token::Dedent) <= count_of(r.take(k), Token::Indent)
}

proof fn lemma_prefixes_push(r: Seq<(TokenView, Span)>, x: (TokenView, Span))
    requires
        prefixes_balanced(r),
        count_of(r.push(x), Token::Dedent) <= count_of(r.push(x), Token::Indent),
    ensures
        prefixes_balanced(r.push(x)),
{
    assert forall|k: int| 0 <= k <= r.push(x).len() implies count_of(#[trigger] r.push(x).take(k), Token::Dedent)
        <= count_of(r.push(x).take(k), Token::Indent) by {
        if k <= r.len() {
            assert(r.push(x).take(k) =~= r.take(k));
        } else {
            assert(r.push(x).take(k) =~= r.push(x));
        }
    }
}

proof fn lemma_prefixes_dedents(r: Seq<(TokenView, Span)>, span: Span, n: nat)
    requires
        prefixes_balanced(r),
        count_of(r, Token::Dedent) + n <= count_of(r, Token::Indent),
    ensures
        prefixes_balanced(r + dedents(span, n)),
    decreases n,
{
    if n == 0 {
        assert(r + dedents(span, 0) =~= r);
    } else {
        lemma_prefixes_dedents(r, span, (n - 1) as nat);
        let prev = r + dedents(span, (n - 1) as nat);
        let x = (TokenView::Fixed(Token::Dedent), span);
        assert(r + dedents(span, n) =~= prev.push(x));
        lemma_count_dedents(span, (n - 1) as nat);
        lemma_count_concat(r, dedents(span, (n - 1) as nat), Token::Indent);
        lemma_count_concat(r, dedents(span, (n - 1) as nat), Token::Dedent);
        lemma_count_push(prev, x, Token::Indent);
        lemma_count_push(prev, x, Token::Dedent);
        lemma_prefixes_push(prev, x);
    }
}

proof fn lemma_flush_prefixes(out: Seq<(TokenView, Span)>, p: Option<(TokenView, Span)>)
    requires
        prefixes_balanced(out),
        count_of(out, Token::Dedent) <= count_of(out, Token::Indent),
        p matches Some(x) ==> x.0 == TokenView::Fixed(Token::Newline),
    ensures
        prefixes_balanced(flush(out, p)),
{
    if let Some(x) = p {
        lemma_count_push(out, x, Token::Indent);
        lemma_count_push(out, x, Token::Dedent);
        lemma_prefixes_push(out, x);
    }
}

/// Between tokens, no prefix of the output has more DEDENTs than INDENTs.
proof fn lemma_layout_prefixes(src: Seq<char>, toks: Seq<(TokenView, Span)>, n: nat)
    requires
        n <= toks.len(),
        forall|k: int| 0 <= k < toks.len() ==> !is_layout_token(#[trigger] toks[k].0),
    ensures
        prefixes_balanced(layout_after(src, toks, n).out),
    decreases n,
{
    if n == 0 {
        assert forall|k: int| 0 <= k <= 0 implies count_of(#[trigger] Seq::<(TokenView, Span)>::empty().take(k), Token::Dedent)
            <= count_of(Seq::<(TokenView, Span)>::empty().take(k), Token::Indent) by {
            assert(Seq::<(TokenView, Span)>::empty().take(k) =~= Seq::<(TokenView, Span)>::empty());
        }
    } else {
        let m = (n - 1) as nat;
        lemma_layout_prefixes(src, toks, m);
        lemma_layout_balance(src, toks, m);
        lemma_layout_invariant(src, toks, m);
        let st = layout_after(src, toks, m);
        let tok = toks[n - 1];
        let (tv, span) = tok;
        assert(!is_layout_token(tv));
        lemma_flush_counts(st.out, st.pending, Token::Indent);
        lemma_flush_counts(st.out, st.pending, Token::Dedent);
        lemma_flush_prefixes(st.out, st.pending);
        let fl = flush(st.out, st.pending);
        if tv == TokenView::Fixed(Token::Newline) {
        } else if tv == TokenView::Fixed(Token::Eof) {
            let d = dedents(span, (st.stack.len() - 1) as nat);
            lemma_prefixes_dedents(fl, span, (st.stack.len() - 1) as nat);
            lemma_count_dedents(span, (st.stack.len() - 1) as nat);
            lemma_count_concat(fl, d, Token::Indent);
            lemma_count_concat(fl, d, Token::Dedent);
            lemma_count_push(fl + d, tok, Token::Indent);
            lemma_count_push(fl + d, tok, Token::Dedent);
            lemma_prefixes_push(fl + d, tok);
        } else if st.at_line_start {
            let cur = indent_width(src, st.line_start as int, span.start as int);
            let top = st.stack.last();
            if cur > top {
                let ind = (TokenView::Fixed(Token::Indent), span);
                lemma_count_push(fl, ind, Token::Indent);
                lemma_count_push(fl, ind, Token::Dedent);
                lemma_prefixes_push(fl, ind);
                lemma_count_push(fl.push(ind), tok, Token::Indent);
                lemma_count_push(fl.push(ind), tok, Token::Dedent);
                lemma_prefixes_push(fl.push(ind), tok);
            } else if cur < top {
                let kept = pop_deeper(st.stack, cur);
                lemma_pop_deeper_keeps_base(st.stack, cur);
                let d = dedents(span, (st.stack.len() - kept.len()) as nat);
                lemma_prefixes_dedents(fl, span, (st.stack.len() - kept.len()) as nat);
                lemma_count_dedents(span, (st.stack.len() - kept.len()) as nat);
                lemma_count_concat(fl, d, Token::Indent);
                lemma_count_concat(fl, d, Token::Dedent);
                lemma_count_push(fl + d, tok, Token::Indent);
                lemma_count_push(fl + d, tok, Token::Dedent);
                lemma_prefixes_push(fl + d, tok);
            } else {
                lemma_count_push(fl, tok, Token::Indent);
                lemma_count_push(fl, tok, Token::Dedent);
                lemma_prefixes_push(fl, tok);
            }
        } else {
            lemma_count_push(fl, tok, Token::Indent);
            lemma_count_push(fl, tok, Token::Dedent);
            lemma_prefixes_push(fl, tok);
        }
    }
}

/// Layout never closes a block it has not opened, and keeps the last
/// token: for a token sequence without layout tokens that ends with the
/// end-of-file token, no prefix of the output has more DEDENTs than
/// INDENTs, and the output ends with that same end-of-file token.
pub proof fn law_layout_prefixes_balanced(src: Seq<char>, toks: Seq<(TokenView, Span)>)
    requires
        toks.len() > 0,
        toks.last().0 == TokenView::Fixed(Token::Eof),
        forall|k: int| 0 <= k < toks.len() ==> !is_layout_token(#[trigger] toks[k].0),
    ensures
        prefixes_balanced(spec_layout(src, toks)),
        spec_layout(src, toks).len() > 0,
        spec_layout(src, toks).last() == toks.last(),
{
    lemma_layout_prefixes(src, toks, toks.len());
}

/// The tokens of `r` other than INDENT, DEDENT and newline tokens, in order.
pub open spec fn plain_tokens(r: Seq<(TokenView, Span)>) -> Seq<(TokenView, Span)>
    decreases r.len(),
{
    if r.len() == 0 {
        Seq::empty()
    } else {
        plain_tokens(r.drop_last()) + if is_layout_token(r.last().0) || r.last().0 == TokenView::Fixed(
            Token::Newline,
        ) {
            Seq::empty()
        } else {
            seq![r.last()]
        }
    }
}

proof fn lemma_plain_push(r: Seq<(TokenView, Span)>, x: (TokenView, Span))
    ensures
        plain_tokens(r.push(x)) == plain_tokens(r) + if is_layout_token(x.0) || x.0 == TokenView::Fixed(
            Token::Newline,
        ) {
            Seq::<(TokenView, Span)>::empty()
        } else {
            seq![x]
        },
{
    assert(r.push(x).drop_last() =~= r);
}

proof fn lemma_plain_dedents(r: Seq<(TokenView, Span)>, span: Span, n: nat)
    ensures
        plain_tokens(r + dedents(span, n)) == plain_tokens(r),
    decreases n,
{
    if n == 0 {
        assert(r + dedents(span, 0) =~= r);
    } else {
        lemma_plain_dedents(r, span, (n - 1) as nat);
        let x = (TokenView::Fixed(Token::Dedent), span);
        assert(r + dedents(span, n) =~= (r + dedents(span, (n - 1) as nat)).push(x));
        lemma_plain_push(r + dedents(span, (n - 1) as nat), x);
        assert(plain_tokens(r + dedents(span, n)) =~= plain_tokens(r + dedents(span, (n - 1) as nat)));
    }
}

/// Between tokens, the output holds the tokens read so far other than
/// layout and newline tokens, in order.
proof fn lemma_layout_keeps_tokens(src: Seq<char>, toks: Seq<(TokenView, Span)>, n: nat)
    requires
        n <= toks.len(),
        forall|k: int| 0 <= k < toks.len() ==> !is_layout_token(#[trigger] toks[k].0),
    ensures
        plain_tokens(layout_after(src, toks, n).out) == plain_tokens(toks.take(n as int)),
    decreases n,
{
    if n == 0 {
        assert(toks.take(0) =~= Seq::<(TokenView, Span)>::empty());
    } else {
        let m = (n - 1) as nat;
        lemma_layout_keeps_tokens(src, toks, m);
        lemma_layout_balance(src, toks, m);
        let st = layout_after(src, toks, m);
        let tok = toks[n - 1];
        let (tv, span) = tok;
        assert(toks.take(n as int) =~= toks.take(m as int).push(tok));
        lemma_plain_push(toks.take(m as int), tok);
        let fl = flush(st.out, st.pending);
        if let Some(x) = st.pending {
            lemma_plain_push(st.out, x);
            assert(plain_tokens(fl) =~= plain_tokens(st.out));
        }
        assert(plain_tokens(fl) == plain_tokens(st.out));
        if tv == TokenView::Fixed(Token::Newline) {
            assert(plain_tokens(toks.take(n as int)) =~= plain_tokens(toks.take(m as int)));
        } else if tv == TokenView::Fixed(Token::Eof) {
            lemma_plain_dedents(fl, span, (st.stack.len() - 1) as nat);
            lemma_plain_push(fl + dedents(span, (st.stack.len() - 1) as nat), tok);
        } else if st.at_line_start {
            let cur = indent_width(src, st.line_start as int, span.start as int);
            let top = st.stack.last();
            if cur > top {
                let ind = (TokenView::Fixed(Token::Indent), span);
                lemma_plain_push(fl, ind);
                lemma_plain_push(fl.push(ind), tok);
                assert(plain_tokens(fl.push(ind)) =~= plain_tokens(fl));
            } else if cur < top {
                let kept = pop_deeper(st.stack, cur);
                lemma_plain_dedents(fl, span, (st.stack.len() - kept.len()) as nat);
                lemma_plain_push(fl + dedents(span, (st.stack.len() - kept.len()) as nat), tok);
            } else {
                lemma_plain_push(fl, tok);
            }
        } else {
            lemma_plain_push(fl, tok);
        }
    }
}

/// Layout keeps every other token, in order: with the INDENT, DEDENT and
/// newline tokens taken out, its output is its input with the newline
/// tokens taken out.
pub proof fn law_layout_keeps_tokens(src: Seq<char>, toks: Seq<(TokenView, Span)>)
    requires
        forall|k: int| 0 <= k < toks.len() ==> !is_layout_token(#[trigger] toks[k].0),
    ensures
        plain_tokens(spec_layout(src, toks)) == plain_tokens(toks),
{
    lemma_layout_keeps_tokens(src, toks, toks.len());
    assert(toks.take(toks.len() as int) =~= toks);
}

proof fn lemma_step_not_layout(s: Seq<char>, i: int)
    ensures
        step(s, i) matches Step::Token(t, _) ==> !is_layout_token(t),
{
}

proof fn lemma_lex_from_not_layout(s: Seq<char>, i: int)
    requires
        0 <= i,
    ensures
        lex_from(s, i) matches Ok(ts) ==> forall|k: int|
            0 <= k < ts.len() ==> !is_layout_token(#[trigger] ts[k].0),
    decreases s.len() - i,
{
    if i < s.len() {
        lemma_step_advances(s, i);
        lemma_step_not_layout(s, i);
        match step(s, i) {
            Step::Token(t, j) => {
                lemma_lex_from_not_layout(s, j);
                if let Ok(rest) = lex_from(s, j) {
                    let ts = seq![(t, Span { start: i as usize, end: j as usize })] + rest;
                    assert forall|k: int| 0 <= k < ts.len() implies !is_layout_token(
                        #[trigger] ts[k].0,
                    ) by {
                        if k > 0 {
                            assert(ts[k] == rest[k - 1]);
                        }
                    }
                }
            },
            Step::Skip(j) => {
                lemma_lex_from_not_layout(s, j);
            },
            Step::Fail => {},
        }
    }
}

/// The tokens of a lexed text end with the end-of-file token and hold no
/// layout token.
pub proof fn lemma_lexed_tokens(src: Seq<char>)
    requires
        spec_lex(src) is Ok,
    ensures
        spec_lex(src)->Ok_0.len() > 0,
        spec_lex(src)->Ok_0.last().0 == TokenView::Fixed(Token::Eof),
        forall|k: int|
            0 <= k < spec_lex(src)->Ok_0.len() ==> !is_layout_token(#[trigger] spec_lex(src)->Ok_0[k].0),
{
    lemma_lex_from_not_layout(src, 0);
    let ts = lex_from(src, 0)->Ok_0;
    let toks = spec_lex(src)->Ok_0;
    assert forall|k: int| 0 <= k < toks.len() implies !is_layout_token(#[trigger] toks[k].0) by {
        if k < ts.len() {
            assert(toks[k] == ts[k]);
        }
    }
}

/// Layout of a lexed text: with the raw tokens of `src`, the output keeps
/// the end-of-file token last, holds as many DEDENT tokens as INDENT
/// tokens, has no prefix with more DEDENTs than INDENTs, and with the
/// INDENT, DEDENT and newline tokens taken out is the raw tokens with their
/// newline tokens taken out.
pub proof fn law_lexed_layout(src: Seq<char>)
    requires
        spec_lex(src) is Ok,
    ensures
        spec_layout(src, spec_lex(src)->Ok_0).len() > 0,
        spec_layout(src, spec_lex(src)->Ok_0).last() == spec_lex(src)->Ok_0.last(),
        count_of(spec_layout(src, spec_lex(src)->Ok_0), Token::Indent) == count_of(
            spec_layout(src, spec_lex(src)->Ok_0),
            Token::Dedent,
        ),
        prefixes_balanced(spec_layout(src, spec_lex(src)->Ok_0)),
        plain_tokens(spec_layout(src, spec_lex(src)->Ok_0)) == plain_tokens(spec_lex(src)->Ok_0),
{
    lemma_lexed_tokens(src);
    let toks = spec_lex(src)->Ok_0;
    law_layout_balanced(src, toks);
    law_layout_prefixes_balanced(src, toks);
    law_layout_keeps_tokens(src, toks);
}

/// Every block that the layout of a lexed text opens is closed: the tokens
/// of `lex_with_indent` hold as many DEDENT tokens as INDENT tokens.
pub proof fn law_lex_with_indent_balanced(src: Seq<char>)
    requires
        spec_lex_with_indent(src) is Ok,
    ensures
        count_of(spec_lex_with_indent(src)->Ok_0, Token::Indent) == count_of(
            spec_lex_with_indent(src)->Ok_0,
            Token::Dedent,
        ),
{
    law_lexed_layout(src);
}

} // verus!
