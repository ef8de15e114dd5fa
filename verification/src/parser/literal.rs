//! Literal values: unit `()`, `True` and `False`, numbers, text and bytes.

use vstd::prelude::*;
use crate::lexer::token::{Token, SpannedToken};
use crate::ast::id::{Literal, LiteralView};
use crate::parser::cursor::ident_is;

verus! {

broadcast use vstd::string::group_string_axioms;

/// The literal that starts at `p`, and the position after it: `(` `)` is
/// the unit, the names `True` and `False` the booleans, and a number,
/// text or bytes token its own value.
pub open spec fn literal_at(t: Seq<SpannedToken>, p: int) -> Option<(LiteralView, int)> {
    if 0 <= p < t.len() {
        match t[p].token {
            Token::LParen => if p + 1 < t.len() && t[p + 1].token is RParen {
                Some((LiteralView::Unit, p + 2))
            } else {
                None
            },
            Token::Ident(s) => if s@ == "True"@ {
                Some((LiteralView::Bool(true), p + 1))
            } else if s@ == "False"@ {
                Some((LiteralView::Bool(false), p + 1))
            } else {
                None
            },
            Token::Float(s) => Some((LiteralView::Float(s@), p + 1)),
            Token::Int(s) => Some((LiteralView::Int(s@), p + 1)),
            Token::String(s) => Some((LiteralView::Str(s@), p + 1)),
            Token::Bytes(s) => Some((LiteralView::Bytes(s@), p + 1)),
            _ => None,
        }
    } else {
        None
    }
}

/// The number that starts at `p`, and the position after it.
pub open spec fn numeric_at(t: Seq<SpannedToken>, p: int) -> Option<(LiteralView, int)> {
    if 0 <= p < t.len() {
        match t[p].token {
            Token::Float(s) => Some((LiteralView::Float(s@), p + 1)),
            Token::Int(s) => Some((LiteralView::Int(s@), p + 1)),
            _ => None,
        }
    } else {
        None
    }
}

/// Whether an optional parse result is, by its view, the expected one.
pub open spec fn literal_result_is(r: Option<(Literal, usize)>, expected: Option<(LiteralView, int)>) -> bool {
    match r {
        Some((l, q)) => expected == Some((l@, q as int)),
        None => expected is None,
    }
}

/// Any literal value at `p`.
pub fn literal(t: &Vec<SpannedToken>, p: usize) -> (r: Option<(Literal, usize)>)
    ensures
        literal_result_is(r, literal_at(t@, p as int)),
{
    if p >= t.len() {
        return None;
    }
    match &t[p].token {
        Token::LParen => {
            if p + 1 < t.len() && matches!(t[p + 1].token, Token::RParen) {
                Some((Literal::Unit, p + 2))
            } else {
                None
            }
        },
        Token::Ident(_) => {
            if ident_is(t, p, "True") {
                Some((Literal::Bool(true), p + 1))
            } else if ident_is(t, p, "False") {
                Some((Literal::Bool(false), p + 1))
            } else {
                None
            }
        },
        Token::Float(s) => Some((Literal::Float(s.clone()), p + 1)),
        Token::Int(s) => Some((Literal::Int(s.clone()), p + 1)),
        Token::String(s) => Some((Literal::String(s.clone()), p + 1)),
        Token::Bytes(s) => Some((Literal::Bytes(s.clone()), p + 1)),
        _ => None,
    }
}

/// A number at `p`: a float or an integer.
pub fn numeric(t: &Vec<SpannedToken>, p: usize) -> (r: Option<(Literal, usize)>)
    ensures
        literal_result_is(r, numeric_at(t@, p as int)),
{
    if p >= t.len() {
        return None;
    }
    match &t[p].token {
        Token::Float(s) => Some((Literal::Float(s.clone()), p + 1)),
        Token::Int(s) => Some((Literal::Int(s.clone()), p + 1)),
        _ => None,
    }
}

} // verus!
