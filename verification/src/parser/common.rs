//! The parser's own errors, and their conversion into parse errors.

use vstd::prelude::*;
use crate::lexer::token::Span;
use crate::parser::error::{ParseError, expected_found_message};

verus! {

broadcast use vstd::string::group_string_axioms;

/// A failure of the parser at a span of tokens: what was expected there,
/// if the failure knows it, and what was found.
#[derive(Debug, PartialEq)]
pub struct SyntaxError {
    /// The token positions of the failure.
    pub span: Span,
    /// What was expected there; empty when the failure does not say.
    pub expected: Vec<String>,
    /// What was found there, written out, if anything.
    pub found: Option<String>,
}

/// Whether `p` is the parse error that reports the failure `e`: with
/// nothing expected it is "unexpected token" at the failure's span;
/// otherwise it says what was expected and found there.
pub open spec fn reports(e: SyntaxError, p: ParseError) -> bool {
    &&& p.span == e.span
    &&& if e.expected@.len() == 0 {
        p.message@ == "unexpected token"@ && p.expected@.len() == 0 && p.found is None
    } else {
        p.message@ == expected_found_message(e.expected@, e.found) && p.expected == e.expected && p.found
            == e.found
    }
}

/// The parse error that reports a failure of the parser.
pub fn to_parse_error(e: SyntaxError) -> (r: ParseError)
    ensures
        reports(e, r),
{
    if e.expected.len() == 0 {
        ParseError::new("unexpected token", e.span)
    } else {
        ParseError::expected_found(e.expected, e.found, e.span)
    }
}

/// A result of the parser with each of its failures reported as a parse
/// error, in order; a success stays as it is.
pub fn convert_result<T>(result: Result<T, Vec<SyntaxError>>) -> (r: Result<T, Vec<ParseError>>)
    ensures
        result matches Ok(v) ==> r == Ok::<T, Vec<ParseError>>(v),
        result matches Err(es) ==> (r matches Err(ps) && ps@.len() == es@.len() && forall|i: int|
            0 <= i < es@.len() ==> reports(#[trigger] es@[i], ps@[i])),
{
    match result {
        Ok(v) => Ok(v),
        Err(es) => {
            let ghost failures = es@;
            let mut rest = es;
            let mut ps: Vec<ParseError> = Vec::new();
            while rest.len() > 0
                invariant
                    ps@.len() + rest@.len() == failures.len(),
                    rest@ == failures.skip(ps@.len() as int),
                    forall|i: int| 0 <= i < ps@.len() ==> reports(#[trigger] failures[i], ps@[i]),
                decreases rest@.len(),
            {
                let ghost k = ps@.len() as int;
                let e = rest.remove(0);
                assert(e == failures[k]);
                ps.push(to_parse_error(e));
                assert(rest@ =~= failures.skip(ps@.len() as int));
            }
            Err(ps)
        },
    }
}

} // verus!
