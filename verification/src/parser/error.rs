//! Parse errors with their source locations.

use vstd::prelude::*;
use crate::lexer::token::{Span, span_display};
use crate::text::{push_str, string_from_chars};

verus! {

broadcast use vstd::string::group_string_axioms;

/// A parse error.
#[derive(Debug, Clone, PartialEq)]
pub struct ParseError {
    /// Message.
    pub message: String,
    /// Location in the source.
    pub span: Span,
    /// What the parser expected there.
    pub expected: Vec<String>,
    /// What it found there, if anything.
    pub found: Option<String>,
}

/// The results of the parser's operations.
pub type ParseResult<T> = Result<T, Vec<ParseError>>;

/// The strings joined by `, `.
pub open spec fn comma_joined(ss: Seq<String>) -> Seq<char>
    decreases ss.len(),
{
    if ss.len() == 0 {
        Seq::empty()
    } else if ss.len() == 1 {
        ss[0]@
    } else {
        comma_joined(ss.drop_last()) + ", "@ + ss.last()@
    }
}

/// How a list of expected items is written: `something` when empty, `a`,
/// `a or b`, `a, b, or c`.
pub open spec fn expected_display(exp: Seq<String>) -> Seq<char> {
    if exp.len() == 0 {
        "something"@
    } else if exp.len() == 1 {
        exp[0]@
    } else if exp.len() == 2 {
        exp[0]@ + " or "@ + exp[1]@
    } else {
        comma_joined(exp.drop_last()) + ", or "@ + exp.last()@
    }
}

/// The message of an error built from what was expected and what was found.
pub open spec fn expected_found_message(exp: Seq<String>, found: Option<String>) -> Seq<char> {
    match found {
        Some(f) => if exp.len() > 0 {
            "Expected "@ + expected_display(exp) + ", found '"@ + f@ + "'"@
        } else {
            "Unexpected '"@ + f@ + "'"@
        },
        None => if exp.len() > 0 {
            "Expected "@ + expected_display(exp) + ", found end of file"@
        } else {
            "Unexpected end of file"@
        },
    }
}

/// How an error is written: `Error at start..end: message`.
pub open spec fn parse_error_display(e: ParseError) -> Seq<char> {
    "Error at "@ + span_display(e.span) + ": "@ + e.message@
}

fn push_comma_joined(out: &mut Vec<char>, v: &Vec<String>, n: usize)
    requires
        n <= v.len(),
    ensures
        final(out)@ == old(out)@ + comma_joined(v@.take(n as int)),
{
    let ghost start = out@;
    let mut i: usize = 0;
    assert(v@.take(0) =~= Seq::<String>::empty());
    while i < n
        invariant
            i <= n <= v.len(),
            out@ == start + comma_joined(v@.take(i as int)),
        decreases n - i,
    {
        assert(v@.take(i + 1).drop_last() =~= v@.take(i as int));
        if i > 0 {
            push_str(out, ", ");
        }
        push_str(out, v[i].as_str());
        assert(out@ =~= start + comma_joined(v@.take(i + 1)));
        i = i + 1;
    }
}

/// The list of expected items as written.
fn format_expected(expected: &Vec<String>) -> (r: String)
    ensures
        r@ == expected_display(expected@),
{
    let n = expected.len();
    if n == 0 {
        String::from_str("something")
    } else if n == 1 {
        expected[0].clone()
    } else {
        let mut out: Vec<char> = Vec::new();
        if n == 2 {
            push_str(&mut out, expected[0].as_str());
            push_str(&mut out, " or ");
            push_str(&mut out, expected[1].as_str());
        } else {
            push_comma_joined(&mut out, expected, n - 1);
            push_str(&mut out, ", or ");
            push_str(&mut out, expected[n - 1].as_str());
            assert(expected@.take(n - 1) =~= expected@.drop_last());
        }
        assert(out@ =~= expected_display(expected@));
        string_from_chars(&out)
    }
}

impl ParseError {
    /// The error `message` at `span`, with nothing expected or found.
    pub fn new(message: &str, span: Span) -> (r: ParseError)
        ensures
            r.message@ == message@,
            r.span == span,
            r.expected@.len() == 0,
            r.found is None,
    {
        ParseError { message: String::from_str(message), span, expected: Vec::new(), found: None }
    }

    /// The error of finding `found` (or the end of the input) where one of
    /// `expected` was due.
    pub fn expected_found(expected: Vec<String>, found: Option<String>, span: Span) -> (r: ParseError)
        ensures
            r.message@ == expected_found_message(expected@, found),
            r.span == span,
            r.expected == expected,
            r.found == found,
    {
        let mut out: Vec<char> = Vec::new();
        match &found {
            Some(f) => {
                if expected.len() > 0 {
                    push_str(&mut out, "Expected ");
                    let e = format_expected(&expected);
                    push_str(&mut out, e.as_str());
                    push_str(&mut out, ", found '");
                    push_str(&mut out, f.as_str());
                    push_str(&mut out, "'");
                } else {
                    push_str(&mut out, "Unexpected '");
                    push_str(&mut out, f.as_str());
                    push_str(&mut out, "'");
                }
            },
            None => {
                if expected.len() > 0 {
                    push_str(&mut out, "Expected ");
                    let e = format_expected(&expected);
                    push_str(&mut out, e.as_str());
                    push_str(&mut out, ", found end of file");
                } else {
                    push_str(&mut out, "Unexpected end of file");
                }
            },
        }
        assert(out@ =~= expected_found_message(expected@, found));
        let message = string_from_chars(&out);
        ParseError { message, span, expected, found }
    }

    /// This error with its expected items replaced by `expected`.
    pub fn with_expected(self, expected: Vec<String>) -> (r: ParseError)
        ensures
            r == (ParseError { expected, ..self }),
    {
        ParseError { expected, ..self }
    }

    /// This error with `found` as what was found.
    pub fn with_found(self, found: String) -> (r: ParseError)
        ensures
            r == (ParseError { found: Some(found), ..self }),
    {
        ParseError { found: Some(found), ..self }
    }

    /// The error as written: `Error at start..end: message`.
    pub fn to_string(&self) -> (r: String)
        ensures
            r@ == parse_error_display(*self),
    {
        let mut out: Vec<char> = Vec::new();
        push_str(&mut out, "Error at ");
        self.span.push_display(&mut out);
        push_str(&mut out, ": ");
        push_str(&mut out, self.message.as_str());
        assert(out@ =~= parse_error_display(*self));
        string_from_chars(&out)
    }
}

/// Collects parse errors in the order they are added.
#[derive(Debug, Clone)]
pub struct ErrorCollector {
    errors: Vec<ParseError>,
}

impl View for ErrorCollector {
    type V = Seq<ParseError>;

    closed spec fn view(&self) -> Seq<ParseError> {
        self.errors@
    }
}

impl ErrorCollector {
    /// A collector with no errors.
    pub fn new() -> (r: ErrorCollector)
        ensures
            r@ == Seq::<ParseError>::empty(),
    {
        ErrorCollector { errors: Vec::new() }
    }

    /// Adds `error` after the errors collected so far.
    pub fn add(&mut self, error: ParseError)
        ensures
            final(self)@ == old(self)@.push(error),
    {
        self.errors.push(error);
    }

    /// Whether any error was collected.
    pub fn has_errors(&self) -> (r: bool)
        ensures
            r == (self@.len() > 0),
    {
        self.errors.len() > 0
    }

    /// The collected errors, in order.
    pub fn into_errors(self) -> (r: Vec<ParseError>)
        ensures
            r@ == self@,
    {
        self.errors
    }

    /// The collected errors, in order.
    pub fn errors(&self) -> (r: &[ParseError])
        ensures
            r@ == self@,
    {
        self.errors.as_slice()
    }
}

impl Default for ErrorCollector {
    fn default() -> (r: ErrorCollector)
        ensures
            r@ == Seq::<ParseError>::empty(),
    {
        ErrorCollector::new()
    }
}

} // verus!
