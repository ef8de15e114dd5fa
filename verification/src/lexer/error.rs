//! Errors reported by the lexer.

use vstd::prelude::*;
use crate::lexer::token::{Span, span_display};
use crate::text::{push_str, string_from_chars};

verus! {

/// The ways lexing can fail.
#[derive(Debug, Clone, PartialEq)]
pub enum LexerError {
    /// Unterminated string literal.
    UnterminatedString { span: Span },
    /// Character that starts no token.
    InvalidCharacter { ch: char, span: Span },
    /// Malformed number.
    InvalidNumber { value: String, span: Span },
    /// Tabs and spaces mixed in one indentation.
    MixedIndentation { span: Span },
    /// Dedent to a level that no enclosing block has.
    UnmatchedDedent { span: Span },
    /// Unknown escape sequence inside a string.
    UnknownEscapeSequence { seq: String, span: Span },
    /// Malformed bytes literal.
    InvalidBytes { span: Span },
    /// The source could not be split into tokens at `span`.
    ParseError { message: String, span: Span },
}

impl LexerError {
    /// The span of source text that the error concerns.
    pub open spec fn spec_span(&self) -> Span {
        match self {
            LexerError::UnterminatedString { span } => *span,
            LexerError::InvalidCharacter { span, .. } => *span,
            LexerError::InvalidNumber { span, .. } => *span,
            LexerError::MixedIndentation { span } => *span,
            LexerError::UnmatchedDedent { span } => *span,
            LexerError::UnknownEscapeSequence { span, .. } => *span,
            LexerError::InvalidBytes { span } => *span,
            LexerError::ParseError { span, .. } => *span,
        }
    }

    /// The span of source text that the error concerns.
    pub fn span(&self) -> (r: &Span)
        ensures
            *r == self.spec_span(),
    {
        match self {
            LexerError::UnterminatedString { span } => span,
            LexerError::InvalidCharacter { span, .. } => span,
            LexerError::InvalidNumber { span, .. } => span,
            LexerError::MixedIndentation { span } => span,
            LexerError::UnmatchedDedent { span } => span,
            LexerError::UnknownEscapeSequence { span, .. } => span,
            LexerError::InvalidBytes { span } => span,
            LexerError::ParseError { span, .. } => span,
        }
    }
}

/// The message of an error.
pub open spec fn lexer_error_display(e: LexerError) -> Seq<char> {
    match e {
        LexerError::UnterminatedString { span } => "Unterminated string literal at "@ + span_display(span),
        LexerError::InvalidCharacter { ch, span } => "Invalid character '"@ + seq![ch] + "' at "@
            + span_display(span),
        LexerError::InvalidNumber { value, span } => "Invalid number format '"@ + value@ + "' at "@
            + span_display(span),
        LexerError::MixedIndentation { span } => "Mixed tabs and spaces in indentation at "@
            + span_display(span),
        LexerError::UnmatchedDedent { span } => "Unmatched dedent at "@ + span_display(span),
        LexerError::UnknownEscapeSequence { seq, span } => "Unknown escape sequence '"@ + seq@
            + "' at "@ + span_display(span),
        LexerError::InvalidBytes { span } => "Invalid bytes literal at "@ + span_display(span),
        LexerError::ParseError { message, span } => "Parse error at "@ + span_display(span) + ": "@
            + message@,
    }
}

impl LexerError {
    /// The message of the error.
    pub fn to_string(&self) -> (r: String)
        ensures
            r@ == lexer_error_display(*self),
    {
        let mut out: Vec<char> = Vec::new();
        match self {
            LexerError::UnterminatedString { span } => {
                push_str(&mut out, "Unterminated string literal at ");
                span.push_display(&mut out);
            },
            LexerError::InvalidCharacter { ch, span } => {
                push_str(&mut out, "Invalid character '");
                out.push(*ch);
                push_str(&mut out, "' at ");
                span.push_display(&mut out);
            },
            LexerError::InvalidNumber { value, span } => {
                push_str(&mut out, "Invalid number format '");
                push_str(&mut out, value.as_str());
                push_str(&mut out, "' at ");
                span.push_display(&mut out);
            },
            LexerError::MixedIndentation { span } => {
                push_str(&mut out, "Mixed tabs and spaces in indentation at ");
                span.push_display(&mut out);
            },
            LexerError::UnmatchedDedent { span } => {
                push_str(&mut out, "Unmatched dedent at ");
                span.push_display(&mut out);
            },
            LexerError::UnknownEscapeSequence { seq, span } => {
                push_str(&mut out, "Unknown escape sequence '");
                push_str(&mut out, seq.as_str());
                push_str(&mut out, "' at ");
                span.push_display(&mut out);
            },
            LexerError::InvalidBytes { span } => {
                push_str(&mut out, "Invalid bytes literal at ");
                span.push_display(&mut out);
            },
            LexerError::ParseError { message, span } => {
                push_str(&mut out, "Parse error at ");
                span.push_display(&mut out);
                push_str(&mut out, ": ");
                push_str(&mut out, message.as_str());
            },
        }
        assert(out@ =~= lexer_error_display(*self));
        string_from_chars(&out)
    }
}

} // verus!
