//! Tokenization of Kata source text, with significant indentation.

pub mod token;
pub mod error;
pub mod lexer;
pub mod indent;

pub use token::{Token, Span, SpannedToken};
pub use error::LexerError;
pub use lexer::KataLexer;
