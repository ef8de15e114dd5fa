//! Tokens produced by the lexer and consumed by the parser.
//!
//! Operators such as `+`, `-`, `*` are not tokens of their own: they are
//! identifiers, defined through interfaces in the standard library.

use vstd::prelude::*;
use crate::text::{decimal, push_decimal, push_str, string_from_chars, str_debug, debug_str};

verus! {

/// All tokens of the Kata language.
#[derive(Debug, Clone, PartialEq, Eq, Hash)]
pub enum Token {
    /// Identifier, including operator names such as `+` and action names such as `echo!`.
    Ident(String),
    /// Integer literal text: decimal, `0x`, `0o` or `0b`, possibly negative.
    Int(String),
    /// Float literal text: `3.14`, `nan`, `inf`, `-inf`.
    Float(String),
    /// String literal contents, escapes resolved, without quotes.
    String(String),
    /// Bytes literal contents, without the `b` prefix and the quotes.
    Bytes(String),
    /// Hole for partial application: `_`.
    Hole,
    Lambda,
    Action,
    Data,
    Enum,
    Interface,
    Implements,
    Alias,
    Import,
    Export,
    Let,
    Var,
    Match,
    For,
    In,
    Loop,
    Break,
    Continue,
    Case,
    Select,
    Timeout,
    With,
    Otherwise,
    As,
    Unit,
    Except,
    Channel,
    Queue,
    Broadcast,
    At,
    Indent,
    Dedent,
    Newline,
    Semicolon,
    Colon,
    DoubleColon,
    SimpleArrow,
    Arrow,
    LParen,
    RParen,
    LBracket,
    RBracket,
    LBrace,
    RBrace,
    Comma,
    Dot,
    DotDot,
    DotDotEqual,
    DotDotDot,
    Pipe,
    Pipeline,
    Send,
    Receive,
    ReceiveNonBlocking,
    AtSymbol,
    Backslash,
    Question,
    Dollar,
    Eof,
}

/// The mathematical content of a token: its text for the five tokens that
/// carry one, the token itself for the others.
pub enum TokenView {
    Ident(Seq<char>),
    Int(Seq<char>),
    Float(Seq<char>),
    Str(Seq<char>),
    Bytes(Seq<char>),
    Fixed(Token),
}

impl View for Token {
    type V = TokenView;

    open spec fn view(&self) -> TokenView {
        match self {
            Token::Ident(s) => TokenView::Ident(s@),
            Token::Int(s) => TokenView::Int(s@),
            Token::Float(s) => TokenView::Float(s@),
            Token::String(s) => TokenView::Str(s@),
            Token::Bytes(s) => TokenView::Bytes(s@),
            _ => TokenView::Fixed(*self),
        }
    }
}

/// A region of source text, counted in characters: `start..end`.
#[derive(Debug, Clone, Copy, PartialEq, Eq, Hash)]
pub struct Span {
    pub start: usize,
    pub end: usize,
}

impl Span {
    /// Builds the span `start..end`.
    pub fn new(start: usize, end: usize) -> (s: Span)
        ensures
            s.start == start,
            s.end == end,
    {
        Span { start, end }
    }
}

/// A token together with the span of source text it was read from.
#[derive(Debug, Clone, PartialEq, Eq, Hash)]
pub struct SpannedToken {
    pub token: Token,
    pub span: Span,
}

impl View for SpannedToken {
    type V = (TokenView, Span);

    open spec fn view(&self) -> (TokenView, Span) {
        (self.token@, self.span)
    }
}

/// The views of a sequence of spanned tokens.
pub open spec fn tokens_view(ts: Seq<SpannedToken>) -> Seq<(TokenView, Span)> {
    ts.map_values(|t: SpannedToken| t@)
}

/// A copy of `t` with the same content.
pub fn copy_token(t: &Token) -> (r: Token)
    ensures
        r@ == t@,
{
    match t {
        Token::Ident(s) => Token::Ident(s.clone()),
        Token::Int(s) => Token::Int(s.clone()),
        Token::Float(s) => Token::Float(s.clone()),
        Token::String(s) => Token::String(s.clone()),
        Token::Bytes(s) => Token::Bytes(s.clone()),
        Token::Hole => Token::Hole,
        Token::Lambda => Token::Lambda,
        Token::Action => Token::Action,
        Token::Data => Token::Data,
        Token::Enum => Token::Enum,
        Token::Interface => Token::Interface,
        Token::Implements => Token::Implements,
        Token::Alias => Token::Alias,
        Token::Import => Token::Import,
        Token::Export => Token::Export,
        Token::Let => Token::Let,
        Token::Var => Token::Var,
        Token::Match => Token::Match,
        Token::For => Token::For,
        Token::In => Token::In,
        Token::Loop => Token::Loop,
        Token::Break => Token::Break,
        Token::Continue => Token::Continue,
        Token::Case => Token::Case,
        Token::Select => Token::Select,
        Token::Timeout => Token::Timeout,
        Token::With => Token::With,
        Token::Otherwise => Token::Otherwise,
        Token::As => Token::As,
        Token::Unit => Token::Unit,
        Token::Except => Token::Except,
        Token::Channel => Token::Channel,
        Token::Queue => Token::Queue,
        Token::Broadcast => Token::Broadcast,
        Token::At => Token::At,
        Token::Indent => Token::Indent,
        Token::Dedent => Token::Dedent,
        Token::Newline => Token::Newline,
        Token::Semicolon => Token::Semicolon,
        Token::Colon => Token::Colon,
        Token::DoubleColon => Token::DoubleColon,
        Token::SimpleArrow => Token::SimpleArrow,
        Token::Arrow => Token::Arrow,
        Token::LParen => Token::LParen,
        Token::RParen => Token::RParen,
        Token::LBracket => Token::LBracket,
        Token::RBracket => Token::RBracket,
        Token::LBrace => Token::LBrace,
        Token::RBrace => Token::RBrace,
        Token::Comma => Token::Comma,
        Token::Dot => Token::Dot,
        Token::DotDot => Token::DotDot,
        Token::DotDotEqual => Token::DotDotEqual,
        Token::DotDotDot => Token::DotDotDot,
        Token::Pipe => Token::Pipe,
        Token::Pipeline => Token::Pipeline,
        Token::Send => Token::Send,
        Token::Receive => Token::Receive,
        Token::ReceiveNonBlocking => Token::ReceiveNonBlocking,
        Token::AtSymbol => Token::AtSymbol,
        Token::Backslash => Token::Backslash,
        Token::Question => Token::Question,
        Token::Dollar => Token::Dollar,
        Token::Eof => Token::Eof,
    }
}

/// A copy of `t` with the same content.
pub fn copy_spanned_token(t: &SpannedToken) -> (r: SpannedToken)
    ensures
        r@ == t@,
{
    SpannedToken { token: copy_token(&t.token), span: t.span }
}

/// How a span is written: `start..end`.
pub open spec fn span_display(s: Span) -> Seq<char> {
    decimal(s.start as nat) + ".."@ + decimal(s.end as nat)
}

impl Span {
    /// `out` followed by the span as written.
    pub fn push_display(&self, out: &mut Vec<char>)
        ensures
            final(out)@ == old(out)@ + span_display(*self),
    {
        push_decimal(out, self.start as u64);
        push_str(out, "..");
        push_decimal(out, self.end as u64);
        assert(out@ =~= old(out)@ + span_display(*self));
    }

    /// The span as written: `start..end`.
    pub fn to_string(&self) -> (r: String)
        ensures
            r@ == span_display(*self),
    {
        let mut out: Vec<char> = Vec::new();
        self.push_display(&mut out);
        assert(out@ =~= span_display(*self));
        string_from_chars(&out)
    }
}

/// How a token is written in diagnostics.
pub open spec fn token_display(t: Token) -> Seq<char> {
    match t {
        Token::Ident(s) => "Ident("@ + s@ + ")"@,
        Token::Int(s) => "Int("@ + s@ + ")"@,
        Token::Float(s) => "Float("@ + s@ + ")"@,
        Token::String(s) => "String("@ + str_debug(s@) + ")"@,
        Token::Bytes(s) => "Bytes("@ + str_debug(s@) + ")"@,
        Token::Hole => "_"@,
        Token::Lambda => "lambda"@,
        Token::Action => "action"@,
        Token::Data => "data"@,
        Token::Enum => "enum"@,
        Token::Interface => "interface"@,
        Token::Implements => "implements"@,
        Token::Alias => "alias"@,
        Token::Import => "import"@,
        Token::Export => "export"@,
        Token::Let => "let"@,
        Token::Var => "var"@,
        Token::Match => "match"@,
        Token::For => "for"@,
        Token::In => "in"@,
        Token::Loop => "loop"@,
        Token::Break => "break"@,
        Token::Continue => "continue"@,
        Token::Case => "case"@,
        Token::Select => "select!"@,
        Token::Timeout => "timeout!"@,
        Token::With => "with"@,
        Token::Otherwise => "otherwise"@,
        Token::As => "as"@,
        Token::Unit => "Unit"@,
        Token::Except => "except"@,
        Token::Channel => "channel!"@,
        Token::Queue => "queue!"@,
        Token::Broadcast => "broadcast!"@,
        Token::At => "at"@,
        Token::Indent => "INDENT"@,
        Token::Dedent => "DEDENT"@,
        Token::Newline => "\\n"@,
        Token::Semicolon => ";"@,
        Token::Colon => ":"@,
        Token::DoubleColon => "::"@,
        Token::SimpleArrow => "->"@,
        Token::Arrow => "=>"@,
        Token::LParen => "("@,
        Token::RParen => ")"@,
        Token::LBracket => "["@,
        Token::RBracket => "]"@,
        Token::LBrace => "{"@,
        Token::RBrace => "}"@,
        Token::Comma => ","@,
        Token::Dot => "."@,
        Token::DotDot => ".."@,
        Token::DotDotEqual => "..="@,
        Token::DotDotDot => "..."@,
        Token::Pipe => "|"@,
        Token::Pipeline => "|>"@,
        Token::Send => "!>"@,
        Token::Receive => "<!"@,
        Token::ReceiveNonBlocking => "<!?"@,
        Token::AtSymbol => "@"@,
        Token::Backslash => "\\"@,
        Token::Question => "?"@,
        Token::Dollar => "$"@,
        Token::Eof => "EOF"@,
    }
}

impl Token {
    /// The token as written in diagnostics.
    pub fn to_string(&self) -> (r: String)
        ensures
            r@ == token_display(*self),
    {
        let mut out: Vec<char> = Vec::new();
        match self {
            Token::Ident(s) => {
                push_str(&mut out, "Ident(");
                push_str(&mut out, s.as_str());
                push_str(&mut out, ")");
            },
            Token::Int(s) => {
                push_str(&mut out, "Int(");
                push_str(&mut out, s.as_str());
                push_str(&mut out, ")");
            },
            Token::Float(s) => {
                push_str(&mut out, "Float(");
                push_str(&mut out, s.as_str());
                push_str(&mut out, ")");
            },
            Token::String(s) => {
                push_str(&mut out, "String(");
                let d = debug_str(s.as_str());
                push_str(&mut out, d.as_str());
                push_str(&mut out, ")");
            },
            Token::Bytes(s) => {
                push_str(&mut out, "Bytes(");
                let d = debug_str(s.as_str());
                push_str(&mut out, d.as_str());
                push_str(&mut out, ")");
            },
            Token::Hole => push_str(&mut out, "_"),
            Token::Lambda => push_str(&mut out, "lambda"),
            Token::Action => push_str(&mut out, "action"),
            Token::Data => push_str(&mut out, "data"),
            Token::Enum => push_str(&mut out, "enum"),
            Token::Interface => push_str(&mut out, "interface"),
            Token::Implements => push_str(&mut out, "implements"),
            Token::Alias => push_str(&mut out, "alias"),
            Token::Import => push_str(&mut out, "import"),
            Token::Export => push_str(&mut out, "export"),
            Token::Let => push_str(&mut out, "let"),
            Token::Var => push_str(&mut out, "var"),
            Token::Match => push_str(&mut out, "match"),
            Token::For => push_str(&mut out, "for"),
            Token::In => push_str(&mut out, "in"),
            Token::Loop => push_str(&mut out, "loop"),
            Token::Break => push_str(&mut out, "break"),
            Token::Continue => push_str(&mut out, "continue"),
            Token::Case => push_str(&mut out, "case"),
            Token::Select => push_str(&mut out, "select!"),
            Token::Timeout => push_str(&mut out, "timeout!"),
            Token::With => push_str(&mut out, "with"),
            Token::Otherwise => push_str(&mut out, "otherwise"),
            Token::As => push_str(&mut out, "as"),
            Token::Unit => push_str(&mut out, "Unit"),
            Token::Except => push_str(&mut out, "except"),
            Token::Channel => push_str(&mut out, "channel!"),
            Token::Queue => push_str(&mut out, "queue!"),
            Token::Broadcast => push_str(&mut out, "broadcast!"),
            Token::At => push_str(&mut out, "at"),
            Token::Indent => push_str(&mut out, "INDENT"),
            Token::Dedent => push_str(&mut out, "DEDENT"),
            Token::Newline => push_str(&mut out, "\\n"),
            Token::Semicolon => push_str(&mut out, ";"),
            Token::Colon => push_str(&mut out, ":"),
            Token::DoubleColon => push_str(&mut out, "::"),
            Token::SimpleArrow => push_str(&mut out, "->"),
            Token::Arrow => push_str(&mut out, "=>"),
            Token::LParen => push_str(&mut out, "("),
            Token::RParen => push_str(&mut out, ")"),
            Token::LBracket => push_str(&mut out, "["),
            Token::RBracket => push_str(&mut out, "]"),
            Token::LBrace => push_str(&mut out, "{"),
            Token::RBrace => push_str(&mut out, "}"),
            Token::Comma => push_str(&mut out, ","),
            Token::Dot => push_str(&mut out, "."),
            Token::DotDot => push_str(&mut out, ".."),
            Token::DotDotEqual => push_str(&mut out, "..="),
            Token::DotDotDot => push_str(&mut out, "..."),
            Token::Pipe => push_str(&mut out, "|"),
            Token::Pipeline => push_str(&mut out, "|>"),
            Token::Send => push_str(&mut out, "!>"),
            Token::Receive => push_str(&mut out, "<!"),
            Token::ReceiveNonBlocking => push_str(&mut out, "<!?"),
            Token::AtSymbol => push_str(&mut out, "@"),
            Token::Backslash => push_str(&mut out, "\\"),
            Token::Question => push_str(&mut out, "?"),
            Token::Dollar => push_str(&mut out, "$"),
            Token::Eof => push_str(&mut out, "EOF"),
        }
        assert(out@ =~= token_display(*self));
        string_from_chars(&out)
    }
}

} // verus!
