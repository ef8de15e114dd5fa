//! The Kata lexer.
//!
//! At each position the lexer tries, in this order: float literals (including
//! `-inf`, `nan`, `inf`), negative numbers, integers (hex `0x`, octal `0o`,
//! binary `0b`, decimal), strings (double or single quoted, with escapes),
//! bytes literals `b"..."`, punctuation, and identifiers (lowercase words with
//! an optional trailing `!`, capitalised type names, operator symbols, `λ`).
//! The first rule that applies wins. Comments (`#` to end of line) and blanks
//! (space, tab, carriage return) are skipped. Newlines are tokens.

use vstd::prelude::*;
use crate::lexer::token::{Token, TokenView, Span, SpannedToken, tokens_view};
use crate::lexer::error::LexerError;
use crate::text::{chars_of, string_from_chars};
use vstd::string::{StrSliceExecFns, StringExecFns};

verus! {

broadcast use vstd::string::group_string_axioms;

// ============================================================================
// CHARACTER CLASSES
// ============================================================================

pub open spec fn is_digit(c: char) -> bool {
    '0' <= c && c <= '9'
}

pub open spec fn is_hex_digit(c: char) -> bool {
    is_digit(c) || ('a' <= c && c <= 'f') || ('A' <= c && c <= 'F')
}

pub open spec fn is_lower(c: char) -> bool {
    'a' <= c && c <= 'z'
}

pub open spec fn is_upper(c: char) -> bool {
    'A' <= c && c <= 'Z'
}

/// Whether `c` can start an identifier: a lowercase ASCII letter or `_`.
pub open spec fn spec_is_ident_start(c: char) -> bool {
    is_lower(c) || c == '_'
}

/// Whether `c` can continue an identifier: an ASCII letter or digit, or `_`.
pub open spec fn spec_is_ident_char(c: char) -> bool {
    is_lower(c) || is_upper(c) || is_digit(c) || c == '_'
}

/// Whether `c` is one of the symbols operators are made of.
pub open spec fn spec_is_operator_char(c: char) -> bool {
    c == '+' || c == '-' || c == '*' || c == '/' || c == '\\' || c == '=' || c == '!' || c == '<'
        || c == '>' || c == '?' || c == '|' || c == '&' || c == '^' || c == '@' || c == '$'
        || c == '%'
}

/// Whether `c` can start an identifier.
pub fn is_ident_start(c: char) -> (r: bool)
    ensures
        r == spec_is_ident_start(c),
{
    ('a' <= c && c <= 'z') || c == '_'
}

/// Whether `c` can continue an identifier.
pub fn is_ident_char(c: char) -> (r: bool)
    ensures
        r == spec_is_ident_char(c),
{
    ('a' <= c && c <= 'z') || ('A' <= c && c <= 'Z') || ('0' <= c && c <= '9') || c == '_'
}

/// Whether `c` is one of the symbols operators are made of.
pub fn is_operator_char(c: char) -> (r: bool)
    ensures
        r == spec_is_operator_char(c),
{
    c == '+' || c == '-' || c == '*' || c == '/' || c == '\\' || c == '=' || c == '!' || c == '<'
        || c == '>' || c == '?' || c == '|' || c == '&' || c == '^' || c == '@' || c == '$'
        || c == '%'
}

/// The classes of characters that the lexer reads in runs.
#[derive(Clone, Copy)]
pub enum CharClass {
    DigitOrUnderscore,
    HexOrUnderscore,
    OctOrUnderscore,
    BinOrUnderscore,
    HexDigit,
    IdentChar,
    OperatorChar,
    NotNewline,
    Blank,
    BytesChar,
}

pub open spec fn in_class(c: char, k: CharClass) -> bool {
    match k {
        CharClass::DigitOrUnderscore => is_digit(c) || c == '_',
        CharClass::HexOrUnderscore => is_hex_digit(c) || c == '_',
        CharClass::OctOrUnderscore => ('0' <= c && c <= '7') || c == '_',
        CharClass::BinOrUnderscore => c == '0' || c == '1' || c == '_',
        CharClass::HexDigit => is_hex_digit(c),
        CharClass::IdentChar => spec_is_ident_char(c),
        CharClass::OperatorChar => spec_is_operator_char(c),
        CharClass::NotNewline => c != '\n',
        CharClass::Blank => c == ' ' || c == '\t' || c == '\r',
        CharClass::BytesChar => c != '\\' && c != '"',
    }
}

fn in_class_exec(c: char, k: CharClass) -> (r: bool)
    ensures
        r == in_class(c, k),
{
    match k {
        CharClass::DigitOrUnderscore => ('0' <= c && c <= '9') || c == '_',
        CharClass::HexOrUnderscore => ('0' <= c && c <= '9') || ('a' <= c && c <= 'f') || ('A' <= c
            && c <= 'F') || c == '_',
        CharClass::OctOrUnderscore => ('0' <= c && c <= '7') || c == '_',
        CharClass::BinOrUnderscore => c == '0' || c == '1' || c == '_',
        CharClass::HexDigit => ('0' <= c && c <= '9') || ('a' <= c && c <= 'f') || ('A' <= c && c
            <= 'F'),
        CharClass::IdentChar => is_ident_char(c),
        CharClass::OperatorChar => is_operator_char(c),
        CharClass::NotNewline => c != '\n',
        CharClass::Blank => c == ' ' || c == '\t' || c == '\r',
        CharClass::BytesChar => c != '\\' && c != '"',
    }
}

/// The end of the longest run of characters of class `k` that starts at `i`.
pub open spec fn run_end(s: Seq<char>, i: int, k: CharClass) -> int
    decreases s.len() - i,
{
    if 0 <= i < s.len() && in_class(s[i], k) {
        run_end(s, i + 1, k)
    } else {
        i
    }
}

pub proof fn lemma_run_end_bounds(s: Seq<char>, i: int, k: CharClass)
    requires
        0 <= i,
    ensures
        i <= run_end(s, i, k),
        i <= s.len() ==> run_end(s, i, k) <= s.len(),
        i >= s.len() ==> run_end(s, i, k) == i,
    decreases s.len() - i,
{
    if i < s.len() && in_class(s[i], k) {
        lemma_run_end_bounds(s, i + 1, k);
    }
}

/// `s[i] == c`, with `i` in range.
pub open spec fn at(s: Seq<char>, i: int, c: char) -> bool {
    0 <= i < s.len() && s[i] == c
}

/// `s` without its underscores.
pub open spec fn strip_underscores(s: Seq<char>) -> Seq<char>
    decreases s.len(),
{
    if s.len() == 0 {
        s
    } else if s.last() == '_' {
        strip_underscores(s.drop_last())
    } else {
        strip_underscores(s.drop_last()).push(s.last())
    }
}

// ============================================================================
// TOKEN RULES
// ============================================================================

/// `digits '.' digits` at `i`, underscores removed: the text and the end.
pub open spec fn float_value(s: Seq<char>, i: int) -> Option<(Seq<char>, int)> {
    if 0 <= i < s.len() && is_digit(s[i]) {
        let j = run_end(s, i + 1, CharClass::DigitOrUnderscore);
        if at(s, j, '.') && j + 1 < s.len() && is_digit(s[j + 1]) {
            let k = run_end(s, j + 2, CharClass::DigitOrUnderscore);
            Some(
                (
                    strip_underscores(s.subrange(i, j)) + seq!['.'] + strip_underscores(
                        s.subrange(j + 1, k),
                    ),
                    k,
                ),
            )
        } else {
            None
        }
    } else {
        None
    }
}

/// An unsigned integer at `i`: `0x`, `0o`, `0b` or decimal, underscores removed.
pub open spec fn int_value(s: Seq<char>, i: int) -> Option<(Seq<char>, int)> {
    if at(s, i, '0') && at(s, i + 1, 'x') && i + 2 < s.len() && is_hex_digit(s[i + 2]) {
        let j = run_end(s, i + 3, CharClass::HexOrUnderscore);
        Some((seq!['0', 'x'] + strip_underscores(s.subrange(i + 2, j)), j))
    } else if at(s, i, '0') && at(s, i + 1, 'o') && i + 2 < s.len() && '0' <= s[i + 2] && s[i
        + 2] <= '7' {
        let j = run_end(s, i + 3, CharClass::OctOrUnderscore);
        Some((seq!['0', 'o'] + strip_underscores(s.subrange(i + 2, j)), j))
    } else if at(s, i, '0') && at(s, i + 1, 'b') && i + 2 < s.len() && (s[i + 2] == '0' || s[i
        + 2] == '1') {
        let j = run_end(s, i + 3, CharClass::BinOrUnderscore);
        Some((seq!['0', 'b'] + strip_underscores(s.subrange(i + 2, j)), j))
    } else if 0 <= i < s.len() && is_digit(s[i]) {
        let j = run_end(s, i + 1, CharClass::DigitOrUnderscore);
        Some((strip_underscores(s.subrange(i, j)), j))
    } else {
        None
    }
}

/// Float literals: `-inf`, `digits.digits`, `nan`, `inf`.
pub open spec fn float_literal(s: Seq<char>, i: int) -> Option<(TokenView, int)> {
    if at(s, i, '-') && at(s, i + 1, 'i') && at(s, i + 2, 'n') && at(s, i + 3, 'f') {
        Some((TokenView::Float("-inf"@), i + 4))
    } else if float_value(s, i) is Some {
        let (v, j) = float_value(s, i)->0;
        Some((TokenView::Float(v), j))
    } else if at(s, i, 'n') && at(s, i + 1, 'a') && at(s, i + 2, 'n') {
        Some((TokenView::Float("nan"@), i + 3))
    } else if at(s, i, 'i') && at(s, i + 1, 'n') && at(s, i + 2, 'f') {
        Some((TokenView::Float("inf"@), i + 3))
    } else {
        None
    }
}

/// Negative numbers written without a space: `-1.5`, `-42`, `-0xFF`.
pub open spec fn signed_literal(s: Seq<char>, i: int) -> Option<(TokenView, int)> {
    if at(s, i, '-') {
        if float_value(s, i + 1) is Some {
            let (v, j) = float_value(s, i + 1)->0;
            Some((TokenView::Float(seq!['-'] + v), j))
        } else if int_value(s, i + 1) is Some {
            let (v, j) = int_value(s, i + 1)->0;
            Some((TokenView::Int(seq!['-'] + v), j))
        } else {
            None
        }
    } else {
        None
    }
}

/// A minus sign written right before a number is part of it: where the
/// lexer reads an integer at `i + 1`, at a `-` just before it reads the
/// same integer with the minus sign in front, ending at the same place.
pub proof fn law_negative_integer_keeps_sign(s: Seq<char>, i: int, v: Seq<char>, j: int)
    requires
        0 <= i,
        i + 1 < s.len(),
        s[i] == '-',
        is_digit(s[i + 1]),
        step(s, i + 1) == Step::Token(TokenView::Int(v), j),
    ensures
        step(s, i) == Step::Token(TokenView::Int(seq!['-'] + v), j),
{
}

/// The same for a decimal number with a fraction.
pub proof fn law_negative_float_keeps_sign(s: Seq<char>, i: int, v: Seq<char>, j: int)
    requires
        0 <= i,
        i + 1 < s.len(),
        s[i] == '-',
        is_digit(s[i + 1]),
        step(s, i + 1) == Step::Token(TokenView::Float(v), j),
    ensures
        step(s, i) == Step::Token(TokenView::Float(seq!['-'] + v), j),
{
}

/// The value of a hexadecimal digit.
pub open spec fn hex_digit_value(c: char) -> nat {
    if is_digit(c) {
        (c as nat - '0' as nat) as nat
    } else if 'a' <= c && c <= 'f' {
        (c as nat - 'a' as nat + 10) as nat
    } else {
        (c as nat - 'A' as nat + 10) as nat
    }
}

/// The number that a sequence of hexadecimal digits denotes.
pub open spec fn hex_number(d: Seq<char>) -> nat
    decreases d.len(),
{
    if d.len() == 0 {
        0
    } else {
        hex_number(d.drop_last()) * 16 + hex_digit_value(d.last())
    }
}

/// Whether `v` is the code of a Unicode scalar value.
pub open spec fn is_scalar_code(v: nat) -> bool {
    v < 0xD800 || (0xE000 <= v && v <= 0x10FFFF)
}

/// The character with code `v`, or `'\0'` where `v` is no scalar value.
pub open spec fn char_of_code(v: nat) -> char {
    if is_scalar_code(v) {
        v as char
    } else {
        '\0'
    }
}

/// How many hexadecimal digits an escape `\u{...}` at `i` takes: at most six.
pub open spec fn hex_escape_digits(s: Seq<char>, i: int) -> int {
    let n = run_end(s, i, CharClass::HexDigit) - i;
    if n > 6 {
        6
    } else {
        n
    }
}

/// The escape that follows a backslash, read at `i`: the character and the end.
pub open spec fn escape(s: Seq<char>, i: int) -> Option<(char, int)> {
    if !(0 <= i < s.len()) {
        None
    } else if s[i] == '\\' {
        Some(('\\', i + 1))
    } else if s[i] == 'n' {
        Some(('\n', i + 1))
    } else if s[i] == 't' {
        Some(('\t', i + 1))
    } else if s[i] == 'r' {
        Some(('\r', i + 1))
    } else if s[i] == '"' {
        Some(('"', i + 1))
    } else if s[i] == '\'' {
        Some(('\'', i + 1))
    } else if s[i] == '0' {
        Some(('\0', i + 1))
    } else if s[i] == 'u' && at(s, i + 1, '{') {
        let n = hex_escape_digits(s, i + 2);
        if n >= 1 && at(s, i + 2 + n, '}') {
            Some((char_of_code(hex_number(s.subrange(i + 2, i + 2 + n))), i + 3 + n))
        } else {
            None
        }
    } else {
        None
    }
}

pub proof fn lemma_escape_advances(s: Seq<char>, i: int)
    requires
        0 <= i,
    ensures
        escape(s, i) matches Some((_, j)) ==> i < j <= s.len(),
{
    if 0 <= i < s.len() && s[i] == 'u' && at(s, i + 1, '{') {
        lemma_run_end_bounds(s, i + 2, CharClass::HexDigit);
    }
}

/// The body of a string literal quoted by `q`, read from `i` up to and
/// including the closing quote: the contents and the end.
pub open spec fn string_body(s: Seq<char>, i: int, q: char) -> Option<(Seq<char>, int)>
    decreases s.len() - i,
{
    if !(0 <= i < s.len()) {
        None
    } else if s[i] == q {
        Some((Seq::empty(), i + 1))
    } else if s[i] == '\\' {
        match escape(s, i + 1) {
            Some((c, j)) => {
                proof {
                    lemma_escape_advances(s, i + 1);
                }
                match string_body(s, j, q) {
                    Some((rest, k)) => Some((seq![c] + rest, k)),
                    None => None,
                }
            },
            None => None,
        }
    } else {
        match string_body(s, i + 1, q) {
            Some((rest, k)) => Some((seq![s[i]] + rest, k)),
            None => None,
        }
    }
}

/// String literals, double or single quoted.
pub open spec fn string_literal(s: Seq<char>, i: int) -> Option<(TokenView, int)> {
    if at(s, i, '"') || at(s, i, '\'') {
        match string_body(s, i + 1, s[i]) {
            Some((body, j)) => Some((TokenView::Str(body), j)),
            None => None,
        }
    } else {
        None
    }
}

/// Bytes literals: `b"..."`, without escapes.
pub open spec fn bytes_literal(s: Seq<char>, i: int) -> Option<(TokenView, int)> {
    if at(s, i, 'b') && at(s, i + 1, '"') {
        let j = run_end(s, i + 2, CharClass::BytesChar);
        if at(s, j, '"') {
            Some((TokenView::Bytes(s.subrange(i + 2, j)), j + 1))
        } else {
            None
        }
    } else {
        None
    }
}

/// Punctuation, longest forms first.
pub open spec fn structural(s: Seq<char>, i: int) -> Option<(Token, int)> {
    if at(s, i, ':') && at(s, i + 1, ':') {
        Some((Token::DoubleColon, i + 2))
    } else if at(s, i, '-') && at(s, i + 1, '>') {
        Some((Token::SimpleArrow, i + 2))
    } else if at(s, i, '=') && at(s, i + 1, '>') {
        Some((Token::Arrow, i + 2))
    } else if at(s, i, '<') && at(s, i + 1, '!') && at(s, i + 2, '?') {
        Some((Token::ReceiveNonBlocking, i + 3))
    } else if at(s, i, '<') && at(s, i + 1, '!') {
        Some((Token::Receive, i + 2))
    } else if at(s, i, '!') && at(s, i + 1, '>') {
        Some((Token::Send, i + 2))
    } else if at(s, i, '|') && at(s, i + 1, '>') {
        Some((Token::Pipeline, i + 2))
    } else if at(s, i, '.') && at(s, i + 1, '.') && at(s, i + 2, '=') {
        Some((Token::DotDotEqual, i + 3))
    } else if at(s, i, '.') && at(s, i + 1, '.') && at(s, i + 2, '.') {
        Some((Token::DotDotDot, i + 3))
    } else if at(s, i, '.') && at(s, i + 1, '.') {
        Some((Token::DotDot, i + 2))
    } else if !(0 <= i < s.len()) {
        None
    } else {
        let c = s[i];
        if c == ';' {
            Some((Token::Semicolon, i + 1))
        } else if c == ':' {
            Some((Token::Colon, i + 1))
        } else if c == '(' {
            Some((Token::LParen, i + 1))
        } else if c == ')' {
            Some((Token::RParen, i + 1))
        } else if c == '[' {
            Some((Token::LBracket, i + 1))
        } else if c == ']' {
            Some((Token::RBracket, i + 1))
        } else if c == '{' {
            Some((Token::LBrace, i + 1))
        } else if c == '}' {
            Some((Token::RBrace, i + 1))
        } else if c == ',' {
            Some((Token::Comma, i + 1))
        } else if c == '.' {
            Some((Token::Dot, i + 1))
        } else if c == '|' {
            Some((Token::Pipe, i + 1))
        } else if c == '@' {
            Some((Token::AtSymbol, i + 1))
        } else if c == '\\' {
            Some((Token::Backslash, i + 1))
        } else if c == '?' {
            Some((Token::Question, i + 1))
        } else if c == '$' {
            Some((Token::Dollar, i + 1))
        } else if c == '\n' {
            Some((Token::Newline, i + 1))
        } else {
            None
        }
    }
}

/// The keyword that a word spells, if any.
pub open spec fn spec_keyword(w: Seq<char>) -> Option<Token> {
    if w == "lambda"@ || w == "λ"@ {
        Some(Token::Lambda)
    } else if w == "action"@ {
        Some(Token::Action)
    } else if w == "data"@ {
        Some(Token::Data)
    } else if w == "enum"@ {
        Some(Token::Enum)
    } else if w == "interface"@ {
        Some(Token::Interface)
    } else if w == "implements"@ {
        Some(Token::Implements)
    } else if w == "alias"@ {
        Some(Token::Alias)
    } else if w == "import"@ {
        Some(Token::Import)
    } else if w == "export"@ {
        Some(Token::Export)
    } else if w == "let"@ {
        Some(Token::Let)
    } else if w == "var"@ {
        Some(Token::Var)
    } else if w == "match"@ {
        Some(Token::Match)
    } else if w == "for"@ {
        Some(Token::For)
    } else if w == "in"@ {
        Some(Token::In)
    } else if w == "loop"@ {
        Some(Token::Loop)
    } else if w == "break"@ {
        Some(Token::Break)
    } else if w == "continue"@ {
        Some(Token::Continue)
    } else if w == "case"@ {
        Some(Token::Case)
    } else if w == "select"@ {
        Some(Token::Select)
    } else if w == "timeout"@ {
        Some(Token::Timeout)
    } else if w == "with"@ {
        Some(Token::With)
    } else if w == "otherwise"@ {
        Some(Token::Otherwise)
    } else if w == "as"@ {
        Some(Token::As)
    } else if w == "Unit"@ {
        Some(Token::Unit)
    } else if w == "except"@ {
        Some(Token::Except)
    } else if w == "channel!"@ {
        Some(Token::Channel)
    } else if w == "queue!"@ {
        Some(Token::Queue)
    } else if w == "broadcast!"@ {
        Some(Token::Broadcast)
    } else if w == "at"@ {
        Some(Token::At)
    } else {
        None
    }
}

/// The word that an identifier rule reads at `i`, and its end.
pub open spec fn word_at(s: Seq<char>, i: int) -> Option<(Seq<char>, int)> {
    if !(0 <= i < s.len()) {
        None
    } else if s[i] == 'λ' {
        Some(("lambda"@, i + 1))
    } else if spec_is_ident_start(s[i]) {
        let j = run_end(s, i + 1, CharClass::IdentChar);
        if at(s, j, '!') {
            Some((s.subrange(i, j + 1), j + 1))
        } else {
            Some((s.subrange(i, j), j))
        }
    } else if is_upper(s[i]) {
        let j = run_end(s, i + 1, CharClass::IdentChar);
        Some((s.subrange(i, j), j))
    } else if spec_is_operator_char(s[i]) {
        let j = run_end(s, i + 1, CharClass::OperatorChar);
        Some((s.subrange(i, j), j))
    } else {
        None
    }
}

/// The token that a word stands for: the hole, a keyword, or an identifier.
pub open spec fn classify_word(w: Seq<char>) -> TokenView {
    if w == seq!['_'] {
        TokenView::Fixed(Token::Hole)
    } else if spec_keyword(w) is Some {
        TokenView::Fixed(spec_keyword(w)->0)
    } else {
        TokenView::Ident(w)
    }
}

/// Identifiers, keywords and the hole.
pub open spec fn identifier(s: Seq<char>, i: int) -> Option<(TokenView, int)> {
    match word_at(s, i) {
        Some((w, j)) => Some((classify_word(w), j)),
        None => None,
    }
}

/// What the lexer does at position `i`.
pub enum Step {
    /// A token that ends at the given position.
    Token(TokenView, int),
    /// Blanks or a comment that end at the given position.
    Skip(int),
    /// Nothing applies.
    Fail,
}

/// The first rule that applies at `i`.
pub open spec fn step(s: Seq<char>, i: int) -> Step {
    if let Some((t, j)) = float_literal(s, i) {
        Step::Token(t, j)
    } else if let Some((t, j)) = signed_literal(s, i) {
        Step::Token(t, j)
    } else if let Some((v, j)) = int_value(s, i) {
        Step::Token(TokenView::Int(v), j)
    } else if let Some((t, j)) = string_literal(s, i) {
        Step::Token(t, j)
    } else if let Some((t, j)) = bytes_literal(s, i) {
        Step::Token(t, j)
    } else if let Some((t, j)) = structural(s, i) {
        Step::Token(TokenView::Fixed(t), j)
    } else if let Some((t, j)) = identifier(s, i) {
        Step::Token(t, j)
    } else if at(s, i, '#') {
        Step::Skip(run_end(s, i + 1, CharClass::NotNewline))
    } else if at(s, i, ' ') || at(s, i, '\t') || at(s, i, '\r') {
        Step::Skip(run_end(s, i + 1, CharClass::Blank))
    } else {
        Step::Fail
    }
}

/// The end position of a step, where it has one.
pub open spec fn step_end(st: Step) -> int {
    match st {
        Step::Token(_, j) => j,
        Step::Skip(j) => j,
        Step::Fail => -1,
    }
}

pub proof fn lemma_string_body_bounds(s: Seq<char>, i: int, q: char)
    requires
        0 <= i,
    ensures
        string_body(s, i, q) matches Some((_, j)) ==> i < j <= s.len(),
    decreases s.len() - i,
{
    if 0 <= i < s.len() && s[i] != q {
        if s[i] == '\\' {
            lemma_escape_advances(s, i + 1);
            if let Some((_, j)) = escape(s, i + 1) {
                lemma_string_body_bounds(s, j, q);
            }
        } else {
            lemma_string_body_bounds(s, i + 1, q);
        }
    }
}

/// Every step that does not fail moves forward and stays within the text.
pub proof fn lemma_step_advances(s: Seq<char>, i: int)
    requires
        0 <= i < s.len(),
    ensures
        !(step(s, i) is Fail) ==> i < step_end(step(s, i)) <= s.len(),
{
    lemma_run_end_bounds(s, i + 1, CharClass::DigitOrUnderscore);
    lemma_run_end_bounds(s, i + 2, CharClass::DigitOrUnderscore);
    lemma_run_end_bounds(s, i + 3, CharClass::HexOrUnderscore);
    lemma_run_end_bounds(s, i + 3, CharClass::OctOrUnderscore);
    lemma_run_end_bounds(s, i + 3, CharClass::BinOrUnderscore);
    lemma_run_end_bounds(s, i + 4, CharClass::HexOrUnderscore);
    lemma_run_end_bounds(s, i + 4, CharClass::OctOrUnderscore);
    lemma_run_end_bounds(s, i + 4, CharClass::BinOrUnderscore);
    lemma_run_end_bounds(s, i + 1, CharClass::IdentChar);
    lemma_run_end_bounds(s, i + 1, CharClass::OperatorChar);
    lemma_run_end_bounds(s, i + 1, CharClass::NotNewline);
    lemma_run_end_bounds(s, i + 1, CharClass::Blank);
    lemma_run_end_bounds(s, i + 2, CharClass::BytesChar);
    let j1 = run_end(s, i + 1, CharClass::DigitOrUnderscore);
    let j2 = run_end(s, i + 2, CharClass::DigitOrUnderscore);
    lemma_run_end_bounds(s, j1 + 2, CharClass::DigitOrUnderscore);
    lemma_run_end_bounds(s, j2 + 2, CharClass::DigitOrUnderscore);
    if at(s, i, '"') || at(s, i, '\'') {
        lemma_string_body_bounds(s, i + 1, s[i]);
    }
}

/// The tokens read from position `i` on, each with its span; or the position
/// at which no rule applies.
pub open spec fn lex_from(s: Seq<char>, i: int) -> Result<Seq<(TokenView, Span)>, int>
    decreases s.len() - i,
{
    if !(0 <= i < s.len()) {
        Ok(Seq::empty())
    } else {
        proof {
            lemma_step_advances(s, i);
        }
        match step(s, i) {
            Step::Token(t, j) => match lex_from(s, j) {
                Ok(rest) => Ok(seq![(t, Span { start: i as usize, end: j as usize })] + rest),
                Err(p) => Err(p),
            },
            Step::Skip(j) => lex_from(s, j),
            Step::Fail => Err(i),
        }
    }
}

/// The end of the last token of `ts`, or 0.
pub open spec fn last_end(ts: Seq<(TokenView, Span)>) -> usize {
    if ts.len() == 0 {
        0
    } else {
        ts.last().1.end
    }
}

/// The tokens of the whole text `s`, followed by the end-of-file token placed
/// at the end of the last token; or the position at which lexing stops.
pub open spec fn spec_lex(s: Seq<char>) -> Result<Seq<(TokenView, Span)>, int> {
    match lex_from(s, 0) {
        Ok(ts) => Ok(
            ts.push((TokenView::Fixed(Token::Eof), Span { start: last_end(ts), end: last_end(ts) })),
        ),
        Err(p) => Err(p),
    }
}


// ============================================================================
// EXECUTABLE LEXER
// ============================================================================

/// The code of a Unicode scalar value as a character, through std's
/// `char::from_u32`, which returns `Some` exactly for scalar values.
#[verifier::external_body]
fn char_from_u32(v: u32) -> (r: Option<char>)
    ensures
        r == (if is_scalar_code(v as nat) {
            Some((v as nat) as char)
        } else {
            None
        }),
{
    char::from_u32(v)
}

/// Whether the characters of `w` are those of `lit`.
fn chars_eq_str(w: &Vec<char>, lit: &str) -> (r: bool)
    ensures
        r == (w@ == lit@),
{
    let n = lit.unicode_len();
    if n != w.len() {
        return false;
    }
    let mut k: usize = 0;
    while k < n
        invariant
            n == lit@.len(),
            n == w@.len(),
            k <= n,
            forall|m: int| 0 <= m < k ==> w@[m] == lit@[m],
        decreases n - k,
    {
        if lit.get_char(k) != w[k] {
            return false;
        }
        k = k + 1;
    }
    assert(w@ =~= lit@);
    true
}

/// Bound on the texts the lexer reads, so that positions near the end still fit in `usize`.
pub open spec fn fits(s: Seq<char>) -> bool {
    s.len() + 16 <= usize::MAX
}

fn at_exec(s: &Vec<char>, i: usize, c: char) -> (r: bool)
    ensures
        r == at(s@, i as int, c),
{
    i < s.len() && s[i] == c
}

fn run_end_exec(s: &Vec<char>, i: usize, k: CharClass) -> (j: usize)
    requires
        fits(s@),
        i <= s.len() + 8,
    ensures
        j == run_end(s@, i as int, k),
{
    let mut j = i;
    while j < s.len() && in_class_exec(s[j], k)
        invariant
            fits(s@),
            i <= j <= s.len() + 8,
            run_end(s@, i as int, k) == run_end(s@, j as int, k),
        decreases s.len() + 8 - j,
    {
        j = j + 1;
    }
    j
}

/// `s[lo..hi]` without underscores, appended to `out`.
fn push_stripped(out: &mut Vec<char>, s: &Vec<char>, lo: usize, hi: usize)
    requires
        lo <= hi <= s.len(),
    ensures
        final(out)@ == old(out)@ + strip_underscores(s@.subrange(lo as int, hi as int)),
{
    let ghost start = out@;
    let mut j = lo;
    assert(s@.subrange(lo as int, lo as int) =~= Seq::<char>::empty());
    assert(out@ =~= start + strip_underscores(s@.subrange(lo as int, lo as int)));
    while j < hi
        invariant
            lo <= j <= hi <= s.len(),
            out@ == start + strip_underscores(s@.subrange(lo as int, j as int)),
        decreases hi - j,
    {
        let ghost sub = s@.subrange(lo as int, j as int + 1);
        assert(sub.drop_last() =~= s@.subrange(lo as int, j as int));
        assert(sub.last() == s@[j as int]);
        if s[j] != '_' {
            out.push(s[j]);
            assert(out@ =~= start + strip_underscores(sub));
        }
        j = j + 1;
    }
}

/// `s[lo..hi]` appended to `out`.
fn push_range(out: &mut Vec<char>, s: &Vec<char>, lo: usize, hi: usize)
    requires
        lo <= hi <= s.len(),
    ensures
        final(out)@ == old(out)@ + s@.subrange(lo as int, hi as int),
{
    let ghost start = out@;
    let mut j = lo;
    while j < hi
        invariant
            lo <= j <= hi <= s.len(),
            out@ =~= start + s@.subrange(lo as int, j as int),
        decreases hi - j,
    {
        out.push(s[j]);
        j = j + 1;
    }
}

fn float_value_exec(s: &Vec<char>, i: usize) -> (r: Option<(Vec<char>, usize)>)
    requires
        fits(s@),
        i <= s.len(),
    ensures
        match r {
            Some((v, j)) => float_value(s@, i as int) == Some((v@, j as int)),
            None => float_value(s@, i as int) is None,
        },
{
    if i < s.len() && '0' <= s[i] && s[i] <= '9' {
        let j = run_end_exec(s, i + 1, CharClass::DigitOrUnderscore);
        proof {
            lemma_run_end_bounds(s@, i + 1, CharClass::DigitOrUnderscore);
        }
        if at_exec(s, j, '.') && j + 1 < s.len() && '0' <= s[j + 1] && s[j + 1] <= '9' {
            let k = run_end_exec(s, j + 2, CharClass::DigitOrUnderscore);
            proof {
                lemma_run_end_bounds(s@, j + 2, CharClass::DigitOrUnderscore);
            }
            let mut v: Vec<char> = Vec::new();
            push_stripped(&mut v, s, i, j);
            v.push('.');
            push_stripped(&mut v, s, j + 1, k);
            assert(v@ =~= strip_underscores(s@.subrange(i as int, j as int)) + seq!['.']
                + strip_underscores(s@.subrange(j + 1, k as int)));
            Some((v, k))
        } else {
            None
        }
    } else {
        None
    }
}

fn int_value_exec(s: &Vec<char>, i: usize) -> (r: Option<(Vec<char>, usize)>)
    requires
        fits(s@),
        i <= s.len(),
    ensures
        match r {
            Some((v, j)) => int_value(s@, i as int) == Some((v@, j as int)),
            None => int_value(s@, i as int) is None,
        },
{
    proof {
        lemma_run_end_bounds(s@, i + 3, CharClass::HexOrUnderscore);
        lemma_run_end_bounds(s@, i + 3, CharClass::OctOrUnderscore);
        lemma_run_end_bounds(s@, i + 3, CharClass::BinOrUnderscore);
        lemma_run_end_bounds(s@, i + 1, CharClass::DigitOrUnderscore);
    }
    if at_exec(s, i, '0') && at_exec(s, i + 1, 'x') && i + 2 < s.len() && (('0' <= s[i + 2]
        && s[i + 2] <= '9') || ('a' <= s[i + 2] && s[i + 2] <= 'f') || ('A' <= s[i + 2] && s[i
        + 2] <= 'F')) {
        let j = run_end_exec(s, i + 3, CharClass::HexOrUnderscore);
        let mut v: Vec<char> = Vec::new();
        v.push('0');
        v.push('x');
        push_stripped(&mut v, s, i + 2, j);
        assert(v@ =~= seq!['0', 'x'] + strip_underscores(s@.subrange(i + 2, j as int)));
        Some((v, j))
    } else if at_exec(s, i, '0') && at_exec(s, i + 1, 'o') && i + 2 < s.len() && '0' <= s[i + 2]
        && s[i + 2] <= '7' {
        let j = run_end_exec(s, i + 3, CharClass::OctOrUnderscore);
        let mut v: Vec<char> = Vec::new();
        v.push('0');
        v.push('o');
        push_stripped(&mut v, s, i + 2, j);
        assert(v@ =~= seq!['0', 'o'] + strip_underscores(s@.subrange(i + 2, j as int)));
        Some((v, j))
    } else if at_exec(s, i, '0') && at_exec(s, i + 1, 'b') && i + 2 < s.len() && (s[i + 2] == '0'
        || s[i + 2] == '1') {
        let j = run_end_exec(s, i + 3, CharClass::BinOrUnderscore);
        let mut v: Vec<char> = Vec::new();
        v.push('0');
        v.push('b');
        push_stripped(&mut v, s, i + 2, j);
        assert(v@ =~= seq!['0', 'b'] + strip_underscores(s@.subrange(i + 2, j as int)));
        Some((v, j))
    } else if i < s.len() && '0' <= s[i] && s[i] <= '9' {
        let j = run_end_exec(s, i + 1, CharClass::DigitOrUnderscore);
        let mut v: Vec<char> = Vec::new();
        push_stripped(&mut v, s, i, j);
        assert(v@ =~= strip_underscores(s@.subrange(i as int, j as int)));
        Some((v, j))
    } else {
        None
    }
}

/// The view of an optional token and end position.
pub open spec fn opt_view(r: Option<(Token, usize)>) -> Option<(TokenView, int)> {
    match r {
        Some((t, j)) => Some((t@, j as int)),
        None => None,
    }
}

fn float_literal_exec(s: &Vec<char>, i: usize) -> (r: Option<(Token, usize)>)
    requires
        fits(s@),
        i < s.len(),
    ensures
        opt_view(r) == float_literal(s@, i as int),
{
    if at_exec(s, i, '-') && at_exec(s, i + 1, 'i') && at_exec(s, i + 2, 'n') && at_exec(
        s,
        i + 3,
        'f',
    ) {
        return Some((Token::Float(String::from_str("-inf")), i + 4));
    }
    match float_value_exec(s, i) {
        Some((v, j)) => {
            return Some((Token::Float(string_from_chars(&v)), j));
        },
        None => {},
    }
    if at_exec(s, i, 'n') && at_exec(s, i + 1, 'a') && at_exec(s, i + 2, 'n') {
        Some((Token::Float(String::from_str("nan")), i + 3))
    } else if at_exec(s, i, 'i') && at_exec(s, i + 1, 'n') && at_exec(s, i + 2, 'f') {
        Some((Token::Float(String::from_str("inf")), i + 3))
    } else {
        None
    }
}

fn signed_literal_exec(s: &Vec<char>, i: usize) -> (r: Option<(Token, usize)>)
    requires
        fits(s@),
        i < s.len(),
    ensures
        opt_view(r) == signed_literal(s@, i as int),
{
    if !at_exec(s, i, '-') {
        return None;
    }
    match float_value_exec(s, i + 1) {
        Some((v, j)) => {
            let mut w: Vec<char> = Vec::new();
            w.push('-');
            let mut v = v;
            w.append(&mut v);
            return Some((Token::Float(string_from_chars(&w)), j));
        },
        None => {},
    }
    match int_value_exec(s, i + 1) {
        Some((v, j)) => {
            let mut w: Vec<char> = Vec::new();
            w.push('-');
            let mut v = v;
            w.append(&mut v);
            Some((Token::Int(string_from_chars(&w)), j))
        },
        None => None,
    }
}

pub open spec fn pow16(n: nat) -> nat
    decreases n,
{
    if n == 0 {
        1
    } else {
        16 * pow16((n - 1) as nat)
    }
}

fn hex_digit_value_exec(c: char) -> (r: u32)
    requires
        is_hex_digit(c),
    ensures
        r as nat == hex_digit_value(c),
        r < 16,
{
    if '0' <= c && c <= '9' {
        (c as u32) - ('0' as u32)
    } else if 'a' <= c && c <= 'f' {
        (c as u32) - ('a' as u32) + 10
    } else {
        (c as u32) - ('A' as u32) + 10
    }
}

fn escape_exec(s: &Vec<char>, i: usize) -> (r: Option<(char, usize)>)
    requires
        fits(s@),
        i <= s.len(),
    ensures
        match r {
            Some((c, j)) => escape(s@, i as int) == Some((c, j as int)),
            None => escape(s@, i as int) is None,
        },
{
    if i >= s.len() {
        return None;
    }
    let c = s[i];
    if c == '\\' {
        Some(('\\', i + 1))
    } else if c == 'n' {
        Some(('\n', i + 1))
    } else if c == 't' {
        Some(('\t', i + 1))
    } else if c == 'r' {
        Some(('\r', i + 1))
    } else if c == '"' {
        Some(('"', i + 1))
    } else if c == '\'' {
        Some(('\'', i + 1))
    } else if c == '0' {
        Some(('\0', i + 1))
    } else if c == 'u' && at_exec(s, i + 1, '{') {
        let e = run_end_exec(s, i + 2, CharClass::HexDigit);
        proof {
            lemma_run_end_bounds(s@, i + 2, CharClass::HexDigit);
        }
        let n: usize = if e - (i + 2) > 6 {
            6
        } else {
            e - (i + 2)
        };
        if n >= 1 && at_exec(s, i + 2 + n, '}') {
            let mut v: u32 = 0;
            let mut k: usize = 0;
            proof {
                assert(s@.subrange(i + 2, i + 2) =~= Seq::<char>::empty());
            }
            while k < n
                invariant
                    fits(s@),
                    1 <= n <= 6,
                    i + 2 + n <= e <= s.len(),
                    e == run_end(s@, i + 2, CharClass::HexDigit),
                    k <= n,
                    v as nat == hex_number(s@.subrange(i + 2, i + 2 + k)),
                    v < pow16(k as nat),
                decreases n - k,
            {
                proof {
                    lemma_run_end_in_class(s@, i + 2, CharClass::HexDigit, i + 2 + k);
                    let sub = s@.subrange(i + 2, i + 2 + k + 1);
                    assert(sub.drop_last() =~= s@.subrange(i + 2, i + 2 + k));
                    lemma_pow16_small(k as nat);
                }
                let d = hex_digit_value_exec(s[i + 2 + k]);
                v = v * 16 + d;
                k = k + 1;
            }
            let ch = match char_from_u32(v) {
                Some(ch) => ch,
                None => '\0',
            };
            Some((ch, i + 3 + n))
        } else {
            None
        }
    } else {
        None
    }
}

pub proof fn lemma_pow16_small(k: nat)
    requires
        k <= 6,
    ensures
        pow16(k) <= 16777216,
        pow16(k + 1) == 16 * pow16(k),
{
    reveal_with_fuel(pow16, 7);
}

pub proof fn lemma_run_end_in_class(s: Seq<char>, i: int, k: CharClass, m: int)
    requires
        0 <= i <= m < run_end(s, i, k),
    ensures
        m < s.len(),
        in_class(s[m], k),
    decreases m - i,
{
    if m > i {
        lemma_run_end_in_class(s, i + 1, k, m);
    }
}

/// Prepends `p` to a successful result.
pub open spec fn prepend_chars(p: Seq<char>, r: Option<(Seq<char>, int)>) -> Option<(Seq<char>, int)> {
    match r {
        Some((rest, k)) => Some((p + rest, k)),
        None => None,
    }
}

fn string_body_exec(s: &Vec<char>, i0: usize, q: char) -> (r: Option<(Vec<char>, usize)>)
    requires
        fits(s@),
        i0 <= s.len(),
    ensures
        match r {
            Some((v, j)) => string_body(s@, i0 as int, q) == Some((v@, j as int)),
            None => string_body(s@, i0 as int, q) is None,
        },
{
    let mut out: Vec<char> = Vec::new();
    let mut i = i0;
    assert(prepend_chars(out@, string_body(s@, i0 as int, q)) == string_body(s@, i0 as int, q))
        by {
        match string_body(s@, i0 as int, q) {
            Some((rest, k)) => {
                assert(out@ + rest =~= rest);
            },
            None => {},
        }
    }
    while i < s.len()
        invariant
            fits(s@),
            i0 <= i <= s.len(),
            string_body(s@, i0 as int, q) == prepend_chars(out@, string_body(s@, i as int, q)),
        decreases s.len() - i,
    {
        let c = s[i];
        if c == q {
            assert(out@ + Seq::<char>::empty() =~= out@);
            return Some((out, i + 1));
        } else if c == '\\' {
            match escape_exec(s, i + 1) {
                Some((e, j)) => {
                    proof {
                        lemma_escape_advances(s@, i + 1);
                        match string_body(s@, j as int, q) {
                            Some((rest, k)) => {
                                assert(out@ + (seq![e] + rest) =~= out@.push(e) + rest);
                            },
                            None => {},
                        }
                    }
                    out.push(e);
                    i = j;
                },
                None => {
                    return None;
                },
            }
        } else {
            proof {
                match string_body(s@, i + 1, q) {
                    Some((rest, k)) => {
                        assert(out@ + (seq![c] + rest) =~= out@.push(c) + rest);
                    },
                    None => {},
                }
            }
            out.push(c);
            i = i + 1;
        }
    }
    None
}

fn string_literal_exec(s: &Vec<char>, i: usize) -> (r: Option<(Token, usize)>)
    requires
        fits(s@),
        i < s.len(),
    ensures
        opt_view(r) == string_literal(s@, i as int),
{
    if s[i] == '"' || s[i] == '\'' {
        match string_body_exec(s, i + 1, s[i]) {
            Some((body, j)) => Some((Token::String(string_from_chars(&body)), j)),
            None => None,
        }
    } else {
        None
    }
}

fn bytes_literal_exec(s: &Vec<char>, i: usize) -> (r: Option<(Token, usize)>)
    requires
        fits(s@),
        i < s.len(),
    ensures
        opt_view(r) == bytes_literal(s@, i as int),
{
    if at_exec(s, i, 'b') && at_exec(s, i + 1, '"') {
        let j = run_end_exec(s, i + 2, CharClass::BytesChar);
        proof {
            lemma_run_end_bounds(s@, i + 2, CharClass::BytesChar);
        }
        if at_exec(s, j, '"') {
            let mut v: Vec<char> = Vec::new();
            push_range(&mut v, s, i + 2, j);
            Some((Token::Bytes(string_from_chars(&v)), j + 1))
        } else {
            None
        }
    } else {
        None
    }
}

fn structural_exec(s: &Vec<char>, i: usize) -> (r: Option<(Token, usize)>)
    requires
        fits(s@),
        i < s.len(),
    ensures
        match r {
            Some((t, j)) => structural(s@, i as int) == Some((t, j as int)),
            None => structural(s@, i as int) is None,
        },
{
    if at_exec(s, i, ':') && at_exec(s, i + 1, ':') {
        Some((Token::DoubleColon, i + 2))
    } else if at_exec(s, i, '-') && at_exec(s, i + 1, '>') {
        Some((Token::SimpleArrow, i + 2))
    } else if at_exec(s, i, '=') && at_exec(s, i + 1, '>') {
        Some((Token::Arrow, i + 2))
    } else if at_exec(s, i, '<') && at_exec(s, i + 1, '!') && at_exec(s, i + 2, '?') {
        Some((Token::ReceiveNonBlocking, i + 3))
    } else if at_exec(s, i, '<') && at_exec(s, i + 1, '!') {
        Some((Token::Receive, i + 2))
    } else if at_exec(s, i, '!') && at_exec(s, i + 1, '>') {
        Some((Token::Send, i + 2))
    } else if at_exec(s, i, '|') && at_exec(s, i + 1, '>') {
        Some((Token::Pipeline, i + 2))
    } else if at_exec(s, i, '.') && at_exec(s, i + 1, '.') && at_exec(s, i + 2, '=') {
        Some((Token::DotDotEqual, i + 3))
    } else if at_exec(s, i, '.') && at_exec(s, i + 1, '.') && at_exec(s, i + 2, '.') {
        Some((Token::DotDotDot, i + 3))
    } else if at_exec(s, i, '.') && at_exec(s, i + 1, '.') {
        Some((Token::DotDot, i + 2))
    } else {
        let c = s[i];
        if c == ';' {
            Some((Token::Semicolon, i + 1))
        } else if c == ':' {
            Some((Token::Colon, i + 1))
        } else if c == '(' {
            Some((Token::LParen, i + 1))
        } else if c == ')' {
            Some((Token::RParen, i + 1))
        } else if c == '[' {
            Some((Token::LBracket, i + 1))
        } else if c == ']' {
            Some((Token::RBracket, i + 1))
        } else if c == '{' {
            Some((Token::LBrace, i + 1))
        } else if c == '}' {
            Some((Token::RBrace, i + 1))
        } else if c == ',' {
            Some((Token::Comma, i + 1))
        } else if c == '.' {
            Some((Token::Dot, i + 1))
        } else if c == '|' {
            Some((Token::Pipe, i + 1))
        } else if c == '@' {
            Some((Token::AtSymbol, i + 1))
        } else if c == '\\' {
            Some((Token::Backslash, i + 1))
        } else if c == '?' {
            Some((Token::Question, i + 1))
        } else if c == '$' {
            Some((Token::Dollar, i + 1))
        } else if c == '\n' {
            Some((Token::Newline, i + 1))
        } else {
            None
        }
    }
}

/// The keyword token spelled by `w`, if any.
pub fn str_to_keyword(w: &Vec<char>) -> (r: Option<Token>)
    ensures
        r == spec_keyword(w@),
{
    if chars_eq_str(w, "lambda") || chars_eq_str(w, "λ") {
        Some(Token::Lambda)
    } else if chars_eq_str(w, "action") {
        Some(Token::Action)
    } else if chars_eq_str(w, "data") {
        Some(Token::Data)
    } else if chars_eq_str(w, "enum") {
        Some(Token::Enum)
    } else if chars_eq_str(w, "interface") {
        Some(Token::Interface)
    } else if chars_eq_str(w, "implements") {
        Some(Token::Implements)
    } else if chars_eq_str(w, "alias") {
        Some(Token::Alias)
    } else if chars_eq_str(w, "import") {
        Some(Token::Import)
    } else if chars_eq_str(w, "export") {
        Some(Token::Export)
    } else if chars_eq_str(w, "let") {
        Some(Token::Let)
    } else if chars_eq_str(w, "var") {
        Some(Token::Var)
    } else if chars_eq_str(w, "match") {
        Some(Token::Match)
    } else if chars_eq_str(w, "for") {
        Some(Token::For)
    } else if chars_eq_str(w, "in") {
        Some(Token::In)
    } else if chars_eq_str(w, "loop") {
        Some(Token::Loop)
    } else if chars_eq_str(w, "break") {
        Some(Token::Break)
    } else if chars_eq_str(w, "continue") {
        Some(Token::Continue)
    } else if chars_eq_str(w, "case") {
        Some(Token::Case)
    } else if chars_eq_str(w, "select") {
        Some(Token::Select)
    } else if chars_eq_str(w, "timeout") {
        Some(Token::Timeout)
    } else if chars_eq_str(w, "with") {
        Some(Token::With)
    } else if chars_eq_str(w, "otherwise") {
        Some(Token::Otherwise)
    } else if chars_eq_str(w, "as") {
        Some(Token::As)
    } else if chars_eq_str(w, "Unit") {
        Some(Token::Unit)
    } else if chars_eq_str(w, "except") {
        Some(Token::Except)
    } else if chars_eq_str(w, "channel!") {
        Some(Token::Channel)
    } else if chars_eq_str(w, "queue!") {
        Some(Token::Queue)
    } else if chars_eq_str(w, "broadcast!") {
        Some(Token::Broadcast)
    } else if chars_eq_str(w, "at") {
        Some(Token::At)
    } else {
        None
    }
}

fn identifier_exec(s: &Vec<char>, i: usize) -> (r: Option<(Token, usize)>)
    requires
        fits(s@),
        i < s.len(),
    ensures
        opt_view(r) == identifier(s@, i as int),
{
    let c = s[i];
    let (lo, hi, end): (usize, usize, usize) = if c == 'λ' {
        proof {
            reveal_strlit("lambda");
            assert("lambda"@.len() == 6);
            assert("lambda"@ != seq!['_']);
        }
        return Some((Token::Lambda, i + 1));
    } else if is_ident_start(c) {
        let j = run_end_exec(s, i + 1, CharClass::IdentChar);
        proof {
            lemma_run_end_bounds(s@, i + 1, CharClass::IdentChar);
        }
        if at_exec(s, j, '!') {
            (i, j + 1, j + 1)
        } else {
            (i, j, j)
        }
    } else if 'A' <= c && c <= 'Z' {
        let j = run_end_exec(s, i + 1, CharClass::IdentChar);
        proof {
            lemma_run_end_bounds(s@, i + 1, CharClass::IdentChar);
        }
        (i, j, j)
    } else if is_operator_char(c) {
        let j = run_end_exec(s, i + 1, CharClass::OperatorChar);
        proof {
            lemma_run_end_bounds(s@, i + 1, CharClass::OperatorChar);
        }
        (i, j, j)
    } else {
        return None;
    };
    let mut w: Vec<char> = Vec::new();
    push_range(&mut w, s, lo, hi);
    assert(w@ =~= s@.subrange(lo as int, hi as int));
    let tok = if w.len() == 1 && w[0] == '_' {
        assert(w@ =~= seq!['_']);
        Token::Hole
    } else {
        assert(w@ != seq!['_']);
        match str_to_keyword(&w) {
            Some(t) => t,
            None => Token::Ident(string_from_chars(&w)),
        }
    };
    Some((tok, end))
}

/// What the lexer does at a position, as executed.
pub enum StepResult {
    Token(Token, usize),
    Skip(usize),
    Fail,
}

impl StepResult {
    pub open spec fn view_step(self) -> Step {
        match self {
            StepResult::Token(t, j) => Step::Token(t@, j as int),
            StepResult::Skip(j) => Step::Skip(j as int),
            StepResult::Fail => Step::Fail,
        }
    }
}

fn step_exec(s: &Vec<char>, i: usize) -> (r: StepResult)
    requires
        fits(s@),
        i < s.len(),
    ensures
        r.view_step() == step(s@, i as int),
{
    if let Some((t, j)) = float_literal_exec(s, i) {
        return StepResult::Token(t, j);
    }
    if let Some((t, j)) = signed_literal_exec(s, i) {
        return StepResult::Token(t, j);
    }
    if let Some((v, j)) = int_value_exec(s, i) {
        return StepResult::Token(Token::Int(string_from_chars(&v)), j);
    }
    if let Some((t, j)) = string_literal_exec(s, i) {
        return StepResult::Token(t, j);
    }
    if let Some((t, j)) = bytes_literal_exec(s, i) {
        return StepResult::Token(t, j);
    }
    if let Some((t, j)) = structural_exec(s, i) {
        return StepResult::Token(t, j);
    }
    if let Some((t, j)) = identifier_exec(s, i) {
        return StepResult::Token(t, j);
    }
    if s[i] == '#' {
        StepResult::Skip(run_end_exec(s, i + 1, CharClass::NotNewline))
    } else if s[i] == ' ' || s[i] == '\t' || s[i] == '\r' {
        StepResult::Skip(run_end_exec(s, i + 1, CharClass::Blank))
    } else {
        StepResult::Fail
    }
}

/// Prepends `p` to a successful result.
pub open spec fn prepend_tokens(p: Seq<(TokenView, Span)>, r: Result<Seq<(TokenView, Span)>, int>) -> Result<
    Seq<(TokenView, Span)>,
    int,
> {
    match r {
        Ok(rest) => Ok(p + rest),
        Err(e) => Err(e),
    }
}

/// The tokens of `s`, or the position at which no rule applies.
fn lex_chars(s: &Vec<char>) -> (r: Result<Vec<SpannedToken>, usize>)
    requires
        fits(s@),
    ensures
        match r {
            Ok(v) => lex_from(s@, 0) == Ok::<Seq<(TokenView, Span)>, int>(tokens_view(v@)),
            Err(p) => lex_from(s@, 0) == Err::<Seq<(TokenView, Span)>, int>(p as int),
        },
{
    let mut out: Vec<SpannedToken> = Vec::new();
    let mut i: usize = 0;
    proof {
        match lex_from(s@, 0) {
            Ok(rest) => {
                assert(tokens_view(out@) + rest =~= rest);
            },
            Err(_) => {},
        }
    }
    while i < s.len()
        invariant
            fits(s@),
            i <= s.len(),
            lex_from(s@, 0) == prepend_tokens(tokens_view(out@), lex_from(s@, i as int)),
        decreases s.len() - i,
    {
        proof {
            lemma_step_advances(s@, i as int);
        }
        match step_exec(s, i) {
            StepResult::Token(t, j) => {
                let ghost x = (t@, Span { start: i, end: j });
                let st = SpannedToken { token: t, span: Span { start: i, end: j } };
                proof {
                    assert(tokens_view(out@.push(st)) =~= tokens_view(out@).push(x));
                    match lex_from(s@, j as int) {
                        Ok(rest) => {
                            assert(tokens_view(out@) + (seq![x] + rest) =~= tokens_view(out@).push(
                                x,
                            ) + rest);
                        },
                        Err(_) => {},
                    }
                }
                out.push(st);
                i = j;
            },
            StepResult::Skip(j) => {
                i = j;
            },
            StepResult::Fail => {
                return Err(i);
            },
        }
    }
    proof {
        assert(tokens_view(out@) + Seq::<(TokenView, Span)>::empty() =~= tokens_view(out@));
    }
    Ok(out)
}

/// The Kata lexer.
pub struct KataLexer;

impl KataLexer {
    /// Splits `source` into tokens, each with its span in characters, and
    /// appends the end-of-file token at the end of the last token. Where no
    /// token rule applies, the single error is a `ParseError` whose span
    /// starts at that position.
    pub fn lex(source: &str) -> (r: Result<Vec<SpannedToken>, Vec<LexerError>>)
        requires
            fits(source@),
        ensures
            match r {
                Ok(v) => spec_lex(source@) == Ok::<Seq<(TokenView, Span)>, int>(tokens_view(v@)),
                Err(es) => {
                    &&& spec_lex(source@) is Err
                    &&& es.len() == 1
                    &&& es[0] is ParseError
                    &&& es[0].spec_span().start == spec_lex(source@)->Err_0
                    &&& es[0]->ParseError_message@ == "unexpected input"@
                    &&& es[0].spec_span().end == if spec_lex(source@)->Err_0 < source@.len() {
                        spec_lex(source@)->Err_0 + 1
                    } else {
                        spec_lex(source@)->Err_0
                    }
                },
            },
    {
        let s = chars_of(source);
        match lex_chars(&s) {
            Ok(mut v) => {
                let last: usize = if v.len() == 0 {
                    0
                } else {
                    v[v.len() - 1].span.end
                };
                let ghost before = v@;
                v.push(SpannedToken { token: Token::Eof, span: Span { start: last, end: last } });
                proof {
                    assert(tokens_view(v@) =~= tokens_view(before).push(
                        (TokenView::Fixed(Token::Eof), Span { start: last, end: last }),
                    ));
                    if before.len() > 0 {
                        assert(tokens_view(before).last() == before.last()@);
                    }
                }
                Ok(v)
            },
            Err(p) => {
                let end = if p < s.len() {
                    p + 1
                } else {
                    p
                };
                let mut es: Vec<LexerError> = Vec::new();
                es.push(
                    LexerError::ParseError {
                        message: String::from_str("unexpected input"),
                        span: Span { start: p, end },
                    },
                );
                Err(es)
            },
        }
    }
}

} // verus!
