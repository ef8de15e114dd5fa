//! Reading tokens by position: the small matchers the grammar is built of.

use vstd::prelude::*;
use crate::lexer::token::{Token, SpannedToken, Span};
use crate::text::{chars_of, str_eq};

verus! {

broadcast use vstd::string::group_string_axioms;

/// The text of the identifier at `p`, if the token there is one.
pub fn ident_at(t: &Vec<SpannedToken>, p: usize) -> (r: Option<&String>)
    ensures
        r matches Some(s) ==> p < t@.len() && t@[p as int].token == Token::Ident(*s),
        r is None ==> p >= t@.len() || !(t@[p as int].token is Ident),
{
    if p < t.len() {
        match &t[p].token {
            Token::Ident(s) => Some(s),
            _ => None,
        }
    } else {
        None
    }
}

/// Whether the identifier at `p` is exactly `name`.
pub fn ident_is(t: &Vec<SpannedToken>, p: usize, name: &str) -> (r: bool)
    ensures
        r == (p < t@.len() && (t@[p as int].token matches Token::Ident(s) && s@ == name@)),
{
    match ident_at(t, p) {
        Some(s) => str_eq(s.as_str(), name),
        None => false,
    }
}

/// Whether the token at `q` is the token `k`.
pub open spec fn is_tok(t: Seq<SpannedToken>, q: int, k: Token) -> bool {
    0 <= q < t.len() && t[q].token == k
}

/// The text of the identifier at `q`, if the token there is one.
pub open spec fn ident_of(t: Seq<SpannedToken>, q: int) -> Option<Seq<char>> {
    if 0 <= q < t.len() && t[q].token is Ident {
        Some(t[q].token->Ident_0@)
    } else {
        None
    }
}

/// The position after the newlines from `q` on.
pub open spec fn after_newlines(t: Seq<SpannedToken>, q: int) -> int
    decreases t.len() - q,
{
    if 0 <= q < t.len() && t[q].token is Newline {
        after_newlines(t, q + 1)
    } else {
        q
    }
}

/// The position after the commas and newlines from `q` on.
pub open spec fn after_separators(t: Seq<SpannedToken>, q: int) -> int
    decreases t.len() - q,
{
    if 0 <= q < t.len() && (t[q].token is Newline || t[q].token is Comma) {
        after_separators(t, q + 1)
    } else {
        q
    }
}

/// The position after the newlines from `p` on.
pub fn skip_newlines(t: &Vec<SpannedToken>, p: usize) -> (q: usize)
    requires
        p <= t@.len(),
    ensures
        p <= q <= t@.len(),
        q == after_newlines(t@, p as int),
{
    let mut q = p;
    while q < t.len() && matches!(t[q].token, Token::Newline)
        invariant
            p <= q <= t@.len(),
            after_newlines(t@, q as int) == after_newlines(t@, p as int),
        decreases t@.len() - q,
    {
        q = q + 1;
    }
    q
}

/// The position after the separators (commas or newlines) from `p` on.
pub fn skip_separators(t: &Vec<SpannedToken>, p: usize) -> (q: usize)
    requires
        p <= t@.len(),
    ensures
        p <= q <= t@.len(),
        q == after_separators(t@, p as int),
{
    let mut q = p;
    while q < t.len() && (matches!(t[q].token, Token::Newline) || matches!(t[q].token, Token::Comma))
        invariant
            p <= q <= t@.len(),
            after_separators(t@, q as int) == after_separators(t@, p as int),
        decreases t@.len() - q,
    {
        q = q + 1;
    }
    q
}

/// The position after a comma or a newline at `q`, or `q` if neither is
/// there.
pub open spec fn after_one_separator(t: Seq<SpannedToken>, q: int) -> int {
    if 0 <= q < t.len() && (t[q].token is Newline || t[q].token is Comma) {
        q + 1
    } else {
        q
    }
}

/// The position after one separator (comma or newline) at `p`, if any.
pub fn skip_one_separator(t: &Vec<SpannedToken>, p: usize) -> (q: usize)
    requires
        p <= t@.len(),
    ensures
        p <= q <= t@.len(),
        q <= p + 1,
        q == after_one_separator(t@, p as int),
{
    if p < t.len() && (matches!(t[p].token, Token::Newline) || matches!(t[p].token, Token::Comma)) {
        p + 1
    } else {
        p
    }
}

/// Whether a name starts with an upper-case ASCII letter.
pub fn starts_upper(s: &str) -> (r: bool)
    ensures
        r == (s@.len() > 0 && 'A' <= s@[0] && s@[0] <= 'Z'),
{
    let cs = chars_of(s);
    cs.len() > 0 && 'A' <= cs[0] && cs[0] <= 'Z'
}

/// Whether a name can be a type variable: it is empty or starts with a
/// lower-case ASCII letter, and it is not `_`.
pub fn type_var_name(s: &str) -> (r: bool)
    ensures
        r == ((s@.len() == 0 || ('a' <= s@[0] && s@[0] <= 'z')) && s@ != "_"@),
{
    let cs = chars_of(s);
    let lower = cs.len() == 0 || ('a' <= cs[0] && cs[0] <= 'z');
    lower && !str_eq(s, "_")
}

/// Whether `c` is a character operator names are made of.
pub open spec fn operator_char(c: char) -> bool {
    c == '+' || c == '-' || c == '*' || c == '/' || c == '=' || c == '!' || c == '<' || c == '>'
        || c == '|' || c == '&' || c == '^' || c == '@' || c == '#' || c == '$' || c == '%' || c
        == '\\'
}

/// Whether every character of a name is an operator character.
pub fn operator_name(s: &str) -> (r: bool)
    ensures
        r == forall|i: int| 0 <= i < s@.len() ==> operator_char(#[trigger] s@[i]),
{
    let cs = chars_of(s);
    let mut i: usize = 0;
    while i < cs.len()
        invariant
            i <= cs@.len(),
            cs@ == s@,
            forall|k: int| 0 <= k < i ==> operator_char(#[trigger] s@[k]),
        decreases cs@.len() - i,
    {
        let c = cs[i];
        if !(c == '+' || c == '-' || c == '*' || c == '/' || c == '=' || c == '!' || c == '<' || c == '>'
            || c == '|' || c == '&' || c == '^' || c == '@' || c == '#' || c == '$' || c == '%' || c
            == '\\') {
            return false;
        }
        i = i + 1;
    }
    true
}

/// Whether a name is a plain name: it does not start with an operator
/// character.
pub fn plain_name(s: &str) -> (r: bool)
    ensures
        r == (s@.len() == 0 || !crate::ast::id::is_operator_start(s@[0])),
{
    let cs = chars_of(s);
    if cs.len() == 0 {
        return true;
    }
    let c = cs[0];
    !(c == '+' || c == '-' || c == '*' || c == '/' || c == '\\' || c == '=' || c == '!' || c == '<'
        || c == '>' || c == '?' || c == '|' || c == '&' || c == '^' || c == '~' || c == '@' || c
        == '#' || c == '$' || c == '%')
}

/// Whether a name is plain: it does not start with an operator character.
pub open spec fn plain(s: Seq<char>) -> bool {
    s.len() == 0 || !crate::ast::id::is_operator_start(s[0])
}

/// The text of the identifier at `q` when it is a plain name.
pub open spec fn plain_ident_of(t: Seq<SpannedToken>, q: int) -> Option<Seq<char>> {
    match ident_of(t, q) {
        Some(s) => if plain(s) {
            Some(s)
        } else {
            None
        },
        None => None,
    }
}

/// The identifier at `p` when it is a plain name, and the position after it.
pub fn pure_ident(t: &Vec<SpannedToken>, p: usize) -> (r: Option<(String, usize)>)
    ensures
        r matches Some((_, q)) ==> q == p + 1 && p < t@.len(),
        match r {
            Some((s, q)) => plain_ident_of(t@, p as int) == Some(s@),
            None => plain_ident_of(t@, p as int) is None,
        },
{
    if p >= t.len() {
        return None;
    }
    match ident_at(t, p) {
        Some(s) => {
            if plain_name(s.as_str()) {
                Some((s.clone(), p + 1))
            } else {
                None
            }
        },
        None => None,
    }
}

/// The identifier at `p`, and the position after it.
pub fn ident(t: &Vec<SpannedToken>, p: usize) -> (r: Option<(String, usize)>)
    ensures
        r matches Some((s, q)) ==> q == p + 1 && p < t@.len() && t@[p as int].token == Token::Ident(s),
        r is None <==> ident_of(t@, p as int) is None,
{
    if p >= t.len() {
        return None;
    }
    match ident_at(t, p) {
        Some(s) => Some((s.clone(), p + 1)),
        None => None,
    }
}

/// The text of the integer token at `p`, and the position after it.
pub fn int_literal(t: &Vec<SpannedToken>, p: usize) -> (r: Option<(String, usize)>)
    ensures
        r matches Some((s, q)) ==> q == p + 1 && p < t@.len() && t@[p as int].token == Token::Int(s),
        r is None ==> p >= t@.len() || !(t@[p as int].token is Int),
{
    if p >= t.len() {
        return None;
    }
    match &t[p].token {
        Token::Int(s) => Some((s.clone(), p + 1)),
        _ => None,
    }
}

/// The text of the float token at `p`, and the position after it.
pub fn float_literal(t: &Vec<SpannedToken>, p: usize) -> (r: Option<(String, usize)>)
    ensures
        r matches Some((s, q)) ==> q == p + 1 && p < t@.len() && t@[p as int].token == Token::Float(s),
        r is None ==> p >= t@.len() || !(t@[p as int].token is Float),
{
    if p >= t.len() {
        return None;
    }
    match &t[p].token {
        Token::Float(s) => Some((s.clone(), p + 1)),
        _ => None,
    }
}

/// The content of the text token at `p`, and the position after it.
pub fn string_literal(t: &Vec<SpannedToken>, p: usize) -> (r: Option<(String, usize)>)
    ensures
        r matches Some((s, q)) ==> q == p + 1 && p < t@.len() && t@[p as int].token == Token::String(s),
        r is None ==> p >= t@.len() || !(t@[p as int].token is String),
{
    if p >= t.len() {
        return None;
    }
    match &t[p].token {
        Token::String(s) => Some((s.clone(), p + 1)),
        _ => None,
    }
}

/// The content of the bytes token at `p`, and the position after it.
pub fn bytes_literal(t: &Vec<SpannedToken>, p: usize) -> (r: Option<(String, usize)>)
    ensures
        r matches Some((s, q)) ==> q == p + 1 && p < t@.len() && t@[p as int].token == Token::Bytes(s),
        r is None ==> p >= t@.len() || !(t@[p as int].token is Bytes),
{
    if p >= t.len() {
        return None;
    }
    match &t[p].token {
        Token::Bytes(s) => Some((s.clone(), p + 1)),
        _ => None,
    }
}

/// The span of the tokens from `p` to `q`, counted in token positions.
pub fn span_of(p: usize, q: usize) -> (r: Span)
    ensures
        r == (Span { start: p, end: q }),
{
    Span { start: p, end: q }
}

/// The value of a sequence of decimal digits.
pub open spec fn digits_value(ds: Seq<char>) -> int
    decreases ds.len(),
{
    if ds.len() == 0 {
        0
    } else {
        digits_value(ds.drop_last()) * 10 + (ds.last() as int - '0' as int)
    }
}

/// Whether `ds` is one or more decimal digits.
pub open spec fn all_digits(ds: Seq<char>) -> bool {
    ds.len() > 0 && forall|i: int| 0 <= i < ds.len() ==> '0' <= #[trigger] ds[i] && ds[i] <= '9'
}

/// A text without its leading sign, if it has one.
pub open spec fn unsigned_part(s: Seq<char>) -> Seq<char> {
    if s.len() > 0 && (s[0] == '-' || s[0] == '+') {
        s.skip(1)
    } else {
        s
    }
}

/// The integer a text stands for in decimal, with an optional sign, when
/// it fits in an `i64`.
pub open spec fn parsed_i64(s: Seq<char>) -> Option<i64> {
    let neg = s.len() > 0 && s[0] == '-';
    let ds = unsigned_part(s);
    let v = if neg {
        -digits_value(ds)
    } else {
        digits_value(ds)
    };
    if all_digits(ds) && i64::MIN <= v && v <= i64::MAX {
        Some(v as i64)
    } else {
        None
    }
}

proof fn lemma_digits_value_grows(ds: Seq<char>, k: int)
    requires
        0 <= k <= ds.len(),
        forall|i: int| 0 <= i < ds.len() ==> '0' <= #[trigger] ds[i] && ds[i] <= '9',
    ensures
        digits_value(ds.take(k)) <= digits_value(ds),
        0 <= digits_value(ds.take(k)),
    decreases ds.len() - k,
{
    if k < ds.len() {
        lemma_digits_value_grows(ds, k + 1);
        assert(ds.take(k + 1).drop_last() =~= ds.take(k));
        assert(ds.take(k + 1).last() == ds[k]);
    } else {
        assert(ds.take(k) =~= ds);
    }
    lemma_digits_nonneg(ds.take(k));
}

proof fn lemma_digits_nonneg(ds: Seq<char>)
    requires
        forall|i: int| 0 <= i < ds.len() ==> '0' <= #[trigger] ds[i] && ds[i] <= '9',
    ensures
        0 <= digits_value(ds),
    decreases ds.len(),
{
    if ds.len() > 0 {
        let d = ds.drop_last();
        assert forall|i: int| 0 <= i < d.len() implies '0' <= #[trigger] d[i] && d[i] <= '9' by {
            assert(d[i] == ds[i]);
        }
        lemma_digits_nonneg(d);
        assert('0' <= ds[ds.len() - 1]);
    }
}

/// The integer `s` stands for in decimal, as `str::parse::<i64>` reads it.
pub fn parse_i64(s: &str) -> (r: Option<i64>)
    ensures
        r == parsed_i64(s@),
{
    let cs = chars_of(s);
    let neg = cs.len() > 0 && cs[0] == '-';
    let start: usize = if cs.len() > 0 && (cs[0] == '-' || cs[0] == '+') {
        1
    } else {
        0
    };
    let ghost ds = unsigned_part(s@);
    assert(ds =~= cs@.skip(start as int));
    if start >= cs.len() {
        assert(ds.len() == 0);
        assert(!all_digits(ds));
        return None;
    }
    let mut k: usize = start;
    while k < cs.len()
        invariant
            start <= k <= cs@.len(),
            ds == unsigned_part(s@),
            ds =~= cs@.skip(start as int),
            forall|i: int| start <= i < k ==> '0' <= #[trigger] cs@[i] && cs@[i] <= '9',
        decreases cs@.len() - k,
    {
        if !('0' <= cs[k] && cs[k] <= '9') {
            assert(ds[k - start] == cs@[k as int]);
            assert(!all_digits(ds));
            return None;
        }
        k = k + 1;
    }
    assert(forall|i: int| 0 <= i < ds.len() ==> '0' <= #[trigger] ds[i] && ds[i] <= '9') by {
        assert forall|i: int| 0 <= i < ds.len() implies '0' <= #[trigger] ds[i] && ds[i] <= '9' by {
            assert(ds[i] == cs@[start + i]);
        }
    }
    let limit: u64 = 0x8000_0000_0000_0000;
    let mut acc: u64 = 0;
    let mut i: usize = start;
    while i < cs.len()
        invariant
            start <= i <= cs@.len(),
            ds == unsigned_part(s@),
            neg == (s@.len() > 0 && s@[0] == '-'),
            ds =~= cs@.skip(start as int),
            forall|j: int| 0 <= j < ds.len() ==> '0' <= #[trigger] ds[j] && ds[j] <= '9',
            acc as int == digits_value(ds.take(i - start)),
            limit == 0x8000_0000_0000_0000u64,
            acc <= limit,
        decreases cs@.len() - i,
    {
        proof {
            assert(ds[i - start] == cs@[i as int]);
        }
        let d = (cs[i] as u32 - '0' as u32) as u64;
        assert(d <= 9);
        proof {
            assert(ds.take(i - start + 1).drop_last() =~= ds.take(i - start));
            assert(ds.take(i - start + 1).last() == cs@[i as int]);
        }
        if acc > (limit - d) / 10 {
            proof {
                lemma_digits_value_grows(ds, i - start + 1);
                assert(digits_value(ds.take(i - start + 1)) == acc * 10 + d) by (nonlinear_arith)
                    requires
                        digits_value(ds.take(i - start + 1)) == digits_value(ds.take(i - start)) * 10 + d,
                        acc as int == digits_value(ds.take(i - start)),
                ;
                assert(acc * 10 + d > limit) by (nonlinear_arith)
                    requires
                        acc > (limit - d) / 10,
                        d <= 9,
                ;
            }
            return None;
        }
        assert(acc * 10 + d <= limit) by (nonlinear_arith)
            requires
                acc <= (limit - d) / 10,
                d <= 9,
        ;
        acc = acc * 10 + d;
        i = i + 1;
    }
    assert(ds.take(cs@.len() - start) =~= ds);
    if neg {
        if acc == limit {
            Some(i64::MIN)
        } else {
            Some(-(acc as i64))
        }
    } else {
        if acc == limit {
            None
        } else {
            Some(acc as i64)
        }
    }
}

} // verus!
