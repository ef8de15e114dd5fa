//! Conversions between strings and character sequences.

use vstd::prelude::*;
use vstd::std_specs::iter::IteratorSpec;

verus! {

broadcast use vstd::string::group_string_axioms;

/// The characters of `s`, in order.
pub fn chars_of(s: &str) -> (v: Vec<char>)
    ensures
        v@ == s@,
{
    let mut v: Vec<char> = Vec::new();
    for c in it: s.chars()
        invariant
            it.seq() == s@,
            v@ == it.seq().take(it.index() as int),
    {
        v.push(c);
        assert(v@ == it.seq().take(it.index() + 1));
    }
    assert(v@ == s@.take(s@.len() as int));
    v
}

/// Builds a `String` from a sequence of characters, through std's
/// `FromIterator<&char> for String`, which appends the characters in order.
#[verifier::external_body]
pub(crate) fn string_from_chars(v: &Vec<char>) -> (s: String)
    ensures
        s@ == v@,
{
    v.iter().collect()
}


/// `out` followed by the characters of `s`.
pub fn push_str(out: &mut Vec<char>, s: &str)
    ensures
        final(out)@ == old(out)@ + s@,
{
    let mut v = chars_of(s);
    out.append(&mut v);
}

/// The character of a decimal digit.
pub open spec fn digit_char(d: nat) -> char {
    if d == 0 {
        '0'
    } else if d == 1 {
        '1'
    } else if d == 2 {
        '2'
    } else if d == 3 {
        '3'
    } else if d == 4 {
        '4'
    } else if d == 5 {
        '5'
    } else if d == 6 {
        '6'
    } else if d == 7 {
        '7'
    } else if d == 8 {
        '8'
    } else {
        '9'
    }
}

/// The decimal digits of `n`, most significant first, without leading zeros.
pub open spec fn decimal(n: nat) -> Seq<char>
    decreases n,
{
    if n < 10 {
        seq![digit_char(n)]
    } else {
        decimal(n / 10).push(digit_char(n % 10))
    }
}

/// The decimal form of a number is one or more digits.
pub proof fn lemma_decimal_digits(n: nat)
    ensures
        decimal(n).len() >= 1,
        forall|i: int| 0 <= i < decimal(n).len() ==> '0' <= #[trigger] decimal(n)[i] <= '9',
        n >= 10 ==> decimal(n).len() >= 2,
    decreases n,
{
    if n >= 10 {
        lemma_decimal_digits(n / 10);
        let d = decimal(n / 10);
        assert forall|i: int| 0 <= i < decimal(n).len() implies '0' <= #[trigger] decimal(n)[i] <= '9' by {
            if i < d.len() {
                assert(decimal(n)[i] == d[i]);
            }
        }
    }
}

/// Different numbers have different decimal forms.
pub proof fn lemma_decimal_injective(a: nat, b: nat)
    requires
        decimal(a) == decimal(b),
    ensures
        a == b,
    decreases a + b,
{
    lemma_decimal_digits(a);
    lemma_decimal_digits(b);
    if a >= 10 && b >= 10 {
        assert(decimal(a).drop_last() =~= decimal(a / 10));
        assert(decimal(b).drop_last() =~= decimal(b / 10));
        assert(decimal(a).last() == digit_char(a % 10));
        assert(decimal(b).last() == digit_char(b % 10));
        let x = a % 10;
        let y = b % 10;
        assert(x == y) by {
            assert(x < 10 && y < 10);
            assert(digit_char(x) == digit_char(y));
        }
        lemma_decimal_injective(a / 10, b / 10);
        assert(a == 10 * (a / 10) + a % 10);
        assert(b == 10 * (b / 10) + b % 10);
    } else if a < 10 && b < 10 {
        assert(decimal(a)[0] == digit_char(a));
        assert(decimal(b)[0] == digit_char(b));
        assert(decimal(a)[0] == decimal(b)[0]);
    } else if a < 10 {
        assert(decimal(a).len() == 1);
    } else {
        assert(decimal(b).len() == 1);
    }
}

/// The decimal form of `n`, with a leading `-` for negative numbers.
pub open spec fn signed_decimal(n: int) -> Seq<char> {
    if n < 0 {
        seq!['-'] + decimal((-n) as nat)
    } else {
        decimal(n as nat)
    }
}

fn digit_char_exec(d: u64) -> (c: char)
    requires
        d < 10,
    ensures
        c == digit_char(d as nat),
{
    if d == 0 {
        '0'
    } else if d == 1 {
        '1'
    } else if d == 2 {
        '2'
    } else if d == 3 {
        '3'
    } else if d == 4 {
        '4'
    } else if d == 5 {
        '5'
    } else if d == 6 {
        '6'
    } else if d == 7 {
        '7'
    } else if d == 8 {
        '8'
    } else {
        '9'
    }
}

/// `out` followed by the decimal digits of `n`.
pub fn push_decimal(out: &mut Vec<char>, n: u64)
    ensures
        final(out)@ == old(out)@ + decimal(n as nat),
    decreases n,
{
    if n < 10 {
        out.push(digit_char_exec(n));
        assert(out@ =~= old(out)@ + decimal(n as nat));
    } else {
        push_decimal(out, n / 10);
        out.push(digit_char_exec(n % 10));
        assert(out@ =~= old(out)@ + decimal(n as nat));
    }
}

/// `out` followed by the decimal form of `n`.
pub fn push_signed_decimal(out: &mut Vec<char>, n: i64)
    ensures
        final(out)@ == old(out)@ + signed_decimal(n as int),
{
    if n < 0 {
        out.push('-');
        let m: u64 = ((-(n + 1)) as u64) + 1;
        push_decimal(out, m);
        assert(out@ =~= old(out)@ + signed_decimal(n as int));
    } else {
        push_decimal(out, n as u64);
    }
}

/// What std's `Debug` formatting of a string gives: the text in double
/// quotes, with special characters escaped.
pub uninterp spec fn str_debug(s: Seq<char>) -> Seq<char>;

/// The text of `s` as std's `<str as Debug>::fmt` writes it.
#[verifier::external_body]
pub(crate) fn debug_str(s: &str) -> (r: String)
    ensures
        r@ == str_debug(s@),
{
    format!("{:?}", s)
}

/// `out` followed by the characters of `s` from `start` up to `end`.
pub fn push_range(out: &mut Vec<char>, s: &Vec<char>, start: usize, end: usize)
    requires
        start <= end <= s.len(),
    ensures
        final(out)@ == old(out)@ + s@.subrange(start as int, end as int),
{
    let mut p: usize = start;
    while p < end
        invariant
            start <= p <= end <= s.len(),
            out@ == old(out)@ + s@.subrange(start as int, p as int),
        decreases end - p,
    {
        out.push(s[p]);
        assert(s@.subrange(start as int, p + 1) =~= s@.subrange(start as int, p as int).push(s@[p as int]));
        p = p + 1;
    }
}

/// The position of the first line feed in `s`, or -1 when there is none.
pub open spec fn newline_index(s: Seq<char>) -> int
    decreases s.len(),
{
    if s.len() == 0 {
        -1
    } else if s[0] == '\n' {
        0
    } else {
        let k = newline_index(s.drop_first());
        if k < 0 {
            -1
        } else {
            k + 1
        }
    }
}

pub proof fn lemma_newline_index_bound(s: Seq<char>)
    ensures
        -1 <= newline_index(s) < s.len(),
        newline_index(s) >= 0 ==> s[newline_index(s)] == '\n',
    decreases s.len(),
{
    if s.len() > 0 && s[0] != '\n' {
        lemma_newline_index_bound(s.drop_first());
    }
}

proof fn lemma_newline_index_at(t: Seq<char>, m: int)
    requires
        0 <= m <= t.len(),
        forall|k: int| 0 <= k < m ==> t[k] != '\n',
        m == t.len() || t[m] == '\n',
    ensures
        newline_index(t) == if m < t.len() {
            m
        } else {
            -1
        },
    decreases t.len(),
{
    if t.len() > 0 && m > 0 {
        lemma_newline_index_at(t.drop_first(), m - 1);
    }
}

/// A line without the carriage return that ended it.
pub open spec fn strip_cr(l: Seq<char>) -> Seq<char> {
    if l.len() > 0 && l.last() == '\r' {
        l.drop_last()
    } else {
        l
    }
}

/// Each line of `s` indented by four spaces and ended by a line feed. Lines
/// end at a line feed, or at a carriage return and a line feed; the last line
/// need not be ended, and an empty text has no lines.
pub open spec fn indented_lines(s: Seq<char>) -> Seq<char>
    decreases s.len(),
{
    if s.len() == 0 {
        Seq::empty()
    } else {
        let k = newline_index(s);
        if k < 0 {
            "    "@ + s + "\n"@
        } else {
            proof {
                lemma_newline_index_bound(s);
            }
            "    "@ + strip_cr(s.take(k)) + "\n"@ + indented_lines(s.skip(k + 1))
        }
    }
}

/// `out` followed by each line of `s` indented by four spaces.
pub fn push_indented_lines(out: &mut Vec<char>, s: &Vec<char>)
    ensures
        final(out)@ == old(out)@ + indented_lines(s@),
{
    let ghost start = out@;
    let mut i: usize = 0;
    assert(s@.skip(0) =~= s@);
    while i < s.len()
        invariant
            i <= s.len(),
            start + indented_lines(s@) == out@ + indented_lines(s@.skip(i as int)),
        decreases s.len() - i,
    {
        let mut j: usize = i;
        while j < s.len() && s[j] != '\n'
            invariant
                i <= j <= s.len(),
                forall|k: int| i <= k < j ==> s@[k] != '\n',
            decreases s.len() - j,
        {
            j = j + 1;
        }
        let ghost t = s@.skip(i as int);
        let ghost m = j - i;
        proof {
            assert forall|k: int| 0 <= k < m implies t[k] != '\n' by {
                assert(t[k] == s@[i + k]);
            }
            lemma_newline_index_at(t, m);
        }
        let ghost before = out@;
        push_str(out, "    ");
        if j < s.len() {
            let end: usize = if j > i && s[j - 1] == '\r' {
                j - 1
            } else {
                j
            };
            push_range(out, s, i, end);
            push_str(out, "\n");
            proof {
                assert(t.take(m) =~= s@.subrange(i as int, j as int));
                assert(strip_cr(t.take(m)) =~= s@.subrange(i as int, end as int));
                assert(t.skip(m + 1) =~= s@.skip(j + 1));
                assert(out@ =~= before + ("    "@ + strip_cr(t.take(m)) + "\n"@));
            }
            i = j + 1;
        } else {
            push_range(out, s, i, j);
            push_str(out, "\n");
            proof {
                assert(t =~= s@.subrange(i as int, j as int));
                assert(s@.skip(j as int) =~= Seq::<char>::empty());
                assert(out@ =~= before + ("    "@ + t + "\n"@));
            }
            i = j;
        }
    }
    assert(s@.skip(s@.len() as int) =~= Seq::<char>::empty());
}

/// Whether two strings hold the same characters.
pub fn str_eq(a: &str, b: &str) -> (r: bool)
    ensures
        r == (a@ == b@),
{
    let n = a.unicode_len();
    if n != b.unicode_len() {
        return false;
    }
    let mut k: usize = 0;
    while k < n
        invariant
            n == a@.len(),
            n == b@.len(),
            k <= n,
            forall|m: int| 0 <= m < k ==> a@[m] == b@[m],
        decreases n - k,
    {
        if a.get_char(k) != b.get_char(k) {
            return false;
        }
        k = k + 1;
    }
    assert(a@ =~= b@);
    true
}
} // verus!
