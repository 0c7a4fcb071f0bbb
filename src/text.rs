//! The text form: lines, whitespace-separated tokens, and the numeric
//! tokens that fields are written with.
use crate::model::as_chars;
use vstd::prelude::*;
use vstd::slice::slice_subrange;

verus! {

/// The line feed that ends a line.
pub const NEWLINE: u8 = 10;

/// Whitespace between tokens: space, and tab through carriage return.
pub open spec fn is_space(b: u8) -> bool {
    b == 32 || (9 <= b && b <= 13)
}

/// The number of bytes before the first line feed (or the end).
pub open spec fn line_len(s: Seq<u8>) -> nat
    decreases s.len(),
{
    if s.len() == 0 || s[0] == NEWLINE {
        0
    } else {
        1 + line_len(s.drop_first())
    }
}

/// The lines of `s`, without their line feeds. A final line without a line
/// feed counts; nothing after a final line feed does.
pub open spec fn lines(s: Seq<u8>) -> Seq<Seq<u8>>
    decreases s.len(),
{
    if s.len() == 0 {
        seq![]
    } else {
        let n = line_len(s);
        if n < s.len() {
            seq![s.take(n as int)] + lines(s.skip((n + 1) as int))
        } else {
            seq![s]
        }
    }
}

/// The number of bytes before the first whitespace byte (or the end).
pub open spec fn word_len(s: Seq<u8>) -> nat
    decreases s.len(),
{
    if s.len() == 0 || is_space(s[0]) {
        0
    } else {
        1 + word_len(s.drop_first())
    }
}

/// The maximal runs of non-whitespace bytes of `s`, in order.
pub open spec fn tokens(s: Seq<u8>) -> Seq<Seq<u8>>
    decreases s.len(),
{
    if s.len() == 0 {
        seq![]
    } else if is_space(s[0]) {
        tokens(s.drop_first())
    } else {
        let n = word_len(s);
        if 0 < n <= s.len() {
            seq![s.take(n as int)] + tokens(s.skip(n as int))
        } else {
            seq![]
        }
    }
}

/// A line that a reader passes over: a comment, which starts with `#`, or
/// a line without tokens.
pub open spec fn is_skipped(l: Seq<u8>) -> bool {
    (l.len() > 0 && l[0] == 35) || tokens(l).len() == 0
}

/// The bytes of `s` that the spans `r` cover, one sequence per span.
pub open spec fn span_texts(s: Seq<u8>, r: Seq<(usize, usize)>) -> Seq<Seq<u8>> {
    r.map_values(|sp: (usize, usize)| s.subrange(sp.0 as int, sp.1 as int))
}

/// Spans `r` that lie inside `[0, bound)`, each in order.
pub open spec fn spans_within(r: Seq<(usize, usize)>, bound: int) -> bool {
    forall|k: int| 0 <= k < r.len() ==> #[trigger] r[k].0 <= r[k].1 <= bound
}

/// The spans `[start, end)` of the lines of `s`.
pub fn line_spans(s: &[u8]) -> (r: Vec<(usize, usize)>)
    ensures
        spans_within(r@, s@.len() as int),
        span_texts(s@, r@) == lines(s@),
{
    let n: usize = s.len();
    let mut r: Vec<(usize, usize)> = Vec::new();
    let mut p: usize = 0;
    proof {
        assert(s@.skip(0) =~= s@);
        assert(lines(s@) =~= span_texts(s@, r@) + lines(s@.skip(0)));
    }
    while p < n
        invariant
            n == s@.len(),
            p <= n,
            lines(s@) == span_texts(s@, r@) + lines(s@.skip(p as int)),
            spans_within(r@, p as int),
        decreases n - p,
    {
        let mut e: usize = p;
        while e < n && s[e] != NEWLINE
            invariant
                n == s@.len(),
                p <= e <= n,
                line_len(s@.skip(p as int)) == (e - p) + line_len(s@.skip(e as int)),
            decreases n - e,
        {
            proof {
                assert(s@.skip(e as int).drop_first() =~= s@.skip(e + 1));
            }
            e = e + 1;
        }
        proof {
            lemma_lines_step(s@, p as int, e as int);
            assert(span_texts(s@, r@.push((p, e))) =~= span_texts(s@, r@).push(
                s@.subrange(p as int, e as int),
            ));
        }
        r.push((p, e));
        if e < n {
            p = e + 1;
        } else {
            p = n;
            proof {
                assert(lines(s@.skip(n as int)) =~= seq![]) by {
                    assert(s@.skip(n as int).len() == 0);
                }
            }
        }
    }
    proof {
        assert(lines(s@.skip(n as int)) =~= seq![]) by {
            assert(s@.skip(n as int).len() == 0);
        }
        assert(lines(s@) =~= span_texts(s@, r@));
    }
    r
}

/// How the lines of `s` from `p` begin, when the first of them ends at `e`.
proof fn lemma_lines_step(s: Seq<u8>, p: int, e: int)
    requires
        0 <= p <= e <= s.len(),
        p < s.len(),
        line_len(s.skip(p)) == e - p,
        e == s.len() || s[e] == NEWLINE,
    ensures
        e < s.len() ==> lines(s.skip(p)) =~= seq![s.subrange(p, e)] + lines(s.skip(e + 1)),
        e == s.len() ==> lines(s.skip(p)) =~= seq![s.subrange(p, e)],
{
    let rest = s.skip(p);
    assert(rest.take(e - p) =~= s.subrange(p, e));
    if e < s.len() {
        assert(rest.skip(e - p + 1) =~= s.skip(e + 1));
    } else {
        assert(rest =~= s.subrange(p, e));
    }
}

/// The spans of the tokens of `s[start..end)`, in order.
pub fn token_spans(s: &[u8], start: usize, end: usize) -> (r: Vec<(usize, usize)>)
    requires
        start <= end <= s@.len(),
    ensures
        spans_within(r@, end as int),
        spans_within(r@, s@.len() as int),
        forall|k: int| 0 <= k < r@.len() ==> start <= #[trigger] r@[k].0,
        span_texts(s@, r@) == tokens(s@.subrange(start as int, end as int)),
{
    let mut r: Vec<(usize, usize)> = Vec::new();
    let mut i: usize = start;
    while i < end
        invariant
            start <= i <= end <= s@.len(),
            tokens(s@.subrange(start as int, end as int)) == span_texts(s@, r@) + tokens(
                s@.subrange(i as int, end as int),
            ),
            spans_within(r@, i as int),
            forall|k: int| 0 <= k < r@.len() ==> start <= #[trigger] r@[k].0,
        decreases end - i,
    {
        if is_space_byte(s[i]) {
            proof {
                assert(s@.subrange(i as int, end as int).drop_first() =~= s@.subrange(
                    i + 1,
                    end as int,
                ));
            }
            i = i + 1;
        } else {
            let mut j: usize = i;
            while j < end && !is_space_byte(s[j])
                invariant
                    start <= i <= j <= end <= s@.len(),
                    word_len(s@.subrange(i as int, end as int)) == (j - i) + word_len(
                        s@.subrange(j as int, end as int),
                    ),
                decreases end - j,
            {
                proof {
                    assert(s@.subrange(j as int, end as int).drop_first() =~= s@.subrange(
                        j + 1,
                        end as int,
                    ));
                }
                j = j + 1;
            }
            proof {
                let w = s@.subrange(i as int, end as int);
                assert(word_len(s@.subrange(j as int, end as int)) == 0);
                assert(w.take(j - i) =~= s@.subrange(i as int, j as int));
                assert(w.skip(j - i) =~= s@.subrange(j as int, end as int));
                assert(span_texts(s@, r@.push((i, j))) =~= span_texts(s@, r@).push(
                    s@.subrange(i as int, j as int),
                ));
            }
            r.push((i, j));
            i = j;
        }
    }
    proof {
        assert(tokens(s@.subrange(end as int, end as int)) =~= seq![]) by {
            assert(s@.subrange(end as int, end as int).len() == 0);
        }
        assert(tokens(s@.subrange(start as int, end as int)) =~= span_texts(s@, r@));
    }
    r
}

/// Whether `b` is whitespace between tokens.
pub fn is_space_byte(b: u8) -> (r: bool)
    ensures
        r == is_space(b),
{
    b == 32 || (9 <= b && b <= 13)
}

/// An ASCII decimal digit.
pub open spec fn is_digit(b: u8) -> bool {
    48 <= b && b <= 57
}

/// Bytes that are all decimal digits.
pub open spec fn all_digits(t: Seq<u8>) -> bool {
    forall|i: int| 0 <= i < t.len() ==> is_digit(#[trigger] t[i])
}

/// The value of a run of decimal digits, most significant first.
pub open spec fn digits_value(t: Seq<u8>) -> nat
    decreases t.len(),
{
    if t.len() == 0 {
        0
    } else {
        digits_value(t.drop_last()) * 10 + (t.last() - 48) as nat
    }
}

/// A token that starts with `+` or `-`.
pub open spec fn has_sign(t: Seq<u8>) -> bool {
    t.len() > 0 && (t[0] == 43 || t[0] == 45)
}

/// A token without its leading sign, if it has one.
pub open spec fn unsigned_part(t: Seq<u8>) -> Seq<u8> {
    if has_sign(t) {
        t.drop_first()
    } else {
        t
    }
}

/// What an integer token writes: whether it is negative, and its magnitude.
/// The token is an optional `+` or `-` and one or more decimal digits.
pub open spec fn numeral(t: Seq<u8>) -> Option<(bool, nat)> {
    let d = unsigned_part(t);
    if d.len() > 0 && all_digits(d) {
        Some((t[0] == 45, digits_value(d)))
    } else {
        None
    }
}

/// The signed value of a numeral.
pub open spec fn signed_value(n: (bool, nat)) -> int {
    if n.0 {
        -(n.1 as int)
    } else {
        n.1 as int
    }
}

/// The `i32` that a token writes, if it writes one.
pub open spec fn i32_token(t: Seq<u8>) -> Option<i32> {
    match numeral(t) {
        Some(n) => if i32::MIN <= signed_value(n) <= i32::MAX {
            Some(signed_value(n) as i32)
        } else {
            None
        },
        None => None,
    }
}

/// The `i64` that a token writes, if it writes one.
pub open spec fn i64_token(t: Seq<u8>) -> Option<i64> {
    match numeral(t) {
        Some(n) => if i64::MIN <= signed_value(n) <= i64::MAX {
            Some(signed_value(n) as i64)
        } else {
            None
        },
        None => None,
    }
}

/// The `u64` that a token writes, if it writes one: unsigned fields take
/// no `-` sign, not even on zero.
pub open spec fn u64_token(t: Seq<u8>) -> Option<u64> {
    match numeral(t) {
        Some((neg, v)) => if !neg && v <= u64::MAX {
            Some(v as u64)
        } else {
            None
        },
        None => None,
    }
}

/// The `u8` that a token writes, if it writes one.
pub open spec fn u8_token(t: Seq<u8>) -> Option<u8> {
    match numeral(t) {
        Some((neg, v)) => if !neg && v <= u8::MAX {
            Some(v as u8)
        } else {
            None
        },
        None => None,
    }
}

proof fn lemma_digits_value_prefix(t: Seq<u8>, k: int)
    requires
        0 <= k <= t.len(),
        all_digits(t),
    ensures
        digits_value(t.take(k)) <= digits_value(t),
    decreases t.len(),
{
    if k < t.len() {
        let d = t.drop_last();
        assert(d.take(k) =~= t.take(k));
        lemma_digits_value_prefix(d, k);
    } else {
        assert(t.take(k) =~= t);
    }
}

/// Reads an integer token: its sign and its magnitude, where the magnitude
/// fits in a `u64`.
pub fn parse(tok: &[u8]) -> (r: Option<(bool, u64)>)
    ensures
        match numeral(tok@) {
            Some((neg, v)) => if v <= u64::MAX {
                r == Some((neg, v as u64))
            } else {
                r is None
            },
            None => r is None,
        },
{
    let n: usize = tok.len();
    if n == 0 {
        return None;
    }
    let neg: bool = tok[0] == 45;
    let off: usize = if tok[0] == 43 || tok[0] == 45 {
        1
    } else {
        0
    };
    let ghost d = unsigned_part(tok@);
    proof {
        assert(d =~= tok@.subrange(off as int, n as int));
    }
    if off == n {
        return None;
    }
    let mut acc: u64 = 0;
    let mut i: usize = off;
    while i < n
        invariant
            n == tok@.len(),
            off <= i <= n,
            d == tok@.subrange(off as int, n as int),
            d == unsigned_part(tok@),
            neg == (tok@[0] == 45),
            acc as nat == digits_value(d.take(i - off)),
            all_digits(d.take(i - off)),
        decreases n - i,
    {
        let b: u8 = tok[i];
        proof {
            assert(d.take(i - off + 1).drop_last() =~= d.take(i - off));
            assert(d.take(i - off + 1).last() == b);
        }
        if b < 48 || b > 57 {
            proof {
                assert(!is_digit(d[i - off]));
                assert(!all_digits(d));
                assert(numeral(tok@) is None);
            }
            return None;
        }
        let digit: u64 = (b - 48) as u64;
        if acc > (u64::MAX - digit) / 10 {
            proof {
                assert(acc * 10 + digit > u64::MAX) by (nonlinear_arith)
                    requires
                        acc > (u64::MAX - digit) / 10,
                        digit <= 9,
                ;
                if all_digits(d) {
                    lemma_digits_value_prefix(d, i - off + 1);
                    assert(digits_value(d.take(i - off + 1)) == acc * 10 + digit);
                    assert(digits_value(d) > u64::MAX);
                    assert(numeral(tok@) == Some((tok@[0] == 45, digits_value(d))));
                } else {
                    assert(numeral(tok@) is None);
                }
            }
            return None;
        }
        acc = acc * 10 + digit;
        i = i + 1;
    }
    proof {
        assert(d.take(n - off) =~= d);
    }
    Some((neg, acc))
}

/// Reads an `i32` token.
pub fn parse_i32(tok: &[u8]) -> (r: Option<i32>)
    ensures
        r == i32_token(tok@),
{
    match parse(tok) {
        None => None,
        Some((neg, m)) => {
            if neg {
                if m <= 2147483648 {
                    Some((0 - (m as i64)) as i32)
                } else {
                    None
                }
            } else if m <= 2147483647 {
                Some(m as i32)
            } else {
                None
            }
        },
    }
}

/// Reads an `i64` token.
pub fn parse_i64(tok: &[u8]) -> (r: Option<i64>)
    ensures
        r == i64_token(tok@),
{
    match parse(tok) {
        None => None,
        Some((neg, m)) => {
            if neg {
                if m == 9223372036854775808 {
                    Some(i64::MIN)
                } else if m < 9223372036854775808 {
                    Some(0 - (m as i64))
                } else {
                    None
                }
            } else if m <= 9223372036854775807 {
                Some(m as i64)
            } else {
                None
            }
        },
    }
}

/// Reads a `u64` token.
pub fn parse_u64(tok: &[u8]) -> (r: Option<u64>)
    ensures
        r == u64_token(tok@),
{
    match parse(tok) {
        Some((false, m)) => Some(m),
        _ => None,
    }
}

/// Reads a `u8` token.
pub fn parse_u8(tok: &[u8]) -> (r: Option<u8>)
    ensures
        r == u8_token(tok@),
{
    match parse(tok) {
        Some((false, m)) => {
            if m <= 255 {
                Some(m as u8)
            } else {
                None
            }
        },
        _ => None,
    }
}

/// The number of decimal digits in a row from index `i` of `t`.
pub open spec fn digit_run(t: Seq<u8>, i: int) -> nat
    decreases t.len() - i,
{
    if 0 <= i < t.len() && is_digit(t[i]) {
        1 + digit_run(t, i + 1)
    } else {
        0
    }
}

/// Whether `t` from index `p` on is either nothing or an exponent: `e` or
/// `E`, an optional sign, and one or more digits.
pub open spec fn exponent_from(t: Seq<u8>, p: int) -> bool {
    p == t.len() || (0 <= p < t.len() && (t[p] == 101 || t[p] == 69) && {
        let q = if p + 1 < t.len() && (t[p + 1] == 43 || t[p + 1] == 45) {
            p + 2
        } else {
            p + 1
        };
        digit_run(t, q) > 0 && q + digit_run(t, q) == t.len()
    })
}

/// Whether `u` is a decimal number: digits with an optional point, with at
/// least one digit before or after it, then an optional exponent.
pub open spec fn decimal_number(u: Seq<u8>) -> bool {
    let a = digit_run(u, 0);
    if a < u.len() && u[a as int] == 46 {
        let f = digit_run(u, (a + 1) as int);
        a + f > 0 && exponent_from(u, (a + 1 + f) as int)
    } else {
        a > 0 && exponent_from(u, a as int)
    }
}

/// An ASCII letter in lower case; other bytes unchanged.
pub open spec fn ascii_lower(b: u8) -> u8 {
    if 65 <= b && b <= 90 {
        (b + 32) as u8
    } else {
        b
    }
}

/// Whether `u` spells `inf`, `infinity` or `nan`, in any mix of cases.
pub open spec fn special_value(u: Seq<u8>) -> bool {
    let l = as_chars(u.map_values(|b: u8| ascii_lower(b)));
    l == "inf"@ || l == "infinity"@ || l == "nan"@
}

/// Whether a token is a float literal of Rust's grammar for `f64` and
/// `f32`: an optional sign, then a decimal number or a special value.
pub open spec fn float_literal(t: Seq<u8>) -> bool {
    special_value(unsigned_part(t)) || decimal_number(unsigned_part(t))
}

/// The digits in a row from `i`.
fn count_digits(t: &[u8], i: usize) -> (r: usize)
    requires
        i <= t@.len(),
    ensures
        r == digit_run(t@, i as int),
        i + r <= t@.len(),
{
    let mut j: usize = i;
    while j < t.len() && 48 <= t[j] && t[j] <= 57
        invariant
            i <= j <= t@.len(),
            digit_run(t@, i as int) == (j - i) + digit_run(t@, j as int),
        decreases t@.len() - j,
    {
        j = j + 1;
    }
    j - i
}

/// Whether `t` from `p` on is nothing or an exponent.
fn is_exponent_from(t: &[u8], p: usize) -> (r: bool)
    requires
        p <= t@.len(),
    ensures
        r == exponent_from(t@, p as int),
{
    let n: usize = t.len();
    if p == n {
        return true;
    }
    if t[p] != 101 && t[p] != 69 {
        return false;
    }
    let q: usize = if p + 1 < n && (t[p + 1] == 43 || t[p + 1] == 45) {
        p + 2
    } else {
        p + 1
    };
    let k: usize = count_digits(t, q);
    k > 0 && q + k == n
}

/// Whether the bytes `u`, in lower case, spell `name`.
fn spells_folded(u: &[u8], name: &str) -> (r: bool)
    ensures
        r == (as_chars(u@.map_values(|b: u8| ascii_lower(b))) == name@),
{
    let ghost l = as_chars(u@.map_values(|b: u8| ascii_lower(b)));
    let n: usize = name.unicode_len();
    if u.len() != n {
        proof {
            assert(l.len() != name@.len());
        }
        return false;
    }
    let mut i: usize = 0;
    while i < n
        invariant
            n == name@.len(),
            u@.len() == n,
            i <= n,
            l == as_chars(u@.map_values(|b: u8| ascii_lower(b))),
            forall|k: int| 0 <= k < i ==> l[k] == name@[k],
        decreases n - i,
    {
        let b: u8 = u[i];
        let lower: u8 = if 65 <= b && b <= 90 {
            b + 32
        } else {
            b
        };
        if lower as char != name.get_char(i) {
            proof {
                assert(l[i as int] != name@[i as int]);
            }
            return false;
        }
        i = i + 1;
    }
    proof {
        assert(l =~= name@);
    }
    true
}

/// Whether a token is a float literal that Rust's float parsers accept.
pub fn is_float_literal(t: &[u8]) -> (r: bool)
    ensures
        r == float_literal(t@),
{
    let n: usize = t.len();
    let off: usize = if n > 0 && (t[0] == 43 || t[0] == 45) {
        1
    } else {
        0
    };
    let u = slice_subrange(t, off, n);
    proof {
        assert(u@ =~= unsigned_part(t@));
    }
    if spells_folded(u, "inf") || spells_folded(u, "infinity") || spells_folded(u, "nan") {
        return true;
    }
    let a: usize = count_digits(u, 0);
    if a < u.len() && u[a] == 46 {
        let f: usize = count_digits(u, a + 1);
        a + f > 0 && is_exponent_from(u, a + 1 + f)
    } else {
        a > 0 && is_exponent_from(u, a)
    }
}

} // verus!
