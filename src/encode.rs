//! How the two forms are written: integers as decimal tokens, tokens joined
//! by spaces, lines joined by line feeds, and little-endian fields. The
//! lemmas here say that the readers' primitives take each of these back.
use crate::bytes::{i32_at, i64_at, le_value, u64_at};
use crate::fields::{field_ok, first_bad, Field};
use crate::text::{
    all_digits, digits_value, has_sign, i32_token, i64_token, is_space, line_len, lines,
    numeral, tokens, u64_token, u8_token, unsigned_part, word_len, NEWLINE,
};
use vstd::prelude::*;

verus! {

/// The decimal digits of `v`, most significant first, without leading
/// zeros.
pub open spec fn digits_of(v: nat) -> Seq<u8>
    decreases v,
{
    if v < 10 {
        seq![(48 + v) as u8]
    } else {
        digits_of(v / 10) + seq![(48 + v % 10) as u8]
    }
}

/// The decimal token of `v`: a `-` before the digits of a negative value.
pub open spec fn int_text(v: int) -> Seq<u8> {
    if v < 0 {
        seq![45u8] + digits_of((-v) as nat)
    } else {
        digits_of(v as nat)
    }
}

/// A token: one or more bytes, none of them whitespace.
pub open spec fn is_word(t: Seq<u8>) -> bool {
    t.len() > 0 && forall|i: int| 0 <= i < t.len() ==> !is_space(#[trigger] t[i])
}

/// Tokens joined by single spaces.
pub open spec fn join_words(ws: Seq<Seq<u8>>) -> Seq<u8>
    decreases ws.len(),
{
    if ws.len() == 0 {
        seq![]
    } else if ws.len() == 1 {
        ws[0]
    } else {
        ws[0] + seq![32u8] + join_words(ws.drop_first())
    }
}

/// Lines, each ended by a line feed.
pub open spec fn join_lines(ls: Seq<Seq<u8>>) -> Seq<u8>
    decreases ls.len(),
{
    if ls.len() == 0 {
        seq![]
    } else {
        ls[0] + seq![NEWLINE] + join_lines(ls.drop_first())
    }
}

/// Bytes without a line feed.
pub open spec fn no_newline(l: Seq<u8>) -> bool {
    forall|i: int| 0 <= i < l.len() ==> #[trigger] l[i] != NEWLINE
}

/// `256` to the power `n`.
pub open spec fn pow256(n: nat) -> nat
    decreases n,
{
    if n == 0 {
        1
    } else {
        256 * pow256((n - 1) as nat)
    }
}

/// The `n` bytes of `v`, least significant first.
pub open spec fn le_bytes(v: nat, n: nat) -> Seq<u8>
    decreases n,
{
    if n == 0 {
        seq![]
    } else {
        seq![(v % 256) as u8] + le_bytes(v / 256, (n - 1) as nat)
    }
}

/// The four bytes of an `i32`.
pub open spec fn le_i32(v: i32) -> Seq<u8> {
    le_bytes((v as u32) as nat, 4)
}

/// The eight bytes of a `u64`.
pub open spec fn le_u64(v: u64) -> Seq<u8> {
    le_bytes(v as nat, 8)
}

/// The eight bytes of an `i64`.
pub open spec fn le_i64(v: i64) -> Seq<u8> {
    le_bytes((v as u64) as nat, 8)
}

/// Values of eight bytes each, one after the other.
pub open spec fn flat64(xs: Seq<u64>) -> Seq<u8>
    decreases xs.len(),
{
    if xs.len() == 0 {
        seq![]
    } else {
        le_u64(xs[0]) + flat64(xs.drop_first())
    }
}

pub proof fn lemma_digits_of(v: nat)
    ensures
        digits_of(v).len() > 0,
        all_digits(digits_of(v)),
        digits_value(digits_of(v)) == v,
    decreases v,
{
    if v < 10 {
        let d = digits_of(v);
        assert(d.drop_last() =~= Seq::<u8>::empty());
        assert(digits_value(d) == digits_value(d.drop_last()) * 10 + (d.last() - 48) as nat);
    } else {
        lemma_digits_of(v / 10);
        let d = digits_of(v);
        assert(d.drop_last() =~= digits_of(v / 10));
        assert(v == (v / 10) * 10 + v % 10) by (nonlinear_arith);
        assert(d.last() == (48 + v % 10) as u8);
        assert(digits_value(d) == digits_value(d.drop_last()) * 10 + (d.last() - 48) as nat);
        assert(all_digits(d)) by {
            assert forall|i: int| 0 <= i < d.len() implies crate::text::is_digit(#[trigger] d[i]) by {
                if i < d.len() - 1 {
                    assert(d[i] == digits_of(v / 10)[i]);
                }
            }
        }
    }
}

/// A decimal token reads back as its value.
pub proof fn lemma_int_text(v: int)
    ensures
        numeral(int_text(v)) == Some((v < 0, if v < 0 { (-v) as nat } else { v as nat })),
        is_word(int_text(v)),
        int_text(v)[0] != 35,
{
    let t = int_text(v);
    if v < 0 {
        let d = digits_of((-v) as nat);
        lemma_digits_of((-v) as nat);
        assert(t.drop_first() =~= d);
        assert(has_sign(t));
        assert(unsigned_part(t) == d);
        assert forall|i: int| 0 <= i < t.len() implies !is_space(#[trigger] t[i]) by {
            if i > 0 {
                assert(t[i] == d[i - 1]);
            }
        }
    } else {
        lemma_digits_of(v as nat);
        assert(crate::text::is_digit(t[0]));
        assert(!has_sign(t));
        assert forall|i: int| 0 <= i < t.len() implies !is_space(#[trigger] t[i]) by {
            assert(crate::text::is_digit(t[i]));
        }
    }
}

pub proof fn lemma_i32_text(v: i32)
    ensures
        i32_token(int_text(v as int)) == Some(v),
        is_word(int_text(v as int)),
        int_text(v as int)[0] != 35,
{
    lemma_int_text(v as int);
}

pub proof fn lemma_i64_text(v: i64)
    ensures
        i64_token(int_text(v as int)) == Some(v),
        is_word(int_text(v as int)),
        int_text(v as int)[0] != 35,
{
    lemma_int_text(v as int);
}

pub proof fn lemma_u64_text(v: u64)
    ensures
        u64_token(int_text(v as int)) == Some(v),
        is_word(int_text(v as int)),
        int_text(v as int)[0] != 35,
{
    lemma_int_text(v as int);
}

pub proof fn lemma_u8_text(v: u8)
    ensures
        u8_token(int_text(v as int)) == Some(v),
        is_word(int_text(v as int)),
{
    lemma_int_text(v as int);
}

proof fn lemma_word_len_of_word(w: Seq<u8>, x: Seq<u8>)
    requires
        forall|i: int| 0 <= i < w.len() ==> !is_space(#[trigger] w[i]),
        x.len() == 0 || is_space(x[0]),
    ensures
        word_len(w + x) == w.len(),
    decreases w.len(),
{
    if w.len() > 0 {
        assert((w + x).drop_first() =~= w.drop_first() + x);
        assert forall|i: int| 0 <= i < w.drop_first().len() implies !is_space(
            #[trigger] w.drop_first()[i],
        ) by {
            assert(w.drop_first()[i] == w[i + 1]);
        }
        lemma_word_len_of_word(w.drop_first(), x);
    } else {
        assert(w + x =~= x);
    }
}

/// Tokens joined by spaces split back into the same tokens.
pub proof fn lemma_tokens_of_join(ws: Seq<Seq<u8>>)
    requires
        forall|k: int| 0 <= k < ws.len() ==> is_word(#[trigger] ws[k]),
    ensures
        tokens(join_words(ws)) == ws,
    decreases ws.len(),
{
    if ws.len() == 0 {
        assert(tokens(join_words(ws)) =~= ws);
    } else {
        let w = ws[0];
        assert(is_word(w));
        if ws.len() == 1 {
            lemma_word_len_of_word(w, seq![]);
            assert(w + seq![] =~= w);
            assert(w.take(w.len() as int) =~= w);
            assert(w.skip(w.len() as int) =~= seq![]);
            assert(tokens(seq![]) =~= Seq::<Seq<u8>>::empty());
            assert(tokens(w) =~= ws);
        } else {
            let rest = ws.drop_first();
            assert forall|k: int| 0 <= k < rest.len() implies is_word(#[trigger] rest[k]) by {
                assert(rest[k] == ws[k + 1]);
            }
            lemma_tokens_of_join(rest);
            let t = w + seq![32u8] + join_words(rest);
            let x = seq![32u8] + join_words(rest);
            assert(t =~= w + x);
            lemma_word_len_of_word(w, x);
            assert(t.take(w.len() as int) =~= w);
            assert(t.skip(w.len() as int) =~= x);
            assert(x.drop_first() =~= join_words(rest));
            assert(t[0] == w[0]);
            assert(!is_space(t[0]));
            assert(tokens(x) == tokens(join_words(rest)));
            assert(tokens(t) == seq![w] + tokens(x));
            assert(tokens(t) =~= ws);
        }
    }
}

/// Tokens joined by spaces hold no line feed.
pub proof fn lemma_join_no_newline(ws: Seq<Seq<u8>>)
    requires
        forall|k: int| 0 <= k < ws.len() ==> is_word(#[trigger] ws[k]),
    ensures
        no_newline(join_words(ws)),
    decreases ws.len(),
{
    if ws.len() >= 1 {
        assert(is_word(ws[0]));
        assert(no_newline(ws[0])) by {
            assert forall|i: int| 0 <= i < ws[0].len() implies #[trigger] ws[0][i] != NEWLINE by {
                assert(!is_space(ws[0][i]));
            }
        }
        if ws.len() >= 2 {
            let rest = ws.drop_first();
            assert forall|k: int| 0 <= k < rest.len() implies is_word(#[trigger] rest[k]) by {
                assert(rest[k] == ws[k + 1]);
            }
            lemma_join_no_newline(rest);
            let t = ws[0] + seq![32u8] + join_words(rest);
            assert forall|i: int| 0 <= i < t.len() implies #[trigger] t[i] != NEWLINE by {
                if i < ws[0].len() {
                } else if i > ws[0].len() {
                    assert(t[i] == join_words(rest)[i - ws[0].len() - 1]);
                }
            }
        }
    }
}

/// The first byte of tokens joined by spaces is the first byte of the
/// first token.
pub proof fn lemma_join_first(ws: Seq<Seq<u8>>)
    requires
        ws.len() > 0,
        ws[0].len() > 0,
    ensures
        join_words(ws).len() > 0,
        join_words(ws)[0] == ws[0][0],
{
}

pub proof fn lemma_line_len_before_newline(c: Seq<u8>, s: Seq<u8>)
    requires
        no_newline(c),
    ensures
        line_len(c + seq![NEWLINE] + s) == c.len(),
    decreases c.len(),
{
    if c.len() > 0 {
        assert((c + seq![NEWLINE] + s).drop_first() =~= c.drop_first() + seq![NEWLINE] + s);
        assert forall|i: int| 0 <= i < c.drop_first().len() implies #[trigger] c.drop_first()[i]
            != NEWLINE by {
            assert(c.drop_first()[i] == c[i + 1]);
        }
        lemma_line_len_before_newline(c.drop_first(), s);
    }
}

/// Lines joined by line feeds split back into the same lines.
pub proof fn lemma_lines_of_join(ls: Seq<Seq<u8>>)
    requires
        forall|k: int| 0 <= k < ls.len() ==> no_newline(#[trigger] ls[k]),
    ensures
        lines(join_lines(ls)) == ls,
    decreases ls.len(),
{
    if ls.len() == 0 {
        assert(lines(join_lines(ls)) =~= ls);
    } else {
        let c = ls[0];
        let rest = ls.drop_first();
        assert(no_newline(c));
        assert forall|k: int| 0 <= k < rest.len() implies no_newline(#[trigger] rest[k]) by {
            assert(rest[k] == ls[k + 1]);
        }
        lemma_lines_of_join(rest);
        let t = c + seq![NEWLINE] + join_lines(rest);
        lemma_line_len_before_newline(c, join_lines(rest));
        assert(t.take(c.len() as int) =~= c);
        assert(t.skip((c.len() + 1) as int) =~= join_lines(rest));
        assert(lines(t) =~= ls);
    }
}

/// When every token converts to its field, `first_bad` finds nothing.
pub proof fn lemma_first_bad_all_ok(t: Seq<Seq<u8>>, fs: Seq<Field>, i: int)
    requires
        0 <= i <= fs.len(),
        fs.len() <= t.len(),
        forall|k: int| i <= k < fs.len() ==> field_ok(fs[k], #[trigger] t[k]),
    ensures
        first_bad(t, fs, i) == fs.len(),
    decreases fs.len() - i,
{
    if i < fs.len() {
        assert(field_ok(fs[i], t[i]));
        lemma_first_bad_all_ok(t, fs, i + 1);
    }
}

proof fn lemma_pow256_8()
    ensures
        pow256(4) == 0x1_0000_0000,
        pow256(8) == 0x1_0000_0000_0000_0000,
{
    assert(pow256(0) == 1);
    assert(pow256(1) == 256);
    assert(pow256(2) == 65536);
    assert(pow256(3) == 16777216);
    assert(pow256(4) == 0x1_0000_0000);
    assert(pow256(5) == 0x100_0000_0000);
    assert(pow256(6) == 0x1_0000_0000_0000);
    assert(pow256(7) == 0x100_0000_0000_0000);
}

/// Little-endian bytes read back as their value.
pub proof fn lemma_le_round_trip(v: nat, n: nat)
    requires
        v < pow256(n),
    ensures
        le_bytes(v, n).len() == n,
        le_value(le_bytes(v, n)) == v,
    decreases n,
{
    if n > 0 {
        let b = le_bytes(v, n);
        assert(v / 256 < pow256((n - 1) as nat)) by (nonlinear_arith)
            requires
                v < 256 * pow256((n - 1) as nat),
        ;
        lemma_le_round_trip(v / 256, (n - 1) as nat);
        assert(b.drop_first() =~= le_bytes(v / 256, (n - 1) as nat));
        assert(v == v % 256 + 256 * (v / 256)) by (nonlinear_arith);
    }
}

pub proof fn lemma_read_i32(b: Seq<u8>, p: int, v: i32)
    requires
        0 <= p,
        p + 4 <= b.len(),
        b.subrange(p, p + 4) == le_i32(v),
    ensures
        i32_at(b, p) == v,
{
    lemma_pow256_8();
    lemma_le_round_trip((v as u32) as nat, 4);
    assert(((v as u32) as i32) == v) by (bit_vector);
}

pub proof fn lemma_read_u64(b: Seq<u8>, p: int, v: u64)
    requires
        0 <= p,
        p + 8 <= b.len(),
        b.subrange(p, p + 8) == le_u64(v),
    ensures
        u64_at(b, p) == v,
{
    lemma_pow256_8();
    lemma_le_round_trip(v as nat, 8);
}

pub proof fn lemma_read_i64(b: Seq<u8>, p: int, v: i64)
    requires
        0 <= p,
        p + 8 <= b.len(),
        b.subrange(p, p + 8) == le_i64(v),
    ensures
        i64_at(b, p) == v,
{
    lemma_pow256_8();
    lemma_le_round_trip((v as u64) as nat, 8);
    assert(((v as u64) as i64) == v) by (bit_vector);
}

pub proof fn lemma_field_lengths()
    ensures
        forall|v: i32| #[trigger] le_i32(v).len() == 4,
        forall|v: u64| #[trigger] le_u64(v).len() == 8,
        forall|v: i64| #[trigger] le_i64(v).len() == 8,
{
    lemma_pow256_8();
    assert forall|v: i32| #[trigger] le_i32(v).len() == 4 by {
        lemma_le_round_trip((v as u32) as nat, 4);
    }
    assert forall|v: u64| #[trigger] le_u64(v).len() == 8 by {
        lemma_le_round_trip(v as nat, 8);
    }
    assert forall|v: i64| #[trigger] le_i64(v).len() == 8 by {
        lemma_le_round_trip((v as u64) as nat, 8);
    }
}

/// Eight-byte values laid one after another: their bytes, and where each
/// one stands.
pub proof fn lemma_flat64(xs: Seq<u64>)
    ensures
        flat64(xs).len() == 8 * xs.len(),
        forall|j: int|
            0 <= j < xs.len() ==> flat64(xs).subrange(8 * j, 8 * j + 8) == le_u64(#[trigger] xs[j]),
    decreases xs.len(),
{
    lemma_field_lengths();
    if xs.len() > 0 {
        let rest = xs.drop_first();
        lemma_flat64(rest);
        let f = flat64(xs);
        assert forall|j: int| 0 <= j < xs.len() implies f.subrange(8 * j, 8 * j + 8) == le_u64(
            #[trigger] xs[j],
        ) by {
            if j == 0 {
                assert(f.subrange(0, 8) =~= le_u64(xs[0]));
            } else {
                assert(rest[j - 1] == xs[j]);
                assert(f.subrange(8 * j, 8 * j + 8) =~= flat64(rest).subrange(
                    8 * (j - 1),
                    8 * (j - 1) + 8,
                ));
            }
        }
    }
}

/// Pairs of `i32` laid one after another, eight bytes a pair.
pub open spec fn flat_pairs(a: Seq<i32>, b: Seq<i32>) -> Seq<u8>
    decreases a.len(),
{
    if a.len() == 0 {
        seq![]
    } else {
        le_i32(a[0]) + le_i32(b[0]) + flat_pairs(a.drop_first(), b.drop_first())
    }
}

/// Where each half of each pair stands in `flat_pairs`.
pub proof fn lemma_flat_pairs(a: Seq<i32>, b: Seq<i32>)
    requires
        a.len() == b.len(),
    ensures
        flat_pairs(a, b).len() == 8 * a.len(),
        forall|j: int|
            0 <= j < a.len() ==> flat_pairs(a, b).subrange(8 * j, 8 * j + 4) == le_i32(
                #[trigger] a[j],
            ) && flat_pairs(a, b).subrange(8 * j + 4, 8 * j + 8) == le_i32(b[j]),
    decreases a.len(),
{
    lemma_field_lengths();
    if a.len() > 0 {
        let (ra, rb) = (a.drop_first(), b.drop_first());
        lemma_flat_pairs(ra, rb);
        let f = flat_pairs(a, b);
        assert forall|j: int| 0 <= j < a.len() implies f.subrange(8 * j, 8 * j + 4) == le_i32(
            #[trigger] a[j],
        ) && f.subrange(8 * j + 4, 8 * j + 8) == le_i32(b[j]) by {
            if j == 0 {
                assert(f.subrange(0, 4) =~= le_i32(a[0]));
                assert(f.subrange(4, 8) =~= le_i32(b[0]));
            } else {
                assert(ra[j - 1] == a[j]);
                assert(rb[j - 1] == b[j]);
                assert(f.subrange(8 * j, 8 * j + 4) =~= flat_pairs(ra, rb).subrange(
                    8 * (j - 1),
                    8 * (j - 1) + 4,
                ));
                assert(f.subrange(8 * j + 4, 8 * j + 8) =~= flat_pairs(ra, rb).subrange(
                    8 * (j - 1) + 4,
                    8 * (j - 1) + 8,
                ));
            }
        }
    }
}

} // verus!
