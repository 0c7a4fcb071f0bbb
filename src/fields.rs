//! What each token of a text record must convert to, and the first token
//! that fails to.
use crate::text::{
    float_literal, i32_token, i64_token, is_float_literal, parse_i32, parse_i64, parse_u64,
    parse_u8, span_texts, spans_within, u64_token, u8_token,
};
use crate::types::{ColmapError, Scalar, ScalarView};
use vstd::prelude::*;
use vstd::slice::{slice_subrange, slice_to_vec};

verus! {

/// The numeric target of a text field.
#[derive(Clone, Copy, Debug, PartialEq, Eq, Structural)]
pub enum Field {
    /// Any token: a name.
    Word,
    Float,
    I32,
    I64,
    U64,
    U8,
}

/// Whether token `t` converts to field `f`.
pub open spec fn field_ok(f: Field, t: Seq<u8>) -> bool {
    match f {
        Field::Word => true,
        Field::Float => float_literal(t),
        Field::I32 => i32_token(t) is Some,
        Field::I64 => i64_token(t) is Some,
        Field::U64 => u64_token(t) is Some,
        Field::U8 => u8_token(t) is Some,
    }
}

/// The first index from `i` on at which token `t[i]` does not convert to
/// field `fs[i]`; `fs.len()` when every one converts.
pub open spec fn first_bad(t: Seq<Seq<u8>>, fs: Seq<Field>, i: int) -> int
    decreases fs.len() - i,
{
    if i >= fs.len() {
        fs.len() as int
    } else if !field_ok(fs[i], t[i]) {
        i
    } else {
        first_bad(t, fs, i + 1)
    }
}

/// When `first_bad` finds nothing, every token converts.
pub proof fn lemma_first_bad_none(t: Seq<Seq<u8>>, fs: Seq<Field>, i: int)
    requires
        0 <= i <= fs.len(),
        first_bad(t, fs, i) == fs.len(),
    ensures
        forall|k: int| i <= k < fs.len() ==> field_ok(fs[k], #[trigger] t[k]),
    decreases fs.len() - i,
{
    if i < fs.len() {
        lemma_first_bad_none(t, fs, i + 1);
    }
}

/// `first_bad` lies between its start and the number of fields.
pub proof fn lemma_first_bad_bound(t: Seq<Seq<u8>>, fs: Seq<Field>, i: int)
    requires
        0 <= i <= fs.len(),
    ensures
        i <= first_bad(t, fs, i) <= fs.len(),
    decreases fs.len() - i,
{
    if i < fs.len() {
        lemma_first_bad_bound(t, fs, i + 1);
    }
}

/// Whether `tok` converts to field `f`.
fn check_field(f: Field, tok: &[u8]) -> (r: bool)
    ensures
        r == field_ok(f, tok@),
{
    match f {
        Field::Word => true,
        Field::Float => is_float_literal(tok),
        Field::I32 => parse_i32(tok).is_some(),
        Field::I64 => parse_i64(tok).is_some(),
        Field::U64 => parse_u64(tok).is_some(),
        Field::U8 => parse_u8(tok).is_some(),
    }
}

/// The bytes of token `k`.
pub fn token<'a>(s: &'a [u8], toks: &Vec<(usize, usize)>, k: usize) -> (r: &'a [u8])
    requires
        spans_within(toks@, s@.len() as int),
        k < toks@.len(),
    ensures
        r@ == span_texts(s@, toks@)[k as int],
{
    let (a, b): (usize, usize) = toks[k];
    slice_subrange(s, a, b)
}

/// The index of the first token that does not convert to its field, or
/// the number of fields when all of them do.
pub fn first_bad_token(s: &[u8], toks: &Vec<(usize, usize)>, fs: &Vec<Field>) -> (r: usize)
    requires
        spans_within(toks@, s@.len() as int),
        fs@.len() <= toks@.len(),
    ensures
        r as int == first_bad(span_texts(s@, toks@), fs@, 0),
        r <= fs@.len(),
{
    let ghost t = span_texts(s@, toks@);
    let mut k: usize = 0;
    while k < fs.len()
        invariant
            t == span_texts(s@, toks@),
            spans_within(toks@, s@.len() as int),
            fs@.len() <= toks@.len(),
            k <= fs@.len(),
            first_bad(t, fs@, 0) == first_bad(t, fs@, k as int),
        decreases fs@.len() - k,
    {
        if !check_field(fs[k], token(s, toks, k)) {
            proof {
                lemma_first_bad_bound(t, fs@, k as int);
            }
            return k;
        }
        k = k + 1;
    }
    k
}

/// The value of an `i32` token known to be one (so the `None` arm is
/// never taken).
pub fn i32_of(tok: &[u8]) -> (r: i32)
    requires
        i32_token(tok@) is Some,
    ensures
        i32_token(tok@) == Some(r),
{
    match parse_i32(tok) {
        Some(v) => v,
        None => 0,
    }
}

/// The value of an `i64` token known to be one (so the `None` arm is
/// never taken).
pub fn i64_of(tok: &[u8]) -> (r: i64)
    requires
        i64_token(tok@) is Some,
    ensures
        i64_token(tok@) == Some(r),
{
    match parse_i64(tok) {
        Some(v) => v,
        None => 0,
    }
}

/// The value of a `u64` token known to be one.
pub fn u64_of(tok: &[u8]) -> (r: u64)
    requires
        u64_token(tok@) is Some,
    ensures
        u64_token(tok@) == Some(r),
{
    match parse_u64(tok) {
        Some(v) => v,
        None => 0,
    }
}

/// The value of a `u8` token known to be one.
pub fn u8_of(tok: &[u8]) -> (r: u8)
    requires
        u8_token(tok@) is Some,
    ensures
        u8_token(tok@) == Some(r),
{
    match parse_u8(tok) {
        Some(v) => v,
        None => 0,
    }
}

/// A float token, kept as the literal it is.
pub fn decimal_of(tok: &[u8]) -> (r: Scalar)
    ensures
        r@ == ScalarView::Decimal(tok@),
{
    Scalar::Decimal(slice_to_vec(tok))
}

/// The error for token `token` of line `line`.
pub open spec fn parse_error(line: int, token: int) -> ColmapError {
    ColmapError::ParseError { line: line as usize, token: token as usize }
}

} // verus!
