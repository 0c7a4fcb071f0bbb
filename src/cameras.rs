//! The camera reader, in both forms.
use crate::bytes::{i32_at, read_i32, read_u64, u64_at};
use crate::fields::{
    decimal_of, first_bad, first_bad_token, i32_of, lemma_first_bad_none, parse_error, token,
    u64_of, Field,
};
use crate::model::{model_with_id, model_with_name, param_count, CameraModel};
use crate::text::{
    i32_token, is_skipped, line_spans, lines, span_texts, spans_within, token_spans, tokens,
    u64_token,
};
use crate::types::{outcome, outcome_at, cameras_view, Camera, CameraView, ColmapError, Scalar, ScalarView};
use std::collections::HashMap;
use vstd::prelude::*;

verus! {

broadcast use vstd::std_specs::hash::group_hash_axioms;

/// The field of token `k` of a camera line.
pub open spec fn camera_field(k: int) -> Field {
    if k == 0 {
        Field::I32
    } else if k == 1 {
        Field::Word
    } else if k < 4 {
        Field::U64
    } else {
        Field::Float
    }
}

/// The fields of a camera line of `n` tokens: id, model name, width,
/// height, then the parameters.
pub open spec fn camera_fields(n: nat) -> Seq<Field> {
    Seq::new(n, |k: int| camera_field(k))
}

/// The camera that the tokens `t` of line `line` describe. The structure is
/// checked first (at least four tokens, a known model, as many parameters as
/// the model has), then each token's conversion, from the left.
pub open spec fn camera_from_tokens(t: Seq<Seq<u8>>, line: int) -> Result<CameraView, ColmapError> {
    if t.len() < 4 {
        Err(ColmapError::MalformedRecord)
    } else {
        match model_with_name(t[1]) {
            None => Err(ColmapError::UnknownCameraModel),
            Some(m) => if t.len() - 4 != param_count(m) {
                Err(ColmapError::ParamCountMismatch)
            } else if first_bad(t, camera_fields(t.len()), 0) < t.len() {
                Err(parse_error(line, first_bad(t, camera_fields(t.len()), 0)))
            } else {
                Ok(
                    CameraView {
                        id: i32_token(t[0]).unwrap(),
                        model: m,
                        width: u64_token(t[2]).unwrap(),
                        height: u64_token(t[3]).unwrap(),
                        params: t.skip(4).map_values(|d: Seq<u8>| ScalarView::Decimal(d)),
                    },
                )
            },
        }
    }
}

/// The cameras of lines `ls` from line `i` on, added to `acc`; a later
/// camera replaces an earlier one with the same id.
pub open spec fn cameras_from_lines(
    ls: Seq<Seq<u8>>,
    i: int,
    acc: Map<i32, CameraView>,
) -> Result<Map<i32, CameraView>, ColmapError>
    decreases ls.len() - i,
{
    if i < 0 || i >= ls.len() {
        Ok(acc)
    } else if is_skipped(ls[i]) {
        cameras_from_lines(ls, i + 1, acc)
    } else {
        match camera_from_tokens(tokens(ls[i]), i) {
            Ok(c) => cameras_from_lines(ls, i + 1, acc.insert(c.id, c)),
            Err(e) => Err(e),
        }
    }
}

/// The cameras of a text input.
pub open spec fn cameras_text(s: Seq<u8>) -> Result<Map<i32, CameraView>, ColmapError> {
    cameras_from_lines(lines(s), 0, Map::empty())
}

/// The camera record at byte `p` of a binary input, and where the next one
/// starts: id, model id, width, height, then the model's parameters.
pub open spec fn camera_record(b: Seq<u8>, p: int) -> Result<(CameraView, int), ColmapError> {
    if p + 24 > b.len() {
        Err(ColmapError::UnexpectedEof)
    } else {
        match model_with_id(i32_at(b, p + 4)) {
            None => Err(ColmapError::UnknownCameraModel),
            Some(m) => if p + 24 + 8 * param_count(m) > b.len() {
                Err(ColmapError::UnexpectedEof)
            } else {
                Ok(
                    (
                        CameraView {
                            id: i32_at(b, p),
                            model: m,
                            width: u64_at(b, p + 8),
                            height: u64_at(b, p + 16),
                            params: Seq::new(
                                param_count(m),
                                |k: int| ScalarView::Binary64(u64_at(b, p + 24 + 8 * k)),
                            ),
                        },
                        p + 24 + 8 * param_count(m),
                    ),
                )
            },
        }
    }
}

/// The next `left` camera records from byte `p` on, added to `acc`.
pub open spec fn cameras_from_records(
    b: Seq<u8>,
    p: int,
    left: nat,
    acc: Map<i32, CameraView>,
) -> Result<Map<i32, CameraView>, ColmapError>
    decreases left,
{
    if left == 0 {
        Ok(acc)
    } else {
        match camera_record(b, p) {
            Ok((c, q)) => cameras_from_records(b, q, (left - 1) as nat, acc.insert(c.id, c)),
            Err(e) => Err(e),
        }
    }
}

/// The cameras of a binary input: a `u64` count, then that many records.
pub open spec fn cameras_binary(b: Seq<u8>) -> Result<Map<i32, CameraView>, ColmapError> {
    if b.len() < 8 {
        Err(ColmapError::UnexpectedEof)
    } else {
        cameras_from_records(b, 8, u64_at(b, 0) as nat, Map::empty())
    }
}

/// The view of a read's outcome.
pub open spec fn cameras_outcome(r: Result<HashMap<i32, Camera>, ColmapError>) -> Result<
    Map<i32, CameraView>,
    ColmapError,
> {
    match r {
        Ok(m) => Ok(cameras_view(m@)),
        Err(e) => Err(e),
    }
}

/// The fields of a camera line of `n` tokens.
fn camera_field_list(n: usize) -> (r: Vec<Field>)
    ensures
        r@ == camera_fields(n as nat),
{
    let mut r: Vec<Field> = Vec::new();
    let mut k: usize = 0;
    while k < n
        invariant
            k <= n,
            r@ == camera_fields(k as nat),
        decreases n - k,
    {
        let f = if k == 0 {
            Field::I32
        } else if k == 1 {
            Field::Word
        } else if k < 4 {
            Field::U64
        } else {
            Field::Float
        };
        r.push(f);
        k = k + 1;
        proof {
            assert(r@ =~= camera_fields(k as nat));
        }
    }
    r
}

/// Reads the camera on the line whose tokens are `toks`.
fn camera_from_line(s: &[u8], toks: &Vec<(usize, usize)>, line: usize) -> (r: Result<
    Camera,
    ColmapError,
>)
    requires
        spans_within(toks@, s@.len() as int),
    ensures
        outcome(r) == camera_from_tokens(span_texts(s@, toks@), line as int),
{
    let ghost t = span_texts(s@, toks@);
    let n: usize = toks.len();
    if n < 4 {
        return Err(ColmapError::MalformedRecord);
    }
    let model = match CameraModel::from_name(token(s, toks, 1)) {
        Some(m) => m,
        None => {
            return Err(ColmapError::UnknownCameraModel);
        },
    };
    if n - 4 != model.num_params() {
        return Err(ColmapError::ParamCountMismatch);
    }
    let fs = camera_field_list(n);
    let bad: usize = first_bad_token(s, toks, &fs);
    if bad < n {
        return Err(ColmapError::ParseError { line, token: bad });
    }
    proof {
        lemma_first_bad_none(t, fs@, 0);
        assert(field_ok_at(t, fs@, 0));
        assert(field_ok_at(t, fs@, 2));
        assert(field_ok_at(t, fs@, 3));
    }
    let id: i32 = i32_of(token(s, toks, 0));
    let width: u64 = u64_of(token(s, toks, 2));
    let height: u64 = u64_of(token(s, toks, 3));
    let mut params: Vec<Scalar> = Vec::new();
    let mut k: usize = 4;
    while k < n
        invariant
            n == toks@.len(),
            t == span_texts(s@, toks@),
            spans_within(toks@, s@.len() as int),
            4 <= k <= n,
            params@.map_values(|p: Scalar| p@) == t.subrange(4, k as int).map_values(
                |d: Seq<u8>| ScalarView::Decimal(d),
            ),
        decreases n - k,
    {
        let v = decimal_of(token(s, toks, k));
        let ghost before = params@;
        params.push(v);
        proof {
            assert(v@ == ScalarView::Decimal(t[k as int]));
            assert(params@ == before.push(v));
            assert(params@.map_values(|p: Scalar| p@) =~= before.map_values(|p: Scalar| p@).push(
                v@,
            ));
            assert(t.subrange(4, k + 1) =~= t.subrange(4, k as int).push(t[k as int]));
            assert(t.subrange(4, k + 1).map_values(|d: Seq<u8>| ScalarView::Decimal(d)) =~= t.subrange(
                4,
                k as int,
            ).map_values(|d: Seq<u8>| ScalarView::Decimal(d)).push(ScalarView::Decimal(t[k as int])));
        }
        k = k + 1;
        proof {
            assert(params@.map_values(|p: Scalar| p@) =~= t.subrange(4, k as int).map_values(
                |d: Seq<u8>| ScalarView::Decimal(d),
            ));
        }
    }
    proof {
        assert(t.subrange(4, n as int) =~= t.skip(4));
    }
    Ok(Camera { id, model, width, height, params })
}

spec fn field_ok_at(t: Seq<Seq<u8>>, fs: Seq<Field>, k: int) -> bool {
    crate::fields::field_ok(fs[k], t[k])
}

/// Reads cameras from their text form: one camera per line, `#` comment
/// lines and blank lines passed over.
pub fn read_cameras_text(s: &[u8]) -> (r: Result<HashMap<i32, Camera>, ColmapError>)
    ensures
        cameras_outcome(r) == cameras_text(s@),
{
    let spans = line_spans(s);
    let ghost ls = lines(s@);
    let mut acc: HashMap<i32, Camera> = HashMap::new();
    let mut i: usize = 0;
    proof {
        assert(cameras_view(acc@) =~= Map::empty());
    }
    while i < spans.len()
        invariant
            ls == lines(s@),
            spans_within(spans@, s@.len() as int),
            span_texts(s@, spans@) == ls,
            i <= spans@.len(),
            cameras_text(s@) == cameras_from_lines(ls, i as int, cameras_view(acc@)),
        decreases spans@.len() - i,
    {
        let (a, b): (usize, usize) = spans[i];
        let toks = token_spans(s, a, b);
        proof {
            assert(ls[i as int] == s@.subrange(a as int, b as int));
        }
        let comment: bool = a < b && s[a] == 35;
        if comment || toks.len() == 0 {
            i = i + 1;
            continue;
        }
        match camera_from_line(s, &toks, i) {
            Ok(c) => {
                proof {
                    assert(cameras_view(acc@.insert(c.id, c)) =~= cameras_view(acc@).insert(
                        c.id,
                        c@,
                    ));
                }
                acc.insert(c.id, c);
            },
            Err(e) => {
                return Err(e);
            },
        }
        i = i + 1;
    }
    Ok(acc)
}

/// Reads the camera record at byte `pos`, and where the next one starts.
fn camera_at(b: &[u8], pos: usize) -> (r: Result<(Camera, usize), ColmapError>)
    requires
        pos <= b@.len(),
    ensures
        outcome_at(r) == camera_record(b@, pos as int),
        r matches Ok((_, q)) ==> q <= b@.len(),
{
    let n: usize = b.len();
    if n - pos < 24 {
        return Err(ColmapError::UnexpectedEof);
    }
    let id: i32 = read_i32(b, pos);
    let model = match CameraModel::from_id(read_i32(b, pos + 4)) {
        Some(m) => m,
        None => {
            return Err(ColmapError::UnknownCameraModel);
        },
    };
    let width: u64 = read_u64(b, pos + 8);
    let height: u64 = read_u64(b, pos + 16);
    let np: usize = model.num_params();
    if n - pos - 24 < 8 * np {
        return Err(ColmapError::UnexpectedEof);
    }
    let start: usize = pos + 24;
    let ghost want = Seq::new(
        np as nat,
        |k: int| ScalarView::Binary64(u64_at(b@, start + 8 * k)),
    );
    let mut params: Vec<Scalar> = Vec::new();
    let mut k: usize = 0;
    while k < np
        invariant
            n == b@.len(),
            start + 8 * np <= n,
            k <= np,
            want == Seq::new(np as nat, |k: int| ScalarView::Binary64(u64_at(b@, start + 8 * k))),
            params@.map_values(|p: Scalar| p@) == want.take(k as int),
        decreases np - k,
    {
        let v = Scalar::Binary64(read_u64(b, start + 8 * k));
        let ghost before = params@;
        params.push(v);
        proof {
            assert(params@.map_values(|p: Scalar| p@) =~= before.map_values(|p: Scalar| p@).push(
                v@,
            ));
            assert(want.take(k + 1) =~= want.take(k as int).push(want[k as int]));
        }
        k = k + 1;
    }
    proof {
        assert(want.take(np as int) =~= want);
    }
    Ok((Camera { id, model, width, height, params }, start + 8 * np))
}

/// Reads cameras from their binary form: a `u64` count, then for each
/// camera an `i32` id, an `i32` model id, a `u64` width, a `u64` height and
/// the model's parameters as binary64 values, all little-endian. Bytes after
/// the last record are not read.
pub fn read_cameras_binary(b: &[u8]) -> (r: Result<HashMap<i32, Camera>, ColmapError>)
    ensures
        cameras_outcome(r) == cameras_binary(b@),
{
    if b.len() < 8 {
        return Err(ColmapError::UnexpectedEof);
    }
    let count: u64 = read_u64(b, 0);
    let mut acc: HashMap<i32, Camera> = HashMap::new();
    let mut pos: usize = 8;
    let mut k: u64 = 0;
    proof {
        assert(cameras_view(acc@) =~= Map::empty());
    }
    while k < count
        invariant
            pos <= b@.len(),
            k <= count,
            cameras_binary(b@) == cameras_from_records(
                b@,
                pos as int,
                (count - k) as nat,
                cameras_view(acc@),
            ),
        decreases count - k,
    {
        match camera_at(b, pos) {
            Ok((c, q)) => {
                proof {
                    assert(cameras_view(acc@.insert(c.id, c)) =~= cameras_view(acc@).insert(
                        c.id,
                        c@,
                    ));
                }
                acc.insert(c.id, c);
                pos = q;
            },
            Err(e) => {
                return Err(e);
            },
        }
        k = k + 1;
    }
    Ok(acc)
}

/// Reads cameras from either form.
pub fn read_cameras(data: &[u8], binary: bool) -> (r: Result<HashMap<i32, Camera>, ColmapError>)
    ensures
        binary ==> cameras_outcome(r) == cameras_binary(data@),
        !binary ==> cameras_outcome(r) == cameras_text(data@),
{
    if binary {
        read_cameras_binary(data)
    } else {
        read_cameras_text(data)
    }
}

} // verus!
