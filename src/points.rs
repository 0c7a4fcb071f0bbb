//! The point-track reader, in both forms.
use crate::bytes::{i32_at, i64_at, read_i32, read_i64, read_u64, u64_at};
use crate::fields::{
    decimal_of, first_bad, first_bad_token, i32_of, i64_of, lemma_first_bad_none, parse_error,
    token, u8_of, Field,
};
use crate::text::{
    i32_token, i64_token, is_skipped, line_spans, lines, span_texts, spans_within, token_spans,
    tokens, u8_token,
};
use crate::types::{points_view, outcome, outcome_at, ColmapError, Point3D, PointView, Scalar, ScalarView, Vector3};
use std::collections::HashMap;
use vstd::prelude::*;

verus! {

broadcast use vstd::std_specs::hash::group_hash_axioms;

/// The field of token `k` of a point line.
pub open spec fn point_field(k: int) -> Field {
    if k == 0 {
        Field::I64
    } else if k < 4 {
        Field::Float
    } else if k < 7 {
        Field::U8
    } else if k == 7 {
        Field::Float
    } else {
        Field::I32
    }
}

/// The fields of a point line of `n` tokens: id, x, y, z, red, green,
/// blue, reprojection error, then (image id, observation index) pairs.
pub open spec fn point_fields(n: nat) -> Seq<Field> {
    Seq::new(n, |k: int| point_field(k))
}

/// The point that the tokens `t` of line `line` describe. The structure is
/// checked first (eight leading tokens and a tail of whole pairs), then each
/// token's conversion, from the left.
pub open spec fn point_from_tokens(t: Seq<Seq<u8>>, line: int) -> Result<PointView, ColmapError> {
    if t.len() < 8 || (t.len() - 8) % 2 == 1 {
        Err(ColmapError::MalformedRecord)
    } else if first_bad(t, point_fields(t.len()), 0) < t.len() {
        Err(parse_error(line, first_bad(t, point_fields(t.len()), 0)))
    } else {
        Ok(
            PointView {
                id: i64_token(t[0]).unwrap(),
                xyz: (
                    ScalarView::Decimal(t[1]),
                    ScalarView::Decimal(t[2]),
                    ScalarView::Decimal(t[3]),
                ),
                rgb: seq![u8_token(t[4]).unwrap(), u8_token(t[5]).unwrap(), u8_token(t[6]).unwrap()],
                error: ScalarView::Decimal(t[7]),
                image_ids: Seq::new(
                    ((t.len() - 8) / 2) as nat,
                    |j: int| i32_token(t[8 + 2 * j]).unwrap(),
                ),
                point2d_idxs: Seq::new(
                    ((t.len() - 8) / 2) as nat,
                    |j: int| i32_token(t[9 + 2 * j]).unwrap(),
                ),
            },
        )
    }
}

/// The points of lines `ls` from line `i` on, added to `acc`; a later
/// point replaces an earlier one with the same id.
pub open spec fn points_from_lines(
    ls: Seq<Seq<u8>>,
    i: int,
    acc: Map<i64, PointView>,
) -> Result<Map<i64, PointView>, ColmapError>
    decreases ls.len() - i,
{
    if i < 0 || i >= ls.len() {
        Ok(acc)
    } else if is_skipped(ls[i]) {
        points_from_lines(ls, i + 1, acc)
    } else {
        match point_from_tokens(tokens(ls[i]), i) {
            Ok(p) => points_from_lines(ls, i + 1, acc.insert(p.id, p)),
            Err(e) => Err(e),
        }
    }
}

/// The points of a text input.
pub open spec fn points_text(s: Seq<u8>) -> Result<Map<i64, PointView>, ColmapError> {
    points_from_lines(lines(s), 0, Map::empty())
}

/// The point record at byte `p` of a binary input, and where the next one
/// starts: `i64` id, three binary64 coordinates, three colour bytes, a
/// binary64 error, a `u64` track length, then that many pairs of `i32`.
pub open spec fn point_record(b: Seq<u8>, p: int) -> Result<(PointView, int), ColmapError> {
    if p + 51 > b.len() {
        Err(ColmapError::UnexpectedEof)
    } else {
        let n = u64_at(b, p + 43) as int;
        if p + 51 + 8 * n > b.len() {
            Err(ColmapError::UnexpectedEof)
        } else {
            Ok(
                (
                    PointView {
                        id: i64_at(b, p),
                        xyz: (
                            ScalarView::Binary64(u64_at(b, p + 8)),
                            ScalarView::Binary64(u64_at(b, p + 16)),
                            ScalarView::Binary64(u64_at(b, p + 24)),
                        ),
                        rgb: seq![b[p + 32], b[p + 33], b[p + 34]],
                        error: ScalarView::Binary64(u64_at(b, p + 35)),
                        image_ids: Seq::new(n as nat, |j: int| i32_at(b, p + 51 + 8 * j)),
                        point2d_idxs: Seq::new(n as nat, |j: int| i32_at(b, p + 55 + 8 * j)),
                    },
                    p + 51 + 8 * n,
                ),
            )
        }
    }
}

/// The next `left` point records from byte `p` on, added to `acc`.
pub open spec fn points_from_records(
    b: Seq<u8>,
    p: int,
    left: nat,
    acc: Map<i64, PointView>,
) -> Result<Map<i64, PointView>, ColmapError>
    decreases left,
{
    if left == 0 {
        Ok(acc)
    } else {
        match point_record(b, p) {
            Ok((pt, q)) => points_from_records(b, q, (left - 1) as nat, acc.insert(pt.id, pt)),
            Err(e) => Err(e),
        }
    }
}

/// The points of a binary input: a `u64` count, then that many records.
pub open spec fn points_binary(b: Seq<u8>) -> Result<Map<i64, PointView>, ColmapError> {
    if b.len() < 8 {
        Err(ColmapError::UnexpectedEof)
    } else {
        points_from_records(b, 8, u64_at(b, 0) as nat, Map::empty())
    }
}

/// The view of a read's outcome.
pub open spec fn points_outcome(r: Result<HashMap<i64, Point3D>, ColmapError>) -> Result<
    Map<i64, PointView>,
    ColmapError,
> {
    match r {
        Ok(m) => Ok(points_view(m@)),
        Err(e) => Err(e),
    }
}

/// The fields of a point line of `n` tokens.
fn point_field_list(n: usize) -> (r: Vec<Field>)
    ensures
        r@ == point_fields(n as nat),
{
    let mut r: Vec<Field> = Vec::new();
    let mut k: usize = 0;
    while k < n
        invariant
            k <= n,
            r@ == point_fields(k as nat),
        decreases n - k,
    {
        let f = if k == 0 {
            Field::I64
        } else if k < 4 {
            Field::Float
        } else if k < 7 {
            Field::U8
        } else if k == 7 {
            Field::Float
        } else {
            Field::I32
        };
        r.push(f);
        k = k + 1;
        proof {
            assert(r@ =~= point_fields(k as nat));
        }
    }
    r
}

/// Reads the point on the line whose tokens are `toks`.
fn point_from_line(s: &[u8], toks: &Vec<(usize, usize)>, line: usize) -> (r: Result<
    Point3D,
    ColmapError,
>)
    requires
        spans_within(toks@, s@.len() as int),
    ensures
        outcome(r) == point_from_tokens(span_texts(s@, toks@), line as int),
{
    let ghost t = span_texts(s@, toks@);
    let n: usize = toks.len();
    if n < 8 || (n - 8) % 2 == 1 {
        return Err(ColmapError::MalformedRecord);
    }
    let fs = point_field_list(n);
    let bad: usize = first_bad_token(s, toks, &fs);
    if bad < n {
        return Err(ColmapError::ParseError { line, token: bad });
    }
    proof {
        lemma_first_bad_none(t, fs@, 0);
        assert(forall|k: int| 0 <= k < n ==> crate::fields::field_ok(point_field(k), #[trigger] t[k]));
        assert(crate::fields::field_ok(point_field(0), t[0]));
        assert(crate::fields::field_ok(point_field(4), t[4]));
        assert(crate::fields::field_ok(point_field(5), t[5]));
        assert(crate::fields::field_ok(point_field(6), t[6]));
    }
    let id: i64 = i64_of(token(s, toks, 0));
    let xyz = Vector3 {
        x: decimal_of(token(s, toks, 1)),
        y: decimal_of(token(s, toks, 2)),
        z: decimal_of(token(s, toks, 3)),
    };
    let rgb: [u8; 3] = [u8_of(token(s, toks, 4)), u8_of(token(s, toks, 5)), u8_of(token(s, toks, 6))];
    let error = decimal_of(token(s, toks, 7));
    let pairs: usize = (n - 8) / 2;
    let ghost want_images = Seq::new(pairs as nat, |j: int| i32_token(t[8 + 2 * j]).unwrap());
    let ghost want_idxs = Seq::new(pairs as nat, |j: int| i32_token(t[9 + 2 * j]).unwrap());
    let mut image_ids: Vec<i32> = Vec::new();
    let mut point2d_idxs: Vec<i32> = Vec::new();
    let mut j: usize = 0;
    while j < pairs
        invariant
            n == toks@.len(),
            t == span_texts(s@, toks@),
            spans_within(toks@, s@.len() as int),
            pairs == (n - 8) / 2,
            8 + 2 * pairs == n,
            j <= pairs,
            forall|k: int| 0 <= k < n ==> crate::fields::field_ok(point_field(k), #[trigger] t[k]),
            want_images == Seq::new(pairs as nat, |j: int| i32_token(t[8 + 2 * j]).unwrap()),
            want_idxs == Seq::new(pairs as nat, |j: int| i32_token(t[9 + 2 * j]).unwrap()),
            image_ids@ == want_images.take(j as int),
            point2d_idxs@ == want_idxs.take(j as int),
        decreases pairs - j,
    {
        proof {
            assert(crate::fields::field_ok(point_field(8 + 2 * j), t[8 + 2 * j]));
            assert(crate::fields::field_ok(point_field(9 + 2 * j), t[9 + 2 * j]));
        }
        let a: i32 = i32_of(token(s, toks, 8 + 2 * j));
        let c: i32 = i32_of(token(s, toks, 9 + 2 * j));
        image_ids.push(a);
        point2d_idxs.push(c);
        proof {
            assert(want_images.take(j + 1) =~= want_images.take(j as int).push(a));
            assert(want_idxs.take(j + 1) =~= want_idxs.take(j as int).push(c));
        }
        j = j + 1;
    }
    proof {
        assert(want_images.take(pairs as int) =~= want_images);
        assert(want_idxs.take(pairs as int) =~= want_idxs);
        assert(rgb@ =~= seq![rgb[0], rgb[1], rgb[2]]);
    }
    Ok(Point3D { id, xyz, rgb, error, image_ids, point2d_idxs })
}

/// Reads 3D points from their text form: one point per line, `#` comment
/// lines and blank lines passed over.
pub fn read_points3d_text(s: &[u8]) -> (r: Result<HashMap<i64, Point3D>, ColmapError>)
    ensures
        points_outcome(r) == points_text(s@),
{
    let spans = line_spans(s);
    let ghost ls = lines(s@);
    let mut acc: HashMap<i64, Point3D> = HashMap::new();
    let mut i: usize = 0;
    proof {
        assert(points_view(acc@) =~= Map::empty());
    }
    while i < spans.len()
        invariant
            ls == lines(s@),
            spans_within(spans@, s@.len() as int),
            span_texts(s@, spans@) == ls,
            i <= spans@.len(),
            points_text(s@) == points_from_lines(ls, i as int, points_view(acc@)),
        decreases spans@.len() - i,
    {
        let (a, b): (usize, usize) = spans[i];
        let toks = token_spans(s, a, b);
        proof {
            assert(ls[i as int] == s@.subrange(a as int, b as int));
        }
        let comment: bool = a < b && s[a] == 35;
        if comment || toks.len() == 0 {
            i = i + 1;
            continue;
        }
        match point_from_line(s, &toks, i) {
            Ok(p) => {
                proof {
                    assert(points_view(acc@.insert(p.id, p)) =~= points_view(acc@).insert(p.id, p@));
                }
                acc.insert(p.id, p);
            },
            Err(e) => {
                return Err(e);
            },
        }
        i = i + 1;
    }
    Ok(acc)
}

/// Reads the point record at byte `pos`, and where the next one starts.
fn point_at(b: &[u8], pos: usize) -> (r: Result<(Point3D, usize), ColmapError>)
    requires
        pos <= b@.len(),
    ensures
        outcome_at(r) == point_record(b@, pos as int),
        r matches Ok((_, q)) ==> q <= b@.len(),
{
    let n: usize = b.len();
    if n - pos < 51 {
        return Err(ColmapError::UnexpectedEof);
    }
    let id: i64 = read_i64(b, pos);
    let xyz = Vector3 {
        x: Scalar::Binary64(read_u64(b, pos + 8)),
        y: Scalar::Binary64(read_u64(b, pos + 16)),
        z: Scalar::Binary64(read_u64(b, pos + 24)),
    };
    let rgb: [u8; 3] = [b[pos + 32], b[pos + 33], b[pos + 34]];
    let error = Scalar::Binary64(read_u64(b, pos + 35));
    let len: u64 = read_u64(b, pos + 43);
    let room: u64 = ((n - pos - 51) / 8) as u64;
    if room < len {
        proof {
            assert(pos + 51 + 8 * len > n) by (nonlinear_arith)
                requires
                    ((n - pos - 51) / 8) < len,
                    pos + 51 <= n,
            ;
        }
        return Err(ColmapError::UnexpectedEof);
    }
    let count: usize = len as usize;
    let start: usize = pos + 51;
    proof {
        assert(start + 8 * count <= n) by (nonlinear_arith)
            requires
                count <= (n - pos - 51) / 8,
                start == pos + 51,
                pos + 51 <= n,
        ;
    }
    let ghost want_images = Seq::new(count as nat, |j: int| i32_at(b@, start + 8 * j));
    let ghost want_idxs = Seq::new(count as nat, |j: int| i32_at(b@, start + 4 + 8 * j));
    let mut image_ids: Vec<i32> = Vec::new();
    let mut point2d_idxs: Vec<i32> = Vec::new();
    let mut j: usize = 0;
    while j < count
        invariant
            n == b@.len(),
            start + 8 * count <= n,
            j <= count,
            want_images == Seq::new(count as nat, |j: int| i32_at(b@, start + 8 * j)),
            want_idxs == Seq::new(count as nat, |j: int| i32_at(b@, start + 4 + 8 * j)),
            image_ids@ == want_images.take(j as int),
            point2d_idxs@ == want_idxs.take(j as int),
        decreases count - j,
    {
        let a: i32 = read_i32(b, start + 8 * j);
        let c: i32 = read_i32(b, start + 8 * j + 4);
        image_ids.push(a);
        point2d_idxs.push(c);
        proof {
            assert(want_images.take(j + 1) =~= want_images.take(j as int).push(a));
            assert(want_idxs.take(j + 1) =~= want_idxs.take(j as int).push(c));
        }
        j = j + 1;
    }
    proof {
        assert(want_images.take(count as int) =~= want_images);
        assert(want_idxs.take(count as int) =~= want_idxs);
        assert(rgb@ =~= seq![b@[pos + 32], b@[pos + 33], b@[pos + 34]]);
        assert(point2d_idxs@ =~= Seq::new(count as nat, |j: int| i32_at(b@, pos + 55 + 8 * j)));
    }
    Ok((Point3D { id, xyz, rgb, error, image_ids, point2d_idxs }, start + 8 * count))
}

/// Reads 3D points from their binary form: a `u64` count, then for each
/// point an `i64` id, three binary64 coordinates, three colour bytes, a
/// binary64 reprojection error, a `u64` track length and that many
/// (`i32` image id, `i32` observation index) pairs, all little-endian.
pub fn read_points3d_binary(b: &[u8]) -> (r: Result<HashMap<i64, Point3D>, ColmapError>)
    ensures
        points_outcome(r) == points_binary(b@),
{
    if b.len() < 8 {
        return Err(ColmapError::UnexpectedEof);
    }
    let count: u64 = read_u64(b, 0);
    let mut acc: HashMap<i64, Point3D> = HashMap::new();
    let mut pos: usize = 8;
    let mut k: u64 = 0;
    proof {
        assert(points_view(acc@) =~= Map::empty());
    }
    while k < count
        invariant
            pos <= b@.len(),
            k <= count,
            points_binary(b@) == points_from_records(
                b@,
                pos as int,
                (count - k) as nat,
                points_view(acc@),
            ),
        decreases count - k,
    {
        match point_at(b, pos) {
            Ok((p, q)) => {
                proof {
                    assert(points_view(acc@.insert(p.id, p)) =~= points_view(acc@).insert(p.id, p@));
                }
                acc.insert(p.id, p);
                pos = q;
            },
            Err(e) => {
                return Err(e);
            },
        }
        k = k + 1;
    }
    Ok(acc)
}

/// Reads 3D points from either form.
pub fn read_points3d(data: &[u8], binary: bool) -> (r: Result<HashMap<i64, Point3D>, ColmapError>)
    ensures
        binary ==> points_outcome(r) == points_binary(data@),
        !binary ==> points_outcome(r) == points_text(data@),
{
    if binary {
        read_points3d_binary(data)
    } else {
        read_points3d_text(data)
    }
}

} // verus!
