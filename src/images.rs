//! The image (pose) reader, in both forms.
use crate::bytes::{decode_name, find_nul, i32_at, i64_at, nul_from, read_i32, read_i64, read_u64, u64_at};
use crate::fields::{
    decimal_of, first_bad, first_bad_token, i32_of, i64_of, lemma_first_bad_none, parse_error,
    token, Field,
};
use crate::text::{
    i32_token, i64_token, is_skipped, line_spans, lines, span_texts, spans_within, token_spans,
    tokens,
};
use crate::types::{
    images_view, outcome, outcome_at, ColmapError, Image, ImageView, Quaternion, Scalar,
    ScalarView, Vector2, Vector3,
};
use std::collections::HashMap;
use vstd::prelude::*;
use vstd::slice::slice_subrange;
use vstd::utf8::{decode_utf8, valid_utf8};

verus! {

broadcast use vstd::std_specs::hash::group_hash_axioms;

/// The field of token `k` of an image's first line.
pub open spec fn head_field(k: int) -> Field {
    if k == 0 || k == 8 {
        Field::I32
    } else if k < 8 {
        Field::Float
    } else {
        Field::Word
    }
}

/// The fields of an image's first line: id, quaternion w, x, y, z,
/// translation x, y, z, camera id, name.
pub open spec fn head_fields() -> Seq<Field> {
    Seq::new(10, |k: int| head_field(k))
}

/// The field of token `k` of an image's observation line.
pub open spec fn observation_field(k: int) -> Field {
    if k % 3 == 2 {
        Field::I64
    } else {
        Field::Float
    }
}

/// The fields of an observation line of `n` tokens: (x, y, point id)
/// triples.
pub open spec fn observation_fields(n: nat) -> Seq<Field> {
    Seq::new(n, |k: int| observation_field(k))
}

/// The image that the tokens `a` of line `line` and the tokens `o` of the
/// line after it describe. Tokens after the tenth of the first line are
/// not read. The first line is checked before the second; in each, the
/// structure before any token's conversion.
pub open spec fn image_from_tokens(a: Seq<Seq<u8>>, o: Seq<Seq<u8>>, line: int) -> Result<
    ImageView,
    ColmapError,
> {
    if a.len() < 10 {
        Err(ColmapError::MalformedRecord)
    } else if first_bad(a, head_fields(), 0) < 10 {
        Err(parse_error(line, first_bad(a, head_fields(), 0)))
    } else if !valid_utf8(a[9]) {
        Err(ColmapError::InvalidEncoding)
    } else if o.len() % 3 != 0 {
        Err(ColmapError::MalformedRecord)
    } else if first_bad(o, observation_fields(o.len()), 0) < o.len() {
        Err(parse_error(line + 1, first_bad(o, observation_fields(o.len()), 0)))
    } else {
        Ok(
            ImageView {
                id: i32_token(a[0]).unwrap(),
                quat: (
                    ScalarView::Decimal(a[2]),
                    ScalarView::Decimal(a[3]),
                    ScalarView::Decimal(a[4]),
                    ScalarView::Decimal(a[1]),
                ),
                tvec: (
                    ScalarView::Decimal(a[5]),
                    ScalarView::Decimal(a[6]),
                    ScalarView::Decimal(a[7]),
                ),
                camera_id: i32_token(a[8]).unwrap(),
                name: decode_utf8(a[9]),
                xys: Seq::new(
                    (o.len() / 3) as nat,
                    |j: int| (ScalarView::Decimal(o[3 * j]), ScalarView::Decimal(o[3 * j + 1])),
                ),
                point3d_ids: Seq::new(
                    (o.len() / 3) as nat,
                    |j: int| i64_token(o[3 * j + 2]).unwrap(),
                ),
            },
        )
    }
}

/// The tokens of line `i` of `ls`; none past the last line.
pub open spec fn tokens_of_line(ls: Seq<Seq<u8>>, i: int) -> Seq<Seq<u8>> {
    if 0 <= i < ls.len() {
        tokens(ls[i])
    } else {
        seq![]
    }
}

/// The images of lines `ls` from line `i` on, added to `acc`. A record is a
/// line that is not passed over and the line after it, whatever that holds;
/// a later image replaces an earlier one with the same id.
pub open spec fn images_from_lines(
    ls: Seq<Seq<u8>>,
    i: int,
    acc: Map<i32, ImageView>,
) -> Result<Map<i32, ImageView>, ColmapError>
    decreases ls.len() + 1 - i,
{
    if i < 0 || i >= ls.len() {
        Ok(acc)
    } else if is_skipped(ls[i]) {
        images_from_lines(ls, i + 1, acc)
    } else {
        match image_from_tokens(tokens(ls[i]), tokens_of_line(ls, i + 1), i) {
            Ok(img) => images_from_lines(ls, i + 2, acc.insert(img.id, img)),
            Err(e) => Err(e),
        }
    }
}

/// The images of a text input.
pub open spec fn images_text(s: Seq<u8>) -> Result<Map<i32, ImageView>, ColmapError> {
    images_from_lines(lines(s), 0, Map::empty())
}

/// The image record at byte `p` of a binary input, and where the next one
/// starts: `i32` id, quaternion w, x, y, z and translation x, y, z as
/// binary64, `i32` camera id, a zero-terminated UTF-8 name, a `u64` count,
/// then that many (binary64 x, binary64 y, `i64` point id) triples.
#[verifier::opaque]
pub open spec fn image_record(b: Seq<u8>, p: int) -> Result<(ImageView, int), ColmapError> {
    if p + 64 > b.len() {
        Err(ColmapError::UnexpectedEof)
    } else {
        match nul_from(b, p + 64) {
            None => Err(ColmapError::UnexpectedEof),
            Some(z) => if !valid_utf8(b.subrange(p + 64, z)) {
                Err(ColmapError::InvalidEncoding)
            } else if z + 9 > b.len() {
                Err(ColmapError::UnexpectedEof)
            } else {
                let n = u64_at(b, z + 1) as int;
                let q = z + 9;
                if q + 24 * n > b.len() {
                    Err(ColmapError::UnexpectedEof)
                } else {
                    Ok(
                        (
                            ImageView {
                                id: i32_at(b, p),
                                quat: (
                                    ScalarView::Binary64(u64_at(b, p + 12)),
                                    ScalarView::Binary64(u64_at(b, p + 20)),
                                    ScalarView::Binary64(u64_at(b, p + 28)),
                                    ScalarView::Binary64(u64_at(b, p + 4)),
                                ),
                                tvec: (
                                    ScalarView::Binary64(u64_at(b, p + 36)),
                                    ScalarView::Binary64(u64_at(b, p + 44)),
                                    ScalarView::Binary64(u64_at(b, p + 52)),
                                ),
                                camera_id: i32_at(b, p + 60),
                                name: decode_utf8(b.subrange(p + 64, z)),
                                xys: Seq::new(
                                    n as nat,
                                    |j: int|
                                        (
                                            ScalarView::Binary64(u64_at(b, q + 24 * j)),
                                            ScalarView::Binary64(u64_at(b, q + 24 * j + 8)),
                                        ),
                                ),
                                point3d_ids: Seq::new(n as nat, |j: int| i64_at(b, q + 24 * j + 16)),
                            },
                            q + 24 * n,
                        ),
                    )
                }
            },
        }
    }
}

/// The next `left` image records from byte `p` on, added to `acc`.
pub open spec fn images_from_records(
    b: Seq<u8>,
    p: int,
    left: nat,
    acc: Map<i32, ImageView>,
) -> Result<Map<i32, ImageView>, ColmapError>
    decreases left,
{
    if left == 0 {
        Ok(acc)
    } else {
        match image_record(b, p) {
            Ok((img, q)) => images_from_records(b, q, (left - 1) as nat, acc.insert(img.id, img)),
            Err(e) => Err(e),
        }
    }
}

/// The images of a binary input: a `u64` count, then that many records.
pub open spec fn images_binary(b: Seq<u8>) -> Result<Map<i32, ImageView>, ColmapError> {
    if b.len() < 8 {
        Err(ColmapError::UnexpectedEof)
    } else {
        images_from_records(b, 8, u64_at(b, 0) as nat, Map::empty())
    }
}

/// The view of a read's outcome.
pub open spec fn images_outcome(r: Result<HashMap<i32, Image>, ColmapError>) -> Result<
    Map<i32, ImageView>,
    ColmapError,
> {
    match r {
        Ok(m) => Ok(images_view(m@)),
        Err(e) => Err(e),
    }
}

/// The fields of an image's first line.
fn head_field_list() -> (r: Vec<Field>)
    ensures
        r@ == head_fields(),
{
    let r: Vec<Field> = vec![
        Field::I32,
        Field::Float,
        Field::Float,
        Field::Float,
        Field::Float,
        Field::Float,
        Field::Float,
        Field::Float,
        Field::I32,
        Field::Word,
    ];
    proof {
        assert(r@ =~= head_fields());
    }
    r
}

/// The fields of an observation line of `n` tokens.
fn observation_field_list(n: usize) -> (r: Vec<Field>)
    ensures
        r@ == observation_fields(n as nat),
{
    let mut r: Vec<Field> = Vec::new();
    let mut k: usize = 0;
    while k < n
        invariant
            k <= n,
            r@ == observation_fields(k as nat),
        decreases n - k,
    {
        let f = if k % 3 == 2 {
            Field::I64
        } else {
            Field::Float
        };
        r.push(f);
        k = k + 1;
        proof {
            assert(r@ =~= observation_fields(k as nat));
        }
    }
    r
}

/// Reads the image whose first line has tokens `head` (line `line`) and
/// whose observation line has tokens `obs`.
fn image_from_lines(
    s: &[u8],
    head: &Vec<(usize, usize)>,
    obs: &Vec<(usize, usize)>,
    line: usize,
) -> (r: Result<Image, ColmapError>)
    requires
        spans_within(head@, s@.len() as int),
        spans_within(obs@, s@.len() as int),
        line < usize::MAX,
    ensures
        outcome(r) == image_from_tokens(span_texts(s@, head@), span_texts(s@, obs@), line as int),
{
    let ghost a = span_texts(s@, head@);
    let ghost o = span_texts(s@, obs@);
    if head.len() < 10 {
        return Err(ColmapError::MalformedRecord);
    }
    let hf = head_field_list();
    let bad: usize = first_bad_token(s, head, &hf);
    if bad < 10 {
        return Err(ColmapError::ParseError { line, token: bad });
    }
    proof {
        lemma_first_bad_none(a, hf@, 0);
        assert(crate::fields::field_ok(head_field(0), a[0]));
        assert(crate::fields::field_ok(head_field(8), a[8]));
    }
    let name = match decode_name(token(s, head, 9)) {
        Some(n) => n,
        None => {
            return Err(ColmapError::InvalidEncoding);
        },
    };
    let m: usize = obs.len();
    if m % 3 != 0 {
        return Err(ColmapError::MalformedRecord);
    }
    let of = observation_field_list(m);
    let bad_obs: usize = first_bad_token(s, obs, &of);
    if bad_obs < m {
        return Err(ColmapError::ParseError { line: line + 1, token: bad_obs });
    }
    proof {
        lemma_first_bad_none(o, of@, 0);
    }
    let id: i32 = i32_of(token(s, head, 0));
    let quat = Quaternion {
        x: decimal_of(token(s, head, 2)),
        y: decimal_of(token(s, head, 3)),
        z: decimal_of(token(s, head, 4)),
        w: decimal_of(token(s, head, 1)),
    };
    let tvec = Vector3 {
        x: decimal_of(token(s, head, 5)),
        y: decimal_of(token(s, head, 6)),
        z: decimal_of(token(s, head, 7)),
    };
    let camera_id: i32 = i32_of(token(s, head, 8));
    let count: usize = m / 3;
    let ghost want_xys = Seq::new(
        count as nat,
        |j: int| (ScalarView::Decimal(o[3 * j]), ScalarView::Decimal(o[3 * j + 1])),
    );
    let ghost want_ids = Seq::new(count as nat, |j: int| i64_token(o[3 * j + 2]).unwrap());
    let mut xys: Vec<Vector2> = Vec::new();
    let mut point3d_ids: Vec<i64> = Vec::new();
    let mut j: usize = 0;
    while j < count
        invariant
            m == obs@.len(),
            o == span_texts(s@, obs@),
            spans_within(obs@, s@.len() as int),
            count == m / 3,
            3 * count == m,
            j <= count,
            forall|k: int| 0 <= k < m ==> crate::fields::field_ok(observation_field(k), #[trigger] o[k]),
            want_xys == Seq::new(
                count as nat,
                |j: int| (ScalarView::Decimal(o[3 * j]), ScalarView::Decimal(o[3 * j + 1])),
            ),
            want_ids == Seq::new(count as nat, |j: int| i64_token(o[3 * j + 2]).unwrap()),
            xys@.map_values(|v: Vector2| v@) == want_xys.take(j as int),
            point3d_ids@ == want_ids.take(j as int),
        decreases count - j,
    {
        proof {
            assert(crate::fields::field_ok(observation_field(3 * j + 2), o[3 * j + 2]));
        }
        let v = Vector2 { x: decimal_of(token(s, obs, 3 * j)), y: decimal_of(token(s, obs, 3 * j + 1)) };
        let pid: i64 = i64_of(token(s, obs, 3 * j + 2));
        let ghost before = xys@;
        xys.push(v);
        point3d_ids.push(pid);
        proof {
            assert(xys@.map_values(|v: Vector2| v@) =~= before.map_values(|v: Vector2| v@).push(v@));
            assert(want_xys.take(j + 1) =~= want_xys.take(j as int).push(want_xys[j as int]));
            assert(want_ids.take(j + 1) =~= want_ids.take(j as int).push(pid));
        }
        j = j + 1;
    }
    proof {
        assert(want_xys.take(count as int) =~= want_xys);
        assert(want_ids.take(count as int) =~= want_ids);
    }
    Ok(Image { id, quat, tvec, camera_id, name, xys, point3d_ids })
}

/// Reads images from their text form: each image is a first line (passed
/// over when it is a `#` comment or blank) and the line after it, which
/// holds the observations.
pub fn read_images_text(s: &[u8]) -> (r: Result<HashMap<i32, Image>, ColmapError>)
    ensures
        images_outcome(r) == images_text(s@),
{
    let spans = line_spans(s);
    let ghost ls = lines(s@);
    let mut acc: HashMap<i32, Image> = HashMap::new();
    let mut i: usize = 0;
    proof {
        assert(images_view(acc@) =~= Map::empty());
    }
    while i < spans.len()
        invariant
            ls == lines(s@),
            spans_within(spans@, s@.len() as int),
            span_texts(s@, spans@) == ls,
            i <= spans@.len(),
            images_text(s@) == images_from_lines(ls, i as int, images_view(acc@)),
        decreases spans@.len() - i,
    {
        let (a, b): (usize, usize) = spans[i];
        let head = token_spans(s, a, b);
        proof {
            assert(ls[i as int] == s@.subrange(a as int, b as int));
        }
        let comment: bool = a < b && s[a] == 35;
        if comment || head.len() == 0 {
            i = i + 1;
            continue;
        }
        let obs = if i + 1 < spans.len() {
            let (c, d): (usize, usize) = spans[i + 1];
            proof {
                assert(ls[i + 1] == s@.subrange(c as int, d as int));
            }
            token_spans(s, c, d)
        } else {
            Vec::new()
        };
        proof {
            assert(span_texts(s@, obs@) =~= tokens_of_line(ls, i + 1));
        }
        match image_from_lines(s, &head, &obs, i) {
            Ok(img) => {
                proof {
                    assert(images_view(acc@.insert(img.id, img)) =~= images_view(acc@).insert(
                        img.id,
                        img@,
                    ));
                }
                acc.insert(img.id, img);
            },
            Err(e) => {
                return Err(e);
            },
        }
        if i + 1 < spans.len() {
            i = i + 2;
        } else {
            i = spans.len();
        }
    }
    Ok(acc)
}

/// Reads the image record at byte `pos`, and where the next one starts.
fn image_at(b: &[u8], pos: usize) -> (r: Result<(Image, usize), ColmapError>)
    requires
        pos <= b@.len(),
    ensures
        outcome_at(r) == image_record(b@, pos as int),
        r matches Ok((_, q)) ==> q <= b@.len(),
{
    reveal(image_record);
    let n: usize = b.len();
    if n - pos < 64 {
        return Err(ColmapError::UnexpectedEof);
    }
    let id: i32 = read_i32(b, pos);
    let quat = Quaternion {
        x: Scalar::Binary64(read_u64(b, pos + 12)),
        y: Scalar::Binary64(read_u64(b, pos + 20)),
        z: Scalar::Binary64(read_u64(b, pos + 28)),
        w: Scalar::Binary64(read_u64(b, pos + 4)),
    };
    let tvec = Vector3 {
        x: Scalar::Binary64(read_u64(b, pos + 36)),
        y: Scalar::Binary64(read_u64(b, pos + 44)),
        z: Scalar::Binary64(read_u64(b, pos + 52)),
    };
    let camera_id: i32 = read_i32(b, pos + 60);
    let z: usize = match find_nul(b, pos + 64) {
        Some(z) => z,
        None => {
            return Err(ColmapError::UnexpectedEof);
        },
    };
    proof {
        lemma_nul_from_range(b@, pos + 64, z as int);
    }
    let name = match decode_name(slice_subrange(b, pos + 64, z)) {
        Some(name) => name,
        None => {
            return Err(ColmapError::InvalidEncoding);
        },
    };
    if n - z < 9 {
        return Err(ColmapError::UnexpectedEof);
    }
    let len: u64 = read_u64(b, z + 1);
    let start: usize = z + 9;
    let room: u64 = ((n - start) / 24) as u64;
    if room < len {
        proof {
            assert(start + 24 * len > n) by (nonlinear_arith)
                requires
                    ((n - start) / 24) < len,
                    start <= n,
            ;
        }
        return Err(ColmapError::UnexpectedEof);
    }
    let count: usize = len as usize;
    proof {
        assert(start + 24 * count <= n) by (nonlinear_arith)
            requires
                count <= (n - start) / 24,
                start <= n,
        ;
    }
    let ghost want_xys = Seq::new(
        count as nat,
        |j: int|
            (
                ScalarView::Binary64(u64_at(b@, start + 24 * j)),
                ScalarView::Binary64(u64_at(b@, start + 24 * j + 8)),
            ),
    );
    let ghost want_ids = Seq::new(count as nat, |j: int| i64_at(b@, start + 24 * j + 16));
    let mut xys: Vec<Vector2> = Vec::new();
    let mut point3d_ids: Vec<i64> = Vec::new();
    let mut j: usize = 0;
    while j < count
        invariant
            n == b@.len(),
            start + 24 * count <= n,
            j <= count,
            want_xys == Seq::new(
                count as nat,
                |j: int|
                    (
                        ScalarView::Binary64(u64_at(b@, start + 24 * j)),
                        ScalarView::Binary64(u64_at(b@, start + 24 * j + 8)),
                    ),
            ),
            want_ids == Seq::new(count as nat, |j: int| i64_at(b@, start + 24 * j + 16)),
            xys@.map_values(|v: Vector2| v@) == want_xys.take(j as int),
            point3d_ids@ == want_ids.take(j as int),
        decreases count - j,
    {
        let at: usize = start + 24 * j;
        let v = Vector2 { x: Scalar::Binary64(read_u64(b, at)), y: Scalar::Binary64(read_u64(b, at + 8)) };
        let pid: i64 = read_i64(b, at + 16);
        let ghost before = xys@;
        xys.push(v);
        point3d_ids.push(pid);
        proof {
            assert(xys@.map_values(|v: Vector2| v@) =~= before.map_values(|v: Vector2| v@).push(v@));
            assert(want_xys.take(j + 1) =~= want_xys.take(j as int).push(want_xys[j as int]));
            assert(want_ids.take(j + 1) =~= want_ids.take(j as int).push(pid));
        }
        j = j + 1;
    }
    proof {
        assert(want_xys.take(count as int) =~= want_xys);
        assert(want_ids.take(count as int) =~= want_ids);
    }
    Ok((Image { id, quat, tvec, camera_id, name, xys, point3d_ids }, start + 24 * count))
}

/// Where `nul_from` finds a zero byte, it lies at or after its start.
proof fn lemma_nul_from_range(b: Seq<u8>, i: int, z: int)
    requires
        nul_from(b, i) == Some(z),
    ensures
        0 <= i <= z < b.len(),
        b[z] == 0,
    decreases b.len() - i,
{
    if 0 <= i < b.len() && b[i] != 0 {
        lemma_nul_from_range(b, i + 1, z);
    }
}

/// Reads images from their binary form: a `u64` count, then for each image
/// an `i32` id, the quaternion (w, x, y, z) and translation (x, y, z) as
/// binary64, an `i32` camera id, a zero-terminated UTF-8 name, a `u64`
/// observation count and that many (binary64 x, binary64 y, `i64` point id)
/// triples, all little-endian.
pub fn read_images_binary(b: &[u8]) -> (r: Result<HashMap<i32, Image>, ColmapError>)
    ensures
        images_outcome(r) == images_binary(b@),
{
    if b.len() < 8 {
        return Err(ColmapError::UnexpectedEof);
    }
    let count: u64 = read_u64(b, 0);
    let mut acc: HashMap<i32, Image> = HashMap::new();
    let mut pos: usize = 8;
    let mut k: u64 = 0;
    proof {
        assert(images_view(acc@) =~= Map::empty());
    }
    while k < count
        invariant
            pos <= b@.len(),
            k <= count,
            images_binary(b@) == images_from_records(
                b@,
                pos as int,
                (count - k) as nat,
                images_view(acc@),
            ),
        decreases count - k,
    {
        match image_at(b, pos) {
            Ok((img, q)) => {
                proof {
                    assert(images_view(acc@.insert(img.id, img)) =~= images_view(acc@).insert(
                        img.id,
                        img@,
                    ));
                }
                acc.insert(img.id, img);
                pos = q;
            },
            Err(e) => {
                return Err(e);
            },
        }
        k = k + 1;
    }
    Ok(acc)
}

/// Reads images from either form.
pub fn read_images(data: &[u8], binary: bool) -> (r: Result<HashMap<i32, Image>, ColmapError>)
    ensures
        binary ==> images_outcome(r) == images_binary(data@),
        !binary ==> images_outcome(r) == images_text(data@),
{
    if binary {
        read_images_binary(data)
    } else {
        read_images_text(data)
    }
}

} // verus!
