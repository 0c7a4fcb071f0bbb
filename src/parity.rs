//! The text and binary forms of one reconstruction read as the same
//! entities. A floating-point value is given in both of its encodings, a
//! decimal literal for the text form and binary64 bits for the binary form;
//! that the two denote the same number is owed by whoever writes both forms,
//! and the readers carry each one as written.
use crate::bytes::u64_at;
use crate::cameras::{camera_from_tokens, camera_record, cameras_binary, cameras_from_lines, cameras_from_records, cameras_text};
use crate::encode::{
    flat_pairs, le_i64, lemma_flat_pairs, lemma_i64_text, lemma_read_i64, lemma_u8_text,
    flat64, int_text, is_word, join_lines, join_words, le_i32, le_u64, lemma_field_lengths,
    lemma_first_bad_all_ok, lemma_flat64, lemma_i32_text, lemma_join_first, lemma_join_no_newline,
    lemma_lines_of_join, lemma_read_i32, lemma_read_u64, lemma_tokens_of_join, lemma_u64_text,
    no_newline,
};
use crate::fields::{field_ok, first_bad};
use crate::model::{
    as_chars, lemma_model_id_injective, lemma_model_name_injective, model_id, model_name,
    model_with_id, model_with_name, param_count, CameraModel,
};
use crate::bytes::nul_from;
use crate::images::{image_from_tokens, image_record, images_binary, images_from_lines, images_from_records, images_text, tokens_of_line};
use crate::points::{point_from_tokens, point_record, points_binary, points_from_lines, points_from_records, points_text};
use crate::text::{float_literal, i32_token, i64_token, is_skipped, is_space, lines, tokens};
use crate::types::{CameraView, ImageView, PointView, ScalarView};
use vstd::utf8::{decode_utf8, valid_utf8};
use vstd::prelude::*;

verus! {

/// One floating-point value in both encodings.
pub struct Real {
    pub decimal: Seq<u8>,
    pub bits: u64,
}

/// A decimal encoding that the text form can carry: a float literal, and
/// so a single token.
pub open spec fn real_ok(r: Real) -> bool {
    is_word(r.decimal) && float_literal(r.decimal)
}

/// A camera of a reconstruction, with its parameters in both encodings.
pub struct CameraRecord {
    pub id: i32,
    pub model: CameraModel,
    pub width: u64,
    pub height: u64,
    pub params: Seq<Real>,
}

pub open spec fn camera_record_ok(c: CameraRecord) -> bool {
    &&& c.params.len() == param_count(c.model)
    &&& forall|j: int| 0 <= j < c.params.len() ==> real_ok(#[trigger] c.params[j])
}

/// The camera as the text form gives it.
pub open spec fn decimal_camera(c: CameraRecord) -> CameraView {
    CameraView {
        id: c.id,
        model: c.model,
        width: c.width,
        height: c.height,
        params: c.params.map_values(|r: Real| ScalarView::Decimal(r.decimal)),
    }
}

/// The camera as the binary form gives it.
pub open spec fn binary_camera(c: CameraRecord) -> CameraView {
    CameraView {
        id: c.id,
        model: c.model,
        width: c.width,
        height: c.height,
        params: c.params.map_values(|r: Real| ScalarView::Binary64(r.bits)),
    }
}

/// The cameras of `cs` from index `i` on, added to `acc`; a later camera
/// replaces an earlier one with the same id.
pub open spec fn cameras_of(cs: Seq<CameraRecord>, i: int, acc: Map<i32, CameraRecord>) -> Map<
    i32,
    CameraRecord,
>
    decreases cs.len() - i,
{
    if i < 0 || i >= cs.len() {
        acc
    } else {
        cameras_of(cs, i + 1, acc.insert(cs[i].id, cs[i]))
    }
}

pub open spec fn decimal_cameras(m: Map<i32, CameraRecord>) -> Map<i32, CameraView> {
    m.map_values(|c: CameraRecord| decimal_camera(c))
}

pub open spec fn binary_cameras(m: Map<i32, CameraRecord>) -> Map<i32, CameraView> {
    m.map_values(|c: CameraRecord| binary_camera(c))
}

/// The bytes of a model's name.
pub open spec fn name_bytes(m: CameraModel) -> Seq<u8> {
    model_name(m).map_values(|ch: char| ch as u8)
}

/// The tokens of a camera line.
pub open spec fn camera_words(c: CameraRecord) -> Seq<Seq<u8>> {
    seq![int_text(c.id as int), name_bytes(c.model), int_text(c.width as int), int_text(c.height as int)]
        + c.params.map_values(|r: Real| r.decimal)
}

pub open spec fn camera_lines(cs: Seq<CameraRecord>) -> Seq<Seq<u8>> {
    cs.map_values(|c: CameraRecord| join_words(camera_words(c)))
}

/// The text form of cameras: one line each.
pub open spec fn cameras_text_of(cs: Seq<CameraRecord>) -> Seq<u8> {
    join_lines(camera_lines(cs))
}

/// The binary record of a camera.
pub open spec fn camera_bytes(c: CameraRecord) -> Seq<u8> {
    le_i32(c.id) + le_i32(model_id(c.model)) + le_u64(c.width) + le_u64(c.height) + flat64(
        c.params.map_values(|r: Real| r.bits),
    )
}

/// The binary records of the cameras of `cs` from index `i` on.
pub open spec fn camera_bytes_from(cs: Seq<CameraRecord>, i: int) -> Seq<u8>
    decreases cs.len() - i,
{
    if i < 0 || i >= cs.len() {
        seq![]
    } else {
        camera_bytes(cs[i]) + camera_bytes_from(cs, i + 1)
    }
}

/// The binary form of cameras: their count, then their records.
pub open spec fn cameras_binary_of(cs: Seq<CameraRecord>) -> Seq<u8> {
    le_u64(cs.len() as u64) + camera_bytes_from(cs, 0)
}

proof fn lemma_name_bytes(m: CameraModel)
    ensures
        is_word(name_bytes(m)),
        name_bytes(m)[0] != 35,
        model_with_name(name_bytes(m)) == Some(m),
{
    reveal_strlit("SIMPLE_PINHOLE");
    reveal_strlit("PINHOLE");
    reveal_strlit("SIMPLE_RADIAL");
    reveal_strlit("RADIAL");
    reveal_strlit("OPENCV");
    reveal_strlit("OPENCV_FISHEYE");
    reveal_strlit("FULL_OPENCV");
    reveal_strlit("FOV");
    reveal_strlit("SIMPLE_RADIAL_FISHEYE");
    reveal_strlit("RADIAL_FISHEYE");
    reveal_strlit("THIN_PRISM_FISHEYE");
    let n = model_name(m);
    let b = name_bytes(m);
    assert(forall|i: int| 0 <= i < n.len() ==> 65 <= (#[trigger] n[i]) as u32 <= 95);
    assert(as_chars(b) =~= n);
    assert forall|i: int| 0 <= i < b.len() implies !is_space(#[trigger] b[i]) by {
        assert(65 <= n[i] as u32 <= 95);
    }
    lemma_model_name_injective();
}

proof fn lemma_camera_line(c: CameraRecord, line: int)
    requires
        camera_record_ok(c),
    ensures
        tokens(join_words(camera_words(c))) == camera_words(c),
        no_newline(join_words(camera_words(c))),
        !is_skipped(join_words(camera_words(c))),
        camera_from_tokens(camera_words(c), line) == Ok::<CameraView, crate::types::ColmapError>(
            decimal_camera(c),
        ),
{
    let t = camera_words(c);
    lemma_i32_text(c.id);
    lemma_u64_text(c.width);
    lemma_u64_text(c.height);
    lemma_name_bytes(c.model);
    assert forall|k: int| 0 <= k < t.len() implies is_word(#[trigger] t[k]) by {
        if k >= 4 {
            assert(t[k] == c.params[k - 4].decimal);
            assert(real_ok(c.params[k - 4]));
        }
    }
    lemma_tokens_of_join(t);
    lemma_join_no_newline(t);
    lemma_join_first(t);
    let fs = crate::cameras::camera_fields(t.len());
    assert forall|k: int| 0 <= k < fs.len() implies field_ok(fs[k], #[trigger] t[k]) by {
        if k >= 4 {
            assert(t[k] == c.params[k - 4].decimal);
            assert(real_ok(c.params[k - 4]));
        }
    }
    lemma_first_bad_all_ok(t, fs, 0);
    assert(t.skip(4).map_values(|d: Seq<u8>| ScalarView::Decimal(d)) =~= c.params.map_values(
        |r: Real| ScalarView::Decimal(r.decimal),
    ));
}

#[verifier::rlimit(40)]
proof fn lemma_camera_bytes(pre: Seq<u8>, c: CameraRecord, post: Seq<u8>)
    requires
        camera_record_ok(c),
    ensures
        camera_bytes(c).len() == 24 + 8 * c.params.len(),
        camera_record(pre + camera_bytes(c) + post, pre.len() as int) == Ok::<
            (CameraView, int),
            crate::types::ColmapError,
        >((binary_camera(c), (pre.len() + camera_bytes(c).len()) as int)),
{
    lemma_field_lengths();
    let bits = c.params.map_values(|r: Real| r.bits);
    lemma_flat64(bits);
    let r = camera_bytes(c);
    let b = pre + r + post;
    let p = pre.len() as int;
    assert(b.subrange(p, p + 4) =~= le_i32(c.id));
    lemma_read_i32(b, p, c.id);
    assert(b.subrange(p + 4, p + 8) =~= le_i32(model_id(c.model)));
    lemma_read_i32(b, p + 4, model_id(c.model));
    lemma_model_id_injective();
    assert(model_with_id(model_id(c.model)) == Some(c.model));
    assert(b.subrange(p + 8, p + 16) =~= le_u64(c.width));
    lemma_read_u64(b, p + 8, c.width);
    assert(b.subrange(p + 16, p + 24) =~= le_u64(c.height));
    lemma_read_u64(b, p + 16, c.height);
    let n = param_count(c.model);
    assert forall|k: int| 0 <= k < n implies crate::bytes::u64_at(b, p + 24 + 8 * k) == (
    #[trigger] c.params[k]).bits by {
        assert(b.subrange(p + 24 + 8 * k, p + 24 + 8 * k + 8) =~= flat64(bits).subrange(
            8 * k,
            8 * k + 8,
        ));
        assert(bits[k] == c.params[k].bits);
        lemma_read_u64(b, p + 24 + 8 * k, c.params[k].bits);
    }
    assert(Seq::new(n, |k: int| ScalarView::Binary64(u64_at(b, p + 24 + 8 * k)))
        =~= c.params.map_values(|r: Real| ScalarView::Binary64(r.bits)));
}

#[verifier::rlimit(40)]
proof fn lemma_cameras_text_fold(cs: Seq<CameraRecord>, i: int, acc: Map<i32, CameraRecord>)
    requires
        0 <= i <= cs.len(),
        forall|k: int| 0 <= k < cs.len() ==> camera_record_ok(#[trigger] cs[k]),
    ensures
        cameras_from_lines(camera_lines(cs), i, decimal_cameras(acc)) == Ok::<
            Map<i32, CameraView>,
            crate::types::ColmapError,
        >(decimal_cameras(cameras_of(cs, i, acc))),
    decreases cs.len() - i,
{
    let ls = camera_lines(cs);
    if i < cs.len() {
        let c = cs[i];
        assert(camera_record_ok(c));
        lemma_camera_line(c, i);
        assert(ls[i] == join_words(camera_words(c)));
        assert(decimal_cameras(acc).insert(c.id, decimal_camera(c)) =~= decimal_cameras(
            acc.insert(c.id, c),
        ));
        lemma_cameras_text_fold(cs, i + 1, acc.insert(c.id, c));
    }
}

#[verifier::rlimit(40)]
proof fn lemma_cameras_binary_fold(
    cs: Seq<CameraRecord>,
    pre: Seq<u8>,
    i: int,
    acc: Map<i32, CameraRecord>,
)
    requires
        0 <= i <= cs.len(),
        forall|k: int| 0 <= k < cs.len() ==> camera_record_ok(#[trigger] cs[k]),
    ensures
        cameras_from_records(
            pre + camera_bytes_from(cs, i),
            pre.len() as int,
            (cs.len() - i) as nat,
            binary_cameras(acc),
        ) == Ok::<Map<i32, CameraView>, crate::types::ColmapError>(
            binary_cameras(cameras_of(cs, i, acc)),
        ),
    decreases cs.len() - i,
{
    if i < cs.len() {
        let c = cs[i];
        assert(camera_record_ok(c));
        let rest = camera_bytes_from(cs, i + 1);
        let b = pre + camera_bytes_from(cs, i);
        assert(b =~= pre + camera_bytes(c) + rest);
        lemma_camera_bytes(pre, c, rest);
        let pre2 = pre + camera_bytes(c);
        assert(b =~= pre2 + rest);
        assert(binary_cameras(acc).insert(c.id, binary_camera(c)) =~= binary_cameras(
            acc.insert(c.id, c),
        ));
        lemma_cameras_binary_fold(cs, pre2, i + 1, acc.insert(c.id, c));
    } else {
        assert(pre + camera_bytes_from(cs, i) =~= pre);
    }
}

/// The text form and the binary form of the same cameras read as the same
/// map: each reader returns, for every id, the same camera, its parameters
/// carried in the encoding of its own form.
pub proof fn lemma_camera_forms_agree(cs: Seq<CameraRecord>)
    requires
        cs.len() <= u64::MAX,
        forall|k: int| 0 <= k < cs.len() ==> camera_record_ok(#[trigger] cs[k]),
    ensures
        cameras_text(cameras_text_of(cs)) == Ok::<Map<i32, CameraView>, crate::types::ColmapError>(
            decimal_cameras(cameras_of(cs, 0, Map::empty())),
        ),
        cameras_binary(cameras_binary_of(cs)) == Ok::<
            Map<i32, CameraView>,
            crate::types::ColmapError,
        >(binary_cameras(cameras_of(cs, 0, Map::empty()))),
{
    let ls = camera_lines(cs);
    assert forall|k: int| 0 <= k < ls.len() implies no_newline(#[trigger] ls[k]) by {
        assert(camera_record_ok(cs[k]));
        lemma_camera_line(cs[k], k);
    }
    lemma_lines_of_join(ls);
    assert(decimal_cameras(Map::empty()) =~= Map::empty());
    assert(binary_cameras(Map::empty()) =~= Map::empty());
    lemma_cameras_text_fold(cs, 0, Map::empty());
    let head = le_u64(cs.len() as u64);
    let b = cameras_binary_of(cs);
    lemma_field_lengths();
    assert(b.subrange(0, 8) =~= head);
    lemma_read_u64(b, 0, cs.len() as u64);
    lemma_cameras_binary_fold(cs, head, 0, Map::empty());
}

/// A point of a reconstruction, with its floating-point fields in both
/// encodings.
pub struct PointRecord {
    pub id: i64,
    pub xyz: (Real, Real, Real),
    pub rgb: Seq<u8>,
    pub error: Real,
    pub image_ids: Seq<i32>,
    pub point2d_idxs: Seq<i32>,
}

pub open spec fn point_record_ok(p: PointRecord) -> bool {
    &&& real_ok(p.xyz.0) && real_ok(p.xyz.1) && real_ok(p.xyz.2) && real_ok(p.error)
    &&& p.rgb.len() == 3
    &&& p.image_ids.len() == p.point2d_idxs.len()
    &&& p.image_ids.len() <= u64::MAX
}

/// The point as the text form gives it.
pub open spec fn decimal_point(p: PointRecord) -> PointView {
    PointView {
        id: p.id,
        xyz: (
            ScalarView::Decimal(p.xyz.0.decimal),
            ScalarView::Decimal(p.xyz.1.decimal),
            ScalarView::Decimal(p.xyz.2.decimal),
        ),
        rgb: p.rgb,
        error: ScalarView::Decimal(p.error.decimal),
        image_ids: p.image_ids,
        point2d_idxs: p.point2d_idxs,
    }
}

/// The point as the binary form gives it.
pub open spec fn binary_point(p: PointRecord) -> PointView {
    PointView {
        id: p.id,
        xyz: (
            ScalarView::Binary64(p.xyz.0.bits),
            ScalarView::Binary64(p.xyz.1.bits),
            ScalarView::Binary64(p.xyz.2.bits),
        ),
        rgb: p.rgb,
        error: ScalarView::Binary64(p.error.bits),
        image_ids: p.image_ids,
        point2d_idxs: p.point2d_idxs,
    }
}

/// The points of `ps` from index `i` on, added to `acc`.
pub open spec fn points_of(ps: Seq<PointRecord>, i: int, acc: Map<i64, PointRecord>) -> Map<
    i64,
    PointRecord,
>
    decreases ps.len() - i,
{
    if i < 0 || i >= ps.len() {
        acc
    } else {
        points_of(ps, i + 1, acc.insert(ps[i].id, ps[i]))
    }
}

pub open spec fn decimal_points(m: Map<i64, PointRecord>) -> Map<i64, PointView> {
    m.map_values(|p: PointRecord| decimal_point(p))
}

pub open spec fn binary_points(m: Map<i64, PointRecord>) -> Map<i64, PointView> {
    m.map_values(|p: PointRecord| binary_point(p))
}

/// The tokens of a point line: the eight leading fields, then the track.
pub open spec fn point_words(p: PointRecord) -> Seq<Seq<u8>> {
    seq![
        int_text(p.id as int),
        p.xyz.0.decimal,
        p.xyz.1.decimal,
        p.xyz.2.decimal,
        int_text(p.rgb[0] as int),
        int_text(p.rgb[1] as int),
        int_text(p.rgb[2] as int),
        p.error.decimal,
    ] + Seq::new(
        2 * p.image_ids.len(),
        |k: int|
            if k % 2 == 0 {
                int_text(p.image_ids[k / 2] as int)
            } else {
                int_text(p.point2d_idxs[k / 2] as int)
            },
    )
}

pub open spec fn point_lines(ps: Seq<PointRecord>) -> Seq<Seq<u8>> {
    ps.map_values(|p: PointRecord| join_words(point_words(p)))
}

/// The text form of points: one line each.
pub open spec fn points_text_of(ps: Seq<PointRecord>) -> Seq<u8> {
    join_lines(point_lines(ps))
}

/// The binary record of a point.
pub open spec fn point_bytes(p: PointRecord) -> Seq<u8> {
    le_i64(p.id) + le_u64(p.xyz.0.bits) + le_u64(p.xyz.1.bits) + le_u64(p.xyz.2.bits) + p.rgb
        + le_u64(p.error.bits) + le_u64(p.image_ids.len() as u64) + flat_pairs(
        p.image_ids,
        p.point2d_idxs,
    )
}

/// The binary records of the points of `ps` from index `i` on.
pub open spec fn point_bytes_from(ps: Seq<PointRecord>, i: int) -> Seq<u8>
    decreases ps.len() - i,
{
    if i < 0 || i >= ps.len() {
        seq![]
    } else {
        point_bytes(ps[i]) + point_bytes_from(ps, i + 1)
    }
}

/// The binary form of points: their count, then their records.
pub open spec fn points_binary_of(ps: Seq<PointRecord>) -> Seq<u8> {
    le_u64(ps.len() as u64) + point_bytes_from(ps, 0)
}

#[verifier::rlimit(40)]
proof fn lemma_point_line(p: PointRecord, line: int)
    requires
        point_record_ok(p),
    ensures
        tokens(join_words(point_words(p))) == point_words(p),
        no_newline(join_words(point_words(p))),
        !is_skipped(join_words(point_words(p))),
        point_from_tokens(point_words(p), line) == Ok::<PointView, crate::types::ColmapError>(
            decimal_point(p),
        ),
{
    let t = point_words(p);
    let n = p.image_ids.len();
    lemma_i64_text(p.id);
    lemma_u8_text(p.rgb[0]);
    lemma_u8_text(p.rgb[1]);
    lemma_u8_text(p.rgb[2]);
    assert forall|j: int| 0 <= j < n implies t[8 + 2 * j] == int_text(
        #[trigger] p.image_ids[j] as int,
    ) && t[9 + 2 * j] == int_text(p.point2d_idxs[j] as int) by {
        assert((2 * j) % 2 == 0 && (2 * j) / 2 == j);
        assert((2 * j + 1) % 2 == 1 && (2 * j + 1) / 2 == j);
    }
    assert forall|k: int| 0 <= k < t.len() implies is_word(#[trigger] t[k]) && field_ok(
        crate::points::point_field(k),
        t[k],
    ) by {
        if k >= 8 {
            let j = (k - 8) / 2;
            lemma_i32_text(p.image_ids[j]);
            lemma_i32_text(p.point2d_idxs[j]);
            if (k - 8) % 2 == 0 {
                assert(k == 8 + 2 * j);
            } else {
                assert(k == 9 + 2 * j);
            }
        }
    }
    lemma_tokens_of_join(t);
    lemma_join_no_newline(t);
    lemma_join_first(t);
    let fs = crate::points::point_fields(t.len());
    lemma_first_bad_all_ok(t, fs, 0);
    assert(Seq::new(n, |j: int| i32_token(t[8 + 2 * j]).unwrap()) =~= p.image_ids) by {
        assert forall|j: int| 0 <= j < n implies i32_token(t[8 + 2 * j]).unwrap()
            == #[trigger] p.image_ids[j] by {
            lemma_i32_text(p.image_ids[j]);
        }
    }
    assert(Seq::new(n, |j: int| i32_token(t[9 + 2 * j]).unwrap()) =~= p.point2d_idxs) by {
        assert forall|j: int| 0 <= j < n implies i32_token(t[9 + 2 * j]).unwrap()
            == #[trigger] p.point2d_idxs[j] by {
            assert(t[9 + 2 * j] == int_text(p.point2d_idxs[j] as int));
            lemma_i32_text(p.point2d_idxs[j]);
        }
    }
    assert(seq![p.rgb[0], p.rgb[1], p.rgb[2]] =~= p.rgb);
    assert(((t.len() - 8) / 2) as nat == n);
}

#[verifier::rlimit(40)]
proof fn lemma_point_bytes(pre: Seq<u8>, p: PointRecord, post: Seq<u8>)
    requires
        point_record_ok(p),
    ensures
        point_bytes(p).len() == 51 + 8 * p.image_ids.len(),
        point_record(pre + point_bytes(p) + post, pre.len() as int) == Ok::<
            (PointView, int),
            crate::types::ColmapError,
        >((binary_point(p), (pre.len() + point_bytes(p).len()) as int)),
{
    lemma_field_lengths();
    let n = p.image_ids.len();
    lemma_flat_pairs(p.image_ids, p.point2d_idxs);
    let r = point_bytes(p);
    let b = pre + r + post;
    let q = pre.len() as int;
    assert(b.subrange(q, q + 8) =~= le_i64(p.id));
    lemma_read_i64(b, q, p.id);
    assert(b.subrange(q + 8, q + 16) =~= le_u64(p.xyz.0.bits));
    lemma_read_u64(b, q + 8, p.xyz.0.bits);
    assert(b.subrange(q + 16, q + 24) =~= le_u64(p.xyz.1.bits));
    lemma_read_u64(b, q + 16, p.xyz.1.bits);
    assert(b.subrange(q + 24, q + 32) =~= le_u64(p.xyz.2.bits));
    lemma_read_u64(b, q + 24, p.xyz.2.bits);
    assert(b[q + 32] == p.rgb[0] && b[q + 33] == p.rgb[1] && b[q + 34] == p.rgb[2]);
    assert(seq![b[q + 32], b[q + 33], b[q + 34]] =~= p.rgb);
    assert(b.subrange(q + 35, q + 43) =~= le_u64(p.error.bits));
    lemma_read_u64(b, q + 35, p.error.bits);
    assert(b.subrange(q + 43, q + 51) =~= le_u64(n as u64));
    lemma_read_u64(b, q + 43, n as u64);
    let f = flat_pairs(p.image_ids, p.point2d_idxs);
    assert forall|j: int| 0 <= j < n implies crate::bytes::i32_at(b, q + 51 + 8 * j)
        == #[trigger] p.image_ids[j] && crate::bytes::i32_at(b, q + 55 + 8 * j)
        == p.point2d_idxs[j] by {
        assert(b.subrange(q + 51 + 8 * j, q + 51 + 8 * j + 4) =~= f.subrange(8 * j, 8 * j + 4));
        assert(b.subrange(q + 55 + 8 * j, q + 55 + 8 * j + 4) =~= f.subrange(
            8 * j + 4,
            8 * j + 8,
        ));
        lemma_read_i32(b, q + 51 + 8 * j, p.image_ids[j]);
        lemma_read_i32(b, q + 55 + 8 * j, p.point2d_idxs[j]);
    }
    assert(Seq::new(n as nat, |j: int| crate::bytes::i32_at(b, q + 51 + 8 * j)) =~= p.image_ids);
    assert(Seq::new(n as nat, |j: int| crate::bytes::i32_at(b, q + 55 + 8 * j)) =~= p.point2d_idxs)
        by {
        assert forall|j: int| 0 <= j < n implies crate::bytes::i32_at(b, q + 55 + 8 * j)
            == #[trigger] p.point2d_idxs[j] by {
            assert(b.subrange(q + 55 + 8 * j, q + 55 + 8 * j + 4) =~= f.subrange(
                8 * j + 4,
                8 * j + 8,
            ));
            lemma_flat_pairs(p.image_ids, p.point2d_idxs);
            let x = p.image_ids[j];
            assert(f.subrange(8 * j, 8 * j + 4) == le_i32(x) && f.subrange(8 * j + 4, 8 * j + 8)
                == le_i32(p.point2d_idxs[j]));
            lemma_read_i32(b, q + 55 + 8 * j, p.point2d_idxs[j]);
        }
    }
}

#[verifier::rlimit(40)]
proof fn lemma_points_text_fold(ps: Seq<PointRecord>, i: int, acc: Map<i64, PointRecord>)
    requires
        0 <= i <= ps.len(),
        forall|k: int| 0 <= k < ps.len() ==> point_record_ok(#[trigger] ps[k]),
    ensures
        points_from_lines(point_lines(ps), i, decimal_points(acc)) == Ok::<
            Map<i64, PointView>,
            crate::types::ColmapError,
        >(decimal_points(points_of(ps, i, acc))),
    decreases ps.len() - i,
{
    let ls = point_lines(ps);
    if i < ps.len() {
        let p = ps[i];
        assert(point_record_ok(p));
        lemma_point_line(p, i);
        assert(ls[i] == join_words(point_words(p)));
        assert(decimal_points(acc).insert(p.id, decimal_point(p)) =~= decimal_points(
            acc.insert(p.id, p),
        ));
        lemma_points_text_fold(ps, i + 1, acc.insert(p.id, p));
    }
}

#[verifier::rlimit(40)]
proof fn lemma_points_binary_fold(
    ps: Seq<PointRecord>,
    pre: Seq<u8>,
    i: int,
    acc: Map<i64, PointRecord>,
)
    requires
        0 <= i <= ps.len(),
        forall|k: int| 0 <= k < ps.len() ==> point_record_ok(#[trigger] ps[k]),
    ensures
        points_from_records(
            pre + point_bytes_from(ps, i),
            pre.len() as int,
            (ps.len() - i) as nat,
            binary_points(acc),
        ) == Ok::<Map<i64, PointView>, crate::types::ColmapError>(
            binary_points(points_of(ps, i, acc)),
        ),
    decreases ps.len() - i,
{
    if i < ps.len() {
        let p = ps[i];
        assert(point_record_ok(p));
        let rest = point_bytes_from(ps, i + 1);
        let b = pre + point_bytes_from(ps, i);
        assert(b =~= pre + point_bytes(p) + rest);
        lemma_point_bytes(pre, p, rest);
        let pre2 = pre + point_bytes(p);
        assert(b =~= pre2 + rest);
        assert(binary_points(acc).insert(p.id, binary_point(p)) =~= binary_points(
            acc.insert(p.id, p),
        ));
        lemma_points_binary_fold(ps, pre2, i + 1, acc.insert(p.id, p));
    } else {
        assert(pre + point_bytes_from(ps, i) =~= pre);
    }
}

/// The text form and the binary form of the same points read as the same
/// map: each reader returns, for every id, the same point and track, its
/// position and error carried in the encoding of its own form.
pub proof fn lemma_point_forms_agree(ps: Seq<PointRecord>)
    requires
        ps.len() <= u64::MAX,
        forall|k: int| 0 <= k < ps.len() ==> point_record_ok(#[trigger] ps[k]),
    ensures
        points_text(points_text_of(ps)) == Ok::<Map<i64, PointView>, crate::types::ColmapError>(
            decimal_points(points_of(ps, 0, Map::empty())),
        ),
        points_binary(points_binary_of(ps)) == Ok::<
            Map<i64, PointView>,
            crate::types::ColmapError,
        >(binary_points(points_of(ps, 0, Map::empty()))),
{
    let ls = point_lines(ps);
    assert forall|k: int| 0 <= k < ls.len() implies no_newline(#[trigger] ls[k]) by {
        assert(point_record_ok(ps[k]));
        lemma_point_line(ps[k], k);
    }
    lemma_lines_of_join(ls);
    assert(decimal_points(Map::empty()) =~= Map::empty());
    assert(binary_points(Map::empty()) =~= Map::empty());
    lemma_points_text_fold(ps, 0, Map::empty());
    let head = le_u64(ps.len() as u64);
    let b = points_binary_of(ps);
    lemma_field_lengths();
    assert(b.subrange(0, 8) =~= head);
    lemma_read_u64(b, 0, ps.len() as u64);
    lemma_points_binary_fold(ps, head, 0, Map::empty());
}

/// An image of a reconstruction, with its floating-point fields in both
/// encodings; the rotation is held in (x, y, z, w) order.
pub struct ImageRecord {
    pub id: i32,
    pub quat: (Real, Real, Real, Real),
    pub tvec: (Real, Real, Real),
    pub camera_id: i32,
    pub name: Seq<u8>,
    pub xys: Seq<(Real, Real)>,
    pub point3d_ids: Seq<i64>,
}

/// A name that both forms can carry: one token of UTF-8 without a zero
/// byte.
pub open spec fn name_ok(name: Seq<u8>) -> bool {
    &&& is_word(name)
    &&& valid_utf8(name)
    &&& forall|i: int| 0 <= i < name.len() ==> #[trigger] name[i] != 0
}

pub open spec fn image_record_ok(m: ImageRecord) -> bool {
    &&& real_ok(m.quat.0) && real_ok(m.quat.1) && real_ok(m.quat.2) && real_ok(m.quat.3)
    &&& real_ok(m.tvec.0) && real_ok(m.tvec.1) && real_ok(m.tvec.2)
    &&& name_ok(m.name)
    &&& m.xys.len() == m.point3d_ids.len()
    &&& m.xys.len() <= u64::MAX
    &&& forall|j: int| 0 <= j < m.xys.len() ==> real_ok((#[trigger] m.xys[j]).0) && real_ok(m.xys[j].1)
}

/// The image as the text form gives it.
pub open spec fn decimal_image(m: ImageRecord) -> ImageView {
    ImageView {
        id: m.id,
        quat: (
            ScalarView::Decimal(m.quat.0.decimal),
            ScalarView::Decimal(m.quat.1.decimal),
            ScalarView::Decimal(m.quat.2.decimal),
            ScalarView::Decimal(m.quat.3.decimal),
        ),
        tvec: (
            ScalarView::Decimal(m.tvec.0.decimal),
            ScalarView::Decimal(m.tvec.1.decimal),
            ScalarView::Decimal(m.tvec.2.decimal),
        ),
        camera_id: m.camera_id,
        name: decode_utf8(m.name),
        xys: m.xys.map_values(
            |v: (Real, Real)| (ScalarView::Decimal(v.0.decimal), ScalarView::Decimal(v.1.decimal)),
        ),
        point3d_ids: m.point3d_ids,
    }
}

/// The image as the binary form gives it.
pub open spec fn binary_image(m: ImageRecord) -> ImageView {
    ImageView {
        id: m.id,
        quat: (
            ScalarView::Binary64(m.quat.0.bits),
            ScalarView::Binary64(m.quat.1.bits),
            ScalarView::Binary64(m.quat.2.bits),
            ScalarView::Binary64(m.quat.3.bits),
        ),
        tvec: (
            ScalarView::Binary64(m.tvec.0.bits),
            ScalarView::Binary64(m.tvec.1.bits),
            ScalarView::Binary64(m.tvec.2.bits),
        ),
        camera_id: m.camera_id,
        name: decode_utf8(m.name),
        xys: m.xys.map_values(
            |v: (Real, Real)| (ScalarView::Binary64(v.0.bits), ScalarView::Binary64(v.1.bits)),
        ),
        point3d_ids: m.point3d_ids,
    }
}

/// The images of `ms` from index `i` on, added to `acc`.
pub open spec fn images_of(ms: Seq<ImageRecord>, i: int, acc: Map<i32, ImageRecord>) -> Map<
    i32,
    ImageRecord,
>
    decreases ms.len() - i,
{
    if i < 0 || i >= ms.len() {
        acc
    } else {
        images_of(ms, i + 1, acc.insert(ms[i].id, ms[i]))
    }
}

pub open spec fn decimal_images(m: Map<i32, ImageRecord>) -> Map<i32, ImageView> {
    m.map_values(|x: ImageRecord| decimal_image(x))
}

pub open spec fn binary_images(m: Map<i32, ImageRecord>) -> Map<i32, ImageView> {
    m.map_values(|x: ImageRecord| binary_image(x))
}

/// The tokens of an image's first line: id, quaternion w, x, y, z,
/// translation, camera id, name.
pub open spec fn head_words(m: ImageRecord) -> Seq<Seq<u8>> {
    seq![
        int_text(m.id as int),
        m.quat.3.decimal,
        m.quat.0.decimal,
        m.quat.1.decimal,
        m.quat.2.decimal,
        m.tvec.0.decimal,
        m.tvec.1.decimal,
        m.tvec.2.decimal,
        int_text(m.camera_id as int),
        m.name,
    ]
}

/// The tokens of an image's observation line.
pub open spec fn observation_words(m: ImageRecord) -> Seq<Seq<u8>> {
    Seq::new(
        3 * m.xys.len(),
        |k: int|
            if k % 3 == 0 {
                m.xys[k / 3].0.decimal
            } else if k % 3 == 1 {
                m.xys[k / 3].1.decimal
            } else {
                int_text(m.point3d_ids[k / 3] as int)
            },
    )
}

/// The lines of images: two for each.
pub open spec fn image_lines(ms: Seq<ImageRecord>) -> Seq<Seq<u8>> {
    Seq::new(
        2 * ms.len(),
        |k: int|
            if k % 2 == 0 {
                join_words(head_words(ms[k / 2]))
            } else {
                join_words(observation_words(ms[k / 2]))
            },
    )
}

/// The text form of images.
pub open spec fn images_text_of(ms: Seq<ImageRecord>) -> Seq<u8> {
    join_lines(image_lines(ms))
}

/// Observations laid one after another, 24 bytes each.
pub open spec fn flat_observations(xys: Seq<(Real, Real)>, ids: Seq<i64>) -> Seq<u8>
    decreases xys.len(),
{
    if xys.len() == 0 {
        seq![]
    } else {
        le_u64(xys[0].0.bits) + le_u64(xys[0].1.bits) + le_i64(ids[0]) + flat_observations(
            xys.drop_first(),
            ids.drop_first(),
        )
    }
}

/// The binary record of an image.
pub open spec fn image_bytes(m: ImageRecord) -> Seq<u8> {
    le_i32(m.id) + le_u64(m.quat.3.bits) + le_u64(m.quat.0.bits) + le_u64(m.quat.1.bits) + le_u64(
        m.quat.2.bits,
    ) + le_u64(m.tvec.0.bits) + le_u64(m.tvec.1.bits) + le_u64(m.tvec.2.bits) + le_i32(
        m.camera_id,
    ) + m.name + seq![0u8] + le_u64(m.xys.len() as u64) + flat_observations(m.xys, m.point3d_ids)
}

/// The binary records of the images of `ms` from index `i` on.
pub open spec fn image_bytes_from(ms: Seq<ImageRecord>, i: int) -> Seq<u8>
    decreases ms.len() - i,
{
    if i < 0 || i >= ms.len() {
        seq![]
    } else {
        image_bytes(ms[i]) + image_bytes_from(ms, i + 1)
    }
}

/// The binary form of images: their count, then their records.
pub open spec fn images_binary_of(ms: Seq<ImageRecord>) -> Seq<u8> {
    le_u64(ms.len() as u64) + image_bytes_from(ms, 0)
}

proof fn lemma_flat_observations(xys: Seq<(Real, Real)>, ids: Seq<i64>)
    requires
        xys.len() == ids.len(),
    ensures
        flat_observations(xys, ids).len() == 24 * xys.len(),
        forall|j: int|
            0 <= j < xys.len() ==> {
                &&& flat_observations(xys, ids).subrange(24 * j, 24 * j + 8) == le_u64(
                    (#[trigger] xys[j]).0.bits,
                )
                &&& flat_observations(xys, ids).subrange(24 * j + 8, 24 * j + 16) == le_u64(
                    xys[j].1.bits,
                )
                &&& flat_observations(xys, ids).subrange(24 * j + 16, 24 * j + 24) == le_i64(ids[j])
            },
    decreases xys.len(),
{
    lemma_field_lengths();
    if xys.len() > 0 {
        let (rx, ri) = (xys.drop_first(), ids.drop_first());
        lemma_flat_observations(rx, ri);
        let f = flat_observations(xys, ids);
        let g = flat_observations(rx, ri);
        assert forall|j: int| 0 <= j < xys.len() implies {
            &&& f.subrange(24 * j, 24 * j + 8) == le_u64((#[trigger] xys[j]).0.bits)
            &&& f.subrange(24 * j + 8, 24 * j + 16) == le_u64(xys[j].1.bits)
            &&& f.subrange(24 * j + 16, 24 * j + 24) == le_i64(ids[j])
        } by {
            if j == 0 {
                assert(f.subrange(0, 8) =~= le_u64(xys[0].0.bits));
                assert(f.subrange(8, 16) =~= le_u64(xys[0].1.bits));
                assert(f.subrange(16, 24) =~= le_i64(ids[0]));
            } else {
                let k = j - 1;
                assert(rx[k] == xys[j]);
                assert(ri[k] == ids[j]);
                assert(g.subrange(24 * k, 24 * k + 8) == le_u64(rx[k].0.bits));
                assert(g.subrange(24 * k + 8, 24 * k + 16) == le_u64(rx[k].1.bits));
                assert(g.subrange(24 * k + 16, 24 * k + 24) == le_i64(ri[k]));
                assert(f.subrange(24 * j, 24 * j + 8) =~= g.subrange(24 * k, 24 * k + 8));
                assert(f.subrange(24 * j + 8, 24 * j + 16) =~= g.subrange(24 * k + 8, 24 * k + 16));
                assert(f.subrange(24 * j + 16, 24 * j + 24) =~= g.subrange(
                    24 * k + 16,
                    24 * k + 24,
                ));
            }
        }
    }
}

proof fn lemma_nul_at(b: Seq<u8>, i: int, z: int)
    requires
        0 <= i <= z < b.len(),
        b[z] == 0,
        forall|k: int| i <= k < z ==> b[k] != 0,
    ensures
        nul_from(b, i) == Some(z),
    decreases z - i,
{
    if i < z {
        lemma_nul_at(b, i + 1, z);
    }
}

proof fn lemma_head_words(m: ImageRecord)
    requires
        image_record_ok(m),
    ensures
        tokens(join_words(head_words(m))) == head_words(m),
        no_newline(join_words(head_words(m))),
        !is_skipped(join_words(head_words(m))),
        first_bad(head_words(m), crate::images::head_fields(), 0) == 10,
        i32_token(head_words(m)[0]) == Some(m.id),
        i32_token(head_words(m)[8]) == Some(m.camera_id),
{
    let a = head_words(m);
    lemma_i32_text(m.id);
    lemma_i32_text(m.camera_id);
    assert forall|k: int| 0 <= k < a.len() implies is_word(#[trigger] a[k]) && field_ok(
        crate::images::head_field(k),
        a[k],
    ) by {}
    lemma_tokens_of_join(a);
    lemma_join_no_newline(a);
    lemma_join_first(a);
    lemma_first_bad_all_ok(a, crate::images::head_fields(), 0);
}

#[verifier::rlimit(40)]
proof fn lemma_observation_words(m: ImageRecord)
    requires
        image_record_ok(m),
    ensures
        tokens(join_words(observation_words(m))) == observation_words(m),
        no_newline(join_words(observation_words(m))),
        observation_words(m).len() == 3 * m.xys.len(),
        first_bad(
            observation_words(m),
            crate::images::observation_fields(observation_words(m).len()),
            0,
        ) == observation_words(m).len(),
        Seq::new(
            m.xys.len(),
            |j: int|
                (
                    ScalarView::Decimal(observation_words(m)[3 * j]),
                    ScalarView::Decimal(observation_words(m)[3 * j + 1]),
                ),
        ) == m.xys.map_values(
            |v: (Real, Real)| (ScalarView::Decimal(v.0.decimal), ScalarView::Decimal(v.1.decimal)),
        ),
        Seq::new(m.xys.len(), |j: int| i64_token(observation_words(m)[3 * j + 2]).unwrap())
            == m.point3d_ids,
{
    let o = observation_words(m);
    let n = m.xys.len();
    assert forall|k: int| 0 <= k < o.len() implies is_word(#[trigger] o[k]) && field_ok(
        crate::images::observation_field(k),
        o[k],
    ) by {
        let j = k / 3;
        assert(0 <= j < n);
        assert(real_ok(m.xys[j].0) && real_ok(m.xys[j].1));
        lemma_i64_text(m.point3d_ids[j]);
    }
    lemma_tokens_of_join(o);
    lemma_join_no_newline(o);
    lemma_first_bad_all_ok(o, crate::images::observation_fields(o.len()), 0);
    assert(Seq::new(
        n,
        |j: int| (ScalarView::Decimal(o[3 * j]), ScalarView::Decimal(o[3 * j + 1])),
    ) =~= m.xys.map_values(
        |v: (Real, Real)| (ScalarView::Decimal(v.0.decimal), ScalarView::Decimal(v.1.decimal)),
    )) by {
        assert forall|j: int| 0 <= j < n implies o[3 * j] == (#[trigger] m.xys[j]).0.decimal
            && o[3 * j + 1] == m.xys[j].1.decimal by {
            assert((3 * j) % 3 == 0 && (3 * j) / 3 == j);
            assert((3 * j + 1) % 3 == 1 && (3 * j + 1) / 3 == j);
        }
    }
    assert(Seq::new(n, |j: int| i64_token(o[3 * j + 2]).unwrap()) =~= m.point3d_ids) by {
        assert forall|j: int| 0 <= j < n implies i64_token(o[3 * j + 2]).unwrap()
            == #[trigger] m.point3d_ids[j] by {
            assert((3 * j + 2) % 3 == 2 && (3 * j + 2) / 3 == j);
            lemma_i64_text(m.point3d_ids[j]);
        }
    }
}

proof fn lemma_image_lines(m: ImageRecord, line: int)
    requires
        image_record_ok(m),
    ensures
        tokens(join_words(head_words(m))) == head_words(m),
        tokens(join_words(observation_words(m))) == observation_words(m),
        no_newline(join_words(head_words(m))),
        no_newline(join_words(observation_words(m))),
        !is_skipped(join_words(head_words(m))),
        image_from_tokens(head_words(m), observation_words(m), line) == Ok::<
            ImageView,
            crate::types::ColmapError,
        >(decimal_image(m)),
{
    lemma_head_words(m);
    lemma_observation_words(m);
    let o = observation_words(m);
    assert(((o.len() / 3) as nat) == m.xys.len());
}

#[verifier::rlimit(40)]
proof fn lemma_image_bytes(pre: Seq<u8>, m: ImageRecord, post: Seq<u8>)
    requires
        image_record_ok(m),
    ensures
        image_bytes(m).len() == 73 + m.name.len() + 24 * m.xys.len(),
        image_record(pre + image_bytes(m) + post, pre.len() as int) == Ok::<
            (ImageView, int),
            crate::types::ColmapError,
        >((binary_image(m), (pre.len() + image_bytes(m).len()) as int)),
{
    reveal(image_record);
    lemma_field_lengths();
    let n = m.xys.len();
    lemma_flat_observations(m.xys, m.point3d_ids);
    let r = image_bytes(m);
    let b = pre + r + post;
    let p = pre.len() as int;
    assert(b.subrange(p, p + 4) =~= le_i32(m.id));
    lemma_read_i32(b, p, m.id);
    assert(b.subrange(p + 4, p + 12) =~= le_u64(m.quat.3.bits));
    lemma_read_u64(b, p + 4, m.quat.3.bits);
    assert(b.subrange(p + 12, p + 20) =~= le_u64(m.quat.0.bits));
    lemma_read_u64(b, p + 12, m.quat.0.bits);
    assert(b.subrange(p + 20, p + 28) =~= le_u64(m.quat.1.bits));
    lemma_read_u64(b, p + 20, m.quat.1.bits);
    assert(b.subrange(p + 28, p + 36) =~= le_u64(m.quat.2.bits));
    lemma_read_u64(b, p + 28, m.quat.2.bits);
    assert(b.subrange(p + 36, p + 44) =~= le_u64(m.tvec.0.bits));
    lemma_read_u64(b, p + 36, m.tvec.0.bits);
    assert(b.subrange(p + 44, p + 52) =~= le_u64(m.tvec.1.bits));
    lemma_read_u64(b, p + 44, m.tvec.1.bits);
    assert(b.subrange(p + 52, p + 60) =~= le_u64(m.tvec.2.bits));
    lemma_read_u64(b, p + 52, m.tvec.2.bits);
    assert(b.subrange(p + 60, p + 64) =~= le_i32(m.camera_id));
    lemma_read_i32(b, p + 60, m.camera_id);
    let z = p + 64 + m.name.len();
    assert forall|k: int| p + 64 <= k < z implies b[k] != 0 by {
        assert(b[k] == m.name[k - p - 64]);
    }
    lemma_nul_at(b, p + 64, z);
    assert(b.subrange(p + 64, z) =~= m.name);
    assert(b.subrange(z + 1, z + 9) =~= le_u64(n as u64));
    lemma_read_u64(b, z + 1, n as u64);
    let q = z + 9;
    let f = flat_observations(m.xys, m.point3d_ids);
    assert forall|j: int| 0 <= j < n implies {
        &&& crate::bytes::u64_at(b, q + 24 * j) == (#[trigger] m.xys[j]).0.bits
        &&& crate::bytes::u64_at(b, q + 24 * j + 8) == m.xys[j].1.bits
        &&& crate::bytes::i64_at(b, q + 24 * j + 16) == m.point3d_ids[j]
    } by {
        assert(b.subrange(q + 24 * j, q + 24 * j + 8) =~= f.subrange(24 * j, 24 * j + 8));
        assert(b.subrange(q + 24 * j + 8, q + 24 * j + 16) =~= f.subrange(24 * j + 8, 24 * j + 16));
        assert(b.subrange(q + 24 * j + 16, q + 24 * j + 24) =~= f.subrange(
            24 * j + 16,
            24 * j + 24,
        ));
        lemma_read_u64(b, q + 24 * j, m.xys[j].0.bits);
        lemma_read_u64(b, q + 24 * j + 8, m.xys[j].1.bits);
        lemma_read_i64(b, q + 24 * j + 16, m.point3d_ids[j]);
    }
    assert(Seq::new(
        n as nat,
        |j: int|
            (
                ScalarView::Binary64(u64_at(b, q + 24 * j)),
                ScalarView::Binary64(u64_at(b, q + 24 * j + 8)),
            ),
    ) =~= m.xys.map_values(
        |v: (Real, Real)| (ScalarView::Binary64(v.0.bits), ScalarView::Binary64(v.1.bits)),
    ));
    assert(Seq::new(n as nat, |j: int| crate::bytes::i64_at(b, q + 24 * j + 16)) =~= m.point3d_ids)
        by {
        assert forall|j: int| 0 <= j < n implies crate::bytes::i64_at(b, q + 24 * j + 16)
            == #[trigger] m.point3d_ids[j] by {
            assert(crate::bytes::u64_at(b, q + 24 * j) == m.xys[j].0.bits);
        }
    }
}

#[verifier::rlimit(40)]
proof fn lemma_images_text_fold(ms: Seq<ImageRecord>, i: int, acc: Map<i32, ImageRecord>)
    requires
        0 <= i <= ms.len(),
        forall|k: int| 0 <= k < ms.len() ==> image_record_ok(#[trigger] ms[k]),
    ensures
        images_from_lines(image_lines(ms), 2 * i, decimal_images(acc)) == Ok::<
            Map<i32, ImageView>,
            crate::types::ColmapError,
        >(decimal_images(images_of(ms, i, acc))),
    decreases ms.len() - i,
{
    let ls = image_lines(ms);
    if i < ms.len() {
        let m = ms[i];
        assert(image_record_ok(m));
        lemma_image_lines(m, 2 * i);
        assert((2 * i) % 2 == 0 && (2 * i) / 2 == i);
        assert((2 * i + 1) % 2 == 1 && (2 * i + 1) / 2 == i);
        assert(ls[2 * i] == join_words(head_words(m)));
        assert(ls[2 * i + 1] == join_words(observation_words(m)));
        assert(tokens_of_line(ls, 2 * i + 1) == observation_words(m));
        assert(decimal_images(acc).insert(m.id, decimal_image(m)) =~= decimal_images(
            acc.insert(m.id, m),
        ));
        lemma_images_text_fold(ms, i + 1, acc.insert(m.id, m));
        assert(2 * i + 2 == 2 * (i + 1));
    }
}

#[verifier::rlimit(40)]
proof fn lemma_images_binary_fold(
    ms: Seq<ImageRecord>,
    pre: Seq<u8>,
    i: int,
    acc: Map<i32, ImageRecord>,
)
    requires
        0 <= i <= ms.len(),
        forall|k: int| 0 <= k < ms.len() ==> image_record_ok(#[trigger] ms[k]),
    ensures
        images_from_records(
            pre + image_bytes_from(ms, i),
            pre.len() as int,
            (ms.len() - i) as nat,
            binary_images(acc),
        ) == Ok::<Map<i32, ImageView>, crate::types::ColmapError>(
            binary_images(images_of(ms, i, acc)),
        ),
    decreases ms.len() - i,
{
    if i < ms.len() {
        let m = ms[i];
        assert(image_record_ok(m));
        let rest = image_bytes_from(ms, i + 1);
        let b = pre + image_bytes_from(ms, i);
        assert(b =~= pre + image_bytes(m) + rest);
        lemma_image_bytes(pre, m, rest);
        let pre2 = pre + image_bytes(m);
        assert(b =~= pre2 + rest);
        assert(binary_images(acc).insert(m.id, binary_image(m)) =~= binary_images(
            acc.insert(m.id, m),
        ));
        lemma_images_binary_fold(ms, pre2, i + 1, acc.insert(m.id, m));
    } else {
        assert(pre + image_bytes_from(ms, i) =~= pre);
    }
}

/// The text form and the binary form of the same images read as the same
/// map: each reader returns, for every id, the same image, name and
/// observations, its rotation, translation and coordinates carried in the
/// encoding of its own form.
pub proof fn lemma_image_forms_agree(ms: Seq<ImageRecord>)
    requires
        ms.len() <= u64::MAX,
        forall|k: int| 0 <= k < ms.len() ==> image_record_ok(#[trigger] ms[k]),
    ensures
        images_text(images_text_of(ms)) == Ok::<Map<i32, ImageView>, crate::types::ColmapError>(
            decimal_images(images_of(ms, 0, Map::empty())),
        ),
        images_binary(images_binary_of(ms)) == Ok::<
            Map<i32, ImageView>,
            crate::types::ColmapError,
        >(binary_images(images_of(ms, 0, Map::empty()))),
{
    let ls = image_lines(ms);
    assert forall|k: int| 0 <= k < ls.len() implies no_newline(#[trigger] ls[k]) by {
        let i = k / 2;
        assert(image_record_ok(ms[i]));
        lemma_image_lines(ms[i], k);
    }
    lemma_lines_of_join(ls);
    assert(decimal_images(Map::empty()) =~= Map::empty());
    assert(binary_images(Map::empty()) =~= Map::empty());
    lemma_images_text_fold(ms, 0, Map::empty());
    let head = le_u64(ms.len() as u64);
    let b = images_binary_of(ms);
    lemma_field_lengths();
    assert(b.subrange(0, 8) =~= head);
    lemma_read_u64(b, 0, ms.len() as u64);
    lemma_images_binary_fold(ms, head, 0, Map::empty());
}

} // verus!
