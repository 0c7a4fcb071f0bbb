//! Properties that hold of every read.
use crate::bytes::{nul_from, u64_at};
use crate::cameras::{
    camera_from_tokens, camera_record, cameras_binary, cameras_from_lines, cameras_from_records,
    cameras_text,
};
use crate::images::{
    image_from_tokens, image_record, images_binary, images_from_lines, images_from_records,
    images_text, tokens_of_line,
};
use crate::model::{layout_of, model_with_name, param_count, CameraModel};
use crate::points::{
    point_from_tokens, point_record, points_binary, points_from_lines, points_from_records,
    points_text,
};
use crate::encode::{lemma_line_len_before_newline, no_newline};
use crate::text::{is_skipped, lines, tokens, NEWLINE};
use crate::types::{CameraView, ColmapError, ImageView, PointView};
use vstd::prelude::*;
use vstd::utf8::valid_utf8;

verus! {

/// The parameter count of every model, as the registry's table gives it.
pub proof fn lemma_param_counts()
    ensures
        param_count(CameraModel::SimplePinhole) == 3,
        param_count(CameraModel::Pinhole) == 4,
        param_count(CameraModel::SimpleRadial) == 4,
        param_count(CameraModel::Radial) == 5,
        param_count(CameraModel::OpenCV) == 8,
        param_count(CameraModel::OpenCvFishEye) == 8,
        param_count(CameraModel::FullOpenCV) == 12,
        param_count(CameraModel::Fov) == 5,
        param_count(CameraModel::SimpleRadialFisheye) == 4,
        param_count(CameraModel::RadialFisheye) == 5,
        param_count(CameraModel::ThinPrismFisheye) == 12,
{
}

/// A text camera line of a known model whose parameter tail is longer or
/// shorter than the model asks for fails with `ParamCountMismatch`.
pub proof fn lemma_param_count_mismatch(t: Seq<Seq<u8>>, line: int, m: CameraModel)
    requires
        t.len() >= 4,
        model_with_name(t[1]) == Some(m),
        t.len() - 4 != param_count(m),
    ensures
        camera_from_tokens(t, line) == Err::<CameraView, ColmapError>(
            ColmapError::ParamCountMismatch,
        ),
{
}

/// The focal and principal-point indices of every model lie inside its
/// parameter list.
pub proof fn lemma_indices_in_range(m: CameraModel)
    ensures
        layout_of(m).focal_x < param_count(m),
        layout_of(m).focal_y < param_count(m),
        layout_of(m).principal_x < param_count(m),
        layout_of(m).principal_y < param_count(m),
{
}

/// A text point line whose tail after the eight leading tokens has an odd
/// number of tokens fails with `MalformedRecord`.
pub proof fn lemma_point_odd_tail(t: Seq<Seq<u8>>, line: int)
    requires
        t.len() >= 8,
        (t.len() - 8) % 2 == 1,
    ensures
        point_from_tokens(t, line) == Err::<PointView, ColmapError>(ColmapError::MalformedRecord),
{
}

/// A binary image input whose first record is complete up to its name, but
/// whose name bytes are not UTF-8, fails with `InvalidEncoding`: no map,
/// and so no entry for that record.
pub proof fn lemma_image_name_not_utf8(b: Seq<u8>, z: int)
    requires
        b.len() >= 72,
        u64_at(b, 0) >= 1,
        nul_from(b, 72) == Some(z),
        !valid_utf8(b.subrange(72, z)),
    ensures
        images_binary(b) == Err::<Map<i32, ImageView>, ColmapError>(ColmapError::InvalidEncoding),
{
    reveal(image_record);
    assert(image_record(b, 8) == Err::<(ImageView, int), ColmapError>(
        ColmapError::InvalidEncoding,
    ));
}

/// Every camera of a map carries its model's parameters.
pub open spec fn cameras_wf(m: Map<i32, CameraView>) -> bool {
    forall|k: i32| m.contains_key(k) ==> (#[trigger] m[k]).wf()
}

/// Every image of a map has one point reference per observation.
pub open spec fn images_wf(m: Map<i32, ImageView>) -> bool {
    forall|k: i32| m.contains_key(k) ==> (#[trigger] m[k]).wf()
}

/// Every point of a map has a track of two equally long halves.
pub open spec fn points_wf(m: Map<i64, PointView>) -> bool {
    forall|k: i64| m.contains_key(k) ==> (#[trigger] m[k]).wf()
}

proof fn lemma_cameras_from_lines_wf(ls: Seq<Seq<u8>>, i: int, acc: Map<i32, CameraView>)
    requires
        cameras_wf(acc),
    ensures
        cameras_from_lines(ls, i, acc) matches Ok(m) ==> cameras_wf(m),
    decreases ls.len() - i,
{
    if 0 <= i < ls.len() {
        if is_skipped(ls[i]) {
            lemma_cameras_from_lines_wf(ls, i + 1, acc);
        } else if let Ok(c) = camera_from_tokens(tokens(ls[i]), i) {
            lemma_cameras_from_lines_wf(ls, i + 1, acc.insert(c.id, c));
        }
    }
}

proof fn lemma_cameras_from_records_wf(b: Seq<u8>, p: int, left: nat, acc: Map<i32, CameraView>)
    requires
        cameras_wf(acc),
    ensures
        cameras_from_records(b, p, left, acc) matches Ok(m) ==> cameras_wf(m),
    decreases left,
{
    if left > 0 {
        if let Ok((c, q)) = camera_record(b, p) {
            lemma_cameras_from_records_wf(b, q, (left - 1) as nat, acc.insert(c.id, c));
        }
    }
}

proof fn lemma_images_from_lines_wf(ls: Seq<Seq<u8>>, i: int, acc: Map<i32, ImageView>)
    requires
        images_wf(acc),
    ensures
        images_from_lines(ls, i, acc) matches Ok(m) ==> images_wf(m),
    decreases ls.len() + 1 - i,
{
    if 0 <= i < ls.len() {
        if is_skipped(ls[i]) {
            lemma_images_from_lines_wf(ls, i + 1, acc);
        } else if let Ok(img) = image_from_tokens(tokens(ls[i]), tokens_of_line(ls, i + 1), i) {
            lemma_images_from_lines_wf(ls, i + 2, acc.insert(img.id, img));
        }
    }
}

proof fn lemma_images_from_records_wf(b: Seq<u8>, p: int, left: nat, acc: Map<i32, ImageView>)
    requires
        images_wf(acc),
    ensures
        images_from_records(b, p, left, acc) matches Ok(m) ==> images_wf(m),
    decreases left,
{
    if left > 0 {
        reveal(image_record);
        if let Ok((img, q)) = image_record(b, p) {
            lemma_images_from_records_wf(b, q, (left - 1) as nat, acc.insert(img.id, img));
        }
    }
}

proof fn lemma_points_from_lines_wf(ls: Seq<Seq<u8>>, i: int, acc: Map<i64, PointView>)
    requires
        points_wf(acc),
    ensures
        points_from_lines(ls, i, acc) matches Ok(m) ==> points_wf(m),
    decreases ls.len() - i,
{
    if 0 <= i < ls.len() {
        if is_skipped(ls[i]) {
            lemma_points_from_lines_wf(ls, i + 1, acc);
        } else if let Ok(pt) = point_from_tokens(tokens(ls[i]), i) {
            lemma_points_from_lines_wf(ls, i + 1, acc.insert(pt.id, pt));
        }
    }
}

proof fn lemma_points_from_records_wf(b: Seq<u8>, p: int, left: nat, acc: Map<i64, PointView>)
    requires
        points_wf(acc),
    ensures
        points_from_records(b, p, left, acc) matches Ok(m) ==> points_wf(m),
    decreases left,
{
    if left > 0 {
        if let Ok((pt, q)) = point_record(b, p) {
            lemma_points_from_records_wf(b, q, (left - 1) as nat, acc.insert(pt.id, pt));
        }
    }
}

/// Every camera that a read returns, in either form, carries exactly the
/// parameters that its model asks for.
pub proof fn lemma_read_cameras_wf(data: Seq<u8>)
    ensures
        cameras_text(data) matches Ok(m) ==> cameras_wf(m),
        cameras_binary(data) matches Ok(m) ==> cameras_wf(m),
{
    lemma_cameras_from_lines_wf(lines(data), 0, Map::empty());
    if data.len() >= 8 {
        lemma_cameras_from_records_wf(data, 8, u64_at(data, 0) as nat, Map::empty());
    }
}

/// Every image that a read returns, in either form, has as many point
/// references as observations.
pub proof fn lemma_read_images_wf(data: Seq<u8>)
    ensures
        images_text(data) matches Ok(m) ==> images_wf(m),
        images_binary(data) matches Ok(m) ==> images_wf(m),
{
    lemma_images_from_lines_wf(lines(data), 0, Map::empty());
    if data.len() >= 8 {
        lemma_images_from_records_wf(data, 8, u64_at(data, 0) as nat, Map::empty());
    }
}

/// Every point that a read returns, in either form, has a track whose image
/// ids and observation indices are equally many.
pub proof fn lemma_read_points_wf(data: Seq<u8>)
    ensures
        points_text(data) matches Ok(m) ==> points_wf(m),
        points_binary(data) matches Ok(m) ==> points_wf(m),
{
    lemma_points_from_lines_wf(lines(data), 0, Map::empty());
    if data.len() >= 8 {
        lemma_points_from_records_wf(data, 8, u64_at(data, 0) as nat, Map::empty());
    }
}

/// A comment line: it starts with `#` and holds no line feed.
pub open spec fn is_comment_line(c: Seq<u8>) -> bool {
    &&& c.len() > 0
    &&& c[0] == 35
    &&& no_newline(c)
}

/// The lines of a comment line followed by `s` are that line, then the
/// lines of `s`.
proof fn lemma_lines_after_comment(c: Seq<u8>, s: Seq<u8>)
    requires
        is_comment_line(c),
    ensures
        lines(c + seq![NEWLINE] + s) == seq![c] + lines(s),
{
    let t = c + seq![NEWLINE] + s;
    lemma_line_len_before_newline(c, s);
    assert(t.take(c.len() as int) =~= c);
    assert(t.skip((c.len() + 1) as int) =~= s);
}

proof fn lemma_camera_line_number(t: Seq<Seq<u8>>, l1: int, l2: int)
    ensures
        camera_from_tokens(t, l1) is Ok <==> camera_from_tokens(t, l2) is Ok,
        camera_from_tokens(t, l1) is Ok ==> camera_from_tokens(t, l1) == camera_from_tokens(t, l2),
{
}

proof fn lemma_image_line_number(a: Seq<Seq<u8>>, o: Seq<Seq<u8>>, l1: int, l2: int)
    ensures
        image_from_tokens(a, o, l1) is Ok <==> image_from_tokens(a, o, l2) is Ok,
        image_from_tokens(a, o, l1) is Ok ==> image_from_tokens(a, o, l1) == image_from_tokens(
            a,
            o,
            l2,
        ),
{
}

proof fn lemma_point_line_number(t: Seq<Seq<u8>>, l1: int, l2: int)
    ensures
        point_from_tokens(t, l1) is Ok <==> point_from_tokens(t, l2) is Ok,
        point_from_tokens(t, l1) is Ok ==> point_from_tokens(t, l1) == point_from_tokens(t, l2),
{
}

proof fn lemma_cameras_shift(c: Seq<u8>, ls: Seq<Seq<u8>>, i: int, acc: Map<i32, CameraView>)
    requires
        0 <= i,
    ensures
        cameras_from_lines(seq![c] + ls, i + 1, acc) is Ok <==> cameras_from_lines(ls, i, acc) is Ok,
        cameras_from_lines(ls, i, acc) is Ok ==> cameras_from_lines(seq![c] + ls, i + 1, acc)
            == cameras_from_lines(ls, i, acc),
    decreases ls.len() - i,
{
    let ks = seq![c] + ls;
    if i < ls.len() {
        assert(ks[i + 1] == ls[i]);
        if is_skipped(ls[i]) {
            lemma_cameras_shift(c, ls, i + 1, acc);
        } else {
            lemma_camera_line_number(tokens(ls[i]), i + 1, i);
            if let Ok(cam) = camera_from_tokens(tokens(ls[i]), i) {
                lemma_cameras_shift(c, ls, i + 1, acc.insert(cam.id, cam));
            }
        }
    }
}

proof fn lemma_images_shift(c: Seq<u8>, ls: Seq<Seq<u8>>, i: int, acc: Map<i32, ImageView>)
    requires
        0 <= i,
    ensures
        images_from_lines(seq![c] + ls, i + 1, acc) is Ok <==> images_from_lines(ls, i, acc) is Ok,
        images_from_lines(ls, i, acc) is Ok ==> images_from_lines(seq![c] + ls, i + 1, acc)
            == images_from_lines(ls, i, acc),
    decreases ls.len() + 1 - i,
{
    let ks = seq![c] + ls;
    if i < ls.len() {
        assert(ks[i + 1] == ls[i]);
        assert(tokens_of_line(ks, i + 2) == tokens_of_line(ls, i + 1));
        if is_skipped(ls[i]) {
            lemma_images_shift(c, ls, i + 1, acc);
        } else {
            let o = tokens_of_line(ls, i + 1);
            lemma_image_line_number(tokens(ls[i]), o, i + 1, i);
            if let Ok(img) = image_from_tokens(tokens(ls[i]), o, i) {
                lemma_images_shift(c, ls, i + 2, acc.insert(img.id, img));
            }
        }
    }
}

proof fn lemma_points_shift(c: Seq<u8>, ls: Seq<Seq<u8>>, i: int, acc: Map<i64, PointView>)
    requires
        0 <= i,
    ensures
        points_from_lines(seq![c] + ls, i + 1, acc) is Ok <==> points_from_lines(ls, i, acc) is Ok,
        points_from_lines(ls, i, acc) is Ok ==> points_from_lines(seq![c] + ls, i + 1, acc)
            == points_from_lines(ls, i, acc),
    decreases ls.len() - i,
{
    let ks = seq![c] + ls;
    if i < ls.len() {
        assert(ks[i + 1] == ls[i]);
        if is_skipped(ls[i]) {
            lemma_points_shift(c, ls, i + 1, acc);
        } else {
            lemma_point_line_number(tokens(ls[i]), i + 1, i);
            if let Ok(pt) = point_from_tokens(tokens(ls[i]), i) {
                lemma_points_shift(c, ls, i + 1, acc.insert(pt.id, pt));
            }
        }
    }
}

/// A comment line put before a text camera input is passed over: the read
/// succeeds exactly when it did without it, with the same cameras.
pub proof fn lemma_comment_before_cameras(c: Seq<u8>, s: Seq<u8>)
    requires
        is_comment_line(c),
    ensures
        cameras_text(c + seq![NEWLINE] + s) is Ok <==> cameras_text(s) is Ok,
        cameras_text(s) is Ok ==> cameras_text(c + seq![NEWLINE] + s) == cameras_text(s),
{
    lemma_lines_after_comment(c, s);
    let ls = lines(s);
    assert((seq![c] + ls)[0] == c);
    lemma_cameras_shift(c, ls, 0, Map::empty());
}

/// A comment line put before a text image input is passed over: the read
/// succeeds exactly when it did without it, with the same images.
pub proof fn lemma_comment_before_images(c: Seq<u8>, s: Seq<u8>)
    requires
        is_comment_line(c),
    ensures
        images_text(c + seq![NEWLINE] + s) is Ok <==> images_text(s) is Ok,
        images_text(s) is Ok ==> images_text(c + seq![NEWLINE] + s) == images_text(s),
{
    lemma_lines_after_comment(c, s);
    let ls = lines(s);
    assert((seq![c] + ls)[0] == c);
    lemma_images_shift(c, ls, 0, Map::empty());
}

/// A comment line put before a text point input is passed over: the read
/// succeeds exactly when it did without it, with the same points.
pub proof fn lemma_comment_before_points(c: Seq<u8>, s: Seq<u8>)
    requires
        is_comment_line(c),
    ensures
        points_text(c + seq![NEWLINE] + s) is Ok <==> points_text(s) is Ok,
        points_text(s) is Ok ==> points_text(c + seq![NEWLINE] + s) == points_text(s),
{
    lemma_lines_after_comment(c, s);
    let ls = lines(s);
    assert((seq![c] + ls)[0] == c);
    lemma_points_shift(c, ls, 0, Map::empty());
}

} // verus!
