use colmap_reader::{
    read_images, read_images_binary, read_images_text, read_points3d, read_points3d_binary,
    read_points3d_text, ColmapError, Scalar,
};

fn as_f64(s: &Scalar) -> f64 {
    match s {
        Scalar::Binary64(bits) => f64::from_bits(*bits),
        Scalar::Decimal(text) => std::str::from_utf8(text).unwrap().parse().unwrap(),
    }
}

fn as_f32(s: &Scalar) -> f32 {
    match s {
        Scalar::Binary64(bits) => f64::from_bits(*bits) as f32,
        Scalar::Decimal(text) => std::str::from_utf8(text).unwrap().parse().unwrap(),
    }
}

fn image_binary(name: &[u8]) -> Vec<u8> {
    let mut b = Vec::new();
    b.extend_from_slice(&1u64.to_le_bytes());
    b.extend_from_slice(&3i32.to_le_bytes());
    for v in [1.0f64, 0.0, 0.0, 0.0, 0.5, 1.5, 2.5] {
        b.extend_from_slice(&v.to_le_bytes());
    }
    b.extend_from_slice(&2i32.to_le_bytes());
    b.extend_from_slice(name);
    b.push(0);
    b.extend_from_slice(&2u64.to_le_bytes());
    for (x, y, id) in [(10.0f64, 20.0f64, 5i64), (30.0, 40.0, -1)] {
        b.extend_from_slice(&x.to_le_bytes());
        b.extend_from_slice(&y.to_le_bytes());
        b.extend_from_slice(&id.to_le_bytes());
    }
    b
}

fn point_binary() -> Vec<u8> {
    let mut b = Vec::new();
    b.extend_from_slice(&1u64.to_le_bytes());
    b.extend_from_slice(&9i64.to_le_bytes());
    for v in [1.0f64, 2.0, 3.0] {
        b.extend_from_slice(&v.to_le_bytes());
    }
    b.extend_from_slice(&[255, 128, 0]);
    b.extend_from_slice(&0.25f64.to_le_bytes());
    b.extend_from_slice(&2u64.to_le_bytes());
    for (img, idx) in [(3i32, 0i32), (4, 7)] {
        b.extend_from_slice(&img.to_le_bytes());
        b.extend_from_slice(&idx.to_le_bytes());
    }
    b
}

const IMAGE_TEXT: &[u8] = b"3 1 0 0 0 0.5 1.5 2.5 2 view.png\n10 20 5 30 40 -1\n";
const POINT_TEXT: &[u8] = b"9 1 2 3 255 128 0 0.25 3 0 4 7\n";

#[test]
fn text_and_binary_images_agree() {
    let t = read_images_text(IMAGE_TEXT).unwrap();
    let b = read_images_binary(&image_binary(b"view.png")).unwrap();
    let (ti, bi) = (&t[&3], &b[&3]);
    assert_eq!((ti.id, ti.camera_id, &ti.name), (bi.id, bi.camera_id, &bi.name));
    assert_eq!(ti.point3d_ids, bi.point3d_ids);
    let q = |i: &colmap_reader::Image| {
        [as_f32(&i.quat.x), as_f32(&i.quat.y), as_f32(&i.quat.z), as_f32(&i.quat.w)]
    };
    assert_eq!(q(ti), q(bi));
    assert_eq!(q(ti), [0.0, 0.0, 0.0, 1.0]);
    let tv = |i: &colmap_reader::Image| [as_f32(&i.tvec.x), as_f32(&i.tvec.y), as_f32(&i.tvec.z)];
    assert_eq!(tv(ti), tv(bi));
    let xy = |i: &colmap_reader::Image| -> Vec<(f32, f32)> {
        i.xys.iter().map(|v| (as_f32(&v.x), as_f32(&v.y))).collect()
    };
    assert_eq!(xy(ti), xy(bi));
    assert_eq!(xy(ti), vec![(10.0, 20.0), (30.0, 40.0)]);
}

#[test]
fn text_and_binary_points_agree() {
    let t = read_points3d_text(POINT_TEXT).unwrap();
    let b = read_points3d_binary(&point_binary()).unwrap();
    let (tp, bp) = (&t[&9], &b[&9]);
    assert_eq!((tp.id, tp.rgb), (bp.id, bp.rgb));
    assert_eq!(tp.rgb, [255, 128, 0]);
    assert_eq!(as_f64(&tp.error), as_f64(&bp.error));
    let xyz = |p: &colmap_reader::Point3D| [as_f32(&p.xyz.x), as_f32(&p.xyz.y), as_f32(&p.xyz.z)];
    assert_eq!(xyz(tp), xyz(bp));
    assert_eq!(tp.image_ids, bp.image_ids);
    assert_eq!(tp.point2d_idxs, bp.point2d_idxs);
    assert_eq!(tp.image_ids, vec![3, 4]);
    assert_eq!(tp.point2d_idxs, vec![0, 7]);
}

#[test]
fn observations_and_references_have_equal_length() {
    for imgs in [read_images_text(IMAGE_TEXT).unwrap(), read_images(&image_binary(b"a"), true).unwrap()] {
        for img in imgs.values() {
            assert_eq!(img.xys.len(), img.point3d_ids.len());
        }
    }
    for pts in [read_points3d_text(POINT_TEXT).unwrap(), read_points3d(&point_binary(), true).unwrap()] {
        for p in pts.values() {
            assert_eq!(p.image_ids.len(), p.point2d_idxs.len());
        }
    }
}

#[test]
fn comment_line_before_image_is_skipped() {
    let mut commented = b"# comment\n".to_vec();
    commented.extend_from_slice(IMAGE_TEXT);
    assert_eq!(read_images_text(&commented).unwrap(), read_images_text(IMAGE_TEXT).unwrap());
}

#[test]
fn comment_line_before_point_is_skipped() {
    let mut commented = b"# comment\n".to_vec();
    commented.extend_from_slice(POINT_TEXT);
    assert_eq!(read_points3d_text(&commented).unwrap(), read_points3d_text(POINT_TEXT).unwrap());
}

#[test]
fn point_line_with_odd_tail_is_malformed() {
    assert_eq!(
        read_points3d_text(b"1 0 0 0 255 255 255 0.1 5 10 3"),
        Err(ColmapError::MalformedRecord)
    );
}

#[test]
fn point_line_with_too_few_tokens_is_malformed() {
    assert_eq!(read_points3d_text(b"1 0 0 0 255 255 255"), Err(ColmapError::MalformedRecord));
}

#[test]
fn point_colour_out_of_byte_range_fails() {
    assert_eq!(
        read_points3d_text(b"1 0 0 0 256 255 255 0.1"),
        Err(ColmapError::ParseError { line: 0, token: 4 })
    );
}

#[test]
fn point_without_track_has_empty_track() {
    let pts = read_points3d_text(b"5 0 0 0 1 2 3 0.5\n").unwrap();
    assert!(pts[&5].image_ids.is_empty());
    assert!(pts[&5].point2d_idxs.is_empty());
}

#[test]
fn truncated_binary_points_fail_with_eof() {
    let b = point_binary();
    for cut in [0, 8, 40, 58, b.len() - 1] {
        assert_eq!(read_points3d_binary(&b[..cut]), Err(ColmapError::UnexpectedEof));
    }
}

#[test]
fn binary_point_track_length_beyond_input_fails() {
    let mut b = point_binary();
    b[51..59].copy_from_slice(&u64::MAX.to_le_bytes());
    assert_eq!(read_points3d_binary(&b), Err(ColmapError::UnexpectedEof));
}

#[test]
fn binary_image_name_not_utf8_fails() {
    assert_eq!(
        read_images_binary(&image_binary(&[0x66, 0xff, 0xfe])),
        Err(ColmapError::InvalidEncoding)
    );
}

#[test]
fn binary_image_name_is_decoded() {
    let imgs = read_images_binary(&image_binary("vue-é.jpg".as_bytes())).unwrap();
    assert_eq!(imgs[&3].name, "vue-é.jpg");
}

#[test]
fn binary_image_without_terminator_fails_with_eof() {
    let b = image_binary(b"name");
    let cut = 8 + 64 + 2;
    assert_eq!(read_images_binary(&b[..cut]), Err(ColmapError::UnexpectedEof));
    assert_eq!(read_images_binary(&b[..b.len() - 1]), Err(ColmapError::UnexpectedEof));
}

#[test]
fn image_first_line_with_too_few_tokens_is_malformed() {
    assert_eq!(
        read_images_text(b"3 1 0 0 0 0.5 1.5 2.5 2\n\n"),
        Err(ColmapError::MalformedRecord)
    );
}

#[test]
fn image_observations_not_in_triples_are_malformed() {
    assert_eq!(
        read_images_text(b"3 1 0 0 0 0.5 1.5 2.5 2 a.png\n10 20\n"),
        Err(ColmapError::MalformedRecord)
    );
}

#[test]
fn image_bad_observation_reports_second_line() {
    assert_eq!(
        read_images_text(b"# c\n3 1 0 0 0 0.5 1.5 2.5 2 a.png\n10 20 x\n"),
        Err(ColmapError::ParseError { line: 2, token: 2 })
    );
}

#[test]
fn image_without_observation_line_has_none() {
    let imgs = read_images_text(b"3 1 0 0 0 0.5 1.5 2.5 2 a.png").unwrap();
    assert!(imgs[&3].xys.is_empty());
    let imgs = read_images_text(b"3 1 0 0 0 0.5 1.5 2.5 2 a.png\n\n4 1 0 0 0 0 0 0 2 b.png\n1 2 3\n").unwrap();
    assert_eq!(imgs.len(), 2);
    assert_eq!(imgs[&4].point3d_ids, vec![3]);
}

#[test]
fn image_text_name_not_utf8_fails() {
    assert_eq!(
        read_images_text(b"3 1 0 0 0 0.5 1.5 2.5 2 a\xffb\n\n"),
        Err(ColmapError::InvalidEncoding)
    );
}
