use colmap_reader::model::CameraModel;
use colmap_reader::text::{is_float_literal, parse, parse_i32, parse_i64, parse_u64, parse_u8};
use colmap_reader::{read_cameras, read_cameras_binary, read_cameras_text, ColmapError, Scalar};

fn as_f64(s: &Scalar) -> f64 {
    match s {
        Scalar::Binary64(bits) => f64::from_bits(*bits),
        Scalar::Decimal(text) => std::str::from_utf8(text).unwrap().parse().unwrap(),
    }
}

fn pinhole_binary() -> Vec<u8> {
    let mut b = Vec::new();
    b.extend_from_slice(&1u64.to_le_bytes());
    b.extend_from_slice(&1i32.to_le_bytes());
    b.extend_from_slice(&1i32.to_le_bytes());
    b.extend_from_slice(&800u64.to_le_bytes());
    b.extend_from_slice(&600u64.to_le_bytes());
    for p in [500.0f64, 500.0, 400.0, 300.0] {
        b.extend_from_slice(&p.to_le_bytes());
    }
    b
}

#[test]
fn model_ids_follow_declaration_order() {
    assert_eq!(CameraModel::from_id(0), Some(CameraModel::SimplePinhole));
    assert_eq!(CameraModel::from_id(1), Some(CameraModel::Pinhole));
    assert_eq!(CameraModel::from_id(5), Some(CameraModel::OpenCvFishEye));
    assert_eq!(CameraModel::from_id(10), Some(CameraModel::ThinPrismFisheye));
    assert_eq!(CameraModel::from_id(11), None);
    assert_eq!(CameraModel::from_id(-1), None);
    for id in 0..=10 {
        assert_eq!(CameraModel::from_id(id).unwrap().id(), id);
    }
}

#[test]
fn model_names_are_exact() {
    assert_eq!(CameraModel::from_name(b"PINHOLE"), Some(CameraModel::Pinhole));
    assert_eq!(CameraModel::from_name(b"SIMPLE_RADIAL_FISHEYE"), Some(CameraModel::SimpleRadialFisheye));
    assert_eq!(CameraModel::from_name(b"THIN_PRISM_FISHEYE"), Some(CameraModel::ThinPrismFisheye));
    assert_eq!(CameraModel::from_name(b"FOV"), Some(CameraModel::Fov));
    assert_eq!(CameraModel::from_name(b"pinhole"), None);
    assert_eq!(CameraModel::from_name(b"PINHOLE2"), None);
    assert_eq!(CameraModel::from_name(b""), None);
}

#[test]
fn param_counts_match_the_table() {
    let expected = [3usize, 4, 4, 5, 8, 8, 12, 5, 4, 5, 12];
    for (id, count) in expected.iter().enumerate() {
        assert_eq!(CameraModel::from_id(id as i32).unwrap().num_params(), *count);
    }
}

#[test]
fn layout_indices_lie_inside_the_params() {
    for id in 0..=10 {
        let m = CameraModel::from_id(id).unwrap();
        let (fx, fy) = m.focal_indices();
        let (px, py) = m.principal_point_indices();
        for i in [fx, fy, px, py] {
            assert!(i < m.num_params());
        }
    }
    assert_eq!(CameraModel::SimplePinhole.focal_indices(), (0, 0));
    assert_eq!(CameraModel::SimplePinhole.principal_point_indices(), (1, 2));
    assert_eq!(CameraModel::FullOpenCV.focal_indices(), (0, 1));
    assert_eq!(CameraModel::FullOpenCV.principal_point_indices(), (2, 3));
}

#[test]
fn binary_pinhole_record_round_trip() {
    let cams = read_cameras_binary(&pinhole_binary()).unwrap();
    assert_eq!(cams.len(), 1);
    let c = &cams[&1];
    assert_eq!(c.id, 1);
    assert_eq!(c.model, CameraModel::Pinhole);
    assert_eq!(c.width, 800);
    assert_eq!(c.height, 600);
    let (fx, fy) = c.focal();
    assert_eq!((as_f64(fx), as_f64(fy)), (500.0, 500.0));
    let (px, py) = c.principal_point();
    assert_eq!((as_f64(px), as_f64(py)), (400.0, 300.0));
    assert_eq!(*fx, Scalar::Binary64(500.0f64.to_bits()));
}

#[test]
fn text_pinhole_line_matches_binary_record() {
    let text = read_cameras_text(b"1 PINHOLE 800 600 500.0 500.0 400.0 300.0").unwrap();
    let bin = read_cameras_binary(&pinhole_binary()).unwrap();
    assert_eq!(text.len(), bin.len());
    let (t, b) = (&text[&1], &bin[&1]);
    assert_eq!((t.id, t.model, t.width, t.height), (b.id, b.model, b.width, b.height));
    let tp: Vec<f64> = t.params.iter().map(as_f64).collect();
    let bp: Vec<f64> = b.params.iter().map(as_f64).collect();
    assert_eq!(tp, bp);
    assert_eq!(t.params[0], Scalar::Decimal(b"500.0".to_vec()));
}

#[test]
fn comment_line_before_camera_is_skipped() {
    let plain = read_cameras_text(b"1 PINHOLE 800 600 500.0 500.0 400.0 300.0\n").unwrap();
    let commented =
        read_cameras_text(b"# comment\n1 PINHOLE 800 600 500.0 500.0 400.0 300.0\n").unwrap();
    assert_eq!(plain, commented);
}

#[test]
fn blank_lines_and_crlf_are_passed_over() {
    let cams = read_cameras_text(b"\r\n# c\r\n\n1 SIMPLE_PINHOLE 10 20 1 2 3\r\n  \n").unwrap();
    assert_eq!(cams.len(), 1);
    assert_eq!(cams[&1].model, CameraModel::SimplePinhole);
    assert_eq!(cams[&1].params.len(), 3);
}

#[test]
fn empty_text_gives_no_cameras() {
    assert!(read_cameras_text(b"").unwrap().is_empty());
    assert!(read_cameras(b"# only a comment\n", false).unwrap().is_empty());
}

#[test]
fn later_camera_replaces_earlier_with_same_id() {
    let cams = read_cameras_text(b"7 PINHOLE 1 1 1 1 1 1\n7 SIMPLE_PINHOLE 2 2 5 5 5\n").unwrap();
    assert_eq!(cams.len(), 1);
    assert_eq!(cams[&7].model, CameraModel::SimplePinhole);
    assert_eq!(cams[&7].width, 2);
}

#[test]
fn camera_line_with_too_few_tokens_is_malformed() {
    assert_eq!(read_cameras_text(b"1 PINHOLE 800"), Err(ColmapError::MalformedRecord));
}

#[test]
fn unknown_camera_model_name_fails() {
    assert_eq!(
        read_cameras_text(b"1 FISHBOWL 800 600 1 2 3 4"),
        Err(ColmapError::UnknownCameraModel)
    );
}

#[test]
fn wrong_parameter_count_fails() {
    assert_eq!(
        read_cameras_text(b"1 PINHOLE 800 600 500.0 500.0 400.0"),
        Err(ColmapError::ParamCountMismatch)
    );
    assert_eq!(
        read_cameras_text(b"1 SIMPLE_PINHOLE 800 600 1 2 3 4"),
        Err(ColmapError::ParamCountMismatch)
    );
}

#[test]
fn bad_numeric_token_reports_its_position() {
    assert_eq!(
        read_cameras_text(b"# c\n1 PINHOLE 800 -600 1 2 3 4"),
        Err(ColmapError::ParseError { line: 1, token: 3 })
    );
    assert_eq!(
        read_cameras_text(b"x PINHOLE 800 600 1 2 3 4"),
        Err(ColmapError::ParseError { line: 0, token: 0 })
    );
    assert_eq!(
        read_cameras_text(b"1 PINHOLE 800 600 1 2 3 4.4.4"),
        Err(ColmapError::ParseError { line: 0, token: 7 })
    );
}

#[test]
fn unknown_binary_model_id_fails() {
    let mut b = pinhole_binary();
    b[12..16].copy_from_slice(&42i32.to_le_bytes());
    assert_eq!(read_cameras_binary(&b), Err(ColmapError::UnknownCameraModel));
}

#[test]
fn truncated_binary_cameras_fail_with_eof() {
    let b = pinhole_binary();
    for cut in [0, 7, 8, 20, 31, b.len() - 1] {
        assert_eq!(read_cameras_binary(&b[..cut]), Err(ColmapError::UnexpectedEof));
    }
    assert_eq!(read_cameras(&b, true).unwrap().len(), 1);
}

#[test]
fn binary_with_zero_count_is_empty() {
    assert!(read_cameras_binary(&0u64.to_le_bytes()).unwrap().is_empty());
}

#[test]
fn binary_fields_are_little_endian() {
    let mut b = pinhole_binary();
    b[8..12].copy_from_slice(&0x0102_0304i32.to_le_bytes());
    b[16..24].copy_from_slice(&0x0102_0304_0506_0708u64.to_le_bytes());
    let cams = read_cameras_binary(&b).unwrap();
    let c = &cams[&0x0102_0304];
    assert_eq!(c.width, 0x0102_0304_0506_0708);
}

#[test]
fn integer_tokens_follow_rust_rules() {
    assert_eq!(parse(b"+17"), Some((false, 17)));
    assert_eq!(parse(b"-0"), Some((true, 0)));
    assert_eq!(parse(b"18446744073709551615"), Some((false, u64::MAX)));
    assert_eq!(parse(b"18446744073709551616"), None);
    assert_eq!(parse(b"-"), None);
    assert_eq!(parse(b""), None);
    assert_eq!(parse(b"1x"), None);
    assert_eq!(parse_i32(b"-2147483648"), Some(i32::MIN));
    assert_eq!(parse_i32(b"2147483648"), None);
    assert_eq!(parse_i64(b"-9223372036854775808"), Some(i64::MIN));
    assert_eq!(parse_i64(b"9223372036854775808"), None);
    assert_eq!(parse_u64(b"-0"), None);
    assert_eq!(parse_u64(b"007"), Some(7));
    assert_eq!(parse_u8(b"255"), Some(255));
    assert_eq!(parse_u8(b"256"), None);
}

#[test]
fn float_literals_follow_rust_grammar() {
    for ok in ["1", "1.", ".5", "-1.5e-3", "+2E10", "inf", "-Infinity", "NaN", "0.0", "1e5"] {
        assert!(is_float_literal(ok.as_bytes()), "{ok}");
        assert!(ok.parse::<f64>().is_ok());
    }
    for bad in ["", ".", "e5", "1e", "1e+", "--1", "1.2.3", "infinit", "0x10", "1 "] {
        assert!(!is_float_literal(bad.as_bytes()), "{bad}");
        assert!(bad.parse::<f64>().is_err());
    }
}

#[test]
fn every_model_reads_alike_in_both_forms() {
    let names = [
        "SIMPLE_PINHOLE",
        "PINHOLE",
        "SIMPLE_RADIAL",
        "RADIAL",
        "OPENCV",
        "OPENCV_FISHEYE",
        "FULL_OPENCV",
        "FOV",
        "SIMPLE_RADIAL_FISHEYE",
        "RADIAL_FISHEYE",
        "THIN_PRISM_FISHEYE",
    ];
    let mut text = String::new();
    let mut bin = Vec::new();
    bin.extend_from_slice(&(names.len() as u64).to_le_bytes());
    for (k, name) in names.iter().enumerate() {
        let model = CameraModel::from_name(name.as_bytes()).unwrap();
        let id = -(k as i32) - 5;
        let params: Vec<f64> = (0..model.num_params()).map(|j| j as f64 * 0.25 + 1.5).collect();
        text.push_str(&format!("{id} {name} {} {}", 100 + k, 200 + k));
        for p in &params {
            text.push_str(&format!(" {p:?}"));
        }
        text.push('\n');
        bin.extend_from_slice(&id.to_le_bytes());
        bin.extend_from_slice(&model.id().to_le_bytes());
        bin.extend_from_slice(&(100 + k as u64).to_le_bytes());
        bin.extend_from_slice(&(200 + k as u64).to_le_bytes());
        for p in &params {
            bin.extend_from_slice(&p.to_le_bytes());
        }
    }
    let t = read_cameras(text.as_bytes(), false).unwrap();
    let b = read_cameras(&bin, true).unwrap();
    assert_eq!(t.len(), names.len());
    assert_eq!(b.len(), names.len());
    for (id, tc) in &t {
        let bc = &b[id];
        assert_eq!((tc.id, tc.model, tc.width, tc.height), (bc.id, bc.model, bc.width, bc.height));
        let tp: Vec<f64> = tc.params.iter().map(as_f64).collect();
        let bp: Vec<f64> = bc.params.iter().map(as_f64).collect();
        assert_eq!(tp, bp);
        assert_eq!(tp.len(), tc.model.num_params());
    }
}
