use objmesh::face::Face;
use objmesh::mesh::{parse_mesh, Outcome};
use objmesh::mtl::parse_mtl;
use objmesh::scalar::Scalar;
use objmesh::texture::{Image, Rgba};
use objmesh::ParseError;

fn px(r: u8, g: u8, b: u8, a: u8) -> Rgba {
    Rgba { r, g, b, a }
}

fn one_pixel_image(c: Rgba) -> Image {
    Image::new(1, 1, vec![c]).unwrap()
}

/// A 2x2 image with four distinct colours, row-major.
fn two_by_two() -> Image {
    Image::new(
        2,
        2,
        vec![
            px(10, 0, 0, 255),
            px(20, 0, 0, 255),
            px(30, 0, 0, 255),
            px(40, 0, 0, 255),
        ],
    )
    .unwrap()
}

fn sc(s: &str) -> Scalar {
    Scalar::parse(s.as_bytes()).unwrap()
}

#[test]
fn needs_material_then_parses() {
    let mesh = b"mtllib m.mtl\nv 0 0 0\nvt 0 0\nvn 0 0 1\nf 1/1/1 1/1/1 1/1/1\n";
    let none: Vec<Option<Image>> = Vec::new();
    match parse_mesh(mesh, &none) {
        Outcome::NeedMaterial { line, filename } => {
            assert_eq!(line, 1);
            assert_eq!(filename, b"m.mtl".to_vec());
        }
        _ => panic!("expected a material request"),
    }
    let images = vec![Some(one_pixel_image(px(1, 2, 3, 4)))];
    match parse_mesh(mesh, &images) {
        Outcome::Faces(faces) => assert_eq!(faces.len(), 1),
        _ => panic!("expected faces"),
    }
}

#[test]
fn face_count_matches_f_records_in_order() {
    let mesh = b"mtllib m.mtl\nv 0 0 0\nv 1 0 0\nv 0 1 0\nv 1 1 0\nvt 0 0\nvn 0 0 1\n\
f 1/1/1 2/1/1 3/1/1\nf 1/1/1 2/1/1 3/1/1 4/1/1\n";
    let images = vec![Some(one_pixel_image(px(9, 9, 9, 9)))];
    match parse_mesh(mesh, &images) {
        Outcome::Faces(faces) => {
            assert_eq!(faces.len(), 2);
            assert!(matches!(faces[0], Face::Triangle(_)));
            assert!(matches!(faces[1], Face::Quad(_)));
        }
        _ => panic!("expected faces"),
    }
}

#[test]
fn five_groups_make_an_ngon_with_five_vertices() {
    let mesh = b"mtllib m.mtl\nv 0 0 0\nvt 0 0\nvn 0 0 1\nf 1/1/1 1/1/1 1/1/1 1/1/1 1/1/1\n";
    let images = vec![Some(one_pixel_image(px(0, 0, 0, 0)))];
    match parse_mesh(mesh, &images) {
        Outcome::Faces(faces) => {
            assert_eq!(faces.len(), 1);
            match &faces[0] {
                Face::Ngon(vs) => assert_eq!(vs.len(), 5),
                _ => panic!("expected an ngon"),
            }
        }
        _ => panic!("expected faces"),
    }
}

#[test]
fn two_groups_still_make_an_ngon() {
    let mesh = b"mtllib m.mtl\nv 0 0 0\nvt 0 0\nvn 0 0 1\nf 1/1/1 1/1/1\n";
    let images = vec![Some(one_pixel_image(px(0, 0, 0, 0)))];
    match parse_mesh(mesh, &images) {
        Outcome::Faces(faces) => match &faces[0] {
            Face::Ngon(vs) => assert_eq!(vs.len(), 2),
            _ => panic!("expected an ngon"),
        },
        _ => panic!("expected faces"),
    }
}

#[test]
fn face_record_without_groups_is_an_empty_ngon() {
    let mesh = b"f\n";
    let none: Vec<Option<Image>> = Vec::new();
    match parse_mesh(mesh, &none) {
        Outcome::Faces(faces) => match &faces[0] {
            Face::Ngon(vs) => assert_eq!(vs.len(), 0),
            _ => panic!("expected an ngon"),
        },
        _ => panic!("expected faces"),
    }
}

#[test]
fn resolved_vertex_round_trips_declared_attributes() {
    let mesh = b"mtllib m.mtl\nv 1.5 -2 3\nv 0 0 0\nvt 0 0\nvn 0.25 -1 +0.5\n\
f 1/1/1 2/1/1 1/1/1\n";
    let color = px(7, 8, 9, 10);
    let images = vec![Some(one_pixel_image(color))];
    match parse_mesh(mesh, &images) {
        Outcome::Faces(faces) => {
            let vs = faces[0].vertices();
            assert_eq!(vs[0].pos.x, sc("1.5"));
            assert_eq!(vs[0].pos.y, sc("-2"));
            assert_eq!(vs[0].pos.z, sc("3"));
            assert_eq!(vs[0].normal.x, sc("0.25"));
            assert_eq!(vs[0].normal.y, sc("-1"));
            assert_eq!(vs[0].normal.z, sc("+0.5"));
            assert_eq!(vs[0].color, color);
            assert_eq!(vs[1].pos.x, sc("0"));
        }
        _ => panic!("expected faces"),
    }
}

#[test]
fn sampling_is_deterministic() {
    let img = two_by_two();
    let u = sc("0.7");
    let v = sc("0.2");
    let first = img.sample(&u, &v);
    let second = img.sample(&u, &v);
    assert_eq!(first, second);
    assert_eq!(first, Some(px(20, 0, 0, 255)));
}

#[test]
fn far_edge_clamps_to_last_pixel() {
    let img = two_by_two();
    assert_eq!(img.sample(&sc("1"), &sc("1.0")), Some(px(40, 0, 0, 255)));
    assert_eq!(img.sample(&sc("1.000"), &sc("0")), Some(px(20, 0, 0, 255)));
}

#[test]
fn out_of_unit_coordinates_are_refused() {
    let img = two_by_two();
    assert_eq!(img.sample(&sc("1.5"), &sc("0")), None);
    assert_eq!(img.sample(&sc("0"), &sc("-0.25")), None);
    assert_eq!(img.sample(&sc("-0"), &sc("0")), Some(px(10, 0, 0, 255)));
}

#[test]
fn empty_sub_index_is_a_format_error() {
    let mesh = b"v 0 0 0\nv 1 0 0\nv 0 1 0\nf 1//1 2//1 3//1\n";
    let none: Vec<Option<Image>> = Vec::new();
    match parse_mesh(mesh, &none) {
        Outcome::Fail(e) => assert_eq!(e, ParseError::FormatError { line: 4 }),
        _ => panic!("expected a format error"),
    }
}

#[test]
fn texcoord_before_material_is_out_of_range() {
    let mesh = b"vt 0 0\n";
    let none: Vec<Option<Image>> = Vec::new();
    match parse_mesh(mesh, &none) {
        Outcome::Fail(e) => assert_eq!(e, ParseError::SampleOutOfRange { line: 1 }),
        _ => panic!("expected a sampling error"),
    }
}

#[test]
fn index_zero_and_forward_references_are_out_of_range() {
    let none: Vec<Option<Image>> = Vec::new();
    let images = vec![Some(one_pixel_image(px(0, 0, 0, 0)))];
    let zero = b"v 0 0 0\nvn 0 0 1\nmtllib m.mtl\nvt 0 0\nf 0/1/1 1/1/1 1/1/1\n";
    match parse_mesh(zero, &images) {
        Outcome::Fail(e) => assert_eq!(e, ParseError::IndexOutOfRange { line: 5 }),
        _ => panic!("expected an index error"),
    }
    let forward = b"v 0 0 0\nvn 0 0 1\nmtllib m.mtl\nvt 0 0\nf 2/1/1 1/1/1 1/1/1\n";
    match parse_mesh(forward, &images) {
        Outcome::Fail(e) => assert_eq!(e, ParseError::IndexOutOfRange { line: 5 }),
        _ => panic!("expected an index error"),
    }
    let _ = none;
}

#[test]
fn malformed_numeral_aborts_with_its_line() {
    let mesh = b"v 0 0 0\nv 1 two 0\nmtllib m.mtl\n";
    let none: Vec<Option<Image>> = Vec::new();
    match parse_mesh(mesh, &none) {
        Outcome::Fail(e) => assert_eq!(e, ParseError::FormatError { line: 2 }),
        _ => panic!("expected a format error before the material request"),
    }
}

#[test]
fn missing_record_fields_are_format_errors() {
    let none: Vec<Option<Image>> = Vec::new();
    match parse_mesh(b"v 1 2\n", &none) {
        Outcome::Fail(e) => assert_eq!(e, ParseError::FormatError { line: 1 }),
        _ => panic!("expected a format error"),
    }
    match parse_mesh(b"mtllib\n", &none) {
        Outcome::Fail(e) => assert_eq!(e, ParseError::FormatError { line: 1 }),
        _ => panic!("expected a format error"),
    }
    match parse_mesh(b"vt 0.5\n", &none) {
        Outcome::Fail(e) => assert_eq!(e, ParseError::FormatError { line: 1 }),
        _ => panic!("expected a format error"),
    }
}

#[test]
fn unknown_keywords_and_blank_lines_are_ignored() {
    let mesh = b"# a comment\n\no object\nusemtl whatever\n   \n";
    let none: Vec<Option<Image>> = Vec::new();
    match parse_mesh(mesh, &none) {
        Outcome::Faces(faces) => assert_eq!(faces.len(), 0),
        _ => panic!("expected an empty face list"),
    }
}

#[test]
fn carriage_returns_are_whitespace() {
    let mesh = b"mtllib m.mtl\r\nv 0 0 0\r\nvt 0 0\r\nvn 0 0 1\r\nf 1/1/1 1/1/1 1/1/1\r\n";
    let images = vec![Some(one_pixel_image(px(5, 5, 5, 5)))];
    match parse_mesh(mesh, &images) {
        Outcome::Faces(faces) => assert_eq!(faces.len(), 1),
        _ => panic!("expected faces"),
    }
}

#[test]
fn material_without_texture_keeps_the_empty_image() {
    let mesh = b"mtllib m.mtl\nvt 0 0\n";
    let images = vec![None];
    match parse_mesh(mesh, &images) {
        Outcome::Fail(e) => assert_eq!(e, ParseError::SampleOutOfRange { line: 2 }),
        _ => panic!("expected a sampling error"),
    }
}

#[test]
fn second_material_without_texture_keeps_the_first_image() {
    let mesh = b"mtllib a.mtl\nmtllib b.mtl\nv 0 0 0\nvt 0 0\nvn 0 0 1\nf 1/1/1 1/1/1 1/1/1\n";
    let color = px(11, 22, 33, 44);
    let images = vec![Some(one_pixel_image(color)), None];
    match parse_mesh(mesh, &images) {
        Outcome::Faces(faces) => assert_eq!(faces[0].vertices()[0].color, color),
        _ => panic!("expected faces"),
    }
}

#[test]
fn mtl_last_map_kd_wins() {
    assert_eq!(
        parse_mtl(b"newmtl m\nmap_Kd a.png\nmap_Kd b.png\n"),
        Ok(Some(b"b.png".to_vec()))
    );
    assert_eq!(parse_mtl(b"newmtl m\nKa 1 1 1\n"), Ok(None));
    assert_eq!(parse_mtl(b""), Ok(None));
}

#[test]
fn mtl_map_kd_without_filename_is_refused_with_its_line() {
    assert_eq!(parse_mtl(b"newmtl m\nmap_Kd\nmap_Kd ok.png\n"), Err(2));
}

#[test]
fn numeral_grammar() {
    assert!(Scalar::parse(b"1.5").is_some());
    assert!(Scalar::parse(b"-0.25").is_some());
    assert!(Scalar::parse(b"+2.").is_some());
    assert!(Scalar::parse(b".5").is_some());
    assert!(Scalar::parse(b"007").is_some());
    assert!(Scalar::parse(b"").is_none());
    assert!(Scalar::parse(b".").is_none());
    assert!(Scalar::parse(b"+").is_none());
    assert!(Scalar::parse(b"1.2.3").is_none());
    assert!(Scalar::parse(b"--1").is_none());
    assert!(Scalar::parse(b"abc").is_none());
    let m = Scalar::parse(b"-12.75").unwrap();
    assert!(m.is_negative());
    assert_eq!(m.int_digits().as_slice(), &[1, 2]);
    assert_eq!(m.frac_digits().as_slice(), &[7, 5]);
}

#[test]
fn scaling_picks_the_truncated_pixel() {
    // on a 2-wide axis, u = 0.5 selects pixel 1 and u = 0.49 pixel 0
    let img = two_by_two();
    assert_eq!(img.sample(&sc("0.5"), &sc("0")), Some(px(20, 0, 0, 255)));
    assert_eq!(img.sample(&sc("0.4999999999999999999"), &sc("0")), Some(px(10, 0, 0, 255)));
    assert_eq!(img.sample(&sc("0"), &sc("0.5")), Some(px(30, 0, 0, 255)));
}

#[test]
fn empty_image_refuses_every_sample() {
    let img = Image::empty();
    assert_eq!(img.width(), 0);
    assert_eq!(img.height(), 0);
    assert_eq!(img.sample(&sc("0"), &sc("0")), None);
}

#[test]
fn image_construction_checks_the_grid_size() {
    assert!(Image::new(2, 2, vec![px(0, 0, 0, 0); 3]).is_none());
    assert!(Image::new(2, 2, vec![px(0, 0, 0, 0); 4]).is_some());
    assert!(Image::new(0, 5, Vec::new()).is_some());
}

#[test]
fn extra_tokens_on_records_are_ignored() {
    let mesh = b"mtllib m.mtl extra\nv 0 0 0 1\nvt 0 0 0\nvn 0 0 1 junk\nf 1/1/1 1/1/1 1/1/1\n";
    let images = vec![Some(one_pixel_image(px(1, 1, 1, 1)))];
    match parse_mesh(mesh, &images) {
        Outcome::Faces(faces) => assert_eq!(faces.len(), 1),
        _ => panic!("expected faces"),
    }
}

#[test]
fn group_with_extra_or_missing_parts_is_refused() {
    let images = vec![Some(one_pixel_image(px(0, 0, 0, 0)))];
    let extra = b"mtllib m.mtl\nv 0 0 0\nvt 0 0\nvn 0 0 1\nf 1/1/1/1 1/1/1 1/1/1\n";
    match parse_mesh(extra, &images) {
        Outcome::Fail(e) => assert_eq!(e, ParseError::FormatError { line: 5 }),
        _ => panic!("expected a format error"),
    }
    let missing = b"mtllib m.mtl\nv 0 0 0\nvt 0 0\nvn 0 0 1\nf 1/1 1/1/1 1/1/1\n";
    match parse_mesh(missing, &images) {
        Outcome::Fail(e) => assert_eq!(e, ParseError::FormatError { line: 5 }),
        _ => panic!("expected a format error"),
    }
}
