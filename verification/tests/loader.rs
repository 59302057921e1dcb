use rasterizer::fixed::{isqrt, tdiv64};
use rasterizer::mesh::{parse_obj, LoadError};
use rasterizer::SCALE;

#[test]
fn well_formed_input_loads_every_line() {
    let text = b"# comment\nv 0 0 0\nv 1 0 0\nv 0 1 0\nvn 0 0 1\nf 1 2 3\n";
    let mesh = parse_obj(text).unwrap();
    assert_eq!(mesh.vertices.len(), 3);
    assert_eq!(mesh.faces.len(), 1);
    assert_eq!(mesh.vertices[1].x, SCALE);
    assert_eq!(mesh.vertices[2].y, SCALE);
    // Indices come out 0-based and all lie below the vertex count.
    assert_eq!(mesh.faces[0], vec![0, 1, 2]);
}

#[test]
fn fractions_and_signs_parse_to_fixed_point() {
    let mesh = parse_obj(b"v 1.5 -2.25 +0.5\n").unwrap();
    let p = mesh.vertices[0];
    assert_eq!(p.x, SCALE + SCALE / 2);
    assert_eq!(p.y, -(2 * SCALE + SCALE / 4));
    assert_eq!(p.z, SCALE / 2);
}

#[test]
fn face_tokens_may_carry_slash_suffixes() {
    let mesh = parse_obj(b"v 0 0 0\nv 1 0 0\nv 0 1 0\nf 1/4/7 2/5/8 3/6/9\n").unwrap();
    assert_eq!(mesh.faces[0], vec![0, 1, 2]);
}

#[test]
fn missing_coordinate_is_a_bad_number() {
    assert!(matches!(parse_obj(b"v 0 0\n"), Err(LoadError::BadNumber)));
}

#[test]
fn word_in_place_of_a_number_is_a_bad_number() {
    assert!(matches!(parse_obj(b"v zero 0 0\n"), Err(LoadError::BadNumber)));
}

#[test]
fn face_index_zero_is_a_bad_number() {
    assert!(matches!(parse_obj(b"v 0 0 0\nf 0\n"), Err(LoadError::BadNumber)));
}

#[test]
fn face_index_beyond_vertex_count_is_out_of_range() {
    assert!(matches!(parse_obj(b"v 0 0 0\nf 1 2 1\n"), Err(LoadError::IndexOutOfRange)));
}

#[test]
fn huge_coordinate_is_out_of_range() {
    assert!(matches!(parse_obj(b"v 99999999 0 0\n"), Err(LoadError::CoordOutOfRange)));
}

#[test]
fn empty_input_is_an_empty_mesh() {
    let mesh = parse_obj(b"").unwrap();
    assert_eq!(mesh.vertices.len(), 0);
    assert_eq!(mesh.faces.len(), 0);
}

#[test]
fn short_faces_load_as_given() {
    let mesh = parse_obj(b"v 0 0 0\nv 1 0 0\nf 1 2\n").unwrap();
    assert_eq!(mesh.faces[0], vec![0, 1]);
}

#[test]
fn isqrt_floors_exactly() {
    assert_eq!(isqrt(0), 0);
    assert_eq!(isqrt(15), 3);
    assert_eq!(isqrt(16), 4);
    assert_eq!(isqrt(4294967295), 65535);
}

#[test]
fn division_truncates_toward_zero() {
    assert_eq!(tdiv64(7, 2), 3);
    assert_eq!(tdiv64(-7, 2), -3);
    assert_eq!(tdiv64(7, -2), -3);
    assert_eq!(tdiv64(-7, -2), 3);
}
