use term_raster::mesh::{fan_triangulate, parse_face_group};

#[test]
fn triangle_stays_as_is() {
    assert_eq!(fan_triangulate(&vec![4, 9, 2]), vec![4, 9, 2]);
}

#[test]
fn quad_becomes_two_triangles() {
    // Face `1 5 7 3` of a cube, zero-based.
    assert_eq!(fan_triangulate(&vec![0, 4, 6, 2]), vec![0, 4, 6, 0, 6, 2]);
}

#[test]
fn pentagon_becomes_a_fan() {
    assert_eq!(fan_triangulate(&vec![0, 1, 2, 3, 4]), vec![0, 1, 2, 0, 2, 3, 0, 3, 4]);
}

#[test]
fn cube_faces_fan_out_in_order() {
    let faces: [[usize; 4]; 6] = [
        [1, 5, 7, 3],
        [4, 3, 7, 8],
        [8, 7, 5, 6],
        [6, 2, 4, 8],
        [2, 1, 3, 4],
        [6, 5, 1, 2],
    ];
    let mut corners = Vec::new();
    for face in faces.iter() {
        corners.extend(fan_triangulate(&face.iter().map(|i| i - 1).collect()));
    }
    assert_eq!(
        corners,
        vec![
            0, 4, 6, 0, 6, 2, 3, 2, 6, 3, 6, 7, 7, 6, 4, 7, 4, 5, 5, 1, 3, 5, 3, 7, 1, 0, 2, 1, 2,
            3, 5, 4, 0, 5, 0, 1
        ]
    );
}

#[test]
fn face_group_forms() {
    assert_eq!(parse_face_group("5", 8), Some(4));
    assert_eq!(parse_face_group("5/2/1", 8), Some(4));
    assert_eq!(parse_face_group("8//3", 8), Some(7));
    assert_eq!(parse_face_group("1/0/0", 4), Some(0));
}

#[test]
fn face_group_out_of_range() {
    assert_eq!(parse_face_group("0/1/1", 8), None);
    assert_eq!(parse_face_group("9/1/1", 8), None);
    assert_eq!(parse_face_group("99999999999999999999999999", 8), None);
}

#[test]
fn face_group_malformed() {
    assert_eq!(parse_face_group("", 8), None);
    assert_eq!(parse_face_group("/2/3", 8), None);
    assert_eq!(parse_face_group("+3", 8), None);
    assert_eq!(parse_face_group("3a/1", 8), None);
}
