use raytrace::mesh::{Face, Mesh, MeshParseError, ObjLine};

fn face_of(line: &str) -> Result<Face, MeshParseError> {
    let tokens: Vec<&str> = line.split(' ').collect();
    Face::from_tokens(&tokens, false, false)
}

#[test]
fn face_indices_count_from_one() {
    assert_eq!(face_of("f 1 2 3").unwrap(), Face { i: 0, j: 1, k: 2 });
    assert_eq!(face_of("f 10 +4 7").unwrap(), Face { i: 9, j: 3, k: 6 });
}

#[test]
fn face_reads_before_the_slash() {
    assert_eq!(face_of("f 1/4 22/5/9 3//7").unwrap(), Face { i: 0, j: 21, k: 2 });
}

#[test]
fn face_ignores_entries_past_the_third() {
    assert_eq!(face_of("f 3 2 1 9").unwrap(), Face { i: 2, j: 1, k: 0 });
}

#[test]
fn face_with_a_word_is_a_parse_int_error() {
    assert!(matches!(face_of("f 1 x 3"), Err(MeshParseError::parse_int(_))));
    assert!(matches!(face_of("f 1 2 -3"), Err(MeshParseError::parse_int(_))));
    assert!(matches!(face_of("f /1 2 3"), Err(MeshParseError::parse_int(_))));
    assert!(matches!(face_of("f 1 2 99999999999999999999999"), Err(MeshParseError::parse_int(_))));
}

#[test]
fn face_with_too_few_entries_is_an_error() {
    assert!(matches!(face_of("f 1 2"), Err(MeshParseError::string(_))));
    assert!(matches!(face_of("f"), Err(MeshParseError::string(_))));
    assert!(matches!(Face::from_tokens(&Vec::new(), false, false), Err(MeshParseError::string(_))));
}

#[test]
fn face_index_zero_is_refused() {
    assert!(matches!(face_of("f 0 1 2"), Err(MeshParseError::string(_))));
    // the first bad entry decides the error
    assert!(matches!(face_of("f 0 x 2"), Err(MeshParseError::string(_))));
    assert!(matches!(face_of("f x 0 2"), Err(MeshParseError::parse_int(_))));
}

#[test]
fn statements_by_keyword() {
    assert_eq!(ObjLine::parse("", false, false).unwrap(), ObjLine::Blank);
    assert_eq!(ObjLine::parse("   \t ", false, false).unwrap(), ObjLine::Blank);
    assert_eq!(ObjLine::parse("# a comment", false, false).unwrap(), ObjLine::Comment);
    assert_eq!(ObjLine::parse("v 1.0 2.0 -3.5", false, false).unwrap(), ObjLine::Vertex);
    assert_eq!(ObjLine::parse("vn 0 1 0", false, false).unwrap(), ObjLine::Normal);
    assert_eq!(ObjLine::parse("vt 0.5 0.5", false, false).unwrap(), ObjLine::TexCoord);
    assert_eq!(ObjLine::parse("g body", false, false).unwrap(), ObjLine::Group);
    assert_eq!(ObjLine::parse("s off", false, false).unwrap(), ObjLine::Smoothing);
    assert_eq!(
        ObjLine::parse("  f  4/1   5/2 6/3  ", true, true).unwrap(),
        ObjLine::Face(Face { i: 3, j: 4, k: 5 })
    );
}

#[test]
fn unknown_statements_are_errors() {
    match ObjLine::parse("usemtl red", false, false) {
        Err(MeshParseError::string(m)) => assert_eq!(m, "Could not parse: usemtl"),
        _ => panic!("expected a message"),
    }
    // a keyword must stand alone
    assert!(matches!(ObjLine::parse("#comment", false, false), Err(MeshParseError::string(_))));
    // a face needs three entries
    assert!(matches!(ObjLine::parse("f 1 2", false, false), Err(MeshParseError::string(_))));
    assert!(matches!(ObjLine::parse("f 1 2 q", false, false), Err(MeshParseError::parse_int(_))));
}

#[test]
fn from_tokens_matches_parse() {
    let tokens = vec!["f", "7", "8", "9"];
    assert_eq!(
        ObjLine::from_tokens(&tokens, false, false).unwrap(),
        ObjLine::Face(Face { i: 6, j: 7, k: 8 })
    );
    assert_eq!(ObjLine::from_tokens(&Vec::new(), false, false).unwrap(), ObjLine::Blank);
}

#[test]
fn mesh_resolves_faces() {
    let verts = vec![10u32, 11, 12, 13];
    let faces = vec![Face { i: 0, j: 1, k: 2 }, Face { i: 3, j: 2, k: 0 }];
    let mesh = Mesh::new(verts, faces);
    assert_eq!(mesh.triangles().unwrap(), vec![[10, 11, 12], [13, 12, 10]]);
}

#[test]
fn mesh_with_a_stray_index_has_no_triangles() {
    let mesh = Mesh::new(vec![1u8, 2, 3], vec![Face { i: 0, j: 1, k: 2 }, Face { i: 0, j: 3, k: 2 }]);
    assert_eq!(mesh.triangles(), None);
    let empty: Mesh<u8> = Mesh::new(vec![], vec![]);
    assert_eq!(empty.triangles(), Some(vec![]));
}

#[test]
fn face_fits_checks_every_index() {
    let f = Face { i: 0, j: 5, k: 2 };
    assert!(f.check_fits(6));
    assert!(!f.check_fits(5));
    assert_eq!(f.as_tri(&vec!['a', 'b', 'c', 'd', 'e', 'f']), ['a', 'f', 'c']);
}
