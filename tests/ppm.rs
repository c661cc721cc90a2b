use raytrace::ppm::encode;

#[test]
fn encodes_header_and_rows() {
    let pixels = vec![[1, 2, 3], [255, 0, 10], [40, 50, 60], [7, 8, 9]];
    let text = String::from_utf8(encode(2, 2, &pixels)).unwrap();
    assert_eq!(text, "P3\n2 2\n255\n1 2 3 255 0 10 \n40 50 60 7 8 9 \n");
}

#[test]
fn encodes_a_single_row() {
    let pixels = vec![[0, 0, 0], [100, 200, 255], [9, 10, 99]];
    let text = String::from_utf8(encode(3, 1, &pixels)).unwrap();
    assert_eq!(text, "P3\n3 1\n255\n0 0 0 100 200 255 9 10 99 \n");
}

#[test]
fn encodes_empty_images() {
    assert_eq!(String::from_utf8(encode(0, 0, &vec![])).unwrap(), "P3\n0 0\n255\n");
    assert_eq!(String::from_utf8(encode(0, 2, &vec![])).unwrap(), "P3\n0 2\n255\n\n\n");
}

#[test]
fn ignores_pixels_past_the_image() {
    let pixels = vec![[1, 1, 1], [2, 2, 2], [3, 3, 3]];
    let text = String::from_utf8(encode(1, 2, &pixels)).unwrap();
    assert_eq!(text, "P3\n1 2\n255\n1 1 1 \n2 2 2 \n");
}

#[test]
fn spells_wide_numbers() {
    let text = String::from_utf8(encode(1, 1, &vec![[4294967295, 1000, 10]])).unwrap();
    assert_eq!(text, "P3\n1 1\n255\n4294967295 1000 10 \n");
}
