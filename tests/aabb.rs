use raytrace::aabb::{coord_bits, coord_key, Axis, OrderedPoint, AABB};

fn key(f: f32) -> u32 {
    coord_key(f.to_bits())
}

fn point(x: f32, y: f32, z: f32) -> OrderedPoint {
    OrderedPoint::new(key(x), key(y), key(z))
}

fn sphere_box(cx: f32, cy: f32, cz: f32, r: f32) -> AABB {
    AABB::new(point(cx - r, cy - r, cz - r), point(cx + r, cy + r, cz + r))
}

#[test]
fn test_union() {
    let aabb0 = sphere_box(0.0, 0.0, 0.0, 1.0);
    let aabb1 = sphere_box(1.0, 0.0, 0.0, 1.0);
    let aabb = AABB::union(&aabb0, &aabb1);

    assert_eq!(aabb.max, point(2.0, 1.0, 1.0));
    assert_eq!(aabb.min, point(-1.0, -1.0, -1.0));
}

#[test]
fn union_contains_both_and_is_smallest() {
    let a = AABB::new(point(-3.0, 0.5, 2.0), point(-1.0, 4.0, 2.0));
    let b = AABB::new(point(-2.0, -7.25, 1.0), point(6.0, 1.0, 1.5));
    let u = AABB::union(&a, &b);
    assert_eq!(u.min, point(-3.0, -7.25, 1.0));
    assert_eq!(u.max, point(6.0, 4.0, 2.0));
    assert_eq!(AABB::union(&b, &a), u);
    assert_eq!(AABB::union(&a, &a), a);
}

#[test]
fn union_all_of_none_is_none() {
    assert_eq!(AABB::union_all(&Vec::new()), None);
}

#[test]
fn union_all_folds_every_box() {
    let boxes = vec![
        sphere_box(0.0, 0.0, 0.0, 1.0),
        sphere_box(5.0, -2.0, 0.0, 0.5),
        sphere_box(0.0, 0.0, -10.0, 2.0),
    ];
    let u = AABB::union_all(&boxes).unwrap();
    assert_eq!(u.min, point(-2.0, -2.5, -12.0));
    assert_eq!(u.max, point(5.5, 2.0, 1.0));
    assert_eq!(AABB::union_all(&boxes[..1].to_vec()), Some(boxes[0]));
}

#[test]
fn flat_box_is_valid() {
    let b = AABB::new(point(1.0, 2.0, 3.0), point(1.0, 5.0, 3.0));
    assert_eq!(b.min.get(Axis::X), b.max.get(Axis::X));
    assert_eq!(b.max.get(Axis::Y), key(5.0));
}

#[test]
fn keys_order_as_floats() {
    let values = [-1.0e30f32, -2.0, -0.5, -0.0, 0.0, 1.0e-30, 0.5, 3.0, 1.0e30];
    for w in values.windows(2) {
        assert!(key(w[0]) < key(w[1]), "{} {}", w[0], w[1]);
    }
    assert_eq!(key(0.0), 0x8000_0000);
    assert_eq!(key(-0.0), 0x7fff_ffff);
}

#[test]
fn keys_round_trip() {
    for f in [-123.5f32, -0.0, 0.0, 7.25, f32::MAX, f32::MIN] {
        assert_eq!(f32::from_bits(coord_bits(key(f))), f);
    }
    for k in [0u32, 1, 0x7fff_ffff, 0x8000_0000, 0xffff_ffff] {
        assert_eq!(coord_key(coord_bits(k)), k);
    }
}

#[test]
fn axis_indices() {
    assert_eq!(Axis::X.index(), 0);
    assert_eq!(Axis::Y.index(), 1);
    assert_eq!(Axis::Z.index(), 2);
    assert_eq!(Axis::from_index(0), Some(Axis::X));
    assert_eq!(Axis::from_index(1), Some(Axis::Y));
    assert_eq!(Axis::from_index(2), Some(Axis::Z));
    assert_eq!(Axis::from_index(3), None);
}

#[test]
fn longest_axis_breaks_ties_toward_x_then_y() {
    fn pick(x: f32, y: f32, z: f32) -> Axis {
        Axis::longest(x >= y, x >= z, y >= z)
    }
    assert_eq!(pick(3.0, 1.0, 1.0), Axis::X);
    assert_eq!(pick(1.0, 3.0, 1.0), Axis::Y);
    assert_eq!(pick(1.0, 2.0, 3.0), Axis::Z);
    // ties go to the earlier axis
    assert_eq!(pick(3.0, 3.0, 1.0), Axis::X);
    assert_eq!(pick(2.0, 2.0, 2.0), Axis::X);
    assert_eq!(pick(3.0, 1.0, 3.0), Axis::X);
    assert_eq!(pick(1.0, 3.0, 3.0), Axis::Y);
}

#[test]
fn triangle_box_spans_its_corners() {
    let b = AABB::of_triangle(&point(0.0, -1.0, 2.0), &point(3.0, 0.5, -4.0), &point(-2.0, 7.0, 2.0));
    assert_eq!(b.min, point(-2.0, -1.0, -4.0));
    assert_eq!(b.max, point(3.0, 7.0, 2.0));
    let flat = AABB::of_triangle(&point(1.0, 1.0, 0.0), &point(2.0, 1.0, 0.0), &point(1.0, 3.0, 0.0));
    assert_eq!(flat.min.z, flat.max.z);
}
