use arena_shooter::geometry::Vec2;
use arena_shooter::geometry::isqrt_u128;

#[test]
fn isqrt_exact_squares_and_neighbors() {
    assert_eq!(isqrt_u128(0), 0);
    assert_eq!(isqrt_u128(1), 1);
    assert_eq!(isqrt_u128(3), 1);
    assert_eq!(isqrt_u128(4), 2);
    assert_eq!(isqrt_u128(999_999), 999);
    assert_eq!(isqrt_u128(1_000_000), 1000);
    assert_eq!(isqrt_u128(1_000_001), 1000);
    assert_eq!(isqrt_u128(25_000_000_000_000), 5_000_000);
}

#[test]
fn vector_add_and_scale() {
    let a = Vec2 { x: 3_000, y: -4_000 };
    let b = Vec2 { x: -1_000, y: 2_500 };
    let s = a.add(b);
    assert_eq!(s, Vec2 { x: 2_000, y: -1_500 });
    let d = a.scale(3);
    assert_eq!(d, Vec2 { x: 9_000, y: -12_000 });
}

#[test]
fn magnitude_of_three_four_five_triangle() {
    let v = Vec2 { x: 3_000, y: 4_000 };
    assert_eq!(v.len_sq(), 25_000_000);
    assert_eq!(v.magnitude(), 5_000);
}

#[test]
fn distance_five_units_between_near_points() {
    let b = Vec2 { x: 100_000, y: 100_000 };
    let e = Vec2 { x: 105_000, y: 100_000 };
    assert_eq!(b.dist_sq(e), 25_000_000);
    assert_eq!(b.distance(e), 5_000);
}

#[test]
fn normalize_axis_vectors_exactly() {
    assert_eq!(Vec2 { x: 5_000, y: 0 }.normalize(), Vec2 { x: 1000, y: 0 });
    assert_eq!(Vec2 { x: -123, y: 0 }.normalize(), Vec2 { x: -1000, y: 0 });
    assert_eq!(Vec2 { x: 0, y: 70_000 }.normalize(), Vec2 { x: 0, y: 1000 });
    assert_eq!(Vec2 { x: 0, y: -1 }.normalize(), Vec2 { x: 0, y: -1000 });
}

#[test]
fn normalize_zero_is_a_no_op() {
    assert_eq!(Vec2 { x: 0, y: 0 }.normalize(), Vec2 { x: 0, y: 0 });
}

#[test]
fn normalize_keeps_near_unit_length_and_signs() {
    let cases = [
        (3_000i64, 4_000i64),
        (-3_000, 4_000),
        (1, 1),
        (-999_999_999, 999_999_999),
        (17, -29),
        (1_000_000, -1),
    ];
    for (x, y) in cases {
        let n = Vec2 { x, y }.normalize();
        let s = n.x * n.x + n.y * n.y;
        assert!(s >= 990_000, "too short for ({x},{y}): {s}");
        assert!(s <= 1_000_000, "too long for ({x},{y}): {s}");
        assert!(n.x.signum() == x.signum() || n.x == 0);
        assert!(n.y.signum() == y.signum() || n.y == 0);
    }
}
