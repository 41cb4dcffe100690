use rustyrenderer::fixed::ONE;
use rustyrenderer::math::{Vec2i, Vec3, Matrix, dot, cross, barycentric};

fn v(x: i64, y: i64, z: i64) -> Vec3 {
    Vec3 { x, y, z }
}

fn grid(x: i64, y: i64, z: i64) -> Vec3 {
    Vec3 { x: x * ONE, y: y * ONE, z: z * ONE }
}

#[test]
fn in_barycentric() {
    let p = grid(720, 720, 0);
    let tri = [
        Vec3 { x: 700 * ONE, y: 700 * ONE, z: 99268 * ONE + 14418 },
        Vec3 { x: 800 * ONE, y: 700 * ONE, z: 100763 * ONE + 32112 },
        Vec3 { x: 700 * ONE, y: 800 * ONE, z: 101040 * ONE + 52428 },
    ];
    let bc = barycentric(&tri, p);
    // The weights (0.6, 0.2, 0.2) in fixed point, truncated.
    assert_eq!(bc, Vec3 { x: 39322, y: 13107, z: 13107 });
}

#[test]
fn barycentric_at_own_vertices() {
    let tri = [grid(0, 0, 0), grid(300, 0, 0), grid(0, 300, 0)];
    assert_eq!(barycentric(&tri, tri[0]), v(ONE, 0, 0));
    assert_eq!(barycentric(&tri, tri[1]), v(0, ONE, 0));
    assert_eq!(barycentric(&tri, tri[2]), v(0, 0, ONE));
}

#[test]
fn barycentric_at_centroid() {
    let tri = [grid(0, 0, 0), grid(300, 0, 0), grid(0, 300, 0)];
    let bc = barycentric(&tri, grid(100, 100, 0));
    // One third each, up to fixed-point truncation.
    assert_eq!(bc, v(21846, 21845, 21845));
    assert_eq!(bc.x + bc.y + bc.z, ONE);
}

#[test]
fn barycentric_degenerate_collinear() {
    let tri = [grid(0, 0, 0), grid(1, 1, 0), grid(2, 2, 0)];
    for (px, py) in [(0i64, 0i64), (5, 3), (-7, 2), (1, 1)] {
        let bc = barycentric(&tri, grid(px, py, 0));
        assert_eq!(bc, v(-ONE, ONE, ONE));
        assert!(bc.x < 0);
    }
}

#[test]
fn normalize_has_unit_length() {
    // A 3-4-5 triangle normalizes to length ONE up to representation error.
    let n = grid(3, 4, 0).normalize();
    let len = n.length();
    assert!((len - ONE).abs() <= 4, "length {} too far from ONE", len);
    // An axis-aligned vector is exact.
    assert_eq!(grid(0, 0, -7).normalize().length(), ONE);
    assert_eq!(grid(0, 0, -7).normalize(), v(0, 0, -ONE));
}

#[test]
fn normalize_length_near_one_for_long_vectors() {
    for u in [
        grid(2, 3, 6),
        grid(-5, 1, 9),
        Vec3 { x: ONE + 12345, y: -3 * ONE + 7, z: 2 * ONE + 99 },
    ] {
        let len = u.normalize().length();
        assert!((len - ONE).abs() <= 5, "length {} too far from ONE", len);
    }
}

#[test]
fn vector_arithmetic() {
    let a = v(ONE, 2 * ONE, -3 * ONE);
    let b = v(ONE / 2, ONE, ONE);
    assert_eq!(a.plus(b), v(ONE + ONE / 2, 3 * ONE, -2 * ONE));
    assert_eq!(a.minus(b), v(ONE / 2, ONE, -4 * ONE));
    assert_eq!(a.scale(2 * ONE), v(2 * ONE, 4 * ONE, -6 * ONE));
    assert_eq!(dot(a, b), ONE / 2 + 2 * ONE - 3 * ONE);
    assert_eq!(cross(v(ONE, 0, 0), v(0, ONE, 0)), v(0, 0, ONE));
    assert_eq!(Vec3::zero(), v(0, 0, 0));
    assert_eq!(v(2 * ONE + 123, -3 * ONE - 1, 0).to_vec2i(), Vec2i { x: 2, y: -3 });
}

#[test]
fn identity_transform_returns_point() {
    let m = Matrix::identity();
    let p = v(12345, -67890, 55555);
    assert_eq!(m.transform(p), Some(p));
}

#[test]
fn translation_shifts_coordinates() {
    let mut m = Matrix::identity();
    m.set(0, 3, 5 * ONE);
    m.set(1, 3, -2 * ONE);
    m.set(2, 3, 7 * ONE);
    let p = grid(1, 2, 3);
    assert_eq!(m.transform(p), Some(grid(6, 0, 10)));
}

#[test]
fn transform_with_zero_divisor_is_none() {
    // The all-zero matrix maps every homogeneous point to w == 0.
    let m = Matrix::new();
    assert_eq!(m.transform(grid(1, 2, 3)), None);
}

#[test]
fn matrix_multiply_composes() {
    let mut a = Matrix::identity();
    a.set(0, 3, ONE);
    let mut b = Matrix::identity();
    b.set(1, 1, 2 * ONE);
    let c = a.multiply(&b);
    assert_eq!(c.get(0, 0), ONE);
    assert_eq!(c.get(1, 1), 2 * ONE);
    assert_eq!(c.get(0, 3), ONE);
    assert_eq!(c.get(3, 3), ONE);
    assert_eq!(c.get(2, 1), 0);
    // Composing a translation with a scale applies the scale first.
    let p = grid(1, 1, 1);
    assert_eq!(c.transform(p), Some(v(2 * ONE, 2 * ONE, ONE)));
}
