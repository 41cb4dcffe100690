//! Vectors and 4x4 homogeneous matrices over fixed-point scalars.

use vstd::prelude::*;
use crate::fixed::{
    ONE, sat64, sat32, tdiv, fmul, fdiv, isqrt_spec,
    lemma_i64_prod_range, lemma_isqrt, lemma_isqrt_unique, lemma_fmul_one, lemma_tdiv_exact,
    lemma_square_ordered,
    sat_i64, sat_i32, sat_sub, sat_add3, tdiv128, fx_mul, fx_div, isqrt128,
};

verus! {

/// A point on the integer pixel grid.
#[derive(Copy, Clone, Debug, PartialEq, Eq, Structural)]
pub struct Vec2i {
    pub x: i32,
    pub y: i32,
}

/// A three-component vector of fixed-point scalars.  It doubles as a
/// homogeneous point (with an implicit fourth component of one) and as a
/// triple of barycentric weights.
#[derive(Copy, Clone, Debug, PartialEq, Eq, Structural)]
pub struct Vec3 {
    pub x: i64,
    pub y: i64,
    pub z: i64,
}

/// Build a `Vec3` from unbounded integers, saturating each component.
pub open spec fn v3s(x: int, y: int, z: int) -> Vec3 {
    Vec3 { x: sat64(x) as i64, y: sat64(y) as i64, z: sat64(z) as i64 }
}

/// Component-wise sum.
pub open spec fn plus_s(a: Vec3, b: Vec3) -> Vec3 {
    v3s(a.x + b.x, a.y + b.y, a.z + b.z)
}

/// Component-wise difference.
pub open spec fn minus_s(a: Vec3, b: Vec3) -> Vec3 {
    v3s(a.x - b.x, a.y - b.y, a.z - b.z)
}

/// Scaling by a fixed-point factor.
pub open spec fn scale_s(v: Vec3, a: int) -> Vec3 {
    v3s(fmul(v.x as int, a), fmul(v.y as int, a), fmul(v.z as int, a))
}

/// Fixed-point dot product.
pub open spec fn dot_s(a: Vec3, b: Vec3) -> int {
    sat64(
        fmul(a.x as int, b.x as int) + fmul(a.y as int, b.y as int) + fmul(
            a.z as int,
            b.z as int,
        ),
    )
}

/// Fixed-point cross product.
pub open spec fn cross_s(a: Vec3, b: Vec3) -> Vec3 {
    v3s(
        fmul(a.y as int, b.z as int) - fmul(a.z as int, b.y as int),
        fmul(a.z as int, b.x as int) - fmul(a.x as int, b.z as int),
        fmul(a.x as int, b.y as int) - fmul(a.y as int, b.x as int),
    )
}

/// Squared Euclidean norm, exact (unscaled: the square of `ONE`-scaled
/// components, so the length of the unit vector is `isqrt` of `ONE * ONE`).
pub open spec fn norm2_s(v: Vec3) -> int {
    v.x * v.x + v.y * v.y + v.z * v.z
}

/// Fixed-point Euclidean length.
pub open spec fn length_s(v: Vec3) -> int {
    sat64(isqrt_spec(norm2_s(v)))
}

/// Fixed-point normalization: each component divided by the length.
pub open spec fn normalize_s(v: Vec3) -> Vec3 {
    let l = isqrt_spec(norm2_s(v));
    v3s(
        tdiv(v.x * (ONE as int), l),
        tdiv(v.y * (ONE as int), l),
        tdiv(v.z * (ONE as int), l),
    )
}

/// Normalization extended to the zero vector, which it leaves in place.
pub open spec fn unit_or_zero_s(v: Vec3) -> Vec3 {
    if v.x == 0 && v.y == 0 && v.z == 0 {
        v
    } else {
        normalize_s(v)
    }
}

/// The square of an `i64` value is non-negative and fits well below `u128`.
proof fn lemma_square_bounds(a: int)
    requires
        i64::MIN <= a <= i64::MAX,
    ensures
        0 <= a * a <= 0x40000000000000000000000000000000,
{
    assert(0 <= a * a <= 0x40000000000000000000000000000000) by (nonlinear_arith)
        requires -0x8000000000000000 <= a <= 0x7fffffffffffffff;
}

/// The squared norm is non-negative and fits in `u128`.
proof fn lemma_norm2_bounds(v: Vec3)
    ensures
        0 <= norm2_s(v),
        norm2_s(v) <= 3 * 0x40000000000000000000000000000000,
{
    lemma_square_bounds(v.x as int);
    lemma_square_bounds(v.y as int);
    lemma_square_bounds(v.z as int);
}

/// Truncation of a fixed-point point to its pixel-grid cell.
pub open spec fn to_vec2i_s(v: Vec3) -> Vec2i {
    Vec2i {
        x: sat32(tdiv(v.x as int, ONE as int)) as i32,
        y: sat32(tdiv(v.y as int, ONE as int)) as i32,
    }
}

impl Vec3 {
    /// Truncate the x and y components to integer pixel coordinates.
    pub fn to_vec2i(&self) -> (r: Vec2i)
        ensures
            r == to_vec2i_s(*self),
    {
        Vec2i {
            x: sat_i32(tdiv128(self.x as i128, ONE as i128)),
            y: sat_i32(tdiv128(self.y as i128, ONE as i128)),
        }
    }

    /// The origin.
    pub fn zero() -> (r: Vec3)
        ensures
            r == (Vec3 { x: 0i64, y: 0i64, z: 0i64 }),
    {
        Vec3 { x: 0, y: 0, z: 0 }
    }

    /// Component-wise sum, saturating.
    pub fn plus(&self, rhs: Vec3) -> (r: Vec3)
        ensures
            r == plus_s(*self, rhs),
    {
        Vec3 {
            x: sat_i64((self.x as i128) + (rhs.x as i128)),
            y: sat_i64((self.y as i128) + (rhs.y as i128)),
            z: sat_i64((self.z as i128) + (rhs.z as i128)),
        }
    }

    /// Component-wise difference, saturating.
    pub fn minus(&self, rhs: Vec3) -> (r: Vec3)
        ensures
            r == minus_s(*self, rhs),
    {
        Vec3 { x: sat_sub(self.x, rhs.x), y: sat_sub(self.y, rhs.y), z: sat_sub(self.z, rhs.z) }
    }

    /// Scale by a fixed-point factor.
    pub fn scale(&self, a: i64) -> (r: Vec3)
        ensures
            r == scale_s(*self, a as int),
    {
        Vec3 { x: fx_mul(self.x, a), y: fx_mul(self.y, a), z: fx_mul(self.z, a) }
    }

    /// The squared norm, exact in `u128`.
    fn norm2(&self) -> (r: u128)
        ensures
            r == norm2_s(*self),
    {
        proof {
            lemma_square_bounds(self.x as int);
            lemma_square_bounds(self.y as int);
            lemma_square_bounds(self.z as int);
        }
        let sx: u128 = ((self.x as i128) * (self.x as i128)) as u128;
        let sy: u128 = ((self.y as i128) * (self.y as i128)) as u128;
        let sz: u128 = ((self.z as i128) * (self.z as i128)) as u128;
        sx + sy + sz
    }

    /// Fixed-point Euclidean length (saturated for extreme vectors).
    pub fn length(&self) -> (r: i64)
        ensures
            r == length_s(*self),
    {
        proof {
            lemma_norm2_bounds(*self);
            lemma_isqrt(norm2_s(*self));
        }
        let l = isqrt128(self.norm2());
        sat_i64(l as i128)
    }

    /// Divide by the length, giving a vector of length close to `ONE`.
    /// The zero vector has no direction and is refused.
    pub fn normalize(&self) -> (r: Vec3)
        requires
            !(self.x == 0 && self.y == 0 && self.z == 0),
        ensures
            r == normalize_s(*self),
    {
        proof {
            lemma_norm2_bounds(*self);
            lemma_isqrt(norm2_s(*self));
            assert(norm2_s(*self) >= 1) by (nonlinear_arith)
                requires !(self.x == 0 && self.y == 0 && self.z == 0);
            assert(isqrt_spec(norm2_s(*self)) >= 1) by {
                if isqrt_spec(norm2_s(*self)) == 0 {
                    assert(norm2_s(*self) < (0 + 1) * (0 + 1));
                }
            };
            lemma_i64_prod_range(self.x as int, ONE as int);
            lemma_i64_prod_range(self.y as int, ONE as int);
            lemma_i64_prod_range(self.z as int, ONE as int);
        }
        let l = isqrt128(self.norm2());
        Vec3 {
            x: sat_i64(tdiv128((self.x as i128) * (ONE as i128), l as i128)),
            y: sat_i64(tdiv128((self.y as i128) * (ONE as i128), l as i128)),
            z: sat_i64(tdiv128((self.z as i128) * (ONE as i128), l as i128)),
        }
    }

    /// Normalize, or return the zero vector unchanged.
    pub fn unit_or_zero(&self) -> (r: Vec3)
        ensures
            r == unit_or_zero_s(*self),
    {
        if self.x == 0 && self.y == 0 && self.z == 0 {
            *self
        } else {
            self.normalize()
        }
    }
}

/// Fixed-point dot product.
pub fn dot(v0: Vec3, v1: Vec3) -> (r: i64)
    ensures
        r == dot_s(v0, v1),
{
    sat_add3(fx_mul(v0.x, v1.x), fx_mul(v0.y, v1.y), fx_mul(v0.z, v1.z))
}

/// Fixed-point cross product.
pub fn cross(v0: Vec3, v1: Vec3) -> (r: Vec3)
    ensures
        r == cross_s(v0, v1),
{
    Vec3 {
        x: sat_sub(fx_mul(v0.y, v1.z), fx_mul(v0.z, v1.y)),
        y: sat_sub(fx_mul(v0.z, v1.x), fx_mul(v0.x, v1.z)),
        z: sat_sub(fx_mul(v0.x, v1.y), fx_mul(v0.y, v1.x)),
    }
}

/// Barycentric weights of `p` with respect to the triangle `a`, `b`, `c`,
/// read off the plane through the two edge-function vectors.  A triangle of
/// (near-)zero signed area yields the sentinel `(-ONE, ONE, ONE)`, whose
/// negative first weight classifies every query point as outside.
pub open spec fn bary_s(a: Vec3, b: Vec3, c: Vec3, p: Vec3) -> Vec3 {
    let va = v3s(c.x - a.x, b.x - a.x, a.x - p.x);
    let vb = v3s(c.y - a.y, b.y - a.y, a.y - p.y);
    let u = cross_s(va, vb);
    if u.z != 0 {
        let w1 = fdiv(u.y as int, u.z as int);
        let w2 = fdiv(u.x as int, u.z as int);
        v3s((ONE as int) - w1 - w2, w1, w2)
    } else {
        v3s(-(ONE as int), ONE as int, ONE as int)
    }
}

/// Barycentric weights of the point `p` relative to the triangle `tri`,
/// using only the x and y components.  The three weights sum to `ONE`
/// whenever none saturates; a degenerate triangle gets the all-outside
/// sentinel.
pub fn barycentric(tri: &[Vec3; 3], p: Vec3) -> (r: Vec3)
    ensures
        r == bary_s(tri[0], tri[1], tri[2], p),
{
    let a = tri[0];
    let b = tri[1];
    let c = tri[2];
    let va = Vec3 { x: sat_sub(c.x, a.x), y: sat_sub(b.x, a.x), z: sat_sub(a.x, p.x) };
    let vb = Vec3 { x: sat_sub(c.y, a.y), y: sat_sub(b.y, a.y), z: sat_sub(a.y, p.y) };
    let u = cross(va, vb);
    if u.z != 0 {
        let w1 = fx_div(u.y, u.z);
        let w2 = fx_div(u.x, u.z);
        let w0 = sat_i64((ONE as i128) - (w1 as i128) - (w2 as i128));
        Vec3 { x: w0, y: w1, z: w2 }
    } else {
        Vec3 { x: -ONE, y: ONE, z: ONE }
    }
}

/// A point's barycentric weights classify it as inside the triangle
/// exactly when none of them is negative.
pub open spec fn inside_s(bc: Vec3) -> bool {
    bc.x >= 0 && bc.y >= 0 && bc.z >= 0
}

/// The fixed-point position of the integer pixel `(x, y)`.
pub open spec fn pixel_pt(x: int, y: int) -> Vec3 {
    Vec3 { x: (x * (ONE as int)) as i64, y: (y * (ONE as int)) as i64, z: 0i64 }
}

/// Barycentric weights of the pixel `(x, y)` against a screen triangle.
pub open spec fn bc_at(t0: Vec3, t1: Vec3, t2: Vec3, x: int, y: int) -> Vec3 {
    bary_s(t0, t1, t2, pixel_pt(x, y))
}

/// The integer bounding box `(x_min, x_max, y_min, y_max)` of a screen
/// triangle, from the truncated coordinates of its vertices.
pub open spec fn bbox_s(t0: Vec3, t1: Vec3, t2: Vec3) -> (int, int, int, int) {
    let v0 = to_vec2i_s(t0);
    let v1 = to_vec2i_s(t1);
    let v2 = to_vec2i_s(t2);
    (
        vstd::math::min(vstd::math::min(v0.x as int, v1.x as int), v2.x as int),
        vstd::math::max(vstd::math::max(v0.x as int, v1.x as int), v2.x as int),
        vstd::math::min(vstd::math::min(v0.y as int, v1.y as int), v2.y as int),
        vstd::math::max(vstd::math::max(v0.y as int, v1.y as int), v2.y as int),
    )
}

/// Depth at a covered pixel: the barycentric-weighted combination of the
/// three vertices' screen-space z, with a single truncating division.
pub open spec fn zinterp_s(t0: Vec3, t1: Vec3, t2: Vec3, bc: Vec3) -> int {
    sat64(tdiv(t0.z * bc.x + t1.z * bc.y + t2.z * bc.z, ONE as int))
}

/// Barycentric-weighted combination of three vectors, one truncating
/// division per component.
pub open spec fn interp3_s(bc: Vec3, a: Vec3, b: Vec3, c: Vec3) -> Vec3 {
    v3s(
        tdiv(a.x * bc.x + b.x * bc.y + c.x * bc.z, ONE as int),
        tdiv(a.y * bc.x + b.y * bc.y + c.y * bc.z, ONE as int),
        tdiv(a.z * bc.x + b.z * bc.y + c.z * bc.z, ONE as int),
    )
}

/// A product of an `i64` value and a unit-range weight stays far inside
/// the range where three such products can be summed in `i128`.
proof fn lemma_prod_unit_weight(a: int, b: int)
    requires
        i64::MIN <= a <= i64::MAX,
        0 <= b <= 65536,
    ensures
        -0x80000000000000000000 <= a * b <= 0x80000000000000000000,
{
    assert(-0x80000000000000000000 <= a * b <= 0x80000000000000000000) by (nonlinear_arith)
        requires
            -0x8000000000000000 <= a <= 0x7fffffffffffffff && 0 <= b <= 65536;
}

/// Weights that pass the inside test lie in `[0, ONE]` and sum to `ONE`:
/// the first weight is defined as `ONE` minus the other two, and none is
/// negative.
pub proof fn lemma_inside_unit(a: Vec3, b: Vec3, c: Vec3, p: Vec3)
    requires
        inside_s(bary_s(a, b, c, p)),
    ensures
        0 <= bary_s(a, b, c, p).x <= ONE,
        0 <= bary_s(a, b, c, p).y <= ONE,
        0 <= bary_s(a, b, c, p).z <= ONE,
        bary_s(a, b, c, p).x + bary_s(a, b, c, p).y + bary_s(a, b, c, p).z == ONE,
{
    let va = v3s(c.x - a.x, b.x - a.x, a.x - p.x);
    let vb = v3s(c.y - a.y, b.y - a.y, a.y - p.y);
    let u = cross_s(va, vb);
    assert(u.z != 0);
}

/// Interpolate three vectors by inside-test weights.
pub fn interp3(bc: Vec3, a: Vec3, b: Vec3, c: Vec3) -> (r: Vec3)
    requires
        0 <= bc.x <= ONE,
        0 <= bc.y <= ONE,
        0 <= bc.z <= ONE,
    ensures
        r == interp3_s(bc, a, b, c),
{
    proof {
        lemma_prod_unit_weight(a.x as int, bc.x as int);
        lemma_prod_unit_weight(b.x as int, bc.y as int);
        lemma_prod_unit_weight(c.x as int, bc.z as int);
        lemma_prod_unit_weight(a.y as int, bc.x as int);
        lemma_prod_unit_weight(b.y as int, bc.y as int);
        lemma_prod_unit_weight(c.y as int, bc.z as int);
        lemma_prod_unit_weight(a.z as int, bc.x as int);
        lemma_prod_unit_weight(b.z as int, bc.y as int);
        lemma_prod_unit_weight(c.z as int, bc.z as int);
    }
    let sx: i128 = (a.x as i128) * (bc.x as i128) + (b.x as i128) * (bc.y as i128) + (c.x as i128)
        * (bc.z as i128);
    let sy: i128 = (a.y as i128) * (bc.x as i128) + (b.y as i128) * (bc.y as i128) + (c.y as i128)
        * (bc.z as i128);
    let sz: i128 = (a.z as i128) * (bc.x as i128) + (b.z as i128) * (bc.y as i128) + (c.z as i128)
        * (bc.z as i128);
    Vec3 {
        x: sat_i64(tdiv128(sx, ONE as i128)),
        y: sat_i64(tdiv128(sy, ONE as i128)),
        z: sat_i64(tdiv128(sz, ONE as i128)),
    }
}

/// Depth at a covered pixel, by inside-test weights.
pub fn zinterp(t0: Vec3, t1: Vec3, t2: Vec3, bc: Vec3) -> (r: i64)
    requires
        0 <= bc.x <= ONE,
        0 <= bc.y <= ONE,
        0 <= bc.z <= ONE,
    ensures
        r == zinterp_s(t0, t1, t2, bc),
{
    proof {
        lemma_prod_unit_weight(t0.z as int, bc.x as int);
        lemma_prod_unit_weight(t1.z as int, bc.y as int);
        lemma_prod_unit_weight(t2.z as int, bc.z as int);
    }
    let s: i128 = (t0.z as i128) * (bc.x as i128) + (t1.z as i128) * (bc.y as i128) + (t2.z
        as i128) * (bc.z as i128);
    sat_i64(tdiv128(s, ONE as i128))
}

/// A 4x4 matrix of fixed-point scalars, stored row-major.
#[derive(Clone, Copy, Debug)]
pub struct Matrix {
    v: [i64; 16],
}

/// One cell of a row-by-column product: the saturated sum of the four
/// pairwise fixed-point products.
pub open spec fn mul_cell(
    a0: i64, a1: i64, a2: i64, a3: i64,
    b0: i64, b1: i64, b2: i64, b3: i64,
) -> int {
    sat64(
        fmul(a0 as int, b0 as int) + fmul(a1 as int, b1 as int) + fmul(a2 as int, b2 as int)
            + fmul(a3 as int, b3 as int),
    )
}

/// Entry `(r, c)` of the matrix product `a * b`.
pub open spec fn mul_ent_s(a: Matrix, b: Matrix, r: int, c: int) -> int {
    mul_cell(
        a.ent(r, 0), a.ent(r, 1), a.ent(r, 2), a.ent(r, 3),
        b.ent(0, c), b.ent(1, c), b.ent(2, c), b.ent(3, c),
    )
}

/// Row `i` of `m` applied to the homogeneous point `(p, ONE)`.
pub open spec fn row_s(m: Matrix, p: Vec3, i: int) -> int {
    sat64(
        fmul(m.ent(i, 0) as int, p.x as int) + fmul(m.ent(i, 1) as int, p.y as int) + fmul(
            m.ent(i, 2) as int,
            p.z as int,
        ) + fmul(m.ent(i, 3) as int, ONE as int),
    )
}

/// Transforming a point: apply all four rows, then divide the first three
/// results by the fourth (the perspective divide).  A vanishing fourth
/// component has no finite image and yields `None`.
pub open spec fn transform_s(m: Matrix, p: Vec3) -> Option<Vec3> {
    let w = row_s(m, p, 3);
    if w == 0 {
        None
    } else {
        Some(
            v3s(
                tdiv(row_s(m, p, 0) * (ONE as int), w),
                tdiv(row_s(m, p, 1) * (ONE as int), w),
                tdiv(row_s(m, p, 2) * (ONE as int), w),
            ),
        )
    }
}

impl Matrix {
    /// The entry in row `r`, column `c`.
    pub closed spec fn ent(self, r: int, c: int) -> i64 {
        self.v[r * 4 + c]
    }

    /// The all-zero matrix.
    pub fn new() -> (m: Matrix)
        ensures
            forall|r: int, c: int| 0 <= r < 4 && 0 <= c < 4 ==> m.ent(r, c) == 0i64,
    {
        Matrix { v: [0, 0, 0, 0, 0, 0, 0, 0, 0, 0, 0, 0, 0, 0, 0, 0] }
    }

    /// The identity transform: `ONE` down the diagonal.
    pub fn identity() -> (m: Matrix)
        ensures
            forall|r: int, c: int|
                0 <= r < 4 && 0 <= c < 4 ==> m.ent(r, c) == (if r == c { ONE } else { 0i64 }),
    {
        Matrix { v: [ONE, 0, 0, 0, 0, ONE, 0, 0, 0, 0, ONE, 0, 0, 0, 0, ONE] }
    }

    /// Read the entry in row `r`, column `c`.
    pub fn get(&self, r: usize, c: usize) -> (x: i64)
        requires
            r < 4,
            c < 4,
        ensures
            x == self.ent(r as int, c as int),
    {
        self.v[r * 4 + c]
    }

    /// Overwrite the entry in row `r`, column `c`.
    pub fn set(&mut self, r: usize, c: usize, x: i64)
        requires
            r < 4,
            c < 4,
        ensures
            final(self).ent(r as int, c as int) == x,
            forall|a: int, b: int|
                0 <= a < 4 && 0 <= b < 4 && !(a == r as int && b == c as int)
                    ==> final(self).ent(a, b) == old(self).ent(a, b),
    {
        self.v[r * 4 + c] = x;
    }

    /// Matrix product, composing `rhs` before `self`.
    pub fn multiply(&self, rhs: &Matrix) -> (m: Matrix)
        ensures
            forall|r: int, c: int|
                0 <= r < 4 && 0 <= c < 4 ==> m.ent(r, c) == mul_ent_s(*self, *rhs, r, c),
    {
        let mut out = Matrix::new();
        let mut r: usize = 0;
        while r < 4
            invariant
                r <= 4,
                forall|a: int, b: int|
                    0 <= a < r as int && 0 <= b < 4 ==> out.ent(a, b) == mul_ent_s(
                        *self,
                        *rhs,
                        a,
                        b,
                    ),
            decreases 4 - r,
        {
            let mut c: usize = 0;
            while c < 4
                invariant
                    r < 4,
                    c <= 4,
                    forall|a: int, b: int|
                        0 <= a < r as int && 0 <= b < 4 ==> out.ent(a, b) == mul_ent_s(
                            *self,
                            *rhs,
                            a,
                            b,
                        ),
                    forall|b: int|
                        0 <= b < c as int ==> out.ent(r as int, b) == mul_ent_s(
                            *self,
                            *rhs,
                            r as int,
                            b,
                        ),
                decreases 4 - c,
            {
                let t = crate::fixed::sat_add4(
                    fx_mul(self.get(r, 0), rhs.get(0, c)),
                    fx_mul(self.get(r, 1), rhs.get(1, c)),
                    fx_mul(self.get(r, 2), rhs.get(2, c)),
                    fx_mul(self.get(r, 3), rhs.get(3, c)),
                );
                out.set(r, c, t);
                c += 1;
            }
            r += 1;
        }
        out
    }

    /// Transform the homogeneous point `(rhs, ONE)` and perform the
    /// perspective divide; `None` when the fourth component vanishes.
    pub fn transform(&self, rhs: Vec3) -> (r: Option<Vec3>)
        ensures
            r == transform_s(*self, rhs),
    {
        let r0 = crate::fixed::sat_add4(
            fx_mul(self.get(0, 0), rhs.x),
            fx_mul(self.get(0, 1), rhs.y),
            fx_mul(self.get(0, 2), rhs.z),
            fx_mul(self.get(0, 3), ONE),
        );
        let r1 = crate::fixed::sat_add4(
            fx_mul(self.get(1, 0), rhs.x),
            fx_mul(self.get(1, 1), rhs.y),
            fx_mul(self.get(1, 2), rhs.z),
            fx_mul(self.get(1, 3), ONE),
        );
        let r2 = crate::fixed::sat_add4(
            fx_mul(self.get(2, 0), rhs.x),
            fx_mul(self.get(2, 1), rhs.y),
            fx_mul(self.get(2, 2), rhs.z),
            fx_mul(self.get(2, 3), ONE),
        );
        let r3 = crate::fixed::sat_add4(
            fx_mul(self.get(3, 0), rhs.x),
            fx_mul(self.get(3, 1), rhs.y),
            fx_mul(self.get(3, 2), rhs.z),
            fx_mul(self.get(3, 3), ONE),
        );
        if r3 == 0 {
            None
        } else {
            Some(Vec3 { x: fx_div(r0, r3), y: fx_div(r1, r3), z: fx_div(r2, r3) })
        }
    }
}

/// A matrix is the fixed-point identity.
pub open spec fn is_identity(m: Matrix) -> bool {
    forall|r: int, c: int|
        0 <= r < 4 && 0 <= c < 4 ==> m.ent(r, c) == (if r == c {
            ONE
        } else {
            0i64
        })
}

/// A matrix is the pure translation by `t`: the identity plus `t` in
/// the last column.
pub open spec fn is_translation(m: Matrix, t: Vec3) -> bool {
    forall|r: int, c: int|
        0 <= r < 4 && 0 <= c < 4 ==> m.ent(r, c) == (if r == 0 && c == 3 {
            t.x
        } else if r == 1 && c == 3 {
            t.y
        } else if r == 2 && c == 3 {
            t.z
        } else if r == c {
            ONE
        } else {
            0i64
        })
}

/// Transforming by the identity returns the point unchanged: the
/// perspective divisor is exactly `ONE` and every division is exact.
pub proof fn lemma_identity_transform(m: Matrix, p: Vec3)
    requires
        is_identity(m),
    ensures
        transform_s(m, p) == Some(p),
{
    lemma_fmul_one(p.x as int);
    lemma_fmul_one(p.y as int);
    lemma_fmul_one(p.z as int);
    lemma_fmul_one(ONE as int);
    lemma_tdiv_exact(p.x as int, ONE as int);
    lemma_tdiv_exact(p.y as int, ONE as int);
    lemma_tdiv_exact(p.z as int, ONE as int);
}

/// A pure translation shifts x, y and z by the translation and changes
/// nothing else, as long as the shifted components stay representable.
pub proof fn lemma_translation_transform(m: Matrix, t: Vec3, p: Vec3)
    requires
        is_translation(m, t),
        i64::MIN <= p.x + t.x <= i64::MAX,
        i64::MIN <= p.y + t.y <= i64::MAX,
        i64::MIN <= p.z + t.z <= i64::MAX,
    ensures
        transform_s(m, p) == Some(plus_s(p, t)),
{
    lemma_fmul_one(p.x as int);
    lemma_fmul_one(p.y as int);
    lemma_fmul_one(p.z as int);
    lemma_fmul_one(t.x as int);
    lemma_fmul_one(t.y as int);
    lemma_fmul_one(t.z as int);
    lemma_fmul_one(ONE as int);
    lemma_tdiv_exact((p.x + t.x) as int, ONE as int);
    lemma_tdiv_exact((p.y + t.y) as int, ONE as int);
    lemma_tdiv_exact((p.z + t.z) as int, ONE as int);
}

/// The signed-area denominator of the barycentric formula; it does not
/// depend on the query point.
pub open spec fn bary_denom_s(a: Vec3, b: Vec3, c: Vec3) -> i64 {
    cross_s(
        v3s(c.x - a.x, b.x - a.x, 0),
        v3s(c.y - a.y, b.y - a.y, 0),
    ).z
}

/// At the triangle's own first vertex the barycentric weights are
/// exactly `(ONE, 0, 0)`, for every non-degenerate triangle.
pub proof fn lemma_barycentric_vertex(a: Vec3, b: Vec3, c: Vec3)
    requires
        bary_denom_s(a, b, c) != 0,
    ensures
        bary_s(a, b, c, a) == (Vec3 { x: ONE, y: 0i64, z: 0i64 }),
{
    let va = v3s(c.x - a.x, b.x - a.x, a.x - a.x);
    let vb = v3s(c.y - a.y, b.y - a.y, a.y - a.y);
    let u = cross_s(va, vb);
    assert(va.z == 0 && vb.z == 0);
    assert(fmul(va.y as int, 0) == 0);
    assert(fmul(va.x as int, 0) == 0);
    assert(fmul(0, vb.y as int) == 0);
    assert(fmul(0, vb.x as int) == 0);
    assert(u.x == 0 && u.y == 0);
    assert(u.z == bary_denom_s(a, b, c));
    assert(fdiv(0, u.z as int) == 0);
}

/// Three collinear points span no area: the denominator vanishes, the
/// sentinel weights come back, and their negative first component
/// classifies every query point as outside — zero pixels are drawn.
/// The collinearity is stated on coordinate differences small enough
/// not to saturate.
pub proof fn lemma_degenerate_triangle(a: Vec3, b: Vec3, c: Vec3, p: Vec3)
    requires
        (c.x - a.x) * (b.y - a.y) == (b.x - a.x) * (c.y - a.y),
        i64::MIN <= c.x - a.x <= i64::MAX,
        i64::MIN <= b.x - a.x <= i64::MAX,
        i64::MIN <= c.y - a.y <= i64::MAX,
        i64::MIN <= b.y - a.y <= i64::MAX,
    ensures
        bary_s(a, b, c, p) == (Vec3 { x: -65536i64, y: 65536i64, z: 65536i64 }),
        bary_s(a, b, c, p).x < 0,
        !inside_s(bary_s(a, b, c, p)),
{
    let va = v3s(c.x - a.x, b.x - a.x, a.x - p.x);
    let vb = v3s(c.y - a.y, b.y - a.y, a.y - p.y);
    let u = cross_s(va, vb);
    assert(va.x as int * vb.y as int == va.y as int * vb.x as int);
    assert(u.z == 0);
}

/// The integer square root and the exact quotient of an axis-aligned
/// normalization step.
proof fn lemma_unit_quot(w: i64, m: int)
    requires
        w != 0,
        m == (if w >= 0 { w as int } else { -(w as int) }),
    ensures
        isqrt_spec((w as int) * (w as int)) == m,
        tdiv((w as int) * (ONE as int), m) == (if w > 0 { ONE as int } else { -(ONE as int) }),
{
    assert((w as int) * (w as int) == m * m && m * m < (m + 1) * (m + 1) && m >= 1)
        by (nonlinear_arith)
        requires w != 0 && m == (if w >= 0 { w as int } else { -(w as int) });
    lemma_isqrt_unique((w as int) * (w as int), m);
    if w > 0 {
        lemma_tdiv_exact(ONE as int, m);
        assert((w as int) * (ONE as int) == (ONE as int) * m) by (nonlinear_arith)
            requires w > 0 && m == w as int;
    } else {
        lemma_tdiv_exact(-(ONE as int), m);
        assert((w as int) * (ONE as int) == (-(ONE as int)) * m) by (nonlinear_arith)
            requires w < 0 && m == -(w as int);
    }
}

/// One normalization step `tdiv(vi * ONE, l)` for a component bounded
/// by the length: the quotient is a unit-range weight and its square,
/// scaled by `l * l`, sits within `2 * ONE * l * l + l * l` of the exact
/// value `vi * vi * ONE * ONE`.
proof fn lemma_component_quot(vi: int, l: int)
    requires
        l >= 1,
        -l <= vi <= l,
    ensures
        -65536 <= tdiv(vi * 65536, l) <= 65536,
        (tdiv(vi * 65536, l) * tdiv(vi * 65536, l)) * (l * l) <= (vi * vi) * (65536 * 65536) + 2
            * 65536 * (l * l) + l * l,
        (tdiv(vi * 65536, l) * tdiv(vi * 65536, l)) * (l * l) >= (vi * vi) * (65536 * 65536) - 2
            * 65536 * (l * l),
{
    let k: int = 65536;
    let c = vi * k;
    let e = tdiv(c, l);
    let m: int = if c >= 0 {
        c
    } else {
        -c
    };
    crate::fixed::lemma_tdiv_residual(c, l);
    assert(m <= l * k && -(l * k) <= c <= l * k) by (nonlinear_arith)
        requires
            -l <= vi <= l && c == vi * k && k == 65536 && m == (if c >= 0 { c } else { -c }) && l
                >= 1;
    assert(-k <= e <= k) by (nonlinear_arith)
        requires
            c - l < e * l && e * l < c + l && -(l * k) <= c <= l * k && l >= 1 && k == 65536;
    assert((e * l) * (e * l) <= m * m + 2 * m * l + l * l) by (nonlinear_arith)
        requires
            c - l < e * l && e * l < c + l && (c == m || c + m == 0) && m >= 0 && l >= 1;
    assert((e * l) * (e * l) >= m * m - 2 * m * l) by (nonlinear_arith)
        requires
            c - l < e * l && e * l < c + l && (c == m || c + m == 0) && m >= 0 && l >= 1;
    assert(m * m == (vi * vi) * (k * k)) by (nonlinear_arith)
        requires (c == m || c + m == 0) && c == vi * k;
    assert(2 * m * l <= 2 * k * (l * l)) by (nonlinear_arith)
        requires m <= l * k && l >= 1 && k == 65536 && m >= 0;
    assert((e * l) * (e * l) == (e * e) * (l * l)) by (nonlinear_arith);
}

/// Any vector of length at least one normalizes to a vector whose
/// length is within a few representation steps of `ONE`: the error of
/// each truncating division is below one part in `ONE`.  Shorter
/// vectors lose too much precision for this bound to hold.
pub proof fn lemma_normalize_near_unit(v: Vec3)
    requires
        norm2_s(v) >= 65536 * 65536,
    ensures
        65532 <= length_s(normalize_s(v)) <= 65541,
{
    let n = norm2_s(v);
    lemma_norm2_bounds(v);
    lemma_isqrt(n);
    let l = isqrt_spec(n);
    assert(l >= 65536) by {
        if l < 65536 {
            lemma_square_ordered(l + 1, 65536);
        }
    };
    lemma_square_bounds(v.x as int);
    lemma_square_bounds(v.y as int);
    lemma_square_bounds(v.z as int);
    assert(-l <= v.x <= l) by {
        if v.x > l {
            lemma_square_ordered(l + 1, v.x as int);
        }
        if v.x < -l {
            lemma_square_ordered(l + 1, -(v.x as int));
            assert((-(v.x as int)) * (-(v.x as int)) == (v.x as int) * (v.x as int))
                by (nonlinear_arith);
        }
    };
    assert(-l <= v.y <= l) by {
        if v.y > l {
            lemma_square_ordered(l + 1, v.y as int);
        }
        if v.y < -l {
            lemma_square_ordered(l + 1, -(v.y as int));
            assert((-(v.y as int)) * (-(v.y as int)) == (v.y as int) * (v.y as int))
                by (nonlinear_arith);
        }
    };
    assert(-l <= v.z <= l) by {
        if v.z > l {
            lemma_square_ordered(l + 1, v.z as int);
        }
        if v.z < -l {
            lemma_square_ordered(l + 1, -(v.z as int));
            assert((-(v.z as int)) * (-(v.z as int)) == (v.z as int) * (v.z as int))
                by (nonlinear_arith);
        }
    };
    let ex = tdiv(v.x * 65536, l);
    let ey = tdiv(v.y * 65536, l);
    let ez = tdiv(v.z * 65536, l);
    lemma_component_quot(v.x as int, l);
    lemma_component_quot(v.y as int, l);
    lemma_component_quot(v.z as int, l);
    let e = normalize_s(v);
    assert(e.x as int == ex && e.y as int == ey && e.z as int == ez);
    let s = ex * ex + ey * ey + ez * ez;
    assert(norm2_s(e) == s);
    assert(s * (l * l) == (ex * ex) * (l * l) + (ey * ey) * (l * l) + (ez * ez) * (l * l))
        by (nonlinear_arith)
        requires s == ex * ex + ey * ey + ez * ez;
    assert(n * (65536 * 65536) == (v.x * v.x) * (65536 * 65536) + (v.y * v.y) * (65536 * 65536)
        + (v.z * v.z) * (65536 * 65536)) by (nonlinear_arith)
        requires n == v.x * v.x + v.y * v.y + v.z * v.z;
    assert((ex * ex) * (l * l) <= (v.x * v.x) * (65536 * 65536) + 2 * 65536 * (l * l) + l * l);
    assert((ey * ey) * (l * l) <= (v.y * v.y) * (65536 * 65536) + 2 * 65536 * (l * l) + l * l);
    assert((ez * ez) * (l * l) <= (v.z * v.z) * (65536 * 65536) + 2 * 65536 * (l * l) + l * l);
    assert((ex * ex) * (l * l) >= (v.x * v.x) * (65536 * 65536) - 2 * 65536 * (l * l));
    assert((ey * ey) * (l * l) >= (v.y * v.y) * (65536 * 65536) - 2 * 65536 * (l * l));
    assert((ez * ez) * (l * l) >= (v.z * v.z) * (65536 * 65536) - 2 * 65536 * (l * l));
    assert(s * (l * l) <= n * (65536 * 65536) + 6 * 65536 * (l * l) + 3 * (l * l))
        by (nonlinear_arith)
        requires
            s * (l * l) == (ex * ex) * (l * l) + (ey * ey) * (l * l) + (ez * ez) * (l * l),
            n * (65536 * 65536) == (v.x * v.x) * (65536 * 65536) + (v.y * v.y) * (65536 * 65536)
                + (v.z * v.z) * (65536 * 65536),
            (ex * ex) * (l * l) <= (v.x * v.x) * (65536 * 65536) + 2 * 65536 * (l * l) + l * l,
            (ey * ey) * (l * l) <= (v.y * v.y) * (65536 * 65536) + 2 * 65536 * (l * l) + l * l,
            (ez * ez) * (l * l) <= (v.z * v.z) * (65536 * 65536) + 2 * 65536 * (l * l) + l * l;
    assert(s * (l * l) >= n * (65536 * 65536) - 6 * 65536 * (l * l)) by (nonlinear_arith)
        requires
            s * (l * l) == (ex * ex) * (l * l) + (ey * ey) * (l * l) + (ez * ez) * (l * l),
            n * (65536 * 65536) == (v.x * v.x) * (65536 * 65536) + (v.y * v.y) * (65536 * 65536)
                + (v.z * v.z) * (65536 * 65536),
            (ex * ex) * (l * l) >= (v.x * v.x) * (65536 * 65536) - 2 * 65536 * (l * l),
            (ey * ey) * (l * l) >= (v.y * v.y) * (65536 * 65536) - 2 * 65536 * (l * l),
            (ez * ez) * (l * l) >= (v.z * v.z) * (65536 * 65536) - 2 * 65536 * (l * l);
    assert(n <= l * l + 2 * l) by {
        assert((l + 1) * (l + 1) == l * l + 2 * l + 1) by (nonlinear_arith);
    };
    assert(s * (l * l) >= (65536 * 65536 - 6 * 65536) * (l * l)) by (nonlinear_arith)
        requires
            s * (l * l) >= n * (65536 * 65536) - 6 * 65536 * (l * l) && n >= l * l;
    assert(s * (l * l) <= (l * l + 2 * l) * (65536 * 65536) + 6 * 65536 * (l * l) + 3 * (l * l))
        by (nonlinear_arith)
        requires
            s * (l * l) <= n * (65536 * 65536) + 6 * 65536 * (l * l) + 3 * (l * l) && n <= l * l
                + 2 * l;
    assert(s <= 65536 * 65536 + 10 * 65536) by (nonlinear_arith)
        requires
            s * (l * l) <= (l * l + 2 * l) * (65536 * 65536) + 6 * 65536 * (l * l) + 3 * (l * l)
                && l >= 65536;
    assert(s >= 65536 * 65536 - 6 * 65536) by (nonlinear_arith)
        requires
            s * (l * l) >= (65536 * 65536 - 6 * 65536) * (l * l) && l >= 1;
    lemma_isqrt(s);
    let r = isqrt_spec(s);
    assert(r >= 65532) by {
        if r < 65532 {
            lemma_square_ordered(r + 1, 65532);
            assert(65532 * 65532 <= 65536 * 65536 - 6 * 65536) by (nonlinear_arith);
        }
    };
    assert(r <= 65541) by {
        if r > 65541 {
            lemma_square_ordered(65542, r);
            assert(65542 * 65542 > 65536 * 65536 + 10 * 65536) by (nonlinear_arith);
        }
    };
}

/// An axis-aligned vector normalizes to a vector of length exactly
/// `ONE`: the part of the unit-length property that the fixed-point
/// representation makes exact.
pub proof fn lemma_normalize_axis_unit(v: Vec3)
    requires
        !(v.x == 0 && v.y == 0 && v.z == 0),
        (v.x == 0 && v.y == 0) || (v.y == 0 && v.z == 0) || (v.x == 0 && v.z == 0),
    ensures
        length_s(normalize_s(v)) == ONE,
{
    let e = normalize_s(v);
    if v.y == 0 && v.z == 0 {
        let m: int = if v.x >= 0 { v.x as int } else { -(v.x as int) };
        assert((v.x as int) * (v.x as int) + (v.y as int) * (v.y as int) + (v.z as int) * (v.z
            as int) == (v.x as int) * (v.x as int)) by (nonlinear_arith)
            requires v.y == 0 && v.z == 0;
        lemma_unit_quot(v.x, m);
        assert(e.y == 0 && e.z == 0);
        assert(e.x as int == 65536 || e.x as int == -65536);
        assert((e.x as int) * (e.x as int) + (e.y as int) * (e.y as int) + (e.z as int) * (e.z
            as int) == 65536 * 65536) by (nonlinear_arith)
            requires (e.x as int == 65536 || e.x as int == -65536) && e.y == 0 && e.z == 0;
    } else if v.x == 0 && v.z == 0 {
        let m: int = if v.y >= 0 { v.y as int } else { -(v.y as int) };
        assert((v.x as int) * (v.x as int) + (v.y as int) * (v.y as int) + (v.z as int) * (v.z
            as int) == (v.y as int) * (v.y as int)) by (nonlinear_arith)
            requires v.x == 0 && v.z == 0;
        lemma_unit_quot(v.y, m);
        assert(e.x == 0 && e.z == 0);
        assert(e.y as int == 65536 || e.y as int == -65536);
        assert((e.x as int) * (e.x as int) + (e.y as int) * (e.y as int) + (e.z as int) * (e.z
            as int) == 65536 * 65536) by (nonlinear_arith)
            requires (e.y as int == 65536 || e.y as int == -65536) && e.x == 0 && e.z == 0;
    } else {
        let m: int = if v.z >= 0 { v.z as int } else { -(v.z as int) };
        assert((v.x as int) * (v.x as int) + (v.y as int) * (v.y as int) + (v.z as int) * (v.z
            as int) == (v.z as int) * (v.z as int)) by (nonlinear_arith)
            requires v.x == 0 && v.y == 0;
        lemma_unit_quot(v.z, m);
        assert(e.x == 0 && e.y == 0);
        assert(e.z as int == 65536 || e.z as int == -65536);
        assert((e.x as int) * (e.x as int) + (e.y as int) * (e.y as int) + (e.z as int) * (e.z
            as int) == 65536 * 65536) by (nonlinear_arith)
            requires (e.z as int == 65536 || e.z as int == -65536) && e.x == 0 && e.y == 0;
    }
    assert(norm2_s(e) == 65536 * 65536);
    lemma_isqrt_unique(norm2_s(e), ONE as int);
}

} // verus!
