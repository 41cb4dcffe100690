//! Fixed-point scalar arithmetic.
//!
//! A stored `i64` value `v` stands for the real number `v / ONE`.  All
//! operations are exact integer computations in `i128`, truncated toward
//! zero where the mathematical result is fractional (the rounding Rust's
//! own integer division performs) and saturated into the `i64` range.

use vstd::prelude::*;
use vstd::arithmetic::div_mod::{
    lemma_div_pos_is_pos, lemma_div_nonincreasing, lemma_div_multiples_vanish,
    lemma_div_is_ordered, lemma_fundamental_div_mod, lemma_mod_bound,
};

verus! {

/// Scale of the fixed-point representation: `ONE` stands for the real 1.0.
pub const ONE: i64 = 65536;

/// Clamp an unbounded integer into the `i64` range.
pub open spec fn sat64(x: int) -> int {
    if x > i64::MAX as int {
        i64::MAX as int
    } else if x < i64::MIN as int {
        i64::MIN as int
    } else {
        x
    }
}

/// Truncating (round-toward-zero) division, the semantics of Rust's `/`
/// on signed integers, expressed through Euclidean division on magnitudes.
pub open spec fn tdiv(a: int, b: int) -> int {
    if a == 0 {
        0
    } else if a > 0 && b > 0 {
        a / b
    } else if a < 0 && b < 0 {
        (a * -1) / (b * -1)
    } else if a < 0 {
        ((a * -1) / b) * -1
    } else {
        (a / (b * -1)) * -1
    }
}

/// Fixed-point product of `a` and `b`.
pub open spec fn fmul(a: int, b: int) -> int {
    sat64(tdiv(a * b, ONE as int))
}

/// Fixed-point quotient of `a` by `b`.
pub open spec fn fdiv(a: int, b: int) -> int {
    sat64(tdiv(a * (ONE as int), b))
}

/// The magnitude of a truncating quotient never exceeds the dividend's.
pub proof fn lemma_tdiv_bounds(a: int, b: int)
    requires
        b != 0,
    ensures
        a >= 0 ==> -a <= tdiv(a, b) <= a,
        a < 0 ==> a <= tdiv(a, b) <= -a,
{
    if a > 0 && b > 0 {
        lemma_div_pos_is_pos(a, b);
        lemma_div_nonincreasing(a, b);
    } else if a < 0 && b < 0 {
        lemma_div_pos_is_pos(a * -1, b * -1);
        lemma_div_nonincreasing(a * -1, b * -1);
    } else if a < 0 {
        lemma_div_pos_is_pos(a * -1, b);
        lemma_div_nonincreasing(a * -1, b);
    } else if a > 0 {
        lemma_div_pos_is_pos(a, b * -1);
        lemma_div_nonincreasing(a, b * -1);
    }
}

/// Dividing an exact multiple is exact: `tdiv(k * b, b) == k`.
pub proof fn lemma_tdiv_exact(k: int, b: int)
    requires
        b != 0,
    ensures
        tdiv(k * b, b) == k,
{
    if k == 0 {
        assert(k * b == 0) by (nonlinear_arith)
            requires k == 0;
    } else if b > 0 {
        if k > 0 {
            assert(k * b > 0) by (nonlinear_arith)
                requires k > 0 && b > 0;
            lemma_div_multiples_vanish(k, b);
            assert(k * b == b * k) by (nonlinear_arith);
        } else {
            assert(k * b < 0) by (nonlinear_arith)
                requires k < 0 && b > 0;
            lemma_div_multiples_vanish(k * -1, b);
            assert((k * b) * -1 == b * (k * -1)) by (nonlinear_arith);
        }
    } else {
        if k > 0 {
            assert(k * b < 0) by (nonlinear_arith)
                requires k > 0 && b < 0;
            lemma_div_multiples_vanish(k, b * -1);
            assert((k * b) * -1 == (b * -1) * k) by (nonlinear_arith);
        } else {
            assert(k * b > 0) by (nonlinear_arith)
                requires k < 0 && b < 0;
            lemma_div_multiples_vanish(k * -1, b * -1);
            assert(k * b == (b * -1) * (k * -1)) by (nonlinear_arith);
        }
    }
}

/// Truncating remainder, the semantics of Rust's `%` on signed integers:
/// the magnitude remainder carrying the dividend's sign.
pub open spec fn tmod(a: int, b: int) -> int {
    if a == 0 {
        0
    } else if a > 0 && b > 0 {
        a % b
    } else if a < 0 && b < 0 {
        ((a * -1) % (b * -1)) * -1
    } else if a < 0 {
        ((a * -1) % b) * -1
    } else {
        a % (b * -1)
    }
}

/// Multiplying by one in fixed point is exact.
pub proof fn lemma_fmul_one(a: int)
    requires
        i64::MIN <= a <= i64::MAX,
    ensures
        fmul(a, ONE as int) == a,
        fmul(ONE as int, a) == a,
{
    lemma_tdiv_exact(a, ONE as int);
    assert(a * (ONE as int) == (ONE as int) * a) by (nonlinear_arith);
}

/// Squaring is monotonic on the non-negative integers.
pub proof fn lemma_square_ordered(a: int, b: int)
    requires
        0 <= a <= b,
    ensures
        a * a <= b * b,
{
    assert(a * a <= b * b) by (nonlinear_arith)
        requires 0 <= a <= b;
}

/// The non-negative integer square root, defined by recursion.
pub open spec fn isqrt_spec(n: int) -> int
    decreases n,
{
    if n <= 0 {
        0
    } else {
        let r = isqrt_spec(n - 1);
        if (r + 1) * (r + 1) <= n {
            r + 1
        } else {
            r
        }
    }
}

/// `isqrt_spec` indeed brackets its argument between consecutive squares.
pub proof fn lemma_isqrt(n: int)
    requires
        n >= 0,
    ensures
        0 <= isqrt_spec(n),
        isqrt_spec(n) * isqrt_spec(n) <= n,
        n < (isqrt_spec(n) + 1) * (isqrt_spec(n) + 1),
    decreases n,
{
    if n == 0 {
        assert(isqrt_spec(0) == 0);
    } else {
        lemma_isqrt(n - 1);
        let p = isqrt_spec(n - 1);
        if (p + 1) * (p + 1) <= n {
            assert(n - 1 < (p + 1) * (p + 1));
            assert(n == (p + 1) * (p + 1));
            assert((p + 1) * (p + 1) < (p + 2) * (p + 2)) by (nonlinear_arith)
                requires p >= 0;
        }
    }
}

/// Any value bracketed between consecutive squares is the square root.
pub proof fn lemma_isqrt_unique(n: int, r: int)
    requires
        0 <= r,
        r * r <= n,
        n < (r + 1) * (r + 1),
    ensures
        r == isqrt_spec(n),
{
    lemma_isqrt(n);
    let s = isqrt_spec(n);
    if r < s {
        lemma_square_ordered(r + 1, s);
    } else if s < r {
        lemma_square_ordered(s + 1, r);
    }
}

/// A product of two `i64` values stays well inside the `i128` range.
pub proof fn lemma_i64_prod_range(a: int, b: int)
    requires
        i64::MIN <= a <= i64::MAX,
        i64::MIN <= b <= i64::MAX,
    ensures
        -0x40000000000000000000000000000000 <= a * b
            <= 0x40000000000000000000000000000000,
{
    assert(-0x40000000000000000000000000000000 <= a * b
        <= 0x40000000000000000000000000000000) by (nonlinear_arith)
        requires
            -0x8000000000000000 <= a <= 0x7fffffffffffffff,
            -0x8000000000000000 <= b <= 0x7fffffffffffffff;
}

/// A truncating quotient times its divisor lands within one divisor of
/// the dividend, on the dividend's side of zero.
pub proof fn lemma_tdiv_residual(a: int, b: int)
    requires
        b > 0,
    ensures
        a - b < tdiv(a, b) * b < a + b,
        a >= 0 ==> tdiv(a, b) * b <= a,
        a <= 0 ==> a <= tdiv(a, b) * b,
{
    if a == 0 {
        assert(0 * b == 0) by (nonlinear_arith);
    } else if a > 0 {
        lemma_fundamental_div_mod(a, b);
        lemma_mod_bound(a, b);
        let q = a / b;
        assert(tdiv(a, b) == q);
        assert(q * b == b * q) by (nonlinear_arith);
    } else {
        lemma_fundamental_div_mod(a * -1, b);
        lemma_mod_bound(a * -1, b);
        let q = (a * -1) / b;
        assert(tdiv(a, b) == q * -1);
        assert((q * -1) * b == (b * q) * -1) by (nonlinear_arith);
    }
}

/// An interpolation step `t` of fewer than `d` steps scales `dy` by less
/// than one: the quotient stays within `dy`'s magnitude `m`.
pub proof fn lemma_tdiv_factor_bound(t: int, dy: int, d: int, m: int)
    requires
        0 <= t < d,
        m == if dy >= 0 { dy } else { -dy },
    ensures
        -m <= tdiv(t * dy, d) <= m,
{
    if t == 0 || dy == 0 {
        assert(t * dy == 0) by (nonlinear_arith)
            requires t == 0 || dy == 0;
    } else if dy > 0 {
        assert(0 < t * dy && t * dy <= d * m) by (nonlinear_arith)
            requires 0 < t < d && dy > 0 && m == dy;
        lemma_div_is_ordered(t * dy, d * m, d);
        lemma_div_multiples_vanish(m, d);
        lemma_div_pos_is_pos(t * dy, d);
    } else {
        assert(0 < (t * dy) * -1 && (t * dy) * -1 <= d * m) by (nonlinear_arith)
            requires 0 < t < d && dy < 0 && m == -dy;
        lemma_div_is_ordered((t * dy) * -1, d * m, d);
        lemma_div_multiples_vanish(m, d);
        lemma_div_pos_is_pos((t * dy) * -1, d);
    }
}

/// A product of an `i64` value and a texel count stays far inside the
/// `i128` range.
pub proof fn lemma_prod_wide(a: int, b: int)
    requires
        i64::MIN <= a <= i64::MAX,
        0 <= b <= 0x100000000,
    ensures
        -0x800000000000000000000000 <= a * b <= 0x800000000000000000000000,
{
    assert(-0x800000000000000000000000 <= a * b <= 0x800000000000000000000000)
        by (nonlinear_arith)
        requires
            -0x8000000000000000 <= a <= 0x7fffffffffffffff && 0 <= b <= 0x100000000;
}

/// Truncating division on `i128`, via `checked_div`.
pub(crate) fn tdiv128(a: i128, b: i128) -> (r: i128)
    requires
        b != 0,
        a != i128::MIN,
    ensures
        r == tdiv(a as int, b as int),
{
    proof {
        lemma_tdiv_bounds(a as int, b as int);
    }
    match a.checked_div(b) {
        Some(q) => q,
        None => {
            proof {
                assert(false);
            }
            0
        },
    }
}

/// Truncating remainder on `i128`, via `checked_rem`.
pub(crate) fn tmod128(a: i128, b: i128) -> (r: i128)
    requires
        b != 0,
        a != i128::MIN,
    ensures
        r == tmod(a as int, b as int),
{
    match a.checked_rem(b) {
        Some(m) => m,
        None => {
            proof {
                assert(false);
            }
            0
        },
    }
}

/// Integer square root of a `u128`, by binary search on the result.
pub(crate) fn isqrt128(n: u128) -> (r: u64)
    ensures
        r == isqrt_spec(n as int),
{
    let mut lo: u64 = 0;
    let mut hi: u64 = u64::MAX;
    proof {
        assert(((u64::MAX as int) + 1) * ((u64::MAX as int) + 1) > u128::MAX as int)
            by (nonlinear_arith);
    }
    while lo < hi
        invariant
            lo <= hi,
            (lo as int) * (lo as int) <= n as int,
            (n as int) < ((hi as int) + 1) * ((hi as int) + 1),
        decreases hi - lo,
    {
        let mid: u64 = lo + (hi - lo) / 2;
        let cand: u64 = mid + 1;
        proof {
            assert((cand as int) * (cand as int) <= u128::MAX as int) by (nonlinear_arith)
                requires 1 <= cand as int <= 0xffffffffffffffff;
        }
        if (cand as u128) * (cand as u128) <= n {
            lo = cand;
        } else {
            hi = mid;
        }
    }
    proof {
        lemma_isqrt_unique(n as int, lo as int);
    }
    lo
}

/// Clamp an `i128` into the `i64` range.
pub(crate) fn sat_i64(x: i128) -> (r: i64)
    ensures
        r == sat64(x as int),
{
    if x > i64::MAX as i128 {
        i64::MAX
    } else if x < i64::MIN as i128 {
        i64::MIN
    } else {
        x as i64
    }
}

/// Clamp an unbounded integer into the `i32` range.
pub open spec fn sat32(x: int) -> int {
    if x > i32::MAX as int {
        i32::MAX as int
    } else if x < i32::MIN as int {
        i32::MIN as int
    } else {
        x
    }
}

/// Clamp an `i128` into the `i32` range.
pub(crate) fn sat_i32(x: i128) -> (r: i32)
    ensures
        r == sat32(x as int),
{
    if x > i32::MAX as i128 {
        i32::MAX
    } else if x < i32::MIN as i128 {
        i32::MIN
    } else {
        x as i32
    }
}

/// Saturating difference of two `i64` values.
pub(crate) fn sat_sub(a: i64, b: i64) -> (r: i64)
    ensures
        r == sat64(a - b),
{
    sat_i64((a as i128) - (b as i128))
}

/// Saturating sum of three `i64` values.
pub(crate) fn sat_add3(a: i64, b: i64, c: i64) -> (r: i64)
    ensures
        r == sat64(a + b + c),
{
    sat_i64((a as i128) + (b as i128) + (c as i128))
}

/// Saturating sum of four `i64` values.
pub(crate) fn sat_add4(a: i64, b: i64, c: i64, d: i64) -> (r: i64)
    ensures
        r == sat64(a + b + c + d),
{
    sat_i64((a as i128) + (b as i128) + (c as i128) + (d as i128))
}

/// Fixed-point multiplication.
pub fn fx_mul(a: i64, b: i64) -> (r: i64)
    ensures
        r == fmul(a as int, b as int),
{
    proof {
        lemma_i64_prod_range(a as int, b as int);
    }
    let p: i128 = (a as i128) * (b as i128);
    let q: i128 = tdiv128(p, ONE as i128);
    sat_i64(q)
}

/// Fixed-point division.
pub fn fx_div(a: i64, b: i64) -> (r: i64)
    requires
        b != 0,
    ensures
        r == fdiv(a as int, b as int),
{
    proof {
        lemma_i64_prod_range(a as int, ONE as int);
    }
    let p: i128 = (a as i128) * (ONE as i128);
    let q: i128 = tdiv128(p, b as i128);
    sat_i64(q)
}

} // verus!
