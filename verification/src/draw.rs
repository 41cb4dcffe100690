//! Pixel stores: an RGB frame buffer with bounds-checked writes, a depth
//! buffer where a larger value means a nearer surface, and a texture that
//! samples nearest-neighbor with wrap-around coordinates.

use vstd::prelude::*;
use crate::fixed::ONE;
use crate::math::{Vec2i, Vec3, bbox_s, bc_at, inside_s, zinterp_s};

verus! {

/// Whether rasterizing the screen triangle `(t0, t1, t2)` against the
/// depth buffer `zb` writes pixel `(x, y)`: the pixel lies in the
/// bounding box (below its upper edges), exists in `zb`, its barycentric
/// weights pass the inside test, and its interpolated depth is strictly
/// nearer than the stored one.
pub open spec fn tri_hit_s(t0: Vec3, t1: Vec3, t2: Vec3, zb: DepthBuffer, x: int, y: int) -> bool {
    let bb = bbox_s(t0, t1, t2);
    &&& bb.0 <= x < bb.1
    &&& bb.2 <= y < bb.3
    &&& 0 <= x < zb.width_s()
    &&& 0 <= y < zb.height_s()
    &&& inside_s(bc_at(t0, t1, t2, x, y))
    &&& zb.at(x, y) < zinterp_s(t0, t1, t2, bc_at(t0, t1, t2, x, y))
}

/// A segment is steep when it is taller than wide; it is then walked
/// along y instead of x.
pub open spec fn steep_s(p0: Vec2i, p1: Vec2i) -> bool {
    vstd::math::abs(p0.x - p1.x) < vstd::math::abs(p0.y - p1.y)
}

/// The endpoints of a segment, transposed when steep and ordered along
/// the major axis: `(major_lo, minor_lo, major_hi, minor_hi)`.
pub open spec fn line_pts_s(p0: Vec2i, p1: Vec2i) -> (int, int, int, int) {
    if steep_s(p0, p1) {
        if p0.y > p1.y {
            (p1.y as int, p1.x as int, p0.y as int, p0.x as int)
        } else {
            (p0.y as int, p0.x as int, p1.y as int, p1.x as int)
        }
    } else {
        if p0.x > p1.x {
            (p1.x as int, p1.y as int, p0.x as int, p0.y as int)
        } else {
            (p0.x as int, p0.y as int, p1.x as int, p1.y as int)
        }
    }
}

/// The pixel the segment covers at major-axis step `t`: the minor
/// coordinate interpolates linearly with a truncating division.
pub open spec fn line_pix_s(p0: Vec2i, p1: Vec2i, t: int) -> (int, int) {
    let (x0, y0, x1, y1) = line_pts_s(p0, p1);
    let yy = y0 + crate::fixed::tdiv((t - x0) * (y1 - y0), x1 - x0);
    if steep_s(p0, p1) {
        (yy, t)
    } else {
        (t, yy)
    }
}

/// Whether pixel `(a, b)` is covered by one of the segment's steps
/// before `upto`.
pub open spec fn on_line_s(p0: Vec2i, p1: Vec2i, a: int, b: int, upto: int) -> bool {
    exists|t: int|
        line_pts_s(p0, p1).0 <= t < upto && t < line_pts_s(p0, p1).2 && line_pix_s(p0, p1, t) == (
        a,
        b,
        )
}

/// The smaller of two pixel coordinates.
pub(crate) fn min_i32(a: i32, b: i32) -> (r: i32)
    ensures
        r as int == vstd::math::min(a as int, b as int),
{
    if a < b {
        a
    } else {
        b
    }
}

/// The larger of two pixel coordinates.
pub(crate) fn max_i32(a: i32, b: i32) -> (r: i32)
    ensures
        r as int == vstd::math::max(a as int, b as int),
{
    if a > b {
        a
    } else {
        b
    }
}

/// A color, one byte per channel.
#[derive(Copy, Clone, Debug, PartialEq, Eq, Structural)]
pub struct RGB {
    pub r: u8,
    pub g: u8,
    pub b: u8,
}

/// A pixel grid's cells map injectively into a row-major buffer.
proof fn lemma_grid_index(x: int, y: int, w: int, h: int)
    requires
        0 <= x < w,
        0 <= y < h,
    ensures
        0 <= x + y * w < w * h,
{
    assert(0 <= x + y * w < w * h) by (nonlinear_arith)
        requires 0 <= x < w && 0 <= y < h;
}

/// Distinct cells occupy distinct row-major offsets.
proof fn lemma_grid_inj(x1: int, y1: int, x2: int, y2: int, w: int)
    requires
        0 <= x1 < w,
        0 <= x2 < w,
        0 <= y1,
        0 <= y2,
        !(x1 == x2 && y1 == y2),
    ensures
        x1 + y1 * w != x2 + y2 * w,
{
    assert(x1 + y1 * w != x2 + y2 * w) by (nonlinear_arith)
        requires
            0 <= x1 < w && 0 <= x2 < w && 0 <= y1 && 0 <= y2 && !(x1 == x2 && y1 == y2);
}

/// A per-pixel store of the nearest depth seen so far; larger is nearer.
#[derive(Debug)]
pub struct DepthBuffer {
    w: usize,
    h: usize,
    buf: Vec<i64>,
}

impl DepthBuffer {
    #[verifier::type_invariant]
    spec fn wf(self) -> bool {
        &&& self.buf.len() == self.w * self.h
        &&& self.w <= 0xffffffff
        &&& self.h <= 0xffffffff
    }

    /// Width in pixels.
    pub closed spec fn width_s(self) -> int {
        self.w as int
    }

    /// Height in pixels.
    pub closed spec fn height_s(self) -> int {
        self.h as int
    }

    /// The stored depth at pixel `(x, y)`.
    pub closed spec fn at(self, x: int, y: int) -> i64 {
        self.buf[x + y * (self.w as int)]
    }

    /// A fresh buffer holding the most negative depth everywhere, so that
    /// the first depth test at every pixel passes.
    pub fn new(w: usize, h: usize) -> (r: Self)
        requires
            w * h <= usize::MAX,
            w <= 0xffffffff,
            h <= 0xffffffff,
        ensures
            r.width_s() == w,
            r.height_s() == h,
            forall|x: int, y: int| 0 <= x < w && 0 <= y < h ==> r.at(x, y) == i64::MIN,
    {
        let n = w * h;
        let mut buf: Vec<i64> = Vec::new();
        let mut i: usize = 0;
        while i < n
            invariant
                i <= n,
                buf.len() == i,
                forall|j: int| 0 <= j < i ==> buf[j] == i64::MIN,
            decreases n - i,
        {
            buf.push(i64::MIN);
            i += 1;
        }
        let r = DepthBuffer { w, h, buf };
        proof {
            assert forall|x: int, y: int| 0 <= x < w && 0 <= y < h implies r.at(x, y) == i64::MIN by {
                lemma_grid_index(x, y, w as int, h as int);
            }
        }
        r
    }

    /// Width in pixels.
    pub fn width(&self) -> (r: usize)
        ensures
            r == self.width_s(),
    {
        self.w
    }

    /// Height in pixels.
    pub fn height(&self) -> (r: usize)
        ensures
            r == self.height_s(),
    {
        self.h
    }

    /// Store a depth value; the pixel must exist.
    pub fn set(&mut self, x: usize, y: usize, z: i64)
        requires
            x < old(self).width_s(),
            y < old(self).height_s(),
        ensures
            final(self).width_s() == old(self).width_s(),
            final(self).height_s() == old(self).height_s(),
            final(self).at(x as int, y as int) == z,
            forall|a: int, b: int|
                0 <= a < old(self).width_s() && 0 <= b < old(self).height_s() && !(a == x as int
                    && b == y as int) ==> final(self).at(a, b) == old(self).at(a, b),
    {
        proof {
            use_type_invariant(&*self);
            lemma_grid_index(x as int, y as int, self.w as int, self.h as int);
        }
        let off = x + y * self.w;
        self.buf[off] = z;
        proof {
            assert forall|a: int, b: int|
                0 <= a < old(self).width_s() && 0 <= b < old(self).height_s() && !(a == x as int
                    && b == y as int) implies self.at(a, b) == old(self).at(a, b) by {
                lemma_grid_index(a, b, self.w as int, self.h as int);
                lemma_grid_inj(a, b, x as int, y as int, self.w as int);
            }
        }
    }

    /// Read the stored depth; the pixel must exist.
    pub fn get(&self, x: usize, y: usize) -> (z: i64)
        requires
            x < self.width_s(),
            y < self.height_s(),
        ensures
            z == self.at(x as int, y as int),
    {
        proof {
            use_type_invariant(&*self);
            lemma_grid_index(x as int, y as int, self.w as int, self.h as int);
        }
        let off = x + y * self.w;
        self.buf[off]
    }
}

/// One texture axis: the fixed-point coordinate `u` scaled by the texel
/// count `n`, wrapped modulo `n`, truncated to a texel index.  The wrap
/// keeps the dividend's sign, so a negative coordinate can land just
/// below zero and be rejected by the bounds test.
pub open spec fn wrap_s(u: int, n: int) -> int {
    crate::fixed::tdiv(crate::fixed::tmod(u * n, n * (ONE as int)), ONE as int)
}

/// A read-only texture sampled nearest-neighbor, with v = 0 addressing
/// the bottom row (a vertical flip relative to raw row order).
#[derive(Debug)]
pub struct Texture2D {
    w: usize,
    h: usize,
    buf: Vec<u8>,
}

impl Texture2D {
    #[verifier::type_invariant]
    spec fn wf(self) -> bool {
        &&& self.buf.len() == self.w * self.h * 3
        &&& self.w <= 0xffffffff
        &&& self.h <= 0xffffffff
    }

    /// Width in texels.
    pub closed spec fn width_s(self) -> int {
        self.w as int
    }

    /// Height in texels.
    pub closed spec fn height_s(self) -> int {
        self.h as int
    }

    /// The color stored at texel `(x, y)`.
    pub closed spec fn texel(self, x: int, y: int) -> RGB {
        RGB {
            r: self.buf[(x + y * (self.w as int)) * 3],
            g: self.buf[(x + y * (self.w as int)) * 3 + 1],
            b: self.buf[(x + y * (self.w as int)) * 3 + 2],
        }
    }

    /// What `sample` returns: wrap both axes (v flipped), then either the
    /// addressed texel or black when the wrapped index falls outside.
    pub open spec fn sample_s(self, uv: Vec3) -> RGB {
        if self.width_s() == 0 || self.height_s() == 0 {
            RGB { r: 0u8, g: 0u8, b: 0u8 }
        } else {
            let x = wrap_s(uv.x as int, self.width_s());
            let y = wrap_s(crate::fixed::sat64(ONE - uv.y), self.height_s());
            if 0 <= x < self.width_s() && 0 <= y < self.height_s() {
                self.texel(x, y)
            } else {
                RGB { r: 0u8, g: 0u8, b: 0u8 }
            }
        }
    }

    /// Wrap a texture buffer: `buf` holds `w * h` texels, three bytes
    /// each, row-major.
    pub fn new(w: usize, h: usize, buf: Vec<u8>) -> (r: Self)
        requires
            buf.len() == w * h * 3,
            w <= 0xffffffff,
            h <= 0xffffffff,
        ensures
            r.width_s() == w,
            r.height_s() == h,
            forall|x: int, y: int|
                0 <= x < w && 0 <= y < h ==> r.texel(x, y) == (RGB {
                    r: buf[(x + y * w) * 3],
                    g: buf[(x + y * w) * 3 + 1],
                    b: buf[(x + y * w) * 3 + 2],
                }),
    {
        Texture2D { w, h, buf }
    }

    /// Width in texels.
    pub fn width(&self) -> (r: usize)
        ensures
            r == self.width_s(),
    {
        self.w
    }

    /// Height in texels.
    pub fn height(&self) -> (r: usize)
        ensures
            r == self.height_s(),
    {
        self.h
    }

    /// Nearest-neighbor sample at the fixed-point coordinates `(uv.x,
    /// uv.y)`, both wrapped; out-of-range wrapped indices give black.
    pub fn sample(&self, uv: Vec3) -> (c: RGB)
        ensures
            c == self.sample_s(uv),
    {
        proof {
            use_type_invariant(&*self);
        }
        if self.w == 0 || self.h == 0 {
            return RGB { r: 0, g: 0, b: 0 };
        }
        let wn: i128 = self.w as i128;
        let hn: i128 = self.h as i128;
        let flipped: i64 = crate::fixed::sat_sub(ONE, uv.y);
        proof {
            crate::fixed::lemma_prod_wide(uv.x as int, wn as int);
            crate::fixed::lemma_prod_wide(flipped as int, hn as int);
            assert(65536 <= wn * 65536 <= 0x10000000000000) by (nonlinear_arith)
                requires 1 <= wn <= 0x100000000;
            assert(65536 <= hn * 65536 <= 0x10000000000000) by (nonlinear_arith)
                requires 1 <= hn <= 0x100000000;
        }
        let px: i128 = (uv.x as i128) * wn;
        let py: i128 = (flipped as i128) * hn;
        let mx: i128 = crate::fixed::tmod128(px, wn * (ONE as i128));
        let my: i128 = crate::fixed::tmod128(py, hn * (ONE as i128));
        let x: i128 = crate::fixed::tdiv128(mx, ONE as i128);
        let y: i128 = crate::fixed::tdiv128(my, ONE as i128);
        if 0 <= x && x < wn && 0 <= y && y < hn {
            let xi = x as usize;
            let yi = y as usize;
            proof {
                lemma_grid_index(xi as int, yi as int, self.w as int, self.h as int);
            }
            let off = (xi + yi * self.w) * 3;
            RGB { r: self.buf[off], g: self.buf[off + 1], b: self.buf[off + 2] }
        } else {
            RGB { r: 0, g: 0, b: 0 }
        }
    }
}

/// A row-major RGB image with its origin at the top left.
#[derive(Debug)]
pub struct Image {
    w: usize,
    h: usize,
    buf: Vec<u8>,
}

impl Image {
    #[verifier::type_invariant]
    spec fn wf(self) -> bool {
        &&& self.buf.len() == self.w * self.h * 3
        &&& self.w <= 0xffffffff
        &&& self.h <= 0xffffffff
    }

    /// Width in pixels.
    pub closed spec fn width_s(self) -> int {
        self.w as int
    }

    /// Height in pixels.
    pub closed spec fn height_s(self) -> int {
        self.h as int
    }

    /// The color stored at pixel `(x, y)`.
    pub closed spec fn pix(self, x: int, y: int) -> RGB {
        RGB {
            r: self.buf[(x + y * (self.w as int)) * 3],
            g: self.buf[(x + y * (self.w as int)) * 3 + 1],
            b: self.buf[(x + y * (self.w as int)) * 3 + 2],
        }
    }

    /// A fresh all-black image.
    pub fn new(w: usize, h: usize) -> (r: Self)
        requires
            w * h * 3 <= usize::MAX,
            w <= 0xffffffff,
            h <= 0xffffffff,
        ensures
            r.width_s() == w,
            r.height_s() == h,
            forall|x: int, y: int|
                0 <= x < w && 0 <= y < h ==> r.pix(x, y) == (RGB { r: 0u8, g: 0u8, b: 0u8 }),
    {
        let n = w * h * 3;
        let mut buf: Vec<u8> = Vec::new();
        let mut i: usize = 0;
        while i < n
            invariant
                i <= n,
                buf.len() == i,
                forall|j: int| 0 <= j < i ==> buf[j] == 0u8,
            decreases n - i,
        {
            buf.push(0);
            i += 1;
        }
        let r = Image { w, h, buf };
        proof {
            assert forall|x: int, y: int| 0 <= x < w && 0 <= y < h implies r.pix(x, y) == (RGB {
                r: 0u8,
                g: 0u8,
                b: 0u8,
            }) by {
                lemma_grid_index(x, y, w as int, h as int);
            }
        }
        r
    }

    /// Width in pixels.
    pub fn width(&self) -> (r: usize)
        ensures
            r == self.width_s(),
    {
        self.w
    }

    /// Height in pixels.
    pub fn height(&self) -> (r: usize)
        ensures
            r == self.height_s(),
    {
        self.h
    }

    /// The raw row-major bytes, three per pixel, for handing the frame
    /// to an encoder.
    pub fn bytes(&self) -> (r: &Vec<u8>)
        ensures
            r.len() == self.width_s() * self.height_s() * 3,
            forall|x: int, y: int|
                0 <= x < self.width_s() && 0 <= y < self.height_s() ==> self.pix(x, y) == (RGB {
                    r: r[(x + y * self.width_s()) * 3],
                    g: r[(x + y * self.width_s()) * 3 + 1],
                    b: r[(x + y * self.width_s()) * 3 + 2],
                }),
    {
        proof {
            use_type_invariant(&*self);
        }
        &self.buf
    }

    /// Write one pixel.  A write outside the image is dropped, not fatal.
    pub fn set(&mut self, x: usize, y: usize, c: RGB)
        ensures
            final(self).width_s() == old(self).width_s(),
            final(self).height_s() == old(self).height_s(),
            x < old(self).width_s() && y < old(self).height_s() ==> final(self).pix(
                x as int,
                y as int,
            ) == c,
            forall|a: int, b: int|
                0 <= a < old(self).width_s() && 0 <= b < old(self).height_s() && !(a == x as int
                    && b == y as int) ==> final(self).pix(a, b) == old(self).pix(a, b),
    {
        proof {
            use_type_invariant(&*self);
        }
        if x >= self.w || y >= self.h {
            return ;
        }
        proof {
            lemma_grid_index(x as int, y as int, self.w as int, self.h as int);
        }
        let off = (x + y * self.w) * 3;
        self.buf[off] = c.r;
        self.buf[off + 1] = c.g;
        self.buf[off + 2] = c.b;
        proof {
            assert forall|a: int, b: int|
                0 <= a < old(self).width_s() && 0 <= b < old(self).height_s() && !(a == x as int
                    && b == y as int) implies self.pix(a, b) == old(self).pix(a, b) by {
                lemma_grid_index(a, b, self.w as int, self.h as int);
                lemma_grid_inj(a, b, x as int, y as int, self.w as int);
            }
        }
    }

    /// Draw a straight line segment.  Out-of-range pixels are dropped.
    /// The segment covers, for each step `t` from the lower to just below
    /// the upper major-axis coordinate, the pixel `line_pix_s(p0, p1, t)`.
    pub fn line(&mut self, p0: &Vec2i, p1: &Vec2i, c: RGB)
        ensures
            final(self).width_s() == old(self).width_s(),
            final(self).height_s() == old(self).height_s(),
            forall|a: int, b: int|
                0 <= a < old(self).width_s() && 0 <= b < old(self).height_s() ==> final(self).pix(
                    a,
                    b,
                ) == (if on_line_s(*p0, *p1, a, b, line_pts_s(*p0, *p1).2) {
                    c
                } else {
                    old(self).pix(a, b)
                }),
    {
        proof {
            use_type_invariant(&*self);
        }
        let dx = (p0.x as i64) - (p1.x as i64);
        let adx = if dx < 0 {
            -dx
        } else {
            dx
        };
        let dy = (p0.y as i64) - (p1.y as i64);
        let ady = if dy < 0 {
            -dy
        } else {
            dy
        };
        let steep = adx < ady;
        let (x0, y0, x1, y1): (i32, i32, i32, i32) = if steep {
            if p0.y > p1.y {
                (p1.y, p1.x, p0.y, p0.x)
            } else {
                (p0.y, p0.x, p1.y, p1.x)
            }
        } else {
            if p0.x > p1.x {
                (p1.x, p1.y, p0.x, p0.y)
            } else {
                (p0.x, p0.y, p1.x, p1.y)
            }
        };
        let wi = self.width();
        let hi = self.height();
        let mut t: i32 = x0;
        while t < x1
            invariant
                x0 <= t,
                steep == steep_s(*p0, *p1),
                (x0 as int, y0 as int, x1 as int, y1 as int) == line_pts_s(*p0, *p1),
                self.width_s() == wi,
                self.height_s() == hi,
                old(self).width_s() == wi,
                old(self).height_s() == hi,
                wi <= 0xffffffff,
                hi <= 0xffffffff,
                forall|a: int, b: int|
                    0 <= a < wi && 0 <= b < hi ==> self.pix(a, b) == (if on_line_s(
                        *p0,
                        *p1,
                        a,
                        b,
                        t as int,
                    ) {
                        c
                    } else {
                        old(self).pix(a, b)
                    }),
            decreases x1 as int - t,
        {
            let tt: i64 = (t as i64) - (x0 as i64);
            let dyl: i64 = (y1 as i64) - (y0 as i64);
            let dxl: i64 = (x1 as i64) - (x0 as i64);
            let adyl = if dyl < 0 {
                -dyl
            } else {
                dyl
            };
            proof {
                crate::fixed::lemma_i64_prod_range(tt as int, dyl as int);
                crate::fixed::lemma_tdiv_factor_bound(
                    tt as int,
                    dyl as int,
                    dxl as int,
                    adyl as int,
                );
            }
            let q = crate::fixed::tdiv128((tt as i128) * (dyl as i128), dxl as i128);
            let yy: i64 = (y0 as i64) + (q as i64);
            let (px, py): (i64, i64) = if steep {
                (yy, t as i64)
            } else {
                (t as i64, yy)
            };
            if px >= 0 && py >= 0 && px < wi as i64 && py < hi as i64 {
                self.set(px as usize, py as usize, c);
            }
            proof {
                let ghost pg = (px as int, py as int);
                assert forall|a: int, b: int| 0 <= a < wi && 0 <= b < hi implies self.pix(a, b)
                    == (if on_line_s(*p0, *p1, a, b, t as int + 1) {
                    c
                } else {
                    old(self).pix(a, b)
                }) by {
                    assert(line_pix_s(*p0, *p1, t as int) == pg);
                    if a == pg.0 && b == pg.1 {
                        assert(on_line_s(*p0, *p1, a, b, t as int + 1));
                    } else {
                        if on_line_s(*p0, *p1, a, b, t as int + 1) {
                            let tw = choose|tw: int|
                                line_pts_s(*p0, *p1).0 <= tw < t as int + 1 && tw < line_pts_s(
                                    *p0,
                                    *p1,
                                ).2 && line_pix_s(*p0, *p1, tw) == (a, b);
                            assert(tw != t as int);
                            assert(on_line_s(*p0, *p1, a, b, t as int));
                        }
                        if on_line_s(*p0, *p1, a, b, t as int) {
                            let tw = choose|tw: int|
                                line_pts_s(*p0, *p1).0 <= tw < t as int && tw < line_pts_s(
                                    *p0,
                                    *p1,
                                ).2 && line_pix_s(*p0, *p1, tw) == (a, b);
                            assert(on_line_s(*p0, *p1, a, b, t as int + 1));
                        }
                    }
                }
            }
            t += 1;
        }
        proof {
            assert forall|a: int, b: int| 0 <= a < wi && 0 <= b < hi implies (on_line_s(
                *p0,
                *p1,
                a,
                b,
                t as int,
            ) == on_line_s(*p0, *p1, a, b, line_pts_s(*p0, *p1).2)) by {
                if on_line_s(*p0, *p1, a, b, t as int) {
                    let tw = choose|tw: int|
                        line_pts_s(*p0, *p1).0 <= tw < t as int && tw < line_pts_s(*p0, *p1).2
                            && line_pix_s(*p0, *p1, tw) == (a, b);
                    assert(on_line_s(*p0, *p1, a, b, line_pts_s(*p0, *p1).2));
                }
                if on_line_s(*p0, *p1, a, b, line_pts_s(*p0, *p1).2) {
                    let tw = choose|tw: int|
                        line_pts_s(*p0, *p1).0 <= tw < line_pts_s(*p0, *p1).2 && tw < line_pts_s(
                            *p0,
                            *p1,
                        ).2 && line_pix_s(*p0, *p1, tw) == (a, b);
                    assert(on_line_s(*p0, *p1, a, b, t as int));
                }
            }
        }
    }

    /// Mirror the image vertically in place, swapping each row with its
    /// opposite; the output convention flips the top-left origin.
    pub fn flip_y(&mut self)
        ensures
            final(self).width_s() == old(self).width_s(),
            final(self).height_s() == old(self).height_s(),
            forall|x: int, y: int|
                0 <= x < old(self).width_s() && 0 <= y < old(self).height_s() ==> final(self).pix(
                    x,
                    y,
                ) == old(self).pix(x, old(self).height_s() - 1 - y),
    {
        let w = self.width();
        let h = self.height();
        let mut y: usize = 0;
        while y < h / 2
            invariant
                y <= h / 2,
                self.width_s() == w,
                self.height_s() == h,
                old(self).width_s() == w,
                old(self).height_s() == h,
                forall|a: int, b: int|
                    0 <= a < w && 0 <= b < h ==> self.pix(a, b) == (if b < y || b > h - 1 - y {
                        old(self).pix(a, h - 1 - b)
                    } else {
                        old(self).pix(a, b)
                    }),
            decreases h / 2 - y,
        {
            let yb = h - 1 - y;
            let mut x: usize = 0;
            while x < w
                invariant
                    x <= w,
                    y < h / 2,
                    yb == h - 1 - y,
                    self.width_s() == w,
                    self.height_s() == h,
                    old(self).width_s() == w,
                    old(self).height_s() == h,
                    forall|a: int, b: int|
                        0 <= a < w && 0 <= b < h ==> self.pix(a, b) == (if b < y || b > h - 1 - y {
                            old(self).pix(a, h - 1 - b)
                        } else if (b == y || b == yb) && a < x {
                            old(self).pix(a, h - 1 - b)
                        } else {
                            old(self).pix(a, b)
                        }),
                decreases w - x,
            {
                let ca = self.get(x, y);
                let cb = self.get(x, yb);
                self.set(x, y, cb);
                self.set(x, yb, ca);
                x += 1;
            }
            y += 1;
        }
    }

    /// Rasterize a screen triangle in one flat color with depth testing:
    /// every pixel of the bounding box (exclusive of its upper edges) whose
    /// barycentric weights are all non-negative and whose interpolated
    /// depth beats the depth buffer gets the color and the new depth.
    /// Pixels outside either buffer are dropped.
    pub fn triangle(&mut self, tri: &[Vec3; 3], z_buffer: &mut DepthBuffer, c: RGB)
        ensures
            final(self).width_s() == old(self).width_s(),
            final(self).height_s() == old(self).height_s(),
            final(z_buffer).width_s() == old(z_buffer).width_s(),
            final(z_buffer).height_s() == old(z_buffer).height_s(),
            forall|x: int, y: int|
                0 <= x < old(z_buffer).width_s() && 0 <= y < old(z_buffer).height_s()
                    ==> final(z_buffer).at(x, y) == (if tri_hit_s(tri[0], tri[1], tri[2], *old(z_buffer), x, y) {
                    crate::math::zinterp_s(
                        tri[0],
                        tri[1],
                        tri[2],
                        crate::math::bc_at(tri[0], tri[1], tri[2], x, y),
                    ) as i64
                } else {
                    old(z_buffer).at(x, y)
                }),
            forall|x: int, y: int|
                0 <= x < old(self).width_s() && 0 <= y < old(self).height_s() ==> final(self).pix(
                    x,
                    y,
                ) == (if tri_hit_s(tri[0], tri[1], tri[2], *old(z_buffer), x, y) {
                    c
                } else {
                    old(self).pix(x, y)
                }),
    {
        let t0 = tri[0];
        let t1 = tri[1];
        let t2 = tri[2];
        let v0 = t0.to_vec2i();
        let v1 = t1.to_vec2i();
        let v2 = t2.to_vec2i();
        let x_min = min_i32(min_i32(v0.x, v1.x), v2.x);
        let x_max = max_i32(max_i32(v0.x, v1.x), v2.x);
        let y_min = min_i32(min_i32(v0.y, v1.y), v2.y);
        let y_max = max_i32(max_i32(v0.y, v1.y), v2.y);
        let mut y: i64 = y_min as i64;
        while y < y_max as i64
            invariant
                y_min as i64 <= y,
                self.width_s() == old(self).width_s(),
                self.height_s() == old(self).height_s(),
                z_buffer.width_s() == old(z_buffer).width_s(),
                z_buffer.height_s() == old(z_buffer).height_s(),
                bbox_s(t0, t1, t2) == (x_min as int, x_max as int, y_min as int, y_max as int),
                t0 == tri[0] && t1 == tri[1] && t2 == tri[2],
                forall|a: int, b: int|
                    0 <= a < old(z_buffer).width_s() && 0 <= b < old(z_buffer).height_s()
                        ==> z_buffer.at(a, b) == (if tri_hit_s(t0, t1, t2, *old(z_buffer), a, b)
                        && b < y {
                        crate::math::zinterp_s(t0, t1, t2, crate::math::bc_at(t0, t1, t2, a, b))
                            as i64
                    } else {
                        old(z_buffer).at(a, b)
                    }),
                forall|a: int, b: int|
                    0 <= a < old(self).width_s() && 0 <= b < old(self).height_s() ==> self.pix(
                        a,
                        b,
                    ) == (if tri_hit_s(t0, t1, t2, *old(z_buffer), a, b) && b < y {
                        c
                    } else {
                        old(self).pix(a, b)
                    }),
            decreases y_max as int - y,
        {
            let mut x: i64 = x_min as i64;
            while x < x_max as i64
                invariant
                    x_min as i64 <= x,
                    y_min as i64 <= y < y_max as i64,
                    self.width_s() == old(self).width_s(),
                    self.height_s() == old(self).height_s(),
                    z_buffer.width_s() == old(z_buffer).width_s(),
                    z_buffer.height_s() == old(z_buffer).height_s(),
                    bbox_s(t0, t1, t2) == (x_min as int, x_max as int, y_min as int, y_max as int),
                    t0 == tri[0] && t1 == tri[1] && t2 == tri[2],
                    forall|a: int, b: int|
                        0 <= a < old(z_buffer).width_s() && 0 <= b < old(z_buffer).height_s()
                            ==> z_buffer.at(a, b) == (if tri_hit_s(t0, t1, t2, *old(z_buffer), a, b)
                            && (b < y || (b == y && a < x)) {
                            crate::math::zinterp_s(
                                t0,
                                t1,
                                t2,
                                crate::math::bc_at(t0, t1, t2, a, b),
                            ) as i64
                        } else {
                            old(z_buffer).at(a, b)
                        }),
                    forall|a: int, b: int|
                        0 <= a < old(self).width_s() && 0 <= b < old(self).height_s() ==> self.pix(
                            a,
                            b,
                        ) == (if tri_hit_s(t0, t1, t2, *old(z_buffer), a, b) && (b < y || (b == y
                            && a < x)) {
                            c
                        } else {
                            old(self).pix(a, b)
                        }),
                decreases x_max as int - x,
            {
                if x >= 0 && y >= 0 && (x as usize) < z_buffer.width() && (y as usize)
                    < z_buffer.height() {
                    let sx = x as usize;
                    let sy = y as usize;
                    let bc = crate::math::barycentric(
                        tri,
                        Vec3 { x: x * ONE, y: y * ONE, z: 0 },
                    );
                    if bc.x >= 0 && bc.y >= 0 && bc.z >= 0 {
                        proof {
                            crate::math::lemma_inside_unit(
                                t0,
                                t1,
                                t2,
                                crate::math::pixel_pt(x as int, y as int),
                            );
                        }
                        let z = crate::math::zinterp(t0, t1, t2, bc);
                        if z_buffer.get(sx, sy) < z {
                            z_buffer.set(sx, sy, z);
                            self.set(sx, sy, c);
                        }
                    }
                }
                x += 1;
            }
            y += 1;
        }
    }

    /// Read one pixel; outside the image the result is black.
    pub fn get(&self, x: usize, y: usize) -> (c: RGB)
        ensures
            c == if 0 <= x < self.width_s() && 0 <= y < self.height_s() {
                self.pix(x as int, y as int)
            } else {
                RGB { r: 0u8, g: 0u8, b: 0u8 }
            },
    {
        proof {
            use_type_invariant(&*self);
        }
        if x >= self.w || y >= self.h {
            return RGB { r: 0, g: 0, b: 0 };
        }
        proof {
            lemma_grid_index(x as int, y as int, self.w as int, self.h as int);
        }
        let off = (x + y * self.w) * 3;
        RGB { r: self.buf[off], g: self.buf[off + 1], b: self.buf[off + 2] }
    }
}

} // verus!
