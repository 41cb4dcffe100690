//! The rendering pipeline: a `World` holding the camera, projection and
//! viewport transforms with their eagerly recomputed composite, and the
//! shaders that turn mesh faces into shaded, depth-tested pixels.

use vstd::prelude::*;
use crate::draw::{DepthBuffer, Image, RGB};
use crate::fixed::{
    ONE, sat64, tdiv, fdiv, sat_i64, sat_sub, tdiv128, fx_div, lemma_fmul_one,
};
use crate::math::{
    Vec3, Matrix, mul_ent_s, mul_cell, transform_s, bbox_s, bc_at, inside_s, pixel_pt,
    zinterp_s, interp3_s, minus_s, cross_s, length_s, unit_or_zero_s, dot_s,
    is_identity, cross, dot, interp3, zinterp, barycentric, lemma_inside_unit,
    lemma_degenerate_triangle,
};
use crate::wavefront::{Face, Object};

verus! {

/// The depth range mapped by the viewport: screen z runs over
/// `[0, DEPTH_RESOLUTION]` for extra depth-test precision.
pub const DEPTH_RESOLUTION: i64 = 65536;

/// Entry `(r, c)` of `viewport * projection * model_view`, composed left
/// to right as the mutators compute it.
pub open spec fn composite_ent(vp: Matrix, proj: Matrix, mv: Matrix, r: int, c: int) -> int {
    mul_cell(
        mul_ent_s(vp, proj, r, 0) as i64,
        mul_ent_s(vp, proj, r, 1) as i64,
        mul_ent_s(vp, proj, r, 2) as i64,
        mul_ent_s(vp, proj, r, 3) as i64,
        mv.ent(0, c),
        mv.ent(1, c),
        mv.ent(2, c),
        mv.ent(3, c),
    )
}

/// The cached composite equals the product of its three factors: the
/// mutators recompute it eagerly, so it is never stale.
pub open spec fn composite_ok(w: World) -> bool {
    forall|r: int, c: int|
        0 <= r < 4 && 0 <= c < 4 ==> #[trigger] w.m_s().ent(r, c) == composite_ent(
            w.viewport_s(),
            w.projection_s(),
            w.model_view_s(),
            r,
            c,
        )
}

/// The product of two identity matrices is the identity.
proof fn lemma_identity_mul(a: Matrix, b: Matrix)
    requires
        is_identity(a),
        is_identity(b),
    ensures
        forall|r: int, c: int|
            0 <= r < 4 && 0 <= c < 4 ==> mul_ent_s(a, b, r, c) == (if r == c {
                ONE as int
            } else {
                0
            }),
{
    assert forall|r: int, c: int| 0 <= r < 4 && 0 <= c < 4 implies mul_ent_s(a, b, r, c) == (
    if r == c {
        ONE as int
    } else {
        0
    }) by {
        lemma_fmul_one(ONE as int);
        lemma_fmul_one(0);
    }
}

/// The composite of three identity matrices is the identity.
proof fn lemma_identity_composite(vp: Matrix, proj: Matrix, mv: Matrix)
    requires
        is_identity(vp),
        is_identity(proj),
        is_identity(mv),
    ensures
        forall|r: int, c: int|
            0 <= r < 4 && 0 <= c < 4 ==> composite_ent(vp, proj, mv, r, c) == (if r == c {
                ONE as int
            } else {
                0
            }),
{
    lemma_identity_mul(vp, proj);
    assert forall|r: int, c: int| 0 <= r < 4 && 0 <= c < 4 implies composite_ent(
        vp,
        proj,
        mv,
        r,
        c,
    ) == (if r == c {
        ONE as int
    } else {
        0
    }) by {
        lemma_fmul_one(ONE as int);
        lemma_fmul_one(0);
    }
}

/// Entry `(r, c)` of the viewport matrix built from the given offsets
/// and extents: scale and offset into pixel space, plus the fixed depth
/// scale.
pub open spec fn viewport_ent_s(x_off: int, y_off: int, w: int, h: int, r: int, c: int) -> int {
    if r == 0 && c == 3 {
        x_off * 65536 + w * 32768
    } else if r == 1 && c == 3 {
        y_off * 65536 + h * 32768
    } else if r == 2 && c == 3 {
        (DEPTH_RESOLUTION as int) * 32768
    } else if r == 0 && c == 0 {
        w * 32768
    } else if r == 1 && c == 1 {
        h * 32768
    } else if r == 2 && c == 2 {
        (DEPTH_RESOLUTION as int) * 32768
    } else if r == c {
        ONE as int
    } else {
        0
    }
}

/// Row `r`, column `c` of the camera basis matrix `look_at` builds: the
/// orthonormal-ish basis vectors in the first three rows.
pub open spec fn lookat_basis_ent(xv: Vec3, yv: Vec3, zv: Vec3, r: int, c: int) -> i64 {
    if r == 0 && c == 0 {
        xv.x
    } else if r == 0 && c == 1 {
        xv.y
    } else if r == 0 && c == 2 {
        xv.z
    } else if r == 1 && c == 0 {
        yv.x
    } else if r == 1 && c == 1 {
        yv.y
    } else if r == 1 && c == 2 {
        yv.z
    } else if r == 2 && c == 0 {
        zv.x
    } else if r == 2 && c == 1 {
        zv.y
    } else if r == 2 && c == 2 {
        zv.z
    } else if r == c {
        ONE
    } else {
        0i64
    }
}

/// Row `r`, column `c` of the translation matrix `look_at` builds,
/// moving the camera target to the origin.
pub open spec fn lookat_translate_ent(center: Vec3, r: int, c: int) -> i64 {
    if r == 0 && c == 3 {
        sat64(-center.x) as i64
    } else if r == 1 && c == 3 {
        sat64(-center.y) as i64
    } else if r == 2 && c == 3 {
        sat64(-center.z) as i64
    } else if r == c {
        ONE
    } else {
        0i64
    }
}

/// The camera's z basis vector: from the target toward the eye.
pub open spec fn lookat_z_s(eye: Vec3, center: Vec3) -> Vec3 {
    unit_or_zero_s(minus_s(eye, center))
}

/// The camera's x basis vector.
pub open spec fn lookat_x_s(eye: Vec3, center: Vec3, up: Vec3) -> Vec3 {
    unit_or_zero_s(cross_s(up, lookat_z_s(eye, center)))
}

/// The camera's y basis vector.
pub open spec fn lookat_y_s(eye: Vec3, center: Vec3, up: Vec3) -> Vec3 {
    unit_or_zero_s(cross_s(lookat_z_s(eye, center), lookat_x_s(eye, center, up)))
}

/// The weak-perspective term `look_at` stores: `-1` over the camera
/// distance, or zero when eye and center coincide.
pub open spec fn lookat_persp_s(eye: Vec3, center: Vec3) -> i64 {
    let d = length_s(minus_s(eye, center));
    if d == 0 {
        0i64
    } else {
        fdiv(-(ONE as int), d) as i64
    }
}

/// The camera, projection and viewport state, with the cached composite
/// `m = viewport * projection * model_view` that every draw consumes.
pub struct World {
    light_dir: Vec3,
    model_view: Matrix,
    viewport: Matrix,
    projection: Matrix,
    m: Matrix,
}

impl World {
    /// The stored light direction (not necessarily normalized).
    pub closed spec fn light_s(self) -> Vec3 {
        self.light_dir
    }

    /// The model-view matrix.
    pub closed spec fn model_view_s(self) -> Matrix {
        self.model_view
    }

    /// The viewport matrix.
    pub closed spec fn viewport_s(self) -> Matrix {
        self.viewport
    }

    /// The projection matrix.
    pub closed spec fn projection_s(self) -> Matrix {
        self.projection
    }

    /// The cached composite transform.
    pub closed spec fn m_s(self) -> Matrix {
        self.m
    }

    /// The composite transform every draw consumes.
    pub fn m(&self) -> (r: Matrix)
        ensures
            r == self.m_s(),
    {
        self.m
    }

    /// The stored light direction.
    pub fn light(&self) -> (r: Vec3)
        ensures
            r == self.light_s(),
    {
        self.light_dir
    }

    /// The model-view matrix.
    pub fn model_view(&self) -> (r: Matrix)
        ensures
            r == self.model_view_s(),
    {
        self.model_view
    }

    /// The viewport matrix.
    pub fn viewport(&self) -> (r: Matrix)
        ensures
            r == self.viewport_s(),
    {
        self.viewport
    }

    /// The projection matrix.
    pub fn projection(&self) -> (r: Matrix)
        ensures
            r == self.projection_s(),
    {
        self.projection
    }

    /// A fresh world: all transforms the identity (a degenerate
    /// orthographic pass-through, safe and well-defined) and the light
    /// pointing down the negative z axis.
    pub fn new() -> (r: Self)
        ensures
            r.light_s() == (Vec3 { x: 0i64, y: 0i64, z: -65536i64 }),
            is_identity(r.model_view_s()),
            is_identity(r.viewport_s()),
            is_identity(r.projection_s()),
            is_identity(r.m_s()),
            composite_ok(r),
    {
        let r = World {
            light_dir: Vec3 { x: 0, y: 0, z: -ONE },
            model_view: Matrix::identity(),
            viewport: Matrix::identity(),
            projection: Matrix::identity(),
            m: Matrix::identity(),
        };
        proof {
            lemma_identity_composite(r.viewport, r.projection, r.model_view);
        }
        r
    }

    /// Store a new light direction; the transforms are untouched.
    pub fn set_light_dir(&mut self, light_dir: Vec3)
        ensures
            final(self).light_s() == light_dir,
            final(self).model_view_s() == old(self).model_view_s(),
            final(self).viewport_s() == old(self).viewport_s(),
            final(self).projection_s() == old(self).projection_s(),
            final(self).m_s() == old(self).m_s(),
    {
        self.light_dir = light_dir;
    }

    /// Recompute the cached composite from its three factors.
    fn recompute_composite(&mut self)
        ensures
            final(self).light_s() == old(self).light_s(),
            final(self).model_view_s() == old(self).model_view_s(),
            final(self).viewport_s() == old(self).viewport_s(),
            final(self).projection_s() == old(self).projection_s(),
            composite_ok(*final(self)),
    {
        let t = self.viewport.multiply(&self.projection);
        self.m = t.multiply(&self.model_view);
    }

    /// Aim the camera: build an orthonormal-ish basis from the view
    /// direction and `up` by two cross products, translate the target to
    /// the origin, store the weak-perspective term, and recompute the
    /// composite.  A zero view direction or a degenerate `up` leaves the
    /// affected basis vectors zero.
    pub fn look_at(&mut self, eye: Vec3, center: Vec3, up: Vec3)
        ensures
            final(self).light_s() == old(self).light_s(),
            final(self).viewport_s() == old(self).viewport_s(),
            forall|r: int, c: int|
                0 <= r < 4 && 0 <= c < 4 ==> final(self).model_view_s().ent(r, c) == mul_cell(
                    lookat_basis_ent(
                        lookat_x_s(eye, center, up),
                        lookat_y_s(eye, center, up),
                        lookat_z_s(eye, center),
                        r,
                        0,
                    ),
                    lookat_basis_ent(
                        lookat_x_s(eye, center, up),
                        lookat_y_s(eye, center, up),
                        lookat_z_s(eye, center),
                        r,
                        1,
                    ),
                    lookat_basis_ent(
                        lookat_x_s(eye, center, up),
                        lookat_y_s(eye, center, up),
                        lookat_z_s(eye, center),
                        r,
                        2,
                    ),
                    lookat_basis_ent(
                        lookat_x_s(eye, center, up),
                        lookat_y_s(eye, center, up),
                        lookat_z_s(eye, center),
                        r,
                        3,
                    ),
                    lookat_translate_ent(center, 0, c),
                    lookat_translate_ent(center, 1, c),
                    lookat_translate_ent(center, 2, c),
                    lookat_translate_ent(center, 3, c),
                ),
            final(self).projection_s().ent(3, 2) == lookat_persp_s(eye, center),
            forall|r: int, c: int|
                0 <= r < 4 && 0 <= c < 4 && !(r == 3 && c == 2)
                    ==> final(self).projection_s().ent(r, c) == old(self).projection_s().ent(r, c),
            composite_ok(*final(self)),
    {
        let z = eye.minus(center).unit_or_zero();
        let x = cross(up, z).unit_or_zero();
        let y = cross(z, x).unit_or_zero();
        let mut m_inv = Matrix::identity();
        let mut t_r = Matrix::identity();
        m_inv.set(0, 0, x.x);
        m_inv.set(0, 1, x.y);
        m_inv.set(0, 2, x.z);
        m_inv.set(1, 0, y.x);
        m_inv.set(1, 1, y.y);
        m_inv.set(1, 2, y.z);
        m_inv.set(2, 0, z.x);
        m_inv.set(2, 1, z.y);
        m_inv.set(2, 2, z.z);
        t_r.set(0, 3, sat_sub(0, center.x));
        t_r.set(1, 3, sat_sub(0, center.y));
        t_r.set(2, 3, sat_sub(0, center.z));
        proof {
            assert forall|r: int, c: int| 0 <= r < 4 && 0 <= c < 4 implies m_inv.ent(r, c)
                == lookat_basis_ent(x, y, z, r, c) && t_r.ent(r, c) == lookat_translate_ent(
                center,
                r,
                c,
            ) by {}
        }
        self.model_view = m_inv.multiply(&t_r);
        let d = eye.minus(center).length();
        let p = if d == 0 {
            0
        } else {
            fx_div(-ONE, d)
        };
        self.projection.set(3, 2, p);
        self.recompute_composite();
    }

    /// Map normalized device coordinates to the pixel rectangle at
    /// `(x_off, y_off)` of size `width` by `height`, scale depth by the
    /// fixed resolution, and recompute the composite.
    pub fn set_viewport(&mut self, x_off: usize, y_off: usize, width: usize, height: usize)
        requires
            x_off <= 0xffffffff,
            y_off <= 0xffffffff,
            width <= 0xffffffff,
            height <= 0xffffffff,
        ensures
            final(self).light_s() == old(self).light_s(),
            final(self).model_view_s() == old(self).model_view_s(),
            final(self).projection_s() == old(self).projection_s(),
            forall|r: int, c: int|
                0 <= r < 4 && 0 <= c < 4 ==> final(self).viewport_s().ent(r, c)
                    == viewport_ent_s(
                    x_off as int,
                    y_off as int,
                    width as int,
                    height as int,
                    r,
                    c,
                ),
            composite_ok(*final(self)),
    {
        let mut m = Matrix::identity();
        m.set(0, 3, (x_off as i64) * ONE + (width as i64) * 32768);
        m.set(1, 3, (y_off as i64) * ONE + (height as i64) * 32768);
        m.set(2, 3, DEPTH_RESOLUTION * 32768);
        m.set(0, 0, (width as i64) * 32768);
        m.set(1, 1, (height as i64) * 32768);
        m.set(2, 2, DEPTH_RESOLUTION * 32768);
        self.viewport = m;
        self.recompute_composite();
    }
}

/// The screen-space triangle of a face: each object-space vertex pushed
/// through the composite transform, or `None` when any vertex has no
/// finite image (a vanishing homogeneous divisor) — such a face draws
/// nothing and silently vanishes.
pub open spec fn screen_tri_s(m: Matrix, f: Face) -> Option<(Vec3, Vec3, Vec3)> {
    match (transform_s(m, f.vertices[0]), transform_s(m, f.vertices[1]), transform_s(
        m,
        f.vertices[2],
    )) {
        (Some(a), Some(b), Some(c)) => Some((a, b, c)),
        _ => None,
    }
}

/// Whether the rasterizer reaches the fragment stage for pixel `(x, y)`:
/// the pixel lies in the triangle's bounding box (inclusive of the max
/// edge), exists in the depth buffer, its barycentric weights pass the
/// inside test, and its interpolated depth is strictly greater — that
/// is, nearer — than the stored one.  Equal depth never overwrites.
pub open spec fn face_hit_s(t0: Vec3, t1: Vec3, t2: Vec3, zb: DepthBuffer, x: int, y: int) -> bool {
    let bb = bbox_s(t0, t1, t2);
    &&& bb.0 <= x <= bb.1
    &&& bb.2 <= y <= bb.3
    &&& 0 <= x < zb.width_s()
    &&& 0 <= y < zb.height_s()
    &&& inside_s(bc_at(t0, t1, t2, x, y))
    &&& zb.at(x, y) < zinterp_s(t0, t1, t2, bc_at(t0, t1, t2, x, y))
}

/// One color channel scaled by a fixed-point intensity and clamped into
/// a byte, so an out-of-range intensity cannot wrap.
pub open spec fn channel_s(c: u8, i: i64) -> u8 {
    let v = tdiv(c * i, ONE as int);
    if v < 0 {
        0u8
    } else if v > 255 {
        255u8
    } else {
        v as u8
    }
}

/// A texture sample scaled channel-wise by an intensity.
pub open spec fn shade_s(obj: Object, uv: Vec3, intensity: i64) -> RGB {
    let c = obj.tex_s().sample_s(uv);
    RGB {
        r: channel_s(c.r, intensity),
        g: channel_s(c.g, intensity),
        b: channel_s(c.b, intensity),
    }
}

/// Scale one color channel by a fixed-point intensity, clamped.
pub fn scale_channel(c: u8, i: i64) -> (r: u8)
    ensures
        r == channel_s(c, i),
{
    proof {
        crate::fixed::lemma_i64_prod_range(c as int, i as int);
    }
    let p: i128 = (c as i128) * (i as i128);
    let q = tdiv128(p, ONE as i128);
    if q < 0 {
        0
    } else if q > 255 {
        255
    } else {
        q as u8
    }
}

/// The flat lighting intensity of a face: the average of the dot
/// products of its three vertex normals with the normalized light.
pub open spec fn flat_intensity_s(light: Vec3, f: Face) -> i64 {
    let l = unit_or_zero_s(light);
    sat64(
        tdiv(
            dot_s(f.normals[0], l) + dot_s(f.normals[1], l) + dot_s(f.normals[2], l),
            3,
        ),
    ) as i64
}

/// The Gouraud lighting intensity at one pixel: the dot product of the
/// barycentric-interpolated normal with the normalized light.
pub open spec fn gouraud_intensity_s(light: Vec3, n0: Vec3, n1: Vec3, n2: Vec3, bc: Vec3) -> i64 {
    dot_s(interp3_s(bc, n0, n1, n2), unit_or_zero_s(light)) as i64
}

/// The depth stored at a pixel after one face is rasterized over it:
/// updated only where the depth test passed (`hit`) and the fragment
/// produced a color — a culled fragment leaves the depth untouched, so
/// a later, farther face can still pass the test there.
pub open spec fn depth_after_val(frag: Option<RGB>, hit: bool, z: i64, oldz: i64) -> i64 {
    if hit && frag is Some {
        z
    } else {
        oldz
    }
}

/// The color stored at a pixel after one face is rasterized over it.
pub open spec fn pix_after_val(frag: Option<RGB>, hit: bool, oldpix: RGB) -> RGB {
    match frag {
        Some(cc) => if hit {
            cc
        } else {
            oldpix
        },
        None => oldpix,
    }
}

/// A per-pass pipeline stage: the vertex stage maps a face to screen
/// space and latches per-face state, the fragment stage decides each
/// covered pixel's color, and `draw_face` runs the triangle-fill loop
/// between them.
pub trait Shader: Sized {
    /// The frame buffer this pass owns.
    spec fn im_of(self) -> Image;

    /// The depth buffer this pass owns.
    spec fn zb_of(self) -> DepthBuffer;

    /// The same pass with its buffers replaced.
    spec fn with_buffers(self, im: Image, zb: DepthBuffer) -> Self;

    /// The pass state after the vertex stage ran on `f`; the buffers are
    /// untouched.
    spec fn vertex_state(self, world: World, f: Face) -> Self;

    /// The fragment decision: a color, or `None` to cull the pixel.
    spec fn frag_s(self, world: World, bc: Vec3) -> Option<RGB>;

    /// Latch per-face state and transform the face to screen space;
    /// `None` when a vertex has no finite image.
    fn vertex(&mut self, world: &World, f: &Face) -> (r: Option<[Vec3; 3]>)
        ensures
            *final(self) == old(self).vertex_state(*world, *f),
            (match screen_tri_s(world.m_s(), *f) {
                Some(t) => r == Some([t.0, t.1, t.2]),
                None => r is None,
            }),
    ;

    /// Decide the color of the pixel with barycentric weights `bc`, or
    /// cull it.
    fn fragment(&self, world: &World, bc: Vec3) -> (r: Option<RGB>)
        requires
            0 <= bc.x <= ONE,
            0 <= bc.y <= ONE,
            0 <= bc.z <= ONE,
        ensures
            r == self.frag_s(*world, bc),
    ;

    /// Run the vertex stage, then rasterize the face: for every pixel of
    /// the bounding box that passes the inside and depth tests, invoke
    /// the fragment stage and, if it yields a color, write both buffers.
    /// Each pixel of each buffer is pinned down pointwise against the
    /// buffers as they stood before the call.
    fn draw_face(&mut self, world: &World, f: &Face)
        ensures
            *final(self) == old(self).vertex_state(*world, *f).with_buffers(
                final(self).im_of(),
                final(self).zb_of(),
            ),
            final(self).im_of().width_s() == old(self).im_of().width_s(),
            final(self).im_of().height_s() == old(self).im_of().height_s(),
            final(self).zb_of().width_s() == old(self).zb_of().width_s(),
            final(self).zb_of().height_s() == old(self).zb_of().height_s(),
            (match screen_tri_s(world.m_s(), *f) {
                None => final(self).im_of() == old(self).im_of()
                    && final(self).zb_of() == old(self).zb_of(),
                Some(t) => {
                    &&& forall|x: int, y: int|
                        0 <= x < old(self).zb_of().width_s()
                            && 0 <= y < old(self).zb_of().height_s()
                            ==> final(self).zb_of().at(x, y) == depth_after_val(
                            old(self).vertex_state(*world, *f).frag_s(
                                *world,
                                bc_at(t.0, t.1, t.2, x, y),
                            ),
                            face_hit_s(t.0, t.1, t.2, old(self).zb_of(), x, y),
                            zinterp_s(t.0, t.1, t.2, bc_at(t.0, t.1, t.2, x, y)) as i64,
                            old(self).zb_of().at(x, y),
                        )
                    &&& forall|x: int, y: int|
                        0 <= x < old(self).im_of().width_s()
                            && 0 <= y < old(self).im_of().height_s()
                            ==> final(self).im_of().pix(x, y) == pix_after_val(
                            old(self).vertex_state(*world, *f).frag_s(
                                *world,
                                bc_at(t.0, t.1, t.2, x, y),
                            ),
                            face_hit_s(t.0, t.1, t.2, old(self).zb_of(), x, y),
                            old(self).im_of().pix(x, y),
                        )
                },
            }),
    ;
}

/// Flat shading: one lighting intensity per face, computed in the
/// vertex stage from the three vertex normals, constant across the
/// face's pixels.
pub struct FlatShader {
    obj: Object,
    im: Image,
    z_buffer: DepthBuffer,
    intensity: i64,
    uvs: [Vec3; 3],
    ns: [Vec3; 3],
}

impl FlatShader {
    /// The mesh this pass samples textures from.
    pub closed spec fn obj_s(self) -> Object {
        self.obj
    }

    /// Bind a pass to a mesh and exclusive ownership of the two buffers.
    pub fn new(obj: Object, im: Image, z_buffer: DepthBuffer) -> (r: Self)
        ensures
            r.obj_s() == obj,
            r.im_of() == im,
            r.zb_of() == z_buffer,
    {
        FlatShader {
            obj,
            im,
            z_buffer,
            intensity: ONE,
            uvs: [Vec3 { x: 0, y: 0, z: 0 }, Vec3 { x: 0, y: 0, z: 0 }, Vec3 { x: 0, y: 0, z: 0 }],
            ns: [Vec3 { x: 0, y: 0, z: 0 }, Vec3 { x: 0, y: 0, z: 0 }, Vec3 { x: 0, y: 0, z: 0 }],
        }
    }

    /// End the pass, handing the mesh and the buffers back.
    pub fn release(self) -> (r: (Object, Image, DepthBuffer))
        ensures
            r.0 == self.obj_s(),
            r.1 == self.im_of(),
            r.2 == self.zb_of(),
    {
        (self.obj, self.im, self.z_buffer)
    }
}

impl Shader for FlatShader {
    closed spec fn im_of(self) -> Image {
        self.im
    }

    closed spec fn zb_of(self) -> DepthBuffer {
        self.z_buffer
    }

    closed spec fn with_buffers(self, im: Image, zb: DepthBuffer) -> Self {
        FlatShader { im, z_buffer: zb, ..self }
    }

    closed spec fn vertex_state(self, world: World, f: Face) -> Self {
        FlatShader {
            intensity: flat_intensity_s(world.light_s(), f),
            uvs: f.texcoords,
            ns: f.normals,
            ..self
        }
    }

    closed spec fn frag_s(self, world: World, bc: Vec3) -> Option<RGB> {
        if self.intensity < 0 {
            None
        } else {
            Some(
                shade_s(
                    self.obj,
                    interp3_s(bc, self.uvs[0], self.uvs[1], self.uvs[2]),
                    self.intensity,
                ),
            )
        }
    }

    fn vertex(&mut self, world: &World, f: &Face) -> (r: Option<[Vec3; 3]>) {
        let l = world.light().unit_or_zero();
        let d0 = dot(f.normals[0], l);
        let d1 = dot(f.normals[1], l);
        let d2 = dot(f.normals[2], l);
        self.intensity = sat_i64(tdiv128((d0 as i128) + (d1 as i128) + (d2 as i128), 3));
        self.ns = f.normals;
        self.uvs = f.texcoords;
        let m = world.m();
        let t0 = m.transform(f.vertices[0]);
        let t1 = m.transform(f.vertices[1]);
        let t2 = m.transform(f.vertices[2]);
        match (t0, t1, t2) {
            (Some(a), Some(b), Some(c)) => Some([a, b, c]),
            _ => None,
        }
    }

    fn fragment(&self, _world: &World, bc: Vec3) -> (r: Option<RGB>) {
        if self.intensity < 0 {
            return None;
        }
        let uv = interp3(bc, self.uvs[0], self.uvs[1], self.uvs[2]);
        let c = self.obj.sample(uv);
        Some(
            RGB {
                r: scale_channel(c.r, self.intensity),
                g: scale_channel(c.g, self.intensity),
                b: scale_channel(c.b, self.intensity),
            },
        )
    }

    fn draw_face(&mut self, world: &World, f: &Face) {
        let ghost sv = old(self).vertex_state(*world, *f);
        let tri = match self.vertex(world, f) {
            Some(t) => t,
            None => {
                return ;
            },
        };
        let ghost t = screen_tri_s(world.m_s(), *f)->Some_0;
        let t0 = tri[0];
        let t1 = tri[1];
        let t2 = tri[2];
        let (x_min, x_max, y_min, y_max) = bbox(&tri);
        let mut y: i64 = y_min as i64;
        while y <= y_max as i64
            invariant
                y_min as i64 <= y <= y_max as i64 + 1,
                self.obj == sv.obj,
                self.intensity == sv.intensity,
                self.uvs == sv.uvs,
                self.ns == sv.ns,
                self.im.width_s() == sv.im.width_s(),
                self.im.height_s() == sv.im.height_s(),
                self.z_buffer.width_s() == sv.z_buffer.width_s(),
                self.z_buffer.height_s() == sv.z_buffer.height_s(),
                t == (t0, t1, t2),
                tri[0] == t0 && tri[1] == t1 && tri[2] == t2,
                bbox_s(t0, t1, t2) == (x_min as int, x_max as int, y_min as int, y_max as int),
                forall|a: int, b: int|
                    0 <= a < sv.z_buffer.width_s() && 0 <= b < sv.z_buffer.height_s()
                        ==> self.z_buffer.at(a, b) == (if b < y {
                        depth_after_val(
                            sv.frag_s(*world, bc_at(t0, t1, t2, a, b)),
                            face_hit_s(t0, t1, t2, sv.z_buffer, a, b),
                            zinterp_s(t0, t1, t2, bc_at(t0, t1, t2, a, b)) as i64,
                            sv.z_buffer.at(a, b),
                        )
                    } else {
                        sv.z_buffer.at(a, b)
                    }),
                forall|a: int, b: int|
                    0 <= a < sv.im.width_s() && 0 <= b < sv.im.height_s() ==> self.im.pix(a, b)
                        == (if b < y {
                        pix_after_val(
                            sv.frag_s(*world, bc_at(t0, t1, t2, a, b)),
                            face_hit_s(t0, t1, t2, sv.z_buffer, a, b),
                            sv.im.pix(a, b),
                        )
                    } else {
                        sv.im.pix(a, b)
                    }),
            decreases y_max as int + 1 - y,
        {
            let mut x: i64 = x_min as i64;
            while x <= x_max as i64
                invariant
                    x_min as i64 <= x <= x_max as i64 + 1,
                    y_min as i64 <= y <= y_max as i64,
                    self.obj == sv.obj,
                    self.intensity == sv.intensity,
                    self.uvs == sv.uvs,
                    self.ns == sv.ns,
                    self.im.width_s() == sv.im.width_s(),
                    self.im.height_s() == sv.im.height_s(),
                    self.z_buffer.width_s() == sv.z_buffer.width_s(),
                    self.z_buffer.height_s() == sv.z_buffer.height_s(),
                    t == (t0, t1, t2),
                    tri[0] == t0 && tri[1] == t1 && tri[2] == t2,
                    bbox_s(t0, t1, t2) == (x_min as int, x_max as int, y_min as int, y_max as int),
                    forall|a: int, b: int|
                        0 <= a < sv.z_buffer.width_s() && 0 <= b < sv.z_buffer.height_s()
                            ==> self.z_buffer.at(a, b) == (if b < y || (b == y && a < x) {
                            depth_after_val(
                                sv.frag_s(*world, bc_at(t0, t1, t2, a, b)),
                                face_hit_s(t0, t1, t2, sv.z_buffer, a, b),
                                zinterp_s(t0, t1, t2, bc_at(t0, t1, t2, a, b)) as i64,
                                sv.z_buffer.at(a, b),
                            )
                        } else {
                            sv.z_buffer.at(a, b)
                        }),
                    forall|a: int, b: int|
                        0 <= a < sv.im.width_s() && 0 <= b < sv.im.height_s() ==> self.im.pix(a, b)
                            == (if b < y || (b == y && a < x) {
                            pix_after_val(
                                sv.frag_s(*world, bc_at(t0, t1, t2, a, b)),
                                face_hit_s(t0, t1, t2, sv.z_buffer, a, b),
                                sv.im.pix(a, b),
                            )
                        } else {
                            sv.im.pix(a, b)
                        }),
                decreases x_max as int + 1 - x,
            {
                if x >= 0 && y >= 0 && (x as usize) < self.z_buffer.width() && (y as usize)
                    < self.z_buffer.height() {
                    let sx = x as usize;
                    let sy = y as usize;
                    let bc = barycentric(&tri, Vec3 { x: x * ONE, y: y * ONE, z: 0 });
                    if bc.x >= 0 && bc.y >= 0 && bc.z >= 0 {
                        proof {
                            lemma_inside_unit(t0, t1, t2, pixel_pt(x as int, y as int));
                        }
                        let z = zinterp(t0, t1, t2, bc);
                        if self.z_buffer.get(sx, sy) < z {
                            match self.fragment(world, bc) {
                                Some(c) => {
                                    self.z_buffer.set(sx, sy, z);
                                    self.im.set(sx, sy, c);
                                },
                                None => {},
                            }
                        }
                    }
                }
                x += 1;
            }
            y += 1;
        }
    }
}

/// Gouraud shading: the three vertex normals ride along to the fragment
/// stage, which interpolates them per pixel and lights each pixel from
/// the interpolated normal, so lighting varies smoothly across a face.
pub struct GouraudShader {
    obj: Object,
    im: Image,
    z_buffer: DepthBuffer,
    uvs: [Vec3; 3],
    ns: [Vec3; 3],
}

impl GouraudShader {
    /// The mesh this pass samples textures from.
    pub closed spec fn obj_s(self) -> Object {
        self.obj
    }

    /// Bind a pass to a mesh and exclusive ownership of the two buffers.
    pub fn new(obj: Object, im: Image, z_buffer: DepthBuffer) -> (r: Self)
        ensures
            r.obj_s() == obj,
            r.im_of() == im,
            r.zb_of() == z_buffer,
    {
        GouraudShader {
            obj,
            im,
            z_buffer,
            uvs: [Vec3 { x: 0, y: 0, z: 0 }, Vec3 { x: 0, y: 0, z: 0 }, Vec3 { x: 0, y: 0, z: 0 }],
            ns: [Vec3 { x: 0, y: 0, z: 0 }, Vec3 { x: 0, y: 0, z: 0 }, Vec3 { x: 0, y: 0, z: 0 }],
        }
    }

    /// End the pass, handing the mesh and the buffers back.
    pub fn release(self) -> (r: (Object, Image, DepthBuffer))
        ensures
            r.0 == self.obj_s(),
            r.1 == self.im_of(),
            r.2 == self.zb_of(),
    {
        (self.obj, self.im, self.z_buffer)
    }
}

impl Shader for GouraudShader {
    closed spec fn im_of(self) -> Image {
        self.im
    }

    closed spec fn zb_of(self) -> DepthBuffer {
        self.z_buffer
    }

    closed spec fn with_buffers(self, im: Image, zb: DepthBuffer) -> Self {
        GouraudShader { im, z_buffer: zb, ..self }
    }

    closed spec fn vertex_state(self, world: World, f: Face) -> Self {
        GouraudShader { uvs: f.texcoords, ns: f.normals, ..self }
    }

    closed spec fn frag_s(self, world: World, bc: Vec3) -> Option<RGB> {
        let intensity = gouraud_intensity_s(
            world.light_s(),
            self.ns[0],
            self.ns[1],
            self.ns[2],
            bc,
        );
        if intensity < 0 {
            None
        } else {
            Some(
                shade_s(
                    self.obj,
                    interp3_s(bc, self.uvs[0], self.uvs[1], self.uvs[2]),
                    intensity,
                ),
            )
        }
    }

    fn vertex(&mut self, world: &World, f: &Face) -> (r: Option<[Vec3; 3]>) {
        self.ns = f.normals;
        self.uvs = f.texcoords;
        let m = world.m();
        let t0 = m.transform(f.vertices[0]);
        let t1 = m.transform(f.vertices[1]);
        let t2 = m.transform(f.vertices[2]);
        match (t0, t1, t2) {
            (Some(a), Some(b), Some(c)) => Some([a, b, c]),
            _ => None,
        }
    }

    fn fragment(&self, world: &World, bc: Vec3) -> (r: Option<RGB>) {
        let n = interp3(bc, self.ns[0], self.ns[1], self.ns[2]);
        let intensity = dot(n, world.light().unit_or_zero());
        if intensity < 0 {
            return None;
        }
        let uv = interp3(bc, self.uvs[0], self.uvs[1], self.uvs[2]);
        let c = self.obj.sample(uv);
        Some(
            RGB {
                r: scale_channel(c.r, intensity),
                g: scale_channel(c.g, intensity),
                b: scale_channel(c.b, intensity),
            },
        )
    }

    fn draw_face(&mut self, world: &World, f: &Face) {
        let ghost sv = old(self).vertex_state(*world, *f);
        let tri = match self.vertex(world, f) {
            Some(t) => t,
            None => {
                return ;
            },
        };
        let ghost t = screen_tri_s(world.m_s(), *f)->Some_0;
        let t0 = tri[0];
        let t1 = tri[1];
        let t2 = tri[2];
        let (x_min, x_max, y_min, y_max) = bbox(&tri);
        let mut y: i64 = y_min as i64;
        while y <= y_max as i64
            invariant
                y_min as i64 <= y <= y_max as i64 + 1,
                self.obj == sv.obj,
                self.uvs == sv.uvs,
                self.ns == sv.ns,
                self.im.width_s() == sv.im.width_s(),
                self.im.height_s() == sv.im.height_s(),
                self.z_buffer.width_s() == sv.z_buffer.width_s(),
                self.z_buffer.height_s() == sv.z_buffer.height_s(),
                t == (t0, t1, t2),
                tri[0] == t0 && tri[1] == t1 && tri[2] == t2,
                bbox_s(t0, t1, t2) == (x_min as int, x_max as int, y_min as int, y_max as int),
                forall|a: int, b: int|
                    0 <= a < sv.z_buffer.width_s() && 0 <= b < sv.z_buffer.height_s()
                        ==> self.z_buffer.at(a, b) == (if b < y {
                        depth_after_val(
                            sv.frag_s(*world, bc_at(t0, t1, t2, a, b)),
                            face_hit_s(t0, t1, t2, sv.z_buffer, a, b),
                            zinterp_s(t0, t1, t2, bc_at(t0, t1, t2, a, b)) as i64,
                            sv.z_buffer.at(a, b),
                        )
                    } else {
                        sv.z_buffer.at(a, b)
                    }),
                forall|a: int, b: int|
                    0 <= a < sv.im.width_s() && 0 <= b < sv.im.height_s() ==> self.im.pix(a, b)
                        == (if b < y {
                        pix_after_val(
                            sv.frag_s(*world, bc_at(t0, t1, t2, a, b)),
                            face_hit_s(t0, t1, t2, sv.z_buffer, a, b),
                            sv.im.pix(a, b),
                        )
                    } else {
                        sv.im.pix(a, b)
                    }),
            decreases y_max as int + 1 - y,
        {
            let mut x: i64 = x_min as i64;
            while x <= x_max as i64
                invariant
                    x_min as i64 <= x <= x_max as i64 + 1,
                    y_min as i64 <= y <= y_max as i64,
                    self.obj == sv.obj,
                    self.uvs == sv.uvs,
                    self.ns == sv.ns,
                    self.im.width_s() == sv.im.width_s(),
                    self.im.height_s() == sv.im.height_s(),
                    self.z_buffer.width_s() == sv.z_buffer.width_s(),
                    self.z_buffer.height_s() == sv.z_buffer.height_s(),
                    t == (t0, t1, t2),
                    tri[0] == t0 && tri[1] == t1 && tri[2] == t2,
                    bbox_s(t0, t1, t2) == (x_min as int, x_max as int, y_min as int, y_max as int),
                    forall|a: int, b: int|
                        0 <= a < sv.z_buffer.width_s() && 0 <= b < sv.z_buffer.height_s()
                            ==> self.z_buffer.at(a, b) == (if b < y || (b == y && a < x) {
                            depth_after_val(
                                sv.frag_s(*world, bc_at(t0, t1, t2, a, b)),
                                face_hit_s(t0, t1, t2, sv.z_buffer, a, b),
                                zinterp_s(t0, t1, t2, bc_at(t0, t1, t2, a, b)) as i64,
                                sv.z_buffer.at(a, b),
                            )
                        } else {
                            sv.z_buffer.at(a, b)
                        }),
                    forall|a: int, b: int|
                        0 <= a < sv.im.width_s() && 0 <= b < sv.im.height_s() ==> self.im.pix(a, b)
                            == (if b < y || (b == y && a < x) {
                            pix_after_val(
                                sv.frag_s(*world, bc_at(t0, t1, t2, a, b)),
                                face_hit_s(t0, t1, t2, sv.z_buffer, a, b),
                                sv.im.pix(a, b),
                            )
                        } else {
                            sv.im.pix(a, b)
                        }),
                decreases x_max as int + 1 - x,
            {
                if x >= 0 && y >= 0 && (x as usize) < self.z_buffer.width() && (y as usize)
                    < self.z_buffer.height() {
                    let sx = x as usize;
                    let sy = y as usize;
                    let bc = barycentric(&tri, Vec3 { x: x * ONE, y: y * ONE, z: 0 });
                    if bc.x >= 0 && bc.y >= 0 && bc.z >= 0 {
                        proof {
                            lemma_inside_unit(t0, t1, t2, pixel_pt(x as int, y as int));
                        }
                        let z = zinterp(t0, t1, t2, bc);
                        if self.z_buffer.get(sx, sy) < z {
                            match self.fragment(world, bc) {
                                Some(c) => {
                                    self.z_buffer.set(sx, sy, z);
                                    self.im.set(sx, sy, c);
                                },
                                None => {},
                            }
                        }
                    }
                }
                x += 1;
            }
            y += 1;
        }
    }
}

/// A triangle whose screen vertices are collinear covers no pixel: the
/// sentinel weights fail the inside test everywhere, so the rasterizer
/// writes neither buffer at any raster target.
pub proof fn lemma_degenerate_no_pixels(
    t0: Vec3,
    t1: Vec3,
    t2: Vec3,
    zb: DepthBuffer,
    x: int,
    y: int,
)
    requires
        (t2.x - t0.x) * (t1.y - t0.y) == (t1.x - t0.x) * (t2.y - t0.y),
        i64::MIN <= t2.x - t0.x <= i64::MAX,
        i64::MIN <= t1.x - t0.x <= i64::MAX,
        i64::MIN <= t2.y - t0.y <= i64::MAX,
        i64::MIN <= t1.y - t0.y <= i64::MAX,
    ensures
        !face_hit_s(t0, t1, t2, zb, x, y),
        forall|frag: Option<RGB>, z: i64, oldz: i64|
            depth_after_val(frag, face_hit_s(t0, t1, t2, zb, x, y), z, oldz) == oldz,
        forall|frag: Option<RGB>, oldpix: RGB|
            pix_after_val(frag, face_hit_s(t0, t1, t2, zb, x, y), oldpix) == oldpix,
{
    lemma_degenerate_triangle(t0, t1, t2, pixel_pt(x, y));
}

/// Depth-tie idempotence, pointwise: once one rasterization pass has
/// settled a pixel, a second pass of the same face over the resulting
/// depth buffer changes nothing there — a repeated equal depth fails
/// the strict greater-than test, a repeated cull never wrote depth in
/// the first place.
pub proof fn lemma_raster_idempotent_pixel(
    frag: Option<RGB>,
    t0: Vec3,
    t1: Vec3,
    t2: Vec3,
    zb0: DepthBuffer,
    zb1: DepthBuffer,
    x: int,
    y: int,
)
    requires
        zb1.width_s() == zb0.width_s(),
        zb1.height_s() == zb0.height_s(),
        zb1.at(x, y) == depth_after_val(
            frag,
            face_hit_s(t0, t1, t2, zb0, x, y),
            zinterp_s(t0, t1, t2, bc_at(t0, t1, t2, x, y)) as i64,
            zb0.at(x, y),
        ),
    ensures
        depth_after_val(
            frag,
            face_hit_s(t0, t1, t2, zb1, x, y),
            zinterp_s(t0, t1, t2, bc_at(t0, t1, t2, x, y)) as i64,
            zb1.at(x, y),
        ) == zb1.at(x, y),
        forall|oldpix: RGB|
            pix_after_val(frag, face_hit_s(t0, t1, t2, zb1, x, y), oldpix) == oldpix,
{
}

/// Drawing the same face twice with a `FlatShader` is idempotent: the
/// state and both buffers after the second `draw_face` equal those
/// after the first, pixel for pixel.  The second pass's equal depths
/// fail the strict test and leave the frame buffer unchanged.
#[verifier::rlimit(60)]
pub proof fn lemma_flat_draw_idempotent(
    s0: FlatShader,
    s1: FlatShader,
    s2: FlatShader,
    world: World,
    f: Face,
)
    requires
        flat_draw_effect(s0, s1, world, f),
        flat_draw_effect(s1, s2, world, f),
    ensures
        s2.im_of().width_s() == s1.im_of().width_s(),
        s2.im_of().height_s() == s1.im_of().height_s(),
        forall|x: int, y: int|
            0 <= x < s1.im_of().width_s() && 0 <= y < s1.im_of().height_s()
                ==> s2.im_of().pix(x, y) == s1.im_of().pix(x, y),
        forall|x: int, y: int|
            0 <= x < s1.zb_of().width_s() && 0 <= y < s1.zb_of().height_s()
                ==> s2.zb_of().at(x, y) == s1.zb_of().at(x, y),
{
    let sv = s0.vertex_state(world, f);
    let sv1 = s1.vertex_state(world, f);
    match screen_tri_s(world.m_s(), f) {
        None => {},
        Some(t) => {
            assert forall|x: int, y: int|
                0 <= x < s1.zb_of().width_s() && 0 <= y < s1.zb_of().height_s() implies s2.zb_of().at(
                x,
                y,
            ) == s1.zb_of().at(x, y) by {
                let bcv = bc_at(t.0, t.1, t.2, x, y);
                assert(sv1.frag_s(world, bcv) == sv.frag_s(world, bcv));
                lemma_raster_idempotent_pixel(
                    sv.frag_s(world, bcv),
                    t.0,
                    t.1,
                    t.2,
                    s0.zb_of(),
                    s1.zb_of(),
                    x,
                    y,
                );
            }
            assert forall|x: int, y: int|
                0 <= x < s1.im_of().width_s() && 0 <= y < s1.im_of().height_s() implies s2.im_of().pix(
                x,
                y,
            ) == s1.im_of().pix(x, y) by {
                let bcv = bc_at(t.0, t.1, t.2, x, y);
                assert(sv1.frag_s(world, bcv) == sv.frag_s(world, bcv));
                if 0 <= x < s1.zb_of().width_s() && 0 <= y < s1.zb_of().height_s() {
                    lemma_raster_idempotent_pixel(
                        sv.frag_s(world, bcv),
                        t.0,
                        t.1,
                        t.2,
                        s0.zb_of(),
                        s1.zb_of(),
                        x,
                        y,
                    );
                } else {
                    assert(!face_hit_s(t.0, t.1, t.2, s1.zb_of(), x, y));
                }
            }
        },
    }
}

/// What one `draw_face` call on a `FlatShader` leaves behind; exactly
/// the contract of `Shader::draw_face`, restated as a predicate so that
/// laws can chain two passes.
pub open spec fn flat_draw_effect(s0: FlatShader, s1: FlatShader, world: World, f: Face) -> bool {
    let sv = s0.vertex_state(world, f);
    &&& s1 == sv.with_buffers(s1.im_of(), s1.zb_of())
    &&& s1.im_of().width_s() == s0.im_of().width_s()
    &&& s1.im_of().height_s() == s0.im_of().height_s()
    &&& s1.zb_of().width_s() == s0.zb_of().width_s()
    &&& s1.zb_of().height_s() == s0.zb_of().height_s()
    &&& match screen_tri_s(world.m_s(), f) {
        None => s1.im_of() == s0.im_of() && s1.zb_of() == s0.zb_of(),
        Some(t) => {
            &&& forall|x: int, y: int|
                0 <= x < s0.zb_of().width_s() && 0 <= y < s0.zb_of().height_s()
                    ==> s1.zb_of().at(x, y) == depth_after_val(
                    sv.frag_s(world, bc_at(t.0, t.1, t.2, x, y)),
                    face_hit_s(t.0, t.1, t.2, s0.zb_of(), x, y),
                    zinterp_s(t.0, t.1, t.2, bc_at(t.0, t.1, t.2, x, y)) as i64,
                    s0.zb_of().at(x, y),
                )
            &&& forall|x: int, y: int|
                0 <= x < s0.im_of().width_s() && 0 <= y < s0.im_of().height_s()
                    ==> s1.im_of().pix(x, y) == pix_after_val(
                    sv.frag_s(world, bc_at(t.0, t.1, t.2, x, y)),
                    face_hit_s(t.0, t.1, t.2, s0.zb_of(), x, y),
                    s0.im_of().pix(x, y),
                )
        },
    }
}

/// What one `draw_face` call on a `GouraudShader` leaves behind;
/// exactly the contract of `Shader::draw_face`, restated as a predicate
/// so that laws can chain passes.
pub open spec fn gouraud_draw_effect(
    s0: GouraudShader,
    s1: GouraudShader,
    world: World,
    f: Face,
) -> bool {
    let sv = s0.vertex_state(world, f);
    &&& s1 == sv.with_buffers(s1.im_of(), s1.zb_of())
    &&& s1.im_of().width_s() == s0.im_of().width_s()
    &&& s1.im_of().height_s() == s0.im_of().height_s()
    &&& s1.zb_of().width_s() == s0.zb_of().width_s()
    &&& s1.zb_of().height_s() == s0.zb_of().height_s()
    &&& match screen_tri_s(world.m_s(), f) {
        None => s1.im_of() == s0.im_of() && s1.zb_of() == s0.zb_of(),
        Some(t) => {
            &&& forall|x: int, y: int|
                0 <= x < s0.zb_of().width_s() && 0 <= y < s0.zb_of().height_s()
                    ==> s1.zb_of().at(x, y) == depth_after_val(
                    sv.frag_s(world, bc_at(t.0, t.1, t.2, x, y)),
                    face_hit_s(t.0, t.1, t.2, s0.zb_of(), x, y),
                    zinterp_s(t.0, t.1, t.2, bc_at(t.0, t.1, t.2, x, y)) as i64,
                    s0.zb_of().at(x, y),
                )
            &&& forall|x: int, y: int|
                0 <= x < s0.im_of().width_s() && 0 <= y < s0.im_of().height_s()
                    ==> s1.im_of().pix(x, y) == pix_after_val(
                    sv.frag_s(world, bc_at(t.0, t.1, t.2, x, y)),
                    face_hit_s(t.0, t.1, t.2, s0.zb_of(), x, y),
                    s0.im_of().pix(x, y),
                )
        },
    }
}

/// Drawing the same face twice with a `GouraudShader` is idempotent,
/// exactly as for the flat variant.
#[verifier::rlimit(60)]
pub proof fn lemma_gouraud_draw_idempotent(
    s0: GouraudShader,
    s1: GouraudShader,
    s2: GouraudShader,
    world: World,
    f: Face,
)
    requires
        gouraud_draw_effect(s0, s1, world, f),
        gouraud_draw_effect(s1, s2, world, f),
    ensures
        s2.im_of().width_s() == s1.im_of().width_s(),
        s2.im_of().height_s() == s1.im_of().height_s(),
        forall|x: int, y: int|
            0 <= x < s1.im_of().width_s() && 0 <= y < s1.im_of().height_s()
                ==> s2.im_of().pix(x, y) == s1.im_of().pix(x, y),
        forall|x: int, y: int|
            0 <= x < s1.zb_of().width_s() && 0 <= y < s1.zb_of().height_s()
                ==> s2.zb_of().at(x, y) == s1.zb_of().at(x, y),
{
    let sv = s0.vertex_state(world, f);
    let sv1 = s1.vertex_state(world, f);
    match screen_tri_s(world.m_s(), f) {
        None => {},
        Some(t) => {
            assert forall|x: int, y: int|
                0 <= x < s1.zb_of().width_s() && 0 <= y < s1.zb_of().height_s() implies s2.zb_of().at(
                x,
                y,
            ) == s1.zb_of().at(x, y) by {
                let bcv = bc_at(t.0, t.1, t.2, x, y);
                assert(sv1.frag_s(world, bcv) == sv.frag_s(world, bcv));
                lemma_raster_idempotent_pixel(
                    sv.frag_s(world, bcv),
                    t.0,
                    t.1,
                    t.2,
                    s0.zb_of(),
                    s1.zb_of(),
                    x,
                    y,
                );
            }
            assert forall|x: int, y: int|
                0 <= x < s1.im_of().width_s() && 0 <= y < s1.im_of().height_s() implies s2.im_of().pix(
                x,
                y,
            ) == s1.im_of().pix(x, y) by {
                let bcv = bc_at(t.0, t.1, t.2, x, y);
                assert(sv1.frag_s(world, bcv) == sv.frag_s(world, bcv));
                if 0 <= x < s1.zb_of().width_s() && 0 <= y < s1.zb_of().height_s() {
                    lemma_raster_idempotent_pixel(
                        sv.frag_s(world, bcv),
                        t.0,
                        t.1,
                        t.2,
                        s0.zb_of(),
                        s1.zb_of(),
                        x,
                        y,
                    );
                } else {
                    assert(!face_hit_s(t.0, t.1, t.2, s1.zb_of(), x, y));
                }
            }
        },
    }
}

/// Flat and Gouraud shading agree on a face whose three vertex normals
/// are identical: the interpolated normal degenerates to the constant
/// face normal, so for every weight triple the rasterizer can produce
/// (non-negative, summing to `ONE`) the two fragment stages return the
/// same decision — the passes are pixel-identical.
pub proof fn lemma_flat_gouraud_equivalence(
    sf: FlatShader,
    sg: GouraudShader,
    world: World,
    f: Face,
    bc: Vec3,
)
    requires
        f.normals[0] == f.normals[1],
        f.normals[1] == f.normals[2],
        sf.obj_s() == sg.obj_s(),
        0 <= bc.x <= ONE,
        0 <= bc.y <= ONE,
        0 <= bc.z <= ONE,
        bc.x + bc.y + bc.z == ONE,
    ensures
        sf.vertex_state(world, f).frag_s(world, bc) == sg.vertex_state(world, f).frag_s(
            world,
            bc,
        ),
{
    let n = f.normals[0];
    let l = unit_or_zero_s(world.light_s());
    let ni = interp3_s(bc, n, n, n);
    assert((n.x as int) * (bc.x as int) + (n.x as int) * (bc.y as int) + (n.x as int) * (bc.z
        as int) == (n.x as int) * 65536) by (nonlinear_arith)
        requires (bc.x as int) + (bc.y as int) + (bc.z as int) == 65536;
    assert((n.y as int) * (bc.x as int) + (n.y as int) * (bc.y as int) + (n.y as int) * (bc.z
        as int) == (n.y as int) * 65536) by (nonlinear_arith)
        requires (bc.x as int) + (bc.y as int) + (bc.z as int) == 65536;
    assert((n.z as int) * (bc.x as int) + (n.z as int) * (bc.y as int) + (n.z as int) * (bc.z
        as int) == (n.z as int) * 65536) by (nonlinear_arith)
        requires (bc.x as int) + (bc.y as int) + (bc.z as int) == 65536;
    crate::fixed::lemma_tdiv_exact(n.x as int, 65536);
    crate::fixed::lemma_tdiv_exact(n.y as int, 65536);
    crate::fixed::lemma_tdiv_exact(n.z as int, 65536);
    assert(ni == n);
    let d = dot_s(n, l);
    assert(d + d + d == d * 3);
    crate::fixed::lemma_tdiv_exact(d, 3);
    assert(flat_intensity_s(world.light_s(), f) == d as i64);
    assert(gouraud_intensity_s(world.light_s(), n, n, n, bc) == d as i64);
}

/// Flat versus Gouraud, at the buffer level: a flat pass and a Gouraud
/// pass over the same mesh, the same world, the same starting buffers
/// and a face whose three vertex normals are identical produce
/// pixel-identical frame and depth buffers.
#[verifier::rlimit(60)]
pub proof fn lemma_flat_gouraud_draw_identical(
    sf0: FlatShader,
    sf1: FlatShader,
    sg0: GouraudShader,
    sg1: GouraudShader,
    world: World,
    f: Face,
)
    requires
        f.normals[0] == f.normals[1],
        f.normals[1] == f.normals[2],
        sf0.obj_s() == sg0.obj_s(),
        sf0.im_of() == sg0.im_of(),
        sf0.zb_of() == sg0.zb_of(),
        flat_draw_effect(sf0, sf1, world, f),
        gouraud_draw_effect(sg0, sg1, world, f),
    ensures
        sf1.im_of().width_s() == sg1.im_of().width_s(),
        sf1.im_of().height_s() == sg1.im_of().height_s(),
        sf1.zb_of().width_s() == sg1.zb_of().width_s(),
        sf1.zb_of().height_s() == sg1.zb_of().height_s(),
        forall|x: int, y: int|
            0 <= x < sf1.im_of().width_s() && 0 <= y < sf1.im_of().height_s()
                ==> sf1.im_of().pix(x, y) == sg1.im_of().pix(x, y),
        forall|x: int, y: int|
            0 <= x < sf1.zb_of().width_s() && 0 <= y < sf1.zb_of().height_s()
                ==> sf1.zb_of().at(x, y) == sg1.zb_of().at(x, y),
{
    let svf = sf0.vertex_state(world, f);
    let svg = sg0.vertex_state(world, f);
    match screen_tri_s(world.m_s(), f) {
        None => {},
        Some(t) => {
            assert forall|x: int, y: int|
                0 <= x < sf1.zb_of().width_s() && 0 <= y < sf1.zb_of().height_s() implies sf1.zb_of().at(
                x,
                y,
            ) == sg1.zb_of().at(x, y) by {
                let bcv = bc_at(t.0, t.1, t.2, x, y);
                if inside_s(bcv) {
                    lemma_inside_unit(t.0, t.1, t.2, pixel_pt(x, y));
                    lemma_flat_gouraud_equivalence(sf0, sg0, world, f, bcv);
                }
            }
            assert forall|x: int, y: int|
                0 <= x < sf1.im_of().width_s() && 0 <= y < sf1.im_of().height_s() implies sf1.im_of().pix(
                x,
                y,
            ) == sg1.im_of().pix(x, y) by {
                let bcv = bc_at(t.0, t.1, t.2, x, y);
                if inside_s(bcv) {
                    lemma_inside_unit(t.0, t.1, t.2, pixel_pt(x, y));
                    lemma_flat_gouraud_equivalence(sf0, sg0, world, f, bcv);
                }
            }
        },
    }
}

/// The integer bounding box of a screen triangle, from the truncated
/// coordinates of its vertices: `(x_min, x_max, y_min, y_max)`.
pub fn bbox(tri: &[Vec3; 3]) -> (r: (i32, i32, i32, i32))
    ensures
        (r.0 as int, r.1 as int, r.2 as int, r.3 as int) == bbox_s(tri[0], tri[1], tri[2]),
{
    let v0 = tri[0].to_vec2i();
    let v1 = tri[1].to_vec2i();
    let v2 = tri[2].to_vec2i();
    (
        crate::draw::min_i32(crate::draw::min_i32(v0.x, v1.x), v2.x),
        crate::draw::max_i32(crate::draw::max_i32(v0.x, v1.x), v2.x),
        crate::draw::min_i32(crate::draw::min_i32(v0.y, v1.y), v2.y),
        crate::draw::max_i32(crate::draw::max_i32(v0.y, v1.y), v2.y),
    )
}

} // verus!
