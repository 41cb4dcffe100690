use rustyrenderer::fixed::ONE;
use rustyrenderer::draw::{RGB, Image, DepthBuffer, Texture2D};
use rustyrenderer::math::{Vec3, Matrix};
use rustyrenderer::shader::{World, Shader, FlatShader, GouraudShader, bbox};
use rustyrenderer::wavefront::{Object, Face, FaceIndex};

fn rgb(r: u8, g: u8, b: u8) -> RGB {
    RGB { r, g, b }
}

fn grid(x: i64, y: i64, z: i64) -> Vec3 {
    Vec3 { x: x * ONE, y: y * ONE, z: z * ONE }
}

fn one_face_object(tex_color: RGB, verts: [Vec3; 3], normal: Vec3) -> Object {
    let tex = Texture2D::new(1, 1, vec![tex_color.r, tex_color.g, tex_color.b]);
    let mut obj = Object::new(tex);
    for v in verts {
        obj.add_vertex(v);
    }
    obj.add_texcoord(Vec3 { x: 0, y: 0, z: 0 });
    for _ in 0..3 {
        obj.add_normal(normal);
    }
    let mut fi = FaceIndex::new();
    fi.v_idxs = vec![0, 1, 2];
    fi.t_idxs = vec![0, 0, 0];
    fi.n_idxs = vec![0, 1, 2];
    assert!(obj.add_face(fi));
    obj
}

fn draw_one_flat(obj: Object, im: Image, zb: DepthBuffer, world: &World) -> (Image, DepthBuffer) {
    let f: Face = obj.face(0);
    let mut s = FlatShader::new(obj, im, zb);
    s.draw_face(world, &f);
    let (_, im, zb) = s.release();
    (im, zb)
}

#[test]
fn end_to_end_red_triangle() {
    // Default world: identity pass-through; the screen triangle is the
    // face itself.  The fragment always yields pure red: full lighting
    // and a solid red one-texel texture.
    let world = World::new();
    let obj = one_face_object(
        rgb(255, 0, 0),
        [grid(10, 10, 0), grid(20, 10, 0), grid(10, 20, 0)],
        Vec3 { x: 0, y: 0, z: -ONE },
    );
    let im = Image::new(30, 30);
    let zb = DepthBuffer::new(30, 30);
    let (im, _zb) = draw_one_flat(obj, im, zb, &world);
    assert_eq!(im.get(12, 12), rgb(255, 0, 0));
    assert_eq!(im.get(10, 25), rgb(0, 0, 0));
}

#[test]
fn depth_convention_greater_wins() {
    let world = World::new();
    let tri_a = [grid(0, 0, 5), grid(10, 0, 5), grid(0, 10, 5)];
    let tri_b = [grid(0, 0, 3), grid(10, 0, 3), grid(0, 10, 3)];
    let n = Vec3 { x: 0, y: 0, z: -ONE };

    // Nearer (larger z) drawn first: the farther face cannot overwrite.
    let im = Image::new(12, 12);
    let zb = DepthBuffer::new(12, 12);
    let (im, zb) = draw_one_flat(one_face_object(rgb(255, 0, 0), tri_a, n), im, zb, &world);
    let (im, zb) = draw_one_flat(one_face_object(rgb(0, 0, 255), tri_b, n), im, zb, &world);
    assert_eq!(im.get(2, 2), rgb(255, 0, 0));
    assert_eq!(zb.get(2, 2), 5 * ONE);

    // Farther drawn first: the nearer face wins regardless of order.
    let im = Image::new(12, 12);
    let zb = DepthBuffer::new(12, 12);
    let (im, zb) = draw_one_flat(one_face_object(rgb(0, 0, 255), tri_b, n), im, zb, &world);
    let (im, zb) = draw_one_flat(one_face_object(rgb(255, 0, 0), tri_a, n), im, zb, &world);
    assert_eq!(im.get(2, 2), rgb(255, 0, 0));
    assert_eq!(zb.get(2, 2), 5 * ONE);

    // An exact tie never overwrites: the first-drawn face keeps the pixel.
    let im = Image::new(12, 12);
    let zb = DepthBuffer::new(12, 12);
    let (im, zb) = draw_one_flat(one_face_object(rgb(255, 0, 0), tri_a, n), im, zb, &world);
    let (im, _zb) = draw_one_flat(one_face_object(rgb(0, 0, 255), tri_a, n), im, zb, &world);
    assert_eq!(im.get(2, 2), rgb(255, 0, 0));
}

#[test]
fn draw_twice_is_idempotent() {
    let world = World::new();
    let verts = [grid(0, 0, 4), grid(9, 0, 4), grid(0, 9, 4)];
    let n = Vec3 { x: 0, y: 0, z: -ONE };
    let im = Image::new(12, 12);
    let zb = DepthBuffer::new(12, 12);
    let (im1, zb1) = draw_one_flat(one_face_object(rgb(90, 60, 30), verts, n), im, zb, &world);

    // Record the state after one pass.
    let mut pixels = Vec::new();
    let mut depths = Vec::new();
    for y in 0..12 {
        for x in 0..12 {
            pixels.push(im1.get(x, y));
            depths.push(zb1.get(x, y));
        }
    }

    let (im2, zb2) = draw_one_flat(one_face_object(rgb(90, 60, 30), verts, n), im1, zb1, &world);
    let mut k: usize = 0;
    for y in 0..12 {
        for x in 0..12 {
            assert_eq!(im2.get(x, y), pixels[k]);
            assert_eq!(zb2.get(x, y), depths[k]);
            k += 1;
        }
    }
}

#[test]
fn flat_and_gouraud_agree_on_constant_normals() {
    let mut world = World::new();
    world.set_light_dir(Vec3 { x: ONE, y: ONE, z: -ONE });
    let verts = [grid(1, 1, 2), grid(14, 2, 2), grid(3, 14, 2)];
    let n = Vec3 { x: 0, y: 0, z: -ONE };
    let color = rgb(200, 150, 100);

    let (im_f, zb_f) = {
        let im = Image::new(16, 16);
        let zb = DepthBuffer::new(16, 16);
        draw_one_flat(one_face_object(color, verts, n), im, zb, &world)
    };
    let (im_g, zb_g) = {
        let obj = one_face_object(color, verts, n);
        let f: Face = obj.face(0);
        let mut s = GouraudShader::new(obj, Image::new(16, 16), DepthBuffer::new(16, 16));
        s.draw_face(&world, &f);
        let (_, im, zb) = s.release();
        (im, zb)
    };
    for y in 0..16 {
        for x in 0..16 {
            assert_eq!(im_f.get(x, y), im_g.get(x, y), "pixel ({}, {})", x, y);
            assert_eq!(zb_f.get(x, y), zb_g.get(x, y), "depth ({}, {})", x, y);
        }
    }
}

#[test]
fn backfacing_face_is_culled_and_depth_untouched() {
    let world = World::new();
    // The normal points along +z, away from the default light.
    let obj = one_face_object(
        rgb(255, 255, 255),
        [grid(0, 0, 5), grid(10, 0, 5), grid(0, 10, 5)],
        Vec3 { x: 0, y: 0, z: ONE },
    );
    let im = Image::new(12, 12);
    let zb = DepthBuffer::new(12, 12);
    let (im, zb) = draw_one_flat(obj, im, zb, &world);
    assert_eq!(im.get(2, 2), rgb(0, 0, 0));
    // The culled fragment left the depth buffer untouched.
    assert_eq!(zb.get(2, 2), i64::MIN);
}

#[test]
fn out_of_range_intensity_clamps_channels() {
    let world = World::new();
    // A double-length normal doubles the intensity past 1.0; channels
    // must clamp at 255 instead of wrapping.
    let obj = one_face_object(
        rgb(200, 10, 0),
        [grid(0, 0, 1), grid(8, 0, 1), grid(0, 8, 1)],
        Vec3 { x: 0, y: 0, z: -2 * ONE },
    );
    let im = Image::new(10, 10);
    let zb = DepthBuffer::new(10, 10);
    let (im, _zb) = draw_one_flat(obj, im, zb, &world);
    assert_eq!(im.get(1, 1), rgb(255, 20, 0));
}

#[test]
fn world_defaults_are_identity() {
    let w = World::new();
    for r in 0..4 {
        for c in 0..4 {
            let want = if r == c { ONE } else { 0 };
            assert_eq!(w.m().get(r, c), want);
            assert_eq!(w.model_view().get(r, c), want);
            assert_eq!(w.viewport().get(r, c), want);
            assert_eq!(w.projection().get(r, c), want);
        }
    }
    assert_eq!(w.light(), Vec3 { x: 0, y: 0, z: -ONE });
}

#[test]
fn set_viewport_builds_scale_and_offset() {
    let mut w = World::new();
    w.set_viewport(100, 50, 200, 100);
    let vp = w.viewport();
    assert_eq!(vp.get(0, 0), 200 * 32768);
    assert_eq!(vp.get(1, 1), 100 * 32768);
    assert_eq!(vp.get(2, 2), 65536 * 32768);
    assert_eq!(vp.get(0, 3), 100 * ONE + 200 * 32768);
    assert_eq!(vp.get(1, 3), 50 * ONE + 100 * 32768);
    assert_eq!(vp.get(2, 3), 65536 * 32768);
    assert_eq!(vp.get(3, 3), ONE);
    assert_eq!(vp.get(1, 0), 0);
}

#[test]
fn look_at_builds_camera_basis() {
    let mut w = World::new();
    w.look_at(grid(0, 0, 3), grid(0, 0, 0), grid(0, 1, 0));
    // Looking down the z axis from (0,0,3): the basis is the identity.
    for r in 0..4 {
        for c in 0..4 {
            let want = if r == c { ONE } else { 0 };
            assert_eq!(w.model_view().get(r, c), want, "mv({}, {})", r, c);
        }
    }
    // The weak-perspective term is -1 over the camera distance.
    assert_eq!(w.projection().get(3, 2), -(ONE / 3));
}

#[test]
fn composite_is_recomputed_eagerly() {
    let mut w = World::new();
    w.set_viewport(16, 16, 96, 96);
    w.look_at(grid(1, 1, 3), grid(0, 0, 0), grid(0, 1, 0));
    let expect: Matrix = w.viewport().multiply(&w.projection()).multiply(&w.model_view());
    for r in 0..4 {
        for c in 0..4 {
            assert_eq!(w.m().get(r, c), expect.get(r, c), "m({}, {})", r, c);
        }
    }
}

#[test]
fn bbox_spans_the_vertices() {
    let tri = [grid(3, 7, 0), grid(-2, 4, 0), grid(5, 1, 0)];
    assert_eq!(bbox(&tri), (-2, 5, 1, 7));
}

#[test]
fn degenerate_face_draws_nothing() {
    let world = World::new();
    // Collinear screen vertices: the sentinel weights reject every pixel.
    let obj = one_face_object(
        rgb(255, 255, 255),
        [grid(0, 0, 5), grid(2, 2, 5), grid(4, 4, 5)],
        Vec3 { x: 0, y: 0, z: -ONE },
    );
    let im = Image::new(8, 8);
    let zb = DepthBuffer::new(8, 8);
    let (im, zb) = draw_one_flat(obj, im, zb, &world);
    for y in 0..8 {
        for x in 0..8 {
            assert_eq!(im.get(x, y), rgb(0, 0, 0));
            assert_eq!(zb.get(x, y), i64::MIN);
        }
    }
}

#[test]
fn look_at_with_coincident_eye_and_center_is_defined() {
    let mut w = World::new();
    w.look_at(grid(1, 2, 3), grid(1, 2, 3), grid(0, 1, 0));
    // The view direction has no length: the basis vectors collapse to
    // zero and the weak-perspective term stays zero.
    assert_eq!(w.projection().get(3, 2), 0);
    for c in 0..3 {
        assert_eq!(w.model_view().get(0, c), 0);
        assert_eq!(w.model_view().get(1, c), 0);
        assert_eq!(w.model_view().get(2, c), 0);
    }
    assert_eq!(w.model_view().get(3, 3), ONE);
}

#[test]
fn vertex_stage_reports_screen_triangle() {
    let world = World::new();
    let obj = one_face_object(
        rgb(1, 2, 3),
        [grid(1, 2, 3), grid(4, 5, 6), grid(7, 8, 9)],
        Vec3 { x: 0, y: 0, z: -ONE },
    );
    let f: Face = obj.face(0);
    let mut s = FlatShader::new(obj, Image::new(4, 4), DepthBuffer::new(4, 4));
    let tri = s.vertex(&world, &f).expect("identity transform has an image");
    assert_eq!(tri[0], grid(1, 2, 3));
    assert_eq!(tri[1], grid(4, 5, 6));
    assert_eq!(tri[2], grid(7, 8, 9));
}
