use rustyrenderer::fixed::ONE;
use rustyrenderer::draw::{RGB, Image, DepthBuffer, Texture2D};
use rustyrenderer::math::{Vec2i, Vec3};

fn rgb(r: u8, g: u8, b: u8) -> RGB {
    RGB { r, g, b }
}

fn grid(x: i64, y: i64, z: i64) -> Vec3 {
    Vec3 { x: x * ONE, y: y * ONE, z: z * ONE }
}

#[test]
fn image_set_get_round_trip() {
    let mut im = Image::new(4, 3);
    assert_eq!(im.width(), 4);
    assert_eq!(im.height(), 3);
    assert_eq!(im.get(0, 0), rgb(0, 0, 0));
    im.set(2, 1, rgb(10, 20, 30));
    assert_eq!(im.get(2, 1), rgb(10, 20, 30));
    assert_eq!(im.get(1, 2), rgb(0, 0, 0));
}

#[test]
fn image_out_of_range_write_is_dropped() {
    let mut im = Image::new(2, 2);
    im.set(5, 0, rgb(9, 9, 9));
    im.set(0, 7, rgb(9, 9, 9));
    for y in 0..2 {
        for x in 0..2 {
            assert_eq!(im.get(x, y), rgb(0, 0, 0));
        }
    }
    // Reads outside the image come back black.
    assert_eq!(im.get(99, 99), rgb(0, 0, 0));
}

#[test]
fn flip_y_mirrors_rows() {
    let mut im = Image::new(1, 2);
    im.set(0, 0, rgb(1, 1, 1));
    im.set(0, 1, rgb(2, 2, 2));
    im.flip_y();
    assert_eq!(im.get(0, 0), rgb(2, 2, 2));
    assert_eq!(im.get(0, 1), rgb(1, 1, 1));
}

#[test]
fn flip_y_odd_height_keeps_middle() {
    let mut im = Image::new(2, 3);
    im.set(0, 0, rgb(1, 0, 0));
    im.set(1, 1, rgb(2, 0, 0));
    im.set(0, 2, rgb(3, 0, 0));
    im.flip_y();
    assert_eq!(im.get(0, 0), rgb(3, 0, 0));
    assert_eq!(im.get(1, 1), rgb(2, 0, 0));
    assert_eq!(im.get(0, 2), rgb(1, 0, 0));
}

#[test]
fn line_draws_flat_segment() {
    let mut im = Image::new(5, 5);
    let c = rgb(7, 7, 7);
    im.line(&Vec2i { x: 0, y: 0 }, &Vec2i { x: 3, y: 0 }, c);
    assert_eq!(im.get(0, 0), c);
    assert_eq!(im.get(1, 0), c);
    assert_eq!(im.get(2, 0), c);
    // The upper endpoint is excluded.
    assert_eq!(im.get(3, 0), rgb(0, 0, 0));
}

#[test]
fn line_draws_steep_segment_transposed() {
    let mut im = Image::new(5, 5);
    let c = rgb(8, 8, 8);
    im.line(&Vec2i { x: 0, y: 0 }, &Vec2i { x: 0, y: 3 }, c);
    assert_eq!(im.get(0, 0), c);
    assert_eq!(im.get(0, 1), c);
    assert_eq!(im.get(0, 2), c);
    assert_eq!(im.get(0, 3), rgb(0, 0, 0));
}

#[test]
fn line_interpolates_minor_axis() {
    let mut im = Image::new(8, 8);
    let c = rgb(5, 5, 5);
    im.line(&Vec2i { x: 0, y: 0 }, &Vec2i { x: 4, y: 2 }, c);
    assert_eq!(im.get(0, 0), c);
    assert_eq!(im.get(1, 0), c);
    assert_eq!(im.get(2, 1), c);
    assert_eq!(im.get(3, 1), c);
    assert_eq!(im.get(4, 2), rgb(0, 0, 0));
}

#[test]
fn line_endpoint_order_does_not_matter() {
    let c = rgb(3, 3, 3);
    let mut a = Image::new(6, 6);
    a.line(&Vec2i { x: 0, y: 1 }, &Vec2i { x: 4, y: 3 }, c);
    let mut b = Image::new(6, 6);
    b.line(&Vec2i { x: 4, y: 3 }, &Vec2i { x: 0, y: 1 }, c);
    for y in 0..6 {
        for x in 0..6 {
            assert_eq!(a.get(x, y), b.get(x, y), "pixel ({}, {})", x, y);
        }
    }
}

#[test]
fn depth_buffer_starts_most_negative() {
    let mut zb = DepthBuffer::new(2, 2);
    assert_eq!(zb.width(), 2);
    assert_eq!(zb.height(), 2);
    assert_eq!(zb.get(0, 0), i64::MIN);
    assert_eq!(zb.get(1, 1), i64::MIN);
    zb.set(1, 0, 42);
    assert_eq!(zb.get(1, 0), 42);
    assert_eq!(zb.get(0, 0), i64::MIN);
}

#[test]
fn triangle_fills_covered_pixels() {
    let mut im = Image::new(8, 8);
    let mut zb = DepthBuffer::new(8, 8);
    let c = rgb(200, 100, 50);
    let tri = [grid(0, 0, 1), grid(4, 0, 1), grid(0, 4, 1)];
    im.triangle(&tri, &mut zb, c);
    assert_eq!(im.get(0, 0), c);
    assert_eq!(im.get(1, 1), c);
    // Outside the triangle's area nothing is drawn.
    assert_eq!(im.get(3, 3), rgb(0, 0, 0));
    assert_eq!(im.get(5, 5), rgb(0, 0, 0));
    // Depth was recorded where pixels were drawn.
    assert_eq!(zb.get(1, 1), ONE);
    assert_eq!(zb.get(5, 5), i64::MIN);
}

#[test]
fn triangle_degenerate_draws_nothing() {
    let mut im = Image::new(8, 8);
    let mut zb = DepthBuffer::new(8, 8);
    let tri = [grid(0, 0, 1), grid(2, 2, 1), grid(4, 4, 1)];
    im.triangle(&tri, &mut zb, rgb(9, 9, 9));
    for y in 0..8 {
        for x in 0..8 {
            assert_eq!(im.get(x, y), rgb(0, 0, 0));
            assert_eq!(zb.get(x, y), i64::MIN);
        }
    }
}

#[test]
fn texture_sample_addresses_flipped_rows() {
    // 2x2 texture, row-major from the top: (0,0) (1,0) / (0,1) (1,1).
    let buf = vec![1, 2, 3, 4, 5, 6, 7, 8, 9, 10, 11, 12];
    let t = Texture2D::new(2, 2, buf);
    // v = 0.25 addresses the bottom row.
    let c = t.sample(Vec3 { x: ONE / 4, y: ONE / 4, z: 0 });
    assert_eq!(c, rgb(7, 8, 9));
    // v just below 1.0 addresses the top row.
    let c = t.sample(Vec3 { x: ONE / 4, y: (3 * ONE) / 4, z: 0 });
    assert_eq!(c, rgb(1, 2, 3));
}

#[test]
fn texture_sample_wraps_and_rejects() {
    let buf = vec![1, 2, 3, 4, 5, 6, 7, 8, 9, 10, 11, 12];
    let t = Texture2D::new(2, 2, buf);
    // u = 1.25 wraps to u = 0.25.
    let a = t.sample(Vec3 { x: ONE / 4, y: ONE / 4, z: 0 });
    let b = t.sample(Vec3 { x: ONE + ONE / 4, y: ONE / 4, z: 0 });
    assert_eq!(a, b);
    // A far negative u truncates below zero and yields black.
    let c = t.sample(Vec3 { x: -(3 * ONE) / 2, y: ONE / 4, z: 0 });
    assert_eq!(c, rgb(0, 0, 0));
}

#[test]
fn empty_texture_samples_black() {
    let t = Texture2D::new(0, 0, Vec::new());
    assert_eq!(t.sample(Vec3 { x: ONE / 2, y: ONE / 2, z: 0 }), rgb(0, 0, 0));
}

#[test]
fn random_color_smoke() {
    let c = rustyrenderer::color::rand();
    let _ = (c.r, c.g, c.b);
}
