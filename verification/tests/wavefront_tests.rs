use rustyrenderer::fixed::ONE;
use rustyrenderer::draw::{RGB, Texture2D};
use rustyrenderer::math::Vec3;
use rustyrenderer::wavefront::{Object, FaceIndex};

fn v(x: i64, y: i64, z: i64) -> Vec3 {
    Vec3 { x, y, z }
}

fn small_texture() -> Texture2D {
    Texture2D::new(1, 1, vec![10, 20, 30])
}

#[test]
fn face_index_starts_empty() {
    let fi = FaceIndex::new();
    assert!(fi.v_idxs.is_empty());
    assert!(fi.t_idxs.is_empty());
    assert!(fi.n_idxs.is_empty());
}

#[test]
fn object_tables_grow_in_order() {
    let mut obj = Object::new(small_texture());
    assert_eq!(obj.num_vertices(), 0);
    obj.add_vertex(v(1, 2, 3));
    obj.add_vertex(v(4, 5, 6));
    obj.add_texcoord(v(7, 8, 9));
    obj.add_normal(v(0, 0, -ONE));
    assert_eq!(obj.num_vertices(), 2);
    assert_eq!(obj.vertex(0), v(1, 2, 3));
    assert_eq!(obj.vertex(1), v(4, 5, 6));
    assert_eq!(obj.texcoord(0), v(7, 8, 9));
    assert_eq!(obj.normal(0), v(0, 0, -ONE));
}

#[test]
fn add_face_rejects_bad_indices() {
    let mut obj = Object::new(small_texture());
    obj.add_vertex(v(0, 0, 0));
    obj.add_vertex(v(ONE, 0, 0));
    obj.add_vertex(v(0, ONE, 0));
    obj.add_texcoord(v(0, 0, 0));
    obj.add_normal(v(0, 0, -ONE));

    // Incomplete: only two corners given.
    let mut fi = FaceIndex::new();
    fi.v_idxs = vec![0, 1];
    fi.t_idxs = vec![0, 0];
    fi.n_idxs = vec![0, 0];
    assert!(!obj.add_face(fi));

    // A vertex index beyond the table.
    let mut fi = FaceIndex::new();
    fi.v_idxs = vec![0, 1, 7];
    fi.t_idxs = vec![0, 0, 0];
    fi.n_idxs = vec![0, 0, 0];
    assert!(!obj.add_face(fi));
    assert_eq!(obj.num_faces(), 0);

    // A complete, in-range face is taken.
    let mut fi = FaceIndex::new();
    fi.v_idxs = vec![0, 1, 2];
    fi.t_idxs = vec![0, 0, 0];
    fi.n_idxs = vec![0, 0, 0];
    assert!(obj.add_face(fi));
    assert_eq!(obj.num_faces(), 1);
}

#[test]
fn face_resolves_indices_and_repeats() {
    let mut obj = Object::new(small_texture());
    obj.add_vertex(v(1, 0, 0));
    obj.add_vertex(v(0, 1, 0));
    obj.add_vertex(v(0, 0, 1));
    obj.add_texcoord(v(5, 5, 0));
    obj.add_texcoord(v(6, 6, 0));
    obj.add_normal(v(0, 0, -ONE));
    let mut fi = FaceIndex::new();
    fi.v_idxs = vec![2, 0, 1];
    fi.t_idxs = vec![1, 0, 1];
    fi.n_idxs = vec![0, 0, 0];
    assert!(obj.add_face(fi));

    let f1 = obj.face(0);
    assert_eq!(f1.vertices[0], v(0, 0, 1));
    assert_eq!(f1.vertices[1], v(1, 0, 0));
    assert_eq!(f1.vertices[2], v(0, 1, 0));
    assert_eq!(f1.texcoords[0], v(6, 6, 0));
    assert_eq!(f1.texcoords[1], v(5, 5, 0));
    assert_eq!(f1.normals[2], v(0, 0, -ONE));

    // Iterating the mesh twice reproduces the same face.
    let f2 = obj.face(0);
    assert_eq!(f1.vertices, f2.vertices);
    assert_eq!(f1.texcoords, f2.texcoords);
    assert_eq!(f1.normals, f2.normals);
}

#[test]
fn sample_delegates_to_texture() {
    let obj = Object::new(small_texture());
    let c = obj.sample(v(ONE / 2, ONE / 2, 0));
    assert_eq!(c, RGB { r: 10, g: 20, b: 30 });
}
