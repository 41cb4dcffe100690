//! Triangle meshes: vertex, texture-coordinate and normal tables, faces
//! holding indices into them, and the bound diffuse texture.  Reading the
//! mesh text format is a collaborator's job; this module holds the data
//! and keeps every stored face index in range.

use vstd::prelude::*;
use crate::draw::{RGB, Texture2D};
use crate::math::Vec3;

verus! {

/// The table indices one mesh face holds: positions, texture coordinates
/// and normals of its three corners (1-based in the file format, stored
/// 0-based).
#[derive(Clone, Debug)]
pub struct FaceIndex {
    pub v_idxs: Vec<usize>,
    pub t_idxs: Vec<usize>,
    pub n_idxs: Vec<usize>,
}

impl FaceIndex {
    /// An empty index record, to be filled one corner at a time.
    pub fn new() -> (r: Self)
        ensures
            r.v_idxs@.len() == 0,
            r.t_idxs@.len() == 0,
            r.n_idxs@.len() == 0,
    {
        FaceIndex { v_idxs: Vec::new(), t_idxs: Vec::new(), n_idxs: Vec::new() }
    }
}

/// One triangle handed to a shader: three object-space positions, three
/// texture coordinates, three normals.
#[derive(Copy, Clone, Debug)]
pub struct Face {
    pub vertices: [Vec3; 3],
    pub texcoords: [Vec3; 3],
    pub normals: [Vec3; 3],
}

/// A face's indices are complete and land inside tables of the given
/// sizes.
pub open spec fn face_index_ok(f: FaceIndex, nv: int, nt: int, nn: int) -> bool {
    &&& f.v_idxs@.len() == 3
    &&& f.t_idxs@.len() == 3
    &&& f.n_idxs@.len() == 3
    &&& forall|k: int|
        0 <= k < 3 ==> f.v_idxs@[k] < nv && f.t_idxs@[k] < nt && f.n_idxs@[k] < nn
}

/// A mesh: the three tables, the faces indexing into them, and the
/// diffuse texture sampled by the shaders.
pub struct Object {
    vertices: Vec<Vec3>,
    texcoords: Vec<Vec3>,
    normals: Vec<Vec3>,
    faces: Vec<FaceIndex>,
    tex: Texture2D,
}

impl Object {
    /// Every stored face has complete, in-range indices.  Established by
    /// the constructor and preserved by every mutator.
    pub closed spec fn wf(self) -> bool {
        forall|i: int|
            0 <= i < self.faces@.len() ==> face_index_ok(
                #[trigger] self.faces@[i],
                self.vertices@.len() as int,
                self.texcoords@.len() as int,
                self.normals@.len() as int,
            )
    }

    /// The vertex table.
    pub closed spec fn vertices_s(self) -> Seq<Vec3> {
        self.vertices@
    }

    /// The texture-coordinate table.
    pub closed spec fn texcoords_s(self) -> Seq<Vec3> {
        self.texcoords@
    }

    /// The normal table.
    pub closed spec fn normals_s(self) -> Seq<Vec3> {
        self.normals@
    }

    /// The stored face index records.
    pub closed spec fn faces_s(self) -> Seq<FaceIndex> {
        self.faces@
    }

    /// The bound texture.
    pub closed spec fn tex_s(self) -> Texture2D {
        self.tex
    }

    /// The triangle that face `i` denotes, with indices resolved.
    pub open spec fn face_s(self, i: int) -> Face {
        let fi = self.faces_s()[i];
        Face {
            vertices: [
                self.vertices_s()[fi.v_idxs@[0] as int],
                self.vertices_s()[fi.v_idxs@[1] as int],
                self.vertices_s()[fi.v_idxs@[2] as int],
            ],
            texcoords: [
                self.texcoords_s()[fi.t_idxs@[0] as int],
                self.texcoords_s()[fi.t_idxs@[1] as int],
                self.texcoords_s()[fi.t_idxs@[2] as int],
            ],
            normals: [
                self.normals_s()[fi.n_idxs@[0] as int],
                self.normals_s()[fi.n_idxs@[1] as int],
                self.normals_s()[fi.n_idxs@[2] as int],
            ],
        }
    }

    /// An empty mesh bound to a texture.
    pub fn new(tex: Texture2D) -> (r: Self)
        ensures
            r.wf(),
            r.vertices_s().len() == 0,
            r.texcoords_s().len() == 0,
            r.normals_s().len() == 0,
            r.faces_s().len() == 0,
            r.tex_s() == tex,
    {
        Object {
            vertices: Vec::new(),
            texcoords: Vec::new(),
            normals: Vec::new(),
            faces: Vec::new(),
            tex,
        }
    }

    /// Append a vertex.
    pub fn add_vertex(&mut self, v: Vec3)
        requires
            old(self).wf(),
        ensures
            final(self).wf(),
            final(self).vertices_s() == old(self).vertices_s().push(v),
            final(self).texcoords_s() == old(self).texcoords_s(),
            final(self).normals_s() == old(self).normals_s(),
            final(self).faces_s() == old(self).faces_s(),
            final(self).tex_s() == old(self).tex_s(),
    {
        self.vertices.push(v);
    }

    /// Append a texture coordinate.
    pub fn add_texcoord(&mut self, v: Vec3)
        requires
            old(self).wf(),
        ensures
            final(self).wf(),
            final(self).texcoords_s() == old(self).texcoords_s().push(v),
            final(self).vertices_s() == old(self).vertices_s(),
            final(self).normals_s() == old(self).normals_s(),
            final(self).faces_s() == old(self).faces_s(),
            final(self).tex_s() == old(self).tex_s(),
    {
        self.texcoords.push(v);
    }

    /// Append a normal.
    pub fn add_normal(&mut self, v: Vec3)
        requires
            old(self).wf(),
        ensures
            final(self).wf(),
            final(self).normals_s() == old(self).normals_s().push(v),
            final(self).vertices_s() == old(self).vertices_s(),
            final(self).texcoords_s() == old(self).texcoords_s(),
            final(self).faces_s() == old(self).faces_s(),
            final(self).tex_s() == old(self).tex_s(),
    {
        self.normals.push(v);
    }

    /// Append a face if its indices are complete and in range; report
    /// whether it was taken.
    pub fn add_face(&mut self, f: FaceIndex) -> (ok: bool)
        requires
            old(self).wf(),
        ensures
            final(self).wf(),
            ok == face_index_ok(
                f,
                old(self).vertices_s().len() as int,
                old(self).texcoords_s().len() as int,
                old(self).normals_s().len() as int,
            ),
            ok ==> final(self).faces_s() == old(self).faces_s().push(f),
            !ok ==> final(self).faces_s() == old(self).faces_s(),
            final(self).vertices_s() == old(self).vertices_s(),
            final(self).texcoords_s() == old(self).texcoords_s(),
            final(self).normals_s() == old(self).normals_s(),
            final(self).tex_s() == old(self).tex_s(),
    {
        if f.v_idxs.len() != 3 || f.t_idxs.len() != 3 || f.n_idxs.len() != 3 {
            return false;
        }
        let mut k: usize = 0;
        while k < 3
            invariant
                k <= 3,
                *self == *old(self),
                self.wf(),
                f.v_idxs@.len() == 3,
                f.t_idxs@.len() == 3,
                f.n_idxs@.len() == 3,
                forall|j: int|
                    0 <= j < k ==> f.v_idxs@[j] < self.vertices@.len() && f.t_idxs@[j]
                        < self.texcoords@.len() && f.n_idxs@[j] < self.normals@.len(),
            decreases 3 - k,
        {
            if f.v_idxs[k] >= self.vertices.len() || f.t_idxs[k] >= self.texcoords.len()
                || f.n_idxs[k] >= self.normals.len() {
                return false;
            }
            k += 1;
        }
        self.faces.push(f);
        true
    }

    /// The number of vertices.
    pub fn num_vertices(&self) -> (r: usize)
        ensures
            r == self.vertices_s().len(),
    {
        self.vertices.len()
    }

    /// The number of faces.
    pub fn num_faces(&self) -> (r: usize)
        ensures
            r == self.faces_s().len(),
    {
        self.faces.len()
    }

    /// The vertex at `idx`.
    pub fn vertex(&self, idx: usize) -> (r: Vec3)
        requires
            idx < self.vertices_s().len(),
        ensures
            r == self.vertices_s()[idx as int],
    {
        self.vertices[idx]
    }

    /// The texture coordinate at `idx`.
    pub fn texcoord(&self, idx: usize) -> (r: Vec3)
        requires
            idx < self.texcoords_s().len(),
        ensures
            r == self.texcoords_s()[idx as int],
    {
        self.texcoords[idx]
    }

    /// The normal at `idx`.
    pub fn normal(&self, idx: usize) -> (r: Vec3)
        requires
            idx < self.normals_s().len(),
        ensures
            r == self.normals_s()[idx as int],
    {
        self.normals[idx]
    }

    /// Sample the bound diffuse texture, nearest-neighbor.
    pub fn sample(&self, uv: Vec3) -> (c: RGB)
        ensures
            c == self.tex_s().sample_s(uv),
    {
        self.tex.sample(uv)
    }

    /// Resolve face `i` into its triangle.  Iterating `0..num_faces()`
    /// twice walks the same faces in the same order.
    pub fn face(&self, i: usize) -> (r: Face)
        requires
            self.wf(),
            i < self.faces_s().len(),
        ensures
            r == self.face_s(i as int),
    {
        let fi = &self.faces[i];
        Face {
            vertices: [
                self.vertices[fi.v_idxs[0]],
                self.vertices[fi.v_idxs[1]],
                self.vertices[fi.v_idxs[2]],
            ],
            texcoords: [
                self.texcoords[fi.t_idxs[0]],
                self.texcoords[fi.t_idxs[1]],
                self.texcoords[fi.t_idxs[2]],
            ],
            normals: [
                self.normals[fi.n_idxs[0]],
                self.normals[fi.n_idxs[1]],
                self.normals[fi.n_idxs[2]],
            ],
        }
    }
}

} // verus!
