//! The chainable transform pipeline.
//!
//! A `Transform` owns one mesh and one 4×4 projection matrix. Each chain
//! operation consumes the current state and produces the next one; only
//! `project` changes the dimension, from 3 to 2, and only
//! `normalize_filter` changes the triangle count, and only downward.
//!
//! The order of a frame's operations matters: rotations first (about the
//! model's own origin), then translation, then the backface cull and the
//! luminance, both evaluated in the pre-projection space where normals are
//! meaningful, then projection, then the screen-space translate and scale.

use vstd::prelude::*;
use crate::fixed::{FX_DIV_MAX, FX_GEOM, FX_LIM, FX_ONE};
use crate::matrix::{mat4_apply, Matrix};
use crate::mesh::Mesh;
use crate::triangle::{cross_raw, normal_s, TriModel, Triangle};
use crate::vector::{
    add_s, dot_s, in_range, lemma_normalize_in_range, scale_s, sub_s, sum_sq, Vector,
};

verus! {

/// A triangle translated by a per-dimension offset.
pub open spec fn tri_translate(t: TriModel, d: Seq<int>) -> TriModel {
    TriModel { verts: Seq::new(t.verts.len(), |j: int| add_s(t.verts[j], d)), lum: t.lum }
}

/// A triangle scaled by per-dimension factors.
pub open spec fn tri_scale(t: TriModel, f: Seq<int>) -> TriModel {
    TriModel { verts: Seq::new(t.verts.len(), |j: int| scale_s(t.verts[j], f)), lum: t.lum }
}

/// A triangle with every vertex taken through a homogeneous 4×4 transform.
pub open spec fn tri_apply_mat(t: TriModel, m: Matrix) -> TriModel {
    TriModel { verts: Seq::new(t.verts.len(), |j: int| mat4_apply(m, t.verts[j])), lum: t.lum }
}

/// A triangle projected to two dimensions: every vertex taken through the
/// projection matrix, keeping only the first two coordinates.
pub open spec fn tri_project(t: TriModel, m: Matrix) -> TriModel {
    TriModel {
        verts: Seq::new(
            t.verts.len(),
            |j: int| seq![mat4_apply(m, t.verts[j])[0], mat4_apply(m, t.verts[j])[1]],
        ),
        lum: t.lum,
    }
}

/// The backface test: a triangle is kept exactly when its normal, dotted
/// with the ray from the camera to its first vertex, is strictly negative.
pub open spec fn keeps(t: TriModel, cam: Seq<int>) -> bool {
    dot_s(normal_s(t.verts), sub_s(t.verts[0], cam)) < 0
}

/// A triangle whose luminance is replaced by the dot product of its normal
/// with the light direction.
pub open spec fn tri_lit(t: TriModel, light: Seq<int>) -> TriModel {
    TriModel { verts: t.verts, lum: dot_s(normal_s(t.verts), light) }
}

/// The entries of the rotation matrix about the x-axis, given the cosine
/// and sine of the angle.
pub open spec fn x_rot_entry(c: int, s: int, x: int, y: int) -> int {
    if x == 1 && y == 1 {
        c
    } else if x == 1 && y == 2 {
        s
    } else if x == 2 && y == 1 {
        -s
    } else if x == 2 && y == 2 {
        c
    } else if x == y {
        FX_ONE as int
    } else {
        0
    }
}

/// The entries of the rotation matrix about the y-axis.
pub open spec fn y_rot_entry(c: int, s: int, x: int, y: int) -> int {
    if x == 0 && y == 0 {
        c
    } else if x == 0 && y == 2 {
        -s
    } else if x == 2 && y == 0 {
        s
    } else if x == 2 && y == 2 {
        c
    } else if x == y {
        FX_ONE as int
    } else {
        0
    }
}

/// The entries of the rotation matrix about the z-axis.
pub open spec fn z_rot_entry(c: int, s: int, x: int, y: int) -> int {
    if x == 0 && y == 0 {
        c
    } else if x == 0 && y == 1 {
        s
    } else if x == 1 && y == 0 {
        -s
    } else if x == 1 && y == 1 {
        c
    } else if x == y {
        FX_ONE as int
    } else {
        0
    }
}

/// Generate an x rotation matrix from the cosine and sine of the angle.
pub fn generate_x_rotation_matrix(cos: i64, sin: i64) -> (r: Matrix)
    requires
        -FX_ONE <= cos <= FX_ONE,
        -FX_ONE <= sin <= FX_ONE,
    ensures
        r.wf(),
        r.rows == 4,
        r.cols == 4,
        forall|x: int, y: int|
            0 <= x < 4 && 0 <= y < 4 ==> #[trigger] r.at(x, y) == x_rot_entry(
                cos as int,
                sin as int,
                x,
                y,
            ),
        r.entries_in_range(FX_ONE as int),
{
    let mut m = Matrix::identity(4);
    m.set(1, 1, cos);
    m.set(1, 2, sin);
    m.set(2, 1, -sin);
    m.set(2, 2, cos);
    m
}

/// Generate a y rotation matrix from the cosine and sine of the angle.
pub fn generate_y_rotation_matrix(cos: i64, sin: i64) -> (r: Matrix)
    requires
        -FX_ONE <= cos <= FX_ONE,
        -FX_ONE <= sin <= FX_ONE,
    ensures
        r.wf(),
        r.rows == 4,
        r.cols == 4,
        forall|x: int, y: int|
            0 <= x < 4 && 0 <= y < 4 ==> #[trigger] r.at(x, y) == y_rot_entry(
                cos as int,
                sin as int,
                x,
                y,
            ),
        r.entries_in_range(FX_ONE as int),
{
    let mut m = Matrix::identity(4);
    m.set(0, 0, cos);
    m.set(0, 2, -sin);
    m.set(2, 0, sin);
    m.set(2, 2, cos);
    m
}

/// Generate a z rotation matrix from the cosine and sine of the angle.
pub fn generate_z_rotation_matrix(cos: i64, sin: i64) -> (r: Matrix)
    requires
        -FX_ONE <= cos <= FX_ONE,
        -FX_ONE <= sin <= FX_ONE,
    ensures
        r.wf(),
        r.rows == 4,
        r.cols == 4,
        forall|x: int, y: int|
            0 <= x < 4 && 0 <= y < 4 ==> #[trigger] r.at(x, y) == z_rot_entry(
                cos as int,
                sin as int,
                x,
                y,
            ),
        r.entries_in_range(FX_ONE as int),
{
    let mut m = Matrix::identity(4);
    m.set(0, 0, cos);
    m.set(0, 1, sin);
    m.set(1, 0, -sin);
    m.set(1, 1, cos);
    m
}

/// Generate a perspective projection matrix.
///
/// `aspect_ratio` is height over width, `fov_rad` the reciprocal of the
/// tangent of half the field of view, `near` and `far` the view planes;
/// all fixed point. The near and far planes must differ.
pub fn generate_projection_matrix(aspect_ratio: i64, fov_rad: i64, near: i64, far: i64) -> (r:
    Matrix)
    requires
        -FX_LIM <= aspect_ratio <= FX_LIM,
        -FX_LIM <= fov_rad <= FX_LIM,
        -FX_LIM <= near <= FX_LIM,
        -FX_LIM <= far <= FX_LIM,
        far != near,
    ensures
        r.wf(),
        r.rows == 4,
        r.cols == 4,
        r.at(0, 0) == crate::fixed::fxm(aspect_ratio as int, fov_rad as int),
        r.at(1, 1) == fov_rad as int,
        r.at(2, 2) == crate::fixed::fxd(far as int, far - near),
        r.at(3, 2) == crate::fixed::fxd(crate::fixed::fxm(-(far as int), near as int), far - near),
        r.at(2, 3) == FX_ONE as int,
        r.at(3, 3) == FX_ONE as int,
        forall|x: int, y: int|
            0 <= x < 4 && 0 <= y < 4 && !((x == 0 && y == 0) || (x == 1 && y == 1) || (x == 2 && y
                == 2) || (x == 3 && y == 2) || (x == 2 && y == 3) || (x == 3 && y == 3))
                ==> #[trigger] r.at(x, y) == 0,
{
    let mut m = Matrix::fill(4, 4, 0);
    m.set(0, 0, crate::fixed::fx_mul(aspect_ratio, fov_rad));
    m.set(1, 1, fov_rad);
    m.set(2, 2, crate::fixed::fx_div(far, far - near));
    m.set(3, 2, crate::fixed::fx_div(crate::fixed::fx_mul(-far, near), far - near));
    m.set(2, 3, FX_ONE);
    m.set(3, 3, FX_ONE);
    m
}

/// Appending one element to the scanned prefix extends its filtered image
/// exactly when the element passes the test.
proof fn lemma_filter_step(s: Seq<TriModel>, p: spec_fn(TriModel) -> bool, i: int)
    requires
        0 <= i < s.len(),
    ensures
        s.subrange(0, i + 1).filter(p) == if p(s[i]) {
            s.subrange(0, i).filter(p).push(s[i])
        } else {
            s.subrange(0, i).filter(p)
        },
{
    reveal_with_fuel(Seq::<_>::filter, 2);
    let t = s.subrange(0, i + 1);
    assert(t.drop_last() =~= s.subrange(0, i));
    assert(t.last() == s[i]);
    assert(t.len() > 0);
}

/// A mesh transformation: a pipeline cursor owning one mesh and one 4×4
/// projection matrix.
pub struct Transform {
    /// The mesh in its current state along the chain.
    pub mesh: Mesh,
    /// The screen's projection matrix, carried unchanged through the chain.
    pub projection_matrix: Matrix,
}

// Transformation implementation
impl Transform {
    /// Create a new mesh transformation.
    pub fn new(mesh: &Mesh, projection_matrix: &Matrix) -> (r: Transform)
        ensures
            r.mesh.model() == mesh.model(),
            r.projection_matrix.rows == projection_matrix.rows,
            r.projection_matrix.cols == projection_matrix.cols,
            r.projection_matrix.elems@ == projection_matrix.elems@,
    {
        Transform { mesh: mesh.clone(), projection_matrix: projection_matrix.clone() }
    }

    /// Turn the transformation back into a mesh.
    pub fn mesh(&self) -> (r: Mesh)
        ensures
            r.model() == self.mesh.model(),
    {
        self.mesh.clone()
    }

    /// Translate the mesh: add a per-dimension offset to every vertex.
    /// Keeps the triangle count and every luminance.
    pub fn translate(self, values: &Vector) -> (r: Transform)
        requires
            self.mesh.dim_is(values@.len() as int),
            self.mesh.coords_in_range(FX_DIV_MAX as int),
            in_range(values@, FX_DIV_MAX as int),
        ensures
            r.projection_matrix == self.projection_matrix,
            r.mesh.model() == self.mesh.model().map(|i: int, t: TriModel| tri_translate(t, values@)),
    {
        let n: usize = self.mesh.tris.len();
        let mut out: Vec<Triangle> = Vec::new();
        let mut i: usize = 0;
        while i < n
            invariant
                i <= n,
                n == self.mesh.tris@.len(),
                self.mesh.dim_is(values@.len() as int),
                self.mesh.coords_in_range(FX_DIV_MAX as int),
                in_range(values@, FX_DIV_MAX as int),
                out@.len() == i,
                forall|k: int| 0 <= k < i ==> (#[trigger] out@[k]).model() == tri_translate(
                    self.mesh.model()[k],
                    values@,
                ),
            decreases n - i,
        {
            let t = &self.mesh.tris[i];
            let mut vecs: Vec<Vector> = Vec::new();
            let mut j: usize = 0;
            while j < 3
                invariant
                    j <= 3,
                    t.dim_is(values@.len() as int),
                    t.coords_in_range(FX_DIV_MAX as int),
                    in_range(values@, FX_DIV_MAX as int),
                    vecs@.len() == j,
                    forall|l: int| 0 <= l < j ==> (#[trigger] vecs@[l])@ == add_s(
                        t.model().verts[l],
                        values@,
                    ),
                decreases 3 - j,
            {
                proof {
                    assert(t.model().verts[j as int] == t.vecs@[j as int]@);
                }
                vecs.push(t.vecs[j].add(values));
                j = j + 1;
            }
            let nt = Triangle { vecs, lum: t.lum };
            proof {
                assert(nt.model().verts =~= tri_translate(t.model(), values@).verts);
            }
            out.push(nt);
            i = i + 1;
        }
        let r = Transform { mesh: Mesh { tris: out }, projection_matrix: self.projection_matrix };
        proof {
            assert(r.mesh.model() =~= self.mesh.model().map(
                |i: int, t: TriModel| tri_translate(t, values@),
            ));
        }
        r
    }

    /// Scale the mesh: multiply every vertex by per-dimension factors.
    /// Keeps the triangle count and every luminance.
    pub fn scale(self, factors: &Vector) -> (r: Transform)
        requires
            self.mesh.dim_is(factors@.len() as int),
            self.mesh.coords_in_range(FX_LIM as int),
            in_range(factors@, FX_LIM as int),
        ensures
            r.projection_matrix == self.projection_matrix,
            r.mesh.model() == self.mesh.model().map(|i: int, t: TriModel| tri_scale(t, factors@)),
    {
        let n: usize = self.mesh.tris.len();
        let mut out: Vec<Triangle> = Vec::new();
        let mut i: usize = 0;
        while i < n
            invariant
                i <= n,
                n == self.mesh.tris@.len(),
                self.mesh.dim_is(factors@.len() as int),
                self.mesh.coords_in_range(FX_LIM as int),
                in_range(factors@, FX_LIM as int),
                out@.len() == i,
                forall|k: int| 0 <= k < i ==> (#[trigger] out@[k]).model() == tri_scale(
                    self.mesh.model()[k],
                    factors@,
                ),
            decreases n - i,
        {
            let t = &self.mesh.tris[i];
            let mut vecs: Vec<Vector> = Vec::new();
            let mut j: usize = 0;
            while j < 3
                invariant
                    j <= 3,
                    t.dim_is(factors@.len() as int),
                    t.coords_in_range(FX_LIM as int),
                    in_range(factors@, FX_LIM as int),
                    vecs@.len() == j,
                    forall|l: int| 0 <= l < j ==> (#[trigger] vecs@[l])@ == scale_s(
                        t.model().verts[l],
                        factors@,
                    ),
                decreases 3 - j,
            {
                proof {
                    assert(t.model().verts[j as int] == t.vecs@[j as int]@);
                }
                vecs.push(t.vecs[j].scale(factors));
                j = j + 1;
            }
            let nt = Triangle { vecs, lum: t.lum };
            proof {
                assert(nt.model().verts =~= tri_scale(t.model(), factors@).verts);
            }
            out.push(nt);
            i = i + 1;
        }
        let r = Transform { mesh: Mesh { tris: out }, projection_matrix: self.projection_matrix };
        proof {
            assert(r.mesh.model() =~= self.mesh.model().map(
                |i: int, t: TriModel| tri_scale(t, factors@),
            ));
        }
        r
    }

    /// Multiply every vertex of the mesh by a 4×4 matrix, with the
    /// homogeneous perspective division. Keeps the triangle count and
    /// every luminance.
    fn apply_matrix(self, m: &Matrix) -> (r: Transform)
        requires
            self.mesh.dim_is(3),
            self.mesh.coords_in_range(FX_LIM as int),
            m.wf(),
            m.rows == 4,
            m.cols == 4,
            m.entries_in_range(FX_LIM as int),
        ensures
            r.projection_matrix == self.projection_matrix,
            r.mesh.model() == self.mesh.model().map(|i: int, t: TriModel| tri_apply_mat(t, *m)),
    {
        let n: usize = self.mesh.tris.len();
        let mut out: Vec<Triangle> = Vec::new();
        let mut i: usize = 0;
        while i < n
            invariant
                i <= n,
                n == self.mesh.tris@.len(),
                self.mesh.dim_is(3),
                self.mesh.coords_in_range(FX_LIM as int),
                m.wf(),
                m.rows == 4,
                m.cols == 4,
                m.entries_in_range(FX_LIM as int),
                out@.len() == i,
                forall|k: int| 0 <= k < i ==> (#[trigger] out@[k]).model() == tri_apply_mat(
                    self.mesh.model()[k],
                    *m,
                ),
            decreases n - i,
        {
            let t = &self.mesh.tris[i];
            let mut vecs: Vec<Vector> = Vec::new();
            let mut j: usize = 0;
            while j < 3
                invariant
                    j <= 3,
                    t.dim_is(3),
                    t.coords_in_range(FX_LIM as int),
                    m.wf(),
                    m.rows == 4,
                    m.cols == 4,
                    m.entries_in_range(FX_LIM as int),
                    vecs@.len() == j,
                    forall|l: int| 0 <= l < j ==> (#[trigger] vecs@[l])@ == mat4_apply(
                        *m,
                        t.model().verts[l],
                    ),
                decreases 3 - j,
            {
                proof {
                    assert(t.model().verts[j as int] == t.vecs@[j as int]@);
                }
                vecs.push(m.mul_vec3(&t.vecs[j]));
                j = j + 1;
            }
            let nt = Triangle { vecs, lum: t.lum };
            proof {
                assert(nt.model().verts =~= tri_apply_mat(t.model(), *m).verts);
            }
            out.push(nt);
            i = i + 1;
        }
        let r = Transform { mesh: Mesh { tris: out }, projection_matrix: self.projection_matrix };
        proof {
            assert(r.mesh.model() =~= self.mesh.model().map(
                |i: int, t: TriModel| tri_apply_mat(t, *m),
            ));
        }
        r
    }

    /// Rotate the mesh about the x-axis, given the cosine and sine of the
    /// angle in fixed point. Keeps the triangle count and every luminance.
    pub fn rotate_x(self, cos: i64, sin: i64) -> (r: Transform)
        requires
            self.mesh.dim_is(3),
            self.mesh.coords_in_range(FX_LIM as int),
            -FX_ONE <= cos <= FX_ONE,
            -FX_ONE <= sin <= FX_ONE,
        ensures
            r.projection_matrix == self.projection_matrix,
            r.mesh.model() == self.mesh.model().map(
                |i: int, t: TriModel| tri_rot_x(t, cos as int, sin as int),
            ),
    {
        let m = generate_x_rotation_matrix(cos, sin);
        let r = self.apply_matrix(&m);
        proof {
            assert forall|i: int| 0 <= i < self.mesh.model().len() implies #[trigger] r.mesh.model()[i]
                == tri_rot_x(self.mesh.model()[i], cos as int, sin as int) by {
                let t = self.mesh.model()[i];
                assert(r.mesh.model()[i] == tri_apply_mat(t, m));
                assert forall|j: int| 0 <= j < t.verts.len() implies #[trigger] tri_apply_mat(
                    t,
                    m,
                ).verts[j] == rot_x_s(cos as int, sin as int, t.verts[j]) by {
                    assert(self.mesh.tris@[i].dim_is(3));
                    assert(t.verts[j] == self.mesh.tris@[i].vecs@[j]@);
                    lemma_rot_x_apply(m, cos as int, sin as int, t.verts[j]);
                }
                assert(tri_apply_mat(t, m).verts =~= tri_rot_x(
                    t,
                    cos as int,
                    sin as int,
                ).verts);
            }
            assert(r.mesh.model() =~= self.mesh.model().map(
                |i: int, t: TriModel| tri_rot_x(t, cos as int, sin as int),
            ));
        }
        r
    }

    /// Rotate the mesh about the y-axis, given the cosine and sine of the
    /// angle in fixed point. Keeps the triangle count and every luminance.
    pub fn rotate_y(self, cos: i64, sin: i64) -> (r: Transform)
        requires
            self.mesh.dim_is(3),
            self.mesh.coords_in_range(FX_LIM as int),
            -FX_ONE <= cos <= FX_ONE,
            -FX_ONE <= sin <= FX_ONE,
        ensures
            r.projection_matrix == self.projection_matrix,
            r.mesh.model() == self.mesh.model().map(
                |i: int, t: TriModel| tri_rot_y(t, cos as int, sin as int),
            ),
    {
        let m = generate_y_rotation_matrix(cos, sin);
        let r = self.apply_matrix(&m);
        proof {
            assert forall|i: int| 0 <= i < self.mesh.model().len() implies #[trigger] r.mesh.model()[i]
                == tri_rot_y(self.mesh.model()[i], cos as int, sin as int) by {
                let t = self.mesh.model()[i];
                assert(r.mesh.model()[i] == tri_apply_mat(t, m));
                assert forall|j: int| 0 <= j < t.verts.len() implies #[trigger] tri_apply_mat(
                    t,
                    m,
                ).verts[j] == rot_y_s(cos as int, sin as int, t.verts[j]) by {
                    assert(self.mesh.tris@[i].dim_is(3));
                    assert(t.verts[j] == self.mesh.tris@[i].vecs@[j]@);
                    lemma_rot_y_apply(m, cos as int, sin as int, t.verts[j]);
                }
                assert(tri_apply_mat(t, m).verts =~= tri_rot_y(
                    t,
                    cos as int,
                    sin as int,
                ).verts);
            }
            assert(r.mesh.model() =~= self.mesh.model().map(
                |i: int, t: TriModel| tri_rot_y(t, cos as int, sin as int),
            ));
        }
        r
    }

    /// Rotate the mesh about the z-axis, given the cosine and sine of the
    /// angle in fixed point. Keeps the triangle count and every luminance.
    pub fn rotate_z(self, cos: i64, sin: i64) -> (r: Transform)
        requires
            self.mesh.dim_is(3),
            self.mesh.coords_in_range(FX_LIM as int),
            -FX_ONE <= cos <= FX_ONE,
            -FX_ONE <= sin <= FX_ONE,
        ensures
            r.projection_matrix == self.projection_matrix,
            r.mesh.model() == self.mesh.model().map(
                |i: int, t: TriModel| tri_rot_z(t, cos as int, sin as int),
            ),
    {
        let m = generate_z_rotation_matrix(cos, sin);
        let r = self.apply_matrix(&m);
        proof {
            assert forall|i: int| 0 <= i < self.mesh.model().len() implies #[trigger] r.mesh.model()[i]
                == tri_rot_z(self.mesh.model()[i], cos as int, sin as int) by {
                let t = self.mesh.model()[i];
                assert(r.mesh.model()[i] == tri_apply_mat(t, m));
                assert forall|j: int| 0 <= j < t.verts.len() implies #[trigger] tri_apply_mat(
                    t,
                    m,
                ).verts[j] == rot_z_s(cos as int, sin as int, t.verts[j]) by {
                    assert(self.mesh.tris@[i].dim_is(3));
                    assert(t.verts[j] == self.mesh.tris@[i].vecs@[j]@);
                    lemma_rot_z_apply(m, cos as int, sin as int, t.verts[j]);
                }
                assert(tri_apply_mat(t, m).verts =~= tri_rot_z(
                    t,
                    cos as int,
                    sin as int,
                ).verts);
            }
            assert(r.mesh.model() =~= self.mesh.model().map(
                |i: int, t: TriModel| tri_rot_z(t, cos as int, sin as int),
            ));
        }
        r
    }

    /// Remove every triangle that faces away from the camera: a triangle
    /// is kept exactly when its normal, dotted with the ray from the camera
    /// to its first vertex, is strictly negative. Never adds triangles.
    pub fn normalize_filter(self, camera: &Vector) -> (r: Transform)
        requires
            self.mesh.dim_is(3),
            self.mesh.coords_in_range(FX_GEOM as int),
            camera@.len() == 3,
            in_range(camera@, FX_GEOM as int),
            forall|i: int|
                0 <= i < self.mesh.model().len() ==> 0 < sum_sq(
                    cross_raw((#[trigger] self.mesh.model()[i]).verts),
                ),
        ensures
            r.projection_matrix == self.projection_matrix,
            r.mesh.model() == self.mesh.model().filter(|t: TriModel| keeps(t, camera@)),
            r.mesh.model().len() <= self.mesh.model().len(),
    {
        let n: usize = self.mesh.tris.len();
        let mut out: Vec<Triangle> = Vec::new();
        let mut i: usize = 0;
        while i < n
            invariant
                i <= n,
                n == self.mesh.tris@.len(),
                self.mesh.dim_is(3),
                self.mesh.coords_in_range(FX_GEOM as int),
                camera@.len() == 3,
                in_range(camera@, FX_GEOM as int),
                forall|k: int|
                    0 <= k < self.mesh.model().len() ==> 0 < sum_sq(
                        cross_raw((#[trigger] self.mesh.model()[k]).verts),
                    ),
                out@.map(|k: int, t: Triangle| t.model()) =~= self.mesh.model().subrange(
                    0,
                    i as int,
                ).filter(|t: TriModel| keeps(t, camera@)),
            decreases n - i,
        {
            let t = &self.mesh.tris[i];
            proof {
                assert(self.mesh.model()[i as int] == t.model());
                lemma_cross_raw_in_bounds(*t);
                lemma_normalize_in_range(cross_raw(t.model().verts));
            }
            let nv = t.normal();
            proof {
                assert(t.model().verts[0] == t.vecs@[0]@);
                assert forall|l: int| 0 <= l < nv@.len() implies -(FX_LIM as int)
                    <= #[trigger] nv@[l] <= FX_LIM as int by {
                    assert(-(FX_ONE as int) <= nv@[l] <= FX_ONE as int);
                }
            }
            let d = t.vecs[0].sub(camera);
            proof {
                assert forall|l: int| 0 <= l < d@.len() implies -(FX_LIM as int) <= #[trigger] d@[l]
                    <= FX_LIM as int by {
                    assert(d@[l] == t.vecs@[0]@[l] - camera@[l]);
                    assert(-(FX_GEOM as int) <= t.vecs@[0]@[l] <= FX_GEOM as int);
                    assert(-(FX_GEOM as int) <= camera@[l] <= FX_GEOM as int);
                }
            }
            let dv = nv.dot(&d);
            let ghost prev = out@.map(|k: int, t: Triangle| t.model());
            proof {
                lemma_filter_step(self.mesh.model(), |t: TriModel| keeps(t, camera@), i as int);
            }
            if dv < 0 {
                out.push(t.clone());
                proof {
                    assert(out@.map(|k: int, t: Triangle| t.model()) =~= prev.push(t.model()));
                    assert(keeps(t.model(), camera@));
                }
            } else {
                proof {
                    assert(!keeps(t.model(), camera@));
                }
            }
            i = i + 1;
        }
        let r = Transform { mesh: Mesh { tris: out }, projection_matrix: self.projection_matrix };
        proof {
            assert(self.mesh.model().subrange(0, n as int) =~= self.mesh.model());
            assert(r.mesh.model() =~= self.mesh.model().filter(|t: TriModel| keeps(t, camera@)));
            self.mesh.model().lemma_filter_len(|t: TriModel| keeps(t, camera@));
        }
        r
    }

    /// Apply luminance to the triangles within the mesh: each triangle's
    /// luminance becomes the dot product of its normal with the light
    /// direction. Keeps the triangle count and every vertex.
    pub fn apply_luminance(self, light: &Vector) -> (r: Transform)
        requires
            self.mesh.dim_is(3),
            self.mesh.coords_in_range(FX_GEOM as int),
            light@.len() == 3,
            in_range(light@, FX_LIM as int),
            forall|i: int|
                0 <= i < self.mesh.model().len() ==> 0 < sum_sq(
                    cross_raw((#[trigger] self.mesh.model()[i]).verts),
                ),
        ensures
            r.projection_matrix == self.projection_matrix,
            r.mesh.model() == self.mesh.model().map(|i: int, t: TriModel| tri_lit(t, light@)),
    {
        let n: usize = self.mesh.tris.len();
        let mut out: Vec<Triangle> = Vec::new();
        let mut i: usize = 0;
        while i < n
            invariant
                i <= n,
                n == self.mesh.tris@.len(),
                self.mesh.dim_is(3),
                self.mesh.coords_in_range(FX_GEOM as int),
                light@.len() == 3,
                in_range(light@, FX_LIM as int),
                forall|k: int|
                    0 <= k < self.mesh.model().len() ==> 0 < sum_sq(
                        cross_raw((#[trigger] self.mesh.model()[k]).verts),
                    ),
                out@.len() == i,
                forall|k: int| 0 <= k < i ==> (#[trigger] out@[k]).model() == tri_lit(
                    self.mesh.model()[k],
                    light@,
                ),
            decreases n - i,
        {
            let t = &self.mesh.tris[i];
            proof {
                assert(self.mesh.model()[i as int] == t.model());
                lemma_cross_raw_in_bounds(*t);
                lemma_normalize_in_range(cross_raw(t.model().verts));
            }
            let nv = t.normal();
            proof {
                assert forall|l: int| 0 <= l < nv@.len() implies -(FX_LIM as int)
                    <= #[trigger] nv@[l] <= FX_LIM as int by {
                    assert(-(FX_ONE as int) <= nv@[l] <= FX_ONE as int);
                }
            }
            let lum: i64 = nv.dot(light);
            let mut nt = t.clone();
            nt.set_luminance(lum);
            proof {
                assert(nt.model().verts == t.model().verts);
            }
            out.push(nt);
            i = i + 1;
        }
        let r = Transform { mesh: Mesh { tris: out }, projection_matrix: self.projection_matrix };
        proof {
            assert(r.mesh.model() =~= self.mesh.model().map(
                |i: int, t: TriModel| tri_lit(t, light@),
            ));
        }
        r
    }

    /// Project the mesh from 3D space into 2D space: take every vertex
    /// through the projection matrix, with the perspective division, and
    /// keep only the first two coordinates. Keeps the triangle count and
    /// every luminance.
    pub fn project(&self) -> (r: Transform)
        requires
            self.mesh.dim_is(3),
            self.mesh.coords_in_range(FX_LIM as int),
            self.projection_matrix.wf(),
            self.projection_matrix.rows == 4,
            self.projection_matrix.cols == 4,
            self.projection_matrix.entries_in_range(FX_LIM as int),
        ensures
            r.projection_matrix.rows == self.projection_matrix.rows,
            r.projection_matrix.cols == self.projection_matrix.cols,
            r.projection_matrix.elems@ == self.projection_matrix.elems@,
            r.mesh.model() == self.mesh.model().map(
                |i: int, t: TriModel| tri_project(t, self.projection_matrix),
            ),
    {
        let n: usize = self.mesh.tris.len();
        let mut out: Vec<Triangle> = Vec::new();
        let mut i: usize = 0;
        while i < n
            invariant
                i <= n,
                n == self.mesh.tris@.len(),
                self.mesh.dim_is(3),
                self.mesh.coords_in_range(FX_LIM as int),
                self.projection_matrix.wf(),
                self.projection_matrix.rows == 4,
                self.projection_matrix.cols == 4,
                self.projection_matrix.entries_in_range(FX_LIM as int),
                out@.len() == i,
                forall|k: int| 0 <= k < i ==> (#[trigger] out@[k]).model() == tri_project(
                    self.mesh.model()[k],
                    self.projection_matrix,
                ),
            decreases n - i,
        {
            let t = &self.mesh.tris[i];
            let mut vecs: Vec<Vector> = Vec::new();
            let mut j: usize = 0;
            while j < 3
                invariant
                    j <= 3,
                    t.dim_is(3),
                    t.coords_in_range(FX_LIM as int),
                    self.projection_matrix.wf(),
                    self.projection_matrix.rows == 4,
                    self.projection_matrix.cols == 4,
                    self.projection_matrix.entries_in_range(FX_LIM as int),
                    vecs@.len() == j,
                    forall|l: int| 0 <= l < j ==> (#[trigger] vecs@[l])@ == seq![
                        mat4_apply(self.projection_matrix, t.model().verts[l])[0],
                        mat4_apply(self.projection_matrix, t.model().verts[l])[1],
                    ],
                decreases 3 - j,
            {
                proof {
                    assert(t.model().verts[j as int] == t.vecs@[j as int]@);
                }
                let u = self.projection_matrix.mul_vec3(&t.vecs[j]);
                proof {
                    assert(u.coordinates@.len() == u@.len());
                    assert(u@.len() == 3);
                }
                let mut flat: Vec<i64> = Vec::new();
                flat.push(u.coordinates[0]);
                flat.push(u.coordinates[1]);
                let fv = Vector { coordinates: flat };
                proof {
                    assert(u@[0] == u.coordinates@[0] as int);
                    assert(u@[1] == u.coordinates@[1] as int);
                    assert(fv@ =~= seq![
                        mat4_apply(self.projection_matrix, t.model().verts[j as int])[0],
                        mat4_apply(self.projection_matrix, t.model().verts[j as int])[1],
                    ]);
                }
                vecs.push(fv);
                j = j + 1;
            }
            let nt = Triangle { vecs, lum: t.lum };
            proof {
                assert(nt.model().verts =~= tri_project(t.model(), self.projection_matrix).verts);
            }
            out.push(nt);
            i = i + 1;
        }
        let r = Transform {
            mesh: Mesh { tris: out },
            projection_matrix: self.projection_matrix.clone(),
        };
        proof {
            assert(r.mesh.model() =~= self.mesh.model().map(
                |i: int, t: TriModel| tri_project(t, self.projection_matrix),
            ));
        }
        r
    }
}

/// The coordinates a triangle's unnormalized normal can reach, when its
/// own coordinates stay within the geometry range: the cross product's
/// squared magnitude stays strictly inside the machine range.
proof fn lemma_cross_raw_in_bounds(t: Triangle)
    requires
        t.dim_is(3),
        t.coords_in_range(FX_GEOM as int),
        0 < sum_sq(cross_raw(t.model().verts)),
    ensures
        0 < sum_sq(cross_raw(t.model().verts)) <= i64::MAX,
{
    crate::triangle::lemma_cross_raw_bound(t);
}

/// The result of the x-axis rotation, written out: the x coordinate is
/// kept, and the y and z coordinates turn through the angle.
pub open spec fn rot_x_s(c: int, s: int, v: Seq<int>) -> Seq<int> {
    seq![
        v[0],
        crate::fixed::fxm(v[1], c) + crate::fixed::fxm(v[2], -s),
        crate::fixed::fxm(v[1], s) + crate::fixed::fxm(v[2], c),
    ]
}

/// The result of the y-axis rotation, written out.
pub open spec fn rot_y_s(c: int, s: int, v: Seq<int>) -> Seq<int> {
    seq![
        crate::fixed::fxm(v[0], c) + crate::fixed::fxm(v[2], s),
        v[1],
        crate::fixed::fxm(v[0], -s) + crate::fixed::fxm(v[2], c),
    ]
}

/// The result of the z-axis rotation, written out.
pub open spec fn rot_z_s(c: int, s: int, v: Seq<int>) -> Seq<int> {
    seq![
        crate::fixed::fxm(v[0], c) + crate::fixed::fxm(v[1], -s),
        crate::fixed::fxm(v[0], s) + crate::fixed::fxm(v[1], c),
        v[2],
    ]
}

/// A triangle rotated about the x-axis.
pub open spec fn tri_rot_x(t: TriModel, c: int, s: int) -> TriModel {
    TriModel { verts: Seq::new(t.verts.len(), |j: int| rot_x_s(c, s, t.verts[j])), lum: t.lum }
}

/// A triangle rotated about the y-axis.
pub open spec fn tri_rot_y(t: TriModel, c: int, s: int) -> TriModel {
    TriModel { verts: Seq::new(t.verts.len(), |j: int| rot_y_s(c, s, t.verts[j])), lum: t.lum }
}

/// A triangle rotated about the z-axis.
pub open spec fn tri_rot_z(t: TriModel, c: int, s: int) -> TriModel {
    TriModel { verts: Seq::new(t.verts.len(), |j: int| rot_z_s(c, s, t.verts[j])), lum: t.lum }
}

/// Taking a vertex through the x rotation matrix gives exactly the
/// written-out rotation: the homogeneous row is the identity's, so the
/// perspective division divides by one whole unit and vanishes.
proof fn lemma_rot_x_apply(m: Matrix, c: int, s: int, v: Seq<int>)
    requires
        v.len() == 3,
        m.rows == 4,
        m.cols == 4,
        forall|x: int, y: int|
            0 <= x < 4 && 0 <= y < 4 ==> #[trigger] m.at(x, y) == x_rot_entry(c, s, x, y),
    ensures
        mat4_apply(m, v) == rot_x_s(c, s, v),
{
    crate::fixed::lemma_fxm_one(v[0]);
    crate::fixed::lemma_fxm_one(v[1]);
    crate::fixed::lemma_fxm_one(v[2]);
    let x = v[0];
    let y = crate::fixed::fxm(v[1], c) + crate::fixed::fxm(v[2], -s);
    let z = crate::fixed::fxm(v[1], s) + crate::fixed::fxm(v[2], c);
    crate::fixed::lemma_tdiv_exact(x, FX_ONE as int);
    crate::fixed::lemma_tdiv_exact(y, FX_ONE as int);
    crate::fixed::lemma_tdiv_exact(z, FX_ONE as int);
    assert(mat4_apply(m, v) =~= rot_x_s(c, s, v));
}

/// Taking a vertex through the y rotation matrix gives exactly the
/// written-out rotation.
proof fn lemma_rot_y_apply(m: Matrix, c: int, s: int, v: Seq<int>)
    requires
        v.len() == 3,
        m.rows == 4,
        m.cols == 4,
        forall|x: int, y: int|
            0 <= x < 4 && 0 <= y < 4 ==> #[trigger] m.at(x, y) == y_rot_entry(c, s, x, y),
    ensures
        mat4_apply(m, v) == rot_y_s(c, s, v),
{
    crate::fixed::lemma_fxm_one(v[0]);
    crate::fixed::lemma_fxm_one(v[1]);
    crate::fixed::lemma_fxm_one(v[2]);
    let x = crate::fixed::fxm(v[0], c) + crate::fixed::fxm(v[2], s);
    let y = v[1];
    let z = crate::fixed::fxm(v[0], -s) + crate::fixed::fxm(v[2], c);
    crate::fixed::lemma_tdiv_exact(x, FX_ONE as int);
    crate::fixed::lemma_tdiv_exact(y, FX_ONE as int);
    crate::fixed::lemma_tdiv_exact(z, FX_ONE as int);
    assert(mat4_apply(m, v) =~= rot_y_s(c, s, v));
}

/// Taking a vertex through the z rotation matrix gives exactly the
/// written-out rotation.
proof fn lemma_rot_z_apply(m: Matrix, c: int, s: int, v: Seq<int>)
    requires
        v.len() == 3,
        m.rows == 4,
        m.cols == 4,
        forall|x: int, y: int|
            0 <= x < 4 && 0 <= y < 4 ==> #[trigger] m.at(x, y) == z_rot_entry(c, s, x, y),
    ensures
        mat4_apply(m, v) == rot_z_s(c, s, v),
{
    crate::fixed::lemma_fxm_one(v[0]);
    crate::fixed::lemma_fxm_one(v[1]);
    crate::fixed::lemma_fxm_one(v[2]);
    let x = crate::fixed::fxm(v[0], c) + crate::fixed::fxm(v[1], -s);
    let y = crate::fixed::fxm(v[0], s) + crate::fixed::fxm(v[1], c);
    let z = v[2];
    crate::fixed::lemma_tdiv_exact(x, FX_ONE as int);
    crate::fixed::lemma_tdiv_exact(y, FX_ONE as int);
    crate::fixed::lemma_tdiv_exact(z, FX_ONE as int);
    assert(mat4_apply(m, v) =~= rot_z_s(c, s, v));
}

/// A planar rotation is an isometry: the exact rotated coordinates of a
/// point `(x, y)` have the squared length of the original ones, scaled by
/// the squared length of the pair `(c, s)`. For a cosine and sine pair,
/// whose squared length is one whole unit squared, this says the rotation
/// preserves length, up to the fixed-point scale. Stated over the exact
/// products, before the truncating rescale.
pub proof fn lemma_rotation_preserves_sq_length(x: int, y: int, c: int, s: int)
    ensures
        (x * c - y * s) * (x * c - y * s) + (x * s + y * c) * (x * s + y * c) == (x * x + y * y) * (
        c * c + s * s),
{
    let p = x * c;
    let q = y * s;
    let u = x * s;
    let w = y * c;
    assert((p - q) * (p - q) == p * p - 2 * (p * q) + q * q) by (nonlinear_arith);
    assert((u + w) * (u + w) == u * u + 2 * (u * w) + w * w) by (nonlinear_arith);
    assert(p * q == u * w) by (nonlinear_arith)
        requires
            p == x * c && q == y * s && u == x * s && w == y * c,
    ;
    assert(p * p == (x * x) * (c * c)) by (nonlinear_arith)
        requires
            p == x * c,
    ;
    assert(q * q == (y * y) * (s * s)) by (nonlinear_arith)
        requires
            q == y * s,
    ;
    assert(u * u == (x * x) * (s * s)) by (nonlinear_arith)
        requires
            u == x * s,
    ;
    assert(w * w == (y * y) * (c * c)) by (nonlinear_arith)
        requires
            w == y * c,
    ;
    assert((x * x + y * y) * (c * c + s * s) == (x * x) * (c * c) + (x * x) * (s * s) + (y * y) * (
    c * c) + (y * y) * (s * s)) by (nonlinear_arith);
}

} // verus!
