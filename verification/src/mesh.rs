//! Meshes: ordered sequences of triangles.
//!
//! The order defines the paint order for the rasterizer, which has no depth
//! test: later triangles always paint over earlier ones.

use vstd::prelude::*;
use crate::triangle::{TriModel, Triangle};

verus! {

/// An object mesh comprised of triangles.
pub struct Mesh {
    /// The triangles making up the mesh.
    pub tris: Vec<Triangle>,
}

// Mesh implementation
impl Mesh {
    /// The mesh's mathematical content: one model per triangle, in order.
    pub open spec fn model(self) -> Seq<TriModel> {
        self.tris@.map(|i: int, t: Triangle| t.model())
    }

    /// Every triangle holds three vertices of dimension `n`.
    pub open spec fn dim_is(self, n: int) -> bool {
        forall|i: int| 0 <= i < self.tris@.len() ==> (#[trigger] self.tris@[i]).dim_is(n)
    }

    /// Every coordinate of every triangle lies within `bound` of zero.
    pub open spec fn coords_in_range(self, bound: int) -> bool {
        forall|i: int|
            0 <= i < self.tris@.len() ==> (#[trigger] self.tris@[i]).coords_in_range(bound)
    }

    /// Create a new mesh from a collection of triangles.
    pub fn new(tris: Vec<Triangle>) -> (r: Mesh)
        ensures
            r.tris@ == tris@,
    {
        Mesh { tris }
    }

    /// Get the triangles making up the mesh.
    pub fn triangles(&self) -> (r: &Vec<Triangle>)
        ensures
            r@ == self.tris@,
    {
        &self.tris
    }

    /// The number of triangles in the mesh.
    pub fn len(&self) -> (r: usize)
        ensures
            r == self.model().len(),
    {
        self.tris.len()
    }
}

// Mesh transformation
impl Mesh {
    /// Transform each triangle in the mesh with the given map, in order:
    /// the result holds exactly one triangle per input triangle, so every
    /// transformation keeps the triangle count.
    pub fn transform<F: Fn(&Triangle) -> Triangle>(&self, f: F) -> (r: Mesh)
        requires
            forall|k: int| 0 <= k < self.tris@.len() ==> call_requires(f, (&self.tris@[k],)),
        ensures
            r.model().len() == self.model().len(),
            forall|k: int|
                0 <= k < r.tris@.len() ==> call_ensures(f, (&self.tris@[k],), #[trigger] r.tris@[k]),
    {
        let n: usize = self.tris.len();
        let mut out: Vec<Triangle> = Vec::new();
        let mut i: usize = 0;
        while i < n
            invariant
                i <= n,
                n == self.tris@.len(),
                out@.len() == i,
                forall|k: int| 0 <= k < self.tris@.len() ==> call_requires(f, (&self.tris@[k],)),
                forall|k: int| 0 <= k < i ==> call_ensures(f, (&self.tris@[k],), #[trigger] out@[k]),
            decreases n - i,
        {
            out.push(f(&self.tris[i]));
            i = i + 1;
        }
        Mesh { tris: out }
    }
}

// Cloning a mesh copies its triangles.
impl Clone for Mesh {
    /// Clone the mesh, keeping every triangle in order.
    fn clone(&self) -> (r: Self)
        ensures
            r.model() == self.model(),
            r.tris@.len() == self.tris@.len(),
            forall|i: int| 0 <= i < self.tris@.len() ==> (#[trigger] r.tris@[i]).model()
                == self.tris@[i].model(),
    {
        let n: usize = self.tris.len();
        let mut out: Vec<Triangle> = Vec::new();
        let mut i: usize = 0;
        while i < n
            invariant
                i <= n,
                n == self.tris@.len(),
                out@.len() == i,
                forall|j: int| 0 <= j < i ==> (#[trigger] out@[j]).model()
                    == self.tris@[j].model(),
            decreases n - i,
        {
            out.push(self.tris[i].clone());
            i = i + 1;
        }
        let r = Mesh { tris: out };
        proof {
            assert(r.model() =~= self.model());
        }
        r
    }
}

} // verus!
