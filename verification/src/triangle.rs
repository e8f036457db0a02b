//! Triangles: exactly three vectors plus one fixed-point luminance scalar.
//!
//! Vertex order matters: it defines the winding used for the normal's
//! direction, and reversing the order flips the normal.

use vstd::prelude::*;
use crate::fixed::{fxm, lemma_fxm_bound, lemma_mul_bound, FX_GEOM, FX_LIM, FX_ONE};
use crate::vector::{
    cross_s, in_range, lemma_sum_sq3, normalize_s, sub_s, sum_sq, Vector,
};

verus! {

/// The mathematical content of a triangle: three coordinate sequences and
/// a luminance value.
pub ghost struct TriModel {
    /// The coordinates of the three vertices, in winding order.
    pub verts: Seq<Seq<int>>,
    /// The luminance, one whole unit meaning fully lit.
    pub lum: int,
}

/// The unnormalized normal of a triangle: the cross product of the two
/// edges leaving the first vertex, in winding order.
pub open spec fn cross_raw(verts: Seq<Seq<int>>) -> Seq<int> {
    cross_s(sub_s(verts[1], verts[0]), sub_s(verts[2], verts[0]))
}

/// The unit normal of a triangle: its unnormalized normal, normalized.
pub open spec fn normal_s(verts: Seq<Seq<int>>) -> Seq<int> {
    normalize_s(cross_raw(verts))
}

/// A triangle comprised of three vectors and a luminance.
pub struct Triangle {
    /// The vectors making up the triangle.
    pub vecs: Vec<Vector>,
    /// The luminance of the triangle; one whole unit means fully lit.
    pub lum: i64,
}

// Triangle implementation
impl Triangle {
    /// A triangle always holds exactly three vertices.
    pub open spec fn wf(self) -> bool {
        self.vecs@.len() == 3
    }

    /// The triangle holds three vertices, each of dimension `n`.
    pub open spec fn dim_is(self, n: int) -> bool {
        self.wf() && forall|j: int| 0 <= j < 3 ==> (#[trigger] self.vecs@[j])@.len() == n
    }

    /// Every coordinate of every vertex lies within `bound` of zero.
    pub open spec fn coords_in_range(self, bound: int) -> bool {
        forall|j: int| 0 <= j < self.vecs@.len() ==> in_range((#[trigger] self.vecs@[j])@, bound)
    }

    /// The triangle's mathematical content.
    pub open spec fn model(self) -> TriModel {
        TriModel { verts: self.vecs@.map(|i: int, v: Vector| v@), lum: self.lum as int }
    }

    /// Create a new triangle from three vectors and a luminance.
    pub fn new(vecs: Vec<Vector>, lum: i64) -> (r: Triangle)
        requires
            vecs@.len() == 3,
        ensures
            r.wf(),
            r.model().verts == vecs@.map(|i: int, v: Vector| v@),
            r.model().lum == lum as int,
    {
        Triangle { vecs, lum }
    }

    /// Get the vectors making up the triangle.
    pub fn vectors(&self) -> (r: &Vec<Vector>)
        ensures
            r@ == self.vecs@,
    {
        &self.vecs
    }

    /// Get the luminance of the triangle.
    pub fn get_luminance(&self) -> (r: i64)
        ensures
            r == self.lum,
    {
        self.lum
    }

    /// Set the luminance of the triangle.
    pub fn set_luminance(&mut self, lum: i64)
        ensures
            final(self).vecs@ == old(self).vecs@,
            final(self).lum == lum,
    {
        self.lum = lum;
    }

    /// Get a copy of one of the vectors making up the triangle, or nothing
    /// if the index is out of range.
    pub fn get(&self, index: usize) -> (r: Option<Vector>)
        requires
            self.wf(),
        ensures
            index < 3 ==> (r matches Some(v) && v@ == self.model().verts[index as int]),
            index >= 3 ==> r is None,
    {
        if index < self.vecs.len() {
            Some(self.vecs[index].clone())
        } else {
            None
        }
    }

    /// Calculate the normal for the triangle: the normalized cross product
    /// of the two edges leaving the first vertex. Degenerate triangles,
    /// whose edges have a zero cross product, are excluded since the zero
    /// vector cannot be normalized.
    pub fn normal(&self) -> (r: Vector)
        requires
            self.dim_is(3),
            self.coords_in_range(FX_GEOM as int),
            sum_sq(cross_raw(self.model().verts)) > 0,
        ensures
            r@ == normal_s(self.model().verts),
    {
        proof {
            assert(self.model().verts[0] == self.vecs@[0]@);
            assert(self.model().verts[1] == self.vecs@[1]@);
            assert(self.model().verts[2] == self.vecs@[2]@);
        }
        let a = self.vecs[1].sub(&self.vecs[0]);
        let b = self.vecs[2].sub(&self.vecs[0]);
        proof {
            lemma_edge_bounds(self.vecs@[1]@, self.vecs@[0]@);
            lemma_edge_bounds(self.vecs@[2]@, self.vecs@[0]@);
        }
        let c = a.cross(&b);
        proof {
            lemma_cross_sum_sq_bound(a@, b@);
        }
        c.normalize()
    }
}

// Triangle transformation
impl Triangle {
    /// Transform each vector in the triangle with the given map, keeping
    /// the luminance.
    pub fn transform<F: Fn(&Vector) -> Vector>(&self, f: F) -> (r: Triangle)
        requires
            self.wf(),
            forall|k: int| 0 <= k < 3 ==> call_requires(f, (&self.vecs@[k],)),
        ensures
            r.wf(),
            r.lum == self.lum,
            forall|k: int| 0 <= k < 3 ==> call_ensures(f, (&self.vecs@[k],), #[trigger] r.vecs@[k]),
    {
        let n: usize = self.vecs.len();
        let mut out: Vec<Vector> = Vec::new();
        let mut i: usize = 0;
        while i < n
            invariant
                i <= n,
                n == 3,
                self.vecs@.len() == 3,
                out@.len() == i,
                forall|k: int| 0 <= k < 3 ==> call_requires(f, (&self.vecs@[k],)),
                forall|k: int| 0 <= k < i ==> call_ensures(f, (&self.vecs@[k],), #[trigger] out@[k]),
            decreases n - i,
        {
            out.push(f(&self.vecs[i]));
            i = i + 1;
        }
        Triangle { vecs: out, lum: self.lum }
    }
}

/// The difference of two vectors of geometry-range coordinates stays within
/// twice the geometry range.
proof fn lemma_edge_bounds(a: Seq<int>, b: Seq<int>)
    requires
        a.len() == b.len(),
        in_range(a, FX_GEOM as int),
        in_range(b, FX_GEOM as int),
    ensures
        in_range(sub_s(a, b), 2 * FX_GEOM as int),
        in_range(sub_s(a, b), FX_LIM as int),
{
    assert forall|i: int| 0 <= i < sub_s(a, b).len() implies -(2 * FX_GEOM as int)
        <= #[trigger] sub_s(a, b)[i] <= 2 * FX_GEOM as int by {
        assert(-(FX_GEOM as int) <= a[i] <= FX_GEOM as int);
        assert(-(FX_GEOM as int) <= b[i] <= FX_GEOM as int);
    }
    assert forall|i: int| 0 <= i < sub_s(a, b).len() implies -(FX_LIM as int)
        <= #[trigger] sub_s(a, b)[i] <= FX_LIM as int by {
        assert(-(2 * FX_GEOM as int) <= sub_s(a, b)[i] <= 2 * FX_GEOM as int);
    }
}

/// The sum of squares of the cross product of two edge vectors stays well
/// inside the machine range when the edges come from geometry-range
/// coordinates.
proof fn lemma_cross_sum_sq_bound(a: Seq<int>, b: Seq<int>)
    requires
        a.len() == 3,
        b.len() == 3,
        in_range(a, 2 * FX_GEOM as int),
        in_range(b, 2 * FX_GEOM as int),
    ensures
        sum_sq(cross_s(a, b)) <= i64::MAX,
{
    let m: int = 2 * FX_GEOM as int;
    assert(m * m == 17592186044416) by (nonlinear_arith)
        requires
            m == 4194304,
    ;
    let pb: int = (m * m) / (FX_ONE as int);
    assert(pb == 268435456);
    let c = cross_s(a, b);
    assert forall|i: int, j: int| 0 <= i < 3 && 0 <= j < 3 implies -pb <= #[trigger] fxm(
        a[i],
        b[j],
    ) <= pb by {
        lemma_fxm_bound(a[i], b[j], m);
    }
    let cb: int = 2 * pb;
    assert(c[0] == fxm(a[1], b[2]) - fxm(a[2], b[1]));
    assert(c[1] == fxm(a[2], b[0]) - fxm(a[0], b[2]));
    assert(c[2] == fxm(a[0], b[1]) - fxm(a[1], b[0]));
    assert(-cb <= c[0] <= cb);
    assert(-cb <= c[1] <= cb);
    assert(-cb <= c[2] <= cb);
    lemma_mul_bound(c[0], c[0], cb, cb);
    lemma_mul_bound(c[1], c[1], cb, cb);
    lemma_mul_bound(c[2], c[2], cb, cb);
    lemma_sum_sq3(c);
    assert(sum_sq(c) == c[0] * c[0] + c[1] * c[1] + c[2] * c[2]);
    assert(cb * cb == 288230376151711744) by (nonlinear_arith)
        requires
            cb == 536870912,
    ;
}

/// When a triangle's coordinates stay within the geometry range, the sum
/// of squares of its unnormalized normal stays inside the machine range.
pub proof fn lemma_cross_raw_bound(t: Triangle)
    requires
        t.dim_is(3),
        t.coords_in_range(FX_GEOM as int),
    ensures
        sum_sq(cross_raw(t.model().verts)) <= i64::MAX,
{
    assert(t.model().verts[0] == t.vecs@[0]@);
    assert(t.model().verts[1] == t.vecs@[1]@);
    assert(t.model().verts[2] == t.vecs@[2]@);
    lemma_edge_bounds(t.vecs@[1]@, t.vecs@[0]@);
    lemma_edge_bounds(t.vecs@[2]@, t.vecs@[0]@);
    lemma_cross_sum_sq_bound(
        sub_s(t.vecs@[1]@, t.vecs@[0]@),
        sub_s(t.vecs@[2]@, t.vecs@[0]@),
    );
}

// Cloning a triangle copies its vertices and luminance.
impl Clone for Triangle {
    /// Clone the triangle, keeping every vertex and the luminance.
    fn clone(&self) -> (r: Self)
        ensures
            r.model() == self.model(),
            r.vecs@.len() == self.vecs@.len(),
    {
        let n: usize = self.vecs.len();
        let mut out: Vec<Vector> = Vec::new();
        let mut i: usize = 0;
        while i < n
            invariant
                i <= n,
                n == self.vecs@.len(),
                out@.len() == i,
                forall|j: int| 0 <= j < i ==> (#[trigger] out@[j])@ == self.vecs@[j]@,
            decreases n - i,
        {
            out.push(self.vecs[i].clone());
            i = i + 1;
        }
        let r = Triangle { vecs: out, lum: self.lum };
        proof {
            assert(r.model().verts =~= self.model().verts);
        }
        r
    }
}

} // verus!
