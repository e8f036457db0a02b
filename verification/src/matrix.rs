//! Matrices: fixed-size 2D grids of fixed-point values, stored row-major.
//!
//! The one multiplication the pipeline needs is the homogeneous transform of
//! a 3D vector by a 4×4 matrix, including the perspective division by the
//! resulting `w` component (skipped when `w` is exactly zero).

use vstd::prelude::*;
use crate::fixed::{fx_div, fx_mul, fxd, fxm, FX_LIM, FX_ONE};
use crate::vector::{in_range, Vector};

verus! {

/// A 2D matrix of fixed-point values, indexed by an `(x, y)` pair where
/// `x` selects the row and `y` the column.
pub struct Matrix {
    /// The number of rows.
    pub rows: usize,
    /// The number of columns.
    pub cols: usize,
    /// The elements, row-major: entry `(x, y)` lives at `x * cols + y`.
    pub elems: Vec<i64>,
}

/// Positions in a row-major grid are in bounds and distinct per index pair.
proof fn lemma_grid_index(x: int, y: int, rows: int, cols: int)
    by (nonlinear_arith)
    requires
        0 <= x < rows,
        0 <= y < cols,
    ensures
        0 <= x * cols + y < rows * cols,
{
}

/// Distinct index pairs name distinct positions in a row-major grid.
proof fn lemma_grid_index_injective(x1: int, y1: int, x2: int, y2: int, cols: int)
    by (nonlinear_arith)
    requires
        0 <= y1 < cols,
        0 <= y2 < cols,
        0 <= x1,
        0 <= x2,
        x1 * cols + y1 == x2 * cols + y2,
    ensures
        x1 == x2 && y1 == y2,
{
}

/// The homogeneous transform of a 3D vector by a 4×4 matrix: a fixed-point
/// matrix product against `(v, 1)` followed by the perspective division by
/// the `w` component, skipped when `w` is exactly zero.
pub open spec fn mat4_apply(m: Matrix, v: Seq<int>) -> Seq<int> {
    let x = fxm(v[0], m.at(0, 0)) + fxm(v[1], m.at(1, 0)) + fxm(v[2], m.at(2, 0)) + m.at(3, 0);
    let y = fxm(v[0], m.at(0, 1)) + fxm(v[1], m.at(1, 1)) + fxm(v[2], m.at(2, 1)) + m.at(3, 1);
    let z = fxm(v[0], m.at(0, 2)) + fxm(v[1], m.at(1, 2)) + fxm(v[2], m.at(2, 2)) + m.at(3, 2);
    let w = fxm(v[0], m.at(0, 3)) + fxm(v[1], m.at(1, 3)) + fxm(v[2], m.at(2, 3)) + m.at(3, 3);
    if w != 0 {
        seq![fxd(x, w), fxd(y, w), fxd(z, w)]
    } else {
        seq![x, y, z]
    }
}

// Matrix implementation
impl Matrix {
    /// The element list covers exactly the declared grid.
    pub open spec fn wf(self) -> bool {
        self.elems@.len() == self.rows * self.cols
    }

    /// The element at `(x, y)`.
    pub open spec fn at(self, x: int, y: int) -> int {
        self.elems@[x * self.cols + y] as int
    }

    /// Every element lies within `bound` of zero.
    pub open spec fn entries_in_range(self, bound: int) -> bool {
        forall|x: int, y: int|
            0 <= x < self.rows && 0 <= y < self.cols ==> -bound <= #[trigger] self.at(x, y)
                <= bound
    }

    /// Create a matrix, filling it with a default value.
    pub fn fill(rows: usize, cols: usize, value: i64) -> (r: Matrix)
        requires
            rows * cols <= usize::MAX,
        ensures
            r.wf(),
            r.rows == rows,
            r.cols == cols,
            forall|x: int, y: int|
                0 <= x < rows && 0 <= y < cols ==> #[trigger] r.at(x, y) == value as int,
    {
        let mut elems: Vec<i64> = Vec::new();
        let n: usize = rows * cols;
        let mut i: usize = 0;
        while i < n
            invariant
                i <= n,
                elems@.len() == i,
                forall|k: int| 0 <= k < i ==> #[trigger] elems@[k] == value,
            decreases n - i,
        {
            elems.push(value);
            i = i + 1;
        }
        let r = Matrix { rows, cols, elems };
        proof {
            assert forall|x: int, y: int| 0 <= x < rows && 0 <= y < cols implies #[trigger] r.at(
                x,
                y,
            ) == value as int by {
                lemma_grid_index(x, y, rows as int, cols as int);
            }
        }
        r
    }

    /// Create a matrix, filling it with zero.
    pub fn new(rows: usize, cols: usize) -> (r: Matrix)
        requires
            rows * cols <= usize::MAX,
        ensures
            r.wf(),
            r.rows == rows,
            r.cols == cols,
            forall|x: int, y: int| 0 <= x < rows && 0 <= y < cols ==> #[trigger] r.at(x, y) == 0,
    {
        Matrix::fill(rows, cols, 0)
    }

    /// Create a square identity matrix: one whole unit on the diagonal,
    /// zero elsewhere.
    pub fn identity(n: usize) -> (r: Matrix)
        requires
            n * n <= usize::MAX,
        ensures
            r.wf(),
            r.rows == n,
            r.cols == n,
            forall|x: int, y: int|
                0 <= x < n && 0 <= y < n ==> #[trigger] r.at(x, y) == (if x == y {
                    FX_ONE as int
                } else {
                    0
                }),
    {
        let mut m = Matrix::fill(n, n, 0);
        let mut i: usize = 0;
        while i < n
            invariant
                i <= n,
                n * n <= usize::MAX,
                m.wf(),
                m.rows == n,
                m.cols == n,
                forall|x: int, y: int|
                    0 <= x < n && 0 <= y < n ==> #[trigger] m.at(x, y) == (if x == y && x < i {
                        FX_ONE as int
                    } else {
                        0
                    }),
            decreases n - i,
        {
            proof {
                lemma_grid_index(i as int, i as int, n as int, n as int);
            }
            let ghost before = m;
            let idx: usize = i * n + i;
            m.elems.set(idx, FX_ONE);
            proof {
                assert forall|x: int, y: int| 0 <= x < n && 0 <= y < n implies #[trigger] m.at(
                    x,
                    y,
                ) == (if x == y && x < i + 1 {
                    FX_ONE as int
                } else {
                    0
                }) by {
                    lemma_grid_index(x, y, n as int, n as int);
                    if x * n + y == i as int * n + i as int {
                        lemma_grid_index_injective(x, y, i as int, i as int, n as int);
                    } else {
                        assert(m.at(x, y) == before.at(x, y));
                    }
                }
            }
            i = i + 1;
        }
        m
    }

    /// Get the element at `(x, y)`, or nothing if the index lies outside
    /// the grid.
    pub fn get(&self, x: usize, y: usize) -> (r: Option<i64>)
        requires
            self.wf(),
        ensures
            x < self.rows && y < self.cols ==> (r matches Some(v) && v as int == self.at(
                x as int,
                y as int,
            )),
            !(x < self.rows && y < self.cols) ==> r is None,
    {
        if x < self.rows && y < self.cols {
            let len: usize = self.elems.len();
            proof {
                lemma_grid_index(x as int, y as int, self.rows as int, self.cols as int);
                assert(x as int * self.cols as int + y < len as int);
            }
            Some(self.elems[x * self.cols + y])
        } else {
            None
        }
    }

    /// Replace the element at `(x, y)`. Returns whether the index lay
    /// inside the grid.
    pub fn set(&mut self, x: usize, y: usize, value: i64) -> (r: bool)
        requires
            old(self).wf(),
        ensures
            final(self).wf(),
            final(self).rows == old(self).rows,
            final(self).cols == old(self).cols,
            r == (x < old(self).rows && y < old(self).cols),
            r ==> forall|a: int, b: int|
                0 <= a < old(self).rows && 0 <= b < old(self).cols ==> #[trigger] final(self).at(
                    a,
                    b,
                ) == (if a == x as int && b == y as int {
                    value as int
                } else {
                    old(self).at(a, b)
                }),
            !r ==> *final(self) == *old(self),
    {
        if x < self.rows && y < self.cols {
            let len: usize = self.elems.len();
            proof {
                lemma_grid_index(x as int, y as int, self.rows as int, self.cols as int);
                assert(x as int * self.cols as int + y < len as int);
            }
            let ghost before = *self;
            self.elems.set(x * self.cols + y, value);
            proof {
                assert forall|a: int, b: int|
                    0 <= a < self.rows && 0 <= b < self.cols implies #[trigger] self.at(a, b) == (
                if a == x as int && b == y as int {
                    value as int
                } else {
                    before.at(a, b)
                }) by {
                    lemma_grid_index(a, b, self.rows as int, self.cols as int);
                    if a * self.cols + b == x as int * self.cols + y as int {
                        lemma_grid_index_injective(a, b, x as int, y as int, self.cols as int);
                    }
                }
            }
            true
        } else {
            false
        }
    }

    /// Transform a 3D vector by this 4×4 matrix: multiply against the
    /// homogeneous column `(v, 1)`, then divide by the resulting `w`
    /// component unless it is exactly zero.
    pub fn mul_vec3(&self, rhs: &Vector) -> (r: Vector)
        requires
            self.wf(),
            self.rows == 4,
            self.cols == 4,
            rhs@.len() == 3,
            in_range(rhs@, FX_LIM as int),
            self.entries_in_range(FX_LIM as int),
        ensures
            r@ == mat4_apply(*self, rhs@),
    {
        let e = &self.elems;
        let v = &rhs.coordinates;
        proof {
            assert(rhs@[0] == v@[0] as int);
            assert(rhs@[1] == v@[1] as int);
            assert(rhs@[2] == v@[2] as int);
            assert forall|x: int, y: int| 0 <= x < 4 && 0 <= y < 4 implies -(FX_LIM as int)
                <= #[trigger] self.at(x, y) <= FX_LIM as int by {
                assert(self.entries_in_range(FX_LIM as int));
            }
            assert(self.at(0, 0) == e@[0] as int);
            assert(self.at(0, 1) == e@[1] as int);
            assert(self.at(0, 2) == e@[2] as int);
            assert(self.at(0, 3) == e@[3] as int);
            assert(self.at(1, 0) == e@[4] as int);
            assert(self.at(1, 1) == e@[5] as int);
            assert(self.at(1, 2) == e@[6] as int);
            assert(self.at(1, 3) == e@[7] as int);
            assert(self.at(2, 0) == e@[8] as int);
            assert(self.at(2, 1) == e@[9] as int);
            assert(self.at(2, 2) == e@[10] as int);
            assert(self.at(2, 3) == e@[11] as int);
            assert(self.at(3, 0) == e@[12] as int);
            assert(self.at(3, 1) == e@[13] as int);
            assert(self.at(3, 2) == e@[14] as int);
            assert(self.at(3, 3) == e@[15] as int);
        }
        let x: i64 = fx_mul(v[0], e[0]) + fx_mul(v[1], e[4]) + fx_mul(v[2], e[8]) + e[12];
        let y: i64 = fx_mul(v[0], e[1]) + fx_mul(v[1], e[5]) + fx_mul(v[2], e[9]) + e[13];
        let z: i64 = fx_mul(v[0], e[2]) + fx_mul(v[1], e[6]) + fx_mul(v[2], e[10]) + e[14];
        let w: i64 = fx_mul(v[0], e[3]) + fx_mul(v[1], e[7]) + fx_mul(v[2], e[11]) + e[15];
        let mut out: Vec<i64> = Vec::new();
        if w != 0 {
            out.push(fx_div(x, w));
            out.push(fx_div(y, w));
            out.push(fx_div(z, w));
        } else {
            out.push(x);
            out.push(y);
            out.push(z);
        }
        let r = Vector { coordinates: out };
        assert(r@ =~= mat4_apply(*self, rhs@));
        r
    }
}

/// Multiplying any 3D vector by an identity matrix returns the vector
/// unchanged: the off-diagonal contributions vanish, the diagonal scales
/// by one whole unit, and the homogeneous component comes out as one whole
/// unit, so the perspective division divides by one and changes nothing.
pub proof fn lemma_identity_apply(m: Matrix, v: Seq<int>)
    requires
        m.rows == 4,
        m.cols == 4,
        v.len() == 3,
        forall|x: int, y: int|
            0 <= x < 4 && 0 <= y < 4 ==> #[trigger] m.at(x, y) == (if x == y {
                FX_ONE as int
            } else {
                0
            }),
    ensures
        mat4_apply(m, v) == v,
{
    crate::fixed::lemma_fxm_one(v[0]);
    crate::fixed::lemma_fxm_one(v[1]);
    crate::fixed::lemma_fxm_one(v[2]);
    crate::fixed::lemma_tdiv_exact(v[0], FX_ONE as int);
    crate::fixed::lemma_tdiv_exact(v[1], FX_ONE as int);
    crate::fixed::lemma_tdiv_exact(v[2], FX_ONE as int);
    assert(mat4_apply(m, v) =~= v);
}

// Cloning a matrix copies its dimensions and elements.
impl Clone for Matrix {
    /// Clone the matrix, keeping every element.
    fn clone(&self) -> (r: Self)
        ensures
            r.rows == self.rows,
            r.cols == self.cols,
            r.elems@ == self.elems@,
    {
        let n: usize = self.elems.len();
        let mut out: Vec<i64> = Vec::new();
        let mut i: usize = 0;
        while i < n
            invariant
                i <= n,
                n == self.elems@.len(),
                out@.len() == i,
                forall|j: int| 0 <= j < i ==> #[trigger] out@[j] == self.elems@[j],
            decreases n - i,
        {
            out.push(self.elems[i]);
            i = i + 1;
        }
        let r = Matrix { rows: self.rows, cols: self.cols, elems: out };
        assert(r.elems@ =~= self.elems@);
        r
    }
}

} // verus!
