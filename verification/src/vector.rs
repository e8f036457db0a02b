//! Vectors: ordered, fixed-length sequences of fixed-point coordinates.
//!
//! The dimension of a vector is the length of its coordinate list; every
//! geometric operation states in its contract which dimensions it accepts.

use vstd::prelude::*;
use crate::fixed::{
    fx_div, fx_mul, fxd, fxm, iabs, isqrt, sqrt_floor, FX_DIV_MAX, FX_LIM, FX_ONE,
};

verus! {

/// A vector of fixed-point coordinates; its dimension is the list's length.
pub struct Vector {
    /// The vector's coordinates.
    pub coordinates: Vec<i64>,
}

impl View for Vector {
    type V = Seq<int>;

    open spec fn view(&self) -> Seq<int> {
        self.coordinates@.map(|i: int, c: i64| c as int)
    }
}

/// Every entry of `s` lies within `bound` of zero.
pub open spec fn in_range(s: Seq<int>, bound: int) -> bool {
    forall|i: int| 0 <= i < s.len() ==> -bound <= #[trigger] s[i] <= bound
}

/// Element-wise sum.
pub open spec fn add_s(a: Seq<int>, b: Seq<int>) -> Seq<int> {
    Seq::new(a.len(), |i: int| a[i] + b[i])
}

/// Element-wise difference.
pub open spec fn sub_s(a: Seq<int>, b: Seq<int>) -> Seq<int> {
    Seq::new(a.len(), |i: int| a[i] - b[i])
}

/// Element-wise fixed-point product.
pub open spec fn scale_s(a: Seq<int>, b: Seq<int>) -> Seq<int> {
    Seq::new(a.len(), |i: int| fxm(a[i], b[i]))
}

/// The fixed-point dot product: the sum of the pairwise products.
pub open spec fn dot_s(a: Seq<int>, b: Seq<int>) -> int
    decreases a.len(),
{
    if a.len() == 0 {
        0
    } else {
        dot_s(a.drop_last(), b.drop_last()) + fxm(a.last(), b.last())
    }
}

/// The sum of the squares of the raw coordinates. For a vector of
/// fixed-point coordinates this carries twice the usual scale, so its
/// integer square root is again a fixed-point value.
pub open spec fn sum_sq(s: Seq<int>) -> int
    decreases s.len(),
{
    if s.len() == 0 {
        0
    } else {
        sum_sq(s.drop_last()) + s.last() * s.last()
    }
}

/// The three-dimensional cross product, in fixed point.
pub open spec fn cross_s(a: Seq<int>, b: Seq<int>) -> Seq<int> {
    seq![
        fxm(a[1], b[2]) - fxm(a[2], b[1]),
        fxm(a[2], b[0]) - fxm(a[0], b[2]),
        fxm(a[0], b[1]) - fxm(a[1], b[0]),
    ]
}

/// Euclidean normalization: every coordinate divided by the magnitude.
pub open spec fn normalize_s(v: Seq<int>) -> Seq<int> {
    Seq::new(v.len(), |i: int| fxd(v[i], sqrt_floor(sum_sq(v))))
}

/// A sum of squares is nonnegative.
pub proof fn lemma_sum_sq_nonneg(s: Seq<int>)
    ensures
        sum_sq(s) >= 0,
    decreases s.len(),
{
    if s.len() > 0 {
        lemma_sum_sq_nonneg(s.drop_last());
        assert(s.last() * s.last() >= 0) by (nonlinear_arith);
    }
}

/// Extending a prefix by one element adds that element's square.
pub proof fn lemma_sum_sq_step(s: Seq<int>, i: int)
    requires
        0 <= i < s.len(),
    ensures
        sum_sq(s.subrange(0, i + 1)) == sum_sq(s.subrange(0, i)) + s[i] * s[i],
{
    let p = s.subrange(0, i + 1);
    assert(p.drop_last() =~= s.subrange(0, i));
    assert(p.last() == s[i]);
}

/// The sum of squares of a three-dimensional vector, written out.
pub proof fn lemma_sum_sq3(s: Seq<int>)
    requires
        s.len() == 3,
    ensures
        sum_sq(s) == s[0] * s[0] + s[1] * s[1] + s[2] * s[2],
{
    let s2 = s.drop_last();
    let s1 = s2.drop_last();
    let s0 = s1.drop_last();
    assert(s0.len() == 0);
    assert(s.last() == s[2] && s2.last() == s[1] && s1.last() == s[0]);
    assert(sum_sq(s0) == 0);
    assert(sum_sq(s1) == sum_sq(s0) + s1.last() * s1.last());
    assert(sum_sq(s2) == sum_sq(s1) + s2.last() * s2.last());
    assert(sum_sq(s) == sum_sq(s2) + s.last() * s.last());
}

/// A prefix's sum of squares never exceeds the whole sum.
pub proof fn lemma_sum_sq_prefix(s: Seq<int>, i: int)
    requires
        0 <= i <= s.len(),
    ensures
        sum_sq(s.subrange(0, i)) <= sum_sq(s),
    decreases s.len() - i,
{
    if i == s.len() {
        assert(s.subrange(0, i) =~= s);
    } else {
        lemma_sum_sq_step(s, i);
        lemma_sum_sq_prefix(s, i + 1);
        assert(s[i] * s[i] >= 0) by (nonlinear_arith);
    }
}

/// Each element's square is at most the sum of squares.
pub proof fn lemma_sum_sq_elem(s: Seq<int>, i: int)
    requires
        0 <= i < s.len(),
    ensures
        s[i] * s[i] <= sum_sq(s),
    decreases s.len(),
{
    if i == s.len() - 1 {
        lemma_sum_sq_nonneg(s.drop_last());
    } else {
        lemma_sum_sq_elem(s.drop_last(), i);
        assert(s.drop_last()[i] == s[i]);
        assert(s.last() * s.last() >= 0) by (nonlinear_arith);
    }
}

/// A normalized vector keeps its dimension, and every coordinate of it
/// lies within one whole unit of zero.
pub proof fn lemma_normalize_in_range(v: Seq<int>)
    requires
        0 < sum_sq(v) <= i64::MAX,
    ensures
        normalize_s(v).len() == v.len(),
        in_range(normalize_s(v), FX_ONE as int),
{
    let n = sum_sq(v);
    let m = sqrt_floor(n);
    crate::fixed::lemma_sqrt_floor_exists(n);
    assert(m >= 1) by {
        if m == 0 {
            assert(n < ((m + 1) * (m + 1)));
            assert((m + 1) * (m + 1) == 1) by (nonlinear_arith)
                requires
                    m == 0,
            ;
        }
    }
    let s = FX_ONE as int;
    assert forall|i: int| 0 <= i < normalize_s(v).len() implies -s <= #[trigger] normalize_s(v)[i]
        <= s by {
        lemma_sum_sq_elem(v, i);
        assert(-m <= v[i] <= m) by (nonlinear_arith)
            requires
                v[i] * v[i] <= n && n < ((m + 1) * (m + 1)) && m >= 0,
        ;
        crate::fixed::lemma_mul_bound(v[i], s, m, s);
        assert(m * s >= 0) by (nonlinear_arith)
            requires
                m >= 0 && s >= 0,
        ;
        crate::fixed::lemma_tdiv_mag(v[i] * s, m, m * s);
        assert((m * s) / crate::fixed::iabs(m) == s) by {
            assert(crate::fixed::iabs(m) == m);
            assert(m * s == s * m) by (nonlinear_arith);
            vstd::arithmetic::div_mod::lemma_div_by_multiple(s, m);
        }
    }
}

/// Squaring preserves order on nonnegative integers.
proof fn lemma_sq_le(x: int, y: int)
    by (nonlinear_arith)
    requires
        0 <= x <= y,
    ensures
        x * x <= y * y,
{
}

/// Squaring preserves strict order on nonnegative integers.
proof fn lemma_sq_lt(x: int, y: int)
    by (nonlinear_arith)
    requires
        0 <= x < y,
    ensures
        x * x < y * y,
{
}

/// Normalization yields magnitude one, within fixed-point tolerance: for
/// any three-dimensional vector of magnitude at least one whole unit, the
/// sum of squares of its normalization lies within a few thousandths of a
/// unit of one whole unit squared.
pub proof fn lemma_normalize_magnitude(v: Seq<int>)
    requires
        v.len() == 3,
        (FX_ONE as int) * (FX_ONE as int) <= sum_sq(v) <= i64::MAX,
    ensures
        sum_sq(normalize_s(v)) < ((FX_ONE as int) + 1) * ((FX_ONE as int) + 1),
        sum_sq(normalize_s(v)) > (FX_ONE as int) * (FX_ONE as int) - 6 * (FX_ONE as int) - 3,
{
    let s = FX_ONE as int;
    let u = sum_sq(v);
    let m = sqrt_floor(u);
    crate::fixed::lemma_sqrt_floor_exists(u);
    assert(m >= s) by (nonlinear_arith)
        requires
            u < ((m + 1) * (m + 1)) && s * s <= u && 0 <= m && 0 < s,
    ;
    let w = normalize_s(v);
    assert(w.len() == 3);
    lemma_sum_sq3(v);
    lemma_sum_sq3(w);
    lemma_normalize_in_range(v);
    let u0 = iabs(v[0]);
    let u1 = iabs(v[1]);
    let u2 = iabs(v[2]);
    lemma_normalize_coord(v, 0);
    lemma_normalize_coord(v, 1);
    lemma_normalize_coord(v, 2);
    let a0 = iabs(w[0]);
    let a1 = iabs(w[1]);
    let a2 = iabs(w[2]);
    let big = sum_sq(w);
    assert(big == a0 * a0 + a1 * a1 + a2 * a2) by (nonlinear_arith)
        requires
            big == w[0] * w[0] + w[1] * w[1] + w[2] * w[2] && a0 == iabs(w[0]) && a1 == iabs(w[1])
                && a2 == iabs(w[2]),
    ;
    assert(u == u0 * u0 + u1 * u1 + u2 * u2) by (nonlinear_arith)
        requires
            u == v[0] * v[0] + v[1] * v[1] + v[2] * v[2] && u0 == iabs(v[0]) && u1 == iabs(v[1])
                && u2 == iabs(v[2]),
    ;
    // the upper bound
    assert(0 <= m * a0 && 0 <= m * a1 && 0 <= m * a2) by (nonlinear_arith)
        requires
            0 <= m && 0 <= a0 && 0 <= a1 && 0 <= a2,
    ;
    lemma_sq_le(m * a0, u0 * s);
    lemma_sq_le(m * a1, u1 * s);
    lemma_sq_le(m * a2, u2 * s);
    assert((m * a0) * (m * a0) == (m * m) * (a0 * a0)) by (nonlinear_arith);
    assert((m * a1) * (m * a1) == (m * m) * (a1 * a1)) by (nonlinear_arith);
    assert((m * a2) * (m * a2) == (m * m) * (a2 * a2)) by (nonlinear_arith);
    assert((u0 * s) * (u0 * s) == (s * s) * (u0 * u0)) by (nonlinear_arith);
    assert((u1 * s) * (u1 * s) == (s * s) * (u1 * u1)) by (nonlinear_arith);
    assert((u2 * s) * (u2 * s) == (s * s) * (u2 * u2)) by (nonlinear_arith);
    vstd::arithmetic::mul::lemma_mul_is_distributive_add(m * m, a0 * a0 + a1 * a1, a2 * a2);
    vstd::arithmetic::mul::lemma_mul_is_distributive_add(m * m, a0 * a0, a1 * a1);
    vstd::arithmetic::mul::lemma_mul_is_distributive_add(s * s, u0 * u0 + u1 * u1, u2 * u2);
    vstd::arithmetic::mul::lemma_mul_is_distributive_add(s * s, u0 * u0, u1 * u1);
    assert((m * m) * big <= (s * s) * u);
    assert((s * s) * u < (s * s) * ((m + 1) * (m + 1))) by (nonlinear_arith)
        requires
            u < ((m + 1) * (m + 1)) && 0 < s,
    ;
    assert((s * s) * ((m + 1) * (m + 1)) <= ((s + 1) * (s + 1)) * (m * m)) by (nonlinear_arith)
        requires
            0 < s <= m,
    ;
    assert(big < (s + 1) * (s + 1)) by (nonlinear_arith)
        requires
            (m * m) * big < ((s + 1) * (s + 1)) * (m * m) && 0 < m,
    ;
    // the lower bound
    assert(0 <= u0 * s && 0 <= u1 * s && 0 <= u2 * s) by (nonlinear_arith)
        requires
            0 < s && 0 <= u0 && 0 <= u1 && 0 <= u2,
    ;
    lemma_sq_lt(u0 * s, m * (a0 + 1));
    lemma_sq_lt(u1 * s, m * (a1 + 1));
    lemma_sq_lt(u2 * s, m * (a2 + 1));
    assert((m * (a0 + 1)) * (m * (a0 + 1)) == (m * m) * ((a0 + 1) * (a0 + 1))) by (nonlinear_arith);
    assert((m * (a1 + 1)) * (m * (a1 + 1)) == (m * m) * ((a1 + 1) * (a1 + 1))) by (nonlinear_arith);
    assert((m * (a2 + 1)) * (m * (a2 + 1)) == (m * m) * ((a2 + 1) * (a2 + 1))) by (nonlinear_arith);
    vstd::arithmetic::mul::lemma_mul_is_distributive_add(
        m * m,
        (a0 + 1) * (a0 + 1) + (a1 + 1) * (a1 + 1),
        (a2 + 1) * (a2 + 1),
    );
    vstd::arithmetic::mul::lemma_mul_is_distributive_add(
        m * m,
        (a0 + 1) * (a0 + 1),
        (a1 + 1) * (a1 + 1),
    );
    assert((s * s) * u < (m * m) * ((a0 + 1) * (a0 + 1) + (a1 + 1) * (a1 + 1) + (a2 + 1) * (a2
        + 1)));
    assert((s * s) * (m * m) <= (s * s) * u) by (nonlinear_arith)
        requires
            m * m <= u && 0 < s,
    ;
    assert(s * s < (a0 + 1) * (a0 + 1) + (a1 + 1) * (a1 + 1) + (a2 + 1) * (a2 + 1)) by (
    nonlinear_arith)
        requires
            (s * s) * (m * m) < (m * m) * ((a0 + 1) * (a0 + 1) + (a1 + 1) * (a1 + 1) + (a2 + 1) * (
            a2 + 1)) && 0 < m,
    ;
    assert(a0 <= s && a1 <= s && a2 <= s);
    assert(big > s * s - 6 * s - 3) by (nonlinear_arith)
        requires
            s * s < (a0 + 1) * (a0 + 1) + (a1 + 1) * (a1 + 1) + (a2 + 1) * (a2 + 1) && big == a0
                * a0 + a1 * a1 + a2 * a2 && 0 <= a0 <= s && 0 <= a1 <= s && 0 <= a2 <= s,
    ;
}

/// The magnitude of one normalized coordinate is the rounded-down quotient
/// of the scaled coordinate by the vector's magnitude: the remainder
/// bounds that fix the quotient between the two neighbouring multiples.
proof fn lemma_normalize_coord(v: Seq<int>, i: int)
    requires
        0 <= i < v.len(),
        0 < sum_sq(v) <= i64::MAX,
    ensures
        sqrt_floor(sum_sq(v)) * iabs(normalize_s(v)[i]) <= iabs(v[i]) * (FX_ONE as int),
        iabs(v[i]) * (FX_ONE as int) < sqrt_floor(sum_sq(v)) * (iabs(normalize_s(v)[i]) + 1),
        normalize_s(v)[i] * normalize_s(v)[i] == iabs(normalize_s(v)[i]) * iabs(
            normalize_s(v)[i],
        ),
    decreases 0int,
{
    let s = FX_ONE as int;
    let m = sqrt_floor(sum_sq(v));
    crate::fixed::lemma_sqrt_floor_exists(sum_sq(v));
    assert(m >= 1) by (nonlinear_arith)
        requires
            0 < sum_sq(v) < ((m + 1) * (m + 1)) && 0 <= m,
    ;
    let w = normalize_s(v)[i];
    assert(w == crate::fixed::tdiv(v[i] * s, m));
    let d = iabs(v[i] * s);
    assert(d == iabs(v[i]) * s) by (nonlinear_arith)
        requires
            d == iabs(v[i] * s) && s > 0,
    ;
    let a = d / m;
    assert(iabs(w) == a) by {
        assert(iabs(m) == m);
        if v[i] * s >= 0 {
            assert(w == d / m);
            vstd::arithmetic::div_mod::lemma_div_pos_is_pos(d, m);
        } else {
            assert(w == -(d / m));
            vstd::arithmetic::div_mod::lemma_div_pos_is_pos(d, m);
        }
    }
    vstd::arithmetic::div_mod::lemma_fundamental_div_mod(d, m);
    vstd::arithmetic::div_mod::lemma_mod_bound(d, m);
    assert(d == m * a + d % m);
    assert(m * a <= d);
    assert(d < m * (a + 1)) by (nonlinear_arith)
        requires
            d == m * a + d % m && d % m < m,
    ;
    assert(w * w == iabs(w) * iabs(w)) by (nonlinear_arith);
}

// Vector implementation
impl Vector {
    /// Create a vector from a list of fixed-point coordinates.
    pub fn new(coordinates: Vec<i64>) -> (r: Vector)
        ensures
            r@ == coordinates@.map(|i: int, c: i64| c as int),
    {
        Vector { coordinates }
    }

    /// Get the vector's coordinates.
    pub fn coords(&self) -> (r: &Vec<i64>)
        ensures
            r@.map(|i: int, c: i64| c as int) == self@,
    {
        &self.coordinates
    }

    /// The vector's dimension.
    pub fn len(&self) -> (r: usize)
        ensures
            r == self@.len(),
    {
        self.coordinates.len()
    }

    /// Get the value of one of the coordinates of the vector, or nothing
    /// if the index lies outside the dimension.
    pub fn get(&self, index: usize) -> (r: Option<i64>)
        ensures
            index < self@.len() ==> (r matches Some(v) && v as int == self@[index as int]),
            index >= self@.len() ==> r is None,
    {
        if index < self.coordinates.len() {
            Some(self.coordinates[index])
        } else {
            None
        }
    }

    /// Replace the value of one of the coordinates of the vector.
    /// Returns whether the index lay inside the dimension.
    pub fn set(&mut self, index: usize, value: i64) -> (r: bool)
        ensures
            final(self)@.len() == old(self)@.len(),
            r == (index < old(self)@.len()),
            index < old(self)@.len() ==> final(self)@ == old(self)@.update(
                index as int,
                value as int,
            ),
            index >= old(self)@.len() ==> final(self)@ == old(self)@,
    {
        if index < self.coordinates.len() {
            self.coordinates.set(index, value);
            assert(self@ =~= old(self)@.update(index as int, value as int));
            true
        } else {
            assert(self@ =~= old(self)@);
            false
        }
    }

    /// Transform each value in the vector with the given map, keeping the
    /// dimension.
    pub fn transform<F: Fn(&i64) -> i64>(&self, f: F) -> (r: Vector)
        requires
            forall|k: int|
                0 <= k < self.coordinates@.len() ==> call_requires(
                    f,
                    (&self.coordinates@[k],),
                ),
        ensures
            r@.len() == self@.len(),
            forall|k: int|
                0 <= k < r@.len() ==> call_ensures(
                    f,
                    (&self.coordinates@[k],),
                    #[trigger] r.coordinates@[k],
                ),
    {
        let n: usize = self.coordinates.len();
        let mut out: Vec<i64> = Vec::new();
        let mut i: usize = 0;
        while i < n
            invariant
                i <= n,
                n == self.coordinates@.len(),
                out@.len() == i,
                forall|k: int|
                    0 <= k < self.coordinates@.len() ==> call_requires(
                        f,
                        (&self.coordinates@[k],),
                    ),
                forall|k: int|
                    0 <= k < i ==> call_ensures(f, (&self.coordinates@[k],), #[trigger] out@[k]),
            decreases n - i,
        {
            out.push(f(&self.coordinates[i]));
            i = i + 1;
        }
        Vector { coordinates: out }
    }

    /// Element-wise vector addition.
    pub fn add(&self, other: &Vector) -> (r: Vector)
        requires
            self@.len() == other@.len(),
            in_range(self@, FX_DIV_MAX as int),
            in_range(other@, FX_DIV_MAX as int),
        ensures
            r@ == add_s(self@, other@),
    {
        let n: usize = self.coordinates.len();
        let mut out: Vec<i64> = Vec::new();
        let mut i: usize = 0;
        while i < n
            invariant
                i <= n,
                n == self@.len() == other@.len(),
                out@.len() == i,
                in_range(self@, FX_DIV_MAX as int),
                in_range(other@, FX_DIV_MAX as int),
                forall|j: int| 0 <= j < i ==> #[trigger] out@[j] as int == self@[j] + other@[j],
            decreases n - i,
        {
            proof {
                assert(self@[i as int] == self.coordinates@[i as int] as int);
                assert(other@[i as int] == other.coordinates@[i as int] as int);
            }
            out.push(self.coordinates[i] + other.coordinates[i]);
            i = i + 1;
        }
        let r = Vector { coordinates: out };
        assert(r@ =~= add_s(self@, other@));
        r
    }

    /// Element-wise vector subtraction.
    pub fn sub(&self, other: &Vector) -> (r: Vector)
        requires
            self@.len() == other@.len(),
            in_range(self@, FX_DIV_MAX as int),
            in_range(other@, FX_DIV_MAX as int),
        ensures
            r@ == sub_s(self@, other@),
    {
        let n: usize = self.coordinates.len();
        let mut out: Vec<i64> = Vec::new();
        let mut i: usize = 0;
        while i < n
            invariant
                i <= n,
                n == self@.len() == other@.len(),
                out@.len() == i,
                in_range(self@, FX_DIV_MAX as int),
                in_range(other@, FX_DIV_MAX as int),
                forall|j: int| 0 <= j < i ==> #[trigger] out@[j] as int == self@[j] - other@[j],
            decreases n - i,
        {
            proof {
                assert(self@[i as int] == self.coordinates@[i as int] as int);
                assert(other@[i as int] == other.coordinates@[i as int] as int);
            }
            out.push(self.coordinates[i] - other.coordinates[i]);
            i = i + 1;
        }
        let r = Vector { coordinates: out };
        assert(r@ =~= sub_s(self@, other@));
        r
    }

    /// Element-wise fixed-point scaling.
    pub fn scale(&self, factors: &Vector) -> (r: Vector)
        requires
            self@.len() == factors@.len(),
            in_range(self@, FX_LIM as int),
            in_range(factors@, FX_LIM as int),
        ensures
            r@ == scale_s(self@, factors@),
    {
        let n: usize = self.coordinates.len();
        let mut out: Vec<i64> = Vec::new();
        let mut i: usize = 0;
        while i < n
            invariant
                i <= n,
                n == self@.len() == factors@.len(),
                out@.len() == i,
                in_range(self@, FX_LIM as int),
                in_range(factors@, FX_LIM as int),
                forall|j: int| 0 <= j < i ==> #[trigger] out@[j] as int == fxm(self@[j], factors@[j]),
            decreases n - i,
        {
            proof {
                assert(self@[i as int] == self.coordinates@[i as int] as int);
                assert(factors@[i as int] == factors.coordinates@[i as int] as int);
            }
            out.push(fx_mul(self.coordinates[i], factors.coordinates[i]));
            i = i + 1;
        }
        let r = Vector { coordinates: out };
        assert(r@ =~= scale_s(self@, factors@));
        r
    }

    /// Compute the fixed-point dot product of two vectors.
    pub fn dot(&self, other: &Vector) -> (r: i64)
        requires
            self@.len() == other@.len(),
            self@.len() <= 16,
            in_range(self@, FX_LIM as int),
            in_range(other@, FX_LIM as int),
        ensures
            r as int == dot_s(self@, other@),
    {
        let n: usize = self.coordinates.len();
        let mut acc: i64 = 0;
        let mut i: usize = 0;
        while i < n
            invariant
                i <= n,
                n == self@.len() == other@.len(),
                n <= 16,
                in_range(self@, FX_LIM as int),
                in_range(other@, FX_LIM as int),
                acc as int == dot_s(self@.subrange(0, i as int), other@.subrange(0, i as int)),
                -(i as int) * 17592186044416 <= acc as int <= (i as int) * 17592186044416,
            decreases n - i,
        {
            proof {
                assert(self@[i as int] == self.coordinates@[i as int] as int);
                assert(other@[i as int] == other.coordinates@[i as int] as int);
            }
            let p: i64 = fx_mul(self.coordinates[i], other.coordinates[i]);
            proof {
                let sa = self@.subrange(0, i as int + 1);
                let sb = other@.subrange(0, i as int + 1);
                assert(sa.drop_last() =~= self@.subrange(0, i as int));
                assert(sb.drop_last() =~= other@.subrange(0, i as int));
            }
            acc = acc + p;
            i = i + 1;
        }
        proof {
            assert(self@.subrange(0, n as int) =~= self@);
            assert(other@.subrange(0, n as int) =~= other@);
        }
        acc
    }

    /// Perform a three-dimensional cross product.
    pub fn cross(&self, other: &Vector) -> (r: Vector)
        requires
            self@.len() == 3,
            other@.len() == 3,
            in_range(self@, FX_LIM as int),
            in_range(other@, FX_LIM as int),
        ensures
            r@ == cross_s(self@, other@),
    {
        let a = &self.coordinates;
        let b = &other.coordinates;
        proof {
            assert(self@[0] == a@[0] as int);
            assert(self@[1] == a@[1] as int);
            assert(self@[2] == a@[2] as int);
            assert(other@[0] == b@[0] as int);
            assert(other@[1] == b@[1] as int);
            assert(other@[2] == b@[2] as int);
        }
        let mut out: Vec<i64> = Vec::new();
        out.push(fx_mul(a[1], b[2]) - fx_mul(a[2], b[1]));
        out.push(fx_mul(a[2], b[0]) - fx_mul(a[0], b[2]));
        out.push(fx_mul(a[0], b[1]) - fx_mul(a[1], b[0]));
        let r = Vector { coordinates: out };
        assert(r@ =~= cross_s(self@, other@));
        r
    }

    /// Normalize the vector: divide every coordinate by the magnitude.
    /// The zero vector is excluded, since its magnitude cannot divide.
    pub fn normalize(&self) -> (r: Vector)
        requires
            0 < sum_sq(self@) <= i64::MAX,
        ensures
            r@ == normalize_s(self@),
    {
        let n: usize = self.coordinates.len();
        let mut acc: i64 = 0;
        let mut i: usize = 0;
        while i < n
            invariant
                i <= n,
                n == self@.len(),
                sum_sq(self@) <= i64::MAX,
                acc as int == sum_sq(self@.subrange(0, i as int)),
                0 <= acc,
            decreases n - i,
        {
            let c: i64 = self.coordinates[i];
            proof {
                lemma_sum_sq_step(self@, i as int);
                lemma_sum_sq_prefix(self@, i as int + 1);
                lemma_sum_sq_nonneg(self@.subrange(0, i as int + 1));
                assert(c as int * c as int >= 0) by (nonlinear_arith);
            }
            acc = acc + c * c;
            i = i + 1;
        }
        proof {
            assert(self@.subrange(0, n as int) =~= self@);
        }
        let mag: u64 = isqrt(acc as u64);
        proof {
            assert((acc as u64) as int == acc as int);
            assert(mag as int >= 1) by {
                if mag == 0 {
                    assert((acc as int) < ((mag as int + 1) * (mag as int + 1)));
                    assert((mag as int + 1) * (mag as int + 1) == 1) by (nonlinear_arith)
                        requires
                            mag as int == 0,
                    ;
                }
            }
            sum_sq_bounds_helper(self@);
        }
        let m: i64 = mag as i64;
        let mut out: Vec<i64> = Vec::new();
        let mut j: usize = 0;
        while j < n
            invariant
                j <= n,
                n == self@.len(),
                m >= 1,
                m as int == sqrt_floor(sum_sq(self@)),
                forall|k: int| 0 <= k < n ==> -4294967296 <= #[trigger] self@[k] <= 4294967296,
                out@.len() == j,
                forall|k: int| 0 <= k < j ==> #[trigger] out@[k] as int == fxd(self@[k], m as int),
            decreases n - j,
        {
            proof {
                assert(self@[j as int] == self.coordinates@[j as int] as int);
            }
            out.push(fx_div(self.coordinates[j], m));
            j = j + 1;
        }
        let r = Vector { coordinates: out };
        assert(r@ =~= normalize_s(self@));
        r
    }
}

/// Every coordinate of a vector is bounded by the square root of the
/// sum of squares; in particular it fits well inside the division range.
proof fn sum_sq_bounds_helper(s: Seq<int>)
    requires
        sum_sq(s) <= i64::MAX,
    ensures
        forall|k: int| 0 <= k < s.len() ==> -4294967296 <= #[trigger] s[k] <= 4294967296,
    decreases s.len(),
{
    if s.len() > 0 {
        lemma_sum_sq_nonneg(s.drop_last());
        assert(s.last() * s.last() <= i64::MAX);
        assert(-4294967296 <= s.last() <= 4294967296) by (nonlinear_arith)
            requires
                s.last() * s.last() <= i64::MAX,
        ;
        assert(s.last() * s.last() >= 0) by (nonlinear_arith);
        sum_sq_bounds_helper(s.drop_last());
        assert(forall|k: int| 0 <= k < s.len() - 1 ==> s[k] == s.drop_last()[k]);
    }
}

// Cloning a vector copies its coordinates.
impl Clone for Vector {
    /// Clone the vector, keeping every coordinate.
    fn clone(&self) -> (r: Self)
        ensures
            r@ == self@,
    {
        let n: usize = self.coordinates.len();
        let mut out: Vec<i64> = Vec::new();
        let mut i: usize = 0;
        while i < n
            invariant
                i <= n,
                n == self.coordinates@.len(),
                out@.len() == i,
                forall|j: int| 0 <= j < i ==> #[trigger] out@[j] == self.coordinates@[j],
            decreases n - i,
        {
            out.push(self.coordinates[i]);
            i = i + 1;
        }
        let r = Vector { coordinates: out };
        assert(r@ =~= self@);
        r
    }
}

} // verus!
