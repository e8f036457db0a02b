//! Fixed-point scalars: an `i64` carrying 16 fractional bits.
//!
//! A coordinate value `v` stands for the real number `v / 65536`. Products
//! and quotients truncate toward zero, exactly as the hardware division does,
//! and every operation states its result as an exact integer formula.

use vstd::prelude::*;
use vstd::arithmetic::div_mod::{
    lemma_div_by_multiple, lemma_div_is_ordered, lemma_div_multiples_vanish_fancy,
    lemma_div_of0, lemma_div_pos_is_pos,
};

verus! {

/// One whole unit: the fixed-point encoding of 1.0.
pub const FX_ONE: i64 = 65536;

/// Half of a unit, used when rounding to the nearest whole number.
pub const FX_HALF: i64 = 32768;

/// Largest magnitude accepted by a single fixed-point product.
pub const FX_LIM: i64 = 1073741824;

/// Largest coordinate magnitude accepted by the rasterizer (2048 whole units).
pub const FX_COORD: i64 = 134217728;

/// Largest coordinate magnitude accepted where normals are computed
/// (32 whole units), so that sums of squared cross products stay in range.
pub const FX_GEOM: i64 = 2097152;

/// Largest dividend magnitude accepted by fixed-point division.
pub const FX_DIV_MAX: i64 = 140737488355327;

/// Magnitude of an integer.
pub open spec fn iabs(a: int) -> int {
    if a < 0 {
        -a
    } else {
        a
    }
}

/// Division truncating toward zero: the meaning of the machine's `/`.
pub open spec fn tdiv(a: int, b: int) -> int {
    if (a < 0) == (b < 0) {
        iabs(a) / iabs(b)
    } else {
        -(iabs(a) / iabs(b))
    }
}

/// The fixed-point product: `a * b` rescaled by one unit, truncated.
pub open spec fn fxm(a: int, b: int) -> int {
    tdiv(a * b, FX_ONE as int)
}

/// The fixed-point quotient: `a / b` rescaled by one unit, truncated.
pub open spec fn fxd(a: int, b: int) -> int {
    tdiv(a * (FX_ONE as int), b)
}

/// Rounding a fixed-point value to the nearest whole number,
/// halves away from zero.
pub open spec fn rnd(a: int) -> int {
    if a >= 0 {
        (a + FX_HALF as int) / (FX_ONE as int)
    } else {
        -((-a + FX_HALF as int) / (FX_ONE as int))
    }
}

/// `r` is the integer square root of `n`, rounded down.
pub open spec fn is_sqrt_floor(n: int, r: int) -> bool {
    0 <= r && r * r <= n && n < (r + 1) * (r + 1)
}

/// The integer square root of `n`, rounded down.
pub open spec fn sqrt_floor(n: int) -> int {
    choose|r: int| is_sqrt_floor(n, r)
}

/// A product of bounded factors is bounded by the product of the bounds.
pub proof fn lemma_mul_bound(a: int, b: int, aa: int, bb: int)
    by (nonlinear_arith)
    requires
        -aa <= a <= aa,
        -bb <= b <= bb,
        0 <= aa,
        0 <= bb,
    ensures
        -(aa * bb) <= a * b <= aa * bb,
{
}

/// A fixed-point product of bounded factors is bounded by the rescaled
/// product of the bounds.
pub proof fn lemma_fxm_bound(a: int, b: int, m: int)
    requires
        0 <= m,
        -m <= a <= m,
        -m <= b <= m,
    ensures
        -((m * m) / (FX_ONE as int)) <= fxm(a, b) <= (m * m) / (FX_ONE as int),
{
    assert(m * m >= 0) by (nonlinear_arith);
    lemma_mul_bound(a, b, m, m);
    lemma_tdiv_mag(a * b, FX_ONE as int, m * m);
}

/// Truncated division cannot grow a bound on the dividend.
pub proof fn lemma_tdiv_mag(a: int, b: int, aa: int)
    requires
        b != 0,
        0 <= aa,
        -aa <= a <= aa,
    ensures
        -(aa / iabs(b)) <= tdiv(a, b) <= aa / iabs(b),
        -aa <= tdiv(a, b) <= aa,
{
    let q = iabs(a) / iabs(b);
    lemma_div_pos_is_pos(iabs(a), iabs(b));
    lemma_div_is_ordered(iabs(a), aa, iabs(b));
    lemma_div_pos_is_pos(aa, iabs(b));
    assert(0 <= q <= aa / iabs(b));
    assert(aa / iabs(b) <= aa) by {
        vstd::arithmetic::div_mod::lemma_div_nonincreasing(aa, iabs(b));
    }
}

/// Dividing an exact multiple recovers the factor.
pub proof fn lemma_tdiv_exact(k: int, b: int)
    requires
        b != 0,
    ensures
        tdiv(k * b, b) == k,
{
    assert(iabs(k * b) == iabs(k) * iabs(b)) by (nonlinear_arith);
    lemma_div_by_multiple(iabs(k), iabs(b));
    assert(iabs(k) * iabs(b) / iabs(b) == iabs(k));
    if k == 0 {
        assert(tdiv(k * b, b) == 0);
    } else {
        assert(((k * b) < 0) == ((k < 0) != (b < 0))) by (nonlinear_arith)
            requires
                k != 0 && b != 0,
        ;
    }
}

/// Dividing zero gives zero.
pub proof fn lemma_tdiv_zero(b: int)
    requires
        b != 0,
    ensures
        tdiv(0, b) == 0,
{
    lemma_div_of0(iabs(b));
}

/// Scaling by one whole unit is the identity.
pub proof fn lemma_fxm_one(a: int)
    ensures
        fxm(a, FX_ONE as int) == a,
        fxm(a, 0) == 0,
{
    lemma_tdiv_exact(a, FX_ONE as int);
    assert(a * (FX_ONE as int) == (FX_ONE as int) * a) by (nonlinear_arith);
    lemma_tdiv_zero(FX_ONE as int);
    assert(a * 0 == 0) by (nonlinear_arith);
}

/// Rounding a value a little below a whole number of units yields
/// that whole number, as long as the shortfall stays under half a unit.
pub proof fn lemma_rnd_whole(c: int, e: int)
    requires
        0 <= e < FX_HALF as int,
    ensures
        rnd(c * (FX_ONE as int) - e) == c,
{
    let s = FX_ONE as int;
    let a = c * s - e;
    if a >= 0 {
        assert(a + FX_HALF as int == s * c + (FX_HALF as int - e));
        lemma_div_multiples_vanish_fancy(c, FX_HALF as int - e, s);
    } else {
        assert(c * s < e) by (nonlinear_arith)
            requires
                a == c * s - e && a < 0,
        ;
        assert(c <= 0) by (nonlinear_arith)
            requires
                c * s < e && e < s && s == 65536,
        ;
        assert(-a + FX_HALF as int == s * (-c) + (e + FX_HALF as int));
        lemma_div_multiples_vanish_fancy(-c, e + FX_HALF as int, s);
    }
}

/// Rounding an exact whole number of units recovers it.
pub proof fn lemma_rnd_exact(c: int)
    ensures
        rnd(c * (FX_ONE as int)) == c,
{
    lemma_rnd_whole(c, 0);
}

/// Rounding respects order.
pub proof fn lemma_rnd_monotone(a: int, b: int)
    requires
        a <= b,
    ensures
        rnd(a) <= rnd(b),
{
    let s = FX_ONE as int;
    let h = FX_HALF as int;
    if a >= 0 {
        lemma_div_is_ordered(a + h, b + h, s);
    } else if b < 0 {
        lemma_div_is_ordered(-b + h, -a + h, s);
    } else {
        lemma_div_pos_is_pos(b + h, s);
        lemma_div_pos_is_pos(-a + h, s);
    }
}

/// There is an integer square root under every nonnegative integer.
pub proof fn lemma_sqrt_floor_exists(n: int)
    requires
        0 <= n,
    ensures
        is_sqrt_floor(n, sqrt_floor(n)),
    decreases n,
{
    if n == 0 {
        assert(is_sqrt_floor(0, 0)) by (nonlinear_arith);
    } else {
        lemma_sqrt_floor_exists(n - 1);
        let r = sqrt_floor(n - 1);
        if (r + 1) * (r + 1) <= n {
            assert(is_sqrt_floor(n, r + 1)) by (nonlinear_arith)
                requires
                    is_sqrt_floor(n - 1, r) && (r + 1) * (r + 1) <= n,
            ;
        } else {
            assert(is_sqrt_floor(n, r));
        }
    }
}

/// The integer square root is unique.
pub proof fn lemma_sqrt_floor_unique(n: int, r1: int, r2: int)
    by (nonlinear_arith)
    requires
        is_sqrt_floor(n, r1),
        is_sqrt_floor(n, r2),
    ensures
        r1 == r2,
{
}

/// The interpolation fraction `i / n` in fixed point, truncated; when the
/// span `n` is zero the fraction is taken to be zero, the documented guard
/// for degenerate spans.
pub open spec fn frac_s(i: int, n: int) -> int {
    if n == 0 {
        0
    } else {
        tdiv(i * (FX_ONE as int), n)
    }
}

/// Linear interpolation from `a` toward `b` by the fixed-point fraction `t`.
pub open spec fn lerp_s(a: int, b: int, t: int) -> int {
    a + fxm(b - a, t)
}

/// An interpolation fraction along a span lies between zero and one unit.
pub proof fn lemma_frac_range(i: int, n: int)
    requires
        0 <= i <= n,
    ensures
        0 <= frac_s(i, n) <= FX_ONE as int,
{
    if n != 0 {
        let s = FX_ONE as int;
        assert(i * s >= 0) by (nonlinear_arith)
            requires
                i >= 0 && s > 0,
        ;
        assert(i * s <= n * s) by (nonlinear_arith)
            requires
                i <= n && s > 0,
        ;
        lemma_div_pos_is_pos(i * s, n);
        lemma_div_is_ordered(i * s, n * s, n);
        assert(n * s == s * n) by (nonlinear_arith);
        lemma_div_by_multiple(s, n);
    }
}

/// Interpolating by a fraction of at most one unit moves at most the
/// distance between the endpoints.
pub proof fn lemma_fxm_frac_bound(d: int, t: int)
    requires
        0 <= t <= FX_ONE as int,
    ensures
        -iabs(d) <= fxm(d, t) <= iabs(d),
{
    let s = FX_ONE as int;
    lemma_mul_bound(d, t, iabs(d), s);
    assert(iabs(d) * s >= 0) by (nonlinear_arith)
        requires
            iabs(d) >= 0 && s > 0,
    ;
    lemma_tdiv_mag(d * t, s, iabs(d) * s);
    assert((iabs(d) * s) / s == iabs(d)) by {
        lemma_div_by_multiple(iabs(d), s);
    }
}

/// Interpolation hits its endpoints exactly: the fraction zero out of any
/// span gives the start, and the full fraction of a positive span gives
/// the end.
pub proof fn lemma_lerp_ends(a: int, b: int, n: int)
    requires
        0 <= n,
    ensures
        lerp_s(a, b, frac_s(0, n)) == a,
        n > 0 ==> lerp_s(a, b, frac_s(n, n)) == b,
{
    lemma_fxm_one(b - a);
    if n > 0 {
        lemma_tdiv_zero(n);
        assert(0 * (FX_ONE as int) == 0);
        lemma_tdiv_exact(FX_ONE as int, n);
        assert(n * (FX_ONE as int) == (FX_ONE as int) * n) by (nonlinear_arith);
        assert(frac_s(n, n) == FX_ONE as int);
    }
}

/// Rounding a nonnegative value gives a nonnegative whole number, and a
/// bound on the value bounds the rounding.
pub proof fn lemma_rnd_range(a: int, aa: int)
    requires
        -aa <= a <= aa,
        0 <= aa,
    ensures
        -((aa + FX_HALF as int) / (FX_ONE as int)) <= rnd(a) <= (aa + FX_HALF as int) / (
        FX_ONE as int),
        a >= 0 ==> rnd(a) >= 0,
{
    let s = FX_ONE as int;
    let h = FX_HALF as int;
    if a >= 0 {
        lemma_div_pos_is_pos(a + h, s);
        lemma_div_is_ordered(a + h, aa + h, s);
        lemma_div_pos_is_pos(aa + h, s);
    } else {
        lemma_div_pos_is_pos(-a + h, s);
        lemma_div_is_ordered(-a + h, aa + h, s);
        lemma_div_pos_is_pos(aa + h, s);
    }
}

/// The interpolation fraction along a span, in fixed point.
pub fn fx_frac(i: i64, n: i64) -> (r: i64)
    requires
        0 <= i <= n,
        n <= 2147483647,
    ensures
        r as int == frac_s(i as int, n as int),
        0 <= r <= FX_ONE,
{
    proof {
        lemma_frac_range(i as int, n as int);
    }
    if n == 0 {
        0
    } else {
        div_trunc(i * FX_ONE, n)
    }
}

/// Linear interpolation between screen coordinates by a fixed-point
/// fraction of at most one unit.
pub fn fx_lerp(a: i64, b: i64, t: i64) -> (r: i64)
    requires
        -FX_COORD <= a <= FX_COORD,
        -FX_COORD <= b <= FX_COORD,
        0 <= t <= FX_ONE,
    ensures
        r as int == lerp_s(a as int, b as int, t as int),
        -402653184 <= r <= 402653184,
{
    proof {
        lemma_fxm_frac_bound(b as int - a as int, t as int);
    }
    let d: i64 = b - a;
    a + fx_mul(d, t)
}

/// Truncating division of machine integers.
pub fn div_trunc(a: i64, b: i64) -> (r: i64)
    requires
        b != 0,
        a != i64::MIN,
    ensures
        r as int == tdiv(a as int, b as int),
{
    let neg: bool = (a < 0) != (b < 0);
    let am: u64 = if a < 0 {
        (-a) as u64
    } else {
        a as u64
    };
    let bm: u64 = if b == i64::MIN {
        9223372036854775808u64
    } else if b < 0 {
        (-b) as u64
    } else {
        b as u64
    };
    let q: u64 = am / bm;
    proof {
        assert(am as int == iabs(a as int));
        assert(bm as int == iabs(b as int));
        lemma_div_is_ordered(am as int, i64::MAX as int, bm as int);
        lemma_div_pos_is_pos(am as int, bm as int);
        vstd::arithmetic::div_mod::lemma_div_nonincreasing(i64::MAX as int, bm as int);
    }
    if neg {
        -(q as i64)
    } else {
        q as i64
    }
}

/// Magnitude of a machine integer.
pub fn fx_abs(a: i64) -> (r: i64)
    requires
        a != i64::MIN,
    ensures
        r as int == iabs(a as int),
{
    if a < 0 {
        -a
    } else {
        a
    }
}

/// The larger of two machine integers.
pub fn fx_max(a: i64, b: i64) -> (r: i64)
    ensures
        r == if a >= b { a } else { b },
{
    if a >= b {
        a
    } else {
        b
    }
}

/// Fixed-point multiplication, truncating toward zero.
pub fn fx_mul(a: i64, b: i64) -> (r: i64)
    requires
        -FX_LIM <= a <= FX_LIM,
        -FX_LIM <= b <= FX_LIM,
    ensures
        r as int == fxm(a as int, b as int),
        -17592186044416 <= r <= 17592186044416,
{
    proof {
        lemma_mul_bound(a as int, b as int, FX_LIM as int, FX_LIM as int);
        lemma_tdiv_mag(a as int * b as int, FX_ONE as int, FX_LIM as int * FX_LIM as int);
        assert((FX_LIM as int * FX_LIM as int) / (FX_ONE as int) == 17592186044416);
    }
    let p: i64 = a * b;
    div_trunc(p, FX_ONE)
}

/// Fixed-point division, truncating toward zero.
pub fn fx_div(a: i64, b: i64) -> (r: i64)
    requires
        b != 0,
        -FX_DIV_MAX <= a <= FX_DIV_MAX,
    ensures
        r as int == fxd(a as int, b as int),
{
    proof {
        lemma_mul_bound(a as int, FX_ONE as int, FX_DIV_MAX as int, FX_ONE as int);
    }
    let p: i64 = a * FX_ONE;
    div_trunc(p, b)
}

/// Round a fixed-point value to the nearest whole number,
/// halves away from zero.
pub fn fx_round(a: i64) -> (r: i64)
    requires
        -FX_DIV_MAX <= a <= FX_DIV_MAX,
    ensures
        r as int == rnd(a as int),
{
    if a >= 0 {
        let q: i64 = div_trunc(a + FX_HALF, FX_ONE);
        proof {
            lemma_div_pos_is_pos(a as int + FX_HALF as int, FX_ONE as int);
        }
        q
    } else {
        let q: i64 = div_trunc(-a + FX_HALF, FX_ONE);
        proof {
            lemma_div_pos_is_pos(-(a as int) + FX_HALF as int, FX_ONE as int);
        }
        -q
    }
}

/// Integer square root, rounded down.
pub fn isqrt(n: u64) -> (r: u64)
    ensures
        is_sqrt_floor(n as int, r as int),
        r as int == sqrt_floor(n as int),
        r <= 4294967295,
{
    let mut lo: u64 = 0;
    let mut hi: u64 = 4294967296;
    proof {
        assert((hi as int) * (hi as int) > n as int);
    }
    while hi - lo > 1
        invariant
            lo < hi <= 4294967296,
            (lo as int) * (lo as int) <= n as int,
            (n as int) < (hi as int) * (hi as int),
        decreases hi - lo,
    {
        let mid: u64 = lo + (hi - lo) / 2;
        proof {
            lemma_mul_bound(mid as int, mid as int, 4294967295, 4294967295);
        }
        if mid * mid <= n {
            lo = mid;
        } else {
            hi = mid;
        }
    }
    proof {
        assert(is_sqrt_floor(n as int, lo as int));
        lemma_sqrt_floor_exists(n as int);
        lemma_sqrt_floor_unique(n as int, lo as int, sqrt_floor(n as int));
        assert(lo as int * lo as int <= n as int);
        assert(lo <= 4294967295) by (nonlinear_arith)
            requires
                lo as int * lo as int <= n as int && n <= 18446744073709551615u64,
        ;
    }
    lo
}

} // verus!
