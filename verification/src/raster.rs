//! The rasterizer: point plot, parametric line draw, polygon outline, and
//! the column-sweep triangle fill, all writing into a [`Screen`].
//!
//! The triangle fill sweeps vertical strips along the x-axis: the vertices
//! are classified by x-coordinate into `left`, `mid` and `right`, and at
//! each integer column between them a vertical line runs between the long
//! edge and the near edge. Degenerate spans (zero columns wide) use an
//! interpolation fraction of zero, the documented guard for the
//! zero-over-zero case.

use vstd::prelude::*;
use crate::color::Color;
use crate::fixed::{
    frac_s, fx_abs, fx_frac, fx_lerp, fx_max, fx_mul, fx_round, fxm, iabs, lemma_fxm_frac_bound,
    lemma_fxm_one, lemma_lerp_ends, lemma_mul_bound, lemma_rnd_exact, lemma_rnd_monotone,
    lemma_rnd_range, lemma_rnd_whole, lemma_tdiv_exact, lemma_tdiv_zero, lerp_s, rnd, tdiv,
    FX_COORD, FX_DIV_MAX, FX_ONE,
};
use crate::mesh::Mesh;
use crate::screen::{lemma_idx_in_range, Screen};
use crate::triangle::{TriModel, Triangle};
use crate::vector::{in_range, Vector};

verus! {

/// The larger of two integers.
pub open spec fn imax(a: int, b: int) -> int {
    if a >= b {
        a
    } else {
        b
    }
}

/// Every pixel of `post` either keeps the color it had in `pre` or takes
/// the given color, and the screen keeps its size.
pub open spec fn preserved_or(pre: Screen, post: Screen, color: u32) -> bool {
    &&& post.width == pre.width
    &&& post.height == pre.height
    &&& post.buffer@.len() == pre.buffer@.len()
    &&& forall|k: int|
        0 <= k < post.buffer@.len() ==> #[trigger] post.buffer@[k] == pre.buffer@[k]
            || post.buffer@[k] == color
}

/// The number of plots a line draw makes beyond the first: the rounded
/// larger magnitude of the coordinate differences.
pub open spec fn line_steps(p1x: int, p1y: int, p2x: int, p2y: int) -> int {
    rnd(imax(iabs(p1x - p2x), iabs(p1y - p2y)))
}

/// The luminance factor: one unit, darkened toward the luminance by the
/// shadow intensity.
pub open spec fn lum_factor(lum: int, shadow: int) -> int {
    (FX_ONE as int) - fxm((FX_ONE as int) - lum, shadow)
}

/// A channel scaled by a fixed-point factor, rounded to the nearest whole
/// number and saturated into the channel range.
pub open spec fn lit_channel(ch: int, f: int) -> int {
    let v = rnd(ch * f);
    if v < 0 {
        0
    } else if v > 255 {
        255
    } else {
        v
    }
}

/// A color darkened by a luminance under a shadow intensity.
pub open spec fn lit_color(c: Color, lum: int, shadow: int) -> Color {
    Color(
        lit_channel(c.0 as int, lum_factor(lum, shadow)) as u8,
        lit_channel(c.1 as int, lum_factor(lum, shadow)) as u8,
        lit_channel(c.2 as int, lum_factor(lum, shadow)) as u8,
    )
}

/// One channel scaled by the luminance factor, saturated.
fn lit_ch(ch: u8, f: i64) -> (r: u8)
    requires
        -2147483648 <= f <= 2147483648,
    ensures
        r as int == lit_channel(ch as int, f as int),
{
    proof {
        lemma_mul_bound(ch as int, f as int, 255, 2147483648);
    }
    let raw: i64 = (ch as i64) * f;
    let v: i64 = fx_round(raw);
    if v < 0 {
        0
    } else if v > 255 {
        255
    } else {
        v as u8
    }
}

/// Apply a luminance to a color: the base color darkened by the factor
/// `1 - (1 - luminance) * shadow_intensity`, each channel rounded and
/// saturated into its 8-bit range.
pub fn apply_color_luminance(color: Color, luminance: i64, shadow_intensity: i64) -> (r: Color)
    requires
        -536870912 <= luminance <= 536870912,
        0 <= shadow_intensity <= FX_ONE,
    ensures
        r == lit_color(color, luminance as int, shadow_intensity as int),
{
    proof {
        lemma_fxm_frac_bound(FX_ONE as int - luminance as int, shadow_intensity as int);
    }
    let f: i64 = FX_ONE - fx_mul(FX_ONE - luminance, shadow_intensity);
    Color(lit_ch(color.0, f), lit_ch(color.1, f), lit_ch(color.2, f))
}

// Rasterizing operations on the screen buffer
impl Screen {
    /// Plot one point given in fixed-point screen coordinates: round to
    /// the nearest pixel and color it; outside the screen this is a no-op.
    fn plot_fx(&mut self, x: i64, y: i64, color: Color) -> (hit: bool)
        requires
            old(self).wf(),
            -FX_DIV_MAX <= x <= FX_DIV_MAX,
            -FX_DIV_MAX <= y <= FX_DIV_MAX,
        ensures
            final(self).wf(),
            final(self).width == old(self).width,
            final(self).height == old(self).height,
            hit == old(self).in_bounds(rnd(x as int), rnd(y as int)),
            hit ==> final(self).buffer@ == old(self).buffer@.update(
                old(self).idx(rnd(x as int), rnd(y as int)),
                color.packed(),
            ),
            !hit ==> final(self).buffer@ == old(self).buffer@,
    {
        let px: i64 = fx_round(x);
        let py: i64 = fx_round(y);
        if px >= 0 && py >= 0 {
            let pxu: usize = px as usize;
            let pyu: usize = py as usize;
            self.set(pxu, pyu, color.to_u8_rgb())
        } else {
            false
        }
    }

    /// Draw a pixel to the screen: the point, given as a two-dimensional
    /// vector of fixed-point coordinates, is rounded to the nearest pixel
    /// and colored; outside the screen nothing happens.
    pub fn draw(&mut self, p: &Vector, color: Color) -> (hit: bool)
        requires
            old(self).wf(),
            p@.len() == 2,
            in_range(p@, FX_DIV_MAX as int),
        ensures
            final(self).wf(),
            final(self).width == old(self).width,
            final(self).height == old(self).height,
            hit == old(self).in_bounds(rnd(p@[0]), rnd(p@[1])),
            hit ==> final(self).buffer@ == old(self).buffer@.update(
                old(self).idx(rnd(p@[0]), rnd(p@[1])),
                color.packed(),
            ),
            !hit ==> final(self).buffer@ == old(self).buffer@,
    {
        proof {
            assert(p@[0] == p.coordinates@[0] as int);
            assert(p@[1] == p.coordinates@[1] as int);
        }
        self.plot_fx(p.coordinates[0], p.coordinates[1], color)
    }

    /// Draw a line between two points given in fixed-point screen
    /// coordinates, stepping the longer coordinate difference one pixel at
    /// a time. Both endpoints are plotted exactly: the first always, the
    /// second whenever the line is at least one step long.
    #[verifier::loop_isolation(false)]
    fn draw_line_fx(&mut self, p1x: i64, p1y: i64, p2x: i64, p2y: i64, color: Color)
        requires
            old(self).wf(),
            -536870912 <= p1x <= 536870912,
            -536870912 <= p1y <= 536870912,
            -536870912 <= p2x <= 536870912,
            -536870912 <= p2y <= 536870912,
        ensures
            final(self).wf(),
            preserved_or(*old(self), *final(self), color.packed()),
            old(self).in_bounds(rnd(p1x as int), rnd(p1y as int)) ==> final(self).at(
                rnd(p1x as int),
                rnd(p1y as int),
            ) == color.packed(),
            line_steps(p1x as int, p1y as int, p2x as int, p2y as int) > 0 && old(self).in_bounds(
                rnd(p2x as int),
                rnd(p2y as int),
            ) ==> final(self).at(rnd(p2x as int), rnd(p2y as int)) == color.packed(),
    {
        let dx: i64 = fx_abs(p1x - p2x);
        let dy: i64 = fx_abs(p1y - p2y);
        let m: i64 = fx_max(dx, dy);
        proof {
            lemma_rnd_range(m as int, 1073741824);
        }
        let steps: i64 = fx_round(m);
        let ghost orig = *self;
        let ghost pc = color.packed();
        let ghost rp1x = rnd(p1x as int);
        let ghost rp1y = rnd(p1y as int);
        let ghost rp2x = rnd(p2x as int);
        let ghost rp2y = rnd(p2y as int);
        let mut i: i64 = 0;
        while i <= steps
            invariant
                self.wf(),
                0 <= i <= steps + 1,
                0 <= steps <= 16384,
                steps == line_steps(p1x as int, p1y as int, p2x as int, p2y as int),
                -536870912 <= p1x <= 536870912,
                -536870912 <= p1y <= 536870912,
                -536870912 <= p2x <= 536870912,
                -536870912 <= p2y <= 536870912,
                preserved_or(orig, *self, pc),
                i >= 1 && orig.in_bounds(rp1x, rp1y) ==> self.at(rp1x, rp1y) == pc,
                i >= steps + 1 && steps > 0 && orig.in_bounds(rp2x, rp2y) ==> self.at(
                    rp2x,
                    rp2y,
                ) == pc,
            decreases steps + 1 - i,
        {
            let t: i64 = fx_frac(i, steps);
            proof {
                lemma_fxm_frac_bound(p2x as int - p1x as int, t as int);
                lemma_fxm_frac_bound(p2y as int - p1y as int, t as int);
            }
            let x: i64 = p1x + fx_mul(p2x - p1x, t);
            let y: i64 = p1y + fx_mul(p2y - p1y, t);
            proof {
                if i == 0 {
                    if steps != 0 {
                        assert(0 * (FX_ONE as int) == 0);
                        lemma_tdiv_zero(steps as int);
                    }
                    lemma_fxm_one(p2x as int - p1x as int);
                    lemma_fxm_one(p2y as int - p1y as int);
                    assert(x == p1x && y == p1y);
                }
                if i == steps && steps > 0 {
                    lemma_tdiv_exact(FX_ONE as int, steps as int);
                    assert(steps as int * (FX_ONE as int) == (FX_ONE as int) * steps as int);
                    assert(t as int == FX_ONE as int);
                    lemma_fxm_one(p2x as int - p1x as int);
                    lemma_fxm_one(p2y as int - p1y as int);
                    assert(x == p2x && y == p2y);
                }
            }
            let ghost before = *self;
            self.plot_fx(x, y, color);
            proof {
                if before.in_bounds(rnd(x as int), rnd(y as int)) {
                    lemma_idx_in_range(before, rnd(x as int), rnd(y as int));
                }
                if before.in_bounds(rp1x, rp1y) {
                    lemma_idx_in_range(before, rp1x, rp1y);
                }
                if before.in_bounds(rp2x, rp2y) {
                    lemma_idx_in_range(before, rp2x, rp2y);
                }
            }
            i = i + 1;
        }
    }

    /// Draw a line to the screen between two points given as
    /// two-dimensional vectors. Both endpoints are plotted exactly: the
    /// first always, the second whenever the line is at least one step
    /// long.
    pub fn draw_line(&mut self, p1: &Vector, p2: &Vector, color: Color)
        requires
            old(self).wf(),
            p1@.len() == 2,
            p2@.len() == 2,
            in_range(p1@, FX_COORD as int),
            in_range(p2@, FX_COORD as int),
        ensures
            final(self).wf(),
            preserved_or(*old(self), *final(self), color.packed()),
            old(self).in_bounds(rnd(p1@[0]), rnd(p1@[1])) ==> final(self).at(
                rnd(p1@[0]),
                rnd(p1@[1]),
            ) == color.packed(),
            line_steps(p1@[0], p1@[1], p2@[0], p2@[1]) > 0 && old(self).in_bounds(
                rnd(p2@[0]),
                rnd(p2@[1]),
            ) ==> final(self).at(rnd(p2@[0]), rnd(p2@[1])) == color.packed(),
    {
        proof {
            assert(p1@[0] == p1.coordinates@[0] as int);
            assert(p1@[1] == p1.coordinates@[1] as int);
            assert(p2@[0] == p2.coordinates@[0] as int);
            assert(p2@[1] == p2.coordinates@[1] as int);
        }
        self.draw_line_fx(
            p1.coordinates[0],
            p1.coordinates[1],
            p2.coordinates[0],
            p2.coordinates[1],
            color,
        );
    }

    /// Draw a closed shape to the screen: a line between each consecutive
    /// pair of points, then a closing line from the last point back to the
    /// first. At least two points are needed. Every point of the shape is
    /// plotted exactly.
    #[verifier::loop_isolation(false)]
    pub fn draw_shape(&mut self, points: &Vec<Vector>, color: Color)
        requires
            old(self).wf(),
            points@.len() >= 2,
            forall|k: int|
                0 <= k < points@.len() ==> (#[trigger] points@[k])@.len() == 2 && in_range(
                    points@[k]@,
                    FX_COORD as int,
                ),
        ensures
            final(self).wf(),
            preserved_or(*old(self), *final(self), color.packed()),
            forall|k: int|
                0 <= k < points@.len() && old(self).in_bounds(
                    rnd((#[trigger] points@[k])@[0]),
                    rnd(points@[k]@[1]),
                ) ==> final(self).at(rnd(points@[k]@[0]), rnd(points@[k]@[1])) == color.packed(),
    {
        let ghost orig = *self;
        let ghost pc = color.packed();
        let n: usize = points.len();
        let mut i: usize = 0;
        while i < n - 1
            invariant
                self.wf(),
                i <= n - 1,
                n == points@.len(),
                n >= 2,
                forall|k: int|
                    0 <= k < points@.len() ==> (#[trigger] points@[k])@.len() == 2 && in_range(
                        points@[k]@,
                        FX_COORD as int,
                    ),
                preserved_or(orig, *self, pc),
                forall|k: int|
                    0 <= k < i && orig.in_bounds(
                        rnd((#[trigger] points@[k])@[0]),
                        rnd(points@[k]@[1]),
                    ) ==> self.at(rnd(points@[k]@[0]), rnd(points@[k]@[1])) == pc,
            decreases n - 1 - i,
        {
            let ghost before = *self;
            self.draw_line(&points[i], &points[i + 1], color);
            proof {
                assert forall|k: int|
                    0 <= k < i + 1 && orig.in_bounds(
                        rnd((#[trigger] points@[k])@[0]),
                        rnd(points@[k]@[1]),
                    ) implies self.at(rnd(points@[k]@[0]), rnd(points@[k]@[1])) == pc by {
                    lemma_idx_in_range(before, rnd(points@[k]@[0]), rnd(points@[k]@[1]));
                }
            }
            i = i + 1;
        }
        let ghost before = *self;
        self.draw_line(&points[n - 1], &points[0], color);
        proof {
            assert forall|k: int|
                0 <= k < points@.len() && orig.in_bounds(
                    rnd((#[trigger] points@[k])@[0]),
                    rnd(points@[k]@[1]),
                ) implies self.at(rnd(points@[k]@[0]), rnd(points@[k]@[1])) == pc by {
                lemma_idx_in_range(before, rnd(points@[k]@[0]), rnd(points@[k]@[1]));
            }
        }
    }

    /// Draw the outline of every triangle of a mesh, in mesh order.
    /// Every vertex of every triangle that lies on the screen is plotted.
    #[verifier::loop_isolation(false)]
    pub fn draw_mesh(&mut self, mesh: &Mesh, color: Color)
        requires
            old(self).wf(),
            mesh.dim_is(2),
            mesh.coords_in_range(FX_COORD as int),
        ensures
            final(self).wf(),
            preserved_or(*old(self), *final(self), color.packed()),
            forall|i: int, j: int|
                0 <= i < mesh.model().len() && 0 <= j < 3 && old(self).in_bounds(
                    rnd((#[trigger] mesh.model()[i].verts[j])[0]),
                    rnd(mesh.model()[i].verts[j][1]),
                ) ==> final(self).at(
                    rnd(mesh.model()[i].verts[j][0]),
                    rnd(mesh.model()[i].verts[j][1]),
                ) == color.packed(),
    {
        let ghost orig = *self;
        let ghost pc = color.packed();
        let n: usize = mesh.tris.len();
        let mut i: usize = 0;
        while i < n
            invariant
                self.wf(),
                i <= n,
                n == mesh.tris@.len(),
                mesh.dim_is(2),
                mesh.coords_in_range(FX_COORD as int),
                preserved_or(orig, *self, pc),
                forall|a: int, j: int|
                    0 <= a < i && 0 <= j < 3 && orig.in_bounds(
                        rnd((#[trigger] mesh.model()[a].verts[j])[0]),
                        rnd(mesh.model()[a].verts[j][1]),
                    ) ==> self.at(
                        rnd(mesh.model()[a].verts[j][0]),
                        rnd(mesh.model()[a].verts[j][1]),
                    ) == pc,
            decreases n - i,
        {
            let t = &mesh.tris[i];
            let ghost before = *self;
            self.draw_shape(&t.vecs, color);
            proof {
                assert(mesh.model()[i as int] == t.model());
                assert forall|a: int, j: int|
                    0 <= a < i + 1 && 0 <= j < 3 && orig.in_bounds(
                        rnd((#[trigger] mesh.model()[a].verts[j])[0]),
                        rnd(mesh.model()[a].verts[j][1]),
                    ) implies self.at(
                    rnd(mesh.model()[a].verts[j][0]),
                    rnd(mesh.model()[a].verts[j][1]),
                ) == pc by {
                    lemma_idx_in_range(
                        before,
                        rnd(mesh.model()[a].verts[j][0]),
                        rnd(mesh.model()[a].verts[j][1]),
                    );
                    if a == i as int {
                        assert(mesh.model()[a].verts[j] == t.vecs@[j]@);
                    }
                }
            }
            i = i + 1;
        }
    }
}

/// One vertical strip of a triangle fill: a column position and the two
/// fixed-point y coordinates it runs between.
#[derive(Clone, Copy, Debug, PartialEq, Eq, Structural)]
pub struct Segment {
    /// The fixed-point x position of the strip.
    pub x: i64,
    /// The fixed-point y coordinate on the near edge.
    pub y1: i64,
    /// The fixed-point y coordinate on the long edge.
    pub y2: i64,
}

/// The mathematical content of a segment.
pub ghost struct SegModel {
    /// The fixed-point x position of the strip.
    pub x: int,
    /// The fixed-point y coordinate on the near edge.
    pub y1: int,
    /// The fixed-point y coordinate on the long edge.
    pub y2: int,
}

impl Segment {
    /// The segment's mathematical content.
    pub open spec fn model(self) -> SegModel {
        SegModel { x: self.x as int, y1: self.y1 as int, y2: self.y2 as int }
    }
}

/// The index of the vertex with the smallest x-coordinate; the first
/// occurrence wins ties.
pub open spec fn left_of(m: TriModel) -> int {
    if m.verts[0][0] <= m.verts[1][0] && m.verts[0][0] <= m.verts[2][0] {
        0
    } else if m.verts[1][0] <= m.verts[2][0] {
        1
    } else {
        2
    }
}

/// The index of the vertex with the largest x-coordinate among the two
/// vertices that are not `left`; the first occurrence wins ties.
pub open spec fn right_of(m: TriModel) -> int {
    let a: int = if left_of(m) == 0 {
        1
    } else {
        0
    };
    let b: int = if left_of(m) == 2 {
        1
    } else {
        2
    };
    if m.verts[a][0] >= m.verts[b][0] {
        a
    } else {
        b
    }
}

/// The index of the remaining vertex.
pub open spec fn mid_of(m: TriModel) -> int {
    3 - left_of(m) - right_of(m)
}

/// The column of the left vertex: its x-coordinate, rounded.
pub open spec fn xl_of(m: TriModel) -> int {
    rnd(m.verts[left_of(m)][0])
}

/// The column of the mid vertex: its x-coordinate, rounded.
pub open spec fn xm_of(m: TriModel) -> int {
    rnd(m.verts[mid_of(m)][0])
}

/// The column of the right vertex: its x-coordinate, rounded.
pub open spec fn xr_of(m: TriModel) -> int {
    rnd(m.verts[right_of(m)][0])
}

/// The number of column steps of the left sub-triangle.
pub open spec fn sl_of(m: TriModel) -> int {
    xm_of(m) - xl_of(m)
}

/// The number of column steps of the right sub-triangle.
pub open spec fn sr_of(m: TriModel) -> int {
    xr_of(m) - xm_of(m)
}

/// The number of column steps of the whole span.
pub open spec fn sf_of(m: TriModel) -> int {
    xr_of(m) - xl_of(m)
}

/// The `k`-th strip of the left sub-triangle: x and the near-edge y are
/// interpolated from `left` toward `mid` by the local fraction, the
/// long-edge y from `left` toward `right` by the global fraction.
pub open spec fn left_seg(m: TriModel, k: int) -> SegModel {
    let lx = m.verts[left_of(m)][0];
    let ly = m.verts[left_of(m)][1];
    let mx = m.verts[mid_of(m)][0];
    let my = m.verts[mid_of(m)][1];
    let ry = m.verts[right_of(m)][1];
    SegModel {
        x: lerp_s(lx, mx, frac_s(k, sl_of(m))),
        y1: lerp_s(ly, my, frac_s(k, sl_of(m))),
        y2: lerp_s(ly, ry, frac_s(k, sf_of(m))),
    }
}

/// The `k`-th strip of the right sub-triangle: x and the near-edge y are
/// interpolated from `mid` toward `right` by the local fraction, the
/// long-edge y from `left` toward `right` by the global fraction measured
/// from the start of the whole span.
pub open spec fn right_seg(m: TriModel, k: int) -> SegModel {
    let ly = m.verts[left_of(m)][1];
    let mx = m.verts[mid_of(m)][0];
    let my = m.verts[mid_of(m)][1];
    let rx = m.verts[right_of(m)][0];
    let ry = m.verts[right_of(m)][1];
    SegModel {
        x: lerp_s(mx, rx, frac_s(k, sr_of(m))),
        y1: lerp_s(my, ry, frac_s(k, sr_of(m))),
        y2: lerp_s(ly, ry, frac_s(sl_of(m) + k, sf_of(m))),
    }
}

/// One x-coordinate of a triangle, read as an executable value.
fn vert_x(t: &Triangle, j: usize) -> (r: i64)
    requires
        t.dim_is(2),
        j < 3,
    ensures
        r as int == t.model().verts[j as int][0],
{
    proof {
        assert(t.model().verts[j as int] == t.vecs@[j as int]@);
        assert(t.vecs@[j as int]@[0] == t.vecs@[j as int].coordinates@[0] as int);
    }
    t.vecs[j].coordinates[0]
}

/// One y-coordinate of a triangle, read as an executable value.
fn vert_y(t: &Triangle, j: usize) -> (r: i64)
    requires
        t.dim_is(2),
        j < 3,
    ensures
        r as int == t.model().verts[j as int][1],
{
    proof {
        assert(t.model().verts[j as int] == t.vecs@[j as int]@);
        assert(t.vecs@[j as int]@[1] == t.vecs@[j as int].coordinates@[1] as int);
    }
    t.vecs[j].coordinates[1]
}

/// Compute the vertical strips of the column-sweep triangle fill, in
/// drawing order: the left sub-triangle's strips, then the right one's.
#[verifier::loop_isolation(false)]
pub fn fill_triangle_segments(t: &Triangle) -> (r: Vec<Segment>)
    requires
        t.dim_is(2),
        t.coords_in_range(FX_COORD as int),
    ensures
        0 <= sl_of(t.model()),
        0 <= sr_of(t.model()),
        sf_of(t.model()) == sl_of(t.model()) + sr_of(t.model()),
        r@.len() == sl_of(t.model()) + sr_of(t.model()) + 2,
        forall|k: int|
            0 <= k <= sl_of(t.model()) ==> (#[trigger] r@[k]).model() == left_seg(t.model(), k),
        forall|k: int|
            0 <= k <= sr_of(t.model()) ==> (#[trigger] r@[sl_of(t.model()) + 1 + k]).model()
                == right_seg(t.model(), k),
        forall|k: int|
            0 <= k < r@.len() ==> -402653184 <= (#[trigger] r@[k]).x <= 402653184 && -402653184
                <= r@[k].y1 <= 402653184 && -402653184 <= r@[k].y2 <= 402653184,
{
    let ghost m = t.model();
    let x0: i64 = vert_x(t, 0);
    let x1: i64 = vert_x(t, 1);
    let x2: i64 = vert_x(t, 2);
    let li: usize = if x0 <= x1 && x0 <= x2 {
        0
    } else if x1 <= x2 {
        1
    } else {
        2
    };
    let ai: usize = if li == 0 {
        1
    } else {
        0
    };
    let bi: usize = if li == 2 {
        1
    } else {
        2
    };
    let xa: i64 = if ai == 0 {
        x0
    } else {
        x1
    };
    let xb: i64 = if bi == 1 {
        x1
    } else {
        x2
    };
    let ri: usize = if xa >= xb {
        ai
    } else {
        bi
    };
    let mi: usize = 3 - li - ri;
    proof {
        assert(li as int == left_of(m));
        assert(ri as int == right_of(m));
        assert(mi as int == mid_of(m));
    }
    let lx: i64 = vert_x(t, li);
    let ly: i64 = vert_y(t, li);
    let mx: i64 = vert_x(t, mi);
    let my: i64 = vert_y(t, mi);
    let rx: i64 = vert_x(t, ri);
    let ry: i64 = vert_y(t, ri);
    proof {
        assert(lx <= mx && lx <= rx);
        assert(mx <= rx);
        lemma_rnd_monotone(lx as int, mx as int);
        lemma_rnd_monotone(mx as int, rx as int);
        assert(t.coords_in_range(FX_COORD as int));
        assert(-FX_COORD <= lx <= FX_COORD && -FX_COORD <= mx <= FX_COORD && -FX_COORD <= rx
            <= FX_COORD && -FX_COORD <= ly <= FX_COORD && -FX_COORD <= my <= FX_COORD && -FX_COORD
            <= ry <= FX_COORD) by {
            assert(in_range(t.vecs@[li as int]@, FX_COORD as int));
            assert(in_range(t.vecs@[mi as int]@, FX_COORD as int));
            assert(in_range(t.vecs@[ri as int]@, FX_COORD as int));
        }
        lemma_rnd_range(lx as int, FX_COORD as int);
        lemma_rnd_range(mx as int, FX_COORD as int);
        lemma_rnd_range(rx as int, FX_COORD as int);
    }
    let xl: i64 = fx_round(lx);
    let xm: i64 = fx_round(mx);
    let xr: i64 = fx_round(rx);
    let sl: i64 = xm - xl;
    let sr: i64 = xr - xm;
    let sf: i64 = xr - xl;
    let mut segs: Vec<Segment> = Vec::new();
    let mut k: i64 = 0;
    while k <= sl
        invariant
            0 <= k <= sl + 1,
            segs@.len() == k,
            forall|j: int| 0 <= j < k ==> (#[trigger] segs@[j]).model() == left_seg(m, j),
            forall|j: int|
                0 <= j < segs@.len() ==> -402653184 <= (#[trigger] segs@[j]).x <= 402653184
                    && -402653184 <= segs@[j].y1 <= 402653184 && -402653184 <= segs@[j].y2
                    <= 402653184,
        decreases sl + 1 - k,
    {
        let t1: i64 = fx_frac(k, sl);
        let t2: i64 = fx_frac(k, sf);
        let sx: i64 = fx_lerp(lx, mx, t1);
        let sy1: i64 = fx_lerp(ly, my, t1);
        let sy2: i64 = fx_lerp(ly, ry, t2);
        segs.push(Segment { x: sx, y1: sy1, y2: sy2 });
        k = k + 1;
    }
    let mut k2: i64 = 0;
    while k2 <= sr
        invariant
            0 <= k2 <= sr + 1,
            segs@.len() == sl + 1 + k2,
            forall|j: int| 0 <= j <= sl ==> (#[trigger] segs@[j]).model() == left_seg(m, j),
            forall|j: int| 0 <= j < k2 ==> (#[trigger] segs@[sl + 1 + j]).model() == right_seg(
                m,
                j,
            ),
            forall|j: int|
                0 <= j < segs@.len() ==> -402653184 <= (#[trigger] segs@[j]).x <= 402653184
                    && -402653184 <= segs@[j].y1 <= 402653184 && -402653184 <= segs@[j].y2
                    <= 402653184,
        decreases sr + 1 - k2,
    {
        let t1: i64 = fx_frac(k2, sr);
        let t2: i64 = fx_frac(sl + k2, sf);
        let sx: i64 = fx_lerp(mx, rx, t1);
        let sy1: i64 = fx_lerp(my, ry, t1);
        let sy2: i64 = fx_lerp(ly, ry, t2);
        segs.push(Segment { x: sx, y1: sy1, y2: sy2 });
        k2 = k2 + 1;
    }
    segs
}

// Filling operations on the screen buffer
impl Screen {
    /// Fill in a triangle on the screen with the column-sweep scanline:
    /// the base color is darkened by the triangle's luminance, and a
    /// vertical line is drawn at every strip of the sweep. The left and
    /// mid vertices are always painted when they lie on the screen; the
    /// right vertex too, whenever its column differs from the mid one's.
    #[verifier::loop_isolation(false)]
    pub fn fill_triangle(&mut self, triangle: &Triangle, color: Color, shadow_intensity: i64)
        requires
            old(self).wf(),
            triangle.dim_is(2),
            triangle.coords_in_range(FX_COORD as int),
            -536870912 <= triangle.lum <= 536870912,
            0 <= shadow_intensity <= FX_ONE,
        ensures
            final(self).wf(),
            preserved_or(
                *old(self),
                *final(self),
                lit_color(color, triangle.lum as int, shadow_intensity as int).packed(),
            ),
            old(self).in_bounds(
                rnd(triangle.model().verts[left_of(triangle.model())][0]),
                rnd(triangle.model().verts[left_of(triangle.model())][1]),
            ) ==> final(self).at(
                rnd(triangle.model().verts[left_of(triangle.model())][0]),
                rnd(triangle.model().verts[left_of(triangle.model())][1]),
            ) == lit_color(color, triangle.lum as int, shadow_intensity as int).packed(),
            old(self).in_bounds(
                rnd(triangle.model().verts[mid_of(triangle.model())][0]),
                rnd(triangle.model().verts[mid_of(triangle.model())][1]),
            ) ==> final(self).at(
                rnd(triangle.model().verts[mid_of(triangle.model())][0]),
                rnd(triangle.model().verts[mid_of(triangle.model())][1]),
            ) == lit_color(color, triangle.lum as int, shadow_intensity as int).packed(),
            sr_of(triangle.model()) > 0 && old(self).in_bounds(
                rnd(triangle.model().verts[right_of(triangle.model())][0]),
                rnd(triangle.model().verts[right_of(triangle.model())][1]),
            ) ==> final(self).at(
                rnd(triangle.model().verts[right_of(triangle.model())][0]),
                rnd(triangle.model().verts[right_of(triangle.model())][1]),
            ) == lit_color(color, triangle.lum as int, shadow_intensity as int).packed(),
    {
        let cl = apply_color_luminance(color, triangle.get_luminance(), shadow_intensity);
        let segs = fill_triangle_segments(triangle);
        let ghost m = triangle.model();
        let ghost sl = sl_of(m);
        let ghost sr = sr_of(m);
        let ghost lcx = rnd(m.verts[left_of(m)][0]);
        let ghost lcy = rnd(m.verts[left_of(m)][1]);
        let ghost mcx = rnd(m.verts[mid_of(m)][0]);
        let ghost mcy = rnd(m.verts[mid_of(m)][1]);
        let ghost rcx = rnd(m.verts[right_of(m)][0]);
        let ghost rcy = rnd(m.verts[right_of(m)][1]);
        proof {
            lemma_lerp_ends(m.verts[left_of(m)][0], m.verts[mid_of(m)][0], sl);
            lemma_lerp_ends(m.verts[left_of(m)][1], m.verts[mid_of(m)][1], sl);
            lemma_lerp_ends(m.verts[mid_of(m)][0], m.verts[right_of(m)][0], sr);
            lemma_lerp_ends(m.verts[mid_of(m)][1], m.verts[right_of(m)][1], sr);
            assert(segs@[0].model() == left_seg(m, 0));
            assert(segs@[sl + 1 + 0].model() == right_seg(m, 0));
            assert(segs@[sl + 1 + sr].model() == right_seg(m, sr));
            assert(segs@[0].x as int == m.verts[left_of(m)][0]);
            assert(segs@[0].y1 as int == m.verts[left_of(m)][1]);
            assert(segs@[sl + 1].x as int == m.verts[mid_of(m)][0]);
            assert(segs@[sl + 1].y1 as int == m.verts[mid_of(m)][1]);
            if sr > 0 {
                assert(segs@[sl + 1 + sr].x as int == m.verts[right_of(m)][0]);
                assert(segs@[sl + 1 + sr].y1 as int == m.verts[right_of(m)][1]);
            }
        }
        let ghost orig = *self;
        let ghost pc = cl.packed();
        let n: usize = segs.len();
        let mut i: usize = 0;
        while i < n
            invariant
                self.wf(),
                i <= n,
                n == segs@.len(),
                preserved_or(orig, *self, pc),
                i > 0 && orig.in_bounds(lcx, lcy) ==> self.at(lcx, lcy) == pc,
                i > sl + 1 && orig.in_bounds(mcx, mcy) ==> self.at(mcx, mcy) == pc,
                i > sl + 1 + sr && sr > 0 && orig.in_bounds(rcx, rcy) ==> self.at(rcx, rcy) == pc,
            decreases n - i,
        {
            let sg = &segs[i];
            let ghost before = *self;
            self.draw_line_fx(sg.x, sg.y1, sg.x, sg.y2, cl);
            proof {
                if before.in_bounds(rnd(sg.x as int), rnd(sg.y1 as int)) {
                    lemma_idx_in_range(before, rnd(sg.x as int), rnd(sg.y1 as int));
                }
                if before.in_bounds(lcx, lcy) {
                    lemma_idx_in_range(before, lcx, lcy);
                }
                if before.in_bounds(mcx, mcy) {
                    lemma_idx_in_range(before, mcx, mcy);
                }
                if before.in_bounds(rcx, rcy) {
                    lemma_idx_in_range(before, rcx, rcy);
                }
            }
            i = i + 1;
        }
    }

    /// Fill in every triangle of a mesh, in mesh order, each darkened by
    /// its own luminance. A pixel either keeps its color or takes the lit
    /// color of one of the mesh's triangles.
    #[verifier::loop_isolation(false)]
    pub fn fill_mesh(&mut self, mesh: &Mesh, color: Color, shadow_intensity: i64)
        requires
            old(self).wf(),
            mesh.dim_is(2),
            mesh.coords_in_range(FX_COORD as int),
            0 <= shadow_intensity <= FX_ONE,
            forall|i: int|
                0 <= i < mesh.model().len() ==> -536870912 <= (#[trigger] mesh.model()[i]).lum
                    <= 536870912,
        ensures
            final(self).wf(),
            final(self).width == old(self).width,
            final(self).height == old(self).height,
            final(self).buffer@.len() == old(self).buffer@.len(),
            forall|k: int|
                0 <= k < final(self).buffer@.len() ==> #[trigger] final(self).buffer@[k] == old(
                    self,
                ).buffer@[k] || exists|i: int|
                    0 <= i < mesh.model().len() && final(self).buffer@[k] == lit_color(
                        color,
                        (#[trigger] mesh.model()[i]).lum,
                        shadow_intensity as int,
                    ).packed(),
            forall|i: int|
                0 <= i < mesh.model().len() && old(self).in_bounds(
                    rnd((#[trigger] mesh.model()[i]).verts[left_of(mesh.model()[i])][0]),
                    rnd(mesh.model()[i].verts[left_of(mesh.model()[i])][1]),
                ) ==> exists|ii: int|
                    0 <= ii < mesh.model().len() && final(self).at(
                        rnd(mesh.model()[i].verts[left_of(mesh.model()[i])][0]),
                        rnd(mesh.model()[i].verts[left_of(mesh.model()[i])][1]),
                    ) == lit_color(
                        color,
                        (#[trigger] mesh.model()[ii]).lum,
                        shadow_intensity as int,
                    ).packed(),
    {
        let ghost orig = *self;
        let n: usize = mesh.tris.len();
        let mut i: usize = 0;
        while i < n
            invariant
                self.wf(),
                i <= n,
                n == mesh.tris@.len(),
                self.width == orig.width,
                self.height == orig.height,
                self.buffer@.len() == orig.buffer@.len(),
                forall|k: int|
                    0 <= k < self.buffer@.len() ==> #[trigger] self.buffer@[k] == orig.buffer@[k]
                        || exists|ii: int|
                        0 <= ii < mesh.model().len() && self.buffer@[k] == lit_color(
                            color,
                            (#[trigger] mesh.model()[ii]).lum,
                            shadow_intensity as int,
                        ).packed(),
                forall|a: int|
                    0 <= a < i && orig.in_bounds(
                        rnd((#[trigger] mesh.model()[a]).verts[left_of(mesh.model()[a])][0]),
                        rnd(mesh.model()[a].verts[left_of(mesh.model()[a])][1]),
                    ) ==> exists|ii: int|
                        0 <= ii < mesh.model().len() && self.at(
                            rnd(mesh.model()[a].verts[left_of(mesh.model()[a])][0]),
                            rnd(mesh.model()[a].verts[left_of(mesh.model()[a])][1]),
                        ) == lit_color(
                            color,
                            (#[trigger] mesh.model()[ii]).lum,
                            shadow_intensity as int,
                        ).packed(),
            decreases n - i,
    {
            let t = &mesh.tris[i];
            proof {
                assert(mesh.model()[i as int] == t.model());
                assert(mesh.tris@[i as int].dim_is(2));
                assert(mesh.tris@[i as int].coords_in_range(FX_COORD as int));
            }
            let ghost mid = *self;
            self.fill_triangle(t, color, shadow_intensity);
            proof {
                let ghost lc = lit_color(
                    color,
                    mesh.model()[i as int].lum,
                    shadow_intensity as int,
                ).packed();
                assert forall|k: int|
                    0 <= k < self.buffer@.len() implies #[trigger] self.buffer@[k]
                    == orig.buffer@[k] || exists|ii: int|
                    0 <= ii < mesh.model().len() && self.buffer@[k] == lit_color(
                        color,
                        (#[trigger] mesh.model()[ii]).lum,
                        shadow_intensity as int,
                    ).packed() by {
                    if self.buffer@[k] != mid.buffer@[k] {
                        assert(self.buffer@[k] == lc);
                        assert(0 <= (i as int) < mesh.model().len() && self.buffer@[k] == lit_color(
                            color,
                            mesh.model()[i as int].lum,
                            shadow_intensity as int,
                        ).packed());
                    }
                }
                assert forall|a: int|
                    0 <= a < i + 1 && orig.in_bounds(
                        rnd((#[trigger] mesh.model()[a]).verts[left_of(mesh.model()[a])][0]),
                        rnd(mesh.model()[a].verts[left_of(mesh.model()[a])][1]),
                    ) implies exists|ii: int|
                    0 <= ii < mesh.model().len() && self.at(
                        rnd(mesh.model()[a].verts[left_of(mesh.model()[a])][0]),
                        rnd(mesh.model()[a].verts[left_of(mesh.model()[a])][1]),
                    ) == lit_color(
                        color,
                        (#[trigger] mesh.model()[ii]).lum,
                        shadow_intensity as int,
                    ).packed() by {
                    let px = rnd(mesh.model()[a].verts[left_of(mesh.model()[a])][0]);
                    let py = rnd(mesh.model()[a].verts[left_of(mesh.model()[a])][1]);
                    lemma_idx_in_range(mid, px, py);
                    if a == i as int {
                        assert(self.at(px, py) == lc);
                        assert(0 <= (i as int) < mesh.model().len() && self.at(px, py)
                            == lit_color(
                            color,
                            mesh.model()[i as int].lum,
                            shadow_intensity as int,
                        ).packed());
                    } else {
                        if self.at(px, py) != mid.at(px, py) {
                            assert(self.at(px, py) == lc);
                            assert(0 <= (i as int) < mesh.model().len() && self.at(px, py)
                                == lit_color(
                                color,
                                mesh.model()[i as int].lum,
                                shadow_intensity as int,
                            ).packed());
                        }
                    }
                }
            }
            i = i + 1;
        }
    }
}

/// Interpolating between two whole columns lands on consecutive whole
/// columns: the `k`-th strip of a sweep across `n` columns, between
/// endpoints that sit exactly on whole columns `ca` and `cb == ca + n`,
/// rounds to column `ca + k`, with no gaps and no repeats.
pub proof fn lemma_lerp_whole(a: int, b: int, ca: int, cb: int, k: int)
    requires
        a == ca * (FX_ONE as int),
        b == cb * (FX_ONE as int),
        cb - ca <= 32767,
        0 <= k <= cb - ca,
    ensures
        rnd(lerp_s(a, b, frac_s(k, cb - ca))) == ca + k,
{
    let s = FX_ONE as int;
    let n = cb - ca;
    assert(b - a == n * s);
    if n == 0 {
        assert(frac_s(k, n) == 0);
        lemma_fxm_one(b - a);
        assert(lerp_s(a, b, 0) == a);
        lemma_rnd_exact(ca);
    } else {
        let d = k * s;
        assert(d >= 0) by (nonlinear_arith)
            requires
                d == k * s && k >= 0 && s > 0,
        ;
        let q = frac_s(k, n);
        assert(q == tdiv(d, n));
        assert(tdiv(d, n) == d / n);
        vstd::arithmetic::div_mod::lemma_fundamental_div_mod(d, n);
        vstd::arithmetic::div_mod::lemma_mod_bound(d, n);
        let e = d % n;
        assert(n * (d / n) == d - e);
        assert(fxm(b - a, q) == tdiv((n * s) * q, s));
        assert((n * s) * q == (n * q) * s) by (nonlinear_arith);
        lemma_tdiv_exact(n * q, s);
        assert(fxm(b - a, q) == n * q);
        assert(n * q == n * (d / n));
        assert(lerp_s(a, b, q) == ca * s + d - e);
        assert(ca * s + k * s == (ca + k) * s);
        assert(0 <= e < n);
        lemma_rnd_whole(ca + k, e);
    }
}

/// The columns of the left sub-triangle's strips: when the left and mid
/// vertices sit exactly on whole columns, the `k`-th strip lands on
/// column `xl + k` — every column from the left vertex to the mid vertex
/// is drawn, with no gaps.
pub proof fn lemma_left_columns(m: TriModel, k: int)
    requires
        m.verts.len() == 3,
        m.verts[0].len() == 2,
        m.verts[1].len() == 2,
        m.verts[2].len() == 2,
        m.verts[left_of(m)][0] == xl_of(m) * (FX_ONE as int),
        m.verts[mid_of(m)][0] == xm_of(m) * (FX_ONE as int),
        sl_of(m) <= 32767,
        0 <= k <= sl_of(m),
    ensures
        rnd(left_seg(m, k).x) == xl_of(m) + k,
{
    lemma_lerp_whole(
        m.verts[left_of(m)][0],
        m.verts[mid_of(m)][0],
        xl_of(m),
        xm_of(m),
        k,
    );
}

/// The columns of the right sub-triangle's strips: when the mid and right
/// vertices sit exactly on whole columns, the `k`-th strip lands on
/// column `xm + k` — together with the left sub-triangle the whole span
/// from the left vertex to the right one is covered, with no gaps.
pub proof fn lemma_right_columns(m: TriModel, k: int)
    requires
        m.verts.len() == 3,
        m.verts[0].len() == 2,
        m.verts[1].len() == 2,
        m.verts[2].len() == 2,
        m.verts[mid_of(m)][0] == xm_of(m) * (FX_ONE as int),
        m.verts[right_of(m)][0] == xr_of(m) * (FX_ONE as int),
        sr_of(m) <= 32767,
        0 <= k <= sr_of(m),
    ensures
        rnd(right_seg(m, k).x) == xm_of(m) + k,
{
    lemma_lerp_whole(
        m.verts[mid_of(m)][0],
        m.verts[right_of(m)][0],
        xm_of(m),
        xr_of(m),
        k,
    );
}

} // verus!
