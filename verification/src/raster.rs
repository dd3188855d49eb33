//! Scan conversion of one triangle on the screen: which pixels it covers,
//! at what depth, and what drawing it does to a context.

use crate::context::{Cell, Context, ContextView, FARTHEST};
use crate::fixed::{floor_div, lemma_product_bound};
use vstd::arithmetic::div_mod::{
    lemma_div_is_ordered, lemma_div_multiples_vanish, lemma_fundamental_div_mod,
    lemma_fundamental_div_mod_converse,
};
use vstd::prelude::*;

verus! {

/// Screen coordinates count in units of 1/256 of a pixel.
pub const SUBPIXEL: i64 = 256;

/// The centre of a pixel lies half a pixel from its edges.
pub const HALF_PIXEL: i64 = 128;

/// Screen coordinates lie between `-SCREEN_LIMIT` and `SCREEN_LIMIT`.
pub const SCREEN_LIMIT: i64 = 0x800_0000_0000;

/// Depths of vertices lie between `-DEPTH_LIMIT` and `DEPTH_LIMIT`.
pub const DEPTH_LIMIT: i64 = 0x4_0000_0000;

/// A projected vertex: `x` grows to the right and `y` downward, both in
/// sub-pixel units; `depth` grows away from the viewer.
#[derive(Clone, Copy, PartialEq, Eq, Debug, Structural)]
pub struct ScreenVertex {
    pub x: i64,
    pub y: i64,
    pub depth: i64,
}

impl ScreenVertex {
    /// The coordinates are within the limits.
    pub open spec fn wf(self) -> bool {
        &&& -SCREEN_LIMIT <= self.x <= SCREEN_LIMIT
        &&& -SCREEN_LIMIT <= self.y <= SCREEN_LIMIT
        &&& -DEPTH_LIMIT <= self.depth <= DEPTH_LIMIT
    }
}

/// A projected triangle.
#[derive(Clone, Copy, PartialEq, Eq, Debug, Structural)]
pub struct ScreenTriangle {
    pub a: ScreenVertex,
    pub b: ScreenVertex,
    pub c: ScreenVertex,
}

/// Twice the signed area of the triangle `a`, `b`, `(px, py)`. With `y`
/// growing downward it is positive when the point lies on the inner side of
/// the edge from `a` to `b` of a triangle whose `area2` is positive.
pub open spec fn edge(a: ScreenVertex, b: ScreenVertex, px: int, py: int) -> int {
    (b.x - a.x) * (py - a.y) - (b.y - a.y) * (px - a.x)
}

/// Whether the edge from `a` to `b` is a left edge (it runs upward) or a top
/// edge (it is level and runs to the right). Of an edge and its reverse,
/// exactly one is, unless `a` and `b` coincide.
pub open spec fn top_left(a: ScreenVertex, b: ScreenVertex) -> bool {
    b.y < a.y || (b.y == a.y && b.x > a.x)
}

/// The fill rule: a point is accepted by an edge when it lies strictly on its
/// inner side, or on the edge itself if that is a top or a left edge.
pub open spec fn edge_accepts(a: ScreenVertex, b: ScreenVertex, px: int, py: int) -> bool {
    edge(a, b, px, py) > 0 || (edge(a, b, px, py) == 0 && top_left(a, b))
}

/// The sub-pixel coordinate of the centre of pixel `k`.
pub open spec fn pixel_center(k: int) -> int {
    k * SUBPIXEL + HALF_PIXEL
}

impl ScreenVertex {
    /// Whether the coordinates are within the limits.
    pub fn is_valid(&self) -> (ok: bool)
        ensures
            ok == self.wf(),
    {
        -SCREEN_LIMIT <= self.x && self.x <= SCREEN_LIMIT && -SCREEN_LIMIT <= self.y && self.y
            <= SCREEN_LIMIT && -DEPTH_LIMIT <= self.depth && self.depth <= DEPTH_LIMIT
    }
}

impl ScreenTriangle {
    /// All three vertices are within the limits.
    pub open spec fn wf(self) -> bool {
        self.a.wf() && self.b.wf() && self.c.wf()
    }

    /// Whether all three vertices are within the limits.
    pub fn is_valid(&self) -> (ok: bool)
        ensures
            ok == self.wf(),
    {
        self.a.is_valid() && self.b.is_valid() && self.c.is_valid()
    }

    /// Twice the signed area.
    pub open spec fn area2(self) -> int {
        edge(self.a, self.b, self.c.x as int, self.c.y as int)
    }

    /// Whether the triangle shows its back. With `y` growing downward, the
    /// vertices of a face seen from the front run so that `area2` is negative.
    pub open spec fn back_facing(self) -> bool {
        self.area2() > 0
    }

    /// The same triangle with a winding that makes `area2` nonnegative.
    pub open spec fn oriented(self) -> ScreenTriangle {
        if self.area2() < 0 {
            ScreenTriangle { a: self.a, b: self.c, c: self.b }
        } else {
            self
        }
    }

    /// Whether all three edges accept the point and the area is positive.
    pub open spec fn inside(self, px: int, py: int) -> bool {
        &&& self.area2() > 0
        &&& edge_accepts(self.a, self.b, px, py)
        &&& edge_accepts(self.b, self.c, px, py)
        &&& edge_accepts(self.c, self.a, px, py)
    }

    /// The depth at a point: the depths of the vertices weighted by the
    /// barycentric coordinates of the point, rounded down.
    pub open spec fn weighted_depth(self, px: int, py: int) -> int {
        (edge(self.b, self.c, px, py) * self.a.depth + edge(self.c, self.a, px, py) * self.b.depth
            + edge(self.a, self.b, px, py) * self.c.depth) / self.area2()
    }

    /// Whether the triangle covers the point, whatever its winding. A triangle
    /// without area covers nothing.
    pub open spec fn covers(self, px: int, py: int) -> bool {
        self.oriented().inside(px, py)
    }

    /// The depth of the triangle at a point.
    pub open spec fn depth_at(self, px: int, py: int) -> int {
        self.oriented().weighted_depth(px, py)
    }

    /// Whether the triangle covers the centre of the pixel in column `x` of row `y`.
    pub open spec fn covers_pixel(self, x: int, y: int) -> bool {
        self.covers(pixel_center(x), pixel_center(y))
    }

    /// The depth of the triangle at the centre of a pixel.
    pub open spec fn depth_at_pixel(self, x: int, y: int) -> int {
        self.depth_at(pixel_center(x), pixel_center(y))
    }

    /// The smallest `x` of the three vertices.
    pub open spec fn min_x(self) -> int {
        min3(self.a.x as int, self.b.x as int, self.c.x as int)
    }

    /// The largest `x` of the three vertices.
    pub open spec fn max_x(self) -> int {
        max3(self.a.x as int, self.b.x as int, self.c.x as int)
    }

    /// The smallest `y` of the three vertices.
    pub open spec fn min_y(self) -> int {
        min3(self.a.y as int, self.b.y as int, self.c.y as int)
    }

    /// The largest `y` of the three vertices.
    pub open spec fn max_y(self) -> int {
        max3(self.a.y as int, self.b.y as int, self.c.y as int)
    }
}

pub open spec fn min3(a: int, b: int, c: int) -> int {
    if a <= b && a <= c {
        a
    } else if b <= c {
        b
    } else {
        c
    }
}

pub open spec fn max3(a: int, b: int, c: int) -> int {
    if a >= b && a >= c {
        a
    } else if b >= c {
        b
    } else {
        c
    }
}

/// `(u * y) * v` and `(v * y) * u` are the same product.
proof fn lemma_mul_swap_outer(u: int, y: int, v: int)
    ensures
        (u * y) * v == (v * y) * u,
{
    assert((u * y) * v == (v * y) * u) by (nonlinear_arith);
}

/// `(x * u) * v` and `(x * v) * u` are the same product.
proof fn lemma_mul_swap_inner(x: int, u: int, v: int)
    ensures
        (x * u) * v == (x * v) * u,
{
    assert((x * u) * v == (x * v) * u) by (nonlinear_arith);
}

/// Multiplication distributes over the six terms of an edge value.
proof fn lemma_scale6(m1: int, m2: int, m3: int, m4: int, m5: int, m6: int, k: int)
    ensures
        (m1 - m2 - m3 - m4 + m5 + m6) * k == m1 * k - m2 * k - m3 * k - m4 * k + m5 * k + m6 * k,
{
    assert((m1 - m2 - m3 - m4 + m5 + m6) * k == m1 * k - m2 * k - m3 * k - m4 * k + m5 * k + m6
        * k) by (nonlinear_arith);
}

/// The edge value as a sum of six products of one `x` and one `y`.
proof fn lemma_edge_expanded(a: ScreenVertex, b: ScreenVertex, px: int, py: int)
    ensures
        edge(a, b, px, py) == b.x * py - b.x * a.y - a.x * py - px * b.y + a.x * b.y + px * a.y,
{
    let ax = a.x as int;
    let ay = a.y as int;
    let bx = b.x as int;
    let by = b.y as int;
    assert((bx - ax) * (py - ay) == bx * py - bx * ay - ax * py + ax * ay) by (nonlinear_arith);
    assert((by - ay) * (px - ax) == px * by - ax * by - px * ay + ax * ay) by (nonlinear_arith);
}

/// The three edge values of a point add up to twice the area, and they are
/// its barycentric coordinates.
pub proof fn lemma_barycentric(t: ScreenTriangle, px: int, py: int)
    ensures
        edge(t.b, t.c, px, py) + edge(t.c, t.a, px, py) + edge(t.a, t.b, px, py) == t.area2(),
        edge(t.b, t.c, px, py) * t.a.x + edge(t.c, t.a, px, py) * t.b.x + edge(t.a, t.b, px, py)
            * t.c.x == t.area2() * px,
        edge(t.b, t.c, px, py) * t.a.y + edge(t.c, t.a, px, py) * t.b.y + edge(t.a, t.b, px, py)
            * t.c.y == t.area2() * py,
{
    let ax = t.a.x as int;
    let ay = t.a.y as int;
    let bx = t.b.x as int;
    let by = t.b.y as int;
    let cx = t.c.x as int;
    let cy = t.c.y as int;
    lemma_edge_expanded(t.b, t.c, px, py);
    lemma_edge_expanded(t.c, t.a, px, py);
    lemma_edge_expanded(t.a, t.b, px, py);
    lemma_edge_expanded(t.a, t.b, cx, cy);
    lemma_scale6(cx * py, cx * by, bx * py, px * cy, bx * cy, px * by, ax);
    lemma_scale6(ax * py, ax * cy, cx * py, px * ay, cx * ay, px * cy, bx);
    lemma_scale6(bx * py, bx * ay, ax * py, px * by, ax * by, px * ay, cx);
    lemma_scale6(bx * cy, bx * ay, ax * cy, cx * by, ax * by, cx * ay, px);
    lemma_scale6(cx * py, cx * by, bx * py, px * cy, bx * cy, px * by, ay);
    lemma_scale6(ax * py, ax * cy, cx * py, px * ay, cx * ay, px * cy, by);
    lemma_scale6(bx * py, bx * ay, ax * py, px * by, ax * by, px * ay, cy);
    lemma_scale6(bx * cy, bx * ay, ax * cy, cx * by, ax * by, cx * ay, py);
    lemma_mul_swap_outer(bx, cy, ax);
    lemma_mul_swap_outer(bx, py, ax);
    lemma_mul_swap_outer(cx, ay, bx);
    lemma_mul_swap_outer(cx, by, ax);
    lemma_mul_swap_outer(cx, py, ax);
    lemma_mul_swap_outer(cx, py, bx);
    lemma_mul_swap_outer(px, ay, bx);
    lemma_mul_swap_outer(px, ay, cx);
    lemma_mul_swap_outer(px, by, ax);
    lemma_mul_swap_outer(px, by, cx);
    lemma_mul_swap_outer(px, cy, ax);
    lemma_mul_swap_outer(px, cy, bx);
    lemma_mul_swap_inner(ax, cy, by);
    lemma_mul_swap_inner(ax, py, by);
    lemma_mul_swap_inner(ax, py, cy);
    lemma_mul_swap_inner(bx, cy, ay);
    lemma_mul_swap_inner(bx, py, ay);
    lemma_mul_swap_inner(bx, py, cy);
    lemma_mul_swap_inner(cx, by, ay);
    lemma_mul_swap_inner(cx, py, ay);
    lemma_mul_swap_inner(cx, py, by);
    lemma_mul_swap_inner(px, by, ay);
    lemma_mul_swap_inner(px, cy, ay);
    lemma_mul_swap_inner(px, cy, by);
}

/// A weighted sum with nonnegative weights lies between the sum of the
/// weights times the least and times the greatest value.
pub proof fn lemma_weighted_sum_bounds(
    wa: int,
    wb: int,
    wc: int,
    va: int,
    vb: int,
    vc: int,
    lo: int,
    hi: int,
)
    requires
        wa >= 0,
        wb >= 0,
        wc >= 0,
        lo <= va <= hi,
        lo <= vb <= hi,
        lo <= vc <= hi,
    ensures
        (wa + wb + wc) * lo <= wa * va + wb * vb + wc * vc <= (wa + wb + wc) * hi,
{
    assert(wa * lo <= wa * va <= wa * hi) by (nonlinear_arith)
        requires
            wa >= 0,
            lo <= va <= hi,
    ;
    assert(wb * lo <= wb * vb <= wb * hi) by (nonlinear_arith)
        requires
            wb >= 0,
            lo <= vb <= hi,
    ;
    assert(wc * lo <= wc * vc <= wc * hi) by (nonlinear_arith)
        requires
            wc >= 0,
            lo <= vc <= hi,
    ;
    assert((wa + wb + wc) * lo == wa * lo + wb * lo + wc * lo) by (nonlinear_arith);
    assert((wa + wb + wc) * hi == wa * hi + wb * hi + wc * hi) by (nonlinear_arith);
}

/// A point that a triangle of positive area accepts lies within the
/// bounding box of its vertices.
pub proof fn lemma_inside_bounding_box(t: ScreenTriangle, px: int, py: int)
    requires
        t.inside(px, py),
    ensures
        t.min_x() <= px <= t.max_x(),
        t.min_y() <= py <= t.max_y(),
{
    let wa = edge(t.b, t.c, px, py);
    let wb = edge(t.c, t.a, px, py);
    let wc = edge(t.a, t.b, px, py);
    let area = t.area2();
    lemma_barycentric(t, px, py);
    lemma_weighted_sum_bounds(
        wa,
        wb,
        wc,
        t.a.x as int,
        t.b.x as int,
        t.c.x as int,
        t.min_x(),
        t.max_x(),
    );
    lemma_weighted_sum_bounds(
        wa,
        wb,
        wc,
        t.a.y as int,
        t.b.y as int,
        t.c.y as int,
        t.min_y(),
        t.max_y(),
    );
    assert(t.min_x() <= px <= t.max_x()) by (nonlinear_arith)
        requires
            area > 0,
            area * t.min_x() <= area * px <= area * t.max_x(),
    ;
    assert(t.min_y() <= py <= t.max_y()) by (nonlinear_arith)
        requires
            area > 0,
            area * t.min_y() <= area * py <= area * t.max_y(),
    ;
}

/// The depth of a triangle at a point inside it lies between the depths of
/// its vertices, and so within the limits.
pub proof fn lemma_depth_within_limits(t: ScreenTriangle, px: int, py: int)
    requires
        t.wf(),
        t.inside(px, py),
    ensures
        -DEPTH_LIMIT <= t.weighted_depth(px, py) <= DEPTH_LIMIT,
{
    let wa = edge(t.b, t.c, px, py);
    let wb = edge(t.c, t.a, px, py);
    let wc = edge(t.a, t.b, px, py);
    let d = t.area2();
    let limit: int = DEPTH_LIMIT as int;
    lemma_barycentric(t, px, py);
    lemma_weighted_sum_bounds(
        wa,
        wb,
        wc,
        t.a.depth as int,
        t.b.depth as int,
        t.c.depth as int,
        -limit,
        limit,
    );
    let n = wa * t.a.depth + wb * t.b.depth + wc * t.c.depth;
    lemma_div_is_ordered(d * (-limit), n, d);
    lemma_div_is_ordered(n, d * limit, d);
    lemma_div_multiples_vanish(-limit, d);
    lemma_div_multiples_vanish(limit, d);
}

/// The value of the edge function, which is at most 2^89 in magnitude.
fn edge_value(a: ScreenVertex, b: ScreenVertex, px: i64, py: i64) -> (e: i128)
    requires
        a.wf(),
        b.wf(),
        -SCREEN_LIMIT <= px <= SCREEN_LIMIT,
        -SCREEN_LIMIT <= py <= SCREEN_LIMIT,
    ensures
        e == edge(a, b, px as int, py as int),
        -0x200_0000_0000_0000_0000_0000 <= e <= 0x200_0000_0000_0000_0000_0000,
{
    let dx: i128 = b.x as i128 - a.x as i128;
    let dy: i128 = b.y as i128 - a.y as i128;
    let qx: i128 = px as i128 - a.x as i128;
    let qy: i128 = py as i128 - a.y as i128;
    proof {
        lemma_product_bound(dx as int, qy as int, 0x1000_0000_0000, 0x1000_0000_0000);
        lemma_product_bound(dy as int, qx as int, 0x1000_0000_0000, 0x1000_0000_0000);
    }
    dx * qy - dy * qx
}

/// Whether the triangle shows its back: its vertices run clockwise on the
/// screen, which is the case when `area2` is positive.
pub fn is_back_facing(triangle: &ScreenTriangle) -> (back: bool)
    requires
        triangle.wf(),
    ensures
        back == triangle.back_facing(),
{
    edge_value(triangle.a, triangle.b, triangle.c.x, triangle.c.y) > 0
}

/// The depth of an oriented triangle at the centre of a pixel that it
/// covers, and nothing for a pixel that it does not cover.
fn sample(t: &ScreenTriangle, area2: i128, x: usize, y: usize) -> (r: Option<i64>)
    requires
        t.wf(),
        area2 == t.area2(),
        area2 > 0,
        x <= 65535,
        y <= 65535,
    ensures
        r.is_some() == t.inside(pixel_center(x as int), pixel_center(y as int)),
        r matches Some(d) ==> d == t.weighted_depth(pixel_center(x as int), pixel_center(y as int))
            && -DEPTH_LIMIT <= d <= DEPTH_LIMIT,
{
    let px: i64 = x as i64 * SUBPIXEL + HALF_PIXEL;
    let py: i64 = y as i64 * SUBPIXEL + HALF_PIXEL;
    let wc: i128 = edge_value(t.a, t.b, px, py);
    if !(wc > 0 || (wc == 0 && (t.b.y < t.a.y || (t.b.y == t.a.y && t.b.x > t.a.x)))) {
        return None;
    }
    let wa: i128 = edge_value(t.b, t.c, px, py);
    if !(wa > 0 || (wa == 0 && (t.c.y < t.b.y || (t.c.y == t.b.y && t.c.x > t.b.x)))) {
        return None;
    }
    let wb: i128 = edge_value(t.c, t.a, px, py);
    if !(wb > 0 || (wb == 0 && (t.a.y < t.c.y || (t.a.y == t.c.y && t.a.x > t.c.x)))) {
        return None;
    }
    proof {
        lemma_product_bound(wa as int, t.a.depth as int, 0x200_0000_0000_0000_0000_0000, 0x4_0000_0000);
        lemma_product_bound(wb as int, t.b.depth as int, 0x200_0000_0000_0000_0000_0000, 0x4_0000_0000);
        lemma_product_bound(wc as int, t.c.depth as int, 0x200_0000_0000_0000_0000_0000, 0x4_0000_0000);
        lemma_depth_within_limits(*t, px as int, py as int);
    }
    let sum: i128 = wa * (t.a.depth as i128) + wb * (t.b.depth as i128) + wc * (t.c.depth as i128);
    let depth: i128 = floor_div(sum, area2);
    Some(depth as i64)
}

/// Whether the scan has passed the pixel of index `i`: the scan visits the
/// columns `x0..x1` of the rows from `y0` on, and stands at column `x` of row `y`.
pub open spec fn scanned(i: int, width: int, x0: int, x1: int, y0: int, y: int, x: int) -> bool {
    let c = i % width;
    let r = i / width;
    x0 <= c < x1 && (y0 <= r < y || (r == y && c < x))
}

impl ContextView {
    /// The column of the pixel with index `i`.
    pub open spec fn column_of(self, i: int) -> int {
        i % (self.width as int)
    }

    /// The row of the pixel with index `i`.
    pub open spec fn row_of(self, i: int) -> int {
        i / (self.width as int)
    }

    /// The depth test: the triangle covers the centre of pixel `i` and is
    /// strictly nearer there than what the depth buffer holds.
    pub open spec fn passes(self, t: ScreenTriangle, i: int) -> bool {
        &&& t.covers_pixel(self.column_of(i), self.row_of(i))
        &&& t.depth_at_pixel(self.column_of(i), self.row_of(i)) < self.depths[i]
    }

    /// The context after the triangle was drawn with `cell`: where the depth
    /// test passes, the cell and the depth of the triangle; elsewhere what
    /// was there.
    pub open spec fn with_triangle(self, t: ScreenTriangle, cell: Cell) -> ContextView {
        ContextView {
            width: self.width,
            height: self.height,
            cells: Seq::new(
                self.cells.len(),
                |i: int|
                    if self.passes(t, i) {
                        cell
                    } else {
                        self.cells[i]
                    },
            ),
            depths: Seq::new(
                self.depths.len(),
                |i: int|
                    if self.passes(t, i) {
                        t.depth_at_pixel(self.column_of(i), self.row_of(i)) as i64
                    } else {
                        self.depths[i]
                    },
            ),
            image: self.image,
        }
    }

    /// Pixel `i` of `self` is that of `target` where the scan has passed,
    /// and that of `before` elsewhere.
    pub open spec fn agrees_at(
        self,
        before: ContextView,
        target: ContextView,
        i: int,
        x0: int,
        x1: int,
        y0: int,
        y: int,
        x: int,
    ) -> bool {
        if scanned(i, self.width as int, x0, x1, y0, y, x) {
            self.cells[i] == target.cells[i] && self.depths[i] == target.depths[i]
        } else {
            self.cells[i] == before.cells[i] && self.depths[i] == before.depths[i]
        }
    }
}

/// The pixels of `0..limit` whose centre may lie between `lo` and `hi`.
fn pixel_range(lo: i64, hi: i64, limit: usize) -> (r: (usize, usize))
    requires
        -SCREEN_LIMIT <= lo,
        hi <= SCREEN_LIMIT,
        limit <= 65535,
    ensures
        r.0 <= r.1 <= limit,
        forall|k: int|
            0 <= k < limit && lo <= #[trigger] pixel_center(k) <= hi ==> r.0 <= k < r.1,
{
    let bound: i64 = limit as i64;
    let first: i64 = if lo <= HALF_PIXEL {
        0
    } else if (lo - HALF_PIXEL) / SUBPIXEL >= bound {
        bound
    } else {
        (lo - HALF_PIXEL) / SUBPIXEL
    };
    let end: i64 = if hi < HALF_PIXEL {
        0
    } else if (hi - HALF_PIXEL) / SUBPIXEL + 1 >= bound {
        bound
    } else {
        (hi - HALF_PIXEL) / SUBPIXEL + 1
    };
    if end < first {
        (end as usize, end as usize)
    } else {
        (first as usize, end as usize)
    }
}

fn least(a: i64, b: i64, c: i64) -> (m: i64)
    ensures
        m == min3(a as int, b as int, c as int),
{
    if a <= b && a <= c {
        a
    } else if b <= c {
        b
    } else {
        c
    }
}

fn greatest(a: i64, b: i64, c: i64) -> (m: i64)
    ensures
        m == max3(a as int, b as int, c as int),
{
    if a >= b && a >= c {
        a
    } else if b >= c {
        b
    } else {
        c
    }
}

/// The index `y * width + x` has column `x` and row `y`, and no other index has.
pub proof fn lemma_index_of_pixel(width: int, x: int, y: int, i: int)
    requires
        0 <= x < width,
        0 <= y,
        0 <= i,
    ensures
        (y * width + x) % width == x,
        (y * width + x) / width == y,
        (i % width == x && i / width == y) ==> i == y * width + x,
        0 <= i % width < width,
        0 <= i / width,
{
    assert(y * width == width * y) by (nonlinear_arith);
    lemma_fundamental_div_mod_converse(y * width + x, width, y, x);
    lemma_fundamental_div_mod(i, width);
    assert(i / width >= 0) by (nonlinear_arith)
        requires
            i == width * (i / width) + i % width,
            0 <= i % width < width,
            i >= 0,
            width > 0,
    ;
    if i % width == x && i / width == y {
        assert(width * (i / width) == y * width) by (nonlinear_arith)
            requires
                i / width == y,
        ;
    }
}

/// An index below `width * height` lies in a row below `height`.
pub proof fn lemma_row_below_height(width: int, height: int, i: int)
    requires
        0 < width,
        0 <= i < width * height,
    ensures
        i / width < height,
{
    lemma_fundamental_div_mod(i, width);
    assert(i / width < height) by (nonlinear_arith)
        requires
            i == width * (i / width) + i % width,
            0 <= i % width,
            i < width * height,
            width > 0,
    ;
}

/// Draws one projected triangle with one cell: every pixel of the viewport
/// whose centre the triangle covers, and where it is strictly nearer than the
/// depth buffer says, takes the cell and the depth of the triangle. A pixel
/// at equal depth keeps what it has. Either winding is drawn; a triangle without area
/// and one that misses the viewport change nothing.
pub fn draw_triangle(context: &mut Context, triangle: &ScreenTriangle, cell: Cell)
    requires
        old(context).wf(),
        triangle.wf(),
    ensures
        final(context).wf(),
        final(context)@ == old(context)@.with_triangle(*triangle, cell),
{
    let first_area: i128 = edge_value(triangle.a, triangle.b, triangle.c.x, triangle.c.y);
    let t: ScreenTriangle = if first_area < 0 {
        ScreenTriangle { a: triangle.a, b: triangle.c, c: triangle.b }
    } else {
        *triangle
    };
    let area2: i128 = if first_area < 0 { -first_area } else { first_area };
    let ghost before: ContextView = context@;
    let ghost target: ContextView = before.with_triangle(*triangle, cell);
    let width: usize = context.width;
    let height: usize = context.height;
    let count: usize = context.frame_buffer.len();
    if area2 == 0 || width == 0 || height == 0 {
        proof {
            if width == 0 || height == 0 {
                assert(width * height == 0) by (nonlinear_arith)
                    requires
                        width == 0 || height == 0,
                ;
            }
            assert(target.cells =~= before.cells);
            assert(target.depths =~= before.depths);
        }
        return;
    }
    let columns: (usize, usize) = pixel_range(
        least(t.a.x, t.b.x, t.c.x),
        greatest(t.a.x, t.b.x, t.c.x),
        width,
    );
    let rows: (usize, usize) = pixel_range(
        least(t.a.y, t.b.y, t.c.y),
        greatest(t.a.y, t.b.y, t.c.y),
        height,
    );
    let x0: usize = columns.0;
    let x1: usize = columns.1;
    let y0: usize = rows.0;
    let y1: usize = rows.1;
    let mut y: usize = y0;
    while y < y1
        invariant
            context.width == width,
            context.height == height,
            context.image == before.image,
            context.frame_buffer@.len() == count,
            context.z_buffer@.len() == count,
            count == width * height,
            0 < width <= 65535,
            0 < height <= 65535,
            before.wf(),
            before.width == width,
            before.height == height,
            target == before.with_triangle(*triangle, cell),
            t == triangle.oriented(),
            t.wf(),
            area2 == t.area2(),
            area2 > 0,
            x0 <= x1 <= width,
            y0 <= y <= y1 <= height,
            forall|i: int|
                0 <= i < count ==> #[trigger] context@.agrees_at(
                    before,
                    target,
                    i,
                    x0 as int,
                    x1 as int,
                    y0 as int,
                    y as int,
                    x0 as int,
                ),
        decreases y1 - y,
    {
        let mut x: usize = x0;
        while x < x1
            invariant
                context.width == width,
                context.height == height,
                context.image == before.image,
                context.frame_buffer@.len() == count,
                context.z_buffer@.len() == count,
                count == width * height,
                0 < width <= 65535,
                0 < height <= 65535,
                before.wf(),
                before.width == width,
                before.height == height,
                target == before.with_triangle(*triangle, cell),
                t == triangle.oriented(),
                t.wf(),
                area2 == t.area2(),
                area2 > 0,
                x0 <= x <= x1 <= width,
                y0 <= y < y1 <= height,
                forall|i: int|
                    0 <= i < count ==> #[trigger] context@.agrees_at(
                        before,
                        target,
                        i,
                        x0 as int,
                        x1 as int,
                        y0 as int,
                        y as int,
                        x as int,
                    ),
            decreases x1 - x,
        {
            proof {
                crate::context::lemma_row_bounds(width as int, height as int, y as int);
            }
            let index: usize = y * width + x;
            let ghost earlier: ContextView = context@;
            match sample(&t, area2, x, y) {
                Some(depth) => {
                    if depth < context.z_buffer[index] {
                        context.z_buffer[index] = depth;
                        context.frame_buffer[index] = cell;
                    }
                },
                None => {},
            }
            proof {
                assert forall|i: int| 0 <= i < count implies #[trigger] context@.agrees_at(
                    before,
                    target,
                    i,
                    x0 as int,
                    x1 as int,
                    y0 as int,
                    y as int,
                    x + 1,
                ) by {
                    lemma_index_of_pixel(width as int, x as int, y as int, i);
                    assert(earlier.agrees_at(
                        before,
                        target,
                        i,
                        x0 as int,
                        x1 as int,
                        y0 as int,
                        y as int,
                        x as int,
                    ));
                }
            }
            x += 1;
        }
        proof {
            assert forall|i: int| 0 <= i < count implies #[trigger] context@.agrees_at(
                before,
                target,
                i,
                x0 as int,
                x1 as int,
                y0 as int,
                y + 1,
                x0 as int,
            ) by {
                assert(context@.agrees_at(
                    before,
                    target,
                    i,
                    x0 as int,
                    x1 as int,
                    y0 as int,
                    y as int,
                    x1 as int,
                ));
            }
        }
        y += 1;
    }
    proof {
        assert forall|i: int| 0 <= i < count implies context@.cells[i] == target.cells[i]
            && context@.depths[i] == target.depths[i] by {
            assert(context@.agrees_at(
                before,
                target,
                i,
                x0 as int,
                x1 as int,
                y0 as int,
                y1 as int,
                x0 as int,
            ));
            lemma_row_below_height(width as int, height as int, i);
            let c = i % (width as int);
            let r = i / (width as int);
            if t.inside(pixel_center(c), pixel_center(r)) {
                lemma_inside_bounding_box(t, pixel_center(c), pixel_center(r));
            }
        }
        assert(context@.cells =~= target.cells);
        assert(context@.depths =~= target.depths);
    }
}

/// Drawing a triangle never moves the depth of a pixel away from the viewer,
/// and leaves every pixel whose centre the triangle covers at most as deep
/// as the triangle is there.
pub proof fn lemma_draw_keeps_nearest(
    context: ContextView,
    triangle: ScreenTriangle,
    cell: Cell,
    i: int,
)
    requires
        context.wf(),
        triangle.wf(),
        0 <= i < context.depths.len(),
    ensures
        context.with_triangle(triangle, cell).depths[i] <= context.depths[i],
        triangle.covers_pixel(context.column_of(i), context.row_of(i)) ==> context.with_triangle(
            triangle,
            cell,
        ).depths[i] <= triangle.depth_at_pixel(context.column_of(i), context.row_of(i)),
        context.with_triangle(triangle, cell).depths[i] == context.depths[i] || (
        triangle.covers_pixel(context.column_of(i), context.row_of(i)) && context.with_triangle(
            triangle,
            cell,
        ).depths[i] == triangle.depth_at_pixel(context.column_of(i), context.row_of(i))),
{
    let x = context.column_of(i);
    let y = context.row_of(i);
    if triangle.covers_pixel(x, y) {
        lemma_depth_within_limits(triangle.oriented(), pixel_center(x), pixel_center(y));
    }
}

/// Two triangles drawn into a cleared context leave every
/// pixel at the same depth whichever is drawn first, and that depth is at
/// most the depth of each of the two that covers the centre of the pixel: the
/// nearest wins. Where one of them is strictly nearer than the other, the
/// pixel shows its cell in either order.
pub proof fn lemma_nearest_wins(
    context: ContextView,
    first: ScreenTriangle,
    second: ScreenTriangle,
    first_cell: Cell,
    second_cell: Cell,
    i: int,
)
    requires
        context.wf(),
        first.wf(),
        second.wf(),
        0 <= i < context.depths.len(),
    ensures
        ({
            let one = context.cleared().with_triangle(first, first_cell).with_triangle(
                second,
                second_cell,
            );
            let other = context.cleared().with_triangle(second, second_cell).with_triangle(
                first,
                first_cell,
            );
            let x = context.column_of(i);
            let y = context.row_of(i);
            &&& one.depths[i] == other.depths[i]
            &&& first.covers_pixel(x, y) ==> one.depths[i] <= first.depth_at_pixel(x, y)
            &&& second.covers_pixel(x, y) ==> one.depths[i] <= second.depth_at_pixel(x, y)
            &&& !first.covers_pixel(x, y) && !second.covers_pixel(x, y) ==> one.depths[i]
                == FARTHEST && one.cells[i] == crate::context::background() && other.cells[i]
                == crate::context::background()
            &&& first.covers_pixel(x, y) && (!second.covers_pixel(x, y) || first.depth_at_pixel(
                x,
                y,
            ) < second.depth_at_pixel(x, y)) ==> one.cells[i] == first_cell && other.cells[i]
                == first_cell
            &&& second.covers_pixel(x, y) && (!first.covers_pixel(x, y) || second.depth_at_pixel(
                x,
                y,
            ) < first.depth_at_pixel(x, y)) ==> one.cells[i] == second_cell && other.cells[i]
                == second_cell
        }),
{
    let x = context.column_of(i);
    let y = context.row_of(i);
    if first.covers_pixel(x, y) {
        lemma_depth_within_limits(first.oriented(), pixel_center(x), pixel_center(y));
    }
    if second.covers_pixel(x, y) {
        lemma_depth_within_limits(second.oriented(), pixel_center(x), pixel_center(y));
    }
}

/// A triangle covers the same points whichever way it is wound.
pub proof fn lemma_covers_either_winding(t: ScreenTriangle, px: int, py: int)
    ensures
        t.covers(px, py) == (ScreenTriangle { a: t.a, b: t.c, c: t.b }).covers(px, py),
        t.area2() != 0 ==> t.depth_at(px, py) == (ScreenTriangle {
            a: t.a,
            b: t.c,
            c: t.b,
        }).depth_at(px, py),
{
}

/// Of an edge and its reverse, exactly one accepts a point, unless the ends
/// of the edge coincide.
pub proof fn lemma_edge_or_reverse(a: ScreenVertex, c: ScreenVertex, px: int, py: int)
    requires
        a.x != c.x || a.y != c.y,
    ensures
        edge_accepts(a, c, px, py) != edge_accepts(c, a, px, py),
{
    lemma_edge_expanded(a, c, px, py);
    lemma_edge_expanded(c, a, px, py);
}

/// Whether the four outer edges of the quad `a b c d` accept a point, the
/// edges taken in the direction that has the quad on their inner side.
pub open spec fn quad_accepts(
    a: ScreenVertex,
    b: ScreenVertex,
    c: ScreenVertex,
    d: ScreenVertex,
    px: int,
    py: int,
) -> bool {
    if (ScreenTriangle { a: a, b: b, c: c }).area2() > 0 {
        edge_accepts(a, b, px, py) && edge_accepts(b, c, px, py) && edge_accepts(c, d, px, py)
            && edge_accepts(d, a, px, py)
    } else {
        edge_accepts(a, d, px, py) && edge_accepts(d, c, px, py) && edge_accepts(c, b, px, py)
            && edge_accepts(b, a, px, py)
    }
}

/// The triangles `a b c` and `a c d` share the edge between `a` and `c`
/// and lie on either side of it: both are wound the same way, whichever
/// that is. No point is covered by both. A point that the four outer edges
/// of the quad accept, so every point strictly inside it, is covered by
/// exactly one of them.
pub proof fn lemma_shared_edge_covered_once(
    a: ScreenVertex,
    b: ScreenVertex,
    c: ScreenVertex,
    d: ScreenVertex,
    px: int,
    py: int,
)
    requires
        ((ScreenTriangle { a: a, b: b, c: c }).area2() > 0 && (ScreenTriangle {
            a: a,
            b: c,
            c: d,
        }).area2() > 0) || ((ScreenTriangle { a: a, b: b, c: c }).area2() < 0 && (ScreenTriangle {
            a: a,
            b: c,
            c: d,
        }).area2() < 0),
    ensures
        !((ScreenTriangle { a: a, b: b, c: c }).covers(px, py) && (ScreenTriangle {
            a: a,
            b: c,
            c: d,
        }).covers(px, py)),
        quad_accepts(a, b, c, d, px, py) ==> ((ScreenTriangle { a: a, b: b, c: c }).covers(px, py)
            != (ScreenTriangle { a: a, b: c, c: d }).covers(px, py)),
{
    if a.x == c.x && a.y == c.y {
        lemma_edge_expanded(a, b, c.x as int, c.y as int);
    }
    lemma_edge_or_reverse(a, c, px, py);
    let t1 = ScreenTriangle { a: a, b: b, c: c };
    let t2 = ScreenTriangle { a: a, b: c, c: d };
    lemma_edge_expanded(a, b, c.x as int, c.y as int);
    lemma_edge_expanded(a, c, b.x as int, b.y as int);
    lemma_edge_expanded(a, c, d.x as int, d.y as int);
    lemma_edge_expanded(a, d, c.x as int, c.y as int);
    assert(t1.oriented().area2() > 0);
    assert(t2.oriented().area2() > 0);
}

} // verus!
