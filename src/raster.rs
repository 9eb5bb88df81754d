//! Screen-space triangle geometry: edge functions, the inside test and the
//! clamped bounding box that the rasterizer walks.
//!
//! Coordinates are fixed point: one pixel is `SUBPIXEL` units along each axis,
//! and pixel `(x, y)` is sampled at its top-left corner `(x * SUBPIXEL, y * SUBPIXEL)`.
use vstd::prelude::*;
use vstd::arithmetic::mul::{
    lemma_mul_is_associative, lemma_mul_is_commutative, lemma_mul_is_distributive_add,
    lemma_mul_is_distributive_add_other_way, lemma_mul_is_distributive_sub,
    lemma_mul_is_distributive_sub_other_way,
};

verus! {

/// Sub-pixel units per pixel.
pub const SUBPIXEL: i64 = 256;

/// A projected vertex in sub-pixel units.
#[derive(Clone, Copy, Debug, PartialEq, Eq, Structural)]
pub struct ScreenPoint {
    pub x: i32,
    pub y: i32,
}

impl ScreenPoint {
    pub fn new(x: i32, y: i32) -> (p: ScreenPoint)
        ensures
            p == (ScreenPoint { x, y }),
    {
        ScreenPoint { x, y }
    }
}

/// The edge function of the directed edge `a -> b` at `(px, py)`: the dot product
/// of `p - a` with `b - a` turned a quarter turn, twice the signed area of `a, b, p`.
pub open spec fn edge(a: ScreenPoint, b: ScreenPoint, px: int, py: int) -> int {
    (b.x - a.x) * (py - a.y) - (b.y - a.y) * (px - a.x)
}

/// Twice the signed area of the triangle `a, b, c`; positive for the winding
/// that the inside test accepts.
pub open spec fn area2(a: ScreenPoint, b: ScreenPoint, c: ScreenPoint) -> int {
    edge(a, b, c.x as int, c.y as int)
}

/// How much the edge function of `a -> b` changes from one pixel to the next along x.
pub open spec fn edge_step_x(a: ScreenPoint, b: ScreenPoint) -> int {
    SUBPIXEL * (a.y - b.y)
}

/// How much the edge function of `a -> b` changes from one pixel row to the next.
pub open spec fn edge_step_y(a: ScreenPoint, b: ScreenPoint) -> int {
    SUBPIXEL * (b.x - a.x)
}

/// The three edge functions of a triangle are all non-negative at `(px, py)`.
pub open spec fn inside(a: ScreenPoint, b: ScreenPoint, c: ScreenPoint, px: int, py: int) -> bool {
    &&& edge(a, b, px, py) >= 0
    &&& edge(b, c, px, py) >= 0
    &&& edge(c, a, px, py) >= 0
}

/// The sample point of pixel `(x, y)` lies inside the triangle.
pub open spec fn covers(a: ScreenPoint, b: ScreenPoint, c: ScreenPoint, x: int, y: int) -> bool {
    inside(a, b, c, x * SUBPIXEL, y * SUBPIXEL)
}

/// `(px, py)` is a convex combination of the corners with integer weights
/// `wa, wb, wc` (barycentric coordinates scaled by their sum).
pub open spec fn weighted(
    a: ScreenPoint,
    b: ScreenPoint,
    c: ScreenPoint,
    px: int,
    py: int,
    wa: int,
    wb: int,
    wc: int,
) -> bool {
    &&& (wa + wb + wc) * px == wa * a.x + wb * b.x + wc * c.x
    &&& (wa + wb + wc) * py == wa * a.y + wb * b.y + wc * c.y
}

/// `(px, py)` lies in the closed triangle: some non-negative weights with a
/// positive sum place it there.
pub open spec fn in_closed_triangle(
    a: ScreenPoint,
    b: ScreenPoint,
    c: ScreenPoint,
    px: int,
    py: int,
) -> bool {
    exists|wa: int, wb: int, wc: int|
        wa >= 0 && wb >= 0 && wc >= 0 && wa + wb + wc > 0 && #[trigger] weighted(
            a,
            b,
            c,
            px,
            py,
            wa,
            wb,
            wc,
        )
}

pub open spec fn min3(a: int, b: int, c: int) -> int {
    if a <= b && a <= c {
        a
    } else if b <= c {
        b
    } else {
        c
    }
}

pub open spec fn max3(a: int, b: int, c: int) -> int {
    if a >= b && a >= c {
        a
    } else if b >= c {
        b
    } else {
        c
    }
}

/// The pixel at or left of a sub-pixel coordinate, no less than zero.
pub open spec fn pixel_floor(v: int) -> int {
    if v <= 0 {
        0
    } else {
        v / (SUBPIXEL as int)
    }
}

/// The pixel at or right of a sub-pixel coordinate, no less than zero.
pub open spec fn pixel_ceil(v: int) -> int {
    if v <= 0 {
        0
    } else {
        (v + SUBPIXEL - 1) / (SUBPIXEL as int)
    }
}

pub open spec fn clamp_hi(v: int, hi: int) -> int {
    if v > hi {
        hi
    } else {
        v
    }
}

/// The triangle's bounding box in pixels, clamped to a `width` x `height` grid:
/// `(x_start, y_start, x_end, y_end)`, both ends included.
pub open spec fn bounding_box(
    a: ScreenPoint,
    b: ScreenPoint,
    c: ScreenPoint,
    width: int,
    height: int,
) -> (int, int, int, int) {
    (
        clamp_hi(pixel_floor(min3(a.x as int, b.x as int, c.x as int)), width - 1),
        clamp_hi(pixel_floor(min3(a.y as int, b.y as int, c.y as int)), height - 1),
        clamp_hi(pixel_ceil(max3(a.x as int, b.x as int, c.x as int)), width - 1),
        clamp_hi(pixel_ceil(max3(a.y as int, b.y as int, c.y as int)), height - 1),
    )
}

pub open spec fn in_box(
    a: ScreenPoint,
    b: ScreenPoint,
    c: ScreenPoint,
    width: int,
    height: int,
    x: int,
    y: int,
) -> bool {
    let bb = bounding_box(a, b, c, width, height);
    bb.0 <= x <= bb.2 && bb.1 <= y <= bb.3
}

/// The pixel `(x, y)` receives the triangle's color.
pub open spec fn paints(
    a: ScreenPoint,
    b: ScreenPoint,
    c: ScreenPoint,
    width: int,
    height: int,
    x: int,
    y: int,
) -> bool {
    in_box(a, b, c, width, height, x, y) && covers(a, b, c, x, y)
}


/// `(a - b) * (c - d)` multiplied out.
proof fn lemma_expand(a: int, b: int, c: int, d: int)
    ensures
        (a - b) * (c - d) == a * c - a * d - b * c + b * d,
{
    lemma_mul_is_distributive_sub(a - b, c, d);
    lemma_mul_is_distributive_sub_other_way(c, a, b);
    lemma_mul_is_distributive_sub_other_way(d, a, b);
}

/// A product of three factors does not depend on their grouping or order.
proof fn lemma_mono3(x: int, y: int, z: int)
    ensures
        (x * y) * z == (y * z) * x,
        (x * y) * z == (x * z) * y,
        (x * y) * z == x * (y * z),
{
    lemma_mul_is_associative(x, y, z);
    lemma_mul_is_commutative(x, y * z);
    lemma_mul_is_commutative(y, z);
    lemma_mul_is_associative(x, z, y);
}

/// The edge function of `a -> b` at a weighted point, scaled by the weights'
/// sum, is the weight of `c` times the doubled area.
proof fn lemma_weighted_edge(
    a: ScreenPoint,
    b: ScreenPoint,
    c: ScreenPoint,
    px: int,
    py: int,
    wa: int,
    wb: int,
    wc: int,
)
    requires
        weighted(a, b, c, px, py, wa, wb, wc),
    ensures
        (wa + wb + wc) * edge(a, b, px, py) == wc * area2(a, b, c),
{
    let s = wa + wb + wc;
    let (ax, ay) = (a.x as int, a.y as int);
    let (bx, by, cx, cy, qx, qy) = (b.x - ax, b.y - ay, c.x - ax, c.y - ay, px - ax, py - ay);
    // s * q == wb * (b - a) + wc * (c - a)
    lemma_mul_is_distributive_sub(s, px, ax);
    lemma_mul_is_distributive_sub(s, py, ay);
    lemma_mul_is_distributive_add_other_way(ax, wa + wb, wc);
    lemma_mul_is_distributive_add_other_way(ax, wa, wb);
    lemma_mul_is_distributive_add_other_way(ay, wa + wb, wc);
    lemma_mul_is_distributive_add_other_way(ay, wa, wb);
    lemma_mul_is_distributive_sub(wb, b.x as int, ax);
    lemma_mul_is_distributive_sub(wc, c.x as int, ax);
    lemma_mul_is_distributive_sub(wb, b.y as int, ay);
    lemma_mul_is_distributive_sub(wc, c.y as int, ay);
    assert(s * qx == wb * bx + wc * cx);
    assert(s * qy == wb * by + wc * cy);
    // s * (bx * qy - by * qx) == bx * (s * qy) - by * (s * qx)
    lemma_mul_is_distributive_sub(s, bx * qy, by * qx);
    lemma_mono3(s, bx, qy);
    lemma_mono3(bx, s, qy);
    lemma_mono3(s, by, qx);
    lemma_mono3(by, s, qx);
    lemma_mul_is_commutative(s, bx);
    lemma_mul_is_commutative(s, by);
    assert(s * (bx * qy) == bx * (s * qy));
    assert(s * (by * qx) == by * (s * qx));
    lemma_mul_is_distributive_add(bx, wb * by, wc * cy);
    lemma_mul_is_distributive_add(by, wb * bx, wc * cx);
    lemma_mono3(bx, wb, by);
    lemma_mono3(by, wb, bx);
    lemma_mul_is_commutative(bx, wb);
    lemma_mul_is_commutative(by, wb);
    lemma_mul_is_commutative(bx, by);
    lemma_mono3(wb, bx, by);
    lemma_mono3(wb, by, bx);
    lemma_mono3(bx, wc, cy);
    lemma_mono3(by, wc, cx);
    lemma_mul_is_commutative(bx, wc);
    lemma_mul_is_commutative(by, wc);
    lemma_mono3(wc, bx, cy);
    lemma_mono3(wc, by, cx);
    lemma_mul_is_distributive_sub(wc, bx * cy, by * cx);
    assert(edge(a, b, px, py) == bx * qy - by * qx);
    assert(area2(a, b, c) == bx * cy - by * cx);
}

/// The doubled area does not depend on which corner is named first.
proof fn lemma_area_rotates(a: ScreenPoint, b: ScreenPoint, c: ScreenPoint)
    ensures
        area2(b, c, a) == area2(a, b, c),
{
    let (ax, ay, bx, by, cx, cy) = (a.x as int, a.y as int, b.x as int, b.y as int, c.x as int, c.y as int);
    lemma_expand(bx, ax, cy, ay);
    lemma_expand(by, ay, cx, ax);
    lemma_expand(cx, bx, ay, by);
    lemma_expand(cy, by, ax, bx);
    lemma_mul_is_commutative(ax, by);
    lemma_mul_is_commutative(ay, bx);
    lemma_mul_is_commutative(ax, ay);
    lemma_mul_is_commutative(bx, by);
    lemma_mul_is_commutative(cx, ay);
    lemma_mul_is_commutative(cy, ax);
    lemma_mul_is_commutative(bx, cy);
    lemma_mul_is_commutative(by, cx);
}

/// Inside test, first half: for a triangle with positive winding, every point
/// strictly inside it (all barycentric weights positive) has three positive,
/// hence non-negative, edge functions.
pub proof fn lemma_strictly_inside_passes(
    a: ScreenPoint,
    b: ScreenPoint,
    c: ScreenPoint,
    px: int,
    py: int,
    wa: int,
    wb: int,
    wc: int,
)
    requires
        area2(a, b, c) > 0,
        wa > 0,
        wb > 0,
        wc > 0,
        weighted(a, b, c, px, py, wa, wb, wc),
    ensures
        edge(a, b, px, py) > 0,
        edge(b, c, px, py) > 0,
        edge(c, a, px, py) > 0,
        inside(a, b, c, px, py),
{
    lemma_weighted_edge(a, b, c, px, py, wa, wb, wc);
    lemma_weighted_edge(b, c, a, px, py, wb, wc, wa);
    lemma_weighted_edge(c, a, b, px, py, wc, wa, wb);
    lemma_area_rotates(a, b, c);
    lemma_area_rotates(b, c, a);
    let s = wa + wb + wc;
    let area = area2(a, b, c);
    lemma_positive_quotient(s, edge(a, b, px, py), wc, area);
    lemma_positive_quotient(s, edge(b, c, px, py), wa, area);
    lemma_positive_quotient(s, edge(c, a, px, py), wb, area);
}

proof fn lemma_positive_quotient(s: int, e: int, w: int, area: int)
    requires
        s > 0,
        w > 0,
        area > 0,
        s * e == w * area,
    ensures
        e > 0,
{
    assert(w * area > 0) by (nonlinear_arith)
        requires
            w > 0,
            area > 0,
    ;
    if e <= 0 {
        assert(s * e <= 0) by (nonlinear_arith)
            requires
                s > 0,
                e <= 0,
        ;
    }
}

/// The three edge functions always add up to the doubled area, and weighting the
/// corners by the edge functions opposite them gives the point back.
proof fn lemma_edges_are_weights(a: ScreenPoint, b: ScreenPoint, c: ScreenPoint, px: int, py: int)
    ensures
        edge(a, b, px, py) + edge(b, c, px, py) + edge(c, a, px, py) == area2(a, b, c),
        weighted(a, b, c, px, py, edge(b, c, px, py), edge(c, a, px, py), edge(a, b, px, py)),
{
    // Work relative to corner `a`.
    let (ax, ay) = (a.x as int, a.y as int);
    let (bx, by, cx, cy, qx, qy) = (b.x - ax, b.y - ay, c.x - ax, c.y - ay, px - ax, py - ay);
    let ea = edge(b, c, px, py);
    let eb = edge(c, a, px, py);
    let ec = edge(a, b, px, py);
    assert(ea == (cx - bx) * (qy - by) - (cy - by) * (qx - bx));
    assert(eb == (0 - cx) * (qy - cy) - (0 - cy) * (qx - cx));
    assert(ec == bx * qy - by * qx);
    assert(area2(a, b, c) == bx * cy - by * cx);
    lemma_relative_weights(bx, by, cx, cy, qx, qy, ea, eb, ec);
    let s = ea + eb + ec;
    assert(s * px == s * ax + s * qx) by (nonlinear_arith)
        requires
            qx == px - ax,
    ;
    assert(s * py == s * ay + s * qy) by (nonlinear_arith)
        requires
            qy == py - ay,
    ;
    assert(eb * b.x == eb * ax + eb * bx) by (nonlinear_arith)
        requires
            bx == b.x - ax,
    ;
    assert(ec * c.x == ec * ax + ec * cx) by (nonlinear_arith)
        requires
            cx == c.x - ax,
    ;
    assert(eb * b.y == eb * ay + eb * by) by (nonlinear_arith)
        requires
            by == b.y - ay,
    ;
    assert(ec * c.y == ec * ay + ec * cy) by (nonlinear_arith)
        requires
            cy == c.y - ay,
    ;
    assert(s * ax == ea * ax + eb * ax + ec * ax) by (nonlinear_arith)
        requires
            s == ea + eb + ec,
    ;
    assert(s * ay == ea * ay + eb * ay + ec * ay) by (nonlinear_arith)
        requires
            s == ea + eb + ec,
    ;
}

/// The barycentric identities with corner `a` at the origin.
proof fn lemma_relative_weights(
    bx: int,
    by: int,
    cx: int,
    cy: int,
    qx: int,
    qy: int,
    ea: int,
    eb: int,
    ec: int,
)
    requires
        ea == (cx - bx) * (qy - by) - (cy - by) * (qx - bx),
        eb == (0 - cx) * (qy - cy) - (0 - cy) * (qx - cx),
        ec == bx * qy - by * qx,
    ensures
        ea + eb + ec == bx * cy - by * cx,
        (ea + eb + ec) * qx == eb * bx + ec * cx,
        (ea + eb + ec) * qy == eb * by + ec * cy,
{
    lemma_expand(cx, bx, qy, by);
    lemma_expand(cy, by, qx, bx);
    lemma_expand(0, cx, qy, cy);
    lemma_expand(0, cy, qx, cx);
    lemma_mul_is_commutative(bx, by);
    lemma_mul_is_commutative(cx, cy);
    lemma_mul_is_commutative(cy, bx);
    lemma_mul_is_commutative(cx, by);
    assert(eb == cy * qx - cx * qy);
    lemma_mul_is_distributive_sub_other_way(qx, bx * cy, by * cx);
    lemma_mul_is_distributive_sub_other_way(bx, cy * qx, cx * qy);
    lemma_mul_is_distributive_sub_other_way(cx, bx * qy, by * qx);
    lemma_mono3(bx, cy, qx);
    lemma_mono3(by, cx, qx);
    lemma_mono3(cx, qy, bx);
    lemma_mul_is_commutative(qy, bx);
    lemma_mul_is_distributive_sub_other_way(qy, bx * cy, by * cx);
    lemma_mul_is_distributive_sub_other_way(by, cy * qx, cx * qy);
    lemma_mul_is_distributive_sub_other_way(cy, bx * qy, by * qx);
    lemma_mono3(bx, cy, qy);
    lemma_mono3(by, cx, qy);
    lemma_mono3(cy, qx, by);
    lemma_mul_is_commutative(qx, by);
    lemma_mono3(cx, qy, by);
    lemma_mono3(bx, qy, cy);
    lemma_mono3(by, qx, cy);
}

/// Inside test, second half: for a triangle with positive winding, every point
/// outside the closed triangle has a negative edge function.
pub proof fn lemma_outside_fails(a: ScreenPoint, b: ScreenPoint, c: ScreenPoint, px: int, py: int)
    requires
        area2(a, b, c) > 0,
        !in_closed_triangle(a, b, c, px, py),
    ensures
        edge(a, b, px, py) < 0 || edge(b, c, px, py) < 0 || edge(c, a, px, py) < 0,
        !inside(a, b, c, px, py),
{
    lemma_edges_are_weights(a, b, c, px, py);
    let (wa, wb, wc) = (edge(b, c, px, py), edge(c, a, px, py), edge(a, b, px, py));
    if wa >= 0 && wb >= 0 && wc >= 0 {
        assert(weighted(a, b, c, px, py, wa, wb, wc));
        assert(in_closed_triangle(a, b, c, px, py));
    }
}

/// A weighted mean of three values lies between their least and greatest.
proof fn lemma_weighted_mean_bounds(wa: int, wb: int, wc: int, va: int, vb: int, vc: int, v: int)
    requires
        wa >= 0,
        wb >= 0,
        wc >= 0,
        wa + wb + wc > 0,
        (wa + wb + wc) * v == wa * va + wb * vb + wc * vc,
    ensures
        min3(va, vb, vc) <= v <= max3(va, vb, vc),
{
    let (lo, hi) = (min3(va, vb, vc), max3(va, vb, vc));
    let s = wa + wb + wc;
    assert(wa * va + wb * vb + wc * vc >= s * lo) by (nonlinear_arith)
        requires
            wa >= 0,
            wb >= 0,
            wc >= 0,
            va >= lo,
            vb >= lo,
            vc >= lo,
            s == wa + wb + wc,
    ;
    assert(wa * va + wb * vb + wc * vc <= s * hi) by (nonlinear_arith)
        requires
            wa >= 0,
            wb >= 0,
            wc >= 0,
            va <= hi,
            vb <= hi,
            vc <= hi,
            s == wa + wb + wc,
    ;
    assert(lo <= v <= hi) by (nonlinear_arith)
        requires
            s > 0,
            s * v >= s * lo,
            s * v <= s * hi,
    ;
}

/// For a triangle with positive winding, every pixel of the grid whose sample
/// it covers lies in its clamped bounding box: walking the box misses none.
pub proof fn lemma_box_holds_covered_pixels(
    a: ScreenPoint,
    b: ScreenPoint,
    c: ScreenPoint,
    width: int,
    height: int,
    x: int,
    y: int,
)
    requires
        area2(a, b, c) > 0,
        0 <= x < width,
        0 <= y < height,
        covers(a, b, c, x, y),
    ensures
        in_box(a, b, c, width, height, x, y),
{
    let (px, py) = (x * SUBPIXEL, y * SUBPIXEL);
    lemma_edges_are_weights(a, b, c, px, py);
    let (wa, wb, wc) = (edge(b, c, px, py), edge(c, a, px, py), edge(a, b, px, py));
    lemma_weighted_mean_bounds(wa, wb, wc, a.x as int, b.x as int, c.x as int, px);
    lemma_weighted_mean_bounds(wa, wb, wc, a.y as int, b.y as int, c.y as int, py);
    lemma_pixel_range(min3(a.x as int, b.x as int, c.x as int), max3(a.x as int, b.x as int, c.x as int), x);
    lemma_pixel_range(min3(a.y as int, b.y as int, c.y as int), max3(a.y as int, b.y as int, c.y as int), y);
}

/// A pixel whose sample lies between `lo` and `hi` lies between their pixels.
proof fn lemma_pixel_range(lo: int, hi: int, x: int)
    requires
        x >= 0,
        lo <= x * SUBPIXEL <= hi,
    ensures
        pixel_floor(lo) <= x <= pixel_ceil(hi),
{
    let s = SUBPIXEL as int;
    if lo > 0 {
        assert(lo / s <= x);
    }
    if hi > 0 {
        assert((hi + s - 1) / s >= x);
    }
}

/// Stepping an edge function from pixel `(x0, y0)` to pixel `(x, y)` by its
/// per-pixel deltas gives the same value as evaluating it at `(x, y)` directly.
pub proof fn lemma_stepped_edge_is_direct(
    a: ScreenPoint,
    b: ScreenPoint,
    x0: int,
    y0: int,
    x: int,
    y: int,
)
    ensures
        edge(a, b, x0 * SUBPIXEL, y0 * SUBPIXEL) + (x - x0) * edge_step_x(a, b) + (y - y0)
            * edge_step_y(a, b) == edge(a, b, x * SUBPIXEL, y * SUBPIXEL),
{
    let (ax, ay, u, v) = (a.x as int, a.y as int, b.x - a.x, b.y - a.y);
    let s = SUBPIXEL as int;
    let (sx0, sy0, sx, sy) = (x0 * s, y0 * s, x * s, y * s);
    assert((x - x0) * edge_step_x(a, b) == (0 - v) * (sx - sx0)) by (nonlinear_arith)
        requires
            sx == x * s,
            sx0 == x0 * s,
            edge_step_x(a, b) == s * (0 - v),
    ;
    assert((y - y0) * edge_step_y(a, b) == u * (sy - sy0)) by (nonlinear_arith)
        requires
            sy == y * s,
            sy0 == y0 * s,
            edge_step_y(a, b) == s * u,
    ;
    assert(u * (sy0 - ay) - v * (sx0 - ax) + (0 - v) * (sx - sx0) + u * (sy - sy0) == u * (sy - ay)
        - v * (sx - ax)) by (nonlinear_arith);
}

/// One step right along a row.
pub proof fn lemma_step_right(a: ScreenPoint, b: ScreenPoint, x: int, y: int)
    ensures
        edge(a, b, x * SUBPIXEL, y * SUBPIXEL) + edge_step_x(a, b) == edge(a, b, (x + 1) * SUBPIXEL, y * SUBPIXEL),
{
    lemma_stepped_edge_is_direct(a, b, x, y, x + 1, y);
    assert((x + 1 - x) * edge_step_x(a, b) == edge_step_x(a, b)) by (nonlinear_arith);
    assert((y - y) * edge_step_y(a, b) == 0);
}

/// One step down to the next row.
pub proof fn lemma_step_down(a: ScreenPoint, b: ScreenPoint, x: int, y: int)
    ensures
        edge(a, b, x * SUBPIXEL, y * SUBPIXEL) + edge_step_y(a, b) == edge(a, b, x * SUBPIXEL, (y + 1) * SUBPIXEL),
{
    lemma_stepped_edge_is_direct(a, b, x, y, x, y + 1);
    assert((x - x) * edge_step_x(a, b) == 0);
    assert((y + 1 - y) * edge_step_y(a, b) == edge_step_y(a, b)) by (nonlinear_arith);
}

/// Sample coordinates within this distance of the origin keep every edge
/// function within `EDGE_BOUND`.
pub const SAMPLE_BOUND: i128 = 0x100_0000_0000;

/// A bound on the edge functions at samples within `SAMPLE_BOUND`.
pub const EDGE_BOUND: i128 = 0x1_0000_0000_0000_0000_0000;

proof fn lemma_product_bound(x: int, y: int, bx: int, by: int)
    requires
        -bx <= x <= bx,
        -by <= y <= by,
    ensures
        -(bx * by) <= x * y <= bx * by,
{
    assert(-(bx * by) <= x * y <= bx * by) by (nonlinear_arith)
        requires
            -bx <= x <= bx,
            -by <= y <= by,
    ;
}

/// Edge functions at samples near the grid stay far from `i128`'s limits.
pub proof fn lemma_edge_bound(a: ScreenPoint, b: ScreenPoint, px: int, py: int)
    requires
        -SAMPLE_BOUND <= px <= SAMPLE_BOUND,
        -SAMPLE_BOUND <= py <= SAMPLE_BOUND,
    ensures
        -EDGE_BOUND <= edge(a, b, px, py) <= EDGE_BOUND,
{
    lemma_product_bound(b.x - a.x, py - a.y, 0x1_0000_0000, 0x200_0000_0000);
    lemma_product_bound(b.y - a.y, px - a.x, 0x1_0000_0000, 0x200_0000_0000);
}

/// Evaluates the edge function of `a -> b` at `(px, py)`.
pub fn edge_at(a: ScreenPoint, b: ScreenPoint, px: i128, py: i128) -> (e: i128)
    requires
        -SAMPLE_BOUND <= px <= SAMPLE_BOUND,
        -SAMPLE_BOUND <= py <= SAMPLE_BOUND,
    ensures
        e == edge(a, b, px as int, py as int),
{
    proof {
        lemma_edge_bound(a, b, px as int, py as int);
        lemma_product_bound(b.x - a.x, py - a.y, 0x1_0000_0000, 0x200_0000_0000);
        lemma_product_bound(b.y - a.y, px - a.x, 0x1_0000_0000, 0x200_0000_0000);
    }
    let ux = b.x as i128 - a.x as i128;
    let uy = b.y as i128 - a.y as i128;
    ux * (py - a.y as i128) - uy * (px - a.x as i128)
}

/// Whether the point `p` passes the inside test of the triangle `a, b, c`: all
/// three edge functions are non-negative there.
pub fn is_in_triangle(p: ScreenPoint, a: ScreenPoint, b: ScreenPoint, c: ScreenPoint) -> (r: bool)
    ensures
        r == inside(a, b, c, p.x as int, p.y as int),
{
    let (px, py) = (p.x as i128, p.y as i128);
    edge_at(a, b, px, py) >= 0 && edge_at(b, c, px, py) >= 0 && edge_at(c, a, px, py) >= 0
}

fn min3_exec(a: i32, b: i32, c: i32) -> (m: i32)
    ensures
        m == min3(a as int, b as int, c as int),
{
    if a <= b && a <= c {
        a
    } else if b <= c {
        b
    } else {
        c
    }
}

fn max3_exec(a: i32, b: i32, c: i32) -> (m: i32)
    ensures
        m == max3(a as int, b as int, c as int),
{
    if a >= b && a >= c {
        a
    } else if b >= c {
        b
    } else {
        c
    }
}

fn floor_to_pixel(v: i32) -> (p: usize)
    ensures
        p == pixel_floor(v as int),
        p <= 0x80_0000,
{
    if v <= 0 {
        0
    } else {
        (v as i64 / SUBPIXEL) as usize
    }
}

fn ceil_to_pixel(v: i32) -> (p: usize)
    ensures
        p == pixel_ceil(v as int),
        p <= 0x80_0000,
{
    if v <= 0 {
        0
    } else {
        ((v as i64 + SUBPIXEL - 1) / SUBPIXEL) as usize
    }
}

fn clamp_to(v: usize, hi: usize) -> (r: usize)
    ensures
        r == clamp_hi(v as int, hi as int),
{
    if v > hi {
        hi
    } else {
        v
    }
}

/// The triangle's bounding box on a `width` x `height` grid, both ends included.
pub fn pixel_box(
    a: ScreenPoint,
    b: ScreenPoint,
    c: ScreenPoint,
    width: usize,
    height: usize,
) -> (r: (usize, usize, usize, usize))
    requires
        width >= 1,
        height >= 1,
    ensures
        r.0 == bounding_box(a, b, c, width as int, height as int).0,
        r.1 == bounding_box(a, b, c, width as int, height as int).1,
        r.2 == bounding_box(a, b, c, width as int, height as int).2,
        r.3 == bounding_box(a, b, c, width as int, height as int).3,
        r.0 <= r.2 < width,
        r.1 <= r.3 < height,
        r.2 <= 0x80_0000,
        r.3 <= 0x80_0000,
{
    let x_lo = floor_to_pixel(min3_exec(a.x, b.x, c.x));
    let y_lo = floor_to_pixel(min3_exec(a.y, b.y, c.y));
    let x_hi = ceil_to_pixel(max3_exec(a.x, b.x, c.x));
    let y_hi = ceil_to_pixel(max3_exec(a.y, b.y, c.y));
    assert(x_lo <= x_hi && y_lo <= y_hi);
    (
        clamp_to(x_lo, width - 1),
        clamp_to(y_lo, height - 1),
        clamp_to(x_hi, width - 1),
        clamp_to(y_hi, height - 1),
    )
}

} // verus!
