//! Points, the 2D edge function, and the barycentric facts the rasterizer
//! is built on.
use vstd::prelude::*;
use crate::fixed::{mag, min3, max3, lemma_mul_rng};
use crate::COORD_BOUND;

verus! {

/// A point with fixed-point coordinates. The same type carries object,
/// world, normalized-device and screen coordinates; which space a value
/// lives in is determined by the stage that produced it, and callers must
/// not mix points from different stages.
#[derive(Clone, Copy, PartialEq, Eq, Structural, Debug)]
pub struct P {
    pub x: i64,
    pub y: i64,
    pub z: i64,
}

/// All three coordinates have magnitude at most `b`.
pub open spec fn in_bound(p: P, b: int) -> bool {
    mag(p.x as int) <= b && mag(p.y as int) <= b && mag(p.z as int) <= b
}

/// The 2D edge function: the signed area of the parallelogram spanned by
/// the directed edge a→b and the point c, taken on x and y only.
pub open spec fn edge_s(ax: int, ay: int, bx: int, by: int, cx: int, cy: int) -> int {
    (cx - ax) * (by - ay) - (cy - ay) * (bx - ax)
}

/// Twice the signed area of the screen-space triangle s0, s1, s2.
pub open spec fn area_s(s0: P, s1: P, s2: P) -> int {
    edge_s(s0.x as int, s0.y as int, s1.x as int, s1.y as int, s2.x as int, s2.y as int)
}

/// The three edge weights of the query point (px, py) against the triangle,
/// each taken against one directed edge.
pub open spec fn w0_s(s0: P, s1: P, s2: P, px: int, py: int) -> int {
    edge_s(s1.x as int, s1.y as int, s2.x as int, s2.y as int, px, py)
}

pub open spec fn w1_s(s0: P, s1: P, s2: P, px: int, py: int) -> int {
    edge_s(s2.x as int, s2.y as int, s0.x as int, s0.y as int, px, py)
}

pub open spec fn w2_s(s0: P, s1: P, s2: P, px: int, py: int) -> int {
    edge_s(s0.x as int, s0.y as int, s1.x as int, s1.y as int, px, py)
}

/// The query point lies inside the triangle (boundary included): all three
/// edge weights carry the sign of the area, so the normalized barycentric
/// weights are all at least zero. A triangle of zero area contains nothing.
pub open spec fn inside_s(s0: P, s1: P, s2: P, px: int, py: int) -> bool {
    let area = area_s(s0, s1, s2);
    let e0 = w0_s(s0, s1, s2, px, py);
    let e1 = w1_s(s0, s1, s2, px, py);
    let e2 = w2_s(s0, s1, s2, px, py);
    (area > 0 && e0 >= 0 && e1 >= 0 && e2 >= 0) || (area < 0 && e0 <= 0 && e1 <= 0 && e2 <= 0)
}

/// With every vertex translated so the query point is the origin, the
/// three cross products sum to the translation-invariant area form.
proof fn lemma_cross_sum(
    u0: int, v0: int, u1: int, v1: int, u2: int, v2: int,
) by (nonlinear_arith)
    ensures
        (u2 * v1 - u1 * v2) + (u0 * v2 - u2 * v0) + (u1 * v0 - u0 * v1) == (u2 - u0) * (v1 - v0)
            - (v2 - v0) * (u1 - u0),
{
}

/// An edge weight, rewritten relative to the query point: with every
/// vertex translated so the query point is the origin, the edge weight is
/// a plain 2D cross product.
proof fn lemma_edge_translate(
    ax: int, ay: int, bx: int, by: int, px: int, py: int,
) by (nonlinear_arith)
    ensures
        (px - ax) * (by - ay) - (py - ay) * (bx - ax) == (bx - px) * (ay - py) - (ax - px) * (by
            - py),
{
}

/// Weighting each translated vertex by the cross product of the other two
/// cancels exactly.
proof fn lemma_cross_cancel(
    u0: int, v0: int, u1: int, v1: int, u2: int, v2: int,
) by (nonlinear_arith)
    ensures
        (u2 * v1 - u1 * v2) * u0 + (u0 * v2 - u2 * v0) * u1 + (u1 * v0 - u0 * v1) * u2 == 0,
{
}

/// The edge weights of any query point sum to exactly the area of the
/// triangle — so wherever the point is inside, the three normalized
/// barycentric weights are all at least zero and sum to exactly one — and
/// weighting the vertices by the edge weights reproduces the point.
pub proof fn lemma_barycentric(s0: P, s1: P, s2: P, px: int, py: int)
    ensures
        w0_s(s0, s1, s2, px, py) + w1_s(s0, s1, s2, px, py) + w2_s(s0, s1, s2, px, py) == area_s(
            s0,
            s1,
            s2,
        ),
        w0_s(s0, s1, s2, px, py) * s0.x + w1_s(s0, s1, s2, px, py) * s1.x + w2_s(s0, s1, s2, px, py)
            * s2.x == px * area_s(s0, s1, s2),
        w0_s(s0, s1, s2, px, py) * s0.y + w1_s(s0, s1, s2, px, py) * s1.y + w2_s(s0, s1, s2, px, py)
            * s2.y == py * area_s(s0, s1, s2),
{
    let x0 = s0.x as int;
    let y0 = s0.y as int;
    let x1 = s1.x as int;
    let y1 = s1.y as int;
    let x2 = s2.x as int;
    let y2 = s2.y as int;
    let e0 = w0_s(s0, s1, s2, px, py);
    let e1 = w1_s(s0, s1, s2, px, py);
    let e2 = w2_s(s0, s1, s2, px, py);
    let area = area_s(s0, s1, s2);
    lemma_edge_translate(x1, y1, x2, y2, px, py);
    lemma_edge_translate(x2, y2, x0, y0, px, py);
    lemma_edge_translate(x0, y0, x1, y1, px, py);
    let u0 = x0 - px;
    let v0 = y0 - py;
    let u1 = x1 - px;
    let v1 = y1 - py;
    let u2 = x2 - px;
    let v2 = y2 - py;
    lemma_cross_sum(u0, v0, u1, v1, u2, v2);
    assert(area == (u2 - u0) * (v1 - v0) - (v2 - v0) * (u1 - u0));
    assert(e0 == u2 * v1 - u1 * v2);
    assert(e1 == u0 * v2 - u2 * v0);
    assert(e2 == u1 * v0 - u0 * v1);
    lemma_cross_cancel(u0, v0, u1, v1, u2, v2);
    lemma_cross_cancel(v0, u0, v1, u1, v2, u2);
    assert(e0 * x0 == e0 * u0 + e0 * px) by (nonlinear_arith)
        requires
            u0 == x0 - px,
    ;
    assert(e1 * x1 == e1 * u1 + e1 * px) by (nonlinear_arith)
        requires
            u1 == x1 - px,
    ;
    assert(e2 * x2 == e2 * u2 + e2 * px) by (nonlinear_arith)
        requires
            u2 == x2 - px,
    ;
    assert(e0 * u0 + e1 * u1 + e2 * u2 == 0) by (nonlinear_arith)
        requires
            e0 == u2 * v1 - u1 * v2,
            e1 == u0 * v2 - u2 * v0,
            e2 == u1 * v0 - u0 * v1,
            (u2 * v1 - u1 * v2) * u0 + (u0 * v2 - u2 * v0) * u1 + (u1 * v0 - u0 * v1) * u2 == 0,
    ;
    assert(e0 * px + e1 * px + e2 * px == area * px) by (nonlinear_arith)
        requires
            e0 + e1 + e2 == area,
    ;
    assert(e0 * y0 == e0 * v0 + e0 * py) by (nonlinear_arith)
        requires
            v0 == y0 - py,
    ;
    assert(e1 * y1 == e1 * v1 + e1 * py) by (nonlinear_arith)
        requires
            v1 == y1 - py,
    ;
    assert(e2 * y2 == e2 * v2 + e2 * py) by (nonlinear_arith)
        requires
            v2 == y2 - py,
    ;
    assert(e0 * v0 + e1 * v1 + e2 * v2 == 0) by (nonlinear_arith)
        requires
            e0 == u2 * v1 - u1 * v2,
            e1 == u0 * v2 - u2 * v0,
            e2 == u1 * v0 - u0 * v1,
            (v2 * u1 - v1 * u2) * v0 + (v0 * u2 - v2 * u0) * v1 + (v1 * u0 - v0 * u1) * v2 == 0,
    ;
    assert(px * area == area * px) by (nonlinear_arith);
    assert(py * area == area * py) by (nonlinear_arith);
    assert(e0 * py + e1 * py + e2 * py == area * py) by (nonlinear_arith)
        requires
            e0 + e1 + e2 == area,
    ;
}

/// A sum weighted by sign-consistent weights lies between the extremes of
/// the values, scaled by the total weight.
pub proof fn lemma_weighted_sum_range(
    e0: int, e1: int, e2: int, a0: int, a1: int, a2: int, area: int, lo: int, hi: int,
)
    requires
        e0 + e1 + e2 == area,
        (area > 0 && e0 >= 0 && e1 >= 0 && e2 >= 0) || (area < 0 && e0 <= 0 && e1 <= 0 && e2
            <= 0),
        lo <= a0 <= hi,
        lo <= a1 <= hi,
        lo <= a2 <= hi,
    ensures
        area > 0 ==> lo * area <= e0 * a0 + e1 * a1 + e2 * a2 <= hi * area,
        area < 0 ==> hi * area <= e0 * a0 + e1 * a1 + e2 * a2 <= lo * area,
{
    if area > 0 {
        assert(lo * area <= e0 * a0 + e1 * a1 + e2 * a2 <= hi * area) by (nonlinear_arith)
            requires
                e0 >= 0,
                e1 >= 0,
                e2 >= 0,
                e0 + e1 + e2 == area,
                lo <= a0 <= hi,
                lo <= a1 <= hi,
                lo <= a2 <= hi,
        ;
    } else {
        assert(hi * area <= e0 * a0 + e1 * a1 + e2 * a2 <= lo * area) by (nonlinear_arith)
            requires
                e0 <= 0,
                e1 <= 0,
                e2 <= 0,
                e0 + e1 + e2 == area,
                lo <= a0 <= hi,
                lo <= a1 <= hi,
                lo <= a2 <= hi,
        ;
    }
}

/// A point inside the triangle lies inside its bounding rectangle.
pub proof fn lemma_inside_bbox(s0: P, s1: P, s2: P, px: int, py: int)
    requires
        inside_s(s0, s1, s2, px, py),
    ensures
        min3(s0.x as int, s1.x as int, s2.x as int) <= px <= max3(
            s0.x as int,
            s1.x as int,
            s2.x as int,
        ),
        min3(s0.y as int, s1.y as int, s2.y as int) <= py <= max3(
            s0.y as int,
            s1.y as int,
            s2.y as int,
        ),
{
    lemma_barycentric(s0, s1, s2, px, py);
    let e0 = w0_s(s0, s1, s2, px, py);
    let e1 = w1_s(s0, s1, s2, px, py);
    let e2 = w2_s(s0, s1, s2, px, py);
    let area = area_s(s0, s1, s2);
    let lox = min3(s0.x as int, s1.x as int, s2.x as int);
    let hix = max3(s0.x as int, s1.x as int, s2.x as int);
    let loy = min3(s0.y as int, s1.y as int, s2.y as int);
    let hiy = max3(s0.y as int, s1.y as int, s2.y as int);
    lemma_weighted_sum_range(
        e0, e1, e2, s0.x as int, s1.x as int, s2.x as int, area, lox, hix,
    );
    lemma_weighted_sum_range(
        e0, e1, e2, s0.y as int, s1.y as int, s2.y as int, area, loy, hiy,
    );
    if area > 0 {
        assert(lox <= px <= hix) by (nonlinear_arith)
            requires
                area > 0,
                lox * area <= px * area <= hix * area,
        ;
        assert(loy <= py <= hiy) by (nonlinear_arith)
            requires
                area > 0,
                loy * area <= py * area <= hiy * area,
        ;
    } else {
        assert(lox <= px <= hix) by (nonlinear_arith)
            requires
                area < 0,
                hix * area <= px * area <= lox * area,
        ;
        assert(loy <= py <= hiy) by (nonlinear_arith)
            requires
                area < 0,
                hiy * area <= py * area <= loy * area,
        ;
    }
}

/// Computes the edge function on the x and y coordinates of three
/// points: the signed area test the rasterizer is built on.
pub fn edge_function(a: P, b: P, c: P) -> (r: i64)
    requires
        mag(a.x as int) <= COORD_BOUND as int,
        mag(a.y as int) <= COORD_BOUND as int,
        mag(b.x as int) <= COORD_BOUND as int,
        mag(b.y as int) <= COORD_BOUND as int,
        mag(c.x as int) <= COORD_BOUND as int,
        mag(c.y as int) <= COORD_BOUND as int,
    ensures
        r as int == edge_s(a.x as int, a.y as int, b.x as int, b.y as int, c.x as int, c.y as int),
        mag(r as int) <= 0x800_0000_0000_0000,
{
    proof {
        lemma_mul_rng(c.x - a.x, b.y - a.y, 0x2000_0000, 0x2000_0000);
        lemma_mul_rng(c.y - a.y, b.x - a.x, 0x2000_0000, 0x2000_0000);
    }
    (c.x - a.x) * (b.y - a.y) - (c.y - a.y) * (b.x - a.x)
}

} // verus!
