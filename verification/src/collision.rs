//! Penetration resolution for circular agents against polygonal obstacles.
//!
//! The closest point of a segment is the standard clamped projection,
//! computed exactly as a rational point. An agent overlapping an obstacle
//! (distance to the boundary strictly below its radius) is pushed straight
//! away from the closest boundary point by the penetration depth; the push
//! length uses a floor square root and the result is rounded back to the
//! grid, each step pinned exactly by the contracts. A full sweep over all
//! obstacles is repeated until a fixed point is reached or the pass cap is
//! hit.

use vstd::prelude::*;
use crate::game_map::GameMap;
use crate::geometry::{edge_end, edge_start, Point, Polygon, RatPoint, COORD_LIMIT};
use crate::math::{iabs, isqrt, isqrt_of, round_div, round_frac};

verus! {

/// Bound on the numerators of closest-point results.
pub const SEG_NUM_LIMIT: i128 = 0x10_0000_0000;

/// Bound on the denominators of closest-point results.
pub const SEG_DEN_LIMIT: i128 = 0x80_0000;

/// Most sweeps over the obstacle list in one resolution.
pub const PASS_CAP: u32 = 100;

/// An exact rational point, spec-level form.
pub ghost struct FracPt {
    pub nx: int,
    pub ny: int,
    pub d: int,
}

/// Closest point of the segment `[a, b]` to `p`: the projection of `p` onto
/// the segment's line, clamped to the segment; for a zero-length segment,
/// `a` itself.
pub open spec fn seg_closest(a: Point, b: Point, p: Point) -> FracPt {
    let abx = b.x - a.x;
    let aby = b.y - a.y;
    let ab2 = abx * abx + aby * aby;
    if ab2 == 0 {
        FracPt { nx: a.x as int, ny: a.y as int, d: 1 }
    } else {
        let traw = (p.x - a.x) * abx + (p.y - a.y) * aby;
        let t = if traw < 0 {
            0
        } else if traw > ab2 {
            ab2
        } else {
            traw
        };
        FracPt { nx: a.x * ab2 + t * abx, ny: a.y * ab2 + t * aby, d: ab2 }
    }
}

/// Numerator of the squared distance from `p` to `c` (denominator `c.d^2`).
pub open spec fn dist2_num(p: Point, c: FracPt) -> int {
    (p.x * c.d - c.nx) * (p.x * c.d - c.nx) + (p.y * c.d - c.ny) * (p.y * c.d - c.ny)
}

/// Closest point of edge `j` of the ring `s` to `p`.
pub open spec fn edge_closest(s: Seq<Point>, p: Point, j: int) -> FracPt {
    seg_closest(edge_start(s, j), edge_end(s, j), p)
}

/// `dist(p, c1) < dist(p, c2)`, compared exactly.
pub open spec fn frac_dist_lt(p: Point, c1: FracPt, c2: FracPt) -> bool {
    dist2_num(p, c1) * (c2.d * c2.d) < dist2_num(p, c2) * (c1.d * c1.d)
}

/// `dist(p, c1) <= dist(p, c2)`, compared exactly.
pub open spec fn frac_dist_le(p: Point, c1: FracPt, c2: FracPt) -> bool {
    dist2_num(p, c1) * (c2.d * c2.d) <= dist2_num(p, c2) * (c1.d * c1.d)
}

/// The closest boundary point of `p` among the first `n` edges of `s`,
/// earliest edge winning ties.
pub open spec fn closest_upto(s: Seq<Point>, p: Point, n: int) -> Option<FracPt>
    decreases n,
{
    if n <= 0 {
        None
    } else {
        let cur = edge_closest(s, p, n - 1);
        match closest_upto(s, p, n - 1) {
            None => Some(cur),
            Some(c0) => if frac_dist_lt(p, cur, c0) {
                Some(cur)
            } else {
                Some(c0)
            },
        }
    }
}

/// The closest point of the whole boundary of `poly` to `p`.
pub open spec fn poly_closest(poly: Polygon, p: Point) -> Option<FracPt> {
    closest_upto(poly.verts@, p, poly.verts@.len() as int)
}

/// Edge `j` of `s` keeps its distance to `p` at or above `radius`.
pub open spec fn edge_clear(s: Seq<Point>, p: Point, j: int, radius: int) -> bool {
    dist2_num(p, edge_closest(s, p, j)) >= radius * radius * (edge_closest(s, p, j).d
        * edge_closest(s, p, j).d)
}

/// No edge of any obstacle comes strictly within `radius` of `p`.
pub open spec fn all_clear(obstacles: Seq<Polygon>, p: Point, radius: int) -> bool {
    forall|i: int, j: int|
        0 <= i < obstacles.len() && 0 <= j < obstacles[i].verts@.len() ==> #[trigger] edge_clear(
            obstacles[i].verts@,
            p,
            j,
            radius,
        )
}

/// The obstacle's closest point to `p` exists, is not `p` itself, and lies
/// strictly within `radius`: a push is owed.
pub open spec fn needs_push(poly: Polygon, p: Point, radius: int) -> bool {
    match poly_closest(poly, p) {
        None => false,
        Some(c) => 0 < dist2_num(p, c) && dist2_num(p, c) < radius * radius * (c.d * c.d),
    }
}

/// Coordinates clamped into the engine's working range.
pub open spec fn clamp_coord(x: int) -> int {
    if x < -(COORD_LIMIT as int) {
        -(COORD_LIMIT as int)
    } else if x > COORD_LIMIT as int {
        COORD_LIMIT as int
    } else {
        x
    }
}

/// One pushed coordinate: the candidate moved away from the closest point
/// by the penetration depth (`radius - dist`), rounded to the grid and
/// clamped to the working range. `m` is the floor square root of the
/// squared-distance numerator, so `m / c.d` approximates the distance.
pub open spec fn pushed_coord(pc: int, cn: int, d: int, radius: int, m: int) -> int {
    clamp_coord(pc + round_frac((pc * d - cn) * (radius * d - m), d * m))
}

/// The position after resolving against one obstacle: pushed out by the
/// penetration depth when a push is owed, unchanged otherwise (exactly what
/// `move_out_of_obstacle` computes).
pub open spec fn resolve_once(poly: Polygon, p: Point, radius: int) -> Point {
    if needs_push(poly, p, radius) {
        let c = poly_closest(poly, p)->Some_0;
        let m = isqrt_of(dist2_num(p, c));
        Point {
            x: pushed_coord(p.x as int, c.nx, c.d, radius, m) as i64,
            y: pushed_coord(p.y as int, c.ny, c.d, radius, m) as i64,
        }
    } else {
        p
    }
}

/// The position after one sweep over the first `i` obstacles, each applied
/// in turn to the result of the previous one.
pub open spec fn sweep_upto(obstacles: Seq<Polygon>, p: Point, radius: int, i: int) -> Point
    decreases i,
{
    if i <= 0 {
        p
    } else {
        resolve_once(obstacles[i - 1], sweep_upto(obstacles, p, radius, i - 1), radius)
    }
}

/// The position after one full sweep over the obstacle list.
pub open spec fn sweep_once(obstacles: Seq<Polygon>, p: Point, radius: int) -> Point {
    sweep_upto(obstacles, p, radius, obstacles.len() as int)
}

/// The position after `k` full sweeps.
pub open spec fn sweep_iter(obstacles: Seq<Polygon>, p: Point, radius: int, k: int) -> Point
    decreases k,
{
    if k <= 0 {
        p
    } else {
        sweep_once(obstacles, sweep_iter(obstacles, p, radius, k - 1), radius)
    }
}

/// No obstacle owes the position a push.
pub open spec fn no_push_owed(obstacles: Seq<Polygon>, p: Point, radius: int) -> bool {
    forall|i: int| 0 <= i < obstacles.len() ==> !needs_push(#[trigger] obstacles[i], p, radius)
}

/// How the resolver relates its result to its candidate: the result is the
/// candidate taken through `k <= PASS_CAP` full sweeps, and either nothing
/// owes the result a push any more (a fixed point was reached) or the pass
/// cap was hit and the best-effort position is kept.
pub open spec fn resolved_from(obstacles: Seq<Polygon>, p: Point, radius: int, r: Point) -> bool {
    exists|k: int|
        {
            &&& 0 <= k <= PASS_CAP
            &&& r == #[trigger] sweep_iter(obstacles, p, radius, k)
            &&& no_push_owed(obstacles, r, radius) || k == PASS_CAP
        }
}

/// Where nothing owes a push, a sweep moves nothing.
proof fn lemma_no_push_sweep_fixed(obstacles: Seq<Polygon>, p: Point, radius: int, i: int)
    requires
        no_push_owed(obstacles, p, radius),
        0 <= i <= obstacles.len(),
    ensures
        sweep_upto(obstacles, p, radius, i) == p,
    decreases i,
{
    if i > 0 {
        lemma_no_push_sweep_fixed(obstacles, p, radius, i - 1);
    }
}

/// Where nothing owes a push, any number of sweeps moves nothing.
proof fn lemma_no_push_iter_fixed(obstacles: Seq<Polygon>, p: Point, radius: int, k: int)
    requires
        no_push_owed(obstacles, p, radius),
        0 <= k,
    ensures
        sweep_iter(obstacles, p, radius, k) == p,
    decreases k,
{
    if k > 0 {
        lemma_no_push_iter_fixed(obstacles, p, radius, k - 1);
        lemma_no_push_sweep_fixed(obstacles, p, radius, obstacles.len() as int);
    }
}

/// A position every edge keeps its distance from is owed no push at all.
proof fn lemma_all_clear_no_push(obstacles: Seq<Polygon>, p: Point, radius: int)
    requires
        all_clear(obstacles, p, radius),
        p.in_bounds(),
        forall|i: int| 0 <= i < obstacles.len() ==> (#[trigger] obstacles[i]).wf(),
    ensures
        no_push_owed(obstacles, p, radius),
{
    assert forall|i: int| 0 <= i < obstacles.len() implies !needs_push(
        #[trigger] obstacles[i],
        p,
        radius,
    ) by {
        let s = obstacles[i].verts@;
        lemma_closest_upto_min(s, p, s.len() as int);
        match poly_closest(obstacles[i], p) {
            Some(cc) => {
                let j0 = choose|j: int| 0 <= j < s.len() && cc == #[trigger] edge_closest(s, p, j);
                assert(edge_clear(s, p, j0, radius));
            },
            None => {},
        }
    }
}

/// Denominators produced by `seg_closest` are at least one, and its
/// numerators are bounded when the inputs are.
pub proof fn lemma_seg_closest_wf(a: Point, b: Point, p: Point)
    requires
        a.in_bounds(),
        b.in_bounds(),
        p.in_bounds(),
    ensures
        1 <= seg_closest(a, b, p).d <= SEG_DEN_LIMIT,
        iabs(seg_closest(a, b, p).nx) <= SEG_NUM_LIMIT,
        iabs(seg_closest(a, b, p).ny) <= SEG_NUM_LIMIT,
{
    let abx = b.x - a.x;
    let aby = b.y - a.y;
    let ab2 = abx * abx + aby * aby;
    crate::math::lemma_mul_bound(abx, abx, 2 * COORD_LIMIT as int, 2 * COORD_LIMIT as int);
    crate::math::lemma_mul_bound(aby, aby, 2 * COORD_LIMIT as int, 2 * COORD_LIMIT as int);
    assert((2 * COORD_LIMIT as int) * (2 * COORD_LIMIT as int) == 0x40_0000) by (nonlinear_arith)
        requires
            COORD_LIMIT == 1024,
    ;
    assert(abx * abx >= 0 && aby * aby >= 0) by (nonlinear_arith);
    if ab2 != 0 {
        let traw = (p.x - a.x) * abx + (p.y - a.y) * aby;
        let t = if traw < 0 {
            0
        } else if traw > ab2 {
            ab2
        } else {
            traw
        };
        assert(0 <= ab2 <= 0x80_0000);
        assert(0 <= t <= 0x80_0000);
        crate::math::lemma_mul_bound(a.x as int, ab2, COORD_LIMIT as int, 8 * COORD_LIMIT as int
            * COORD_LIMIT as int);
        crate::math::lemma_mul_bound(a.y as int, ab2, COORD_LIMIT as int, 8 * COORD_LIMIT as int
            * COORD_LIMIT as int);
        crate::math::lemma_mul_bound(t, abx, 8 * COORD_LIMIT as int * COORD_LIMIT as int, 2
            * COORD_LIMIT as int);
        crate::math::lemma_mul_bound(t, aby, 8 * COORD_LIMIT as int * COORD_LIMIT as int, 2
            * COORD_LIMIT as int);
    }
}

/// Transitivity of the exact squared-distance comparison.
proof fn lemma_frac_dist_le_trans(p: Point, c1: FracPt, c2: FracPt, c3: FracPt)
    by (nonlinear_arith)
    requires
        1 <= c1.d,
        1 <= c2.d,
        1 <= c3.d,
        frac_dist_le(p, c1, c2),
        frac_dist_le(p, c2, c3),
    ensures
        frac_dist_le(p, c1, c3),
{
}

/// What `closest_upto` returns is the distance minimum over the edges seen,
/// and is itself one of their closest points.
pub proof fn lemma_closest_upto_min(s: Seq<Point>, p: Point, n: int)
    requires
        0 <= n <= s.len(),
        p.in_bounds(),
        forall|i: int| 0 <= i < s.len() ==> (#[trigger] s[i]).in_bounds(),
    ensures
        match closest_upto(s, p, n) {
            None => n == 0,
            Some(c) => {
                &&& 1 <= c.d
                &&& (exists|j: int| 0 <= j < n && c == #[trigger] edge_closest(s, p, j))
                &&& forall|j: int|
                    0 <= j < n ==> frac_dist_le(p, c, #[trigger] edge_closest(s, p, j))
            },
        },
    decreases n,
{
    if n > 0 {
        lemma_closest_upto_min(s, p, n - 1);
        let cur = edge_closest(s, p, n - 1);
        vstd::arithmetic::div_mod::lemma_mod_bound(n, s.len() as int);
        lemma_seg_closest_wf(edge_start(s, n - 1), edge_end(s, n - 1), p);
        assert(cur == edge_closest(s, p, n - 1));
        match closest_upto(s, p, n - 1) {
            None => {
                assert(frac_dist_le(p, cur, cur));
            },
            Some(c0) => {
                if frac_dist_lt(p, cur, c0) {
                    assert forall|j: int| 0 <= j < n implies frac_dist_le(
                        p,
                        cur,
                        #[trigger] edge_closest(s, p, j),
                    ) by {
                        if j < n - 1 {
                            vstd::arithmetic::div_mod::lemma_mod_bound(j + 1, s.len() as int);
                            lemma_seg_closest_wf(edge_start(s, j), edge_end(s, j), p);
                            lemma_frac_dist_le_trans(p, cur, c0, edge_closest(s, p, j));
                        }
                    }
                } else {
                    assert(frac_dist_le(p, c0, cur));
                }
            },
        }
    }
}

/// Exact closest point of the segment `[a, b]` to `p` (clamped projection).
pub fn get_closest_point(a: Point, b: Point, p: Point) -> (r: RatPoint)
    requires
        a.in_bounds(),
        b.in_bounds(),
        p.in_bounds(),
    ensures
        r.nx == seg_closest(a, b, p).nx,
        r.ny == seg_closest(a, b, p).ny,
        r.d == seg_closest(a, b, p).d,
        1 <= r.d <= SEG_DEN_LIMIT,
        iabs(r.nx as int) <= SEG_NUM_LIMIT,
        iabs(r.ny as int) <= SEG_NUM_LIMIT,
{
    proof {
        lemma_seg_closest_wf(a, b, p);
    }
    let abx: i128 = b.x as i128 - a.x as i128;
    let aby: i128 = b.y as i128 - a.y as i128;
    proof {
        crate::math::lemma_mul_bound(abx as int, abx as int, 2 * COORD_LIMIT, 2 * COORD_LIMIT);
        crate::math::lemma_mul_bound(aby as int, aby as int, 2 * COORD_LIMIT, 2 * COORD_LIMIT);
    }
    let ab2: i128 = abx * abx + aby * aby;
    if ab2 == 0 {
        return RatPoint { nx: p_i128(a.x), ny: p_i128(a.y), d: 1 };
    }
    let apx: i128 = p.x as i128 - a.x as i128;
    let apy: i128 = p.y as i128 - a.y as i128;
    proof {
        crate::math::lemma_mul_bound(apx as int, abx as int, 2 * COORD_LIMIT, 2 * COORD_LIMIT);
        crate::math::lemma_mul_bound(apy as int, aby as int, 2 * COORD_LIMIT, 2 * COORD_LIMIT);
    }
    let traw: i128 = apx * abx + apy * aby;
    let t: i128 = if traw < 0 {
        0
    } else if traw > ab2 {
        ab2
    } else {
        traw
    };
    proof {
        crate::math::lemma_mul_bound(a.x as int, ab2 as int, COORD_LIMIT as int, 8 * COORD_LIMIT
            * COORD_LIMIT);
        crate::math::lemma_mul_bound(a.y as int, ab2 as int, COORD_LIMIT as int, 8 * COORD_LIMIT
            * COORD_LIMIT);
        crate::math::lemma_mul_bound(t as int, abx as int, 8 * COORD_LIMIT * COORD_LIMIT, 2
            * COORD_LIMIT);
        crate::math::lemma_mul_bound(t as int, aby as int, 8 * COORD_LIMIT * COORD_LIMIT, 2
            * COORD_LIMIT);
    }
    let nx: i128 = a.x as i128 * ab2 + t * abx;
    let ny: i128 = a.y as i128 * ab2 + t * aby;
    RatPoint { nx, ny, d: ab2 }
}

/// Widen a coordinate (helper, keeps call sites readable).
fn p_i128(x: i64) -> (r: i128)
    ensures
        r == x as int,
{
    x as i128
}

/// Closest boundary point of the polygon to `p`: the minimum of the
/// per-edge closest points, or `None` for an empty vertex ring.
pub fn get_closest_point_on_polygon(polygon: &Polygon, p: Point) -> (res: Option<RatPoint>)
    requires
        polygon.wf(),
        p.in_bounds(),
    ensures
        match (res, poly_closest(*polygon, p)) {
            (None, None) => true,
            (Some(r), Some(c)) => {
                &&& r.nx == c.nx
                &&& r.ny == c.ny
                &&& r.d == c.d
                &&& 1 <= r.d <= SEG_DEN_LIMIT
                &&& iabs(r.nx as int) <= SEG_NUM_LIMIT
                &&& iabs(r.ny as int) <= SEG_NUM_LIMIT
            },
            _ => false,
        },
{
    let n = polygon.verts.len();
    let mut best: Option<RatPoint> = None;
    let mut i: usize = 0;
    while i < n
        invariant
            n == polygon.verts@.len(),
            polygon.wf(),
            p.in_bounds(),
            i <= n,
            match (best, closest_upto(polygon.verts@, p, i as int)) {
                (None, None) => true,
                (Some(r), Some(c)) => {
                    &&& r.nx == c.nx
                    &&& r.ny == c.ny
                    &&& r.d == c.d
                    &&& 1 <= r.d <= SEG_DEN_LIMIT
                    &&& iabs(r.nx as int) <= SEG_NUM_LIMIT
                    &&& iabs(r.ny as int) <= SEG_NUM_LIMIT
                },
                _ => false,
            },
        decreases n - i,
    {
        let a = polygon.verts[i];
        let b = polygon.verts[if i + 1 == n {
            0
        } else {
            i + 1
        }];
        proof {
            if i + 1 == n {
                vstd::arithmetic::div_mod::lemma_mod_self_0(n as int);
            } else {
                vstd::arithmetic::div_mod::lemma_small_mod((i + 1) as nat, n as nat);
            }
        }
        let cur = get_closest_point(a, b, p);
        let take: bool = match best {
            None => true,
            Some(prev) => dist2_frac_lt(p, &cur, &prev),
        };
        if take {
            best = Some(cur);
        }
        i = i + 1;
    }
    best
}

/// Exact comparison `dist(p, c1) < dist(p, c2)` on closest-point results.
fn dist2_frac_lt(p: Point, c1: &RatPoint, c2: &RatPoint) -> (r: bool)
    requires
        p.in_bounds(),
        1 <= c1.d <= SEG_DEN_LIMIT,
        iabs(c1.nx as int) <= SEG_NUM_LIMIT,
        iabs(c1.ny as int) <= SEG_NUM_LIMIT,
        1 <= c2.d <= SEG_DEN_LIMIT,
        iabs(c2.nx as int) <= SEG_NUM_LIMIT,
        iabs(c2.ny as int) <= SEG_NUM_LIMIT,
    ensures
        r == frac_dist_lt(
            p,
            FracPt { nx: c1.nx as int, ny: c1.ny as int, d: c1.d as int },
            FracPt { nx: c2.nx as int, ny: c2.ny as int, d: c2.d as int },
        ),
{
    let n1 = dist2_num_exec(p, c1);
    let n2 = dist2_num_exec(p, c2);
    proof {
        crate::math::lemma_mul_bound(c1.d as int, c1.d as int, SEG_DEN_LIMIT as int,
            SEG_DEN_LIMIT as int);
        crate::math::lemma_mul_bound(c2.d as int, c2.d as int, SEG_DEN_LIMIT as int,
            SEG_DEN_LIMIT as int);
        crate::math::lemma_mul_bound(n1 as int, (c2.d * c2.d) as int, 0x8000_0000_0000_0000_0000,
            0x4000_0000_0000);
        crate::math::lemma_mul_bound(n2 as int, (c1.d * c1.d) as int, 0x8000_0000_0000_0000_0000,
            0x4000_0000_0000);
    }
    n1 * (c2.d * c2.d) < n2 * (c1.d * c1.d)
}

/// Numerator of the squared distance from `p` to the rational point `c`.
pub(crate) fn dist2_num_exec(p: Point, c: &RatPoint) -> (r: i128)
    requires
        p.in_bounds(),
        1 <= c.d <= SEG_DEN_LIMIT,
        iabs(c.nx as int) <= SEG_NUM_LIMIT,
        iabs(c.ny as int) <= SEG_NUM_LIMIT,
    ensures
        r == dist2_num(p, FracPt { nx: c.nx as int, ny: c.ny as int, d: c.d as int }),
        0 <= r <= 0x8000_0000_0000_0000_0000,
{
    proof {
        crate::math::lemma_mul_bound(p.x as int, c.d as int, COORD_LIMIT as int,
            SEG_DEN_LIMIT as int);
        crate::math::lemma_mul_bound(p.y as int, c.d as int, COORD_LIMIT as int,
            SEG_DEN_LIMIT as int);
    }
    let ex: i128 = p.x as i128 * c.d - c.nx;
    let ey: i128 = p.y as i128 * c.d - c.ny;
    proof {
        crate::math::lemma_mul_bound(ex as int, ex as int, 0x20_0000_0000, 0x20_0000_0000);
        crate::math::lemma_mul_bound(ey as int, ey as int, 0x20_0000_0000, 0x20_0000_0000);
        assert(ex * ex >= 0 && ey * ey >= 0) by (nonlinear_arith);
    }
    ex * ex + ey * ey
}

/// Clamp a coordinate into the engine's working range.
pub(crate) fn clamp_exec(x: i128) -> (r: i64)
    ensures
        r == clamp_coord(x as int),
{
    if x < -(COORD_LIMIT as i128) {
        -COORD_LIMIT
    } else if x > COORD_LIMIT as i128 {
        COORD_LIMIT
    } else {
        x as i64
    }
}

/// Push the candidate position out of one obstacle if it overlaps it.
///
/// Returns whether a push happened. The position is changed exactly when
/// the obstacle's closest boundary point lies strictly within `radius` of
/// the candidate (and is distinct from it, a candidate exactly on the
/// boundary having no outward direction); the new position is the candidate
/// moved away from that closest point by the penetration depth, rounded to
/// the grid and clamped to the working range.
pub fn move_out_of_obstacle(obstacle: &Polygon, radius: i64, next_pos: &mut Point) -> (changed:
    bool)
    requires
        obstacle.wf(),
        old(next_pos).in_bounds(),
        1 <= radius <= COORD_LIMIT,
    ensures
        changed == needs_push(*obstacle, *old(next_pos), radius as int),
        *final(next_pos) == resolve_once(*obstacle, *old(next_pos), radius as int),
        !changed ==> *final(next_pos) == *old(next_pos),
        final(next_pos).in_bounds(),
{
    let p = *next_pos;
    match get_closest_point_on_polygon(obstacle, p) {
        None => false,
        Some(c) => {
            let num = dist2_num_exec(p, &c);
            proof {
                crate::math::lemma_mul_bound(radius as int, c.d as int, COORD_LIMIT as int,
                    SEG_DEN_LIMIT as int);
            }
            let rd: i128 = radius as i128 * c.d;
            proof {
                crate::math::lemma_mul_bound(rd as int, rd as int, 0x2_0000_0000, 0x2_0000_0000);
                assert(rd * rd == (radius * radius) * ((c.d as int) * (c.d as int)))
                    by (nonlinear_arith)
                    requires
                        rd == radius * c.d,
                ;
            }
            if 0 < num && num < rd * rd {
                let m: i128 = isqrt(num as u128) as i128;
                proof {
                    assert(rd >= 1) by (nonlinear_arith)
                        requires
                            rd == radius * c.d,
                            radius >= 1,
                            c.d >= 1,
                    ;
                    assert(1 <= m && m < rd) by (nonlinear_arith)
                        requires
                            (m as int) * (m as int) <= num as int,
                            num < rd * rd,
                            0 < num,
                            0 <= m,
                            0 < rd,
                            (num as int) < ((m as int) + 1) * ((m as int) + 1),
                    ;
                    crate::math::lemma_mul_bound(c.d as int, m as int, SEG_DEN_LIMIT as int,
                        0x2_0000_0000,
                    );
                }
                let dm: i128 = c.d * m;
                let factor: i128 = rd - m;
                proof {
                    crate::math::lemma_mul_bound(p.x as int, c.d as int, COORD_LIMIT as int,
                        SEG_DEN_LIMIT as int);
                    crate::math::lemma_mul_bound(p.y as int, c.d as int, COORD_LIMIT as int,
                        SEG_DEN_LIMIT as int);
                }
                let ex: i128 = p.x as i128 * c.d - c.nx;
                let ey: i128 = p.y as i128 * c.d - c.ny;
                proof {
                    crate::math::lemma_mul_bound(ex as int, factor as int, 0x20_0000_0000,
                        0x2_0000_0000);
                    crate::math::lemma_mul_bound(ey as int, factor as int, 0x20_0000_0000,
                        0x2_0000_0000);
                    assert(1 <= dm) by (nonlinear_arith)
                        requires
                            dm == c.d * m,
                            1 <= c.d,
                            1 <= m,
                    ;
                }
                let qx = round_div(ex * factor, dm);
                let qy = round_div(ey * factor, dm);
                let newp = Point { x: clamp_exec(p.x as i128 + qx), y: clamp_exec(p.y as i128 + qy) };
                *next_pos = newp;
                true
            } else {
                false
            }
        },
    }
}

/// Sweep the candidate position out of every obstacle, repeating full
/// passes until none of them pushes it (a fixed point) or the pass cap is
/// reached, whichever comes first.
///
/// A candidate that no obstacle comes within `radius` of is returned
/// unchanged, which makes resolution idempotent on resolved positions.
pub fn handle_obstacle_collisions(obstacles: &Vec<Polygon>, radius: i64, next_pos: &mut Point)
    requires
        forall|i: int| 0 <= i < obstacles@.len() ==> (#[trigger] obstacles@[i]).wf(),
        old(next_pos).in_bounds(),
        1 <= radius <= COORD_LIMIT,
    ensures
        final(next_pos).in_bounds(),
        resolved_from(obstacles@, *old(next_pos), radius as int, *final(next_pos)),
        all_clear(obstacles@, *old(next_pos), radius as int) ==> *final(next_pos) == *old(
            next_pos,
        ),
{
    let mut passes: u32 = 0;
    let mut go: bool = true;
    while go && passes < PASS_CAP
        invariant
            forall|i: int| 0 <= i < obstacles@.len() ==> (#[trigger] obstacles@[i]).wf(),
            1 <= radius <= COORD_LIMIT,
            next_pos.in_bounds(),
            passes <= PASS_CAP,
            *next_pos == sweep_iter(obstacles@, *old(next_pos), radius as int, passes as int),
            !go ==> no_push_owed(obstacles@, *next_pos, radius as int),
        decreases (PASS_CAP - passes) as int,
    {
        let ghost pass_start = *next_pos;
        let mut changed: bool = false;
        let n = obstacles.len();
        let mut i: usize = 0;
        while i < n
            invariant
                n == obstacles@.len(),
                forall|k: int| 0 <= k < obstacles@.len() ==> (#[trigger] obstacles@[k]).wf(),
                1 <= radius <= COORD_LIMIT,
                i <= n,
                next_pos.in_bounds(),
                *next_pos == sweep_upto(obstacles@, pass_start, radius as int, i as int),
                !changed ==> *next_pos == pass_start && forall|k: int|
                    0 <= k < i ==> !needs_push(#[trigger] obstacles@[k], pass_start, radius as int),
            decreases n - i,
        {
            let c = move_out_of_obstacle(&obstacles[i], radius, next_pos);
            changed = changed || c;
            i = i + 1;
        }
        proof {
            assert(sweep_iter(obstacles@, *old(next_pos), radius as int, passes + 1)
                == sweep_once(obstacles@, pass_start, radius as int));
        }
        go = changed;
        passes = passes + 1;
    }
    proof {
        assert(0 <= passes <= PASS_CAP && *next_pos == sweep_iter(
            obstacles@,
            *old(next_pos),
            radius as int,
            passes as int,
        ) && (no_push_owed(obstacles@, *next_pos, radius as int) || passes == PASS_CAP));
        if all_clear(obstacles@, *old(next_pos), radius as int) {
            lemma_all_clear_no_push(obstacles@, *old(next_pos), radius as int);
            lemma_no_push_iter_fixed(obstacles@, *old(next_pos), radius as int, passes as int);
        }
    }
}

/// Some edge of the ring `s` comes strictly within `radius` of `p`.
pub open spec fn touches_boundary(s: Seq<Point>, p: Point, radius: int) -> bool {
    exists|j: int| 0 <= j < s.len() && !(#[trigger] edge_clear(s, p, j, radius))
}

/// Whether the player, a circle of the given radius at `next_pos`, touches
/// the boundary of the level's end area: reaching it wins the game.
pub fn did_player_win(game_map: &GameMap, radius: i64, next_pos: Point) -> (r: bool)
    requires
        game_map.wf(),
        next_pos.in_bounds(),
        1 <= radius <= COORD_LIMIT,
    ensures
        r == touches_boundary(game_map.end_area.verts@, next_pos, radius as int),
{
    let ghost s = game_map.end_area.verts@;
    let p = next_pos;
    let n = game_map.end_area.verts.len();
    let mut j: usize = 0;
    while j < n
        invariant
            n == s.len(),
            s == game_map.end_area.verts@,
            game_map.end_area.wf(),
            p == next_pos,
            p.in_bounds(),
            1 <= radius <= COORD_LIMIT,
            j <= n,
            forall|k: int| 0 <= k < j ==> #[trigger] edge_clear(s, p, k, radius as int),
        decreases n - j,
    {
        let a = game_map.end_area.verts[j];
        let b = game_map.end_area.verts[if j + 1 == n {
            0
        } else {
            j + 1
        }];
        proof {
            if j + 1 == n {
                vstd::arithmetic::div_mod::lemma_mod_self_0(n as int);
            } else {
                vstd::arithmetic::div_mod::lemma_small_mod((j + 1) as nat, n as nat);
            }
        }
        let c = get_closest_point(a, b, p);
        let num = dist2_num_exec(p, &c);
        proof {
            crate::math::lemma_mul_bound(radius as int, c.d as int, COORD_LIMIT as int,
                SEG_DEN_LIMIT as int);
        }
        let rd: i128 = radius as i128 * c.d;
        proof {
            crate::math::lemma_mul_bound(rd as int, rd as int, 0x2_0000_0000, 0x2_0000_0000);
            assert(rd * rd == (radius * radius) * ((c.d as int) * (c.d as int)))
                by (nonlinear_arith)
                requires
                    rd == radius * c.d,
            ;
            assert(FracPt { nx: c.nx as int, ny: c.ny as int, d: c.d as int } == edge_closest(
                s,
                p,
                j as int,
            ));
        }
        if num < rd * rd {
            proof {
                assert(num == dist2_num(p, edge_closest(s, p, j as int)));
                assert(!edge_clear(s, p, j as int, radius as int));
                assert(touches_boundary(s, p, radius as int)) by {
                    assert(0 <= j < s.len() && !edge_clear(s, p, j as int, radius as int));
                }
            }
            return true;
        }
        j = j + 1;
    }
    false
}

} // verus!
