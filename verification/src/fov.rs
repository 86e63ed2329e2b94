//! Fields of view and visibility polygons.
//!
//! A field of view is a closed set of variants: none, a forward cone, or an
//! unbounded all-round view. The visibility polygon is rebuilt every tick by
//! casting a structured bundle of rays (straight ahead, fanned across the
//! cone, and at every obstacle vertex with two slightly rotated probes that
//! carve shadow boundaries around corners) and sorting the collected hit
//! points by signed bearing.
//!
//! Angles never appear as floating-point radians: a direction is an integer
//! vector, a cone half-angle is the integer vector at that bearing from the
//! facing, and the bearing order is decided exactly from signs of cross and
//! dot products.

use vstd::prelude::*;
use crate::game_map::GameMap;
use crate::geometry::{
    cross_z, dot, edge_end, edge_start, norm2, Point, Polygon, RatPoint, Vec2, COORD_LIMIT,
};
use crate::math::{iabs, isqrt};
use crate::raycast::{
    at_param, edge_hit_param, is_hit, nearest_hit, no_hit_within, raycast, within_max, Ray,
    MAX_DIST_LIMIT,
};

verus! {

/// Which quarter of the bearing circle (relative to the reference direction
/// `(fx, fy)`) the vector `(wx, wy)` points into, numbered in ascending
/// bearing order: 0 for bearings in `(-pi, 0)`, 1 for straight ahead (and
/// for the zero vector), 2 for bearings in `(0, pi)`, 3 for straight
/// behind.
pub open spec fn angle_class(fx: int, fy: int, wx: int, wy: int) -> int {
    let c = cross_z(fx, fy, wx, wy);
    let d = dot(fx, fy, wx, wy);
    if c < 0 {
        0
    } else if c == 0 && d >= 0 {
        1
    } else if c > 0 {
        2
    } else {
        3
    }
}

/// `(ax, ay)` comes no later than `(bx, by)` in ascending signed bearing
/// around the reference direction `(fx, fy)` (the order `atan2(cross, dot)`
/// would give): earlier class first; inside an open half-plane, the
/// counter-clockwise turn decides; vectors straight ahead (or straight
/// behind) share one bearing.
pub open spec fn angle_le(fx: int, fy: int, ax: int, ay: int, bx: int, by: int) -> bool {
    let ca = angle_class(fx, fy, ax, ay);
    let cb = angle_class(fx, fy, bx, by);
    if ca != cb {
        ca < cb
    } else if ca == 0 || ca == 2 {
        cross_z(ax, ay, bx, by) >= 0
    } else {
        true
    }
}

/// The bearing order is total.
pub proof fn lemma_angle_le_total(fx: int, fy: int, ax: int, ay: int, bx: int, by: int)
    ensures
        angle_le(fx, fy, ax, ay, bx, by) || angle_le(fx, fy, bx, by, ax, ay),
{
    assert(cross_z(ax, ay, bx, by) == -cross_z(bx, by, ax, ay)) by (nonlinear_arith);
}

/// The Grassmann-Pluecker relation between the six pairwise cross products
/// of four plane vectors, proved by expanding both sides monomial by
/// monomial.
proof fn lemma_cross_gp(
    fx: int,
    fy: int,
    ax: int,
    ay: int,
    bx: int,
    by: int,
    cx: int,
    cy: int,
)
    ensures
        (fx * by - fy * bx) * (ax * cy - ay * cx) == (fx * ay - fy * ax) * (bx * cy - by * cx) + (
        fx * cy - fy * cx) * (ax * by - ay * bx),
{
    let p1 = fx * by;
    let p2 = fy * bx;
    let q1 = ax * cy;
    let q2 = ay * cx;
    let r1 = fx * ay;
    let r2 = fy * ax;
    let s1 = bx * cy;
    let s2 = by * cx;
    let t1 = fx * cy;
    let t2 = fy * cx;
    let u1 = ax * by;
    let u2 = ay * bx;
    assert((p1 - p2) * (q1 - q2) == p1 * q1 - p1 * q2 - p2 * q1 + p2 * q2) by (nonlinear_arith);
    assert((r1 - r2) * (s1 - s2) == r1 * s1 - r1 * s2 - r2 * s1 + r2 * s2) by (nonlinear_arith);
    assert((t1 - t2) * (u1 - u2) == t1 * u1 - t1 * u2 - t2 * u1 + t2 * u2) by (nonlinear_arith);
    assert(p1 * q1 == t1 * u1) by (nonlinear_arith)
        requires
            p1 == fx * by,
            q1 == ax * cy,
            t1 == fx * cy,
            u1 == ax * by,
    ;
    assert(p1 * q2 == r1 * s2) by (nonlinear_arith)
        requires
            p1 == fx * by,
            q2 == ay * cx,
            r1 == fx * ay,
            s2 == by * cx,
    ;
    assert(p2 * q1 == r2 * s1) by (nonlinear_arith)
        requires
            p2 == fy * bx,
            q1 == ax * cy,
            r2 == fy * ax,
            s1 == bx * cy,
    ;
    assert(p2 * q2 == t2 * u2) by (nonlinear_arith)
        requires
            p2 == fy * bx,
            q2 == ay * cx,
            t2 == fy * cx,
            u2 == ay * bx,
    ;
    assert(r1 * s1 == t1 * u2) by (nonlinear_arith)
        requires
            r1 == fx * ay,
            s1 == bx * cy,
            t1 == fx * cy,
            u2 == ay * bx,
    ;
    assert(r2 * s2 == t2 * u1) by (nonlinear_arith)
        requires
            r2 == fy * ax,
            s2 == by * cx,
            t2 == fy * cx,
            u1 == ax * by,
    ;
}

/// In an open half-plane on the clockwise side of the reference, a chain of
/// counter-clockwise turns cannot turn back.
proof fn lemma_cross_sign_neg(fa: int, fb: int, fc: int, ab: int, bc: int, ac: int)
    by (nonlinear_arith)
    requires
        fb * ac == fa * bc + fc * ab,
        fa < 0,
        fb < 0,
        fc < 0,
        ab >= 0,
        bc >= 0,
    ensures
        ac >= 0,
{
}

/// The counter-clockwise counterpart of `lemma_cross_sign_neg`.
proof fn lemma_cross_sign_pos(fa: int, fb: int, fc: int, ab: int, bc: int, ac: int)
    by (nonlinear_arith)
    requires
        fb * ac == fa * bc + fc * ab,
        fa > 0,
        fb > 0,
        fc > 0,
        ab >= 0,
        bc >= 0,
    ensures
        ac >= 0,
{
}

/// The bearing order is transitive.
pub proof fn lemma_angle_le_trans(
    fx: int,
    fy: int,
    ax: int,
    ay: int,
    bx: int,
    by: int,
    cx: int,
    cy: int,
)
    requires
        angle_le(fx, fy, ax, ay, bx, by),
        angle_le(fx, fy, bx, by, cx, cy),
    ensures
        angle_le(fx, fy, ax, ay, cx, cy),
{
    let ca = angle_class(fx, fy, ax, ay);
    let cb = angle_class(fx, fy, bx, by);
    let cc = angle_class(fx, fy, cx, cy);
    if ca == cb && cb == cc && (ca == 0 || ca == 2) {
        lemma_cross_gp(fx, fy, ax, ay, bx, by, cx, cy);
        if ca == 0 {
            lemma_cross_sign_neg(
                cross_z(fx, fy, ax, ay),
                cross_z(fx, fy, bx, by),
                cross_z(fx, fy, cx, cy),
                cross_z(ax, ay, bx, by),
                cross_z(bx, by, cx, cy),
                cross_z(ax, ay, cx, cy),
            );
        } else {
            lemma_cross_sign_pos(
                cross_z(fx, fy, ax, ay),
                cross_z(fx, fy, bx, by),
                cross_z(fx, fy, cx, cy),
                cross_z(ax, ay, bx, by),
                cross_z(bx, by, cx, cy),
                cross_z(ax, ay, cx, cy),
            );
        }
    }
}

/// Horizontal component of the direction from `o` to the rational point `a`
/// (scaled by the positive denominator `a.d`, which keeps the bearing).
pub open spec fn relx(o: Point, a: RatPoint) -> int {
    a.nx - o.x * a.d
}

/// Vertical component of the direction from `o` to `a`.
pub open spec fn rely(o: Point, a: RatPoint) -> int {
    a.ny - o.y * a.d
}

/// Bearing order of two rational points as seen from `o`, facing `f`.
pub open spec fn rp_angle_le(o: Point, f: Vec2, a: RatPoint, b: RatPoint) -> bool {
    angle_le(f.x as int, f.y as int, relx(o, a), rely(o, a), relx(o, b), rely(o, b))
}

/// Decide the bearing order of two rational points, exactly.
fn angle_le_exec(o: Point, f: Vec2, a: &RatPoint, b: &RatPoint) -> (r: bool)
    requires
        o.in_bounds(),
        f.dir_in_bounds(),
        a.wf(),
        b.wf(),
    ensures
        r == rp_angle_le(o, f, *a, *b),
{
    let ca = angle_class_exec(o, f, a);
    let cb = angle_class_exec(o, f, b);
    if ca != cb {
        ca < cb
    } else if ca == 0 || ca == 2 {
        let (wxa, wya) = rel_exec(o, a);
        let (wxb, wyb) = rel_exec(o, b);
        proof {
            crate::math::lemma_mul_bound(wxa as int, wyb as int, 0x80_0000_0000_0000,
                0x80_0000_0000_0000);
            crate::math::lemma_mul_bound(wya as int, wxb as int, 0x80_0000_0000_0000,
                0x80_0000_0000_0000);
        }
        wxa * wyb - wya * wxb >= 0
    } else {
        true
    }
}

/// The direction components from `o` to `a`, scaled by `a.d`.
fn rel_exec(o: Point, a: &RatPoint) -> (r: (i128, i128))
    requires
        o.in_bounds(),
        a.wf(),
    ensures
        r.0 == relx(o, *a),
        r.1 == rely(o, *a),
        iabs(r.0 as int) <= 0x80_0000_0000_0000,
        iabs(r.1 as int) <= 0x80_0000_0000_0000,
{
    proof {
        crate::math::lemma_mul_bound(o.x as int, a.d as int, 0x400, 0x400_0000_0000);
        crate::math::lemma_mul_bound(o.y as int, a.d as int, 0x400, 0x400_0000_0000);
        assert(0x400 * 0x400_0000_0000 == 0x10_0000_0000_0000int) by (nonlinear_arith);
    }
    (a.nx - o.x as i128 * a.d, a.ny - o.y as i128 * a.d)
}

/// The bearing class of `a` as seen from `o`, facing `f`.
fn angle_class_exec(o: Point, f: Vec2, a: &RatPoint) -> (r: i32)
    requires
        o.in_bounds(),
        f.dir_in_bounds(),
        a.wf(),
    ensures
        r as int == angle_class(f.x as int, f.y as int, relx(o, *a), rely(o, *a)),
{
    let (wx, wy) = rel_exec(o, a);
    proof {
        crate::math::lemma_mul_bound(f.x as int, wy as int, 0x2000_0000, 0x80_0000_0000_0000);
        crate::math::lemma_mul_bound(f.y as int, wx as int, 0x2000_0000, 0x80_0000_0000_0000);
        crate::math::lemma_mul_bound(f.x as int, wx as int, 0x2000_0000, 0x80_0000_0000_0000);
        crate::math::lemma_mul_bound(f.y as int, wy as int, 0x2000_0000, 0x80_0000_0000_0000);
    }
    let c: i128 = f.x as i128 * wy - f.y as i128 * wx;
    let d: i128 = f.x as i128 * wx + f.y as i128 * wy;
    if c < 0 {
        0
    } else if c == 0 && d >= 0 {
        1
    } else if c > 0 {
        2
    } else {
        3
    }
}

/// Totality of the bearing order, on rational points.
proof fn lemma_rp_total(o: Point, f: Vec2, a: RatPoint, b: RatPoint)
    ensures
        rp_angle_le(o, f, a, b) || rp_angle_le(o, f, b, a),
{
    lemma_angle_le_total(f.x as int, f.y as int, relx(o, a), rely(o, a), relx(o, b), rely(o, b));
}

/// Transitivity of the bearing order, on rational points.
proof fn lemma_rp_trans(o: Point, f: Vec2, a: RatPoint, b: RatPoint, c: RatPoint)
    requires
        rp_angle_le(o, f, a, b),
        rp_angle_le(o, f, b, c),
    ensures
        rp_angle_le(o, f, a, c),
{
    lemma_angle_le_trans(
        f.x as int,
        f.y as int,
        relx(o, a),
        rely(o, a),
        relx(o, b),
        rely(o, b),
        relx(o, c),
        rely(o, c),
    );
}

/// The sequence ascends in bearing as seen from `o`, facing `f`.
pub open spec fn sorted_by_angle(o: Point, f: Vec2, s: Seq<RatPoint>) -> bool {
    forall|i: int, j: int| 0 <= i < j < s.len() ==> rp_angle_le(o, f, #[trigger] s[i], #[trigger] s[j])
}

/// Sort the collected points by ascending bearing (insertion sort; exact
/// comparisons, so the order is the stated one and the result is a
/// permutation of the input).
pub fn sort_by_angle(o: Point, f: Vec2, verts: Vec<RatPoint>) -> (r: Vec<RatPoint>)
    requires
        o.in_bounds(),
        f.dir_in_bounds(),
        forall|i: int| 0 <= i < verts@.len() ==> (#[trigger] verts@[i]).wf(),
    ensures
        r@.to_multiset() == verts@.to_multiset(),
        r@.len() == verts@.len(),
        sorted_by_angle(o, f, r@),
        forall|i: int| 0 <= i < r@.len() ==> (#[trigger] r@[i]).wf(),
        forall|x: RatPoint| r@.contains(x) ==> verts@.contains(x),
        forall|x: RatPoint| verts@.contains(x) ==> r@.contains(x),
{
    let n = verts.len();
    let mut out: Vec<RatPoint> = Vec::new();
    let mut k: usize = 0;
    proof {
        assert(verts@.take(0).to_multiset() =~= out@.to_multiset()) by {
            assert(verts@.take(0) =~= Seq::<RatPoint>::empty());
            assert(out@ =~= Seq::<RatPoint>::empty());
        }
    }
    while k < n
        invariant
            n == verts@.len(),
            o.in_bounds(),
            f.dir_in_bounds(),
            forall|i: int| 0 <= i < verts@.len() ==> (#[trigger] verts@[i]).wf(),
            k <= n,
            out@.len() == k,
            out@.to_multiset() == verts@.take(k as int).to_multiset(),
            sorted_by_angle(o, f, out@),
            forall|i: int| 0 <= i < out@.len() ==> (#[trigger] out@[i]).wf(),
        decreases n - k,
    {
        let x = verts[k];
        let mut pos: usize = out.len();
        while pos > 0 && !angle_le_exec(o, f, &out[pos - 1], &x)
            invariant
                pos <= out.len(),
                o.in_bounds(),
                f.dir_in_bounds(),
                x.wf(),
                sorted_by_angle(o, f, out@),
                forall|i: int| 0 <= i < out@.len() ==> (#[trigger] out@[i]).wf(),
                forall|t: int| pos <= t < out@.len() ==> rp_angle_le(o, f, x, #[trigger] out@[t]),
            decreases pos,
        {
            proof {
                lemma_rp_total(o, f, out@[pos - 1], x);
            }
            pos = pos - 1;
        }
        let ghost out_before = out@;
        out.insert(pos, x);
        proof {
            vstd::seq_lib::to_multiset_insert(out_before, pos as int, x);
            assert(verts@.take(k as int + 1) =~= verts@.take(k as int).push(x));
            vstd::seq_lib::to_multiset_build(verts@.take(k as int), x);
            out_before.insert_ensures(pos as int, x);
            assert forall|i: int, j: int| 0 <= i < j < out@.len() implies rp_angle_le(
                o,
                f,
                out@[i],
                out@[j],
            ) by {
                if j < pos {
                    assert(rp_angle_le(o, f, out_before[i], out_before[j]));
                } else if i > pos {
                    assert(rp_angle_le(o, f, out_before[i - 1], out_before[j - 1]));
                } else if i < pos && j == pos {
                    if i < pos - 1 {
                        lemma_rp_trans(o, f, out_before[i], out_before[pos - 1], x);
                    }
                } else if i == pos && j > pos {
                    assert(rp_angle_le(o, f, x, out_before[j - 1]));
                } else if i < pos && j > pos {
                    assert(rp_angle_le(o, f, out_before[i], out_before[j - 1]));
                }
            }
        }
        k = k + 1;
    }
    proof {
        assert(verts@.take(n as int) =~= verts@);
        assert forall|x: RatPoint| out@.contains(x) implies verts@.contains(x) by {
            out@.to_multiset_ensures();
            verts@.to_multiset_ensures();
            assert(out@.to_multiset().count(x) > 0);
        }
        assert forall|x: RatPoint| verts@.contains(x) implies out@.contains(x) by {
            out@.to_multiset_ensures();
            verts@.to_multiset_ensures();
            assert(verts@.to_multiset().count(x) > 0);
        }
    }
    out
}

/// Number of evenly spread rays cast into each half of the cone to trace
/// its curved far boundary.
pub const NUM_ARC_RAYS: usize = 20;

/// Squared direction from `o` to the rational point `v` (scaled by `v.d`).
pub open spec fn rp_dist2_num(o: Point, v: RatPoint) -> int {
    relx(o, v) * relx(o, v) + rely(o, v) * rely(o, v)
}

/// `v` lies on the ray from `o` along `dir`: the direction from `o` to `v`
/// is parallel to `dir` and does not point backwards.
pub open spec fn on_ray(o: Point, dir: Vec2, v: RatPoint) -> bool {
    &&& cross_z(relx(o, v), rely(o, v), dir.x as int, dir.y as int) == 0
    &&& dot(relx(o, v), rely(o, v), dir.x as int, dir.y as int) >= 0
}

/// `v` lies within `maxd` of `o`, up to the builder's far-boundary rounding
/// margin of one part in 1024 (`1050625 / 1048576 == (1025 / 1024)^2`).
pub open spec fn within_range(o: Point, v: RatPoint, maxd: int) -> bool {
    rp_dist2_num(o, v) * 1048576 <= 1050625 * (maxd * maxd) * (v.d * v.d)
}

/// A cast hit within `maxd` lies within `maxd` of the origin.
proof fn lemma_hit_in_range(o: Point, r: Vec2, pt: RatPoint, tn: int, td: int, maxd: int)
    requires
        at_param(pt, o, r, tn, td),
        0 <= tn,
        1 <= td,
        1 <= pt.d,
        within_max(tn, td, norm2(r.x as int, r.y as int), maxd),
        1 <= maxd,
    ensures
        within_range(o, pt, maxd),
{
    let rx = r.x as int;
    let ry = r.y as int;
    let rlx = relx(o, pt);
    let rly = rely(o, pt);
    let num = rp_dist2_num(o, pt);
    let trd = tn * pt.d;
    assert(rlx * td == pt.nx * td - (o.x * pt.d) * td) by (nonlinear_arith)
        requires
            rlx == pt.nx - o.x * pt.d,
    ;
    assert(rly * td == pt.ny * td - (o.y * pt.d) * td) by (nonlinear_arith)
        requires
            rly == pt.ny - o.y * pt.d,
    ;
    assert((o.x as int * td + tn * rx) * pt.d == (o.x * td) * pt.d + (tn * rx) * pt.d)
        by (nonlinear_arith);
    assert((o.y as int * td + tn * ry) * pt.d == (o.y * td) * pt.d + (tn * ry) * pt.d)
        by (nonlinear_arith);
    assert((o.x as int * pt.d) * td == (o.x as int * td) * pt.d) by (nonlinear_arith);
    assert((o.y as int * pt.d) * td == (o.y as int * td) * pt.d) by (nonlinear_arith);
    assert((tn * rx) * pt.d == rx * trd) by (nonlinear_arith)
        requires
            trd == tn * pt.d,
    ;
    assert((tn * ry) * pt.d == ry * trd) by (nonlinear_arith)
        requires
            trd == tn * pt.d,
    ;
    assert(rlx * td == rx * trd && rly * td == ry * trd);
    assert((rlx * td) * (rlx * td) == (rx * trd) * (rx * trd));
    assert((rly * td) * (rly * td) == (ry * trd) * (ry * trd));
    assert((rlx * td) * (rlx * td) == (rlx * rlx) * (td * td)) by (nonlinear_arith);
    assert((rly * td) * (rly * td) == (rly * rly) * (td * td)) by (nonlinear_arith);
    assert((rx * trd) * (rx * trd) == (rx * rx) * (trd * trd)) by (nonlinear_arith);
    assert((ry * trd) * (ry * trd) == (ry * ry) * (trd * trd)) by (nonlinear_arith);
    assert(num * (td * td) == (rlx * rlx) * (td * td) + (rly * rly) * (td * td))
        by (nonlinear_arith)
        requires
            num == rlx * rlx + rly * rly,
    ;
    assert((rx * rx + ry * ry) * (trd * trd) == (rx * rx) * (trd * trd) + (ry * ry) * (trd * trd))
        by (nonlinear_arith);
    assert(num * (td * td) == (rx * rx + ry * ry) * (trd * trd));
    assert(trd * trd == (tn * tn) * (pt.d * pt.d)) by (nonlinear_arith)
        requires
            trd == tn * pt.d,
    ;
    assert((rx * rx + ry * ry) * (trd * trd) == (tn * tn * (rx * rx + ry * ry)) * (pt.d * pt.d))
        by (nonlinear_arith)
        requires
            trd * trd == (tn * tn) * (pt.d * pt.d),
    ;
    assert((tn * tn * (rx * rx + ry * ry)) * (pt.d * pt.d) <= (maxd * maxd * (td * td)) * (pt.d
        * pt.d)) by (nonlinear_arith)
        requires
            tn * tn * (rx * rx + ry * ry) <= maxd * maxd * (td * td),
    ;
    assert(num <= maxd * maxd * (pt.d * pt.d)) by (nonlinear_arith)
        requires
            num * (td * td) <= (maxd * maxd * (td * td)) * (pt.d * pt.d),
            1 <= td,
    ;
    assert(0 <= num) by (nonlinear_arith)
        requires
            num == rlx * rlx + rly * rly,
    ;
    assert(num * 1048576 <= 1050625 * (maxd * maxd) * (pt.d * pt.d)) by (nonlinear_arith)
        requires
            num <= maxd * maxd * (pt.d * pt.d),
            0 <= num,
    ;
}

/// The grid point `o` itself, as a rational point, is within any range.
proof fn lemma_origin_in_range(o: Point, v: RatPoint, maxd: int)
    requires
        v.nx == o.x as int,
        v.ny == o.y as int,
        v.d == 1,
        0 <= maxd,
    ensures
        within_range(o, v, maxd),
{
    assert(relx(o, v) == 0 && rely(o, v) == 0) by (nonlinear_arith)
        requires
            v.nx == o.x as int,
            v.ny == o.y as int,
            v.d == 1,
    ;
    assert(rp_dist2_num(o, v) == 0) by (nonlinear_arith)
        requires
            relx(o, v) == 0,
            rely(o, v) == 0,
    ;
    assert(0 <= 1050625 * (maxd * maxd) * (v.d * v.d)) by (nonlinear_arith)
        requires
            v.d == 1,
            0 <= maxd,
    ;
}

/// Cast a ray and return the hit, or, if nothing is hit within
/// `max_distance`, the point at (within one part in 1024 of) `max_distance`
/// straight along the ray, so the cone's far boundary is represented even in
/// open space.
///
/// The result is either the cast's nearest hit within the bound, or — only
/// when no edge is hit within the bound — a substitute point on the ray at
/// a distance between `max_distance` and `(1025/1024) * max_distance`.
pub fn raycast_hit_or_max_dist(ray: &Ray, obstacles: &Vec<Polygon>, max_distance: i64) -> (pt:
    RatPoint)
    requires
        ray.wf(),
        forall|i: int| 0 <= i < obstacles@.len() ==> (#[trigger] obstacles@[i]).wf(),
        1 <= max_distance <= MAX_DIST_LIMIT,
    ensures
        pt.wf(),
        within_range(ray.position, pt, max_distance as int),
        nearest_hit(obstacles@, ray.position, ray.direction, max_distance as int, pt) || (
        no_hit_within(obstacles@, ray.position, ray.direction, max_distance as int) && on_ray(
            ray.position,
            ray.direction,
            pt,
        ) && rp_dist2_num(ray.position, pt) >= (max_distance * max_distance) * (pt.d * pt.d)),
{
    let o = ray.position;
    let maxd = max_distance;
    match raycast(ray, obstacles, maxd) {
        Some(pt) => {
            proof {
                let (i, j, tn, td) = choose|i: int, j: int, tn: int, td: int|
                    {
                        &&& #[trigger] is_hit(obstacles@, o, ray.direction, i, j, tn, td)
                        &&& within_max(
                            tn,
                            td,
                            norm2(ray.direction.x as int, ray.direction.y as int),
                            maxd as int,
                        )
                        &&& at_param(pt, o, ray.direction, tn, td)
                        &&& forall|i2: int, j2: int, tn2: int, td2: int|
                            #[trigger] is_hit(obstacles@, o, ray.direction, i2, j2, tn2, td2)
                                ==> crate::raycast::frac_le(tn, td, tn2, td2)
                    };
                vstd::arithmetic::div_mod::lemma_mod_bound(
                    j + 1,
                    obstacles@[i].verts@.len() as int,
                );
                crate::raycast::lemma_edge_hit_props(
                    o,
                    ray.direction,
                    crate::geometry::edge_start(obstacles@[i].verts@, j),
                    crate::geometry::edge_end(obstacles@[i].verts@, j),
                );
                lemma_hit_in_range(o, ray.direction, pt, tn, td, maxd as int);
            }
            pt
        },
        None => {
            let rx: i128 = ray.direction.x as i128;
            let ry: i128 = ray.direction.y as i128;
            proof {
                crate::math::lemma_mul_bound(rx as int, rx as int, 0x2000_0000, 0x2000_0000);
                crate::math::lemma_mul_bound(ry as int, ry as int, 0x2000_0000, 0x2000_0000);
                assert(rx * rx >= 0 && ry * ry >= 0 && (rx != 0 || ry != 0) ==> rx * rx + ry * ry
                    >= 1) by (nonlinear_arith);
            }
            let r2: i128 = rx * rx + ry * ry;
            proof {
                assert(r2 >= 1) by (nonlinear_arith)
                    requires
                        r2 == rx * rx + ry * ry,
                        !(rx == 0 && ry == 0),
                ;
            }
            let m: i128 = isqrt((r2 * 1048576) as u128) as i128;
            proof {
                assert(1024 <= m) by (nonlinear_arith)
                    requires
                        0 <= m,
                        r2 * 1048576 < (m + 1) * (m + 1),
                        1 <= r2,
                ;
                assert(m <= 0x100_0000_0000) by (nonlinear_arith)
                    requires
                        0 <= m,
                        (m as int) * (m as int) <= r2 * 1048576,
                        r2 <= 0x1000_0000_0000_0000,
                ;
                crate::math::lemma_mul_bound(o.x as int, m as int, 0x400, 0x100_0000_0000);
                crate::math::lemma_mul_bound(o.y as int, m as int, 0x400, 0x100_0000_0000);
                crate::math::lemma_mul_bound(rx as int, maxd as int * 1024, 0x2000_0000,
                    0x20_0000);
                crate::math::lemma_mul_bound(ry as int, maxd as int * 1024, 0x2000_0000,
                    0x20_0000);
            }
            let mk: i128 = maxd as i128 * 1024;
            let pt = RatPoint { nx: o.x as i128 * m + rx * mk, ny: o.y as i128 * m + ry * mk, d: m };
            proof {
                assert(relx(o, pt) == rx * mk && rely(o, pt) == ry * mk);
                assert(cross_z(relx(o, pt), rely(o, pt), rx as int, ry as int) == 0)
                    by (nonlinear_arith)
                    requires
                        relx(o, pt) == rx * mk,
                        rely(o, pt) == ry * mk,
                ;
                assert(dot(relx(o, pt), rely(o, pt), rx as int, ry as int) >= 0)
                    by (nonlinear_arith)
                    requires
                        relx(o, pt) == rx * mk,
                        rely(o, pt) == ry * mk,
                        mk >= 0,
                ;
                assert(mk * mk == (maxd * maxd) * 1048576) by (nonlinear_arith)
                    requires
                        mk == maxd * 1024,
                ;
                assert((maxd * maxd) * ((m as int) * (m as int)) <= (maxd * maxd) * (r2 * 1048576))
                    by (nonlinear_arith)
                    requires
                        (m as int) * (m as int) <= r2 * 1048576,
                ;
                assert(rp_dist2_num(o, pt) == r2 * (mk * mk)) by (nonlinear_arith)
                    requires
                        relx(o, pt) == rx * mk,
                        rely(o, pt) == ry * mk,
                        r2 == rx * rx + ry * ry,
                ;
                assert(rp_dist2_num(o, pt) == (maxd * maxd) * (r2 * 1048576)) by (nonlinear_arith)
                    requires
                        rp_dist2_num(o, pt) == r2 * (mk * mk),
                        mk * mk == (maxd * maxd) * 1048576,
                ;
                assert(rp_dist2_num(o, pt) >= (maxd * maxd) * (pt.d * pt.d));
                assert(1024 * (m + 1) <= 1025 * m);
                crate::math::lemma_square_mono(1024 * (m + 1), 1025 * m);
                assert((1024 * (m + 1)) * (1024 * (m + 1)) == 1048576 * ((m + 1) * (m + 1)))
                    by (nonlinear_arith);
                assert((1025 * m) * (1025 * m) == 1050625 * (m * m)) by (nonlinear_arith);
                assert(r2 * 1048576 * 1048576 <= 1048576 * ((m + 1) * (m + 1))) by (nonlinear_arith)
                    requires
                        r2 * 1048576 < (m + 1) * (m + 1),
                ;
                assert(rp_dist2_num(o, pt) * 1048576 <= 1050625 * (maxd * maxd) * (pt.d * pt.d))
                    by (nonlinear_arith)
                    requires
                        rp_dist2_num(o, pt) == r2 * (mk * mk),
                        mk == maxd * 1024,
                        r2 * 1048576 * 1048576 <= 1050625 * (m * m),
                        pt.d == m,
                        0 <= maxd,
                ;
            }
            pt
        },
    }
}

/// The visibility region of one actor: a ring of exact rational points.
#[derive(Clone, Debug)]
pub struct VisibleArea {
    pub verts: Vec<RatPoint>,
}

impl VisibleArea {
    /// Every vertex within the engine's bounds.
    pub open spec fn wf(self) -> bool {
        forall|i: int| 0 <= i < self.verts@.len() ==> (#[trigger] self.verts@[i]).wf()
    }
}

/// `(wx, wy)` deviates from the facing `(fx, fy)` by no more than the
/// half-angle whose bearing vector is `(hx, hy)` (with `hy >= 0`): the exact,
/// squared form of comparing the cosine of the deviation against the cosine
/// of the half-angle. The zero vector and a deviation exactly equal to the
/// half-angle count as inside.
pub open spec fn in_cone(fx: int, fy: int, hx: int, hy: int, wx: int, wy: int) -> bool {
    if wx == 0 && wy == 0 {
        true
    } else {
        let d = dot(fx, fy, wx, wy);
        if d >= 0 && hx <= 0 {
            true
        } else if d >= 0 {
            d * d * (hx * hx + hy * hy) >= (hx * hx) * (wx * wx + wy * wy) * (fx * fx + fy * fy)
        } else if hx >= 0 {
            false
        } else {
            d * d * (hx * hx + hy * hy) <= (hx * hx) * (wx * wx + wy * wy) * (fx * fx + fy * fy)
        }
    }
}

/// Decide `in_cone`, exactly.
fn in_cone_exec(f: Vec2, h: Vec2, wx: i64, wy: i64) -> (r: bool)
    requires
        iabs(f.x as int) <= 2 * COORD_LIMIT,
        iabs(f.y as int) <= 2 * COORD_LIMIT,
        iabs(h.x as int) <= COORD_LIMIT,
        iabs(h.y as int) <= COORD_LIMIT,
        iabs(wx as int) <= 2 * COORD_LIMIT,
        iabs(wy as int) <= 2 * COORD_LIMIT,
    ensures
        r == in_cone(f.x as int, f.y as int, h.x as int, h.y as int, wx as int, wy as int),
{
    if wx == 0 && wy == 0 {
        return true;
    }
    let fx: i128 = f.x as i128;
    let fy: i128 = f.y as i128;
    let hx: i128 = h.x as i128;
    let hy: i128 = h.y as i128;
    let wxl: i128 = wx as i128;
    let wyl: i128 = wy as i128;
    proof {
        crate::math::lemma_mul_bound(fx as int, wxl as int, 2048, 2048);
        crate::math::lemma_mul_bound(fy as int, wyl as int, 2048, 2048);
        crate::math::lemma_mul_bound(fx as int, fx as int, 2048, 2048);
        crate::math::lemma_mul_bound(fy as int, fy as int, 2048, 2048);
        crate::math::lemma_mul_bound(wxl as int, wxl as int, 2048, 2048);
        crate::math::lemma_mul_bound(wyl as int, wyl as int, 2048, 2048);
        crate::math::lemma_mul_bound(hx as int, hx as int, 1024, 1024);
        crate::math::lemma_mul_bound(hy as int, hy as int, 1024, 1024);
    }
    let d: i128 = fx * wxl + fy * wyl;
    let h2: i128 = hx * hx + hy * hy;
    let w2: i128 = wxl * wxl + wyl * wyl;
    let f2: i128 = fx * fx + fy * fy;
    if d >= 0 && hx <= 0 {
        true
    } else if d >= 0 {
        proof {
            crate::math::lemma_mul_bound(d as int, d as int, 0x80_0000, 0x80_0000);
            crate::math::lemma_mul_bound((d * d) as int, h2 as int, 0x4000_0000_0000,
                0x20_0000);
            crate::math::lemma_mul_bound((hx * hx) as int, w2 as int, 0x10_0000, 0x80_0000);
            crate::math::lemma_mul_bound(((hx * hx) * w2) as int, f2 as int,
                0x8_0000_0000_0000, 0x80_0000);
        }
        d * d * h2 >= (hx * hx) * w2 * f2
    } else if hx >= 0 {
        false
    } else {
        proof {
            crate::math::lemma_mul_bound(d as int, d as int, 0x80_0000, 0x80_0000);
            crate::math::lemma_mul_bound((d * d) as int, h2 as int, 0x4000_0000_0000,
                0x20_0000);
            crate::math::lemma_mul_bound((hx * hx) as int, w2 as int, 0x10_0000, 0x80_0000);
            crate::math::lemma_mul_bound(((hx * hx) * w2) as int, f2 as int,
                0x8_0000_0000_0000, 0x80_0000);
        }
        d * d * h2 <= (hx * hx) * w2 * f2
    }
}

/// Something stands strictly between `o` and the point at `o + w`: some edge
/// is hit at a ray parameter of at most one.
pub open spec fn sight_blocked(obstacles: Seq<Polygon>, o: Point, w: Vec2) -> bool {
    exists|i: int, j: int, tn: int, td: int|
        #[trigger] is_hit(obstacles, o, w, i, j, tn, td) && tn <= td
}

/// Walk every edge and report whether any of them blocks the segment from
/// `o` to `o + w`.
fn ray_blocked(o: Point, w: Vec2, obstacles: &Vec<Polygon>) -> (r: bool)
    requires
        o.in_bounds(),
        w.dir_in_bounds(),
        !w.is_zero(),
        forall|i: int| 0 <= i < obstacles@.len() ==> (#[trigger] obstacles@[i]).wf(),
    ensures
        r == sight_blocked(obstacles@, o, w),
{
    let n = obstacles.len();
    let mut pi: usize = 0;
    while pi < n
        invariant
            n == obstacles@.len(),
            o.in_bounds(),
            w.dir_in_bounds(),
            !w.is_zero(),
            forall|i: int| 0 <= i < obstacles@.len() ==> (#[trigger] obstacles@[i]).wf(),
            pi <= n,
            forall|i: int, j: int, tn: int, td: int|
                (i < pi && #[trigger] is_hit(obstacles@, o, w, i, j, tn, td)) ==> tn > td,
        decreases n - pi,
    {
        let poly = &obstacles[pi];
        let m = poly.verts.len();
        let mut ej: usize = 0;
        while ej < m
            invariant
                n == obstacles@.len(),
                pi < n,
                m == obstacles@[pi as int].verts@.len(),
                poly == &obstacles[pi as int],
                o.in_bounds(),
                w.dir_in_bounds(),
                !w.is_zero(),
                forall|i: int| 0 <= i < obstacles@.len() ==> (#[trigger] obstacles@[i]).wf(),
                ej <= m,
                forall|i: int, j: int, tn: int, td: int|
                    ((i < pi || (i == pi && j < ej)) && #[trigger] is_hit(
                        obstacles@,
                        o,
                        w,
                        i,
                        j,
                        tn,
                        td,
                    )) ==> tn > td,
            decreases m - ej,
        {
            let a = poly.verts[ej];
            let b = poly.verts[if ej + 1 == m {
                0
            } else {
                ej + 1
            }];
            proof {
                if ej + 1 == m {
                    vstd::arithmetic::div_mod::lemma_mod_self_0(m as int);
                } else {
                    vstd::arithmetic::div_mod::lemma_small_mod((ej + 1) as nat, m as nat);
                }
            }
            match edge_hit_param(o, w, a, b) {
                Some((tn, td, _)) => {
                    if tn <= td {
                        proof {
                            assert(is_hit(obstacles@, o, w, pi as int, ej as int, tn as int,
                                td as int) && tn as int <= td as int);
                        }
                        return true;
                    }
                },
                None => {},
            }
            proof {
                assert forall|i: int, j: int, tn: int, td: int|
                    ((i < pi || (i == pi && j < ej + 1)) && #[trigger] is_hit(
                        obstacles@,
                        o,
                        w,
                        i,
                        j,
                        tn,
                        td,
                    )) implies tn > td by {
                    if i == pi && j == ej {
                        assert(crate::raycast::edge_hit(o, w, a, b) is Some ==> crate::raycast::edge_hit(
                            o,
                            w,
                            a,
                            b,
                        ) == Some((tn, td)));
                    }
                }
            }
            ej = ej + 1;
        }
        pi = pi + 1;
    }
    false
}

/// A forward-facing cone of vision: a facing direction, a half-angle given
/// as the integer vector at that bearing (`half_rel.y >= 0`), and a view
/// distance, together with the most recently computed visibility polygon.
pub struct ConeFieldOfView {
    pub visible_area: VisibleArea,
    pub half_rel: Vec2,
    pub view_distance: i64,
    pub origin: Point,
    pub direction: Vec2,
}

impl ConeFieldOfView {
    /// Parameters and cached state within the engine's working ranges.
    pub open spec fn wf(self) -> bool {
        &&& iabs(self.half_rel.x as int) <= COORD_LIMIT
        &&& 0 <= self.half_rel.y <= COORD_LIMIT
        &&& !self.half_rel.is_zero()
        &&& 1 <= self.view_distance <= MAX_DIST_LIMIT
        &&& self.origin.in_bounds()
        &&& iabs(self.direction.x as int) <= 2 * COORD_LIMIT
        &&& iabs(self.direction.y as int) <= 2 * COORD_LIMIT
        &&& !self.direction.is_zero()
        &&& self.visible_area.wf()
    }

    /// A cone with the given half-angle vector and view distance, facing
    /// right from the grid origin, with an empty visibility polygon.
    pub fn new(half_rel: Vec2, view_distance: i64) -> (r: ConeFieldOfView)
        requires
            iabs(half_rel.x as int) <= COORD_LIMIT,
            0 <= half_rel.y <= COORD_LIMIT,
            !half_rel.is_zero(),
            1 <= view_distance <= MAX_DIST_LIMIT,
        ensures
            r.wf(),
            r.half_rel == half_rel,
            r.view_distance == view_distance,
            r.visible_area.verts@.len() == 0,
            r.origin == (Point { x: 0, y: 0 }),
            r.direction == (Vec2 { x: 1, y: 0 }),
    {
        ConeFieldOfView {
            visible_area: VisibleArea { verts: Vec::new() },
            half_rel,
            view_distance,
            origin: Point { x: 0, y: 0 },
            direction: Vec2 { x: 1, y: 0 },
        }
    }

    /// The displacement from this cone's origin to `point` stays inside the
    /// cone's angle and range, and no obstacle edge blocks the straight
    /// sight line (the origin itself is always seen).
    pub open spec fn sees(self, obstacles: Seq<Polygon>, point: Point) -> bool {
        let wx = point.x - self.origin.x;
        let wy = point.y - self.origin.y;
        if wx == 0 && wy == 0 {
            true
        } else {
            &&& in_cone(
                self.direction.x as int,
                self.direction.y as int,
                self.half_rel.x as int,
                self.half_rel.y as int,
                wx as int,
                wy as int,
            )
            &&& norm2(wx as int, wy as int) <= self.view_distance * self.view_distance
            &&& !sight_blocked(obstacles, self.origin, Vec2 { x: wx as i64, y: wy as i64 })
        }
    }

    /// Whether `point` is inside this cone's field of view: within the
    /// half-angle of the facing, within the view distance, and with an
    /// unobstructed straight line from the origin.
    pub fn is_inside_fov(&self, game_map: &GameMap, point: Point) -> (r: bool)
        requires
            self.wf(),
            game_map.wf(),
            point.in_bounds(),
        ensures
            r == self.sees(game_map.obstacles@, point),
    {
        let wx = point.x - self.origin.x;
        let wy = point.y - self.origin.y;
        if wx == 0 && wy == 0 {
            return true;
        }
        if !in_cone_exec(self.direction, self.half_rel, wx, wy) {
            return false;
        }
        let wxl: i128 = wx as i128;
        let wyl: i128 = wy as i128;
        proof {
            crate::math::lemma_mul_bound(wxl as int, wxl as int, 2048, 2048);
            crate::math::lemma_mul_bound(wyl as int, wyl as int, 2048, 2048);
            crate::math::lemma_mul_bound(
                self.view_distance as int,
                self.view_distance as int,
                2048,
                2048,
            );
        }
        if wxl * wxl + wyl * wyl > self.view_distance as i128 * self.view_distance as i128 {
            return false;
        }
        !ray_blocked(self.origin, Vec2 { x: wx, y: wy }, &game_map.obstacles)
    }
}


/// What one vertex of a bounded cone's visibility polygon may be: the fan
/// apex (the agent's own position), the nearest hit of some cast within the
/// view distance, or — where some cast met nothing within the view distance
/// — a far-boundary point on that ray at or just beyond the view distance.
pub open spec fn cone_vertex_ok(obstacles: Seq<Polygon>, o: Point, maxd: int, v: RatPoint) -> bool {
    ||| v.is_frac(o.x as int, o.y as int, 1)
    ||| exists|dir: Vec2| #[trigger] nearest_hit(obstacles, o, dir, maxd, v)
    ||| exists|dir: Vec2|
        no_hit_within(obstacles, o, dir, maxd) && #[trigger] on_ray(o, dir, v) && rp_dist2_num(
            o,
            v,
        ) >= maxd * maxd * (v.d * v.d)
}

/// What `raycast_hit_or_max_dist` returns for a ray from `o` is a valid
/// cone vertex.
proof fn lemma_cast_result_ok(obstacles: Seq<Polygon>, o: Point, dir: Vec2, maxd: int, v: RatPoint)
    requires
        nearest_hit(obstacles, o, dir, maxd, v) || (no_hit_within(obstacles, o, dir, maxd)
            && on_ray(o, dir, v) && rp_dist2_num(o, v) >= maxd * maxd * (v.d * v.d)),
    ensures
        cone_vertex_ok(obstacles, o, maxd, v),
{
    if nearest_hit(obstacles, o, dir, maxd, v) {
        assert(exists|d2: Vec2| #[trigger] nearest_hit(obstacles, o, d2, maxd, v)) by {
            assert(nearest_hit(obstacles, o, dir, maxd, v));
        }
    } else {
        assert(exists|d2: Vec2|
            no_hit_within(obstacles, o, d2, maxd) && #[trigger] on_ray(o, d2, v) && rp_dist2_num(
                o,
                v,
            ) >= maxd * maxd * (v.d * v.d)) by {
            assert(no_hit_within(obstacles, o, dir, maxd) && on_ray(o, dir, v));
        }
    }
}

/// Cast one corner-probe ray and keep the hit, if there is one within
/// `maxd`.
fn cast_probe(o: Point, ray: &Ray, obstacles: &Vec<Polygon>, maxd: i64, pts: &mut Vec<RatPoint>)
    requires
        ray.position == o,
        ray.wf(),
        forall|i: int| 0 <= i < obstacles@.len() ==> (#[trigger] obstacles@[i]).wf(),
        1 <= maxd <= MAX_DIST_LIMIT,
        forall|i: int|
            0 <= i < old(pts)@.len() ==> (#[trigger] old(pts)@[i]).wf() && within_range(
                o,
                old(pts)@[i],
                maxd as int,
            ) && cone_vertex_ok(obstacles@, o, maxd as int, old(pts)@[i]),
    ensures
        final(pts)@.len() >= old(pts)@.len(),
        forall|i: int| 0 <= i < old(pts)@.len() ==> final(pts)@[i] == old(pts)@[i],
        forall|i: int|
            0 <= i < final(pts)@.len() ==> (#[trigger] final(pts)@[i]).wf() && within_range(
                o,
                final(pts)@[i],
                maxd as int,
            ) && cone_vertex_ok(obstacles@, o, maxd as int, final(pts)@[i]),
{
    match raycast(ray, obstacles, maxd) {
        Some(pt) => {
            proof {
                let (i, j, tn, td) = choose|i: int, j: int, tn: int, td: int|
                    {
                        &&& #[trigger] is_hit(obstacles@, o, ray.direction, i, j, tn, td)
                        &&& within_max(
                            tn,
                            td,
                            norm2(ray.direction.x as int, ray.direction.y as int),
                            maxd as int,
                        )
                        &&& at_param(pt, o, ray.direction, tn, td)
                        &&& forall|i2: int, j2: int, tn2: int, td2: int|
                            #[trigger] is_hit(obstacles@, o, ray.direction, i2, j2, tn2, td2)
                                ==> crate::raycast::frac_le(tn, td, tn2, td2)
                    };
                vstd::arithmetic::div_mod::lemma_mod_bound(
                    j + 1,
                    obstacles@[i].verts@.len() as int,
                );
                crate::raycast::lemma_edge_hit_props(
                    o,
                    ray.direction,
                    crate::geometry::edge_start(obstacles@[i].verts@, j),
                    crate::geometry::edge_end(obstacles@[i].verts@, j),
                );
                lemma_hit_in_range(o, ray.direction, pt, tn, td, maxd as int);
                assert(nearest_hit(obstacles@, o, ray.direction, maxd as int, pt));
            }
            pts.push(pt);
        },
        None => {},
    }
}

/// `v` is the nearest unbounded intersection of some ray from `o` with the
/// obstacle edges: every vertex the all-round builder keeps is of this
/// shape.
pub open spec fn unbounded_hit_vertex(obstacles: Seq<Polygon>, o: Point, v: RatPoint) -> bool {
    exists|dir: Vec2| #[trigger] nearest_hit(obstacles, o, dir, 0, v)
}

/// Vertex `j` of obstacle `i` is a corner-probe target the all-round
/// builder is sure to keep a hit for: it is distinct from the viewpoint and
/// starts a non-degenerate edge.
pub open spec fn corner_probe_target(obstacles: Seq<Polygon>, o: Point, i: int, j: int) -> bool {
    &&& 0 <= i < obstacles.len()
    &&& 0 <= j < obstacles[i].verts@.len()
    &&& obstacles[i].verts@[j] != o
    &&& edge_start(obstacles[i].verts@, j) != edge_end(obstacles[i].verts@, j)
}

/// Cast one probe ray with no distance bound and keep the hit, if any.
fn cast_probe_unbounded(ray: &Ray, obstacles: &Vec<Polygon>, pts: &mut Vec<RatPoint>)
    requires
        ray.wf(),
        forall|i: int| 0 <= i < obstacles@.len() ==> (#[trigger] obstacles@[i]).wf(),
        forall|i: int|
            0 <= i < old(pts)@.len() ==> (#[trigger] old(pts)@[i]).wf() && unbounded_hit_vertex(
                obstacles@,
                ray.position,
                old(pts)@[i],
            ),
    ensures
        final(pts)@.len() >= old(pts)@.len(),
        forall|i: int| 0 <= i < old(pts)@.len() ==> final(pts)@[i] == old(pts)@[i],
        forall|i: int|
            0 <= i < final(pts)@.len() ==> (#[trigger] final(pts)@[i]).wf() && unbounded_hit_vertex(
                obstacles@,
                ray.position,
                final(pts)@[i],
            ),
        obstacles@.len() == 0 ==> final(pts)@ == old(pts)@,
        (exists|i: int, j: int, tn: int, td: int|
            #[trigger] is_hit(obstacles@, ray.position, ray.direction, i, j, tn, td))
            ==> final(pts)@.len() > old(pts)@.len(),
{
    match raycast(ray, obstacles, 0) {
        Some(pt) => {
            proof {
                assert(nearest_hit(obstacles@, ray.position, ray.direction, 0, pt));
            }
            pts.push(pt);
        },
        None => {
            proof {
                assert forall|i: int, j: int, tn: int, td: int|
                    #[trigger] is_hit(obstacles@, ray.position, ray.direction, i, j, tn, td)
                    implies false by {
                    assert(within_max(
                        tn,
                        td,
                        norm2(ray.direction.x as int, ray.direction.y as int),
                        0,
                    ));
                }
            }
        },
    }
}

impl ConeFieldOfView {
    /// Rebuild the visibility polygon from the given position and facing:
    /// seed it with the position itself (the near apex of the fan), cast a
    /// ray straight ahead and a fan across both halves of the cone (each
    /// such ray contributes its hit, or the point at the view distance), add
    /// the corner probes toward every obstacle vertex inside the cone (the
    /// exact direction and two slightly rotated to either side, keeping only
    /// actual hits), and sort everything by bearing around the facing.
    pub fn recalculate(&mut self, actor_pos: Point, actor_direction: Vec2, game_map: &GameMap)
        requires
            old(self).wf(),
            game_map.wf(),
            actor_pos.in_bounds(),
            iabs(actor_direction.x as int) <= 2 * COORD_LIMIT,
            iabs(actor_direction.y as int) <= 2 * COORD_LIMIT,
            !actor_direction.is_zero(),
        ensures
            final(self).wf(),
            final(self).origin == actor_pos,
            final(self).direction == actor_direction,
            final(self).half_rel == old(self).half_rel,
            final(self).view_distance == old(self).view_distance,
            sorted_by_angle(actor_pos, actor_direction, final(self).visible_area.verts@),
            forall|i: int|
                0 <= i < final(self).visible_area.verts@.len() ==> within_range(
                    actor_pos,
                    #[trigger] final(self).visible_area.verts@[i],
                    old(self).view_distance as int,
                ) && cone_vertex_ok(
                    game_map.obstacles@,
                    actor_pos,
                    old(self).view_distance as int,
                    final(self).visible_area.verts@[i],
                ),
            game_map.obstacles@.len() == 0 ==> final(self).visible_area.verts@.len() == (
            if old(self).half_rel.y > 0 || old(self).half_rel.x > 0 {
                2int
            } else {
                1int
            }) + 2 * NUM_ARC_RAYS,
            (old(self).half_rel.y > 0 || old(self).half_rel.x > 0) ==> exists|k: int|
                0 <= k < final(self).visible_area.verts@.len() && (#[trigger] final(self).visible_area.verts@[k]).is_frac(
                    actor_pos.x as int,
                    actor_pos.y as int,
                    1,
                ),
            final(self).visible_area.verts@.len() >= 1 + 2 * NUM_ARC_RAYS,
    {
        let o = actor_pos;
        let f = actor_direction;
        let h = self.half_rel;
        let vd = self.view_distance;
        let obstacles = &game_map.obstacles;
        let mut pts: Vec<RatPoint> = Vec::new();
        let ghost seeded = h.y > 0 || h.x > 0;
        if h.y > 0 || h.x > 0 {
            let sp = o.to_rat();
            proof {
                lemma_origin_in_range(o, sp, vd as int);
                assert(sp.is_frac(o.x as int, o.y as int, 1));
            }
            pts.push(sp);
        }
        let fray = Ray::new(o, f);
        let fwd = raycast_hit_or_max_dist(&fray, obstacles, vd);
        proof {
            lemma_cast_result_ok(obstacles@, o, fray.direction, vd as int, fwd);
        }
        pts.push(fwd);
        proof {
            crate::math::lemma_mul_bound(h.x as int, h.x as int, 1024, 1024);
            crate::math::lemma_mul_bound(h.y as int, h.y as int, 1024, 1024);
            assert(h.x as int * h.x as int >= 0 && h.y as int * h.y as int >= 0)
                by (nonlinear_arith);
        }
        let h2: i64 = h.x * h.x + h.y * h.y;
        let mhw: u128 = isqrt(h2 as u128);
        proof {
            assert(mhw <= 2048) by (nonlinear_arith)
                requires
                    (mhw as int) * (mhw as int) <= h2 as int,
                    h2 <= 0x20_0000,
                    0 <= mhw as int,
            ;
        }
        let mh: i64 = mhw as i64;
        let ep = fray.rotate(h.x, h.y);
        let em = fray.rotate(h.x, -h.y);
        proof {
            crate::math::lemma_mul_bound(h.x as int, f.x as int, 1024, 2048);
            crate::math::lemma_mul_bound(h.y as int, f.y as int, 1024, 2048);
            crate::math::lemma_mul_bound(h.y as int, f.x as int, 1024, 2048);
            crate::math::lemma_mul_bound(h.x as int, f.y as int, 1024, 2048);
            crate::math::lemma_mul_bound(-(h.y as int), f.x as int, 1024, 2048);
            crate::math::lemma_mul_bound(-(h.y as int), f.y as int, 1024, 2048);
            crate::math::lemma_mul_bound(0, f.x as int, 1024, 2048);
            crate::math::lemma_mul_bound(0, f.y as int, 1024, 2048);
            crate::math::lemma_mul_bound(f.x as int, mh as int, 2048, 2048);
            crate::math::lemma_mul_bound(f.y as int, mh as int, 2048, 2048);
            assert(1024 * 2048 == 0x20_0000int) by (nonlinear_arith);
            assert(2048 * 2048 == 0x40_0000int) by (nonlinear_arith);
        }
        let fbx: i64 = f.x * mh;
        let fby: i64 = f.y * mh;
        let mut i: usize = 1;
        while i <= NUM_ARC_RAYS
            invariant
                1 <= i <= NUM_ARC_RAYS + 1,
                o.in_bounds(),
                iabs(f.x as int) <= 2 * COORD_LIMIT,
                iabs(f.y as int) <= 2 * COORD_LIMIT,
                !f.is_zero(),
                1 <= vd <= MAX_DIST_LIMIT,
                iabs(fbx as int) <= 0x40_0000,
                iabs(fby as int) <= 0x40_0000,
                iabs(ep.direction.x as int) <= 0x40_0000,
                iabs(ep.direction.y as int) <= 0x40_0000,
                iabs(em.direction.x as int) <= 0x40_0000,
                iabs(em.direction.y as int) <= 0x40_0000,
                forall|k: int| 0 <= k < obstacles@.len() ==> (#[trigger] obstacles@[k]).wf(),
                pts@.len() == (if seeded {
                    2int
                } else {
                    1int
                }) + 2 * (i - 1),
                forall|k: int|
                    0 <= k < pts@.len() ==> (#[trigger] pts@[k]).wf() && within_range(
                        o,
                        pts@[k],
                        vd as int,
                    ) && cone_vertex_ok(obstacles@, o, vd as int, pts@[k]),
                seeded ==> pts@.len() > 0 && pts@[0].is_frac(o.x as int, o.y as int, 1),
            decreases NUM_ARC_RAYS + 1 - i,
        {
            let k: i64 = i as i64;
            let rem: i64 = (NUM_ARC_RAYS - i) as i64;
            proof {
                crate::math::lemma_mul_bound(fbx as int, rem as int, 0x40_0000, 20);
                crate::math::lemma_mul_bound(fby as int, rem as int, 0x40_0000, 20);
                crate::math::lemma_mul_bound(ep.direction.x as int, k as int, 0x40_0000, 20);
                crate::math::lemma_mul_bound(ep.direction.y as int, k as int, 0x40_0000, 20);
                crate::math::lemma_mul_bound(em.direction.x as int, k as int, 0x40_0000, 20);
                crate::math::lemma_mul_bound(em.direction.y as int, k as int, 0x40_0000, 20);
                assert(0x40_0000 * 20int == 0x500_0000) by (nonlinear_arith);
            }
            let dp = Vec2 { x: fbx * rem + ep.direction.x * k, y: fby * rem + ep.direction.y * k };
            let rayp = if dp.x == 0 && dp.y == 0 {
                Ray::new(o, f)
            } else {
                Ray::new(o, dp)
            };
            let hp = raycast_hit_or_max_dist(&rayp, obstacles, vd);
            proof {
                lemma_cast_result_ok(obstacles@, o, rayp.direction, vd as int, hp);
            }
            pts.push(hp);
            let dm = Vec2 { x: fbx * rem + em.direction.x * k, y: fby * rem + em.direction.y * k };
            let raym = if dm.x == 0 && dm.y == 0 {
                Ray::new(o, f)
            } else {
                Ray::new(o, dm)
            };
            let hm = raycast_hit_or_max_dist(&raym, obstacles, vd);
            proof {
                lemma_cast_result_ok(obstacles@, o, raym.direction, vd as int, hm);
            }
            pts.push(hm);
            i = i + 1;
        }
        let ghost arc_len = pts@.len();
        let nobs = obstacles.len();
        let mut oi: usize = 0;
        while oi < nobs
            invariant
                nobs == obstacles@.len(),
                o.in_bounds(),
                iabs(f.x as int) <= 2 * COORD_LIMIT,
                iabs(f.y as int) <= 2 * COORD_LIMIT,
                !f.is_zero(),
                iabs(h.x as int) <= COORD_LIMIT,
                0 <= h.y <= COORD_LIMIT,
                1 <= vd <= MAX_DIST_LIMIT,
                forall|k: int| 0 <= k < obstacles@.len() ==> (#[trigger] obstacles@[k]).wf(),
                oi <= nobs,
                pts@.len() >= arc_len,
                nobs == 0 ==> pts@.len() == arc_len,
                arc_len == (if seeded {
                    2int
                } else {
                    1int
                }) + 2 * NUM_ARC_RAYS,
                forall|k: int|
                    0 <= k < pts@.len() ==> (#[trigger] pts@[k]).wf() && within_range(
                        o,
                        pts@[k],
                        vd as int,
                    ) && cone_vertex_ok(obstacles@, o, vd as int, pts@[k]),
                seeded ==> pts@.len() > 0 && pts@[0].is_frac(o.x as int, o.y as int, 1),
            decreases nobs - oi,
        {
            let poly = &obstacles[oi];
            let nv = poly.verts.len();
            let mut vi: usize = 0;
            while vi < nv
                invariant
                    nobs == obstacles@.len(),
                    oi < nobs,
                    nv == obstacles@[oi as int].verts@.len(),
                    poly == &obstacles[oi as int],
                    o.in_bounds(),
                    iabs(f.x as int) <= 2 * COORD_LIMIT,
                    iabs(f.y as int) <= 2 * COORD_LIMIT,
                    !f.is_zero(),
                    iabs(h.x as int) <= COORD_LIMIT,
                    0 <= h.y <= COORD_LIMIT,
                    1 <= vd <= MAX_DIST_LIMIT,
                    forall|k: int| 0 <= k < obstacles@.len() ==> (#[trigger] obstacles@[k]).wf(),
                    vi <= nv,
                    pts@.len() >= arc_len,
                    nobs == 0 ==> pts@.len() == arc_len,
                    arc_len == (if seeded {
                        2int
                    } else {
                        1int
                    }) + 2 * NUM_ARC_RAYS,
                    forall|k: int|
                        0 <= k < pts@.len() ==> (#[trigger] pts@[k]).wf() && within_range(
                            o,
                            pts@[k],
                            vd as int,
                        ) && cone_vertex_ok(obstacles@, o, vd as int, pts@[k]),
                    seeded ==> pts@.len() > 0 && pts@[0].is_frac(o.x as int, o.y as int, 1),
                decreases nv - vi,
            {
                let v = poly.verts[vi];
                let wx = v.x - o.x;
                let wy = v.y - o.y;
                if !(wx == 0 && wy == 0) && in_cone_exec(f, h, wx, wy) {
                    let vray = Ray::new(o, Vec2 { x: wx, y: wy });
                    cast_probe(o, &vray, obstacles, vd, &mut pts);
                    let rp = vray.rotate(100, 1);
                    cast_probe(o, &rp, obstacles, vd, &mut pts);
                    let rm = vray.rotate(100, -1);
                    cast_probe(o, &rm, obstacles, vd, &mut pts);
                }
                vi = vi + 1;
            }
            oi = oi + 1;
        }
        let ghost pre_sort = pts@;
        let sorted = sort_by_angle(o, f, pts);
        proof {
            assert forall|k: int| 0 <= k < sorted@.len() implies within_range(
                o,
                #[trigger] sorted@[k],
                vd as int,
            ) && cone_vertex_ok(obstacles@, o, vd as int, sorted@[k]) by {
                assert(sorted@.contains(sorted@[k]));
                assert(pre_sort.contains(sorted@[k]));
                let k2 = choose|k2: int| 0 <= k2 < pre_sort.len() && pre_sort[k2] == sorted@[k];
                assert(within_range(o, pre_sort[k2], vd as int));
                assert(cone_vertex_ok(obstacles@, o, vd as int, pre_sort[k2]));
            }
        }
        self.visible_area = VisibleArea { verts: sorted };
        self.origin = o;
        self.direction = f;
        proof {
            if seeded {
                let sv = pre_sort[0];
                assert(pre_sort.contains(sv));
                assert(self.visible_area.verts@.contains(sv));
                let k3 = choose|k3: int|
                    0 <= k3 < self.visible_area.verts@.len() && self.visible_area.verts@[k3] == sv;
                assert((self.visible_area.verts@[k3]).is_frac(o.x as int, o.y as int, 1));
                assert(exists|k: int|
                    0 <= k < self.visible_area.verts@.len() && (
                    #[trigger] self.visible_area.verts@[k]).is_frac(
                        o.x as int,
                        o.y as int,
                        1,
                    ));
            }
        }
    }
}

/// An unbounded, all-round view: only obstacle corners shape it, so it is
/// built from the corner probes alone and sorted around a fixed horizontal
/// reference axis.
pub struct GlobalFieldOfView {
    pub visible_area: VisibleArea,
}

impl GlobalFieldOfView {
    /// Starts with a whole-screen rectangle until the first rebuild.
    pub fn new() -> (r: GlobalFieldOfView)
        ensures
            r.visible_area.wf(),
            r.visible_area.verts@.len() == 4,
    {
        let mut verts: Vec<RatPoint> = Vec::new();
        verts.push(RatPoint { nx: 0, ny: 0, d: 1 });
        verts.push(RatPoint { nx: 800, ny: 0, d: 1 });
        verts.push(RatPoint { nx: 800, ny: 600, d: 1 });
        verts.push(RatPoint { nx: 0, ny: 600, d: 1 });
        GlobalFieldOfView { visible_area: VisibleArea { verts } }
    }

    /// Rebuild the all-round visibility polygon: cast the three corner
    /// probes toward every obstacle vertex, with no distance bound, and sort
    /// the hits by bearing around the horizontal axis. With no obstacles
    /// there is nothing to bound the view, and the polygon comes out empty.
    pub fn recalculate(&mut self, position: Point, _direction: Vec2, game_map: &GameMap)
        requires
            old(self).visible_area.wf(),
            game_map.wf(),
            position.in_bounds(),
        ensures
            final(self).visible_area.wf(),
            sorted_by_angle(position, Vec2 { x: 1, y: 0 }, final(self).visible_area.verts@),
            forall|k: int|
                0 <= k < final(self).visible_area.verts@.len() ==> unbounded_hit_vertex(
                    game_map.obstacles@,
                    position,
                    #[trigger] final(self).visible_area.verts@[k],
                ),
            (exists|i: int, j: int|
                #[trigger] corner_probe_target(game_map.obstacles@, position, i, j))
                ==> final(self).visible_area.verts@.len() > 0,
            game_map.obstacles@.len() == 0 ==> final(self).visible_area.verts@.len() == 0,
    {
        let o = position;
        let obstacles = &game_map.obstacles;
        let mut pts: Vec<RatPoint> = Vec::new();
        let nobs = obstacles.len();
        let mut oi: usize = 0;
        while oi < nobs
            invariant
                nobs == obstacles@.len(),
                o.in_bounds(),
                forall|k: int| 0 <= k < obstacles@.len() ==> (#[trigger] obstacles@[k]).wf(),
                oi <= nobs,
                forall|k: int|
                    0 <= k < pts@.len() ==> (#[trigger] pts@[k]).wf() && unbounded_hit_vertex(
                        obstacles@,
                        o,
                        pts@[k],
                    ),
                forall|ii: int, jj: int|
                    (ii < oi && #[trigger] corner_probe_target(obstacles@, o, ii, jj))
                        ==> pts@.len() > 0,
                nobs == 0 ==> pts@.len() == 0,
            decreases nobs - oi,
        {
            let poly = &obstacles[oi];
            let nv = poly.verts.len();
            let mut vi: usize = 0;
            while vi < nv
                invariant
                    nobs == obstacles@.len(),
                    oi < nobs,
                    nv == obstacles@[oi as int].verts@.len(),
                    poly == &obstacles[oi as int],
                    o.in_bounds(),
                    forall|k: int| 0 <= k < obstacles@.len() ==> (#[trigger] obstacles@[k]).wf(),
                    vi <= nv,
                    forall|k: int|
                        0 <= k < pts@.len() ==> (#[trigger] pts@[k]).wf() && unbounded_hit_vertex(
                            obstacles@,
                            o,
                            pts@[k],
                        ),
                    forall|ii: int, jj: int|
                        ((ii < oi || (ii == oi && jj < vi)) && #[trigger] corner_probe_target(
                            obstacles@,
                            o,
                            ii,
                            jj,
                        )) ==> pts@.len() > 0,
                decreases nv - vi,
            {
                let v = poly.verts[vi];
                let wx = v.x - o.x;
                let wy = v.y - o.y;
                if !(wx == 0 && wy == 0) {
                    let vray = Ray::new(o, Vec2 { x: wx, y: wy });
                    cast_probe_unbounded(&vray, obstacles, &mut pts);
                    proof {
                        if corner_probe_target(obstacles@, o, oi as int, vi as int) {
                            let s = obstacles@[oi as int].verts@;
                            vstd::arithmetic::div_mod::lemma_mod_bound(vi + 1, s.len() as int);
                            crate::raycast::lemma_vertex_ray_hits(
                                o,
                                vray.direction,
                                v,
                                edge_end(s, vi as int),
                            );
                            let (tn, td) = crate::raycast::edge_hit(
                                o,
                                vray.direction,
                                v,
                                edge_end(s, vi as int),
                            )->Some_0;
                            assert(is_hit(obstacles@, o, vray.direction, oi as int, vi as int, tn,
                                td));
                        }
                    }
                    let rp = vray.rotate(100, 1);
                    cast_probe_unbounded(&rp, obstacles, &mut pts);
                    let rm = vray.rotate(100, -1);
                    cast_probe_unbounded(&rm, obstacles, &mut pts);
                }
                vi = vi + 1;
            }
            oi = oi + 1;
        }
        proof {
            if exists|i: int, j: int| #[trigger] corner_probe_target(obstacles@, o, i, j) {
                let (i0, j0) = choose|i: int, j: int|
                    #[trigger] corner_probe_target(obstacles@, o, i, j);
                assert(pts@.len() > 0);
            }
        }
        let ghost pre_sort = pts@;
        let sorted = sort_by_angle(o, Vec2 { x: 1, y: 0 }, pts);
        proof {
            assert forall|k: int| 0 <= k < sorted@.len() implies unbounded_hit_vertex(
                obstacles@,
                o,
                #[trigger] sorted@[k],
            ) by {
                assert(sorted@.contains(sorted@[k]));
                assert(pre_sort.contains(sorted@[k]));
                let k2 = choose|k2: int| 0 <= k2 < pre_sort.len() && pre_sort[k2] == sorted@[k];
                assert(unbounded_hit_vertex(obstacles@, o, pre_sort[k2]));
            }
        }
        self.visible_area = VisibleArea { verts: sorted };
    }

    /// Everything with an unobstructed straight line to the origin is seen.
    pub fn is_inside_fov(&self, origin: Point, game_map: &GameMap, point: Point) -> (r: bool)
        requires
            game_map.wf(),
            origin.in_bounds(),
            point.in_bounds(),
        ensures
            r == (point == origin || !sight_blocked(
                game_map.obstacles@,
                origin,
                Vec2 { x: (point.x - origin.x) as i64, y: (point.y - origin.y) as i64 },
            )),
    {
        let wx = point.x - origin.x;
        let wy = point.y - origin.y;
        if wx == 0 && wy == 0 {
            return true;
        }
        !ray_blocked(origin, Vec2 { x: wx, y: wy }, &game_map.obstacles)
    }
}

/// An actor with no sight at all: it sees nothing and has no visible area.
pub struct NoFieldOfView {}

impl NoFieldOfView {
    /// Nothing is ever inside this field of view.
    pub fn is_inside_fov(&self, _game_map: &GameMap, _point: Point) -> (r: bool)
        ensures
            r == false,
    {
        false
    }
}

/// The closed set of fields of view an actor can have.
pub enum FieldOfView {
    NoFov(NoFieldOfView),
    Cone(ConeFieldOfView),
    Global(GlobalFieldOfView),
}

/// What `is_inside_fov` decides for each kind of view: nothing for a blind
/// actor; angle, range and occlusion for a cone; occlusion alone for the
/// all-round view.
pub open spec fn fov_sees(fov: FieldOfView, origin: Point, obstacles: Seq<Polygon>, point: Point) -> bool {
    match fov {
        FieldOfView::NoFov(_) => false,
        FieldOfView::Cone(c) => c.sees(obstacles, point),
        FieldOfView::Global(_) => point == origin || !sight_blocked(
            obstacles,
            origin,
            Vec2 { x: (point.x - origin.x) as i64, y: (point.y - origin.y) as i64 },
        ),
    }
}

/// What a rebuild guarantees, per kind of view: a blind actor keeps nothing;
/// a cone records the new pose, keeps its parameters, and holds a polygon
/// that ascends in bearing, stays within the (margined) view distance, and
/// carries at least the apex plus the whole arc fan; the all-round view
/// holds a polygon ascending in bearing around the horizontal axis, empty
/// whenever there are no obstacles.
pub open spec fn recalc_post(
    old_fov: FieldOfView,
    new_fov: FieldOfView,
    position: Point,
    direction: Vec2,
    obstacles: Seq<Polygon>,
) -> bool {
    match (old_fov, new_fov) {
        (FieldOfView::NoFov(_), FieldOfView::NoFov(_)) => new_fov == old_fov,
        (FieldOfView::Cone(c0), FieldOfView::Cone(c)) => {
            &&& c.origin == position
            &&& c.direction == direction
            &&& c.half_rel == c0.half_rel
            &&& c.view_distance == c0.view_distance
            &&& sorted_by_angle(position, direction, c.visible_area.verts@)
            &&& forall|i: int|
                0 <= i < c.visible_area.verts@.len() ==> within_range(
                    position,
                    #[trigger] c.visible_area.verts@[i],
                    c0.view_distance as int,
                ) && cone_vertex_ok(
                    obstacles,
                    position,
                    c0.view_distance as int,
                    c.visible_area.verts@[i],
                )
            &&& obstacles.len() == 0 ==> c.visible_area.verts@.len() == (
            if c0.half_rel.y > 0 || c0.half_rel.x > 0 {
                2int
            } else {
                1int
            }) + 2 * NUM_ARC_RAYS
            &&& (c0.half_rel.y > 0 || c0.half_rel.x > 0) ==> exists|k: int|
                0 <= k < c.visible_area.verts@.len() && (
                #[trigger] c.visible_area.verts@[k]).is_frac(
                    position.x as int,
                    position.y as int,
                    1,
                )
            &&& c.visible_area.verts@.len() >= 1 + 2 * NUM_ARC_RAYS
        },
        (FieldOfView::Global(_), FieldOfView::Global(g)) => {
            &&& sorted_by_angle(position, Vec2 { x: 1, y: 0 }, g.visible_area.verts@)
            &&& forall|k: int|
                0 <= k < g.visible_area.verts@.len() ==> unbounded_hit_vertex(
                    obstacles,
                    position,
                    #[trigger] g.visible_area.verts@[k],
                )
            &&& (exists|i: int, j: int| #[trigger] corner_probe_target(obstacles, position, i, j))
                ==> g.visible_area.verts@.len() > 0
            &&& obstacles.len() == 0 ==> g.visible_area.verts@.len() == 0
        },
        _ => false,
    }
}

impl FieldOfView {
    /// Structural bounds for whichever variant this is.
    pub open spec fn wf(self) -> bool {
        match self {
            FieldOfView::NoFov(_) => true,
            FieldOfView::Cone(c) => c.wf(),
            FieldOfView::Global(g) => g.visible_area.wf(),
        }
    }

    /// The current visibility polygon, if this kind of view has one.
    pub fn get_visible_area(&self) -> (r: Option<&VisibleArea>)
        ensures
            match *self {
                FieldOfView::NoFov(_) => r is None,
                FieldOfView::Cone(c) => r == Some(&c.visible_area),
                FieldOfView::Global(g) => r == Some(&g.visible_area),
            },
    {
        match self {
            FieldOfView::NoFov(_) => None,
            FieldOfView::Cone(c) => Some(&c.visible_area),
            FieldOfView::Global(g) => Some(&g.visible_area),
        }
    }

    /// Whether `point` is seen from `origin` by this field of view.
    pub fn is_inside_fov(&self, origin: Point, game_map: &GameMap, point: Point) -> (r: bool)
        requires
            self.wf(),
            game_map.wf(),
            origin.in_bounds(),
            point.in_bounds(),
        ensures
            r == fov_sees(*self, origin, game_map.obstacles@, point),
    {
        match self {
            FieldOfView::NoFov(n) => n.is_inside_fov(game_map, point),
            FieldOfView::Cone(c) => c.is_inside_fov(game_map, point),
            FieldOfView::Global(g) => g.is_inside_fov(origin, game_map, point),
        }
    }

    /// Rebuild the visibility polygon for the current position and facing.
    pub fn recalculate(&mut self, position: Point, direction: Vec2, game_map: &GameMap)
        requires
            old(self).wf(),
            game_map.wf(),
            position.in_bounds(),
            iabs(direction.x as int) <= 2 * COORD_LIMIT,
            iabs(direction.y as int) <= 2 * COORD_LIMIT,
            !direction.is_zero(),
        ensures
            final(self).wf(),
            recalc_post(*old(self), *final(self), position, direction, game_map.obstacles@),
    {
        match self {
            FieldOfView::NoFov(_) => {},
            FieldOfView::Cone(c) => c.recalculate(position, direction, game_map),
            FieldOfView::Global(g) => g.recalculate(position, direction, game_map),
        }
    }
}


/// A point farther from the cone's origin than the view distance is never
/// contained, whatever the obstacles are.
pub proof fn lemma_sees_needs_range(cone: ConeFieldOfView, obstacles: Seq<Polygon>, point: Point)
    requires
        norm2(point.x - cone.origin.x, point.y - cone.origin.y) > cone.view_distance
            * cone.view_distance,
    ensures
        !cone.sees(obstacles, point),
{
    let wx = point.x - cone.origin.x;
    let wy = point.y - cone.origin.y;
    assert(cone.view_distance * cone.view_distance >= 0) by (nonlinear_arith);
    assert(!(wx == 0 && wy == 0));
}

/// A point whose bearing leaves the cone's half-angle is never contained,
/// whatever its distance is.
pub proof fn lemma_sees_needs_bearing(cone: ConeFieldOfView, obstacles: Seq<Polygon>, point: Point)
    requires
        !in_cone(
            cone.direction.x as int,
            cone.direction.y as int,
            cone.half_rel.x as int,
            cone.half_rel.y as int,
            point.x - cone.origin.x,
            point.y - cone.origin.y,
        ),
    ensures
        !cone.sees(obstacles, point),
{
}

} // verus!
