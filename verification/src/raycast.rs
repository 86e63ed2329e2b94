//! Ray / segment intersection.
//!
//! A ray is an origin plus a non-zero integer direction vector; obstacle
//! edges are segments between integer vertices. The intersection parameter
//! along the ray is an exact rational `tn / td` (`td >= 1`), so "nearest hit"
//! and "within the maximum distance" are decided exactly. The parametric
//! cross-product form is used for ordinary edges; edges collinear with the
//! ray are handled by projecting their endpoints onto the ray, and
//! zero-length edges never match.

use vstd::prelude::*;
use crate::geometry::{
    cross_z, edge_end, edge_start, norm2, Point, Polygon, RatPoint, Vec2, COORD_LIMIT, DIR_LIMIT,
    RAT_DEN_LIMIT,
};
use crate::math::iabs;

verus! {

/// Largest magnitude accepted for a `max_distance` bound.
pub const MAX_DIST_LIMIT: i64 = 2048;

/// An origin and a non-zero direction. The direction need not be normalized:
/// only the half-line it spans matters to the intersection tests.
#[derive(Clone, Copy, PartialEq, Eq, Structural, Debug)]
pub struct Ray {
    pub position: Point,
    pub direction: Vec2,
}

impl Ray {
    /// Origin on the grid, direction bounded and non-zero.
    pub open spec fn wf(self) -> bool {
        &&& self.position.in_bounds()
        &&& self.direction.dir_in_bounds()
        &&& !self.direction.is_zero()
    }

    pub fn new(position: Point, direction: Vec2) -> (r: Ray)
        ensures
            r.position == position,
            r.direction == direction,
    {
        Ray { position, direction }
    }

    /// The ray turned by the rotation whose cosine and sine are proportional
    /// to `(rc, rs)` (counter-clockwise for positive `rs`). The direction's
    /// length changes by the factor `|(rc, rs)|`, which leaves its bearing
    /// exact and never matters to a cast.
    pub fn rotate(&self, rc: i64, rs: i64) -> (r: Ray)
        requires
            iabs(self.direction.x as int) <= 4 * COORD_LIMIT,
            iabs(self.direction.y as int) <= 4 * COORD_LIMIT,
            iabs(rc as int) <= COORD_LIMIT,
            iabs(rs as int) <= COORD_LIMIT,
            !self.direction.is_zero(),
            !(rc == 0 && rs == 0),
        ensures
            r.position == self.position,
            r.direction.x == rc * self.direction.x - rs * self.direction.y,
            r.direction.y == rs * self.direction.x + rc * self.direction.y,
            r.direction.dir_in_bounds(),
            !r.direction.is_zero(),
    {
        let dx: i128 = self.direction.x as i128;
        let dy: i128 = self.direction.y as i128;
        proof {
            crate::math::lemma_mul_bound(rc as int, dx as int, COORD_LIMIT as int, 4
                * COORD_LIMIT as int);
            crate::math::lemma_mul_bound(rs as int, dy as int, COORD_LIMIT as int, 4
                * COORD_LIMIT as int);
            crate::math::lemma_mul_bound(rs as int, dx as int, COORD_LIMIT as int, 4
                * COORD_LIMIT as int);
            crate::math::lemma_mul_bound(rc as int, dy as int, COORD_LIMIT as int, 4
                * COORD_LIMIT as int);
            assert(COORD_LIMIT as int * (4 * COORD_LIMIT as int) == 0x40_0000)
                by (nonlinear_arith)
                requires
                    COORD_LIMIT == 1024,
            ;
        }
        let nx: i128 = rc as i128 * dx - rs as i128 * dy;
        let ny: i128 = rs as i128 * dx + rc as i128 * dy;
        proof {
            let pa = rc as int * dx;
            let pb = rs as int * dy;
            let pc = rs as int * dx;
            let pd = rc as int * dy;
            let e2 = rc as int * rc;
            let f2 = rs as int * rs;
            let g2 = dx as int * dx;
            let h2 = dy as int * dy;
            assert((pa - pb) * (pa - pb) + (pc + pd) * (pc + pd) == pa * pa + pb * pb + pc * pc
                + pd * pd - 2 * (pa * pb) + 2 * (pc * pd)) by (nonlinear_arith);
            assert(pa * pb == pc * pd) by (nonlinear_arith)
                requires
                    pa == rc * dx,
                    pb == rs * dy,
                    pc == rs * dx,
                    pd == rc * dy,
            ;
            assert(pa * pa == e2 * g2 && pb * pb == f2 * h2 && pc * pc == f2 * g2 && pd * pd == e2
                * h2) by (nonlinear_arith)
                requires
                    pa == rc * dx,
                    pb == rs * dy,
                    pc == rs * dx,
                    pd == rc * dy,
                    e2 == rc * rc,
                    f2 == rs * rs,
                    g2 == dx * dx,
                    h2 == dy * dy,
            ;
            assert((e2 + f2) * (g2 + h2) == e2 * g2 + e2 * h2 + f2 * g2 + f2 * h2)
                by (nonlinear_arith);
            assert(nx * nx + ny * ny == (e2 + f2) * (g2 + h2));
            assert(!(nx == 0 && ny == 0)) by (nonlinear_arith)
                requires
                    nx * nx + ny * ny == (e2 + f2) * (g2 + h2),
                    e2 == rc * rc,
                    f2 == rs * rs,
                    g2 == dx * dx,
                    h2 == dy * dy,
                    !(rc == 0 && rs == 0),
                    !(dx == 0 && dy == 0),
            ;
        }
        Ray { position: self.position, direction: Vec2 { x: nx as i64, y: ny as i64 } }
    }
}

/// The intersection parameter of the ray `(p, r)` with the segment `[a, b]`,
/// as an exact fraction `(tn, td)` with `td >= 1`, or `None` when they do
/// not meet in front of the origin.
///
/// With `s = b - a` and `q = a - p`: a non-parallel edge (`cross(r, s) != 0`)
/// is hit at `t = cross(q, s) / cross(r, s)` when `u = cross(q, r) /
/// cross(r, s)` lies in `[0, 1]` and `t >= 0`. A collinear edge
/// (`cross(r, s) == 0`, `cross(q, r) == 0`) is hit at the nearer in-front
/// endpoint projection, at the origin itself when it straddles it. Parallel
/// non-collinear and zero-length edges are never hit.
pub open spec fn edge_hit(p: Point, r: Vec2, a: Point, b: Point) -> Option<(int, int)> {
    let sx = b.x - a.x;
    let sy = b.y - a.y;
    let qx = a.x - p.x;
    let qy = a.y - p.y;
    let c = cross_z(r.x as int, r.y as int, sx as int, sy as int);
    let e = cross_z(qx as int, qy as int, sx as int, sy as int);
    let f = cross_z(qx as int, qy as int, r.x as int, r.y as int);
    if sx == 0 && sy == 0 {
        None
    } else if c != 0 {
        let td = iabs(c);
        let tn = if c > 0 {
            e
        } else {
            -e
        };
        let un = if c > 0 {
            f
        } else {
            -f
        };
        if 0 <= un <= td && 0 <= tn {
            Some((tn, td))
        } else {
            None
        }
    } else if f != 0 {
        None
    } else {
        collinear_hit(p, r, a, b)
    }
}

/// Parameter of the hit on a segment collinear with the ray: both endpoints
/// are projected onto the ray axis (using whichever direction component is
/// non-zero) and the nearer in-front projection is the hit.
pub open spec fn collinear_hit(p: Point, r: Vec2, a: Point, b: Point) -> Option<(int, int)> {
    let td: int = if r.x != 0 {
        if r.x > 0 {
            r.x as int
        } else {
            -(r.x as int)
        }
    } else {
        if r.y > 0 {
            r.y as int
        } else {
            -(r.y as int)
        }
    };
    let ta: int = if r.x != 0 {
        if r.x > 0 {
            a.x - p.x
        } else {
            -(a.x - p.x)
        }
    } else {
        if r.y > 0 {
            a.y - p.y
        } else {
            -(a.y - p.y)
        }
    };
    let tb: int = if r.x != 0 {
        if r.x > 0 {
            b.x - p.x
        } else {
            -(b.x - p.x)
        }
    } else {
        if r.y > 0 {
            b.y - p.y
        } else {
            -(b.y - p.y)
        }
    };
    let tmin = if ta <= tb {
        ta
    } else {
        tb
    };
    let tmax = if ta <= tb {
        tb
    } else {
        ta
    };
    if tmax < 0 {
        None
    } else if tmin <= 0 {
        Some((0, 1))
    } else {
        Some((tmin, td))
    }
}

/// Edge `j` of obstacle `i` is hit at parameter `tn / td`.
pub open spec fn is_hit(
    polygons: Seq<Polygon>,
    p: Point,
    r: Vec2,
    i: int,
    j: int,
    tn: int,
    td: int,
) -> bool {
    &&& 0 <= i < polygons.len()
    &&& 0 <= j < polygons[i].verts@.len()
    &&& edge_hit(p, r, edge_start(polygons[i].verts@, j), edge_end(polygons[i].verts@, j))
        == Some((tn, td))
}

/// `an / ad <= bn / bd` for positive denominators.
pub open spec fn frac_le(an: int, ad: int, bn: int, bd: int) -> bool {
    an * bd <= bn * ad
}

/// The point at parameter `tn / td` along the ray lies within `max_d` of the
/// origin; a bound that is zero or negative means "unbounded".
pub open spec fn within_max(tn: int, td: int, r2: int, max_d: int) -> bool {
    max_d <= 0 || tn * tn * r2 <= max_d * max_d * (td * td)
}

/// `pt` is the point at parameter `tn / td` along the ray `(p, r)`.
pub open spec fn at_param(pt: RatPoint, p: Point, r: Vec2, tn: int, td: int) -> bool {
    pt.is_frac(p.x * td + tn * r.x, p.y * td + tn * r.y, td)
}

/// `pt` is the nearest intersection of the ray `(o, dir)` with the edges of
/// `polygons`, and it lies within `maxd` of the origin: some edge is hit at
/// a parameter whose point is `pt`, within the bound, and no edge is hit at
/// a smaller parameter.
pub open spec fn nearest_hit(
    polygons: Seq<Polygon>,
    o: Point,
    dir: Vec2,
    maxd: int,
    pt: RatPoint,
) -> bool {
    exists|i: int, j: int, tn: int, td: int|
        {
            &&& #[trigger] is_hit(polygons, o, dir, i, j, tn, td)
            &&& within_max(tn, td, norm2(dir.x as int, dir.y as int), maxd)
            &&& at_param(pt, o, dir, tn, td)
            &&& forall|i2: int, j2: int, tn2: int, td2: int|
                #[trigger] is_hit(polygons, o, dir, i2, j2, tn2, td2) ==> frac_le(tn, td, tn2, td2)
        }
}

/// No edge of `polygons` is hit by the ray `(o, dir)` within `maxd` of the
/// origin.
pub open spec fn no_hit_within(polygons: Seq<Polygon>, o: Point, dir: Vec2, maxd: int) -> bool {
    forall|i: int, j: int, tn: int, td: int|
        #[trigger] is_hit(polygons, o, dir, i, j, tn, td) ==> !within_max(
            tn,
            td,
            norm2(dir.x as int, dir.y as int),
            maxd,
        )
}

/// From `b <= t` (as fractions) and `b` beyond the distance bound, `t` is
/// beyond the bound as well.
proof fn lemma_beyond_max(btn: int, btd: int, tn: int, td: int, r2: int, max_d: int)
    by (nonlinear_arith)
    requires
        0 <= btn,
        1 <= btd,
        0 <= tn,
        1 <= td,
        0 <= r2,
        0 < max_d,
        frac_le(btn, btd, tn, td),
        !within_max(btn, btd, r2, max_d),
    ensures
        !within_max(tn, td, r2, max_d),
{
}

/// `an / ad <= bn / bd <= cn / cd` chains, for positive denominators.
proof fn lemma_frac_le_trans(an: int, ad: int, bn: int, bd: int, cn: int, cd: int)
    by (nonlinear_arith)
    requires
        1 <= ad,
        1 <= bd,
        1 <= cd,
        frac_le(an, ad, bn, bd),
        frac_le(bn, bd, cn, cd),
    ensures
        frac_le(an, ad, cn, cd),
{
}

/// Intersection parameter and exact hit point for one edge.
///
/// Returns the parameter fraction together with the hit point; the numerator
/// and denominator bounds let every later comparison stay within `i128`.
pub(crate) fn edge_hit_param(p: Point, r: Vec2, a: Point, b: Point) -> (res: Option<(i128, i128, RatPoint)>)
    requires
        p.in_bounds(),
        r.dir_in_bounds(),
        !r.is_zero(),
        a.in_bounds(),
        b.in_bounds(),
    ensures
        match res {
            Some((tn, td, pt)) => {
                &&& edge_hit(p, r, a, b) == Some((tn as int, td as int))
                &&& 0 <= tn <= 0x80_0000
                &&& 1 <= td <= RAT_DEN_LIMIT
                &&& pt.wf()
                &&& at_param(pt, p, r, tn as int, td as int)
            },
            None => edge_hit(p, r, a, b) == None::<(int, int)>,
        },
{
    let sx: i128 = b.x as i128 - a.x as i128;
    let sy: i128 = b.y as i128 - a.y as i128;
    let qx: i128 = a.x as i128 - p.x as i128;
    let qy: i128 = a.y as i128 - p.y as i128;
    let rx: i128 = r.x as i128;
    let ry: i128 = r.y as i128;
    proof {
        crate::math::lemma_mul_bound(rx as int, sy as int, DIR_LIMIT as int, 2 * COORD_LIMIT);
        crate::math::lemma_mul_bound(ry as int, sx as int, DIR_LIMIT as int, 2 * COORD_LIMIT);
        crate::math::lemma_mul_bound(qx as int, sy as int, 2 * COORD_LIMIT, 2 * COORD_LIMIT);
        crate::math::lemma_mul_bound(qy as int, sx as int, 2 * COORD_LIMIT, 2 * COORD_LIMIT);
        crate::math::lemma_mul_bound(qx as int, ry as int, 2 * COORD_LIMIT, DIR_LIMIT as int);
        crate::math::lemma_mul_bound(qy as int, rx as int, 2 * COORD_LIMIT, DIR_LIMIT as int);
    }
    let c: i128 = rx * sy - ry * sx;
    let e: i128 = qx * sy - qy * sx;
    let f: i128 = qx * ry - qy * rx;
    if sx == 0 && sy == 0 {
        return None;
    }
    if c != 0 {
        let td: i128 = if c > 0 {
            c
        } else {
            -c
        };
        let tn: i128 = if c > 0 {
            e
        } else {
            -e
        };
        let un: i128 = if c > 0 {
            f
        } else {
            -f
        };
        if 0 <= un && un <= td && 0 <= tn {
            proof {
                crate::math::lemma_mul_bound(p.x as int, td as int, COORD_LIMIT as int,
                    RAT_DEN_LIMIT as int);
                crate::math::lemma_mul_bound(p.y as int, td as int, COORD_LIMIT as int,
                    RAT_DEN_LIMIT as int);
                crate::math::lemma_mul_bound(tn as int, rx as int, 0x80_0000, DIR_LIMIT as int);
                crate::math::lemma_mul_bound(tn as int, ry as int, 0x80_0000, DIR_LIMIT as int);
            }
            let nx: i128 = p.x as i128 * td + tn * rx;
            let ny: i128 = p.y as i128 * td + tn * ry;
            let pt = RatPoint { nx, ny, d: td };
            proof {
                assert(pt.is_frac(p.x * td + tn * r.x, p.y * td + tn * r.y, td as int))
                    by (nonlinear_arith)
                    requires
                        pt.nx == p.x as int * (td as int) + (tn as int) * (r.x as int),
                        pt.ny == p.y as int * (td as int) + (tn as int) * (r.y as int),
                        pt.d == td as int,
                        1 <= td,
                ;
            }
            return Some((tn, td, pt));
        } else {
            return None;
        }
    }
    if f != 0 {
        return None;
    }
    let use_x: bool = r.x != 0;
    let bpx: i128 = b.x as i128 - p.x as i128;
    let bpy: i128 = b.y as i128 - p.y as i128;
    let (td, ta, tb): (i128, i128, i128) = if use_x {
        if r.x > 0 {
            (rx, qx, bpx)
        } else {
            (-rx, -qx, -bpx)
        }
    } else {
        if r.y > 0 {
            (ry, qy, bpy)
        } else {
            (-ry, -qy, -bpy)
        }
    };
    let tmin: i128 = if ta <= tb {
        ta
    } else {
        tb
    };
    let tmax: i128 = if ta <= tb {
        tb
    } else {
        ta
    };
    if tmax < 0 {
        None
    } else if tmin <= 0 {
        Some((0, 1, p.to_rat()))
    } else {
        let hit: Point = if ta <= tb {
            a
        } else {
            b
        };
        let pt = hit.to_rat();
        proof {
            assert((a.x - p.x) * r.y == (a.y - p.y) * r.x) by (nonlinear_arith)
                requires
                    f == 0,
                    f == qx * ry - qy * rx,
                    rx == r.x as int,
                    ry == r.y as int,
                    qx == a.x - p.x,
                    qy == a.y - p.y,
            ;
            assert((b.x - a.x) * r.y == (b.y - a.y) * r.x) by (nonlinear_arith)
                requires
                    c == 0,
                    c == rx * sy - ry * sx,
                    rx == r.x as int,
                    ry == r.y as int,
                    sx == b.x - a.x,
                    sy == b.y - a.y,
            ;
            assert((hit.x - p.x) * r.y == (hit.y - p.y) * r.x) by (nonlinear_arith)
                requires
                    (a.x - p.x) * r.y == (a.y - p.y) * r.x,
                    (b.x - a.x) * r.y == (b.y - a.y) * r.x,
                    hit == a || hit == b,
            ;
            assert(hit.x * td == p.x * td + tmin * r.x && hit.y * td == p.y * td + tmin * r.y)
                by (nonlinear_arith)
                requires
                    (hit.x - p.x) * r.y == (hit.y - p.y) * r.x,
                    use_x ==> r.x != 0,
                    !use_x ==> r.y != 0,
                    (use_x && r.x > 0) ==> td == r.x as int && tmin == hit.x - p.x,
                    (use_x && r.x < 0) ==> td == -(r.x as int) && tmin == -(hit.x - p.x),
                    (!use_x && r.y > 0) ==> td == r.y as int && tmin == hit.y - p.y,
                    (!use_x && r.y < 0) ==> td == -(r.y as int) && tmin == -(hit.y - p.y),
            ;
        }
        Some((tmin, td, pt))
    }
}

/// Every hit parameter is a non-negative fraction with positive denominator,
/// numerator at most `2^23` and denominator at most `RAT_DEN_LIMIT`.
pub proof fn lemma_edge_hit_props(p: Point, r: Vec2, a: Point, b: Point)
    requires
        p.in_bounds(),
        r.dir_in_bounds(),
        !r.is_zero(),
        a.in_bounds(),
        b.in_bounds(),
    ensures
        match edge_hit(p, r, a, b) {
            Some((tn, td)) => 0 <= tn <= 0x80_0000 && 1 <= td <= RAT_DEN_LIMIT,
            None => true,
        },
{
    let sx = b.x - a.x;
    let sy = b.y - a.y;
    let qx = a.x - p.x;
    let qy = a.y - p.y;
    let c = cross_z(r.x as int, r.y as int, sx, sy);
    let e = cross_z(qx, qy, sx, sy);
    if !(sx == 0 && sy == 0) && c != 0 {
        assert(iabs(e) <= 0x80_0000 && iabs(c) <= RAT_DEN_LIMIT) by (nonlinear_arith)
            requires
                e == qx * sy - qy * sx,
                c == r.x * sy - r.y * sx,
                iabs(qx) <= 2 * COORD_LIMIT,
                iabs(qy) <= 2 * COORD_LIMIT,
                iabs(sx) <= 2 * COORD_LIMIT,
                iabs(sy) <= 2 * COORD_LIMIT,
                iabs(r.x as int) <= DIR_LIMIT,
                iabs(r.y as int) <= DIR_LIMIT,
        ;
    }
}

/// Nearest intersection of `ray` with any edge of any polygon, within
/// `max_distance` of the origin when that bound is positive.
///
/// Returns the exact intersection point nearest to the ray origin, or `None`
/// when no edge is hit at all — in particular always `None` on an empty
/// obstacle list — or when even the nearest hit lies beyond a positive
/// `max_distance`.
pub fn raycast(ray: &Ray, polygons: &Vec<Polygon>, max_distance: i64) -> (res: Option<RatPoint>)
    requires
        ray.wf(),
        forall|i: int| 0 <= i < polygons@.len() ==> (#[trigger] polygons@[i]).wf(),
        iabs(max_distance as int) <= MAX_DIST_LIMIT,
    ensures
        match res {
            Some(pt) => pt.wf() && nearest_hit(
                polygons@,
                ray.position,
                ray.direction,
                max_distance as int,
                pt,
            ),
            None => no_hit_within(polygons@, ray.position, ray.direction, max_distance as int),
        },
        polygons@.len() == 0 ==> res == None::<RatPoint>,
{
    let p = ray.position;
    let r = ray.direction;
    let ghost gpolys = polygons@;
    let mut best: Option<(i128, i128, RatPoint)> = None;
    let n = polygons.len();
    let mut pi: usize = 0;
    while pi < n
        invariant
            n == gpolys.len(),
            gpolys == polygons@,
            p == ray.position,
            r == ray.direction,
            ray.wf(),
            forall|i: int| 0 <= i < gpolys.len() ==> (#[trigger] gpolys[i]).wf(),
            pi <= n,
            match best {
                Some((btn, btd, pt)) => {
                    &&& 0 <= btn <= 0x80_0000
                    &&& 1 <= btd <= RAT_DEN_LIMIT
                    &&& pt.wf()
                    &&& at_param(pt, p, r, btn as int, btd as int)
                    &&& exists|i: int, j: int|
                        i < pi && #[trigger] is_hit(gpolys, p, r, i, j, btn as int, btd as int)
                    &&& forall|i: int, j: int, tn: int, td: int|
                        (i < pi && #[trigger] is_hit(gpolys, p, r, i, j, tn, td)) ==> frac_le(
                            btn as int,
                            btd as int,
                            tn,
                            td,
                        )
                },
                None => forall|i: int, j: int, tn: int, td: int|
                    (i < pi && #[trigger] is_hit(gpolys, p, r, i, j, tn, td)) ==> false,
            },
        decreases n - pi,
    {
        let poly = &polygons[pi];
        let m = poly.verts.len();
        let mut ej: usize = 0;
        while ej < m
            invariant
                n == gpolys.len(),
                gpolys == polygons@,
                pi < n,
                m == gpolys[pi as int].verts@.len(),
                poly == &polygons[pi as int],
                p == ray.position,
                r == ray.direction,
                ray.wf(),
                forall|i: int| 0 <= i < gpolys.len() ==> (#[trigger] gpolys[i]).wf(),
                ej <= m,
                match best {
                    Some((btn, btd, pt)) => {
                        &&& 0 <= btn <= 0x80_0000
                        &&& 1 <= btd <= RAT_DEN_LIMIT
                        &&& pt.wf()
                        &&& at_param(pt, p, r, btn as int, btd as int)
                        &&& exists|i: int, j: int|
                            (i < pi || (i == pi && j < ej)) && #[trigger] is_hit(
                                gpolys,
                                p,
                                r,
                                i,
                                j,
                                btn as int,
                                btd as int,
                            )
                        &&& forall|i: int, j: int, tn: int, td: int|
                            ((i < pi || (i == pi && j < ej)) && #[trigger] is_hit(
                                gpolys,
                                p,
                                r,
                                i,
                                j,
                                tn,
                                td,
                            )) ==> frac_le(btn as int, btd as int, tn, td)
                    },
                    None => forall|i: int, j: int, tn: int, td: int|
                        ((i < pi || (i == pi && j < ej)) && #[trigger] is_hit(
                            gpolys,
                            p,
                            r,
                            i,
                            j,
                            tn,
                            td,
                        )) ==> false,
                },
            decreases m - ej,
        {
            let a = poly.verts[ej];
            let b = poly.verts[if ej + 1 == m {
                0
            } else {
                ej + 1
            }];
            proof {
                if ej + 1 == m {
                    vstd::arithmetic::div_mod::lemma_mod_self_0(m as int);
                } else {
                    vstd::arithmetic::div_mod::lemma_small_mod((ej + 1) as nat, m as nat);
                }
            }
            let ghost prev = best;
            let hit = edge_hit_param(p, r, a, b);
            match hit {
                Some((tn, td, pt)) => {
                    proof {
                        assert(is_hit(gpolys, p, r, pi as int, ej as int, tn as int, td as int));
                    }
                    let take = match best {
                        Some((btn, btd, _)) => {
                            proof {
                                crate::math::lemma_mul_bound(tn as int, btd as int, 0x80_0000,
                                    RAT_DEN_LIMIT as int);
                                crate::math::lemma_mul_bound(btn as int, td as int, 0x80_0000,
                                    RAT_DEN_LIMIT as int);
                            }
                            tn * btd < btn * td
                        },
                        None => true,
                    };
                    if take {
                        best = Some((tn, td, pt));
                    }
                    proof {
                        assert forall|i: int, j: int, tn2: int, td2: int|
                            ((i < pi || (i == pi && j < ej + 1)) && #[trigger] is_hit(
                                gpolys,
                                p,
                                r,
                                i,
                                j,
                                tn2,
                                td2,
                            )) implies frac_le(best->Some_0.0 as int, best->Some_0.1 as int, tn2,
                            td2) by {
                            let btn = best->Some_0.0 as int;
                            let btd = best->Some_0.1 as int;
                            if i == pi && j == ej {
                                assert(edge_hit(p, r, a, b) == Some((tn2, td2)));
                                assert(tn2 == tn as int && td2 == td as int);
                                if take {
                                    assert(frac_le(btn, btd, tn2, td2)) by (nonlinear_arith)
                                        requires
                                            btn == tn2,
                                            btd == td2,
                                    ;
                                } else {
                                    let p0 = prev->Some_0;
                                    assert(frac_le(p0.0 as int, p0.1 as int, tn2, td2));
                                }
                            } else {
                                assert((i < pi || (i == pi && j < ej)) && is_hit(
                                    gpolys,
                                    p,
                                    r,
                                    i,
                                    j,
                                    tn2,
                                    td2,
                                ));
                                if take {
                                    match prev {
                                        Some((pn, pd, _)) => {
                                            vstd::arithmetic::div_mod::lemma_mod_bound(
                                                j + 1,
                                                gpolys[i].verts@.len() as int,
                                            );
                                            lemma_edge_hit_props(
                                                p,
                                                r,
                                                edge_start(gpolys[i].verts@, j),
                                                edge_end(gpolys[i].verts@, j),
                                            );
                                            lemma_frac_le_trans(
                                                tn as int,
                                                td as int,
                                                pn as int,
                                                pd as int,
                                                tn2,
                                                td2,
                                            );
                                        },
                                        None => {},
                                    }
                                }
                            }
                        }
                    }
                },
                None => {
                    proof {
                        assert forall|i: int, j: int, tn2: int, td2: int|
                            ((i < pi || (i == pi && j < ej + 1)) && #[trigger] is_hit(
                                gpolys,
                                p,
                                r,
                                i,
                                j,
                                tn2,
                                td2,
                            )) implies ((i < pi || (i == pi && j < ej)) && is_hit(
                            gpolys,
                            p,
                            r,
                            i,
                            j,
                            tn2,
                            td2,
                        )) by {
                            if i == pi && j == ej {
                                assert(edge_hit(p, r, a, b) == None::<(int, int)>);
                            }
                        }
                    }
                },
            }
            ej = ej + 1;
        }
        pi = pi + 1;
    }
    match best {
        Some((btn, btd, pt)) => {
            let rx: i128 = r.x as i128;
            let ry: i128 = r.y as i128;
            proof {
                crate::math::lemma_mul_bound(rx as int, rx as int, DIR_LIMIT as int,
                    DIR_LIMIT as int);
                crate::math::lemma_mul_bound(ry as int, ry as int, DIR_LIMIT as int,
                    DIR_LIMIT as int);
            }
            let r2: i128 = rx * rx + ry * ry;
            if max_distance > 0 {
                let md: i128 = max_distance as i128;
                proof {
                    crate::math::lemma_mul_bound(btn as int, btn as int, 0x80_0000, 0x80_0000);
                    crate::math::lemma_mul_bound(
                        (btn * btn) as int,
                        r2 as int,
                        0x4000_0000_0000,
                        0x8000_0000_0000_0000,
                    );
                    crate::math::lemma_mul_bound(md as int, md as int, MAX_DIST_LIMIT as int,
                        MAX_DIST_LIMIT as int);
                    crate::math::lemma_mul_bound(btd as int, btd as int, RAT_DEN_LIMIT as int,
                        RAT_DEN_LIMIT as int);
                    crate::math::lemma_mul_bound(
                        (md * md) as int,
                        (btd * btd) as int,
                        0x40_0000,
                        0x10_0000_0000_0000_0000_0000,
                    );
                }
                if btn * btn * r2 > md * md * (btd * btd) {
                    proof {
                        assert forall|i: int, j: int, tn: int, td: int|
                            #[trigger] is_hit(gpolys, p, r, i, j, tn, td) implies !within_max(
                            tn,
                            td,
                            norm2(r.x as int, r.y as int),
                            max_distance as int,
                        ) by {
                            vstd::arithmetic::div_mod::lemma_mod_bound(
                                j + 1,
                                gpolys[i].verts@.len() as int,
                            );
                            lemma_edge_hit_props(
                                p,
                                r,
                                edge_start(gpolys[i].verts@, j),
                                edge_end(gpolys[i].verts@, j),
                            );
                            assert(norm2(r.x as int, r.y as int) >= 0) by (nonlinear_arith);
                            lemma_beyond_max(btn as int, btd as int, tn, td, norm2(
                                r.x as int,
                                r.y as int,
                            ), max_distance as int);
                        }
                    }
                    return None;
                }
            }
            Some(pt)
        },
        None => None,
    }
}


/// A ray cast straight at an axis-aligned wall meets it exactly: for a
/// vertical edge and a horizontal ray aimed at it from the near side, the
/// hit parameter works out to exactly `(a.x - p.x) / r.x`, so the hit point
/// is exactly `(a.x, p.y)` — no approximation is involved.
pub proof fn lemma_axis_aligned_edge_hit(p: Point, r: Vec2, a: Point, b: Point)
    requires
        a.x == b.x,
        a.y != b.y,
        r.x > 0,
        r.y == 0,
        p.x < a.x,
        (a.y <= p.y <= b.y) || (b.y <= p.y <= a.y),
    ensures
        edge_hit(p, r, a, b) is Some,
        ({
            let (tn, td) = edge_hit(p, r, a, b)->Some_0;
            &&& tn * r.x == (a.x - p.x) * td
            &&& tn * r.y == 0
            &&& 1 <= td
        }),
{
    let sy = b.y - a.y;
    let c = cross_z(r.x as int, r.y as int, 0, sy);
    let e = cross_z(a.x - p.x, a.y - p.y, 0, sy);
    let f = cross_z(a.x - p.x, a.y - p.y, r.x as int, r.y as int);
    assert(c == r.x * sy && e == (a.x - p.x) * sy && f == -((a.y - p.y) * r.x))
        by (nonlinear_arith)
        requires
            r.y == 0,
            c == cross_z(r.x as int, r.y as int, 0, sy),
            e == cross_z(a.x - p.x, a.y - p.y, 0, sy),
            f == cross_z(a.x - p.x, a.y - p.y, r.x as int, r.y as int),
    ;
    if sy > 0 {
        assert(c > 0 && 0 <= e && 0 <= f <= c && e * r.x == (a.x - p.x) * c)
            by (nonlinear_arith)
            requires
                c == r.x * sy,
                e == (a.x - p.x) * sy,
                f == -((a.y - p.y) * r.x),
                sy > 0,
                r.x > 0,
                p.x < a.x,
                a.y <= p.y <= a.y + sy,
        ;
    } else {
        assert(c < 0 && e <= 0 && c <= f <= 0 && (-e) * r.x == (a.x - p.x) * (-c))
            by (nonlinear_arith)
            requires
                c == r.x * sy,
                e == (a.x - p.x) * sy,
                f == -((a.y - p.y) * r.x),
                sy < 0,
                r.x > 0,
                p.x < a.x,
                a.y + sy <= p.y <= a.y,
        ;
    }
    assert(({
        let (tn, td) = edge_hit(p, r, a, b)->Some_0;
        tn * r.y == 0
    })) by (nonlinear_arith)
        requires
            r.y == 0,
    ;
}


/// For a non-parallel edge, the point at the returned ray parameter lies on
/// the segment itself: it equals `a + (un / td) * (b - a)` for the edge
/// parameter `un` in `[0, td]`. Together with `at_param` this says a cast
/// returns an exact point of the obstacle boundary.
pub proof fn lemma_hit_point_on_edge(p: Point, r: Vec2, a: Point, b: Point)
    requires
        cross_z(r.x as int, r.y as int, b.x - a.x, b.y - a.y) != 0,
        edge_hit(p, r, a, b) is Some,
    ensures
        ({
            let (tn, td) = edge_hit(p, r, a, b)->Some_0;
            exists|un: int|
                {
                    &&& 0 <= un <= td
                    &&& p.x * td + tn * r.x == a.x * td + #[trigger] (un * (b.x - a.x))
                    &&& p.y * td + tn * r.y == a.y * td + un * (b.y - a.y)
                }
        }),
{
    let sx = b.x - a.x;
    let sy = b.y - a.y;
    let qx = a.x - p.x;
    let qy = a.y - p.y;
    let c = cross_z(r.x as int, r.y as int, sx, sy);
    let e = cross_z(qx, qy, sx, sy);
    let f = cross_z(qx, qy, r.x as int, r.y as int);
    let (tn, td) = edge_hit(p, r, a, b)->Some_0;
    let un: int = if c > 0 {
        f
    } else {
        -f
    };
    assert(qx * c == qx * (r.x * sy) - qx * (r.y * sx)) by (nonlinear_arith)
        requires
            c == r.x * sy - r.y * sx,
    ;
    assert(e * r.x == (qx * sy) * r.x - (qy * sx) * r.x) by (nonlinear_arith)
        requires
            e == qx * sy - qy * sx,
    ;
    assert(f * sx == (qx * r.y) * sx - (qy * r.x) * sx) by (nonlinear_arith)
        requires
            f == qx * r.y - qy * r.x,
    ;
    assert(qx * (r.x * sy) == (qx * sy) * r.x) by (nonlinear_arith);
    assert(qx * (r.y * sx) == (qx * r.y) * sx) by (nonlinear_arith);
    assert((qy * sx) * r.x == (qy * r.x) * sx) by (nonlinear_arith);
    assert(e * r.x - f * sx == qx * c);
    assert(qy * c == qy * (r.x * sy) - qy * (r.y * sx)) by (nonlinear_arith)
        requires
            c == r.x * sy - r.y * sx,
    ;
    assert(e * r.y == (qx * sy) * r.y - (qy * sx) * r.y) by (nonlinear_arith)
        requires
            e == qx * sy - qy * sx,
    ;
    assert(f * sy == (qx * r.y) * sy - (qy * r.x) * sy) by (nonlinear_arith)
        requires
            f == qx * r.y - qy * r.x,
    ;
    assert(qy * (r.x * sy) == (qy * r.x) * sy) by (nonlinear_arith);
    assert(qy * (r.y * sx) == (qy * sx) * r.y) by (nonlinear_arith);
    assert((qx * sy) * r.y == (qx * r.y) * sy) by (nonlinear_arith);
    assert(e * r.y - f * sy == qy * c);
    if c > 0 {
        assert(p.x * td + tn * r.x == a.x * td + un * sx) by (nonlinear_arith)
            requires
                td == c,
                tn == e,
                un == f,
                e * r.x - f * sx == qx * c,
                qx == a.x - p.x,
        ;
        assert(p.y * td + tn * r.y == a.y * td + un * sy) by (nonlinear_arith)
            requires
                td == c,
                tn == e,
                un == f,
                e * r.y - f * sy == qy * c,
                qy == a.y - p.y,
        ;
    } else {
        assert(p.x * td + tn * r.x == a.x * td + un * sx) by (nonlinear_arith)
            requires
                td == -c,
                tn == -e,
                un == -f,
                e * r.x - f * sx == qx * c,
                qx == a.x - p.x,
        ;
        assert(p.y * td + tn * r.y == a.y * td + un * sy) by (nonlinear_arith)
            requires
                td == -c,
                tn == -e,
                un == -f,
                e * r.y - f * sy == qy * c,
                qy == a.y - p.y,
        ;
    }
    assert(p.x * td + tn * r.x == a.x * td + un * sx);
}


/// A ray aimed straight at a vertex of a non-degenerate edge always hits
/// that edge (at the vertex itself): the corner probes of the visibility
/// builders never come back empty-handed for such a target.
pub proof fn lemma_vertex_ray_hits(p: Point, r: Vec2, v: Point, b: Point)
    requires
        r.x == v.x - p.x,
        r.y == v.y - p.y,
        !(r.x == 0 && r.y == 0),
        !(v.x == b.x && v.y == b.y),
    ensures
        edge_hit(p, r, v, b) is Some,
{
    let sx = b.x - v.x;
    let sy = b.y - v.y;
    let qx = v.x - p.x;
    let qy = v.y - p.y;
    let c = cross_z(r.x as int, r.y as int, sx, sy);
    let e = cross_z(qx, qy, sx, sy);
    let f = cross_z(qx, qy, r.x as int, r.y as int);
    assert(f == 0) by (nonlinear_arith)
        requires
            f == qx * r.y - qy * r.x,
            qx == r.x,
            qy == r.y,
    ;
    assert(e == c);
    if c != 0 {
        assert(edge_hit(p, r, v, b) is Some);
    } else {
        assert(collinear_hit(p, r, v, b) is Some);
    }
}

} // verus!
