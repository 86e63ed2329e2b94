//! Geometric primitives: integer points and displacement vectors, rational
//! points (exact intersection results), polygons given as ordered vertex
//! rings, and axis-aligned rectangles.
//!
//! Every coordinate the engine works on is an integer in
//! `[-COORD_LIMIT, COORD_LIMIT]`; intermediate results (ray hits, closest
//! points) are exact rationals whose numerators and denominators stay within
//! `RAT_NUM_LIMIT` / `RAT_DEN_LIMIT`, so all products taken by the engine fit
//! in `i128`.

use vstd::prelude::*;
use crate::math::iabs;

verus! {

/// Largest coordinate magnitude the engine accepts.
pub const COORD_LIMIT: i64 = 1024;

/// Largest direction-component magnitude a ray may carry.
pub const DIR_LIMIT: i64 = 0x2000_0000;

/// Bound on the numerators of rational points produced by the engine.
pub const RAT_NUM_LIMIT: i128 = 0x40_0000_0000_0000;

/// Bound on the denominators of rational points produced by the engine.
pub const RAT_DEN_LIMIT: i128 = 0x400_0000_0000;

/// A position on the integer coordinate grid.
#[derive(Clone, Copy, PartialEq, Eq, Structural, Debug)]
pub struct Point {
    pub x: i64,
    pub y: i64,
}

/// A displacement between positions.
#[derive(Clone, Copy, PartialEq, Eq, Structural, Debug)]
pub struct Vec2 {
    pub x: i64,
    pub y: i64,
}

/// An exact rational position: `(nx / d, ny / d)` with `d >= 1`.
#[derive(Clone, Copy, PartialEq, Eq, Structural, Debug)]
pub struct RatPoint {
    pub nx: i128,
    pub ny: i128,
    pub d: i128,
}

/// The z component of the cross product of `(ax, ay)` and `(bx, by)`.
pub open spec fn cross_z(ax: int, ay: int, bx: int, by: int) -> int {
    ax * by - ay * bx
}

/// The dot product of `(ax, ay)` and `(bx, by)`.
pub open spec fn dot(ax: int, ay: int, bx: int, by: int) -> int {
    ax * bx + ay * by
}

/// The squared length of `(ax, ay)`.
pub open spec fn norm2(ax: int, ay: int) -> int {
    ax * ax + ay * ay
}

impl Point {
    /// Both coordinates within the engine's working range.
    pub open spec fn in_bounds(self) -> bool {
        iabs(self.x as int) <= COORD_LIMIT && iabs(self.y as int) <= COORD_LIMIT
    }

    pub fn new(x: i64, y: i64) -> (r: Point)
        ensures
            r.x == x,
            r.y == y,
    {
        Point { x, y }
    }

    /// Runtime check for `in_bounds`.
    pub fn check_bounds(&self) -> (r: bool)
        ensures
            r == self.in_bounds(),
    {
        -COORD_LIMIT <= self.x && self.x <= COORD_LIMIT && -COORD_LIMIT <= self.y && self.y
            <= COORD_LIMIT
    }

    /// This grid point as an exact rational point.
    pub fn to_rat(&self) -> (r: RatPoint)
        ensures
            r.nx == self.x as int,
            r.ny == self.y as int,
            r.d == 1,
    {
        RatPoint { nx: self.x as i128, ny: self.y as i128, d: 1 }
    }
}

impl Vec2 {
    /// Both components within the engine's working range for directions.
    pub open spec fn dir_in_bounds(self) -> bool {
        iabs(self.x as int) <= DIR_LIMIT && iabs(self.y as int) <= DIR_LIMIT
    }

    /// The zero displacement.
    pub open spec fn is_zero(self) -> bool {
        self.x == 0 && self.y == 0
    }

    pub fn new(x: i64, y: i64) -> (r: Vec2)
        ensures
            r.x == x,
            r.y == y,
    {
        Vec2 { x, y }
    }
}

impl RatPoint {
    /// Positive denominator and numerators within the engine's bounds.
    pub open spec fn wf(self) -> bool {
        &&& 1 <= self.d <= RAT_DEN_LIMIT
        &&& iabs(self.nx as int) <= RAT_NUM_LIMIT
        &&& iabs(self.ny as int) <= RAT_NUM_LIMIT
    }

    /// Denotes the same rational position as `(nx, ny, d)`.
    pub open spec fn is_frac(self, nx: int, ny: int, d: int) -> bool {
        &&& d != 0
        &&& self.nx * d == nx * self.d
        &&& self.ny * d == ny * self.d
    }
}

/// An ordered ring of vertices; edges are consecutive pairs, wrapping from
/// the last vertex back to the first.
#[derive(Clone, Debug)]
pub struct Polygon {
    pub verts: Vec<Point>,
}

/// First endpoint of edge `i` of the ring `s`.
pub open spec fn edge_start(s: Seq<Point>, i: int) -> Point {
    s[i]
}

/// Second endpoint of edge `i` of the ring `s` (wrapping).
pub open spec fn edge_end(s: Seq<Point>, i: int) -> Point {
    s[(i + 1) % (s.len() as int)]
}

impl Polygon {
    /// Every vertex lies within the engine's working range.
    pub open spec fn wf(self) -> bool {
        forall|i: int| 0 <= i < self.verts@.len() ==> (#[trigger] self.verts@[i]).in_bounds()
    }

    pub fn new(verts: Vec<Point>) -> (r: Polygon)
        ensures
            r.verts@ == verts@,
    {
        Polygon { verts }
    }

    /// Runtime check for `wf`.
    pub fn check_bounds(&self) -> (r: bool)
        ensures
            r == self.wf(),
    {
        let n = self.verts.len();
        let mut i: usize = 0;
        while i < n
            invariant
                i <= n,
                n == self.verts@.len(),
                forall|j: int| 0 <= j < i ==> (#[trigger] self.verts@[j]).in_bounds(),
            decreases n - i,
        {
            if !self.verts[i].check_bounds() {
                return false;
            }
            i = i + 1;
        }
        true
    }

    /// The edge pairs of the ring, in order: `(v[i], v[(i+1) % n])`.
    pub fn edge_iter(&self) -> (r: Vec<(Point, Point)>)
        ensures
            r@.len() == self.verts@.len(),
            forall|i: int|
                0 <= i < r@.len() ==> #[trigger] r@[i] == (
                edge_start(self.verts@, i),
                edge_end(self.verts@, i),
            ),
    {
        let n = self.verts.len();
        let mut r: Vec<(Point, Point)> = Vec::new();
        let mut i: usize = 0;
        while i < n
            invariant
                i <= n,
                n == self.verts@.len(),
                r@.len() == i,
                forall|j: int|
                    0 <= j < i ==> #[trigger] r@[j] == (
                    edge_start(self.verts@, j),
                    edge_end(self.verts@, j),
                ),
            decreases n - i,
        {
            let a = self.verts[i];
            let b = self.verts[if i + 1 == n {
                0
            } else {
                i + 1
            }];
            proof {
                if i + 1 == n {
                    vstd::arithmetic::div_mod::lemma_mod_self_0(n as int);
                } else {
                    vstd::arithmetic::div_mod::lemma_small_mod((i + 1) as nat, n as nat);
                }
            }
            r.push((a, b));
            i = i + 1;
        }
        r
    }
}

/// An axis-aligned rectangle: top-left corner, width and height.
#[derive(Clone, Copy, PartialEq, Eq, Structural, Debug)]
pub struct Rect {
    pub x: i64,
    pub y: i64,
    pub w: i64,
    pub h: i64,
}

impl Rect {
    /// Whether `p` lies inside the rectangle, borders included.
    pub fn contains(&self, p: Point) -> (r: bool)
        requires
            iabs(self.x as int) <= COORD_LIMIT,
            iabs(self.y as int) <= COORD_LIMIT,
            0 <= self.w <= 2 * COORD_LIMIT,
            0 <= self.h <= 2 * COORD_LIMIT,
        ensures
            r == (self.x <= p.x <= self.x + self.w && self.y <= p.y <= self.y + self.h),
    {
        self.x <= p.x && p.x <= self.x + self.w && self.y <= p.y && p.y <= self.y + self.h
    }
}


/// The ring has a vertex at or left of `x`, one at or right of `x`, one at
/// or above `y`, and one at or below `y`: exactly when `(x, y)` lies in the
/// ring's axis-aligned bounding box.
pub open spec fn bbox_contains(s: Seq<Point>, x: int, y: int) -> bool {
    &&& s.len() > 0
    &&& exists|i: int| 0 <= i < s.len() && (#[trigger] s[i]).x <= x
    &&& exists|i: int| 0 <= i < s.len() && (#[trigger] s[i]).x >= x
    &&& exists|i: int| 0 <= i < s.len() && (#[trigger] s[i]).y <= y
    &&& exists|i: int| 0 <= i < s.len() && (#[trigger] s[i]).y >= y
}

impl Polygon {
    /// The axis-aligned bounding box of the vertices.
    pub fn bounding_box(&self) -> (r: Rect)
        requires
            self.verts@.len() > 0,
            self.wf(),
        ensures
            forall|i: int|
                0 <= i < self.verts@.len() ==> r.x <= (#[trigger] self.verts@[i]).x <= r.x + r.w
                    && r.y <= self.verts@[i].y <= r.y + r.h,
            exists|i: int| 0 <= i < self.verts@.len() && (#[trigger] self.verts@[i]).x == r.x,
            exists|i: int|
                0 <= i < self.verts@.len() && (#[trigger] self.verts@[i]).x == r.x + r.w,
            exists|i: int| 0 <= i < self.verts@.len() && (#[trigger] self.verts@[i]).y == r.y,
            exists|i: int|
                0 <= i < self.verts@.len() && (#[trigger] self.verts@[i]).y == r.y + r.h,
            iabs(r.x as int) <= COORD_LIMIT,
            iabs(r.y as int) <= COORD_LIMIT,
            0 <= r.w <= 2 * COORD_LIMIT,
            0 <= r.h <= 2 * COORD_LIMIT,
    {
        let n = self.verts.len();
        let mut min_x = self.verts[0].x;
        let mut max_x = self.verts[0].x;
        let mut min_y = self.verts[0].y;
        let mut max_y = self.verts[0].y;
        let mut i: usize = 1;
        while i < n
            invariant
                n == self.verts@.len(),
                self.wf(),
                1 <= i <= n,
                forall|k: int|
                    0 <= k < i ==> min_x <= (#[trigger] self.verts@[k]).x <= max_x && min_y
                        <= self.verts@[k].y <= max_y,
                exists|k: int| 0 <= k < i && (#[trigger] self.verts@[k]).x == min_x,
                exists|k: int| 0 <= k < i && (#[trigger] self.verts@[k]).x == max_x,
                exists|k: int| 0 <= k < i && (#[trigger] self.verts@[k]).y == min_y,
                exists|k: int| 0 <= k < i && (#[trigger] self.verts@[k]).y == max_y,
                iabs(min_x as int) <= COORD_LIMIT,
                iabs(max_x as int) <= COORD_LIMIT,
                iabs(min_y as int) <= COORD_LIMIT,
                iabs(max_y as int) <= COORD_LIMIT,
            decreases n - i,
        {
            let v = self.verts[i];
            if v.x < min_x {
                min_x = v.x;
            }
            if v.x > max_x {
                max_x = v.x;
            }
            if v.y < min_y {
                min_y = v.y;
            }
            if v.y > max_y {
                max_y = v.y;
            }
            i = i + 1;
        }
        Rect { x: min_x, y: min_y, w: max_x - min_x, h: max_y - min_y }
    }

    /// Whether `p` lies in the polygon's bounding box (the editor's cheap
    /// pick test; not an exact point-in-polygon test).
    pub fn contains(&self, p: Point) -> (r: bool)
        requires
            self.verts@.len() > 0,
            self.wf(),
        ensures
            r == bbox_contains(self.verts@, p.x as int, p.y as int),
    {
        let bb = self.bounding_box();
        let inside = bb.contains(p);
        proof {
            if inside {
                assert(bbox_contains(self.verts@, p.x as int, p.y as int));
            } else {
                if bbox_contains(self.verts@, p.x as int, p.y as int) {
                    let i1 = choose|i: int| 0 <= i < self.verts@.len() && (#[trigger] self.verts@[i]).x <= p.x;
                    let i2 = choose|i: int| 0 <= i < self.verts@.len() && (#[trigger] self.verts@[i]).x >= p.x;
                    let i3 = choose|i: int| 0 <= i < self.verts@.len() && (#[trigger] self.verts@[i]).y <= p.y;
                    let i4 = choose|i: int| 0 <= i < self.verts@.len() && (#[trigger] self.verts@[i]).y >= p.y;
                    assert(false);
                }
            }
        }
        inside
    }
}

} // verus!
