//! The level editor's selection and drag logic: picking vertices, pseudo
//! vertices (edge midpoints), actors and polygons under the mouse, dragging
//! them, and deleting vertices.
//!
//! Distances to the mouse are compared exactly on squares, so every pick
//! test is decided without rounding; edge midpoints are tested at double
//! scale for the same reason.

use vstd::prelude::*;
use crate::game::{Actor, Controller, Game};
use crate::geometry::{bbox_contains, edge_end, edge_start, norm2, Point, Polygon, COORD_LIMIT};
use crate::math::{iabs, isqrt, round_div, round_frac};

verus! {

/// The editor's square pick radius around vertices and midpoints.
pub const PICK_DIST: i64 = 10;

/// Spacing of the editor's snap grid.
pub const GRID_SIZE: i64 = 50;

/// Which polygon of the map an editing operation refers to.
#[derive(Debug, Clone, Copy)]
pub enum PolygonType {
    EndArea,
    Obstacle { index: usize },
}

/// What is being dragged.
#[derive(Debug, Clone, Copy)]
pub enum DragObject {
    Actor { index: usize },
    GuardPathVertex { actor_index: usize, vertex_index: usize },
    Polygon { polygon_type: PolygonType },
    PolygonVertex { polygon_type: PolygonType, index: usize },
}

/// What is selected after a finished drag.
#[derive(Debug, Clone, Copy)]
pub enum SelectionObject {
    Actor { index: usize },
    Polygon { polygon_type: PolygonType },
}

/// A mouse button, as the editor distinguishes them.
#[derive(Debug, Clone, Copy, PartialEq, Eq, Structural)]
pub enum MouseButton {
    Left,
    Right,
    Other,
}

/// Tracks what the editor currently drags and selects.
pub struct SelectionHandler {
    pub dragged_object: Option<DragObject>,
    pub selected_object: Option<SelectionObject>,
}

/// Vertex `i` of `s` lies within the pick radius of `(px, py)`.
pub open spec fn near_vertex(s: Seq<Point>, i: int, px: int, py: int) -> bool {
    norm2(s[i].x - px, s[i].y - py) <= PICK_DIST * PICK_DIST
}

/// The midpoint of edge `i` of `s` lies within the pick radius of
/// `(px, py)` (tested at double scale, so the half-unit midpoint is exact).
pub open spec fn near_midpoint(s: Seq<Point>, i: int, px: int, py: int) -> bool {
    norm2(
        edge_start(s, i).x + edge_end(s, i).x - 2 * px,
        edge_start(s, i).y + edge_end(s, i).y - 2 * py,
    ) <= 4 * PICK_DIST * PICK_DIST
}

/// The mouse at `(px, py)` is over the actor's collision circle.
pub open spec fn over_actor(a: Actor, px: int, py: int) -> bool {
    norm2(a.pos.x - px, a.pos.y - py) < a.radius * a.radius
}

/// `p` snapped to the nearest grid crossing (halves away from zero).
pub open spec fn snapped(p: Point) -> (int, int) {
    (GRID_SIZE * round_frac(p.x as int, GRID_SIZE as int), GRID_SIZE * round_frac(
        p.y as int,
        GRID_SIZE as int,
    ))
}

/// Snap a point to the editor's grid: each coordinate is rounded to the
/// nearest multiple of the grid spacing.
pub fn snap_to_grid(point: Point) -> (r: Point)
    requires
        point.in_bounds(),
    ensures
        r.x as int == snapped(point).0,
        r.y as int == snapped(point).1,
        r.in_bounds(),
{
    let qx = round_div(point.x as i128, GRID_SIZE as i128);
    let qy = round_div(point.y as i128, GRID_SIZE as i128);
    proof {
        assert(iabs(qx as int) <= 20 && iabs(qy as int) <= 20) by (nonlinear_arith)
            requires
                2 * iabs(qx * 50 - point.x) <= 50,
                2 * iabs(qy * 50 - point.y) <= 50,
                iabs(point.x as int) <= 1024,
                iabs(point.y as int) <= 1024,
        ;
    }
    Point { x: 50 * qx as i64, y: 50 * qy as i64 }
}

impl SelectionHandler {
    /// Nothing dragged, nothing selected.
    pub fn new() -> (r: SelectionHandler)
        ensures
            r.dragged_object is None,
            r.selected_object is None,
    {
        SelectionHandler { dragged_object: None, selected_object: None }
    }

    /// The first polygon vertex within the pick radius of the mouse.
    pub fn find_polygon_vertex_at(&self, polygon: &Polygon, mouse_pos: Point) -> (r: Option<usize>)
        requires
            polygon.wf(),
            mouse_pos.in_bounds(),
        ensures
            match r {
                Some(i) => {
                    &&& 0 <= i < polygon.verts@.len()
                    &&& near_vertex(polygon.verts@, i as int, mouse_pos.x as int, mouse_pos.y as int)
                    &&& forall|j: int|
                        0 <= j < i ==> !near_vertex(
                            polygon.verts@,
                            j,
                            mouse_pos.x as int,
                            mouse_pos.y as int,
                        )
                },
                None => forall|j: int|
                    0 <= j < polygon.verts@.len() ==> !near_vertex(
                        polygon.verts@,
                        j,
                        mouse_pos.x as int,
                        mouse_pos.y as int,
                    ),
            },
    {
        let n = polygon.verts.len();
        let mut i: usize = 0;
        while i < n
            invariant
                n == polygon.verts@.len(),
                polygon.wf(),
                mouse_pos.in_bounds(),
                i <= n,
                forall|j: int|
                    0 <= j < i ==> !near_vertex(
                        polygon.verts@,
                        j,
                        mouse_pos.x as int,
                        mouse_pos.y as int,
                    ),
            decreases n - i,
        {
            let v = polygon.verts[i];
            let dx = v.x - mouse_pos.x;
            let dy = v.y - mouse_pos.y;
            proof {
                crate::math::lemma_mul_bound(dx as int, dx as int, 2048, 2048);
                crate::math::lemma_mul_bound(dy as int, dy as int, 2048, 2048);
            }
            if dx * dx + dy * dy <= PICK_DIST * PICK_DIST {
                return Some(i);
            }
            i = i + 1;
        }
        None
    }

    /// The first edge whose midpoint lies within the pick radius of the
    /// mouse (for inserting a new vertex there).
    pub fn find_polygon_pseudo_vertex_at(&self, polygon: &Polygon, mouse_pos: Point) -> (r: Option<
        usize,
    >)
        requires
            polygon.wf(),
            mouse_pos.in_bounds(),
        ensures
            match r {
                Some(i) => {
                    &&& 0 <= i < polygon.verts@.len()
                    &&& near_midpoint(
                        polygon.verts@,
                        i as int,
                        mouse_pos.x as int,
                        mouse_pos.y as int,
                    )
                    &&& forall|j: int|
                        0 <= j < i ==> !near_midpoint(
                            polygon.verts@,
                            j,
                            mouse_pos.x as int,
                            mouse_pos.y as int,
                        )
                },
                None => forall|j: int|
                    0 <= j < polygon.verts@.len() ==> !near_midpoint(
                        polygon.verts@,
                        j,
                        mouse_pos.x as int,
                        mouse_pos.y as int,
                    ),
            },
    {
        let n = polygon.verts.len();
        let mut i: usize = 0;
        while i < n
            invariant
                n == polygon.verts@.len(),
                polygon.wf(),
                mouse_pos.in_bounds(),
                i <= n,
                forall|j: int|
                    0 <= j < i ==> !near_midpoint(
                        polygon.verts@,
                        j,
                        mouse_pos.x as int,
                        mouse_pos.y as int,
                    ),
            decreases n - i,
        {
            let a = polygon.verts[i];
            let b = polygon.verts[if i + 1 == n {
                0
            } else {
                i + 1
            }];
            proof {
                if i + 1 == n {
                    vstd::arithmetic::div_mod::lemma_mod_self_0(n as int);
                } else {
                    vstd::arithmetic::div_mod::lemma_small_mod((i + 1) as nat, n as nat);
                }
            }
            let dx = a.x + b.x - 2 * mouse_pos.x;
            let dy = a.y + b.y - 2 * mouse_pos.y;
            proof {
                crate::math::lemma_mul_bound(dx as int, dx as int, 4096, 4096);
                crate::math::lemma_mul_bound(dy as int, dy as int, 4096, 4096);
            }
            if dx * dx + dy * dy <= 4 * PICK_DIST * PICK_DIST {
                return Some(i);
            }
            i = i + 1;
        }
        None
    }

    /// The actor under the mouse whose circle the mouse is deepest inside
    /// (depth compared through the floor square root of the squared
    /// distance), earliest actor winning ties.
    pub fn find_actor_at(&self, game: &Game, mouse_pos: Point) -> (r: Option<usize>)
        requires
            game.wf(),
            mouse_pos.in_bounds(),
        ensures
            match r {
                Some(i) => {
                    &&& 0 <= i < game.actors@.len()
                    &&& over_actor(game.actors@[i as int], mouse_pos.x as int, mouse_pos.y as int)
                },
                None => forall|j: int|
                    0 <= j < game.actors@.len() ==> !over_actor(
                        #[trigger] game.actors@[j],
                        mouse_pos.x as int,
                        mouse_pos.y as int,
                    ),
            },
    {
        let n = game.actors.len();
        let mut best: Option<usize> = None;
        let mut best_key: i64 = 0;
        let mut i: usize = 0;
        while i < n
            invariant
                n == game.actors@.len(),
                game.wf(),
                mouse_pos.in_bounds(),
                i <= n,
                match best {
                    Some(bi) => {
                        &&& 0 <= bi < i
                        &&& over_actor(
                            game.actors@[bi as int],
                            mouse_pos.x as int,
                            mouse_pos.y as int,
                        )
                    },
                    None => forall|j: int|
                        0 <= j < i ==> !over_actor(
                            #[trigger] game.actors@[j],
                            mouse_pos.x as int,
                            mouse_pos.y as int,
                        ),
                },
            decreases n - i,
        {
            let a = &game.actors[i];
            let dx = a.pos.x - mouse_pos.x;
            let dy = a.pos.y - mouse_pos.y;
            proof {
                crate::math::lemma_mul_bound(dx as int, dx as int, 2048, 2048);
                crate::math::lemma_mul_bound(dy as int, dy as int, 2048, 2048);
                crate::math::lemma_mul_bound(a.radius as int, a.radius as int, 1024, 1024);
            }
            proof {
                assert(dx * dx >= 0 && dy * dy >= 0) by (nonlinear_arith);
            }
            let d2 = dx * dx + dy * dy;
            if d2 < a.radius * a.radius {
                let mw = isqrt(d2 as u128);
                proof {
                    assert(mw <= 4096) by (nonlinear_arith)
                        requires
                            (mw as int) * (mw as int) <= d2 as int,
                            d2 <= 0x80_0000,
                    ;
                }
                let m = mw as i64;
                let key = m - a.radius;
                let take = match best {
                    Some(_) => key < best_key,
                    None => true,
                };
                if take {
                    best = Some(i);
                    best_key = key;
                }
            }
            i = i + 1;
        }
        best
    }

    /// Whether the mouse is over the end area's bounding box.
    pub fn has_end_area_at(&self, game: &Game, mouse_pos: Point) -> (r: bool)
        requires
            game.wf(),
            game.game_map.end_area.verts@.len() > 0,
            mouse_pos.in_bounds(),
        ensures
            r == bbox_contains(
                game.game_map.end_area.verts@,
                mouse_pos.x as int,
                mouse_pos.y as int,
            ),
    {
        game.game_map.end_area.contains(mouse_pos)
    }

    /// The first obstacle whose bounding box is under the mouse.
    pub fn find_polygon_at(&self, game: &Game, mouse_pos: Point) -> (r: Option<usize>)
        requires
            game.wf(),
            mouse_pos.in_bounds(),
        ensures
            match r {
                Some(i) => {
                    &&& 0 <= i < game.game_map.obstacles@.len()
                    &&& bbox_contains(
                        game.game_map.obstacles@[i as int].verts@,
                        mouse_pos.x as int,
                        mouse_pos.y as int,
                    )
                    &&& forall|j: int|
                        0 <= j < i ==> !bbox_contains(
                            (#[trigger] game.game_map.obstacles@[j]).verts@,
                            mouse_pos.x as int,
                            mouse_pos.y as int,
                        )
                },
                None => forall|j: int|
                    0 <= j < game.game_map.obstacles@.len() ==> !bbox_contains(
                        (#[trigger] game.game_map.obstacles@[j]).verts@,
                        mouse_pos.x as int,
                        mouse_pos.y as int,
                    ),
            },
    {
        let n = game.game_map.obstacles.len();
        let mut i: usize = 0;
        while i < n
            invariant
                n == game.game_map.obstacles@.len(),
                game.wf(),
                mouse_pos.in_bounds(),
                i <= n,
                forall|j: int|
                    0 <= j < i ==> !bbox_contains(
                        (#[trigger] game.game_map.obstacles@[j]).verts@,
                        mouse_pos.x as int,
                        mouse_pos.y as int,
                    ),
            decreases n - i,
        {
            let poly = &game.game_map.obstacles[i];
            if poly.verts.len() > 0 {
                if poly.contains(mouse_pos) {
                    return Some(i);
                }
            } else {
                proof {
                    assert(!bbox_contains(
                        game.game_map.obstacles@[i as int].verts@,
                        mouse_pos.x as int,
                        mouse_pos.y as int,
                    ));
                }
            }
            i = i + 1;
        }
        None
    }

    /// A finished drag turns the dragged object into the selection: a
    /// dragged actor or one of its patrol vertices selects that actor, a
    /// dragged polygon or polygon vertex selects that polygon, and no drag
    /// clears the selection.
    pub fn end_drag(&mut self)
        ensures
            final(self).dragged_object is None,
            final(self).selected_object == match old(self).dragged_object {
                Some(DragObject::Actor { index }) => Some(SelectionObject::Actor { index }),
                Some(
                    DragObject::GuardPathVertex { actor_index, vertex_index: _ },
                ) => Some(SelectionObject::Actor { index: actor_index }),
                Some(DragObject::Polygon { polygon_type }) => Some(
                    SelectionObject::Polygon { polygon_type },
                ),
                Some(DragObject::PolygonVertex { polygon_type, index: _ }) => Some(
                    SelectionObject::Polygon { polygon_type },
                ),
                None => None,
            },
    {
        self.selected_object = match self.dragged_object {
            Some(DragObject::Actor { index }) => Some(SelectionObject::Actor { index }),
            Some(DragObject::GuardPathVertex { actor_index, vertex_index: _ }) => Some(
                SelectionObject::Actor { index: actor_index },
            ),
            Some(DragObject::Polygon { polygon_type }) => Some(
                SelectionObject::Polygon { polygon_type },
            ),
            Some(DragObject::PolygonVertex { polygon_type, index: _ }) => Some(
                SelectionObject::Polygon { polygon_type },
            ),
            None => None,
        };
        self.dragged_object = None;
    }

    /// A left press starts a drag on whatever is under the mouse; a right
    /// press deletes a selected polygon's vertex under the mouse.
    pub fn handle_mouse_down(&mut self, game: &mut Game, button: MouseButton, mouse_pos: Point)
        requires
            old(game).wf(),
            mouse_pos.in_bounds(),
        ensures
            final(game).wf(),
            final(self).selected_object == old(self).selected_object,
            final(game).actors@.len() == old(game).actors@.len(),
    {
        match button {
            MouseButton::Left => {
                let d = self.find_object_to_drag(game, mouse_pos);
                self.dragged_object = d;
            },
            MouseButton::Right => self.delete_object(game, mouse_pos),
            MouseButton::Other => {},
        }
    }

    /// What a left press at `mouse_pos` starts dragging, inserting a new
    /// vertex when an edge midpoint of the selected polygon (or patrol
    /// route) is picked: a vertex of the selected polygon first, one of the
    /// selected guard's patrol vertices next, an actor, the end area, and
    /// an obstacle last.
    fn find_object_to_drag(&self, game: &mut Game, mouse_pos: Point) -> (r: Option<DragObject>)
        requires
            old(game).wf(),
            mouse_pos.in_bounds(),
        ensures
            final(game).wf(),
            final(game).actors@.len() == old(game).actors@.len(),
    {
        match self.selected_object {
            Some(SelectionObject::Polygon { polygon_type }) => {
                let found = match polygon_type {
                    PolygonType::EndArea => self.find_polygon_vertex_at(
                        &game.game_map.end_area,
                        mouse_pos,
                    ),
                    PolygonType::Obstacle { index } => {
                        if index < game.game_map.obstacles.len() {
                            self.find_polygon_vertex_at(
                                &game.game_map.obstacles[index],
                                mouse_pos,
                            )
                        } else {
                            None
                        }
                    },
                };
                if let Some(i) = found {
                    return Some(DragObject::PolygonVertex { polygon_type, index: i });
                }
                let mid = match polygon_type {
                    PolygonType::EndArea => self.find_polygon_pseudo_vertex_at(
                        &game.game_map.end_area,
                        mouse_pos,
                    ),
                    PolygonType::Obstacle { index } => {
                        if index < game.game_map.obstacles.len() {
                            self.find_polygon_pseudo_vertex_at(
                                &game.game_map.obstacles[index],
                                mouse_pos,
                            )
                        } else {
                            None
                        }
                    },
                };
                if let Some(i) = mid {
                    match polygon_type {
                        PolygonType::EndArea => {
                            if i < game.game_map.end_area.verts.len() {
                                game.game_map.end_area.verts.insert(i + 1, mouse_pos);
                            }
                        },
                        PolygonType::Obstacle { index } => {
                            if index < game.game_map.obstacles.len() {
                                if i < game.game_map.obstacles[index].verts.len() {
                                    game.game_map.obstacles[index].verts.insert(i + 1, mouse_pos);
                                }
                            }
                        },
                    }
                    proof {
                        assert(game.wf()) by {
                            assert forall|k: int|
                                0 <= k < game.game_map.obstacles@.len() implies (
                            #[trigger] game.game_map.obstacles@[k]).wf() by {}
                        }
                    }
                    return Some(DragObject::PolygonVertex { polygon_type, index: i + 1 });
                }
            },
            Some(SelectionObject::Actor { index }) => {
                if index < game.actors.len() {
                    let is_guard = matches!(game.actors[index].controller, Controller::Guard(_));
                    if is_guard {
                        let found = match &game.actors[index].controller {
                            Controller::Guard(g) => self.find_polygon_vertex_at(
                                &g.points,
                                mouse_pos,
                            ),
                            Controller::Player(_) => None,
                        };
                        if let Some(i) = found {
                            return Some(
                                DragObject::GuardPathVertex {
                                    actor_index: index,
                                    vertex_index: i,
                                },
                            );
                        }
                    }
                }
            },
            None => {},
        }
        if let Some(i) = self.find_actor_at(game, mouse_pos) {
            return Some(DragObject::Actor { index: i });
        }
        if game.game_map.end_area.verts.len() > 0 {
            if self.has_end_area_at(game, mouse_pos) {
                return Some(DragObject::Polygon { polygon_type: PolygonType::EndArea });
            }
        }
        if let Some(i) = self.find_polygon_at(game, mouse_pos) {
            return Some(
                DragObject::Polygon { polygon_type: PolygonType::Obstacle { index: i } },
            );
        }
        None
    }

    /// Delete the vertex under the mouse from the selected polygon, as long
    /// as more than three vertices remain.
    fn delete_object(&mut self, game: &mut Game, mouse_pos: Point)
        requires
            old(game).wf(),
            mouse_pos.in_bounds(),
        ensures
            final(game).wf(),
            final(self).selected_object == old(self).selected_object,
            final(self).dragged_object == old(self).dragged_object,
            final(game).actors@.len() == old(game).actors@.len(),
    {
        match self.selected_object {
            Some(SelectionObject::Polygon { polygon_type }) => {
                match polygon_type {
                    PolygonType::EndArea => {
                        if game.game_map.end_area.verts.len() > 3 {
                            if let Some(i) = self.find_polygon_vertex_at(
                                &game.game_map.end_area,
                                mouse_pos,
                            ) {
                                game.game_map.end_area.verts.remove(i);
                            }
                        }
                    },
                    PolygonType::Obstacle { index } => {
                        if index < game.game_map.obstacles.len() {
                            if game.game_map.obstacles[index].verts.len() > 3 {
                                if let Some(i) = self.find_polygon_vertex_at(
                                    &game.game_map.obstacles[index],
                                    mouse_pos,
                                ) {
                                    game.game_map.obstacles[index].verts.remove(i);
                                }
                            }
                        }
                    },
                }
            },
            _ => {},
        }
    }

    /// While a drag is running, move the dragged thing to the mouse: a
    /// dragged actor or vertex follows the mouse exactly; a dragged polygon
    /// is translated so its vertex centroid follows the mouse (clamped to
    /// the working range).
    pub fn handle_mouse_motion(&mut self, game: &mut Game, mouse_pos: Point)
        requires
            old(game).wf(),
            mouse_pos.in_bounds(),
        ensures
            final(game).wf(),
            *final(self) == *old(self),
            final(game).actors@.len() == old(game).actors@.len(),
            final(game).player_won == old(game).player_won,
    {
        match self.dragged_object {
            Some(DragObject::Actor { index }) => {
                if index < game.actors.len() {
                    game.actors[index].pos = mouse_pos;
                }
            },
            Some(DragObject::GuardPathVertex { actor_index, vertex_index }) => {
                if actor_index < game.actors.len() {
                    let is_guard = matches!(
                        game.actors[actor_index].controller,
                        Controller::Guard(_)
                    );
                    if is_guard {
                        set_guard_vertex(game, actor_index, vertex_index, mouse_pos);
                    }
                }
            },
            Some(DragObject::Polygon { polygon_type }) => {
                match polygon_type {
                    PolygonType::EndArea => {
                        translate_polygon_to(&mut game.game_map.end_area, mouse_pos);
                    },
                    PolygonType::Obstacle { index } => {
                        if index < game.game_map.obstacles.len() {
                            let mut poly = Polygon { verts: Vec::new() };
                            core::mem::swap(&mut poly, &mut game.game_map.obstacles[index]);
                            translate_polygon_to(&mut poly, mouse_pos);
                            core::mem::swap(&mut poly, &mut game.game_map.obstacles[index]);
                        }
                    },
                }
            },
            Some(DragObject::PolygonVertex { polygon_type, index }) => {
                match polygon_type {
                    PolygonType::EndArea => {
                        if index < game.game_map.end_area.verts.len() {
                            game.game_map.end_area.verts[index] = mouse_pos;
                        }
                    },
                    PolygonType::Obstacle { index: pindex } => {
                        if pindex < game.game_map.obstacles.len() {
                            if index < game.game_map.obstacles[pindex].verts.len() {
                                game.game_map.obstacles[pindex].verts[index] = mouse_pos;
                            }
                        }
                    },
                }
            },
            None => {},
        }
    }

    /// Releasing the left button finishes the drag.
    pub fn handle_mouse_up(&mut self, _game: &mut Game, button: MouseButton)
        ensures
            button == MouseButton::Left ==> final(self).dragged_object is None,
            button != MouseButton::Left ==> *final(self) == *old(self),
    {
        if matches!(button, MouseButton::Left) {
            self.end_drag()
        }
    }
}

/// Move one vertex of a guard's patrol route (helper for dragging).
fn set_guard_vertex(game: &mut Game, actor_index: usize, vertex_index: usize, mouse_pos: Point)
    requires
        old(game).wf(),
        mouse_pos.in_bounds(),
        (actor_index as int) < old(game).actors@.len(),
        old(game).actors@[actor_index as int].controller is Guard,
    ensures
        final(game).wf(),
        final(game).actors@.len() == old(game).actors@.len(),
        final(game).player_won == old(game).player_won,
{
    match &mut game.actors[actor_index].controller {
        Controller::Guard(g) => {
            if vertex_index < g.points.verts.len() {
                g.points.verts[vertex_index] = mouse_pos;
            }
        },
        Controller::Player(_) => {},
    }
}

/// Translate every vertex of `poly` by the offset from the vertex centroid
/// (truncated integer average) to `target`, clamping into the working
/// range.
fn translate_polygon_to(poly: &mut Polygon, target: Point)
    requires
        old(poly).wf(),
        target.in_bounds(),
    ensures
        final(poly).wf(),
        final(poly).verts@.len() == old(poly).verts@.len(),
{
    let n = poly.verts.len();
    if n == 0 {
        return ;
    }
    let mut acc_x: i128 = 0;
    let mut acc_y: i128 = 0;
    let mut i: usize = 0;
    while i < n
        invariant
            n == poly.verts@.len(),
            poly.wf(),
            i <= n,
            iabs(acc_x as int) <= i * 1024,
            iabs(acc_y as int) <= i * 1024,
        decreases n - i,
    {
        proof {
            assert(i * 1024 + 1024 == (i + 1) * 1024) by (nonlinear_arith);
            assert(i * 1024 <= 0x4000_0000_0000_0000_0000) by (nonlinear_arith)
                requires
                    i as int <= 0xFFFF_FFFF_FFFF_FFFFint,
            ;
        }
        acc_x = acc_x + poly.verts[i].x as i128;
        acc_y = acc_y + poly.verts[i].y as i128;
        i = i + 1;
    }
    proof {
        assert(n * 1024 <= 0x4000_0000_0000_0000_0000) by (nonlinear_arith)
            requires
                n as int <= 0xFFFF_FFFF_FFFF_FFFFint,
        ;
    }
    let cq_x = round_div(acc_x, n as i128);
    let cq_y = round_div(acc_y, n as i128);
    proof {
        assert(iabs(cq_x as int) <= 1025 && iabs(cq_y as int) <= 1025) by (nonlinear_arith)
            requires
                2 * iabs(cq_x * (n as int) - acc_x) <= n as int,
                2 * iabs(cq_y * (n as int) - acc_y) <= n as int,
                iabs(acc_x as int) <= (n as int) * 1024,
                iabs(acc_y as int) <= (n as int) * 1024,
                1 <= n as int,
        ;
    }
    let cx = cq_x as i64;
    let cy = cq_y as i64;
    let dx = target.x - cx;
    let dy = target.y - cy;
    let mut j: usize = 0;
    while j < n
        invariant
            n == poly.verts@.len(),
            poly.wf(),
            j <= n,
            iabs(dx as int) <= 4096,
            iabs(dy as int) <= 4096,
        decreases n - j,
    {
        let v = poly.verts[j];
        poly.verts[j] = Point {
            x: crate::collision::clamp_exec(v.x as i128 + dx as i128),
            y: crate::collision::clamp_exec(v.y as i128 + dy as i128),
        };
        j = j + 1;
    }
}

} // verus!
