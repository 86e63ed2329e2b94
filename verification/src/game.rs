//! The simulation: actors (player and guards), their controllers, the
//! per-tick movement/vision pipeline, and the detection accumulator.
//!
//! Each tick, every actor's desired displacement is computed (from the
//! player's keys or from a guard's patrol route), the penetration resolver
//! corrects the new position against every obstacle, the end-area and
//! detection checks run, and every field of view is rebuilt.

use vstd::prelude::*;
use crate::collision::{
    clamp_coord, did_player_win, handle_obstacle_collisions, resolved_from, touches_boundary,
};
use crate::fov::{fov_sees, recalc_post, ConeFieldOfView, FieldOfView, NoFieldOfView};
use crate::game_map::GameMap;
use crate::geometry::{Point, Polygon, Vec2, COORD_LIMIT};
use crate::math::{iabs, isqrt, isqrt_of, round_div, round_frac};

verus! {

/// The detection score that counts as "discovered" (the scale's top).
pub const SCORE_MAX: i64 = 1000;

/// Per-tick change of the detection score; at sixty ticks a second, about
/// one second of unbroken sight reaches the top of the scale.
pub const SCORE_STEP: i64 = 15;

/// Largest accepted movement speed, in grid units per tick.
pub const SPEED_LIMIT: i64 = 64;

/// The player's movement keys, sampled once per tick.
#[derive(Clone, Copy, PartialEq, Eq, Structural, Debug)]
pub struct MoveKeys {
    pub up: bool,
    pub down: bool,
    pub left: bool,
    pub right: bool,
    pub sprint: bool,
}

/// The detection score after one tick: stepped up while the guard sees the
/// player and down while it does not, clamped to `[0, SCORE_MAX]`.
pub open spec fn score_after(s: int, seen: bool) -> int {
    if seen {
        if s + SCORE_STEP > SCORE_MAX {
            SCORE_MAX as int
        } else {
            s + SCORE_STEP
        }
    } else {
        if s - SCORE_STEP < 0 {
            0
        } else {
            s - SCORE_STEP
        }
    }
}

/// The detection score is a leaky integrator: it never leaves `[0,
/// SCORE_MAX]`, does not decrease while the player is seen, and does not
/// increase while the player is not.
pub proof fn lemma_score_monotone(s: int, seen: bool)
    requires
        0 <= s <= SCORE_MAX,
    ensures
        0 <= score_after(s, seen) <= SCORE_MAX,
        seen ==> score_after(s, seen) >= s,
        !seen ==> score_after(s, seen) <= s,
{
}

/// Drives the player from the keyboard.
pub struct PlayerController {}

impl PlayerController {
    /// The player's displacement for one tick: the key direction, scaled to
    /// the (possibly sprinting) speed; a diagonal is shortened by the
    /// rounded factor `1024 / 1448` (one over the square root of two) so
    /// diagonal movement is no faster than straight movement.
    pub fn next_movement(&self, keys: MoveKeys, move_speed: i64) -> (r: Vec2)
        requires
            0 <= move_speed <= SPEED_LIMIT,
        ensures
            r.x == player_move(keys, move_speed as int).0,
            r.y == player_move(keys, move_speed as int).1,
            iabs(r.x as int) <= 2 * move_speed,
            iabs(r.y as int) <= 2 * move_speed,
    {
        let dx: i64 = (if keys.right {
            1
        } else {
            0
        }) - (if keys.left {
            1
        } else {
            0
        });
        let dy: i64 = (if keys.down {
            1
        } else {
            0
        }) - (if keys.up {
            1
        } else {
            0
        });
        let eff: i64 = if keys.sprint {
            2 * move_speed
        } else {
            move_speed
        };
        proof {
            crate::math::lemma_mul_bound(dx as int, eff as int, 1, 2 * move_speed as int);
            crate::math::lemma_mul_bound(dy as int, eff as int, 1, 2 * move_speed as int);
            assert(1 * (2 * move_speed as int) == 2 * move_speed as int) by (nonlinear_arith);
        }
        if dx == 0 && dy == 0 {
            Vec2 { x: 0, y: 0 }
        } else if dy == 0 {
            Vec2 { x: dx * eff, y: 0 }
        } else if dx == 0 {
            Vec2 { x: 0, y: dy * eff }
        } else {
            let diag128: i128 = round_div(eff as i128 * 1024, 1448);
            proof {
                assert(0 <= diag128 <= eff) by (nonlinear_arith)
                    requires
                        2 * iabs(diag128 * 1448 - eff * 1024) <= 1448,
                        0 <= eff <= 128,
                ;
            }
            let diag: i64 = diag128 as i64;
            proof {
                crate::math::lemma_mul_bound(dx as int, diag as int, 1, 2 * move_speed as int);
                crate::math::lemma_mul_bound(dy as int, diag as int, 1, 2 * move_speed as int);
            }
            Vec2 { x: dx * diag, y: dy * diag }
        }
    }
}

/// Drives a guard along its patrol route: always toward the current patrol
/// point, advancing to the next one on arrival.
pub struct GuardController {
    pub points: Polygon,
    pub i: usize,
}

impl GuardController {
    /// A valid patrol route: at least one point, all on the grid, and the
    /// current index inside it.
    pub open spec fn wf(self) -> bool {
        &&& self.points.verts@.len() > 0
        &&& self.points.wf()
        &&& (self.i as int) < self.points.verts@.len()
    }

    /// One tick of patrol movement from `pos`: if the current patrol point
    /// is within five units it is passed and the next becomes current; a
    /// target within two units is stepped onto exactly; otherwise the guard
    /// moves `move_speed` units straight toward it (components rounded to
    /// the grid through the floor square root `m` of the squared distance).
    pub fn next_movement(&mut self, pos: Point, move_speed: i64) -> (r: Vec2)
        requires
            old(self).wf(),
            pos.in_bounds(),
            1 <= move_speed <= SPEED_LIMIT,
        ensures
            final(self).wf(),
            final(self).points == old(self).points,
            final(self).i as int == guard_next_index(*old(self), pos),
            r.x == guard_move(*old(self), pos, move_speed as int).0,
            r.y == guard_move(*old(self), pos, move_speed as int).1,
            iabs(r.x as int) <= 2 * COORD_LIMIT,
            iabs(r.y as int) <= 2 * COORD_LIMIT,
    {
        let n = self.points.verts.len();
        let t0 = self.points.verts[self.i];
        let dx0: i64 = t0.x - pos.x;
        let dy0: i64 = t0.y - pos.y;
        proof {
            crate::math::lemma_mul_bound(dx0 as int, dx0 as int, 2048, 2048);
            crate::math::lemma_mul_bound(dy0 as int, dy0 as int, 2048, 2048);
        }
        if dx0 * dx0 + dy0 * dy0 <= 25 {
            let next = self.i + 1;
            self.i = if next == n {
                0
            } else {
                next
            };
            proof {
                if next == n {
                    vstd::arithmetic::div_mod::lemma_mod_self_0(n as int);
                } else {
                    vstd::arithmetic::div_mod::lemma_small_mod(next as nat, n as nat);
                }
            }
        }
        let t = self.points.verts[self.i];
        let dx: i64 = t.x - pos.x;
        let dy: i64 = t.y - pos.y;
        proof {
            crate::math::lemma_mul_bound(dx as int, dx as int, 2048, 2048);
            crate::math::lemma_mul_bound(dy as int, dy as int, 2048, 2048);
        }
        let d2: i64 = dx * dx + dy * dy;
        if d2 <= 4 {
            Vec2 { x: dx, y: dy }
        } else {
            let m: i128 = isqrt(d2 as u128) as i128;
            proof {
                assert(1 <= m && m * m <= d2 && iabs(dx as int) <= m && iabs(dy as int) <= m)
                    by (nonlinear_arith)
                    requires
                        0 <= m,
                        m * m <= d2,
                        d2 < (m + 1) * (m + 1),
                        d2 > 4,
                        d2 == dx * dx + dy * dy,
                ;
                crate::math::lemma_mul_bound(dx as int, move_speed as int, 2048, 64);
                crate::math::lemma_mul_bound(dy as int, move_speed as int, 2048, 64);
            }
            let qx = round_div(dx as i128 * move_speed as i128, m);
            let qy = round_div(dy as i128 * move_speed as i128, m);
            proof {
                assert(iabs(qx as int) <= 2 * COORD_LIMIT && iabs(qy as int) <= 2 * COORD_LIMIT)
                    by (nonlinear_arith)
                    requires
                        2 * iabs(qx * m - dx * move_speed) <= m,
                        2 * iabs(qy * m - dy * move_speed) <= m,
                        iabs(dx as int) <= m,
                        iabs(dy as int) <= m,
                        1 <= m,
                        1 <= move_speed <= 64,
                        COORD_LIMIT == 1024,
                ;
            }
            Vec2 { x: qx as i64, y: qy as i64 }
        }
    }
}

/// What drives an actor: keyboard input or a patrol route.
pub enum Controller {
    Player(PlayerController),
    Guard(GuardController),
}

/// The player's displacement for one tick, as a function of the keys and
/// the (possibly sprinting) speed: the key direction scaled to the speed,
/// diagonals shortened by the rounded factor `1024 / 1448` (one over the
/// square root of two).
pub open spec fn player_move(keys: MoveKeys, speed: int) -> (int, int) {
    let dx: int = (if keys.right {
        1int
    } else {
        0int
    }) - (if keys.left {
        1int
    } else {
        0int
    });
    let dy: int = (if keys.down {
        1int
    } else {
        0int
    }) - (if keys.up {
        1int
    } else {
        0int
    });
    let eff: int = if keys.sprint {
        2 * speed
    } else {
        speed
    };
    if dx == 0 && dy == 0 {
        (0int, 0int)
    } else if dy == 0 {
        (dx * eff, 0int)
    } else if dx == 0 {
        (0int, dy * eff)
    } else {
        (dx * round_frac(eff * 1024, 1448), dy * round_frac(eff * 1024, 1448))
    }
}

/// The guard's patrol index after one tick from `pos`: advanced (wrapping)
/// when the current patrol point is within five units.
pub open spec fn guard_next_index(g: GuardController, pos: Point) -> int {
    let s = g.points.verts@;
    let t0 = s[g.i as int];
    if (t0.x - pos.x) * (t0.x - pos.x) + (t0.y - pos.y) * (t0.y - pos.y) <= 25 {
        ((g.i + 1) as int) % (s.len() as int)
    } else {
        g.i as int
    }
}

/// The guard's displacement for one tick from `pos`: onto a target within
/// two units exactly, else `speed` units straight toward it (components
/// rounded through the floor square root of the squared distance).
pub open spec fn guard_move(g: GuardController, pos: Point, speed: int) -> (int, int) {
    let s = g.points.verts@;
    let t = s[guard_next_index(g, pos)];
    let d2 = (t.x - pos.x) * (t.x - pos.x) + (t.y - pos.y) * (t.y - pos.y);
    if d2 <= 4 {
        (t.x - pos.x, t.y - pos.y)
    } else {
        let m = isqrt_of(d2);
        (round_frac((t.x - pos.x) * speed, m), round_frac((t.y - pos.y) * speed, m))
    }
}

/// The controller state after one tick: a guard may step its patrol index,
/// the player's controller never changes.
pub open spec fn controller_step(c: Controller, pos: Point) -> Controller {
    match c {
        Controller::Player(p) => Controller::Player(p),
        Controller::Guard(g) => Controller::Guard(
            GuardController { points: g.points, i: guard_next_index(g, pos) as usize },
        ),
    }
}

/// The displacement a controller asks for this tick.
pub open spec fn controller_move(c: Controller, keys: MoveKeys, pos: Point, speed: int) -> (
    int,
    int,
) {
    match c {
        Controller::Player(_) => player_move(keys, speed),
        Controller::Guard(g) => guard_move(g, pos, speed),
    }
}

/// The displacement an actor asks for this tick.
pub open spec fn actor_move(a: Actor, keys: MoveKeys) -> (int, int) {
    controller_move(a.controller, keys, a.pos, a.move_speed as int)
}

impl Controller {
    /// A valid controller (a guard needs a valid patrol route).
    pub open spec fn wf(self) -> bool {
        match self {
            Controller::Player(_) => true,
            Controller::Guard(g) => g.wf(),
        }
    }

    pub fn new_player() -> (r: Controller)
        ensures
            r is Player,
            r.wf(),
    {
        Controller::Player(PlayerController {  })
    }

    pub fn new_guard(points: Vec<Point>, i: usize) -> (r: Controller)
        requires
            points@.len() > 0,
            (i as int) < points@.len(),
            forall|k: int| 0 <= k < points@.len() ==> (#[trigger] points@[k]).in_bounds(),
        ensures
            r is Guard,
            r->Guard_0.points.verts@ == points@,
            r->Guard_0.i == i,
            r.wf(),
    {
        Controller::Guard(GuardController { points: Polygon::new(points), i })
    }

    /// The actor's desired displacement for one tick.
    pub fn next_movement(&mut self, keys: MoveKeys, pos: Point, move_speed: i64) -> (r: Vec2)
        requires
            old(self).wf(),
            pos.in_bounds(),
            1 <= move_speed <= SPEED_LIMIT,
        ensures
            final(self).wf(),
            *final(self) == controller_step(*old(self), pos),
            r.x == controller_move(*old(self), keys, pos, move_speed as int).0,
            r.y == controller_move(*old(self), keys, pos, move_speed as int).1,
            iabs(r.x as int) <= 2 * COORD_LIMIT,
            iabs(r.y as int) <= 2 * COORD_LIMIT,
    {
        match self {
            Controller::Player(p) => {
                let r = p.next_movement(keys, move_speed);
                proof {
                    assert(iabs(r.x as int) <= 2 * COORD_LIMIT && iabs(r.y as int) <= 2
                        * COORD_LIMIT);
                }
                r
            },
            Controller::Guard(g) => g.next_movement(pos, move_speed),
        }
    }
}

/// One moving entity: the player or a guard.
pub struct Actor {
    pub pos: Point,
    pub radius: i64,
    pub direction: Vec2,
    pub fov: FieldOfView,
    pub controller: Controller,
    pub move_speed: i64,
    pub discovered_player: i64,
}

impl Actor {
    /// All of the actor's state within the engine's working ranges.
    pub open spec fn wf(self) -> bool {
        &&& self.pos.in_bounds()
        &&& 1 <= self.radius <= COORD_LIMIT
        &&& iabs(self.direction.x as int) <= 2 * COORD_LIMIT
        &&& iabs(self.direction.y as int) <= 2 * COORD_LIMIT
        &&& !self.direction.is_zero()
        &&& self.fov.wf()
        &&& self.controller.wf()
        &&& 1 <= self.move_speed <= SPEED_LIMIT
        &&& 0 <= self.discovered_player <= SCORE_MAX
    }

    /// An actor at `pos` with the standard radius, facing right.
    pub fn new(pos: Point, fov: FieldOfView, controller: Controller, move_speed: i64) -> (r: Actor)
        requires
            pos.in_bounds(),
            fov.wf(),
            controller.wf(),
            1 <= move_speed <= SPEED_LIMIT,
        ensures
            r.wf(),
            r.pos == pos,
            r.radius == 25,
            r.direction == (Vec2 { x: 1, y: 0 }),
            r.fov == fov,
            r.controller == controller,
            r.move_speed == move_speed,
            r.discovered_player == 0,
    {
        Actor {
            pos,
            radius: 25,
            direction: Vec2 { x: 1, y: 0 },
            fov,
            controller,
            move_speed,
            discovered_player: 0,
        }
    }

    /// The player: no field of view of its own, keyboard-driven.
    pub fn new_player(x: i64, y: i64) -> (r: Actor)
        requires
            iabs(x as int) <= COORD_LIMIT,
            iabs(y as int) <= COORD_LIMIT,
        ensures
            r.wf(),
            r.pos == (Point { x, y }),
            r.controller is Player,
            r.fov is NoFov,
    {
        Actor::new(
            Point { x, y },
            FieldOfView::NoFov(NoFieldOfView {  }),
            Controller::new_player(),
            1,
        )
    }

    /// A guard: a ninety-degree cone of vision reaching 300 units, patrol
    /// driven.
    pub fn new_guard(x: i64, y: i64, patrol: Vec<Point>) -> (r: Actor)
        requires
            iabs(x as int) <= COORD_LIMIT,
            iabs(y as int) <= COORD_LIMIT,
            patrol@.len() > 0,
            forall|k: int| 0 <= k < patrol@.len() ==> (#[trigger] patrol@[k]).in_bounds(),
        ensures
            r.wf(),
            r.pos == (Point { x, y }),
            r.controller is Guard,
            r.controller->Guard_0.points.verts@ == patrol@,
            r.controller->Guard_0.i == 0,
            r.fov is Cone,
    {
        Actor::new(
            Point { x, y },
            FieldOfView::Cone(ConeFieldOfView::new(Vec2 { x: 1, y: 1 }, 300)),
            Controller::new_guard(patrol, 0),
            1,
        )
    }

    /// Whether this actor is the player.
    pub fn is_player(&self) -> (r: bool)
        ensures
            r == (self.controller is Player),
    {
        matches!(self.controller, Controller::Player(_))
    }

    /// The actor's desired displacement for one tick.
    pub fn next_movement(&mut self, keys: MoveKeys) -> (r: Vec2)
        requires
            old(self).wf(),
        ensures
            final(self).wf(),
            final(self).pos == old(self).pos,
            final(self).radius == old(self).radius,
            final(self).direction == old(self).direction,
            final(self).move_speed == old(self).move_speed,
            final(self).fov == old(self).fov,
            final(self).discovered_player == old(self).discovered_player,
            final(self).controller == controller_step(old(self).controller, old(self).pos),
            r.x == actor_move(*old(self), keys).0,
            r.y == actor_move(*old(self), keys).1,
            iabs(r.x as int) <= 2 * COORD_LIMIT,
            iabs(r.y as int) <= 2 * COORD_LIMIT,
            old(self).controller is Player <==> final(self).controller is Player,
    {
        let pos = self.pos;
        let speed = self.move_speed;
        self.controller.next_movement(keys, pos, speed)
    }

    /// Rebuild this actor's visibility polygon for its current pose.
    pub fn update_fov(&mut self, game_map: &GameMap)
        requires
            old(self).wf(),
            game_map.wf(),
        ensures
            final(self).wf(),
            final(self).pos == old(self).pos,
            final(self).radius == old(self).radius,
            final(self).direction == old(self).direction,
            final(self).controller == old(self).controller,
            final(self).move_speed == old(self).move_speed,
            final(self).discovered_player == old(self).discovered_player,
            recalc_post(
                old(self).fov,
                final(self).fov,
                old(self).pos,
                old(self).direction,
                game_map.obstacles@,
            ),
    {
        let pos = self.pos;
        let dir = self.direction;
        self.fov.recalculate(pos, dir, game_map);
    }
}

/// Whether the actor's field of view currently contains `point`.
pub open spec fn actor_sees(a: Actor, obstacles: Seq<Polygon>, point: Point) -> bool {
    fov_sees(a.fov, a.pos, obstacles, point)
}

/// A running level: its actors, its map, and whether the player has reached
/// the end area.
pub struct Game {
    pub actors: Vec<Actor>,
    pub game_map: GameMap,
    pub player_won: bool,
}

impl Game {
    /// All actors and the whole map within the engine's working ranges.
    pub open spec fn wf(self) -> bool {
        &&& forall|i: int| 0 <= i < self.actors@.len() ==> (#[trigger] self.actors@[i]).wf()
        &&& self.game_map.wf()
    }

    /// Some actor is the player.
    pub open spec fn has_player(self) -> bool {
        exists|i: int|
            0 <= i < self.actors@.len() && (#[trigger] self.actors@[i]).controller is Player
    }

    /// A minimal level: one player, no obstacles, a square end area.
    pub fn new() -> (r: Game)
        ensures
            r.wf(),
            r.has_player(),
            !r.player_won,
            r.actors@.len() == 1,
            r.game_map.obstacles@.len() == 0,
    {
        let mut end_verts: Vec<Point> = Vec::new();
        end_verts.push(Point { x: 200, y: 200 });
        end_verts.push(Point { x: 300, y: 200 });
        end_verts.push(Point { x: 300, y: 300 });
        end_verts.push(Point { x: 200, y: 300 });
        let end_area = Polygon::new(end_verts);
        let mut actors: Vec<Actor> = Vec::new();
        actors.push(Actor::new_player(50, 50));
        let r = Game {
            actors,
            game_map: GameMap::new(Vec::new(), end_area),
            player_won: false,
        };
        proof {
            assert(r.actors@[0].controller is Player);
        }
        r
    }
}

/// Update every guard's detection score against the player's position and
/// report whether any of them has fully discovered the player.
///
/// Each non-player actor's score is stepped up while its field of view
/// contains the player and down otherwise, clamped to the scale; the player
/// is found once some actor's score reaches the top of the scale.
pub fn was_player_found(game: &mut Game) -> (found: bool)
    requires
        old(game).wf(),
        old(game).has_player(),
    ensures
        detect_post(*old(game), *final(game), found),
{
    let n = game.actors.len();
    let mut pi: usize = 0;
    while pi < n && !game.actors[pi].is_player()
        invariant
            n == game.actors@.len(),
            old(game).wf(),
            old(game).has_player(),
            *game == *old(game),
            pi <= n,
            forall|i: int| 0 <= i < pi ==> !((#[trigger] game.actors@[i]).controller is Player),
        decreases n - pi,
    {
        pi = pi + 1;
    }
    proof {
        if pi == n {
            let w = choose|i: int|
                0 <= i < old(game).actors@.len() && (#[trigger] old(game).actors@[i]).controller
                    is Player;
            assert(!(game.actors@[w].controller is Player));
            assert(false);
        }
    }
    let ppos = game.actors[pi].pos;
    let ghost p = pi as int;
    let mut i: usize = 0;
    while i < n
        invariant
            n == game.actors@.len(),
            old(game).wf(),
            0 <= p < n,
            old(game).actors@[p].controller is Player,
            ppos == old(game).actors@[p].pos,
            game.game_map == old(game).game_map,
            game.player_won == old(game).player_won,
            game.actors@.len() == old(game).actors@.len(),
            i <= n,
            forall|k: int|
                i <= k < n ==> #[trigger] game.actors@[k] == old(game).actors@[k],
            forall|k: int|
                0 <= k < i ==> {
                    let a = #[trigger] old(game).actors@[k];
                    let na = game.actors@[k];
                    if a.controller is Player {
                        na == a
                    } else {
                        na == (Actor {
                            pos: a.pos,
                            radius: a.radius,
                            direction: a.direction,
                            fov: a.fov,
                            controller: a.controller,
                            move_speed: a.move_speed,
                            discovered_player: score_after(
                                a.discovered_player as int,
                                actor_sees(a, old(game).game_map.obstacles@, ppos),
                            ) as i64,
                        })
                    }
                },
            forall|k: int| 0 <= k < n ==> (#[trigger] game.actors@[k]).wf(),
        decreases n - i,
    {
        if !game.actors[i].is_player() {
            let a_pos = game.actors[i].pos;
            let seen = game.actors[i].fov.is_inside_fov(a_pos, &game.game_map, ppos);
            let s = game.actors[i].discovered_player;
            let ns: i64 = if seen {
                if s + SCORE_STEP > SCORE_MAX {
                    SCORE_MAX
                } else {
                    s + SCORE_STEP
                }
            } else {
                if s - SCORE_STEP < 0 {
                    0
                } else {
                    s - SCORE_STEP
                }
            };
            game.actors[i].discovered_player = ns;
        }
        i = i + 1;
    }
    let mut any: bool = false;
    let mut j: usize = 0;
    while j < n
        invariant
            n == game.actors@.len(),
            j <= n,
            any == exists|k: int|
                0 <= k < j && (#[trigger] game.actors@[k]).discovered_player >= SCORE_MAX,
        decreases n - j,
    {
        if game.actors[j].discovered_player >= SCORE_MAX {
            any = true;
        }
        j = j + 1;
    }
    any
}


/// One tick's externally visible outcomes.
#[derive(Clone, Copy, PartialEq, Eq, Structural, Debug)]
pub struct TickEvents {
    pub player_won: bool,
    pub player_found: bool,
}

/// Move every actor by its desired displacement, resolve the new position
/// out of every obstacle, and, for the player, test the end area.
///
/// An actor's facing follows its last non-zero displacement; radius, speed,
/// field of view, controller kind and detection score are untouched.
/// How one tick of movement relates an actor's old state `a` to its new
/// state `na`: the desired displacement is added to the position (clamped
/// to the working range), the result is taken through the penetration
/// resolver, the facing follows a non-zero displacement, a guard's patrol
/// index steps, and everything else is untouched.
pub open spec fn moved_actor_ok(
    obstacles: Seq<Polygon>,
    a: Actor,
    keys: MoveKeys,
    na: Actor,
) -> bool {
    let d = actor_move(a, keys);
    let cand = Point {
        x: clamp_coord(a.pos.x + d.0) as i64,
        y: clamp_coord(a.pos.y + d.1) as i64,
    };
    &&& resolved_from(obstacles, cand, a.radius as int, na.pos)
    &&& na.direction == (if d.0 == 0 && d.1 == 0 {
        a.direction
    } else {
        Vec2 { x: d.0 as i64, y: d.1 as i64 }
    })
    &&& na.controller == controller_step(a.controller, a.pos)
    &&& na.radius == a.radius
    &&& na.move_speed == a.move_speed
    &&& na.discovered_player == a.discovered_player
    &&& na.fov == a.fov
}

/// How the player-won flag relates to the first `upto` actors after one
/// tick of movement: re-evaluated at the last player's resolved position,
/// untouched when none of them is the player.
pub open spec fn won_flag_ok(
    old_actors: Seq<Actor>,
    end_area: Seq<Point>,
    old_won: bool,
    new_actors: Seq<Actor>,
    new_won: bool,
    upto: int,
) -> bool {
    &&& (forall|j: int| 0 <= j < upto ==> !((#[trigger] old_actors[j]).controller is Player))
        ==> new_won == old_won
    &&& (exists|j: int| 0 <= j < upto && (#[trigger] old_actors[j]).controller is Player)
        ==> exists|j: int|
        {
            &&& 0 <= j < upto
            &&& (#[trigger] old_actors[j]).controller is Player
            &&& forall|l: int| j < l < upto ==> !(old_actors[l].controller is Player)
            &&& new_won == touches_boundary(end_area, new_actors[j].pos, old_actors[j].radius as int)
        }
}

/// What the movement phase of one tick does to the whole game: every actor
/// moved and resolved per `moved_actor_ok`, the player-won flag re-evaluated
/// per `won_flag_ok`, the map untouched.
pub open spec fn physics_post(g0: Game, g1: Game, keys: MoveKeys) -> bool {
    &&& g1.wf()
    &&& g1.game_map == g0.game_map
    &&& g1.actors@.len() == g0.actors@.len()
    &&& forall|i: int|
        0 <= i < g0.actors@.len() ==> moved_actor_ok(
            g0.game_map.obstacles@,
            #[trigger] g0.actors@[i],
            keys,
            g1.actors@[i],
        )
    &&& won_flag_ok(
        g0.actors@,
        g0.game_map.end_area.verts@,
        g0.player_won,
        g1.actors@,
        g1.player_won,
        g0.actors@.len() as int,
    )
    &&& g0.has_player() ==> g1.has_player()
}

/// What the detection phase of one tick does: every guard's score stepped
/// against the player's position per `score_after`, everything else (and
/// every player actor) untouched, and `found` exactly when some score has
/// reached the top of the scale.
pub open spec fn detect_post(g1: Game, g2: Game, found: bool) -> bool {
    &&& g2.wf()
    &&& g2.game_map == g1.game_map
    &&& g2.player_won == g1.player_won
    &&& g2.actors@.len() == g1.actors@.len()
    &&& exists|p: int|
        {
            &&& 0 <= p < g1.actors@.len()
            &&& (#[trigger] g1.actors@[p]).controller is Player
            &&& forall|i: int|
                0 <= i < g1.actors@.len() ==> {
                    let a = #[trigger] g1.actors@[i];
                    let na = g2.actors@[i];
                    if a.controller is Player {
                        na == a
                    } else {
                        na == (Actor {
                            pos: a.pos,
                            radius: a.radius,
                            direction: a.direction,
                            fov: a.fov,
                            controller: a.controller,
                            move_speed: a.move_speed,
                            discovered_player: score_after(
                                a.discovered_player as int,
                                actor_sees(a, g1.game_map.obstacles@, g1.actors@[p].pos),
                            ) as i64,
                        })
                    }
                }
        }
    &&& found == exists|i: int|
        0 <= i < g2.actors@.len() && (#[trigger] g2.actors@[i]).discovered_player >= SCORE_MAX
}

/// What the vision phase of one tick does: every actor's field of view
/// rebuilt for its current pose per `recalc_post`, everything else
/// untouched.
pub open spec fn fov_post(g2: Game, g3: Game) -> bool {
    &&& g3.wf()
    &&& g3.game_map == g2.game_map
    &&& g3.player_won == g2.player_won
    &&& g3.actors@.len() == g2.actors@.len()
    &&& forall|i: int|
        0 <= i < g2.actors@.len() ==> {
            let a = #[trigger] g2.actors@[i];
            let na = g3.actors@[i];
            &&& na.pos == a.pos
            &&& na.radius == a.radius
            &&& na.direction == a.direction
            &&& na.controller == a.controller
            &&& na.move_speed == a.move_speed
            &&& na.discovered_player == a.discovered_player
            &&& recalc_post(a.fov, na.fov, a.pos, a.direction, g2.game_map.obstacles@)
        }
}

/// Move every actor by its desired displacement, resolve the new position
/// out of every obstacle, and, for the player, re-evaluate the end-area
/// test at the resolved position.
pub fn apply_physics_movement(game: &mut Game, keys: MoveKeys)
    requires
        old(game).wf(),
    ensures
        physics_post(*old(game), *final(game), keys),
{
    let n = game.actors.len();
    let mut i: usize = 0;
    while i < n
        invariant
            n == game.actors@.len(),
            old(game).wf(),
            game.game_map == old(game).game_map,
            game.actors@.len() == old(game).actors@.len(),
            i <= n,
            forall|k: int| 0 <= k < n ==> (#[trigger] game.actors@[k]).wf(),
            forall|k: int| i <= k < n ==> #[trigger] game.actors@[k] == old(game).actors@[k],
            forall|k: int|
                0 <= k < i ==> moved_actor_ok(
                    old(game).game_map.obstacles@,
                    #[trigger] old(game).actors@[k],
                    keys,
                    game.actors@[k],
                ),
            won_flag_ok(
                old(game).actors@,
                old(game).game_map.end_area.verts@,
                old(game).player_won,
                game.actors@,
                game.player_won,
                i as int,
            ),
        decreases n - i,
    {
        let ghost a0 = game.actors@[i as int];
        let ghost won_before = game.player_won;
        let delta = game.actors[i].next_movement(keys);
        let pos = game.actors[i].pos;
        let radius = game.actors[i].radius;
        let mut next = Point {
            x: crate::collision::clamp_exec(pos.x as i128 + delta.x as i128),
            y: crate::collision::clamp_exec(pos.y as i128 + delta.y as i128),
        };
        if !(delta.x == 0 && delta.y == 0) {
            game.actors[i].direction = delta;
        }
        handle_obstacle_collisions(&game.game_map.obstacles, radius, &mut next);
        let is_p = game.actors[i].is_player();
        if is_p {
            let won = did_player_win(&game.game_map, radius, next);
            game.player_won = won;
        }
        game.actors[i].pos = next;
        proof {
            assert(moved_actor_ok(
                old(game).game_map.obstacles@,
                old(game).actors@[i as int],
                keys,
                game.actors@[i as int],
            ));
            let oa = old(game).actors@;
            let ea = old(game).game_map.end_area.verts@;
            let ow = old(game).player_won;
            if oa[i as int].controller is Player {
                assert(exists|j: int|
                    {
                        &&& 0 <= j < i + 1
                        &&& (#[trigger] oa[j]).controller is Player
                        &&& forall|l: int| j < l < i + 1 ==> !(oa[l].controller is Player)
                        &&& game.player_won == touches_boundary(
                            ea,
                            game.actors@[j].pos,
                            oa[j].radius as int,
                        )
                    }) by {
                    assert((oa[i as int]).controller is Player && game.player_won
                        == touches_boundary(
                        ea,
                        game.actors@[i as int].pos,
                        oa[i as int].radius as int,
                    ));
                }
            } else {
                if exists|j: int| 0 <= j < i && (#[trigger] oa[j]).controller is Player {
                    let j0 = choose|j: int|
                        {
                            &&& 0 <= j < i
                            &&& (#[trigger] oa[j]).controller is Player
                            &&& forall|l: int| j < l < i ==> !(oa[l].controller is Player)
                            &&& won_before == touches_boundary(
                                ea,
                                game.actors@[j].pos,
                                oa[j].radius as int,
                            )
                        };
                    assert(exists|j: int|
                        {
                            &&& 0 <= j < i + 1
                            &&& (#[trigger] oa[j]).controller is Player
                            &&& forall|l: int| j < l < i + 1 ==> !(oa[l].controller is Player)
                            &&& game.player_won == touches_boundary(
                                ea,
                                game.actors@[j].pos,
                                oa[j].radius as int,
                            )
                        }) by {
                        assert(0 <= j0 < i + 1 && (oa[j0]).controller is Player && (forall|l: int|
                            j0 < l < i + 1 ==> !(oa[l].controller is Player)) && game.player_won
                            == touches_boundary(ea, game.actors@[j0].pos, oa[j0].radius as int));
                    }
                }
            }
        }
        i = i + 1;
    }
    proof {
        if old(game).has_player() {
            let w = choose|k: int|
                0 <= k < old(game).actors@.len() && (#[trigger] old(game).actors@[k]).controller
                    is Player;
            assert(game.actors@[w].controller == controller_step(
                old(game).actors@[w].controller,
                old(game).actors@[w].pos,
            ));
            assert(game.actors@[w].controller is Player);
        }
    }
}

impl Game {
    /// One simulation tick: move and resolve every actor, test the win
    /// condition, update every guard's detection score, and rebuild every
    /// field of view.
    pub fn tick(&mut self, keys: MoveKeys) -> (r: TickEvents)
        requires
            old(self).wf(),
            old(self).has_player(),
        ensures
            final(self).wf(),
            final(self).has_player(),
            r.player_won == final(self).player_won,
            r.player_found == (exists|i: int|
                0 <= i < final(self).actors@.len() && (#[trigger] final(self).actors@[i]).discovered_player
                    >= SCORE_MAX),
            exists|g1: Game, g2: Game|
                {
                    &&& #[trigger] physics_post(*old(self), g1, keys)
                    &&& #[trigger] detect_post(g1, g2, r.player_found)
                    &&& fov_post(g2, *final(self))
                    &&& r.player_won == g1.player_won
                },
    {
        apply_physics_movement(self, keys);
        let ghost g1 = *self;
        let won = self.player_won;
        let found = was_player_found(self);
        let ghost g2 = *self;
        proof {
            let w = choose|k: int|
                0 <= k < self.actors@.len() && (#[trigger] self.actors@[k]).controller is Player;
            assert(self.actors@[w].controller is Player);
        }
        let ghost mid_actors = self.actors@;
        let n = self.actors.len();
        let mut i: usize = 0;
        while i < n
            invariant
                n == self.actors@.len(),
                n == mid_actors.len(),
                mid_actors == g2.actors@,
                self.game_map.wf(),
                self.game_map == g2.game_map,
                self.player_won == g2.player_won,
                i <= n,
                forall|k: int| 0 <= k < n ==> (#[trigger] self.actors@[k]).wf(),
                forall|k: int| i <= k < n ==> #[trigger] self.actors@[k] == g2.actors@[k],
                forall|k: int|
                    0 <= k < i ==> {
                        let a = #[trigger] g2.actors@[k];
                        let na = self.actors@[k];
                        &&& na.pos == a.pos
                        &&& na.radius == a.radius
                        &&& na.direction == a.direction
                        &&& na.controller == a.controller
                        &&& na.move_speed == a.move_speed
                        &&& na.discovered_player == a.discovered_player
                        &&& recalc_post(a.fov, na.fov, a.pos, a.direction, g2.game_map.obstacles@)
                    },
                exists|k: int|
                    0 <= k < self.actors@.len() && (#[trigger] self.actors@[k]).controller
                        is Player,
                won == self.player_won,
                found == (exists|k: int|
                    0 <= k < mid_actors.len() && (#[trigger] mid_actors[k]).discovered_player
                        >= SCORE_MAX),
            decreases n - i,
        {
            let ghost pre = self.actors@;
            self.actors[i].update_fov(&self.game_map);
            proof {
                let w = choose|k: int|
                    0 <= k < pre.len() && (#[trigger] pre[k]).controller is Player;
                assert(self.actors@[w].controller is Player);
            }
            i = i + 1;
        }
        proof {
            if found {
                let w = choose|k: int|
                    0 <= k < mid_actors.len() && (#[trigger] mid_actors[k]).discovered_player
                        >= SCORE_MAX;
                assert(self.actors@[w].discovered_player >= SCORE_MAX);
            }
            if exists|k: int|
                0 <= k < self.actors@.len() && (#[trigger] self.actors@[k]).discovered_player
                    >= SCORE_MAX {
                let w = choose|k: int|
                    0 <= k < self.actors@.len() && (#[trigger] self.actors@[k]).discovered_player
                        >= SCORE_MAX;
                assert(mid_actors[w].discovered_player >= SCORE_MAX);
            }
            assert(physics_post(*old(self), g1, keys) && detect_post(g1, g2, found) && fov_post(
                g2,
                *self,
            ) && won == g1.player_won);
        }
        TickEvents { player_won: won, player_found: found }
    }
}

/// Copy a list of points.
pub(crate) fn clone_points(v: &Vec<Point>) -> (r: Vec<Point>)
    ensures
        r@ == v@,
{
    let mut r: Vec<Point> = Vec::new();
    let mut i: usize = 0;
    while i < v.len()
        invariant
            i <= v@.len(),
            r@.len() == i,
            forall|k: int| 0 <= k < i ==> #[trigger] r@[k] == v@[k],
        decreases v@.len() - i,
    {
        r.push(v[i]);
        i = i + 1;
    }
    proof {
        assert(r@ =~= v@);
    }
    r
}


/// A vertex ring flattened to coordinate pairs.
pub open spec fn coord_pairs(s: Seq<Point>) -> Seq<(i64, i64)> {
    s.map_values(|p: Point| (p.x, p.y))
}

/// The level-data entries of the non-player actors among the first `n`, in
/// order: each guard's position and its flattened patrol ring.
pub open spec fn guard_entries(actors: Seq<Actor>, n: int) -> Seq<((i64, i64), Seq<(i64, i64)>)>
    decreases n,
{
    if n <= 0 {
        Seq::empty()
    } else {
        let rest = guard_entries(actors, n - 1);
        let a = actors[n - 1];
        if a.controller is Player {
            rest
        } else {
            rest.push(
                (
                    (a.pos.x, a.pos.y),
                    match a.controller {
                        Controller::Guard(g) => coord_pairs(g.points.verts@),
                        Controller::Player(_) => Seq::empty(),
                    },
                ),
            )
        }
    }
}

/// A level as plain serializable data: the player's position, each guard's
/// position with its patrol route, the obstacle rings, and the end-area
/// ring, all as coordinate pairs.
pub struct LevelInfo {
    pub player_data: (i64, i64),
    pub guard_data: Vec<((i64, i64), Vec<(i64, i64)>)>,
    pub obstacle_data: Vec<Vec<(i64, i64)>>,
    pub end_area_data: Vec<(i64, i64)>,
}

/// Turn a list of coordinate pairs into points, `None` if any of them falls
/// outside the engine's working range.
fn points_of_pairs(pairs: &Vec<(i64, i64)>) -> (r: Option<Vec<Point>>)
    ensures
        match r {
            Some(v) => {
                &&& v@.len() == pairs@.len()
                &&& forall|i: int| 0 <= i < v@.len() ==> (#[trigger] v@[i]).in_bounds()
                &&& coord_pairs(v@) == pairs@
            },
            None => true,
        },
{
    let mut v: Vec<Point> = Vec::new();
    let mut i: usize = 0;
    while i < pairs.len()
        invariant
            i <= pairs@.len(),
            v@.len() == i,
            forall|k: int| 0 <= k < i ==> (#[trigger] v@[k]).in_bounds(),
            forall|k: int|
                0 <= k < i ==> (#[trigger] v@[k]).x == pairs@[k].0 && v@[k].y == pairs@[k].1,
        decreases pairs@.len() - i,
    {
        let (x, y) = pairs[i];
        let p = Point { x, y };
        if !p.check_bounds() {
            return None;
        }
        v.push(p);
        i = i + 1;
    }
    proof {
        assert(coord_pairs(v@) =~= pairs@);
    }
    Some(v)
}

impl Game {
    /// Build a game from level data, validating it on the way in: `None`
    /// when any coordinate falls outside the engine's working range or a
    /// guard has an empty patrol route (the load-time validation the engine
    /// itself counts on).
    pub fn from_level_info(level_info: LevelInfo) -> (r: Option<Game>)
        ensures
            match r {
                Some(g) => {
                    &&& g.wf()
                    &&& g.has_player()
                    &&& !g.player_won
                    &&& g.actors@.len() == 1 + level_info.guard_data@.len()
                    &&& g.actors@[0].controller is Player
                    &&& g.actors@[0].pos == (Point {
                        x: level_info.player_data.0,
                        y: level_info.player_data.1,
                    })
                    &&& forall|k: int|
                        0 <= k < level_info.guard_data@.len() ==> {
                            let ga = #[trigger] g.actors@[1 + k];
                            &&& ga.controller is Guard
                            &&& ga.pos == (Point {
                                x: level_info.guard_data@[k].0.0,
                                y: level_info.guard_data@[k].0.1,
                            })
                            &&& coord_pairs(ga.controller->Guard_0.points.verts@)
                                == level_info.guard_data@[k].1@
                            &&& ga.controller->Guard_0.i == 0
                        }
                    &&& g.game_map.obstacles@.len() == level_info.obstacle_data@.len()
                    &&& forall|k: int|
                        0 <= k < level_info.obstacle_data@.len() ==> coord_pairs(
                            (#[trigger] g.game_map.obstacles@[k]).verts@,
                        ) == level_info.obstacle_data@[k]@
                    &&& coord_pairs(g.game_map.end_area.verts@) == level_info.end_area_data@
                },
                None => true,
            },
    {
        let (p_x, p_y) = level_info.player_data;
        let player_pos = Point { x: p_x, y: p_y };
        if !player_pos.check_bounds() {
            return None;
        }
        let mut actors: Vec<Actor> = Vec::new();
        actors.push(Actor::new_player(p_x, p_y));
        proof {
            assert(actors@[0].controller is Player);
        }
        let mut gi: usize = 0;
        while gi < level_info.guard_data.len()
            invariant
                gi <= level_info.guard_data@.len(),
                actors@.len() == 1 + gi,
                forall|k: int| 0 <= k < actors@.len() ==> (#[trigger] actors@[k]).wf(),
                actors@[0].controller is Player,
                actors@[0].pos == (Point {
                    x: level_info.player_data.0,
                    y: level_info.player_data.1,
                }),
                forall|k: int|
                    0 <= k < gi ==> {
                        let ga = #[trigger] actors@[1 + k];
                        &&& ga.controller is Guard
                        &&& ga.pos == (Point {
                            x: level_info.guard_data@[k].0.0,
                            y: level_info.guard_data@[k].0.1,
                        })
                        &&& coord_pairs(ga.controller->Guard_0.points.verts@)
                            == level_info.guard_data@[k].1@
                        &&& ga.controller->Guard_0.i == 0
                    },
            decreases level_info.guard_data@.len() - gi,
        {
            let ((g_x, g_y), ref patrol) = level_info.guard_data[gi];
            let gpos = Point { x: g_x, y: g_y };
            if !gpos.check_bounds() {
                return None;
            }
            let patrol_points = match points_of_pairs(patrol) {
                Some(v) => v,
                None => {
                    return None;
                },
            };
            if patrol_points.len() == 0 {
                return None;
            }
            actors.push(Actor::new_guard(g_x, g_y, patrol_points));
            gi = gi + 1;
        }
        let mut obstacles: Vec<Polygon> = Vec::new();
        let mut oi: usize = 0;
        while oi < level_info.obstacle_data.len()
            invariant
                oi <= level_info.obstacle_data@.len(),
                obstacles@.len() == oi,
                forall|k: int| 0 <= k < obstacles@.len() ==> (#[trigger] obstacles@[k]).wf(),
                forall|k: int|
                    0 <= k < oi ==> coord_pairs((#[trigger] obstacles@[k]).verts@)
                        == level_info.obstacle_data@[k]@,
            decreases level_info.obstacle_data@.len() - oi,
        {
            let verts = match points_of_pairs(&level_info.obstacle_data[oi]) {
                Some(v) => v,
                None => {
                    return None;
                },
            };
            obstacles.push(Polygon::new(verts));
            oi = oi + 1;
        }
        let end_verts = match points_of_pairs(&level_info.end_area_data) {
            Some(v) => v,
            None => {
                return None;
            },
        };
        let end_area = Polygon::new(end_verts);
        let g = Game { actors, game_map: GameMap::new(obstacles, end_area), player_won: false };
        proof {
            assert(g.actors@[0].controller is Player);
        }
        Some(g)
    }

    /// Flatten the game back into level data: the first player actor's
    /// position, every guard's position and patrol ring in actor order, and
    /// every obstacle and end-area ring, all as coordinate pairs — the
    /// inverse of `from_level_info` up to the player's slot coming first.
    pub fn to_level_info(&self) -> (r: LevelInfo)
        requires
            self.wf(),
            self.has_player(),
        ensures
            exists|p: int|
                {
                    &&& 0 <= p < self.actors@.len()
                    &&& (#[trigger] self.actors@[p]).controller is Player
                    &&& forall|l: int| 0 <= l < p ==> !(self.actors@[l].controller is Player)
                    &&& r.player_data == (self.actors@[p].pos.x, self.actors@[p].pos.y)
                },
            r.guard_data@.len() == guard_entries(self.actors@, self.actors@.len() as int).len(),
            forall|k: int|
                0 <= k < r.guard_data@.len() ==> ((#[trigger] r.guard_data@[k]).0,
                r.guard_data@[k].1@) == guard_entries(self.actors@, self.actors@.len() as int)[k],
            r.obstacle_data@.len() == self.game_map.obstacles@.len(),
            forall|k: int|
                0 <= k < r.obstacle_data@.len() ==> (#[trigger] r.obstacle_data@[k])@
                    == coord_pairs(self.game_map.obstacles@[k].verts@),
            r.end_area_data@ == coord_pairs(self.game_map.end_area.verts@),
    {
        let n = self.actors.len();
        let mut pi: usize = 0;
        while pi < n && !self.actors[pi].is_player()
            invariant
                n == self.actors@.len(),
                self.has_player(),
                pi <= n,
                forall|i: int| 0 <= i < pi ==> !((#[trigger] self.actors@[i]).controller
                    is Player),
            decreases n - pi,
        {
            pi = pi + 1;
        }
        proof {
            if pi == n {
                let w = choose|i: int|
                    0 <= i < self.actors@.len() && (#[trigger] self.actors@[i]).controller
                        is Player;
                assert(false);
            }
        }
        let player_data = (self.actors[pi].pos.x, self.actors[pi].pos.y);
        let mut guard_data: Vec<((i64, i64), Vec<(i64, i64)>)> = Vec::new();
        let mut i: usize = 0;
        while i < n
            invariant
                n == self.actors@.len(),
                i <= n,
                guard_data@.len() == guard_entries(self.actors@, i as int).len(),
                forall|k: int|
                    0 <= k < guard_data@.len() ==> ((#[trigger] guard_data@[k]).0,
                    guard_data@[k].1@) == guard_entries(self.actors@, i as int)[k],
            decreases n - i,
        {
            if !self.actors[i].is_player() {
                let gpos = (self.actors[i].pos.x, self.actors[i].pos.y);
                let patrol = match &self.actors[i].controller {
                    Controller::Guard(g) => pairs_of_points(&g.points.verts),
                    Controller::Player(_) => Vec::new(),
                };
                guard_data.push((gpos, patrol));
            }
            i = i + 1;
        }
        let mut obstacle_data: Vec<Vec<(i64, i64)>> = Vec::new();
        let mut oi: usize = 0;
        while oi < self.game_map.obstacles.len()
            invariant
                oi <= self.game_map.obstacles@.len(),
                obstacle_data@.len() == oi,
                self.wf(),
                forall|k: int|
                    0 <= k < oi ==> (#[trigger] obstacle_data@[k])@ == coord_pairs(
                        self.game_map.obstacles@[k].verts@,
                    ),
            decreases self.game_map.obstacles@.len() - oi,
        {
            obstacle_data.push(pairs_of_points(&self.game_map.obstacles[oi].verts));
            oi = oi + 1;
        }
        let end_area_data = pairs_of_points(&self.game_map.end_area.verts);
        LevelInfo { player_data, guard_data, obstacle_data, end_area_data }
    }
}

/// Flatten points back into coordinate pairs.
fn pairs_of_points(v: &Vec<Point>) -> (r: Vec<(i64, i64)>)
    ensures
        r@.len() == v@.len(),
        r@ == coord_pairs(v@),
{
    let mut r: Vec<(i64, i64)> = Vec::new();
    let mut i: usize = 0;
    while i < v.len()
        invariant
            i <= v@.len(),
            r@.len() == i,
            forall|k: int| 0 <= k < i ==> #[trigger] r@[k] == (v@[k].x, v@[k].y),
        decreases v@.len() - i,
    {
        let p = v[i];
        r.push((p.x, p.y));
        i = i + 1;
    }
    proof {
        assert(r@ =~= coord_pairs(v@));
    }
    r
}

} // verus!
