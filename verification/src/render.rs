//! Turning game state into drawing commands.
//!
//! The engine never draws: it reduces a game state to a plain list of draw
//! commands (filled polygons, circles, the discovery bars), in a fixed
//! order, and a host front end turns those into actual graphics calls.

use vstd::prelude::*;
use crate::game::{Actor, Game};
use crate::geometry::{Point, RatPoint};

verus! {

/// The role a drawn shape plays (the front end picks the actual colors).
#[derive(Clone, Copy, PartialEq, Eq, Structural, Debug)]
pub enum DrawColor {
    EndArea,
    PlayerVisibleArea,
    GuardVisibleArea,
    Obstacle,
    ActorBody,
}

/// One drawing command.
#[derive(Clone, Debug)]
pub enum DrawCmd {
    AreaPolygon { verts: Vec<RatPoint>, color: DrawColor },
    MapPolygon { verts: Vec<Point>, color: DrawColor },
    Circle { center: Point, radius: i64 },
    Bar { pos: Point, score: i64, max: i64 },
}

/// How many of the first `n` actors expose a visibility polygon.
pub open spec fn count_fov(actors: Seq<Actor>, n: int) -> int
    decreases n,
{
    if n <= 0 {
        0
    } else {
        count_fov(actors, n - 1) + if actors[n - 1].fov is NoFov {
            0int
        } else {
            1int
        }
    }
}

/// How many of the first `n` actors are guards.
pub open spec fn count_guards(actors: Seq<Actor>, n: int) -> int
    decreases n,
{
    if n <= 0 {
        0
    } else {
        count_guards(actors, n - 1) + if actors[n - 1].controller is Player {
            0int
        } else {
            1int
        }
    }
}

/// `c` draws the obstacle ring `verts`.
pub open spec fn is_obstacle_cmd(c: DrawCmd, verts: Seq<Point>) -> bool {
    c is MapPolygon && c->MapPolygon_verts@ == verts && c->MapPolygon_color is Obstacle
}

/// `c` draws the end-area ring `verts`.
pub open spec fn is_end_area_cmd(c: DrawCmd, verts: Seq<Point>) -> bool {
    c is MapPolygon && c->MapPolygon_verts@ == verts && c->MapPolygon_color is EndArea
}

/// `c` draws the actor `a`'s body circle.
pub open spec fn is_circle_cmd(c: DrawCmd, a: Actor) -> bool {
    c is Circle && c->Circle_center == a.pos && c->Circle_radius == a.radius
}

/// Reduces game state to draw commands.
pub struct Renderer {}

impl Renderer {
    pub fn new() -> (r: Renderer)
    {
        Renderer {  }
    }

    /// The draw list for one frame, in back-to-front order: every actor's
    /// visibility polygon, the obstacles, the end area, every actor's body
    /// circle, and one discovery bar per guard.
    pub fn render(&self, game: &Game) -> (r: Vec<DrawCmd>)
        requires
            game.wf(),
        ensures
            ({
                let actors = game.actors@;
                let n = actors.len() as int;
                let nf = count_fov(actors, n);
                let no = game.game_map.obstacles@.len() as int;
                &&& r@.len() == nf + no + 1 + n + count_guards(actors, n)
                &&& forall|i: int|
                    0 <= i < no ==> #[trigger] is_obstacle_cmd(
                        r@[nf + i],
                        game.game_map.obstacles@[i].verts@,
                    )
                &&& is_end_area_cmd(r@[nf + no], game.game_map.end_area.verts@)
                &&& forall|j: int|
                    0 <= j < n ==> #[trigger] is_circle_cmd(r@[nf + no + 1 + j], actors[j])
            }),
    {
        let mut cmds: Vec<DrawCmd> = Vec::new();
        let n = game.actors.len();
        let mut i: usize = 0;
        while i < n
            invariant
                n == game.actors@.len(),
                game.wf(),
                i <= n,
                cmds@.len() == count_fov(game.actors@, i as int),
            decreases n - i,
        {
            let color = if game.actors[i].is_player() {
                DrawColor::PlayerVisibleArea
            } else {
                DrawColor::GuardVisibleArea
            };
            match game.actors[i].fov.get_visible_area() {
                Some(area) => {
                    let verts = clone_rat_points(&area.verts);
                    cmds.push(DrawCmd::AreaPolygon { verts, color });
                },
                None => {},
            }
            i = i + 1;
        }
        let ghost nf = cmds@.len() as int;
        proof {
            assert(nf == count_fov(game.actors@, game.actors@.len() as int));
        }
        let no = game.game_map.obstacles.len();
        let mut oi: usize = 0;
        while oi < no
            invariant
                no == game.game_map.obstacles@.len(),
                game.wf(),
                oi <= no,
                0 <= nf,
                nf == count_fov(game.actors@, game.actors@.len() as int),
                cmds@.len() == nf + oi,
                forall|k: int|
                    0 <= k < oi ==> #[trigger] is_obstacle_cmd(
                        cmds@[nf + k],
                        game.game_map.obstacles@[k].verts@,
                    ),
            decreases no - oi,
        {
            let verts = crate::game::clone_points(&game.game_map.obstacles[oi].verts);
            let ghost prev = cmds@;
            cmds.push(DrawCmd::MapPolygon { verts, color: DrawColor::Obstacle });
            proof {
                assert(is_obstacle_cmd(cmds@[nf + oi as int], game.game_map.obstacles@[oi as int].verts@));
                assert forall|k: int| 0 <= k < oi as int + 1 implies #[trigger] is_obstacle_cmd(
                    cmds@[nf + k],
                    game.game_map.obstacles@[k].verts@,
                ) by {
                    if k < oi as int {
                        assert(cmds@[nf + k] == prev[nf + k]);
                        assert(is_obstacle_cmd(prev[nf + k], game.game_map.obstacles@[k].verts@));
                    }
                }
            }
            oi = oi + 1;
        }
        let end_verts = crate::game::clone_points(&game.game_map.end_area.verts);
        cmds.push(DrawCmd::MapPolygon { verts: end_verts, color: DrawColor::EndArea });
        let ghost nfo = cmds@.len() as int;
        let mut j: usize = 0;
        while j < n
            invariant
                n == game.actors@.len(),
                no == game.game_map.obstacles@.len(),
                game.wf(),
                j <= n,
                0 <= nf,
                nf == count_fov(game.actors@, game.actors@.len() as int),
                nfo == nf + no + 1,
                cmds@.len() == nfo + j,
                forall|k: int|
                    0 <= k < no ==> #[trigger] is_obstacle_cmd(
                        cmds@[nf + k],
                        game.game_map.obstacles@[k].verts@,
                    ),
                is_end_area_cmd(cmds@[nf + no], game.game_map.end_area.verts@),
                forall|k: int|
                    0 <= k < j ==> #[trigger] is_circle_cmd(cmds@[nfo + k], game.actors@[k]),
            decreases n - j,
        {
            let a = &game.actors[j];
            let ghost prev = cmds@;
            cmds.push(DrawCmd::Circle { center: a.pos, radius: a.radius });
            proof {
                assert forall|k: int| 0 <= k < no implies #[trigger] is_obstacle_cmd(
                    cmds@[nf + k],
                    game.game_map.obstacles@[k].verts@,
                ) by {
                    assert(cmds@[nf + k] == prev[nf + k]);
                    assert(is_obstacle_cmd(prev[nf + k], game.game_map.obstacles@[k].verts@));
                }
                assert(cmds@[nf + no as int] == prev[nf + no as int]);
                assert forall|k: int| 0 <= k < j as int + 1 implies #[trigger] is_circle_cmd(
                    cmds@[nfo + k],
                    game.actors@[k],
                ) by {
                    if k < j as int {
                        assert(cmds@[nfo + k] == prev[nfo + k]);
                        assert(is_circle_cmd(prev[nfo + k], game.actors@[k]));
                    }
                }
            }
            j = j + 1;
        }
        let mut b: usize = 0;
        while b < n
            invariant
                n == game.actors@.len(),
                no == game.game_map.obstacles@.len(),
                game.wf(),
                b <= n,
                0 <= nf,
                nf == count_fov(game.actors@, game.actors@.len() as int),
                nfo == nf + no + 1,
                cmds@.len() == nfo + n + count_guards(game.actors@, b as int),
                0 <= count_guards(game.actors@, b as int),
                forall|k: int|
                    0 <= k < no ==> #[trigger] is_obstacle_cmd(
                        cmds@[nf + k],
                        game.game_map.obstacles@[k].verts@,
                    ),
                is_end_area_cmd(cmds@[nf + no], game.game_map.end_area.verts@),
                forall|k: int|
                    0 <= k < n ==> #[trigger] is_circle_cmd(cmds@[nfo + k], game.actors@[k]),
            decreases n - b,
        {
            if !game.actors[b].is_player() {
                let a = &game.actors[b];
                let ghost prev = cmds@;
                cmds.push(DrawCmd::Bar { pos: a.pos, score: a.discovered_player, max: 1000 });
                proof {
                    assert forall|k: int| 0 <= k < no implies #[trigger] is_obstacle_cmd(
                        cmds@[nf + k],
                        game.game_map.obstacles@[k].verts@,
                    ) by {
                        assert(cmds@[nf + k] == prev[nf + k]);
                        assert(is_obstacle_cmd(prev[nf + k], game.game_map.obstacles@[k].verts@));
                    }
                    assert(cmds@[nf + no as int] == prev[nf + no as int]);
                    assert forall|k: int| 0 <= k < n implies #[trigger] is_circle_cmd(
                        cmds@[nfo + k],
                        game.actors@[k],
                    ) by {
                        assert(cmds@[nfo + k] == prev[nfo + k]);
                        assert(is_circle_cmd(prev[nfo + k], game.actors@[k]));
                    }
                }
            }
            b = b + 1;
        }
        cmds
    }
}

/// Copy a list of rational points.
fn clone_rat_points(v: &Vec<RatPoint>) -> (r: Vec<RatPoint>)
    ensures
        r@ == v@,
{
    let mut r: Vec<RatPoint> = Vec::new();
    let mut i: usize = 0;
    while i < v.len()
        invariant
            i <= v@.len(),
            r@.len() == i,
            forall|k: int| 0 <= k < i ==> #[trigger] r@[k] == v@[k],
        decreases v@.len() - i,
    {
        r.push(v[i]);
        i = i + 1;
    }
    proof {
        assert(r@ =~= v@);
    }
    r
}

} // verus!
