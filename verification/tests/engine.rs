use stealth_core::collision::{did_player_win, handle_obstacle_collisions, move_out_of_obstacle};
use stealth_core::editor::{snap_to_grid, MouseButton, SelectionHandler};
use stealth_core::fov::{ConeFieldOfView, FieldOfView, GlobalFieldOfView, NoFieldOfView};
use stealth_core::game::{
    apply_physics_movement, was_player_found, Actor, Controller, Game, LevelInfo, MoveKeys,
    PlayerController,
};
use stealth_core::game_map::GameMap;
use stealth_core::geometry::{Point, Polygon, RatPoint, Vec2};
use stealth_core::raycast::{raycast, Ray};
use stealth_core::render::{DrawCmd, Renderer};

fn poly(verts: &[(i64, i64)]) -> Polygon {
    Polygon::new(verts.iter().map(|&(x, y)| Point::new(x, y)).collect())
}

fn assert_hit_is(hit: &RatPoint, x: i64, y: i64) {
    assert!(hit.d >= 1);
    assert_eq!(hit.nx, x as i128 * hit.d);
    assert_eq!(hit.ny, y as i128 * hit.d);
}

fn no_keys() -> MoveKeys {
    MoveKeys { up: false, down: false, left: false, right: false, sprint: false }
}

fn empty_map() -> GameMap {
    GameMap::new(Vec::new(), poly(&[]))
}

#[test]
fn numbers() {
    assert!(360.0_f32.to_radians() - 2.0 * std::f32::consts::PI <= f32::EPSILON);
}

#[test]
fn raycast_hit_nothing() {
    let ray = Ray::new(Point::new(0, 0), Vec2::new(1, 0));
    let polygons: Vec<Polygon> = vec![];
    let hit = raycast(&ray, &polygons, 0);
    assert!(hit.is_none());
}

#[test]
fn raycast_hit_square_edge() {
    let ray = Ray::new(Point::new(0, 0), Vec2::new(1, 0));
    let polygons = vec![poly(&[(1, -1), (1, 1), (2, 1), (2, -1)])];
    match raycast(&ray, &polygons, 0) {
        Some(hit_pos) => assert_hit_is(&hit_pos, 1, 0),
        None => panic!("did not hit anything"),
    }
}

#[test]
fn raycast_hit_square_corner() {
    let ray = Ray::new(Point::new(0, 0), Vec2::new(1, 0));
    let polygons = vec![poly(&[(1, 1), (2, 1), (2, 0), (1, 0)])];
    match raycast(&ray, &polygons, 0) {
        Some(hit_pos) => assert_hit_is(&hit_pos, 1, 0),
        None => panic!("did not hit anything"),
    }
}

#[test]
fn raycast_hit_nothing_distance() {
    let ray = Ray::new(Point::new(0, 0), Vec2::new(1, 0));
    let polygons = vec![poly(&[(6, -1), (6, 1), (7, 1), (7, -1)])];
    let hit = raycast(&ray, &polygons, 5);
    assert!(hit.is_none());
}

#[test]
fn raycast_hit_triangle_corner() {
    // A triangle whose corners sit on the grid, with one corner on the ray.
    let ray = Ray::new(Point::new(0, 0), Vec2::new(1, 0));
    let polygons = vec![poly(&[(2, 0), (1, 1), (3, 1)])];
    match raycast(&ray, &polygons, 0) {
        Some(hit_pos) => assert_hit_is(&hit_pos, 2, 0),
        None => panic!("did not hit triangle"),
    }
}

#[test]
fn raycast_hit_upwards() {
    let ray = Ray::new(Point::new(0, 0), Vec2::new(0, 1));
    let polygons = vec![poly(&[(-1, 1), (1, 1), (1, 2), (-1, 2)])];
    match raycast(&ray, &polygons, 0) {
        Some(hit_pos) => assert_hit_is(&hit_pos, 0, 1),
        None => panic!("did not hit anything"),
    }
}

#[test]
fn fov_hit_nothing() {
    let ray = Ray::new(Point::new(0, 0), Vec2::new(1, 0));
    let hit = raycast(&ray, &Vec::new(), 0);
    assert!(hit.is_none());
}

#[test]
fn fov_hit_square_edge() {
    let ray = Ray::new(Point::new(0, 0), Vec2::new(1, 0));
    let polygons = vec![poly(&[(1, -1), (1, 1), (2, 1), (2, -1)])];
    match raycast(&ray, &polygons, 0) {
        Some(hit_pos) => assert_hit_is(&hit_pos, 1, 0),
        None => panic!("did not hit anything"),
    }
}

#[test]
fn fov_hit_square_corner() {
    let ray = Ray::new(Point::new(0, 0), Vec2::new(1, 0));
    let polygons = vec![poly(&[(1, 1), (2, 1), (2, 0), (1, 0)])];
    match raycast(&ray, &polygons, 0) {
        Some(hit_pos) => assert_hit_is(&hit_pos, 1, 0),
        None => panic!("did not hit anything"),
    }
}

#[test]
fn fov_hit_nothing_distance() {
    let ray = Ray::new(Point::new(0, 0), Vec2::new(1, 0));
    let polygons = vec![poly(&[(6, -1), (6, 1), (7, 1), (7, -1)])];
    assert!(raycast(&ray, &polygons, 5).is_none());
}

#[test]
fn fov_hit_triangle_corner() {
    let ray = Ray::new(Point::new(0, 0), Vec2::new(1, 0));
    let polygons = vec![poly(&[(2, 0), (1, 1), (3, 1)])];
    match raycast(&ray, &polygons, 0) {
        Some(hit_pos) => assert_hit_is(&hit_pos, 2, 0),
        None => panic!("did not hit triangle"),
    }
}

#[test]
fn fov_hit_upwards() {
    let ray = Ray::new(Point::new(0, 0), Vec2::new(0, 1));
    let polygons = vec![poly(&[(-1, 1), (1, 1), (1, 2), (-1, 2)])];
    match raycast(&ray, &polygons, 0) {
        Some(hit_pos) => assert_hit_is(&hit_pos, 0, 1),
        None => panic!("did not hit anything"),
    }
}

#[test]
fn raycast_collinear_edge_front() {
    // A wall segment lying exactly along the ray is hit at its nearer end.
    let ray = Ray::new(Point::new(0, 0), Vec2::new(1, 0));
    let polygons = vec![poly(&[(3, 0), (7, 0), (7, 1)])];
    match raycast(&ray, &polygons, 0) {
        Some(hit_pos) => assert_hit_is(&hit_pos, 3, 0),
        None => panic!("did not hit anything"),
    }
}

#[test]
fn raycast_degenerate_edge_never_hits() {
    // A zero-length edge must not produce a spurious hit.
    let polygons = vec![poly(&[(5, 0)])];
    let ray = Ray::new(Point::new(0, 0), Vec2::new(1, 0));
    assert!(raycast(&ray, &polygons, 0).is_none());
}

#[test]
fn editor_snap_down() {
    let point = Point::new(50, 60);
    let snapped_point = snap_to_grid(point);
    let expected = Point::new(50, 50);
    assert_eq!(expected, snapped_point);
}

#[test]
fn editor_snap_up() {
    let point = Point::new(50, 40);
    let snapped_point = snap_to_grid(point);
    let expected = Point::new(50, 50);
    assert_eq!(expected, snapped_point);
}

#[test]
fn resolver_pushes_out_of_rectangle() {
    // Agent radius 25, rectangle (100,100)-(200,200), candidate (95,150):
    // five units into the left edge, pushed out to x = 100 - 25 = 75.
    let obstacles = vec![poly(&[(100, 100), (200, 100), (200, 200), (100, 200)])];
    let mut pos = Point::new(95, 150);
    handle_obstacle_collisions(&obstacles, 25, &mut pos);
    assert_eq!(pos, Point::new(75, 150));
}

#[test]
fn resolver_keeps_clear_position() {
    // Re-running resolution on an already-resolved position changes nothing.
    let obstacles = vec![poly(&[(100, 100), (200, 100), (200, 200), (100, 200)])];
    let mut pos = Point::new(75, 150);
    handle_obstacle_collisions(&obstacles, 25, &mut pos);
    assert_eq!(pos, Point::new(75, 150));
    let mut far = Point::new(300, 300);
    handle_obstacle_collisions(&obstacles, 25, &mut far);
    assert_eq!(far, Point::new(300, 300));
}

#[test]
fn move_out_reports_push() {
    let obstacle = poly(&[(100, 100), (200, 100), (200, 200), (100, 200)]);
    let mut pos = Point::new(95, 150);
    assert!(move_out_of_obstacle(&obstacle, 25, &mut pos));
    assert_eq!(pos, Point::new(75, 150));
    let mut clear = Point::new(0, 0);
    assert!(!move_out_of_obstacle(&obstacle, 25, &mut clear));
    assert_eq!(clear, Point::new(0, 0));
}

#[test]
fn cone_contains_in_range_point() {
    // Guard at (0,0) facing (1,0), half-angle 45 degrees, view distance 200.
    let cone = ConeFieldOfView::new(Vec2::new(1, 1), 200);
    let map = empty_map();
    assert!(cone.is_inside_fov(&map, Point::new(50, 0)));
}

#[test]
fn cone_rejects_wide_bearing() {
    // (50, 100) lies at about 63 degrees off the facing: outside the cone.
    let cone = ConeFieldOfView::new(Vec2::new(1, 1), 200);
    let map = empty_map();
    assert!(!cone.is_inside_fov(&map, Point::new(50, 100)));
}

#[test]
fn cone_rejects_far_point() {
    let cone = ConeFieldOfView::new(Vec2::new(1, 1), 200);
    let map = empty_map();
    assert!(!cone.is_inside_fov(&map, Point::new(300, 0)));
}

#[test]
fn cone_boundary_bearing_included() {
    // A point exactly on the 45-degree boundary counts as inside.
    let cone = ConeFieldOfView::new(Vec2::new(1, 1), 200);
    let map = empty_map();
    assert!(cone.is_inside_fov(&map, Point::new(50, 50)));
}

#[test]
fn cone_blocked_by_wall() {
    // A rectangle straddles the line of sight: in-cone, in-range, blocked.
    let cone = ConeFieldOfView::new(Vec2::new(1, 1), 200);
    let wall = poly(&[(40, -10), (60, -10), (60, 10), (40, 10)]);
    let map = GameMap::new(vec![wall], poly(&[]));
    assert!(!cone.is_inside_fov(&map, Point::new(100, 0)));
    let open = empty_map();
    assert!(open.obstacles.is_empty());
    let cone2 = ConeFieldOfView::new(Vec2::new(1, 1), 200);
    assert!(cone2.is_inside_fov(&open, Point::new(100, 0)));
}

#[test]
fn global_fov_empty_map_degenerates() {
    // A 360-degree view with no obstacles has nothing to bound it: the
    // polygon comes out with fewer than three vertices (none at all).
    let mut fov = GlobalFieldOfView::new();
    let map = empty_map();
    fov.recalculate(Point::new(400, 300), Vec2::new(1, 0), &map);
    assert!(fov.visible_area.verts.len() < 3);
    assert_eq!(fov.visible_area.verts.len(), 0);
}

#[test]
fn cone_rebuild_carries_arc_fan() {
    let mut fov = FieldOfView::Cone(ConeFieldOfView::new(Vec2::new(1, 1), 200));
    let map = empty_map();
    fov.recalculate(Point::new(0, 0), Vec2::new(1, 0), &map);
    match fov {
        FieldOfView::Cone(c) => {
            // apex + forward ray + twenty rays per cone half
            assert_eq!(c.visible_area.verts.len(), 42);
        },
        _ => panic!("cone changed kind"),
    }
}

#[test]
fn no_fov_sees_nothing() {
    let fov = NoFieldOfView {};
    let map = empty_map();
    assert!(!fov.is_inside_fov(&map, Point::new(0, 0)));
}

#[test]
fn detection_score_rises_and_falls() {
    // A guard watching the player accumulates score step by step, clamped
    // at the top; looking away drains it, clamped at zero.
    let mut actors = Vec::new();
    actors.push(Actor::new_player(50, 0));
    actors.push(Actor::new_guard(0, 0, vec![Point::new(10, 0)]));
    let mut game = Game { actors, game_map: empty_map(), player_won: false };
    let mut found = was_player_found(&mut game);
    assert!(!found);
    assert_eq!(game.actors[1].discovered_player, 15);
    for _ in 0..100 {
        found = was_player_found(&mut game);
    }
    assert!(found);
    assert_eq!(game.actors[1].discovered_player, 1000);
    // Move the player out of range: the score decays, never below zero.
    game.actors[0].pos = Point::new(-500, 0);
    for _ in 0..100 {
        found = was_player_found(&mut game);
    }
    assert!(!found);
    assert_eq!(game.actors[1].discovered_player, 0);
}

#[test]
fn end_area_reached_within_radius() {
    let map = GameMap::new(Vec::new(), poly(&[(100, 100), (200, 100), (200, 200), (100, 200)]));
    assert!(did_player_win(&map, 25, Point::new(95, 150)));
    assert!(!did_player_win(&map, 25, Point::new(300, 300)));
}

#[test]
fn player_movement_scales_keys() {
    let pc = PlayerController {};
    let mut keys = no_keys();
    assert_eq!(pc.next_movement(keys, 10), Vec2::new(0, 0));
    keys.right = true;
    assert_eq!(pc.next_movement(keys, 10), Vec2::new(10, 0));
    keys.sprint = true;
    assert_eq!(pc.next_movement(keys, 10), Vec2::new(20, 0));
    keys.sprint = false;
    keys.down = true;
    // Diagonal speed is scaled by 1024/1448 (one over root two), rounded.
    assert_eq!(pc.next_movement(keys, 10), Vec2::new(7, 7));
}

#[test]
fn guard_walks_toward_patrol_point() {
    let mut c = Controller::new_guard(vec![Point::new(10, 0)], 0);
    let step = c.next_movement(no_keys(), Point::new(0, 0), 1);
    assert_eq!(step, Vec2::new(1, 0));
}

#[test]
fn tick_moves_player_and_reports_outcomes() {
    let mut game = Game::new();
    let mut keys = no_keys();
    keys.right = true;
    let before = game.actors[0].pos;
    let events = game.tick(keys);
    assert!(!events.player_won);
    assert!(!events.player_found);
    assert_eq!(game.actors[0].pos, Point::new(before.x + 1, before.y));
}

#[test]
fn physics_keeps_actor_out_of_walls() {
    let mut actors = Vec::new();
    actors.push(Actor::new_player(95, 150));
    let map = GameMap::new(
        vec![poly(&[(100, 100), (200, 100), (200, 200), (100, 200)])],
        poly(&[(900, 900), (1000, 900), (1000, 1000)]),
    );
    let mut game = Game { actors, game_map: map, player_won: false };
    apply_physics_movement(&mut game, no_keys());
    assert_eq!(game.actors[0].pos, Point::new(75, 150));
}

#[test]
fn level_round_trip_counts() {
    let li = LevelInfo {
        player_data: (50, 50),
        guard_data: vec![((600, 90), vec![(604, 96), (659, 357)])],
        obstacle_data: vec![vec![(250, 250), (325, 250), (350, 350)]],
        end_area_data: vec![(700, 500), (800, 500), (800, 600), (700, 600)],
    };
    let game = Game::from_level_info(li).expect("level should validate");
    assert_eq!(game.actors.len(), 2);
    assert_eq!(game.game_map.obstacles.len(), 1);
    let back = game.to_level_info();
    assert_eq!(back.player_data, (50, 50));
    assert_eq!(back.guard_data.len(), 1);
    assert_eq!(back.obstacle_data.len(), 1);
    assert_eq!(back.end_area_data.len(), 4);
}

#[test]
fn level_rejects_out_of_range_coordinates() {
    let li = LevelInfo {
        player_data: (5000, 50),
        guard_data: vec![],
        obstacle_data: vec![],
        end_area_data: vec![],
    };
    assert!(Game::from_level_info(li).is_none());
}

#[test]
fn level_rejects_empty_patrol() {
    let li = LevelInfo {
        player_data: (50, 50),
        guard_data: vec![((600, 90), vec![])],
        obstacle_data: vec![],
        end_area_data: vec![],
    };
    assert!(Game::from_level_info(li).is_none());
}

#[test]
fn selection_handler_starts_empty() {
    let handler = SelectionHandler::new();
    assert!(handler.dragged_object.is_none());
    assert!(handler.selected_object.is_none());
}

#[test]
fn editor_picks_vertex_under_mouse() {
    let handler = SelectionHandler::new();
    let p = poly(&[(100, 100), (200, 100), (200, 200)]);
    assert_eq!(handler.find_polygon_vertex_at(&p, Point::new(105, 105)), Some(0));
    assert_eq!(handler.find_polygon_vertex_at(&p, Point::new(150, 150)), None);
}

#[test]
fn editor_drag_release_selects() {
    let mut handler = SelectionHandler::new();
    let mut game = Game::new();
    handler.handle_mouse_down(&mut game, MouseButton::Left, Point::new(50, 50));
    assert!(handler.dragged_object.is_some());
    handler.handle_mouse_up(&mut game, MouseButton::Left);
    assert!(handler.dragged_object.is_none());
    match handler.selected_object {
        Some(stealth_core::editor::SelectionObject::Actor { index }) => assert_eq!(index, 0),
        _ => panic!("expected the player to be selected"),
    }
}

#[test]
fn renderer_emits_map_and_actor_commands() {
    let renderer = Renderer::new();
    let game = Game::new();
    let cmds = renderer.render(&game);
    // no visibility polygon, no obstacles, one end area, one actor circle,
    // no discovery bar
    assert_eq!(cmds.len(), 2);
    match &cmds[0] {
        DrawCmd::MapPolygon { verts, .. } => assert_eq!(verts.len(), 4),
        _ => panic!("expected the end area polygon first"),
    }
    match &cmds[1] {
        DrawCmd::Circle { center, radius } => {
            assert_eq!(*center, Point::new(50, 50));
            assert_eq!(*radius, 25);
        },
        _ => panic!("expected the player's circle"),
    }
}

#[test]
fn guard_advances_patrol_on_arrival() {
    // Standing within five units of the current patrol point passes it.
    let mut c = Controller::new_guard(vec![Point::new(3, 0), Point::new(0, 100)], 0);
    let step = c.next_movement(no_keys(), Point::new(0, 0), 1);
    match c {
        Controller::Guard(g) => assert_eq!(g.i, 1),
        _ => panic!("guard changed kind"),
    }
    // The step now heads for the second point, one unit long.
    assert_eq!(step, Vec2::new(0, 1));
}

#[test]
fn snap_rounds_negative_coordinates() {
    assert_eq!(snap_to_grid(Point::new(-60, -40)), Point::new(-50, -50));
}

#[test]
fn cone_sees_its_own_origin() {
    let cone = ConeFieldOfView::new(Vec2::new(1, 1), 200);
    let map = empty_map();
    assert!(cone.is_inside_fov(&map, Point::new(0, 0)));
}

#[test]
fn score_steps_are_clamped() {
    // One sighting steps the score by exactly one increment; the scale
    // never leaves [0, 1000].
    let mut actors = Vec::new();
    actors.push(Actor::new_player(50, 0));
    actors.push(Actor::new_guard(0, 0, vec![Point::new(10, 0)]));
    let mut game = Game { actors, game_map: empty_map(), player_won: false };
    game.actors[1].discovered_player = 995;
    was_player_found(&mut game);
    assert_eq!(game.actors[1].discovered_player, 1000);
    game.actors[0].pos = Point::new(-500, 0);
    game.actors[1].discovered_player = 10;
    was_player_found(&mut game);
    assert_eq!(game.actors[1].discovered_player, 0);
}

#[test]
fn level_names_read_naturally() {
    let name = stealth_core::levels::level_display_name(b"cool_level");
    assert_eq!(name, b"Cool level".to_vec());
    let empty = stealth_core::levels::level_display_name(b"");
    assert!(empty.is_empty());
}

#[test]
fn edge_iter_wraps_around() {
    let p = poly(&[(0, 0), (10, 0), (10, 10)]);
    let edges = p.edge_iter();
    assert_eq!(edges.len(), 3);
    assert_eq!(edges[0], (Point::new(0, 0), Point::new(10, 0)));
    assert_eq!(edges[2], (Point::new(10, 10), Point::new(0, 0)));
}

#[test]
fn level_round_trip_contents() {
    let li = LevelInfo {
        player_data: (50, 50),
        guard_data: vec![((600, 90), vec![(604, 96), (659, 357)])],
        obstacle_data: vec![vec![(250, 250), (325, 250), (350, 350)]],
        end_area_data: vec![(700, 500), (800, 500), (800, 600), (700, 600)],
    };
    let game = Game::from_level_info(li).expect("level should validate");
    let back = game.to_level_info();
    assert_eq!(back.player_data, (50, 50));
    assert_eq!(back.guard_data, vec![((600, 90), vec![(604, 96), (659, 357)])]);
    assert_eq!(back.obstacle_data, vec![vec![(250, 250), (325, 250), (350, 350)]]);
    assert_eq!(back.end_area_data, vec![(700, 500), (800, 500), (800, 600), (700, 600)]);
}
