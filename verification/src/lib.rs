//! Core engine of a 2D stealth game: ray/segment intersection, visibility
//! polygons, field-of-view containment, a detection accumulator, and an
//! iterative penetration resolver that keeps circular agents out of polygonal
//! obstacles.
//!
//! All geometry is carried out exactly over integer coordinates (with
//! rational intermediate points), so every predicate a contract mentions is
//! decidable and the stated results are exact.

pub mod collision;
pub mod editor;
pub mod fov;
pub mod game_map;
pub mod game;
pub mod geometry;
pub mod raycast;
pub mod render;
pub mod levels;
pub mod math;
