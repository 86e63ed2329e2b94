//! The static level geometry: obstacle polygons and one end area.

use vstd::prelude::*;
use crate::geometry::Polygon;

verus! {

/// Obstacles and the end area of one level. Static during a play session.
pub struct GameMap {
    pub obstacles: Vec<Polygon>,
    pub end_area: Polygon,
}

impl GameMap {
    /// Every polygon of the map lies within the engine's working range.
    pub open spec fn wf(self) -> bool {
        &&& forall|i: int| 0 <= i < self.obstacles@.len() ==> (#[trigger] self.obstacles@[i]).wf()
        &&& self.end_area.wf()
    }

    pub fn new(obstacles: Vec<Polygon>, end_area: Polygon) -> (r: GameMap)
        ensures
            r.obstacles@ == obstacles@,
            r.end_area == end_area,
    {
        GameMap { obstacles, end_area }
    }
}

} // verus!
