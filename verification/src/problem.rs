//! A pathfinding problem: the shared grid together with optional start
//! and goal positions. Absent endpoints mean "not yet chosen"; any solve
//! attempt with either absent yields no result.

use vstd::prelude::*;

use crate::geom::Vec2i;
use crate::grid::Grid;

verus! {

/// The problem handed to a solver: the obstacle grid and the requested
/// endpoints, either of which may still be unset.
pub struct Problem {
    pub grid: Grid,
    pub start: Option<Vec2i>,
    pub goal: Option<Vec2i>,
}

impl Problem {
    /// A problem over `grid` with no endpoints chosen yet.
    pub fn new(grid: Grid) -> (r: Problem)
        ensures
            r.grid == grid,
            r.start is None,
            r.goal is None,
    {
        Problem { grid, start: None, goal: None }
    }

    /// Both endpoints have been chosen.
    pub fn ready(&self) -> (r: bool)
        ensures
            r == (self.start is Some && self.goal is Some),
    {
        self.start.is_some() && self.goal.is_some()
    }
}

} // verus!
