//! The visibility oracle: is the straight segment between two world
//! positions unobstructed?
//!
//! A position always sees itself. Otherwise a ray is cast from `a` with
//! direction `b - a`; the segment is clear when nothing is hit, or when the
//! hit lies at parameter `t >= 1`, that is, at or beyond `b`.

use vstd::prelude::*;

use crate::geom::Vec2i;
use crate::grid::Grid;
use crate::raycast::{
    dir_ok, lemma_raycast_no_tunnel, lemma_raycast_props, pt_in_cell_interior, spec_raycast, Ray,
};

verus! {

/// The segment from `a` to `b` is unobstructed in `g`.
pub open spec fn sees(g: Grid, a: Vec2i, b: Vec2i) -> bool {
    a == b || match spec_raycast(
        g,
        Ray { root: a, dir: Vec2i { x: (b.x - a.x) as i64, y: (b.y - a.y) as i64 } },
    ) {
        None => true,
        Some(h) => h.t_num >= h.t_den,
    }
}

/// True when the straight segment between `a` and `b` crosses no wall:
/// exactly the `sees` predicate.
pub fn has_sight(g: &Grid, a: Vec2i, b: Vec2i) -> (r: bool)
    requires
        g.wf(),
        a.in_range(),
        b.in_range(),
    ensures
        r == sees(*g, a, b),
{
    if a.x == b.x && a.y == b.y {
        return true;
    }
    let ray = Ray { root: a, dir: Vec2i { x: b.x - a.x, y: b.y - a.y } };
    match g.raycast(ray) {
        None => true,
        Some(h) => h.t_num >= h.t_den,
    }
}

/// A well-formed solver result: a non-empty sequence of in-range waypoints
/// that starts at `s`, ends at `gl`, and whose consecutive segments all
/// have line of sight.
pub open spec fn valid_path(g: Grid, p: Seq<Vec2i>, s: Vec2i, gl: Vec2i) -> bool {
    &&& p.len() >= 1
    &&& p[0] == s
    &&& p[p.len() - 1] == gl
    &&& forall|i: int| 0 <= i < p.len() - 1 ==> sees(g, p[i], #[trigger] p[i + 1])
    &&& forall|i: int| 0 <= i < p.len() ==> (#[trigger] p[i]).in_range()
}

/// A clear segment crosses no wall: if the point at some parameter
/// strictly between the endpoints lies strictly inside a wall cell, the
/// segment is obstructed.
pub proof fn lemma_sees_no_wall_interior(
    g: Grid,
    a: Vec2i,
    b: Vec2i,
    n: int,
    d: int,
    cx: int,
    cy: int,
)
    requires
        g.wf(),
        a.in_range(),
        b.in_range(),
        a != b,
        d > 0,
        0 <= n < d,
        g.wall_at(cx, cy),
        pt_in_cell_interior(
            g,
            Ray { root: a, dir: Vec2i { x: (b.x - a.x) as i64, y: (b.y - a.y) as i64 } },
            n,
            d,
            cx,
            cy,
        ),
    ensures
        !sees(g, a, b),
{
    let ray = Ray { root: a, dir: Vec2i { x: (b.x - a.x) as i64, y: (b.y - a.y) as i64 } };
    lemma_raycast_no_tunnel(g, ray, n, d, cx, cy);
    match spec_raycast(g, ray) {
        Some(h) => {
            assert(h.t_num < h.t_den) by (nonlinear_arith)
                requires
                    h.t_num * d <= n * h.t_den && 0 <= n < d && h.t_den > 0,
            ;
        },
        None => {
            assert(false);
        },
    }
}

/// Line of sight is reflexive: every position sees itself, on every grid.
pub proof fn lemma_sight_self(g: Grid, a: Vec2i)
    ensures
        sees(g, a, a),
{
}

/// On a grid without walls every pair of positions sees each other, in
/// both directions; in particular line of sight is symmetric there.
pub proof fn lemma_open_grid_sight(g: Grid, a: Vec2i, b: Vec2i)
    requires
        g.wf(),
        g.all_air(),
        a.in_range(),
        b.in_range(),
    ensures
        sees(g, a, b),
        sees(g, b, a),
        sees(g, a, b) == sees(g, b, a),
{
    if a != b {
        lemma_raycast_props(
            g,
            Ray { root: a, dir: Vec2i { x: (b.x - a.x) as i64, y: (b.y - a.y) as i64 } },
        );
        lemma_raycast_props(
            g,
            Ray { root: b, dir: Vec2i { x: (a.x - b.x) as i64, y: (a.y - b.y) as i64 } },
        );
    }
}

} // verus!
