use gridpath::geom::{dist_approx, isqrt, Vec2i};
use gridpath::grid::{create_grid, Grid, GridCell};
use gridpath::raycast::Ray;
use gridpath::sight::has_sight;

fn v(x: i64, y: i64) -> Vec2i {
    Vec2i::new(x, y)
}

#[test]
fn isqrt_exact_values() {
    assert_eq!(isqrt(0), 0);
    assert_eq!(isqrt(1), 1);
    assert_eq!(isqrt(15), 3);
    assert_eq!(isqrt(16), 4);
    assert_eq!(isqrt(999_999), 999);
    assert_eq!(isqrt(1_000_000), 1000);
}

#[test]
fn dist_approx_exact_values() {
    assert_eq!(dist_approx(v(0, 0), v(3, 4)), 5);
    assert_eq!(dist_approx(v(0, 0), v(2, 3)), 3);
    assert_eq!(dist_approx(v(-3, 0), v(0, -4)), 5);
    assert_eq!(dist_approx(v(7, 7), v(7, 7)), 0);
}

#[test]
fn grid_new_and_accessors() {
    let g = Grid::new(19, 15, 60, 20, v(-600, -400));
    assert_eq!(g.width(), 19);
    assert_eq!(g.height(), 15);
    assert_eq!(g.cell_size(), 60);
    assert_eq!(g.pixel_size(), 20);
    assert_eq!(g.world_width(), 1140);
    assert_eq!(g.world_height(), 900);
    let q = g.bound_quad();
    assert_eq!(q.pos, v(-600, -400));
    assert_eq!(q.siz, v(1140, 900));
    assert_eq!(g.get(0, 0), Some(GridCell::Air));
    assert_eq!(g.get(18, 14), Some(GridCell::Air));
}

#[test]
fn grid_set_get_out_of_bounds() {
    let mut g = Grid::new(4, 3, 10, 10, v(0, 0));
    assert_eq!(g.set(1, 2, GridCell::Wall), Some(()));
    assert_eq!(g.get(1, 2), Some(GridCell::Wall));
    assert_eq!(g.is_wall(1, 2), Some(true));
    assert_eq!(g.is_air(1, 2), Some(false));
    assert_eq!(g.set(4, 0, GridCell::Wall), None);
    assert_eq!(g.set(0, 3, GridCell::Wall), None);
    assert_eq!(g.get(4, 0), None);
    assert_eq!(g.is_wall(0, 3), None);
    assert_eq!(g.is_air(9, 9), None);
}

#[test]
fn grid_cell_quad() {
    let g = Grid::new(19, 15, 60, 20, v(-600, -400));
    let q = g.get_cell_quad(1, 1).unwrap();
    assert_eq!(q.pos, v(-540, -340));
    assert_eq!(q.siz, v(60, 60));
    assert!(g.get_cell_quad(19, 0).is_none());
}

#[test]
fn grid_world_to_cell_mapping() {
    let g = Grid::new(19, 15, 60, 20, v(-600, -400));
    assert_eq!(g.get_from_world_pos(v(-600, -400)), Some((0, 0)));
    assert_eq!(g.get_from_world_pos(v(-541, -341)), Some((0, 0)));
    assert_eq!(g.get_from_world_pos(v(-540, -340)), Some((1, 1)));
    assert_eq!(g.get_from_world_pos(v(-601, -400)), None);
    assert_eq!(g.get_from_world_pos(v(600, 0)), None);
}

#[test]
fn demo_grid_layout() {
    let g = create_grid();
    assert_eq!(g.width(), 19);
    assert_eq!(g.height(), 15);
    // border walls
    assert_eq!(g.is_wall(0, 0), Some(true));
    assert_eq!(g.is_wall(18, 14), Some(true));
    assert_eq!(g.is_wall(9, 0), Some(true));
    // interior wall with openings
    assert_eq!(g.is_wall(8, 8), Some(true));
    assert_eq!(g.is_wall(2, 8), Some(false));
    assert_eq!(g.is_wall(9, 8), Some(false));
    assert_eq!(g.is_wall(9, 5), Some(true));
}

#[test]
fn raycast_zero_direction_is_no_hit() {
    let g = Grid::new(3, 3, 10, 10, v(0, 0));
    let r = g.raycast(Ray { root: v(5, 5), dir: v(0, 0) });
    assert!(r.is_none());
}

#[test]
fn raycast_open_grid_is_no_hit() {
    let g = Grid::new(5, 5, 10, 10, v(0, 0));
    assert!(g.raycast(Ray { root: v(5, 5), dir: v(1, 1) }).is_none());
    assert!(g.raycast(Ray { root: v(-20, 25), dir: v(1, 0) }).is_none());
}

#[test]
fn raycast_exact_hit() {
    let mut g = Grid::new(3, 3, 10, 10, v(0, 0));
    g.set(2, 1, GridCell::Wall).unwrap();
    let hit = g.raycast(Ray { root: v(5, 15), dir: v(1, 0) }).unwrap();
    assert_eq!(hit.cell_x, 2);
    assert_eq!(hit.cell_y, 1);
    assert_eq!(hit.t_num, 15);
    assert_eq!(hit.t_den, 1);
    assert_eq!(hit.point_x_num, 20);
    assert_eq!(hit.point_y_num, 15);
    assert_eq!(hit.normal, v(-1, 0));
}

#[test]
fn raycast_miss_when_ray_points_away() {
    let mut g = Grid::new(3, 3, 10, 10, v(0, 0));
    g.set(2, 1, GridCell::Wall).unwrap();
    assert!(g.raycast(Ray { root: v(5, 15), dir: v(-1, 0) }).is_none());
}

#[test]
fn raycast_never_tunnels_through_thin_wall() {
    // a one-cell-thick wall column; a shallow diagonal ray must still hit it
    let mut g = Grid::new(10, 10, 10, 10, v(0, 0));
    for y in 0..10 {
        g.set(5, y, GridCell::Wall).unwrap();
    }
    let hit = g.raycast(Ray { root: v(5, 55), dir: v(100, 7) }).unwrap();
    assert_eq!(hit.cell_x, 5);
    // the reported distance never exceeds the analytic distance to the
    // wall's far side: t <= (60 - 5) / 100
    assert!(hit.t_den > 0);
    assert!(hit.t_num * 100 <= 55 * hit.t_den);
    // and the hit is at or beyond the wall's near side: t >= (50 - 5) / 100
    assert!(hit.t_num * 100 >= 45 * hit.t_den);
}

#[test]
fn sight_is_reflexive_even_inside_walls() {
    let mut g = Grid::new(3, 3, 10, 10, v(0, 0));
    g.set(1, 1, GridCell::Wall).unwrap();
    assert!(has_sight(&g, v(15, 15), v(15, 15)));
    assert!(has_sight(&g, v(-50, -50), v(-50, -50)));
}

#[test]
fn sight_blocked_and_clear() {
    let mut g = Grid::new(3, 3, 10, 10, v(0, 0));
    g.set(2, 1, GridCell::Wall).unwrap();
    assert!(!has_sight(&g, v(5, 15), v(35, 15)));
    assert!(has_sight(&g, v(5, 15), v(15, 15)));
    // the obstruction lies beyond the target: still clear
    assert!(has_sight(&g, v(5, 15), v(19, 15)));
}

#[test]
fn sight_symmetric_on_open_grid() {
    let g = Grid::new(6, 6, 10, 10, v(-30, -30));
    let pairs = [
        (v(-25, -25), v(25, 25)),
        (v(0, -10), v(-20, 20)),
        (v(-100, 0), v(100, 0)),
    ];
    for (a, b) in pairs {
        assert!(has_sight(&g, a, b));
        assert!(has_sight(&g, b, a));
    }
}

#[test]
fn sight_outside_the_grid_is_clear() {
    let mut g = Grid::new(3, 3, 10, 10, v(0, 0));
    g.set(1, 1, GridCell::Wall).unwrap();
    // a segment that never enters the grid's bounding box
    assert!(has_sight(&g, v(-10, -10), v(-10, 100)));
    assert!(has_sight(&g, v(40, 0), v(40, 40)));
}

#[test]
fn sight_symmetric_on_symmetric_wall_layout() {
    // a wall layout symmetric about the segment's midpoint: both
    // directions agree
    let mut g = Grid::new(5, 5, 10, 10, v(0, 0));
    g.set(2, 2, GridCell::Wall).unwrap();
    let a = v(5, 25);
    let b = v(45, 25);
    assert_eq!(has_sight(&g, a, b), has_sight(&g, b, a));
    assert!(!has_sight(&g, a, b));
}
