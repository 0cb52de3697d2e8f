use gridpath::a_star::AStarStrategy;
use gridpath::geom::{dist_approx, Vec2i};
use gridpath::grid::{Grid, GridCell};
use gridpath::hybrid::HybridStrategy;
use gridpath::sight::has_sight;

fn v(x: i64, y: i64) -> Vec2i {
    Vec2i::new(x, y)
}

fn path_length(p: &[Vec2i]) -> u64 {
    let mut total: u64 = 0;
    for w in p.windows(2) {
        total += dist_approx(w[0], w[1]);
    }
    total
}

fn assert_path_valid(g: &Grid, p: &[Vec2i]) {
    assert!(p.len() >= 1);
    for w in p.windows(2) {
        assert!(has_sight(g, w[0], w[1]), "segment without line of sight");
    }
    for wp in p {
        if let Some((cx, cy)) = g.get_from_world_pos(*wp) {
            assert_eq!(g.is_wall(cx, cy), Some(false), "waypoint inside a wall cell");
        }
    }
}

#[test]
fn a_star_no_endpoints_is_none() {
    let g = Grid::new(5, 5, 10, 10, v(0, 0));
    let s = AStarStrategy::new();
    assert!(s.path_finding(&g, None, Some(v(5, 5))).is_none());
    assert!(s.path_finding(&g, Some(v(5, 5)), None).is_none());
    assert!(s.path_finding(&g, None, None).is_none());
}

#[test]
fn a_star_open_grid_returns_direct_path() {
    let g = Grid::new(10, 10, 60, 20, v(0, 0));
    let s = AStarStrategy::new();
    let start = v(90, 90);
    let goal = v(510, 450);
    let p = s.path_finding(&g, Some(start), Some(goal)).unwrap();
    assert_eq!(p, vec![start, goal]);
}

#[test]
fn a_star_same_start_and_goal() {
    let g = Grid::new(5, 5, 10, 10, v(0, 0));
    let s = AStarStrategy::new();
    let p = s.path_finding(&g, Some(v(25, 25)), Some(v(25, 25))).unwrap();
    assert_eq!(p, vec![v(25, 25)]);
}

#[test]
fn a_star_enclosed_start_is_none() {
    // start boxed in by walls, goal outside: the frontier exhausts
    let mut g = Grid::new(7, 7, 60, 20, v(0, 0));
    for i in 1..6 {
        g.set(i, 1, GridCell::Wall).unwrap();
        g.set(i, 5, GridCell::Wall).unwrap();
        g.set(1, i, GridCell::Wall).unwrap();
        g.set(5, i, GridCell::Wall).unwrap();
    }
    let s = AStarStrategy::new();
    let r = s.path_finding(&g, Some(v(210, 210)), Some(v(30, 30)));
    assert!(r.is_none());
}

#[test]
fn a_star_routes_through_single_gap() {
    // a full-height wall column with a one-cell gap near the top
    let mut g = Grid::new(11, 11, 60, 20, v(0, 0));
    for y in 0..11 {
        if y != 9 {
            g.set(5, y, GridCell::Wall).unwrap();
        }
    }
    let s = AStarStrategy::new();
    let start = v(150, 330);
    let goal = v(510, 330);
    assert!(!has_sight(&g, start, goal));
    let p = s.path_finding(&g, Some(start), Some(goal)).unwrap();
    assert_eq!(p[0], start);
    assert_eq!(*p.last().unwrap(), goal);
    assert!(p.len() > 2);
    assert_path_valid(&g, &p);
    // the segment crossing the wall column passes through the gap cell's
    // vertical band: interpolate y at the column's midline x = 330
    let mut crossed = false;
    for w in p.windows(2) {
        let (a, b) = (w[0], w[1]);
        let (lo, hi) = if a.x <= b.x { (a, b) } else { (b, a) };
        if lo.x <= 330 && 330 < hi.x {
            let den = (hi.x - lo.x) as i128;
            let num = (lo.y as i128) * den + ((hi.y - lo.y) as i128) * ((330 - lo.x) as i128);
            assert!((540 - 2) * den <= num && num <= (600 + 2) * den, "crossing misses the gap");
            crossed = true;
        }
    }
    assert!(crossed);
}

#[test]
fn hybrid_no_endpoints_is_none() {
    let g = Grid::new(5, 5, 10, 10, v(0, 0));
    let mut h = HybridStrategy::new();
    assert!(h.path_finding(&g, None, Some(v(5, 5))).is_none());
    assert!(h.path_finding(&g, Some(v(5, 5)), None).is_none());
}

#[test]
fn hybrid_moves_on_the_lattice() {
    let g = Grid::new(12, 12, 40, 20, v(0, 0));
    let mut h = HybridStrategy::new();
    h.set_colony(8, 200);
    let start = v(30, 30);
    let goal = v(210, 150);
    let p = h.path_finding(&g, Some(start), Some(goal)).unwrap();
    assert!(p.len() >= 2);
    for w in p.windows(2) {
        let dx = (w[1].x - w[0].x).abs();
        let dy = (w[1].y - w[0].y).abs();
        assert!(dx <= 20 && dy <= 20 && dx % 20 == 0 && dy % 20 == 0);
        assert!(dx != 0 || dy != 0);
    }
}

#[test]
fn hybrid_repeated_calls_never_worsen() {
    let g = Grid::new(12, 12, 40, 20, v(0, 0));
    let mut h = HybridStrategy::new();
    h.set_colony(8, 200);
    let start = v(30, 30);
    let goal = v(210, 150);
    let mut last_len: Option<u64> = None;
    for _ in 0..4 {
        if let Some(p) = h.path_finding(&g, Some(start), Some(goal)) {
            let l = path_length(&p);
            if let Some(prev) = last_len {
                assert!(l <= prev, "cached best length increased");
            }
            last_len = Some(l);
        }
    }
    assert!(last_len.is_some());
}

#[test]
fn hybrid_recomputes_after_wall_blocks_cached_path() {
    let mut g = Grid::new(12, 12, 40, 20, v(0, 0));
    let mut h = HybridStrategy::new();
    h.set_colony(8, 200);
    let start = v(30, 30);
    let goal = v(410, 30);
    let first = h.path_finding(&g, Some(start), Some(goal));
    assert!(first.is_some());
    // plant a full-height wall across the corridor
    for y in 0..12 {
        g.set(5, y, GridCell::Wall).unwrap();
    }
    let second = h.path_finding(&g, Some(start), Some(goal));
    // no stale obstructed path: either absent, or valid on the new grid
    if let Some(p) = second {
        assert_path_valid(&g, &p);
    }
}

#[test]
fn hybrid_endpoint_change_resets_cache() {
    let g = Grid::new(12, 12, 40, 20, v(0, 0));
    let mut h = HybridStrategy::new();
    h.set_colony(8, 200);
    let a = h.path_finding(&g, Some(v(30, 30)), Some(v(210, 150)));
    assert!(a.is_some());
    // a different goal: the result must end at the new goal's lattice node
    let b = h.path_finding(&g, Some(v(30, 30)), Some(v(390, 390)));
    if let Some(p) = b {
        let last = *p.last().unwrap();
        // lattice node of (390, 390) at pixel 20 is (19, 19), center (390, 390)
        assert_eq!(last, v(390, 390));
    }
}

#[test]
fn hybrid_reset_clears_session_and_still_solves() {
    let g = Grid::new(12, 12, 40, 20, v(0, 0));
    let mut h = HybridStrategy::new();
    h.set_colony(8, 200);
    let start = v(30, 30);
    let goal = v(210, 150);
    assert!(h.path_finding(&g, Some(start), Some(goal)).is_some());
    h.reset();
    // the session starts over; a fresh solve on the same request is
    // still valid
    if let Some(p) = h.path_finding(&g, Some(start), Some(goal)) {
        assert_path_valid(&g, &p);
        assert_eq!(p[0], start);
        assert_eq!(*p.last().unwrap(), goal);
    }
}

#[test]
fn bordered_arena_direct_and_near_euclidean() {
    // a bordered arena, all interior open
    let mut g = Grid::new(20, 15, 60, 30, v(0, 0));
    for x in 0..20 {
        g.set(x, 0, GridCell::Wall).unwrap();
        g.set(x, 14, GridCell::Wall).unwrap();
    }
    for y in 0..15 {
        g.set(0, y, GridCell::Wall).unwrap();
        g.set(19, y, GridCell::Wall).unwrap();
    }
    let start = v(150, 150);  // inside cell (2, 2)
    let goal = v(1050, 750);  // inside cell (17, 12)
    let s = AStarStrategy::new();
    let p = s.path_finding(&g, Some(start), Some(goal)).unwrap();
    assert_eq!(p, vec![start, goal]);

    let mut h = HybridStrategy::new();
    h.set_colony(10, 400);
    let euclid = dist_approx(start, goal);
    let mut best: Option<u64> = None;
    for _ in 0..3 {
        if let Some(q) = h.path_finding(&g, Some(start), Some(goal)) {
            assert_path_valid(&g, &q);
            best = Some(path_length(&q));
        }
    }
    let l = best.expect("optimizer found no path in a bordered open arena");
    assert!(l <= 3 * euclid + 200, "optimizer path far from Euclidean: {} vs {}", l, euclid);
}

#[test]
fn wall_with_three_cell_opening_is_respected() {
    // a bordered arena with a full interior wall of length 10 and a
    // 3-cell opening at its far end
    let mut g = Grid::new(15, 10, 60, 30, v(0, 0));
    for x in 0..15 {
        g.set(x, 0, GridCell::Wall).unwrap();
        g.set(x, 9, GridCell::Wall).unwrap();
    }
    for y in 0..10 {
        g.set(0, y, GridCell::Wall).unwrap();
        g.set(14, y, GridCell::Wall).unwrap();
    }
    for x in 1..11 {
        g.set(x, 5, GridCell::Wall).unwrap();
    }
    let start = v(150, 150);  // below the wall
    let goal = v(150, 510);  // above the wall
    assert!(!has_sight(&g, start, goal));

    let s = AStarStrategy::new();
    let p = s.path_finding(&g, Some(start), Some(goal)).unwrap();
    assert_eq!(p[0], start);
    assert_eq!(*p.last().unwrap(), goal);
    assert_path_valid(&g, &p);
    assert!(p.iter().any(|w| w.x >= 640), "search path did not reach the opening");

    let mut h = HybridStrategy::new();
    h.set_colony(10, 600);
    let mut found: Option<Vec<Vec2i>> = None;
    for _ in 0..3 {
        if let Some(q) = h.path_finding(&g, Some(start), Some(goal)) {
            found = Some(q);
        }
    }
    let q = found.expect("optimizer found no path through the opening");
    assert_path_valid(&g, &q);
    assert!(q.iter().any(|w| w.x >= 640), "optimizer path did not reach the opening");
}
