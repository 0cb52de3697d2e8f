use gridpath::geom::Vec2i;
use gridpath::grid::Grid;
use gridpath::hybrid::{node_to_world_pos, world_to_node_pos, Node};
use gridpath::job::{complete_path, JobPhase, PathfindingTask};
use gridpath::problem::Problem;

fn v(x: i64, y: i64) -> Vec2i {
    Vec2i::new(x, y)
}

#[test]
fn job_protocol_drains_exactly_once() {
    let mut t = PathfindingTask::new();
    assert_eq!(t.phase(), JobPhase::Idle);
    assert!(!t.try_drain());
    t.begin();
    assert_eq!(t.phase(), JobPhase::Running);
    assert!(!t.try_drain());
    t.complete();
    assert_eq!(t.phase(), JobPhase::Done);
    assert!(t.try_drain());
    assert_eq!(t.phase(), JobPhase::Idle);
    assert!(!t.try_drain());
}

#[test]
fn complete_path_frames_solver_result() {
    let raw = vec![v(10, 10), v(20, 20)];
    let r = complete_path(Some(raw), Some(v(1, 1)), Some(v(30, 30))).unwrap();
    assert_eq!(r, vec![v(1, 1), v(10, 10), v(20, 20), v(30, 30)]);
}

#[test]
fn complete_path_falls_back_to_direct_segment() {
    let r = complete_path(None, Some(v(1, 2)), Some(v(3, 4))).unwrap();
    assert_eq!(r, vec![v(1, 2), v(3, 4)]);
}

#[test]
fn complete_path_requires_both_endpoints() {
    assert!(complete_path(Some(vec![v(0, 0)]), None, Some(v(1, 1))).is_none());
    assert!(complete_path(Some(vec![v(0, 0)]), Some(v(1, 1)), None).is_none());
    assert!(complete_path(None, None, None).is_none());
}

#[test]
fn complete_path_with_empty_raw_path() {
    let r = complete_path(Some(Vec::new()), Some(v(7, 8)), Some(v(9, 10))).unwrap();
    assert_eq!(r, vec![v(7, 8), v(9, 10)]);
}

#[test]
fn problem_tracks_endpoints() {
    let g = Grid::new(5, 5, 10, 10, v(0, 0));
    let mut p = Problem::new(g);
    assert!(!p.ready());
    p.start = Some(v(5, 5));
    assert!(!p.ready());
    p.goal = Some(v(45, 45));
    assert!(p.ready());
}

#[test]
fn lattice_mapping_exact_values() {
    let g = Grid::new(10, 10, 60, 20, v(0, 0));
    assert_eq!(world_to_node_pos(&g, v(10, 10)), Some(Node { x: 0, y: 0 }));
    assert_eq!(world_to_node_pos(&g, v(35, 50)), Some(Node { x: 1, y: 2 }));
    // halves round away from zero
    assert_eq!(world_to_node_pos(&g, v(20, -10)), Some(Node { x: 1, y: -1 }));
    assert_eq!(node_to_world_pos(&g, Node { x: 1, y: 2 }), v(30, 50));
    assert_eq!(node_to_world_pos(&g, Node { x: -2, y: 0 }), v(-30, 10));
}

#[test]
fn lattice_mapping_round_trip() {
    let g = Grid::new(10, 10, 60, 20, v(0, 0));
    for n in [Node { x: 0, y: 0 }, Node { x: 3, y: -7 }, Node { x: -12, y: 25 }] {
        let w = node_to_world_pos(&g, n);
        assert_eq!(world_to_node_pos(&g, w), Some(n));
    }
}
