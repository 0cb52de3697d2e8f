//! The any-angle best-first search: a priority search over continuous
//! positions whose edges are validated by line of sight rather than grid
//! adjacency, with a direct goal shortcut checked before every expansion.
//!
//! The open set and the cost/predecessor maps are small verified
//! structures: a vector scanned for the least `f = g + h` key, and an
//! association vector keyed by exact integer position.

use vstd::prelude::*;

use crate::geom::{dist_approx, dist_spec, Vec2i};
use crate::grid::Grid;
use crate::sight::{has_sight, sees, valid_path};

verus! {

/// A search node: a position, the position it was reached from, the cost
/// from the start and the heuristic distance to the goal.
#[derive(Clone, Copy, Debug)]
pub struct Node {
    pub pos: Vec2i,
    pub pre: Option<Vec2i>,
    pub g: u64,
    pub h: u64,
}

/// Priority order of the open set: smaller `f = g + h` first, ties broken
/// by smaller `h`.
pub open spec fn node_le(a: Node, b: Node) -> bool {
    a.g + a.h < b.g + b.h || (a.g + a.h == b.g + b.h && a.h <= b.h)
}

/// Removes and returns a minimal node of the open set under `node_le`
/// (the first such node in vector order), or `None` when the set is empty.
fn pop_best(q: &mut Vec<Node>) -> (r: Option<Node>)
    requires
        forall|i: int| 0 <= i < old(q)@.len() ==> #[trigger] old(q)@[i].g + old(q)@[i].h
            <= 0xffff_ffff_ffff_ffff,
    ensures
        old(q)@.len() == 0 ==> r is None && final(q)@ == old(q)@,
        old(q)@.len() > 0 ==> match r {
            Some(n) => {
                &&& exists|i: int|
                    0 <= i < old(q)@.len() && n == old(q)@[i] && final(q)@ == old(q)@.remove(i)
                &&& forall|j: int| 0 <= j < old(q)@.len() ==> node_le(n, #[trigger] old(q)@[j])
            },
            None => false,
        },
{
    if q.len() == 0 {
        return None;
    }
    let mut best: usize = 0;
    let mut i: usize = 1;
    while i < q.len()
        invariant
            forall|k: int| 0 <= k < q@.len() ==> #[trigger] q@[k].g + q@[k].h
                <= 0xffff_ffff_ffff_ffff,
            q@.len() > 0,
            best < i <= q@.len() || (best == 0 && i <= q@.len()),
            best < q@.len(),
            forall|j: int| 0 <= j < i ==> node_le(q@[best as int], #[trigger] q@[j]),
        decreases q@.len() - i,
    {
        let cand = q[i];
        let cur = q[best];
        if cand.g + cand.h < cur.g + cur.h || (cand.g + cand.h == cur.g + cur.h && cand.h < cur.h) {
            best = i;
        }
        i = i + 1;
    }
    let n = q.remove(best);
    Some(n)
}

/// An association map from exact integer positions to values, with unique
/// keys, backed by parallel vectors.
pub struct PosMap<V> {
    keys: Vec<Vec2i>,
    vals: Vec<V>,
}

impl<V: Copy> PosMap<V> {
    /// Parallel vectors of equal length with pairwise distinct keys.
    pub closed spec fn wf(self) -> bool {
        &&& self.keys.len() == self.vals.len()
        &&& forall|i: int, j: int|
            0 <= i < j < self.keys@.len() ==> self.keys@[i] != self.keys@[j]
    }

    /// The map holds an entry for `k`.
    pub closed spec fn has(self, k: Vec2i) -> bool {
        exists|i: int| 0 <= i < self.keys@.len() && self.keys@[i] == k
    }

    /// The value stored under `k` (meaningful when `has(k)`).
    pub closed spec fn val_of(self, k: Vec2i) -> V {
        self.vals@[choose|i: int| 0 <= i < self.keys@.len() && self.keys@[i] == k]
    }

    /// Number of entries.
    pub closed spec fn spec_len(self) -> int {
        self.keys@.len() as int
    }

    /// For a well-formed map, any index holding `k` determines `val_of(k)`.
    proof fn lemma_at(self, i: int)
        requires
            self.wf(),
            0 <= i < self.keys@.len(),
        ensures
            self.has(self.keys@[i]),
            self.val_of(self.keys@[i]) == self.vals@[i],
    {
        let k = self.keys@[i];
        assert(self.has(k));
        let j = choose|j: int| 0 <= j < self.keys@.len() && self.keys@[j] == k;
        if i < j {
            assert(self.keys@[i] != self.keys@[j]);
        } else if j < i {
            assert(self.keys@[j] != self.keys@[i]);
        }
    }

    pub fn new() -> (r: Self)
        ensures
            r.wf(),
            forall|k: Vec2i| !r.has(k),
            r.spec_len() == 0,
    {
        PosMap { keys: Vec::new(), vals: Vec::new() }
    }

    pub fn len(&self) -> (r: usize)
        ensures
            r == self.spec_len(),
    {
        self.keys.len()
    }

    /// Index of `k` in the key vector, if present.
    fn find(&self, k: Vec2i) -> (r: Option<usize>)
        requires
            self.wf(),
        ensures
            match r {
                Some(i) => i < self.keys@.len() && self.keys@[i as int] == k,
                None => !self.has(k),
            },
    {
        let mut i: usize = 0;
        while i < self.keys.len()
            invariant
                i <= self.keys@.len(),
                forall|j: int| 0 <= j < i ==> self.keys@[j] != k,
            decreases self.keys@.len() - i,
        {
            let ki = self.keys[i];
            if ki == k {
                return Some(i);
            }
            i = i + 1;
        }
        None
    }

    /// The value under `k`, or `None` when absent.
    pub fn get(&self, k: Vec2i) -> (r: Option<V>)
        requires
            self.wf(),
        ensures
            r is Some <==> self.has(k),
            self.has(k) ==> r == Some(self.val_of(k)),
    {
        match self.find(k) {
            Some(i) => {
                proof {
                    self.lemma_at(i as int);
                }
                Some(self.vals[i])
            },
            None => None,
        }
    }

    /// Stores `v` under `k`, replacing any previous value.
    pub fn insert(&mut self, k: Vec2i, v: V)
        requires
            old(self).wf(),
        ensures
            final(self).wf(),
            final(self).has(k),
            final(self).val_of(k) == v,
            forall|k2: Vec2i| k2 != k ==> final(self).has(k2) == old(self).has(k2),
            forall|k2: Vec2i|
                k2 != k && old(self).has(k2) ==> final(self).val_of(k2) == old(self).val_of(k2),
            old(self).spec_len() <= final(self).spec_len() <= old(self).spec_len() + 1,
    {
        match self.find(k) {
            Some(i) => {
                self.vals.set(i, v);
                proof {
                    self.lemma_at(i as int);
                    assert forall|k2: Vec2i| k2 != k && old(self).has(k2) implies self.val_of(k2)
                        == old(self).val_of(k2) by {
                        let j = choose|j: int|
                            0 <= j < old(self).keys@.len() && old(self).keys@[j] == k2;
                        old(self).lemma_at(j);
                        self.lemma_at(j);
                    }
                }
            },
            None => {
                self.keys.push(k);
                self.vals.push(v);
                proof {
                    let n = old(self).keys@.len() as int;
                    assert(self.keys@[n] == k);
                    assert forall|i: int, j: int|
                        0 <= i < j < self.keys@.len() implies self.keys@[i] != self.keys@[j] by {
                        if j < n {
                        } else {
                            assert(self.keys@[i] == old(self).keys@[i]);
                        }
                    }
                    self.lemma_at(n);
                    assert forall|k2: Vec2i| k2 != k implies self.has(k2) == old(self).has(
                        k2,
                    ) by {
                        if self.has(k2) {
                            let j = choose|j: int|
                                0 <= j < self.keys@.len() && self.keys@[j] == k2;
                            assert(j < n);
                            assert(old(self).keys@[j] == k2);
                        }
                        if old(self).has(k2) {
                            let j = choose|j: int|
                                0 <= j < old(self).keys@.len() && old(self).keys@[j] == k2;
                            assert(self.keys@[j] == k2);
                        }
                    }
                    assert forall|k2: Vec2i| k2 != k && old(self).has(k2) implies self.val_of(k2)
                        == old(self).val_of(k2) by {
                        let j = choose|j: int|
                            0 <= j < old(self).keys@.len() && old(self).keys@[j] == k2;
                        old(self).lemma_at(j);
                        self.lemma_at(j);
                    }
                }
            },
        }
    }
}

/// The eight probe directions of the search, compass and diagonal.
#[derive(Clone, Copy, Debug, PartialEq, Eq, Structural)]
pub enum ProbeDirection {
    Right,
    UpRight,
    Up,
    UpLeft,
    Left,
    DownLeft,
    Down,
    DownRight,
}

impl ProbeDirection {
    /// The unit lattice offset of this direction.
    pub open spec fn spec_offset(self) -> (int, int) {
        match self {
            ProbeDirection::Right => (1, 0),
            ProbeDirection::UpRight => (1, 1),
            ProbeDirection::Up => (0, 1),
            ProbeDirection::UpLeft => (-1, 1),
            ProbeDirection::Left => (-1, 0),
            ProbeDirection::DownLeft => (-1, -1),
            ProbeDirection::Down => (0, -1),
            ProbeDirection::DownRight => (1, -1),
        }
    }

    pub fn offset(self) -> (r: (i64, i64))
        ensures
            (r.0 as int, r.1 as int) == self.spec_offset(),
            -1 <= r.0 <= 1,
            -1 <= r.1 <= 1,
    {
        match self {
            ProbeDirection::Right => (1, 0),
            ProbeDirection::UpRight => (1, 1),
            ProbeDirection::Up => (0, 1),
            ProbeDirection::UpLeft => (-1, 1),
            ProbeDirection::Left => (-1, 0),
            ProbeDirection::DownLeft => (-1, -1),
            ProbeDirection::Down => (0, -1),
            ProbeDirection::DownRight => (1, -1),
        }
    }

    /// All eight directions, in probe order.
    pub fn iter() -> (r: Vec<ProbeDirection>)
        ensures
            r@.len() == 8,
    {
        let mut v: Vec<ProbeDirection> = Vec::new();
        v.push(ProbeDirection::Right);
        v.push(ProbeDirection::UpRight);
        v.push(ProbeDirection::Up);
        v.push(ProbeDirection::UpLeft);
        v.push(ProbeDirection::Left);
        v.push(ProbeDirection::DownLeft);
        v.push(ProbeDirection::Down);
        v.push(ProbeDirection::DownRight);
        v
    }
}

/// The position one probe step from `root` in direction `d`.
pub open spec fn probe_target(root: Vec2i, d: ProbeDirection, step: int) -> Vec2i {
    Vec2i {
        x: (root.x + d.spec_offset().0 * step) as i64,
        y: (root.y + d.spec_offset().1 * step) as i64,
    }
}

/// The any-angle search: a best-first expansion over continuous positions
/// probed at a fixed step size, with every edge validated by line of sight
/// and a direct shortcut to the goal checked before each expansion.
pub struct AStarStrategy {
    /// World units between a node and its probed successors.
    pub step_size: i64,
    /// Hard ceiling on node expansions, bounding the search's work.
    pub max_expansions: usize,
}

impl AStarStrategy {
    pub open spec fn wf(self) -> bool {
        &&& 1 <= self.step_size <= 1_000_000
        &&& 1 <= self.max_expansions <= 1_000_000
    }

    pub fn new() -> (r: AStarStrategy)
        ensures
            r.wf(),
            r.step_size == 20,
            r.max_expansions == 100_000,
    {
        AStarStrategy { step_size: 20, max_expansions: 100_000 }
    }

    /// Euclidean distance, the admissible estimate used for `h`.
    pub fn heuristic(a: Vec2i, b: Vec2i) -> (r: u64)
        requires
            a.in_range(),
            b.in_range(),
        ensures
            r == dist_spec(a, b),
            r <= 3_000_000_000,
    {
        dist_approx(a, b)
    }

    /// The successor of `root` one probe step in `direction`: present
    /// exactly when it stays in the coordinate range and the straight
    /// segment to it is unobstructed.
    pub fn get_new_pos(&self, grid: &Grid, root: Vec2i, direction: ProbeDirection) -> (r: Option<
        Vec2i,
    >)
        requires
            self.wf(),
            grid.wf(),
            root.in_range(),
        ensures
            ({
                let t = probe_target(root, direction, self.step_size as int);
                if t.in_range() && sees(*grid, root, t) {
                    r == Some(t)
                } else {
                    r is None
                }
            }),
    {
        let off = direction.offset();
        proof {
            assert(-1_000_000 <= off.0 * self.step_size <= 1_000_000 && -1_000_000 <= off.1
                * self.step_size <= 1_000_000) by (nonlinear_arith)
                requires
                    -1 <= off.0 <= 1 && -1 <= off.1 <= 1 && 0 < self.step_size <= 1_000_000,
            ;
        }
        let np = Vec2i { x: root.x + off.0 * self.step_size, y: root.y + off.1 * self.step_size };
        if !np.bounded() {
            return None;
        }
        if has_sight(grid, root, np) {
            Some(np)
        } else {
            None
        }
    }

    /// Searches for a path from `start` to `goal`.
    ///
    /// Absent endpoints yield `None`. When the goal is directly visible
    /// from the start the result is the direct path. Any returned path is
    /// valid: it runs from start to goal and every consecutive segment has
    /// line of sight. `None` after a search means the frontier was
    /// exhausted or the expansion budget ran out.
    pub fn path_finding(&self, grid: &Grid, start: Option<Vec2i>, goal: Option<Vec2i>) -> (r:
        Option<Vec<Vec2i>>)
        requires
            self.wf(),
            grid.wf(),
            start matches Some(s) ==> s.in_range(),
            goal matches Some(gl) ==> gl.in_range(),
        ensures
            start is None || goal is None ==> r is None,
            r matches Some(p) ==> start matches Some(s) && goal matches Some(gl) && valid_path(
                *grid,
                p@,
                s,
                gl,
            ),
            start matches Some(s) ==> goal matches Some(gl) ==> sees(*grid, s, gl) ==> (r
                matches Some(p) && p@ == if s == gl {
                seq![s]
            } else {
                seq![s, gl]
            }),
    {
        let s = match start {
            Some(v) => v,
            None => {
                return None;
            },
        };
        let gl = match goal {
            Some(v) => v,
            None => {
                return None;
            },
        };

        if has_sight(grid, s, gl) {
            let mut p: Vec<Vec2i> = Vec::new();
            p.push(s);
            if !(s.x == gl.x && s.y == gl.y) {
                p.push(gl);
                proof {
                    assert(p@ == seq![s, gl]);
                }
            } else {
                proof {
                    assert(p@ == seq![s]);
                }
            }
            return Some(p);
        }

        let mut queue: Vec<Node> = Vec::new();
        let mut g_costs: PosMap<u64> = PosMap::new();
        let mut preds: PosMap<Vec2i> = PosMap::new();

        let h0 = Self::heuristic(s, gl);
        queue.push(Node { pos: s, pre: None, g: 0, h: h0 });
        g_costs.insert(s, 0);

        let mut goal_node: Option<Node> = None;
        let mut expansions: usize = 0;

        while expansions < self.max_expansions
            invariant_except_break
                self.wf(),
                grid.wf(),
                s.in_range(),
                gl.in_range(),
                !sees(*grid, s, gl),
                g_costs.wf(),
                preds.wf(),
                expansions <= self.max_expansions,
                forall|k: Vec2i|
                    #[trigger] preds.has(k) ==> k.in_range() && preds.val_of(k).in_range() && sees(
                        *grid,
                        preds.val_of(k),
                        k,
                    ),
                forall|i: int|
                    0 <= i < queue@.len() ==> (#[trigger] queue@[i]).pos.in_range() && queue@[i].g
                        <= (expansions as int + 1) * 4_000_000_000 && queue@[i].h <= 3_000_000_000,
                goal_node is None,
            ensures
                grid.wf(),
                s.in_range(),
                gl.in_range(),
                !sees(*grid, s, gl),
                g_costs.wf(),
                preds.wf(),
                forall|k: Vec2i|
                    #[trigger] preds.has(k) ==> k.in_range() && preds.val_of(k).in_range() && sees(
                        *grid,
                        preds.val_of(k),
                        k,
                    ),
                goal_node matches Some(gn) ==> gn.pos == gl,
            decreases self.max_expansions - expansions,
        {
            proof {
                assert forall|i: int| 0 <= i < queue@.len() implies (#[trigger] queue@[i]).g
                    + queue@[i].h <= 0xffff_ffff_ffff_ffff by {
                    assert(queue@[i].g <= (expansions as int + 1) * 4_000_000_000);
                }
            }
            let ghost old_queue = queue@;
            let cur = match pop_best(&mut queue) {
                Some(n) => n,
                None => {
                    break ;
                },
            };
            proof {
                let qi = choose|i: int|
                    0 <= i < old_queue.len() && cur == old_queue[i] && queue@ == old_queue.remove(
                        i,
                    );
                assert(cur == old_queue[qi]);
                assert forall|j: int| 0 <= j < queue@.len() implies (#[trigger] queue@[j]).pos.in_range()
                    && queue@[j].g <= (expansions as int + 2) * 4_000_000_000 && queue@[j].h
                    <= 3_000_000_000 by {
                    if j < qi {
                        assert(queue@[j] == old_queue[j]);
                    } else {
                        assert(queue@[j] == old_queue[j + 1]);
                    }
                }
            }
            expansions = expansions + 1;
            let stale = match g_costs.get(cur.pos) {
                Some(bg) => cur.g > bg,
                None => false,
            };
            if !stale {
                if has_sight(grid, cur.pos, gl) {
                    let d = dist_approx(cur.pos, gl);
                    preds.insert(gl, cur.pos);
                    goal_node = Some(Node { pos: gl, pre: Some(cur.pos), g: cur.g + d, h: 0 });
                    break ;
                }
                let dirs = ProbeDirection::iter();
                let mut di: usize = 0;
                while di < dirs.len()
                    invariant
                        self.wf(),
                        grid.wf(),
                        s.in_range(),
                        gl.in_range(),
                        cur.pos.in_range(),
                        expansions <= self.max_expansions,
                        cur.g <= (expansions as int) * 4_000_000_000,
                        g_costs.wf(),
                        preds.wf(),
                        di <= dirs@.len(),
                        forall|k: Vec2i|
                            #[trigger] preds.has(k) ==> k.in_range() && preds.val_of(
                                k,
                            ).in_range() && sees(*grid, preds.val_of(k), k),
                        forall|i: int|
                            0 <= i < queue@.len() ==> (#[trigger] queue@[i]).pos.in_range()
                                && queue@[i].g <= (expansions as int + 1) * 4_000_000_000
                                && queue@[i].h <= 3_000_000_000,
                    decreases dirs@.len() - di,
                {
                    match self.get_new_pos(grid, cur.pos, dirs[di]) {
                        Some(npos) => {
                            let nd = dist_approx(cur.pos, npos);
                            let ng = cur.g + nd;
                            let should = match g_costs.get(npos) {
                                None => true,
                                Some(eg) => ng < eg,
                            };
                            if should {
                                let nh = Self::heuristic(npos, gl);
                                queue.push(Node { pos: npos, pre: Some(cur.pos), g: ng, h: nh });
                                g_costs.insert(npos, ng);
                                preds.insert(npos, cur.pos);
                            }
                        },
                        None => {},
                    }
                    di = di + 1;
                }
            }
        }

        let gn = match goal_node {
            Some(n) => n,
            None => {
                return None;
            },
        };

        let mut path: Vec<Vec2i> = Vec::new();
        let mut current: Vec2i = gn.pos;
        path.push(current);
        let mut fuel: usize = 0;
        let cap: usize = self.max_expansions + 2;
        while (current.x != s.x || current.y != s.y) && fuel < cap
            invariant
                grid.wf(),
                start == Some(s),
                goal == Some(gl),
                s.in_range(),
                gl.in_range(),
                !sees(*grid, s, gl),
                preds.wf(),
                forall|k: Vec2i|
                    #[trigger] preds.has(k) ==> k.in_range() && preds.val_of(k).in_range() && sees(
                        *grid,
                        preds.val_of(k),
                        k,
                    ),
                path@.len() >= 1,
                path@[0] == gl,
                path@[path@.len() - 1] == current,
                current.in_range(),
                forall|i: int| 0 <= i < path@.len() ==> (#[trigger] path@[i]).in_range(),
                forall|i: int|
                    0 <= i < path@.len() - 1 ==> sees(*grid, path@[i + 1], #[trigger] path@[i]),
                fuel <= cap,
            decreases cap - fuel,
        {
            match preds.get(current) {
                Some(prev) => {
                    path.push(prev);
                    current = prev;
                },
                None => {
                    return None;
                },
            }
            fuel = fuel + 1;
        }
        if current.x != s.x || current.y != s.y {
            return None;
        }

        let mut rev: Vec<Vec2i> = Vec::new();
        let mut ri: usize = path.len();
        while ri > 0
            invariant
                ri <= path@.len(),
                rev@.len() == path@.len() - ri,
                forall|j: int| 0 <= j < rev@.len() ==> rev@[j] == path@[path@.len() - 1 - j],
            decreases ri,
        {
            ri = ri - 1;
            rev.push(path[ri]);
        }
        proof {
            assert(rev@.len() == path@.len());
            assert(rev@[0] == path@[path@.len() - 1]);
            assert(rev@[rev@.len() - 1] == path@[0]);
            assert forall|i: int| 0 <= i < rev@.len() - 1 implies sees(
                *grid,
                rev@[i],
                #[trigger] rev@[i + 1],
            ) by {
                let n = path@.len();
                assert(rev@[i] == path@[n - 1 - i]);
                assert(rev@[i + 1] == path@[n - 1 - (i + 1)]);
                assert(sees(*grid, path@[(n - 2 - i) + 1], path@[n - 2 - i]));
            }
            assert(valid_path(*grid, rev@, s, gl));
        }
        Some(rev)
    }
}

} // verus!
