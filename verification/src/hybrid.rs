//! The ant-colony optimizer with session memory.
//!
//! The world is discretized into an 8-connected lattice of integer nodes at
//! the grid's `pixel_size` resolution. Repeated ant traversals choose
//! lattice steps stochastically, weighted by pheromone and by closeness to
//! the goal; pheromones evaporate and are reinforced after each step. The
//! session keeps a global pheromone field and the best validated path
//! across calls, invalidated when the endpoints change or a wall cuts the
//! cached corridor.
//!
//! All weights are fixed-point integers: pheromones and desirability are
//! scaled by a million, probabilities are per-mille.

use vstd::prelude::*;

use crate::geom::{
    dist_approx, dist_spec, lemma_round_frac_bounds, round_frac, round_frac_spec, Vec2i,
};
use crate::grid::Grid;
use crate::sight::{has_sight, sees};

verus! {

/// An integer lattice coordinate, distinct from world coordinates.
#[derive(Clone, Copy, Debug, Hash, PartialEq, Eq, Structural)]
pub struct Node {
    pub x: i64,
    pub y: i64,
}

/// A directed lattice edge.
#[derive(Clone, Copy, Debug, Hash, PartialEq, Eq, Structural)]
pub struct Line {
    pub from: Node,
    pub to: Node,
}

impl Node {
    pub fn new(x: i64, y: i64) -> (r: Node)
        ensures
            r == (Node { x, y }),
    {
        Node { x, y }
    }
}

impl Line {
    pub fn new(from: Node, to: Node) -> (r: Line)
        ensures
            r == (Line { from, to }),
    {
        Line { from, to }
    }
}

/// `b` is one of the eight lattice neighbors of `a`.
pub open spec fn is_neighbor(a: Node, b: Node) -> bool {
    &&& -1 <= b.x - a.x <= 1
    &&& -1 <= b.y - a.y <= 1
    &&& !(b.x == a.x && b.y == a.y)
}

/// The node's world coordinates stay clear of the coordinate limit, so
/// the node and all its lattice neighbors can be mapped to world space.
pub open spec fn node_ok(g: Grid, n: Node) -> bool {
    &&& -900_000_000 <= n.x * g.spec_pixel_size() <= 900_000_000
    &&& -900_000_000 <= n.y * g.spec_pixel_size() <= 900_000_000
}

/// The world position at the center of a lattice node.
pub open spec fn node_world_spec(g: Grid, n: Node) -> Vec2i {
    Vec2i {
        x: (n.x * g.spec_pixel_size() + g.spec_pixel_size() / 2) as i64,
        y: (n.y * g.spec_pixel_size() + g.spec_pixel_size() / 2) as i64,
    }
}

/// The lattice node of a world position: `round((w - pixel/2) / pixel)`
/// per axis, with halves rounded away from zero.
pub open spec fn node_of_spec(g: Grid, w: Vec2i) -> Node {
    Node {
        x: round_frac_spec(2 * w.x - g.spec_pixel_size(), 2 * g.spec_pixel_size()) as i64,
        y: round_frac_spec(2 * w.y - g.spec_pixel_size(), 2 * g.spec_pixel_size()) as i64,
    }
}

/// The node's world position is computable in 64-bit coordinates.
pub open spec fn node_mappable(g: Grid, n: Node) -> bool {
    &&& -1_000_000_000 <= n.x * g.spec_pixel_size() + g.spec_pixel_size() / 2 <= 1_000_000_000
    &&& -1_000_000_000 <= n.y * g.spec_pixel_size() + g.spec_pixel_size() / 2 <= 1_000_000_000
}

/// Start and goal positions must sit inside the supported world region,
/// which keeps every reachable lattice node mappable.
pub open spec fn pos_in_region(v: Vec2i) -> bool {
    -400_000_000 <= v.x <= 400_000_000 && -400_000_000 <= v.y <= 400_000_000
}

/// An in-region world position maps to a node that is `node_ok`.
pub proof fn lemma_node_of_region(g: Grid, w: Vec2i)
    requires
        g.wf(),
        pos_in_region(w),
    ensures
        node_ok(g, node_of_spec(g, w)),
    {
    crate::grid::lemma_wf_bounds(g);
    let p = g.spec_pixel_size();
    lemma_round_frac_bounds(2 * w.x - p, 2 * p);
    lemma_round_frac_bounds(2 * w.y - p, 2 * p);
    let qx = round_frac_spec(2 * w.x - p, 2 * p);
    let qy = round_frac_spec(2 * w.y - p, 2 * p);
    assert(-900_000_000 <= qx * p <= 900_000_000 && -900_000_000 <= qy * p <= 900_000_000)
        by (nonlinear_arith)
        requires
            2 * w.x - p - 2 * p <= qx * (2 * p) <= 2 * w.x - p + 2 * p && 2 * w.y - p - 2 * p <= qy
                * (2 * p) <= 2 * w.y - p + 2 * p && 0 < p <= 100_000 && -400_000_000 <= w.x
                <= 400_000_000 && -400_000_000 <= w.y <= 400_000_000,
    ;
    assert(-900_000_000 <= qx <= 900_000_000 && -900_000_000 <= qy <= 900_000_000)
        by (nonlinear_arith)
        requires
            -900_000_000 <= qx * p <= 900_000_000 && -900_000_000 <= qy * p <= 900_000_000 && 1
                <= p,
    ;
}

/// The world position of an `ok` node, and of each of its neighbors, is
/// within the coordinate range.
pub proof fn lemma_node_world_range(g: Grid, n: Node, m: Node)
    requires
        g.wf(),
        node_ok(g, n),
        m == n || is_neighbor(n, m),
    ensures
        node_mappable(g, m),
        node_world_spec(g, m).in_range(),
{
    crate::grid::lemma_wf_bounds(g);
    let p = g.spec_pixel_size();
    assert(-1_000_000_000 <= m.x * p + p / 2 <= 1_000_000_000 && -1_000_000_000 <= m.y * p + p / 2
        <= 1_000_000_000) by (nonlinear_arith)
        requires
            -900_000_000 <= n.x * p <= 900_000_000 && -900_000_000 <= n.y * p <= 900_000_000 && 0
                < p <= 100_000 && -1 <= m.x - n.x <= 1 && -1 <= m.y - n.y <= 1,
    ;
}

/// Maps a world position to its lattice node; `None` when the node would
/// leave the mappable range (cannot happen for in-region positions).
pub fn world_to_node_pos(g: &Grid, w: Vec2i) -> (r: Option<Node>)
    requires
        g.wf(),
        w.in_range(),
    ensures
        r matches Some(n) ==> n == node_of_spec(*g, w) && node_ok(*g, n),
        pos_in_region(w) ==> r == Some(node_of_spec(*g, w)),
{
    proof {
        crate::grid::lemma_wf_bounds(*g);
    }
    let p: i64 = g.pixel_size();
    let nx = round_frac(2 * w.x - p, 2 * p);
    let ny = round_frac(2 * w.y - p, 2 * p);
    let n = Node { x: nx, y: ny };
    proof {
        if pos_in_region(w) {
            lemma_node_of_region(*g, w);
        }
    }
    if node_ok_exec(g, n) {
        Some(n)
    } else {
        None
    }
}

/// Whether a node (and hence each of its neighbors) can be mapped to
/// world space.
pub fn node_ok_exec(g: &Grid, n: Node) -> (r: bool)
    requires
        g.wf(),
    ensures
        r == node_ok(*g, n),
{
    proof {
        crate::grid::lemma_wf_bounds(*g);
        assert(-1_000_000_000_000_000_000_000_000 <= (n.x as i128) * (g.spec_pixel_size() as i128)
            <= 1_000_000_000_000_000_000_000_000 && -1_000_000_000_000_000_000_000_000 <= (
        n.y as i128) * (g.spec_pixel_size() as i128) <= 1_000_000_000_000_000_000_000_000)
            by (nonlinear_arith)
            requires
                -9_223_372_036_854_775_808 <= n.x as i128 <= 9_223_372_036_854_775_807
                    && -9_223_372_036_854_775_808 <= n.y as i128 <= 9_223_372_036_854_775_807 && 0
                    < g.spec_pixel_size() as i128 <= 100_000,
        ;
    }
    let p: i128 = g.pixel_size() as i128;
    let px: i128 = (n.x as i128) * p;
    let py: i128 = (n.y as i128) * p;
    -900_000_000 <= px && px <= 900_000_000 && -900_000_000 <= py && py <= 900_000_000
}

/// The world position at the center of a lattice node.
pub fn node_to_world_pos(g: &Grid, n: Node) -> (r: Vec2i)
    requires
        g.wf(),
        node_mappable(*g, n),
    ensures
        r == node_world_spec(*g, n),
        r.in_range(),
{
    proof {
        crate::grid::lemma_wf_bounds(*g);
    }
    let p: i128 = g.pixel_size() as i128;
    proof {
        assert((n.x as i128) * p == n.x * g.spec_pixel_size() && (n.y as i128) * p == n.y
            * g.spec_pixel_size());
    }
    let wx: i128 = (n.x as i128) * p + p / 2;
    let wy: i128 = (n.y as i128) * p + p / 2;
    Vec2i { x: wx as i64, y: wy as i64 }
}

/// A pheromone field: an association map from directed lattice edges to
/// fixed-point weights, with unique keys.
pub struct EdgeMap {
    keys: Vec<Line>,
    vals: Vec<u64>,
}

impl EdgeMap {
    pub closed spec fn wf(self) -> bool {
        &&& self.keys.len() == self.vals.len()
        &&& forall|i: int, j: int| 0 <= i < j < self.keys@.len() ==> self.keys@[i] != self.keys@[j]
    }

    pub closed spec fn has(self, k: Line) -> bool {
        exists|i: int| 0 <= i < self.keys@.len() && self.keys@[i] == k
    }

    pub closed spec fn val_of(self, k: Line) -> u64 {
        self.vals@[choose|i: int| 0 <= i < self.keys@.len() && self.keys@[i] == k]
    }

    /// Every stored weight is at most `bound`.
    pub open spec fn capped(self, bound: int) -> bool {
        forall|k: Line| #[trigger] self.has(k) ==> self.val_of(k) <= bound
    }

    proof fn lemma_at(self, i: int)
        requires
            self.wf(),
            0 <= i < self.keys@.len(),
        ensures
            self.has(self.keys@[i]),
            self.val_of(self.keys@[i]) == self.vals@[i],
    {
        let k = self.keys@[i];
        assert(self.has(k));
        let j = choose|j: int| 0 <= j < self.keys@.len() && self.keys@[j] == k;
        if i < j {
            assert(self.keys@[i] != self.keys@[j]);
        } else if j < i {
            assert(self.keys@[j] != self.keys@[i]);
        }
    }

    pub fn new() -> (r: Self)
        ensures
            r.wf(),
            forall|k: Line| !r.has(k),
    {
        EdgeMap { keys: Vec::new(), vals: Vec::new() }
    }

    /// An exact copy.
    pub fn duplicate(&self) -> (r: Self)
        requires
            self.wf(),
        ensures
            r.wf(),
            forall|k: Line| r.has(k) == self.has(k),
            forall|k: Line| #[trigger] self.has(k) ==> r.val_of(k) == self.val_of(k),
    {
        let mut keys: Vec<Line> = Vec::new();
        let mut vals: Vec<u64> = Vec::new();
        let mut i: usize = 0;
        while i < self.keys.len()
            invariant
                i <= self.keys@.len(),
                keys@ == self.keys@.subrange(0, i as int),
                vals@ == self.vals@.subrange(0, i as int),
                self.keys@.len() == self.vals@.len(),
            decreases self.keys@.len() - i,
        {
            keys.push(self.keys[i]);
            vals.push(self.vals[i]);
            i = i + 1;
        }
        let r = EdgeMap { keys, vals };
        proof {
            assert(r.keys@ =~= self.keys@);
            assert(r.vals@ =~= self.vals@);
            assert forall|k: Line| r.has(k) == self.has(k) by {
                if r.has(k) {
                    let j = choose|j: int| 0 <= j < r.keys@.len() && r.keys@[j] == k;
                    assert(self.keys@[j] == k);
                }
                if self.has(k) {
                    let j = choose|j: int| 0 <= j < self.keys@.len() && self.keys@[j] == k;
                    assert(r.keys@[j] == k);
                }
            }
            assert forall|k: Line| #[trigger] self.has(k) implies r.val_of(k) == self.val_of(
                k,
            ) by {
                let j = choose|j: int| 0 <= j < self.keys@.len() && self.keys@[j] == k;
                self.lemma_at(j);
                r.lemma_at(j);
            }
        }
        r
    }

    fn find(&self, k: Line) -> (r: Option<usize>)
        requires
            self.wf(),
        ensures
            match r {
                Some(i) => i < self.keys@.len() && self.keys@[i as int] == k,
                None => !self.has(k),
            },
    {
        let mut i: usize = 0;
        while i < self.keys.len()
            invariant
                i <= self.keys@.len(),
                forall|j: int| 0 <= j < i ==> self.keys@[j] != k,
            decreases self.keys@.len() - i,
        {
            let ki = self.keys[i];
            if ki == k {
                return Some(i);
            }
            i = i + 1;
        }
        None
    }

    pub fn get(&self, k: Line) -> (r: Option<u64>)
        requires
            self.wf(),
        ensures
            r is Some <==> self.has(k),
            self.has(k) ==> r == Some(self.val_of(k)),
    {
        match self.find(k) {
            Some(i) => {
                proof {
                    self.lemma_at(i as int);
                }
                Some(self.vals[i])
            },
            None => None,
        }
    }

    pub fn insert(&mut self, k: Line, v: u64)
        requires
            old(self).wf(),
        ensures
            final(self).wf(),
            final(self).has(k),
            final(self).val_of(k) == v,
            forall|k2: Line| k2 != k ==> final(self).has(k2) == old(self).has(k2),
            forall|k2: Line|
                k2 != k && old(self).has(k2) ==> final(self).val_of(k2) == old(self).val_of(k2),
    {
        match self.find(k) {
            Some(i) => {
                self.vals.set(i, v);
                proof {
                    self.lemma_at(i as int);
                    assert forall|k2: Line| k2 != k && old(self).has(k2) implies self.val_of(k2)
                        == old(self).val_of(k2) by {
                        let j = choose|j: int|
                            0 <= j < old(self).keys@.len() && old(self).keys@[j] == k2;
                        old(self).lemma_at(j);
                        self.lemma_at(j);
                    }
                }
            },
            None => {
                self.keys.push(k);
                self.vals.push(v);
                proof {
                    let n = old(self).keys@.len() as int;
                    assert(self.keys@[n] == k);
                    assert forall|i: int, j: int|
                        0 <= i < j < self.keys@.len() implies self.keys@[i] != self.keys@[j] by {
                        if j < n {
                        } else {
                            assert(self.keys@[i] == old(self).keys@[i]);
                        }
                    }
                    self.lemma_at(n);
                    assert forall|k2: Line| k2 != k implies self.has(k2) == old(self).has(k2) by {
                        if self.has(k2) {
                            let j = choose|j: int|
                                0 <= j < self.keys@.len() && self.keys@[j] == k2;
                            assert(j < n);
                            assert(old(self).keys@[j] == k2);
                        }
                        if old(self).has(k2) {
                            let j = choose|j: int|
                                0 <= j < old(self).keys@.len() && old(self).keys@[j] == k2;
                            assert(self.keys@[j] == k2);
                        }
                    }
                    assert forall|k2: Line| k2 != k && old(self).has(k2) implies self.val_of(k2)
                        == old(self).val_of(k2) by {
                        let j = choose|j: int|
                            0 <= j < old(self).keys@.len() && old(self).keys@[j] == k2;
                        old(self).lemma_at(j);
                        self.lemma_at(j);
                    }
                }
            },
        }
    }
}

/// A tabu set: the lattice nodes an ant has already visited.
pub struct NodeSet {
    items: Vec<Node>,
}

impl NodeSet {
    pub closed spec fn has(self, n: Node) -> bool {
        exists|i: int| 0 <= i < self.items@.len() && self.items@[i] == n
    }

    pub fn new() -> (r: Self)
        ensures
            forall|n: Node| !r.has(n),
    {
        NodeSet { items: Vec::new() }
    }

    pub fn contains(&self, n: Node) -> (r: bool)
        ensures
            r == self.has(n),
    {
        let mut i: usize = 0;
        while i < self.items.len()
            invariant
                i <= self.items@.len(),
                forall|j: int| 0 <= j < i ==> self.items@[j] != n,
            decreases self.items@.len() - i,
        {
            let it = self.items[i];
            if it == n {
                return true;
            }
            i = i + 1;
        }
        false
    }

    pub fn insert(&mut self, n: Node)
        ensures
            final(self).has(n),
            forall|m: Node| #[trigger] final(self).has(m) == (old(self).has(m) || m == n),
    {
        self.items.push(n);
        proof {
            let l = old(self).items@.len() as int;
            assert(self.items@[l] == n);
            assert forall|m: Node| #[trigger] self.has(m) == (old(self).has(m) || m == n) by {
                if self.has(m) {
                    let j = choose|j: int| 0 <= j < self.items@.len() && self.items@[j] == m;
                    if j < l {
                        assert(old(self).items@[j] == m);
                    }
                }
                if old(self).has(m) {
                    let j = choose|j: int|
                        0 <= j < old(self).items@.len() && old(self).items@[j] == m;
                    assert(self.items@[j] == m);
                }
            }
        }
    }
}

/// Sum of a sequence of weights.
pub open spec fn sum_spec(s: Seq<u128>) -> int
    decreases s.len(),
{
    if s.len() == 0 {
        0
    } else {
        sum_spec(s.drop_last()) + s.last()
    }
}

/// Relies on rand's `RngExt::random_range` over `0..n`: a uniform draw
/// below `n`; panics only on an empty range, which `n > 0` excludes.
#[verifier::external_body]
fn random_below(n: u128) -> (r: u128)
    requires
        n > 0,
    ensures
        r < n,
{
    rand::RngExt::random_range(&mut rand::rng(), 0..n)
}

/// Draws an index with probability proportional to its weight: a uniform
/// value over the total weight, then a walk of the cumulative
/// distribution. The chosen index always carries positive weight.
fn roll(weights: &Vec<u128>) -> (r: usize)
    requires
        1 <= weights@.len() <= 16,
        forall|i: int|
            0 <= i < weights@.len() ==> #[trigger] weights@[i]
                <= 100_000_000_000_000_000_000_000_000_000_000,
        sum_spec(weights@) > 0,
    ensures
        r < weights@.len(),
        weights@[r as int] > 0,
{
    let mut total: u128 = 0;
    let mut i: usize = 0;
    while i < weights.len()
        invariant
            i <= weights@.len() <= 16,
            forall|j: int|
                0 <= j < weights@.len() ==> #[trigger] weights@[j]
                    <= 100_000_000_000_000_000_000_000_000_000_000,
            total == sum_spec(weights@.subrange(0, i as int)),
            total <= i * 100_000_000_000_000_000_000_000_000_000_000,
        decreases weights@.len() - i,
    {
        proof {
            assert(weights@.subrange(0, i + 1).drop_last() == weights@.subrange(0, i as int));
        }
        total = total + weights[i];
        i = i + 1;
    }
    proof {
        assert(weights@.subrange(0, weights@.len() as int) == weights@);
    }
    let t = random_below(total);
    let mut acc: u128 = 0;
    let mut k: usize = 0;
    while k < weights.len()
        invariant
            k <= weights@.len() <= 16,
            forall|j: int|
                0 <= j < weights@.len() ==> #[trigger] weights@[j]
                    <= 100_000_000_000_000_000_000_000_000_000_000,
            acc == sum_spec(weights@.subrange(0, k as int)),
            acc <= k * 100_000_000_000_000_000_000_000_000_000_000,
            t >= acc,
            total == sum_spec(weights@),
            t < total,
        decreases weights@.len() - k,
    {
        proof {
            assert(weights@.subrange(0, k + 1).drop_last() == weights@.subrange(0, k as int));
        }
        let nacc = acc + weights[k];
        if t < nacc {
            return k;
        }
        acc = nacc;
        k = k + 1;
    }
    proof {
        assert(weights@.subrange(0, weights@.len() as int) == weights@);
        assert(false);
    }
    0
}

/// One pheromone reinforcement: the old weight evaporated by `rho`
/// per-mille plus a deposit proportional to `(q + 1) / (len + 1)`,
/// saturated at the weight cap.
pub open spec fn pher_update_spec(old_v: int, rho: int, q: int, len: int) -> int {
    let dep = ((q + 1) * 1_000_000) / (len + 1);
    let v = ((1000 - rho) * old_v) / 1000 + (rho * dep) / 1000;
    if v <= 2_000_000_000_000 {
        v
    } else {
        2_000_000_000_000
    }
}

/// Applies one pheromone reinforcement in fixed-point arithmetic.
fn pheromone_update(old_v: u64, rho: u64, q: u64, len: u64) -> (r: u64)
    requires
        rho <= 1000,
        old_v <= 2_000_000_000_000,
        q <= 1_000_000,
    ensures
        r == pher_update_spec(old_v as int, rho as int, q as int, len as int),
        r <= 2_000_000_000_000,
{
    let dep: u128 = (((q as u128) + 1) * 1_000_000) / ((len as u128) + 1);
    proof {
        assert(dep == (((q as int) + 1) * 1_000_000) / ((len as int) + 1));
        assert(dep <= 1_100_000_000_000) by (nonlinear_arith)
            requires
                dep == (((q as int) + 1) * 1_000_000) / ((len as int) + 1) && 0 <= q
                    <= 1_000_000 && len >= 0,
        ;
        assert(0 <= ((1000 - rho) as int) * (old_v as int) <= 2_000_000_000_000_000)
            by (nonlinear_arith)
            requires
                rho <= 1000 && old_v <= 2_000_000_000_000,
        ;
    }
    let ev: u128 = (((1000 - rho) as u128) * (old_v as u128)) / 1000;
    proof {
        assert(0 <= (rho as int) * (dep as int) <= 1_100_000_000_000_000_000) by (nonlinear_arith)
            requires
                rho <= 1000 && dep <= 1_100_000_000_000,
        ;
    }
    let re: u128 = ((rho as u128) * dep) / 1000;
    let v: u128 = ev + re;
    proof {
        assert(ev == ((1000 - rho as int) * (old_v as int)) / 1000);
        assert(re == ((rho as int) * (dep as int)) / 1000);
    }
    if v <= 2_000_000_000_000 {
        v as u64
    } else {
        2_000_000_000_000
    }
}

/// A sequence of positive weights sums to at least its length.
proof fn lemma_sum_pos(s: Seq<u128>)
    requires
        forall|i: int| 0 <= i < s.len() ==> #[trigger] s[i] >= 1,
    ensures
        sum_spec(s) >= s.len(),
    decreases s.len(),
{
    if s.len() > 0 {
        lemma_sum_pos(s.drop_last());
    }
}

/// Every consecutive pair of the node path has line of sight between the
/// corresponding world positions.
pub open spec fn aco_edges_clear(g: Grid, p: Seq<Node>) -> bool {
    forall|i: int|
        0 <= i < p.len() - 1 ==> sees(
            g,
            node_world_spec(g, p[i]),
            node_world_spec(g, #[trigger] p[i + 1]),
        )
}

/// Every node of the path is within the mappable lattice range.
pub open spec fn nodes_ok(g: Grid, p: Seq<Node>) -> bool {
    forall|i: int| 0 <= i < p.len() ==> node_ok(g, #[trigger] p[i])
}

/// Total world-space length of a node path: the sum of the rounded
/// Euclidean distances of consecutive waypoints.
pub open spec fn path_len_spec(g: Grid, p: Seq<Node>) -> int
    decreases p.len(),
{
    if p.len() <= 1 {
        0
    } else {
        path_len_spec(g, p.drop_last()) + dist_spec(
            node_world_spec(g, p[p.len() - 2]),
            node_world_spec(g, p[p.len() - 1]),
        )
    }
}

/// One ant: its walked path, its tabu set and the accumulated length.
struct Ant {
    path: Vec<Node>,
    tabu: NodeSet,
    len: u64,
}

/// The per-ant invariant after `bound` rounds.
spec fn ant_ok(g: Grid, a: Ant, sn: Node, bound: int) -> bool {
    &&& a.path@.len() >= 1
    &&& a.path@[0] == sn
    &&& nodes_ok(g, a.path@)
    &&& a.len == path_len_spec(g, a.path@)
    &&& a.len <= bound * 4_000_000_000
}

/// The ant-colony optimizer with cross-call session memory. The public
/// fields are the tuning constants; probabilities and evaporation
/// coefficients are per-mille, pheromones fixed-point scaled by a million.
pub struct HybridStrategy {
    /// Per-mille chance of exploiting (taking the best-scoring neighbor)
    /// instead of sampling by weight.
    exploitation_chance: u64,
    /// Additive constant of the goal-distance desirability.
    elicitation_constant: u64,
    /// Per-mille local evaporation coefficient.
    evaporation_coefficient: u64,
    /// Local deposit constant.
    deposit_constant: u64,
    /// Per-mille global evaporation coefficient.
    global_evaporation_coefficient: u64,
    /// Global deposit constant.
    global_deposit_constant: u64,
    /// Pheromone weight of an untouched edge, fixed-point scaled.
    init_pheromone: u64,
    /// Ants walked per call.
    ant_number: u32,
    /// Rounds walked per call.
    max_ant_try: u32,
    global_pheromones: EdgeMap,
    global_best_path: Option<Vec<Node>>,
    global_best_len: u64,
    cache_start: Option<Vec2i>,
    cache_goal: Option<Vec2i>,
}

impl HybridStrategy {
    /// Bounds on the tuning constants that keep every fixed-point
    /// computation exact and overflow-free.
    pub closed spec fn params_ok(self) -> bool {
        &&& self.exploitation_chance <= 1000
        &&& self.elicitation_constant <= 1_000_000
        &&& self.evaporation_coefficient <= 1000
        &&& self.deposit_constant <= 1_000_000
        &&& self.global_evaporation_coefficient <= 1000
        &&& self.global_deposit_constant <= 1_000_000
        &&& self.init_pheromone <= 2_000_000_000_000
        &&& 1 <= self.ant_number <= 1000
        &&& 1 <= self.max_ant_try <= 1_000_000
    }

    /// The two strategies share their tuning constants.
    pub closed spec fn same_params(self, other: HybridStrategy) -> bool {
        &&& self.exploitation_chance == other.exploitation_chance
        &&& self.elicitation_constant == other.elicitation_constant
        &&& self.evaporation_coefficient == other.evaporation_coefficient
        &&& self.deposit_constant == other.deposit_constant
        &&& self.global_evaporation_coefficient == other.global_evaporation_coefficient
        &&& self.global_deposit_constant == other.global_deposit_constant
        &&& self.init_pheromone == other.init_pheromone
        &&& self.ant_number == other.ant_number
        &&& self.max_ant_try == other.max_ant_try
    }

    /// The session state is well-formed: pheromones unique-keyed and
    /// capped, and a cached best path is non-empty with both cache keys
    /// present.
    pub closed spec fn session_wf(self) -> bool {
        &&& self.global_pheromones.wf()
        &&& self.global_pheromones.capped(2_000_000_000_000)
        &&& match self.global_best_path {
            None => true,
            Some(p) => p@.len() >= 1 && self.cache_start is Some && self.cache_goal is Some,
        }
    }

    /// The cached best path, if any.
    pub closed spec fn spec_best(self) -> Option<Seq<Node>> {
        match self.global_best_path {
            None => None,
            Some(p) => Some(p@),
        }
    }

    /// The cached best length (meaningful when a best path is cached).
    pub closed spec fn spec_best_len(self) -> int {
        self.global_best_len as int
    }

    pub closed spec fn spec_cache_start(self) -> Option<Vec2i> {
        self.cache_start
    }

    pub closed spec fn spec_cache_goal(self) -> Option<Vec2i> {
        self.cache_goal
    }

    /// The cached best path fits the grid: its nodes are mappable, it
    /// runs from the cached start node to the cached goal node, and the
    /// cached length is its exact path length.
    pub closed spec fn cache_consistent(self, g: Grid) -> bool {
        match self.global_best_path {
            None => true,
            Some(p) => match (self.cache_start, self.cache_goal) {
                (Some(cs), Some(cg)) => {
                    &&& nodes_ok(g, p@)
                    &&& p@.len() >= 1
                    &&& p@[0] == node_of_spec(g, cs)
                    &&& p@[p@.len() - 1] == node_of_spec(g, cg)
                    &&& self.global_best_len == path_len_spec(g, p@)
                },
                _ => false,
            },
        }
    }

    /// A fresh optimizer with the default tuning constants and an empty
    /// session.
    pub fn new() -> (r: HybridStrategy)
        ensures
            r.params_ok(),
            r.session_wf(),
            r.spec_best() is None,
            r.spec_cache_start() is None,
            r.spec_cache_goal() is None,
            forall|g: Grid| r.cache_consistent(g),
    {
        HybridStrategy {
            exploitation_chance: 500,
            elicitation_constant: 1000,
            evaporation_coefficient: 200,
            deposit_constant: 6000,
            global_evaporation_coefficient: 300,
            global_deposit_constant: 6000,
            init_pheromone: 1_000_000,
            ant_number: 80,
            max_ant_try: 2000,
            global_pheromones: EdgeMap::new(),
            global_best_path: None,
            global_best_len: 0xffff_ffff_ffff_ffff,
            cache_start: None,
            cache_goal: None,
        }
    }

    /// Sets how many ants walk and for how many rounds, within the
    /// supported bounds. The session memory is untouched.
    pub fn set_colony(&mut self, ant_number: u32, max_ant_try: u32)
        requires
            old(self).params_ok(),
            1 <= ant_number <= 1000,
            1 <= max_ant_try <= 1_000_000,
        ensures
            final(self).params_ok(),
            final(self).session_wf() == old(self).session_wf(),
            final(self).spec_best() == old(self).spec_best(),
            final(self).spec_best_len() == old(self).spec_best_len(),
            final(self).spec_cache_start() == old(self).spec_cache_start(),
            final(self).spec_cache_goal() == old(self).spec_cache_goal(),
            forall|g: Grid|
                final(self).cache_consistent(g) == old(self).cache_consistent(g),
    {
        self.ant_number = ant_number;
        self.max_ant_try = max_ant_try;
    }

    /// Clears the session memory: the pheromone field and the cached best
    /// path. The cached request endpoints are kept.
    pub fn reset(&mut self)
        ensures
            final(self).same_params(*old(self)),
            final(self).session_wf(),
            final(self).spec_best() is None,
            final(self).spec_cache_start() == old(self).spec_cache_start(),
            final(self).spec_cache_goal() == old(self).spec_cache_goal(),
            forall|g: Grid| final(self).cache_consistent(g),
    {
        self.global_pheromones = EdgeMap::new();
        self.global_best_path = None;
        self.global_best_len = 0xffff_ffff_ffff_ffff;
    }

    /// The selection weight of stepping along `line`: a floor of ten for
    /// tabu neighbors, a smaller floor of one for neighbors without line
    /// of sight, otherwise pheromone times goal desirability (kept above
    /// both floors).
    fn get_path_value(
        &self,
        grid: &Grid,
        line: Line,
        pheromones: &EdgeMap,
        tabu: &NodeSet,
        goal: Vec2i,
    ) -> (r: u128)
        requires
            self.params_ok(),
            grid.wf(),
            pheromones.wf(),
            pheromones.capped(2_000_000_000_000),
            node_mappable(*grid, line.from),
            node_mappable(*grid, line.to),
            node_world_spec(*grid, line.from).in_range(),
            node_world_spec(*grid, line.to).in_range(),
            goal.in_range(),
        ensures
            1 <= r <= 10_000_000_000_000_000_000_000_000,
            tabu.has(line.to) ==> r == 10,
            !tabu.has(line.to) && !sees(
                *grid,
                node_world_spec(*grid, line.from),
                node_world_spec(*grid, line.to),
            ) ==> r == 1,
            !tabu.has(line.to) && sees(
                *grid,
                node_world_spec(*grid, line.from),
                node_world_spec(*grid, line.to),
            ) ==> ({
                let ph = if pheromones.has(line) {
                    pheromones.val_of(line) as int
                } else {
                    self.init_pheromone as int
                };
                let des = ((self.elicitation_constant + 1) * 1_000_000) / (dist_spec(
                    node_world_spec(*grid, line.to),
                    goal,
                ) + 1);
                r == if ph * des >= 11 {
                    ph * des
                } else {
                    11
                }
            }),
    {
        if tabu.contains(line.to) {
            return 10;
        }
        let wf_ = node_to_world_pos(grid, line.from);
        let wt = node_to_world_pos(grid, line.to);
        if !has_sight(grid, wf_, wt) {
            return 1;
        }
        let ph: u64 = match pheromones.get(line) {
            Some(v) => v,
            None => self.init_pheromone,
        };
        let d = dist_approx(wt, goal);
        let des: u128 = (((self.elicitation_constant as u128) + 1) * 1_000_000) / ((d as u128)
            + 1);
        proof {
            assert(des <= 1_100_000_000_000) by (nonlinear_arith)
                requires
                    des == (((self.elicitation_constant as int) + 1) * 1_000_000) / ((d as int)
                        + 1) && self.elicitation_constant <= 1_000_000 && d >= 0,
            ;
            assert(0 <= (ph as int) * (des as int) <= 3_000_000_000_000_000_000_000_000)
                by (nonlinear_arith)
                requires
                    ph <= 2_000_000_000_000 && des <= 1_100_000_000_000,
            ;
        }
        let v: u128 = (ph as u128) * des;
        if v >= 11 {
            v
        } else {
            11
        }
    }

    /// The eight lattice neighbors of a node, in the fixed probe order.
    fn next_node_list(&self, npos: Node) -> (r: Vec<Node>)
        requires
            -900_000_000 <= npos.x <= 900_000_000,
            -900_000_000 <= npos.y <= 900_000_000,
        ensures
            r@.len() == 8,
            forall|i: int| 0 <= i < 8 ==> is_neighbor(npos, #[trigger] r@[i]),
    {
        let mut v: Vec<Node> = Vec::new();
        v.push(Node { x: npos.x + 1, y: npos.y + 0 });
        v.push(Node { x: npos.x + 1, y: npos.y - 1 });
        v.push(Node { x: npos.x + 0, y: npos.y - 1 });
        v.push(Node { x: npos.x - 1, y: npos.y - 1 });
        v.push(Node { x: npos.x - 1, y: npos.y + 0 });
        v.push(Node { x: npos.x - 1, y: npos.y + 1 });
        v.push(Node { x: npos.x + 0, y: npos.y + 1 });
        v.push(Node { x: npos.x + 1, y: npos.y + 1 });
        v
    }

    /// Chooses the ant's next lattice node: a weighted coin decides
    /// between exploiting (the first best-scoring neighbor) and exploring
    /// (a neighbor sampled with probability proportional to its score).
    /// The result is always one of the eight neighbors.
    fn calculate_next_node(
        &self,
        grid: &Grid,
        node: Node,
        pheromones: &EdgeMap,
        tabu: &NodeSet,
        goal: Vec2i,
    ) -> (r: Node)
        requires
            self.params_ok(),
            grid.wf(),
            pheromones.wf(),
            pheromones.capped(2_000_000_000_000),
            node_ok(*grid, node),
            goal.in_range(),
        ensures
            is_neighbor(node, r),
    {
        proof {
            crate::grid::lemma_wf_bounds(*grid);
            assert(-900_000_000 <= node.x <= 900_000_000 && -900_000_000 <= node.y <= 900_000_000)
                by (nonlinear_arith)
                requires
                    -900_000_000 <= node.x * grid.spec_pixel_size() <= 900_000_000
                        && -900_000_000 <= node.y * grid.spec_pixel_size() <= 900_000_000 && 1
                        <= grid.spec_pixel_size(),
            ;
        }
        let mut cw: Vec<u128> = Vec::new();
        cw.push(self.exploitation_chance as u128);
        cw.push((1000 - self.exploitation_chance) as u128);
        proof {
            let single = seq![self.exploitation_chance as u128];
            assert(cw@.drop_last() =~= single);
            assert(single.drop_last() =~= Seq::<u128>::empty());
            assert(sum_spec(Seq::<u128>::empty()) == 0);
            assert(sum_spec(single) == self.exploitation_chance);
            assert(sum_spec(cw@) == 1000);
        }
        let is_exploit: bool = roll(&cw) == 0;

        let next_nodes = self.next_node_list(node);
        let mut values: Vec<u128> = Vec::new();
        let mut i: usize = 0;
        while i < next_nodes.len()
            invariant
                self.params_ok(),
                grid.wf(),
                pheromones.wf(),
                pheromones.capped(2_000_000_000_000),
                goal.in_range(),
                node_ok(*grid, node),
                next_nodes@.len() == 8,
                forall|j: int| 0 <= j < 8 ==> is_neighbor(node, #[trigger] next_nodes@[j]),
                i <= 8,
                values@.len() == i,
                forall|j: int|
                    0 <= j < i ==> 1 <= #[trigger] values@[j]
                        <= 10_000_000_000_000_000_000_000_000,
            decreases next_nodes@.len() - i,
        {
            proof {
                lemma_node_world_range(*grid, node, node);
                lemma_node_world_range(*grid, node, next_nodes@[i as int]);
            }
            let val = self.get_path_value(
                grid,
                Line { from: node, to: next_nodes[i] },
                pheromones,
                tabu,
                goal,
            );
            values.push(val);
            i = i + 1;
        }

        if is_exploit {
            let mut mx: u128 = 0;
            let mut res: usize = 0;
            let mut k: usize = 0;
            while k < values.len()
                invariant
                    values@.len() == 8,
                    k <= 8,
                    res < 8,
                decreases values@.len() - k,
            {
                if values[k] > mx {
                    mx = values[k];
                    res = k;
                }
                k = k + 1;
            }
            next_nodes[res]
        } else {
            proof {
                lemma_sum_pos(values@);
            }
            let idx = roll(&values);
            next_nodes[idx]
        }
    }

    /// Finds a path from `start` to `goal` and returns the session's best
    /// known path, mapped to world coordinates.
    ///
    /// Absent endpoints yield `None` and leave the session untouched.
    /// Otherwise the cached best is invalidated when the endpoints change
    /// or a cached segment has lost line of sight; ants then walk the
    /// lattice, the best ant that reached the goal is validated against
    /// the grid and may replace the cache when strictly shorter. Any
    /// returned path is the cached best: it runs between the requested
    /// endpoints' lattice nodes and every consecutive segment has line of
    /// sight on the current grid; with an unchanged request and an
    /// unobstructed cache its length never increases.
    pub fn path_finding(&mut self, grid: &Grid, start: Option<Vec2i>, goal: Option<Vec2i>) -> (r:
        Option<Vec<Vec2i>>)
        requires
            old(self).params_ok(),
            old(self).session_wf(),
            grid.wf(),
            old(self).cache_consistent(*grid),
            start matches Some(s) ==> pos_in_region(s),
            goal matches Some(gl) ==> pos_in_region(gl),
        ensures
            final(self).params_ok(),
            final(self).same_params(*old(self)),
            final(self).session_wf(),
            final(self).cache_consistent(*grid),
            start is None || goal is None ==> r is None && *final(self) == *old(self),
            start is Some && goal is Some ==> {
                &&& final(self).spec_cache_start() == start
                &&& final(self).spec_cache_goal() == goal
                &&& (r is Some <==> final(self).spec_best() is Some)
                &&& (final(self).spec_best() matches Some(bp) ==> {
                    &&& aco_edges_clear(*grid, bp)
                    &&& (r matches Some(wp) && wp@.len() == bp.len() && (forall|i: int|
                        0 <= i < bp.len() ==> wp@[i] == node_world_spec(*grid, #[trigger] bp[i])))
                })
            },
            start matches Some(s) ==> goal matches Some(gl) ==> (old(self).spec_cache_start()
                == Some(s) ==> old(self).spec_cache_goal() == Some(gl) ==> ((old(
            self).spec_best() matches Some(op) && aco_edges_clear(*grid, op)) ==> (final(
            self).spec_best() is Some && final(self).spec_best_len() <= old(
            self).spec_best_len()))),
    {
        let s = match start {
            Some(v) => v,
            None => {
                return None;
            },
        };
        let gl = match goal {
            Some(v) => v,
            None => {
                return None;
            },
        };

        let keys_match: bool = (match self.cache_start {
            Some(cs) => cs.x == s.x && cs.y == s.y,
            None => false,
        }) && (match self.cache_goal {
            Some(cg) => cg.x == gl.x && cg.y == gl.y,
            None => false,
        });
        if !keys_match {
            self.global_best_path = None;
            self.global_best_len = 0xffff_ffff_ffff_ffff;
        }
        self.cache_start = Some(s);
        self.cache_goal = Some(gl);

        let mut blocked: bool = false;
        match &self.global_best_path {
            None => {},
            Some(p) => {
                let mut ei: usize = 0;
                while ei < p.len() - 1
                    invariant_except_break
                        grid.wf(),
                        nodes_ok(*grid, p@),
                        1 <= p@.len(),
                        ei + 1 <= p@.len(),
                        !blocked,
                        forall|j: int|
                            0 <= j < ei ==> sees(
                                *grid,
                                node_world_spec(*grid, p@[j]),
                                node_world_spec(*grid, #[trigger] p@[j + 1]),
                            ),
                    ensures
                        blocked ==> !aco_edges_clear(*grid, p@),
                        !blocked ==> aco_edges_clear(*grid, p@),
                    decreases p@.len() - ei,
                {
                    proof {
                        lemma_node_world_range(*grid, p@[ei as int], p@[ei as int]);
                        lemma_node_world_range(*grid, p@[ei + 1], p@[ei + 1]);
                    }
                    let wa = node_to_world_pos(grid, p[ei]);
                    let wb = node_to_world_pos(grid, p[ei + 1]);
                    if !has_sight(grid, wa, wb) {
                        blocked = true;
                        break ;
                    }
                    ei = ei + 1;
                }
            },
        }
        if blocked {
            self.global_best_path = None;
            self.global_best_len = 0xffff_ffff_ffff_ffff;
        }

        proof {
            lemma_node_of_region(*grid, s);
            lemma_node_of_region(*grid, gl);
        }
        let sn = world_to_node_pos(grid, s).unwrap();
        let gn = world_to_node_pos(grid, gl).unwrap();

        let ghost mid = *self;

        let mut pheromones = self.global_pheromones.duplicate();
        let mut ants: Vec<Ant> = Vec::new();
        let mut ai: usize = 0;
        let ant_count: usize = self.ant_number as usize;
        while ai < ant_count
            invariant
                grid.wf(),
                node_ok(*grid, sn),
                ai <= ant_count,
                ants@.len() == ai,
                forall|j: int| 0 <= j < ai ==> ant_ok(*grid, #[trigger] ants@[j], sn, 1),
            decreases ant_count - ai,
        {
            let mut t = NodeSet::new();
            t.insert(sn);
            let mut p: Vec<Node> = Vec::new();
            p.push(sn);
            ants.push(Ant { path: p, tabu: t, len: 0 });
            ai = ai + 1;
        }

        let mut rnd: u32 = 0;
        let tries: u32 = self.max_ant_try;
        while rnd < tries
            invariant
                grid.wf(),
                *self == mid,
                mid.params_ok(),
                node_ok(*grid, sn),
                node_ok(*grid, gn),
                pos_in_region(gl),
                pheromones.wf(),
                pheromones.capped(2_000_000_000_000),
                rnd <= tries,
                tries == mid.max_ant_try,
                ants@.len() == mid.ant_number,
                forall|j: int|
                    0 <= j < ants@.len() ==> ant_ok(*grid, #[trigger] ants@[j], sn, rnd as int + 1),
            decreases tries - rnd,
        {
            let mut ant_idx: usize = 0;
            while ant_idx < ants.len()
                invariant
                    grid.wf(),
                    *self == mid,
                    mid.params_ok(),
                    node_ok(*grid, sn),
                    node_ok(*grid, gn),
                    pos_in_region(gl),
                    pheromones.wf(),
                    pheromones.capped(2_000_000_000_000),
                    rnd < tries,
                    tries == mid.max_ant_try,
                    ant_idx <= ants@.len(),
                    ants@.len() == mid.ant_number,
                    forall|j: int|
                        0 <= j < ant_idx ==> ant_ok(*grid, #[trigger] ants@[j], sn, rnd as int + 2),
                    forall|j: int|
                        ant_idx <= j < ants@.len() ==> ant_ok(
                            *grid,
                            #[trigger] ants@[j],
                            sn,
                            rnd as int + 1,
                        ),
                decreases ants@.len() - ant_idx,
            {
                let ghost ants_before = ants@;
                let a = &mut ants[ant_idx];
                let plen = a.path.len();
                let last: Node = a.path[plen - 1];
                if !(last.x == gn.x && last.y == gn.y) {
                    let next = self.calculate_next_node(grid, last, &pheromones, &a.tabu, gl);
                    if node_ok_exec(grid, next) {
                        proof {
                            lemma_node_world_range(*grid, last, last);
                            lemma_node_world_range(*grid, next, next);
                        }
                        let wl = node_to_world_pos(grid, last);
                        let wn = node_to_world_pos(grid, next);
                        let d = dist_approx(wl, wn);
                        let ghost oldpath = a.path@;
                        a.len = a.len + d;
                        a.path.push(next);
                        a.tabu.insert(next);
                        proof {
                            assert(a.path@.drop_last() =~= oldpath);
                        }
                        let line = Line { from: last, to: next };
                        let oldp: u64 = match pheromones.get(line) {
                            Some(v) => v,
                            None => self.init_pheromone,
                        };
                        let np = pheromone_update(
                            oldp,
                            self.evaporation_coefficient,
                            self.deposit_constant,
                            a.len,
                        );
                        pheromones.insert(line, np);
                        proof {
                            assert forall|k: Line| #[trigger] pheromones.has(k) implies
                                pheromones.val_of(k) <= 2_000_000_000_000 by {
                                if k != line {
                                }
                            }
                        }
                    }
                }
                proof {
                    assert forall|j: int|
                        0 <= j < ants@.len() && j != ant_idx implies ants@[j] == ants_before[j] by {
                    }
                }
                ant_idx = ant_idx + 1;
            }
            rnd = rnd + 1;
        }

        let mut found: bool = false;
        let mut best_idx: usize = 0;
        let mut best_len: u64 = 0;
        let mut bi: usize = 0;
        while bi < ants.len()
            invariant
                node_ok(*grid, gn),
                bi <= ants@.len(),
                found ==> best_idx < ants@.len() && ants@[best_idx as int].path@.len() >= 1
                    && ants@[best_idx as int].path@.last() == gn && best_len == ants@[
                    best_idx as int].len,
                forall|j: int|
                    0 <= j < ants@.len() ==> (#[trigger] ants@[j]).path@.len() >= 1,
            decreases ants@.len() - bi,
        {
            let a = &ants[bi];
            let alen = a.path.len();
            let lastn: Node = a.path[alen - 1];
            if lastn.x == gn.x && lastn.y == gn.y && (!found || a.len < best_len) {
                found = true;
                best_idx = bi;
                best_len = a.len;
            }
            bi = bi + 1;
        }

        if found {
            let ghost tail_len = ants@[best_idx as int].len;
            let mut clear: bool = true;
            {
                let ba = &ants[best_idx];
                let mut ei: usize = 0;
                while ei < ba.path.len() - 1
                    invariant_except_break
                        grid.wf(),
                        nodes_ok(*grid, ba.path@),
                        1 <= ba.path@.len(),
                        ei + 1 <= ba.path@.len(),
                        clear,
                        forall|j: int|
                            0 <= j < ei ==> sees(
                                *grid,
                                node_world_spec(*grid, ba.path@[j]),
                                node_world_spec(*grid, #[trigger] ba.path@[j + 1]),
                            ),
                    ensures
                        clear ==> aco_edges_clear(*grid, ba.path@),
                    decreases ba.path@.len() - ei,
                {
                    proof {
                        lemma_node_world_range(*grid, ba.path@[ei as int], ba.path@[ei as int]);
                        lemma_node_world_range(*grid, ba.path@[ei + 1], ba.path@[ei + 1]);
                    }
                    let wa = node_to_world_pos(grid, ba.path[ei]);
                    let wb = node_to_world_pos(grid, ba.path[ei + 1]);
                    if !has_sight(grid, wa, wb) {
                        clear = false;
                        break ;
                    }
                    ei = ei + 1;
                }
            }
            if clear {
                {
                    let ba = &ants[best_idx];
                    let mut gi: usize = 0;
                    while gi < ba.path.len() - 1
                        invariant
                            grid.wf(),
                            mid.params_ok(),
                            self.params_ok(),
                            self.same_params(mid),
                            1 <= ba.path@.len(),
                            gi + 1 <= ba.path@.len(),
                            self.global_pheromones.wf(),
                            self.global_pheromones.capped(2_000_000_000_000),
                            self.global_best_path == mid.global_best_path,
                            self.global_best_len == mid.global_best_len,
                            self.cache_start == mid.cache_start,
                            self.cache_goal == mid.cache_goal,
                        decreases ba.path@.len() - gi,
                    {
                        let line = Line { from: ba.path[gi], to: ba.path[gi + 1] };
                        let oldp: u64 = match self.global_pheromones.get(line) {
                            Some(v) => v,
                            None => self.init_pheromone,
                        };
                        let np = pheromone_update(
                            oldp,
                            self.global_evaporation_coefficient,
                            self.global_deposit_constant,
                            best_len,
                        );
                        self.global_pheromones.insert(line, np);
                        proof {
                            assert forall|k: Line| #[trigger] self.global_pheromones.has(k)
                                implies self.global_pheromones.val_of(k) <= 2_000_000_000_000 by {
                                if k != line {
                                }
                            }
                        }
                        gi = gi + 1;
                    }
                }
                if best_len < self.global_best_len {
                    let mut np: Vec<Node> = Vec::new();
                    {
                        let ba = &ants[best_idx];
                        let mut ci: usize = 0;
                        while ci < ba.path.len()
                            invariant
                                ci <= ba.path@.len(),
                                np@ =~= ba.path@.subrange(0, ci as int),
                            decreases ba.path@.len() - ci,
                        {
                            np.push(ba.path[ci]);
                            ci = ci + 1;
                        }
                        proof {
                            assert(np@ =~= ba.path@);
                        }
                    }
                    self.global_best_path = Some(np);
                    self.global_best_len = best_len;
                }
            }
        }

        let mut out: Option<Vec<Vec2i>> = None;
        match &self.global_best_path {
            None => {},
            Some(p) => {
                let mut wp: Vec<Vec2i> = Vec::new();
                let mut wi: usize = 0;
                while wi < p.len()
                    invariant
                        grid.wf(),
                        nodes_ok(*grid, p@),
                        wi <= p@.len(),
                        wp@.len() == wi,
                        forall|j: int|
                            0 <= j < wi ==> wp@[j] == node_world_spec(*grid, #[trigger] p@[j]),
                    decreases p@.len() - wi,
                {
                    proof {
                        lemma_node_world_range(*grid, p@[wi as int], p@[wi as int]);
                    }
                    wp.push(node_to_world_pos(grid, p[wi]));
                    wi = wi + 1;
                }
                out = Some(wp);
            },
        }
        out
    }
}

} // verus!