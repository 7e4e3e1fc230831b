//! Routes through the map: what a route is, what it costs, and the two
//! searches that find one.

use crate::packet::{NodeId, NodeType};
use crate::topology::{lemma_drop_rate_bound, TopologyView, NETWORK_SIZE, PDR_SCALE};
use vstd::prelude::*;

mod bfs;
mod dijkstra;

verus! {

/// Chance, as a fraction of [`PDR_SCALE`] rounded down, that a frame is
/// dropped up to and including a node with drop rate `pdr`, when `cost` is
/// that chance up to the node before it: the chance so far plus the chance
/// of arriving and being dropped there.
pub open spec fn extend_cost(cost: int, pdr: int) -> int {
    cost + ((PDR_SCALE - cost) * pdr) / (PDR_SCALE as int)
}

impl TopologyView {
    /// Whether `path` leads from `source` to `dest`: it starts at the one
    /// and ends at the other, each node is linked to the next, and every
    /// node in between is a drone.
    pub open spec fn is_route(self, source: NodeId, dest: NodeId, path: Seq<NodeId>) -> bool {
        &&& path.len() >= 2
        &&& path[0] == source
        &&& path[path.len() - 1] == dest
        &&& forall|i: int| 0 < i < path.len() - 1 ==> self.kind(#[trigger] path[i]) == NodeType::Drone
        &&& forall|i: int| 0 < i < path.len() ==> self.adjacent(path[i - 1], #[trigger] path[i])
    }

    /// Chance that a frame sent along `path` is dropped on the way, as a
    /// fraction of [`PDR_SCALE`]: nothing for the first node, then
    /// [`extend_cost`] for each node after it.
    pub open spec fn route_cost(self, path: Seq<NodeId>) -> int
        decreases path.len(),
    {
        if path.len() <= 1 {
            0
        } else {
            extend_cost(self.route_cost(path.drop_last()), self.pdr(path.last()))
        }
    }
}

/// Extending a path never makes it cheaper, and no cost exceeds
/// [`PDR_SCALE`].
pub proof fn lemma_extend_bounds(cost: int, pdr: int)
    requires
        0 <= cost <= PDR_SCALE,
        0 <= pdr <= PDR_SCALE,
    ensures
        cost <= extend_cost(cost, pdr) <= PDR_SCALE,
{
    let room = PDR_SCALE - cost;
    let product = room * pdr;
    assert(0 <= product <= room * PDR_SCALE) by (nonlinear_arith)
        requires
            0 <= room,
            0 <= pdr <= PDR_SCALE,
            product == room * pdr,
    ;
}

/// A cheaper start gives a cheaper path: [`extend_cost`] grows with the cost
/// so far.
pub proof fn lemma_extend_monotone(low: int, high: int, pdr: int)
    requires
        0 <= low <= high <= PDR_SCALE,
        0 <= pdr <= PDR_SCALE,
    ensures
        extend_cost(low, pdr) <= extend_cost(high, pdr),
{
    let scale = PDR_SCALE as int;
    let gap = high - low;
    let upper = (PDR_SCALE - high) * pdr;
    let lower = (PDR_SCALE - low) * pdr;
    assert(lower == upper + gap * pdr && gap * pdr <= gap * scale) by (nonlinear_arith)
        requires
            gap == high - low,
            gap >= 0,
            0 <= pdr <= scale,
            upper == (PDR_SCALE - high) * pdr,
            lower == (PDR_SCALE - low) * pdr,
            scale == PDR_SCALE,
    ;
}

/// The cost of any path lies between nothing and [`PDR_SCALE`].
pub proof fn lemma_route_cost_bounds(map: TopologyView, path: Seq<NodeId>)
    requires
        map.wf(),
    ensures
        0 <= map.route_cost(path) <= PDR_SCALE,
    decreases path.len(),
{
    if path.len() > 1 {
        lemma_route_cost_bounds(map, path.drop_last());
        let node = path.last();
        lemma_drop_rate_bound(map.successes[node as int], map.failures[node as int]);
        lemma_extend_bounds(map.route_cost(path.drop_last()), map.pdr(node));
    }
}

/// [`extend_cost`] on machine integers.
fn extend(cost: u64, pdr: u64) -> (next: u64)
    requires
        cost <= PDR_SCALE,
        pdr <= PDR_SCALE,
    ensures
        next == extend_cost(cost as int, pdr as int),
        cost <= next <= PDR_SCALE,
{
    proof {
        lemma_extend_bounds(cost as int, pdr as int);
    }
    let room: u128 = (PDR_SCALE - cost) as u128;
    assert(room * (pdr as u128) <= 0x1000_0000_0000_0000 * 0x1000_0000_0000_0000) by (nonlinear_arith)
        requires
            room <= 0x1000_0000_0000_0000,
            pdr <= 0x1000_0000_0000_0000,
    ;
    let product: u128 = room * (pdr as u128);
    let step: u128 = product / (PDR_SCALE as u128);
    cost + (step as u64)
}

/// Whether `trail` starts at `source`, follows links, and crosses drones
/// only.
spec fn is_trail(map: TopologyView, source: NodeId, trail: Seq<NodeId>) -> bool {
    &&& trail.len() >= 1
    &&& trail[0] == source
    &&& forall|i: int| 0 < i < trail.len() - 1 ==> map.kind(#[trigger] trail[i]) == NodeType::Drone
    &&& forall|i: int| 0 < i < trail.len() ==> map.adjacent(trail[i - 1], #[trigger] trail[i])
}

/// Number of nodes among the first `n` whose distance is not final.
spec fn unsettled(settled: Seq<bool>, n: int) -> nat
    decreases n,
{
    if n <= 0 {
        0
    } else {
        unsettled(settled, n - 1) + if settled[n - 1] {
            0nat
        } else {
            1nat
        }
    }
}

proof fn lemma_unsettled_drops(settled: Seq<bool>, u: int, n: int)
    requires
        0 <= u < settled.len(),
        0 <= n <= settled.len(),
        !settled[u],
    ensures
        unsettled(settled.update(u, true), n) + (if u < n {
            1nat
        } else {
            0nat
        }) == unsettled(settled, n),
    decreases n,
{
    if n > 0 {
        lemma_unsettled_drops(settled, u, n - 1);
    }
}

/// Whether the recorded path of reached node `v` ends at `v` and is the
/// path of the node before it with `v` added.
spec fn linked(
    source: NodeId,
    prev: Seq<usize>,
    paths: Seq<Seq<NodeId>>,
    reached: Seq<bool>,
    v: int,
) -> bool {
    &&& paths[v].len() >= 1
    &&& paths[v].last() == v
    &&& if v == source {
        paths[v] == seq![source]
    } else {
        let u = prev[v] as int;
        &&& 0 <= u < NETWORK_SIZE
        &&& reached[u]
        &&& paths[v] == paths[u].push(v as NodeId)
    }
}

/// Whether every reached node is linked back towards `source`.
spec fn chained(source: NodeId, prev: Seq<usize>, paths: Seq<Seq<NodeId>>, reached: Seq<bool>) -> bool {
    &&& prev.len() == NETWORK_SIZE
    &&& paths.len() == NETWORK_SIZE
    &&& reached.len() == NETWORK_SIZE
    &&& forall|v: int|
        0 <= v < NETWORK_SIZE && reached[v] ==> #[trigger] linked(source, prev, paths, reached, v)
}

/// Follows the recorded steps back from `dest` to `source` and returns the
/// path in travelling order.
fn trace_back(
    prev: &Vec<usize>,
    source: NodeId,
    dest: NodeId,
    Ghost(paths): Ghost<Seq<Seq<NodeId>>>,
    Ghost(reached): Ghost<Seq<bool>>,
) -> (path: Vec<NodeId>)
    requires
        chained(source, prev@, paths, reached),
        reached[dest as int],
    ensures
        path@ == paths[dest as int],
{
    let mut reversed: Vec<NodeId> = Vec::new();
    reversed.push(dest);
    let mut current: usize = dest as usize;
    assert(linked(source, prev@, paths, reached, dest as int));
    while current != source as usize
        invariant
            chained(source, prev@, paths, reached),
            0 <= current < NETWORK_SIZE,
            reached[current as int],
            reversed@.len() >= 1,
            paths[dest as int] == paths[current as int].drop_last() + reversed@.reverse(),
        decreases paths[current as int].len(),
    {
        let ghost here = current as int;
        assert(linked(source, prev@, paths, reached, here));
        current = prev[current];
        assert(linked(source, prev@, paths, reached, current as int));
        reversed.push(current as NodeId);
    }
    proof {
        assert(linked(source, prev@, paths, reached, source as int));
    }
    let mut path: Vec<NodeId> = Vec::new();
    let mut left: usize = reversed.len();
    while left > 0
        invariant
            left <= reversed@.len(),
            path@.len() == reversed@.len() - left,
            forall|k: int| 0 <= k < path@.len() ==> path@[k] == reversed@[reversed@.len() - 1 - k],
        decreases left,
    {
        left -= 1;
        path.push(reversed[left]);
    }
    path
}

} // verus!
