//! The search for the route on which a frame is least likely to be dropped.

use super::{
    chained, extend, extend_cost, is_trail, lemma_extend_bounds, lemma_extend_monotone,
    lemma_route_cost_bounds, lemma_unsettled_drops, linked, trace_back, unsettled,
};
use crate::packet::{NodeId, NodeType};
use crate::topology::{
    lemma_drop_rate_bound, RoutingError, Topology, TopologyView, NETWORK_SIZE, PDR_SCALE,
};
use vstd::prelude::*;

verus! {

/// Distance of a node that the search has not reached.
const UNREACHED: u64 = 0xffff_ffff_ffff_ffff;

/// What a search has found so far, for each node: the cost of the cheapest
/// path known, whether that cost is final, the node before it on that path,
/// and the path itself.
struct Search {
    dist: Seq<u64>,
    settled: Seq<bool>,
    prev: Seq<usize>,
    paths: Seq<Seq<NodeId>>,
}

/// Whether a search for `dest` may step onto `node`.
spec fn allowed(map: TopologyView, dest: NodeId, node: NodeId) -> bool {
    node == dest || map.kind(node) == NodeType::Drone
}

/// Whether `walk` starts at `source` and only takes steps that a search for
/// `dest` may take.
spec fn is_walk(map: TopologyView, source: NodeId, dest: NodeId, walk: Seq<NodeId>) -> bool {
    &&& walk.len() >= 1
    &&& walk[0] == source
    &&& forall|i: int|
        0 < i < walk.len() ==> map.adjacent(walk[i - 1], #[trigger] walk[i]) && allowed(
            map,
            dest,
            walk[i],
        )
}

/// Whether the distance of node `v` is the cost of its recorded path, and
/// that path is the path of the node before it with `v` added.
spec fn witnessed(map: TopologyView, source: NodeId, dest: NodeId, s: Search, v: int) -> bool {
    &&& s.dist[v] <= PDR_SCALE
    &&& is_trail(map, source, s.paths[v])
    &&& s.paths[v].last() == v
    &&& map.route_cost(s.paths[v]) == s.dist[v]
    &&& if v == source {
        s.paths[v] == seq![source]
    } else {
        let u = s.prev[v] as int;
        &&& 0 <= u < NETWORK_SIZE
        &&& s.settled[u]
        &&& s.dist[u] != UNREACHED
        &&& s.paths[v] == s.paths[u].push(v as NodeId)
        &&& allowed(map, dest, v as NodeId)
    }
}

/// Whether the step from `x` to `y` has been taken into account.
spec fn relaxed(map: TopologyView, s: Search, x: NodeId, y: NodeId) -> bool {
    s.dist[y as int] != UNREACHED && s.dist[y as int] <= extend_cost(
        s.dist[x as int] as int,
        map.pdr(y),
    )
}

spec fn shaped(s: Search) -> bool {
    &&& s.dist.len() == NETWORK_SIZE
    &&& s.settled.len() == NETWORK_SIZE
    &&& s.prev.len() == NETWORK_SIZE
    &&& s.paths.len() == NETWORK_SIZE
}

spec fn all_witnessed(map: TopologyView, source: NodeId, dest: NodeId, s: Search) -> bool {
    forall|v: int|
        0 <= v < NETWORK_SIZE && s.dist[v] != UNREACHED ==> #[trigger] witnessed(
            map,
            source,
            dest,
            s,
            v,
        )
}

/// No walk to a settled node is cheaper than its distance.
spec fn settled_optimal(map: TopologyView, source: NodeId, dest: NodeId, s: Search) -> bool {
    forall|w: Seq<NodeId>| #[trigger]
        is_walk(map, source, dest, w) && s.settled[w.last() as int] ==> s.dist[w.last() as int]
            <= map.route_cost(w)
}

/// Every step out of a settled node has been taken into account; out of
/// the node being expanded, every step to a node in `done`.
spec fn steps_relaxed(
    map: TopologyView,
    dest: NodeId,
    s: Search,
    expanding: int,
    done: Seq<NodeId>,
) -> bool {
    forall|x: NodeId, y: NodeId|
        s.settled[x as int] && #[trigger] map.adjacent(x, y) && allowed(map, dest, y) && (x
            == expanding ==> done.contains(y)) ==> relaxed(map, s, x, y)
}

/// Settled nodes are no farther than the others.
spec fn settled_first(s: Search) -> bool {
    forall|x: int, y: int|
        0 <= x < NETWORK_SIZE && 0 <= y < NETWORK_SIZE && #[trigger] s.settled[x]
            && !#[trigger] s.settled[y] ==> s.dist[x] <= s.dist[y]
}

/// What holds of a cheapest-path search between two steps.
spec fn search_inv(
    map: TopologyView,
    source: NodeId,
    dest: NodeId,
    s: Search,
    expanding: int,
    done: Seq<NodeId>,
) -> bool {
    &&& map.wf()
    &&& source != dest
    &&& shaped(s)
    &&& !s.settled[dest as int]
    &&& s.dist[source as int] == 0
    &&& all_witnessed(map, source, dest, s)
    &&& forall|v: int| 0 <= v < NETWORK_SIZE && #[trigger] s.settled[v] ==> s.dist[v] != UNREACHED
    &&& settled_optimal(map, source, dest, s)
    &&& steps_relaxed(map, dest, s, expanding, done)
    &&& settled_first(s)
}

/// Below every walk that ends at a node not yet settled lies a node that is
/// reached and not yet settled.
proof fn lemma_frontier(
    map: TopologyView,
    source: NodeId,
    dest: NodeId,
    s: Search,
    w: Seq<NodeId>,
) -> (y: NodeId)
    requires
        search_inv(map, source, dest, s, -1, Seq::empty()),
        is_walk(map, source, dest, w),
        !s.settled[w.last() as int],
    ensures
        !s.settled[y as int],
        s.dist[y as int] != UNREACHED,
        s.dist[y as int] <= map.route_cost(w),
    decreases w.len(),
{
    if w.len() == 1 {
        source
    } else {
        let before = w.drop_last();
        let x = before.last();
        let v = w.last();
        assert(is_walk(map, source, dest, before));
        lemma_route_cost_bounds(map, before);
        lemma_drop_rate_bound(map.successes[v as int], map.failures[v as int]);
        if s.settled[x as int] {
            lemma_extend_monotone(s.dist[x as int] as int, map.route_cost(before), map.pdr(v));
            v
        } else {
            lemma_frontier(map, source, dest, s, before)
        }
    }
}

/// The search state with the distance of node `u` made final.
spec fn settle(s: Search, u: int) -> Search {
    Search { settled: s.settled.update(u, true), ..s }
}

/// The search state with node `v` reached from node `u` at cost `cost`.
spec fn reach(s: Search, u: int, v: int, cost: u64) -> Search {
    Search {
        dist: s.dist.update(v, cost),
        prev: s.prev.update(v, u as usize),
        paths: s.paths.update(v, s.paths[u].push(v as NodeId)),
        ..s
    }
}

/// Whether `u` is reached, not settled, and no farther than any other node
/// that is not settled.
spec fn is_nearest(s: Search, u: int) -> bool {
    &&& 0 <= u < NETWORK_SIZE
    &&& !s.settled[u]
    &&& s.dist[u] != UNREACHED
    &&& forall|y: int| 0 <= y < NETWORK_SIZE && !#[trigger] s.settled[y] ==> s.dist[u] <= s.dist[y]
}

/// Settling the nearest open node keeps the search sound.
proof fn lemma_settle(map: TopologyView, source: NodeId, dest: NodeId, s: Search, u: int)
    requires
        search_inv(map, source, dest, s, -1, Seq::empty()),
        is_nearest(s, u),
        u != dest,
    ensures
        search_inv(map, source, dest, settle(s, u), u, Seq::empty()),
        forall|x: int|
            0 <= x < NETWORK_SIZE && #[trigger] settle(s, u).settled[x] ==> s.dist[x] <= s.dist[u],
{
    let t = settle(s, u);
    assert(all_witnessed(map, source, dest, t)) by {
        assert forall|v: int| 0 <= v < NETWORK_SIZE && t.dist[v] != UNREACHED implies #[trigger] witnessed(
            map,
            source,
            dest,
            t,
            v,
        ) by {
            assert(witnessed(map, source, dest, s, v));
        }
    }
    assert(settled_optimal(map, source, dest, t)) by {
        assert forall|w: Seq<NodeId>| #[trigger]
            is_walk(map, source, dest, w) && t.settled[w.last() as int] implies t.dist[w.last() as int]
            <= map.route_cost(w) by {
            if w.last() as int == u {
                lemma_frontier(map, source, dest, s, w);
            }
        }
    }
}

/// A step that brings a cheaper path is taken into account by recording
/// that path.
proof fn lemma_relax_reach(
    map: TopologyView,
    source: NodeId,
    dest: NodeId,
    s: Search,
    u: int,
    done: Seq<NodeId>,
    v: NodeId,
    cost: u64,
)
    requires
        search_inv(map, source, dest, s, u, done),
        0 <= u < NETWORK_SIZE,
        u != dest,
        s.settled[u],
        forall|x: int| 0 <= x < NETWORK_SIZE && #[trigger] s.settled[x] ==> s.dist[x] <= s.dist[u],
        map.adjacent(u as NodeId, v),
        allowed(map, dest, v),
        cost == extend_cost(s.dist[u] as int, map.pdr(v)),
        cost < s.dist[v as int],
    ensures
        search_inv(map, source, dest, reach(s, u, v as int, cost), u, done.push(v)),
        !s.settled[v as int],
        forall|x: int|
            0 <= x < NETWORK_SIZE && #[trigger] reach(s, u, v as int, cost).settled[x] ==> reach(
                s,
                u,
                v as int,
                cost,
            ).dist[x] <= s.dist[u],
{
    let t = reach(s, u, v as int, cost);
    assert(witnessed(map, source, dest, s, u));
    lemma_drop_rate_bound(map.successes[v as int], map.failures[v as int]);
    lemma_extend_bounds(s.dist[u] as int, map.pdr(v));
    let trail = s.paths[u].push(v);
    assert(trail.drop_last() =~= s.paths[u]);
    assert(all_witnessed(map, source, dest, t)) by {
        assert forall|z: int| 0 <= z < NETWORK_SIZE && t.dist[z] != UNREACHED implies #[trigger] witnessed(
            map,
            source,
            dest,
            t,
            z,
        ) by {
            if z != v {
                assert(witnessed(map, source, dest, s, z));
            }
        }
    }
}

/// The nodes that a cheapest-path search has reached.
spec fn reached_by(s: Search) -> Seq<bool> {
    Seq::new(NETWORK_SIZE as nat, |v: int| s.dist[v] != UNREACHED)
}

proof fn lemma_search_chained(map: TopologyView, source: NodeId, dest: NodeId, s: Search)
    requires
        search_inv(map, source, dest, s, -1, Seq::empty()),
    ensures
        chained(source, s.prev, s.paths, reached_by(s)),
{
    assert forall|v: int| 0 <= v < NETWORK_SIZE && reached_by(s)[v] implies #[trigger] linked(
        source,
        s.prev,
        s.paths,
        reached_by(s),
        v,
    ) by {
        assert(witnessed(map, source, dest, s, v));
    }
}

impl Topology {
    /// The route from `source` to `dest` on which a frame is least likely to
    /// be dropped, going by the drop rates observed so far. Among the nodes
    /// reached at the same cost the search goes on from the one with the
    /// highest identifier, and a node keeps the first cheapest way found to
    /// it.
    pub fn dijkstra(&self, source: NodeId, dest: NodeId) -> (result: Result<
        Vec<NodeId>,
        RoutingError,
    >)
        requires
            self.wf(),
        ensures
            match result {
                Ok(path) => {
                    &&& source != dest
                    &&& self@.is_route(source, dest, path@)
                    &&& forall|other: Seq<NodeId>| #[trigger]
                        self@.is_route(source, dest, other) ==> self@.route_cost(path@)
                            <= self@.route_cost(other)
                },
                Err(RoutingError::SourceIsDest) => source == dest,
                Err(RoutingError::NoPathFound) => {
                    &&& source != dest
                    &&& forall|other: Seq<NodeId>| !#[trigger] self@.is_route(source, dest, other)
                },
            },
    {
        let source_id = source as usize;
        let dest_id = dest as usize;

        if source == dest {
            return Err(RoutingError::SourceIsDest);
        }
        let mut dist: Vec<u64> = Vec::new();
        let mut prev: Vec<usize> = Vec::new();
        let mut settled: Vec<bool> = Vec::new();
        let mut i: usize = 0;
        while i < NETWORK_SIZE
            invariant
                i <= NETWORK_SIZE,
                dist@.len() == i,
                prev@.len() == i,
                settled@.len() == i,
                forall|k: int| 0 <= k < i ==> dist@[k] == UNREACHED && !settled@[k],
            decreases NETWORK_SIZE - i,
        {
            dist.push(UNREACHED);
            prev.push(0);
            settled.push(false);
            i += 1;
        }
        dist[source_id] = 0;
        let ghost mut paths: Seq<Seq<NodeId>> = Seq::new(NETWORK_SIZE as nat, |k: int| seq![source]);
        proof {
            self.lemma_wf_view();
        }

        loop
            invariant
                self.wf(),
                source != dest,
                source_id == source,
                dest_id == dest,
                search_inv(
                    self@,
                    source,
                    dest,
                    Search { dist: dist@, settled: settled@, prev: prev@, paths },
                    -1,
                    Seq::empty(),
                ),
            decreases unsettled(settled@, NETWORK_SIZE as int),
        {
            let ghost s = Search { dist: dist@, settled: settled@, prev: prev@, paths };
            let mut best: usize = NETWORK_SIZE;
            let mut candidate: usize = 0;
            while candidate < NETWORK_SIZE
                invariant
                    candidate <= NETWORK_SIZE,
                    best <= NETWORK_SIZE,
                    dist@.len() == NETWORK_SIZE,
                    settled@.len() == NETWORK_SIZE,
                    best < NETWORK_SIZE ==> !settled@[best as int] && dist@[best as int]
                        != UNREACHED,
                    forall|y: int|
                        0 <= y < candidate && !#[trigger] settled@[y] && dist@[y] != UNREACHED
                            ==> best < NETWORK_SIZE && dist@[best as int] <= dist@[y],
                decreases NETWORK_SIZE - candidate,
            {
                if !settled[candidate] && dist[candidate] != UNREACHED && (best == NETWORK_SIZE
                    || dist[candidate] <= dist[best]) {
                    best = candidate;
                }
                candidate += 1;
            }
            if best == NETWORK_SIZE {
                proof {
                    assert forall|other: Seq<NodeId>| !#[trigger] self@.is_route(
                        source,
                        dest,
                        other,
                    ) by {
                        if self@.is_route(source, dest, other) {
                            lemma_frontier(self@, source, dest, s, other);
                        }
                    }
                }
                return Err(RoutingError::NoPathFound);
            }
            let position = best;
            if position == dest_id {
                proof {
                    lemma_search_chained(self@, source, dest, s);
                }
                let path = trace_back(&prev, source, dest, Ghost(paths), Ghost(reached_by(s)));
                proof {
                    assert(witnessed(self@, source, dest, s, dest as int));
                    assert forall|other: Seq<NodeId>| #[trigger]
                        self@.is_route(source, dest, other) implies self@.route_cost(path@)
                        <= self@.route_cost(other) by {
                        lemma_frontier(self@, source, dest, s, other);
                    }
                }
                return Ok(path);
            }
            settled[position] = true;
            proof {
                lemma_settle(self@, source, dest, s, position as int);
                lemma_unsettled_drops(s.settled, position as int, NETWORK_SIZE as int);
            }
            let pdr = dist[position];
            let neighbors = self.neighbors(position as NodeId);
            let mut k: usize = 0;
            while k < neighbors.len()
                invariant
                    self.wf(),
                    k <= neighbors@.len(),
                    position < NETWORK_SIZE,
                    position != dest,
                    dest_id == dest,
                    settled@.len() == NETWORK_SIZE,
                    settled@[position as int],
                    dist@.len() == NETWORK_SIZE,
                    prev@.len() == NETWORK_SIZE,
                    dist@[position as int] == pdr,
                    forall|j: int|
                        0 <= j < neighbors@.len() ==> self@.adjacent(
                            position as NodeId,
                            #[trigger] neighbors@[j],
                        ),
                    forall|x: int|
                        0 <= x < NETWORK_SIZE && #[trigger] settled@[x] ==> dist@[x] <= pdr,
                    search_inv(
                        self@,
                        source,
                        dest,
                        Search { dist: dist@, settled: settled@, prev: prev@, paths },
                        position as int,
                        neighbors@.take(k as int),
                    ),
                decreases neighbors@.len() - k,
            {
                let ghost now = Search { dist: dist@, settled: settled@, prev: prev@, paths };
                let neighbor = neighbors[k];
                let neighbor_id = neighbor as usize;
                proof {
                    assert(witnessed(self@, source, dest, now, position as int));
                }
                if neighbor == dest || self.node_type(neighbor) == NodeType::Drone {
                    let next_pdr = extend(pdr, self.get_observed_pdr(neighbor));
                    if next_pdr < dist[neighbor_id] {
                        dist[neighbor_id] = next_pdr;
                        prev[neighbor_id] = position;
                        proof {
                            lemma_relax_reach(
                                self@,
                                source,
                                dest,
                                now,
                                position as int,
                                neighbors@.take(k as int),
                                neighbor,
                                next_pdr,
                            );
                            paths = paths.update(
                                neighbor as int,
                                paths[position as int].push(neighbor),
                            );
                        }
                    }
                }
                k += 1;
            }
            proof {
                assert(neighbors@.take(k as int) =~= neighbors@);
            }
        }
    }
}

} // verus!
