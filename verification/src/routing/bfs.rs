//! The breadth-first search for a route with as few nodes as any.

use super::{chained, is_trail, lemma_unsettled_drops, linked, trace_back, unsettled};
use crate::packet::{NodeId, NodeType};
use crate::topology::{RoutingError, Topology, TopologyView, NETWORK_SIZE};
use std::collections::VecDeque;
use vstd::prelude::*;

verus! {

/// What a breadth-first sweep has found so far: the nodes seen, the node
/// before each on the way to it and that way itself, the nodes whose links
/// have all been followed, and the nodes waiting for that.
struct Sweep {
    visited: Seq<bool>,
    prev: Seq<usize>,
    paths: Seq<Seq<NodeId>>,
    expanded: Seq<bool>,
    queue: Seq<usize>,
}

/// Whether a sweep goes on from `node`: from the source and from drones.
spec fn forwards(map: TopologyView, source: NodeId, node: int) -> bool {
    node == source || map.kinds[node] == NodeType::Drone
}

/// Number of steps on the way to node `v`.
spec fn depth(s: Sweep, v: int) -> int {
    s.paths[v].len() - 1
}

/// Every node seen has a trail to it and was seen from a node that
/// forwards.
spec fn sweep_trails(map: TopologyView, source: NodeId, s: Sweep) -> bool {
    &&& forall|v: int|
        0 <= v < NETWORK_SIZE && #[trigger] s.visited[v] ==> is_trail(map, source, s.paths[v])
    &&& forall|v: int|
        0 <= v < NETWORK_SIZE && #[trigger] s.visited[v] && v != source ==> forwards(
            map,
            source,
            s.prev[v] as int,
        )
}

/// Every node in the queue has been seen and forwards.
spec fn sweep_queue(map: TopologyView, source: NodeId, s: Sweep) -> bool {
    forall|k: int|
        0 <= k < s.queue.len() ==> {
            &&& 0 <= (#[trigger] s.queue[k]) < NETWORK_SIZE
            &&& s.visited[s.queue[k] as int]
            &&& forwards(map, source, s.queue[k] as int)
        }
}

/// Every node seen that forwards is expanded, waits in the queue, or is
/// being expanded.
spec fn sweep_pending(map: TopologyView, source: NodeId, s: Sweep, expanding: int) -> bool {
    forall|v: int|
        0 <= v < NETWORK_SIZE && #[trigger] s.visited[v] && forwards(map, source, v)
            ==> s.expanded[v] || s.queue.contains(v as usize) || v == expanding
}

/// Whether every neighbour of `x` is known to have been looked at: `x` is
/// expanded, or it is being expanded and `y` is among the neighbours done.
spec fn looked_at(s: Sweep, expanding: int, done: Seq<NodeId>, x: NodeId, y: NodeId) -> bool {
    s.expanded[x as int] || (x == expanding && done.contains(y))
}

/// Every neighbour looked at has been seen, one step further at most.
spec fn sweep_closed(map: TopologyView, s: Sweep, expanding: int, done: Seq<NodeId>) -> bool {
    forall|x: NodeId, y: NodeId|
        looked_at(s, expanding, done, x, y) && #[trigger] map.adjacent(x, y) ==> s.visited[y as int]
            && depth(s, y as int) <= depth(s, x as int) + 1
}

/// The sweep goes level by level: the node being expanded is `level` steps
/// away, the expanded ones no more, the waiting ones as many or one more,
/// the nearer first, and no node seen more than one more.
spec fn sweep_levels(s: Sweep, expanding: int, level: int) -> bool {
    &&& forall|v: int| 0 <= v < NETWORK_SIZE && #[trigger] s.visited[v] ==> depth(s, v) <= level + 1
    &&& forall|v: int| 0 <= v < NETWORK_SIZE && #[trigger] s.expanded[v] ==> depth(s, v) <= level
    &&& forall|k: int|
        0 <= k < s.queue.len() ==> level <= depth(s, #[trigger] s.queue[k] as int) <= level + 1
    &&& forall|j: int, k: int|
        0 <= j <= k < s.queue.len() ==> depth(s, #[trigger] s.queue[j] as int) <= depth(
            s,
            #[trigger] s.queue[k] as int,
        )
    &&& expanding >= 0 ==> depth(s, expanding) == level
}

/// What holds of a breadth-first sweep between two steps. While a node is
/// being expanded it is `expanding`, and `done` holds the neighbours
/// already looked at.
spec fn sweep_inv(
    map: TopologyView,
    source: NodeId,
    dest: NodeId,
    s: Sweep,
    expanding: int,
    done: Seq<NodeId>,
    level: int,
) -> bool {
    &&& map.wf()
    &&& source != dest
    &&& s.visited.len() == NETWORK_SIZE
    &&& s.expanded.len() == NETWORK_SIZE
    &&& chained(source, s.prev, s.paths, s.visited)
    &&& s.visited[source as int]
    &&& !s.visited[dest as int]
    &&& -1 <= expanding < NETWORK_SIZE
    &&& expanding >= 0 ==> s.visited[expanding] && forwards(map, source, expanding)
    &&& forall|v: int| 0 <= v < NETWORK_SIZE && #[trigger] s.expanded[v] ==> s.visited[v]
    &&& sweep_trails(map, source, s)
    &&& sweep_queue(map, source, s)
    &&& sweep_pending(map, source, s, expanding)
    &&& sweep_closed(map, s, expanding, done)
    &&& sweep_levels(s, expanding, level)
}

/// The sweep with the first waiting node taken out of the queue.
spec fn popped(s: Sweep) -> Sweep {
    Sweep { queue: s.queue.subrange(1, s.queue.len() as int), ..s }
}

/// The sweep with node `v` seen from node `u`, and put in the queue or
/// not.
spec fn seen(s: Sweep, u: int, v: int, enqueue: bool) -> Sweep {
    Sweep {
        visited: s.visited.update(v, true),
        prev: s.prev.update(v, u as usize),
        paths: s.paths.update(v, s.paths[u].push(v as NodeId)),
        queue: if enqueue {
            s.queue.push(v as usize)
        } else {
            s.queue
        },
        ..s
    }
}

/// The sweep with node `u` expanded.
spec fn closed(s: Sweep, u: int) -> Sweep {
    Sweep { expanded: s.expanded.update(u, true), ..s }
}

/// Taking the first waiting node out of the queue starts its expansion.
proof fn lemma_sweep_pop(map: TopologyView, source: NodeId, dest: NodeId, s: Sweep, level: int)
    requires
        sweep_inv(map, source, dest, s, -1, Seq::empty(), level),
        s.queue.len() > 0,
    ensures
        sweep_inv(
            map,
            source,
            dest,
            popped(s),
            s.queue[0] as int,
            Seq::empty(),
            depth(s, s.queue[0] as int),
        ),
{
    let t = popped(s);
    let u = s.queue[0] as int;
    assert(sweep_pending(map, source, t, u)) by {
        assert forall|v: int|
            0 <= v < NETWORK_SIZE && #[trigger] t.visited[v] && forwards(
                map,
                source,
                v,
            ) implies t.expanded[v] || t.queue.contains(v as usize) || v == u by {
            if !t.expanded[v] && v != u {
                let k = choose|k: int| 0 <= k < s.queue.len() && s.queue[k] == v as usize;
                assert(t.queue[k - 1] == v as usize);
            }
        }
    }
}

/// A neighbour seen for the first time gets its way from the node being
/// expanded, and waits in the queue if it forwards.
proof fn lemma_sweep_see(
    map: TopologyView,
    source: NodeId,
    dest: NodeId,
    s: Sweep,
    u: int,
    done: Seq<NodeId>,
    level: int,
    v: NodeId,
    enqueue: bool,
)
    requires
        sweep_inv(map, source, dest, s, u, done, level),
        0 <= u,
        map.adjacent(u as NodeId, v),
        !s.visited[v as int],
        v != dest,
        enqueue == (map.kind(v) == NodeType::Drone),
    ensures
        sweep_inv(map, source, dest, seen(s, u, v as int, enqueue), u, done.push(v), level),
{
    let t = seen(s, u, v as int, enqueue);
    let vi = v as int;
    assert(linked(source, s.prev, s.paths, s.visited, u));
    assert(chained(source, t.prev, t.paths, t.visited)) by {
        assert forall|z: int| 0 <= z < NETWORK_SIZE && t.visited[z] implies #[trigger] linked(
            source,
            t.prev,
            t.paths,
            t.visited,
            z,
        ) by {
            if z != vi {
                assert(linked(source, s.prev, s.paths, s.visited, z));
            }
        }
    }
    assert(sweep_pending(map, source, t, u)) by {
        assert forall|z: int|
            0 <= z < NETWORK_SIZE && #[trigger] t.visited[z] && forwards(
                map,
                source,
                z,
            ) implies t.expanded[z] || t.queue.contains(z as usize) || z == u by {
            if z == vi {
                assert(t.queue[s.queue.len() as int] == vi as usize);
            } else if !t.expanded[z] && z != u {
                let j = choose|j: int| 0 <= j < s.queue.len() && s.queue[j] == z as usize;
                assert(t.queue[j] == z as usize);
            }
        }
    }
}

/// Once every neighbour of the node being expanded is looked at, the node
/// is expanded and the sweep is between two rounds again.
proof fn lemma_sweep_close(
    map: TopologyView,
    source: NodeId,
    dest: NodeId,
    s: Sweep,
    u: int,
    done: Seq<NodeId>,
    level: int,
)
    requires
        sweep_inv(map, source, dest, s, u, done, level),
        0 <= u,
        forall|y: NodeId| map.adjacent(u as NodeId, y) ==> done.contains(y),
    ensures
        sweep_inv(map, source, dest, closed(s, u), -1, Seq::empty(), level),
{
}

/// While a node `level` steps away is being expanded, every node that a
/// trail of no more than `level` steps leads to has been seen, no more
/// steps away than the trail is long.
proof fn lemma_sweep_near(
    map: TopologyView,
    source: NodeId,
    dest: NodeId,
    s: Sweep,
    u: int,
    done: Seq<NodeId>,
    level: int,
    trail: Seq<NodeId>,
)
    requires
        sweep_inv(map, source, dest, s, u, done, level),
        0 <= u,
        is_trail(map, source, trail),
        trail.len() - 1 <= level,
    ensures
        s.visited[trail.last() as int],
        depth(s, trail.last() as int) <= trail.len() - 1,
    decreases trail.len(),
{
    if trail.len() == 1 {
        assert(linked(source, s.prev, s.paths, s.visited, source as int));
    } else {
        let before = trail.drop_last();
        lemma_sweep_near(map, source, dest, s, u, done, level, before);
    }
}

/// A destination found from the node being expanded is found on a way
/// that no route beats in length.
proof fn lemma_sweep_found(
    map: TopologyView,
    source: NodeId,
    dest: NodeId,
    s: Sweep,
    u: int,
    done: Seq<NodeId>,
    level: int,
)
    requires
        sweep_inv(map, source, dest, s, u, done, level),
        0 <= u,
        map.adjacent(u as NodeId, dest),
    ensures
        chained(
            source,
            seen(s, u, dest as int, false).prev,
            seen(s, u, dest as int, false).paths,
            seen(s, u, dest as int, false).visited,
        ),
        map.is_route(source, dest, s.paths[u].push(dest)),
        forall|other: Seq<NodeId>| #[trigger]
            map.is_route(source, dest, other) ==> s.paths[u].push(dest).len() <= other.len(),
{
    let t = seen(s, u, dest as int, false);
    let found = s.paths[u].push(dest);
    assert(linked(source, s.prev, s.paths, s.visited, u));
    assert forall|z: int| 0 <= z < NETWORK_SIZE && t.visited[z] implies #[trigger] linked(
        source,
        t.prev,
        t.paths,
        t.visited,
        z,
    ) by {
        if z != dest {
            assert(linked(source, s.prev, s.paths, s.visited, z));
        }
    }
    assert forall|other: Seq<NodeId>| #[trigger]
        map.is_route(source, dest, other) implies found.len() <= other.len() by {
        if other.len() - 1 <= level {
            lemma_sweep_near(map, source, dest, s, u, done, level, other);
        }
    }
}

/// Along a route, a finished sweep that has not seen the destination would
/// have seen every node.
proof fn lemma_sweep_covers(
    map: TopologyView,
    source: NodeId,
    dest: NodeId,
    s: Sweep,
    level: int,
    route: Seq<NodeId>,
    i: int,
)
    requires
        sweep_inv(map, source, dest, s, -1, Seq::empty(), level),
        s.queue.len() == 0,
        map.is_route(source, dest, route),
        0 <= i < route.len(),
    ensures
        s.visited[route[i] as int],
    decreases i,
{
    if i > 0 {
        lemma_sweep_covers(map, source, dest, s, level, route, i - 1);
    }
}

/// A sweep that ends without the destination shows that there is no route.
proof fn lemma_sweep_no_route(map: TopologyView, source: NodeId, dest: NodeId, s: Sweep, level: int)
    requires
        sweep_inv(map, source, dest, s, -1, Seq::empty(), level),
        s.queue.len() == 0,
    ensures
        forall|route: Seq<NodeId>| !#[trigger] map.is_route(source, dest, route),
{
    assert forall|route: Seq<NodeId>| !#[trigger] map.is_route(source, dest, route) by {
        if map.is_route(source, dest, route) {
            lemma_sweep_covers(map, source, dest, s, level, route, route.len() - 1);
        }
    }
}

impl Topology {
    /// A route from `source` to `dest` with as few nodes as any, found by
    /// sweeping the map breadth first, the neighbours of a node in
    /// increasing order.
    pub fn bfs(&self, source: NodeId, dest: NodeId) -> (result: Result<Vec<NodeId>, RoutingError>)
        requires
            self.wf(),
        ensures
            match result {
                Ok(path) => {
                    &&& source != dest
                    &&& self@.is_route(source, dest, path@)
                    &&& forall|other: Seq<NodeId>| #[trigger]
                        self@.is_route(source, dest, other) ==> path@.len() <= other.len()
                },
                Err(RoutingError::SourceIsDest) => source == dest,
                Err(RoutingError::NoPathFound) => {
                    &&& source != dest
                    &&& forall|other: Seq<NodeId>| !#[trigger] self@.is_route(source, dest, other)
                },
            },
    {
        let source_id = source as usize;
        let dest_id = dest as usize;

        if source == dest {
            return Err(RoutingError::SourceIsDest);
        }
        let mut visited: Vec<bool> = Vec::new();
        let mut parent: Vec<usize> = Vec::new();
        let mut queue: VecDeque<usize> = VecDeque::new();
        let mut i: usize = 0;
        while i < NETWORK_SIZE
            invariant
                i <= NETWORK_SIZE,
                visited@.len() == i,
                parent@.len() == i,
                forall|k: int| 0 <= k < i ==> !visited@[k],
            decreases NETWORK_SIZE - i,
        {
            visited.push(false);
            parent.push(0);
            i += 1;
        }
        visited[source_id] = true;
        queue.push_back(source_id);
        let ghost mut paths: Seq<Seq<NodeId>> = Seq::new(NETWORK_SIZE as nat, |k: int| seq![source]);
        let ghost mut expanded: Seq<bool> = Seq::new(NETWORK_SIZE as nat, |k: int| false);
        let ghost mut level: int = 0;
        proof {
            self.lemma_wf_view();
            assert(queue@[0] == source_id);
        }

        loop
            invariant
                self.wf(),
                source_id == source,
                dest_id == dest,
                visited@.len() == NETWORK_SIZE,
                parent@.len() == NETWORK_SIZE,
                sweep_inv(
                    self@,
                    source,
                    dest,
                    Sweep { visited: visited@, prev: parent@, paths, expanded, queue: queue@ },
                    -1,
                    Seq::empty(),
                    level,
                ),
            decreases unsettled(visited@, NETWORK_SIZE as int) + queue@.len(),
        {
            let ghost start = Sweep {
                visited: visited@,
                prev: parent@,
                paths,
                expanded,
                queue: queue@,
            };
            let ghost measure = unsettled(visited@, NETWORK_SIZE as int) + queue@.len();
            let current = match queue.pop_front() {
                Some(current) => current,
                None => {
                    proof {
                        lemma_sweep_no_route(self@, source, dest, start, level);
                    }
                    return Err(RoutingError::NoPathFound);
                },
            };
            proof {
                lemma_sweep_pop(self@, source, dest, start, level);
                level = depth(start, current as int);
            }
            let neighbors = self.neighbors(current as NodeId);
            let mut k: usize = 0;
            while k < neighbors.len()
                invariant
                    self.wf(),
                    dest_id == dest,
                    k <= neighbors@.len(),
                    current < NETWORK_SIZE,
                    visited@.len() == NETWORK_SIZE,
                    parent@.len() == NETWORK_SIZE,
                    forall|j: int|
                        0 <= j < neighbors@.len() ==> self@.adjacent(
                            current as NodeId,
                            #[trigger] neighbors@[j],
                        ),
                    unsettled(visited@, NETWORK_SIZE as int) + queue@.len() < measure,
                    sweep_inv(
                        self@,
                        source,
                        dest,
                        Sweep { visited: visited@, prev: parent@, paths, expanded, queue: queue@ },
                        current as int,
                        neighbors@.take(k as int),
                        level,
                    ),
                decreases neighbors@.len() - k,
            {
                let ghost now = Sweep {
                    visited: visited@,
                    prev: parent@,
                    paths,
                    expanded,
                    queue: queue@,
                };
                let ghost done = neighbors@.take(k as int);
                let neighbor = neighbors[k];
                let neighbor_id = neighbor as usize;
                if !visited[neighbor_id] {
                    visited[neighbor_id] = true;
                    parent[neighbor_id] = current;
                    proof {
                        paths = paths.update(neighbor as int, paths[current as int].push(neighbor));
                        lemma_unsettled_drops(now.visited, neighbor as int, NETWORK_SIZE as int);
                    }
                    if neighbor_id == dest_id {
                        proof {
                            lemma_sweep_found(self@, source, dest, now, current as int, done, level);
                        }
                        return Ok(trace_back(&parent, source, dest, Ghost(paths), Ghost(visited@)));
                    } else if self.node_type(neighbor) == NodeType::Drone {
                        queue.push_back(neighbor_id);
                        proof {
                            lemma_sweep_see(
                                self@,
                                source,
                                dest,
                                now,
                                current as int,
                                done,
                                level,
                                neighbor,
                                true,
                            );
                        }
                    } else {
                        proof {
                            lemma_sweep_see(
                                self@,
                                source,
                                dest,
                                now,
                                current as int,
                                done,
                                level,
                                neighbor,
                                false,
                            );
                        }
                    }
                }
                k += 1;
            }
            proof {
                assert(neighbors@.take(k as int) =~= neighbors@);
                lemma_sweep_close(
                    self@,
                    source,
                    dest,
                    Sweep { visited: visited@, prev: parent@, paths, expanded, queue: queue@ },
                    current as int,
                    neighbors@,
                    level,
                );
                expanded = expanded.update(current as int, true);
            }
        }
    }
}

} // verus!
