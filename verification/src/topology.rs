//! The map of the network: which nodes are linked, what each node is, and how
//! often each node has been seen to deliver or to drop.

use crate::bitrow::{row_bits, row_get, row_new, row_ones, row_set, BitRow};
use crate::packet::{NodeId, NodeType};
use vstd::prelude::*;

verus! {

/// Number of node slots in the map.
pub const NETWORK_SIZE: usize = 256;

/// Milliseconds after a reset during which the map counts as still filling.
pub const ESTIMATED_UPDATE_TIME: u64 = 2000;

/// Fixed-point one: drop rates and path costs are fractions of this value.
pub const PDR_SCALE: u64 = 0x1000_0000_0000_0000;

/// Deliveries and drops seen at one node. Both start at one.
struct Rate {
    success: u64,
    failure: u64,
}

/// Why no route was returned.
#[derive(Debug, Clone, Copy, PartialEq, Eq, Structural)]
pub enum RoutingError {
    NoPathFound,
    SourceIsDest,
}

/// The map as mathematics.
pub struct TopologyView {
    /// The node that owns the map.
    pub node_id: NodeId,
    /// The ordered pairs of linked nodes.
    pub edges: Set<(NodeId, NodeId)>,
    /// The kind recorded for each of the 256 nodes.
    pub kinds: Seq<NodeType>,
    /// Deliveries seen at each node.
    pub successes: Seq<u64>,
    /// Drops seen at each node.
    pub failures: Seq<u64>,
    /// When the map was last reset, if ever.
    pub last_reset: Option<u64>,
}

/// One more observation, held at the top of the range.
pub open spec fn bump(count: u64) -> u64 {
    if count < u64::MAX {
        (count + 1) as u64
    } else {
        count
    }
}

/// Drop rate from counters, as a fraction of [`PDR_SCALE`], rounded down;
/// zero where nothing was observed.
pub open spec fn drop_rate(success: u64, failure: u64) -> int {
    if success + failure > 0 {
        (failure * PDR_SCALE) / (success + failure)
    } else {
        0
    }
}

impl TopologyView {
    /// Symmetric links, no link from a node to itself, one kind and one pair
    /// of counters per node, and the owner recorded as a server.
    pub open spec fn wf(self) -> bool {
        &&& forall|a: NodeId, b: NodeId| self.edges.contains((a, b)) == self.edges.contains((b, a))
        &&& forall|a: NodeId| !self.edges.contains((a, a))
        &&& self.kinds.len() == NETWORK_SIZE
        &&& self.successes.len() == NETWORK_SIZE
        &&& self.failures.len() == NETWORK_SIZE
        &&& self.kinds[self.node_id as int] == NodeType::Server
    }

    pub open spec fn adjacent(self, a: NodeId, b: NodeId) -> bool {
        self.edges.contains((a, b))
    }

    pub open spec fn kind(self, node: NodeId) -> NodeType {
        self.kinds[node as int]
    }

    /// Observed drop rate of a node.
    pub open spec fn pdr(self, node: NodeId) -> int {
        drop_rate(self.successes[node as int], self.failures[node as int])
    }

    /// The kinds after a node announced `kind`: the owner's never changes.
    pub open spec fn learn_kind(self, node: NodeId, kind: NodeType) -> Seq<NodeType> {
        if node == self.node_id {
            self.kinds
        } else {
            self.kinds.update(node as int, kind)
        }
    }

    /// The map with both nodes linked and their kinds recorded, the second
    /// after the first. A node is never linked to itself.
    pub open spec fn insert_edge(self, node1: (NodeId, NodeType), node2: (NodeId, NodeType)) -> Self {
        let linked = if node1.0 == node2.0 {
            self.edges
        } else {
            self.edges.insert((node1.0, node2.0)).insert((node2.0, node1.0))
        };
        let first = TopologyView { kinds: self.learn_kind(node1.0, node1.1), ..self };
        TopologyView { edges: linked, kinds: first.learn_kind(node2.0, node2.1), ..self }
    }

    /// The map without the link between the two nodes.
    pub open spec fn remove_edge(self, a: NodeId, b: NodeId) -> Self {
        TopologyView { edges: self.edges.remove((a, b)).remove((b, a)), ..self }
    }

    /// The map emptied at time `now`: no links, every node but the owner a
    /// drone, the counters as they were.
    pub open spec fn reset(self, now: u64) -> Self {
        TopologyView {
            edges: Set::empty(),
            kinds: Seq::new(NETWORK_SIZE as nat, |i: int| NodeType::Drone).update(
                self.node_id as int,
                NodeType::Server,
            ),
            last_reset: Some(now),
            ..self
        }
    }

    /// Whether at time `now` the last reset is less than the grace period ago.
    pub open spec fn is_updating(self, now: u64) -> bool {
        match self.last_reset {
            Some(at) => now - at < ESTIMATED_UPDATE_TIME,
            None => false,
        }
    }

    pub open spec fn observe_success(self, node: NodeId) -> Self {
        TopologyView {
            successes: self.successes.update(node as int, bump(self.successes[node as int])),
            ..self
        }
    }

    pub open spec fn observe_failure(self, node: NodeId) -> Self {
        TopologyView {
            failures: self.failures.update(node as int, bump(self.failures[node as int])),
            ..self
        }
    }
}

/// One change of the links of a map.
pub enum EdgeChange {
    Insert((NodeId, NodeType), (NodeId, NodeType)),
    Remove(NodeId, NodeId),
}

impl TopologyView {
    /// The map after one change of its links.
    pub open spec fn change(self, change: EdgeChange) -> Self {
        match change {
            EdgeChange::Insert(node1, node2) => self.insert_edge(node1, node2),
            EdgeChange::Remove(a, b) => self.remove_edge(a, b),
        }
    }

    /// The map after a run of changes of its links, in order.
    pub open spec fn change_all(self, changes: Seq<EdgeChange>) -> Self
        decreases changes.len(),
    {
        if changes.len() == 0 {
            self
        } else {
            self.change_all(changes.drop_last()).change(changes.last())
        }
    }
}

/// Linking two nodes keeps a map well formed.
pub proof fn lemma_insert_edge_wf(
    map: TopologyView,
    node1: (NodeId, NodeType),
    node2: (NodeId, NodeType),
)
    requires
        map.wf(),
    ensures
        map.insert_edge(node1, node2).wf(),
{
}

/// Unlinking two nodes keeps a map well formed.
pub proof fn lemma_remove_edge_wf(map: TopologyView, a: NodeId, b: NodeId)
    requires
        map.wf(),
    ensures
        map.remove_edge(a, b).wf(),
{
}

/// Whatever links are added and removed, in whatever order, the links stay
/// symmetric and no node is linked to itself.
pub proof fn lemma_edges_stay_symmetric(map: TopologyView, changes: Seq<EdgeChange>)
    requires
        map.wf(),
    ensures
        map.change_all(changes).wf(),
        forall|a: NodeId, b: NodeId|
            map.change_all(changes).adjacent(a, b) == map.change_all(changes).adjacent(b, a),
        forall|a: NodeId| !map.change_all(changes).adjacent(a, a),
    decreases changes.len(),
{
    if changes.len() > 0 {
        let before = map.change_all(changes.drop_last());
        lemma_edges_stay_symmetric(map, changes.drop_last());
        match changes.last() {
            EdgeChange::Insert(node1, node2) => lemma_insert_edge_wf(before, node1, node2),
            EdgeChange::Remove(a, b) => lemma_remove_edge_wf(before, a, b),
        }
    }
}

/// The network as this node knows it.
pub struct Topology {
    node_id: NodeId,
    graph: Vec<BitRow>,
    types: Vec<NodeType>,
    observed_trend: Vec<Rate>,
    last_reset: Option<u64>,
}

impl View for Topology {
    type V = TopologyView;

    closed spec fn view(&self) -> TopologyView {
        TopologyView {
            node_id: self.node_id,
            edges: Set::new(
                |e: (NodeId, NodeId)| row_bits(self.graph@[e.0 as int])[e.1 as int],
            ),
            kinds: self.types@,
            successes: Seq::new(NETWORK_SIZE as nat, |i: int| self.observed_trend@[i].success),
            failures: Seq::new(NETWORK_SIZE as nat, |i: int| self.observed_trend@[i].failure),
            last_reset: self.last_reset,
        }
    }
}

impl Topology {
    /// The representation is whole and its view is well formed.
    pub closed spec fn wf(&self) -> bool {
        &&& self.graph@.len() == NETWORK_SIZE
        &&& self.types@.len() == NETWORK_SIZE
        &&& self.observed_trend@.len() == NETWORK_SIZE
        &&& forall|i: int| 0 <= i < NETWORK_SIZE ==> (#[trigger] row_bits(self.graph@[i])).len() == NETWORK_SIZE
        &&& self@.wf()
    }

    /// Well-formedness of the map carries over to its view.
    pub proof fn lemma_wf_view(&self)
        requires
            self.wf(),
        ensures
            self@.wf(),
    {
    }

    /// An empty map owned by `node_id`: no links, the owner a server, every
    /// other node a drone, all counters at one, never reset.
    pub fn new(node_id: NodeId) -> (topology: Topology)
        ensures
            topology.wf(),
            topology@.node_id == node_id,
            topology@.edges == Set::<(NodeId, NodeId)>::empty(),
            topology@.kinds == Seq::new(NETWORK_SIZE as nat, |i: int| NodeType::Drone).update(
                node_id as int,
                NodeType::Server,
            ),
            topology@.successes == Seq::new(NETWORK_SIZE as nat, |i: int| 1u64),
            topology@.failures == Seq::new(NETWORK_SIZE as nat, |i: int| 1u64),
            topology@.last_reset == None::<u64>,
    {
        let mut graph: Vec<BitRow> = Vec::new();
        let mut types: Vec<NodeType> = Vec::new();
        let mut observed_trend: Vec<Rate> = Vec::new();
        let mut i: usize = 0;
        while i < NETWORK_SIZE
            invariant
                i <= NETWORK_SIZE,
                graph@.len() == i,
                types@.len() == i,
                observed_trend@.len() == i,
                forall|k: int| 0 <= k < i ==> (#[trigger] row_bits(graph@[k])).len() == NETWORK_SIZE,
                forall|k: int, j: int| 0 <= k < i && 0 <= j < NETWORK_SIZE ==> !(#[trigger] row_bits(graph@[k])[j]),
                forall|k: int| 0 <= k < i ==> #[trigger] types@[k] == NodeType::Drone,
                forall|k: int| 0 <= k < i ==> (#[trigger] observed_trend@[k]).success == 1 && observed_trend@[k].failure == 1,
            decreases NETWORK_SIZE - i,
        {
            graph.push(row_new());
            types.push(NodeType::Drone);
            observed_trend.push(Rate { success: 1, failure: 1 });
            i += 1;
        }
        types[node_id as usize] = NodeType::Server;
        let topology = Topology { node_id, graph, types, observed_trend, last_reset: None };
        topology
    }

    /// The node that owns the map.
    pub fn node_id(&self) -> (id: NodeId)
        ensures
            id == self@.node_id,
    {
        self.node_id
    }

    /// Number of node slots, always [`NETWORK_SIZE`].
    pub fn size(&self) -> (n: usize)
        requires
            self.wf(),
        ensures
            n == NETWORK_SIZE,
            n == self@.kinds.len(),
    {
        self.graph.len()
    }

    /// Whether the two nodes are linked.
    pub fn has_edge(&self, a: NodeId, b: NodeId) -> (linked: bool)
        requires
            self.wf(),
        ensures
            linked == self@.adjacent(a, b),
    {
        row_get(&self.graph[a as usize], b as usize)
    }

    /// The kind recorded for a node.
    pub fn node_type(&self, node: NodeId) -> (kind: NodeType)
        requires
            self.wf(),
        ensures
            kind == self@.kind(node),
    {
        self.types[node as usize]
    }

    /// Number of deliveries seen at `node`, counting from one.
    pub fn successes(&self, node: NodeId) -> (count: u64)
        requires
            self.wf(),
        ensures
            count == self@.successes[node as int],
    {
        self.observed_trend[node as usize].success
    }

    /// Number of drops seen at `node`, counting from one.
    pub fn failures(&self, node: NodeId) -> (count: u64)
        requires
            self.wf(),
        ensures
            count == self@.failures[node as int],
    {
        self.observed_trend[node as usize].failure
    }

    /// The nodes linked to `node`, in increasing order.
    pub fn neighbors(&self, node: NodeId) -> (list: Vec<NodeId>)
        requires
            self.wf(),
        ensures
            forall|k: int| 0 <= k < list@.len() ==> self@.adjacent(node, #[trigger] list@[k]),
            forall|j: int, k: int| 0 <= j < k < list@.len() ==> list@[j] < list@[k],
            forall|b: NodeId| self@.adjacent(node, b) ==> list@.contains(b),
    {
        let ones = row_ones(&self.graph[node as usize]);
        let ghost bits = row_bits(self.graph@[node as int]);
        let mut list: Vec<NodeId> = Vec::new();
        let mut k: usize = 0;
        while k < ones.len()
            invariant
                k <= ones@.len(),
                bits.len() == NETWORK_SIZE,
                list@.len() == k,
                forall|i: int| 0 <= i < ones@.len() ==> (#[trigger] ones@[i]) < NETWORK_SIZE,
                forall|i: int| 0 <= i < k ==> (#[trigger] list@[i]) as usize == ones@[i],
            decreases ones@.len() - k,
        {
            list.push(ones[k] as NodeId);
            k += 1;
        }
        proof {
            assert forall|b: NodeId| self@.adjacent(node, b) implies list@.contains(b) by {
                let i = choose|i: int| 0 <= i < ones@.len() && ones@[i] == b as usize;
                assert(list@[i] == b);
            }
        }
        list
    }

    /// Links two nodes and records the kind that each announced. The owner's
    /// kind is never overwritten, and a node is never linked to itself.
    pub fn insert_edge(&mut self, node1: (NodeId, NodeType), node2: (NodeId, NodeType))
        requires
            old(self).wf(),
        ensures
            final(self).wf(),
            final(self)@ == old(self)@.insert_edge(node1, node2),
    {
        let node1_id = node1.0 as usize;
        let node2_id = node2.0 as usize;

        if node1_id != node2_id {
            row_set(&mut self.graph[node1_id], node2_id, true);
            row_set(&mut self.graph[node2_id], node1_id, true);
        }
        if self.node_id != node1.0 {
            self.types[node1_id] = node1.1;
        }
        if self.node_id != node2.0 {
            self.types[node2_id] = node2.1;
        }
        proof {
            let goal = old(self)@.insert_edge(node1, node2);
            assert(self@.edges =~= goal.edges);
        }
    }

    /// Removes the link between two nodes, if there is one.
    pub fn remove_edge(&mut self, node1_id: NodeId, node2_id: NodeId)
        requires
            old(self).wf(),
        ensures
            final(self).wf(),
            final(self)@ == old(self)@.remove_edge(node1_id, node2_id),
    {
        let n1_id = node1_id as usize;
        let n2_id = node2_id as usize;

        row_set(&mut self.graph[n1_id], n2_id, false);
        row_set(&mut self.graph[n2_id], n1_id, false);
        proof {
            let goal = old(self)@.remove_edge(node1_id, node2_id);
            assert(self@.edges =~= goal.edges);
        }
    }

    /// Forgets every link and every kind but the owner's, and notes `now`, in
    /// milliseconds on the caller's clock, as the time of the reset. The
    /// counters stay.
    pub fn reset(&mut self, now: u64)
        requires
            old(self).wf(),
        ensures
            final(self).wf(),
            final(self)@ == old(self)@.reset(now),
    {
        let mut i: usize = 0;
        while i < NETWORK_SIZE
            invariant
                i <= NETWORK_SIZE,
                self.graph@.len() == NETWORK_SIZE,
                self.types@.len() == NETWORK_SIZE,
                self.node_id == old(self).node_id,
                self.observed_trend == old(self).observed_trend,
                self.last_reset == old(self).last_reset,
                forall|k: int| 0 <= k < NETWORK_SIZE ==> (#[trigger] row_bits(self.graph@[k])).len() == NETWORK_SIZE,
                forall|k: int, j: int| 0 <= k < i && 0 <= j < NETWORK_SIZE ==> !(#[trigger] row_bits(self.graph@[k])[j]),
                forall|k: int| 0 <= k < i ==> #[trigger] self.types@[k] == NodeType::Drone,
            decreases NETWORK_SIZE - i,
        {
            self.graph[i] = row_new();
            self.types[i] = NodeType::Drone;
            i += 1;
        }
        self.types[self.node_id as usize] = NodeType::Server;
        self.last_reset = Some(now);
        proof {
            let goal = old(self)@.reset(now);
            assert(self@.edges =~= goal.edges);
            assert(self@.kinds =~= goal.kinds);
        }
    }

    /// Whether the map was reset less than [`ESTIMATED_UPDATE_TIME`]
    /// milliseconds before `now`. A map that was never reset is not updating.
    pub fn is_updating(&self, now: u64) -> (updating: bool)
        ensures
            updating == self@.is_updating(now),
    {
        match self.last_reset {
            Some(at) => now < at || now - at < ESTIMATED_UPDATE_TIME,
            None => false,
        }
    }

    /// Counts one delivery seen at `node`.
    pub fn observe_success(&mut self, node: NodeId)
        requires
            old(self).wf(),
        ensures
            final(self).wf(),
            final(self)@ == old(self)@.observe_success(node),
    {
        let seen = self.observed_trend[node as usize].success;
        if seen < u64::MAX {
            self.observed_trend[node as usize].success = seen + 1;
        }
        proof {
            let goal = old(self)@.observe_success(node);
            assert(self@.successes =~= goal.successes);
            assert(self@.failures =~= goal.failures);
        }
    }

    /// Counts one drop seen at `node`.
    pub fn observe_failure(&mut self, node: NodeId)
        requires
            old(self).wf(),
        ensures
            final(self).wf(),
            final(self)@ == old(self)@.observe_failure(node),
    {
        let seen = self.observed_trend[node as usize].failure;
        if seen < u64::MAX {
            self.observed_trend[node as usize].failure = seen + 1;
        }
        proof {
            let goal = old(self)@.observe_failure(node);
            assert(self@.successes =~= goal.successes);
            assert(self@.failures =~= goal.failures);
        }
    }

    /// Observed drop rate of `node`, as a fraction of [`PDR_SCALE`].
    pub fn get_observed_pdr(&self, node: NodeId) -> (pdr: u64)
        requires
            self.wf(),
        ensures
            pdr == self@.pdr(node),
            pdr <= PDR_SCALE,
    {
        let trend = &self.observed_trend[node as usize];
        let total: u128 = trend.success as u128 + trend.failure as u128;
        if total > 0 {
            assert(trend.failure as u128 * (PDR_SCALE as u128) <= 0xffff_ffff_ffff_ffff
                * 0x1000_0000_0000_0000) by (nonlinear_arith)
                requires
                    trend.failure <= 0xffff_ffff_ffff_ffff,
                    PDR_SCALE == 0x1000_0000_0000_0000,
            ;
            let scaled: u128 = trend.failure as u128 * (PDR_SCALE as u128);
            proof {
                lemma_drop_rate_bound(trend.success, trend.failure);
            }
            (scaled / total) as u64
        } else {
            0
        }
    }
}

/// A drop rate never exceeds [`PDR_SCALE`].
pub proof fn lemma_drop_rate_bound(success: u64, failure: u64)
    ensures
        0 <= drop_rate(success, failure) <= PDR_SCALE,
{
    if success + failure > 0 {
        let total = success + failure;
        assert((failure * PDR_SCALE) / total <= PDR_SCALE) by (nonlinear_arith)
            requires
                failure * PDR_SCALE <= total * PDR_SCALE,
                total > 0,
        ;
    }
}

} // verus!
