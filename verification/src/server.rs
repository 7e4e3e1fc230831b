//! The server's packet-processing core as a state machine: each command,
//! each frame received and each idle moment changes the state and yields
//! the actions that the caller has to perform on the channels.

use crate::assembler::{payload, AssemblerStatus, InsertFragmentError};
use crate::assemblers_manager::{insert_outcome, slots_after, slots_for, AssemblersManager};
use crate::fragment_manager::{
    lemma_remove_all, FragmentManager, FragmentManagerView, ToBeSentFragment,
};
use crate::fragmenter::{is_fragmentation, next_session, Fragmenter};
use crate::packet::{
    Ack, FloodId, FragmentId, FloodRequest, FloodResponse, Fragment, Nack, NackType, NodeId, NodeType, Packet,
    PacketType, PacketTypeView, PacketView, SessionId, SourceRoutingHeader,
};
use crate::specialized_behavior::{AssembledResponse, SetPathError};
use crate::topology::{RoutingError, Topology, TopologyView, NETWORK_SIZE};
use std::io;
use vstd::prelude::*;

verus! {

/// What the controller can ask of the core. Commands that concern the
/// application behaviour do not reach it.
#[derive(Debug, Clone, Copy, PartialEq, Eq)]
pub enum ServerCommand {
    Crash,
    AddDrone(NodeId),
    RemoveDrone(NodeId),
}

/// What the caller has to do after a step.
#[derive(Debug, Clone, PartialEq, Eq)]
pub enum ServerAction {
    /// Hand `packet` to the channel of `neighbor`.
    Send { neighbor: NodeId, packet: Packet },
    /// Hand a complete message from `initiator` to the application
    /// behaviour, and its response back to the core.
    Deliver { payload: Vec<u8>, initiator: NodeId },
}

/// What the server reports to its controller.
#[derive(Debug)]
pub enum ServerEvent {
    PacketSent(Packet),
    MediaPathError(io::Error),
    UnexpectedCommand,
}

/// The report on an attempt to set the content directory: none when it
/// worked, the failure of the file system, or word that a server that
/// serves no content was asked.
pub fn set_path_event(outcome: Result<(), SetPathError>) -> (event: Option<ServerEvent>)
    ensures
        match outcome {
            Ok(_) => event is None,
            Err(SetPathError::FileSystem(err)) => event == Some(ServerEvent::MediaPathError(err)),
            Err(SetPathError::WrongServerType) => event == Some(ServerEvent::UnexpectedCommand),
        },
{
    match outcome {
        Ok(_) => None,
        Err(SetPathError::FileSystem(err)) => Some(ServerEvent::MediaPathError(err)),
        Err(SetPathError::WrongServerType) => Some(ServerEvent::UnexpectedCommand),
    }
}

/// The report on a frame that was handed to the channel of a neighbour:
/// the frame itself if the channel took it, none if it did not.
pub fn packet_sent_event(packet: Packet, accepted: bool) -> (event: Option<ServerEvent>)
    ensures
        event == if accepted {
            Some(ServerEvent::PacketSent(packet))
        } else {
            None::<ServerEvent>
        },
{
    if accepted {
        Some(ServerEvent::PacketSent(packet))
    } else {
        None
    }
}

/// An action as mathematics.
pub enum ActionView {
    Send { neighbor: NodeId, packet: PacketView },
    Deliver { payload: Seq<u8>, initiator: NodeId },
}

impl View for ServerAction {
    type V = ActionView;

    open spec fn view(&self) -> ActionView {
        match *self {
            ServerAction::Send { neighbor, packet } => ActionView::Send {
                neighbor,
                packet: packet@,
            },
            ServerAction::Deliver { payload, initiator } => ActionView::Deliver {
                payload: payload@,
                initiator,
            },
        }
    }
}

/// The actions of a step as mathematics.
pub open spec fn action_views(actions: Seq<ServerAction>) -> Seq<ActionView> {
    Seq::new(actions.len(), |i: int| actions[i]@)
}

/// The members of `set` below `upto`, in increasing order.
pub open spec fn ascending(set: Set<NodeId>, upto: int) -> Seq<NodeId>
    decreases upto,
{
    if upto <= 0 {
        Seq::empty()
    } else if set.contains((upto - 1) as NodeId) {
        ascending(set, upto - 1).push((upto - 1) as NodeId)
    } else {
        ascending(set, upto - 1)
    }
}

/// The flood request that node `id` sends out under `flood_id`.
pub open spec fn probe(id: NodeId, flood_id: FloodId) -> PacketView {
    PacketView {
        hop_index: 0,
        hops: Seq::empty(),
        session_id: 0,
        pack_type: PacketTypeView::FloodRequest {
            flood_id,
            initiator_id: id,
            path_trace: seq![(id, NodeType::Server)],
        },
    }
}

/// One flood request for each of `targets`, numbered from `flood_id` on.
pub open spec fn probes(id: NodeId, targets: Seq<NodeId>, flood_id: FloodId) -> Seq<ActionView> {
    Seq::new(
        targets.len(),
        |i: int| ActionView::Send { neighbor: targets[i], packet: probe(id, (flood_id + i) as u64) },
    )
}

/// The map after the links of the first `n` steps of `trace` were learnt,
/// in order.
pub open spec fn learn(map: TopologyView, trace: Seq<(NodeId, NodeType)>, n: int) -> TopologyView
    decreases n,
{
    if n <= 0 {
        map
    } else {
        learn(map, trace, n - 1).insert_edge(trace[n - 1], trace[n])
    }
}

/// The nodes of `trace`, the last one first.
pub open spec fn backwards(trace: Seq<(NodeId, NodeType)>) -> Seq<NodeId> {
    Seq::new(trace.len(), |i: int| trace[trace.len() - 1 - i].0)
}

/// Whether `path` is a route from `source` to `dest` that no other route
/// beats.
pub open spec fn is_best_route(map: TopologyView, source: NodeId, dest: NodeId, path: Seq<NodeId>) -> bool {
    &&& map.is_route(source, dest, path)
    &&& forall|other: Seq<NodeId>| #[trigger]
        map.is_route(source, dest, other) ==> map.route_cost(path) <= map.route_cost(other)
}

/// The frame that carries `record` along `path`.
pub open spec fn fragment_packet(record: ToBeSentFragment, path: Seq<NodeId>) -> PacketView {
    PacketView {
        hop_index: 1,
        hops: path,
        session_id: record.session_id,
        pack_type: PacketTypeView::MsgFragment(record.fragment),
    }
}

/// The core as mathematics.
pub struct ServerView {
    /// The node that the server is.
    pub id: NodeId,
    /// The nodes to which the caller holds a channel.
    pub neighbors: Set<NodeId>,
    /// The session id of the next response.
    pub next_session: SessionId,
    /// The slots of each incoming session.
    pub sessions: Map<SessionId, Seq<Option<Fragment>>>,
    /// The outgoing fragments.
    pub outbound: FragmentManagerView,
    /// The map of the network.
    pub topology: TopologyView,
    /// Whether a crash was asked for.
    pub should_terminate: bool,
    /// The number of the next flood request.
    pub flood_id: FloodId,
}

impl ServerView {
    /// The map is well formed and owned by the server.
    pub open spec fn wf(self) -> bool {
        self.topology.wf() && self.topology.node_id == self.id
    }

    /// The nodes that a discovery writes to, in the order of the requests.
    pub open spec fn targets(self) -> Seq<NodeId> {
        ascending(self.neighbors, NETWORK_SIZE as int)
    }

    /// The state after a drone became a neighbour: linked to the server on
    /// the map, and reachable through a channel.
    pub open spec fn add_drone(self, drone_id: NodeId) -> Self {
        ServerView {
            topology: self.topology.insert_edge(
                (self.id, NodeType::Server),
                (drone_id, NodeType::Drone),
            ),
            neighbors: self.neighbors.insert(drone_id),
            ..self
        }
    }

    /// The state after a drone stopped being a neighbour: no longer linked
    /// to the server on the map. Its channel stays.
    pub open spec fn remove_drone(self, drone_id: NodeId) -> Self {
        ServerView { topology: self.topology.remove_edge(self.id, drone_id), ..self }
    }

    /// The state after a command.
    pub open spec fn on_command(self, command: ServerCommand) -> Self {
        match command {
            ServerCommand::Crash => ServerView { should_terminate: true, ..self },
            ServerCommand::AddDrone(drone_id) => self.add_drone(drone_id),
            ServerCommand::RemoveDrone(drone_id) => self.remove_drone(drone_id),
        }
    }

    /// The map after the first node of `hops`, if there is one, was seen to
    /// deliver or to drop.
    pub open spec fn observe(self, hops: Seq<NodeId>, delivered: bool) -> TopologyView {
        if hops.len() == 0 {
            self.topology
        } else if delivered {
            self.topology.observe_success(hops[0])
        } else {
            self.topology.observe_failure(hops[0])
        }
    }

    /// The state after a discovery was started at time `now`: the map
    /// emptied, one flood request numbered for each neighbour.
    pub open spec fn discover(self, now: u64) -> Self {
        ServerView {
            topology: self.topology.reset(now),
            flood_id: (self.flood_id + self.targets().len()) as u64,
            ..self
        }
    }

    /// The state after a cached fragment was put in line again.
    pub open spec fn requeue(self, session_id: SessionId, index: u64) -> Self {
        ServerView { outbound: self.outbound.insert_from_cache((session_id, index)), ..self }
    }

    /// State and actions after an acknowledgement: the reporting node is
    /// credited and the fragment leaves the cache.
    pub open spec fn on_ack(self, session_id: SessionId, ack: Ack, hops: Seq<NodeId>) -> Self {
        ServerView {
            topology: self.observe(hops, true),
            outbound: self.outbound.remove_from_cache((session_id, ack.fragment_index)),
            ..self
        }
    }

    /// State and actions after a negative acknowledgement at time `now`:
    /// the reporting node is debited; a dropped fragment goes in line again;
    /// a routing failure also starts a discovery; a fragment that reached
    /// the wrong node is given up.
    pub open spec fn on_nack(self, session_id: SessionId, nack: Nack, hops: Seq<NodeId>, now: u64) -> (
        Self,
        Seq<ActionView>,
    ) {
        let seen = ServerView { topology: self.observe(hops, false), ..self };
        match nack.nack_type {
            NackType::Dropped => (seen.requeue(session_id, nack.fragment_index), Seq::empty()),
            NackType::DestinationIsDrone | NackType::ErrorInRouting(_) => (
                seen.discover(now).requeue(session_id, nack.fragment_index),
                probes(self.id, self.targets(), self.flood_id),
            ),
            NackType::UnexpectedRecipient(_) => (seen, Seq::empty()),
        }
    }

    /// State and actions after a fragment of a message arrived: it goes to
    /// the slots of its session; once they are full the message is handed
    /// out in the name of the first node of `hops` and the session is
    /// forgotten. A message that comes with no hops is dropped.
    pub open spec fn on_fragment(self, session_id: SessionId, fragment: Fragment, hops: Seq<NodeId>) -> (
        Self,
        Seq<ActionView>,
    ) {
        let slots = slots_for(self.sessions, session_id, fragment);
        let filled = slots_after(slots, fragment);
        if insert_outcome(slots, fragment) == Ok::<AssemblerStatus, InsertFragmentError>(
            AssemblerStatus::Complete,
        ) {
            (
                ServerView { sessions: self.sessions.remove(session_id), ..self },
                if hops.len() > 0 {
                    seq![ActionView::Deliver { payload: payload(filled), initiator: hops[0] }]
                } else {
                    Seq::empty()
                },
            )
        } else {
            (ServerView { sessions: self.sessions.insert(session_id, filled), ..self }, Seq::empty())
        }
    }

    /// The way back for the answer to a flood request: the trace with the
    /// server added, walked backwards, and then the initiator if the trace
    /// did not start with it.
    pub open spec fn reply_hops(self, initiator_id: NodeId, trace: Seq<(NodeId, NodeType)>) -> Seq<
        NodeId,
    > {
        let back = backwards(trace.push((self.id, NodeType::Server)));
        if back.last() != initiator_id {
            back.push(initiator_id)
        } else {
            back
        }
    }

    /// The answer to a flood request.
    pub open spec fn flood_reply(
        self,
        session_id: SessionId,
        flood_id: FloodId,
        initiator_id: NodeId,
        trace: Seq<(NodeId, NodeType)>,
    ) -> PacketView {
        PacketView {
            hop_index: 1,
            hops: self.reply_hops(initiator_id, trace),
            session_id,
            pack_type: PacketTypeView::FloodResponse {
                flood_id,
                path_trace: trace.push((self.id, NodeType::Server)),
            },
        }
    }

    /// The actions that put `packet` on its way: one send to its second
    /// hop if the caller holds a channel to it, none otherwise.
    pub open spec fn dispatch(self, packet: PacketView) -> Seq<ActionView> {
        if packet.hop_index < packet.hops.len() && self.neighbors.contains(
            packet.hops[packet.hop_index as int],
        ) {
            seq![ActionView::Send { neighbor: packet.hops[packet.hop_index as int], packet }]
        } else {
            Seq::empty()
        }
    }

    /// The state after the trace of a flood response was learnt.
    pub open spec fn on_flood_response(self, trace: Seq<(NodeId, NodeType)>) -> Self {
        ServerView { topology: learn(self.topology, trace, trace.len() - 1), ..self }
    }

    /// State and actions after a frame arrived at time `now`.
    pub open spec fn on_packet(self, packet: PacketView, now: u64) -> (Self, Seq<ActionView>) {
        match packet.pack_type {
            PacketTypeView::Ack(ack) => (
                self.on_ack(packet.session_id, ack, packet.hops),
                Seq::empty(),
            ),
            PacketTypeView::Nack(nack) => self.on_nack(packet.session_id, nack, packet.hops, now),
            PacketTypeView::MsgFragment(fragment) => self.on_fragment(
                packet.session_id,
                fragment,
                packet.hops,
            ),
            PacketTypeView::FloodRequest { flood_id, initiator_id, path_trace } => (
                self,
                self.dispatch(self.flood_reply(packet.session_id, flood_id, initiator_id, path_trace)),
            ),
            PacketTypeView::FloodResponse { flood_id, path_trace } => (
                self.on_flood_response(path_trace),
                Seq::empty(),
            ),
        }
    }

    /// The state with the first waiting fragment taken out of the line.
    pub open spec fn popped(self) -> Self {
        ServerView {
            outbound: FragmentManagerView {
                buffer: self.outbound.buffer.subrange(1, self.outbound.buffer.len() as int),
                ..self.outbound
            },
            ..self
        }
    }

    /// State and actions when no route leads to the destination of
    /// `record` at time `now`: the fragment goes in line again from the
    /// cache, and a discovery starts unless one is under way.
    pub open spec fn on_no_route(self, record: ToBeSentFragment, now: u64) -> (Self, Seq<ActionView>) {
        let again = self.requeue(record.session_id, record.fragment.fragment_index);
        if self.topology.is_updating(now) {
            (again, Seq::empty())
        } else {
            (again.discover(now), probes(self.id, self.targets(), self.flood_id))
        }
    }

    /// The state after a response was cut into fragments and handed to the
    /// outgoing side.
    pub open spec fn on_response(self, records: Seq<ToBeSentFragment>, message: Seq<u8>) -> Self {
        ServerView {
            next_session: next_session(self.next_session, message) as u64,
            outbound: self.outbound.insert_bulk(records, records.len() as int),
            ..self
        }
    }
}

/// Whether `post` and `actions` are what sending `record` at time `now`
/// leads to from `pre`. A fragment for the server itself is dropped. Where
/// a route exists the fragment leaves along a best one, if the caller
/// holds a channel to its second node, and is dropped otherwise. Where
/// none exists the fragment goes in line again from the cache and a
/// discovery starts unless one is under way.
pub open spec fn sent(
    pre: ServerView,
    record: ToBeSentFragment,
    now: u64,
    post: ServerView,
    actions: Seq<ActionView>,
) -> bool {
    if record.dest == pre.id {
        post == pre && actions == Seq::<ActionView>::empty()
    } else if exists|path: Seq<NodeId>| pre.topology.is_route(pre.id, record.dest, path) {
        &&& post == pre
        &&& exists|path: Seq<NodeId>| #[trigger]
            is_best_route(pre.topology, pre.id, record.dest, path) && actions == pre.dispatch(
                fragment_packet(record, path),
            )
    } else {
        (post, actions) == pre.on_no_route(record, now)
    }
}

/// What the caller's loop hands to the core: a command, a frame, or word
/// that neither is waiting.
#[derive(Debug)]
pub enum ServerInput {
    Command(ServerCommand),
    Packet(Packet),
    Idle,
}

/// The server's packet-processing core.
pub struct Server {
    id: NodeId,
    packet_send: Vec<bool>,
    fragmenter: Fragmenter,
    assemblers_manager: AssemblersManager,
    fragment_manager: FragmentManager,
    topology: Topology,
    should_terminate: bool,
    flood_id: FloodId,
}

impl View for Server {
    type V = ServerView;

    closed spec fn view(&self) -> ServerView {
        ServerView {
            id: self.id,
            neighbors: Set::new(|node: NodeId| self.packet_send@[node as int]),
            next_session: self.fragmenter@,
            sessions: self.assemblers_manager@,
            outbound: self.fragment_manager@,
            topology: self.topology@,
            should_terminate: self.should_terminate,
            flood_id: self.flood_id,
        }
    }
}

impl Server {
    /// The parts are well formed and the map is the server's own.
    pub closed spec fn wf(&self) -> bool {
        &&& self.packet_send@.len() == NETWORK_SIZE
        &&& self.assemblers_manager.wf()
        &&& self.topology.wf()
        &&& self.topology@.node_id == self.id
    }

    /// Well-formedness of the core carries over to its view.
    pub proof fn lemma_wf_view(&self)
        requires
            self.wf(),
        ensures
            self@.wf(),
    {
        self.topology.lemma_wf_view();
    }

    /// A core for node `id`: no neighbour, nothing in progress, an empty
    /// map, sessions numbered from one and floods from zero.
    pub fn new(id: NodeId) -> (server: Server)
        ensures
            server.wf(),
            server@.id == id,
            server@.neighbors == Set::<NodeId>::empty(),
            server@.next_session == 1,
            server@.sessions == Map::<SessionId, Seq<Option<Fragment>>>::empty(),
            server@.outbound.cache == Map::<(SessionId, u64), ToBeSentFragment>::empty(),
            server@.outbound.buffer == Seq::<ToBeSentFragment>::empty(),
            server@.topology.edges == Set::<(NodeId, NodeId)>::empty(),
            server@.topology.last_reset == None::<u64>,
            !server@.should_terminate,
            server@.flood_id == 0,
    {
        let mut packet_send: Vec<bool> = Vec::new();
        let mut i: usize = 0;
        while i < NETWORK_SIZE
            invariant
                i <= NETWORK_SIZE,
                packet_send@.len() == i,
                forall|k: int| 0 <= k < i ==> !packet_send@[k],
            decreases NETWORK_SIZE - i,
        {
            packet_send.push(false);
            i += 1;
        }
        let server = Self {
            id,
            packet_send,
            fragmenter: Fragmenter::new(),
            assemblers_manager: AssemblersManager::new(),
            topology: Topology::new(id),
            fragment_manager: FragmentManager::new(),
            should_terminate: false,
            flood_id: 0,
        };
        server
    }

    /// The node that the server is.
    pub fn id(&self) -> (id: NodeId)
        ensures
            id == self@.id,
    {
        self.id
    }

    /// Whether a crash was asked for.
    pub fn should_terminate(&self) -> (stop: bool)
        ensures
            stop == self@.should_terminate,
    {
        self.should_terminate
    }

    /// The number of the next flood request.
    pub fn flood_id(&self) -> (flood_id: FloodId)
        ensures
            flood_id == self@.flood_id,
    {
        self.flood_id
    }

    /// The session id of the next response.
    pub fn next_session_id(&self) -> (session_id: SessionId)
        ensures
            session_id == self@.next_session,
    {
        self.fragmenter.session_id()
    }

    /// Whether flood requests can still be numbered for every node of the
    /// network. Where this holds a discovery can start, whatever the
    /// neighbours are.
    pub fn has_flood_ids(&self) -> (enough: bool)
        ensures
            enough == (self@.flood_id + NETWORK_SIZE <= u64::MAX),
            enough ==> self@.flood_id + self@.targets().len() <= u64::MAX,
    {
        proof {
            lemma_ascending_grows(self@.neighbors, NETWORK_SIZE as int, NETWORK_SIZE as int);
        }
        self.flood_id <= u64::MAX - NETWORK_SIZE as u64
    }

    /// Whether a session id is left for `response`. An empty response
    /// needs none.
    pub fn has_session_id(&self, response: &AssembledResponse) -> (enough: bool)
        ensures
            enough == (response.data@.len() > 0 ==> self@.next_session < u64::MAX),
    {
        response.data.len() == 0 || self.fragmenter.session_id() < u64::MAX
    }

    /// Whether the caller holds a channel to `node`.
    pub fn is_neighbor(&self, node: NodeId) -> (known: bool)
        requires
            self.wf(),
        ensures
            known == self@.neighbors.contains(node),
    {
        self.packet_send[node as usize]
    }

    /// The map of the network.
    pub fn topology(&self) -> (map: &Topology)
        requires
            self.wf(),
        ensures
            map.wf(),
            map@ == self@.topology,
    {
        &self.topology
    }

    /// The outgoing fragments.
    pub fn fragment_manager(&self) -> (manager: &FragmentManager)
        ensures
            manager@ == self@.outbound,
    {
        &self.fragment_manager
    }

    /// The reassemblies in progress.
    pub fn assemblers_manager(&self) -> (manager: &AssemblersManager)
        requires
            self.wf(),
        ensures
            manager.wf(),
            manager@ == self@.sessions,
    {
        &self.assemblers_manager
    }

    /// Carries out a command of the controller.
    pub fn handle_command(&mut self, command: ServerCommand)
        requires
            old(self).wf(),
        ensures
            final(self).wf(),
            final(self)@ == old(self)@.on_command(command),
    {
        match command {
            ServerCommand::Crash => {
                self.should_terminate = true;
            },
            ServerCommand::AddDrone(drone_id) => self.add_drone(drone_id),
            ServerCommand::RemoveDrone(drone_id) => self.remove_drone(drone_id),
        }
    }

    /// Takes a drone as neighbour: links it to the server on the map and
    /// notes that the caller holds a channel to it.
    pub fn add_drone(&mut self, drone_id: NodeId)
        requires
            old(self).wf(),
        ensures
            final(self).wf(),
            final(self)@ == old(self)@.add_drone(drone_id),
    {
        self.topology.insert_edge((self.id, NodeType::Server), (drone_id, NodeType::Drone));
        self.packet_send[drone_id as usize] = true;
        proof {
            assert(self@.neighbors =~= old(self)@.neighbors.insert(drone_id));
        }
    }

    /// Takes the link between the server and a drone off the map.
    pub fn remove_drone(&mut self, drone_id: NodeId)
        requires
            old(self).wf(),
        ensures
            final(self).wf(),
            final(self)@ == old(self)@.remove_drone(drone_id),
    {
        self.topology.remove_edge(self.id, drone_id);
    }

    /// Starts a discovery at time `now`: empties the map and writes one
    /// flood request to each neighbour, in increasing order of the
    /// neighbours, each request under a number of its own.
    pub fn start_network_discovery(&mut self, now: u64) -> (actions: Vec<ServerAction>)
        requires
            old(self).wf(),
            old(self)@.flood_id + old(self)@.targets().len() <= u64::MAX,
        ensures
            final(self).wf(),
            final(self)@ == old(self)@.discover(now),
            action_views(actions@) == probes(old(self)@.id, old(self)@.targets(), old(self)@.flood_id),
    {
        self.topology.reset(now);

        let ghost neighbors = old(self)@.neighbors;
        let ghost first = old(self).flood_id;
        let mut actions: Vec<ServerAction> = Vec::new();
        let mut node: usize = 0;
        while node < NETWORK_SIZE
            invariant
                node <= NETWORK_SIZE,
                self.packet_send == old(self).packet_send,
                self.packet_send@.len() == NETWORK_SIZE,
                self.id == old(self).id,
                self.fragmenter == old(self).fragmenter,
                self.assemblers_manager == old(self).assemblers_manager,
                self.fragment_manager == old(self).fragment_manager,
                self.should_terminate == old(self).should_terminate,
                self.topology.wf(),
                self.topology@ == old(self).topology@.reset(now),
                neighbors == old(self)@.neighbors,
                first == old(self).flood_id,
                first + ascending(neighbors, NETWORK_SIZE as int).len() <= u64::MAX,
                self.flood_id == first + ascending(neighbors, node as int).len(),
                action_views(actions@) == probes(self.id, ascending(neighbors, node as int), first),
            decreases NETWORK_SIZE - node,
        {
            proof {
                lemma_ascending_grows(neighbors, node as int + 1, NETWORK_SIZE as int);
            }
            if self.packet_send[node] {
                let packet = Packet {
                    routing_header: SourceRoutingHeader { hop_index: 0, hops: Vec::new() },
                    session_id: 0,
                    pack_type: PacketType::FloodRequest(
                        FloodRequest {
                            flood_id: self.flood_id,
                            initiator_id: self.id,
                            path_trace: vec![(self.id, NodeType::Server)],
                        },
                    ),
                };
                let ghost before = actions@;
                proof {
                    assert(packet.pack_type@->FloodRequest_path_trace =~= seq![
                        (self.id, NodeType::Server),
                    ]);
                }
                actions.push(ServerAction::Send { neighbor: node as NodeId, packet });
                self.flood_id += 1;
                proof {
                    let targets = ascending(neighbors, node as int + 1);
                    let earlier = ascending(neighbors, node as int);
                    assert(probes(self.id, earlier, first).len() == earlier.len());
                    assert forall|i: int| 0 <= i < actions@.len() implies #[trigger] action_views(
                        actions@,
                    )[i] == probes(self.id, targets, first)[i] by {
                        if i < before.len() {
                            assert(action_views(before)[i] == probes(self.id, earlier, first)[i]);
                        }
                    }
                }
            }
            node += 1;
        }
        actions
    }

    /// Takes note of an acknowledgement: credits the node that reported
    /// it and forgets the fragment.
    pub fn handle_ack(&mut self, ack: Ack, session_id: SessionId, header: SourceRoutingHeader)
        requires
            old(self).wf(),
        ensures
            final(self).wf(),
            final(self)@ == old(self)@.on_ack(session_id, ack, header.hops@),
    {
        if header.hops.len() > 0 {
            self.topology.observe_success(header.hops[0]);
        }
        self.fragment_manager.remove_from_cache((session_id, ack.fragment_index));
    }

    /// Takes note of a negative acknowledgement at time `now`: debits the
    /// node that reported it, then lines the fragment up again, starts a
    /// discovery first, or gives the fragment up, as the kind of failure
    /// asks.
    pub fn handle_nack(
        &mut self,
        nack: Nack,
        session_id: SessionId,
        header: SourceRoutingHeader,
        now: u64,
    ) -> (actions: Vec<ServerAction>)
        requires
            old(self).wf(),
            old(self)@.flood_id + old(self)@.targets().len() <= u64::MAX,
        ensures
            final(self).wf(),
            (final(self)@, action_views(actions@)) == old(self)@.on_nack(
                session_id,
                nack,
                header.hops@,
                now,
            ),
    {
        if header.hops.len() > 0 {
            self.topology.observe_failure(header.hops[0]);
        }
        match nack.nack_type {
            NackType::Dropped => {
                let _ = self.fragment_manager.insert_from_cache((session_id, nack.fragment_index));
                Vec::new()
            },
            NackType::DestinationIsDrone | NackType::ErrorInRouting(_) => {
                let actions = self.start_network_discovery(now);
                let _ = self.fragment_manager.insert_from_cache((session_id, nack.fragment_index));
                actions
            },
            NackType::UnexpectedRecipient(_) => {
                Vec::new()
            },
        }
    }

    /// Takes in a fragment of a message. When it completes its message,
    /// the message is handed out in the name of the first hop of the
    /// frame, and the session is forgotten.
    pub fn handle_fragment(
        &mut self,
        fragment: Fragment,
        session_id: SessionId,
        header: SourceRoutingHeader,
    ) -> (actions: Vec<ServerAction>)
        requires
            old(self).wf(),
        ensures
            final(self).wf(),
            (final(self)@, action_views(actions@)) == old(self)@.on_fragment(
                session_id,
                fragment,
                header.hops@,
            ),
    {
        let mut actions: Vec<ServerAction> = Vec::new();
        match self.assemblers_manager.insert_fragment(fragment, session_id) {
            Ok(AssemblerStatus::Complete) => {
                match self.assemblers_manager.retrieve_assembled(session_id) {
                    Ok(assembled) => {
                        proof {
                            assert(self.assemblers_manager@ =~= old(self)@.sessions.remove(session_id));
                        }
                        if header.hops.len() > 0 {
                            let action = ServerAction::Deliver {
                                payload: assembled,
                                initiator: header.hops[0],
                            };
                            actions.push(action);
                        }
                    },
                    Err(_) => {},
                }
            },
            _ => {},
        }
        actions
    }

    /// Answers a flood request: the trace with the server added goes back
    /// the way it came, if the caller holds a channel to the first node
    /// on that way.
    pub fn handle_flood_request(&self, flood_req: FloodRequest, session_id: SessionId) -> (actions:
        Vec<ServerAction>)
        requires
            self.wf(),
        ensures
            action_views(actions@) == self@.dispatch(
                self@.flood_reply(
                    session_id,
                    flood_req.flood_id,
                    flood_req.initiator_id,
                    flood_req.path_trace@,
                ),
            ),
    {
        let flood_id = flood_req.flood_id;
        let initiator_id = flood_req.initiator_id;
        let mut trace = flood_req.path_trace;
        trace.push((self.id, NodeType::Server));

        let mut hops: Vec<NodeId> = Vec::new();
        let mut left: usize = trace.len();
        while left > 0
            invariant
                left <= trace@.len(),
                hops@.len() == trace@.len() - left,
                forall|k: int| 0 <= k < hops@.len() ==> hops@[k] == trace@[trace@.len() - 1 - k].0,
            decreases left,
        {
            left -= 1;
            hops.push(trace[left].0);
        }
        assert(hops@ =~= backwards(trace@));
        if hops[hops.len() - 1] != initiator_id {
            hops.push(initiator_id);
        }
        let packet = Packet {
            routing_header: SourceRoutingHeader { hop_index: 1, hops },
            pack_type: PacketType::FloodResponse(FloodResponse { flood_id, path_trace: trace }),
            session_id,
        };
        self.send_packet(packet)
    }

    /// Learns the links that the trace of a flood response shows.
    pub fn handle_flood_response(&mut self, flood_res: FloodResponse)
        requires
            old(self).wf(),
        ensures
            final(self).wf(),
            final(self)@ == old(self)@.on_flood_response(flood_res.path_trace@),
    {
        let trace = flood_res.path_trace;
        let mut i: usize = 1;
        while i < trace.len()
            invariant
                1 <= i,
                i <= trace@.len() || (trace@.len() == 0 && i == 1),
                self.wf(),
                self.id == old(self).id,
                self.packet_send == old(self).packet_send,
                self.fragmenter == old(self).fragmenter,
                self.assemblers_manager == old(self).assemblers_manager,
                self.fragment_manager == old(self).fragment_manager,
                self.should_terminate == old(self).should_terminate,
                self.flood_id == old(self).flood_id,
                self.topology@ == learn(old(self).topology@, trace@, i - 1),
            decreases trace@.len() - i,
        {
            self.topology.insert_edge(trace[i - 1], trace[i]);
            i += 1;
        }
    }

    /// Puts a frame on its way: one send to the node that its hop index
    /// names, if the caller holds a channel to it.
    pub fn send_packet(&self, packet: Packet) -> (actions: Vec<ServerAction>)
        requires
            self.wf(),
        ensures
            action_views(actions@) == self@.dispatch(packet@),
    {
        let mut actions: Vec<ServerAction> = Vec::new();
        let next_index = packet.routing_header.hop_index as usize;
        if next_index < packet.routing_header.hops.len() {
            let next_id = packet.routing_header.hops[next_index];
            if self.packet_send[next_id as usize] {
                let action = ServerAction::Send { neighbor: next_id, packet };
                actions.push(action);
                return actions;
            }
        }
        actions
    }

    /// Deals with a frame that arrived at time `now`.
    pub fn handle_packet(&mut self, packet: Packet, now: u64) -> (actions: Vec<ServerAction>)
        requires
            old(self).wf(),
            old(self)@.flood_id + old(self)@.targets().len() <= u64::MAX,
        ensures
            final(self).wf(),
            (final(self)@, action_views(actions@)) == old(self)@.on_packet(packet@, now),
    {
        let Packet { routing_header, session_id, pack_type } = packet;
        match pack_type {
            PacketType::Ack(ack) => {
                self.handle_ack(ack, session_id, routing_header);
                Vec::new()
            },
            PacketType::Nack(nack) => self.handle_nack(nack, session_id, routing_header, now),
            PacketType::MsgFragment(fragment) => self.handle_fragment(
                fragment,
                session_id,
                routing_header,
            ),
            PacketType::FloodRequest(flood_req) => self.handle_flood_request(flood_req, session_id),
            PacketType::FloodResponse(flood_res) => {
                self.handle_flood_response(flood_res);
                Vec::new()
            },
        }
    }
}

impl Server {
    /// Sends a fragment towards its destination at time `now`, along the
    /// route on which it is least likely to be dropped.
    pub fn send_fragment(&mut self, to_be_sent_fragment: ToBeSentFragment, now: u64) -> (actions:
        Vec<ServerAction>)
        requires
            old(self).wf(),
            old(self)@.flood_id + old(self)@.targets().len() <= u64::MAX,
        ensures
            final(self).wf(),
            sent(old(self)@, to_be_sent_fragment, now, final(self)@, action_views(actions@)),
    {
        let path = self.topology.dijkstra(self.id, to_be_sent_fragment.dest);

        match path {
            Ok(path) => {
                let ghost route = path@;
                let header = SourceRoutingHeader { hop_index: 1, hops: path };
                let packet = Packet {
                    pack_type: PacketType::MsgFragment(to_be_sent_fragment.fragment),
                    routing_header: header,
                    session_id: to_be_sent_fragment.session_id,
                };
                proof {
                    assert(is_best_route(self@.topology, self.id, to_be_sent_fragment.dest, route));
                }
                self.send_packet(packet)
            },
            Err(RoutingError::SourceIsDest) => {
                let actions: Vec<ServerAction> = Vec::new();
                assert(action_views(actions@) =~= Seq::<ActionView>::empty());
                actions
            },
            Err(RoutingError::NoPathFound) => {
                let _ = self.fragment_manager.insert_from_cache(
                    (to_be_sent_fragment.session_id, to_be_sent_fragment.fragment.fragment_index),
                );
                if !self.topology.is_updating(now) {
                    self.start_network_discovery(now)
                } else {
                    let actions: Vec<ServerAction> = Vec::new();
                    assert(action_views(actions@) =~= Seq::<ActionView>::empty());
                    actions
                }
            },
        }
    }

    /// Uses an idle moment at time `now`: takes the first waiting
    /// fragment, if there is one, and sends it.
    pub fn tick(&mut self, now: u64) -> (actions: Vec<ServerAction>)
        requires
            old(self).wf(),
            old(self)@.flood_id + old(self)@.targets().len() <= u64::MAX,
        ensures
            final(self).wf(),
            old(self)@.outbound.buffer.len() == 0 ==> final(self)@ == old(self)@ && action_views(
                actions@,
            ) == Seq::<ActionView>::empty(),
            old(self)@.outbound.buffer.len() > 0 ==> sent(
                old(self)@.popped(),
                old(self)@.outbound.buffer[0],
                now,
                final(self)@,
                action_views(actions@),
            ),
    {
        match self.fragment_manager.get_next() {
            Some(to_be_sent_fragment) => self.send_fragment(to_be_sent_fragment, now),
            None => {
                Vec::new()
            },
        }
    }

    /// Takes the response of the application behaviour: cuts it into
    /// fragments under the next session id and hands them to the outgoing
    /// side.
    pub fn handle_response(&mut self, response: AssembledResponse)
        requires
            old(self).wf(),
            response.data@.len() > 0 ==> old(self)@.next_session < u64::MAX,
        ensures
            final(self).wf(),
            exists|records: Seq<ToBeSentFragment>| #[trigger]
                is_fragmentation(records, response.data@, response.dest, old(self)@.next_session)
                    && final(self)@ == old(self)@.on_response(records, response.data@),
    {
        let ghost message = response.data@;
        let fragments = self.fragmenter.to_fragment_vec(response);
        let ghost records = fragments@;
        self.fragment_manager.insert_bulk(fragments);
        proof {
            assert(self@ == old(self)@.on_response(records, message));
        }
    }

    /// One turn of the caller's loop at time `now`: a command is carried
    /// out, a frame is dealt with, an idle moment is used to send.
    pub fn step(&mut self, input: ServerInput, now: u64) -> (actions: Vec<ServerAction>)
        requires
            old(self).wf(),
            old(self)@.flood_id + old(self)@.targets().len() <= u64::MAX,
        ensures
            final(self).wf(),
            match input {
                ServerInput::Command(command) => final(self)@ == old(self)@.on_command(command)
                    && action_views(actions@) == Seq::<ActionView>::empty(),
                ServerInput::Packet(packet) => (final(self)@, action_views(actions@)) == old(
                    self,
                )@.on_packet(packet@, now),
                ServerInput::Idle => if old(self)@.outbound.buffer.len() == 0 {
                    final(self)@ == old(self)@ && action_views(actions@) == Seq::<ActionView>::empty()
                } else {
                    sent(
                        old(self)@.popped(),
                        old(self)@.outbound.buffer[0],
                        now,
                        final(self)@,
                        action_views(actions@),
                    )
                },
            },
    {
        match input {
            ServerInput::Command(command) => {
                self.handle_command(command);
                Vec::new()
            },
            ServerInput::Packet(packet) => self.handle_packet(packet, now),
            ServerInput::Idle => self.tick(now),
        }
    }
}

/// An acknowledgement as it reaches the core: the session, the fragment,
/// and the hops of the frame that carried it.
pub struct Acknowledgement {
    pub session_id: SessionId,
    pub ack: Ack,
    pub hops: Seq<NodeId>,
}

/// The state after a run of acknowledgements, in order.
pub open spec fn after_acks(state: ServerView, acks: Seq<Acknowledgement>) -> ServerView
    decreases acks.len(),
{
    if acks.len() == 0 {
        state
    } else {
        after_acks(state, acks.drop_last()).on_ack(
            acks.last().session_id,
            acks.last().ack,
            acks.last().hops,
        )
    }
}

/// The fragments that a run of acknowledgements names.
pub open spec fn acked(acks: Seq<Acknowledgement>) -> Seq<FragmentId> {
    Seq::new(acks.len(), |i: int| (acks[i].session_id, acks[i].ack.fragment_index))
}

/// After an acknowledgement the fragment is cached no more, and a later
/// negative acknowledgement for it that asks for a retry changes nothing
/// on the outgoing side.
pub proof fn lemma_nack_after_ack(
    state: ServerView,
    session_id: SessionId,
    ack: Ack,
    ack_hops: Seq<NodeId>,
    nack_hops: Seq<NodeId>,
    now: u64,
)
    ensures
        !state.on_ack(session_id, ack, ack_hops).outbound.cache.contains_key(
            (session_id, ack.fragment_index),
        ),
        state.on_ack(session_id, ack, ack_hops).on_nack(
            session_id,
            Nack { fragment_index: ack.fragment_index, nack_type: NackType::Dropped },
            nack_hops,
            now,
        ).0.outbound == state.on_ack(session_id, ack, ack_hops).outbound,
        state.on_ack(session_id, ack, ack_hops).on_nack(
            session_id,
            Nack { fragment_index: ack.fragment_index, nack_type: NackType::Dropped },
            nack_hops,
            now,
        ).1 == Seq::<ActionView>::empty(),
{
}

/// Acknowledgements touch the cache alone on the outgoing side: after a
/// run of them the cache holds what it held under the keys not named,
/// and the line of waiting fragments is as it was.
pub proof fn lemma_after_acks(state: ServerView, acks: Seq<Acknowledgement>)
    ensures
        after_acks(state, acks).outbound == state.outbound.remove_all(acked(acks)),
    decreases acks.len(),
{
    if acks.len() > 0 {
        lemma_after_acks(state, acks.drop_last());
        assert(acked(acks).drop_last() =~= acked(acks.drop_last()));
    }
}

/// Once every cached fragment has been acknowledged, the cache is empty:
/// as many steps as there are acknowledgements empty it.
pub proof fn lemma_acks_clear_cache(state: ServerView, acks: Seq<Acknowledgement>)
    requires
        forall|id: FragmentId| state.outbound.cache.contains_key(id) ==> acked(acks).contains(id),
    ensures
        after_acks(state, acks).outbound.cache == Map::<FragmentId, ToBeSentFragment>::empty(),
        after_acks(state, acks).outbound.buffer == state.outbound.buffer,
{
    lemma_after_acks(state, acks);
    lemma_remove_all(state.outbound, acked(acks));
}

/// What can happen to the core while no response is handed in: a frame
/// arrives, or an idle moment is used, each at some time.
pub enum Happening {
    Arrival(PacketView, u64),
    Idle(u64),
}

/// Whether `post` is a state that `happening` can lead to from `pre`.
pub open spec fn follows(pre: ServerView, happening: Happening, post: ServerView) -> bool {
    match happening {
        Happening::Arrival(packet, now) => post == pre.on_packet(packet, now).0,
        Happening::Idle(now) => if pre.outbound.buffer.len() == 0 {
            post == pre
        } else {
            exists|actions: Seq<ActionView>| #[trigger]
                sent(pre.popped(), pre.outbound.buffer[0], now, post, actions)
        },
    }
}

/// Whether `states` is a run of the core through `happenings`: each state
/// follows from the one before by the happening between them.
pub open spec fn is_run(states: Seq<ServerView>, happenings: Seq<Happening>) -> bool {
    &&& states.len() == happenings.len() + 1
    &&& forall|i: int|
        0 <= i < happenings.len() ==> follows(states[i], #[trigger] happenings[i], states[i + 1])
}

/// Whether `happening` is the arrival of an acknowledgement for `id`.
pub open spec fn acknowledges(happening: Happening, id: FragmentId) -> bool {
    happening matches Happening::Arrival(packet, _) && packet.session_id == id.0
        && packet.pack_type == PacketTypeView::Ack(Ack { fragment_index: id.1 })
}

/// No frame and no idle moment adds to the cache, and an acknowledgement
/// takes its fragment out.
pub proof fn lemma_cache_never_grows(pre: ServerView, happening: Happening, post: ServerView)
    requires
        follows(pre, happening, post),
    ensures
        forall|id: FragmentId| #[trigger]
            post.outbound.cache.contains_key(id) ==> pre.outbound.cache.contains_key(id),
        forall|id: FragmentId|
            acknowledges(happening, id) ==> !post.outbound.cache.contains_key(id),
{
}

/// While no response is handed in, a fragment that was acknowledged is
/// cached no more, whatever else arrived and was sent before and after.
pub proof fn lemma_acknowledged_fragments_leave(
    states: Seq<ServerView>,
    happenings: Seq<Happening>,
    id: FragmentId,
    at: int,
)
    requires
        is_run(states, happenings),
        0 <= at < happenings.len(),
        acknowledges(happenings[at], id),
    ensures
        !states.last().outbound.cache.contains_key(id),
    decreases happenings.len(),
{
    let n = happenings.len() as int;
    lemma_cache_never_grows(states[n - 1], happenings[n - 1], states[n]);
    if at < n - 1 {
        let earlier = states.drop_last();
        let before = happenings.drop_last();
        lemma_acknowledged_fragments_leave(earlier, before, id, at);
    }
}

/// The members below a bound are among the members below a higher bound.
pub proof fn lemma_ascending_grows(set: Set<NodeId>, low: int, high: int)
    requires
        low <= high,
    ensures
        ascending(set, low).len() <= ascending(set, high).len(),
        ascending(set, high).len() <= if high <= 0 {
            0
        } else {
            high
        },
    decreases high,
{
    if high > 0 {
        if low < high {
            lemma_ascending_grows(set, low, high - 1);
        } else {
            lemma_ascending_grows(set, low - 1, high - 1);
        }
    }
}

} // verus!
