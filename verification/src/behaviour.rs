//! The orchestrator: a single state machine that routes traffic between the
//! network and the modules, tracks request/response correlations and
//! connected peers, and decides what the swarm should do next.
//!
//! The async runtime outside the library drives it: it feeds in swarm
//! events, handler events, module outputs and timer ticks, performs the
//! returned actions, and applies the failure policy to saturated queues.

use vstd::prelude::*;

use crate::consensus::{ConsensusInEvent, SyncJobs, Transaction};
use crate::data_memory::{DataMemoryInEvent, DataMemoryOutEvent, RecollectionError};
use crate::instruction_memory::{InstructionMemoryInEvent, InstructionMemoryOutEvent};
use crate::instructions::{Instructions, Program};
use crate::kv::KeyMap;
use crate::processor;
use crate::types::{ConnectionId, Data, FullShardId, PeerId, RequestId, Shard, Sid, Vid};

verus! {

/// Events the orchestrator reports to the enclosing runtime besides errors.
/// None are ever produced: the orchestrator only reports errors.
#[derive(Debug, Clone, Copy, PartialEq, Eq, Structural)]
pub struct Event;

/// Fatal conditions the orchestrator reports to the enclosing runtime.
#[derive(Debug, Clone, Copy, PartialEq, Eq, Structural)]
pub enum Error {
    /// An inter-module channel closed or saturated; the node must restart.
    UnableToOperate,
    /// Graceful shutdown was requested.
    CancelSignal,
}

/// What the orchestrator hands to the enclosing runtime.
pub type ToSwarmEvent = Result<Event, Error>;

/// The user-interaction subsystem.
pub struct Module;

impl crate::module::Module for Module {
    type InEvent = InEvent;

    type OutEvent = OutEvent;

    type SharedState = crate::module::AlwaysReady;
}

/// What the user asks the node to do.
#[derive(Debug)]
pub enum InEvent {
    /// Schedule a program for cluster-wide execution.
    ScheduleProgram(Instructions),
    /// Ask for a data unit back.
    Get(Vid),
    /// Hand in a data unit for distribution.
    Put(Vid, Data),
    /// Ask for the list of distributed units.
    ListStored,
    /// Assign every known peer a storage slot.
    InitializeStorage,
}

/// What the node answers the user.
#[derive(Debug)]
pub enum OutEvent {
    /// The program was queued for consensus.
    ScheduleOk,
    /// The answer to `Get`.
    GetResponse(Result<(Vid, Data), RecollectionError>),
    /// Every shard of the unit reached its assigned peer.
    PutConfirmed(Vid),
    /// The answer to `ListStored`.
    ListStoredResponse(Vec<(Vid, Vec<(Sid, PeerId)>)>),
    /// The storage initialization took effect.
    StorageInitialized,
}

/// A request sent from one peer to another over the wire.
#[derive(Debug, Clone, Copy, PartialEq, Eq, Hash)]
pub enum Request {
    /// Ask the addressed peer for the shard assigned to the requester.
    GetShard(FullShardId),
    /// Ask the addressed peer to serve a shard it distributes.
    ServeShard(FullShardId),
}

/// The answer to a `Request`.
#[derive(Debug, Clone, PartialEq, Eq)]
pub enum Response {
    /// The requested shard, or `None` if the sender no longer holds it.
    GetShard(Option<Shard>),
    /// The served shard.
    ServeShard(Shard),
}

/// A one-shot message between peers.
#[derive(Debug, Clone, PartialEq, Eq)]
pub enum SimpleMessage {
    /// A batch of DAG events the recipient is presumed to lack.
    GossipGraph(SyncJobs),
}

/// What the one-shot protocol handler reports.
#[derive(Debug)]
pub enum InnerMessage {
    /// A message arrived.
    Rx(SimpleMessage),
    /// Our own message went out.
    Sent,
}

/// What the request/response protocol handler reports.
#[derive(Debug)]
pub enum RequestResponseEvent {
    /// A peer's request arrived; its id correlates the later answer.
    Request { request_id: RequestId, request: Request },
    /// A peer's answer to one of our requests arrived.
    Response { request_id: RequestId, response: Response },
    /// Our answer to the peer's request went out.
    ResponseSent(RequestId),
    /// Our answer to the peer's request was dropped unsent.
    ResponseOmission(RequestId),
    /// Our request timed out unanswered.
    OutboundTimeout(RequestId),
    /// The peer does not speak the request protocol.
    OutboundUnsupportedProtocols(RequestId),
    /// The peer's request to us timed out.
    InboundTimeout(RequestId),
    /// We do not speak the protocol of the peer's request.
    InboundUnsupportedProtocols(RequestId),
}

/// An event of one connection handler.
#[derive(Debug)]
pub enum HandlerEvent {
    /// From the one-shot protocol.
    Oneshot(InnerMessage),
    /// From the request/response protocol.
    RequestResponse(RequestResponseEvent),
}

/// A connection-lifecycle event from the swarm. Anything beyond
/// establishment and closure is ignored.
#[derive(Debug, Clone, Copy, PartialEq, Eq, Structural)]
pub enum FromSwarmEvent {
    /// A connection to the peer is up; `other_established` counts the
    /// connections to the same peer that already existed.
    ConnectionEstablished { peer_id: PeerId, other_established: usize },
    /// A connection to the peer closed; `remaining_established` counts the
    /// connections to the same peer still up.
    ConnectionClosed { peer_id: PeerId, remaining_established: usize },
    /// Any other lifecycle event.
    Other,
}

/// A condition worth logging that changes nothing else.
#[derive(Debug, Clone, Copy, PartialEq, Eq, Structural)]
pub enum Warning {
    /// A newly connecting peer was already in the connected list.
    AlreadyConnected(PeerId),
    /// A disconnecting peer was not in the connected list.
    NotConnected(PeerId),
    /// A peer that announced an assigned shard answered that it lacks it.
    ShardNotHeld(RequestId),
    /// A response variant does not match its request.
    ResponseMismatch(RequestId),
    /// A response arrived for an unknown or already fulfilled request.
    UnknownRequestId(RequestId),
    /// Our answer to a peer's request was dropped unsent.
    ResponseOmitted(RequestId),
    /// An outbound request timed out and was dropped.
    RequestTimedOut(RequestId),
}

/// One thing the runtime must do on the orchestrator's behalf.
#[derive(Debug)]
pub enum Action {
    /// Dial the peer, if it is currently disconnected.
    Dial(PeerId),
    /// Send the request to the peer under the given correlation id.
    SendRequest { to: PeerId, request_id: RequestId, request: Request },
    /// Answer every listed inbound request with the response.
    Respond { request_ids: Vec<RequestId>, response: Response },
    /// Send a sync batch to the peer over the one-shot protocol.
    SendSync { to: PeerId, sync: SyncJobs },
    /// Close one connection to the peer.
    CloseConnection { peer: PeerId, connection: ConnectionId },
    /// Hand the event to the consensus module.
    ToConsensus(ConsensusInEvent),
    /// Hand the event to the data memory.
    ToDataMemory(DataMemoryInEvent),
    /// Hand the event to the instruction memory.
    ToInstructionMemory(InstructionMemoryInEvent),
    /// Hand the event to the processor.
    ToProcessor(processor::InEvent),
    /// Answer the user.
    ToUser(OutEvent),
    /// Log the condition; nothing else changes.
    Warn(Warning),
}

/// Every inter-module send is fatal on saturation except the two gossip
/// sends, whose loss only degrades latency.
pub open spec fn send_failure_fatal_spec(action: Action) -> bool {
    match action {
        Action::ToConsensus(ConsensusInEvent::CreateStandalone) => false,
        Action::ToConsensus(ConsensusInEvent::GenerateSyncRequest { .. }) => false,
        _ => true,
    }
}

/// Every inter-module send is fatal on saturation except the two gossip
/// sends, whose loss only degrades latency.
pub fn send_failure_fatal(action: &Action) -> (r: bool)
    ensures
        r == send_failure_fatal_spec(*action),
{
    match action {
        Action::ToConsensus(ConsensusInEvent::CreateStandalone) => false,
        Action::ToConsensus(ConsensusInEvent::GenerateSyncRequest { .. }) => false,
        _ => true,
    }
}

/// Whether two requests ask for the same thing.
pub fn request_eq(a: &Request, b: &Request) -> (r: bool)
    ensures
        r == (*a == *b),
{
    match (a, b) {
        (Request::GetShard((av, asid)), Request::GetShard((bv, bsid))) => av.0 == bv.0
            && asid.0 == bsid.0,
        (Request::ServeShard((av, asid)), Request::ServeShard((bv, bsid))) => av.0 == bv.0
            && asid.0 == bsid.0,
        _ => false,
    }
}

/// The waiters for each inbound request: all correlation ids that asked for
/// the same thing, so one data lookup fans out to every asker.
pub struct RequestTable {
    entries: Vec<(Request, Vec<RequestId>)>,
}

impl RequestTable {
    /// The entries in insertion order.
    pub closed spec fn entries_seq(&self) -> Seq<(Request, Seq<RequestId>)> {
        self.entries@.map_values(|e: (Request, Vec<RequestId>)| (e.0, e.1@))
    }

    /// No request occurs twice.
    pub open spec fn wf(&self) -> bool {
        forall|i: int, j: int|
            0 <= i < j < self.entries_seq().len() ==> self.entries_seq()[i].0
                != self.entries_seq()[j].0
    }

    /// The table as a mathematical map.
    pub open spec fn view(&self) -> Map<Request, Seq<RequestId>> {
        Map::new(
            |k: Request|
                exists|i: int|
                    0 <= i < self.entries_seq().len() && self.entries_seq()[i].0 == k,
            |k: Request|
                self.entries_seq()[choose|i: int|
                    0 <= i < self.entries_seq().len() && self.entries_seq()[i].0 == k].1,
        )
    }

    /// The entry at each position is what the table holds for its request.
    pub proof fn lemma_entry(&self, i: int)
        requires
            self.wf(),
            0 <= i < self.entries_seq().len(),
        ensures
            self@.dom().contains(self.entries_seq()[i].0),
            self@[self.entries_seq()[i].0] == self.entries_seq()[i].1,
    {
        let k = self.entries_seq()[i].0;
        let j = choose|j: int|
            0 <= j < self.entries_seq().len() && self.entries_seq()[j].0 == k;
        if i < j {
            assert(self.entries_seq()[i].0 != self.entries_seq()[j].0);
        } else if j < i {
            assert(self.entries_seq()[j].0 != self.entries_seq()[i].0);
        }
    }

    /// An empty table.
    pub fn new() -> (r: Self)
        ensures
            r.wf(),
            r@ == Map::<Request, Seq<RequestId>>::empty(),
    {
        let r = RequestTable { entries: Vec::new() };
        proof {
            assert(r@ =~= Map::<Request, Seq<RequestId>>::empty());
        }
        r
    }

    /// Adds a waiter for `request`, creating the entry if it is new.
    pub fn register(&mut self, request: Request, id: RequestId)
        requires
            old(self).wf(),
        ensures
            final(self).wf(),
            final(self)@ == old(self)@.insert(
                request,
                if old(self)@.dom().contains(request) {
                    old(self)@[request].push(id)
                } else {
                    seq![id]
                },
            ),
    {
        let ghost target = if old(self)@.dom().contains(request) {
            old(self)@[request].push(id)
        } else {
            seq![id]
        };
        let mut i: usize = 0;
        while i < self.entries.len()
            invariant
                *self == *old(self),
                old(self).wf(),
                i <= self.entries_seq().len(),
                forall|j: int| 0 <= j < i ==> self.entries_seq()[j].0 != request,
                target == if old(self)@.dom().contains(request) {
                    old(self)@[request].push(id)
                } else {
                    seq![id]
                },
            decreases self.entries_seq().len() - i,
        {
            if request_eq(&self.entries[i].0, &request) {
                proof {
                    assert(self.entries_seq()[i as int] == (
                        self.entries@[i as int].0,
                        self.entries@[i as int].1@,
                    ));
                    assert(self.entries_seq()[i as int].0 == request);
                    self.lemma_entry(i as int);
                    assert(old(self)@.dom().contains(request));
                    assert(old(self)@[request] == self.entries_seq()[i as int].1);
                }
                let ghost pre = self.entries_seq();
                let mut entry = self.entries.remove(i);
                entry.1.push(id);
                self.entries.insert(i, entry);
                proof {
                    assert(self.entries_seq() =~= pre.update(
                        i as int,
                        (pre[i as int].0, pre[i as int].1.push(id)),
                    ));
                    assert(forall|j: int|
                        0 <= j < pre.len() ==> self.entries_seq()[j].0 == pre[j].0);
                    assert(self.wf());
                    assert(target == pre[i as int].1.push(id));
                    assert forall|k2: Request| self@.dom().contains(k2) implies old(
                        self,
                    )@.insert(request, target).dom().contains(k2) && self@[k2] == old(
                        self,
                    )@.insert(request, target)[k2] by {
                        let j = choose|j: int|
                            0 <= j < self.entries_seq().len() && self.entries_seq()[j].0
                                == k2;
                        self.lemma_entry(j);
                        if k2 == request {
                            if j < i {
                                assert(pre[j].0 != pre[i as int].0);
                            } else if i < j {
                                assert(pre[i as int].0 != pre[j].0);
                            }
                        } else {
                            old(self).lemma_entry(j);
                        }
                    }
                    assert forall|k2: Request| old(self)@.insert(request, target).dom().contains(
                        k2,
                    ) implies self@.dom().contains(k2) by {
                        if k2 == request {
                            assert(self.entries_seq()[i as int].0 == request);
                        } else {
                            let j = choose|j: int|
                                0 <= j < old(self).entries_seq().len() && old(
                                    self,
                                ).entries_seq()[j].0 == k2;
                            assert(self.entries_seq()[j].0 == k2);
                        }
                    }
                    assert(self@ =~= old(self)@.insert(request, target));
                }
                return ;
            }
            i = i + 1;
        }
        let mut ids: Vec<RequestId> = Vec::new();
        ids.push(id);
        self.entries.push((request, ids));
        proof {
            assert(!old(self)@.dom().contains(request));
            assert(self.entries_seq() =~= old(self).entries_seq().push((request, seq![id])));
            assert forall|k2: Request| self@.dom().contains(k2) implies old(self)@.insert(
                request,
                target,
            ).dom().contains(k2) && self@[k2] == old(self)@.insert(request, target)[k2] by {
                let j = choose|j: int|
                    0 <= j < self.entries_seq().len() && self.entries_seq()[j].0 == k2;
                self.lemma_entry(j);
                if k2 != request {
                    old(self).lemma_entry(j);
                }
            }
            assert forall|k2: Request| old(self)@.insert(request, target).dom().contains(
                k2,
            ) implies self@.dom().contains(k2) by {
                if k2 == request {
                    assert(self.entries_seq().last().0 == request);
                } else {
                    let j = choose|j: int|
                        0 <= j < old(self).entries_seq().len() && old(self).entries_seq()[j].0
                            == k2;
                    assert(self.entries_seq()[j].0 == k2);
                }
            }
            assert(self@ =~= old(self)@.insert(request, target));
        }
    }

    /// Removes and returns all waiters for `request`; empty if none wait.
    pub fn take(&mut self, request: Request) -> (r: Vec<RequestId>)
        requires
            old(self).wf(),
        ensures
            final(self).wf(),
            final(self)@ == old(self)@.remove(request),
            old(self)@.dom().contains(request) ==> r@ == old(self)@[request],
            !old(self)@.dom().contains(request) ==> r@.len() == 0,
    {
        let mut i: usize = 0;
        while i < self.entries.len()
            invariant
                *self == *old(self),
                old(self).wf(),
                i <= self.entries_seq().len(),
                forall|j: int| 0 <= j < i ==> self.entries_seq()[j].0 != request,
            decreases self.entries_seq().len() - i,
        {
            if request_eq(&self.entries[i].0, &request) {
                proof {
                    self.lemma_entry(i as int);
                }
                let e = self.entries.remove(i);
                proof {
                    let pre = old(self).entries_seq();
                    assert(self.entries_seq() =~= pre.remove(i as int));
                    assert forall|a: int, b: int|
                        0 <= a < b < self.entries_seq().len() implies self.entries_seq()[a].0
                        != self.entries_seq()[b].0 by {
                        let oa = if a < i { a } else { a + 1 };
                        let ob = if b < i { b } else { b + 1 };
                        assert(self.entries_seq()[a] == pre[oa]);
                        assert(self.entries_seq()[b] == pre[ob]);
                    }
                    assert forall|k2: Request| self@.dom().contains(k2) implies old(
                        self,
                    )@.remove(request).dom().contains(k2) && self@[k2] == old(self)@.remove(
                        request,
                    )[k2] by {
                        let j = choose|j: int|
                            0 <= j < self.entries_seq().len() && self.entries_seq()[j].0
                                == k2;
                        self.lemma_entry(j);
                        let oj = if j < i { j } else { j + 1 };
                        assert(self.entries_seq()[j] == pre[oj]);
                        old(self).lemma_entry(oj);
                    }
                    assert forall|k2: Request| old(self)@.remove(request).dom().contains(
                        k2,
                    ) implies self@.dom().contains(k2) by {
                        let oj = choose|oj: int|
                            0 <= oj < pre.len() && pre[oj].0 == k2;
                        let j = if oj < i { oj } else { oj - 1 };
                        assert(self.entries_seq()[j].0 == k2);
                    }
                    assert(self@ =~= old(self)@.remove(request));
                }
                return e.1;
            }
            i = i + 1;
        }
        proof {
            assert(!self@.dom().contains(request));
            assert(self@ =~= old(self)@.remove(request));
        }
        Vec::new()
    }
}

/// The orchestrator. It owns the correlation tables and peer sets; the
/// network transport, the timers and the module queues live with the runtime
/// that drives it.
pub struct Behaviour {
    local_peer_id: PeerId,
    discovered_peers: Vec<PeerId>,
    connected_peers: Vec<PeerId>,
    oneshot_events: Vec<(PeerId, ConnectionId, InnerMessage)>,
    request_response_events: Vec<(PeerId, ConnectionId, RequestResponseEvent)>,
    pending_response: KeyMap<Request>,
    processed_requests: RequestTable,
    next_request_id: u64,
}

impl Behaviour {
    /// This node's own network identity.
    pub closed spec fn local_peer_spec(&self) -> PeerId {
        self.local_peer_id
    }

    /// Discovered peers not yet dialed, oldest first.
    pub closed spec fn discovered_seq(&self) -> Seq<PeerId> {
        self.discovered_peers@
    }

    /// The peers with at least one established connection, in connection
    /// order.
    pub closed spec fn connected_seq(&self) -> Seq<PeerId> {
        self.connected_peers@
    }

    /// The peers with at least one established connection.
    pub open spec fn connected_set(&self) -> Set<PeerId> {
        Set::new(|p: PeerId| self.connected_seq().contains(p))
    }

    /// Queued one-shot protocol events, oldest first.
    pub closed spec fn oneshot_seq(&self) -> Seq<(PeerId, ConnectionId, InnerMessage)> {
        self.oneshot_events@
    }

    /// Queued request/response protocol events, oldest first.
    pub closed spec fn rr_seq(&self) -> Seq<(PeerId, ConnectionId, RequestResponseEvent)> {
        self.request_response_events@
    }

    /// The outbound requests awaiting a peer's reply, by correlation id.
    pub closed spec fn pending_map(&self) -> Map<u64, Request> {
        self.pending_response@
    }

    /// The waiters per inbound request.
    pub closed spec fn processed_map(&self) -> Map<Request, Seq<RequestId>> {
        self.processed_requests@
    }

    /// The next correlation id to assign.
    pub closed spec fn next_request_id_spec(&self) -> u64 {
        self.next_request_id
    }

    /// How many entries the pending table holds.
    pub closed spec fn pending_entry_count(&self) -> nat {
        self.pending_response.entries_seq().len()
    }

    /// The two tables hold each key once.
    pub closed spec fn tables_wf(&self) -> bool {
        self.pending_response.wf() && self.processed_requests.wf()
    }

    /// Internal soundness: no duplicate connected peer, each table holds a
    /// key once, and every pending correlation id was assigned by this node.
    pub open spec fn wf(&self) -> bool {
        &&& distinct_peers(self.connected_seq())
        &&& self.tables_wf()
        &&& ids_below(self.pending_map(), self.next_request_id_spec())
    }

    /// A fresh orchestrator with no peers, no queued events and no pending
    /// correlations.
    pub fn new(local_peer_id: PeerId) -> (r: Self)
        ensures
            r.wf(),
            r.local_peer_spec() == local_peer_id,
            r.discovered_seq().len() == 0,
            r.connected_seq().len() == 0,
            r.oneshot_seq().len() == 0,
            r.rr_seq().len() == 0,
            r.pending_map() == Map::<u64, Request>::empty(),
            r.processed_map() == Map::<Request, Seq<RequestId>>::empty(),
            r.next_request_id_spec() == 0,
    {
        Behaviour {
            local_peer_id,
            discovered_peers: Vec::new(),
            connected_peers: Vec::new(),
            oneshot_events: Vec::new(),
            request_response_events: Vec::new(),
            pending_response: KeyMap::new(),
            processed_requests: RequestTable::new(),
            next_request_id: 0,
        }
    }

    /// How many peers are tracked as connected.
    pub fn connected_count(&self) -> (r: usize)
        ensures
            r == self.connected_seq().len(),
    {
        self.connected_peers.len()
    }

    /// The next correlation id to assign; callers check it is not yet
    /// exhausted before work that issues a request.
    pub fn next_request_id(&self) -> (r: u64)
        ensures
            r == self.next_request_id_spec(),
    {
        self.next_request_id
    }

    /// How many outbound requests await a response.
    pub fn pending_count(&self) -> (r: usize)
        ensures
            r == self.pending_entry_count(),
    {
        self.pending_response.len()
    }

    /// Remembers a discovered peer for a later dial.
    pub fn inject_peer_discovered(&mut self, new_peer: PeerId)
        requires
            old(self).wf(),
        ensures
            final(self).wf(),
            final(self).discovered_seq() == old(self).discovered_seq().push(new_peer),
            connections_unchanged(*old(self), *final(self)),
            queues_unchanged(*old(self), *final(self)),
            correlation_unchanged(*old(self), *final(self)),
    {
        self.discovered_peers.push(new_peer);
    }

    /// A peer expired from discovery; nothing to do yet.
    pub fn inject_peer_expired(&mut self, _peer: &PeerId)
        ensures
            *final(self) == *old(self),
    {
    }

    /// Takes one discovered peer out for dialing: one dial per poll keeps
    /// progress fair.
    pub fn poll_dial(&mut self) -> (r: Option<Action>)
        requires
            old(self).wf(),
        ensures
            final(self).wf(),
            connections_unchanged(*old(self), *final(self)),
            queues_unchanged(*old(self), *final(self)),
            correlation_unchanged(*old(self), *final(self)),
            match r {
                Some(a) => old(self).discovered_seq().len() > 0 && a == (Action::Dial(
                    old(self).discovered_seq()[0],
                )) && final(self).discovered_seq() == old(self).discovered_seq().subrange(
                    1,
                    old(self).discovered_seq().len() as int,
                ),
                None => old(self).discovered_seq().len() == 0 && *final(self) == *old(self),
            },
    {
        if self.discovered_peers.len() == 0 {
            return None;
        }
        let peer = self.discovered_peers.remove(0);
        proof {
            assert(self.discovered_peers@ =~= old(self).discovered_peers@.subrange(
                1,
                old(self).discovered_peers@.len() as int,
            ));
        }
        Some(Action::Dial(peer))
    }

    /// Tracks connection lifecycle: the first connection to a peer adds it
    /// to the connected set, the last closed connection removes it. A peer
    /// connecting while already tracked, or disconnecting while untracked,
    /// is only warned about.
    pub fn on_swarm_event(&mut self, event: FromSwarmEvent) -> (r: Option<Warning>)
        requires
            old(self).wf(),
        ensures
            final(self).wf(),
            final(self).local_peer_spec() == old(self).local_peer_spec(),
            final(self).discovered_seq() == old(self).discovered_seq(),
            queues_unchanged(*old(self), *final(self)),
            correlation_unchanged(*old(self), *final(self)),
            match event {
                FromSwarmEvent::ConnectionEstablished { peer_id, other_established } => {
                    &&& (other_established > 0 ==> *final(self) == *old(self) && r is None)
                    &&& (other_established == 0 ==> final(self).connected_set() == old(
                        self,
                    ).connected_set().insert(peer_id) && r == (
                    if old(self).connected_set().contains(peer_id) {
                        Some(Warning::AlreadyConnected(peer_id))
                    } else {
                        None
                    }))
                },
                FromSwarmEvent::ConnectionClosed { peer_id, remaining_established } => {
                    &&& (remaining_established > 0 ==> *final(self) == *old(self) && r is
                        None)
                    &&& (remaining_established == 0 ==> final(self).connected_set() == old(
                        self,
                    ).connected_set().remove(peer_id) && r == (
                    if old(self).connected_set().contains(peer_id) {
                        None
                    } else {
                        Some(Warning::NotConnected(peer_id))
                    }))
                },
                FromSwarmEvent::Other => *final(self) == *old(self) && r is None,
            },
    {
        match event {
            FromSwarmEvent::ConnectionEstablished { peer_id, other_established } => {
                if other_established > 0 {
                    return None;
                }
                if self.connected_contains(peer_id) {
                    proof {
                        assert(self.connected_set() =~= old(self).connected_set().insert(
                            peer_id,
                        ));
                    }
                    Some(Warning::AlreadyConnected(peer_id))
                } else {
                    self.connected_peers.push(peer_id);
                    proof {
                        assert forall|p: PeerId| self.connected_seq().contains(p) implies old(
                            self,
                        ).connected_set().insert(peer_id).contains(p) by {
                            let j = choose|j: int|
                                0 <= j < self.connected_seq().len()
                                    && self.connected_seq()[j] == p;
                            if j < old(self).connected_seq().len() {
                                assert(old(self).connected_seq()[j] == p);
                            }
                        }
                        assert forall|p: PeerId| old(self).connected_set().insert(
                            peer_id,
                        ).contains(p) implies self.connected_seq().contains(p) by {
                            if p == peer_id {
                                assert(self.connected_seq().last() == p);
                            } else {
                                let j = choose|j: int|
                                    0 <= j < old(self).connected_seq().len() && old(
                                        self,
                                    ).connected_seq()[j] == p;
                                assert(self.connected_seq()[j] == p);
                            }
                        }
                        assert(self.connected_set() =~= old(self).connected_set().insert(
                            peer_id,
                        ));
                        assert forall|i: int, j: int|
                            0 <= i < j < self.connected_seq().len() implies self
                            .connected_seq()[i] != self.connected_seq()[j] by {
                            if j == self.connected_seq().len() - 1 {
                                assert(!old(self).connected_seq().contains(peer_id));
                                if self.connected_seq()[i] == peer_id {
                                    assert(old(self).connected_seq()[i] == peer_id);
                                    assert(old(self).connected_seq().contains(peer_id));
                                }
                            }
                        }
                    }
                    None
                }
            },
            FromSwarmEvent::ConnectionClosed { peer_id, remaining_established } => {
                if remaining_established > 0 {
                    return None;
                }
                match self.connected_index(peer_id) {
                    Some(i) => {
                        let ghost pre = self.connected_seq();
                        self.connected_peers.remove(i);
                        proof {
                            assert(self.connected_seq() =~= pre.remove(i as int));
                            assert forall|a: int, b: int|
                                0 <= a < b < self.connected_seq().len() implies self
                                .connected_seq()[a] != self.connected_seq()[b] by {
                                let oa = if a < i { a } else { a + 1 };
                                let ob = if b < i { b } else { b + 1 };
                                assert(self.connected_seq()[a] == pre[oa]);
                                assert(self.connected_seq()[b] == pre[ob]);
                            }
                            assert forall|p: PeerId| self.connected_seq().contains(
                                p,
                            ) implies old(self).connected_set().remove(peer_id).contains(
                                p,
                            ) by {
                                let j = choose|j: int|
                                    0 <= j < self.connected_seq().len()
                                        && self.connected_seq()[j] == p;
                                let oj = if j < i { j } else { j + 1 };
                                assert(pre[oj] == p);
                                if p == peer_id {
                                    assert(pre[i as int] == peer_id);
                                }
                            }
                            assert forall|p: PeerId| old(self).connected_set().remove(
                                peer_id,
                            ).contains(p) implies self.connected_seq().contains(p) by {
                                let oj = choose|oj: int|
                                    0 <= oj < pre.len() && pre[oj] == p;
                                if oj != i {
                                    let j = if oj < i { oj } else { oj - 1 };
                                    assert(self.connected_seq()[j] == p);
                                }
                            }
                            assert(self.connected_set() =~= old(self).connected_set().remove(
                                peer_id,
                            ));
                        }
                        None
                    },
                    None => {
                        proof {
                            assert(self.connected_set() =~= old(self).connected_set().remove(
                                peer_id,
                            ));
                        }
                        Some(Warning::NotConnected(peer_id))
                    },
                }
            },
            FromSwarmEvent::Other => None,
        }
    }

    /// Whether the peer is tracked as connected.
    fn connected_contains(&self, peer: PeerId) -> (r: bool)
        ensures
            r == self.connected_seq().contains(peer),
    {
        match self.connected_index(peer) {
            Some(_) => true,
            None => false,
        }
    }

    /// The position of the peer in the connected list.
    fn connected_index(&self, peer: PeerId) -> (r: Option<usize>)
        ensures
            match r {
                Some(i) => i < self.connected_seq().len() && self.connected_seq()[i as int]
                    == peer && self.connected_seq().contains(peer),
                None => !self.connected_seq().contains(peer),
            },
    {
        let mut i: usize = 0;
        while i < self.connected_peers.len()
            invariant
                i <= self.connected_seq().len(),
                forall|j: int| 0 <= j < i ==> self.connected_seq()[j] != peer,
            decreases self.connected_seq().len() - i,
        {
            if self.connected_peers[i].0 == peer.0 {
                return Some(i);
            }
            i = i + 1;
        }
        proof {
            if self.connected_seq().contains(peer) {
                let j = choose|j: int|
                    0 <= j < self.connected_seq().len() && self.connected_seq()[j] == peer;
                assert(self.connected_seq()[j] != peer);
            }
        }
        None
    }

    /// Queues one connection-handler event for the next poll.
    pub fn on_connection_handler_event(
        &mut self,
        peer_id: PeerId,
        connection: ConnectionId,
        event: HandlerEvent,
    )
        requires
            old(self).wf(),
        ensures
            final(self).wf(),
            final(self).local_peer_spec() == old(self).local_peer_spec(),
            final(self).discovered_seq() == old(self).discovered_seq(),
            final(self).connected_seq() == old(self).connected_seq(),
            correlation_unchanged(*old(self), *final(self)),
            match event {
                HandlerEvent::Oneshot(m) => final(self).oneshot_seq() == old(
                    self,
                ).oneshot_seq().push((peer_id, connection, m)) && final(self).rr_seq() == old(
                    self,
                ).rr_seq(),
                HandlerEvent::RequestResponse(e) => final(self).rr_seq() == old(
                    self,
                ).rr_seq().push((peer_id, connection, e)) && final(self).oneshot_seq() == old(
                    self,
                ).oneshot_seq(),
            },
    {
        match event {
            HandlerEvent::Oneshot(m) => {
                self.oneshot_events.push((peer_id, connection, m));
            },
            HandlerEvent::RequestResponse(e) => {
                self.request_response_events.push((peer_id, connection, e));
            },
        }
    }
}

/// No peer occurs twice.
pub open spec fn distinct_peers(s: Seq<PeerId>) -> bool {
    forall|i: int, j: int| 0 <= i < j < s.len() ==> s[i] != s[j]
}

/// Every key of the map is below `n`: every pending correlation id was
/// assigned by this node and never reused.
pub open spec fn ids_below(m: Map<u64, Request>, n: u64) -> bool {
    forall|id: u64| #[trigger] m.dom().contains(id) ==> id < n
}

/// The peer sets of the two states are the same.
pub open spec fn connections_unchanged(a: Behaviour, b: Behaviour) -> bool {
    &&& a.local_peer_spec() == b.local_peer_spec()
    &&& a.connected_seq() == b.connected_seq()
}

/// The event queues of the two states are the same.
pub open spec fn queues_unchanged(a: Behaviour, b: Behaviour) -> bool {
    &&& a.oneshot_seq() == b.oneshot_seq()
    &&& a.rr_seq() == b.rr_seq()
}

/// The correlation tables of the two states are the same.
pub open spec fn correlation_unchanged(a: Behaviour, b: Behaviour) -> bool {
    &&& a.pending_map() == b.pending_map()
    &&& a.processed_map() == b.processed_map()
    &&& a.next_request_id_spec() == b.next_request_id_spec()
}

/// The whole peer bookkeeping of the two states is the same.
pub open spec fn peers_unchanged(a: Behaviour, b: Behaviour) -> bool {
    &&& connections_unchanged(a, b)
    &&& a.discovered_seq() == b.discovered_seq()
}

impl Behaviour {
    /// Drains one queued one-shot event: received gossip goes to the
    /// consensus module, a sent-notification is only traced.
    pub fn poll_oneshot(&mut self) -> (r: Vec<Action>)
        requires
            old(self).wf(),
        ensures
            final(self).wf(),
            connections_unchanged(*old(self), *final(self)),
            final(self).discovered_seq() == old(self).discovered_seq(),
            final(self).rr_seq() == old(self).rr_seq(),
            correlation_unchanged(*old(self), *final(self)),
            old(self).oneshot_seq().len() == 0 ==> r@.len() == 0 && *final(self) == *old(
                self,
            ),
            old(self).oneshot_seq().len() > 0 ==> {
                &&& final(self).oneshot_seq() == old(self).oneshot_seq().subrange(
                    1,
                    old(self).oneshot_seq().len() as int,
                )
                &&& (old(self).oneshot_seq()[0].2 matches InnerMessage::Rx(
                    SimpleMessage::GossipGraph(sync),
                ) ==> r@.len() == 1 && r@[0] == (Action::ToConsensus(
                    ConsensusInEvent::ApplySync { from: old(self).oneshot_seq()[0].0, sync },
                )))
                &&& (old(self).oneshot_seq()[0].2 is Sent ==> r@.len() == 0)
            },
    {
        if self.oneshot_events.len() == 0 {
            return Vec::new();
        }
        let (peer, _connection, message) = self.oneshot_events.remove(0);
        proof {
            assert(self.oneshot_events@ =~= old(self).oneshot_events@.subrange(
                1,
                old(self).oneshot_events@.len() as int,
            ));
        }
        let mut actions: Vec<Action> = Vec::new();
        match message {
            InnerMessage::Rx(SimpleMessage::GossipGraph(sync)) => {
                actions.push(
                    Action::ToConsensus(ConsensusInEvent::ApplySync { from: peer, sync }),
                );
            },
            InnerMessage::Sent => (),
        }
        actions
    }

    /// Drains one queued request/response event.
    ///
    /// An inbound request is routed to the data memory and its correlation
    /// id joins the waiters for that request, so the eventual lookup answers
    /// every asker at once. An inbound response resolves its pending
    /// correlation: the entry leaves the table whether the payload matched
    /// or not, and a response for an unknown id only draws a warning.
    /// Timeouts and protocol mismatches close the offending connection.
    pub fn poll_request_response(&mut self) -> (r: Vec<Action>)
        requires
            old(self).wf(),
        ensures
            final(self).wf(),
            connections_unchanged(*old(self), *final(self)),
            final(self).discovered_seq() == old(self).discovered_seq(),
            final(self).oneshot_seq() == old(self).oneshot_seq(),
            final(self).next_request_id_spec() == old(self).next_request_id_spec(),
            old(self).rr_seq().len() == 0 ==> r@.len() == 0 && *final(self) == *old(self),
            old(self).rr_seq().len() > 0 ==> {
                &&& final(self).rr_seq() == old(self).rr_seq().subrange(
                    1,
                    old(self).rr_seq().len() as int,
                )
                &&& match old(self).rr_seq()[0].2 {
                    RequestResponseEvent::Request { request_id, request } => {
                        &&& final(self).pending_map() == old(self).pending_map()
                        &&& final(self).processed_map() == old(self).processed_map().insert(
                            request,
                            waiters_of(old(self).processed_map(), request).push(request_id),
                        )
                        &&& r@.len() == 1
                        &&& (request matches Request::GetShard(fsid) ==> r@[0] == (
                        Action::ToDataMemory(DataMemoryInEvent::AssignedRequest(fsid))))
                        &&& (request matches Request::ServeShard(fsid) ==> r@[0] == (
                        Action::ToDataMemory(DataMemoryInEvent::ServeShardRequest(fsid))))
                    },
                    RequestResponseEvent::Response { request_id, response } => {
                        &&& final(self).processed_map() == old(self).processed_map()
                        &&& (!old(self).pending_map().dom().contains(request_id.0) ==> {
                            &&& final(self).pending_map() == old(self).pending_map()
                            &&& r@.len() == 1
                            &&& r@[0] == (Action::Warn(Warning::UnknownRequestId(request_id)))
                        })
                        &&& (old(self).pending_map().dom().contains(request_id.0) ==> {
                            &&& final(self).pending_map() == old(self).pending_map().remove(
                                request_id.0,
                            )
                            &&& r@.len() == 1
                            &&& match (old(self).pending_map()[request_id.0], response) {
                                (Request::GetShard(fsid), Response::GetShard(shard)) => match shard {
                                    Some(sh) => r@[0] == (Action::ToDataMemory(
                                        DataMemoryInEvent::AssignedResponse {
                                            full_shard_id: fsid,
                                            shard: sh,
                                        },
                                    )),
                                    None => r@[0] == (Action::Warn(
                                        Warning::ShardNotHeld(request_id),
                                    )),
                                },
                                (
                                    Request::ServeShard(fsid),
                                    Response::ServeShard(shard),
                                ) => r@[0] == (Action::ToDataMemory(
                                    DataMemoryInEvent::ServeShardResponse(fsid, shard),
                                )),
                                _ => r@[0] == (Action::Warn(
                                    Warning::ResponseMismatch(request_id),
                                )),
                            }
                        })
                    },
                    RequestResponseEvent::ResponseSent(_) => correlation_unchanged(
                        *old(self),
                        *final(self),
                    ) && r@.len() == 0,
                    RequestResponseEvent::ResponseOmission(id) => correlation_unchanged(
                        *old(self),
                        *final(self),
                    ) && r@.len() == 1 && r@[0] == (Action::Warn(Warning::ResponseOmitted(id))),
                    RequestResponseEvent::OutboundTimeout(id) => {
                        &&& final(self).pending_map() == old(self).pending_map().remove(id.0)
                        &&& final(self).processed_map() == old(self).processed_map()
                        &&& r@.len() == 2
                        &&& r@[0] == (Action::Warn(Warning::RequestTimedOut(id)))
                        &&& r@[1] == (Action::CloseConnection {
                            peer: old(self).rr_seq()[0].0,
                            connection: old(self).rr_seq()[0].1,
                        })
                    },
                    RequestResponseEvent::OutboundUnsupportedProtocols(_) => {
                        correlation_unchanged(*old(self), *final(self)) && r@.len() == 1
                            && r@[0] == (Action::CloseConnection {
                            peer: old(self).rr_seq()[0].0,
                            connection: old(self).rr_seq()[0].1,
                        })
                    },
                    RequestResponseEvent::InboundTimeout(_) => {
                        correlation_unchanged(*old(self), *final(self)) && r@.len() == 1
                            && r@[0] == (Action::CloseConnection {
                            peer: old(self).rr_seq()[0].0,
                            connection: old(self).rr_seq()[0].1,
                        })
                    },
                    RequestResponseEvent::InboundUnsupportedProtocols(_) => {
                        correlation_unchanged(*old(self), *final(self)) && r@.len() == 1
                            && r@[0] == (Action::CloseConnection {
                            peer: old(self).rr_seq()[0].0,
                            connection: old(self).rr_seq()[0].1,
                        })
                    },
                }
            },
    {
        if self.request_response_events.len() == 0 {
            return Vec::new();
        }
        let (peer, connection, event) = self.request_response_events.remove(0);
        proof {
            assert(self.request_response_events@ =~= old(
                self,
            ).request_response_events@.subrange(
                1,
                old(self).request_response_events@.len() as int,
            ));
        }
        let mut actions: Vec<Action> = Vec::new();
        match event {
            RequestResponseEvent::Request { request_id, request } => {
                match request {
                    Request::GetShard(fsid) => {
                        actions.push(
                            Action::ToDataMemory(DataMemoryInEvent::AssignedRequest(fsid)),
                        );
                    },
                    Request::ServeShard(fsid) => {
                        actions.push(
                            Action::ToDataMemory(DataMemoryInEvent::ServeShardRequest(fsid)),
                        );
                    },
                }
                self.processed_requests.register(request, request_id);
                proof {
                    if old(self).processed_map().dom().contains(request) {
                    } else {
                        assert(seq![request_id] =~= waiters_of(
                            old(self).processed_map(),
                            request,
                        ).push(request_id));
                    }
                }
            },
            RequestResponseEvent::Response { request_id, response } => {
                match self.pending_response.remove(request_id.0) {
                    Some(request) => {
                        match (request, response) {
                            (Request::GetShard(fsid), Response::GetShard(shard)) => {
                                match shard {
                                    Some(sh) => {
                                        actions.push(
                                            Action::ToDataMemory(
                                                DataMemoryInEvent::AssignedResponse {
                                                    full_shard_id: fsid,
                                                    shard: sh,
                                                },
                                            ),
                                        );
                                    },
                                    None => {
                                        actions.push(
                                            Action::Warn(Warning::ShardNotHeld(request_id)),
                                        );
                                    },
                                }
                            },
                            (Request::ServeShard(fsid), Response::ServeShard(shard)) => {
                                actions.push(
                                    Action::ToDataMemory(
                                        DataMemoryInEvent::ServeShardResponse(fsid, shard),
                                    ),
                                );
                            },
                            (_, _) => {
                                actions.push(
                                    Action::Warn(Warning::ResponseMismatch(request_id)),
                                );
                            },
                        }
                    },
                    None => {
                        actions.push(Action::Warn(Warning::UnknownRequestId(request_id)));
                        proof {
                            assert(self.pending_map() =~= old(self).pending_map());
                        }
                    },
                }
            },
            RequestResponseEvent::ResponseSent(_) => (),
            RequestResponseEvent::ResponseOmission(id) => {
                actions.push(Action::Warn(Warning::ResponseOmitted(id)));
            },
            RequestResponseEvent::OutboundTimeout(id) => {
                self.pending_response.remove(id.0);
                actions.push(Action::Warn(Warning::RequestTimedOut(id)));
                actions.push(Action::CloseConnection { peer, connection });
            },
            RequestResponseEvent::OutboundUnsupportedProtocols(_) => {
                actions.push(Action::CloseConnection { peer, connection });
            },
            RequestResponseEvent::InboundTimeout(_) => {
                actions.push(Action::CloseConnection { peer, connection });
            },
            RequestResponseEvent::InboundUnsupportedProtocols(_) => {
                actions.push(Action::CloseConnection { peer, connection });
            },
        }
        actions
    }

    /// Sends `request` to `peer` under a fresh correlation id and records it
    /// as awaiting a response.
    fn send_request(&mut self, request: Request, peer: PeerId) -> (r: Action)
        requires
            old(self).wf(),
            old(self).next_request_id_spec() < u64::MAX,
        ensures
            final(self).wf(),
            peers_unchanged(*old(self), *final(self)),
            queues_unchanged(*old(self), *final(self)),
            final(self).processed_map() == old(self).processed_map(),
            final(self).next_request_id_spec() == old(self).next_request_id_spec() + 1,
            final(self).pending_map() == old(self).pending_map().insert(
                old(self).next_request_id_spec(),
                request,
            ),
            r == (Action::SendRequest {
                to: peer,
                request_id: RequestId(old(self).next_request_id_spec()),
                request,
            }),
    {
        let id = RequestId(self.next_request_id);
        self.next_request_id = self.next_request_id + 1;
        self.pending_response.insert(id.0, request);
        Action::SendRequest { to: peer, request_id: id, request }
    }

    /// Answers every waiter of `request` with the response and clears the
    /// waiters.
    fn respond_to(&mut self, request: Request, response: Response) -> (r: Action)
        requires
            old(self).wf(),
        ensures
            final(self).wf(),
            peers_unchanged(*old(self), *final(self)),
            queues_unchanged(*old(self), *final(self)),
            final(self).pending_map() == old(self).pending_map(),
            final(self).next_request_id_spec() == old(self).next_request_id_spec(),
            final(self).processed_map() == old(self).processed_map().remove(request),
            r matches Action::Respond { request_ids, response: resp } && request_ids@
                == waiters_of(old(self).processed_map(), request) && resp == response,
    {
        let ids = self.processed_requests.take(request);
        Action::Respond { request_ids: ids, response }
    }

    /// Routes one data-memory report: shard traffic to the network, storage
    /// confirmations to consensus, results to the user.
    ///
    /// A `Stored` transaction is scheduled here and only here, on
    /// `AssignedStoreSuccess`: the peer announces a shard exactly when its
    /// local store reported the shard safely put.
    pub fn handle_data_memory_event(&mut self, event: DataMemoryOutEvent) -> (r: Vec<
        Action,
    >)
        requires
            old(self).wf(),
            old(self).next_request_id_spec() < u64::MAX,
        ensures
            final(self).wf(),
            peers_unchanged(*old(self), *final(self)),
            queues_unchanged(*old(self), *final(self)),
            match event {
                DataMemoryOutEvent::ServeShardRequest(fsid, location) => {
                    &&& final(self).pending_map() == old(self).pending_map().insert(
                        old(self).next_request_id_spec(),
                        Request::ServeShard(fsid),
                    )
                    &&& final(self).next_request_id_spec() == old(
                        self,
                    ).next_request_id_spec() + 1
                    &&& final(self).processed_map() == old(self).processed_map()
                    &&& r@.len() == 1
                    &&& r@[0] == (Action::SendRequest {
                        to: location,
                        request_id: RequestId(old(self).next_request_id_spec()),
                        request: Request::ServeShard(fsid),
                    })
                },
                DataMemoryOutEvent::ServeShardResponse(fsid, shard) => {
                    &&& final(self).processed_map() == old(self).processed_map().remove(
                        Request::ServeShard(fsid),
                    )
                    &&& final(self).pending_map() == old(self).pending_map()
                    &&& final(self).next_request_id_spec() == old(self).next_request_id_spec()
                    &&& r@.len() == 1
                    &&& (r@[0] matches Action::Respond { request_ids, response }
                        && request_ids@ == waiters_of(
                        old(self).processed_map(),
                        Request::ServeShard(fsid),
                    ) && response == (Response::ServeShard(shard)))
                },
                DataMemoryOutEvent::AssignedStoreSuccess(fsid) => correlation_unchanged(
                    *old(self),
                    *final(self),
                ) && r@.len() == 1 && r@[0] == (Action::ToConsensus(
                    ConsensusInEvent::ScheduleTx(Transaction::Stored(fsid.0, fsid.1)),
                )),
                DataMemoryOutEvent::AssignedResponse(fsid, shard) => {
                    &&& final(self).processed_map() == old(self).processed_map().remove(
                        Request::GetShard(fsid),
                    )
                    &&& final(self).pending_map() == old(self).pending_map()
                    &&& final(self).next_request_id_spec() == old(self).next_request_id_spec()
                    &&& r@.len() == 1
                    &&& (r@[0] matches Action::Respond { request_ids, response }
                        && request_ids@ == waiters_of(
                        old(self).processed_map(),
                        Request::GetShard(fsid),
                    ) && response == (Response::GetShard(shard)))
                },
                DataMemoryOutEvent::DistributionSuccess(vid) => correlation_unchanged(
                    *old(self),
                    *final(self),
                ) && r@.len() == 1 && r@[0] == (Action::ToUser(OutEvent::PutConfirmed(vid))),
                DataMemoryOutEvent::ListDistributed(list) => correlation_unchanged(
                    *old(self),
                    *final(self),
                ) && r@.len() == 1 && r@[0] == (Action::ToUser(
                    OutEvent::ListStoredResponse(list),
                )),
                DataMemoryOutEvent::PreparedServiceResponse(vid) => correlation_unchanged(
                    *old(self),
                    *final(self),
                ) && r@.len() == 1 && r@[0] == (Action::ToConsensus(
                    ConsensusInEvent::ScheduleTx(Transaction::StorageRequest { address: vid }),
                )),
                DataMemoryOutEvent::AssignedRequest(fsid, location) => {
                    &&& final(self).pending_map() == old(self).pending_map().insert(
                        old(self).next_request_id_spec(),
                        Request::GetShard(fsid),
                    )
                    &&& final(self).next_request_id_spec() == old(
                        self,
                    ).next_request_id_spec() + 1
                    &&& final(self).processed_map() == old(self).processed_map()
                    &&& r@.len() == 1
                    &&& r@[0] == (Action::SendRequest {
                        to: location,
                        request_id: RequestId(old(self).next_request_id_spec()),
                        request: Request::GetShard(fsid),
                    })
                },
                DataMemoryOutEvent::RecollectResponse(res) => correlation_unchanged(
                    *old(self),
                    *final(self),
                ) && r@.len() == 1 && r@[0] == (Action::ToUser(OutEvent::GetResponse(res))),
                DataMemoryOutEvent::Initialized => correlation_unchanged(
                    *old(self),
                    *final(self),
                ) && r@.len() == 1 && r@[0] == (Action::ToUser(OutEvent::StorageInitialized)),
            },
    {
        let mut actions: Vec<Action> = Vec::new();
        match event {
            DataMemoryOutEvent::ServeShardRequest(full_shard_id, location) => {
                let a = self.send_request(Request::ServeShard(full_shard_id), location);
                actions.push(a);
            },
            DataMemoryOutEvent::ServeShardResponse(full_shard_id, shard) => {
                let a = self.respond_to(
                    Request::ServeShard(full_shard_id),
                    Response::ServeShard(shard),
                );
                actions.push(a);
            },
            DataMemoryOutEvent::AssignedStoreSuccess(full_shard_id) => {
                actions.push(
                    Action::ToConsensus(
                        ConsensusInEvent::ScheduleTx(
                            Transaction::Stored(full_shard_id.0, full_shard_id.1),
                        ),
                    ),
                );
            },
            DataMemoryOutEvent::AssignedResponse(full_shard_id, shard) => {
                let a = self.respond_to(
                    Request::GetShard(full_shard_id),
                    Response::GetShard(shard),
                );
                actions.push(a);
            },
            DataMemoryOutEvent::DistributionSuccess(data_id) => {
                actions.push(Action::ToUser(OutEvent::PutConfirmed(data_id)));
            },
            DataMemoryOutEvent::ListDistributed(list) => {
                actions.push(Action::ToUser(OutEvent::ListStoredResponse(list)));
            },
            DataMemoryOutEvent::PreparedServiceResponse(data_id) => {
                actions.push(
                    Action::ToConsensus(
                        ConsensusInEvent::ScheduleTx(
                            Transaction::StorageRequest { address: data_id },
                        ),
                    ),
                );
            },
            DataMemoryOutEvent::AssignedRequest(full_shard_id, location) => {
                let a = self.send_request(Request::GetShard(full_shard_id), location);
                actions.push(a);
            },
            DataMemoryOutEvent::RecollectResponse(response) => {
                actions.push(Action::ToUser(OutEvent::GetResponse(response)));
            },
            DataMemoryOutEvent::Initialized => {
                actions.push(Action::ToUser(OutEvent::StorageInitialized));
            },
        }
        actions
    }

    /// Routes one user request: programs and storage initialization go to
    /// consensus, data traffic to the data memory; scheduling is
    /// acknowledged at once.
    pub fn handle_user_event(&mut self, event: InEvent) -> (r: Vec<Action>)
        requires
            old(self).wf(),
        ensures
            *final(self) == *old(self),
            match event {
                InEvent::ScheduleProgram(instructions) => r@.len() == 2 && r@[0] == (
                Action::ToConsensus(
                    ConsensusInEvent::ScheduleTx(Transaction::Execute(instructions)),
                )) && r@[1] == (Action::ToUser(OutEvent::ScheduleOk)),
                InEvent::Get(vid) => r@.len() == 1 && r@[0] == (Action::ToDataMemory(
                    DataMemoryInEvent::RecollectRequest(vid),
                )),
                InEvent::Put(vid, data) => r@.len() == 1 && r@[0] == (Action::ToDataMemory(
                    DataMemoryInEvent::PrepareServiceRequest { data_id: vid, data },
                )),
                InEvent::ListStored => r@.len() == 1 && r@[0] == (Action::ToDataMemory(
                    DataMemoryInEvent::ListDistributed,
                )),
                InEvent::InitializeStorage => r@.len() == 1 && r@[0] == (Action::ToConsensus(
                    ConsensusInEvent::KnownPeersRequest,
                )),
            },
    {
        let mut actions: Vec<Action> = Vec::new();
        match event {
            InEvent::ScheduleProgram(instructions) => {
                actions.push(
                    Action::ToConsensus(
                        ConsensusInEvent::ScheduleTx(Transaction::Execute(instructions)),
                    ),
                );
                actions.push(Action::ToUser(OutEvent::ScheduleOk));
            },
            InEvent::Get(data_id) => {
                actions.push(
                    Action::ToDataMemory(DataMemoryInEvent::RecollectRequest(data_id)),
                );
            },
            InEvent::Put(data_id, data) => {
                actions.push(
                    Action::ToDataMemory(
                        DataMemoryInEvent::PrepareServiceRequest { data_id, data },
                    ),
                );
            },
            InEvent::ListStored => {
                actions.push(Action::ToDataMemory(DataMemoryInEvent::ListDistributed));
            },
            InEvent::InitializeStorage => {
                actions.push(Action::ToConsensus(ConsensusInEvent::KnownPeersRequest));
            },
        }
        actions
    }

    /// Routes the processor's report: a finished program is announced to the
    /// cluster.
    pub fn handle_processor_event(&mut self, event: processor::OutEvent) -> (r: Vec<Action>)
        requires
            old(self).wf(),
        ensures
            *final(self) == *old(self),
            match event {
                processor::OutEvent::FinishedExecution { program_id, results: _ } => r@.len()
                    == 1 && r@[0] == (Action::ToConsensus(
                    ConsensusInEvent::ScheduleTx(Transaction::Executed(program_id)),
                )),
            },
    {
        let mut actions: Vec<Action> = Vec::new();
        match event {
            processor::OutEvent::FinishedExecution { program_id, results: _ } => {
                actions.push(
                    Action::ToConsensus(
                        ConsensusInEvent::ScheduleTx(Transaction::Executed(program_id)),
                    ),
                );
            },
        }
        actions
    }

    /// Routes the instruction memory's report. The caller consults the
    /// processor's shared state first and hands a program over only while
    /// the processor is idle: the processor's inbox never holds more than
    /// one outstanding program. A finished-execution note needs no action;
    /// the processor's own report already announced it.
    pub fn handle_instruction_memory_event(
        &mut self,
        event: InstructionMemoryOutEvent,
        processor_accepts: bool,
    ) -> (r: Vec<Action>)
        requires
            old(self).wf(),
            processor_accepts,
        ensures
            *final(self) == *old(self),
            match event {
                InstructionMemoryOutEvent::NextProgram(p) => r@.len() == 1 && r@[0] == (
                Action::ToProcessor(processor::InEvent::Execute(p))),
                InstructionMemoryOutEvent::FinishedExecution(_) => r@.len() == 0,
            },
    {
        let mut actions: Vec<Action> = Vec::new();
        match event {
            InstructionMemoryOutEvent::NextProgram(program) => {
                actions.push(Action::ToProcessor(processor::InEvent::Execute(program)));
            },
            InstructionMemoryOutEvent::FinishedExecution(_) => (),
        }
        actions
    }

    /// Routes one consensus report: outgoing syncs to the network, known
    /// peers into a storage-initialization transaction with densely assigned
    /// slots, and each finalized transaction to the module it concerns.
    pub fn handle_consensus_event(&mut self, event: crate::consensus::ConsensusOutEvent) -> (r:
        Vec<Action>)
        requires
            old(self).wf(),
        ensures
            *final(self) == *old(self),
            match event {
                crate::consensus::ConsensusOutEvent::GenerateSyncResponse { to, sync } => r@
                    .len() == 1 && r@[0] == (Action::SendSync { to, sync }),
                crate::consensus::ConsensusOutEvent::KnownPeersResponse(peers) => r@.len()
                    == 1 && (r@[0] matches Action::ToConsensus(
                    ConsensusInEvent::ScheduleTx(Transaction::InitializeStorage {
                        distribution,
                    }),
                ) && distribution@.len() == peers@.len() && (forall|i: int|
                    0 <= i < peers@.len() ==> #[trigger] distribution@[i] == (
                    peers@[i],
                    Sid(i as u64),
                ))),
                crate::consensus::ConsensusOutEvent::FinalizedTransaction {
                    from,
                    tx,
                    event_hash,
                } => match tx {
                    Transaction::StorageRequest { address } => r@.len() == 1 && r@[0] == (
                    Action::ToDataMemory(DataMemoryInEvent::StorageRequestTx(address, from))),
                    Transaction::Stored(data_id, shard_id) => r@.len() == 1 && r@[0] == (
                    Action::ToDataMemory(
                        DataMemoryInEvent::StoreConfirmed {
                            full_shard_id: (data_id, shard_id),
                            location: from,
                        },
                    )),
                    Transaction::Execute(instructions) => r@.len() == 1 && (r@[0] matches
                        Action::ToInstructionMemory(
                        InstructionMemoryInEvent::FinalizedProgram(p),
                    ) && p.instructions == instructions && p.identifier == (
                    crate::instructions::ProgramIdentifier(event_hash))),
                    Transaction::Executed(program_id) => r@.len() == 1 && r@[0] == (
                    Action::ToInstructionMemory(
                        InstructionMemoryInEvent::ExecutedProgram { peer: from, program_id },
                    )),
                    Transaction::InitializeStorage { distribution } => r@.len() == 1 && r@[0]
                        == (Action::ToDataMemory(
                        DataMemoryInEvent::Initialize { distribution },
                    )),
                },
            },
    {
        let mut actions: Vec<Action> = Vec::new();
        match event {
            crate::consensus::ConsensusOutEvent::GenerateSyncResponse { to, sync } => {
                actions.push(Action::SendSync { to, sync });
            },
            crate::consensus::ConsensusOutEvent::KnownPeersResponse(peers) => {
                let mut distribution: Vec<(PeerId, Sid)> = Vec::new();
                let mut i: usize = 0;
                while i < peers.len()
                    invariant
                        i <= peers@.len(),
                        distribution@.len() == i,
                        forall|j: int|
                            0 <= j < i ==> #[trigger] distribution@[j] == (
                            peers@[j],
                            Sid(j as u64),
                        ),
                    decreases peers@.len() - i,
                {
                    distribution.push((peers[i], Sid(i as u64)));
                    i = i + 1;
                }
                actions.push(
                    Action::ToConsensus(
                        ConsensusInEvent::ScheduleTx(
                            Transaction::InitializeStorage { distribution },
                        ),
                    ),
                );
            },
            crate::consensus::ConsensusOutEvent::FinalizedTransaction {
                from,
                tx,
                event_hash,
            } => {
                match tx {
                    Transaction::StorageRequest { address } => {
                        actions.push(
                            Action::ToDataMemory(
                                DataMemoryInEvent::StorageRequestTx(address, from),
                            ),
                        );
                    },
                    Transaction::Stored(data_id, shard_id) => {
                        actions.push(
                            Action::ToDataMemory(
                                DataMemoryInEvent::StoreConfirmed {
                                    full_shard_id: (data_id, shard_id),
                                    location: from,
                                },
                            ),
                        );
                    },
                    Transaction::Execute(instructions) => {
                        let program = Program::new(instructions, event_hash);
                        actions.push(
                            Action::ToInstructionMemory(
                                InstructionMemoryInEvent::FinalizedProgram(program),
                            ),
                        );
                    },
                    Transaction::Executed(program_id) => {
                        actions.push(
                            Action::ToInstructionMemory(
                                InstructionMemoryInEvent::ExecutedProgram {
                                    peer: from,
                                    program_id,
                                },
                            ),
                        );
                    },
                    Transaction::InitializeStorage { distribution } => {
                        actions.push(
                            Action::ToDataMemory(
                                DataMemoryInEvent::Initialize { distribution },
                            ),
                        );
                    },
                }
            },
        }
        actions
    }

    /// One connected peer picked by the caller's random draw; `None` when
    /// none is connected.
    pub fn get_random_peer(&self, rand: u64) -> (r: Option<PeerId>)
        ensures
            match r {
                Some(p) => self.connected_seq().len() > 0 && p == self.connected_seq()[(
                rand % (self.connected_seq().len() as u64)) as int],
                None => self.connected_seq().len() == 0,
            },
    {
        let connected = self.connected_peers.len();
        if connected == 0 {
            return None;
        }
        let position = (rand % (connected as u64)) as usize;
        Some(self.connected_peers[position])
    }

    /// The gossip timer fired: always author a standalone event carrying the
    /// buffered transactions, and, when any peer is connected, ask for a
    /// sync exchange with one picked at random. With no peer connected only
    /// the standalone event is authored. The caller checks first that the
    /// consensus module accepts input; losing these sends to saturation is
    /// tolerated.
    pub fn gossip_tick(&mut self, rand: u64) -> (r: Vec<Action>)
        requires
            old(self).wf(),
        ensures
            *final(self) == *old(self),
            old(self).connected_seq().len() == 0 ==> r@.len() == 1 && r@[0] == (
            Action::ToConsensus(ConsensusInEvent::CreateStandalone)),
            old(self).connected_seq().len() > 0 ==> r@.len() == 2 && r@[0] == (
            Action::ToConsensus(ConsensusInEvent::CreateStandalone)) && r@[1] == (
            Action::ToConsensus(
                ConsensusInEvent::GenerateSyncRequest {
                    to: old(self).connected_seq()[(rand % (
                    old(self).connected_seq().len() as u64)) as int],
                },
            )),
    {
        let random_peer = self.get_random_peer(rand);
        let mut actions: Vec<Action> = Vec::new();
        actions.push(Action::ToConsensus(ConsensusInEvent::CreateStandalone));
        match random_peer {
            Some(peer) => {
                actions.push(
                    Action::ToConsensus(ConsensusInEvent::GenerateSyncRequest { to: peer }),
                );
            },
            None => (),
        }
        actions
    }
}

/// The waiters recorded for `request`: the correlation ids to answer when
/// the lookup completes; empty when none wait.
pub open spec fn waiters_of(m: Map<Request, Seq<RequestId>>, request: Request) -> Seq<
    RequestId,
> {
    if m.dom().contains(request) {
        m[request]
    } else {
        Seq::empty()
    }
}

/// Every pending correlation id was assigned by this node: a response can
/// only resolve a request this process issued.
pub proof fn lemma_pending_ids_locally_issued(b: &Behaviour, id: u64)
    requires
        b.wf(),
        b.pending_map().dom().contains(id),
    ensures
        id < b.next_request_id_spec(),
{
}

/// A peer connecting and at once disconnecting leaves the connected set as
/// it was: establishment inserts the peer (without warning exactly when it
/// was absent) and the closure of its last connection removes it again
/// (without warning, since it had just been inserted).
pub proof fn lemma_connect_then_disconnect(s: Set<PeerId>, p: PeerId)
    requires
        !s.contains(p),
    ensures
        s.insert(p).remove(p) == s,
        s.insert(p).contains(p),
{
    assert(s.insert(p).remove(p) =~= s);
}

} // verus!
