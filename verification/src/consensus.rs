//! The consensus wrapper: an append-only event DAG grown by gossip.
//!
//! Each peer authors a chain of events; every event carries a batch of
//! transactions, a self-parent (its predecessor on the author's chain) and an
//! other-parent (the freshest event known from a remote peer). Locally
//! scheduled transactions are buffered and embedded in the next authored
//! event. Events are identified by the pair of author and chain position,
//! standing in for a content hash.

use vstd::prelude::*;

use crate::instructions::{duplicate_instructions, Instruction, Instructions, ProgramIdentifier};
use crate::kv::KeyMap;
use crate::types::{copy_vec, EventHash, PeerId, Sid, Vid};

verus! {

/// The consensus payload: one state-changing step agreed on by the cluster.
#[derive(Debug, Clone, PartialEq, Eq, Hash)]
pub enum Transaction {
    /// The proposer asks the cluster to allocate shard locations for
    /// `address`.
    StorageRequest { address: Vid },
    /// The proposer confirms that it now holds the named shard.
    Stored(Vid, Sid),
    /// The proposer schedules a program.
    Execute(Instructions),
    /// The proposer confirms that it executed the named program.
    Executed(ProgramIdentifier),
    /// Assigns each peer a shard slot.
    InitializeStorage { distribution: Vec<(PeerId, Sid)> },
}

/// A transaction as a mathematical value.
pub enum TransactionModel {
    StorageRequest { address: Vid },
    Stored(Vid, Sid),
    Execute(Seq<Instruction<Vid, Vid>>),
    Executed(ProgramIdentifier),
    InitializeStorage { distribution: Seq<(PeerId, Sid)> },
}

impl View for Transaction {
    type V = TransactionModel;

    open spec fn view(&self) -> TransactionModel {
        match self {
            Transaction::StorageRequest { address } => TransactionModel::StorageRequest {
                address: *address,
            },
            Transaction::Stored(v, s) => TransactionModel::Stored(*v, *s),
            Transaction::Execute(instrs) => TransactionModel::Execute(instrs@),
            Transaction::Executed(p) => TransactionModel::Executed(*p),
            Transaction::InitializeStorage { distribution } => {
                TransactionModel::InitializeStorage { distribution: distribution@ }
            },
        }
    }
}

/// The models of a transaction list.
pub open spec fn txs_model(s: Seq<Transaction>) -> Seq<TransactionModel> {
    s.map_values(|t: Transaction| t@)
}

/// One event of the DAG. `seq` is the event's position on its author's
/// chain; author and position together identify the event.
#[derive(Debug, Clone, PartialEq, Eq, Hash)]
pub struct Event {
    pub author: PeerId,
    pub seq: u64,
    pub self_parent: Option<EventHash>,
    pub other_parent: Option<EventHash>,
    pub payload: Vec<Transaction>,
}

/// An event as a mathematical value.
pub struct EventModel {
    pub author: PeerId,
    pub seq: u64,
    pub self_parent: Option<EventHash>,
    pub other_parent: Option<EventHash>,
    pub payload: Seq<TransactionModel>,
}

impl EventModel {
    /// The event's identifier.
    pub open spec fn hash_spec(&self) -> EventHash {
        EventHash { author: self.author, seq: self.seq }
    }
}

impl View for Event {
    type V = EventModel;

    open spec fn view(&self) -> EventModel {
        EventModel {
            author: self.author,
            seq: self.seq,
            self_parent: self.self_parent,
            other_parent: self.other_parent,
            payload: txs_model(self.payload@),
        }
    }
}

/// The models of an event list.
pub open spec fn events_model(s: Seq<Event>) -> Seq<EventModel> {
    s.map_values(|e: Event| e@)
}

impl Event {
    /// The event's identifier.
    pub fn hash(&self) -> (r: EventHash)
        ensures
            r == self@.hash_spec(),
    {
        EventHash { author: self.author, seq: self.seq }
    }

    /// An exact copy.
    pub fn duplicate(&self) -> (r: Self)
        ensures
            r@ == self@,
    {
        let payload = duplicate_transactions(&self.payload);
        Event {
            author: self.author,
            seq: self.seq,
            self_parent: self.self_parent,
            other_parent: self.other_parent,
            payload,
        }
    }
}

impl Transaction {
    /// An exact copy.
    pub fn duplicate(&self) -> (r: Self)
        ensures
            r@ == self@,
    {
        match self {
            Transaction::StorageRequest { address } => Transaction::StorageRequest {
                address: *address,
            },
            Transaction::Stored(v, s) => Transaction::Stored(*v, *s),
            Transaction::Execute(instrs) => Transaction::Execute(
                duplicate_instructions(instrs),
            ),
            Transaction::Executed(p) => Transaction::Executed(*p),
            Transaction::InitializeStorage { distribution } => {
                Transaction::InitializeStorage { distribution: copy_vec(distribution) }
            },
        }
    }
}

/// An exact copy of a transaction list.
pub fn duplicate_transactions(v: &Vec<Transaction>) -> (r: Vec<Transaction>)
    ensures
        txs_model(r@) == txs_model(v@),
{
    let mut r: Vec<Transaction> = Vec::new();
    let mut i: usize = 0;
    while i < v.len()
        invariant
            i <= v@.len(),
            r@.len() == i,
            forall|j: int| 0 <= j < i ==> r@[j]@ == v@[j]@,
        decreases v@.len() - i,
    {
        r.push(v[i].duplicate());
        i = i + 1;
    }
    proof {
        assert forall|j: int| 0 <= j < r@.len() implies txs_model(r@)[j] == txs_model(
            v@,
        )[j] by {
            assert(txs_model(r@)[j] == r@[j]@);
            assert(txs_model(v@)[j] == v@[j]@);
        }
        assert(txs_model(r@) =~= txs_model(v@));
    }
    r
}

/// An exact copy of an event list.
pub fn duplicate_events(v: &Vec<Event>) -> (r: Vec<Event>)
    ensures
        events_model(r@) == events_model(v@),
{
    let mut r: Vec<Event> = Vec::new();
    let mut i: usize = 0;
    while i < v.len()
        invariant
            i <= v@.len(),
            r@.len() == i,
            forall|j: int| 0 <= j < i ==> r@[j]@ == v@[j]@,
        decreases v@.len() - i,
    {
        r.push(v[i].duplicate());
        i = i + 1;
    }
    proof {
        assert forall|j: int| 0 <= j < r@.len() implies events_model(r@)[j] == events_model(
            v@,
        )[j] by {
            assert(events_model(r@)[j] == r@[j]@);
            assert(events_model(v@)[j] == v@[j]@);
        }
        assert(events_model(r@) =~= events_model(v@));
    }
    r
}

/// A topologically sorted batch of events sent from one peer to another:
/// every parent referenced by an event of the batch stands earlier in the
/// batch or is already known to the recipient.
#[derive(Debug, Clone, PartialEq, Eq, Hash)]
pub struct SyncJobs {
    pub linear: Vec<Event>,
}

impl View for SyncJobs {
    type V = Seq<EventModel>;

    open spec fn view(&self) -> Seq<EventModel> {
        events_model(self.linear@)
    }
}

impl SyncJobs {
    /// Borrows the linearization.
    pub fn as_linear(&self) -> (r: &Vec<Event>)
        ensures
            events_model(r@) == self@,
            r@.len() == self@.len(),
    {
        &self.linear
    }

    /// Takes the linearization.
    pub fn into_linear(self) -> (r: Vec<Event>)
        ensures
            events_model(r@) == self@,
            r@.len() == self@.len(),
    {
        self.linear
    }
}

/// Why a received event cannot be inserted into the DAG.
#[derive(Debug, Clone, Copy, PartialEq, Eq, Structural)]
pub enum PushError {
    /// The event is already present.
    Duplicate,
    /// A referenced parent is not present.
    UnknownParent,
    /// The event does not extend its author's chain.
    ChainMismatch,
}

/// Why authoring a new local event failed.
#[derive(Debug, Clone, Copy, PartialEq, Eq, Structural)]
pub enum EventCreateError {
    /// The author's chain has reached the largest representable position.
    ChainExhausted,
}

/// Why a received sync could not be applied.
#[derive(Debug, Clone, Copy, PartialEq, Eq, Structural)]
pub enum ApplySyncError {
    /// An event of the sync violates a DAG invariant.
    PushError(PushError),
    /// The sending peer has no event yet, so no other-parent exists.
    UnknownPeer(PeerId),
    /// Authoring the local event on top of the sync failed.
    CreateError(EventCreateError),
}

/// An event identified by `h` stands strictly before position `i` of the
/// log.
pub open spec fn present_before(events: Seq<EventModel>, i: int, h: EventHash) -> bool {
    exists|j: int| 0 <= j < i && events[j].hash_spec() == h
}

/// Structural soundness of the event at position `i` of the log: genesis
/// events open a chain, every other event extends its author's chain by one
/// and both parents stand earlier in the log.
pub open spec fn event_chain_wf(events: Seq<EventModel>, i: int) -> bool {
    let e = events[i];
    &&& (e.seq == 0 <==> e.self_parent is None)
    &&& (e.seq == 0 ==> e.other_parent is None)
    &&& (e.self_parent matches Some(h) ==> h == (EventHash {
        author: e.author,
        seq: (e.seq - 1) as u64,
    }) && present_before(events, i, h))
    &&& (e.other_parent matches Some(h) ==> present_before(events, i, h))
}

/// One event can be inserted into the DAG in the given state: it is not yet
/// present, it is remotely authored, and it either opens a fresh chain or
/// extends its author's chain by one with both parents known.
pub open spec fn push_valid(
    events: Seq<EventModel>,
    latest: Map<u64, EventHash>,
    self_id: PeerId,
    e: EventModel,
) -> bool {
    &&& !present_before(events, events.len() as int, e.hash_spec())
    &&& e.author != self_id
    &&& if e.seq == 0 {
        e.self_parent is None && e.other_parent is None && !latest.dom().contains(e.author.0)
    } else {
        &&& e.self_parent == (Some(EventHash {
            author: e.author,
            seq: (e.seq - 1) as u64,
        }))
        &&& latest.dom().contains(e.author.0)
        &&& latest[e.author.0] == (EventHash { author: e.author, seq: (e.seq - 1) as u64 })
        &&& (e.other_parent matches Some(h) && present_before(
            events,
            events.len() as int,
            h,
        ))
    }
}

/// The DAG state after inserting a whole batch, event by event in batch
/// order; `None` when some event of the batch cannot be inserted into the
/// state the earlier ones produced.
pub open spec fn apply_pushes(
    events: Seq<EventModel>,
    latest: Map<u64, EventHash>,
    self_id: PeerId,
    jobs: Seq<EventModel>,
) -> Option<(Seq<EventModel>, Map<u64, EventHash>)>
    decreases jobs.len(),
{
    if jobs.len() == 0 {
        Some((events, latest))
    } else if push_valid(events, latest, self_id, jobs[0]) {
        apply_pushes(
            events.push(jobs[0]),
            latest.insert(jobs[0].author.0, jobs[0].hash_spec()),
            self_id,
            jobs.subrange(1, jobs.len() as int),
        )
    } else {
        None
    }
}

/// The transactions of all events authored by `a`, concatenated in chain
/// order.
pub open spec fn payloads_of_author(events: Seq<EventModel>, a: PeerId) -> Seq<
    TransactionModel,
>
    decreases events.len(),
{
    if events.len() == 0 {
        Seq::empty()
    } else {
        payloads_of_author(events.drop_last(), a) + if events.last().author == a {
            events.last().payload
        } else {
            Seq::empty()
        }
    }
}

/// Grows the local copy of the event DAG: ingests remote sync batches,
/// buffers locally scheduled transactions, authors new events, and hands
/// events out for finalization in a deterministic order.
pub struct GraphWrapper {
    self_id: PeerId,
    events: Vec<Event>,
    peer_latest: KeyMap<EventHash>,
    transaction_buffer: Vec<Transaction>,
    state_updated: bool,
    delivered: usize,
}

impl GraphWrapper {
    /// The local peer's identity.
    pub closed spec fn self_id_spec(&self) -> PeerId {
        self.self_id
    }

    /// The event log in insertion order, a topological linearization of the
    /// DAG.
    pub closed spec fn events_seq(&self) -> Seq<EventModel> {
        events_model(self.events@)
    }

    /// The transactions scheduled since the last authored event.
    pub closed spec fn buffer_seq(&self) -> Seq<TransactionModel> {
        txs_model(self.transaction_buffer@)
    }

    /// Whether downstream observers have been told to wake up.
    pub closed spec fn state_updated_spec(&self) -> bool {
        self.state_updated
    }

    /// How many events have been handed out for finalization.
    pub closed spec fn delivered_count(&self) -> nat {
        self.delivered as nat
    }

    /// The latest event known per peer.
    pub closed spec fn peer_latest_map(&self) -> Map<u64, EventHash> {
        self.peer_latest@
    }

    /// The per-peer table holds each peer at most once.
    pub closed spec fn peer_latest_wf(&self) -> bool {
        self.peer_latest.wf()
    }

    /// The local peer holds the first position of the per-peer table, so
    /// peer listings name it first.
    pub closed spec fn local_peer_first(&self) -> bool {
        self.peer_latest.entries_seq().len() > 0 && self.peer_latest.entries_seq()[0].0
            == self.self_id.0
    }

    /// An event with identifier `h` is in the log.
    pub open spec fn contains_hash(&self, h: EventHash) -> bool {
        present_before(self.events_seq(), self.events_seq().len() as int, h)
    }

    /// Every transaction this peer has embedded in an authored event,
    /// followed by the transactions still buffered: together, the stream of
    /// everything scheduled locally, each exactly once and in order.
    pub open spec fn emitted_and_buffered(&self) -> Seq<TransactionModel> {
        payloads_of_author(self.events_seq(), self.self_id_spec()) + self.buffer_seq()
    }

    /// Internal soundness of the DAG copy.
    pub open spec fn wf(&self) -> bool {
        &&& forall|i: int, j: int|
            0 <= i < j < self.events_seq().len() ==> self.events_seq()[i].hash_spec()
                != self.events_seq()[j].hash_spec()
        &&& forall|i: int|
            0 <= i < self.events_seq().len() ==> event_chain_wf(self.events_seq(), i)
        &&& self.peer_latest_wf()
        &&& forall|i: int|
            0 <= i < self.events_seq().len() ==> {
                let e = #[trigger] self.events_seq()[i];
                &&& self.peer_latest_map().dom().contains(e.author.0)
                &&& self.peer_latest_map()[e.author.0].seq >= e.seq
            }
        &&& forall|p: u64| #[trigger]
            self.peer_latest_map().dom().contains(p) ==> {
                let h = self.peer_latest_map()[p];
                &&& h.author.0 == p
                &&& self.contains_hash(h)
            }
        &&& self.peer_latest_map().dom().contains(self.self_id_spec().0)
        &&& self.local_peer_first()
        &&& self.delivered_count() <= self.events_seq().len()
    }

    /// A fresh DAG copy holding only this peer's genesis event.
    pub fn new(self_id: PeerId) -> (r: Self)
        ensures
            r.wf(),
            r.self_id_spec() == self_id,
            r.events_seq().len() == 1,
            r.events_seq()[0].author == self_id,
            r.events_seq()[0].seq == 0,
            r.events_seq()[0].self_parent is None,
            r.events_seq()[0].other_parent is None,
            r.events_seq()[0].payload.len() == 0,
            r.buffer_seq().len() == 0,
            !r.state_updated_spec(),
            r.delivered_count() == 0,
            r.peer_latest_map().dom() =~= set![self_id.0],
    {
        let genesis = Event {
            author: self_id,
            seq: 0,
            self_parent: None,
            other_parent: None,
            payload: Vec::new(),
        };
        let mut events: Vec<Event> = Vec::new();
        events.push(genesis);
        let mut peer_latest: KeyMap<EventHash> = KeyMap::new();
        peer_latest.insert(self_id.0, EventHash { author: self_id, seq: 0 });
        let r = GraphWrapper {
            self_id,
            events,
            peer_latest,
            transaction_buffer: Vec::new(),
            state_updated: false,
            delivered: 0,
        };
        proof {
            assert(r.events_seq()[0].hash_spec() == (EventHash { author: self_id, seq: 0 }));
            assert(r.peer_latest_map().dom() =~= set![self_id.0]);
        }
        r
    }

    /// How many events the log holds.
    pub fn events_count(&self) -> (r: usize)
        ensures
            r == self.events_seq().len(),
    {
        self.events.len()
    }

    /// How many transactions are buffered.
    pub fn buffer_count(&self) -> (r: usize)
        ensures
            r == self.buffer_seq().len(),
    {
        self.transaction_buffer.len()
    }

    /// Whether observers have been told to wake up.
    pub fn is_state_updated(&self) -> (r: bool)
        ensures
            r == self.state_updated_spec(),
    {
        self.state_updated
    }

    /// The local peer's identity.
    pub fn self_id(&self) -> (r: PeerId)
        ensures
            r == self.self_id_spec(),
    {
        self.self_id
    }

    /// The event log as received and authored, a topological linearization
    /// of the DAG.
    pub fn inner(&self) -> (r: &Vec<Event>)
        ensures
            events_model(r@) == self.events_seq(),
    {
        &self.events
    }

    /// The latest event known from `peer`, if any.
    pub fn peer_latest_event(&self, peer: PeerId) -> (r: Option<EventHash>)
        requires
            self.wf(),
        ensures
            match r {
                Some(h) => self.peer_latest_map().dom().contains(peer.0) && h
                    == self.peer_latest_map()[peer.0],
                None => !self.peer_latest_map().dom().contains(peer.0),
            },
    {
        match self.peer_latest.get(peer.0) {
            Some(h) => Some(*h),
            None => None,
        }
    }

    /// Appends `tx` to the transaction buffer; it will be embedded in the
    /// next authored event.
    pub fn schedule_tx(&mut self, tx: Transaction)
        requires
            old(self).wf(),
        ensures
            final(self).wf(),
            final(self).buffer_seq() == old(self).buffer_seq().push(tx@),
            final(self).events_seq() == old(self).events_seq(),
            final(self).state_updated_spec() == old(self).state_updated_spec(),
            final(self).delivered_count() == old(self).delivered_count(),
            final(self).peer_latest_map() == old(self).peer_latest_map(),
            final(self).self_id_spec() == old(self).self_id_spec(),
            final(self).emitted_and_buffered() == old(self).emitted_and_buffered().push(
                tx@,
            ),
    {
        self.transaction_buffer.push(tx);
        proof {
            assert(self.buffer_seq() =~= old(self).buffer_seq().push(tx@));
            assert(self.emitted_and_buffered() =~= old(self).emitted_and_buffered().push(
                tx@,
            ));
        }
    }

    /// Whether an event with identifier `h` is in the log.
    fn contains_hash_exec(&self, h: EventHash) -> (r: bool)
        ensures
            r == self.contains_hash(h),
    {
        let mut i: usize = 0;
        while i < self.events.len()
            invariant
                i <= self.events_seq().len(),
                self.events_seq().len() == self.events@.len(),
                forall|j: int| 0 <= j < i ==> self.events_seq()[j].hash_spec() != h,
            decreases self.events_seq().len() - i,
        {
            let e = &self.events[i];
            if e.author.0 == h.author.0 && e.seq == h.seq {
                proof {
                    assert(self.events_seq()[i as int].hash_spec() == h);
                }
                return true;
            }
            proof {
                assert(self.events_seq()[i as int].hash_spec() != h);
            }
            i = i + 1;
        }
        false
    }

    /// Inserts one received event into the DAG.
    fn push_event(&mut self, e: Event) -> (r: Result<(), PushError>)
        requires
            old(self).wf(),
        ensures
            final(self).wf(),
            final(self).self_id_spec() == old(self).self_id_spec(),
            final(self).buffer_seq() == old(self).buffer_seq(),
            final(self).state_updated_spec() == old(self).state_updated_spec(),
            final(self).delivered_count() == old(self).delivered_count(),
            match r {
                Ok(()) => {
                    &&& final(self).events_seq() == old(self).events_seq().push(e@)
                    &&& final(self).peer_latest_map() == old(self).peer_latest_map().insert(
                        e@.author.0,
                        e@.hash_spec(),
                    )
                    &&& !old(self).contains_hash(e@.hash_spec())
                },
                Err(_) => *final(self) == *old(self),
            },
            r is Ok <==> push_valid(
                old(self).events_seq(),
                old(self).peer_latest_map(),
                old(self).self_id_spec(),
                e@,
            ),
            final(self).emitted_and_buffered() == old(self).emitted_and_buffered(),
    {
        if self.contains_hash_exec(e.hash()) {
            return Err(PushError::Duplicate);
        }
        if e.author.0 == self.self_id.0 {
            // only this peer authors events on its own chain; a remote event
            // claiming local authorship is the analog of a signature mismatch
            return Err(PushError::ChainMismatch);
        }
        if e.seq == 0 {
            if e.self_parent.is_some() || e.other_parent.is_some() {
                return Err(PushError::ChainMismatch);
            }
            if self.peer_latest.contains_key(e.author.0) {
                // a second genesis for a known author does not extend its chain
                return Err(PushError::ChainMismatch);
            }
        } else {
            let expected_parent = EventHash { author: e.author, seq: e.seq - 1 };
            match e.self_parent {
                None => {
                    return Err(PushError::ChainMismatch);
                },
                Some(h) => {
                    if !(h.author.0 == expected_parent.author.0 && h.seq
                        == expected_parent.seq) {
                        return Err(PushError::ChainMismatch);
                    }
                },
            }
            match self.peer_latest.get(e.author.0) {
                None => {
                    return Err(PushError::UnknownParent);
                },
                Some(latest) => {
                    if !(latest.author.0 == expected_parent.author.0 && latest.seq
                        == expected_parent.seq) {
                        return Err(PushError::ChainMismatch);
                    }
                },
            }
            match e.other_parent {
                None => {
                    return Err(PushError::ChainMismatch);
                },
                Some(h) => {
                    if !self.contains_hash_exec(h) {
                        return Err(PushError::UnknownParent);
                    }
                },
            }
        }
        let ghost pre = *self;
        let ghost em = e@;
        let author = e.author;
        let hash = e.hash();
        proof {
            self.peer_latest.lemma_nonempty(self.self_id.0);
        }
        self.events.push(e);
        self.peer_latest.insert(author.0, hash);
        proof {
            assert(self.events_seq() =~= pre.events_seq().push(em));
            assert(self.local_peer_first());
            self.lemma_push_preserves_wf(pre, em);
            lemma_payloads_push_other(pre.events_seq(), em, pre.self_id_spec());
            assert(self.emitted_and_buffered() =~= pre.emitted_and_buffered());
        }
        Ok(())
    }

    /// Pushing a chain-sound event keeps the DAG sound.
    proof fn lemma_push_preserves_wf(&self, pre: GraphWrapper, e: EventModel)
        requires
            pre.wf(),
            self.events_seq() == pre.events_seq().push(e),
            self.peer_latest_map() == pre.peer_latest_map().insert(
                e.author.0,
                e.hash_spec(),
            ),
            self.peer_latest_wf(),
            self.self_id_spec() == pre.self_id_spec(),
            self.delivered_count() == pre.delivered_count(),
            !pre.contains_hash(e.hash_spec()),
            e.seq == 0 ==> e.self_parent is None && e.other_parent is None
                && !pre.peer_latest_map().dom().contains(e.author.0),
            e.seq > 0 ==> {
                &&& e.self_parent == (Some(EventHash {
                    author: e.author,
                    seq: (e.seq - 1) as u64,
                }))
                &&& pre.peer_latest_map().dom().contains(e.author.0)
                &&& pre.peer_latest_map()[e.author.0] == (EventHash {
                    author: e.author,
                    seq: (e.seq - 1) as u64,
                })
                &&& e.other_parent matches Some(h) && pre.contains_hash(h)
            },
            self.local_peer_first(),
        ensures
            self.wf(),
    {
        let n = pre.events_seq().len() as int;
        assert forall|i: int, j: int|
            0 <= i < j < self.events_seq().len() implies self.events_seq()[i].hash_spec()
            != self.events_seq()[j].hash_spec() by {
            if j < n {
                assert(pre.events_seq()[i].hash_spec() != pre.events_seq()[j].hash_spec());
            } else {
                if self.events_seq()[i].hash_spec() == e.hash_spec() {
                    assert(present_before(pre.events_seq(), n, e.hash_spec()));
                }
            }
        }
        assert forall|i: int|
            0 <= i < self.events_seq().len() implies event_chain_wf(self.events_seq(), i) by {
            if i < n {
                assert(event_chain_wf(pre.events_seq(), i));
                assert forall|h: EventHash|
                    present_before(pre.events_seq(), i, h) implies present_before(
                    self.events_seq(),
                    i,
                    h,
                ) by {
                    let j = choose|j: int|
                        0 <= j < i && pre.events_seq()[j].hash_spec() == h;
                    assert(self.events_seq()[j].hash_spec() == h);
                }
            } else {
                if e.seq > 0 {
                    let ph = pre.peer_latest_map()[e.author.0];
                    assert(pre.contains_hash(ph));
                    let oh = e.other_parent->0;
                    assert(pre.contains_hash(oh));
                    assert forall|h: EventHash|
                        pre.contains_hash(h) implies present_before(
                        self.events_seq(),
                        i,
                        h,
                    ) by {
                        let j = choose|j: int|
                            0 <= j < n && pre.events_seq()[j].hash_spec() == h;
                        assert(self.events_seq()[j].hash_spec() == h);
                    }
                }
            }
        }
        assert forall|i: int| 0 <= i < self.events_seq().len() implies {
            let ev = #[trigger] self.events_seq()[i];
            self.peer_latest_map().dom().contains(ev.author.0)
                && self.peer_latest_map()[ev.author.0].seq >= ev.seq
        } by {
            let ev = self.events_seq()[i];
            if i < n {
                assert(pre.peer_latest_map().dom().contains(ev.author.0));
                if ev.author.0 == e.author.0 {
                    if e.seq > 0 {
                        assert(pre.peer_latest_map()[ev.author.0].seq >= ev.seq);
                    }
                } else {
                    assert(self.peer_latest_map()[ev.author.0]
                        == pre.peer_latest_map()[ev.author.0]);
                }
            }
        }
        assert forall|p: u64| #[trigger]
            self.peer_latest_map().dom().contains(p) implies {
            let h = self.peer_latest_map()[p];
            h.author.0 == p && self.contains_hash(h)
        } by {
            if p == e.author.0 {
                assert(self.events_seq()[n].hash_spec() == e.hash_spec());
            } else {
                assert(pre.peer_latest_map().dom().contains(p));
                let h = pre.peer_latest_map()[p];
                let j = choose|j: int|
                    0 <= j < n && pre.events_seq()[j].hash_spec() == h;
                assert(self.events_seq()[j].hash_spec() == h);
            }
        }
        assert(self.peer_latest_map().dom().contains(self.self_id_spec().0));
    }

    /// Authors a new local event whose payload is the transaction buffer,
    /// whose self-parent is the local latest event and whose other-parent is
    /// `other_parent`; clears the buffer.
    fn create_event(&mut self, other_parent: EventHash) -> (r: Result<
        EventHash,
        EventCreateError,
    >)
        requires
            old(self).wf(),
            old(self).contains_hash(other_parent),
        ensures
            final(self).wf(),
            final(self).self_id_spec() == old(self).self_id_spec(),
            final(self).delivered_count() == old(self).delivered_count(),
            final(self).state_updated_spec() == old(self).state_updated_spec(),
            final(self).emitted_and_buffered() == old(self).emitted_and_buffered(),
            match r {
                Ok(h) => {
                    &&& final(self).events_seq().len() == old(self).events_seq().len() + 1
                    &&& final(self).events_seq().subrange(
                        0,
                        old(self).events_seq().len() as int,
                    ) == old(self).events_seq()
                    &&& final(self).events_seq().last().author == old(self).self_id_spec()
                    &&& final(self).events_seq().last().payload == old(self).buffer_seq()
                    &&& final(self).events_seq().last().self_parent == (Some(
                        old(self).peer_latest_map()[old(self).self_id_spec().0],
                    ))
                    &&& final(self).events_seq().last().other_parent == (Some(other_parent))
                    &&& h == final(self).events_seq().last().hash_spec()
                    &&& h.seq == old(self).peer_latest_map()[old(self).self_id_spec().0].seq
                        + 1
                    &&& final(self).buffer_seq().len() == 0
                    &&& final(self).peer_latest_map() == old(self).peer_latest_map().insert(
                        old(self).self_id_spec().0,
                        h,
                    )
                },
                Err(_) => *final(self) == *old(self),
            },
            r is Ok <==> old(self).peer_latest_map()[old(self).self_id_spec().0].seq
                < u64::MAX,
    {
        let latest = match self.peer_latest.get(self.self_id.0) {
            Some(h) => *h,
            None => {
                proof {
                    assert(false);
                }
                return Err(EventCreateError::ChainExhausted);
            },
        };
        if latest.seq == u64::MAX {
            return Err(EventCreateError::ChainExhausted);
        }
        let mut payload: Vec<Transaction> = Vec::new();
        core::mem::swap(&mut payload, &mut self.transaction_buffer);
        let e = Event {
            author: self.self_id,
            seq: latest.seq + 1,
            self_parent: Some(latest),
            other_parent: Some(other_parent),
            payload,
        };
        let ghost pre = *old(self);
        let ghost mid = *self;
        let ghost em = e@;
        let hash = e.hash();
        proof {
            assert(latest.author == self.self_id);
            assert forall|j: int|
                0 <= j < self.events_seq().len() implies self.events_seq()[j].hash_spec()
                != em.hash_spec() by {
                let ev = self.events_seq()[j];
                if ev.author.0 == self.self_id.0 {
                    assert(self.peer_latest_map()[ev.author.0].seq >= ev.seq);
                }
            }
        }
        proof {
            self.peer_latest.lemma_nonempty(self.self_id.0);
        }
        self.events.push(e);
        self.peer_latest.insert(self.self_id.0, hash);
        proof {
            assert(self.events_seq() =~= mid.events_seq().push(em));
            assert(!mid.contains_hash(em.hash_spec()));
            assert(self.local_peer_first());
            self.lemma_push_preserves_wf(mid, em);
            lemma_payloads_push_own(mid.events_seq(), em, mid.self_id_spec());
            assert(em.payload == pre.buffer_seq());
            assert(self.emitted_and_buffered() =~= pre.emitted_and_buffered());
            assert(self.events_seq().subrange(0, pre.events_seq().len() as int)
                =~= pre.events_seq());
        }
        Ok(hash)
    }

    /// Applies a remote sync: pushes each event of the batch in the order
    /// given, then authors a new local event whose other-parent is the
    /// latest event of `from` after the pushes, embedding and clearing the
    /// transaction buffer. An empty sync changes nothing at all.
    pub fn apply_sync(&mut self, from: PeerId, sync: SyncJobs) -> (r: Result<
        (),
        ApplySyncError,
    >)
        requires
            old(self).wf(),
        ensures
            final(self).wf(),
            final(self).self_id_spec() == old(self).self_id_spec(),
            final(self).delivered_count() == old(self).delivered_count(),
            final(self).emitted_and_buffered() == old(self).emitted_and_buffered(),
            sync@.len() == 0 ==> (r matches Ok(_) && *final(self) == *old(self)),
            sync@.len() > 0 ==> final(self).state_updated_spec(),
            match r {
                Ok(()) => sync@.len() == 0 || {
                    &&& final(self).events_seq().len() == old(self).events_seq().len()
                        + sync@.len() + 1
                    &&& final(self).events_seq().subrange(
                        0,
                        old(self).events_seq().len() as int,
                    ) == old(self).events_seq()
                    &&& final(self).events_seq().subrange(
                        old(self).events_seq().len() as int,
                        (old(self).events_seq().len() + sync@.len()) as int,
                    ) == sync@
                    &&& final(self).events_seq().last().author == old(self).self_id_spec()
                    &&& final(self).events_seq().last().payload == old(self).buffer_seq()
                    &&& final(self).events_seq().last().self_parent == (Some(
                        old(self).peer_latest_map()[old(self).self_id_spec().0],
                    ))
                    &&& final(self).events_seq().last().other_parent is Some
                    &&& (from != old(self).self_id_spec()
                        ==> final(self).events_seq().last().other_parent == (Some(
                        final(self).peer_latest_map()[from.0],
                    )))
                    &&& final(self).peer_latest_map()[old(self).self_id_spec().0].seq
                        == old(self).peer_latest_map()[old(self).self_id_spec().0].seq + 1
                    &&& final(self).buffer_seq().len() == 0
                },
                Err(_) => {
                    &&& final(self).buffer_seq() == old(self).buffer_seq()
                    &&& exists|j: int|
                        0 <= j <= sync@.len() && final(self).events_seq() == old(
                            self,
                        ).events_seq() + sync@.subrange(0, j)
                },
            },
            sync@.len() > 0 ==> {
                &&& (r is Ok <==> (apply_pushes(
                    old(self).events_seq(),
                    old(self).peer_latest_map(),
                    old(self).self_id_spec(),
                    sync@,
                ) matches Some((_, lat2)) && lat2.dom().contains(from.0) && old(
                    self,
                ).peer_latest_map()[old(self).self_id_spec().0].seq < u64::MAX))
                &&& (apply_pushes(
                    old(self).events_seq(),
                    old(self).peer_latest_map(),
                    old(self).self_id_spec(),
                    sync@,
                ) is None ==> (r matches Err(ApplySyncError::PushError(_))))
                &&& ((apply_pushes(
                    old(self).events_seq(),
                    old(self).peer_latest_map(),
                    old(self).self_id_spec(),
                    sync@,
                ) matches Some((_, lat2)) && !lat2.dom().contains(from.0)) ==> r == (Err::<
                    (),
                    ApplySyncError,
                >(ApplySyncError::UnknownPeer(from))))
                &&& ((apply_pushes(
                    old(self).events_seq(),
                    old(self).peer_latest_map(),
                    old(self).self_id_spec(),
                    sync@,
                ) matches Some((_, lat2)) && lat2.dom().contains(from.0) && old(
                    self,
                ).peer_latest_map()[old(self).self_id_spec().0].seq == u64::MAX) ==> r
                    == (Err::<(), ApplySyncError>(
                    ApplySyncError::CreateError(EventCreateError::ChainExhausted),
                )))
            },
    {
        let mut jobs = sync.into_linear();
        if jobs.len() == 0 {
            return Ok(());
        }
        self.state_updated = true;
        let ghost orig = events_model(jobs@);
        proof {
            assert(old(self).events_seq() + orig.subrange(0, 0) =~= old(self).events_seq());
        }
        while jobs.len() > 0
            invariant
                self.wf(),
                self.self_id_spec() == old(self).self_id_spec(),
                self.delivered_count() == old(self).delivered_count(),
                self.buffer_seq() == old(self).buffer_seq(),
                self.state_updated_spec(),
                self.emitted_and_buffered() == old(self).emitted_and_buffered(),
                jobs@.len() <= orig.len(),
                self.events_seq() == old(self).events_seq() + orig.subrange(
                    0,
                    orig.len() - jobs@.len(),
                ),
                events_model(jobs@) == orig.subrange(
                    orig.len() - jobs@.len(),
                    orig.len() as int,
                ),
                orig == sync@,
                apply_pushes(
                    old(self).events_seq(),
                    old(self).peer_latest_map(),
                    old(self).self_id_spec(),
                    orig,
                ) == apply_pushes(
                    self.events_seq(),
                    self.peer_latest_map(),
                    self.self_id_spec(),
                    events_model(jobs@),
                ),
                self.peer_latest_map().dom().contains(old(self).self_id_spec().0),
                self.peer_latest_map()[old(self).self_id_spec().0] == old(
                    self,
                ).peer_latest_map()[old(self).self_id_spec().0],
            decreases jobs@.len(),
        {
            let ghost k = orig.len() - jobs@.len();
            let ghost prev_jobs = jobs@;
            let e = jobs.remove(0);
            proof {
                assert(e == prev_jobs[0]);
                assert(events_model(prev_jobs)[0] == prev_jobs[0]@);
                assert(events_model(prev_jobs) == orig.subrange(k as int, orig.len() as int));
                assert(e@ == orig[k as int]);
                assert forall|j: int| 0 <= j < jobs@.len() implies events_model(jobs@)[j]
                    == orig.subrange(k + 1, orig.len() as int)[j] by {
                    assert(jobs@[j] == prev_jobs[j + 1]);
                    assert(events_model(jobs@)[j] == jobs@[j]@);
                    assert(events_model(prev_jobs)[j + 1] == prev_jobs[j + 1]@);
                }
                assert(events_model(jobs@) =~= orig.subrange(k + 1, orig.len() as int));
            }
            let ghost pre_state = *self;
            match self.push_event(e) {
                Ok(()) => {
                    proof {
                        assert(self.events_seq() =~= old(self).events_seq() + orig.subrange(
                            0,
                            k + 1,
                        ));
                        assert(events_model(prev_jobs)[0] == e@);
                        assert(events_model(prev_jobs).subrange(
                            1,
                            events_model(prev_jobs).len() as int,
                        ) =~= events_model(jobs@));
                        assert(apply_pushes(
                            pre_state.events_seq(),
                            pre_state.peer_latest_map(),
                            pre_state.self_id_spec(),
                            events_model(prev_jobs),
                        ) == apply_pushes(
                            self.events_seq(),
                            self.peer_latest_map(),
                            self.self_id_spec(),
                            events_model(jobs@),
                        ));
                        assert(e@.author != pre_state.self_id_spec());
                        assert(self.peer_latest_map()[old(self).self_id_spec().0] == old(
                            self,
                        ).peer_latest_map()[old(self).self_id_spec().0]);
                    }
                },
                Err(pe) => {
                    proof {
                        assert(0 <= k <= sync@.len() && self.events_seq() == old(
                            self,
                        ).events_seq() + sync@.subrange(0, k));
                        assert(apply_pushes(
                            pre_state.events_seq(),
                            pre_state.peer_latest_map(),
                            pre_state.self_id_spec(),
                            events_model(prev_jobs),
                        ) is None);
                        assert(apply_pushes(
                            old(self).events_seq(),
                            old(self).peer_latest_map(),
                            old(self).self_id_spec(),
                            sync@,
                        ) is None);
                    }
                    return Err(ApplySyncError::PushError(pe));
                },
            }
        }
        proof {
            assert(orig.subrange(0, orig.len() as int) =~= orig);
            assert(self.events_seq() == old(self).events_seq() + orig);
            assert(events_model(jobs@).len() == 0);
            assert(apply_pushes(
                old(self).events_seq(),
                old(self).peer_latest_map(),
                old(self).self_id_spec(),
                sync@,
            ) == Some((self.events_seq(), self.peer_latest_map())));
        }
        let latest_from = match self.peer_latest.get(from.0) {
            Some(h) => *h,
            None => {
                proof {
                    assert(self.events_seq() == old(self).events_seq() + sync@.subrange(
                        0,
                        sync@.len() as int,
                    ));
                }
                return Err(ApplySyncError::UnknownPeer(from));
            },
        };
        let ghost mid = *self;
        match self.create_event(latest_from) {
            Ok(_) => {
                proof {
                    let ol = old(self).events_seq().len() as int;
                    let sl = sync@.len() as int;
                    assert(mid.events_seq() == old(self).events_seq() + orig);
                    assert(self.events_seq().subrange(0, ol + sl) == mid.events_seq());
                    assert forall|j: int| 0 <= j < ol implies self.events_seq()[j] == old(
                        self,
                    ).events_seq()[j] by {
                        assert(self.events_seq().subrange(0, ol + sl)[j]
                            == self.events_seq()[j]);
                    }
                    assert(self.events_seq().subrange(0, ol) =~= old(self).events_seq());
                    assert forall|j: int| 0 <= j < sl implies self.events_seq()[ol + j]
                        == sync@[j] by {
                        assert(self.events_seq().subrange(0, ol + sl)[ol + j]
                            == self.events_seq()[ol + j]);
                        assert((old(self).events_seq() + orig)[ol + j] == orig[j]);
                    }
                    assert(self.events_seq().subrange(ol, ol + sl) =~= sync@);
                }
                Ok(())
            },
            Err(ce) => {
                proof {
                    assert(self.events_seq() == old(self).events_seq() + sync@.subrange(
                        0,
                        sync@.len() as int,
                    ));
                }
                Err(ApplySyncError::CreateError(ce))
            },
        }
    }

    /// Authors a new local event whose other-parent equals its self-parent,
    /// embedding and clearing the transaction buffer; used on the gossip
    /// timer when no remote sync has arrived.
    pub fn create_standalone_event(&mut self) -> (r: Result<(), EventCreateError>)
        requires
            old(self).wf(),
        ensures
            final(self).wf(),
            final(self).self_id_spec() == old(self).self_id_spec(),
            final(self).delivered_count() == old(self).delivered_count(),
            final(self).state_updated_spec(),
            final(self).emitted_and_buffered() == old(self).emitted_and_buffered(),
            match r {
                Ok(()) => {
                    &&& final(self).events_seq().len() == old(self).events_seq().len() + 1
                    &&& final(self).events_seq().subrange(
                        0,
                        old(self).events_seq().len() as int,
                    ) == old(self).events_seq()
                    &&& final(self).events_seq().last().author == old(self).self_id_spec()
                    &&& final(self).events_seq().last().payload == old(self).buffer_seq()
                    &&& final(self).events_seq().last().self_parent == (Some(
                        old(self).peer_latest_map()[old(self).self_id_spec().0],
                    ))
                    &&& final(self).events_seq().last().self_parent == final(self).events_seq().last().other_parent
                    &&& final(self).peer_latest_map()[old(self).self_id_spec().0].seq
                        == old(self).peer_latest_map()[old(self).self_id_spec().0].seq + 1
                    &&& final(self).buffer_seq().len() == 0
                },
                Err(_) => {
                    &&& final(self).events_seq() == old(self).events_seq()
                    &&& final(self).buffer_seq() == old(self).buffer_seq()
                    &&& final(self).peer_latest_map() == old(self).peer_latest_map()
                },
            },
            r is Ok <==> old(self).peer_latest_map()[old(self).self_id_spec().0].seq
                < u64::MAX,
    {
        self.state_updated = true;
        let latest = match self.peer_latest.get(self.self_id.0) {
            Some(h) => *h,
            None => {
                proof {
                    assert(false);
                }
                return Err(EventCreateError::ChainExhausted);
            },
        };
        match self.create_event(latest) {
            Ok(_) => Ok(()),
            Err(ce) => Err(ce),
        }
    }

    /// Hands out the next event for finalization, in log order, once
    /// observers have been woken.
    pub fn poll_next(&mut self) -> (r: Option<Event>)
        requires
            old(self).wf(),
        ensures
            final(self).wf(),
            final(self).self_id_spec() == old(self).self_id_spec(),
            final(self).events_seq() == old(self).events_seq(),
            final(self).buffer_seq() == old(self).buffer_seq(),
            final(self).state_updated_spec() == old(self).state_updated_spec(),
            final(self).peer_latest_map() == old(self).peer_latest_map(),
            final(self).emitted_and_buffered() == old(self).emitted_and_buffered(),
            match r {
                Some(e) => {
                    &&& old(self).state_updated_spec()
                    &&& old(self).delivered_count() < old(self).events_seq().len()
                    &&& e@ == old(self).events_seq()[old(self).delivered_count() as int]
                    &&& final(self).delivered_count() == old(self).delivered_count() + 1
                },
                None => {
                    &&& *final(self) == *old(self)
                    &&& (!old(self).state_updated_spec() || old(self).delivered_count()
                        == old(self).events_seq().len())
                },
            },
    {
        if !self.state_updated {
            return None;
        }
        if self.delivered < self.events.len() {
            let e = self.events[self.delivered].duplicate();
            self.delivered = self.delivered + 1;
            Some(e)
        } else {
            None
        }
    }

    /// The peers whose events this node has seen, the local peer first.
    pub fn known_peers(&self) -> (r: Vec<PeerId>)
        requires
            self.wf(),
        ensures
            r@.len() > 0,
            r@[0] == self.self_id_spec(),
            forall|i: int|
                0 <= i < r@.len() ==> self.peer_latest_map().dom().contains(
                    #[trigger] r@[i].0,
                ),
            forall|p: u64| #[trigger]
                self.peer_latest_map().dom().contains(p) ==> exists|i: int|
                    0 <= i < r@.len() && r@[i].0 == p,
            forall|i: int, j: int| 0 <= i < j < r@.len() ==> r@[i] != r@[j],
    {
        let entries = self.peer_latest.entries();
        let mut r: Vec<PeerId> = Vec::new();
        let mut i: usize = 0;
        while i < entries.len()
            invariant
                self.peer_latest_wf(),
                entries@ == self.peer_latest.entries_seq(),
                i <= entries@.len(),
                r@.len() == i,
                forall|j: int| 0 <= j < i ==> r@[j].0 == entries@[j].0,
            decreases entries@.len() - i,
        {
            r.push(PeerId(entries[i].0));
            i = i + 1;
        }
        proof {
            assert forall|j: int|
                0 <= j < r@.len() implies self.peer_latest_map().dom().contains(
                #[trigger] r@[j].0,
            ) by {
                self.peer_latest.lemma_entry(j);
            }
            assert forall|p: u64| #[trigger]
                self.peer_latest_map().dom().contains(p) implies exists|j: int|
                0 <= j < r@.len() && r@[j].0 == p by {
                let j = choose|j: int|
                    0 <= j < self.peer_latest.entries_seq().len()
                        && self.peer_latest.entries_seq()[j].0 == p;
                assert(r@[j].0 == p);
            }
        }
        r
    }

    /// A sync batch holding the whole event log, a topological
    /// linearization; the recipient drops what it already holds.
    pub fn generate_sync(&self) -> (r: SyncJobs)
        ensures
            r@ == self.events_seq(),
    {
        SyncJobs { linear: duplicate_events(&self.events) }
    }
}

/// What the consensus module is asked to do.
#[derive(Debug)]
pub enum ConsensusInEvent {
    /// Apply a received sync batch.
    ApplySync { from: PeerId, sync: SyncJobs },
    /// Buffer a transaction for the next authored event.
    ScheduleTx(Transaction),
    /// Author a standalone event.
    CreateStandalone,
    /// Ask for the peers whose events have been seen.
    KnownPeersRequest,
    /// Generate a sync batch for `to`.
    GenerateSyncRequest { to: PeerId },
}

/// What the consensus module reports.
#[derive(Debug)]
pub enum ConsensusOutEvent {
    /// A sync batch to send to `to`.
    GenerateSyncResponse { to: PeerId, sync: SyncJobs },
    /// The peers whose events have been seen.
    KnownPeersResponse(Vec<PeerId>),
    /// One transaction of a finalized event, with its author and the hash of
    /// the event that finalized it.
    FinalizedTransaction { from: PeerId, tx: Transaction, event_hash: EventHash },
}

/// Unfolds a finalized event into one output per carried transaction, in
/// payload order, each tagged with the event's author and identifier.
pub fn finalized_out_events(e: Event) -> (r: Vec<ConsensusOutEvent>)
    ensures
        r@.len() == e@.payload.len(),
        forall|i: int|
            0 <= i < r@.len() ==> (#[trigger] r@[i] matches
                ConsensusOutEvent::FinalizedTransaction { from, tx, event_hash }
                && from == e@.author && tx@ == e@.payload[i] && event_hash == e@.hash_spec()),
{
    let author = e.author;
    let hash = e.hash();
    let mut payload = e.payload;
    let ghost orig = txs_model(payload@);
    let mut r: Vec<ConsensusOutEvent> = Vec::new();
    while payload.len() > 0
        invariant
            author == e@.author,
            hash == e@.hash_spec(),
            hash == (EventHash { author, seq: e.seq }),
            payload@.len() <= orig.len(),
            txs_model(payload@) == orig.subrange(
                orig.len() - payload@.len(),
                orig.len() as int,
            ),
            r@.len() == orig.len() - payload@.len(),
            forall|i: int|
                0 <= i < r@.len() ==> (#[trigger] r@[i] matches
                    ConsensusOutEvent::FinalizedTransaction { from, tx, event_hash }
                    && from == author && tx@ == orig[i] && event_hash == (EventHash {
                    author,
                    seq: e.seq,
                })),
        decreases payload@.len(),
    {
        let ghost k = orig.len() - payload@.len();
        let ghost prev = payload@;
        let tx = payload.remove(0);
        proof {
            assert(txs_model(prev)[0] == prev[0]@);
            assert(tx@ == orig[k as int]);
            assert forall|j: int| 0 <= j < payload@.len() implies txs_model(payload@)[j]
                == orig.subrange(k + 1, orig.len() as int)[j] by {
                assert(payload@[j] == prev[j + 1]);
                assert(txs_model(payload@)[j] == payload@[j]@);
                assert(txs_model(prev)[j + 1] == prev[j + 1]@);
            }
            assert(txs_model(payload@) =~= orig.subrange(k + 1, orig.len() as int));
        }
        let ghost prev_r = r@;
        r.push(ConsensusOutEvent::FinalizedTransaction { from: author, tx, event_hash: hash });
        proof {
            assert(r@[prev_r.len() as int] matches ConsensusOutEvent::FinalizedTransaction {
                from,
                tx: t,
                event_hash,
            } && from == author && t@ == orig[k as int] && event_hash == (EventHash {
                author,
                seq: e.seq,
            }));
            assert(forall|i: int| 0 <= i < prev_r.len() ==> r@[i] == prev_r[i]);
        }
    }
    r
}

/// Every stored event's self-parent is authored by the same peer, stands one
/// step earlier on that peer's chain, and is present in the log: each peer's
/// self-chain is totally ordered by chain position.
pub proof fn lemma_self_parent_same_author(g: &GraphWrapper, i: int)
    requires
        g.wf(),
        0 <= i < g.events_seq().len(),
        g.events_seq()[i].self_parent is Some,
    ensures
        g.events_seq()[i].self_parent->0.author == g.events_seq()[i].author,
        g.events_seq()[i].self_parent->0.seq + 1 == g.events_seq()[i].seq,
        present_before(g.events_seq(), i, g.events_seq()[i].self_parent->0),
{
    assert(event_chain_wf(g.events_seq(), i));
}

/// Appending an event authored by someone else leaves an author's payload
/// stream unchanged.
proof fn lemma_payloads_push_other(events: Seq<EventModel>, e: EventModel, a: PeerId)
    requires
        e.author != a,
    ensures
        payloads_of_author(events.push(e), a) == payloads_of_author(events, a),
{
    assert(events.push(e).drop_last() =~= events);
    assert(events.push(e).last() == e);
    assert(payloads_of_author(events.push(e), a) =~= payloads_of_author(events, a));
}

/// Appending an event authored by `a` extends `a`'s payload stream by the
/// event's payload.
proof fn lemma_payloads_push_own(events: Seq<EventModel>, e: EventModel, a: PeerId)
    requires
        e.author == a,
    ensures
        payloads_of_author(events.push(e), a) == payloads_of_author(events, a) + e.payload,
{
    assert(events.push(e).drop_last() =~= events);
    assert(events.push(e).last() == e);
}

} // verus!
