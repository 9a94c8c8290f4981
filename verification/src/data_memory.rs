//! The data-memory vocabulary: the events the distributed shard store
//! consumes and produces, and the split of a data unit into its shards.
//!
//! The store itself (tracking shard locations and serving shards) is an
//! external collaborator specified by this event interface; the split and
//! reassembly of data units is the library's own logic.

use vstd::prelude::*;

use crate::types::{copy_vec, Data, FullShardId, PeerId, Shard, Sid, Vid, DATA_BYTES,
    SHARD_BYTES};

verus! {

/// Why a data unit could not be recollected from its shards.
#[derive(Debug, Clone, Copy, PartialEq, Eq, Structural)]
pub enum RecollectionError {
    /// No distribution is known for the requested data unit.
    NotFound,
    /// Too few shards could be gathered to reassemble the unit.
    NotEnoughShards,
}

/// What the data memory is asked to do or told about.
#[derive(Debug)]
pub enum DataMemoryInEvent {
    /// A peer asks for a shard assigned to this node.
    AssignedRequest(FullShardId),
    /// A shard assigned to this node arrived from its holder.
    AssignedResponse { full_shard_id: FullShardId, shard: Shard },
    /// A peer asks this node to serve a shard it is distributing.
    ServeShardRequest(FullShardId),
    /// A served shard arrived.
    ServeShardResponse(FullShardId, Shard),
    /// A finalized storage request: `address` is being distributed by the
    /// named peer.
    StorageRequestTx(Vid, PeerId),
    /// A finalized confirmation that `location` stores the shard.
    StoreConfirmed { full_shard_id: FullShardId, location: PeerId },
    /// The user hands in a data unit for distribution.
    PrepareServiceRequest { data_id: Vid, data: Data },
    /// The user asks for a data unit back.
    RecollectRequest(Vid),
    /// The user asks for the list of distributed units.
    ListDistributed,
    /// A finalized storage initialization with the peer-to-slot assignment.
    Initialize { distribution: Vec<(PeerId, Sid)> },
}

/// What the data memory reports.
#[derive(Debug)]
pub enum DataMemoryOutEvent {
    /// Ask `location` to serve the named shard to this node.
    ServeShardRequest(FullShardId, PeerId),
    /// Serve the named shard to whoever requested it.
    ServeShardResponse(FullShardId, Shard),
    /// The shard assigned to this node has been stored locally.
    AssignedStoreSuccess(FullShardId),
    /// The answer to a peer's request for an assigned shard; `None` means it
    /// is no longer held.
    AssignedResponse(FullShardId, Option<Shard>),
    /// All shards of the unit reached their assigned peers.
    DistributionSuccess(Vid),
    /// The list of distributed units with their shard locations.
    ListDistributed(Vec<(Vid, Vec<(Sid, PeerId)>)>),
    /// The unit is split and ready; a storage request should be scheduled.
    PreparedServiceResponse(Vid),
    /// Ask `location` for the shard assigned to this node.
    AssignedRequest(FullShardId, PeerId),
    /// The answer to a recollection request.
    RecollectResponse(Result<(Vid, Data), RecollectionError>),
    /// The storage initialization took effect.
    Initialized,
}

/// The number of shards a data unit splits into.
pub const SHARDS_PER_UNIT: usize = 3;

/// The bytes of shard `i` of a data unit.
pub open spec fn shard_slice(d: Seq<u8>, i: int) -> Seq<u8> {
    d.subrange(i * SHARD_BYTES as int, (i + 1) * SHARD_BYTES as int)
}

/// Splits a data unit into its shards, in slot order.
pub fn split_data(data: &Data) -> (r: Vec<Shard>)
    requires
        data.wf(),
    ensures
        r@.len() == SHARDS_PER_UNIT,
        forall|i: int| 0 <= i < r@.len() ==> (#[trigger] r@[i])@ == shard_slice(data@, i),
        forall|i: int| 0 <= i < r@.len() ==> (#[trigger] r@[i]).wf(),
{
    let bytes = data.as_inner();
    let mut r: Vec<Shard> = Vec::new();
    let mut i: usize = 0;
    while i < SHARDS_PER_UNIT
        invariant
            i <= SHARDS_PER_UNIT,
            bytes@ == data@,
            data@.len() == DATA_BYTES,
            r@.len() == i,
            forall|j: int| 0 <= j < i ==> (#[trigger] r@[j])@ == shard_slice(data@, j),
            forall|j: int| 0 <= j < i ==> (#[trigger] r@[j]).wf(),
        decreases SHARDS_PER_UNIT - i,
    {
        let mut shard_bytes: Vec<u8> = Vec::new();
        let mut b: usize = 0;
        while b < SHARD_BYTES
            invariant
                b <= SHARD_BYTES,
                i < SHARDS_PER_UNIT,
                bytes@ == data@,
                data@.len() == DATA_BYTES,
                shard_bytes@.len() == b,
                forall|x: int|
                    0 <= x < b ==> shard_bytes@[x] == data@[i * SHARD_BYTES + x],
            decreases SHARD_BYTES - b,
        {
            shard_bytes.push(bytes[i * SHARD_BYTES + b]);
            b = b + 1;
        }
        proof {
            assert(shard_bytes@ =~= shard_slice(data@, i as int));
        }
        r.push(Shard(shard_bytes));
        i = i + 1;
    }
    r
}

/// Reassembles a data unit out of its shards, in slot order.
pub fn join_shards(shards: &Vec<Shard>) -> (r: Data)
    requires
        shards@.len() == SHARDS_PER_UNIT,
        forall|i: int| 0 <= i < shards@.len() ==> (#[trigger] shards@[i]).wf(),
    ensures
        r@ == shards@[0]@ + shards@[1]@ + shards@[2]@,
        r.wf(),
{
    let mut bytes: Vec<u8> = Vec::new();
    let mut i: usize = 0;
    while i < SHARDS_PER_UNIT
        invariant
            i <= SHARDS_PER_UNIT,
            shards@.len() == SHARDS_PER_UNIT,
            forall|j: int| 0 <= j < shards@.len() ==> (#[trigger] shards@[j]).wf(),
            bytes@.len() == i * SHARD_BYTES,
            forall|j: int, x: int| #![trigger shards@[j]@[x]]
                0 <= j < i && 0 <= x < SHARD_BYTES ==> bytes@[j * SHARD_BYTES + x]
                    == shards@[j]@[x],
        decreases SHARDS_PER_UNIT - i,
    {
        let inner = shards[i].as_inner();
        let mut b: usize = 0;
        while b < SHARD_BYTES
            invariant
                b <= SHARD_BYTES,
                i < SHARDS_PER_UNIT,
                shards@.len() == SHARDS_PER_UNIT,
                forall|j: int| 0 <= j < shards@.len() ==> (#[trigger] shards@[j]).wf(),
                inner@ == shards@[i as int]@,
                bytes@.len() == i * SHARD_BYTES + b,
                forall|j: int, x: int| #![trigger shards@[j]@[x]]
                    0 <= j < i && 0 <= x < SHARD_BYTES ==> bytes@[j * SHARD_BYTES + x]
                        == shards@[j]@[x],
                forall|x: int|
                    0 <= x < b ==> bytes@[i * SHARD_BYTES + x] == shards@[i as int]@[x],
            decreases SHARD_BYTES - b,
        {
            bytes.push(inner[b]);
            b = b + 1;
        }
        i = i + 1;
    }
    proof {
        assert(bytes@ =~= shards@[0]@ + shards@[1]@ + shards@[2]@);
    }
    Data(bytes)
}

/// Splitting a data unit and concatenating the slices in slot order gives
/// the unit back: reassembly after distribution returns what was put in.
pub proof fn lemma_split_join_identity(d: Seq<u8>)
    requires
        d.len() == DATA_BYTES,
    ensures
        shard_slice(d, 0) + shard_slice(d, 1) + shard_slice(d, 2) == d,
{
    assert(shard_slice(d, 0) + shard_slice(d, 1) + shard_slice(d, 2) =~= d);
}

} // verus!
