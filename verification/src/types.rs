//! Plain identifier and data types shared by every module.
//!
//! Network identities, request correlation tokens and event hashes are opaque
//! handles to the rest of the system: the node works with plain integer
//! values and the transport layer outside the library maps them to its own
//! richer types.

use vstd::prelude::*;

verus! {

/// Identifier for a whole data unit (not split into shards). Every shard of
/// one unit carries the same `Vid`.
#[derive(PartialEq, Eq, Structural, Debug, Clone, Copy, Hash)]
pub struct Vid(pub u64);

/// Index of one shard within a data unit; also a peer's storage slot in the
/// distribution map.
#[derive(PartialEq, Eq, Structural, Debug, Clone, Copy, Hash)]
pub struct Sid(pub u64);

/// Network identity of a peer, as an opaque handle.
#[derive(PartialEq, Eq, Structural, Debug, Clone, Copy, Hash)]
pub struct PeerId(pub u64);

/// Correlation token for an outbound request awaiting a peer's reply;
/// assigned monotonically by the orchestrator.
#[derive(PartialEq, Eq, Structural, Debug, Clone, Copy, Hash)]
pub struct RequestId(pub u64);

/// Handle of one connection to a peer (a peer may hold several).
#[derive(PartialEq, Eq, Structural, Debug, Clone, Copy, Hash)]
pub struct ConnectionId(pub u64);

/// Names one shard of one logical datum.
pub type FullShardId = (Vid, Sid);

/// Identifies one consensus event: the authoring peer together with the
/// position of the event on that peer's own chain. Stands in for the content
/// hash that a cryptographic backend would derive.
#[derive(PartialEq, Eq, Structural, Debug, Clone, Copy, Hash)]
pub struct EventHash {
    pub author: PeerId,
    pub seq: u64,
}

/// Number of bytes in one shard.
pub const SHARD_BYTES: usize = 4;

/// Number of bytes in one whole data unit; split into three shards.
pub const DATA_BYTES: usize = 12;

/// Unit of distributed storage: a fixed-size byte array interpreted
/// elementwise over GF(2^8).
#[derive(Debug, Clone, PartialEq, Eq, Hash)]
pub struct Shard(pub Vec<u8>);

impl Shard {
    /// The shard as a mathematical byte sequence.
    pub open spec fn view(&self) -> Seq<u8> {
        self.0@
    }

    /// A shard holds exactly `SHARD_BYTES` bytes.
    pub open spec fn wf(&self) -> bool {
        self.0@.len() == SHARD_BYTES
    }

    /// The raw bytes.
    pub fn as_inner(&self) -> (r: &Vec<u8>)
        ensures
            r@ == self@,
    {
        &self.0
    }

    /// An exact copy.
    pub fn duplicate(&self) -> (r: Self)
        ensures
            r@ == self@,
    {
        Shard(copy_vec(&self.0))
    }
}

/// A whole logical data unit, reconstructed from its shards.
#[derive(Debug, Clone, PartialEq, Eq, Hash)]
pub struct Data(pub Vec<u8>);

impl Data {
    /// An exact copy.
    pub fn duplicate(&self) -> (r: Self)
        ensures
            r@ == self@,
    {
        Data(copy_vec(&self.0))
    }

    /// The data unit as a mathematical byte sequence.
    pub open spec fn view(&self) -> Seq<u8> {
        self.0@
    }

    /// A data unit holds exactly `DATA_BYTES` bytes.
    pub open spec fn wf(&self) -> bool {
        self.0@.len() == DATA_BYTES
    }

    /// The raw bytes.
    pub fn as_inner(&self) -> (r: &Vec<u8>)
        ensures
            r@ == self@,
    {
        &self.0
    }
}

/// An exact copy of a vector of plainly copyable values.
pub fn copy_vec<T: Copy>(v: &Vec<T>) -> (r: Vec<T>)
    ensures
        r@ == v@,
{
    let mut r: Vec<T> = Vec::new();
    let mut i: usize = 0;
    while i < v.len()
        invariant
            i <= v@.len(),
            r@ == v@.subrange(0, i as int),
        decreases v@.len() - i,
    {
        r.push(v[i]);
        proof {
            assert(r@ =~= v@.subrange(0, i + 1 as int));
        }
        i = i + 1;
    }
    proof {
        assert(r@ =~= v@);
    }
    r
}

} // verus!
