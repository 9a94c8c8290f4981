//! A peer-to-peer compute-and-storage node.
//!
//! A cluster of such nodes exchanges transactions via a gossip-propagated
//! event DAG, distributes data shards across peers, and executes small
//! arithmetic programs over those shards in GF(2^8). Each node delivers its
//! finalized transactions in a stable, exactly-once order; the cross-peer
//! finality rule that would make that order agree over a shared DAG prefix
//! belongs to a full consensus engine and is outside this crate, which
//! delivers in local log order.
//!
//! The crate holds the verified core: the orchestrator state machine that
//! routes traffic between the modules and the network, the consensus wrapper
//! that buffers transactions and grows the event DAG, the shard-level
//! processor, and the wire codec. Network transport, timers and the async
//! runtime live outside and drive these state machines with plain values.

pub mod behaviour;
pub mod codec;
pub mod consensus;
pub mod data_memory;
pub mod field;
pub mod instruction_memory;
pub mod instructions;
pub mod io;
pub mod kv;
pub mod mock;
pub mod module;
pub mod node;
pub mod processor;
pub mod types;
