//! Serialize-then-deserialize identity for every wire message variant.

use distributed_compute_node::behaviour::{Request, Response, SimpleMessage};
use distributed_compute_node::codec::{decode_message, encode_message, WireMessage, WIRE_VERSION};
use distributed_compute_node::consensus::{Event, SyncJobs, Transaction};
use distributed_compute_node::instructions::{Instruction, ProgramIdentifier};
use distributed_compute_node::types::{EventHash, PeerId, Shard, Sid, Vid};

fn round_trip(m: WireMessage) {
    let bytes = encode_message(&m);
    let (decoded, used) = decode_message(&bytes).expect("an encoding must parse");
    assert_eq!(decoded, m);
    assert_eq!(used, bytes.len());
}

#[test]
fn get_shard_request_round_trips() {
    round_trip(WireMessage::Request(Request::GetShard((Vid(7), Sid(2)))));
}

#[test]
fn serve_shard_request_round_trips() {
    round_trip(WireMessage::Request(Request::ServeShard((
        Vid(u64::MAX),
        Sid(0),
    ))));
}

#[test]
fn get_shard_response_round_trips_with_and_without_a_shard() {
    round_trip(WireMessage::Response(Response::GetShard(Some(Shard(vec![
        1, 2, 3, 4,
    ])))));
    round_trip(WireMessage::Response(Response::GetShard(None)));
}

#[test]
fn serve_shard_response_round_trips() {
    round_trip(WireMessage::Response(Response::ServeShard(Shard(vec![
        0, 255, 17, 4,
    ]))));
}

#[test]
fn gossip_round_trips_with_nested_events_and_transactions() {
    let events = vec![
        Event {
            author: PeerId(1),
            seq: 0,
            self_parent: None,
            other_parent: None,
            payload: vec![],
        },
        Event {
            author: PeerId(1),
            seq: 1,
            self_parent: Some(EventHash {
                author: PeerId(1),
                seq: 0,
            }),
            other_parent: Some(EventHash {
                author: PeerId(1),
                seq: 0,
            }),
            payload: vec![
                Transaction::StorageRequest { address: Vid(9) },
                Transaction::Stored(Vid(9), Sid(1)),
                Transaction::Execute(vec![
                    Instruction::plus(Vid(1), Vid(2), Vid(3)),
                    Instruction::nand(Vid(1), Vid(2), Vid(4)),
                    Instruction::inv(Vid(4), Vid(5)),
                    Instruction::sub(Vid(3), Vid(4), Vid(6)),
                    Instruction::nor(Vid(5), Vid(6), Vid(7)),
                ]),
                Transaction::Executed(ProgramIdentifier(EventHash {
                    author: PeerId(2),
                    seq: 7,
                })),
                Transaction::InitializeStorage {
                    distribution: vec![(PeerId(1), Sid(0)), (PeerId(2), Sid(1))],
                },
            ],
        },
    ];
    round_trip(WireMessage::Simple(SimpleMessage::GossipGraph(SyncJobs {
        linear: events,
    })));
}

#[test]
fn an_empty_gossip_round_trips() {
    round_trip(WireMessage::Simple(SimpleMessage::GossipGraph(SyncJobs {
        linear: vec![],
    })));
}

#[test]
fn a_wrong_version_byte_is_refused() {
    let m = WireMessage::Request(Request::GetShard((Vid(1), Sid(1))));
    let mut bytes = encode_message(&m);
    bytes[0] = WIRE_VERSION + 1;
    assert!(decode_message(&bytes).is_none());
}

#[test]
fn a_truncated_message_is_refused() {
    let m = WireMessage::Request(Request::GetShard((Vid(1), Sid(1))));
    let mut bytes = encode_message(&m);
    bytes.pop();
    assert!(decode_message(&bytes).is_none());
}
