//! The orchestrator's routing, connection tracking and correlation tables.

use distributed_compute_node::behaviour::{
    Action, Behaviour, FromSwarmEvent, HandlerEvent, InEvent, OutEvent, Request,
    RequestResponseEvent, Response, SimpleMessage, Warning, send_failure_fatal,
};
use distributed_compute_node::consensus::{
    finalized_out_events, ConsensusInEvent, ConsensusOutEvent, Event, GraphWrapper, SyncJobs,
    Transaction,
};
use distributed_compute_node::data_memory::{DataMemoryInEvent, DataMemoryOutEvent};
use distributed_compute_node::instruction_memory::{
    InstructionMemoryInEvent, InstructionMemoryOutEvent,
};
use distributed_compute_node::instructions::{Instruction, Program, ProgramIdentifier};
use distributed_compute_node::types::{
    ConnectionId, Data, EventHash, PeerId, RequestId, Shard, Sid, Vid,
};

fn shard(bytes: [u8; 4]) -> Shard {
    Shard(bytes.to_vec())
}

#[test]
fn connection_established_then_closed_leaves_no_peer_and_no_warning() {
    let mut b = Behaviour::new(PeerId(0));
    let w1 = b.on_swarm_event(FromSwarmEvent::ConnectionEstablished {
        peer_id: PeerId(9),
        other_established: 0,
    });
    assert_eq!(w1, None);
    assert_eq!(b.connected_count(), 1);
    let w2 = b.on_swarm_event(FromSwarmEvent::ConnectionClosed {
        peer_id: PeerId(9),
        remaining_established: 0,
    });
    assert_eq!(w2, None);
    assert_eq!(b.connected_count(), 0);
}

#[test]
fn second_connection_to_same_peer_changes_nothing() {
    let mut b = Behaviour::new(PeerId(0));
    assert_eq!(
        b.on_swarm_event(FromSwarmEvent::ConnectionEstablished {
            peer_id: PeerId(9),
            other_established: 0,
        }),
        None
    );
    assert_eq!(
        b.on_swarm_event(FromSwarmEvent::ConnectionEstablished {
            peer_id: PeerId(9),
            other_established: 1,
        }),
        None
    );
    assert_eq!(b.connected_count(), 1);
}

#[test]
fn duplicate_establishment_warns() {
    let mut b = Behaviour::new(PeerId(0));
    b.on_swarm_event(FromSwarmEvent::ConnectionEstablished {
        peer_id: PeerId(9),
        other_established: 0,
    });
    let w = b.on_swarm_event(FromSwarmEvent::ConnectionEstablished {
        peer_id: PeerId(9),
        other_established: 0,
    });
    assert_eq!(w, Some(Warning::AlreadyConnected(PeerId(9))));
    assert_eq!(b.connected_count(), 1);
}

#[test]
fn closing_unknown_peer_warns() {
    let mut b = Behaviour::new(PeerId(0));
    let w = b.on_swarm_event(FromSwarmEvent::ConnectionClosed {
        peer_id: PeerId(5),
        remaining_established: 0,
    });
    assert_eq!(w, Some(Warning::NotConnected(PeerId(5))));
    assert_eq!(b.connected_count(), 0);
}

#[test]
fn gossip_tick_with_no_peers_authors_standalone_only() {
    let mut b = Behaviour::new(PeerId(0));
    let actions = b.gossip_tick(42);
    assert_eq!(actions.len(), 1);
    assert!(matches!(
        actions[0],
        Action::ToConsensus(ConsensusInEvent::CreateStandalone)
    ));
}

#[test]
fn gossip_tick_with_a_peer_also_requests_a_sync() {
    let mut b = Behaviour::new(PeerId(0));
    b.on_swarm_event(FromSwarmEvent::ConnectionEstablished {
        peer_id: PeerId(7),
        other_established: 0,
    });
    let actions = b.gossip_tick(4);
    assert_eq!(actions.len(), 2);
    assert!(matches!(
        actions[0],
        Action::ToConsensus(ConsensusInEvent::CreateStandalone)
    ));
    assert!(matches!(
        actions[1],
        Action::ToConsensus(ConsensusInEvent::GenerateSyncRequest { to: PeerId(7) })
    ));
}

#[test]
fn gossip_sends_tolerate_saturation_and_everything_else_does_not() {
    assert!(!send_failure_fatal(&Action::ToConsensus(
        ConsensusInEvent::CreateStandalone
    )));
    assert!(!send_failure_fatal(&Action::ToConsensus(
        ConsensusInEvent::GenerateSyncRequest { to: PeerId(1) }
    )));
    assert!(send_failure_fatal(&Action::ToConsensus(
        ConsensusInEvent::ScheduleTx(Transaction::Stored(Vid(1), Sid(0)))
    )));
    assert!(send_failure_fatal(&Action::ToUser(OutEvent::ScheduleOk)));
}

#[test]
fn response_for_unknown_request_id_only_warns() {
    let mut b = Behaviour::new(PeerId(0));
    b.on_connection_handler_event(
        PeerId(3),
        ConnectionId(1),
        HandlerEvent::RequestResponse(RequestResponseEvent::Response {
            request_id: RequestId(77),
            response: Response::GetShard(Some(shard([1, 2, 3, 4]))),
        }),
    );
    let actions = b.poll_request_response();
    assert_eq!(actions.len(), 1);
    assert!(matches!(
        actions[0],
        Action::Warn(Warning::UnknownRequestId(RequestId(77)))
    ));
    assert_eq!(b.pending_count(), 0);
}

#[test]
fn outbound_request_is_correlated_and_resolved() {
    let mut b = Behaviour::new(PeerId(0));
    // data memory asks for the shard assigned to this node
    let actions = b.handle_data_memory_event(DataMemoryOutEvent::AssignedRequest(
        (Vid(7), Sid(0)),
        PeerId(3),
    ));
    assert_eq!(actions.len(), 1);
    match &actions[0] {
        Action::SendRequest {
            to,
            request_id,
            request,
        } => {
            assert_eq!(*to, PeerId(3));
            assert_eq!(*request_id, RequestId(0));
            assert_eq!(*request, Request::GetShard((Vid(7), Sid(0))));
        }
        other => panic!("unexpected action: {:?}", other),
    }
    assert_eq!(b.pending_count(), 1);
    // the peer answers under the same correlation id
    b.on_connection_handler_event(
        PeerId(3),
        ConnectionId(1),
        HandlerEvent::RequestResponse(RequestResponseEvent::Response {
            request_id: RequestId(0),
            response: Response::GetShard(Some(shard([9, 9, 9, 9]))),
        }),
    );
    let actions = b.poll_request_response();
    assert_eq!(actions.len(), 1);
    assert!(matches!(
        actions[0],
        Action::ToDataMemory(DataMemoryInEvent::AssignedResponse { .. })
    ));
    assert_eq!(b.pending_count(), 0);
}

#[test]
fn mismatched_response_variant_warns_and_resolves_nothing() {
    let mut b = Behaviour::new(PeerId(0));
    b.handle_data_memory_event(DataMemoryOutEvent::AssignedRequest(
        (Vid(7), Sid(0)),
        PeerId(3),
    ));
    b.on_connection_handler_event(
        PeerId(3),
        ConnectionId(1),
        HandlerEvent::RequestResponse(RequestResponseEvent::Response {
            request_id: RequestId(0),
            response: Response::ServeShard(shard([1, 1, 1, 1])),
        }),
    );
    let actions = b.poll_request_response();
    assert_eq!(actions.len(), 1);
    assert!(matches!(
        actions[0],
        Action::Warn(Warning::ResponseMismatch(RequestId(0)))
    ));
}

#[test]
fn inbound_request_fans_out_to_all_waiters() {
    let mut b = Behaviour::new(PeerId(0));
    for id in [4u64, 5] {
        b.on_connection_handler_event(
            PeerId(2),
            ConnectionId(1),
            HandlerEvent::RequestResponse(RequestResponseEvent::Request {
                request_id: RequestId(id),
                request: Request::ServeShard((Vid(1), Sid(2))),
            }),
        );
        let actions = b.poll_request_response();
        assert_eq!(actions.len(), 1);
        assert!(matches!(
            actions[0],
            Action::ToDataMemory(DataMemoryInEvent::ServeShardRequest((Vid(1), Sid(2))))
        ));
    }
    let actions = b.handle_data_memory_event(DataMemoryOutEvent::ServeShardResponse(
        (Vid(1), Sid(2)),
        shard([8, 8, 8, 8]),
    ));
    assert_eq!(actions.len(), 1);
    match &actions[0] {
        Action::Respond {
            request_ids,
            response,
        } => {
            assert_eq!(request_ids.as_slice(), &[RequestId(4), RequestId(5)]);
            assert_eq!(*response, Response::ServeShard(shard([8, 8, 8, 8])));
        }
        other => panic!("unexpected action: {:?}", other),
    }
}

#[test]
fn stored_transaction_is_scheduled_only_on_store_success() {
    let mut b = Behaviour::new(PeerId(0));
    let actions =
        b.handle_data_memory_event(DataMemoryOutEvent::AssignedStoreSuccess((Vid(3), Sid(1))));
    assert_eq!(actions.len(), 1);
    assert!(matches!(
        actions[0],
        Action::ToConsensus(ConsensusInEvent::ScheduleTx(Transaction::Stored(
            Vid(3),
            Sid(1)
        )))
    ));
}

#[test]
fn user_events_route_to_their_modules() {
    let mut b = Behaviour::new(PeerId(0));
    let actions = b.handle_user_event(InEvent::Get(Vid(7)));
    assert_eq!(actions.len(), 1);
    assert!(matches!(
        actions[0],
        Action::ToDataMemory(DataMemoryInEvent::RecollectRequest(Vid(7)))
    ));
    let actions = b.handle_user_event(InEvent::ScheduleProgram(vec![Instruction::plus(
        Vid(1),
        Vid(2),
        Vid(3),
    )]));
    assert_eq!(actions.len(), 2);
    assert!(matches!(
        actions[0],
        Action::ToConsensus(ConsensusInEvent::ScheduleTx(Transaction::Execute(_)))
    ));
    assert!(matches!(actions[1], Action::ToUser(OutEvent::ScheduleOk)));
    let actions = b.handle_user_event(InEvent::InitializeStorage);
    assert_eq!(actions.len(), 1);
    assert!(matches!(
        actions[0],
        Action::ToConsensus(ConsensusInEvent::KnownPeersRequest)
    ));
}

#[test]
fn known_peers_get_dense_storage_slots() {
    let mut b = Behaviour::new(PeerId(0));
    let actions = b.handle_consensus_event(ConsensusOutEvent::KnownPeersResponse(vec![
        PeerId(10),
        PeerId(20),
    ]));
    assert_eq!(actions.len(), 1);
    match &actions[0] {
        Action::ToConsensus(ConsensusInEvent::ScheduleTx(Transaction::InitializeStorage {
            distribution,
        })) => {
            assert_eq!(
                distribution.as_slice(),
                &[(PeerId(10), Sid(0)), (PeerId(20), Sid(1))]
            );
        }
        other => panic!("unexpected action: {:?}", other),
    }
}

#[test]
fn finalized_transactions_dispatch_by_variant() {
    let mut b = Behaviour::new(PeerId(0));
    let hash = EventHash {
        author: PeerId(2),
        seq: 4,
    };
    let actions = b.handle_consensus_event(ConsensusOutEvent::FinalizedTransaction {
        from: PeerId(2),
        tx: Transaction::Execute(vec![Instruction::inv(Vid(1), Vid(2))]),
        event_hash: hash,
    });
    assert_eq!(actions.len(), 1);
    match &actions[0] {
        Action::ToInstructionMemory(InstructionMemoryInEvent::FinalizedProgram(p)) => {
            assert_eq!(*p.identifier(), ProgramIdentifier(hash));
            assert_eq!(p.instructions().len(), 1);
        }
        other => panic!("unexpected action: {:?}", other),
    }
    let actions = b.handle_consensus_event(ConsensusOutEvent::FinalizedTransaction {
        from: PeerId(2),
        tx: Transaction::Stored(Vid(1), Sid(0)),
        event_hash: hash,
    });
    assert!(matches!(
        actions[0],
        Action::ToDataMemory(DataMemoryInEvent::StoreConfirmed { .. })
    ));
}

#[test]
fn next_program_reaches_processor_only_while_idle() {
    let mut b = Behaviour::new(PeerId(0));
    let program = Program::new(
        vec![Instruction::inv(Vid(1), Vid(2))],
        EventHash {
            author: PeerId(0),
            seq: 1,
        },
    );
    let actions = b.handle_instruction_memory_event(
        InstructionMemoryOutEvent::NextProgram(program),
        true,
    );
    assert_eq!(actions.len(), 1);
    assert!(matches!(actions[0], Action::ToProcessor(_)));
}

#[test]
fn received_gossip_routes_to_consensus() {
    let mut b = Behaviour::new(PeerId(0));
    let sync = SyncJobs {
        linear: vec![Event {
            author: PeerId(4),
            seq: 0,
            self_parent: None,
            other_parent: None,
            payload: vec![],
        }],
    };
    b.on_connection_handler_event(
        PeerId(4),
        ConnectionId(0),
        HandlerEvent::Oneshot(
            distributed_compute_node::behaviour::InnerMessage::Rx(SimpleMessage::GossipGraph(
                sync,
            )),
        ),
    );
    let actions = b.poll_oneshot();
    assert_eq!(actions.len(), 1);
    match &actions[0] {
        Action::ToConsensus(ConsensusInEvent::ApplySync { from, sync }) => {
            assert_eq!(*from, PeerId(4));
            assert_eq!(sync.linear.len(), 1);
        }
        other => panic!("unexpected action: {:?}", other),
    }
}

#[test]
fn discovered_peers_are_dialed_one_per_poll() {
    let mut b = Behaviour::new(PeerId(0));
    b.inject_peer_discovered(PeerId(5));
    b.inject_peer_discovered(PeerId(6));
    assert!(matches!(b.poll_dial(), Some(Action::Dial(PeerId(5)))));
    assert!(matches!(b.poll_dial(), Some(Action::Dial(PeerId(6)))));
    assert!(b.poll_dial().is_none());
    b.inject_peer_expired(&PeerId(5));
}

#[test]
fn request_timeout_drops_the_pending_entry_and_closes_the_connection() {
    let mut b = Behaviour::new(PeerId(0));
    b.handle_data_memory_event(DataMemoryOutEvent::ServeShardRequest(
        (Vid(1), Sid(1)),
        PeerId(8),
    ));
    assert_eq!(b.pending_count(), 1);
    b.on_connection_handler_event(
        PeerId(8),
        ConnectionId(2),
        HandlerEvent::RequestResponse(RequestResponseEvent::OutboundTimeout(RequestId(0))),
    );
    let actions = b.poll_request_response();
    assert_eq!(actions.len(), 2);
    assert!(matches!(
        actions[0],
        Action::Warn(Warning::RequestTimedOut(RequestId(0)))
    ));
    assert!(matches!(
        actions[1],
        Action::CloseConnection {
            peer: PeerId(8),
            connection: ConnectionId(2),
        }
    ));
    assert_eq!(b.pending_count(), 0);
}

#[test]
fn data_memory_results_reach_the_user() {
    let mut b = Behaviour::new(PeerId(0));
    let actions = b.handle_data_memory_event(DataMemoryOutEvent::DistributionSuccess(Vid(9)));
    assert!(matches!(
        actions[0],
        Action::ToUser(OutEvent::PutConfirmed(Vid(9)))
    ));
    let actions = b.handle_data_memory_event(DataMemoryOutEvent::Initialized);
    assert!(matches!(
        actions[0],
        Action::ToUser(OutEvent::StorageInitialized)
    ));
    let data = Data(vec![0; 12]);
    let actions =
        b.handle_data_memory_event(DataMemoryOutEvent::RecollectResponse(Ok((Vid(9), data))));
    assert!(matches!(
        actions[0],
        Action::ToUser(OutEvent::GetResponse(Ok(_)))
    ));
}

#[test]
fn single_node_storage_initialization_reaches_the_user() {
    let local = PeerId(1);
    let mut b = Behaviour::new(local);
    let mut g = GraphWrapper::new(local);
    // the user asks to initialize storage
    let actions = b.handle_user_event(InEvent::InitializeStorage);
    assert!(matches!(
        actions[0],
        Action::ToConsensus(ConsensusInEvent::KnownPeersRequest)
    ));
    // consensus answers with the only known peer; the orchestrator schedules
    // the initialization with the local peer in the first slot
    let peers = g.known_peers();
    assert_eq!(peers, vec![local]);
    let actions = b.handle_consensus_event(ConsensusOutEvent::KnownPeersResponse(peers));
    let tx = match actions.into_iter().next().unwrap() {
        Action::ToConsensus(ConsensusInEvent::ScheduleTx(tx)) => tx,
        other => panic!("unexpected action: {:?}", other),
    };
    assert_eq!(
        tx,
        Transaction::InitializeStorage {
            distribution: vec![(local, Sid(0))],
        }
    );
    // the transaction finalizes with the next authored event
    g.schedule_tx(tx);
    g.create_standalone_event().unwrap();
    let mut finalized = Vec::new();
    while let Some(event) = g.poll_next() {
        finalized.extend(finalized_out_events(event));
    }
    assert_eq!(finalized.len(), 1);
    let actions = match finalized.into_iter().next().unwrap() {
        out @ ConsensusOutEvent::FinalizedTransaction { .. } => b.handle_consensus_event(out),
        other => panic!("unexpected output: {:?}", other),
    };
    assert!(matches!(
        actions[0],
        Action::ToDataMemory(DataMemoryInEvent::Initialize { .. })
    ));
    // data memory confirms, and the user sees the initialization
    let actions = b.handle_data_memory_event(DataMemoryOutEvent::Initialized);
    assert!(matches!(
        actions[0],
        Action::ToUser(OutEvent::StorageInitialized)
    ));
}

#[test]
fn a_peer_lacking_its_announced_shard_draws_a_warning() {
    let mut b = Behaviour::new(PeerId(0));
    b.handle_data_memory_event(DataMemoryOutEvent::AssignedRequest(
        (Vid(7), Sid(0)),
        PeerId(3),
    ));
    b.on_connection_handler_event(
        PeerId(3),
        ConnectionId(1),
        HandlerEvent::RequestResponse(RequestResponseEvent::Response {
            request_id: RequestId(0),
            response: Response::GetShard(None),
        }),
    );
    let actions = b.poll_request_response();
    assert_eq!(actions.len(), 1);
    assert!(matches!(
        actions[0],
        Action::Warn(Warning::ShardNotHeld(RequestId(0)))
    ));
    assert_eq!(b.pending_count(), 0);
}

#[test]
fn an_omitted_response_draws_a_warning() {
    let mut b = Behaviour::new(PeerId(0));
    b.on_connection_handler_event(
        PeerId(3),
        ConnectionId(1),
        HandlerEvent::RequestResponse(RequestResponseEvent::ResponseOmission(RequestId(12))),
    );
    let actions = b.poll_request_response();
    assert_eq!(actions.len(), 1);
    assert!(matches!(
        actions[0],
        Action::Warn(Warning::ResponseOmitted(RequestId(12)))
    ));
}
