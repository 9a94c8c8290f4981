//! The consensus wrapper: buffering, sync application, and the event DAG.

use distributed_compute_node::consensus::{
    finalized_out_events, ApplySyncError, ConsensusOutEvent, Event, GraphWrapper, PushError,
    SyncJobs, Transaction,
};
use distributed_compute_node::types::{EventHash, PeerId, Sid, Vid};

fn genesis(peer: PeerId) -> Event {
    Event {
        author: peer,
        seq: 0,
        self_parent: None,
        other_parent: None,
        payload: vec![],
    }
}

#[test]
fn applying_an_empty_sync_changes_nothing() {
    let mut g = GraphWrapper::new(PeerId(1));
    g.schedule_tx(Transaction::Stored(Vid(1), Sid(0)));
    let events_before = g.events_count();
    let buffer_before = g.buffer_count();
    let r = g.apply_sync(PeerId(2), SyncJobs { linear: vec![] });
    assert!(r.is_ok());
    assert_eq!(g.events_count(), events_before);
    assert_eq!(g.buffer_count(), buffer_before);
    assert!(!g.is_state_updated());
}

#[test]
fn a_sync_embeds_the_buffer_into_a_new_event() {
    let mut g = GraphWrapper::new(PeerId(1));
    g.schedule_tx(Transaction::StorageRequest { address: Vid(4) });
    g.schedule_tx(Transaction::Stored(Vid(4), Sid(0)));
    assert_eq!(g.buffer_count(), 2);
    let r = g.apply_sync(PeerId(2), SyncJobs { linear: vec![genesis(PeerId(2))] });
    assert!(r.is_ok());
    // our genesis, the peer's genesis, and the newly authored event
    assert_eq!(g.events_count(), 3);
    assert_eq!(g.buffer_count(), 0);
    assert!(g.is_state_updated());
    // delivery order is the log order; the authored event carries the batch
    let first = g.poll_next().expect("own genesis");
    assert_eq!(first.author, PeerId(1));
    assert_eq!(first.seq, 0);
    let second = g.poll_next().expect("peer genesis");
    assert_eq!(second.author, PeerId(2));
    let authored = g.poll_next().expect("authored event");
    assert_eq!(authored.author, PeerId(1));
    assert_eq!(authored.seq, 1);
    assert_eq!(authored.payload.len(), 2);
    assert_eq!(
        authored.self_parent,
        Some(EventHash { author: PeerId(1), seq: 0 })
    );
    assert_eq!(
        authored.other_parent,
        Some(EventHash { author: PeerId(2), seq: 0 })
    );
    assert!(g.poll_next().is_none());
}

#[test]
fn a_duplicate_event_is_refused() {
    let mut g = GraphWrapper::new(PeerId(1));
    let sync = SyncJobs { linear: vec![genesis(PeerId(2))] };
    assert!(g.apply_sync(PeerId(2), sync.clone()).is_ok());
    let r = g.apply_sync(PeerId(2), sync);
    assert_eq!(r, Err(ApplySyncError::PushError(PushError::Duplicate)));
}

#[test]
fn a_sync_from_an_unknown_peer_is_refused() {
    let mut g = GraphWrapper::new(PeerId(1));
    // the batch introduces peer 2, but the claimed sender is peer 3
    let r = g.apply_sync(PeerId(3), SyncJobs { linear: vec![genesis(PeerId(2))] });
    assert_eq!(r, Err(ApplySyncError::UnknownPeer(PeerId(3))));
}

#[test]
fn an_event_with_a_missing_parent_is_refused() {
    let mut g = GraphWrapper::new(PeerId(1));
    let orphan = Event {
        author: PeerId(2),
        seq: 1,
        self_parent: Some(EventHash { author: PeerId(2), seq: 0 }),
        other_parent: Some(EventHash { author: PeerId(9), seq: 0 }),
        payload: vec![],
    };
    let r = g.apply_sync(PeerId(2), SyncJobs { linear: vec![orphan] });
    assert_eq!(r, Err(ApplySyncError::PushError(PushError::UnknownParent)));
}

#[test]
fn a_remote_event_on_the_local_chain_is_refused() {
    let mut g = GraphWrapper::new(PeerId(1));
    let forged = Event {
        author: PeerId(1),
        seq: 1,
        self_parent: Some(EventHash { author: PeerId(1), seq: 0 }),
        other_parent: Some(EventHash { author: PeerId(1), seq: 0 }),
        payload: vec![],
    };
    let r = g.apply_sync(PeerId(1), SyncJobs { linear: vec![forged] });
    assert_eq!(r, Err(ApplySyncError::PushError(PushError::ChainMismatch)));
}

#[test]
fn a_standalone_event_points_both_parents_at_the_local_chain() {
    let mut g = GraphWrapper::new(PeerId(1));
    g.schedule_tx(Transaction::StorageRequest { address: Vid(8) });
    assert!(g.create_standalone_event().is_ok());
    assert_eq!(g.buffer_count(), 0);
    assert!(g.is_state_updated());
    let _genesis = g.poll_next().expect("genesis");
    let authored = g.poll_next().expect("standalone");
    assert_eq!(authored.self_parent, authored.other_parent);
    assert_eq!(authored.payload.len(), 1);
}

#[test]
fn finalized_events_fan_out_one_output_per_transaction() {
    let mut g = GraphWrapper::new(PeerId(1));
    g.schedule_tx(Transaction::StorageRequest { address: Vid(4) });
    g.schedule_tx(Transaction::Stored(Vid(4), Sid(0)));
    g.create_standalone_event().unwrap();
    let _genesis = g.poll_next().unwrap();
    let authored = g.poll_next().unwrap();
    let hash = authored.hash();
    let outs = finalized_out_events(authored);
    assert_eq!(outs.len(), 2);
    match &outs[0] {
        ConsensusOutEvent::FinalizedTransaction {
            from,
            tx,
            event_hash,
        } => {
            assert_eq!(*from, PeerId(1));
            assert_eq!(*tx, Transaction::StorageRequest { address: Vid(4) });
            assert_eq!(*event_hash, hash);
        }
        other => panic!("unexpected output: {:?}", other),
    }
    match &outs[1] {
        ConsensusOutEvent::FinalizedTransaction { tx, .. } => {
            assert_eq!(*tx, Transaction::Stored(Vid(4), Sid(0)));
        }
        other => panic!("unexpected output: {:?}", other),
    }
}

#[test]
fn nothing_is_delivered_before_the_first_wakeup() {
    let mut g = GraphWrapper::new(PeerId(1));
    assert!(g.poll_next().is_none());
}

#[test]
fn known_peers_lists_the_local_peer_first() {
    let mut g = GraphWrapper::new(PeerId(1));
    g.apply_sync(PeerId(2), SyncJobs { linear: vec![genesis(PeerId(2))] })
        .unwrap();
    let peers = g.known_peers();
    assert_eq!(peers, vec![PeerId(1), PeerId(2)]);
}

#[test]
fn a_generated_sync_carries_the_whole_log() {
    let mut g = GraphWrapper::new(PeerId(1));
    g.create_standalone_event().unwrap();
    let sync = g.generate_sync();
    assert_eq!(sync.linear.len(), g.events_count());
    // a fresh peer accepts it wholesale
    let mut h = GraphWrapper::new(PeerId(2));
    assert!(h.apply_sync(PeerId(1), sync).is_ok());
    assert_eq!(h.events_count(), 4);
}
