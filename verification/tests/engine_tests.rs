use fast_sync::engine::{
    ActionsOutcome, Anomaly, EngineEffect, EngineError, FastSyncingEngine, LoopControl,
    ResponseEvent, ResponseOutcome, RoundOutcome, ServiceReply, StrategyAction, SyncState,
    SyncStatus, ToServiceCommand,
};
use fast_sync::peer::{LruHashSet, Peer};
use fast_sync::schema::{OpaqueStateRequest, Payload, StateRequest, StateResponse};
use fast_sync::types::{
    BlockHash, BlockOrigin, ExtendedPeerInfo, IncomingBlock, OutboundFailure, PeerId,
    PeerRequest, ReputationChange, RequestFailure,
};

fn engine() -> FastSyncingEngine {
    FastSyncingEngine::new(String::from("/genesis/state/2"))
}

fn peer(best: u64) -> Peer {
    Peer {
        info: ExtendedPeerInfo { roles: 1, best_hash: BlockHash(best), best_number: best },
        known_blocks: LruHashSet::new(8),
    }
}

fn block(n: u64) -> IncomingBlock {
    IncomingBlock { hash: BlockHash(n), number: n, origin: Some(PeerId(1)) }
}

fn state_request(block: u8) -> OpaqueStateRequest {
    OpaqueStateRequest::wrap(Payload::StateRequest(StateRequest {
        block: vec![block],
        start: vec![],
        no_proof: false,
    }))
}

fn send(peer_id: u64, block: u8) -> StrategyAction {
    StrategyAction::SendStateRequest { peer_id: PeerId(peer_id), request: state_request(block) }
}

fn failure(peer_id: u64, failure: RequestFailure) -> ResponseEvent {
    ResponseEvent {
        peer_id: PeerId(peer_id),
        request: PeerRequest::State,
        outcome: ResponseOutcome::Failure(failure),
    }
}

#[test]
fn new_engine_is_empty() {
    let mut engine = engine();
    assert_eq!(engine.num_peers(), 0);
    assert_eq!(engine.num_pending(), 0);
    assert_eq!(engine.state_request_protocol_name(), "/genesis/state/2");
    assert_eq!(engine.take_last_block(), None);
}

#[test]
fn no_actions_is_fatal() {
    let mut engine = engine();
    engine.process_strategy_actions(&vec![send(1, 1)]);
    let outcome = engine.process_strategy_actions(&vec![]);
    assert_eq!(
        outcome,
        ActionsOutcome { effects: vec![], result: Err(EngineError::NoFurtherActions) }
    );
    assert_eq!(engine.num_pending(), 1);
    assert_eq!(engine.take_last_block(), None);
}

#[test]
fn import_blocks_ends_the_sync_with_the_first_block() {
    let mut engine = engine();
    let blocks = vec![block(1), block(2), block(3)];
    let outcome = engine.process_strategy_actions(&vec![StrategyAction::ImportBlocks {
        origin: BlockOrigin::NetworkInitialSync,
        blocks: blocks.clone(),
    }]);
    assert_eq!(outcome.result, Ok(None));
    assert_eq!(
        outcome.effects,
        vec![EngineEffect::ImportBlocks { origin: BlockOrigin::NetworkInitialSync, blocks }]
    );
    assert_eq!(engine.take_last_block(), Some(block(1)));
    assert_eq!(engine.take_last_block(), None);
}

#[test]
fn import_of_no_blocks_ends_the_sync_without_a_block() {
    let mut engine = engine();
    let outcome = engine.process_strategy_actions(&vec![StrategyAction::ImportBlocks {
        origin: BlockOrigin::Own,
        blocks: vec![],
    }]);
    assert_eq!(outcome.result, Ok(None));
    assert_eq!(engine.take_last_block(), None);
}

#[test]
fn actions_behind_an_import_are_not_carried_out() {
    let mut engine = engine();
    let outcome = engine.process_strategy_actions(&vec![
        send(1, 1),
        StrategyAction::ImportBlocks { origin: BlockOrigin::File, blocks: vec![block(4)] },
        send(2, 2),
        StrategyAction::DropPeer {
            peer_id: PeerId(1),
            reputation_change: ReputationChange::new(-1, "late"),
        },
    ]);
    assert_eq!(outcome.result, Ok(None));
    assert_eq!(
        outcome.effects,
        vec![
            EngineEffect::StartRequest { peer_id: PeerId(1), data: vec![0x0a, 1, 1] },
            EngineEffect::ImportBlocks { origin: BlockOrigin::File, blocks: vec![block(4)] },
        ]
    );
    assert!(engine.has_pending(PeerId(1)));
    assert!(!engine.has_pending(PeerId(2)));
}

#[test]
fn send_state_request_registers_and_sends() {
    let mut engine = engine();
    let outcome =
        engine.process_strategy_actions(&vec![send(1, 9), StrategyAction::Finished, send(2, 8)]);
    assert_eq!(outcome.result, Ok(Some(())));
    assert_eq!(
        outcome.effects,
        vec![
            EngineEffect::StartRequest { peer_id: PeerId(1), data: vec![0x0a, 1, 9] },
            EngineEffect::StartRequest { peer_id: PeerId(2), data: vec![0x0a, 1, 8] },
        ]
    );
    assert_eq!(engine.num_pending(), 2);
    assert!(engine.has_pending(PeerId(1)));
    assert!(engine.has_pending(PeerId(2)));
}

#[test]
fn request_that_does_not_encode_is_dropped_alone() {
    let mut engine = engine();
    let wrong = StrategyAction::SendStateRequest {
        peer_id: PeerId(1),
        request: OpaqueStateRequest::wrap(Payload::StateResponse(StateResponse::default())),
    };
    let outcome = engine.process_strategy_actions(&vec![wrong, send(2, 8)]);
    assert_eq!(outcome.result, Ok(Some(())));
    assert_eq!(
        outcome.effects,
        vec![EngineEffect::StartRequest { peer_id: PeerId(2), data: vec![0x0a, 1, 8] }]
    );
    assert!(!engine.has_pending(PeerId(1)));
    assert_eq!(engine.num_pending(), 1);
}

#[test]
fn finished_alone_changes_nothing() {
    let mut engine = engine();
    let outcome = engine.process_strategy_actions(&vec![StrategyAction::Finished]);
    assert_eq!(outcome, ActionsOutcome { effects: vec![], result: Ok(Some(())) });
    assert_eq!(engine.num_pending(), 0);
}

#[test]
fn drop_peer_leaves_no_pending_entry() {
    let mut engine = engine();
    engine.process_strategy_actions(&vec![send(1, 1), send(2, 2), send(1, 3)]);
    assert_eq!(engine.num_pending(), 3);
    let change = ReputationChange::new(-(1 << 29), "bad state");
    let outcome = engine.process_strategy_actions(&vec![StrategyAction::DropPeer {
        peer_id: PeerId(1),
        reputation_change: change,
    }]);
    assert_eq!(outcome.result, Ok(Some(())));
    assert_eq!(
        outcome.effects,
        vec![
            EngineEffect::DisconnectPeer { peer_id: PeerId(1) },
            EngineEffect::ReportPeer { peer_id: PeerId(1), change },
        ]
    );
    assert!(!engine.has_pending(PeerId(1)));
    assert!(engine.has_pending(PeerId(2)));
    assert_eq!(engine.num_pending(), 1);
}

#[test]
fn malformed_state_response_is_punished_and_not_forwarded() {
    let mut engine = engine();
    engine.process_strategy_actions(&vec![send(1, 1)]);
    let handling = engine.process_response_event(ResponseEvent {
        peer_id: PeerId(1),
        request: PeerRequest::State,
        outcome: ResponseOutcome::Response(vec![0x0a, 5, 1]),
    });
    assert_eq!(
        handling.report,
        Some(ReputationChange { value: -(1 << 12), reason: "Bad message" })
    );
    assert!(handling.disconnect);
    assert_eq!(handling.forward, None);
    assert_eq!(handling.anomaly, Anomaly::Nothing);
    assert_eq!(engine.num_pending(), 0);
}

#[test]
fn state_response_is_forwarded() {
    let mut engine = engine();
    engine.process_strategy_actions(&vec![send(1, 1)]);
    let handling = engine.process_response_event(ResponseEvent {
        peer_id: PeerId(1),
        request: PeerRequest::State,
        outcome: ResponseOutcome::Response(vec![0x12, 2, 5, 6]),
    });
    assert_eq!(handling.report, None);
    assert!(!handling.disconnect);
    assert_eq!(handling.anomaly, Anomaly::Nothing);
    let envelope = handling.forward.unwrap();
    assert_eq!(
        envelope.unwrap_as_state_response(),
        Ok(&StateResponse { entries: vec![], proof: vec![5, 6] })
    );
    assert_eq!(engine.num_pending(), 0);
}

#[test]
fn response_of_another_kind_is_only_noted() {
    let mut engine = engine();
    for request in [PeerRequest::Block, PeerRequest::WarpProof] {
        let handling = engine.process_response_event(ResponseEvent {
            peer_id: PeerId(1),
            request,
            outcome: ResponseOutcome::Response(vec![0x0a, 5, 1]),
        });
        assert_eq!(handling.report, None);
        assert!(!handling.disconnect);
        assert_eq!(handling.forward, None);
        assert_eq!(handling.anomaly, Anomaly::UnexpectedResponse);
    }
}

#[test]
fn unsupported_protocol_bans_and_disconnects() {
    let mut engine = engine();
    engine.process_strategy_actions(&vec![send(1, 1), send(2, 2)]);
    let handling = engine.process_response_event(failure(
        1,
        RequestFailure::Network(OutboundFailure::UnsupportedProtocols),
    ));
    assert_eq!(
        handling.report,
        Some(ReputationChange { value: i32::MIN, reason: "Unsupported protocol" })
    );
    assert!(handling.disconnect);
    assert_eq!(handling.forward, None);
    assert!(!engine.has_pending(PeerId(1)));
    assert!(engine.has_pending(PeerId(2)));
}

#[test]
fn failures_follow_the_policy() {
    let mut engine = engine();
    let handling =
        engine.process_response_event(failure(1, RequestFailure::Network(OutboundFailure::Timeout)));
    assert_eq!(handling.report, Some(ReputationChange { value: -1024, reason: "Request timeout" }));
    assert!(handling.disconnect);
    let handling = engine.process_response_event(failure(1, RequestFailure::Refused));
    assert_eq!(handling.report, Some(ReputationChange { value: -1024, reason: "Request refused" }));
    assert!(handling.disconnect);
    for quiet in [
        RequestFailure::Network(OutboundFailure::DialFailure),
        RequestFailure::Network(OutboundFailure::ConnectionClosed),
        RequestFailure::NotConnected,
    ] {
        let handling = engine.process_response_event(failure(1, quiet));
        assert_eq!(handling.report, None);
        assert!(handling.disconnect);
        assert_eq!(handling.anomaly, Anomaly::Nothing);
    }
    for broken in [RequestFailure::UnknownProtocol, RequestFailure::Obsolete] {
        let handling = engine.process_response_event(failure(1, broken));
        assert_eq!(handling.report, None);
        assert!(!handling.disconnect);
        assert_eq!(handling.forward, None);
        assert_eq!(handling.anomaly, Anomaly::InvariantViolation);
    }
}

#[test]
fn canceled_response_disconnects() {
    let mut engine = engine();
    engine.process_strategy_actions(&vec![send(3, 1)]);
    let handling = engine.process_response_event(ResponseEvent {
        peer_id: PeerId(3),
        request: PeerRequest::State,
        outcome: ResponseOutcome::Canceled,
    });
    assert_eq!(handling.report, None);
    assert!(handling.disconnect);
    assert_eq!(handling.forward, None);
    assert_eq!(engine.num_pending(), 0);
}

#[test]
fn peers_info_is_a_snapshot_of_the_tracked_peers() {
    let mut engine = engine();
    assert!(engine.add_peer(PeerId(1), peer(10)));
    assert!(engine.add_peer(PeerId(2), peer(20)));
    let status = SyncStatus {
        state: SyncState::Idle,
        best_seen_block: None,
        num_peers: 0,
        num_connected_peers: 0,
        queued_blocks: 0,
    };
    let reply = engine.process_service_command(ToServiceCommand::PeersInfo, status);
    let expected = ServiceReply::PeersInfo(vec![
        (PeerId(1), ExtendedPeerInfo { roles: 1, best_hash: BlockHash(10), best_number: 10 }),
        (PeerId(2), ExtendedPeerInfo { roles: 1, best_hash: BlockHash(20), best_number: 20 }),
    ]);
    assert_eq!(reply, expected);
    assert!(engine.remove_peer(PeerId(1)));
    assert_eq!(reply, expected);
    assert_eq!(
        engine.process_service_command(ToServiceCommand::PeersInfo, status),
        ServiceReply::PeersInfo(vec![(
            PeerId(2),
            ExtendedPeerInfo { roles: 1, best_hash: BlockHash(20), best_number: 20 }
        )])
    );
}

#[test]
fn status_carries_the_number_of_tracked_peers() {
    let mut engine = engine();
    engine.add_peer(PeerId(1), peer(10));
    engine.add_peer(PeerId(2), peer(20));
    engine.add_peer(PeerId(3), peer(30));
    let status = SyncStatus {
        state: SyncState::Downloading { target: 77 },
        best_seen_block: Some(80),
        num_peers: 1,
        num_connected_peers: 0,
        queued_blocks: 4,
    };
    assert_eq!(
        engine.process_service_command(ToServiceCommand::Status, status),
        ServiceReply::Status(SyncStatus { num_connected_peers: 3, ..status })
    );
    assert_eq!(
        engine.process_service_command(ToServiceCommand::Start, status),
        ServiceReply::Started
    );
}

#[test]
fn add_and_remove_peer() {
    let mut engine = engine();
    assert!(!engine.has_peer(PeerId(1)));
    assert!(engine.add_peer(PeerId(1), peer(10)));
    assert!(engine.has_peer(PeerId(1)));
    assert!(!engine.add_peer(PeerId(1), peer(11)));
    assert_eq!(engine.num_peers(), 1);
    let status = SyncStatus {
        state: SyncState::Idle,
        best_seen_block: None,
        num_peers: 0,
        num_connected_peers: 0,
        queued_blocks: 0,
    };
    assert_eq!(
        engine.process_service_command(ToServiceCommand::PeersInfo, status),
        ServiceReply::PeersInfo(vec![(
            PeerId(1),
            ExtendedPeerInfo { roles: 1, best_hash: BlockHash(11), best_number: 11 }
        )])
    );
    assert!(!engine.remove_peer(PeerId(2)));
    assert!(engine.remove_peer(PeerId(1)));
    assert!(!engine.remove_peer(PeerId(1)));
    assert_eq!(engine.num_peers(), 0);
}

#[test]
fn send_state_request_alone() {
    let mut engine = engine();
    let effect = engine.send_state_request(PeerId(4), &state_request(2));
    assert_eq!(
        effect,
        Some(EngineEffect::StartRequest { peer_id: PeerId(4), data: vec![0x0a, 1, 2] })
    );
    assert!(engine.has_pending(PeerId(4)));
    let none =
        engine.send_state_request(PeerId(5), &OpaqueStateRequest::wrap(Payload::Other(vec![])));
    assert_eq!(none, None);
    assert!(!engine.has_pending(PeerId(5)));
}

#[test]
fn round_without_actions_stops_with_an_error() {
    let mut engine = engine();
    engine.run_round(&vec![send(1, 1)]);
    let outcome = engine.run_round(&vec![]);
    assert_eq!(
        outcome,
        RoundOutcome {
            effects: vec![],
            control: LoopControl::Stop(Err(EngineError::NoFurtherActions)),
        }
    );
    assert_eq!(engine.num_pending(), 1);
}

#[test]
fn round_with_an_import_stops_with_the_first_block() {
    let mut engine = engine();
    let blocks = vec![block(1), block(2), block(3)];
    let outcome = engine.run_round(&vec![
        StrategyAction::Finished,
        StrategyAction::ImportBlocks { origin: BlockOrigin::NetworkInitialSync, blocks: blocks.clone() },
    ]);
    assert_eq!(outcome.control, LoopControl::Stop(Ok(Some(block(1)))));
    assert_eq!(
        outcome.effects,
        vec![EngineEffect::ImportBlocks { origin: BlockOrigin::NetworkInitialSync, blocks }]
    );
    assert_eq!(engine.take_last_block(), None);
}

#[test]
fn round_goes_on_while_nothing_is_imported() {
    let mut engine = engine();
    let outcome = engine.run_round(&vec![send(1, 1), StrategyAction::Finished]);
    assert_eq!(outcome.control, LoopControl::Continue);
    assert_eq!(outcome.effects.len(), 1);
    assert_eq!(engine.conclude_round(Ok(Some(()))), LoopControl::Continue);
    assert_eq!(engine.conclude_round(Ok(None)), LoopControl::Stop(Ok(None)));
    assert_eq!(
        engine.conclude_round(Err(EngineError::NoFurtherActions)),
        LoopControl::Stop(Err(EngineError::NoFurtherActions))
    );
}
