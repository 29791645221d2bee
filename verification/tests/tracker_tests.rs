use fast_sync::peer::LruHashSet;
use fast_sync::pending_responses::PendingResponses;
use fast_sync::schema::{
    EnvelopeError, OpaqueStateRequest, OpaqueStateResponse, Payload, StateRequest, StateResponse,
};
use fast_sync::types::{BlockHash, PeerId, PeerRequest};

#[test]
fn new_tracker_is_empty() {
    let tracker = PendingResponses::new();
    assert!(tracker.is_empty());
    assert_eq!(tracker.len(), 0);
    assert!(!tracker.has_peer(PeerId(1)));
}

#[test]
fn remove_drops_every_entry_of_the_peer() {
    let mut tracker = PendingResponses::new();
    tracker.insert(PeerId(1), PeerRequest::State);
    tracker.insert(PeerId(2), PeerRequest::State);
    tracker.insert(PeerId(1), PeerRequest::Block);
    assert_eq!(tracker.len(), 3);
    assert_eq!(tracker.remove(PeerId(1)), 2);
    assert!(!tracker.has_peer(PeerId(1)));
    assert!(tracker.has_peer(PeerId(2)));
    assert_eq!(tracker.len(), 1);
}

#[test]
fn remove_is_idempotent() {
    let mut tracker = PendingResponses::new();
    tracker.insert(PeerId(1), PeerRequest::State);
    tracker.insert(PeerId(2), PeerRequest::State);
    assert_eq!(tracker.remove(PeerId(1)), 1);
    assert_eq!(tracker.remove(PeerId(1)), 0);
    assert_eq!(tracker.len(), 1);
    assert_eq!(tracker.remove(PeerId(9)), 0);
    assert_eq!(tracker.len(), 1);
}

#[test]
fn complete_consumes_one_entry_once() {
    let mut tracker = PendingResponses::new();
    tracker.insert(PeerId(1), PeerRequest::State);
    tracker.insert(PeerId(1), PeerRequest::State);
    assert!(!tracker.complete(PeerId(1), PeerRequest::Block));
    assert_eq!(tracker.len(), 2);
    assert!(tracker.complete(PeerId(1), PeerRequest::State));
    assert_eq!(tracker.len(), 1);
    assert!(tracker.complete(PeerId(1), PeerRequest::State));
    assert!(!tracker.complete(PeerId(1), PeerRequest::State));
    assert!(tracker.is_empty());
}

#[test]
fn envelope_gives_out_only_what_it_holds() {
    let request = StateRequest { block: vec![1, 2], start: vec![], no_proof: true };
    let envelope = OpaqueStateRequest::wrap(Payload::StateRequest(request.clone()));
    assert_eq!(envelope.unwrap_as_state_request(), Ok(&request));
    let wrong = OpaqueStateRequest::wrap(Payload::StateResponse(StateResponse::default()));
    assert_eq!(wrong.unwrap_as_state_request(), Err(EnvelopeError::TypeMismatch));
    let other = OpaqueStateRequest::wrap(Payload::Other(vec![1]));
    assert_eq!(other.unwrap_as_state_request(), Err(EnvelopeError::TypeMismatch));

    let response = StateResponse { entries: vec![], proof: vec![7] };
    let envelope = OpaqueStateResponse::wrap(Payload::StateResponse(response.clone()));
    assert_eq!(envelope.unwrap_as_state_response(), Ok(&response));
    let wrong = OpaqueStateResponse::wrap(Payload::StateRequest(request));
    assert_eq!(wrong.unwrap_as_state_response(), Err(EnvelopeError::TypeMismatch));
}

#[test]
fn lru_set_evicts_the_oldest() {
    let mut set = LruHashSet::new(2);
    assert!(set.insert(BlockHash(1)));
    assert!(set.insert(BlockHash(2)));
    assert_eq!(set.len(), 2);
    assert!(set.insert(BlockHash(3)));
    assert_eq!(set.len(), 2);
    assert!(!set.contains(BlockHash(1)));
    assert!(set.contains(BlockHash(2)));
    assert!(set.contains(BlockHash(3)));
}

#[test]
fn lru_set_touch_renews_an_entry() {
    let mut set = LruHashSet::new(2);
    assert!(set.insert(BlockHash(1)));
    assert!(set.insert(BlockHash(2)));
    assert!(!set.insert(BlockHash(1)));
    assert_eq!(set.len(), 2);
    assert!(set.insert(BlockHash(3)));
    assert!(set.contains(BlockHash(1)));
    assert!(!set.contains(BlockHash(2)));
    assert!(set.contains(BlockHash(3)));
}

#[test]
fn lru_set_of_one() {
    let mut set = LruHashSet::new(1);
    assert!(set.insert(BlockHash(5)));
    assert!(!set.insert(BlockHash(5)));
    assert!(set.insert(BlockHash(6)));
    assert_eq!(set.len(), 1);
    assert!(set.contains(BlockHash(6)));
}
