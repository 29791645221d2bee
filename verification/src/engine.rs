//! The engine: what it keeps, and its answer to each event as a step from its
//! state to a new state and the effects that its surroundings carry out.

use vstd::prelude::*;
use vstd::slice::slice_to_vec;
use crate::codec::{decode_state_response, encode_state_request, state_request_wire, state_response_of};
use crate::peer::Peer;
use crate::pending_responses::{without_first, without_peer, PendingEntry, PendingResponses};
use crate::policy::{
    category_of, classify, failure_policy, policy_for, FailureCategory,
};
use crate::schema::{OpaqueStateRequest, OpaqueStateResponse, Payload};
use crate::types::{
    BlockOrigin, ExtendedPeerInfo, IncomingBlock, PeerId, PeerRequest, ReputationChange,
    RequestFailure,
};

verus! {

/// How a pending response ended.
#[derive(Clone, Debug, PartialEq, Eq)]
pub enum ResponseOutcome {
    /// The peer answered with these bytes.
    Response(Vec<u8>),
    /// The request failed.
    Failure(RequestFailure),
    /// The response channel was canceled on this side.
    Canceled,
}

/// The completion of one pending response.
#[derive(Clone, Debug, PartialEq, Eq)]
pub struct ResponseEvent {
    /// The peer that the request went to.
    pub peer_id: PeerId,
    /// The kind of the request.
    pub request: PeerRequest,
    /// How it ended.
    pub outcome: ResponseOutcome,
}

/// Something that should not have happened and is only written to the log.
#[derive(Clone, Copy, Debug, PartialEq, Eq, Structural)]
pub enum Anomaly {
    /// Nothing of the kind.
    Nothing,
    /// A response to a kind of request that this engine never sends.
    UnexpectedResponse,
    /// A failure that cannot occur while the engine works as designed.
    InvariantViolation,
}

/// What is to be done about one response event.
#[derive(Clone, Debug, PartialEq, Eq)]
pub struct ResponseHandling {
    /// The reputation change to report for the peer, if any; it is reported
    /// before the disconnect.
    pub report: Option<ReputationChange>,
    /// Whether to disconnect the peer from the state request protocol.
    pub disconnect: bool,
    /// The response to hand to the strategy, if it decoded.
    pub forward: Option<OpaqueStateResponse>,
    /// What to write to the log as unexpected.
    pub anomaly: Anomaly,
}

/// One instruction of the sync strategy.
#[derive(Clone, Debug, PartialEq, Eq)]
pub enum StrategyAction {
    /// Send a state request to a peer.
    SendStateRequest { peer_id: PeerId, request: OpaqueStateRequest },
    /// Drop a peer that misbehaved.
    DropPeer { peer_id: PeerId, reputation_change: ReputationChange },
    /// Hand blocks to the import pipeline; the sync is over.
    ImportBlocks { origin: BlockOrigin, blocks: Vec<IncomingBlock> },
    /// The strategy has finished.
    Finished,
}

/// One thing that the engine asks its surroundings to do.
#[derive(Clone, Debug, PartialEq, Eq)]
pub enum EngineEffect {
    /// Send `data` to the peer as a state request that fails at once where
    /// the peer is not connected.
    StartRequest { peer_id: PeerId, data: Vec<u8> },
    /// Disconnect the peer from the state request protocol.
    DisconnectPeer { peer_id: PeerId },
    /// Report a reputation change for the peer.
    ReportPeer { peer_id: PeerId, change: ReputationChange },
    /// Hand the blocks to the import pipeline as one batch.
    ImportBlocks { origin: BlockOrigin, blocks: Vec<IncomingBlock> },
}

/// What an `EngineEffect` holds.
pub ghost enum EffectView {
    StartRequest { peer_id: PeerId, data: Seq<u8> },
    DisconnectPeer { peer_id: PeerId },
    ReportPeer { peer_id: PeerId, change: ReputationChange },
    ImportBlocks { origin: BlockOrigin, blocks: Seq<IncomingBlock> },
}

impl View for EngineEffect {
    type V = EffectView;

    open spec fn view(&self) -> EffectView {
        match *self {
            EngineEffect::StartRequest { peer_id, data } => EffectView::StartRequest {
                peer_id,
                data: data@,
            },
            EngineEffect::DisconnectPeer { peer_id } => EffectView::DisconnectPeer { peer_id },
            EngineEffect::ReportPeer { peer_id, change } => EffectView::ReportPeer {
                peer_id,
                change,
            },
            EngineEffect::ImportBlocks { origin, blocks } => EffectView::ImportBlocks {
                origin,
                blocks: blocks@,
            },
        }
    }
}

/// Why the engine gave up.
#[derive(Clone, Copy, Debug, PartialEq, Eq, Structural)]
pub enum EngineError {
    /// The strategy had no further actions: the sync cannot go on.
    NoFurtherActions,
}

/// The effects of one round of strategy actions, and how the round ended:
/// `Ok(Some(()))` to go on, `Ok(None)` after blocks were handed over.
#[derive(Debug, PartialEq, Eq)]
pub struct ActionsOutcome {
    /// The effects, in the order in which they are to be carried out.
    pub effects: Vec<EngineEffect>,
    /// How the round ended.
    pub result: Result<Option<()>, EngineError>,
}

/// Whether the engine goes on after a round, or ends with its result.
#[derive(Clone, Copy, Debug, PartialEq, Eq)]
pub enum LoopControl {
    /// Wait for the next event.
    Continue,
    /// End, and return this to the caller: the block that was handed over for
    /// import, if any, or the error.
    Stop(Result<Option<IncomingBlock>, EngineError>),
}

/// The effects of one round and what the engine does after it.
#[derive(Debug, PartialEq, Eq)]
pub struct RoundOutcome {
    /// The effects, in the order in which they are to be carried out.
    pub effects: Vec<EngineEffect>,
    /// Whether the engine goes on.
    pub control: LoopControl,
}

/// How far the sync has come.
#[derive(Clone, Copy, Debug, PartialEq, Eq, Structural)]
pub enum SyncState {
    /// Nothing is being downloaded.
    Idle,
    /// Blocks up to `target` are being downloaded.
    Downloading { target: u64 },
    /// Blocks up to `target` are being imported.
    Importing { target: u64 },
}

/// The status that the control plane reports.
#[derive(Clone, Copy, Debug, PartialEq, Eq, Structural)]
pub struct SyncStatus {
    /// How far the sync has come.
    pub state: SyncState,
    /// The highest block that any peer announced.
    pub best_seen_block: Option<u64>,
    /// The number of peers that the strategy works with.
    pub num_peers: u32,
    /// The number of peers that the engine tracks.
    pub num_connected_peers: u32,
    /// The number of blocks that wait for import.
    pub queued_blocks: u32,
}

/// A query of the control plane.
#[derive(Clone, Copy, Debug, PartialEq, Eq, Structural)]
pub enum ToServiceCommand {
    /// Asks for the status.
    Status,
    /// Asks for what is known of each peer.
    PeersInfo,
    /// Signals the start.
    Start,
}

/// The answer to a query of the control plane.
#[derive(Clone, Debug, PartialEq, Eq)]
pub enum ServiceReply {
    /// The status.
    Status(SyncStatus),
    /// Each tracked peer with what is known of it, as of the query.
    PeersInfo(Vec<(PeerId, ExtendedPeerInfo)>),
    /// The start was noted.
    Started,
}

/// The state of a round of strategy actions as it goes along.
pub ghost struct Round {
    /// The outstanding requests, oldest first.
    pub pending: Seq<PendingEntry>,
    /// The effects so far, in order.
    pub effects: Seq<EffectView>,
    /// The block that the engine will return.
    pub last_block: Option<IncomingBlock>,
    /// Whether blocks were handed over, which ends the round.
    pub done: bool,
}

/// The round after one more action. A state request that encodes is
/// registered as pending and sent; one that does not is dropped. A dropped
/// peer loses its pending entries, is disconnected and reported. Blocks for
/// import are handed over as one batch, their first is kept as the result,
/// and the round ends: no later action has any effect.
pub open spec fn apply_action(round: Round, action: StrategyAction) -> Round {
    if round.done {
        round
    } else {
        match action {
            StrategyAction::SendStateRequest { peer_id, request } => match request.0 {
                Payload::StateRequest(message) => Round {
                    pending: round.pending.push(
                        PendingEntry { peer_id, request: PeerRequest::State },
                    ),
                    effects: round.effects.push(
                        EffectView::StartRequest { peer_id, data: state_request_wire(message@) },
                    ),
                    ..round
                },
                _ => round,
            },
            StrategyAction::DropPeer { peer_id, reputation_change } => Round {
                pending: without_peer(round.pending, peer_id),
                effects: round.effects.push(EffectView::DisconnectPeer { peer_id }).push(
                    EffectView::ReportPeer { peer_id, change: reputation_change },
                ),
                ..round
            },
            StrategyAction::ImportBlocks { origin, blocks } => Round {
                effects: round.effects.push(EffectView::ImportBlocks { origin, blocks: blocks@ }),
                last_block: if blocks@.len() > 0 {
                    Some(blocks@[0])
                } else {
                    None
                },
                done: true,
                ..round
            },
            StrategyAction::Finished => round,
        }
    }
}

/// The round after the first `n` of `actions`.
pub open spec fn apply_actions(round: Round, actions: Seq<StrategyAction>, n: nat) -> Round
    decreases n,
{
    if n == 0 {
        round
    } else {
        apply_action(apply_actions(round, actions, (n - 1) as nat), actions[n - 1])
    }
}

/// Once a round has ended, further actions leave it as it is.
pub proof fn lemma_done_is_final(round: Round, actions: Seq<StrategyAction>, k: nat, n: nat)
    requires
        k <= n,
        apply_actions(round, actions, k).done,
    ensures
        apply_actions(round, actions, n) == apply_actions(round, actions, k),
    decreases n - k,
{
    if k < n {
        lemma_done_is_final(round, actions, k, (n - 1) as nat);
    }
}

/// A round that has not ended has kept the block that it started with.
pub proof fn lemma_round_keeps_block(round: Round, actions: Seq<StrategyAction>, n: nat)
    requires
        n <= actions.len(),
    ensures
        !apply_actions(round, actions, n).done ==> apply_actions(round, actions, n).last_block
            == round.last_block && !round.done,
    decreases n,
{
    if n > 0 {
        lemma_round_keeps_block(round, actions, (n - 1) as nat);
    }
}

/// Without blocks for import among its actions a round does not end, and with
/// them it does: the engine stops exactly when the strategy hands over
/// blocks.
pub proof fn lemma_round_ends_on_import(round: Round, actions: Seq<StrategyAction>, n: nat)
    requires
        n <= actions.len(),
        !round.done,
    ensures
        apply_actions(round, actions, n).done <==> exists|i: int|
            0 <= i < n && (#[trigger] actions[i]) is ImportBlocks,
    decreases n,
{
    if n > 0 {
        lemma_round_ends_on_import(round, actions, (n - 1) as nat);
        if apply_actions(round, actions, (n - 1) as nat).done {
            let i = choose|i: int| 0 <= i < n - 1 && (#[trigger] actions[i]) is ImportBlocks;
            assert(0 <= i < n && actions[i] is ImportBlocks);
        } else if actions[n - 1] is ImportBlocks {
        } else {
            if exists|i: int| 0 <= i < n && (#[trigger] actions[i]) is ImportBlocks {
                let i = choose|i: int| 0 <= i < n && (#[trigger] actions[i]) is ImportBlocks;
                assert(i < n - 1);
            }
        }
    }
}

/// Right after a peer is dropped, no request to it is pending, whatever was
/// pending before.
pub proof fn lemma_drop_peer_clears_pending(
    round: Round,
    peer_id: PeerId,
    reputation_change: ReputationChange,
)
    requires
        !round.done,
    ensures
        forall|i: int|
            0 <= i < apply_action(
                round,
                StrategyAction::DropPeer { peer_id, reputation_change },
            ).pending.len() ==> apply_action(
                round,
                StrategyAction::DropPeer { peer_id, reputation_change },
            ).pending[i].peer_id != peer_id,
{
    let pred = |e: PendingEntry| e.peer_id != peer_id;
    let after = round.pending.filter(pred);
    assert forall|i: int| 0 <= i < after.len() implies after[i].peer_id != peer_id by {
        round.pending.lemma_filter_pred(pred, i);
    }
}

/// A batch of blocks for import ends the round at once: the whole batch is
/// handed over in one effect with its origin, its first block is the result,
/// and the pending requests stay as they are.
pub proof fn lemma_import_ends_round(round: Round, origin: BlockOrigin, blocks: Vec<IncomingBlock>)
    requires
        !round.done,
    ensures
        ({
            let after = apply_action(round, StrategyAction::ImportBlocks { origin, blocks });
            &&& after.done
            &&& after.pending == round.pending
            &&& after.effects == round.effects.push(
                EffectView::ImportBlocks { origin, blocks: blocks@ },
            )
            &&& blocks@.len() > 0 ==> after.last_block == Some(blocks@[0])
        }),
{
}

/// What the failure policy says about a response event, if it counts as a
/// failure: any failure or cancellation does, and so do bytes that answer a
/// state request and do not decode.
pub open spec fn failure_of(request: PeerRequest, outcome: ResponseOutcome) -> Option<
    FailureCategory,
> {
    match outcome {
        ResponseOutcome::Response(bytes) => if request == PeerRequest::State && state_response_of(
            bytes@,
        ).is_none() {
            Some(FailureCategory::MalformedResponse)
        } else {
            None
        },
        ResponseOutcome::Failure(failure) => Some(category_of(failure)),
        ResponseOutcome::Canceled => Some(FailureCategory::Canceled),
    }
}

/// A tracked peer under its identifier.
#[derive(Clone, Debug)]
struct TrackedPeer {
    peer_id: PeerId,
    peer: Peer,
}

/// The engine of a one-shot state sync.
#[derive(Debug)]
pub struct FastSyncingEngine {
    /// All connected peers, in the order in which they were added.
    peers: Vec<TrackedPeer>,
    /// The requests that are out.
    pending_responses: PendingResponses,
    /// Name of the protocol that state requests go out on.
    state_request_protocol_name: String,
    /// The first block of the batch that was handed over for import.
    last_block: Option<IncomingBlock>,
}

impl FastSyncingEngine {
    /// The tracked peers with what is known of each, in the order in which
    /// they were added.
    pub closed spec fn peers_info(&self) -> Seq<(PeerId, ExtendedPeerInfo)> {
        self.peers@.map_values(|p: TrackedPeer| (p.peer_id, p.peer.info))
    }

    /// The outstanding requests, oldest first.
    pub closed spec fn pending(&self) -> Seq<PendingEntry> {
        self.pending_responses@
    }

    /// The block that `take_last_block` gives.
    pub closed spec fn last_block(&self) -> Option<IncomingBlock> {
        self.last_block
    }

    /// The name of the protocol that state requests go out on.
    pub closed spec fn protocol_name(&self) -> Seq<char> {
        self.state_request_protocol_name@
    }

    /// Whether `peer_id` is tracked.
    pub open spec fn tracks(&self, peer_id: PeerId) -> bool {
        exists|i: int| 0 <= i < self.peers_info().len() && self.peers_info()[i].0 == peer_id
    }

    /// No peer is tracked twice.
    pub open spec fn wf(&self) -> bool {
        forall|i: int, j: int|
            0 <= i < j < self.peers_info().len() ==> self.peers_info()[i].0
                != self.peers_info()[j].0
    }

    /// An engine that tracks no peer and has no request out.
    pub fn new(state_request_protocol_name: String) -> (engine: Self)
        ensures
            engine.wf(),
            engine.peers_info() == Seq::<(PeerId, ExtendedPeerInfo)>::empty(),
            engine.pending() == Seq::<PendingEntry>::empty(),
            engine.last_block().is_none(),
            engine.protocol_name() == state_request_protocol_name@,
    {
        let engine = FastSyncingEngine {
            peers: Vec::new(),
            pending_responses: PendingResponses::new(),
            state_request_protocol_name,
            last_block: None,
        };
        proof {
            assert(engine.peers_info() == Seq::<(PeerId, ExtendedPeerInfo)>::empty());
        }
        engine
    }

    /// The name of the protocol that state requests go out on.
    pub fn state_request_protocol_name(&self) -> (name: &String)
        ensures
            name@ == self.protocol_name(),
    {
        &self.state_request_protocol_name
    }

    /// The number of tracked peers.
    pub fn num_peers(&self) -> (n: usize)
        ensures
            n == self.peers_info().len(),
    {
        self.peers.len()
    }

    /// The number of requests that are out.
    pub fn num_pending(&self) -> (n: usize)
        ensures
            n == self.pending().len(),
    {
        self.pending_responses.len()
    }

    /// Whether a request to `peer_id` is out.
    pub fn has_pending(&self, peer_id: PeerId) -> (found: bool)
        ensures
            found == exists|i: int|
                0 <= i < self.pending().len() && self.pending()[i].peer_id == peer_id,
    {
        self.pending_responses.has_peer(peer_id)
    }

    /// The index of `peer_id` among the tracked peers.
    fn position(&self, peer_id: PeerId) -> (at: Option<usize>)
        ensures
            match at {
                Some(k) => k < self.peers@.len() && self.peers@[k as int].peer_id == peer_id,
                None => forall|j: int| 0 <= j < self.peers@.len() ==> self.peers@[j].peer_id != peer_id,
            },
    {
        let mut i: usize = 0;
        while i < self.peers.len()
            invariant
                i <= self.peers.len(),
                forall|j: int| 0 <= j < i ==> self.peers@[j].peer_id != peer_id,
            decreases self.peers.len() - i,
        {
            if self.peers[i].peer_id == peer_id {
                return Some(i);
            }
            i += 1;
        }
        None
    }

    /// Whether `peer_id` is tracked.
    pub fn has_peer(&self, peer_id: PeerId) -> (found: bool)
        ensures
            found == self.tracks(peer_id),
    {
        let at = self.position(peer_id);
        proof {
            match at {
                Some(k) => {
                    assert(self.peers_info()[k as int].0 == peer_id);
                },
                None => {
                    assert forall|i: int| 0 <= i < self.peers_info().len() implies self.peers_info()[i].0 != peer_id by {
                        assert(self.peers@[i].peer_id != peer_id);
                    }
                },
            }
        }
        at.is_some()
    }

    /// Tracks a peer that connected. A peer that is tracked already keeps its
    /// place and gets the new value. Returns whether the peer is new.
    pub fn add_peer(&mut self, peer_id: PeerId, peer: Peer) -> (added: bool)
        requires
            old(self).wf(),
        ensures
            final(self).wf(),
            added == !old(self).tracks(peer_id),
            final(self).tracks(peer_id),
            added ==> final(self).peers_info() == old(self).peers_info().push((peer_id, peer.info)),
            !added ==> exists|k: int|
                0 <= k < old(self).peers_info().len() && old(self).peers_info()[k].0 == peer_id
                    && final(self).peers_info() == old(self).peers_info().update(
                    k,
                    (peer_id, peer.info),
                ),
            final(self).pending() == old(self).pending(),
            final(self).last_block() == old(self).last_block(),
            final(self).protocol_name() == old(self).protocol_name(),
    {
        let at = self.position(peer_id);
        let ghost before = self.peers_info();
        let ghost info = peer.info;
        match at {
            Some(k) => {
                self.peers.set(k, TrackedPeer { peer_id, peer });
                proof {
                    assert(before[k as int].0 == peer_id);
                    assert(self.peers_info() == before.update(k as int, (peer_id, info)));
                    assert(self.peers_info()[k as int].0 == peer_id);
                }
                false
            },
            None => {
                self.peers.push(TrackedPeer { peer_id, peer });
                proof {
                    assert(self.peers_info() == before.push((peer_id, info)));
                    assert(self.peers_info()[before.len() as int].0 == peer_id);
                    assert forall|i: int| 0 <= i < before.len() implies before[i].0 != peer_id by {
                        assert(old(self).peers@[i].peer_id != peer_id);
                    }
                }
                true
            },
        }
    }

    /// Forgets a peer that disconnected; the others keep their order.
    /// Returns whether the peer was tracked.
    pub fn remove_peer(&mut self, peer_id: PeerId) -> (removed: bool)
        requires
            old(self).wf(),
        ensures
            final(self).wf(),
            removed == old(self).tracks(peer_id),
            !final(self).tracks(peer_id),
            !removed ==> final(self).peers_info() == old(self).peers_info(),
            removed ==> exists|k: int|
                0 <= k < old(self).peers_info().len() && old(self).peers_info()[k].0 == peer_id
                    && final(self).peers_info() == old(self).peers_info().remove(k),
            final(self).pending() == old(self).pending(),
            final(self).last_block() == old(self).last_block(),
            final(self).protocol_name() == old(self).protocol_name(),
    {
        let at = self.position(peer_id);
        let ghost before = self.peers_info();
        match at {
            Some(k) => {
                self.peers.remove(k);
                proof {
                    assert(before[k as int].0 == peer_id);
                    assert(self.peers_info() == before.remove(k as int));
                    assert forall|i: int| 0 <= i < self.peers_info().len() implies self.peers_info()[i].0 != peer_id by {
                        let i2 = if i < k { i } else { i + 1 };
                        assert(self.peers_info()[i] == before[i2]);
                    }
                    assert forall|i: int, j: int| 0 <= i < j < self.peers_info().len() implies self.peers_info()[i].0 != self.peers_info()[j].0 by {
                        let i2 = if i < k { i } else { i + 1 };
                        let j2 = if j < k { j } else { j + 1 };
                        assert(self.peers_info()[i] == before[i2]);
                        assert(self.peers_info()[j] == before[j2]);
                    }
                }
                true
            },
            None => {
                proof {
                    assert forall|i: int| 0 <= i < before.len() implies before[i].0 != peer_id by {
                        assert(self.peers@[i].peer_id != peer_id);
                    }
                }
                false
            },
        }
    }

    /// Takes the block that the engine returns when it ends: the first block
    /// of the batch that was handed over for import, if one was.
    pub fn take_last_block(&mut self) -> (block: Option<IncomingBlock>)
        ensures
            block == old(self).last_block(),
            final(self).last_block().is_none(),
            final(self).peers_info() == old(self).peers_info(),
            final(self).pending() == old(self).pending(),
            final(self).protocol_name() == old(self).protocol_name(),
    {
        let block = self.last_block;
        self.last_block = None;
        block
    }

    /// Answers a query of the control plane from the state as it is now;
    /// `strategy_status` is the status that the strategy reports.
    pub fn process_service_command(
        &self,
        command: ToServiceCommand,
        strategy_status: SyncStatus,
    ) -> (reply: ServiceReply)
        ensures
            match command {
                ToServiceCommand::Status => reply == ServiceReply::Status(
                    SyncStatus {
                        num_connected_peers: self.peers_info().len() as u32,
                        ..strategy_status
                    },
                ),
                ToServiceCommand::PeersInfo => reply matches ServiceReply::PeersInfo(infos)
                    && infos@ == self.peers_info(),
                ToServiceCommand::Start => reply == ServiceReply::Started,
            },
    {
        match command {
            ToServiceCommand::Status => {
                let mut status = strategy_status;
                status.num_connected_peers = #[verifier::truncate]
                (self.peers.len() as u32);
                ServiceReply::Status(status)
            },
            ToServiceCommand::PeersInfo => {
                let mut infos: Vec<(PeerId, ExtendedPeerInfo)> = Vec::new();
                let mut i: usize = 0;
                while i < self.peers.len()
                    invariant
                        i <= self.peers.len(),
                        infos@ == self.peers_info().take(i as int),
                    decreases self.peers.len() - i,
                {
                    infos.push((self.peers[i].peer_id, self.peers[i].peer.info));
                    proof {
                        assert(self.peers_info().take(i + 1) == self.peers_info().take(
                            i as int,
                        ).push(self.peers_info()[i as int]));
                    }
                    i += 1;
                }
                proof {
                    assert(self.peers_info().take(i as int) == self.peers_info());
                }
                ServiceReply::PeersInfo(infos)
            },
            ToServiceCommand::Start => ServiceReply::Started,
        }
    }

    /// Handles the completion of a pending response. The entry of the request
    /// leaves the tracker. A failure, a cancellation, or bytes that answer a
    /// state request without decoding get what the failure policy says and
    /// are not handed to the strategy. A state response that decodes is
    /// handed to the strategy; a response to any other kind of request is
    /// only noted as unexpected.
    pub fn process_response_event(&mut self, response_event: ResponseEvent) -> (handling:
        ResponseHandling)
        ensures
            final(self).pending() == without_first(
                old(self).pending(),
                PendingEntry { peer_id: response_event.peer_id, request: response_event.request },
            ),
            final(self).peers_info() == old(self).peers_info(),
            final(self).last_block() == old(self).last_block(),
            final(self).protocol_name() == old(self).protocol_name(),
            match failure_of(response_event.request, response_event.outcome) {
                Some(category) => {
                    &&& handling.report == policy_for(category).reputation
                    &&& handling.disconnect == policy_for(category).disconnect
                    &&& handling.forward.is_none()
                    &&& handling.anomaly == (if policy_for(category).invariant_violation {
                        Anomaly::InvariantViolation
                    } else {
                        Anomaly::Nothing
                    })
                },
                None => {
                    &&& handling.report.is_none()
                    &&& !handling.disconnect
                    &&& response_event.outcome matches ResponseOutcome::Response(bytes)
                    &&& if response_event.request == PeerRequest::State {
                        &&& handling.anomaly == Anomaly::Nothing
                        &&& handling.forward matches Some(envelope)
                        &&& envelope.0 matches Payload::StateResponse(message)
                        &&& Some(message@) == state_response_of(bytes@)
                    } else {
                        &&& handling.anomaly == Anomaly::UnexpectedResponse
                        &&& handling.forward.is_none()
                    }
                },
            },
    {
        let ResponseEvent { peer_id, request, outcome } = response_event;
        self.pending_responses.complete(peer_id, request);
        let category = match outcome {
            ResponseOutcome::Response(bytes) => match request {
                PeerRequest::State => match decode_state_response(bytes.as_slice()) {
                    Ok(envelope) => {
                        return ResponseHandling {
                            report: None,
                            disconnect: false,
                            forward: Some(envelope),
                            anomaly: Anomaly::Nothing,
                        };
                    },
                    Err(_) => FailureCategory::MalformedResponse,
                },
                _ => {
                    return ResponseHandling {
                        report: None,
                        disconnect: false,
                        forward: None,
                        anomaly: Anomaly::UnexpectedResponse,
                    };
                },
            },
            ResponseOutcome::Failure(failure) => classify(failure),
            ResponseOutcome::Canceled => FailureCategory::Canceled,
        };
        let policy = failure_policy(category);
        ResponseHandling {
            report: policy.reputation,
            disconnect: policy.disconnect,
            forward: None,
            anomaly: if policy.invariant_violation {
                Anomaly::InvariantViolation
            } else {
                Anomaly::Nothing
            },
        }
    }

    /// The round that `process_strategy_actions` starts from.
    pub open spec fn round_start(&self) -> Round {
        Round {
            pending: self.pending(),
            effects: Seq::<EffectView>::empty(),
            last_block: self.last_block(),
            done: false,
        }
    }

    /// Registers a state request to `peer_id` as pending and gives the effect
    /// that sends it; where the request does not encode, nothing changes and
    /// there is no effect.
    pub fn send_state_request(&mut self, peer_id: PeerId, request: &OpaqueStateRequest) -> (effect:
        Option<EngineEffect>)
        ensures
            final(self).peers_info() == old(self).peers_info(),
            final(self).last_block() == old(self).last_block(),
            final(self).protocol_name() == old(self).protocol_name(),
            match request.0 {
                Payload::StateRequest(message) => {
                    &&& final(self).pending() == old(self).pending().push(
                        PendingEntry { peer_id, request: PeerRequest::State },
                    )
                    &&& effect matches Some(e)
                    &&& e@ == (EffectView::StartRequest {
                        peer_id,
                        data: state_request_wire(message@),
                    })
                },
                _ => final(self).pending() == old(self).pending() && effect.is_none(),
            },
    {
        match encode_state_request(request) {
            Ok(data) => {
                self.pending_responses.insert(peer_id, PeerRequest::State);
                Some(EngineEffect::StartRequest { peer_id, data })
            },
            Err(_) => None,
        }
    }

    /// Carries out one round of strategy actions, in their order. Without any
    /// action the sync cannot go on: the round fails, with no effect and the
    /// state as it was. Otherwise the state and the effects are those of
    /// `apply_actions`, and the round says whether blocks were handed over.
    pub fn process_strategy_actions(&mut self, actions: &Vec<StrategyAction>) -> (outcome:
        ActionsOutcome)
        ensures
            final(self).peers_info() == old(self).peers_info(),
            final(self).protocol_name() == old(self).protocol_name(),
            actions@.len() == 0 ==> {
                &&& outcome.result == Err::<Option<()>, EngineError>(EngineError::NoFurtherActions)
                &&& outcome.effects@.len() == 0
                &&& final(self).pending() == old(self).pending()
                &&& final(self).last_block() == old(self).last_block()
            },
            actions@.len() > 0 ==> ({
                let round = apply_actions(old(self).round_start(), actions@, actions@.len());
                &&& final(self).pending() == round.pending
                &&& final(self).last_block() == round.last_block
                &&& outcome.effects@.map_values(|e: EngineEffect| e@) == round.effects
                &&& outcome.result == Ok::<Option<()>, EngineError>(
                    if round.done {
                        None
                    } else {
                        Some(())
                    },
                )
            }),
    {
        let mut effects: Vec<EngineEffect> = Vec::new();
        if actions.len() == 0 {
            return ActionsOutcome { effects, result: Err(EngineError::NoFurtherActions) };
        }
        let ghost start = self.round_start();
        let ghost view = |e: EngineEffect| e@;
        let mut i: usize = 0;
        proof {
            assert(effects@.map_values(view) == start.effects);
        }
        while i < actions.len()
            invariant
                i <= actions.len(),
                start == old(self).round_start(),
                view == |e: EngineEffect| e@,
                self.peers_info() == old(self).peers_info(),
                self.protocol_name() == old(self).protocol_name(),
                apply_actions(start, actions@, i as nat) == (Round {
                    pending: self.pending(),
                    effects: effects@.map_values(view),
                    last_block: self.last_block(),
                    done: false,
                }),
            decreases actions.len() - i,
        {
            let ghost before = apply_actions(start, actions@, i as nat);
            let ghost shown = effects@.map_values(view);
            match &actions[i] {
                StrategyAction::SendStateRequest { peer_id, request } => {
                    match self.send_state_request(*peer_id, request) {
                        Some(effect) => {
                            effects.push(effect);
                            proof {
                                assert(effects@.map_values(view) == shown.push(effect@));
                            }
                        },
                        None => {},
                    }
                },
                StrategyAction::DropPeer { peer_id, reputation_change } => {
                    self.pending_responses.remove(*peer_id);
                    let disconnect = EngineEffect::DisconnectPeer { peer_id: *peer_id };
                    let report = EngineEffect::ReportPeer {
                        peer_id: *peer_id,
                        change: *reputation_change,
                    };
                    effects.push(disconnect);
                    effects.push(report);
                    proof {
                        assert(effects@.map_values(view) == shown.push(disconnect@).push(report@));
                    }
                },
                StrategyAction::ImportBlocks { origin, blocks } => {
                    self.last_block = if blocks.len() > 0 {
                        Some(blocks[0])
                    } else {
                        None
                    };
                    let import = EngineEffect::ImportBlocks {
                        origin: *origin,
                        blocks: slice_to_vec(blocks.as_slice()),
                    };
                    effects.push(import);
                    proof {
                        assert(effects@.map_values(view) == shown.push(import@));
                        assert(apply_actions(start, actions@, (i + 1) as nat).done);
                        lemma_done_is_final(start, actions@, (i + 1) as nat, actions@.len());
                    }
                    return ActionsOutcome { effects, result: Ok(None) };
                },
                StrategyAction::Finished => {},
            }
            i += 1;
        }
        ActionsOutcome { effects, result: Ok(Some(())) }
    }

    /// Decides from the end of a round whether the engine goes on. After
    /// blocks were handed over it stops with the block that it kept, which
    /// it gives away; after an error it stops with the error.
    pub fn conclude_round(&mut self, result: Result<Option<()>, EngineError>) -> (control:
        LoopControl)
        ensures
            final(self).peers_info() == old(self).peers_info(),
            final(self).pending() == old(self).pending(),
            final(self).protocol_name() == old(self).protocol_name(),
            match result {
                Ok(Some(_)) => control == LoopControl::Continue && final(self).last_block()
                    == old(self).last_block(),
                Ok(None) => control == LoopControl::Stop(Ok(old(self).last_block()))
                    && final(self).last_block().is_none(),
                Err(e) => control == LoopControl::Stop(Err(e)) && final(self).last_block()
                    == old(self).last_block(),
            },
    {
        match result {
            Ok(Some(_)) => LoopControl::Continue,
            Ok(None) => LoopControl::Stop(Ok(self.take_last_block())),
            Err(e) => LoopControl::Stop(Err(e)),
        }
    }

    /// One round of the engine behind an event: carries out the actions of
    /// the strategy and decides whether the engine goes on. Without any
    /// action the engine stops with an error and without any effect. With
    /// blocks for import among the actions it stops with the first block of
    /// the first such batch. Otherwise it goes on.
    pub fn run_round(&mut self, actions: &Vec<StrategyAction>) -> (outcome: RoundOutcome)
        ensures
            final(self).peers_info() == old(self).peers_info(),
            final(self).protocol_name() == old(self).protocol_name(),
            actions@.len() == 0 ==> {
                &&& outcome.control == LoopControl::Stop(Err(EngineError::NoFurtherActions))
                &&& outcome.effects@.len() == 0
                &&& final(self).pending() == old(self).pending()
                &&& final(self).last_block() == old(self).last_block()
            },
            actions@.len() > 0 ==> ({
                let round = apply_actions(old(self).round_start(), actions@, actions@.len());
                &&& final(self).pending() == round.pending
                &&& outcome.effects@.map_values(|e: EngineEffect| e@) == round.effects
                &&& if round.done {
                    &&& outcome.control == LoopControl::Stop(Ok(round.last_block))
                    &&& final(self).last_block().is_none()
                } else {
                    &&& outcome.control == LoopControl::Continue
                    &&& final(self).last_block() == old(self).last_block()
                }
            }),
    {
        proof {
            lemma_round_keeps_block(self.round_start(), actions@, actions@.len());
        }
        let ActionsOutcome { effects, result } = self.process_strategy_actions(actions);
        let control = self.conclude_round(result);
        RoundOutcome { effects, control }
    }
}

} // verus!
