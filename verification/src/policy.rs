//! What each way in which a request can fail costs the peer.

use vstd::prelude::*;
use crate::types::{OutboundFailure, ReputationChange, RequestFailure};

verus! {

/// The ways in which a request to a peer can come to nothing.
#[derive(Clone, Copy, Debug, PartialEq, Eq, Structural)]
pub enum FailureCategory {
    /// The response bytes did not decode.
    MalformedResponse,
    /// The peer lacks or rejects the protocol.
    UnsupportedProtocol,
    /// No response came in time.
    Timeout,
    /// The peer refused the request.
    Refused,
    /// The peer could not be dialed.
    DialFailure,
    /// The connection closed before the response came.
    ConnectionClosed,
    /// There was no connection to the peer.
    NotConnected,
    /// The response channel was canceled on this side.
    Canceled,
    /// The transport did not know the protocol.
    UnknownProtocol,
    /// The transport reported the request as obsolete.
    Obsolete,
}

/// What the engine does about a failure.
#[derive(Clone, Copy, Debug, PartialEq, Eq)]
pub struct Policy {
    /// The reputation change reported for the peer, if any.
    pub reputation: Option<ReputationChange>,
    /// Whether the peer is disconnected from the state request protocol.
    pub disconnect: bool,
    /// Whether the failure cannot occur while the engine works as designed.
    pub invariant_violation: bool,
}

/// The penalty for a response that does not decode.
pub open spec fn bad_message() -> ReputationChange {
    ReputationChange { value: -4096i32, reason: "Bad message" }
}

/// The penalty for a peer on an unsupported protocol: a ban.
pub open spec fn bad_protocol() -> ReputationChange {
    ReputationChange { value: i32::MIN, reason: "Unsupported protocol" }
}

/// The penalty for a peer that refuses a request.
pub open spec fn refused() -> ReputationChange {
    ReputationChange { value: -1024i32, reason: "Request refused" }
}

/// The penalty for a peer that does not answer in time.
pub open spec fn timeout() -> ReputationChange {
    ReputationChange { value: -1024i32, reason: "Request timeout" }
}

/// The reputation change that a failure of the given category brings.
pub open spec fn reputation_for(category: FailureCategory) -> Option<ReputationChange> {
    match category {
        FailureCategory::MalformedResponse => Some(bad_message()),
        FailureCategory::UnsupportedProtocol => Some(bad_protocol()),
        FailureCategory::Timeout => Some(timeout()),
        FailureCategory::Refused => Some(refused()),
        _ => None,
    }
}

/// Whether a failure of the given category cannot occur in correct operation.
pub open spec fn is_invariant_violation(category: FailureCategory) -> bool {
    category == FailureCategory::UnknownProtocol || category == FailureCategory::Obsolete
}

/// The whole policy for a failure category: every failure that a peer or the
/// connection to it can cause disconnects the peer, and the four that are the
/// peer's fault also cost it reputation.
pub open spec fn policy_for(category: FailureCategory) -> Policy {
    Policy {
        reputation: reputation_for(category),
        disconnect: !is_invariant_violation(category),
        invariant_violation: is_invariant_violation(category),
    }
}

/// The category of a failure that the transport reported.
pub open spec fn category_of(failure: RequestFailure) -> FailureCategory {
    match failure {
        RequestFailure::NotConnected => FailureCategory::NotConnected,
        RequestFailure::UnknownProtocol => FailureCategory::UnknownProtocol,
        RequestFailure::Refused => FailureCategory::Refused,
        RequestFailure::Obsolete => FailureCategory::Obsolete,
        RequestFailure::Network(OutboundFailure::DialFailure) => FailureCategory::DialFailure,
        RequestFailure::Network(OutboundFailure::Timeout) => FailureCategory::Timeout,
        RequestFailure::Network(OutboundFailure::ConnectionClosed) => {
            FailureCategory::ConnectionClosed
        },
        RequestFailure::Network(OutboundFailure::UnsupportedProtocols) => {
            FailureCategory::UnsupportedProtocol
        },
    }
}

/// Sorts a failure that the transport reported into its category.
pub fn classify(failure: RequestFailure) -> (category: FailureCategory)
    ensures
        category == category_of(failure),
{
    match failure {
        RequestFailure::NotConnected => FailureCategory::NotConnected,
        RequestFailure::UnknownProtocol => FailureCategory::UnknownProtocol,
        RequestFailure::Refused => FailureCategory::Refused,
        RequestFailure::Obsolete => FailureCategory::Obsolete,
        RequestFailure::Network(OutboundFailure::DialFailure) => FailureCategory::DialFailure,
        RequestFailure::Network(OutboundFailure::Timeout) => FailureCategory::Timeout,
        RequestFailure::Network(OutboundFailure::ConnectionClosed) => {
            FailureCategory::ConnectionClosed
        },
        RequestFailure::Network(OutboundFailure::UnsupportedProtocols) => {
            FailureCategory::UnsupportedProtocol
        },
    }
}

/// The policy for a failure category.
pub fn failure_policy(category: FailureCategory) -> (policy: Policy)
    ensures
        policy == policy_for(category),
{
    let reputation = match category {
        FailureCategory::MalformedResponse => Some(ReputationChange::new(-4096, "Bad message")),
        FailureCategory::UnsupportedProtocol => {
            Some(ReputationChange::new_fatal("Unsupported protocol"))
        },
        FailureCategory::Timeout => Some(ReputationChange::new(-1024, "Request timeout")),
        FailureCategory::Refused => Some(ReputationChange::new(-1024, "Request refused")),
        _ => None,
    };
    let violation = match category {
        FailureCategory::UnknownProtocol => true,
        FailureCategory::Obsolete => true,
        _ => false,
    };
    Policy { reputation, disconnect: !violation, invariant_violation: violation }
}

/// Only a failure that is the peer's own doing costs it reputation, only an
/// unsupported protocol bans it, and a failure disconnects the peer unless it
/// is one that signals a broken invariant, which has no effect on the peer.
pub proof fn lemma_policy_table(category: FailureCategory)
    ensures
        policy_for(category).disconnect != policy_for(category).invariant_violation,
        policy_for(category).invariant_violation ==> policy_for(category).reputation.is_none(),
        policy_for(category).reputation.is_some() <==> (category
            == FailureCategory::MalformedResponse || category
            == FailureCategory::UnsupportedProtocol || category == FailureCategory::Timeout
            || category == FailureCategory::Refused),
        policy_for(category).reputation.is_some() ==> policy_for(category).reputation.unwrap().value
            < 0,
        (policy_for(category).reputation.is_some() && policy_for(
            category,
        ).reputation.unwrap().is_fatal()) <==> category == FailureCategory::UnsupportedProtocol,
{
}

} // verus!
