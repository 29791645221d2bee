//! Plain values that the engine passes around.

use vstd::prelude::*;

verus! {

/// Stable identifier of a network peer.
#[derive(Clone, Copy, Debug, PartialEq, Eq, Structural, Hash, PartialOrd, Ord)]
pub struct PeerId(pub u64);

/// Identifier of a block.
#[derive(Clone, Copy, Debug, PartialEq, Eq, Structural, Hash, PartialOrd, Ord)]
pub struct BlockHash(pub u64);

/// The kind of request that a pending response answers.
#[derive(Clone, Copy, Debug, PartialEq, Eq, Structural, Hash)]
pub enum PeerRequest {
    /// A block request.
    Block,
    /// A state request.
    State,
    /// A warp proof request.
    WarpProof,
}

/// A signed adjustment to a peer's standing, with the reason for it.
#[derive(Clone, Copy, Debug, PartialEq, Eq)]
pub struct ReputationChange {
    /// The adjustment; `i32::MIN` bans the peer.
    pub value: i32,
    /// Why the standing changes.
    pub reason: &'static str,
}

impl ReputationChange {
    /// A change by `value` for `reason`.
    pub fn new(value: i32, reason: &'static str) -> (change: Self)
        ensures
            change.value == value,
            change.reason == reason,
    {
        ReputationChange { value, reason }
    }

    /// The change that bans a peer at once.
    pub fn new_fatal(reason: &'static str) -> (change: Self)
        ensures
            change.value == i32::MIN,
            change.reason == reason,
            change.is_fatal(),
    {
        ReputationChange { value: i32::MIN, reason }
    }

    /// Whether the change bans the peer at once.
    pub open spec fn is_fatal(&self) -> bool {
        self.value == i32::MIN
    }

    /// Whether the change bans the peer at once.
    pub fn fatal(&self) -> (fatal: bool)
        ensures
            fatal == self.is_fatal(),
    {
        self.value == i32::MIN
    }
}

/// Why a request to a peer failed on the way out.
#[derive(Clone, Copy, Debug, PartialEq, Eq, Structural)]
pub enum OutboundFailure {
    /// The peer could not be dialed.
    DialFailure,
    /// No response came in time.
    Timeout,
    /// The connection closed before the response came.
    ConnectionClosed,
    /// The peer supports none of the requested protocols.
    UnsupportedProtocols,
}

/// Why a request to a peer failed.
#[derive(Clone, Copy, Debug, PartialEq, Eq, Structural)]
pub enum RequestFailure {
    /// There is no connection to the peer.
    NotConnected,
    /// The protocol is not registered locally.
    UnknownProtocol,
    /// The peer refused to answer.
    Refused,
    /// The response receiver had been dropped.
    Obsolete,
    /// The transport failed.
    Network(OutboundFailure),
}

/// Where a batch of blocks handed to the import pipeline comes from.
#[derive(Clone, Copy, Debug, PartialEq, Eq, Structural)]
pub enum BlockOrigin {
    /// The genesis block of the chain.
    Genesis,
    /// Received during the initial sync.
    NetworkInitialSync,
    /// Broadcast on the network.
    NetworkBroadcast,
    /// Received from the consensus layer.
    ConsensusBroadcast,
    /// Authored by this node.
    Own,
    /// Read from a file.
    File,
}

/// A block on its way to the import pipeline, by what identifies it.
#[derive(Clone, Copy, Debug, PartialEq, Eq, Structural)]
pub struct IncomingBlock {
    /// The block's hash.
    pub hash: BlockHash,
    /// The block's number.
    pub number: u64,
    /// The peer that the block came from, if it came from one.
    pub origin: Option<PeerId>,
}

/// What the transport layer told about a connected peer.
#[derive(Clone, Copy, Debug, PartialEq, Eq, Structural)]
pub struct ExtendedPeerInfo {
    /// The roles that the peer announced, as a bit set.
    pub roles: u8,
    /// The peer's best block.
    pub best_hash: BlockHash,
    /// The number of the peer's best block.
    pub best_number: u64,
}

} // verus!
