//! The state request and response messages, and the opaque containers that
//! carry them past code that does not know them.

use vstd::prelude::*;

verus! {

/// Asks a peer for state entries of one block.
#[derive(Clone, Debug, PartialEq, Eq, Default)]
pub struct StateRequest {
    /// Hash of the block whose state is asked for.
    pub block: Vec<u8>,
    /// The keys after which to go on, one per trie level; empty at the start.
    pub start: Vec<Vec<u8>>,
    /// Whether the response may come without a proof.
    pub no_proof: bool,
}

/// A key of the state and its value.
#[derive(Clone, Debug, PartialEq, Eq, Default)]
pub struct StateEntry {
    /// The key.
    pub key: Vec<u8>,
    /// The value stored under the key.
    pub value: Vec<u8>,
}

/// The entries of one trie of the state.
#[derive(Clone, Debug, PartialEq, Eq, Default)]
pub struct KeyValueStateEntry {
    /// Root of the trie; empty for the top trie.
    pub state_root: Vec<u8>,
    /// The entries, in key order.
    pub entries: Vec<StateEntry>,
    /// Whether these are the last entries of the trie.
    pub complete: bool,
}

/// A peer's answer to a state request.
#[derive(Clone, Debug, PartialEq, Eq, Default)]
pub struct StateResponse {
    /// The entries, where the request went without a proof.
    pub entries: Vec<KeyValueStateEntry>,
    /// The compact proof that holds the entries otherwise.
    pub proof: Vec<u8>,
}

/// What a `StateRequest` holds.
pub ghost struct StateRequestView {
    pub block: Seq<u8>,
    pub start: Seq<Seq<u8>>,
    pub no_proof: bool,
}

/// What a `StateEntry` holds.
pub ghost struct StateEntryView {
    pub key: Seq<u8>,
    pub value: Seq<u8>,
}

/// What a `KeyValueStateEntry` holds.
pub ghost struct KeyValueStateEntryView {
    pub state_root: Seq<u8>,
    pub entries: Seq<StateEntryView>,
    pub complete: bool,
}

/// What a `StateResponse` holds.
pub ghost struct StateResponseView {
    pub entries: Seq<KeyValueStateEntryView>,
    pub proof: Seq<u8>,
}

impl View for StateRequest {
    type V = StateRequestView;

    open spec fn view(&self) -> StateRequestView {
        StateRequestView {
            block: self.block@,
            start: self.start@.map_values(|k: Vec<u8>| k@),
            no_proof: self.no_proof,
        }
    }
}

impl View for StateEntry {
    type V = StateEntryView;

    open spec fn view(&self) -> StateEntryView {
        StateEntryView { key: self.key@, value: self.value@ }
    }
}

impl View for KeyValueStateEntry {
    type V = KeyValueStateEntryView;

    open spec fn view(&self) -> KeyValueStateEntryView {
        KeyValueStateEntryView {
            state_root: self.state_root@,
            entries: self.entries@.map_values(|e: StateEntry| e@),
            complete: self.complete,
        }
    }
}

impl View for StateResponse {
    type V = StateResponseView;

    open spec fn view(&self) -> StateResponseView {
        StateResponseView {
            entries: self.entries@.map_values(|e: KeyValueStateEntry| e@),
            proof: self.proof@,
        }
    }
}

/// The one value that an opaque container carries.
#[derive(Clone, Debug, PartialEq, Eq)]
pub enum Payload {
    /// A state request.
    StateRequest(StateRequest),
    /// A state response.
    StateResponse(StateResponse),
    /// A message of another protocol, as its bytes.
    Other(Vec<u8>),
}

/// Why a container did not give out its value.
#[derive(Clone, Copy, Debug, PartialEq, Eq, Structural)]
pub enum EnvelopeError {
    /// The container holds a value of another type than was asked for.
    TypeMismatch,
}

/// A request that the engine carries from the strategy to the codec without
/// looking into it.
#[derive(Clone, Debug, PartialEq, Eq)]
pub struct OpaqueStateRequest(pub Payload);

/// A response that the engine carries from the codec to the strategy without
/// looking into it.
#[derive(Clone, Debug, PartialEq, Eq)]
pub struct OpaqueStateResponse(pub Payload);

impl OpaqueStateRequest {
    /// Wraps `payload`.
    pub fn wrap(payload: Payload) -> (envelope: Self)
        ensures
            envelope.0 == payload,
    {
        OpaqueStateRequest(payload)
    }

    /// The state request inside, or `TypeMismatch` where the container holds
    /// anything else.
    pub fn unwrap_as_state_request(&self) -> (r: Result<&StateRequest, EnvelopeError>)
        ensures
            match self.0 {
                Payload::StateRequest(request) => r == Ok::<&StateRequest, EnvelopeError>(&request),
                _ => r == Err::<&StateRequest, EnvelopeError>(EnvelopeError::TypeMismatch),
            },
    {
        match &self.0 {
            Payload::StateRequest(request) => Ok(request),
            _ => Err(EnvelopeError::TypeMismatch),
        }
    }
}

impl OpaqueStateResponse {
    /// Wraps `payload`.
    pub fn wrap(payload: Payload) -> (envelope: Self)
        ensures
            envelope.0 == payload,
    {
        OpaqueStateResponse(payload)
    }

    /// The state response inside, or `TypeMismatch` where the container holds
    /// anything else.
    pub fn unwrap_as_state_response(&self) -> (r: Result<&StateResponse, EnvelopeError>)
        ensures
            match self.0 {
                Payload::StateResponse(response) => r == Ok::<&StateResponse, EnvelopeError>(
                    &response,
                ),
                _ => r == Err::<&StateResponse, EnvelopeError>(EnvelopeError::TypeMismatch),
            },
    {
        match &self.0 {
            Payload::StateResponse(response) => Ok(response),
            _ => Err(EnvelopeError::TypeMismatch),
        }
    }
}

} // verus!
