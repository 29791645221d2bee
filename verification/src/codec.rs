//! State requests to bytes, and bytes to state responses.

use vstd::prelude::*;
use vstd::slice::slice_to_vec;
use crate::schema::{
    KeyValueStateEntry, KeyValueStateEntryView, OpaqueStateRequest, OpaqueStateResponse, Payload,
    StateEntry, StateEntryView, StateRequest, StateRequestView, StateResponse, StateResponseView,
};
use crate::wire::{
    bytes_field, field_prefix, lemma_bytes_field_round_trip, lemma_flag_round_trip,
    put_bytes_field, read_field,
    DecodingError, FieldView,
};

verus! {

/// Why a request did not encode.
#[derive(Clone, Copy, Debug, PartialEq, Eq, Structural)]
pub enum EncodeError {
    /// The container does not hold a state request.
    TypeMismatch,
}

/// The fields of bytes with key `key` that hold `items`, in their order.
pub open spec fn repeated_bytes_field(key: u8, items: Seq<Seq<u8>>) -> Seq<u8>
    decreases items.len(),
{
    if items.len() == 0 {
        Seq::<u8>::empty()
    } else {
        repeated_bytes_field(key, items.drop_last()) + bytes_field(key, items.last())
    }
}

/// A state request on the wire: the block hash as field 1 unless it is
/// empty, each start key as a field 2, and field 3 only where the request
/// asks for no proof.
pub open spec fn state_request_wire(r: StateRequestView) -> Seq<u8> {
    (if r.block.len() > 0 {
        bytes_field(0x0a, r.block)
    } else {
        Seq::<u8>::empty()
    }) + repeated_bytes_field(0x12, r.start) + (if r.no_proof {
        seq![0x18u8, 0x01u8]
    } else {
        Seq::<u8>::empty()
    })
}

/// The bytes of a state request.
pub fn encode_request_message(request: &StateRequest) -> (bytes: Vec<u8>)
    ensures
        bytes@ == state_request_wire(request@),
{
    let mut buf: Vec<u8> = Vec::new();
    if request.block.len() > 0 {
        put_bytes_field(&mut buf, 0x0a, request.block.as_slice());
    }
    let ghost head = buf@;
    let ghost keys = request@.start;
    let mut i: usize = 0;
    while i < request.start.len()
        invariant
            i <= request.start.len(),
            keys == request@.start,
            keys.len() == request.start.len(),
            buf@ == head + repeated_bytes_field(0x12, keys.take(i as int)),
        decreases request.start.len() - i,
    {
        put_bytes_field(&mut buf, 0x12, request.start[i].as_slice());
        proof {
            assert(keys.take(i + 1).drop_last() == keys.take(i as int));
            assert(keys.take(i + 1).last() == request.start@[i as int]@);
        }
        i += 1;
    }
    proof {
        assert(keys.take(i as int) == keys);
    }
    if request.no_proof {
        buf.push(0x18);
        buf.push(0x01);
    }
    proof {
        assert(buf@ == state_request_wire(request@));
    }
    buf
}

/// The bytes of the state request in `request`; `TypeMismatch` where it holds
/// anything else, and in no other case.
pub fn encode_state_request(request: &OpaqueStateRequest) -> (r: Result<Vec<u8>, EncodeError>)
    ensures
        match request.0 {
            Payload::StateRequest(message) => r.is_ok() && r.unwrap()@ == state_request_wire(
                message@,
            ),
            _ => r == Err::<Vec<u8>, EncodeError>(EncodeError::TypeMismatch),
        },
{
    match request.unwrap_as_state_request() {
        Ok(message) => Ok(encode_request_message(message)),
        Err(_) => Err(EncodeError::TypeMismatch),
    }
}

/// A state request without block, start keys or wish for no proof.
pub open spec fn empty_request() -> StateRequestView {
    StateRequestView {
        block: Seq::<u8>::empty(),
        start: Seq::<Seq<u8>>::empty(),
        no_proof: false,
    }
}

/// A state request after one more field: field 1 sets the block, each field
/// 2 is a start key that joins the others, field 3 says whether no proof is
/// wanted, and any other field changes nothing.
pub open spec fn merge_request(acc: StateRequestView, f: FieldView) -> Option<StateRequestView> {
    if f.tag == 1 {
        if f.wire == 2 {
            Some(StateRequestView { block: f.payload, ..acc })
        } else {
            None
        }
    } else if f.tag == 2 {
        if f.wire == 2 {
            Some(StateRequestView { start: acc.start.push(f.payload), ..acc })
        } else {
            None
        }
    } else if f.tag == 3 {
        if f.wire == 0 {
            Some(StateRequestView { no_proof: f.scalar != 0, ..acc })
        } else {
            None
        }
    } else {
        Some(acc)
    }
}

/// The state request that `acc` becomes by the fields in `s`, read to the
/// end.
pub open spec fn parse_request(s: Seq<u8>, acc: StateRequestView) -> Option<StateRequestView>
    decreases s.len(),
{
    if s.len() == 0 {
        Some(acc)
    } else {
        match field_prefix(s, 100) {
            Some(f) => if 0 < f.consumed <= s.len() {
                match merge_request(acc, f) {
                    Some(next) => parse_request(s.skip(f.consumed as int), next),
                    None => None,
                }
            } else {
                None
            },
            None => None,
        }
    }
}

/// The state request that the bytes `s` stand for, if they stand for one.
pub open spec fn state_request_of(s: Seq<u8>) -> Option<StateRequestView> {
    parse_request(s, empty_request())
}

/// Reads a state request from its bytes, as the peer that answers it does.
pub fn decode_request_message(buf: &[u8]) -> (r: Result<StateRequest, DecodingError>)
    ensures
        match state_request_of(buf@) {
            Some(v) => r.is_ok() && r.unwrap()@ == v,
            None => r == Err::<StateRequest, DecodingError>(DecodingError::Malformed),
        },
{
    let mut request = StateRequest { block: Vec::new(), start: Vec::new(), no_proof: false };
    let mut rest = buf;
    proof {
        assert(request@.start == Seq::<Seq<u8>>::empty());
    }
    while rest.len() > 0
        invariant
            parse_request(rest@, request@) == parse_request(buf@, empty_request()),
        decreases rest@.len(),
    {
        let (field, next) = match read_field(rest, 100) {
            Ok(pair) => pair,
            Err(e) => {
                return Err(e);
            },
        };
        let ghost before = request@;
        if field.tag == 1 {
            if field.wire != 2 {
                return Err(DecodingError::Malformed);
            }
            request.block = slice_to_vec(field.payload);
        } else if field.tag == 2 {
            if field.wire != 2 {
                return Err(DecodingError::Malformed);
            }
            let key = slice_to_vec(field.payload);
            request.start.push(key);
            proof {
                assert(request@.start == before.start.push(key@));
            }
        } else if field.tag == 3 {
            if field.wire != 0 {
                return Err(DecodingError::Malformed);
            }
            request.no_proof = field.scalar != 0;
        }
        rest = next;
    }
    Ok(request)
}

/// Start keys that were written are read back in their order: they join the
/// keys read before them, and reading goes on behind them.
#[verifier::rlimit(60)]
#[verifier::spinoff_prover]
pub proof fn lemma_start_keys_round_trip(
    items: Seq<Seq<u8>>,
    tail: Seq<u8>,
    acc: StateRequestView,
)
    requires
        forall|i: int| 0 <= i < items.len() ==> (#[trigger] items[i]).len() <= u64::MAX,
    ensures
        parse_request(repeated_bytes_field(0x12, items) + tail, acc) == parse_request(
            tail,
            StateRequestView { start: acc.start + items, ..acc },
        ),
    decreases items.len(),
{
    if items.len() == 0 {
        assert(repeated_bytes_field(0x12, items) + tail =~= tail);
        assert(acc.start + items =~= acc.start);
    } else {
        let front = items.drop_last();
        let last = items.last();
        let field = bytes_field(0x12, last);
        lemma_start_keys_round_trip(front, field + tail, acc);
        assert(repeated_bytes_field(0x12, items) + tail =~= repeated_bytes_field(0x12, front) + (
        field + tail));
        let mid = StateRequestView { start: acc.start + front, ..acc };
        let next = StateRequestView { start: acc.start + items, ..acc };
        let s = field + tail;
        let f = FieldView { tag: 2, wire: 2, scalar: 0, payload: last, consumed: field.len() };
        assert(parse_request(s, mid) == parse_request(tail, next)) by {
            lemma_bytes_field_round_trip(0x12, last, tail, 100);
            assert(field_prefix(s, 100) == Some(f));
            assert(s.skip(f.consumed as int) == tail);
            assert(field.len() > 0 && s.len() >= field.len());
            assert((acc.start + front).push(last) =~= acc.start + items);
            assert(merge_request(mid, f) == Some(next));
        }
    }
}

/// Reading the bytes of a state request gives the request back, whatever the
/// request, as long as each of its byte strings has a length of 64 bits.
#[verifier::rlimit(60)]
#[verifier::spinoff_prover]
pub proof fn lemma_request_round_trip(request: StateRequestView)
    requires
        request.block.len() <= u64::MAX,
        forall|i: int|
            0 <= i < request.start.len() ==> (#[trigger] request.start[i]).len() <= u64::MAX,
    ensures
        state_request_of(state_request_wire(request)) == Some(request),
{
    let keys = repeated_bytes_field(0x12, request.start);
    let mark = if request.no_proof {
        seq![0x18u8, 0x01u8]
    } else {
        Seq::<u8>::empty()
    };
    let with_block = StateRequestView { block: request.block, ..empty_request() };
    if request.block.len() > 0 {
        lemma_bytes_field_round_trip(0x0a, request.block, keys + mark, 100);
        assert(state_request_wire(request) =~= bytes_field(0x0a, request.block) + (keys + mark));
    } else {
        assert(state_request_wire(request) =~= keys + mark);
        assert(request.block =~= Seq::<u8>::empty());
    }
    assert(state_request_of(state_request_wire(request)) == parse_request(keys + mark, with_block));
    lemma_start_keys_round_trip(request.start, mark, with_block);
    let with_keys = StateRequestView { start: request.start, ..with_block };
    assert(with_block.start + request.start =~= request.start);
    assert(parse_request(keys + mark, with_block) == parse_request(mark, with_keys));
    if request.no_proof {
        lemma_flag_round_trip(100);
        assert(mark.skip(2).len() == 0);
        assert(parse_request(mark.skip(2), request) == Some(request));
        assert((StateRequestView { no_proof: true, ..with_keys }) == request);
    } else {
        assert(with_keys == request);
    }
}

/// A state entry with empty key and value.
pub open spec fn empty_entry() -> StateEntryView {
    StateEntryView { key: Seq::<u8>::empty(), value: Seq::<u8>::empty() }
}

/// A trie without root, entries or completion mark.
pub open spec fn empty_trie() -> KeyValueStateEntryView {
    KeyValueStateEntryView {
        state_root: Seq::<u8>::empty(),
        entries: Seq::<StateEntryView>::empty(),
        complete: false,
    }
}

/// A state response without entries and proof.
pub open spec fn empty_response() -> StateResponseView {
    StateResponseView { entries: Seq::<KeyValueStateEntryView>::empty(), proof: Seq::<u8>::empty() }
}

/// A state entry after one more field: field 1 sets the key and field 2 the
/// value, each must be bytes, and any other field changes nothing.
pub open spec fn merge_entry(acc: StateEntryView, f: FieldView) -> Option<StateEntryView> {
    if f.tag == 1 {
        if f.wire == 2 {
            Some(StateEntryView { key: f.payload, ..acc })
        } else {
            None
        }
    } else if f.tag == 2 {
        if f.wire == 2 {
            Some(StateEntryView { value: f.payload, ..acc })
        } else {
            None
        }
    } else {
        Some(acc)
    }
}

/// The state entry that `acc` becomes by the fields in `s`, read to the end.
pub open spec fn parse_entry(s: Seq<u8>, acc: StateEntryView) -> Option<StateEntryView>
    decreases s.len(),
{
    if s.len() == 0 {
        Some(acc)
    } else {
        match field_prefix(s, 98) {
            Some(f) => if 0 < f.consumed <= s.len() {
                match merge_entry(acc, f) {
                    Some(next) => parse_entry(s.skip(f.consumed as int), next),
                    None => None,
                }
            } else {
                None
            },
            None => None,
        }
    }
}

/// A trie after one more field: field 1 sets the root, each field 2 is a
/// state entry that joins the others, field 3 is the completion mark, and
/// any other field changes nothing.
pub open spec fn merge_trie(acc: KeyValueStateEntryView, f: FieldView) -> Option<
    KeyValueStateEntryView,
> {
    if f.tag == 1 {
        if f.wire == 2 {
            Some(KeyValueStateEntryView { state_root: f.payload, ..acc })
        } else {
            None
        }
    } else if f.tag == 2 {
        if f.wire == 2 {
            match parse_entry(f.payload, empty_entry()) {
                Some(e) => Some(KeyValueStateEntryView { entries: acc.entries.push(e), ..acc }),
                None => None,
            }
        } else {
            None
        }
    } else if f.tag == 3 {
        if f.wire == 0 {
            Some(KeyValueStateEntryView { complete: f.scalar != 0, ..acc })
        } else {
            None
        }
    } else {
        Some(acc)
    }
}

/// The trie that `acc` becomes by the fields in `s`, read to the end.
pub open spec fn parse_trie(s: Seq<u8>, acc: KeyValueStateEntryView) -> Option<
    KeyValueStateEntryView,
>
    decreases s.len(),
{
    if s.len() == 0 {
        Some(acc)
    } else {
        match field_prefix(s, 99) {
            Some(f) => if 0 < f.consumed <= s.len() {
                match merge_trie(acc, f) {
                    Some(next) => parse_trie(s.skip(f.consumed as int), next),
                    None => None,
                }
            } else {
                None
            },
            None => None,
        }
    }
}

/// A state response after one more field: each field 1 is a trie that joins
/// the others, field 2 sets the proof, and any other field changes nothing.
pub open spec fn merge_response(acc: StateResponseView, f: FieldView) -> Option<
    StateResponseView,
> {
    if f.tag == 1 {
        if f.wire == 2 {
            match parse_trie(f.payload, empty_trie()) {
                Some(t) => Some(StateResponseView { entries: acc.entries.push(t), ..acc }),
                None => None,
            }
        } else {
            None
        }
    } else if f.tag == 2 {
        if f.wire == 2 {
            Some(StateResponseView { proof: f.payload, ..acc })
        } else {
            None
        }
    } else {
        Some(acc)
    }
}

/// The state response that `acc` becomes by the fields in `s`, read to the
/// end.
pub open spec fn parse_response(s: Seq<u8>, acc: StateResponseView) -> Option<StateResponseView>
    decreases s.len(),
{
    if s.len() == 0 {
        Some(acc)
    } else {
        match field_prefix(s, 100) {
            Some(f) => if 0 < f.consumed <= s.len() {
                match merge_response(acc, f) {
                    Some(next) => parse_response(s.skip(f.consumed as int), next),
                    None => None,
                }
            } else {
                None
            },
            None => None,
        }
    }
}

/// The state response that the bytes `s` stand for, if they stand for one.
pub open spec fn state_response_of(s: Seq<u8>) -> Option<StateResponseView> {
    parse_response(s, empty_response())
}

/// Reads a state entry from the bytes of its field.
pub fn decode_state_entry(buf: &[u8]) -> (r: Result<StateEntry, DecodingError>)
    ensures
        match parse_entry(buf@, empty_entry()) {
            Some(v) => r.is_ok() && r.unwrap()@ == v,
            None => r == Err::<StateEntry, DecodingError>(DecodingError::Malformed),
        },
{
    let mut entry = StateEntry { key: Vec::new(), value: Vec::new() };
    let mut rest = buf;
    while rest.len() > 0
        invariant
            parse_entry(rest@, entry@) == parse_entry(buf@, empty_entry()),
        decreases rest@.len(),
    {
        let (field, next) = match read_field(rest, 98) {
            Ok(pair) => pair,
            Err(e) => {
                return Err(e);
            },
        };
        if field.tag == 1 || field.tag == 2 {
            if field.wire != 2 {
                return Err(DecodingError::Malformed);
            }
            if field.tag == 1 {
                entry.key = slice_to_vec(field.payload);
            } else {
                entry.value = slice_to_vec(field.payload);
            }
        }
        rest = next;
    }
    Ok(entry)
}

/// Reads the entries of one trie from the bytes of their field.
pub fn decode_key_value_state_entry(buf: &[u8]) -> (r: Result<KeyValueStateEntry, DecodingError>)
    ensures
        match parse_trie(buf@, empty_trie()) {
            Some(v) => r.is_ok() && r.unwrap()@ == v,
            None => r == Err::<KeyValueStateEntry, DecodingError>(DecodingError::Malformed),
        },
{
    let mut trie = KeyValueStateEntry {
        state_root: Vec::new(),
        entries: Vec::new(),
        complete: false,
    };
    let mut rest = buf;
    proof {
        assert(trie@.entries == Seq::<StateEntryView>::empty());
    }
    while rest.len() > 0
        invariant
            parse_trie(rest@, trie@) == parse_trie(buf@, empty_trie()),
        decreases rest@.len(),
    {
        let (field, next) = match read_field(rest, 99) {
            Ok(pair) => pair,
            Err(e) => {
                return Err(e);
            },
        };
        let ghost before = trie@;
        if field.tag == 1 {
            if field.wire != 2 {
                return Err(DecodingError::Malformed);
            }
            trie.state_root = slice_to_vec(field.payload);
        } else if field.tag == 2 {
            if field.wire != 2 {
                return Err(DecodingError::Malformed);
            }
            let entry = match decode_state_entry(field.payload) {
                Ok(entry) => entry,
                Err(e) => {
                    return Err(e);
                },
            };
            trie.entries.push(entry);
            proof {
                assert(trie@.entries == before.entries.push(entry@));
            }
        } else if field.tag == 3 {
            if field.wire != 0 {
                return Err(DecodingError::Malformed);
            }
            trie.complete = field.scalar != 0;
        }
        rest = next;
    }
    Ok(trie)
}

/// Reads a state response from its bytes.
pub fn decode_response_message(buf: &[u8]) -> (r: Result<StateResponse, DecodingError>)
    ensures
        match state_response_of(buf@) {
            Some(v) => r.is_ok() && r.unwrap()@ == v,
            None => r == Err::<StateResponse, DecodingError>(DecodingError::Malformed),
        },
{
    let mut response = StateResponse { entries: Vec::new(), proof: Vec::new() };
    let mut rest = buf;
    proof {
        assert(response@.entries == Seq::<KeyValueStateEntryView>::empty());
    }
    while rest.len() > 0
        invariant
            parse_response(rest@, response@) == parse_response(buf@, empty_response()),
        decreases rest@.len(),
    {
        let (field, next) = match read_field(rest, 100) {
            Ok(pair) => pair,
            Err(e) => {
                return Err(e);
            },
        };
        let ghost before = response@;
        if field.tag == 1 {
            if field.wire != 2 {
                return Err(DecodingError::Malformed);
            }
            let trie = match decode_key_value_state_entry(field.payload) {
                Ok(trie) => trie,
                Err(e) => {
                    return Err(e);
                },
            };
            response.entries.push(trie);
            proof {
                assert(response@.entries == before.entries.push(trie@));
            }
        } else if field.tag == 2 {
            if field.wire != 2 {
                return Err(DecodingError::Malformed);
            }
            response.proof = slice_to_vec(field.payload);
        }
        rest = next;
    }
    Ok(response)
}

/// A state entry on the wire: the key as field 1 and the value as field 2,
/// each unless it is empty.
pub open spec fn state_entry_wire(e: StateEntryView) -> Seq<u8> {
    (if e.key.len() > 0 {
        bytes_field(0x0a, e.key)
    } else {
        Seq::<u8>::empty()
    }) + (if e.value.len() > 0 {
        bytes_field(0x12, e.value)
    } else {
        Seq::<u8>::empty()
    })
}

/// The state entries of a trie on the wire, each as a field 2.
pub open spec fn repeated_entries_wire(entries: Seq<StateEntryView>) -> Seq<u8>
    decreases entries.len(),
{
    if entries.len() == 0 {
        Seq::<u8>::empty()
    } else {
        repeated_entries_wire(entries.drop_last()) + bytes_field(
            0x12,
            state_entry_wire(entries.last()),
        )
    }
}

/// A trie on the wire: the root as field 1 unless it is empty, the entries,
/// and field 3 only where the trie is complete.
pub open spec fn trie_wire(t: KeyValueStateEntryView) -> Seq<u8> {
    (if t.state_root.len() > 0 {
        bytes_field(0x0a, t.state_root)
    } else {
        Seq::<u8>::empty()
    }) + repeated_entries_wire(t.entries) + (if t.complete {
        seq![0x18u8, 0x01u8]
    } else {
        Seq::<u8>::empty()
    })
}

/// The tries of a state response on the wire, each as a field 1.
pub open spec fn repeated_tries_wire(tries: Seq<KeyValueStateEntryView>) -> Seq<u8>
    decreases tries.len(),
{
    if tries.len() == 0 {
        Seq::<u8>::empty()
    } else {
        repeated_tries_wire(tries.drop_last()) + bytes_field(0x0a, trie_wire(tries.last()))
    }
}

/// A state response on the wire: the tries, and the proof as field 2 unless
/// it is empty.
pub open spec fn state_response_wire(r: StateResponseView) -> Seq<u8> {
    repeated_tries_wire(r.entries) + (if r.proof.len() > 0 {
        bytes_field(0x12, r.proof)
    } else {
        Seq::<u8>::empty()
    })
}

/// The byte strings of the entry have lengths of 64 bits.
pub open spec fn entry_fits(e: StateEntryView) -> bool {
    e.key.len() <= u64::MAX && e.value.len() <= u64::MAX
}

/// The byte strings of the trie, and each of its entries on the wire, have
/// lengths of 64 bits.
pub open spec fn trie_fits(t: KeyValueStateEntryView) -> bool {
    &&& t.state_root.len() <= u64::MAX
    &&& forall|i: int|
        0 <= i < t.entries.len() ==> entry_fits(#[trigger] t.entries[i]) && state_entry_wire(
            t.entries[i],
        ).len() <= u64::MAX
}

/// The byte strings of the response, and each of its tries on the wire, have
/// lengths of 64 bits.
pub open spec fn response_fits(r: StateResponseView) -> bool {
    &&& r.proof.len() <= u64::MAX
    &&& forall|i: int|
        0 <= i < r.entries.len() ==> trie_fits(#[trigger] r.entries[i]) && trie_wire(
            r.entries[i],
        ).len() <= u64::MAX
}

/// The bytes of a state entry.
pub fn encode_state_entry(entry: &StateEntry) -> (bytes: Vec<u8>)
    ensures
        bytes@ == state_entry_wire(entry@),
{
    let mut buf: Vec<u8> = Vec::new();
    if entry.key.len() > 0 {
        put_bytes_field(&mut buf, 0x0a, entry.key.as_slice());
    }
    if entry.value.len() > 0 {
        put_bytes_field(&mut buf, 0x12, entry.value.as_slice());
    }
    proof {
        assert(buf@ =~= state_entry_wire(entry@));
    }
    buf
}

/// The bytes of the entries of one trie.
pub fn encode_key_value_state_entry(trie: &KeyValueStateEntry) -> (bytes: Vec<u8>)
    ensures
        bytes@ == trie_wire(trie@),
{
    let mut buf: Vec<u8> = Vec::new();
    if trie.state_root.len() > 0 {
        put_bytes_field(&mut buf, 0x0a, trie.state_root.as_slice());
    }
    let ghost head = buf@;
    let ghost entries = trie@.entries;
    let mut i: usize = 0;
    while i < trie.entries.len()
        invariant
            i <= trie.entries.len(),
            entries == trie@.entries,
            entries.len() == trie.entries.len(),
            buf@ == head + repeated_entries_wire(entries.take(i as int)),
        decreases trie.entries.len() - i,
    {
        let inner = encode_state_entry(&trie.entries[i]);
        put_bytes_field(&mut buf, 0x12, inner.as_slice());
        proof {
            assert(entries.take(i + 1).drop_last() == entries.take(i as int));
            assert(entries.take(i + 1).last() == trie.entries@[i as int]@);
        }
        i += 1;
    }
    proof {
        assert(entries.take(i as int) == entries);
    }
    if trie.complete {
        buf.push(0x18);
        buf.push(0x01);
    }
    proof {
        assert(buf@ =~= trie_wire(trie@));
    }
    buf
}

/// The bytes of a state response, as the peer that answers sends them.
pub fn encode_response_message(response: &StateResponse) -> (bytes: Vec<u8>)
    ensures
        bytes@ == state_response_wire(response@),
{
    let mut buf: Vec<u8> = Vec::new();
    let ghost tries = response@.entries;
    let mut i: usize = 0;
    while i < response.entries.len()
        invariant
            i <= response.entries.len(),
            tries == response@.entries,
            tries.len() == response.entries.len(),
            buf@ == repeated_tries_wire(tries.take(i as int)),
        decreases response.entries.len() - i,
    {
        let inner = encode_key_value_state_entry(&response.entries[i]);
        put_bytes_field(&mut buf, 0x0a, inner.as_slice());
        proof {
            assert(tries.take(i + 1).drop_last() == tries.take(i as int));
            assert(tries.take(i + 1).last() == response.entries@[i as int]@);
        }
        i += 1;
    }
    proof {
        assert(tries.take(i as int) == tries);
    }
    if response.proof.len() > 0 {
        put_bytes_field(&mut buf, 0x12, response.proof.as_slice());
    }
    proof {
        assert(buf@ =~= state_response_wire(response@));
    }
    buf
}

/// Reading the bytes of a state entry gives the entry back.
#[verifier::rlimit(60)]
#[verifier::spinoff_prover]
pub proof fn lemma_entry_round_trip(e: StateEntryView)
    requires
        entry_fits(e),
    ensures
        parse_entry(state_entry_wire(e), empty_entry()) == Some(e),
{
    let value = if e.value.len() > 0 {
        bytes_field(0x12, e.value)
    } else {
        Seq::<u8>::empty()
    };
    let with_key = StateEntryView { key: e.key, ..empty_entry() };
    if e.key.len() > 0 {
        lemma_bytes_field_round_trip(0x0a, e.key, value, 98);
    } else {
        assert(state_entry_wire(e) =~= value);
        assert(e.key =~= Seq::<u8>::empty());
    }
    assert(parse_entry(state_entry_wire(e), empty_entry()) == parse_entry(value, with_key));
    if e.value.len() > 0 {
        lemma_bytes_field_round_trip(0x12, e.value, Seq::<u8>::empty(), 98);
        assert(value + Seq::<u8>::empty() =~= value);
        assert((StateEntryView { value: e.value, ..with_key }) == e);
        assert(parse_entry(Seq::<u8>::empty(), e) == Some(e));
    } else {
        assert(e.value =~= Seq::<u8>::empty());
        assert(with_key == e);
    }
}

/// State entries that were written are read back in their order: they join
/// the entries read before them, and reading goes on behind them.
#[verifier::rlimit(60)]
#[verifier::spinoff_prover]
pub proof fn lemma_entries_round_trip(
    entries: Seq<StateEntryView>,
    tail: Seq<u8>,
    acc: KeyValueStateEntryView,
)
    requires
        forall|i: int|
            0 <= i < entries.len() ==> entry_fits(#[trigger] entries[i]) && state_entry_wire(
                entries[i],
            ).len() <= u64::MAX,
    ensures
        parse_trie(repeated_entries_wire(entries) + tail, acc) == parse_trie(
            tail,
            KeyValueStateEntryView { entries: acc.entries + entries, ..acc },
        ),
    decreases entries.len(),
{
    if entries.len() == 0 {
        assert(repeated_entries_wire(entries) + tail =~= tail);
        assert(acc.entries + entries =~= acc.entries);
    } else {
        let front = entries.drop_last();
        let last = entries.last();
        let field = bytes_field(0x12, state_entry_wire(last));
        assert forall|i: int| 0 <= i < front.len() implies entry_fits(#[trigger] front[i])
            && state_entry_wire(front[i]).len() <= u64::MAX by {
            assert(front[i] == entries[i]);
        }
        lemma_entries_round_trip(front, field + tail, acc);
        assert(repeated_entries_wire(entries) + tail =~= repeated_entries_wire(front) + (field
            + tail));
        assert(entry_fits(entries[entries.len() - 1]));
        let mid = KeyValueStateEntryView { entries: acc.entries + front, ..acc };
        let next = KeyValueStateEntryView { entries: acc.entries + entries, ..acc };
        let s = field + tail;
        let f = FieldView {
            tag: 2,
            wire: 2,
            scalar: 0,
            payload: state_entry_wire(last),
            consumed: field.len(),
        };
        assert(parse_trie(s, mid) == parse_trie(tail, next)) by {
            lemma_bytes_field_round_trip(0x12, state_entry_wire(last), tail, 99);
            lemma_entry_round_trip(last);
            assert(field_prefix(s, 99) == Some(f));
            assert(s.skip(f.consumed as int) == tail);
            assert(field.len() > 0 && s.len() >= field.len());
            assert((acc.entries + front).push(last) =~= acc.entries + entries);
            assert(merge_trie(mid, f) == Some(next));
        }
    }
}

/// Reading the bytes of a trie gives the trie back.
#[verifier::rlimit(60)]
#[verifier::spinoff_prover]
pub proof fn lemma_trie_round_trip(t: KeyValueStateEntryView)
    requires
        trie_fits(t),
    ensures
        parse_trie(trie_wire(t), empty_trie()) == Some(t),
{
    let entries = repeated_entries_wire(t.entries);
    let mark = if t.complete {
        seq![0x18u8, 0x01u8]
    } else {
        Seq::<u8>::empty()
    };
    let with_root = KeyValueStateEntryView { state_root: t.state_root, ..empty_trie() };
    if t.state_root.len() > 0 {
        lemma_bytes_field_round_trip(0x0a, t.state_root, entries + mark, 99);
        assert(trie_wire(t) =~= bytes_field(0x0a, t.state_root) + (entries + mark));
    } else {
        assert(trie_wire(t) =~= entries + mark);
        assert(t.state_root =~= Seq::<u8>::empty());
    }
    assert(parse_trie(trie_wire(t), empty_trie()) == parse_trie(entries + mark, with_root));
    lemma_entries_round_trip(t.entries, mark, with_root);
    let with_entries = KeyValueStateEntryView { entries: t.entries, ..with_root };
    assert(with_root.entries + t.entries =~= t.entries);
    assert(parse_trie(entries + mark, with_root) == parse_trie(mark, with_entries));
    if t.complete {
        lemma_flag_round_trip(99);
        assert(parse_trie(mark.skip(2), t) == Some(t));
        assert((KeyValueStateEntryView { complete: true, ..with_entries }) == t);
    } else {
        assert(with_entries == t);
    }
}

/// Tries that were written are read back in their order: they join the tries
/// read before them, and reading goes on behind them.
#[verifier::rlimit(60)]
#[verifier::spinoff_prover]
pub proof fn lemma_tries_round_trip(
    tries: Seq<KeyValueStateEntryView>,
    tail: Seq<u8>,
    acc: StateResponseView,
)
    requires
        forall|i: int|
            0 <= i < tries.len() ==> trie_fits(#[trigger] tries[i]) && trie_wire(tries[i]).len()
                <= u64::MAX,
    ensures
        parse_response(repeated_tries_wire(tries) + tail, acc) == parse_response(
            tail,
            StateResponseView { entries: acc.entries + tries, ..acc },
        ),
    decreases tries.len(),
{
    if tries.len() == 0 {
        assert(repeated_tries_wire(tries) + tail =~= tail);
        assert(acc.entries + tries =~= acc.entries);
    } else {
        let front = tries.drop_last();
        let last = tries.last();
        let field = bytes_field(0x0a, trie_wire(last));
        assert forall|i: int| 0 <= i < front.len() implies trie_fits(#[trigger] front[i])
            && trie_wire(front[i]).len() <= u64::MAX by {
            assert(front[i] == tries[i]);
        }
        lemma_tries_round_trip(front, field + tail, acc);
        assert(repeated_tries_wire(tries) + tail =~= repeated_tries_wire(front) + (field + tail));
        assert(trie_fits(tries[tries.len() - 1]));
        let mid = StateResponseView { entries: acc.entries + front, ..acc };
        let next = StateResponseView { entries: acc.entries + tries, ..acc };
        let s = field + tail;
        let f = FieldView {
            tag: 1,
            wire: 2,
            scalar: 0,
            payload: trie_wire(last),
            consumed: field.len(),
        };
        assert(parse_response(s, mid) == parse_response(tail, next)) by {
            lemma_bytes_field_round_trip(0x0a, trie_wire(last), tail, 100);
            lemma_trie_round_trip(last);
            assert(field_prefix(s, 100) == Some(f));
            assert(s.skip(f.consumed as int) == tail);
            assert(field.len() > 0 && s.len() >= field.len());
            assert((acc.entries + front).push(last) =~= acc.entries + tries);
            assert(merge_response(mid, f) == Some(next));
        }
    }
}

/// Reading the bytes of a state response gives the response back, whatever
/// the response, as long as each byte string and each nested message on the
/// wire has a length of 64 bits.
#[verifier::rlimit(60)]
#[verifier::spinoff_prover]
pub proof fn lemma_response_round_trip(response: StateResponseView)
    requires
        response_fits(response),
    ensures
        state_response_of(state_response_wire(response)) == Some(response),
{
    let proof_field = if response.proof.len() > 0 {
        bytes_field(0x12, response.proof)
    } else {
        Seq::<u8>::empty()
    };
    lemma_tries_round_trip(response.entries, proof_field, empty_response());
    let with_tries = StateResponseView { entries: response.entries, ..empty_response() };
    assert(empty_response().entries + response.entries =~= response.entries);
    assert(state_response_of(state_response_wire(response)) == parse_response(
        proof_field,
        with_tries,
    ));
    if response.proof.len() > 0 {
        lemma_bytes_field_round_trip(0x12, response.proof, Seq::<u8>::empty(), 100);
        assert(proof_field + Seq::<u8>::empty() =~= proof_field);
        assert((StateResponseView { proof: response.proof, ..with_tries }) == response);
        assert(parse_response(Seq::<u8>::empty(), response) == Some(response));
    } else {
        assert(response.proof =~= Seq::<u8>::empty());
        assert(with_tries == response);
    }
}

/// Reads a state response from `response` and wraps it: succeeds exactly on
/// the bytes that stand for a state response, with that response inside.
pub fn decode_state_response(response: &[u8]) -> (r: Result<OpaqueStateResponse, DecodingError>)
    ensures
        match state_response_of(response@) {
            Some(v) => r.is_ok() && (r.unwrap().0 matches Payload::StateResponse(message)
                && message@ == v),
            None => r == Err::<OpaqueStateResponse, DecodingError>(DecodingError::Malformed),
        },
{
    match decode_response_message(response) {
        Ok(message) => Ok(OpaqueStateResponse::wrap(Payload::StateResponse(message))),
        Err(e) => Err(e),
    }
}

} // verus!
