use fast_sync::codec::{
    decode_request_message, decode_response_message, encode_request_message,
    encode_response_message,
};
use fast_sync::schema::{KeyValueStateEntry, StateEntry, StateRequest, StateResponse};
use prost::bytes::{Buf, BufMut};
use prost::encoding::{DecodeContext, WireType};
use prost::{DecodeError, Message};

#[derive(Clone, Debug, Default, PartialEq)]
struct ProstEntry {
    key: Vec<u8>,
    value: Vec<u8>,
}

#[derive(Clone, Debug, Default, PartialEq)]
struct ProstTrie {
    state_root: Vec<u8>,
    entries: Vec<ProstEntry>,
    complete: bool,
}

#[derive(Clone, Debug, Default, PartialEq)]
struct ProstResponse {
    entries: Vec<ProstTrie>,
    proof: Vec<u8>,
}

#[derive(Clone, Debug, Default, PartialEq)]
struct ProstRequest {
    block: Vec<u8>,
    start: Vec<Vec<u8>>,
    no_proof: bool,
}

impl Message for ProstEntry {
    fn encode_raw<B>(&self, buf: &mut B)
    where
        B: BufMut,
    {
        if !self.key.is_empty() {
            prost::encoding::bytes::encode(1, &self.key, buf);
        }
        if !self.value.is_empty() {
            prost::encoding::bytes::encode(2, &self.value, buf);
        }
    }

    fn merge_field<B>(
        &mut self,
        tag: u32,
        wire_type: WireType,
        buf: &mut B,
        ctx: DecodeContext,
    ) -> Result<(), DecodeError>
    where
        B: Buf,
    {
        match tag {
            1 => prost::encoding::bytes::merge(wire_type, &mut self.key, buf, ctx),
            2 => prost::encoding::bytes::merge(wire_type, &mut self.value, buf, ctx),
            _ => prost::encoding::skip_field(wire_type, tag, buf, ctx),
        }
    }

    fn encoded_len(&self) -> usize {
        let mut len = 0;
        if !self.key.is_empty() {
            len += prost::encoding::bytes::encoded_len(1, &self.key);
        }
        if !self.value.is_empty() {
            len += prost::encoding::bytes::encoded_len(2, &self.value);
        }
        len
    }

    fn clear(&mut self) {
        self.key.clear();
        self.value.clear();
    }
}

impl Message for ProstTrie {
    fn encode_raw<B>(&self, buf: &mut B)
    where
        B: BufMut,
    {
        if !self.state_root.is_empty() {
            prost::encoding::bytes::encode(1, &self.state_root, buf);
        }
        prost::encoding::message::encode_repeated(2, &self.entries, buf);
        if self.complete {
            prost::encoding::bool::encode(3, &self.complete, buf);
        }
    }

    fn merge_field<B>(
        &mut self,
        tag: u32,
        wire_type: WireType,
        buf: &mut B,
        ctx: DecodeContext,
    ) -> Result<(), DecodeError>
    where
        B: Buf,
    {
        match tag {
            1 => prost::encoding::bytes::merge(wire_type, &mut self.state_root, buf, ctx),
            2 => prost::encoding::message::merge_repeated(wire_type, &mut self.entries, buf, ctx),
            3 => prost::encoding::bool::merge(wire_type, &mut self.complete, buf, ctx),
            _ => prost::encoding::skip_field(wire_type, tag, buf, ctx),
        }
    }

    fn encoded_len(&self) -> usize {
        let mut len = prost::encoding::message::encoded_len_repeated(2, &self.entries);
        if !self.state_root.is_empty() {
            len += prost::encoding::bytes::encoded_len(1, &self.state_root);
        }
        if self.complete {
            len += prost::encoding::bool::encoded_len(3, &self.complete);
        }
        len
    }

    fn clear(&mut self) {
        self.state_root.clear();
        self.entries.clear();
        self.complete = false;
    }
}

impl Message for ProstResponse {
    fn encode_raw<B>(&self, buf: &mut B)
    where
        B: BufMut,
    {
        prost::encoding::message::encode_repeated(1, &self.entries, buf);
        if !self.proof.is_empty() {
            prost::encoding::bytes::encode(2, &self.proof, buf);
        }
    }

    fn merge_field<B>(
        &mut self,
        tag: u32,
        wire_type: WireType,
        buf: &mut B,
        ctx: DecodeContext,
    ) -> Result<(), DecodeError>
    where
        B: Buf,
    {
        match tag {
            1 => prost::encoding::message::merge_repeated(wire_type, &mut self.entries, buf, ctx),
            2 => prost::encoding::bytes::merge(wire_type, &mut self.proof, buf, ctx),
            _ => prost::encoding::skip_field(wire_type, tag, buf, ctx),
        }
    }

    fn encoded_len(&self) -> usize {
        let mut len = prost::encoding::message::encoded_len_repeated(1, &self.entries);
        if !self.proof.is_empty() {
            len += prost::encoding::bytes::encoded_len(2, &self.proof);
        }
        len
    }

    fn clear(&mut self) {
        self.entries.clear();
        self.proof.clear();
    }
}

impl Message for ProstRequest {
    fn encode_raw<B>(&self, buf: &mut B)
    where
        B: BufMut,
    {
        if !self.block.is_empty() {
            prost::encoding::bytes::encode(1, &self.block, buf);
        }
        prost::encoding::bytes::encode_repeated(2, &self.start, buf);
        if self.no_proof {
            prost::encoding::bool::encode(3, &self.no_proof, buf);
        }
    }

    fn merge_field<B>(
        &mut self,
        tag: u32,
        wire_type: WireType,
        buf: &mut B,
        ctx: DecodeContext,
    ) -> Result<(), DecodeError>
    where
        B: Buf,
    {
        match tag {
            1 => prost::encoding::bytes::merge(wire_type, &mut self.block, buf, ctx),
            2 => prost::encoding::bytes::merge_repeated(wire_type, &mut self.start, buf, ctx),
            3 => prost::encoding::bool::merge(wire_type, &mut self.no_proof, buf, ctx),
            _ => prost::encoding::skip_field(wire_type, tag, buf, ctx),
        }
    }

    fn encoded_len(&self) -> usize {
        let mut len = prost::encoding::bytes::encoded_len_repeated(2, &self.start);
        if !self.block.is_empty() {
            len += prost::encoding::bytes::encoded_len(1, &self.block);
        }
        if self.no_proof {
            len += prost::encoding::bool::encoded_len(3, &self.no_proof);
        }
        len
    }

    fn clear(&mut self) {
        self.block.clear();
        self.start.clear();
        self.no_proof = false;
    }
}

fn to_library_response(response: ProstResponse) -> StateResponse {
    StateResponse {
        entries: response
            .entries
            .into_iter()
            .map(|trie| KeyValueStateEntry {
                state_root: trie.state_root,
                entries: trie
                    .entries
                    .into_iter()
                    .map(|entry| StateEntry { key: entry.key, value: entry.value })
                    .collect(),
                complete: trie.complete,
            })
            .collect(),
        proof: response.proof,
    }
}

fn to_library_request(request: ProstRequest) -> StateRequest {
    StateRequest { block: request.block, start: request.start, no_proof: request.no_proof }
}

fn agree_on(bytes: &[u8]) {
    let theirs = ProstResponse::decode(bytes).ok().map(to_library_response);
    let ours = decode_response_message(bytes).ok();
    assert_eq!(ours, theirs, "response bytes {:?}", bytes);
    let theirs = ProstRequest::decode(bytes).ok().map(to_library_request);
    let ours = decode_request_message(bytes).ok();
    assert_eq!(ours, theirs, "request bytes {:?}", bytes);
}

fn next(state: &mut u64) -> u64 {
    *state = state.wrapping_mul(6364136223846793005).wrapping_add(1442695040888963407);
    *state >> 33
}

fn sample() -> ProstResponse {
    ProstResponse {
        entries: vec![
            ProstTrie {
                state_root: vec![],
                entries: vec![
                    ProstEntry { key: vec![1, 2, 3], value: vec![9; 130] },
                    ProstEntry { key: vec![4], value: vec![] },
                ],
                complete: false,
            },
            ProstTrie {
                state_root: vec![0xaa; 4],
                entries: vec![ProstEntry { key: vec![7], value: vec![8] }],
                complete: true,
            },
        ],
        proof: vec![5, 6],
    }
}

#[test]
fn encoders_agree_with_prost() {
    let response = sample();
    assert_eq!(
        encode_response_message(&to_library_response(response.clone())),
        response.encode_to_vec()
    );
    let request =
        ProstRequest { block: vec![1; 32], start: vec![vec![2; 140], vec![]], no_proof: true };
    assert_eq!(
        encode_request_message(&to_library_request(request.clone())),
        request.encode_to_vec()
    );
    assert_eq!(
        encode_request_message(&StateRequest::default()),
        ProstRequest::default().encode_to_vec()
    );
}

#[test]
fn decoders_agree_with_prost_on_every_cut() {
    let bytes = sample().encode_to_vec();
    for cut in 0..=bytes.len() {
        agree_on(&bytes[..cut]);
        agree_on(&bytes[cut..]);
    }
}

#[test]
fn decoders_agree_with_prost_on_damaged_bytes() {
    let bytes = sample().encode_to_vec();
    let values = [0x00u8, 0x01, 0x02, 0x08, 0x0a, 0x12, 0x18, 0x1a, 0x23, 0x24, 0x7f, 0x80, 0xff];
    for at in 0..bytes.len() {
        for value in values {
            let mut damaged = bytes.clone();
            damaged[at] = value;
            agree_on(&damaged);
        }
    }
}

#[test]
fn decoders_agree_with_prost_on_arbitrary_bytes() {
    let alphabet = [
        0x00u8, 0x01, 0x02, 0x03, 0x04, 0x05, 0x08, 0x09, 0x0a, 0x0b, 0x0c, 0x0d, 0x10, 0x12,
        0x13, 0x14, 0x15, 0x18, 0x19, 0x1a, 0x1b, 0x1c, 0x20, 0x23, 0x24, 0x2b, 0x2c, 0x7f, 0x80,
        0x81, 0xfe, 0xff,
    ];
    let mut state = 7u64;
    for _ in 0..40000 {
        let len = (next(&mut state) % 14) as usize;
        let bytes: Vec<u8> = (0..len)
            .map(|_| alphabet[(next(&mut state) % alphabet.len() as u64) as usize])
            .collect();
        agree_on(&bytes);
    }
}

#[test]
fn decoders_agree_with_prost_on_deep_groups() {
    for depth in [97usize, 98, 99, 100, 101] {
        let mut group = vec![0x2b; depth];
        group.extend_from_slice(&vec![0x2c; depth]);
        agree_on(&group);
        // the same group inside an entry of a trie
        let mut entry = vec![0x0a, 1, 7];
        entry.extend_from_slice(&group);
        let mut trie = Vec::new();
        prost::encoding::bytes::encode(2, &entry, &mut trie);
        let mut response = Vec::new();
        prost::encoding::bytes::encode(1, &trie, &mut response);
        agree_on(&response);
        // and inside the trie itself
        let mut trie = vec![0x18, 1];
        trie.extend_from_slice(&group);
        let mut response = Vec::new();
        prost::encoding::bytes::encode(1, &trie, &mut response);
        agree_on(&response);
    }
}
