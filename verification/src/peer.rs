//! What the engine keeps about a connected peer.

use vstd::prelude::*;
use crate::types::{BlockHash, ExtendedPeerInfo};

verus! {

/// A set of block hashes that holds at most `limit` of them and, when full,
/// gives up the one that was inserted or touched longest ago.
#[derive(Clone, Debug)]
pub struct LruHashSet {
    items: Vec<BlockHash>,
    limit: usize,
}

/// The hashes of `s`, oldest first, after `hash` was inserted with room for
/// `limit`: a hash that is there moves to the young end; a new one joins at
/// the young end, and the oldest leaves where the set was full.
pub open spec fn lru_insert(s: Seq<BlockHash>, hash: BlockHash, limit: nat) -> Seq<BlockHash> {
    if s.contains(hash) {
        s.remove(s.index_of(hash)).push(hash)
    } else if s.len() >= limit {
        s.drop_first().push(hash)
    } else {
        s.push(hash)
    }
}

impl View for LruHashSet {
    type V = Seq<BlockHash>;

    closed spec fn view(&self) -> Seq<BlockHash> {
        self.items@
    }
}

impl LruHashSet {
    /// The number of hashes that the set has room for.
    pub closed spec fn limit(&self) -> nat {
        self.limit as nat
    }

    /// The set holds no hash twice and no more than it has room for.
    pub open spec fn wf(&self) -> bool {
        &&& 0 < self.limit()
        &&& self@.len() <= self.limit()
        &&& self@.no_duplicates()
    }

    /// An empty set with room for `limit` hashes.
    pub fn new(limit: usize) -> (set: Self)
        requires
            limit > 0,
        ensures
            set.wf(),
            set.limit() == limit,
            set@ == Seq::<BlockHash>::empty(),
    {
        LruHashSet { items: Vec::new(), limit }
    }

    /// The number of hashes in the set.
    pub fn len(&self) -> (n: usize)
        ensures
            n == self@.len(),
    {
        self.items.len()
    }

    /// Whether `hash` is in the set.
    pub fn contains(&self, hash: BlockHash) -> (found: bool)
        ensures
            found == self@.contains(hash),
    {
        let mut i: usize = 0;
        while i < self.items.len()
            invariant
                i <= self.items.len(),
                forall|j: int| 0 <= j < i ==> self.items@[j] != hash,
            decreases self.items.len() - i,
        {
            if self.items[i] == hash {
                return true;
            }
            i += 1;
        }
        false
    }

    /// Inserts `hash` as the youngest. Returns whether it was new to the set.
    pub fn insert(&mut self, hash: BlockHash) -> (inserted: bool)
        requires
            old(self).wf(),
        ensures
            final(self).wf(),
            final(self).limit() == old(self).limit(),
            inserted == !old(self)@.contains(hash),
            final(self)@ == lru_insert(old(self)@, hash, old(self).limit()),
            final(self)@.last() == hash,
    {
        let ghost s = self.items@;
        let mut i: usize = 0;
        let mut at: Option<usize> = None;
        while i < self.items.len() && at.is_none()
            invariant
                i <= self.items.len(),
                self.items@ == s,
                at matches Some(k) ==> k < s.len() && s[k as int] == hash,
                at.is_none() ==> forall|j: int| 0 <= j < i ==> s[j] != hash,
            decreases self.items.len() - i + (if at.is_none() { 1int } else { 0int }),
        {
            if self.items[i] == hash {
                at = Some(i);
            } else {
                i += 1;
            }
        }
        match at {
            Some(k) => {
                proof {
                    assert(s[k as int] == hash);
                    assert(s.contains(hash));
                    let idx = s.index_of(hash);
                    assert(idx == k);
                }
                self.items.remove(k);
                self.items.push(hash);
                proof {
                    let t = s.remove(k as int);
                    assert forall|a: int, b: int| 0 <= a < t.len() && 0 <= b < t.len() && a != b implies t[a] != t[b] by {
                        let a2 = if a < k { a } else { a + 1 };
                        let b2 = if b < k { b } else { b + 1 };
                        assert(t[a] == s[a2] && t[b] == s[b2]);
                    }
                    assert forall|a: int| 0 <= a < t.len() implies t[a] != hash by {
                        let a2 = if a < k { a } else { a + 1 };
                        assert(t[a] == s[a2]);
                    }
                    assert(self.items@ == t.push(hash));
                }
                false
            },
            None => {
                if self.items.len() >= self.limit {
                    self.items.remove(0);
                    proof {
                        assert(self.items@ == s.drop_first());
                    }
                }
                self.items.push(hash);
                true
            },
        }
    }
}

/// A connected peer.
#[derive(Clone, Debug)]
pub struct Peer {
    /// What the transport layer told about the peer.
    pub info: ExtendedPeerInfo,
    /// The blocks that the peer is believed to have.
    pub known_blocks: LruHashSet,
}

} // verus!
