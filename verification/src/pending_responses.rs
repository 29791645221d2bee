//! The requests that are out and not yet answered.

use vstd::prelude::*;
use crate::types::{PeerId, PeerRequest};

verus! {

/// One outstanding request: the peer it went to and its kind.
#[derive(Clone, Copy, Debug, PartialEq, Eq, Structural)]
pub struct PendingEntry {
    /// The peer that the request was sent to.
    pub peer_id: PeerId,
    /// The kind of the request.
    pub request: PeerRequest,
}

/// The outstanding requests, oldest first.
#[derive(Debug)]
pub struct PendingResponses {
    entries: Vec<PendingEntry>,
}

/// The entries of `s` that do not belong to `peer_id`, in their order.
pub open spec fn without_peer(s: Seq<PendingEntry>, peer_id: PeerId) -> Seq<PendingEntry> {
    s.filter(|e: PendingEntry| e.peer_id != peer_id)
}

/// The index of the oldest entry of `s` that equals `entry`, or the length of
/// `s` if there is none.
pub open spec fn first_index_of(s: Seq<PendingEntry>, entry: PendingEntry) -> int
    decreases s.len(),
{
    if s.len() == 0 {
        0
    } else if s[0] == entry {
        0
    } else {
        1 + first_index_of(s.drop_first(), entry)
    }
}

/// `s` without the oldest entry that equals `entry`; `s` itself if there is
/// none.
pub open spec fn without_first(s: Seq<PendingEntry>, entry: PendingEntry) -> Seq<PendingEntry> {
    let i = first_index_of(s, entry);
    if i < s.len() {
        s.remove(i)
    } else {
        s
    }
}

/// The index that `first_index_of` gives lies in the sequence exactly if the
/// entry occurs, holds the entry then, and nothing before it does.
pub proof fn lemma_first_index_of(s: Seq<PendingEntry>, entry: PendingEntry)
    ensures
        0 <= first_index_of(s, entry) <= s.len(),
        first_index_of(s, entry) < s.len() <==> s.contains(entry),
        first_index_of(s, entry) < s.len() ==> s[first_index_of(s, entry)] == entry,
        forall|j: int| 0 <= j < first_index_of(s, entry) ==> s[j] != entry,
    decreases s.len(),
{
    if s.len() == 0 {
    } else if s[0] == entry {
    } else {
        let t = s.drop_first();
        lemma_first_index_of(t, entry);
        let i = first_index_of(t, entry);
        if i < t.len() {
            assert(s[i + 1] == t[i]);
        }
        if s.contains(entry) {
            let k = choose|k: int| 0 <= k < s.len() && s[k] == entry;
            assert(t[k - 1] == entry);
        }
        assert forall|j: int| 0 <= j < first_index_of(s, entry) implies s[j] != entry by {
            if j > 0 {
                assert(s[j] == t[j - 1]);
            }
        }
    }
}

/// Dropping a peer's entries a second time changes nothing.
pub proof fn lemma_without_peer_idempotent(s: Seq<PendingEntry>, peer_id: PeerId)
    ensures
        without_peer(without_peer(s, peer_id), peer_id) == without_peer(s, peer_id),
    decreases s.len(),
{
    let pred = |e: PendingEntry| e.peer_id != peer_id;
    reveal(Seq::filter);
    if s.len() > 0 {
        let front = s.drop_last();
        lemma_without_peer_idempotent(front, peer_id);
        if pred(s.last()) {
            let kept = front.filter(pred);
            assert(kept.push(s.last()).drop_last() == kept);
        }
    }
}

/// Dropping a peer's entries leaves the entries of every other peer in
/// place: an entry of another peer is outstanding afterwards exactly if it
/// was before.
pub proof fn lemma_without_peer_keeps_others(
    s: Seq<PendingEntry>,
    peer_id: PeerId,
    entry: PendingEntry,
)
    requires
        entry.peer_id != peer_id,
    ensures
        without_peer(s, peer_id).contains(entry) == s.contains(entry),
    decreases s.len(),
{
    let pred = |e: PendingEntry| e.peer_id != peer_id;
    reveal(Seq::filter);
    if s.len() > 0 {
        let front = s.drop_last();
        let last = s.last();
        lemma_without_peer_keeps_others(front, peer_id, entry);
        let kept = front.filter(pred);
        if s.contains(entry) {
            let i = choose|i: int| 0 <= i < s.len() && s[i] == entry;
            if i < front.len() {
                assert(front[i] == entry);
                assert(front.contains(entry));
                let j = choose|j: int| 0 <= j < kept.len() && kept[j] == entry;
                if pred(last) {
                    assert(kept.push(last)[j] == entry);
                }
            } else {
                assert(last == entry);
                assert(kept.push(last)[kept.len() as int] == entry);
            }
        }
        if without_peer(s, peer_id).contains(entry) {
            let t = without_peer(s, peer_id);
            let j = choose|j: int| 0 <= j < t.len() && t[j] == entry;
            if pred(last) && j == kept.len() {
                assert(s[s.len() - 1] == entry);
            } else {
                assert(kept[j] == entry);
                assert(kept.contains(entry));
                let i = choose|i: int| 0 <= i < front.len() && front[i] == entry;
                assert(s[i] == entry);
            }
        }
    }
}

impl View for PendingResponses {
    type V = Seq<PendingEntry>;

    closed spec fn view(&self) -> Seq<PendingEntry> {
        self.entries@
    }
}

impl PendingResponses {
    /// A tracker with nothing outstanding.
    pub fn new() -> (tracker: Self)
        ensures
            tracker@ == Seq::<PendingEntry>::empty(),
    {
        PendingResponses { entries: Vec::new() }
    }

    /// The number of outstanding requests.
    pub fn len(&self) -> (n: usize)
        ensures
            n == self@.len(),
    {
        self.entries.len()
    }

    /// Whether nothing is outstanding.
    pub fn is_empty(&self) -> (empty: bool)
        ensures
            empty == (self@.len() == 0),
    {
        self.entries.len() == 0
    }

    /// Whether a request to `peer_id` is outstanding.
    pub fn has_peer(&self, peer_id: PeerId) -> (found: bool)
        ensures
            found == exists|i: int| 0 <= i < self@.len() && self@[i].peer_id == peer_id,
    {
        let mut i: usize = 0;
        while i < self.entries.len()
            invariant
                i <= self.entries.len(),
                forall|j: int| 0 <= j < i ==> self.entries@[j].peer_id != peer_id,
            decreases self.entries.len() - i,
        {
            if self.entries[i].peer_id == peer_id {
                return true;
            }
            i += 1;
        }
        false
    }

    /// Registers one outstanding request as the youngest.
    pub fn insert(&mut self, peer_id: PeerId, request: PeerRequest)
        ensures
            final(self)@ == old(self)@.push(PendingEntry { peer_id, request }),
    {
        self.entries.push(PendingEntry { peer_id, request });
    }

    /// Drops every outstanding request to `peer_id` and keeps the others in
    /// their order. Returns how many were dropped.
    pub fn remove(&mut self, peer_id: PeerId) -> (dropped: usize)
        ensures
            final(self)@ == without_peer(old(self)@, peer_id),
            forall|i: int| 0 <= i < final(self)@.len() ==> final(self)@[i].peer_id != peer_id,
            dropped == old(self)@.len() - final(self)@.len(),
    {
        let ghost pred = |e: PendingEntry| e.peer_id != peer_id;
        let mut kept: Vec<PendingEntry> = Vec::new();
        let mut i: usize = 0;
        while i < self.entries.len()
            invariant
                i <= self.entries.len(),
                self.entries@ == old(self).entries@,
                pred == |e: PendingEntry| e.peer_id != peer_id,
                kept@ == self.entries@.take(i as int).filter(pred),
                kept@.len() <= i,
                forall|j: int| 0 <= j < kept@.len() ==> kept@[j].peer_id != peer_id,
            decreases self.entries.len() - i,
        {
            let e = self.entries[i];
            proof {
                assert(self.entries@.take(i + 1).drop_last() == self.entries@.take(i as int));
                reveal(Seq::filter);
            }
            if e.peer_id != peer_id {
                kept.push(e);
            }
            i += 1;
        }
        proof {
            assert(self.entries@.take(i as int) == self.entries@);
        }
        let dropped = self.entries.len() - kept.len();
        self.entries = kept;
        dropped
    }

    /// Consumes the oldest outstanding request of the given peer and kind, as
    /// its completion does. Returns whether there was one.
    pub fn complete(&mut self, peer_id: PeerId, request: PeerRequest) -> (found: bool)
        ensures
            found == old(self)@.contains(PendingEntry { peer_id, request }),
            final(self)@ == without_first(old(self)@, PendingEntry { peer_id, request }),
            found ==> final(self)@.len() + 1 == old(self)@.len(),
    {
        let ghost entry = PendingEntry { peer_id, request };
        let ghost s = self.entries@;
        proof {
            lemma_first_index_of(s, entry);
        }
        let mut i: usize = 0;
        while i < self.entries.len()
            invariant
                i <= self.entries.len(),
                self.entries@ == s,
                s == old(self).entries@,
                entry == (PendingEntry { peer_id, request }),
                forall|j: int| 0 <= j < i ==> s[j] != entry,
                0 <= first_index_of(s, entry) <= s.len(),
                first_index_of(s, entry) < s.len() ==> s[first_index_of(s, entry)] == entry,
                forall|j: int| 0 <= j < first_index_of(s, entry) ==> s[j] != entry,
                first_index_of(s, entry) < s.len() <==> s.contains(entry),
            decreases self.entries.len() - i,
        {
            let e = self.entries[i];
            if e.peer_id == peer_id && e.request == request {
                assert(s[i as int] == entry);
                assert(first_index_of(s, entry) == i);
                self.entries.remove(i);
                return true;
            }
            i += 1;
        }
        assert(first_index_of(s, entry) == s.len());
        false
    }
}

} // verus!
