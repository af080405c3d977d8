//! Relay server bookkeeping: id assignment and rebroadcast targets.
//!
//! The server accepts up to a configured number of concurrent peers, hands
//! each new connection the next id from a counter that only ever grows, and
//! forwards every received payload, unmodified, to every peer other than its
//! sender. Each peer is identified by a stable per-connection handle chosen by
//! the transport layer.

use vstd::prelude::*;
use vstd::bytes::spec_u32_to_le_bytes;
use crate::codec::encode_handshake;

verus! {

/// One connected peer: the id the server assigned and the transport's stable
/// handle for the connection.
#[derive(Clone, Copy, PartialEq, Eq, Structural, Debug)]
pub struct PeerEntry {
    pub id: u32,
    pub handle: u64,
}

/// Mathematical model of a [`RelayServer`].
pub struct RelayServerView {
    pub next_id: u32,
    pub max_peers: int,
    pub peers: Seq<PeerEntry>,
}

/// A payload to hand to the transport: send `data` to the peer whose handle
/// is `to`.
#[derive(PartialEq, Eq, Debug)]
pub struct Outbound {
    pub to: u64,
    pub data: Vec<u8>,
}

/// Every peer id lies below `bound`.
pub open spec fn ids_below(peers: Seq<PeerEntry>, bound: u32) -> bool {
    forall|i: int| 0 <= i < peers.len() ==> peers[i].id < bound
}

/// Peer ids are pairwise distinct.
pub open spec fn ids_distinct(peers: Seq<PeerEntry>) -> bool {
    forall|i: int, j: int| 0 <= i < j < peers.len() ==> peers[i].id != peers[j].id
}

/// A new connection is accepted while there is room for a peer and an id left
/// to assign.
pub open spec fn spec_accepts(s: RelayServerView) -> bool {
    s.peers.len() < s.max_peers && s.next_id < u32::MAX
}

/// The id handed to a connecting peer, when one is.
pub open spec fn spec_assigned_id(s: RelayServerView) -> Option<u32> {
    if spec_accepts(s) {
        Some(s.next_id)
    } else {
        None
    }
}

/// How a connection transforms the server: append the peer under the current
/// counter value and advance the counter, or leave everything unchanged when
/// the connection is refused.
pub open spec fn spec_connect(s: RelayServerView, handle: u64) -> RelayServerView {
    if spec_accepts(s) {
        RelayServerView {
            next_id: (s.next_id + 1) as u32,
            max_peers: s.max_peers,
            peers: s.peers.push(PeerEntry { id: s.next_id, handle }),
        }
    } else {
        s
    }
}

/// The peers left after the connection with the given handle goes away.
pub open spec fn spec_remove(peers: Seq<PeerEntry>, handle: u64) -> Seq<PeerEntry>
    decreases peers.len(),
{
    if peers.len() == 0 {
        Seq::empty()
    } else {
        spec_remove(peers.drop_last(), handle) + if peers.last().handle != handle {
            seq![peers.last()]
        } else {
            Seq::empty()
        }
    }
}

/// How a disconnect transforms the server: the matching peer leaves, the id
/// counter keeps its value (ids are never reused).
pub open spec fn spec_disconnect(s: RelayServerView, handle: u64) -> RelayServerView {
    RelayServerView { next_id: s.next_id, max_peers: s.max_peers, peers: spec_remove(s.peers, handle) }
}

/// The handles a received payload is forwarded to: every peer, in table
/// order, except the sender.
pub open spec fn spec_targets(peers: Seq<PeerEntry>, from: u64) -> Seq<u64>
    decreases peers.len(),
{
    if peers.len() == 0 {
        Seq::empty()
    } else {
        spec_targets(peers.drop_last(), from) + if peers.last().handle != from {
            seq![peers.last().handle]
        } else {
            Seq::empty()
        }
    }
}

/// Relay server state: the id counter and the table of connected peers.
pub struct RelayServer {
    next_id: u32,
    max_peers: usize,
    peers: Vec<PeerEntry>,
}

impl View for RelayServer {
    type V = RelayServerView;

    closed spec fn view(&self) -> RelayServerView {
        RelayServerView {
            next_id: self.next_id,
            max_peers: self.max_peers as int,
            peers: self.peers@,
        }
    }
}

impl RelayServer {
    /// Assigned ids are distinct, below the counter, and the peer table never
    /// exceeds its configured bound.
    pub open spec fn wf(self) -> bool {
        &&& ids_distinct(self@.peers)
        &&& ids_below(self@.peers, self@.next_id)
        &&& self@.peers.len() <= self@.max_peers
    }

    /// A fresh server: no peers, ids start at 0.
    pub fn new(max_peers: usize) -> (r: Self)
        ensures
            r@.next_id == 0,
            r@.max_peers == max_peers,
            r@.peers == Seq::<PeerEntry>::empty(),
            r.wf(),
    {
        RelayServer { next_id: 0, max_peers, peers: Vec::new() }
    }

    pub fn peer_count(&self) -> (n: usize)
        ensures
            n == self@.peers.len(),
    {
        self.peers.len()
    }

    /// Accepts a connection: assigns the next id, never one assigned before,
    /// and returns it with the 4-byte handshake payload to send to the new
    /// peer over the reliable channel. Returns `None`, leaving the server
    /// unchanged, when the peer table is full (or the 32-bit id space is
    /// exhausted).
    pub fn on_connect(&mut self, handle: u64) -> (r: Option<(u32, Vec<u8>)>)
        requires
            old(self).wf(),
        ensures
            final(self).wf(),
            final(self)@ == spec_connect(old(self)@, handle),
            match r {
                Some((id, payload)) => {
                    &&& spec_assigned_id(old(self)@) == Some(id)
                    &&& payload@ == spec_u32_to_le_bytes(id)
                },
                None => spec_assigned_id(old(self)@) is None,
            },
    {
        if self.peers.len() < self.max_peers && self.next_id < u32::MAX {
            let id = self.next_id;
            let payload = encode_handshake(id);
            self.peers.push(PeerEntry { id, handle });
            self.next_id = id + 1;
            Some((id, payload))
        } else {
            None
        }
    }

    /// Removes the peer whose connection handle matches; ids stay retired.
    pub fn on_disconnect(&mut self, handle: u64)
        requires
            old(self).wf(),
        ensures
            final(self).wf(),
            final(self)@ == spec_disconnect(old(self)@, handle),
    {
        let n = self.peers.len();
        let mut kept: Vec<PeerEntry> = Vec::new();
        let mut i: usize = 0;
        while i < n
            invariant
                i <= n,
                n == self.peers@.len(),
                kept@ == spec_remove(self.peers@.take(i as int), handle),
            decreases n - i,
        {
            let p = self.peers[i];
            proof {
                assert(self.peers@.take(i + 1 as int).drop_last() =~= self.peers@.take(i as int));
                assert(self.peers@.take(i + 1 as int).last() == p);
            }
            if p.handle != handle {
                kept.push(p);
            }
            i = i + 1;
        }
        proof {
            assert(self.peers@.take(n as int) =~= self.peers@);
            lemma_remove_keeps_entries(self.peers@, handle);
        }
        self.peers = kept;
    }

    /// The packets to transmit for a received payload: one copy of `data`,
    /// byte for byte, for every peer other than the sender.
    pub fn on_receive(&self, from: u64, data: &Vec<u8>) -> (out: Vec<Outbound>)
        ensures
            out@.len() == spec_targets(self@.peers, from).len(),
            forall|i: int|
                0 <= i < out@.len() ==> out@[i].to == spec_targets(self@.peers, from)[i]
                    && out@[i].data@ == data@,
    {
        let n = self.peers.len();
        let mut out: Vec<Outbound> = Vec::new();
        let mut i: usize = 0;
        while i < n
            invariant
                i <= n,
                n == self@.peers.len(),
                out@.len() == spec_targets(self@.peers.take(i as int), from).len(),
                forall|j: int|
                    0 <= j < out@.len() ==> out@[j].to == spec_targets(
                        self@.peers.take(i as int),
                        from,
                    )[j] && out@[j].data@ == data@,
            decreases n - i,
        {
            let p = self.peers[i];
            proof {
                assert(self@.peers.take(i + 1 as int).drop_last() =~= self@.peers.take(i as int));
                assert(self@.peers.take(i + 1 as int).last() == p);
            }
            if p.handle != from {
                out.push(Outbound { to: p.handle, data: copy_bytes(data) });
            }
            i = i + 1;
        }
        proof {
            assert(self@.peers.take(n as int) =~= self@.peers);
        }
        out
    }
}

/// A byte-for-byte copy, made per forwarded peer.
fn copy_bytes(v: &Vec<u8>) -> (r: Vec<u8>)
    ensures
        r@ == v@,
{
    let n = v.len();
    let mut r: Vec<u8> = Vec::new();
    let mut i: usize = 0;
    while i < n
        invariant
            i <= n,
            n == v@.len(),
            r@ == v@.take(i as int),
        decreases n - i,
    {
        r.push(v[i]);
        proof {
            assert(v@.take(i + 1 as int) =~= v@.take(i as int).push(v@[i as int]));
        }
        i = i + 1;
    }
    proof {
        assert(v@.take(n as int) =~= v@);
    }
    r
}

/// Every entry kept by [`spec_remove`] was a peer before the disconnect, so
/// removal preserves distinctness, id bounds, and never grows the table.
pub proof fn lemma_remove_keeps_entries(peers: Seq<PeerEntry>, handle: u64)
    ensures
        spec_remove(peers, handle).len() <= peers.len(),
        forall|i: int|
            0 <= i < spec_remove(peers, handle).len() ==> peers.contains(
                #[trigger] spec_remove(peers, handle)[i],
            ),
        ids_distinct(peers) ==> ids_distinct(spec_remove(peers, handle)),
        forall|b: u32| ids_below(peers, b) ==> ids_below(#[trigger] spec_remove(peers, handle), b),
    decreases peers.len(),
{
    if peers.len() == 0 {
    } else {
        let rest = peers.drop_last();
        let rem = spec_remove(peers, handle);
        let rem_rest = spec_remove(rest, handle);
        lemma_remove_keeps_entries(rest, handle);
        assert(forall|i: int| 0 <= i < rest.len() ==> rest[i] == peers[i]);
        assert(forall|i: int|
            0 <= i < rem.len() ==> peers.contains(#[trigger] rem[i])) by {
            assert forall|i: int| 0 <= i < rem.len() implies peers.contains(#[trigger] rem[i]) by {
                if i < rem_rest.len() {
                    let w = choose|k: int| 0 <= k < rest.len() && rest[k] == rem_rest[i];
                    assert(peers[w] == rem[i]);
                } else {
                    assert(rem[i] == peers.last());
                    assert(peers[peers.len() - 1] == peers.last());
                }
            }
        }
        if ids_distinct(peers) {
            assert(ids_distinct(rest));
            assert forall|i: int, j: int| 0 <= i < j < rem.len() implies rem[i].id != rem[j].id by {
                if j < rem_rest.len() {
                    // both inherited from the recursive call
                } else {
                    // rem[j] is the last peer; rem[i] came from the rest
                    let w = choose|k: int| 0 <= k < rest.len() && rest[k] == rem_rest[i];
                    assert(peers[w].id != peers[peers.len() - 1].id);
                }
            }
        }
    }
}

/// The relay never forwards a payload back to its sender: no target handle
/// equals the sender's.
pub proof fn lemma_targets_exclude_sender(peers: Seq<PeerEntry>, from: u64)
    ensures
        forall|i: int|
            0 <= i < spec_targets(peers, from).len() ==> #[trigger] spec_targets(peers, from)[i]
                != from,
    decreases peers.len(),
{
    if peers.len() == 0 {
    } else {
        let rest = peers.drop_last();
        lemma_targets_exclude_sender(rest, from);
        let ts = spec_targets(peers, from);
        let ts_rest = spec_targets(rest, from);
        assert forall|i: int| 0 <= i < ts.len() implies ts[i] != from by {
            if i < ts_rest.len() {
                assert(ts[i] == ts_rest[i]);
            } else {
                assert(ts[i] == peers.last().handle);
            }
        }
    }
}

/// The relay forwards to everyone else: each peer whose handle differs from
/// the sender's appears among the targets.
pub proof fn lemma_targets_cover_other_peers(peers: Seq<PeerEntry>, from: u64)
    ensures
        forall|j: int|
            0 <= j < peers.len() && peers[j].handle != from ==> spec_targets(peers, from).contains(
                #[trigger] peers[j].handle,
            ),
    decreases peers.len(),
{
    if peers.len() == 0 {
    } else {
        let rest = peers.drop_last();
        lemma_targets_cover_other_peers(rest, from);
        let ts = spec_targets(peers, from);
        let ts_rest = spec_targets(rest, from);
        assert forall|j: int|
            0 <= j < peers.len() && peers[j].handle != from implies ts.contains(
            #[trigger] peers[j].handle,
        ) by {
            if j < peers.len() - 1 {
                assert(rest[j] == peers[j]);
                let w = choose|k: int| 0 <= k < ts_rest.len() && ts_rest[k] == peers[j].handle;
                assert(ts[w] == peers[j].handle);
            } else {
                assert(ts[ts.len() - 1] == peers.last().handle);
            }
        }
    }
}

/// The ids assigned over a run of connection attempts, in connection order;
/// refused connections assign nothing.
pub open spec fn spec_assigned_ids(s: RelayServerView, handles: Seq<u64>) -> Seq<u32>
    decreases handles.len(),
{
    if handles.len() == 0 {
        Seq::empty()
    } else {
        (match spec_assigned_id(s) {
            Some(id) => seq![id],
            None => Seq::empty(),
        }) + spec_assigned_ids(spec_connect(s, handles[0]), handles.drop_first())
    }
}

/// Every id assigned from state `s` onwards is at least `s.next_id`.
pub proof fn lemma_assigned_ids_lower_bound(s: RelayServerView, handles: Seq<u64>)
    ensures
        forall|i: int|
            0 <= i < spec_assigned_ids(s, handles).len() ==> #[trigger] spec_assigned_ids(
                s,
                handles,
            )[i] >= s.next_id,
    decreases handles.len(),
{
    if handles.len() == 0 {
    } else {
        let ids = spec_assigned_ids(s, handles);
        let s2 = spec_connect(s, handles[0]);
        let tail = spec_assigned_ids(s2, handles.drop_first());
        lemma_assigned_ids_lower_bound(s2, handles.drop_first());
        assert(s2.next_id >= s.next_id);
        assert forall|i: int| 0 <= i < ids.len() implies ids[i] >= s.next_id by {
            if spec_accepts(s) {
                if i > 0 {
                    assert(ids[i] == tail[i - 1]);
                }
            } else {
                assert(ids[i] == tail[i]);
            }
        }
    }
}

/// For any sequence of connecting clients, the assigned ids are strictly
/// increasing in connection order — so they are pairwise distinct and no id
/// is ever reused.
pub proof fn lemma_assigned_ids_strictly_increasing(s: RelayServerView, handles: Seq<u64>)
    ensures
        forall|i: int, j: int|
            0 <= i < j < spec_assigned_ids(s, handles).len() ==> #[trigger] spec_assigned_ids(
                s,
                handles,
            )[i] < #[trigger] spec_assigned_ids(s, handles)[j],
    decreases handles.len(),
{
    if handles.len() == 0 {
    } else {
        let ids = spec_assigned_ids(s, handles);
        let s2 = spec_connect(s, handles[0]);
        let tail = spec_assigned_ids(s2, handles.drop_first());
        lemma_assigned_ids_strictly_increasing(s2, handles.drop_first());
        lemma_assigned_ids_lower_bound(s2, handles.drop_first());
        if spec_accepts(s) {
            assert(ids[0] == s.next_id);
            assert(forall|k: int| 0 <= k < tail.len() ==> ids[k + 1] == tail[k]);
            assert(s2.next_id == s.next_id + 1);
        } else {
            assert(forall|k: int| 0 <= k < tail.len() ==> ids[k] == tail[k]);
        }
    }
}

} // verus!
