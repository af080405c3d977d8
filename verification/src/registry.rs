//! Client-side registry of the last-known state of each remote player.
//!
//! One entry per id: the first sighting of an id appends an entry, every later
//! sighting overwrites that entry in place. Entries are never removed; the
//! minimal protocol does not correlate disconnects with ids.

use vstd::prelude::*;
use crate::codec::{PlayerState, PlayerStateView};

verus! {

/// True when `s` holds an entry with the given id.
pub open spec fn spec_has_id(s: Seq<PlayerStateView>, id: u32) -> bool {
    exists|i: int| 0 <= i < s.len() && s[i].id == id
}

/// The position of the entry with the given id (unique when ids are distinct).
pub open spec fn spec_index_of_id(s: Seq<PlayerStateView>, id: u32) -> int {
    choose|i: int| 0 <= i < s.len() && s[i].id == id
}

/// How [`RemotePlayerRegistry::upsert`] transforms the registry: replace the
/// entry with the same id in place, or append a new one.
pub open spec fn spec_upsert(s: Seq<PlayerStateView>, p: PlayerStateView) -> Seq<PlayerStateView> {
    if spec_has_id(s, p.id) {
        s.update(spec_index_of_id(s, p.id), p)
    } else {
        s.push(p)
    }
}

/// Last-known state per remote player id, in order of first sighting.
pub struct RemotePlayerRegistry {
    players: Vec<PlayerState>,
}

impl View for RemotePlayerRegistry {
    type V = Seq<PlayerStateView>;

    closed spec fn view(&self) -> Seq<PlayerStateView> {
        self.players@.map_values(|p: PlayerState| p@)
    }
}

impl RemotePlayerRegistry {
    /// Ids are pairwise distinct: each remote player has exactly one entry.
    pub open spec fn wf(self) -> bool {
        forall|i: int, j: int| 0 <= i < j < self@.len() ==> self@[i].id != self@[j].id
    }

    pub fn new() -> (r: Self)
        ensures
            r@ == Seq::<PlayerStateView>::empty(),
            r.wf(),
    {
        RemotePlayerRegistry { players: Vec::new() }
    }

    pub fn len(&self) -> (n: usize)
        ensures
            n == self@.len(),
    {
        self.players.len()
    }

    /// The stored states, for per-frame iteration by the caller.
    pub fn players(&self) -> (r: &Vec<PlayerState>)
        ensures
            r@.map_values(|p: PlayerState| p@) == self@,
    {
        &self.players
    }

    fn find_by_id(&self, id: u32) -> (r: Option<usize>)
        ensures
            r matches Some(i) ==> i < self@.len() && self@[i as int].id == id,
            r is None ==> !spec_has_id(self@, id),
    {
        let n = self.players.len();
        let mut i: usize = 0;
        while i < n
            invariant
                i <= n,
                n == self@.len(),
                forall|j: int| 0 <= j < i ==> self@[j].id != id,
            decreases n - i,
        {
            if self.players[i].id == id {
                return Some(i);
            }
            i = i + 1;
        }
        None
    }

    /// Records the most recent state for `state.id`: replaces the existing
    /// entry in place, or appends a new one on first sighting.
    pub fn upsert(&mut self, state: PlayerState)
        requires
            old(self).wf(),
        ensures
            final(self).wf(),
            final(self)@ == spec_upsert(old(self)@, state@),
    {
        match self.find_by_id(state.id) {
            Some(i) => {
                proof {
                    // With distinct ids, the found index is the chosen one.
                    let k = spec_index_of_id(self@, state@.id);
                    assert(0 <= k < self@.len() && self@[k].id == state@.id);
                    assert(k == i);
                }
                self.players[i] = state;
                proof {
                    assert(self@ =~= spec_upsert(old(self)@, state@));
                }
            },
            None => {
                self.players.push(state);
                proof {
                    assert(self@ =~= old(self)@.push(state@));
                }
            },
        }
    }

    /// The last-known state for an id, if that player has ever been sighted.
    pub fn get(&self, id: u32) -> (r: Option<&PlayerState>)
        requires
            self.wf(),
        ensures
            r matches Some(p) ==> spec_has_id(self@, id) && p@ == self@[spec_index_of_id(self@, id)],
            r is None ==> !spec_has_id(self@, id),
    {
        match self.find_by_id(id) {
            Some(i) => {
                proof {
                    let k = spec_index_of_id(self@, id);
                    assert(0 <= k < self@.len() && self@[k].id == id);
                    assert(k == i);
                }
                Some(&self.players[i])
            },
            None => None,
        }
    }
}

} // verus!
