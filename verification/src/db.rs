//! Storage for the `PeerInfo` of every known peer, keyed by peer id.
use std::collections::HashMap;
use vstd::prelude::*;
use vstd::std_specs::hash::spec_hash_map_iter;
use vstd::std_specs::iter::IteratorSpec;

use crate::ids::{ConnectionMetadata, PeerId};
use crate::types::{new_peer_info, PeerError, PeerInfo, PeerInfoView, PeerState};

verus! {

broadcast use vstd::std_specs::hash::group_hash_axioms;

/// The views of the stored descriptors.
pub open spec fn info_views(m: Map<PeerId, PeerInfo>) -> Map<PeerId, PeerInfoView> {
    m.map_values(|i: PeerInfo| i@)
}

/// What an entry holds: the stored value, or nothing.
pub open spec fn entry_of<V>(m: Map<PeerId, V>, peer_id: PeerId) -> Option<V> {
    if m.contains_key(peer_id) {
        Some(m[peer_id])
    } else {
        None
    }
}

/// The table after a connection to `peer_id` was recorded: a known peer keeps its
/// status and scores and takes the new metadata; an unknown peer is added fresh.
pub open spec fn spec_insert(
    m: Map<PeerId, PeerInfoView>,
    peer_id: PeerId,
    connection_metadata: ConnectionMetadata,
) -> Map<PeerId, PeerInfoView> {
    if m.contains_key(peer_id) {
        m.insert(peer_id, PeerInfoView { connection_metadata, ..m[peer_id] })
    } else {
        m.insert(peer_id, new_peer_info(connection_metadata))
    }
}

/// The table after the status of `peer_id` was set, where the peer is known.
pub open spec fn spec_update_state(
    m: Map<PeerId, PeerInfoView>,
    peer_id: PeerId,
    state: PeerState,
) -> Map<PeerId, PeerInfoView> {
    if m.contains_key(peer_id) {
        m.insert(peer_id, PeerInfoView { status: state, ..m[peer_id] })
    } else {
        m
    }
}

/// The answer to a removal or a state update: found, or `NotFound`.
pub open spec fn found_or_not(m: Map<PeerId, PeerInfoView>, peer_id: PeerId) -> Result<(), PeerError> {
    if m.contains_key(peer_id) {
        Ok(())
    } else {
        Err(PeerError::NotFound)
    }
}

/// Structure for storing `PeerInfo`, hash map based.
pub struct PeerDb {
    peers: HashMap<PeerId, PeerInfo>,
}

impl View for PeerDb {
    type V = Map<PeerId, PeerInfoView>;

    closed spec fn view(&self) -> Map<PeerId, PeerInfoView> {
        info_views(self.peers@)
    }
}

impl PeerDb {
    /// The stored descriptors themselves.
    pub closed spec fn entries(&self) -> Map<PeerId, PeerInfo> {
        self.peers@
    }

    /// The view is the view of each stored descriptor.
    pub proof fn lemma_view_is_entry_views(&self)
        ensures
            self@ == info_views(self.entries()),
    {
    }

    pub fn new() -> (r: PeerDb)
        ensures
            r@ == Map::<PeerId, PeerInfoView>::empty(),
    {
        let r = PeerDb { peers: HashMap::new() };
        assert(r@ =~= Map::<PeerId, PeerInfoView>::empty());
        r
    }

    /// Read a copy of the stored `PeerInfo`.
    pub fn read(&self, peer_id: &PeerId) -> (r: Option<PeerInfo>)
        ensures
            match r {
                Some(info) => self@.contains_key(*peer_id) && info@ == self@[*peer_id],
                None => !self@.contains_key(*peer_id),
            },
    {
        match self.peers.get(peer_id) {
            Some(info) => Some(info.clone()),
            None => None,
        }
    }

    /// Read a copy of the entire state.
    pub fn read_all(&self) -> (r: HashMap<PeerId, PeerInfo>)
        ensures
            info_views(r@) == self@,
    {
        self.peers.clone()
    }

    /// Copies of the stored descriptors that `filter` accepts, one per peer.
    pub fn read_filtered<F: Fn(PeerId, &PeerInfo) -> bool>(&self, filter: F) -> (r: Vec<(PeerId, PeerInfo)>)
        requires
            forall|k: PeerId, i: PeerInfo| call_requires(filter, (k, &i)),
        ensures
            forall|j: int|
                #![trigger r@[j]]
                0 <= j < r.len() ==> {
                    &&& self.entries().contains_key(r@[j].0)
                    &&& r@[j].1@ == self@[r@[j].0]
                    &&& call_ensures(filter, (r@[j].0, &self.entries()[r@[j].0]), true)
                },
            forall|k: PeerId|
                #[trigger] self.entries().contains_key(k) ==> (exists|j: int|
                    0 <= j < r.len() && #[trigger] r@[j].0 == k) || call_ensures(
                    filter,
                    (k, &self.entries()[k]),
                    false,
                ),
            forall|a: int, b: int| 0 <= a < b < r.len() ==> r@[a].0 != r@[b].0,
    {
        let ghost m = self.peers@;
        let mut out: Vec<(PeerId, PeerInfo)> = Vec::new();
        let ghost mut picked: Seq<int> = Seq::empty();
        // The iteration of a map that is not changed meanwhile visits each entry once.
        let _entries = self.peers.iter();
        let ghost s = spec_hash_map_iter(&self.peers).remaining();
        assert(s.no_duplicates());
        let ghost mut n: int = 0;
        for (k, v) in it: self.peers.iter()
            invariant
                s.no_duplicates(),
                m == self.peers@,
                s == spec_hash_map_iter(&self.peers).remaining(),
                it.seq() == s,
                n == it.index(),
                forall|k: PeerId, i: PeerInfo| call_requires(filter, (k, &i)),
                picked.len() == out.len(),
                forall|j: int| 0 <= j < picked.len() ==> 0 <= #[trigger] picked[j] < n,
                forall|j: int|
                    #![trigger out@[j]]
                    0 <= j < out.len() ==> {
                        &&& *s[picked[j]].0 == out@[j].0
                        &&& m.contains_key(out@[j].0)
                        &&& out@[j].1@ == m[out@[j].0]@
                        &&& call_ensures(filter, (out@[j].0, &m[out@[j].0]), true)
                    },
                forall|a: int, b: int| 0 <= a < b < out.len() ==> picked[a] < picked[b],
                forall|i: int|
                    #![trigger s[i]]
                    0 <= i < n ==> (exists|j: int|
                        0 <= j < out.len() && #[trigger] out@[j].0 == *s[i].0) || call_ensures(
                        filter,
                        (*s[i].0, &m[*s[i].0]),
                        false,
                    ),
        {
            let ghost pos = n;
            proof {
                lemma_iter_keys_distinct(&self.peers);
            }
            assert(it.seq()[pos] == (k, v));
            assert(m.contains_key(*k) && m[*k] == *v);
            let ghost out_before = out@;
            let ghost picked_before = picked;
            let keep = filter(*k, v);
            if keep {
                out.push((*k, v.clone()));
                proof {
                    picked = picked.push(pos);
                    assert forall|j: int| 0 <= j < out.len() - 1 implies #[trigger] out@[j] == out_before[j]
                        && picked[j] == picked_before[j] by {}
                }
            }
            proof {
                assert forall|i: int| #![trigger s[i]] 0 <= i < n + 1 implies (exists|j: int|
                    0 <= j < out.len() && #[trigger] out@[j].0 == *s[i].0) || call_ensures(
                    filter,
                    (*s[i].0, &m[*s[i].0]),
                    false,
                ) by {
                    if i == pos {
                        if keep {
                            assert(out@[out.len() - 1].0 == *s[i].0);
                        }
                    } else if exists|j: int| 0 <= j < out_before.len() && #[trigger] out_before[j].0 == *s[i].0 {
                        let j = choose|j: int| 0 <= j < out_before.len() && #[trigger] out_before[j].0 == *s[i].0;
                        assert(out@[j].0 == *s[i].0);
                    }
                }
                n = n + 1;
            }
        }
        proof {
            assert forall|k: PeerId| #[trigger] m.contains_key(k) implies (exists|j: int|
                0 <= j < out.len() && #[trigger] out@[j].0 == k) || call_ensures(filter, (k, &m[k]), false) by {
                assert(s.contains((&k, &m[k])));
                let i = choose|i: int| 0 <= i < s.len() && s[i] == (&k, &m[k]);
                assert(*s[i].0 == k);
            }
            assert forall|a: int, b: int| 0 <= a < b < out.len() implies out@[a].0 != out@[b].0 by {
                lemma_iter_keys_distinct(&self.peers);
            }
        }
        out
    }

    /// Record a connection: a new peer is added healthy, a known one takes the new metadata.
    pub fn insert(&mut self, peer_id: PeerId, connection_metadata: ConnectionMetadata)
        ensures
            final(self)@ == spec_insert(old(self)@, peer_id, connection_metadata),
    {
        let ghost before = self.peers@;
        match self.peers.remove(&peer_id) {
            Some(mut info) => {
                info.connection_metadata = connection_metadata;
                self.peers.insert(peer_id, info);
            },
            None => {
                self.peers.insert(peer_id, PeerInfo::new(connection_metadata));
            },
        }
        assert(self@ =~= spec_insert(info_views(before), peer_id, connection_metadata));
    }

    /// Remove an entry; `NotFound` when there is none.
    pub fn remove(&mut self, peer_id: PeerId) -> (r: Result<(), PeerError>)
        ensures
            final(self)@ == old(self)@.remove(peer_id),
            r == found_or_not(old(self)@, peer_id),
    {
        let ghost before = self.peers@;
        let removed = self.peers.remove(&peer_id);
        assert(self@ =~= info_views(before).remove(peer_id));
        match removed {
            Some(_) => Ok(()),
            None => Err(PeerError::NotFound),
        }
    }

    /// Hand the entry of `peer_id` (its value, or nothing) to `modifier`, store what it
    /// gives back in its place, and answer what it answered.
    pub fn write<F: FnOnce(Option<PeerInfo>) -> (Option<PeerInfo>, Result<(), PeerError>)>(
        &mut self,
        peer_id: PeerId,
        modifier: F,
    ) -> (r: Result<(), PeerError>)
        requires
            call_requires(modifier, (entry_of(old(self).entries(), peer_id),)),
        ensures
            call_ensures(
                modifier,
                (entry_of(old(self).entries(), peer_id),),
                (entry_of(final(self).entries(), peer_id), r),
            ),
            final(self).entries().remove(peer_id) == old(self).entries().remove(peer_id),
    {
        let ghost before = self.peers@;
        let current = self.peers.remove(&peer_id);
        assert(current == entry_of(before, peer_id));
        let (next, result) = modifier(current);
        match next {
            Some(info) => {
                self.peers.insert(peer_id, info);
            },
            None => {},
        }
        assert(self.peers@.remove(peer_id) =~= before.remove(peer_id));
        assert(entry_of(self.peers@, peer_id) == next);
        result
    }

    /// Set the status of a known peer; `NotFound` when the peer is unknown.
    pub fn update_state(&mut self, peer_id: PeerId, state: PeerState) -> (r: Result<(), PeerError>)
        ensures
            final(self)@ == spec_update_state(old(self)@, peer_id, state),
            r == found_or_not(old(self)@, peer_id),
    {
        let ghost before = self.peers@;
        let set_status = |entry: Option<PeerInfo>| -> (out: (Option<PeerInfo>, Result<(), PeerError>))
            ensures
                match entry {
                    Some(info) => out.0 == Some(PeerInfo { status: state, ..info }) && out.1 == Ok::<(), PeerError>(()),
                    None => out.0 == None::<PeerInfo> && out.1 == Err::<(), PeerError>(PeerError::NotFound),
                },
            {
                match entry {
                    Some(info) => (Some(PeerInfo { status: state, ..info }), Ok(())),
                    None => (None, Err(PeerError::NotFound)),
                }
            };
        let r = self.write(peer_id, set_status);
        proof {
            let after = self.peers@;
            assert(after.remove(peer_id) == before.remove(peer_id));
            assert forall|k: PeerId|
                #![trigger after.dom().contains(k)]
                #![trigger before.dom().contains(k)]
                k != peer_id implies (after.contains_key(k) == before.contains_key(k)
                && (after.contains_key(k) ==> after[k] == before[k])) by {
                let ar = after.remove(peer_id);
                let br = before.remove(peer_id);
                assert(ar.dom() == after.dom().remove(peer_id));
                assert(br.dom() == before.dom().remove(peer_id));
                assert(ar.dom().contains(k) == after.dom().contains(k));
                assert(br.dom().contains(k) == before.dom().contains(k));
                if after.contains_key(k) {
                    assert(ar[k] == after[k]);
                    assert(br[k] == before[k]);
                }
            }
            if before.contains_key(peer_id) {
                assert(entry_of(after, peer_id) == Some(PeerInfo { status: state, ..before[peer_id] }));
                assert(after =~= before.insert(peer_id, PeerInfo { status: state, ..before[peer_id] }));
                assert(info_views(after) =~= spec_update_state(info_views(before), peer_id, state));
            } else {
                assert(entry_of(after, peer_id) == None::<PeerInfo>);
                assert(!after.dom().contains(peer_id));
                assert(after.dom() =~= before.dom());
                assert(after =~= before);
                assert(info_views(after) =~= spec_update_state(info_views(before), peer_id, state));
            }
        }
        assert(self@ =~= spec_update_state(info_views(before), peer_id, state));
        r
    }
}

/// Two positions of a hash map's iteration never carry the same key.
proof fn lemma_iter_keys_distinct(m: &HashMap<PeerId, PeerInfo>)
    requires
        spec_hash_map_iter(m).remaining().no_duplicates(),
    ensures
        forall|a: int, b: int|
            0 <= a < b < spec_hash_map_iter(m).remaining().len() ==> *spec_hash_map_iter(m).remaining()[a].0
                != *spec_hash_map_iter(m).remaining()[b].0,
{
    let s = spec_hash_map_iter(m).remaining();
    assert forall|a: int, b: int| 0 <= a < b < s.len() implies *s[a].0 != *s[b].0 by {
        assert(m@.contains_key(*s[a].0) && m@[*s[a].0] == *s[a].1);
        assert(m@.contains_key(*s[b].0) && m@[*s[b].0] == *s[b].1);
    }
}

/// After a connection to `peer_id` is recorded, the peer is known and reached over that
/// connection.
pub proof fn law_insert_then_read(m: Map<PeerId, PeerInfoView>, peer_id: PeerId, cm: ConnectionMetadata)
    ensures
        spec_insert(m, peer_id, cm).contains_key(peer_id),
        spec_insert(m, peer_id, cm)[peer_id].connection_metadata == cm,
{
}

/// Recording a connection to a known peer keeps its status and scores; a new peer starts
/// healthy with no scores.
pub proof fn law_insert_keeps_status(m: Map<PeerId, PeerInfoView>, peer_id: PeerId, cm: ConnectionMetadata)
    ensures
        m.contains_key(peer_id) ==> spec_insert(m, peer_id, cm)[peer_id].status == m[peer_id].status
            && spec_insert(m, peer_id, cm)[peer_id].scores == m[peer_id].scores,
        !m.contains_key(peer_id) ==> spec_insert(m, peer_id, cm)[peer_id] == new_peer_info(cm),
{
}

/// Recording a connection touches no other peer.
pub proof fn law_insert_touches_one_peer(m: Map<PeerId, PeerInfoView>, peer_id: PeerId, cm: ConnectionMetadata)
    ensures
        spec_insert(m, peer_id, cm).remove(peer_id) == m.remove(peer_id),
{
    assert(spec_insert(m, peer_id, cm).remove(peer_id) =~= m.remove(peer_id));
}

/// Recording the same connection twice is recording it once.
pub proof fn law_insert_idempotent(m: Map<PeerId, PeerInfoView>, peer_id: PeerId, cm: ConnectionMetadata)
    ensures
        spec_insert(spec_insert(m, peer_id, cm), peer_id, cm) == spec_insert(m, peer_id, cm),
{
    assert(spec_insert(spec_insert(m, peer_id, cm), peer_id, cm) =~= spec_insert(m, peer_id, cm));
}

/// Removing a peer just recorded succeeds and leaves the other peers as they were.
pub proof fn law_insert_then_remove(m: Map<PeerId, PeerInfoView>, peer_id: PeerId, cm: ConnectionMetadata)
    ensures
        found_or_not(spec_insert(m, peer_id, cm), peer_id) == Ok::<(), PeerError>(()),
        spec_insert(m, peer_id, cm).remove(peer_id) == m.remove(peer_id),
{
    assert(spec_insert(m, peer_id, cm).remove(peer_id) =~= m.remove(peer_id));
}

/// A removed peer is gone, and removing it again answers `NotFound`.
pub proof fn law_remove_twice(m: Map<PeerId, PeerInfoView>, peer_id: PeerId)
    ensures
        !m.remove(peer_id).contains_key(peer_id),
        found_or_not(m.remove(peer_id), peer_id) == Err::<(), PeerError>(PeerError::NotFound),
        m.remove(peer_id).remove(peer_id) == m.remove(peer_id),
{
    assert(m.remove(peer_id).remove(peer_id) =~= m.remove(peer_id));
}

/// Setting the state of a known peer gives it that state, whatever the state, and keeps
/// its metadata and scores; no other peer changes, and the set of known peers stays the
/// same. Setting the state of an unknown peer changes nothing.
pub proof fn law_update_state_sets_status(m: Map<PeerId, PeerInfoView>, peer_id: PeerId, state: PeerState)
    ensures
        spec_update_state(m, peer_id, state).dom() == m.dom(),
        m.contains_key(peer_id) ==> spec_update_state(m, peer_id, state)[peer_id].status == state,
        m.contains_key(peer_id) ==> spec_update_state(m, peer_id, state)[peer_id].connection_metadata
            == m[peer_id].connection_metadata,
        m.contains_key(peer_id) ==> spec_update_state(m, peer_id, state)[peer_id].scores == m[peer_id].scores,
        spec_update_state(m, peer_id, state).remove(peer_id) == m.remove(peer_id),
        !m.contains_key(peer_id) ==> spec_update_state(m, peer_id, state) == m,
{
    assert(spec_update_state(m, peer_id, state).dom() =~= m.dom());
    assert(spec_update_state(m, peer_id, state).remove(peer_id) =~= m.remove(peer_id));
}

/// Of two state updates of one peer, the later one stands.
pub proof fn law_update_state_last_wins(
    m: Map<PeerId, PeerInfoView>,
    peer_id: PeerId,
    first: PeerState,
    second: PeerState,
)
    ensures
        spec_update_state(spec_update_state(m, peer_id, first), peer_id, second) == spec_update_state(
            m,
            peer_id,
            second,
        ),
{
    assert(spec_update_state(spec_update_state(m, peer_id, first), peer_id, second) =~= spec_update_state(
        m,
        peer_id,
        second,
    ));
}

} // verus!
