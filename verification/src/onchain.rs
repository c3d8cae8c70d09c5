//! Discovery of peers from on-chain network identities.
use std::collections::HashMap;
use vstd::prelude::*;

use crate::ids::{PeerId, PeerRole};
use crate::network_identity::{key_views, NetworkIdentity, PublicKey};

verus! {

broadcast use vstd::std_specs::hash::group_hash_axioms;

/// A network address, as its encoded bytes.
#[derive(Clone, Debug, PartialEq, Eq, Hash)]
pub struct NetworkAddress {
    pub bytes: Vec<u8>,
}

/// What discovery knows of a peer: where to reach it, the keys it may use, and its role.
#[derive(Clone, Debug, PartialEq, Eq)]
pub struct Peer {
    pub addresses: Vec<NetworkAddress>,
    pub keys: Vec<PublicKey>,
    pub role: PeerRole,
}

/// The mathematical value of a `Peer`: its addresses, the set of its keys, and its role.
pub struct PeerView {
    pub addresses: Seq<NetworkAddress>,
    pub keys: Set<Seq<u8>>,
    pub role: PeerRole,
}

impl View for Peer {
    type V = PeerView;

    open spec fn view(&self) -> PeerView {
        PeerView { addresses: self.addresses@, keys: key_views(self.keys@).to_set(), role: self.role }
    }
}

impl Peer {
    /// A peer's keys are held once each.
    pub open spec fn wf(&self) -> bool {
        key_views(self.keys@).no_duplicates()
    }

    /// A peer with the given addresses, the distinct keys among `keys`, and the given role.
    pub fn new(addresses: Vec<NetworkAddress>, keys: &[PublicKey], role: PeerRole) -> (r: Peer)
        ensures
            r.wf(),
            r@ == (PeerView { addresses: addresses@, keys: key_views(keys@).to_set(), role }),
    {
        Peer { addresses, keys: distinct_keys(keys), role }
    }
}

/// The keys of `keys`, each once, in the order they first appear.
fn distinct_keys(keys: &[PublicKey]) -> (r: Vec<PublicKey>)
    ensures
        key_views(r@).no_duplicates(),
        key_views(r@).to_set() == key_views(keys@).to_set(),
{
    let mut out: Vec<PublicKey> = Vec::new();
    let mut i: usize = 0;
    while i < keys.len()
        invariant
            i <= keys@.len(),
            key_views(out@).no_duplicates(),
            key_views(out@).to_set() == key_views(keys@.subrange(0, i as int)).to_set(),
        decreases keys@.len() - i,
    {
        let key = keys[i];
        let mut seen = false;
        let mut j: usize = 0;
        while j < out.len()
            invariant
                j <= out@.len(),
                seen <==> exists|x: int| 0 <= x < j && out@[x]@ == key@,
            decreases out@.len() - j,
        {
            if out[j].same_as(&key) {
                seen = true;
            }
            j = j + 1;
        }
        let ghost before = out@;
        proof {
            let prefix = key_views(keys@.subrange(0, i as int));
            assert(key_views(keys@.subrange(0, i + 1)) =~= prefix.push(key@));
            prefix.lemma_push_to_set_commute(key@);
        }
        if !seen {
            out.push(key);
            proof {
                assert(key_views(out@) =~= key_views(before).push(key@));
                key_views(before).lemma_push_to_set_commute(key@);
                assert forall|a: int, b: int| 0 <= a < b < key_views(out@).len() implies key_views(out@)[a]
                    != key_views(out@)[b] by {
                    if b == key_views(out@).len() - 1 {
                        assert(key_views(out@)[a] == before[a]@);
                    } else {
                        assert(key_views(out@)[a] == key_views(before)[a]);
                        assert(key_views(out@)[b] == key_views(before)[b]);
                    }
                }
            }
        } else {
            proof {
                let x = choose|x: int| 0 <= x < j && out@[x]@ == key@;
                assert(key_views(out@)[x] == key@);
                assert(key_views(out@).to_set().contains(key@));
                assert(key_views(out@).to_set().insert(key@) =~= key_views(out@).to_set());
            }
        }
        i = i + 1;
    }
    proof {
        assert(keys@.subrange(0, keys@.len() as int) =~= keys@);
    }
    out
}

/// The view of a set of peers.
pub open spec fn peer_set_view(m: Map<PeerId, Peer>) -> Map<PeerId, PeerView> {
    m.map_values(|p: Peer| p@)
}

/// The position of the last identity of `peer_id` among `ids`, if any.
pub open spec fn last_identity(ids: Seq<NetworkIdentity>, peer_id: PeerId) -> Option<int>
    decreases ids.len(),
{
    if ids.len() == 0 {
        None
    } else if ids.last().peer_id == peer_id {
        Some(ids.len() - 1)
    } else {
        last_identity(ids.drop_last(), peer_id)
    }
}

/// The peer set after an update of identities: each peer named in the update takes the
/// keys of its last identity there, keeping its addresses and role, or, when new, with no
/// address and the downstream role; every other peer stays as it was.
pub open spec fn spec_apply_update(m: Map<PeerId, PeerView>, ids: Seq<NetworkIdentity>) -> Map<PeerId, PeerView> {
    Map::new(
        |p: PeerId| m.contains_key(p) || last_identity(ids, p) is Some,
        |p: PeerId|
            match last_identity(ids, p) {
                Some(i) => PeerView {
                    addresses: if m.contains_key(p) {
                        m[p].addresses
                    } else {
                        Seq::empty()
                    },
                    keys: key_views(ids[i].pubkeys@).to_set(),
                    role: if m.contains_key(p) {
                        m[p].role
                    } else {
                        PeerRole::Downstream
                    },
                },
                None => m[p],
            },
    )
}

proof fn lemma_last_identity_bounds(ids: Seq<NetworkIdentity>, peer_id: PeerId)
    ensures
        match last_identity(ids, peer_id) {
            Some(i) => 0 <= i < ids.len() && ids[i].peer_id == peer_id && forall|j: int|
                i < j < ids.len() ==> ids[j].peer_id != peer_id,
            None => forall|j: int| 0 <= j < ids.len() ==> ids[j].peer_id != peer_id,
        },
    decreases ids.len(),
{
    if ids.len() > 0 {
        lemma_last_identity_bounds(ids.drop_last(), peer_id);
        assert forall|j: int| 0 <= j < ids.len() - 1 implies ids.drop_last()[j] == ids[j] by {}
    }
}

/// Retrieves the peer set from on-chain network identities.
pub struct OnChainStream {
    peer_set: HashMap<PeerId, Peer>,
}

impl OnChainStream {
    /// Every stored peer holds each of its keys once.
    #[verifier::type_invariant]
    closed spec fn peers_well_formed(self) -> bool {
        forall|p: PeerId| #[trigger] self.peer_set@.contains_key(p) ==> self.peer_set@[p].wf()
    }

    /// The peers known so far, as stored.
    pub closed spec fn stored_peers(&self) -> Map<PeerId, Peer> {
        self.peer_set@
    }

    /// The peers known so far.
    pub closed spec fn spec_peer_set(&self) -> Map<PeerId, PeerView> {
        peer_set_view(self.peer_set@)
    }

    /// A stream that knows no peer yet.
    pub fn new() -> (r: OnChainStream)
        ensures
            r.spec_peer_set() == Map::<PeerId, PeerView>::empty(),
    {
        let r = OnChainStream { peer_set: HashMap::new() };
        assert(r.spec_peer_set() =~= Map::<PeerId, PeerView>::empty());
        r
    }

    /// Take in what the identity channel gave, if anything, and hand out the peer set
    /// that results.
    pub fn next_peer_set(&mut self, maybe_update: Option<Vec<NetworkIdentity>>) -> (r: HashMap<PeerId, Peer>)
        ensures
            match maybe_update {
                Some(ids) => final(self).spec_peer_set() == spec_apply_update(old(self).spec_peer_set(), ids@),
                None => final(self).spec_peer_set() == old(self).spec_peer_set(),
            },
            peer_set_view(r@) == final(self).spec_peer_set(),
            r@ == final(self).stored_peers(),
            forall|p: PeerId| #[trigger] r@.contains_key(p) ==> r@[p].wf(),
    {
        proof {
            use_type_invariant(&*self);
        }
        match maybe_update {
            Some(identities) => {
                let mut temp_peer_set = self.peer_set.clone();
                let ghost start = peer_set_view(self.peer_set@);
                let mut i: usize = 0;
                while i < identities.len()
                    invariant
                        i <= identities@.len(),
                        peer_set_view(temp_peer_set@) == spec_apply_update(start, identities@.subrange(0, i as int)),
                        forall|p: PeerId| #[trigger] temp_peer_set@.contains_key(p) ==> temp_peer_set@[p].wf(),
                    decreases identities@.len() - i,
                {
                    let ghost before = peer_set_view(temp_peer_set@);
                    let ghost t1 = temp_peer_set@;
                    let identity = &identities[i];
                    let peer_id = identity.peer_id;
                    let entry = match temp_peer_set.remove(&peer_id) {
                        Some(mut peer) => {
                            peer.keys = distinct_keys(identity.pubkeys.as_slice());
                            peer
                        },
                        None => Peer::new(Vec::new(), identity.pubkeys.as_slice(), PeerRole::Downstream),
                    };
                    temp_peer_set.insert(peer_id, entry);
                    proof {
                        let prefix = identities@.subrange(0, i as int);
                        let next = identities@.subrange(0, i + 1);
                        let after = peer_set_view(temp_peer_set@);
                        let t2 = temp_peer_set@;
                        let goal = spec_apply_update(start, next);
                        assert(t2 == t1.insert(peer_id, entry));
                        assert(entry.wf());
                        assert forall|p: PeerId| #[trigger] t2.contains_key(p) implies t2[p].wf() by {
                            if p != peer_id {
                                assert(t2[p] == t1[p]);
                            }
                        }
                        assert(t1.contains_key(peer_id) ==> entry@ == (PeerView {
                            addresses: t1[peer_id].addresses@,
                            keys: key_views(identities@[i as int].pubkeys@).to_set(),
                            role: t1[peer_id].role,
                        }));
                        assert(!t1.contains_key(peer_id) ==> entry@ == (PeerView {
                            addresses: Seq::empty(),
                            keys: key_views(identities@[i as int].pubkeys@).to_set(),
                            role: PeerRole::Downstream,
                        }));
                        assert(next.drop_last() =~= prefix);
                        assert(next.last() == identities@[i as int]);
                        assert(last_identity(next, peer_id) == Some(i as int));
                        assert forall|p: PeerId| #[trigger] after.contains_key(p) == goal.contains_key(p) && (after.contains_key(p) ==> after[p] == goal[p]) by {
                            if p != peer_id {
                                assert(last_identity(next, p) == last_identity(prefix, p));
                                lemma_last_identity_bounds(prefix, p);
                                assert(t2.contains_key(p) == t1.contains_key(p));
                                assert(after.contains_key(p) == before.contains_key(p));
                                if t1.contains_key(p) {
                                    assert(t2[p] == t1[p]);
                                    assert(after[p] == before[p]);
                                }
                                if let Some(j) = last_identity(prefix, p) {
                                    assert(next[j] == prefix[j]);
                                }
                            } else {
                                lemma_last_identity_bounds(prefix, p);
                                assert(after.contains_key(p));
                                assert(after[p] == entry@);
                                assert(before.contains_key(p) == t1.contains_key(p));
                                if t1.contains_key(p) {
                                    assert(before[p] == t1[p]@);
                                }
                            }
                        }
                        assert(after =~= goal);
                    }
                    i = i + 1;
                }
                proof {
                    assert(identities@.subrange(0, identities@.len() as int) =~= identities@);
                }
                self.peer_set = temp_peer_set;
            },
            None => {},
        }
        proof {
            use_type_invariant(&*self);
        }
        self.peer_set.clone()
    }
}

/// Taking in the same update twice gives the same peer set as taking it in once.
pub proof fn law_update_idempotent(m: Map<PeerId, PeerView>, ids: Seq<NetworkIdentity>)
    ensures
        spec_apply_update(spec_apply_update(m, ids), ids) == spec_apply_update(m, ids),
{
    let once = spec_apply_update(m, ids);
    let twice = spec_apply_update(once, ids);
    assert forall|p: PeerId| #[trigger] twice.contains_key(p) implies twice[p] == once[p] by {
        if let Some(i) = last_identity(ids, p) {
            assert(once.contains_key(p));
        }
    }
    assert(twice =~= once);
}

/// After an update, every peer it names is known, with the keys of its last identity in it.
pub proof fn law_update_sets_keys(m: Map<PeerId, PeerView>, ids: Seq<NetworkIdentity>, i: int)
    requires
        0 <= i < ids.len(),
        forall|j: int| i < j < ids.len() ==> ids[j].peer_id != ids[i].peer_id,
    ensures
        spec_apply_update(m, ids).contains_key(ids[i].peer_id),
        spec_apply_update(m, ids)[ids[i].peer_id].keys == key_views(ids[i].pubkeys@).to_set(),
{
    lemma_last_identity_bounds(ids, ids[i].peer_id);
}

/// An update leaves every peer it does not name as it was.
pub proof fn law_update_keeps_others(m: Map<PeerId, PeerView>, ids: Seq<NetworkIdentity>, p: PeerId)
    requires
        forall|j: int| 0 <= j < ids.len() ==> ids[j].peer_id != p,
    ensures
        spec_apply_update(m, ids).contains_key(p) == m.contains_key(p),
        m.contains_key(p) ==> spec_apply_update(m, ids)[p] == m[p],
{
    lemma_last_identity_bounds(ids, p);
}

/// A peer named in an update keeps its addresses and role when already known, and joins
/// with no address and the downstream role when new.
pub proof fn law_update_joins_new_peers_downstream(m: Map<PeerId, PeerView>, ids: Seq<NetworkIdentity>, i: int)
    requires
        0 <= i < ids.len(),
    ensures
        spec_apply_update(m, ids).contains_key(ids[i].peer_id),
        m.contains_key(ids[i].peer_id) ==> spec_apply_update(m, ids)[ids[i].peer_id].addresses
            == m[ids[i].peer_id].addresses && spec_apply_update(m, ids)[ids[i].peer_id].role == m[ids[i].peer_id].role,
        !m.contains_key(ids[i].peer_id) ==> spec_apply_update(m, ids)[ids[i].peer_id].addresses == Seq::<
            NetworkAddress,
        >::empty() && spec_apply_update(m, ids)[ids[i].peer_id].role == PeerRole::Downstream,
{
    lemma_last_identity_bounds(ids, ids[i].peer_id);
}

} // verus!
