//! Peer metadata for every network a node takes part in.
use vstd::prelude::*;

use crate::db::{spec_insert, PeerDb, found_or_not};
use crate::ids::{ConnectionMetadata, NetworkId, PeerId, PeerNetworkId};
use crate::network_map::NetworkIdMap;
use crate::types::{PeerError, PeerInfo, PeerInfoView};

verus! {

/// `ids` names exactly the networks of `dom`.
pub open spec fn names_networks(ids: Seq<NetworkId>, dom: Set<NetworkId>) -> bool {
    forall|n: NetworkId| dom.contains(n) <==> ids.contains(n)
}

/// The peers of one network that `filter` accepts, each once, with copies of their
/// descriptors.
pub open spec fn filtered_result<F: Fn(PeerId, &PeerInfo) -> bool>(
    r: Seq<(PeerNetworkId, PeerInfo)>,
    network_id: NetworkId,
    entries: Map<PeerId, PeerInfo>,
    filter: F,
) -> bool {
    &&& forall|j: int|
        #![trigger r[j]]
        0 <= j < r.len() ==> {
            &&& r[j].0.network_id == network_id
            &&& entries.contains_key(r[j].0.peer_id)
            &&& r[j].1@ == entries[r[j].0.peer_id]@
            &&& call_ensures(filter, (r[j].0.peer_id, &entries[r[j].0.peer_id]), true)
        }
    &&& forall|k: PeerId|
        #[trigger] entries.contains_key(k) ==> (exists|j: int|
            0 <= j < r.len() && #[trigger] r[j].0.peer_id == k) || call_ensures(
            filter,
            (k, &entries[k]),
            false,
        )
    &&& forall|a: int, b: int| 0 <= a < b < r.len() ==> r[a].0 != r[b].0
}

/// The peers of one network, each once, with copies of their descriptors.
pub open spec fn all_result(
    r: Seq<(PeerNetworkId, PeerInfo)>,
    network_id: NetworkId,
    peers: Map<PeerId, PeerInfoView>,
) -> bool {
    &&& forall|j: int|
        #![trigger r[j]]
        0 <= j < r.len() ==> {
            &&& r[j].0.network_id == network_id
            &&& peers.contains_key(r[j].0.peer_id)
            &&& r[j].1@ == peers[r[j].0.peer_id]
        }
    &&& forall|k: PeerId|
        #[trigger] peers.contains_key(k) ==> exists|j: int| 0 <= j < r.len() && #[trigger] r[j].0.peer_id == k
    &&& forall|a: int, b: int| 0 <= a < b < r.len() ==> r[a].0 != r[b].0
}

/// Per-network storage of `PeerInfo`.
pub struct PeerMetadataStorage {
    networks: NetworkIdMap<PeerDb>,
}

impl View for PeerMetadataStorage {
    type V = Map<NetworkId, Map<PeerId, PeerInfoView>>;

    closed spec fn view(&self) -> Map<NetworkId, Map<PeerId, PeerInfoView>> {
        self.networks@.map_values(|db: PeerDb| db@)
    }
}

impl PeerMetadataStorage {
    /// The stored descriptors of one network.
    pub closed spec fn entries(&self, network_id: NetworkId) -> Map<PeerId, PeerInfo> {
        self.networks@[network_id].entries()
    }

    /// The view of a network's peers is the view of its stored descriptors.
    pub proof fn lemma_entries(&self, network_id: NetworkId)
        requires
            self@.contains_key(network_id),
        ensures
            self@[network_id] == crate::db::info_views(self.entries(network_id)),
    {
        self.networks@[network_id].lemma_view_is_entry_views();
    }

    /// Storage for the given networks, each with no peer.
    pub fn new(network_ids: &[NetworkId]) -> (r: PeerMetadataStorage)
        ensures
            names_networks(network_ids@, r@.dom()),
            forall|n: NetworkId| #[trigger] r@.contains_key(n) ==> r@[n] == Map::<PeerId, PeerInfoView>::empty(),
    {
        let mut networks: NetworkIdMap<PeerDb> = NetworkIdMap::new();
        let mut i: usize = 0;
        while i < network_ids.len()
            invariant
                i <= network_ids@.len(),
                forall|n: NetworkId| networks@.contains_key(n) <==> network_ids@.subrange(0, i as int).contains(n),
                forall|n: NetworkId| #[trigger] networks@.contains_key(n) ==> networks@[n]@ == Map::<PeerId, PeerInfoView>::empty(),
            decreases network_ids@.len() - i,
        {
            let ghost before = networks@;
            networks.insert(network_ids[i], PeerDb::new());
            proof {
                assert forall|n: NetworkId| networks@.contains_key(n) <==> network_ids@.subrange(0, i + 1).contains(n) by {
                    let prefix = network_ids@.subrange(0, i as int);
                    let next = network_ids@.subrange(0, i + 1);
                    assert(next =~= prefix.push(network_ids@[i as int]));
                    if prefix.contains(n) {
                        let k = choose|k: int| 0 <= k < prefix.len() && prefix[k] == n;
                        assert(next[k] == n);
                    }
                    if next.contains(n) && n != network_ids@[i as int] {
                        let k = choose|k: int| 0 <= k < next.len() && next[k] == n;
                        assert(prefix[k] == n);
                    }
                    if n == network_ids@[i as int] {
                        assert(next[i as int] == n);
                    }
                }
            }
            i = i + 1;
        }
        proof {
            assert(network_ids@.subrange(0, network_ids@.len() as int) =~= network_ids@);
        }
        PeerMetadataStorage { networks }
    }

    /// The storage keeps peers for `network_id`.
    pub fn has_network(&self, network_id: NetworkId) -> (r: bool)
        ensures
            r == self@.contains_key(network_id),
    {
        self.networks.contains_key(network_id)
    }

    /// Record a connection on `network_id`.
    pub fn insert_connection(&mut self, network_id: NetworkId, connection_metadata: ConnectionMetadata)
        requires
            old(self)@.contains_key(network_id),
        ensures
            final(self)@ == old(self)@.insert(
                network_id,
                spec_insert(old(self)@[network_id], connection_metadata.remote_peer_id, connection_metadata),
            ),
    {
        let ghost before = self.networks@;
        match self.networks.remove(network_id) {
            Some(mut db) => {
                db.insert(connection_metadata.remote_peer_id, connection_metadata);
                self.networks.insert(network_id, db);
            },
            None => {},
        }
        proof {
            assert(self@ =~= before.map_values(|db: PeerDb| db@).insert(
                network_id,
                spec_insert(before[network_id]@, connection_metadata.remote_peer_id, connection_metadata),
            ));
        }
    }

    /// Forget a peer; `NotFound` when it is not known.
    pub fn remove(&mut self, peer_network_id: &PeerNetworkId) -> (r: Result<(), PeerError>)
        requires
            old(self)@.contains_key(peer_network_id.network_id),
        ensures
            final(self)@ == old(self)@.insert(
                peer_network_id.network_id,
                old(self)@[peer_network_id.network_id].remove(peer_network_id.peer_id),
            ),
            r == found_or_not(old(self)@[peer_network_id.network_id], peer_network_id.peer_id),
    {
        let ghost before = self.networks@;
        let network_id = peer_network_id.network_id;
        match self.networks.remove(network_id) {
            Some(mut db) => {
                let r = db.remove(peer_network_id.peer_id);
                self.networks.insert(network_id, db);
                proof {
                    assert(self@ =~= before.map_values(|db: PeerDb| db@).insert(
                        network_id,
                        before[network_id]@.remove(peer_network_id.peer_id),
                    ));
                }
                r
            },
            None => Err(PeerError::NotFound),
        }
    }

    /// A copy of what is known of one peer.
    pub fn read(&self, peer_network_id: &PeerNetworkId) -> (r: Option<PeerInfo>)
        requires
            self@.contains_key(peer_network_id.network_id),
        ensures
            match r {
                Some(info) => self@[peer_network_id.network_id].contains_key(peer_network_id.peer_id)
                    && info@ == self@[peer_network_id.network_id][peer_network_id.peer_id],
                None => !self@[peer_network_id.network_id].contains_key(peer_network_id.peer_id),
            },
    {
        match self.networks.get(peer_network_id.network_id) {
            Some(db) => db.read(&peer_network_id.peer_id),
            None => None,
        }
    }

    /// Copies of the descriptors of one network that `filter` accepts.
    pub fn read_filtered<F: Fn(PeerId, &PeerInfo) -> bool>(&self, network_id: NetworkId, filter: F) -> (r: Vec<
        (PeerNetworkId, PeerInfo),
    >)
        requires
            self@.contains_key(network_id),
            forall|k: PeerId, i: PeerInfo| call_requires(filter, (k, &i)),
        ensures
            filtered_result(r@, network_id, self.entries(network_id), filter),
    {
        let mut out: Vec<(PeerNetworkId, PeerInfo)> = Vec::new();
        match self.networks.get(network_id) {
            Some(db) => {
                let picked = db.read_filtered(filter);
                let mut i: usize = 0;
                while i < picked.len()
                    invariant
                        self.networks@.contains_key(network_id),
                        *db == self.networks@[network_id],
                        i <= picked@.len(),
                        out@.len() == i,
                        forall|j: int|
                            #![trigger out@[j]]
                            0 <= j < i ==> out@[j].0 == (PeerNetworkId { network_id, peer_id: picked@[j].0 })
                                && out@[j].1@ == picked@[j].1@,
                    decreases picked@.len() - i,
                {
                    let ghost before = out@;
                    out.push((PeerNetworkId::new(network_id, picked[i].0), picked[i].1.clone()));
                    proof {
                        assert forall|j: int| 0 <= j < i implies #[trigger] out@[j] == before[j] by {}
                    }
                    i = i + 1;
                }
                proof {
                    let ents = self.entries(network_id);
                    assert forall|j: int| #![trigger out@[j]] 0 <= j < out@.len() implies {
                        &&& out@[j].0.network_id == network_id
                        &&& ents.contains_key(out@[j].0.peer_id)
                        &&& out@[j].1@ == ents[out@[j].0.peer_id]@
                        &&& call_ensures(filter, (out@[j].0.peer_id, &ents[out@[j].0.peer_id]), true)
                    } by {
                        assert(picked@[j].0 == out@[j].0.peer_id);
                        db.lemma_view_is_entry_views();
                    }
                    assert forall|k: PeerId| #[trigger] ents.contains_key(k) implies (exists|j: int|
                        0 <= j < out@.len() && #[trigger] out@[j].0.peer_id == k) || call_ensures(
                        filter,
                        (k, &ents[k]),
                        false,
                    ) by {
                        if exists|j: int| 0 <= j < picked@.len() && #[trigger] picked@[j].0 == k {
                            let j = choose|j: int| 0 <= j < picked@.len() && #[trigger] picked@[j].0 == k;
                            assert(out@[j].0.peer_id == k);
                        }
                    }
                    assert forall|a: int, b: int| 0 <= a < b < out@.len() implies out@[a].0 != out@[b].0 by {
                        assert(picked@[a].0 != picked@[b].0);
                    }
                }
            },
            None => {},
        }
        out
    }

    /// Copies of the descriptors of every peer of one network.
    pub fn read_all(&self, network_id: NetworkId) -> (r: Vec<(PeerNetworkId, PeerInfo)>)
        requires
            self@.contains_key(network_id),
        ensures
            all_result(r@, network_id, self@[network_id]),
    {
        let any = |_peer_id: PeerId, _info: &PeerInfo| -> (keep: bool)
            ensures
                keep,
            { true };
        let r = self.read_filtered(network_id, any);
        proof {
            self.lemma_entries(network_id);
            let ents = self.entries(network_id);
            assert forall|k: PeerId| #[trigger] self@[network_id].contains_key(k) implies exists|j: int|
                0 <= j < r@.len() && #[trigger] r@[j].0.peer_id == k by {
                assert(ents.contains_key(k));
            }
        }
        r
    }
}

/// Once a connection is recorded on a network, reading that network gives the peer back,
/// reached over that connection, and every other network reads as before.
pub proof fn law_read_after_insert_connection(
    m: Map<NetworkId, Map<PeerId, PeerInfoView>>,
    network_id: NetworkId,
    connection_metadata: ConnectionMetadata,
    other: NetworkId,
)
    requires
        m.contains_key(network_id),
        other != network_id,
    ensures
        ({
            let after = m.insert(
                network_id,
                spec_insert(m[network_id], connection_metadata.remote_peer_id, connection_metadata),
            );
            &&& after[network_id].contains_key(connection_metadata.remote_peer_id)
            &&& after[network_id][connection_metadata.remote_peer_id].connection_metadata == connection_metadata
            &&& after.contains_key(other) == m.contains_key(other)
            &&& m.contains_key(other) ==> after[other] == m[other]
        }),
{
}

} // verus!
