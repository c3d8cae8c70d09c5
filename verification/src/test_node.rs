//! A node in a network test: who it is, which networks it is on, and whom it knows.
use vstd::prelude::*;

use crate::db::spec_insert;
use crate::ids::{
    all_known_protocols, ConnectionMetadata, ConnectionNotification, ConnectionOrigin,
    DisconnectReason, NetworkContext, NetworkId, PeerId, PeerNetworkId, PeerRole, ProtocolId,
    ProtocolIdSet, RoleType,
};
use crate::network_map::{lists_keys_in_order, NetworkIdMap};
use crate::scripts::{decimal, decimal_string};
use crate::storage::PeerMetadataStorage;
use crate::types::{PeerInfoView, PeerState};

verus! {

/// The kind of a node.
#[derive(Clone, Copy, Debug, Eq, PartialEq, Structural, Ord, PartialOrd, Hash)]
pub enum NodeType {
    Validator,
    ValidatorFullNode,
    PublicFullNode,
}

/// A unique identifier of a node across the entire network.
#[derive(Clone, Copy, Debug, Eq, PartialEq, Structural, Ord, PartialOrd, Hash)]
pub struct NodeId {
    pub owner: u32,
    pub node_type: NodeType,
}

impl NodeId {
    pub fn validator(owner: u32) -> (r: NodeId)
        ensures
            r == (NodeId { owner, node_type: NodeType::Validator }),
    {
        NodeId { owner, node_type: NodeType::Validator }
    }

    pub fn vfn(owner: u32) -> (r: NodeId)
        ensures
            r == (NodeId { owner, node_type: NodeType::ValidatorFullNode }),
    {
        NodeId { owner, node_type: NodeType::ValidatorFullNode }
    }

    pub fn pfn(owner: u32) -> (r: NodeId)
        ensures
            r == (NodeId { owner, node_type: NodeType::PublicFullNode }),
    {
        NodeId { owner, node_type: NodeType::PublicFullNode }
    }
}

/// The name of a node kind.
pub open spec fn node_type_name(node_type: NodeType) -> Seq<char> {
    match node_type {
        NodeType::Validator => "Validator"@,
        NodeType::ValidatorFullNode => "ValidatorFullNode"@,
        NodeType::PublicFullNode => "PublicFullNode"@,
    }
}

impl NodeId {
    /// How a node is written: its owner in decimal, a dash, and the name of its kind.
    pub fn display(&self) -> (r: String)
        ensures
            r@ == decimal(self.owner as nat) + "-"@ + node_type_name(self.node_type),
    {
        let mut s = decimal_string(self.owner as u64);
        s.append("-");
        match self.node_type {
            NodeType::Validator => s.append("Validator"),
            NodeType::ValidatorFullNode => s.append("ValidatorFullNode"),
            NodeType::PublicFullNode => s.append("PublicFullNode"),
        }
        s
    }
}

/// The role a node of this kind plays for itself: validators validate, the rest are full nodes.
pub open spec fn spec_role(node_type: NodeType) -> RoleType {
    match node_type {
        NodeType::Validator => RoleType::Validator,
        _ => RoleType::FullNode,
    }
}

/// The role other nodes see a node of this kind in.
pub open spec fn spec_peer_role(node_type: NodeType) -> PeerRole {
    match node_type {
        NodeType::Validator => PeerRole::Validator,
        NodeType::ValidatorFullNode => PeerRole::ValidatorFullNode,
        NodeType::PublicFullNode => PeerRole::Unknown,
    }
}

/// The mathematical value of a `TestNode`.
pub struct TestNodeView {
    pub node_id: NodeId,
    pub peer_network_ids: Map<NetworkId, PeerNetworkId>,
    pub peers: Map<NetworkId, Map<PeerId, PeerInfoView>>,
}

impl TestNodeView {
    /// Each network the node is on names the node's own identity there, and has a peer
    /// table.
    pub open spec fn wf(self) -> bool {
        forall|n: NetworkId| #[trigger] self.peer_network_ids.contains_key(n) ==> {
            &&& self.peer_network_ids[n].network_id == n
            &&& self.peers.contains_key(n)
        }
    }

    /// The metadata another node records for a connection to this one on `network_id`.
    pub open spec fn conn_metadata(
        self,
        network_id: NetworkId,
        origin: ConnectionOrigin,
        maybe_protocols: Option<ProtocolIdSet>,
    ) -> ConnectionMetadata {
        ConnectionMetadata {
            remote_peer_id: self.peer_network_ids[network_id].peer_id,
            origin,
            application_protocols: match maybe_protocols {
                Some(p) => p,
                None => all_known_protocols(),
            },
            role: spec_peer_role(self.node_id.node_type),
        }
    }

    /// The context of this node on `network_id`.
    pub open spec fn context(self, network_id: NetworkId) -> NetworkContext {
        NetworkContext {
            role: spec_role(self.node_id.node_type),
            network_id,
            peer_id: self.peer_network_ids[network_id].peer_id,
        }
    }

    /// The node after it recorded a connection on `network_id`.
    pub open spec fn after_connect(self, network_id: NetworkId, metadata: ConnectionMetadata) -> TestNodeView {
        TestNodeView {
            peers: self.peers.insert(
                network_id,
                spec_insert(self.peers[network_id], metadata.remote_peer_id, metadata),
            ),
            ..self
        }
    }

    /// The node after it forgot a connection on `network_id`.
    pub open spec fn after_disconnect(self, network_id: NetworkId, metadata: ConnectionMetadata) -> TestNodeView {
        TestNodeView {
            peers: self.peers.insert(network_id, self.peers[network_id].remove(metadata.remote_peer_id)),
            ..self
        }
    }

    /// This node knows `other` as a peer on `network_id`.
    pub open spec fn knows(self, other: TestNodeView, network_id: NetworkId) -> bool {
        self.peers[network_id].contains_key(other.peer_network_ids[network_id].peer_id)
    }
}

/// The networking side of a test node.
pub struct TestNode {
    node_id: NodeId,
    peer_network_ids: NetworkIdMap<PeerNetworkId>,
    peer_metadata_storage: PeerMetadataStorage,
}

impl View for TestNode {
    type V = TestNodeView;

    closed spec fn view(&self) -> TestNodeView {
        TestNodeView {
            node_id: self.node_id,
            peer_network_ids: self.peer_network_ids@,
            peers: self.peer_metadata_storage@,
        }
    }
}

impl TestNode {
    /// A node that is on the network of each of `peer_network_ids`, under that identity,
    /// and knows no peer yet. Where a network is named twice, the last identity stands.
    pub fn new(node_id: NodeId, peer_network_ids: &[PeerNetworkId]) -> (r: TestNode)
        ensures
            r@.wf(),
            r@.node_id == node_id,
            forall|n: NetworkId|
                #[trigger] r@.peer_network_ids.contains_key(n) <==> exists|i: int|
                    0 <= i < peer_network_ids@.len() && peer_network_ids@[i].network_id == n,
            forall|n: NetworkId|
                #[trigger] r@.peer_network_ids.contains_key(n) ==> exists|i: int|
                    0 <= i < peer_network_ids@.len() && peer_network_ids@[i] == r@.peer_network_ids[n]
                        && forall|j: int| i < j < peer_network_ids@.len() ==> peer_network_ids@[j].network_id != n,
            r@.peers.dom() == r@.peer_network_ids.dom(),
            forall|n: NetworkId| #[trigger] r@.peers.contains_key(n) ==> r@.peers[n] == Map::<PeerId, PeerInfoView>::empty(),
    {
        let mut ids: NetworkIdMap<PeerNetworkId> = NetworkIdMap::new();
        let mut networks: Vec<NetworkId> = Vec::new();
        let mut i: usize = 0;
        while i < peer_network_ids.len()
            invariant
                i <= peer_network_ids@.len(),
                networks@.len() == i,
                forall|j: int| 0 <= j < i ==> #[trigger] networks@[j] == peer_network_ids@[j].network_id,
                forall|n: NetworkId|
                    #[trigger] ids@.contains_key(n) <==> exists|j: int| 0 <= j < i && peer_network_ids@[j].network_id == n,
                forall|n: NetworkId|
                    #[trigger] ids@.contains_key(n) ==> ids@[n].network_id == n && exists|j: int|
                        0 <= j < i && peer_network_ids@[j] == ids@[n] && forall|k: int|
                            j < k < i ==> peer_network_ids@[k].network_id != n,
            decreases peer_network_ids@.len() - i,
        {
            let pnid = peer_network_ids[i];
            let ghost before = ids@;
            ids.insert(pnid.network_id, pnid);
            networks.push(pnid.network_id);
            proof {
                assert forall|n: NetworkId| #[trigger] ids@.contains_key(n) implies ids@[n].network_id == n
                    && exists|j: int| 0 <= j < i + 1 && peer_network_ids@[j] == ids@[n] && forall|k: int|
                        j < k < i + 1 ==> peer_network_ids@[k].network_id != n by {
                    if n != pnid.network_id {
                        let j = choose|j: int| 0 <= j < i && peer_network_ids@[j] == before[n] && forall|k: int|
                            j < k < i ==> peer_network_ids@[k].network_id != n;
                        assert(peer_network_ids@[j] == ids@[n]);
                        assert forall|k: int| j < k < i + 1 implies peer_network_ids@[k].network_id != n by {
                            if k == i {
                                assert(peer_network_ids@[k] == pnid);
                            }
                        }
                    } else {
                        assert(peer_network_ids@[i as int] == ids@[n]);
                    }
                }
                assert forall|n: NetworkId| #[trigger] ids@.contains_key(n) <==> exists|j: int|
                    0 <= j < i + 1 && peer_network_ids@[j].network_id == n by {
                    if n == pnid.network_id {
                        assert(peer_network_ids@[i as int].network_id == n);
                    } else if exists|j: int| 0 <= j < i + 1 && peer_network_ids@[j].network_id == n {
                        let j = choose|j: int| 0 <= j < i + 1 && peer_network_ids@[j].network_id == n;
                        assert(j < i);
                    }
                }
            }
            i = i + 1;
        }
        let storage = PeerMetadataStorage::new(networks.as_slice());
        proof {
            assert forall|n: NetworkId| storage@.contains_key(n) <==> ids@.contains_key(n) by {
                if networks@.contains(n) {
                    let j = choose|j: int| 0 <= j < networks@.len() && networks@[j] == n;
                    assert(peer_network_ids@[j].network_id == n);
                }
                if ids@.contains_key(n) {
                    let j = choose|j: int| 0 <= j < i && peer_network_ids@[j].network_id == n;
                    assert(networks@[j] == n);
                }
            }
            assert(storage@.dom() =~= ids@.dom());
        }
        TestNode { node_id, peer_network_ids: ids, peer_metadata_storage: storage }
    }

    pub fn node_id(&self) -> (r: NodeId)
        ensures
            r == self@.node_id,
    {
        self.node_id
    }

    pub fn node_type(&self) -> (r: NodeType)
        ensures
            r == self@.node_id.node_type,
    {
        self.node_id.node_type
    }

    pub fn peer_metadata_storage(&self) -> (r: &PeerMetadataStorage)
        ensures
            r@ == self@.peers,
    {
        &self.peer_metadata_storage
    }

    pub fn peer_network_ids(&self) -> (r: &NetworkIdMap<PeerNetworkId>)
        ensures
            r@ == self@.peer_network_ids,
    {
        &self.peer_network_ids
    }

    /// The node's own identity on `network_id`, which it must be on.
    pub fn peer_network_id(&self, network_id: NetworkId) -> (r: PeerNetworkId)
        requires
            self@.peer_network_ids.contains_key(network_id),
        ensures
            r == self@.peer_network_ids[network_id],
    {
        match self.peer_network_ids.get(network_id) {
            Some(pnid) => *pnid,
            None => PeerNetworkId::new(network_id, 0),
        }
    }

    /// The networks the node is on, in priority order.
    pub fn network_ids(&self) -> (r: Vec<NetworkId>)
        ensures
            lists_keys_in_order(r@, self@.peer_network_ids.dom()),
    {
        self.peer_network_ids.keys()
    }

    pub fn role(&self) -> (r: RoleType)
        ensures
            r == spec_role(self@.node_id.node_type),
    {
        match self.node_id.node_type {
            NodeType::Validator => RoleType::Validator,
            _ => RoleType::FullNode,
        }
    }

    pub fn peer_role(&self) -> (r: PeerRole)
        ensures
            r == spec_peer_role(self@.node_id.node_type),
    {
        match self.node_id.node_type {
            NodeType::Validator => PeerRole::Validator,
            NodeType::ValidatorFullNode => PeerRole::ValidatorFullNode,
            NodeType::PublicFullNode => PeerRole::Unknown,
        }
    }

    /// Record a new connection on `network_id`, and give the notification that the node's
    /// network hands its application.
    pub fn connect(&mut self, network_id: NetworkId, metadata: ConnectionMetadata) -> (r: ConnectionNotification)
        requires
            old(self)@.wf(),
            old(self)@.peer_network_ids.contains_key(network_id),
        ensures
            final(self)@ == old(self)@.after_connect(network_id, metadata),
            r == ConnectionNotification::NewPeer(metadata, old(self)@.context(network_id)),
    {
        let self_peer_id = self.peer_network_id(network_id).peer_id();
        let network_context = NetworkContext::new(self.role(), network_id, self_peer_id);
        let notif = ConnectionNotification::NewPeer(metadata, network_context);
        self.peer_metadata_storage.insert_connection(network_id, metadata);
        notif
    }

    /// Forget a connection on `network_id`, and give the notification that the node's
    /// network hands its application.
    pub fn disconnect(&mut self, network_id: NetworkId, metadata: ConnectionMetadata) -> (r: ConnectionNotification)
        requires
            old(self)@.wf(),
            old(self)@.peer_network_ids.contains_key(network_id),
        ensures
            final(self)@ == old(self)@.after_disconnect(network_id, metadata),
            r == ConnectionNotification::LostPeer(
                metadata,
                old(self)@.context(network_id),
                DisconnectReason::ConnectionLost,
            ),
    {
        let self_peer_id = self.peer_network_id(network_id).peer_id();
        let remote_peer_id = metadata.remote_peer_id;
        let network_context = NetworkContext::new(self.role(), network_id, self_peer_id);
        let notif = ConnectionNotification::LostPeer(
            metadata,
            network_context,
            DisconnectReason::ConnectionLost,
        );
        let _ = self.peer_metadata_storage.remove(&PeerNetworkId::new(network_id, remote_peer_id));
        notif
    }

    /// The metadata another node records for a connection to this one on `network_id`:
    /// this node's identity and role there, the given origin, and the given protocols or,
    /// when none are given, every known one.
    pub fn conn_metadata(
        &self,
        network_id: NetworkId,
        origin: ConnectionOrigin,
        maybe_protocols: Option<ProtocolIdSet>,
    ) -> (r: ConnectionMetadata)
        requires
            self@.peer_network_ids.contains_key(network_id),
        ensures
            r == self@.conn_metadata(network_id, origin, maybe_protocols),
    {
        let peer_network_id = self.peer_network_id(network_id);
        let mut metadata = ConnectionMetadata::mock_with_role_and_origin(
            peer_network_id.peer_id(),
            self.peer_role(),
            origin,
        );
        match maybe_protocols {
            Some(protocols) => {
                metadata.application_protocols = protocols;
            },
            None => {
                metadata.application_protocols = ProtocolIdSet::all_known();
            },
        }
        metadata
    }
}

/// Only validator nodes play the validator role; every other node is a full node.
pub proof fn law_only_validators_validate(node_type: NodeType)
    ensures
        (spec_role(node_type) == RoleType::Validator) <==> (node_type == NodeType::Validator),
        (spec_role(node_type) == RoleType::FullNode) <==> (node_type != NodeType::Validator),
{
}

/// Other nodes see a validator as a validator and a validator full node as a validator
/// full node; nodes of different kinds are seen in different roles.
pub proof fn law_peer_role_tells_kinds_apart(a: NodeType, b: NodeType)
    ensures
        (spec_peer_role(a) == PeerRole::Validator) <==> (a == NodeType::Validator),
        (spec_peer_role(a) == PeerRole::ValidatorFullNode) <==> (a == NodeType::ValidatorFullNode),
        spec_peer_role(a) == spec_peer_role(b) ==> a == b,
{
}

/// A node's context on a network names that network and the node's own identity there,
/// and says validator exactly when the node is one.
pub proof fn law_context_names_the_node(v: TestNodeView, network_id: NetworkId)
    ensures
        v.context(network_id).network_id == network_id,
        v.context(network_id).peer_id == v.peer_network_ids[network_id].peer_id,
        (v.context(network_id).role == RoleType::Validator) <==> (v.node_id.node_type == NodeType::Validator),
{
}

/// The metadata of a connection to a node names the node's identity on that network, the
/// origin asked for and the role others see the node in; given protocols are kept as
/// given, whatever the origin or network, and with none given every known protocol is
/// offered.
pub proof fn law_conn_metadata_keeps_what_is_given(
    v: TestNodeView,
    network_id: NetworkId,
    origin: ConnectionOrigin,
    maybe_protocols: Option<ProtocolIdSet>,
)
    ensures
        v.conn_metadata(network_id, origin, maybe_protocols).remote_peer_id == v.peer_network_ids[network_id].peer_id,
        v.conn_metadata(network_id, origin, maybe_protocols).origin == origin,
        v.conn_metadata(network_id, origin, maybe_protocols).role == spec_peer_role(v.node_id.node_type),
        maybe_protocols matches Some(p) ==> v.conn_metadata(network_id, origin, maybe_protocols).application_protocols == p,
        maybe_protocols is None ==> forall|p: ProtocolId|
            #[trigger] v.conn_metadata(network_id, origin, maybe_protocols).application_protocols.spec_contains(p),
{
    if maybe_protocols is None {
        assert forall|p: ProtocolId|
            #[trigger] v.conn_metadata(network_id, origin, maybe_protocols).application_protocols.spec_contains(p) by {
            let n = p.spec_number();
            assert(n < 6);
            assert(n < 6 ==> (0x3fu64 >> n) & 1u64 == 1u64) by (bit_vector);
        }
    }
}

/// After a node records a connection on a network, the remote peer reads back there with
/// exactly the metadata passed in: a new peer healthy, a known one in the state it was.
/// The node's other peers there, its other networks and its identities stay as they were.
pub proof fn law_connect_records_metadata(v: TestNodeView, network_id: NetworkId, metadata: ConnectionMetadata)
    ensures
        v.after_connect(network_id, metadata).node_id == v.node_id,
        v.after_connect(network_id, metadata).peer_network_ids == v.peer_network_ids,
        v.after_connect(network_id, metadata).peers.contains_key(network_id),
        v.after_connect(network_id, metadata).peers[network_id].contains_key(metadata.remote_peer_id),
        v.after_connect(network_id, metadata).peers[network_id][metadata.remote_peer_id].connection_metadata
            == metadata,
        !v.peers[network_id].contains_key(metadata.remote_peer_id) ==> v.after_connect(network_id, metadata).peers[network_id][metadata.remote_peer_id].status
            == PeerState::Healthy,
        v.peers[network_id].contains_key(metadata.remote_peer_id) ==> v.after_connect(network_id, metadata).peers[network_id][metadata.remote_peer_id].status
            == v.peers[network_id][metadata.remote_peer_id].status,
        v.after_connect(network_id, metadata).peers[network_id].remove(metadata.remote_peer_id)
            == v.peers[network_id].remove(metadata.remote_peer_id),
        v.after_connect(network_id, metadata).peers.remove(network_id) == v.peers.remove(network_id),
{
    let after = v.after_connect(network_id, metadata);
    assert(after.peers[network_id].remove(metadata.remote_peer_id) =~= v.peers[network_id].remove(metadata.remote_peer_id));
    assert(after.peers.remove(network_id) =~= v.peers.remove(network_id));
}

/// After a node forgets a connection on a network, the remote peer is gone from there;
/// the node's other peers there, its other networks and its identities stay as they were.
pub proof fn law_disconnect_forgets_peer(v: TestNodeView, network_id: NetworkId, metadata: ConnectionMetadata)
    ensures
        v.after_disconnect(network_id, metadata).node_id == v.node_id,
        v.after_disconnect(network_id, metadata).peer_network_ids == v.peer_network_ids,
        v.after_disconnect(network_id, metadata).peers.contains_key(network_id),
        !v.after_disconnect(network_id, metadata).peers[network_id].contains_key(metadata.remote_peer_id),
        v.after_disconnect(network_id, metadata).peers[network_id] == v.peers[network_id].remove(metadata.remote_peer_id),
        v.after_disconnect(network_id, metadata).peers.remove(network_id) == v.peers.remove(network_id),
{
    let after = v.after_disconnect(network_id, metadata);
    assert(after.peers.remove(network_id) =~= v.peers.remove(network_id));
}

/// Forgetting a connection just recorded leaves the node's peers on that network as they
/// were, but for that peer, which is gone.
pub proof fn law_connect_then_disconnect_node(v: TestNodeView, network_id: NetworkId, metadata: ConnectionMetadata)
    ensures
        v.after_connect(network_id, metadata).after_disconnect(network_id, metadata).peers[network_id]
            == v.peers[network_id].remove(metadata.remote_peer_id),
        v.after_connect(network_id, metadata).after_disconnect(network_id, metadata).peers.remove(network_id)
            == v.peers.remove(network_id),
{
    let twice = v.after_connect(network_id, metadata).after_disconnect(network_id, metadata);
    assert(twice.peers[network_id] =~= v.peers[network_id].remove(metadata.remote_peer_id));
    assert(twice.peers.remove(network_id) =~= v.peers.remove(network_id));
}

} // verus!
