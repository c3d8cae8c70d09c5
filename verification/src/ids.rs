//! Identifiers and connection descriptors shared by the networking layer.
use vstd::prelude::*;

verus! {

/// The identity of a peer: a 16-byte account address, held as one integer.
pub type PeerId = u128;

/// The networks a node can take part in, in priority order.
#[derive(Clone, Copy, Debug, PartialEq, Eq, Structural, Hash, PartialOrd, Ord)]
pub enum NetworkId {
    Validator,
    Vfn,
    Public,
}

impl NetworkId {
    /// The priority of a network: a lower rank is preferred.
    pub open spec fn spec_rank(self) -> u8 {
        match self {
            NetworkId::Validator => 0,
            NetworkId::Vfn => 3,
            NetworkId::Public => 4,
        }
    }

    pub fn rank(&self) -> (r: u8)
        ensures
            r == self.spec_rank(),
    {
        match self {
            NetworkId::Validator => 0,
            NetworkId::Vfn => 3,
            NetworkId::Public => 4,
        }
    }

    /// `self` comes strictly before `other` in priority order.
    pub open spec fn precedes(self, other: NetworkId) -> bool {
        self.spec_rank() < other.spec_rank()
    }
}

/// A peer on a given network.
#[derive(Clone, Copy, Debug, PartialEq, Eq, Structural, Hash, PartialOrd, Ord)]
pub struct PeerNetworkId {
    pub network_id: NetworkId,
    pub peer_id: PeerId,
}

impl PeerNetworkId {
    pub fn new(network_id: NetworkId, peer_id: PeerId) -> (r: PeerNetworkId)
        ensures
            r.network_id == network_id,
            r.peer_id == peer_id,
    {
        PeerNetworkId { network_id, peer_id }
    }

    pub fn network_id(&self) -> (r: NetworkId)
        ensures
            r == self.network_id,
    {
        self.network_id
    }

    pub fn peer_id(&self) -> (r: PeerId)
        ensures
            r == self.peer_id,
    {
        self.peer_id
    }
}

/// The role a node plays for itself.
#[derive(Clone, Copy, Debug, PartialEq, Eq, Structural, Hash)]
pub enum RoleType {
    Validator,
    FullNode,
}

/// The role a remote peer plays, as seen by this node.
#[derive(Clone, Copy, Debug, PartialEq, Eq, Structural, Hash)]
pub enum PeerRole {
    Validator,
    PreferredUpstream,
    Upstream,
    ValidatorFullNode,
    Downstream,
    Known,
    Unknown,
}

/// Which side opened a connection.
#[derive(Clone, Copy, Debug, PartialEq, Eq, Structural, Hash)]
pub enum ConnectionOrigin {
    Inbound,
    Outbound,
}

/// The application protocols that the network layer knows.
#[derive(Clone, Copy, Debug, PartialEq, Eq, Structural, Hash)]
pub enum ProtocolId {
    ConsensusRpc,
    ConsensusDirectSend,
    MempoolDirectSend,
    StateSyncDirectSend,
    DiscoveryDirectSend,
    HealthCheckerRpc,
}

impl ProtocolId {
    /// The wire number of a protocol.
    pub open spec fn spec_number(self) -> u8 {
        match self {
            ProtocolId::ConsensusRpc => 0,
            ProtocolId::ConsensusDirectSend => 1,
            ProtocolId::MempoolDirectSend => 2,
            ProtocolId::StateSyncDirectSend => 3,
            ProtocolId::DiscoveryDirectSend => 4,
            ProtocolId::HealthCheckerRpc => 5,
        }
    }

    pub fn number(&self) -> (r: u8)
        ensures
            r == self.spec_number(),
    {
        match self {
            ProtocolId::ConsensusRpc => 0,
            ProtocolId::ConsensusDirectSend => 1,
            ProtocolId::MempoolDirectSend => 2,
            ProtocolId::StateSyncDirectSend => 3,
            ProtocolId::DiscoveryDirectSend => 4,
            ProtocolId::HealthCheckerRpc => 5,
        }
    }
}

/// A set of application protocols, one bit per protocol number.
#[derive(Clone, Copy, Debug, PartialEq, Eq, Structural, Hash)]
pub struct ProtocolIdSet {
    pub bits: u64,
}

/// Bit `n` of `bits` is set.
pub open spec fn bit_set(bits: u64, n: u8) -> bool {
    (bits >> n) & 1u64 == 1u64
}

/// The set of every known protocol.
pub open spec fn all_known_protocols() -> ProtocolIdSet {
    ProtocolIdSet { bits: 0x3f }
}

impl ProtocolIdSet {
    pub open spec fn spec_contains(self, p: ProtocolId) -> bool {
        bit_set(self.bits, p.spec_number())
    }

    /// The set with no protocol.
    pub fn empty() -> (r: ProtocolIdSet)
        ensures
            r == (ProtocolIdSet { bits: 0 }),
            forall|p: ProtocolId| !#[trigger] r.spec_contains(p),
    {
        let r = ProtocolIdSet { bits: 0 };
        assert forall|p: ProtocolId| !#[trigger] r.spec_contains(p) by {
            let n = p.spec_number();
            assert((0u64 >> n) & 1u64 == 0u64) by (bit_vector);
        }
        r
    }

    /// The set of every known protocol.
    pub fn all_known() -> (r: ProtocolIdSet)
        ensures
            r == all_known_protocols(),
            forall|p: ProtocolId| #[trigger] r.spec_contains(p),
    {
        let r = ProtocolIdSet { bits: 0x3f };
        assert forall|p: ProtocolId| #[trigger] r.spec_contains(p) by {
            let n = p.spec_number();
            assert(n < 6);
            assert(n < 6 ==> (0x3fu64 >> n) & 1u64 == 1u64) by (bit_vector);
        }
        r
    }

    pub fn contains(&self, p: ProtocolId) -> (r: bool)
        ensures
            r == self.spec_contains(p),
    {
        let n = p.number();
        (self.bits >> n) & 1u64 == 1u64
    }
}

/// What is known of an open connection to a remote peer.
#[derive(Clone, Copy, Debug, PartialEq, Eq, Structural, Hash)]
pub struct ConnectionMetadata {
    pub remote_peer_id: PeerId,
    pub origin: ConnectionOrigin,
    pub application_protocols: ProtocolIdSet,
    pub role: PeerRole,
}

impl ConnectionMetadata {
    /// Metadata for a test connection: the given peer, role and origin, and no protocols.
    pub fn mock_with_role_and_origin(
        remote_peer_id: PeerId,
        role: PeerRole,
        origin: ConnectionOrigin,
    ) -> (r: ConnectionMetadata)
        ensures
            r.remote_peer_id == remote_peer_id,
            r.role == role,
            r.origin == origin,
            r.application_protocols == (ProtocolIdSet { bits: 0 }),
            forall|p: ProtocolId| !#[trigger] r.application_protocols.spec_contains(p),
    {
        ConnectionMetadata {
            remote_peer_id,
            origin,
            application_protocols: ProtocolIdSet::empty(),
            role,
        }
    }
}

/// The context a network runs in on a node: its role, the network and its own peer id.
#[derive(Clone, Copy, Debug, PartialEq, Eq, Structural, Hash)]
pub struct NetworkContext {
    pub role: RoleType,
    pub network_id: NetworkId,
    pub peer_id: PeerId,
}

impl NetworkContext {
    pub fn new(role: RoleType, network_id: NetworkId, peer_id: PeerId) -> (r: NetworkContext)
        ensures
            r == (NetworkContext { role, network_id, peer_id }),
    {
        NetworkContext { role, network_id, peer_id }
    }
}

/// Why a connection went away.
#[derive(Clone, Copy, Debug, PartialEq, Eq, Structural, Hash)]
pub enum DisconnectReason {
    Requested,
    ConnectionLost,
}

/// A notification that the network layer hands to an application about a connection.
#[derive(Clone, Copy, Debug, PartialEq, Eq, Structural, Hash)]
pub enum ConnectionNotification {
    NewPeer(ConnectionMetadata, NetworkContext),
    LostPeer(ConnectionMetadata, NetworkContext, DisconnectReason),
}

} // verus!
