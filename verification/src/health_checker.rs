//! The health checker's view of the network: its peers and its sender.
use vstd::prelude::*;

use crate::db::{spec_update_state, PeerDb};
use crate::ids::{ConnectionMetadata, PeerId};
use crate::management::{PeerManagementInterface, PeerStateChange};
use crate::types::{PeerError, PeerInfoView, PeerState};

verus! {

/// The peers of the health checker and the sender it talks to them with.
pub struct HealthCheckNetworkInterface<S> {
    peer_db: PeerDb,
    sender: S,
}

impl<S> HealthCheckNetworkInterface<S> {
    /// The sender this interface was built with.
    pub closed spec fn spec_sender(&self) -> S {
        self.sender
    }

    pub fn new(peer_db: PeerDb, sender: S) -> (r: HealthCheckNetworkInterface<S>)
        ensures
            r.managed_peers() == peer_db@,
            r.spec_sender() == sender,
    {
        HealthCheckNetworkInterface { peer_db, sender }
    }

    /// A copy of the sender.
    pub fn sender(&self) -> (r: S)
        where
            S: Clone,
        ensures
            cloned(self.spec_sender(), r),
    {
        self.sender.clone()
    }

    /// The sender, to talk to the network with; the peers are left as they are.
    pub fn sender_mut(&mut self) -> (r: &mut S)
        ensures
            *r == old(self).spec_sender(),
            final(self).spec_sender() == *final(r),
            final(self).managed_peers() == old(self).managed_peers(),
    {
        &mut self.sender
    }

    /// The peer database.
    pub fn db(&self) -> (r: &PeerDb)
        ensures
            r@ == self.managed_peers(),
    {
        &self.peer_db
    }

    /// First step of a disconnection: mark the peer as disconnecting, whether or not it is
    /// still known.
    pub fn start_disconnect(&mut self, peer_id: PeerId)
        ensures
            final(self).managed_peers() == spec_update_state(
                old(self).managed_peers(),
                peer_id,
                PeerState::Disconnecting,
            ),
            final(self).spec_sender() == old(self).spec_sender(),
    {
        let _ = self.peer_db.update_state(peer_id, PeerState::Disconnecting);
    }

    /// Last step of a disconnection, once the network has answered: on success the peer
    /// is removed; either way the network's answer is handed back.
    pub fn complete_disconnect<E>(&mut self, peer_id: PeerId, result: Result<(), E>) -> (r: Result<(), E>)
        ensures
            r == result,
            result is Ok ==> final(self).managed_peers() == old(self).managed_peers().remove(peer_id),
            result is Err ==> final(self).managed_peers() == old(self).managed_peers(),
            final(self).spec_sender() == old(self).spec_sender(),
    {
        if result.is_ok() {
            let _ = self.peer_db.remove(peer_id);
        }
        result
    }
}

impl<S> PeerManagementInterface for HealthCheckNetworkInterface<S> {
    closed spec fn managed_peers(&self) -> Map<PeerId, PeerInfoView> {
        self.peer_db@
    }

    fn new_connection(&mut self, connection_metadata: ConnectionMetadata) {
        self.peer_db.insert(connection_metadata.remote_peer_id, connection_metadata)
    }

    fn remove_peer(&mut self, peer_id: PeerId) -> (r: Result<(), PeerError>) {
        self.peer_db.remove(peer_id)
    }
}

impl<S> PeerStateChange for HealthCheckNetworkInterface<S> {
    closed spec fn tracked_peers(&self) -> Map<PeerId, PeerInfoView> {
        self.peer_db@
    }

    fn update_state(&mut self, peer_id: PeerId, state: PeerState) -> (r: Result<(), PeerError>) {
        self.peer_db.update_state(peer_id, state)
    }
}

/// A disconnection that the network confirms ends with the peer gone, whatever state it
/// was in; one the network refuses leaves the peer known and marked disconnecting.
pub proof fn law_disconnect_outcome(m: Map<PeerId, PeerInfoView>, peer_id: PeerId)
    ensures
        !spec_update_state(m, peer_id, PeerState::Disconnecting).remove(peer_id).contains_key(peer_id),
        spec_update_state(m, peer_id, PeerState::Disconnecting).remove(peer_id) == m.remove(peer_id),
        m.contains_key(peer_id) ==> spec_update_state(m, peer_id, PeerState::Disconnecting)[peer_id].status
            == PeerState::Disconnecting,
{
    assert(spec_update_state(m, peer_id, PeerState::Disconnecting).remove(peer_id) =~= m.remove(peer_id));
}

} // verus!
