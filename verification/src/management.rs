//! How the peer manager creates and removes peers, and how their state changes.
use vstd::prelude::*;

use crate::db::{found_or_not, spec_insert, spec_update_state, PeerDb};
use crate::ids::{ConnectionMetadata, PeerId};
use crate::types::{PeerError, PeerInfoView, PeerState};

verus! {

/// Creating and removing peers, which should be done by the peer manager.
pub trait PeerManagementInterface {
    /// The peers this interface manages.
    spec fn managed_peers(&self) -> Map<PeerId, PeerInfoView>;

    /// Create a new peer, or refresh the connection of a known one.
    fn new_connection(&mut self, connection_metadata: ConnectionMetadata)
        ensures
            final(self).managed_peers() == spec_insert(
                old(self).managed_peers(),
                connection_metadata.remote_peer_id,
                connection_metadata,
            ),
    ;

    /// Remove a peer; `NotFound` when it is unknown.
    fn remove_peer(&mut self, peer_id: PeerId) -> (r: Result<(), PeerError>)
        ensures
            final(self).managed_peers() == old(self).managed_peers().remove(peer_id),
            r == found_or_not(old(self).managed_peers(), peer_id),
    ;
}

/// Changing the state of known peers.
pub trait PeerStateChange {
    /// The peers whose state this interface changes.
    spec fn tracked_peers(&self) -> Map<PeerId, PeerInfoView>;

    /// Set the status of a known peer; `NotFound` when it is unknown.
    fn update_state(&mut self, peer_id: PeerId, state: PeerState) -> (r: Result<(), PeerError>)
        ensures
            final(self).tracked_peers() == spec_update_state(old(self).tracked_peers(), peer_id, state),
            r == found_or_not(old(self).tracked_peers(), peer_id),
    ;
}

/// Peer management over a `PeerDb`.
pub struct PeerDbManagementInterface {
    db: PeerDb,
}

impl PeerDbManagementInterface {
    pub fn new(db: PeerDb) -> (r: PeerDbManagementInterface)
        ensures
            r.managed_peers() == db@,
    {
        PeerDbManagementInterface { db }
    }

    /// The database being managed.
    pub fn db(&self) -> (r: &PeerDb)
        ensures
            r@ == self.managed_peers(),
    {
        &self.db
    }
}

impl PeerManagementInterface for PeerDbManagementInterface {
    closed spec fn managed_peers(&self) -> Map<PeerId, PeerInfoView> {
        self.db@
    }

    fn new_connection(&mut self, connection_metadata: ConnectionMetadata) {
        self.db.insert(connection_metadata.remote_peer_id, connection_metadata)
    }

    fn remove_peer(&mut self, peer_id: PeerId) -> (r: Result<(), PeerError>) {
        self.db.remove(peer_id)
    }
}

impl PeerStateChange for PeerDbManagementInterface {
    closed spec fn tracked_peers(&self) -> Map<PeerId, PeerInfoView> {
        self.db@
    }

    fn update_state(&mut self, peer_id: PeerId, state: PeerState) -> (r: Result<(), PeerError>) {
        self.db.update_state(peer_id, state)
    }
}

} // verus!
