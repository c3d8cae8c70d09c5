//! What the peer database records of each peer.
use std::collections::HashMap;
use vstd::prelude::*;

use crate::ids::{ConnectionMetadata, ProtocolId};

verus! {

#[derive(Clone, Debug, Eq, PartialEq)]
pub enum PeerError {
    AlreadyExists,
    NotFound,
    NetworkError(String),
    Parsing(String),
    RpcError(String),
    Timeout(String),
}

/// How a peer is doing.
#[derive(Clone, Copy, Debug, Ord, PartialOrd, Eq, PartialEq, Structural, Hash)]
pub enum PeerState {
    Healthy,
    Unhealthy,
    Disconnecting,
    Disconnected,
}

/// Descriptor of a peer and how it should rank.
#[derive(Debug)]
pub struct PeerInfo {
    pub status: PeerState,
    pub scores: HashMap<ProtocolId, u32>,
    pub connection_metadata: ConnectionMetadata,
}

/// The mathematical value of a `PeerInfo`.
pub struct PeerInfoView {
    pub status: PeerState,
    pub scores: Map<ProtocolId, u32>,
    pub connection_metadata: ConnectionMetadata,
}

impl View for PeerInfo {
    type V = PeerInfoView;

    open spec fn view(&self) -> PeerInfoView {
        PeerInfoView {
            status: self.status,
            scores: self.scores@,
            connection_metadata: self.connection_metadata,
        }
    }
}

/// The descriptor of a freshly connected peer.
pub open spec fn new_peer_info(connection_metadata: ConnectionMetadata) -> PeerInfoView {
    PeerInfoView {
        status: PeerState::Healthy,
        scores: Map::empty(),
        connection_metadata,
    }
}

impl PeerInfo {
    /// A healthy peer with no scores, reached over `connection_metadata`.
    pub fn new(connection_metadata: ConnectionMetadata) -> (r: PeerInfo)
        ensures
            r@ == new_peer_info(connection_metadata),
    {
        PeerInfo { status: PeerState::Healthy, scores: HashMap::new(), connection_metadata }
    }
}

impl Clone for PeerInfo {
    fn clone(&self) -> (r: PeerInfo)
        ensures
            r@ == self@,
    {
        PeerInfo {
            status: self.status,
            scores: self.scores.clone(),
            connection_metadata: self.connection_metadata,
        }
    }
}

} // verus!
