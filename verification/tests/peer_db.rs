use network::db::PeerDb;
use network::ids::{ConnectionMetadata, ConnectionOrigin, PeerRole, ProtocolIdSet};
use network::management::{PeerDbManagementInterface, PeerManagementInterface, PeerStateChange};
use network::types::{PeerError, PeerInfo, PeerState};

fn metadata(peer: u128, origin: ConnectionOrigin) -> ConnectionMetadata {
    ConnectionMetadata::mock_with_role_and_origin(peer, PeerRole::Validator, origin)
}

#[test]
fn new_peer_info_is_healthy_without_scores() {
    let cm = metadata(7, ConnectionOrigin::Inbound);
    let info = PeerInfo::new(cm);
    assert_eq!(info.status, PeerState::Healthy);
    assert!(info.scores.is_empty());
    assert_eq!(info.connection_metadata, cm);
}

#[test]
fn insert_then_read() {
    let mut db = PeerDb::new();
    assert!(db.read(&1).is_none());
    let cm = metadata(1, ConnectionOrigin::Outbound);
    db.insert(1, cm);
    let info = db.read(&1).unwrap();
    assert_eq!(info.status, PeerState::Healthy);
    assert_eq!(info.connection_metadata, cm);
    assert!(db.read(&2).is_none());
}

#[test]
fn insert_known_peer_keeps_status_and_takes_new_metadata() {
    let mut db = PeerDb::new();
    db.insert(1, metadata(1, ConnectionOrigin::Outbound));
    assert_eq!(db.update_state(1, PeerState::Unhealthy), Ok(()));
    let newer = metadata(1, ConnectionOrigin::Inbound);
    db.insert(1, newer);
    let info = db.read(&1).unwrap();
    assert_eq!(info.status, PeerState::Unhealthy);
    assert_eq!(info.connection_metadata, newer);
}

#[test]
fn insert_is_idempotent() {
    let mut db = PeerDb::new();
    let cm = metadata(3, ConnectionOrigin::Inbound);
    db.insert(3, cm);
    db.insert(3, cm);
    let all = db.read_all();
    assert_eq!(all.len(), 1);
    assert_eq!(all.get(&3).unwrap().connection_metadata, cm);
}

#[test]
fn remove_known_then_unknown() {
    let mut db = PeerDb::new();
    db.insert(1, metadata(1, ConnectionOrigin::Outbound));
    db.insert(2, metadata(2, ConnectionOrigin::Outbound));
    assert_eq!(db.remove(1), Ok(()));
    assert!(db.read(&1).is_none());
    assert!(db.read(&2).is_some());
    assert_eq!(db.remove(1), Err(PeerError::NotFound));
}

#[test]
fn update_state_of_unknown_peer_is_not_found() {
    let mut db = PeerDb::new();
    assert_eq!(db.update_state(9, PeerState::Disconnecting), Err(PeerError::NotFound));
    assert!(db.read(&9).is_none());
}

#[test]
fn write_hands_the_entry_to_the_modifier() {
    let mut db = PeerDb::new();
    let cm = metadata(5, ConnectionOrigin::Inbound);
    // A vacant entry: the modifier inserts.
    let r = db.write(5, |entry: Option<PeerInfo>| {
        assert!(entry.is_none());
        (Some(PeerInfo::new(cm)), Ok(()))
    });
    assert_eq!(r, Ok(()));
    assert_eq!(db.read(&5).unwrap().connection_metadata, cm);
    // An occupied entry: the modifier removes and answers an error.
    let r = db.write(5, |entry: Option<PeerInfo>| {
        assert!(entry.is_some());
        (None, Err(PeerError::AlreadyExists))
    });
    assert_eq!(r, Err(PeerError::AlreadyExists));
    assert!(db.read(&5).is_none());
}

#[test]
fn read_filtered_keeps_accepted_peers() {
    let mut db = PeerDb::new();
    for p in 1..=4u128 {
        db.insert(p, metadata(p, ConnectionOrigin::Inbound));
    }
    db.update_state(2, PeerState::Disconnected).unwrap();
    db.update_state(4, PeerState::Disconnected).unwrap();
    let mut kept: Vec<u128> = db
        .read_filtered(|_, info: &PeerInfo| info.status == PeerState::Healthy)
        .into_iter()
        .map(|(p, _)| p)
        .collect();
    kept.sort();
    assert_eq!(kept, vec![1, 3]);
}

#[test]
fn management_interface_creates_and_removes_peers() {
    let mut mgmt = PeerDbManagementInterface::new(PeerDb::new());
    let cm = metadata(11, ConnectionOrigin::Outbound);
    mgmt.new_connection(cm);
    assert_eq!(mgmt.db().read(&11).unwrap().connection_metadata, cm);
    assert_eq!(mgmt.update_state(11, PeerState::Unhealthy), Ok(()));
    assert_eq!(mgmt.db().read(&11).unwrap().status, PeerState::Unhealthy);
    assert_eq!(mgmt.remove_peer(11), Ok(()));
    assert_eq!(mgmt.remove_peer(11), Err(PeerError::NotFound));
}

#[test]
fn protocol_sets() {
    let all = ProtocolIdSet::all_known();
    assert_eq!(all.bits, 0x3f);
    assert!(all.contains(network::ids::ProtocolId::HealthCheckerRpc));
    let none = ProtocolIdSet::empty();
    assert!(!none.contains(network::ids::ProtocolId::ConsensusRpc));
    assert_eq!(metadata(1, ConnectionOrigin::Inbound).application_protocols, none);
}
