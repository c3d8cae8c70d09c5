use network::db::PeerDb;
use network::health_checker::HealthCheckNetworkInterface;
use network::ids::{ConnectionMetadata, ConnectionOrigin, NetworkId, PeerNetworkId, PeerRole};
use network::management::PeerManagementInterface;
use network::storage::PeerMetadataStorage;
use network::types::{PeerError, PeerInfo, PeerState};

fn metadata(peer: u128) -> ConnectionMetadata {
    ConnectionMetadata::mock_with_role_and_origin(peer, PeerRole::Upstream, ConnectionOrigin::Inbound)
}

#[test]
fn storage_has_the_networks_it_was_built_for() {
    let storage = PeerMetadataStorage::new(&[NetworkId::Public, NetworkId::Validator, NetworkId::Public]);
    assert!(storage.has_network(NetworkId::Public));
    assert!(storage.has_network(NetworkId::Validator));
    assert!(!storage.has_network(NetworkId::Vfn));
    assert!(storage.read_all(NetworkId::Public).is_empty());
}

#[test]
fn storage_keeps_networks_apart() {
    let mut storage = PeerMetadataStorage::new(&[NetworkId::Validator, NetworkId::Vfn]);
    storage.insert_connection(NetworkId::Validator, metadata(1));
    assert!(storage.read(&PeerNetworkId::new(NetworkId::Validator, 1)).is_some());
    assert!(storage.read(&PeerNetworkId::new(NetworkId::Vfn, 1)).is_none());
    let all = storage.read_all(NetworkId::Validator);
    assert_eq!(all.len(), 1);
    assert_eq!(all[0].0, PeerNetworkId::new(NetworkId::Validator, 1));
    assert_eq!(all[0].1.connection_metadata, metadata(1));
    assert_eq!(storage.remove(&PeerNetworkId::new(NetworkId::Vfn, 1)), Err(PeerError::NotFound));
    assert_eq!(storage.remove(&PeerNetworkId::new(NetworkId::Validator, 1)), Ok(()));
    assert!(storage.read_all(NetworkId::Validator).is_empty());
}

#[test]
fn storage_read_filtered() {
    let mut storage = PeerMetadataStorage::new(&[NetworkId::Public]);
    for p in [10u128, 20, 30] {
        storage.insert_connection(NetworkId::Public, metadata(p));
    }
    let mut picked: Vec<u128> = storage
        .read_filtered(NetworkId::Public, |peer, _info: &PeerInfo| peer >= 20)
        .into_iter()
        .map(|(pnid, _)| pnid.peer_id())
        .collect();
    picked.sort();
    assert_eq!(picked, vec![20, 30]);
}

#[derive(Clone, Debug, PartialEq)]
struct FakeSender(u32);

#[test]
fn disconnect_confirmed_removes_the_peer() {
    let mut hc = HealthCheckNetworkInterface::new(PeerDb::new(), FakeSender(4));
    hc.new_connection(metadata(2));
    hc.start_disconnect(2);
    assert_eq!(hc.db().read(&2).unwrap().status, PeerState::Disconnecting);
    let r: Result<(), String> = hc.complete_disconnect(2, Ok(()));
    assert_eq!(r, Ok(()));
    assert!(hc.db().read(&2).is_none());
    assert_eq!(hc.sender(), FakeSender(4));
}

#[test]
fn disconnect_refused_keeps_the_peer_disconnecting() {
    let mut hc = HealthCheckNetworkInterface::new(PeerDb::new(), FakeSender(1));
    hc.new_connection(metadata(3));
    hc.start_disconnect(3);
    let r: Result<(), String> = hc.complete_disconnect(3, Err("refused".to_string()));
    assert_eq!(r, Err("refused".to_string()));
    assert_eq!(hc.db().read(&3).unwrap().status, PeerState::Disconnecting);
}

#[test]
fn disconnect_of_unknown_peer_changes_nothing_until_confirmed() {
    let mut hc = HealthCheckNetworkInterface::new(PeerDb::new(), FakeSender(1));
    hc.start_disconnect(8);
    assert!(hc.db().read(&8).is_none());
    let r: Result<(), String> = hc.complete_disconnect(8, Ok(()));
    assert_eq!(r, Ok(()));
    assert_eq!(hc.remove_peer(8), Err(PeerError::NotFound));
}
