use network::ids::PeerRole;
use network::network_identity::{
    EventHandle, EventKey, NetworkIdentity, NetworkIdentityEventHandle, NetworkIdentityResource, PublicKey,
};
use network::onchain::{NetworkAddress, OnChainStream, Peer};

fn key(b: u8) -> PublicKey {
    PublicKey { bytes: [b; 32] }
}

fn sorted_keys(peer: &Peer) -> Vec<u8> {
    let mut v: Vec<u8> = peer.keys.iter().map(|k| k.bytes[0]).collect();
    v.sort();
    v
}

#[test]
fn public_key_comparison() {
    assert!(key(1).same_as(&key(1)));
    let mut other = key(1);
    other.bytes[31] = 2;
    assert!(!key(1).same_as(&other));
}

#[test]
fn no_update_gives_the_current_set() {
    let mut stream = OnChainStream::new();
    assert!(stream.next_peer_set(None).is_empty());
}

#[test]
fn update_adds_downstream_peers_with_distinct_keys() {
    let mut stream = OnChainStream::new();
    let ids = vec![NetworkIdentity { peer_id: 1, pubkeys: vec![key(3), key(4), key(3)] }];
    let set = stream.next_peer_set(Some(ids));
    assert_eq!(set.len(), 1);
    let peer = set.get(&1).unwrap();
    assert_eq!(peer.role, PeerRole::Downstream);
    assert!(peer.addresses.is_empty());
    assert_eq!(sorted_keys(peer), vec![3, 4]);
}

#[test]
fn update_replaces_keys_and_keeps_the_rest() {
    let mut stream = OnChainStream::new();
    stream.next_peer_set(Some(vec![
        NetworkIdentity { peer_id: 1, pubkeys: vec![key(1)] },
        NetworkIdentity { peer_id: 2, pubkeys: vec![key(2)] },
    ]));
    // Peer 1 is named twice: the last identity wins.
    let set = stream.next_peer_set(Some(vec![
        NetworkIdentity { peer_id: 1, pubkeys: vec![key(5)] },
        NetworkIdentity { peer_id: 1, pubkeys: vec![key(6), key(7)] },
    ]));
    assert_eq!(set.len(), 2);
    assert_eq!(sorted_keys(set.get(&1).unwrap()), vec![6, 7]);
    assert_eq!(sorted_keys(set.get(&2).unwrap()), vec![2]);
    // Nothing new: the same set again.
    let again = stream.next_peer_set(None);
    assert_eq!(again, set);
}

#[test]
fn update_is_idempotent() {
    let ids = vec![
        NetworkIdentity { peer_id: 4, pubkeys: vec![key(9)] },
        NetworkIdentity { peer_id: 5, pubkeys: vec![] },
    ];
    let mut stream = OnChainStream::new();
    let once = stream.next_peer_set(Some(ids.clone()));
    let twice = stream.next_peer_set(Some(ids));
    assert_eq!(once.len(), twice.len());
    for (p, peer) in once.iter() {
        let other = twice.get(p).unwrap();
        assert_eq!(sorted_keys(peer), sorted_keys(other));
        assert_eq!(peer.role, other.role);
    }
}

#[test]
fn peer_new_drops_repeated_keys() {
    let peer = Peer::new(vec![NetworkAddress { bytes: vec![1, 2] }], &[key(8), key(8)], PeerRole::Known);
    assert_eq!(peer.keys.len(), 1);
    assert_eq!(peer.role, PeerRole::Known);
    assert_eq!(peer.addresses.len(), 1);
}

#[test]
fn identity_resources() {
    let identities = vec![NetworkIdentity { peer_id: 3, pubkeys: vec![key(1)] }];
    let resource = NetworkIdentityResource::new(identities.clone());
    assert_eq!(resource.identities(), identities.as_slice());
    let handle = EventHandle { counter: 4, key: EventKey { bytes: [7; 24] } };
    let resource = NetworkIdentityEventHandle::new(handle);
    assert_eq!(*resource.identity_change_events(), handle);
}
