use network::ids::{
    ConnectionNotification, ConnectionOrigin, DisconnectReason, NetworkId, PeerNetworkId, PeerRole, ProtocolIdSet,
    RoleType,
};
use network::test_framework::TestFramework;
use network::test_node::{NodeId, NodeType, TestNode};

#[test]
fn node_id_constructors() {
    assert_eq!(NodeId::validator(3), NodeId { owner: 3, node_type: NodeType::Validator });
    assert_eq!(NodeId::vfn(3), NodeId { owner: 3, node_type: NodeType::ValidatorFullNode });
    assert_eq!(NodeId::pfn(0), NodeId { owner: 0, node_type: NodeType::PublicFullNode });
    assert_eq!(NodeId::vfn(12).display(), "12-ValidatorFullNode");
    assert_eq!(NodeId::validator(0).display(), "0-Validator");
}

fn validator(owner: u32) -> TestNode {
    TestNode::new(
        NodeId::validator(owner),
        &[
            PeerNetworkId::new(NetworkId::Validator, 100 + owner as u128),
            PeerNetworkId::new(NetworkId::Vfn, 200 + owner as u128),
        ],
    )
}

fn vfn(owner: u32) -> TestNode {
    TestNode::new(
        NodeId::vfn(owner),
        &[
            PeerNetworkId::new(NetworkId::Public, 400 + owner as u128),
            PeerNetworkId::new(NetworkId::Vfn, 300 + owner as u128),
        ],
    )
}

#[test]
fn node_roles_and_networks() {
    let v = validator(1);
    assert_eq!(v.role(), RoleType::Validator);
    assert_eq!(v.peer_role(), PeerRole::Validator);
    assert_eq!(v.network_ids(), vec![NetworkId::Validator, NetworkId::Vfn]);
    let f = vfn(1);
    assert_eq!(f.role(), RoleType::FullNode);
    assert_eq!(f.peer_role(), PeerRole::ValidatorFullNode);
    assert_eq!(f.network_ids(), vec![NetworkId::Vfn, NetworkId::Public]);
    let p = TestNode::new(NodeId::pfn(2), &[PeerNetworkId::new(NetworkId::Public, 9)]);
    assert_eq!(p.peer_role(), PeerRole::Unknown);
    assert_eq!(p.peer_network_id(NetworkId::Public), PeerNetworkId::new(NetworkId::Public, 9));
}

#[test]
fn conn_metadata_defaults_to_every_protocol() {
    let v = validator(5);
    let md = v.conn_metadata(NetworkId::Vfn, ConnectionOrigin::Outbound, None);
    assert_eq!(md.remote_peer_id, 205);
    assert_eq!(md.role, PeerRole::Validator);
    assert_eq!(md.origin, ConnectionOrigin::Outbound);
    assert_eq!(md.application_protocols, ProtocolIdSet::all_known());
    let some = ProtocolIdSet { bits: 0b100 };
    let md = v.conn_metadata(NetworkId::Validator, ConnectionOrigin::Inbound, Some(some));
    assert_eq!(md.application_protocols, some);
    assert_eq!(md.remote_peer_id, 105);
}

#[test]
fn common_network_is_first_shared_in_priority_order() {
    let fw = TestFramework::new(vec![validator(1), validator(2), vfn(1)]);
    assert_eq!(fw.common_networks(NodeId::validator(1), NodeId::validator(2)), vec![NetworkId::Validator, NetworkId::Vfn]);
    assert_eq!(fw.find_common_network(NodeId::validator(1), NodeId::validator(2)), NetworkId::Validator);
    assert_eq!(fw.find_common_network(NodeId::validator(1), NodeId::vfn(1)), NetworkId::Vfn);
    assert_eq!(fw.find_common_network(NodeId::vfn(1), NodeId::validator(1)), NetworkId::Vfn);
    assert!(fw.contains_node(NodeId::vfn(1)));
    assert!(!fw.contains_node(NodeId::vfn(2)));
}

#[test]
fn connect_then_disconnect() {
    let mut fw = TestFramework::new(vec![validator(1), vfn(1)]);
    let (dialer, listener) = (NodeId::vfn(1), NodeId::validator(1));
    assert!(!fw.knows(dialer, listener));
    let (to_listener, to_dialer) = fw.connect(dialer, listener);
    assert!(fw.knows(dialer, listener));
    assert!(fw.knows(listener, dialer));
    match to_listener {
        ConnectionNotification::NewPeer(md, ctx) => {
            assert_eq!(md.remote_peer_id, 301);
            assert_eq!(md.origin, ConnectionOrigin::Inbound);
            assert_eq!(ctx.peer_id, 201);
            assert_eq!(ctx.role, RoleType::Validator);
            assert_eq!(ctx.network_id, NetworkId::Vfn);
        }
        _ => panic!("expected a new peer"),
    }
    match to_dialer {
        ConnectionNotification::NewPeer(md, ctx) => {
            assert_eq!(md.remote_peer_id, 201);
            assert_eq!(md.origin, ConnectionOrigin::Outbound);
            assert_eq!(ctx.peer_id, 301);
            assert_eq!(ctx.role, RoleType::FullNode);
        }
        _ => panic!("expected a new peer"),
    }
    let (to_a, to_b) = fw.disconnect(dialer, listener);
    assert!(!fw.knows(dialer, listener));
    assert!(!fw.knows(listener, dialer));
    assert!(matches!(to_a, ConnectionNotification::LostPeer(_, _, DisconnectReason::ConnectionLost)));
    assert!(matches!(to_b, ConnectionNotification::LostPeer(_, _, DisconnectReason::ConnectionLost)));
    // Every node is back to knowing no one.
    let listener_node = fw.node(listener);
    assert!(listener_node.peer_metadata_storage().read_all(NetworkId::Vfn).is_empty());
    assert!(fw.node(dialer).peer_metadata_storage().read_all(NetworkId::Vfn).is_empty());
}

#[test]
fn test_node_connect_records_and_notifies() {
    let mut node = validator(7);
    let md = vfn(2).conn_metadata(NetworkId::Vfn, ConnectionOrigin::Inbound, None);
    let notif = node.connect(NetworkId::Vfn, md);
    assert!(node.peer_metadata_storage().read(&PeerNetworkId::new(NetworkId::Vfn, 302)).is_some());
    assert!(matches!(notif, ConnectionNotification::NewPeer(m, _) if m == md));
    let notif = node.disconnect(NetworkId::Vfn, md);
    assert!(node.peer_metadata_storage().read(&PeerNetworkId::new(NetworkId::Vfn, 302)).is_none());
    assert!(matches!(notif, ConnectionNotification::LostPeer(m, _, DisconnectReason::ConnectionLost) if m == md));
}
