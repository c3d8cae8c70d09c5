//! A set of test nodes, and connecting and disconnecting them.
use std::collections::HashMap;
use vstd::prelude::*;

use crate::ids::{all_known_protocols, ConnectionNotification, ConnectionOrigin, NetworkId};
use crate::network_map::lists_keys_in_order;
use crate::test_node::{law_connect_records_metadata, spec_peer_role, NodeId, NodeType, TestNode, TestNodeView};

verus! {

broadcast use vstd::std_specs::hash::group_hash_axioms;

/// The position of a node kind in the key of a node.
pub open spec fn spec_type_index(t: NodeType) -> u64 {
    match t {
        NodeType::Validator => 0,
        NodeType::ValidatorFullNode => 1,
        NodeType::PublicFullNode => 2,
    }
}

/// The integer a node is filed under: distinct nodes have distinct keys.
pub open spec fn spec_node_key(id: NodeId) -> u64 {
    (id.owner as u64 * 3 + spec_type_index(id.node_type)) as u64
}

/// Distinct nodes are filed under distinct keys.
pub proof fn lemma_node_key_injective(a: NodeId, b: NodeId)
    ensures
        spec_node_key(a) == spec_node_key(b) <==> a == b,
{
}

fn node_key(id: NodeId) -> (r: u64)
    ensures
        r == spec_node_key(id),
{
    let t: u64 = match id.node_type {
        NodeType::Validator => 0,
        NodeType::ValidatorFullNode => 1,
        NodeType::PublicFullNode => 2,
    };
    id.owner as u64 * 3 + t
}

/// The first network in priority order that both sets hold.
pub open spec fn first_common(a: Set<NetworkId>, b: Set<NetworkId>) -> NetworkId {
    if a.contains(NetworkId::Validator) && b.contains(NetworkId::Validator) {
        NetworkId::Validator
    } else if a.contains(NetworkId::Vfn) && b.contains(NetworkId::Vfn) {
        NetworkId::Vfn
    } else {
        NetworkId::Public
    }
}

/// The network two nodes talk over: the first one in priority order that they share.
pub open spec fn common_network(a: TestNodeView, b: TestNodeView) -> NetworkId {
    first_common(a.peer_network_ids.dom(), b.peer_network_ids.dom())
}

/// Two nodes share a network.
pub open spec fn share_network(a: TestNodeView, b: TestNodeView) -> bool {
    exists|n: NetworkId| a.peer_network_ids.contains_key(n) && b.peer_network_ids.contains_key(n)
}

/// The nodes after `dialer` connected to `listener`: the listener records an inbound
/// connection from the dialer, then the dialer records an outbound one to the listener.
pub open spec fn spec_connect(m: Map<NodeId, TestNodeView>, dialer: NodeId, listener: NodeId) -> Map<
    NodeId,
    TestNodeView,
> {
    let network = common_network(m[dialer], m[listener]);
    let listener_metadata = m[listener].conn_metadata(network, ConnectionOrigin::Outbound, None);
    let dialer_metadata = m[dialer].conn_metadata(network, ConnectionOrigin::Inbound, None);
    let m1 = m.insert(listener, m[listener].after_connect(network, dialer_metadata));
    m1.insert(dialer, m1[dialer].after_connect(network, listener_metadata))
}

/// The nodes after `node_a` and `node_b` disconnected: each forgets the other.
pub open spec fn spec_disconnect(m: Map<NodeId, TestNodeView>, node_a: NodeId, node_b: NodeId) -> Map<
    NodeId,
    TestNodeView,
> {
    let network = common_network(m[node_a], m[node_b]);
    let a_metadata = m[node_a].conn_metadata(network, ConnectionOrigin::Outbound, None);
    let b_metadata = m[node_b].conn_metadata(network, ConnectionOrigin::Inbound, None);
    let m1 = m.insert(node_a, m[node_a].after_disconnect(network, b_metadata));
    m1.insert(node_b, m1[node_b].after_disconnect(network, a_metadata))
}

/// Every node of `m` is well formed.
pub open spec fn all_wf(m: Map<NodeId, TestNodeView>) -> bool {
    forall|id: NodeId| #[trigger] m.contains_key(id) ==> m[id].wf() && m[id].node_id == id
}

/// A collection of test nodes, each filed under its id.
pub struct TestFramework {
    nodes: HashMap<u64, TestNode>,
}

impl View for TestFramework {
    type V = Map<NodeId, TestNodeView>;

    closed spec fn view(&self) -> Map<NodeId, TestNodeView> {
        Map::new(
            |id: NodeId| self.nodes@.contains_key(spec_node_key(id)),
            |id: NodeId| self.nodes@[spec_node_key(id)]@,
        )
    }
}

impl TestFramework {
    /// Each node is filed under its own key and is well formed.
    pub closed spec fn wf(&self) -> bool {
        forall|k: u64| #[trigger] self.nodes@.contains_key(k) ==> {
            &&& spec_node_key(self.nodes@[k]@.node_id) == k
            &&& self.nodes@[k]@.wf()
        }
    }

    pub proof fn lemma_wf(&self)
        requires
            self.wf(),
        ensures
            all_wf(self@),
    {
        assert forall|id: NodeId| #[trigger] self@.contains_key(id) implies self@[id].wf() && self@[id].node_id == id by {
            lemma_node_key_injective(id, self.nodes@[spec_node_key(id)]@.node_id);
        }
    }

    /// A framework over `nodes`, which carry distinct ids.
    pub fn new(nodes: Vec<TestNode>) -> (r: TestFramework)
        requires
            forall|i: int| 0 <= i < nodes@.len() ==> (#[trigger] nodes@[i])@.wf(),
            forall|i: int, j: int| 0 <= i < j < nodes@.len() ==> nodes@[i]@.node_id != nodes@[j]@.node_id,
        ensures
            r.wf(),
            forall|id: NodeId| #[trigger] r@.contains_key(id) ==> exists|i: int|
                0 <= i < nodes@.len() && nodes@[i]@.node_id == id,
            forall|i: int| 0 <= i < nodes@.len() ==> r@.contains_key(nodes@[i]@.node_id) && r@[nodes@[i]@.node_id] == (#[trigger] nodes@[i])@,
    {
        let ghost all = nodes@;
        let mut rest = nodes;
        let mut map: HashMap<u64, TestNode> = HashMap::new();
        while rest.len() > 0
            invariant
                rest@.len() <= all.len(),
                rest@ == all.subrange(0, rest@.len() as int),
                forall|i: int| 0 <= i < all.len() ==> (#[trigger] all[i])@.wf(),
                forall|i: int, j: int| 0 <= i < j < all.len() ==> all[i]@.node_id != all[j]@.node_id,
                forall|k: u64| #[trigger] map@.contains_key(k) ==> spec_node_key(map@[k]@.node_id) == k && map@[k]@.wf(),
                forall|i: int|
                    rest@.len() <= i < all.len() ==> map@.contains_key(spec_node_key((#[trigger] all[i])@.node_id))
                        && map@[spec_node_key(all[i]@.node_id)] == all[i],
                forall|k: u64| #[trigger] map@.contains_key(k) ==> exists|i: int|
                    rest@.len() <= i < all.len() && spec_node_key(all[i]@.node_id) == k,
            decreases rest@.len(),
        {
            let ghost before = map@;
            let ghost prev_rest = rest@;
            let node = rest.pop().unwrap();
            let ghost idx = rest@.len() as int;
            assert(prev_rest[idx] == all[idx]);
            assert(rest@ =~= all.subrange(0, idx));
            let key = node_key(node.node_id());
            proof {
                if before.contains_key(key) {
                    let i = choose|i: int| idx + 1 <= i < all.len() && spec_node_key(all[i]@.node_id) == key;
                    lemma_node_key_injective(all[i]@.node_id, all[idx]@.node_id);
                }
            }
            map.insert(key, node);
            proof {
                assert forall|i: int| idx <= i < all.len() implies map@.contains_key(spec_node_key((#[trigger] all[i])@.node_id))
                    && map@[spec_node_key(all[i]@.node_id)] == all[i] by {
                    if i > idx {
                        lemma_node_key_injective(all[i]@.node_id, all[idx]@.node_id);
                    }
                }
                assert forall|k: u64| #[trigger] map@.contains_key(k) implies exists|i: int|
                    idx <= i < all.len() && spec_node_key(all[i]@.node_id) == k by {
                    if k != key {
                        let i = choose|i: int| idx + 1 <= i < all.len() && spec_node_key(all[i]@.node_id) == k;
                    }
                }
            }
        }
        let r = TestFramework { nodes: map };
        proof {
            assert forall|id: NodeId| #[trigger] r@.contains_key(id) implies exists|i: int|
                0 <= i < all.len() && all[i]@.node_id == id by {
                let i = choose|i: int| 0 <= i < all.len() && spec_node_key(all[i]@.node_id) == spec_node_key(id);
                lemma_node_key_injective(all[i]@.node_id, id);
            }
        }
        r
    }

    /// There is a node `node_id`.
    pub fn contains_node(&self, node_id: NodeId) -> (r: bool)
        ensures
            r == self@.contains_key(node_id),
    {
        self.nodes.contains_key(&node_key(node_id))
    }

    /// The node `node_id`, which must exist.
    pub fn node(&self, node_id: NodeId) -> (r: &TestNode)
        requires
            self@.contains_key(node_id),
        ensures
            r@ == self@[node_id],
    {
        self.nodes.get(&node_key(node_id)).unwrap()
    }

    /// The networks both nodes are on, in priority order.
    pub fn common_networks(&self, node_a_id: NodeId, node_b_id: NodeId) -> (r: Vec<NetworkId>)
        requires
            self@.contains_key(node_a_id),
            self@.contains_key(node_b_id),
        ensures
            lists_keys_in_order(
                r@,
                self@[node_a_id].peer_network_ids.dom().intersect(self@[node_b_id].peer_network_ids.dom()),
            ),
    {
        let node_a = self.node(node_a_id);
        let node_b = self.node(node_b_id);
        let a_ids = node_a.network_ids();
        let mut out: Vec<NetworkId> = Vec::new();
        let mut i: usize = 0;
        while i < a_ids.len()
            invariant
                node_a@ == self@[node_a_id],
                node_b@ == self@[node_b_id],
                lists_keys_in_order(a_ids@, node_a@.peer_network_ids.dom()),
                i <= a_ids@.len(),
                forall|n: NetworkId| out@.contains(n) <==> exists|j: int|
                    0 <= j < i && a_ids@[j] == n && node_b@.peer_network_ids.contains_key(n),
                forall|x: int, y: int| 0 <= x < y < out@.len() ==> out@[x].precedes(out@[y]),
                forall|x: int| 0 <= x < out@.len() ==> exists|j: int| 0 <= j < i && a_ids@[j] == #[trigger] out@[x],
            decreases a_ids@.len() - i,
        {
            let n = a_ids[i];
            let ghost before = out@;
            if node_b.peer_network_ids().contains_key(n) {
                out.push(n);
                proof {
                    assert forall|x: int| 0 <= x < before.len() implies (#[trigger] before[x]).precedes(n) by {
                        let j = choose|j: int| 0 <= j < i && a_ids@[j] == before[x];
                    }
                    assert forall|x: int| 0 <= x < out@.len() implies exists|j: int|
                        0 <= j < i + 1 && a_ids@[j] == #[trigger] out@[x] by {
                        if x < before.len() {
                            assert(out@[x] == before[x]);
                        } else {
                            assert(a_ids@[i as int] == out@[x]);
                        }
                    }
                    assert forall|m: NetworkId| out@.contains(m) <==> exists|j: int|
                        0 <= j < i + 1 && a_ids@[j] == m && node_b@.peer_network_ids.contains_key(m) by {
                        if out@.contains(m) {
                            let x = choose|x: int| 0 <= x < out@.len() && out@[x] == m;
                            if x < before.len() {
                                assert(before[x] == m);
                                assert(before.contains(m));
                            } else {
                                assert(a_ids@[i as int] == m);
                            }
                        }
                        if exists|j: int| 0 <= j < i + 1 && a_ids@[j] == m && node_b@.peer_network_ids.contains_key(m) {
                            let j = choose|j: int| 0 <= j < i + 1 && a_ids@[j] == m && node_b@.peer_network_ids.contains_key(m);
                            if j < i {
                                assert(before.contains(m));
                                let x = choose|x: int| 0 <= x < before.len() && before[x] == m;
                                assert(out@[x] == m);
                            } else {
                                assert(out@[out@.len() - 1] == m);
                            }
                        }
                    }
                }
            }
            i = i + 1;
        }
        proof {
            let both = self@[node_a_id].peer_network_ids.dom().intersect(self@[node_b_id].peer_network_ids.dom());
            assert forall|n: NetworkId| both.contains(n) <==> out@.contains(n) by {
                if both.contains(n) {
                    assert(a_ids@.contains(n));
                    let j = choose|j: int| 0 <= j < a_ids@.len() && a_ids@[j] == n;
                }
            }
        }
        out
    }

    /// The network two nodes talk over: the first in priority order that both are on.
    pub fn find_common_network(&self, node_a_id: NodeId, node_b_id: NodeId) -> (r: NetworkId)
        requires
            self@.contains_key(node_a_id),
            self@.contains_key(node_b_id),
            share_network(self@[node_a_id], self@[node_b_id]),
        ensures
            r == common_network(self@[node_a_id], self@[node_b_id]),
    {
        let network_ids = self.common_networks(node_a_id, node_b_id);
        proof {
            let a = self@[node_a_id];
            let b = self@[node_b_id];
            let n = choose|n: NetworkId| a.peer_network_ids.contains_key(n) && b.peer_network_ids.contains_key(n);
            let both = a.peer_network_ids.dom().intersect(b.peer_network_ids.dom());
            assert(both.contains(n));
            assert(network_ids@.contains(n));
            let first = common_network(a, b);
            lemma_first_common_is_least(a.peer_network_ids.dom(), b.peer_network_ids.dom(), n);
            assert(network_ids@.contains(first));
            let x = choose|x: int| 0 <= x < network_ids@.len() && network_ids@[x] == first;
            if x > 0 {
                assert(network_ids@[0].precedes(first));
                assert(both.contains(network_ids@[0]));
            }
        }
        network_ids[0]
    }

    /// `node_a` knows `node_b` as a peer on the network they share.
    pub fn knows(&self, node_a_id: NodeId, node_b_id: NodeId) -> (r: bool)
        requires
            self.wf(),
            self@.contains_key(node_a_id),
            self@.contains_key(node_b_id),
            share_network(self@[node_a_id], self@[node_b_id]),
        ensures
            r == self@[node_a_id].knows(self@[node_b_id], common_network(self@[node_a_id], self@[node_b_id])),
    {
        proof {
            self.lemma_wf();
            lemma_first_common_is_shared(self@[node_a_id], self@[node_b_id]);
        }
        let network = self.find_common_network(node_a_id, node_b_id);
        let b_peer_network_id = self.node(node_b_id).peer_network_id(network);
        self.node(node_a_id).peer_metadata_storage().read(&b_peer_network_id).is_some()
    }

    /// Take a node out, change it with `connect` or `disconnect`, and file it back.
    fn connect_node(&mut self, node_id: NodeId, network_id: NetworkId, metadata: crate::ids::ConnectionMetadata, up: bool) -> (r: ConnectionNotification)
        requires
            old(self).wf(),
            old(self)@.contains_key(node_id),
            old(self)@[node_id].peer_network_ids.contains_key(network_id),
        ensures
            final(self).wf(),
            up ==> final(self)@ == old(self)@.insert(node_id, old(self)@[node_id].after_connect(network_id, metadata)),
            up ==> r == ConnectionNotification::NewPeer(metadata, old(self)@[node_id].context(network_id)),
            !up ==> final(self)@ == old(self)@.insert(node_id, old(self)@[node_id].after_disconnect(network_id, metadata)),
            !up ==> r == ConnectionNotification::LostPeer(
                metadata,
                old(self)@[node_id].context(network_id),
                crate::ids::DisconnectReason::ConnectionLost,
            ),
    {
        proof {
            self.lemma_wf();
        }
        let ghost before = self.nodes@;
        let key = node_key(node_id);
        let mut node = self.nodes.remove(&key).unwrap();
        let notif = if up {
            node.connect(network_id, metadata)
        } else {
            node.disconnect(network_id, metadata)
        };
        self.nodes.insert(key, node);
        proof {
            assert forall|id: NodeId| #![trigger spec_node_key(id)] true implies (self.nodes@.contains_key(spec_node_key(id))
                == before.contains_key(spec_node_key(id))) by {}
            assert forall|id: NodeId| #![trigger spec_node_key(id)] id != node_id ==> (before.contains_key(spec_node_key(id)) ==>
                self.nodes@[spec_node_key(id)] == before[spec_node_key(id)]) by {
                lemma_node_key_injective(id, node_id);
            }
            if up {
                assert(self@ =~= old(self)@.insert(node_id, old(self)@[node_id].after_connect(network_id, metadata)));
            } else {
                assert(self@ =~= old(self)@.insert(node_id, old(self)@[node_id].after_disconnect(network_id, metadata)));
            }
        }
        notif
    }

    /// Connect `dialer` to `listener` over the first network they share. Both nodes record
    /// the connection; the notifications for the listener and for the dialer, in that
    /// order, are handed back for their applications.
    pub fn connect(&mut self, dialer: NodeId, listener: NodeId) -> (r: (ConnectionNotification, ConnectionNotification))
        requires
            old(self).wf(),
            old(self)@.contains_key(dialer),
            old(self)@.contains_key(listener),
            share_network(old(self)@[dialer], old(self)@[listener]),
            !old(self)@[dialer].knows(old(self)@[listener], common_network(old(self)@[dialer], old(self)@[listener])),
        ensures
            final(self).wf(),
            final(self)@ == spec_connect(old(self)@, dialer, listener),
            ({
                let m = old(self)@;
                let network = common_network(m[dialer], m[listener]);
                r == (
                    ConnectionNotification::NewPeer(
                        m[dialer].conn_metadata(network, ConnectionOrigin::Inbound, None),
                        m[listener].context(network),
                    ),
                    ConnectionNotification::NewPeer(
                        m[listener].conn_metadata(network, ConnectionOrigin::Outbound, None),
                        m[dialer].context(network),
                    ),
                )
            }),
    {
        proof {
            self.lemma_wf();
            lemma_first_common_is_shared(self@[dialer], self@[listener]);
        }
        let network = self.find_common_network(dialer, listener);
        let listener_metadata = self.node(listener).conn_metadata(network, ConnectionOrigin::Outbound, None);
        let dialer_metadata = self.node(dialer).conn_metadata(network, ConnectionOrigin::Inbound, None);
        let listener_notif = self.connect_node(listener, network, dialer_metadata, true);
        let dialer_notif = self.connect_node(dialer, network, listener_metadata, true);
        (listener_notif, dialer_notif)
    }

    /// Disconnect `node_a` and `node_b` over the first network they share. Both nodes forget
    /// the connection; the notifications for `node_a` and for `node_b`, in that order, are
    /// handed back for their applications.
    pub fn disconnect(&mut self, node_a: NodeId, node_b: NodeId) -> (r: (ConnectionNotification, ConnectionNotification))
        requires
            old(self).wf(),
            old(self)@.contains_key(node_a),
            old(self)@.contains_key(node_b),
            share_network(old(self)@[node_a], old(self)@[node_b]),
            old(self)@[node_b].knows(old(self)@[node_a], common_network(old(self)@[node_a], old(self)@[node_b])),
        ensures
            final(self).wf(),
            final(self)@ == spec_disconnect(old(self)@, node_a, node_b),
            ({
                let m = old(self)@;
                let network = common_network(m[node_a], m[node_b]);
                r == (
                    ConnectionNotification::LostPeer(
                        m[node_b].conn_metadata(network, ConnectionOrigin::Inbound, None),
                        m[node_a].context(network),
                        crate::ids::DisconnectReason::ConnectionLost,
                    ),
                    ConnectionNotification::LostPeer(
                        m[node_a].conn_metadata(network, ConnectionOrigin::Outbound, None),
                        m[node_b].context(network),
                        crate::ids::DisconnectReason::ConnectionLost,
                    ),
                )
            }),
    {
        proof {
            self.lemma_wf();
            lemma_first_common_is_shared(self@[node_a], self@[node_b]);
        }
        let network = self.find_common_network(node_a, node_b);
        let a_metadata = self.node(node_a).conn_metadata(network, ConnectionOrigin::Outbound, None);
        let b_metadata = self.node(node_b).conn_metadata(network, ConnectionOrigin::Inbound, None);
        let a_notif = self.connect_node(node_a, network, b_metadata, false);
        let b_notif = self.connect_node(node_b, network, a_metadata, false);
        (a_notif, b_notif)
    }
}

/// The network two nodes talk over does not depend on which of them asks.
pub proof fn law_common_network_symmetric(a: TestNodeView, b: TestNodeView)
    ensures
        common_network(a, b) == common_network(b, a),
{
}

/// Connecting or disconnecting nodes changes neither who they are nor which networks they
/// are on.
pub proof fn law_links_keep_identities(m: Map<NodeId, TestNodeView>, x: NodeId, y: NodeId, id: NodeId)
    requires
        m.contains_key(x),
        m.contains_key(y),
        m.contains_key(id),
    ensures
        spec_connect(m, x, y).contains_key(id),
        spec_connect(m, x, y)[id].node_id == m[id].node_id,
        spec_connect(m, x, y)[id].peer_network_ids == m[id].peer_network_ids,
        spec_disconnect(m, x, y).contains_key(id),
        spec_disconnect(m, x, y)[id].node_id == m[id].node_id,
        spec_disconnect(m, x, y)[id].peer_network_ids == m[id].peer_network_ids,
        spec_connect(m, x, y).dom() == m.dom(),
        spec_disconnect(m, x, y).dom() == m.dom(),
{
    assert(spec_connect(m, x, y).dom() =~= m.dom());
    assert(spec_disconnect(m, x, y).dom() =~= m.dom());
}

/// Once `dialer` has connected to `listener`, each knows the other on the network they
/// share.
pub proof fn law_connect_links_both(m: Map<NodeId, TestNodeView>, dialer: NodeId, listener: NodeId)
    requires
        all_wf(m),
        m.contains_key(dialer),
        m.contains_key(listener),
        share_network(m[dialer], m[listener]),
    ensures
        ({
            let after = spec_connect(m, dialer, listener);
            let network = common_network(m[dialer], m[listener]);
            &&& common_network(after[dialer], after[listener]) == network
            &&& after[dialer].knows(after[listener], network)
            &&& after[listener].knows(after[dialer], network)
        }),
{
    law_links_keep_identities(m, dialer, listener, dialer);
    law_links_keep_identities(m, dialer, listener, listener);
    lemma_first_common_is_shared(m[dialer], m[listener]);
}

/// Once `dialer` has connected to another node, `listener`, the dialer holds an outbound
/// connection to the listener and the listener an inbound one from the dialer, each
/// recorded with the other's identity there, the role others see it in, and every known
/// protocol.
pub proof fn law_connect_records_origins(m: Map<NodeId, TestNodeView>, dialer: NodeId, listener: NodeId)
    requires
        all_wf(m),
        m.contains_key(dialer),
        m.contains_key(listener),
        share_network(m[dialer], m[listener]),
        dialer != listener,
    ensures
        ({
            let after = spec_connect(m, dialer, listener);
            let network = common_network(m[dialer], m[listener]);
            let dialer_pid = m[dialer].peer_network_ids[network].peer_id;
            let listener_pid = m[listener].peer_network_ids[network].peer_id;
            let to_listener = after[dialer].peers[network][listener_pid].connection_metadata;
            let to_dialer = after[listener].peers[network][dialer_pid].connection_metadata;
            &&& after[dialer].peers[network].contains_key(listener_pid)
            &&& to_listener.origin == ConnectionOrigin::Outbound
            &&& to_listener.remote_peer_id == listener_pid
            &&& to_listener.role == spec_peer_role(listener.node_type)
            &&& to_listener.application_protocols == all_known_protocols()
            &&& after[listener].peers[network].contains_key(dialer_pid)
            &&& to_dialer.origin == ConnectionOrigin::Inbound
            &&& to_dialer.remote_peer_id == dialer_pid
            &&& to_dialer.role == spec_peer_role(dialer.node_type)
            &&& to_dialer.application_protocols == all_known_protocols()
        }),
{
    let network = common_network(m[dialer], m[listener]);
    let listener_metadata = m[listener].conn_metadata(network, ConnectionOrigin::Outbound, None);
    let dialer_metadata = m[dialer].conn_metadata(network, ConnectionOrigin::Inbound, None);
    law_connect_records_metadata(m[listener], network, dialer_metadata);
    law_connect_records_metadata(m[dialer], network, listener_metadata);
}

/// Once two nodes have disconnected, neither knows the other on the network they share.
pub proof fn law_disconnect_unlinks_both(m: Map<NodeId, TestNodeView>, node_a: NodeId, node_b: NodeId)
    requires
        all_wf(m),
        m.contains_key(node_a),
        m.contains_key(node_b),
        share_network(m[node_a], m[node_b]),
    ensures
        ({
            let after = spec_disconnect(m, node_a, node_b);
            let network = common_network(m[node_a], m[node_b]);
            &&& common_network(after[node_a], after[node_b]) == network
            &&& !after[node_a].knows(after[node_b], network)
            &&& !after[node_b].knows(after[node_a], network)
        }),
{
    law_links_keep_identities(m, node_a, node_b, node_a);
    law_links_keep_identities(m, node_a, node_b, node_b);
    lemma_first_common_is_shared(m[node_a], m[node_b]);
}

/// Connecting two nodes that did not know each other and then disconnecting them leaves
/// every node as it was.
pub proof fn law_connect_then_disconnect(m: Map<NodeId, TestNodeView>, dialer: NodeId, listener: NodeId)
    requires
        all_wf(m),
        m.contains_key(dialer),
        m.contains_key(listener),
        share_network(m[dialer], m[listener]),
        !m[dialer].knows(m[listener], common_network(m[dialer], m[listener])),
        !m[listener].knows(m[dialer], common_network(m[dialer], m[listener])),
    ensures
        spec_disconnect(spec_connect(m, dialer, listener), dialer, listener) == m,
{
    let network = common_network(m[dialer], m[listener]);
    lemma_first_common_is_shared(m[dialer], m[listener]);
    let m2 = spec_connect(m, dialer, listener);
    law_links_keep_identities(m, dialer, listener, dialer);
    law_links_keep_identities(m, dialer, listener, listener);
    let m3 = spec_disconnect(m2, dialer, listener);
    law_links_keep_identities(m2, dialer, listener, dialer);
    law_links_keep_identities(m2, dialer, listener, listener);
    let d_pid = m[dialer].peer_network_ids[network].peer_id;
    let l_pid = m[listener].peer_network_ids[network].peer_id;
    if dialer == listener {
        let p = m[dialer].peers[network];
        assert(m3[dialer].peers[network] =~= p);
        assert(m3[dialer].peers =~= m[dialer].peers);
        assert(m3[dialer] == m[dialer]);
    } else {
        let pd = m[dialer].peers[network];
        let pl = m[listener].peers[network];
        assert(m3[dialer].peers[network] =~= pd);
        assert(m3[listener].peers[network] =~= pl);
        assert(m3[dialer].peers =~= m[dialer].peers);
        assert(m3[listener].peers =~= m[listener].peers);
        assert(m3[dialer] == m[dialer]);
        assert(m3[listener] == m[listener]);
    }
    assert(m3 =~= m);
}

/// Where two sets share a network, the first common one is shared and comes no later than
/// any other shared one.
pub proof fn lemma_first_common_is_least(a: Set<NetworkId>, b: Set<NetworkId>, n: NetworkId)
    requires
        a.contains(n),
        b.contains(n),
    ensures
        a.contains(first_common(a, b)),
        b.contains(first_common(a, b)),
        n == first_common(a, b) || first_common(a, b).precedes(n),
{
}

/// Two nodes that share a network share the one they talk over.
pub proof fn lemma_first_common_is_shared(a: TestNodeView, b: TestNodeView)
    requires
        share_network(a, b),
    ensures
        a.peer_network_ids.contains_key(common_network(a, b)),
        b.peer_network_ids.contains_key(common_network(a, b)),
{
    let n = choose|n: NetworkId| a.peer_network_ids.contains_key(n) && b.peer_network_ids.contains_key(n);
    lemma_first_common_is_least(a.peer_network_ids.dom(), b.peer_network_ids.dom(), n);
}

} // verus!
