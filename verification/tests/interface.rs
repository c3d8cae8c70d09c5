use network::ids::{ConnectionMetadata, ConnectionOrigin, NetworkId, PeerId, PeerNetworkId, PeerRole};
use network::interface::{ApplicationNetworkSender, MultiNetworkSender, NetworkInterface};
use network::network_map::NetworkIdMap;
use network::storage::PeerMetadataStorage;
use network::types::{PeerError, PeerInfo, PeerState};

fn pnid(n: NetworkId, p: PeerId) -> PeerNetworkId {
    PeerNetworkId::new(n, p)
}

#[test]
fn plan_groups_consecutive_recipients_by_network() {
    let recipients = vec![
        pnid(NetworkId::Validator, 1),
        pnid(NetworkId::Validator, 2),
        pnid(NetworkId::Public, 3),
        pnid(NetworkId::Validator, 4),
    ];
    let plan = MultiNetworkSender::<Recorder>::plan_send_to_many(recipients);
    assert_eq!(
        plan,
        vec![
            (NetworkId::Validator, vec![1, 2]),
            (NetworkId::Public, vec![3]),
            (NetworkId::Validator, vec![4]),
        ]
    );
    assert!(MultiNetworkSender::<Recorder>::plan_send_to_many(vec![]).is_empty());
}

/// A sender that records every request it is asked, with its outcome.
#[derive(Default)]
struct Recorder {
    sent: Vec<(Vec<PeerId>, u32, bool)>,
    fail: bool,
}

impl ApplicationNetworkSender<u32> for Recorder {
    type Error = String;

    // A specification-only item of the trait; never called at run time.
    fn requests(&self) -> vstd::seq::Seq<(vstd::seq::Seq<PeerId>, u32, bool)> {
        unreachable!()
    }

    fn send_to(&mut self, recipient: PeerId, message: u32) -> Result<(), String> {
        self.send_to_many(vec![recipient], message)
    }

    fn send_to_many(&mut self, recipients: Vec<PeerId>, message: u32) -> Result<(), String> {
        self.sent.push((recipients, message, !self.fail));
        if self.fail {
            Err("closed".to_string())
        } else {
            Ok(())
        }
    }
}

#[test]
fn send_to_many_routes_each_batch_to_its_network() {
    let mut senders = NetworkIdMap::new();
    senders.insert(NetworkId::Validator, Recorder::default());
    senders.insert(NetworkId::Public, Recorder::default());
    let mut multi = MultiNetworkSender::new(senders);
    assert!(multi.has_sender(NetworkId::Public));
    assert!(!multi.has_sender(NetworkId::Vfn));
    let r = multi.send_to_many(
        vec![
            pnid(NetworkId::Public, 1),
            pnid(NetworkId::Validator, 2),
            pnid(NetworkId::Validator, 3),
            pnid(NetworkId::Public, 4),
        ],
        9,
    );
    assert_eq!(r, Ok(()));
    assert_eq!(multi.sender(NetworkId::Validator).sent, vec![(vec![2, 3], 9, true)]);
    // A network named in two separate runs gets two requests.
    assert_eq!(multi.sender(NetworkId::Public).sent, vec![(vec![1], 9, true), (vec![4], 9, true)]);
    assert_eq!(multi.send_to(pnid(NetworkId::Public, 5), 1), Ok(()));
    assert_eq!(multi.sender(NetworkId::Public).sent.last(), Some(&(vec![5], 1, true)));
    assert_eq!(multi.sender(NetworkId::Validator).sent.len(), 1);
}

#[test]
fn send_to_many_with_no_recipients_sends_nothing() {
    let mut senders = NetworkIdMap::new();
    senders.insert(NetworkId::Validator, Recorder { sent: vec![], fail: true });
    let mut multi = MultiNetworkSender::new(senders);
    assert_eq!(multi.send_to_many(vec![], 3), Ok(()));
    assert!(multi.sender(NetworkId::Validator).sent.is_empty());
}

#[test]
fn send_to_many_stops_at_the_first_failure() {
    let mut senders = NetworkIdMap::new();
    senders.insert(NetworkId::Validator, Recorder { sent: vec![], fail: true });
    senders.insert(NetworkId::Public, Recorder::default());
    let mut multi = MultiNetworkSender::new(senders);
    let r = multi.send_to_many(
        vec![pnid(NetworkId::Public, 7), pnid(NetworkId::Validator, 1), pnid(NetworkId::Public, 2)],
        3,
    );
    assert_eq!(r, Err("closed".to_string()));
    assert_eq!(multi.sender(NetworkId::Public).sent, vec![(vec![7], 3, true)]);
    assert_eq!(multi.sender(NetworkId::Validator).sent, vec![(vec![1], 3, false)]);
    // A failing sender's answer is handed back by send_to too.
    assert_eq!(multi.send_to(pnid(NetworkId::Validator, 4), 5), Err("closed".to_string()));
}

#[test]
fn network_id_map_operations() {
    let mut m: NetworkIdMap<u32> = NetworkIdMap::new();
    assert!(m.keys().is_empty());
    assert_eq!(m.insert(NetworkId::Public, 1), None);
    assert_eq!(m.insert(NetworkId::Validator, 2), None);
    assert_eq!(m.insert(NetworkId::Public, 3), Some(1));
    assert_eq!(m.keys(), vec![NetworkId::Validator, NetworkId::Public]);
    assert_eq!(m.get(NetworkId::Public), Some(&3));
    *m.get_mut(NetworkId::Validator) += 5;
    assert_eq!(m.remove(NetworkId::Validator), Some(7));
    assert!(!m.contains_key(NetworkId::Validator));
    assert_eq!(NetworkId::Validator.rank(), 0);
    assert_eq!(NetworkId::Public.rank(), 4);
}

struct App {
    storage: PeerMetadataStorage,
    data: std::collections::HashMap<u8, u8>,
}

impl NetworkInterface for App {
    type Sender = ();
    type AppDataKey = u8;
    type AppData = u8;

    // A specification-only item of the trait; never called at run time.
    fn metadata_storage(&self) -> PeerMetadataStorage {
        unreachable!()
    }

    fn peer_metadata_storage(&self) -> &PeerMetadataStorage {
        &self.storage
    }

    fn sender(&self) {}

    fn insert_app_data(&mut self, key: u8, data: u8) {
        self.data.insert(key, data);
    }

    fn remove_app_data(&mut self, key: &u8) {
        self.data.remove(key);
    }

    fn read_app_data(&self, key: &u8) -> Option<u8> {
        self.data.get(key).copied()
    }

    fn write_app_data<F: FnOnce(Option<u8>) -> (Option<u8>, Result<(), PeerError>)>(
        &mut self,
        key: u8,
        modifier: F,
    ) -> Result<(), PeerError> {
        let (next, r) = modifier(self.data.remove(&key));
        if let Some(v) = next {
            self.data.insert(key, v);
        }
        r
    }
}

#[test]
fn network_interface_reads_peers() {
    let mut storage = PeerMetadataStorage::new(&[NetworkId::Validator]);
    for p in [1u128, 2] {
        storage.insert_connection(
            NetworkId::Validator,
            ConnectionMetadata::mock_with_role_and_origin(p, PeerRole::Validator, ConnectionOrigin::Inbound),
        );
    }
    let mut app = App { storage, data: Default::default() };
    assert_eq!(app.peers(NetworkId::Validator).len(), 2);
    assert_eq!(app.connected_peers(NetworkId::Validator).len(), 2);
    let only_one: Vec<PeerNetworkId> = app
        .filtered_peers(NetworkId::Validator, |p, _info: &PeerInfo| p == 1)
        .into_iter()
        .map(|(id, _)| id)
        .collect();
    assert_eq!(only_one, vec![pnid(NetworkId::Validator, 1)]);
    assert_eq!(app.write_app_data(3, |old| { assert!(old.is_none()); (Some(4), Ok(())) }), Ok(()));
    assert_eq!(app.read_app_data(&3), Some(4));
    let connected = app.connected_peers(NetworkId::Validator);
    assert!(connected
        .iter()
        .all(|(_, info)| info.status == PeerState::Healthy || info.status == PeerState::Unhealthy));
}
