//! What applications use to reach peers: their metadata, and sending across networks.
use itertools::Itertools;
use vstd::prelude::*;

use crate::ids::{NetworkId, PeerId, PeerNetworkId};
use crate::network_map::NetworkIdMap;
use crate::storage::{all_result, filtered_result, PeerMetadataStorage};
use crate::types::{PeerError, PeerInfo, PeerInfoView, PeerState};

verus! {

/// `groups` cuts `items` into runs: read in order the groups give back the items, each
/// group is non-empty and on one network, and neighbouring groups are on different
/// networks.
#[verifier::opaque]
pub open spec fn runs_by_network(items: Seq<PeerNetworkId>, groups: Seq<Seq<PeerNetworkId>>) -> bool {
    &&& groups.flatten() == items
    &&& forall|i: int| 0 <= i < groups.len() ==> (#[trigger] groups[i]).len() > 0
    &&& forall|i: int, j: int|
        #![trigger groups[i][j]]
        0 <= i < groups.len() && 0 <= j < groups[i].len() ==> groups[i][j].network_id == groups[i][0].network_id
    &&& forall|i: int|
        #![trigger groups[i]]
        0 <= i < groups.len() - 1 ==> groups[i][0].network_id != groups[i + 1][0].network_id
}

/// The groups as sequences.
pub open spec fn group_views(groups: Seq<Vec<PeerNetworkId>>) -> Seq<Seq<PeerNetworkId>> {
    groups.map_values(|g: Vec<PeerNetworkId>| g@)
}

/// The priority of the network of a recipient: the key recipients are grouped by.
fn recipient_network_rank(recipient: &PeerNetworkId) -> (r: u8)
    ensures
        r == recipient.network_id.spec_rank(),
{
    recipient.network_id.rank()
}

/// `Itertools::group_by`: cut `recipients` into runs of consecutive recipients on the same
/// network (by the rank of their network, which no two networks share).
#[verifier::external_body]
fn group_by_network(recipients: Vec<PeerNetworkId>) -> (r: Vec<Vec<PeerNetworkId>>)
    ensures
        runs_by_network(recipients@, group_views(r@)),
{
    let grouped = recipients.into_iter().group_by(recipient_network_rank);
    let r: Vec<Vec<PeerNetworkId>> = (&grouped).into_iter().map(|(_, group)| group.collect()).collect();
    r
}

/// A peer in this state still has a connection: it is healthy or unhealthy, and is not
/// being or already disconnected.
pub open spec fn is_connected(status: PeerState) -> bool {
    status == PeerState::Healthy || status == PeerState::Unhealthy
}

/// The peers of `peers` that still have a connection.
pub open spec fn connected_only(peers: Map<PeerId, PeerInfoView>) -> Map<PeerId, PeerInfoView> {
    Map::new(|k: PeerId| peers.contains_key(k) && is_connected(peers[k].status), |k: PeerId| peers[k])
}

/// A generic interface for applications to connect to networking. Each application
/// implements its own, which holds data of its own and a sender for its requests.
pub trait NetworkInterface {
    /// A cloneable sender for outbound messages.
    type Sender;
    /// The application's key for its data.
    type AppDataKey;
    /// The application's data.
    type AppData;

    /// The peer metadata the interface reads.
    spec fn metadata_storage(&self) -> PeerMetadataStorage;

    /// The peer metadata the interface reads, for the other functions.
    fn peer_metadata_storage(&self) -> (r: &PeerMetadataStorage)
        ensures
            *r == self.metadata_storage(),
    ;

    /// A copy of the sender for the network.
    fn sender(&self) -> Self::Sender;

    /// The connected peers of one network.
    fn connected_peers(&self, network_id: NetworkId) -> (r: Vec<(PeerNetworkId, PeerInfo)>)
        requires
            self.metadata_storage()@.contains_key(network_id),
        ensures
            all_result(r@, network_id, connected_only(self.metadata_storage()@[network_id])),
    {
        let storage = self.peer_metadata_storage();
        let connected = |_peer_id: PeerId, info: &PeerInfo| -> (keep: bool)
            ensures
                keep == is_connected(info.status),
            { info.status == PeerState::Healthy || info.status == PeerState::Unhealthy };
        let r = storage.read_filtered(network_id, connected);
        proof {
            storage.lemma_entries(network_id);
            let ents = storage.entries(network_id);
            let peers = storage@[network_id];
            let want = connected_only(peers);
            assert forall|j: int| #![trigger r@[j]] 0 <= j < r@.len() implies {
                &&& r@[j].0.network_id == network_id
                &&& want.contains_key(r@[j].0.peer_id)
                &&& r@[j].1@ == want[r@[j].0.peer_id]
            } by {
                assert(ents[r@[j].0.peer_id]@ == peers[r@[j].0.peer_id]);
            }
            assert forall|k: PeerId| #[trigger] want.contains_key(k) implies exists|j: int|
                0 <= j < r@.len() && #[trigger] r@[j].0.peer_id == k by {
                assert(ents.contains_key(k));
                assert(ents[k]@ == peers[k]);
            }
        }
        r
    }

    /// The peers of one network that `filter` accepts.
    fn filtered_peers<F: Fn(PeerId, &PeerInfo) -> bool>(&self, network_id: NetworkId, filter: F) -> (r: Vec<
        (PeerNetworkId, PeerInfo),
    >)
        requires
            self.metadata_storage()@.contains_key(network_id),
            forall|k: PeerId, i: PeerInfo| call_requires(filter, (k, &i)),
        ensures
            filtered_result(r@, network_id, self.metadata_storage().entries(network_id), filter),
    {
        self.peer_metadata_storage().read_filtered(network_id, filter)
    }

    /// Every peer of one network.
    fn peers(&self, network_id: NetworkId) -> (r: Vec<(PeerNetworkId, PeerInfo)>)
        requires
            self.metadata_storage()@.contains_key(network_id),
        ensures
            all_result(r@, network_id, self.metadata_storage()@[network_id]),
    {
        self.peer_metadata_storage().read_all(network_id)
    }

    /// Insert application data.
    fn insert_app_data(&mut self, app_data_key: Self::AppDataKey, data: Self::AppData);

    /// Remove application data.
    fn remove_app_data(&mut self, app_data_key: &Self::AppDataKey);

    /// Read application data.
    fn read_app_data(&self, app_data_key: &Self::AppDataKey) -> Option<Self::AppData>;

    /// Write application data, reading it first: `modifier` gets the current entry, or
    /// nothing, and gives back what the entry is to hold and the answer.
    fn write_app_data<F: FnOnce(Option<Self::AppData>) -> (Option<Self::AppData>, Result<(), PeerError>)>(
        &mut self,
        app_data_key: Self::AppDataKey,
        modifier: F,
    ) -> Result<(), PeerError>;
}

/// The batches of a plan, as their networks and peer ids.
pub open spec fn batch_views(plan: Seq<(NetworkId, Vec<PeerId>)>) -> Seq<(NetworkId, Seq<PeerId>)> {
    plan.map_values(|b: (NetworkId, Vec<PeerId>)| (b.0, b.1@))
}

/// `batches` sends to `items`: one batch per run of consecutive items on the same
/// network, in order, each with that network and the runs's peer ids.
pub open spec fn batches_of(items: Seq<PeerNetworkId>, batches: Seq<(NetworkId, Seq<PeerId>)>) -> bool {
    exists|groups: Seq<Seq<PeerNetworkId>>|
        {
            &&& runs_by_network(items, groups)
            &&& groups.len() == batches.len()
            &&& forall|i: int| #![trigger batches[i]] 0 <= i < batches.len() ==> batches[i] == run_plan(groups[i])
        }
}

/// The peer ids of one run, with the run's network.
pub open spec fn run_plan(run: Seq<PeerNetworkId>) -> (NetworkId, Seq<PeerId>) {
    (run[0].network_id, run.map_values(|p: PeerNetworkId| p.peer_id))
}

/// A sender for one network, which applications provide.
pub trait ApplicationNetworkSender<M> {
    type Error;

    /// What this sender has been asked to send so far, in order: the recipients, the
    /// message, and whether the request succeeded.
    spec fn requests(&self) -> Seq<(Seq<PeerId>, M, bool)>;

    /// Send `message` to one peer of this network; the request is recorded with its outcome.
    fn send_to(&mut self, recipient: PeerId, message: M) -> (r: Result<(), Self::Error>)
        ensures
            final(self).requests() == old(self).requests().push((seq![recipient], message, r is Ok)),
    ;

    /// Send `message` to several peers of this network; the request is recorded with its
    /// outcome.
    fn send_to_many(&mut self, recipients: Vec<PeerId>, message: M) -> (r: Result<(), Self::Error>)
        ensures
            final(self).requests() == old(self).requests().push((recipients@, message, r is Ok)),
    ;
}

/// The batches handed out, in order, with their outcome: the first `count` batches of
/// `batches`, all of them succeeding where `all_ok`, else all but the last.
pub open spec fn outcomes(batches: Seq<(NetworkId, Seq<PeerId>)>, count: int, all_ok: bool) -> Seq<
    (NetworkId, Seq<PeerId>, bool),
> {
    Seq::new(count as nat, |i: int| (batches[i].0, batches[i].1, all_ok || i < count - 1))
}

/// The requests that the sender of `network_id` gets from `outcomes`, in order: the
/// recipients of each batch of that network, and its outcome.
pub open spec fn requests_to(outcomes: Seq<(NetworkId, Seq<PeerId>, bool)>, network_id: NetworkId) -> Seq<
    (Seq<PeerId>, bool),
>
    decreases outcomes.len(),
{
    if outcomes.len() == 0 {
        Seq::empty()
    } else if outcomes.last().0 == network_id {
        requests_to(outcomes.drop_last(), network_id).push((outcomes.last().1, outcomes.last().2))
    } else {
        requests_to(outcomes.drop_last(), network_id)
    }
}

/// The recipients and outcomes of requests, without their messages.
pub open spec fn without_messages<M>(requests: Seq<(Seq<PeerId>, M, bool)>) -> Seq<(Seq<PeerId>, bool)> {
    requests.map_values(|q: (Seq<PeerId>, M, bool)| (q.0, q.2))
}

/// From `before` to `after`, the senders were handed exactly the batches of `outcomes`:
/// each network's sender got the requests of its batches, in order, each with a clone of
/// `message`, and nothing else; the networks stay the same.
pub open spec fn handed_out<M: Clone, S: ApplicationNetworkSender<M>>(
    before: Map<NetworkId, S>,
    after: Map<NetworkId, S>,
    outcomes: Seq<(NetworkId, Seq<PeerId>, bool)>,
    message: M,
) -> bool {
    &&& after.dom() == before.dom()
    &&& forall|n: NetworkId|
        #[trigger] before.contains_key(n) ==> {
            let prior = before[n].requests();
            let now = after[n].requests();
            &&& prior.len() <= now.len()
            &&& now.take(prior.len() as int) == prior
            &&& without_messages(now.skip(prior.len() as int)) == requests_to(outcomes, n)
            &&& forall|j: int| prior.len() <= j < now.len() ==> cloned(message, #[trigger] now[j].1)
        }
}

/// A sender that combines one sender per network, so that messages can be routed by
/// `PeerNetworkId` alone.
pub struct MultiNetworkSender<S> {
    senders: NetworkIdMap<S>,
}

impl<S> MultiNetworkSender<S> {
    /// The sender of each network.
    pub closed spec fn spec_senders(&self) -> Map<NetworkId, S> {
        self.senders@
    }

    /// The networks there is a sender for.
    pub open spec fn networks(&self) -> Set<NetworkId> {
        self.spec_senders().dom()
    }

    pub fn new(senders: NetworkIdMap<S>) -> (r: MultiNetworkSender<S>)
        ensures
            r.spec_senders() == senders@,
    {
        MultiNetworkSender { senders }
    }

    /// There is a sender for `network_id`.
    pub fn has_sender(&self, network_id: NetworkId) -> (r: bool)
        ensures
            r == self.networks().contains(network_id),
    {
        self.senders.contains_key(network_id)
    }

    /// The sender of `network_id`, which must exist.
    pub fn sender(&mut self, network_id: NetworkId) -> (r: &mut S)
        requires
            old(self).networks().contains(network_id),
        ensures
            *r == old(self).spec_senders()[network_id],
            final(self).spec_senders() == old(self).spec_senders().insert(network_id, *final(r)),
    {
        self.senders.get_mut(network_id)
    }

    /// How a message to many recipients is sent: one batch per run of consecutive
    /// recipients on the same network, in order, each with that network and the peer ids.
    #[verifier::loop_isolation(false)]
    pub fn plan_send_to_many(recipients: Vec<PeerNetworkId>) -> (r: Vec<(NetworkId, Vec<PeerId>)>)
        ensures
            forall|i: int| 0 <= i < r@.len() ==> recipients@.contains(PeerNetworkId { network_id: (#[trigger] r@[i]).0, peer_id: r@[i].1@[0] }),
            exists|groups: Seq<Seq<PeerNetworkId>>|
                {
                    &&& runs_by_network(recipients@, groups)
                    &&& groups.len() == r@.len()
                    &&& forall|i: int|
                        #![trigger r@[i]]
                        0 <= i < r@.len() ==> (r@[i].0, r@[i].1@) == run_plan(groups[i])
                },
            batches_of(recipients@, batch_views(r@)),
    {
        let ghost items = recipients@;
        let groups = group_by_network(recipients);
        let ghost gv = group_views(groups@);
        proof {
            assert(gv.flatten() == items && forall|x: int| 0 <= x < gv.len() ==> (#[trigger] gv[x]).len() > 0) by {
                reveal(runs_by_network);
            }
            assert forall|x: int| 0 <= x < gv.len() implies items.contains(#[trigger] gv[x][0]) by {
                lemma_flatten_contains(gv);
                assert(gv[x].len() > 0);
            }
        }
        let mut out: Vec<(NetworkId, Vec<PeerId>)> = Vec::new();
        let mut i: usize = 0;
        while i < groups.len()
            invariant
                i <= groups@.len(),
                gv == group_views(groups@),
                forall|x: int| 0 <= x < gv.len() ==> (#[trigger] gv[x]).len() > 0,
                out@.len() == i,
                runs_by_network(items, gv),
                forall|x: int| #![trigger out@[x]] 0 <= x < i ==> (out@[x].0, out@[x].1@) == run_plan(gv[x]),
                forall|x: int| 0 <= x < gv.len() ==> items.contains(#[trigger] gv[x][0]),
            decreases groups@.len() - i,
        {
            let group = &groups[i];
            assert(group@ == gv[i as int]);
            let network_id = group[0].network_id;
            let mut peer_ids: Vec<PeerId> = Vec::new();
            let mut j: usize = 0;
            while j < group.len()
                invariant
                    j <= group@.len(),
                    peer_ids@.len() == j,
                    forall|y: int| 0 <= y < j ==> peer_ids@[y] == (#[trigger] group@[y]).peer_id,
                decreases group@.len() - j,
            {
                peer_ids.push(group[j].peer_id);
                j = j + 1;
            }
            assert(peer_ids@ =~= group@.map_values(|p: PeerNetworkId| p.peer_id));
            let ghost before = out@;
            out.push((network_id, peer_ids));
            proof {
                assert forall|x: int| #![trigger out@[x]] 0 <= x < i + 1 implies (out@[x].0, out@[x].1@) == run_plan(gv[x]) by {
                    if x < i {
                        assert(out@[x] == before[x]);
                    }
                }
            }
            i = i + 1;
        }
        proof {
            assert forall|x: int| 0 <= x < out@.len() implies items.contains(
                PeerNetworkId { network_id: (#[trigger] out@[x]).0, peer_id: out@[x].1@[0] },
            ) by {
                assert(items.contains(gv[x][0]));
                assert(out@[x].1@[0] == gv[x][0].peer_id);
            }
            assert(runs_by_network(items, gv));
            let bv = batch_views(out@);
            assert forall|x: int| #![trigger bv[x]] 0 <= x < bv.len() implies bv[x] == run_plan(gv[x]) by {
                assert(bv[x] == (out@[x].0, out@[x].1@));
            }
            assert(batches_of(items, bv));
        }
        out
    }
}

impl<S> MultiNetworkSender<S> {
    /// Send `message` to one peer, through the sender of its network, which must exist:
    /// that sender is asked to send `message` to the peer, no other sender is used, and
    /// the answer is that sender's.
    pub fn send_to<M>(&mut self, recipient: PeerNetworkId, message: M) -> (r: Result<(), S::Error>)
        where
            S: ApplicationNetworkSender<M>,
        requires
            old(self).networks().contains(recipient.network_id),
        ensures
            final(self).networks() == old(self).networks(),
            final(self).spec_senders().remove(recipient.network_id) == old(self).spec_senders().remove(
                recipient.network_id,
            ),
            final(self).spec_senders()[recipient.network_id].requests() == old(self).spec_senders()[recipient.network_id].requests().push(
                (seq![recipient.peer_id], message, r is Ok),
            ),
    {
        let r = self.sender(recipient.network_id).send_to(recipient.peer_id, message);
        proof {
            assert(self.spec_senders().remove(recipient.network_id) =~= old(self).spec_senders().remove(
                recipient.network_id,
            ));
        }
        r
    }

    /// Send `message` to many peers: one batch per run of consecutive recipients on the
    /// same network, in order, each through that network's sender, which must exist.
    /// Where every batch succeeds the answer is `Ok`; otherwise sending stops at the first
    /// batch that fails, whose sender's error is handed back, and no later batch is sent.
    pub fn send_to_many<M: Clone>(&mut self, recipients: Vec<PeerNetworkId>, message: M) -> (r: Result<(), S::Error>)
        where
            S: ApplicationNetworkSender<M>,
        requires
            forall|i: int| 0 <= i < recipients@.len() ==> old(self).networks().contains(#[trigger] recipients@[i].network_id),
        ensures
            exists|batches: Seq<(NetworkId, Seq<PeerId>)>, count: int|
                #![trigger batches_of(recipients@, batches), outcomes(batches, count, true)]
                #![trigger batches_of(recipients@, batches), outcomes(batches, count, false)]
                {
                    &&& batches_of(recipients@, batches)
                    &&& r is Ok ==> count == batches.len() && handed_out(
                        old(self).spec_senders(),
                        final(self).spec_senders(),
                        outcomes(batches, count, true),
                        message,
                    )
                    &&& r is Err ==> 0 < count <= batches.len() && handed_out(
                        old(self).spec_senders(),
                        final(self).spec_senders(),
                        outcomes(batches, count, false),
                        message,
                    )
                },
    {
        let ghost items = recipients@;
        let ghost before = self.spec_senders();
        let plan = Self::plan_send_to_many(recipients);
        let ghost batches = batch_views(plan@);
        proof {
            lemma_handed_out_nothing(before, message);
            assert(outcomes(batches, 0, true) =~= Seq::<(NetworkId, Seq<PeerId>, bool)>::empty());
        }
        let mut i: usize = 0;
        while i < plan.len()
            invariant
                i <= plan@.len(),
                batches == batch_views(plan@),
                items == recipients@,
                batches_of(items, batches),
                before == old(self).spec_senders(),
                handed_out(before, self.spec_senders(), outcomes(batches, i as int, true), message),
                forall|x: int| 0 <= x < items.len() ==> before.contains_key(#[trigger] items[x].network_id),
                forall|x: int| 0 <= x < plan@.len() ==> items.contains(PeerNetworkId { network_id: (#[trigger] plan@[x]).0, peer_id: plan@[x].1@[0] }),
            decreases plan@.len() - i,
        {
            let network_id = plan[i].0;
            let peer_ids = plan[i].1.clone();
            proof {
                let p = PeerNetworkId { network_id: plan@[i as int].0, peer_id: plan@[i as int].1@[0] };
                assert(items.contains(p));
                let y = choose|y: int| 0 <= y < items.len() && items[y] == p;
                assert(before.contains_key(items[y].network_id));
            }
            let ghost batch = (network_id, peer_ids@);
            assert(batch == batches[i as int]);
            let ghost current = self.spec_senders();
            let copy = message.clone();
            let result = self.sender(network_id).send_to_many(peer_ids, copy);
            proof {
                lemma_handed_out_step(
                    before,
                    current,
                    self.spec_senders(),
                    outcomes(batches, i as int, true),
                    network_id,
                    batch.1,
                    copy,
                    result is Ok,
                    message,
                );
                assert(outcomes(batches, i as int, true).push((network_id, batch.1, result is Ok)) =~= outcomes(
                    batches,
                    i + 1,
                    result is Ok,
                ));
            }
            match result {
                Ok(()) => {},
                Err(e) => {
                    proof {
                        assert(handed_out(before, self.spec_senders(), outcomes(batches, i + 1, false), message));
                        assert(batches_of(recipients@, batches));
                    }
                    return Err(e);
                },
            }
            i = i + 1;
        }
        proof {
            assert(handed_out(before, self.spec_senders(), outcomes(batches, batches.len() as int, true), message));
            assert(batches_of(recipients@, batches));
        }
        Ok(())
    }
}

/// Before anything is sent, the senders were handed nothing.
proof fn lemma_handed_out_nothing<M: Clone, S: ApplicationNetworkSender<M>>(senders: Map<NetworkId, S>, message: M)
    ensures
        handed_out(senders, senders, Seq::empty(), message),
{
    assert forall|n: NetworkId| #[trigger] senders.contains_key(n) implies {
        let prior = senders[n].requests();
        &&& senders[n].requests().take(prior.len() as int) == prior
        &&& without_messages(senders[n].requests().skip(prior.len() as int)) == requests_to(Seq::empty(), n)
    } by {
        let prior = senders[n].requests();
        assert(prior.take(prior.len() as int) =~= prior);
        assert(without_messages(prior.skip(prior.len() as int)) =~= Seq::<(Seq<PeerId>, bool)>::empty());
    }
}

/// Handing one more batch to the sender of `network_id` extends what was handed out by it.
proof fn lemma_handed_out_step<M: Clone, S: ApplicationNetworkSender<M>>(
    before: Map<NetworkId, S>,
    current: Map<NetworkId, S>,
    after: Map<NetworkId, S>,
    done: Seq<(NetworkId, Seq<PeerId>, bool)>,
    network_id: NetworkId,
    recipients: Seq<PeerId>,
    copy: M,
    ok: bool,
    message: M,
)
    requires
        handed_out(before, current, done, message),
        current.contains_key(network_id),
        after == current.insert(network_id, after[network_id]),
        after[network_id].requests() == current[network_id].requests().push((recipients, copy, ok)),
        cloned(message, copy),
    ensures
        handed_out(before, after, done.push((network_id, recipients, ok)), message),
{
    let next = done.push((network_id, recipients, ok));
    assert(next.drop_last() =~= done);
    assert(after.dom() =~= before.dom());
    assert forall|n: NetworkId| #[trigger] before.contains_key(n) implies {
        let prior = before[n].requests();
        let now = after[n].requests();
        &&& prior.len() <= now.len()
        &&& now.take(prior.len() as int) == prior
        &&& without_messages(now.skip(prior.len() as int)) == requests_to(next, n)
        &&& forall|j: int| prior.len() <= j < now.len() ==> cloned(message, #[trigger] now[j].1)
    } by {
        let prior = before[n].requests();
        let mid = current[n].requests();
        let now = after[n].requests();
        if n == network_id {
            assert(now == mid.push((recipients, copy, ok)));
            assert(now.take(prior.len() as int) =~= mid.take(prior.len() as int));
            assert(now.skip(prior.len() as int) =~= mid.skip(prior.len() as int).push((recipients, copy, ok)));
            assert(without_messages(now.skip(prior.len() as int)) =~= without_messages(mid.skip(prior.len() as int)).push(
                (recipients, ok),
            ));
            assert forall|j: int| prior.len() <= j < now.len() implies cloned(message, #[trigger] now[j].1) by {
                if j < mid.len() {
                    assert(now[j] == mid[j]);
                }
            }
        } else {
            assert(after[n] == current[n]);
        }
    }
}

/// Every member of every group is among the flattened items.
proof fn lemma_flatten_contains(groups: Seq<Seq<PeerNetworkId>>)
    ensures
        forall|x: int, j: int|
            0 <= x < groups.len() && 0 <= j < groups[x].len() ==> groups.flatten().contains(#[trigger] groups[x][j]),
    decreases groups.len(),
{
    if groups.len() > 0 {
        let rest = groups.drop_first();
        lemma_flatten_contains(rest);
        let head = groups[0];
        let tail = rest.flatten();
        assert(groups.flatten() == head.add(tail));
        assert forall|x: int, j: int| 0 <= x < groups.len() && 0 <= j < groups[x].len() implies groups.flatten().contains(
            #[trigger] groups[x][j],
        ) by {
            if x == 0 {
                assert(head.add(tail)[j] == head[j]);
            } else {
                assert(groups[x] == rest[x - 1]);
                assert(rest[x - 1][j] == groups[x][j]);
                assert(tail.contains(rest[x - 1][j]));
                let k = choose|k: int| 0 <= k < tail.len() && tail[k] == rest[x - 1][j];
                assert(head.add(tail)[head.len() + k] == tail[k]);
            }
        }
    }
}

} // verus!
