//! The on-chain record of the network identities of validators.
use vstd::prelude::*;

use crate::ids::PeerId;

verus! {

/// An x25519 public key, as its 32 bytes.
#[derive(Clone, Copy, Debug, PartialEq, Eq, Hash)]
pub struct PublicKey {
    pub bytes: [u8; 32],
}

impl View for PublicKey {
    type V = Seq<u8>;

    open spec fn view(&self) -> Seq<u8> {
        self.bytes@
    }
}

impl PublicKey {
    /// The two keys have the same bytes.
    pub fn same_as(&self, other: &PublicKey) -> (r: bool)
        ensures
            r == (self@ == other@),
    {
        let mut i: usize = 0;
        while i < 32
            invariant
                i <= 32,
                self@.len() == 32,
                other@.len() == 32,
                forall|j: int| 0 <= j < i ==> self@[j] == other@[j],
            decreases 32 - i,
        {
            if self.bytes[i] != other.bytes[i] {
                return false;
            }
            i = i + 1;
        }
        assert(self@ =~= other@);
        true
    }
}

/// The keys a peer may authenticate with.
pub open spec fn key_views(keys: Seq<PublicKey>) -> Seq<Seq<u8>> {
    keys.map_values(|k: PublicKey| k@)
}

/// The network identity of one peer: its id and its public keys.
#[derive(Clone, Debug, Eq, PartialEq)]
pub struct NetworkIdentity {
    pub peer_id: PeerId,
    pub pubkeys: Vec<PublicKey>,
}

/// The on-chain resource that lists network identities.
#[derive(Clone, Debug, Eq, PartialEq)]
pub struct NetworkIdentityResource {
    identities: Vec<NetworkIdentity>,
}

impl NetworkIdentityResource {
    /// The identities the resource lists.
    pub closed spec fn spec_identities(&self) -> Seq<NetworkIdentity> {
        self.identities@
    }

    pub fn new(identities: Vec<NetworkIdentity>) -> (r: NetworkIdentityResource)
        ensures
            r.spec_identities() == identities@,
    {
        NetworkIdentityResource { identities }
    }

    pub fn identities(&self) -> (r: &[NetworkIdentity])
        ensures
            r@ == self.spec_identities(),
    {
        self.identities.as_slice()
    }
}

/// The key of an event stream, as its bytes.
#[derive(Clone, Copy, Debug, PartialEq, Eq, Hash)]
pub struct EventKey {
    pub bytes: [u8; 24],
}

/// A handle to an event stream: how many events were emitted, and the stream's key.
#[derive(Clone, Copy, Debug, PartialEq, Eq, Hash)]
pub struct EventHandle {
    pub counter: u64,
    pub key: EventKey,
}

/// The on-chain handle to the stream of network identity changes.
#[derive(Clone, Copy, Debug, Eq, PartialEq, Hash)]
pub struct NetworkIdentityEventHandle {
    identity_change_events: EventHandle,
}

impl NetworkIdentityEventHandle {
    /// The handle this resource holds.
    pub closed spec fn spec_identity_change_events(&self) -> EventHandle {
        self.identity_change_events
    }

    pub fn new(identity_change_events: EventHandle) -> (r: NetworkIdentityEventHandle)
        ensures
            r.spec_identity_change_events() == identity_change_events,
    {
        NetworkIdentityEventHandle { identity_change_events }
    }

    pub fn identity_change_events(&self) -> (r: &EventHandle)
        ensures
            *r == self.spec_identity_change_events(),
    {
        &self.identity_change_events
    }
}

} // verus!
