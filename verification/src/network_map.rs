//! A map keyed by network: one slot for each `NetworkId`.
use vstd::prelude::*;

use crate::ids::NetworkId;

verus! {

/// A map from networks to values, with one slot per network.
pub struct NetworkIdMap<V> {
    validator: Option<V>,
    vfn: Option<V>,
    public: Option<V>,
}

impl<V> NetworkIdMap<V> {
    /// What the slot of `network_id` holds.
    pub closed spec fn slot(&self, network_id: NetworkId) -> Option<V> {
        match network_id {
            NetworkId::Validator => self.validator,
            NetworkId::Vfn => self.vfn,
            NetworkId::Public => self.public,
        }
    }
}

impl<V> View for NetworkIdMap<V> {
    type V = Map<NetworkId, V>;

    closed spec fn view(&self) -> Map<NetworkId, V> {
        Map::new(|n: NetworkId| self.slot(n) is Some, |n: NetworkId| self.slot(n)->0)
    }
}

/// `ids` lists the keys of `m`, each once, in priority order.
pub open spec fn lists_keys_in_order(ids: Seq<NetworkId>, m: Set<NetworkId>) -> bool {
    &&& forall|n: NetworkId| m.contains(n) <==> ids.contains(n)
    &&& forall|a: int, b: int| 0 <= a < b < ids.len() ==> ids[a].precedes(ids[b])
}

impl<V> NetworkIdMap<V> {
    pub fn new() -> (r: NetworkIdMap<V>)
        ensures
            r@ == Map::<NetworkId, V>::empty(),
    {
        let r = NetworkIdMap { validator: None, vfn: None, public: None };
        assert(r@ =~= Map::<NetworkId, V>::empty());
        r
    }

    pub fn contains_key(&self, network_id: NetworkId) -> (r: bool)
        ensures
            r == self@.contains_key(network_id),
    {
        match network_id {
            NetworkId::Validator => self.validator.is_some(),
            NetworkId::Vfn => self.vfn.is_some(),
            NetworkId::Public => self.public.is_some(),
        }
    }

    pub fn get(&self, network_id: NetworkId) -> (r: Option<&V>)
        ensures
            match r {
                Some(v) => self@.contains_key(network_id) && *v == self@[network_id],
                None => !self@.contains_key(network_id),
            },
    {
        let slot = match network_id {
            NetworkId::Validator => &self.validator,
            NetworkId::Vfn => &self.vfn,
            NetworkId::Public => &self.public,
        };
        match slot {
            Some(v) => Some(v),
            None => None,
        }
    }

    /// The value of `network_id`, which must be present, to change in place.
    pub fn get_mut(&mut self, network_id: NetworkId) -> (r: &mut V)
        requires
            old(self)@.contains_key(network_id),
        ensures
            *r == old(self)@[network_id],
            final(self)@ == old(self)@.insert(network_id, *final(r)),
    {
        let slot = match network_id {
            NetworkId::Validator => &mut self.validator,
            NetworkId::Vfn => &mut self.vfn,
            NetworkId::Public => &mut self.public,
        };
        slot.as_mut().unwrap()
    }

    /// Put `value` in the slot of `network_id`, handing back what was there.
    pub fn insert(&mut self, network_id: NetworkId, value: V) -> (r: Option<V>)
        ensures
            final(self)@ == old(self)@.insert(network_id, value),
            r == old(self).slot(network_id),
            match r {
                Some(v) => old(self)@.contains_key(network_id) && v == old(self)@[network_id],
                None => !old(self)@.contains_key(network_id),
            },
    {
        let ghost before = *self;
        let r = match network_id {
            NetworkId::Validator => {
                let prev = self.validator.take();
                self.validator = Some(value);
                prev
            },
            NetworkId::Vfn => {
                let prev = self.vfn.take();
                self.vfn = Some(value);
                prev
            },
            NetworkId::Public => {
                let prev = self.public.take();
                self.public = Some(value);
                prev
            },
        };
        assert(self@ =~= before@.insert(network_id, value));
        r
    }

    /// Empty the slot of `network_id`, handing back what was there.
    pub fn remove(&mut self, network_id: NetworkId) -> (r: Option<V>)
        ensures
            final(self)@ == old(self)@.remove(network_id),
            match r {
                Some(v) => old(self)@.contains_key(network_id) && v == old(self)@[network_id],
                None => !old(self)@.contains_key(network_id),
            },
    {
        let ghost before = *self;
        let r = match network_id {
            NetworkId::Validator => self.validator.take(),
            NetworkId::Vfn => self.vfn.take(),
            NetworkId::Public => self.public.take(),
        };
        assert(self@ =~= before@.remove(network_id));
        r
    }

    /// The networks that have a value, in priority order.
    pub fn keys(&self) -> (r: Vec<NetworkId>)
        ensures
            lists_keys_in_order(r@, self@.dom()),
    {
        let mut r: Vec<NetworkId> = Vec::new();
        if self.validator.is_some() {
            r.push(NetworkId::Validator);
        }
        if self.vfn.is_some() {
            r.push(NetworkId::Vfn);
        }
        if self.public.is_some() {
            r.push(NetworkId::Public);
        }
        proof {
            assert forall|n: NetworkId| self@.dom().contains(n) <==> r@.contains(n) by {
                if self@.dom().contains(n) {
                    match n {
                        NetworkId::Validator => assert(r@[0] == n),
                        NetworkId::Vfn => assert(r@[r@.len() - 1 - (if self.public is Some { 1int } else { 0 })] == n),
                        NetworkId::Public => assert(r@[r@.len() - 1] == n),
                    }
                }
            }
        }
        r
    }
}

} // verus!
