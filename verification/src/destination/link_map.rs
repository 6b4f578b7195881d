//! Which link serves which destination.

use crate::destination::link::LinkId;
use crate::hash::AddressHash;
use std::collections::HashMap;
use vstd::prelude::*;

verus! {

/// A map from destination addresses to the ids of the links that reach
/// them.
pub struct LinkMap {
    map: HashMap<u128, u128>,
}

impl View for LinkMap {
    type V = Map<AddressHash, LinkId>;

    closed spec fn view(&self) -> Map<AddressHash, LinkId> {
        Map::new(
            |address: AddressHash| self.map@.contains_key(address.value),
            |address: AddressHash| AddressHash { value: self.map@[address.value] },
        )
    }
}

impl Default for LinkMap {
    fn default() -> (map: LinkMap)
        ensures
            map@ == Map::<AddressHash, LinkId>::empty(),
    {
        LinkMap::new()
    }
}

impl LinkMap {
    /// A map without entries.
    pub fn new() -> (map: LinkMap)
        ensures
            map@ == Map::<AddressHash, LinkId>::empty(),
    {
        let map = LinkMap { map: HashMap::new() };
        assert(map@ =~= Map::<AddressHash, LinkId>::empty());
        map
    }

    /// The link recorded for `address`, if there is one.
    pub fn resolve(&self, address: &AddressHash) -> (id: Option<LinkId>)
        ensures
            id == if self@.contains_key(*address) {
                Some(self@[*address])
            } else {
                None
            },
    {
        match self.map.get(&address.value) {
            Some(value) => Some(AddressHash { value: *value }),
            None => None,
        }
    }

    /// Records `id` as the link for `address`, in place of any earlier one.
    pub fn insert(&mut self, address: &AddressHash, id: &LinkId)
        ensures
            final(self)@ == old(self)@.insert(*address, *id),
    {
        self.map.insert(address.value, id.value);
        assert(self@ =~= old(self)@.insert(*address, *id));
    }

    /// Forgets the link for `address`.
    pub fn remove(&mut self, address: &AddressHash)
        ensures
            final(self)@ == old(self)@.remove(*address),
    {
        self.map.remove(&address.value);
        assert(self@ =~= old(self)@.remove(*address));
    }
}

} // verus!
