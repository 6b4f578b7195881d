//! Destinations by address.

use crate::hash::AddressHash;
use std::collections::HashMap;
use vstd::prelude::*;

verus! {

/// A map from addresses to what is known of the destinations behind them.
#[derive(Debug)]
pub struct Directory<V> {
    map: HashMap<u128, V>,
}

impl<V> View for Directory<V> {
    type V = Map<AddressHash, V>;

    closed spec fn view(&self) -> Map<AddressHash, V> {
        Map::new(
            |address: AddressHash| self.map@.contains_key(address.value),
            |address: AddressHash| self.map@[address.value],
        )
    }
}

impl<V> Directory<V> {
    /// A directory without entries.
    pub fn new() -> (directory: Directory<V>)
        ensures
            directory@ == Map::<AddressHash, V>::empty(),
    {
        let directory = Directory { map: HashMap::new() };
        assert(directory@ =~= Map::<AddressHash, V>::empty());
        directory
    }

    /// Number of entries.
    pub fn len(&self) -> (n: usize)
        ensures
            n == self@.len(),
            self@.dom().finite(),
    {
        proof {
            let stored = self.map@.dom();
            let wrap = |value: u128| AddressHash { value };
            assert(stored.map(wrap) =~= self@.dom()) by {
                assert forall|address: AddressHash| self@.dom().contains(address) implies stored.map(
                    wrap,
                ).contains(address) by {
                    assert(stored.contains(address.value));
                    assert(wrap(address.value) == address);
                }
            }
            vstd::set_lib::lemma_map_size(stored, self@.dom(), wrap);
        }
        self.map.len()
    }

    /// Whether `address` has an entry.
    pub fn contains_key(&self, address: &AddressHash) -> (found: bool)
        ensures
            found == self@.contains_key(*address),
    {
        self.map.contains_key(&address.value)
    }

    /// The entry of `address`.
    pub fn get(&self, address: &AddressHash) -> (entry: Option<&V>)
        ensures
            entry.is_some() == self@.contains_key(*address),
            entry matches Some(v) ==> *v == self@[*address],
    {
        self.map.get(&address.value)
    }

    /// Sets the entry of `address`.
    pub fn insert(&mut self, address: AddressHash, entry: V)
        ensures
            final(self)@ == old(self)@.insert(address, entry),
    {
        self.map.insert(address.value, entry);
        assert(self@ =~= old(self)@.insert(address, entry));
    }
}

} // verus!
