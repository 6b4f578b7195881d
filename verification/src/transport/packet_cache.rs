//! Which packets have been seen of late.

use crate::destination::link::time_since;
use crate::hash::AddressHash;
use crate::packet::Packet;
use crate::packet::PacketView;
use crate::table::lemma_row_of;
use crate::table::row_of;
use crate::table::Table;
use vstd::prelude::*;

verus! {

/// The packets seen of late, each known by the leading sixteen bytes of
/// its digest, with the time it was first seen.
#[derive(Debug)]
pub struct PacketCache {
    seen: Table<u64>,
}

impl View for PacketCache {
    type V = Map<AddressHash, u64>;

    closed spec fn view(&self) -> Map<AddressHash, u64> {
        self.seen@
    }
}

impl PacketCache {
    /// No packet is recorded twice.
    pub closed spec fn wf(&self) -> bool {
        self.seen.wf()
    }

    /// What the cache knows a packet by.
    pub open spec fn key_of(packet: PacketView) -> AddressHash {
        AddressHash { value: packet.hash().hi }
    }

    /// Whether the cache holds `packet`.
    pub open spec fn holds(&self, packet: PacketView) -> bool {
        self@.contains_key(Self::key_of(packet))
    }

    /// What is left of a cache when everything first seen more than
    /// `max_age` before `now` is forgotten.
    pub open spec fn released(cache: Map<AddressHash, u64>, max_age: u64, now: u64) -> Map<
        AddressHash,
        u64,
    > {
        Map::new(
            |key: AddressHash| cache.contains_key(key) && time_since(now, cache[key]) <= max_age,
            |key: AddressHash| cache[key],
        )
    }

    /// An empty cache.
    pub fn new() -> (cache: PacketCache)
        ensures
            cache.wf(),
            cache@ == Map::<AddressHash, u64>::empty(),
    {
        PacketCache { seen: Table::new() }
    }

    /// Number of packets held.
    pub fn len(&self) -> (n: usize)
        requires
            self.wf(),
        ensures
            n == self@.len(),
    {
        self.seen.len()
    }

    /// Records `packet` as seen at `now` unless it is held already, and
    /// tells whether it was new.
    pub fn update(&mut self, packet: &Packet, now: u64) -> (is_new: bool)
        requires
            old(self).wf(),
        ensures
            final(self).wf(),
            is_new == !old(self).holds(packet@),
            final(self)@ == if is_new {
                old(self)@.insert(Self::key_of(packet@), now)
            } else {
                old(self)@
            },
    {
        let key = AddressHash::new_from_hash(&packet.hash());
        if self.seen.contains_key(&key) {
            false
        } else {
            self.seen.insert(key, now);
            true
        }
    }

    /// Forgets every packet first seen more than `max_age` before `now`.
    pub fn release(&mut self, max_age: u64, now: u64)
        requires
            old(self).wf(),
        ensures
            final(self).wf(),
            final(self)@ == Self::released(old(self)@, max_age, now),
            forall|key: AddressHash|
                final(self)@.contains_key(key) <==> old(self)@.contains_key(key) && time_since(
                    now,
                    old(self)@[key],
                ) <= max_age,
            forall|key: AddressHash|
                final(self)@.contains_key(key) ==> final(self)@[key] == old(self)@[key],
    {
        let ghost initial = self.seen@;
        let mut i: usize = 0;
        while i < self.seen.len()
            invariant
                self.seen.wf(),
                i <= self.seen.rows().len(),
                forall|key: AddressHash|
                    #![trigger self.seen@.contains_key(key)]
                    self.seen@.contains_key(key) ==> initial.contains_key(key)
                        && self.seen@[key] == initial[key],
                forall|key: AddressHash|
                    #![trigger initial.contains_key(key)]
                    initial.contains_key(key) && time_since(now, initial[key])
                        <= max_age ==> self.seen@.contains_key(key),
                forall|j: int|
                    0 <= j < i ==> time_since(now, (#[trigger] self.seen.rows()[j]).value)
                        <= max_age,
            decreases self.seen.rows().len() - i,
        {
            let stamp = *self.seen.value_at(i);
            let age = if now >= stamp {
                now - stamp
            } else {
                0
            };
            proof {
                self.seen.lemma_view();
                lemma_row_of(self.seen.rows(), i as int);
            }
            if age > max_age {
                let ghost before = self.seen@;
                let row = self.seen.remove_at(i);
                proof {
                    assert forall|key: AddressHash| self.seen@.contains_key(key) implies before.contains_key(
                        key,
                    ) && self.seen@[key] == before[key] by {
                        assert(key != row.key);
                    }
                    assert forall|key: AddressHash| before.contains_key(key) && key
                        != row.key implies self.seen@.contains_key(key) by {}
                }
            } else {
                i += 1;
            }
        }
        proof {
            self.seen.lemma_view();
            assert forall|key: AddressHash| self.seen@.contains_key(key) implies time_since(
                now,
                initial[key],
            ) <= max_age by {
                let j = row_of(self.seen.rows(), key);
                lemma_row_of(self.seen.rows(), j);
            }
            assert(self@ =~= Self::released(old(self)@, max_age, now));
        }
    }
}

} // verus!
