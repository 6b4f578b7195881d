//! The links that pass through this node on their way between two others.

use crate::destination::link::time_since;
use crate::destination::link::LinkId;
use crate::hash::AddressHash;
use crate::packet::Packet;
use crate::packet::PacketType;
use crate::packet::PacketView;
use crate::table::lemma_row_of;
use crate::table::row_of;
use crate::table::Table;
use crate::transport::packet_cache::PacketCache;
use vstd::prelude::*;

verus! {

/// Microseconds that an untouched entry is kept.
pub const INTERVAL_KEEP_LINK_ENTRY: u64 = 180_000_000;

/// What is known of one link that passes through.
#[derive(Clone, Copy, Debug, PartialEq, Eq, Structural)]
pub struct LinkEntry {
    /// The destination the link was asked for.
    pub original_destination: AddressHash,
    /// The interface the request came in on: the way back to the asker.
    pub received_from: AddressHash,
    /// The transport node the request was handed to.
    pub next_hop: AddressHash,
    /// The interface the request went out on.
    pub next_iface: AddressHash,
    /// When the entry was made or last used.
    pub touched: u64,
}

/// The links that pass through, by link id.
#[derive(Debug)]
pub struct LinkTable {
    links: Table<LinkEntry>,
}

impl View for LinkTable {
    type V = Map<LinkId, LinkEntry>;

    closed spec fn view(&self) -> Map<LinkId, LinkEntry> {
        self.links@
    }
}

impl LinkTable {
    /// No link has two entries.
    pub closed spec fn wf(&self) -> bool {
        self.links.wf()
    }

    /// The id of the link that `request` asks for.
    pub open spec fn id_of(request: PacketView) -> LinkId {
        PacketCache::key_of(request)
    }

    /// Whether `packet` is one that is passed back along a recorded link:
    /// it is addressed to the link and of type `wanted`.
    pub open spec fn leads_back(&self, packet: PacketView, wanted: PacketType) -> bool {
        self@.contains_key(packet.destination) && packet.header.packet_type == wanted
    }

    /// What is left of a table when every entry last touched more than
    /// [`INTERVAL_KEEP_LINK_ENTRY`] before `now` is forgotten.
    pub open spec fn unstale(links: Map<LinkId, LinkEntry>, now: u64) -> Map<LinkId, LinkEntry> {
        Map::new(
            |id: LinkId|
                links.contains_key(id) && time_since(now, links[id].touched)
                    <= INTERVAL_KEEP_LINK_ENTRY,
            |id: LinkId| links[id],
        )
    }

    /// A table without entries.
    pub fn new() -> (table: LinkTable)
        ensures
            table.wf(),
            table@ == Map::<LinkId, LinkEntry>::empty(),
    {
        LinkTable { links: Table::new() }
    }

    /// Records the link that `request` asks for, unless it is recorded
    /// already.
    pub fn add(
        &mut self,
        request: &Packet,
        destination: AddressHash,
        received_from: AddressHash,
        next_hop: AddressHash,
        next_iface: AddressHash,
        now: u64,
    )
        requires
            old(self).wf(),
        ensures
            final(self).wf(),
            final(self)@ == if old(self)@.contains_key(Self::id_of(request@)) {
                old(self)@
            } else {
                old(self)@.insert(
                    Self::id_of(request@),
                    LinkEntry {
                        original_destination: destination,
                        received_from,
                        next_hop,
                        next_iface,
                        touched: now,
                    },
                )
            },
    {
        let id = AddressHash::new_from_hash(&request.hash());
        if !self.links.contains_key(&id) {
            self.links.insert(
                id,
                LinkEntry {
                    original_destination: destination,
                    received_from,
                    next_hop,
                    next_iface,
                    touched: now,
                },
            );
        }
    }

    /// The destination that link `link_id` was asked for.
    pub fn original_destination(&self, link_id: &LinkId) -> (destination: Option<AddressHash>)
        requires
            self.wf(),
        ensures
            destination == if self@.contains_key(*link_id) {
                Some(self@[*link_id].original_destination)
            } else {
                None
            },
    {
        match self.links.get(link_id) {
            Some(entry) => Some(entry.original_destination),
            None => None,
        }
    }

    fn pass_back(&mut self, packet: &Packet, wanted: PacketType, now: u64) -> (back: Option<
        (Packet, AddressHash),
    >)
        requires
            old(self).wf(),
            packet@.header.hops < u8::MAX,
        ensures
            final(self).wf(),
            back.is_some() == old(self).leads_back(packet@, wanted),
            back matches Some((passed, iface)) ==> passed@ == packet@.one_hop_on() && iface == old(self)@[packet@.destination].received_from && final(self)@ == old(self)@.insert(
                packet@.destination,
                LinkEntry { touched: now, ..old(self)@[packet@.destination] },
            ),
            back.is_none() ==> final(self)@ == old(self)@,
    {
        if packet.header.packet_type != wanted {
            return None;
        }
        let entry = match self.links.get(&packet.destination) {
            Some(entry) => *entry,
            None => {
                return None;
            },
        };
        self.links.insert(packet.destination, LinkEntry { touched: now, ..entry });
        let mut passed = packet.clone();
        passed.header.hops = packet.header.hops + 1;
        Some((passed, entry.received_from))
    }

    /// Passes the proof of a recorded link back towards the asker: the
    /// packet one hop on, and the interface the request came in on.
    pub fn handle_proof(&mut self, packet: &Packet, now: u64) -> (back: Option<
        (Packet, AddressHash),
    >)
        requires
            old(self).wf(),
            packet@.header.hops < u8::MAX,
        ensures
            final(self).wf(),
            back.is_some() == old(self).leads_back(packet@, PacketType::Proof),
            back matches Some((passed, iface)) ==> passed@ == packet@.one_hop_on() && iface == old(self)@[packet@.destination].received_from && final(self)@ == old(self)@.insert(
                packet@.destination,
                LinkEntry { touched: now, ..old(self)@[packet@.destination] },
            ),
            back.is_none() ==> final(self)@ == old(self)@,
    {
        self.pass_back(packet, PacketType::Proof, now)
    }

    /// Passes the keep-alive answer of a recorded link back towards the
    /// asker: the packet one hop on, and the interface the request came in
    /// on.
    pub fn handle_keepalive(&mut self, packet: &Packet, now: u64) -> (back: Option<
        (Packet, AddressHash),
    >)
        requires
            old(self).wf(),
            packet@.header.hops < u8::MAX,
        ensures
            final(self).wf(),
            back.is_some() == old(self).leads_back(packet@, PacketType::Data),
            back matches Some((passed, iface)) ==> passed@ == packet@.one_hop_on() && iface == old(self)@[packet@.destination].received_from && final(self)@ == old(self)@.insert(
                packet@.destination,
                LinkEntry { touched: now, ..old(self)@[packet@.destination] },
            ),
            back.is_none() ==> final(self)@ == old(self)@,
    {
        self.pass_back(packet, PacketType::Data, now)
    }

    /// Forgets every entry that was last touched more than
    /// [`INTERVAL_KEEP_LINK_ENTRY`] before `now`.
    pub fn remove_stale(&mut self, now: u64)
        requires
            old(self).wf(),
        ensures
            final(self).wf(),
            final(self)@ == Self::unstale(old(self)@, now),
            forall|id: LinkId|
                final(self)@.contains_key(id) <==> old(self)@.contains_key(id) && time_since(
                    now,
                    old(self)@[id].touched,
                ) <= INTERVAL_KEEP_LINK_ENTRY,
            forall|id: LinkId| final(self)@.contains_key(id) ==> final(self)@[id] == old(self)@[id],
    {
        let ghost initial = self.links@;
        let mut i: usize = 0;
        while i < self.links.len()
            invariant
                self.links.wf(),
                i <= self.links.rows().len(),
                forall|id: LinkId|
                    #![trigger self.links@.contains_key(id)]
                    self.links@.contains_key(id) ==> initial.contains_key(id)
                        && self.links@[id] == initial[id],
                forall|id: LinkId|
                    #![trigger initial.contains_key(id)]
                    initial.contains_key(id) && time_since(
                        now,
                        initial[id].touched,
                    ) <= INTERVAL_KEEP_LINK_ENTRY ==> self.links@.contains_key(id),
                forall|j: int|
                    0 <= j < i ==> time_since(now, (#[trigger] self.links.rows()[j]).value.touched)
                        <= INTERVAL_KEEP_LINK_ENTRY,
            decreases self.links.rows().len() - i,
        {
            let stamp = self.links.value_at(i).touched;
            let age = if now >= stamp {
                now - stamp
            } else {
                0
            };
            proof {
                self.links.lemma_view();
                lemma_row_of(self.links.rows(), i as int);
            }
            if age > INTERVAL_KEEP_LINK_ENTRY {
                let ghost before = self.links@;
                let row = self.links.remove_at(i);
                proof {
                    assert forall|key: LinkId| self.links@.contains_key(key) implies before.contains_key(
                        key,
                    ) && self.links@[key] == before[key] by {
                        assert(key != row.key);
                    }
                    assert forall|key: LinkId| before.contains_key(key) && key
                        != row.key implies self.links@.contains_key(key) by {}
                }
            } else {
                i += 1;
            }
        }
        proof {
            self.links.lemma_view();
            assert forall|id: LinkId| self.links@.contains_key(id) implies time_since(
                now,
                initial[id].touched,
            ) <= INTERVAL_KEEP_LINK_ENTRY by {
                let j = row_of(self.links.rows(), id);
                lemma_row_of(self.links.rows(), j);
            }
            assert(self@ =~= Self::unstale(old(self)@, now));
        }
    }
}

} // verus!
