//! The next hop towards every destination that has announced itself.

use crate::hash::AddressHash;
use crate::packet::Header;
use crate::packet::HeaderType;
use crate::packet::Packet;
use crate::packet::PacketView;
use crate::packet::PropagationType;
use crate::table::Table;
use vstd::prelude::*;

verus! {

/// What is known of the way to one destination.
#[derive(Clone, Copy, Debug, PartialEq, Eq, Structural)]
pub struct PathEntry {
    /// The transport node to hand packets to.
    pub next_hop: AddressHash,
    /// The interface that leads there.
    pub iface: AddressHash,
    /// How many hops away the destination is.
    pub hops: u8,
    /// When the path was learned.
    pub seen: u64,
}

impl PathEntry {
    /// The path that an announce teaches: one hop further than the announce
    /// has travelled, through the transport node it names, or straight to
    /// the destination where it names none.
    pub open spec fn learned(
        announce: PacketView,
        transport_hint: Option<AddressHash>,
        iface: AddressHash,
        now: u64,
    ) -> PathEntry {
        PathEntry {
            next_hop: match transport_hint {
                Some(transport) => transport,
                None => announce.destination,
            },
            iface,
            hops: if announce.header.hops < u8::MAX {
                (announce.header.hops + 1) as u8
            } else {
                u8::MAX
            },
            seen: now,
        }
    }

    /// Whether this path is to replace `other`: it is shorter, or as short
    /// and no older.
    pub open spec fn beats(self, other: PathEntry) -> bool {
        self.hops < other.hops || (self.hops == other.hops && self.seen >= other.seen)
    }

    /// `packet` as the node `our_id` passes it on along a path: one hop
    /// further, with two addresses, in transport, through this node.
    pub open spec fn routed(packet: PacketView, our_id: AddressHash) -> PacketView {
        PacketView {
            header: Header {
                header_type: HeaderType::Type2,
                propagation_type: PropagationType::Transport,
                hops: (packet.header.hops + 1) as u8,
                ..packet.header
            },
            transport: Some(our_id),
            ..packet
        }
    }

    /// `packet` as it sets out along this path from here: with two
    /// addresses, in transport, through the next hop.
    pub open spec fn launched(self, packet: PacketView) -> PacketView {
        PacketView {
            header: Header {
                header_type: HeaderType::Type2,
                propagation_type: PropagationType::Transport,
                ..packet.header
            },
            transport: Some(self.next_hop),
            ..packet
        }
    }
}

/// The paths learned from announces, one for each destination.
#[derive(Debug)]
pub struct PathTable {
    paths: Table<PathEntry>,
}

impl View for PathTable {
    type V = Map<AddressHash, PathEntry>;

    closed spec fn view(&self) -> Map<AddressHash, PathEntry> {
        self.paths@
    }
}

impl PathTable {
    /// No destination has two paths.
    pub closed spec fn wf(&self) -> bool {
        self.paths.wf()
    }

    /// The table after an announce: the path it teaches is taken where the
    /// destination had none or a worse one.
    pub open spec fn after_announce(
        paths: Map<AddressHash, PathEntry>,
        announce: PacketView,
        transport_hint: Option<AddressHash>,
        iface: AddressHash,
        now: u64,
    ) -> Map<AddressHash, PathEntry> {
        let learned = PathEntry::learned(announce, transport_hint, iface, now);
        if !paths.contains_key(announce.destination) || learned.beats(
            paths[announce.destination],
        ) {
            paths.insert(announce.destination, learned)
        } else {
            paths
        }
    }

    /// A table without paths.
    pub fn new() -> (table: PathTable)
        ensures
            table.wf(),
            table@ == Map::<AddressHash, PathEntry>::empty(),
    {
        PathTable { paths: Table::new() }
    }

    /// Learns from an announce that came in on `iface`.
    pub fn handle_announce(
        &mut self,
        announce: &Packet,
        transport_hint: Option<AddressHash>,
        iface: AddressHash,
        now: u64,
    )
        requires
            old(self).wf(),
        ensures
            final(self).wf(),
            final(self)@ == Self::after_announce(old(self)@, announce@, transport_hint, iface, now),
    {
        let learned = PathEntry {
            next_hop: match transport_hint {
                Some(transport) => transport,
                None => announce.destination,
            },
            iface,
            hops: if announce.header.hops < u8::MAX {
                announce.header.hops + 1
            } else {
                u8::MAX
            },
            seen: now,
        };
        let take = match self.paths.get(&announce.destination) {
            Some(known) => learned.hops < known.hops || (learned.hops == known.hops && learned.seen
                >= known.seen),
            None => true,
        };
        if take {
            self.paths.insert(announce.destination, learned);
        }
    }

    /// The path to `destination`.
    pub fn get(&self, destination: &AddressHash) -> (entry: Option<PathEntry>)
        requires
            self.wf(),
        ensures
            entry == if self@.contains_key(*destination) {
                Some(self@[*destination])
            } else {
                None
            },
    {
        match self.paths.get(destination) {
            Some(entry) => Some(*entry),
            None => None,
        }
    }

    /// The next hop towards `destination` and the interface that leads to
    /// it.
    pub fn next_hop_full(&self, destination: &AddressHash) -> (hop: Option<
        (AddressHash, AddressHash),
    >)
        requires
            self.wf(),
        ensures
            hop == if self@.contains_key(*destination) {
                Some((self@[*destination].next_hop, self@[*destination].iface))
            } else {
                None
            },
    {
        match self.paths.get(destination) {
            Some(entry) => Some((entry.next_hop, entry.iface)),
            None => None,
        }
    }

    /// Passes on a packet that came in at the node `our_id`: where the
    /// table has a path to `lookup`, or to the packet's destination if no
    /// `lookup` is given, the packet as this node passes it on and the
    /// interface to send it out on; else the packet as it is and no
    /// interface.
    pub fn handle_inbound_packet(
        &self,
        packet: &Packet,
        lookup: Option<AddressHash>,
        our_id: AddressHash,
    ) -> (routed: (Packet, Option<AddressHash>))
        requires
            self.wf(),
            packet@.header.hops < u8::MAX,
        ensures
            ({
                let sought = match lookup {
                    Some(address) => address,
                    None => packet@.destination,
                };
                if self@.contains_key(sought) {
                    routed.0@ == PathEntry::routed(packet@, our_id) && routed.1 == Some(
                        self@[sought].iface,
                    )
                } else {
                    routed.0@ == packet@ && routed.1.is_none()
                }
            }),
    {
        let sought = match lookup {
            Some(address) => address,
            None => packet.destination,
        };
        match self.paths.get(&sought) {
            Some(entry) => {
                let mut routed = packet.clone();
                routed.header.header_type = HeaderType::Type2;
                routed.header.propagation_type = PropagationType::Transport;
                routed.header.hops = packet.header.hops + 1;
                routed.transport = Some(our_id);
                (routed, Some(entry.iface))
            },
            None => (packet.clone(), None),
        }
    }

    /// Sends a packet of this node on its way: where the table has a path
    /// to its destination, the packet as launched along it and the
    /// interface to send it out on; else the packet as it is and no
    /// interface.
    pub fn handle_packet(&self, packet: &Packet) -> (routed: (Packet, Option<AddressHash>))
        requires
            self.wf(),
        ensures
            if self@.contains_key(packet@.destination) {
                routed.0@ == self@[packet@.destination].launched(packet@) && routed.1 == Some(
                    self@[packet@.destination].iface,
                )
            } else {
                routed.0@ == packet@ && routed.1.is_none()
            },
    {
        match self.paths.get(&packet.destination) {
            Some(entry) => {
                let mut routed = packet.clone();
                routed.header.header_type = HeaderType::Type2;
                routed.header.propagation_type = PropagationType::Transport;
                routed.transport = Some(entry.next_hop);
                (routed, Some(entry.iface))
            },
            None => (packet.clone(), None),
        }
    }
}

} // verus!
