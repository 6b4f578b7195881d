//! The announces that have come in and are still to be passed on.

use crate::hash::AddressHash;
use crate::packet::Header;
use crate::packet::HeaderType;
use crate::packet::Packet;
use crate::packet::PacketView;
use crate::packet::PropagationType;
use crate::transport::PATHFINDER_M;
use vstd::prelude::*;

verus! {

/// One announce, as it came in.
#[derive(Debug)]
pub struct AnnounceEntry {
    pub destination: AddressHash,
    /// The interface the announce came in on.
    pub received_from: AddressHash,
    pub packet: Packet,
    /// When the announce came in.
    pub added: u64,
    /// Whether the announce is still to be passed on.
    pub pending: bool,
}

/// [`AnnounceEntry`] in terms of plain values.
pub struct AnnounceEntryView {
    pub destination: AddressHash,
    pub received_from: AddressHash,
    pub packet: PacketView,
    pub added: u64,
    pub pending: bool,
}

impl View for AnnounceEntry {
    type V = AnnounceEntryView;

    open spec fn view(&self) -> AnnounceEntryView {
        AnnounceEntryView {
            destination: self.destination,
            received_from: self.received_from,
            packet: self.packet@,
            added: self.added,
            pending: self.pending,
        }
    }
}

impl AnnounceEntryView {
    /// Whether the announce is to be passed on by the node `our_id`: it is
    /// pending, it has hops to spare, and it has not come through this
    /// node before.
    pub open spec fn due(self, our_id: AddressHash) -> bool {
        self.pending && self.packet.header.hops < PATHFINDER_M && self.packet.transport != Some(
            our_id,
        )
    }

    /// The same entry, passed on or given up.
    pub open spec fn settled(self) -> AnnounceEntryView {
        AnnounceEntryView { pending: false, ..self }
    }
}

/// An announce as the node `our_id` passes it on: one hop further, with
/// two addresses, in transport, through this node.
pub open spec fn retransmit_of(announce: PacketView, our_id: AddressHash) -> PacketView {
    PacketView {
        header: Header {
            header_type: HeaderType::Type2,
            propagation_type: PropagationType::Transport,
            hops: (announce.header.hops + 1) as u8,
            ..announce.header
        },
        transport: Some(our_id),
        ..announce
    }
}

/// Whether no two entries agree in destination and interface.
pub open spec fn distinct_sources(entries: Seq<AnnounceEntryView>) -> bool {
    forall|i: int, j: int|
        0 <= i < j < entries.len() ==> !((#[trigger] entries[i]).destination == (
        #[trigger] entries[j]).destination && entries[i].received_from
            == entries[j].received_from)
}

/// Entries that keep their destinations and interfaces stay distinct.
pub proof fn lemma_same_sources(before: Seq<AnnounceEntryView>, after: Seq<AnnounceEntryView>)
    requires
        distinct_sources(before),
        after.len() == before.len(),
        forall|i: int|
            0 <= i < before.len() ==> (#[trigger] after[i]).destination == before[i].destination
                && after[i].received_from == before[i].received_from,
    ensures
        distinct_sources(after),
{
    assert forall|a: int, b: int| 0 <= a < b < after.len() implies !((
    #[trigger] after[a]).destination == (#[trigger] after[b]).destination
        && after[a].received_from == after[b].received_from) by {
        assert(after[a].destination == before[a].destination);
        assert(after[b].destination == before[b].destination);
        assert(!(before[a].destination == before[b].destination && before[a].received_from
            == before[b].received_from));
    }
}

/// Whether entry `i` is the one for `destination` as heard on `iface`.
pub open spec fn is_source(
    entries: Seq<AnnounceEntryView>,
    i: int,
    destination: AddressHash,
    iface: AddressHash,
) -> bool {
    0 <= i < entries.len() && entries[i].destination == destination && entries[i].received_from
        == iface
}

/// Whether entry `i` is the first for `destination` that is due.
pub open spec fn is_first_due(
    entries: Seq<AnnounceEntryView>,
    i: int,
    destination: AddressHash,
    our_id: AddressHash,
) -> bool {
    &&& 0 <= i < entries.len()
    &&& entries[i].destination == destination
    &&& entries[i].due(our_id)
    &&& forall|j: int|
        0 <= j < i ==> !((#[trigger] entries[j]).destination == destination && entries[j].due(
            our_id,
        ))
}

/// The index of the entry for `destination` as heard on `iface`.
pub open spec fn source_index(
    entries: Seq<AnnounceEntryView>,
    destination: AddressHash,
    iface: AddressHash,
) -> Option<int> {
    if exists|i: int| is_source(entries, i, destination, iface) {
        Some(choose|i: int| is_source(entries, i, destination, iface))
    } else {
        None
    }
}

/// The entries after `entry` has been recorded: it takes the place of the
/// entry for the same destination and interface, or else goes to the end.
pub open spec fn added(entries: Seq<AnnounceEntryView>, entry: AnnounceEntryView) -> Seq<
    AnnounceEntryView,
> {
    match source_index(entries, entry.destination, entry.received_from) {
        Some(i) => entries.update(i, entry),
        None => entries.push(entry),
    }
}

/// The index of the first entry for `destination` that is due.
pub open spec fn first_due(
    entries: Seq<AnnounceEntryView>,
    destination: AddressHash,
    our_id: AddressHash,
) -> Option<int> {
    if exists|i: int| is_first_due(entries, i, destination, our_id) {
        Some(choose|i: int| is_first_due(entries, i, destination, our_id))
    } else {
        None
    }
}

/// The entries after the first due entry for `destination` has been
/// passed on.
pub open spec fn minted(
    entries: Seq<AnnounceEntryView>,
    destination: AddressHash,
    our_id: AddressHash,
) -> Seq<AnnounceEntryView> {
    match first_due(entries, destination, our_id) {
        Some(i) => entries.update(i, entries[i].settled()),
        None => entries,
    }
}

/// What is sent when the first due entry for `destination` is passed on:
/// the interface it came in on and the announce as passed on.
pub open spec fn minting(
    entries: Seq<AnnounceEntryView>,
    destination: AddressHash,
    our_id: AddressHash,
) -> Option<(AddressHash, PacketView)> {
    match first_due(entries, destination, our_id) {
        Some(i) => Some((entries[i].received_from, retransmit_of(entries[i].packet, our_id))),
        None => None,
    }
}

/// The entries with every one of them settled.
pub open spec fn all_settled(entries: Seq<AnnounceEntryView>) -> Seq<AnnounceEntryView> {
    Seq::new(entries.len(), |i: int| entries[i].settled())
}

/// An entry is found at one index only.
pub proof fn lemma_source_index(
    entries: Seq<AnnounceEntryView>,
    i: int,
    destination: AddressHash,
    iface: AddressHash,
)
    requires
        distinct_sources(entries),
        is_source(entries, i, destination, iface),
    ensures
        source_index(entries, destination, iface) == Some(i),
{
    let j = choose|j: int| is_source(entries, j, destination, iface);
    if j < i {
        assert(!(entries[j].destination == entries[i].destination && entries[j].received_from
            == entries[i].received_from));
    } else if i < j {
        assert(!(entries[i].destination == entries[j].destination && entries[i].received_from
            == entries[j].received_from));
    }
}

/// The first due entry is found at one index only.
pub proof fn lemma_first_due(
    entries: Seq<AnnounceEntryView>,
    i: int,
    destination: AddressHash,
    our_id: AddressHash,
)
    requires
        is_first_due(entries, i, destination, our_id),
    ensures
        first_due(entries, destination, our_id) == Some(i),
{
    let j = choose|j: int| is_first_due(entries, j, destination, our_id);
    if j < i {
        assert(!(entries[j].destination == destination && entries[j].due(our_id)));
    } else if i < j {
        assert(!(entries[i].destination == destination && entries[i].due(our_id)));
    }
}

/// What is to be sent for the entries that are due: for each, in order, the
/// interface it came in on and the announce as passed on.
pub open spec fn due_list(entries: Seq<AnnounceEntryView>, our_id: AddressHash) -> Seq<
    (AddressHash, PacketView),
>
    decreases entries.len(),
{
    if entries.len() == 0 {
        Seq::empty()
    } else {
        let before = due_list(entries.drop_last(), our_id);
        if entries.last().due(our_id) {
            before.push((entries.last().received_from, retransmit_of(entries.last().packet, our_id)))
        } else {
            before
        }
    }
}

/// A list of interfaces and packets in terms of plain values.
pub open spec fn sendings(list: Seq<(AddressHash, Packet)>) -> Seq<(AddressHash, PacketView)> {
    Seq::new(list.len(), |i: int| (list[i].0, list[i].1@))
}

/// The announces that have come in, one for each destination and
/// interface, in the order in which they were first heard.
#[derive(Debug)]
pub struct AnnounceTable {
    entries: Vec<AnnounceEntry>,
}

impl View for AnnounceTable {
    type V = Seq<AnnounceEntryView>;

    closed spec fn view(&self) -> Seq<AnnounceEntryView> {
        Seq::new(self.entries@.len(), |i: int| self.entries@[i]@)
    }
}

impl AnnounceTable {
    /// No destination is recorded twice for one interface.
    pub open spec fn wf(&self) -> bool {
        distinct_sources(self@)
    }

    /// A table without entries.
    pub fn new() -> (table: AnnounceTable)
        ensures
            table.wf(),
            table@ == Seq::<AnnounceEntryView>::empty(),
    {
        let table = AnnounceTable { entries: Vec::new() };
        assert(table@ =~= Seq::<AnnounceEntryView>::empty());
        table
    }

    /// Number of entries.
    pub fn len(&self) -> (n: usize)
        ensures
            n == self@.len(),
    {
        self.entries.len()
    }

    /// Records an announce for `destination` that came in on
    /// `received_from`, as pending. It takes the place of an earlier one
    /// from the same interface.
    pub fn add(&mut self, packet: &Packet, destination: AddressHash, received_from: AddressHash, now: u64)
        requires
            old(self).wf(),
        ensures
            final(self).wf(),
            final(self)@ == added(
                old(self)@,
                AnnounceEntryView {
                    destination,
                    received_from,
                    packet: packet@,
                    added: now,
                    pending: true,
                },
            ),
    {
        let entry = AnnounceEntry {
            destination,
            received_from,
            packet: packet.clone(),
            added: now,
            pending: true,
        };
        let mut i: usize = 0;
        while i < self.entries.len()
            invariant
                i <= self.entries@.len(),
                self.entries@ == old(self).entries@,
                self@ == old(self)@,
                distinct_sources(self@),
                entry@ == (AnnounceEntryView {
                    destination,
                    received_from,
                    packet: packet@,
                    added: now,
                    pending: true,
                }),
                forall|j: int| 0 <= j < i ==> !is_source(self@, j, destination, received_from),
            decreases self.entries@.len() - i,
        {
            if self.entries[i].destination == destination && self.entries[i].received_from
                == received_from {
                let ghost before = self@;
                let ghost fresh = entry@;
                assert(is_source(before, i as int, destination, received_from));
                proof {
                    lemma_source_index(before, i as int, destination, received_from);
                }
                self.entries[i] = entry;
                assert(self@ =~= before.update(i as int, fresh));
                proof {
                    lemma_same_sources(before, self@);
                }
                return ;
            }
            i += 1;
        }
        let ghost before = self@;
        let ghost fresh = entry@;
        self.entries.push(entry);
        assert(self@ =~= before.push(fresh));
        assert(source_index(before, destination, received_from).is_none());
        assert forall|a: int, b: int| 0 <= a < b < self@.len() implies !((
        #[trigger] self@[a]).destination == (#[trigger] self@[b]).destination
            && self@[a].received_from == self@[b].received_from) by {
            if b < before.len() {
                assert(self@[a] == before[a] && self@[b] == before[b]);
            } else {
                assert(!is_source(before, a, destination, received_from));
            }
        }
    }

    /// The announce of `destination` to pass on right away, with the
    /// interface it came in on: the first entry for `destination` that is
    /// due. The entry is settled with it.
    pub fn new_packet(&mut self, destination: &AddressHash, our_id: &AddressHash) -> (sending:
        Option<(AddressHash, Packet)>)
        requires
            old(self).wf(),
        ensures
            final(self).wf(),
            final(self)@ == minted(old(self)@, *destination, *our_id),
            match sending {
                Some((iface, packet)) => Some((iface, packet@)) == minting(
                    old(self)@,
                    *destination,
                    *our_id,
                ),
                None => minting(old(self)@, *destination, *our_id).is_none(),
            },
    {
        let mut i: usize = 0;
        while i < self.entries.len()
            invariant
                i <= self.entries@.len(),
                self.entries@ == old(self).entries@,
                self@ == old(self)@,
                distinct_sources(self@),
                forall|j: int|
                    0 <= j < i ==> !((#[trigger] self@[j]).destination == *destination
                        && self@[j].due(*our_id)),
            decreases self.entries@.len() - i,
        {
            if self.entries[i].destination == *destination && self.entries[i].pending
                && (self.entries[i].packet.header.hops as usize) < PATHFINDER_M
                && self.entries[i].packet.transport != Some(*our_id) {
                let ghost before = self@;
                assert(is_first_due(before, i as int, *destination, *our_id));
                proof {
                    lemma_first_due(before, i as int, *destination, *our_id);
                }
                let packet = pass_on(&self.entries[i].packet, *our_id);
                let iface = self.entries[i].received_from;
                self.entries[i].pending = false;
                assert(self@ =~= before.update(i as int, before[i as int].settled()));
                proof {
                    lemma_same_sources(before, self@);
                }
                return Some((iface, packet));
            }
            assert(!(self@[i as int].destination == *destination && self@[i as int].due(*our_id)));
            i += 1;
        }
        None
    }

    /// The announces to pass on, each with the interface it came in on:
    /// every entry that is due, in order. All entries are settled with it.
    pub fn to_retransmit(&mut self, our_id: &AddressHash) -> (list: Vec<(AddressHash, Packet)>)
        requires
            old(self).wf(),
        ensures
            final(self).wf(),
            final(self)@.len() == old(self)@.len(),
            final(self)@ == all_settled(old(self)@),
            sendings(list@) == due_list(old(self)@, *our_id),
    {
        let ghost initial = self@;
        let mut list: Vec<(AddressHash, Packet)> = Vec::new();
        let mut i: usize = 0;
        while i < self.entries.len()
            invariant
                i <= self.entries@.len(),
                self@.len() == initial.len(),
                forall|j: int| 0 <= j < i ==> #[trigger] self@[j] == initial[j].settled(),
                forall|j: int| i <= j < initial.len() ==> #[trigger] self@[j] == initial[j],
                sendings(list@) == due_list(initial.take(i as int), *our_id),
            decreases self.entries@.len() - i,
        {
            let ghost before = self@;
            let ghost sent = sendings(list@);
            proof {
                assert(initial.take(i + 1).drop_last() =~= initial.take(i as int));
                assert(self@[i as int] == initial[i as int]);
            }
            if self.entries[i].pending && (self.entries[i].packet.header.hops as usize)
                < PATHFINDER_M && self.entries[i].packet.transport != Some(*our_id) {
                let packet = pass_on(&self.entries[i].packet, *our_id);
                list.push((self.entries[i].received_from, packet));
                assert(sendings(list@) =~= sent.push(
                    (initial[i as int].received_from, retransmit_of(
                        initial[i as int].packet,
                        *our_id,
                    )),
                ));
            }
            self.entries[i].pending = false;
            assert(self@ =~= before.update(i as int, before[i as int].settled()));
            i += 1;
        }
        proof {
            assert(initial.take(i as int) =~= initial);
            lemma_same_sources(initial, self@);
            assert(self@ =~= all_settled(initial));
        }
        list
    }
}

/// The announce as the node `our_id` passes it on.
fn pass_on(announce: &Packet, our_id: AddressHash) -> (packet: Packet)
    requires
        announce@.header.hops < u8::MAX,
    ensures
        packet@ == retransmit_of(announce@, our_id),
{
    let mut packet = announce.clone();
    packet.header.header_type = HeaderType::Type2;
    packet.header.propagation_type = PropagationType::Transport;
    packet.header.hops = announce.header.hops + 1;
    packet.transport = Some(our_id);
    packet
}

} // verus!
