//! What holds of every packet that comes in, whatever the state of the
//! node.

use crate::crypt::EvidenceView;
use crate::hash::AddressHash;
use crate::packet::PacketType;
use crate::packet::PacketView;
use crate::transport::action::TransportActionView;
use crate::transport::announce_table::first_due;
use crate::transport::announce_table::retransmit_of;
use crate::transport::announce_table::AnnounceEntryView;
use crate::transport::handler::reaction;
use crate::transport::handler::TransportState;
use crate::transport::packet_cache::PacketCache;
use crate::transport::PATHFINDER_M;
use vstd::prelude::*;

verus! {

/// Whether the cache of `after` holds every packet that the cache of
/// `before` holds.
pub open spec fn remembers(before: TransportState, after: TransportState) -> bool {
    forall|key: AddressHash|
        #![trigger after.cache.contains_key(key)]
        before.cache.contains_key(key) ==> after.cache.contains_key(key)
}

/// Handling a packet forgets no packet: what the cache held before, it
/// holds after.
pub proof fn lemma_handling_remembers(
    state: TransportState,
    iface: AddressHash,
    packet: PacketView,
    evidence: EvidenceView,
    now: u64,
)
    ensures
        remembers(state, state.dispatched(iface, packet, evidence, now).state),
        remembers(state, state.on_inbound(iface, packet, evidence, now).state),
{
    let read = state.read_out(packet, evidence, now, true);
    assert(remembers(state, read.state));
    assert(remembers(state, state.on_proof(packet, evidence, now).state));
    let first = state.read_in(packet, evidence, now);
    assert(remembers(state, first.state));
    let second = first.state.read_out(packet, evidence, now, false);
    assert(remembers(state, second.state));
    assert(remembers(state, state.on_data(packet, evidence, now).state));
    assert(remembers(state, state.on_announce(packet, evidence, iface, now).state));
    assert(remembers(state, state.on_link_request(packet, evidence, iface, now).state));
    let noted = state.filtered(packet, now);
    assert(remembers(state, noted));
    if state.takes(packet) {
        let echoed = if noted.broadcast && packet.header.packet_type != PacketType::Announce {
            noted.hands_out(
                crate::transport::action::TxMessageType::Broadcast(Some(iface)),
                packet.one_hop_on(),
                now,
            )
        } else {
            noted.idle()
        };
        assert(remembers(state, echoed.state));
        lemma_handling_remembers_from(echoed.state, iface, packet, evidence, now);
    }
}

proof fn lemma_handling_remembers_from(
    state: TransportState,
    iface: AddressHash,
    packet: PacketView,
    evidence: EvidenceView,
    now: u64,
)
    ensures
        remembers(state, state.dispatched(iface, packet, evidence, now).state),
{
    let read = state.read_out(packet, evidence, now, true);
    assert(remembers(state, read.state));
    assert(remembers(state, state.on_proof(packet, evidence, now).state));
    let first = state.read_in(packet, evidence, now);
    assert(remembers(state, first.state));
    let second = first.state.read_out(packet, evidence, now, false);
    assert(remembers(state, second.state));
    assert(remembers(state, state.on_data(packet, evidence, now).state));
    assert(remembers(state, state.on_announce(packet, evidence, iface, now).state));
    assert(remembers(state, state.on_link_request(packet, evidence, iface, now).state));
}

/// A packet that is handed in twice has its effect once.
///
/// Whatever came of the first handing-in, the second does nothing: it
/// changes no state and asks nothing of the runtime. This holds of every
/// packet but the two that the duplicate filter lets pass by design: an
/// announce, and the proof of a link that a peer asked for and that still
/// waits for it.
pub proof fn lemma_duplicate_does_nothing(
    state: TransportState,
    iface: AddressHash,
    packet: PacketView,
    evidence: EvidenceView,
    now: u64,
    again_iface: AddressHash,
    again_evidence: EvidenceView,
    again_now: u64,
)
    requires
        packet.header.packet_type != PacketType::Announce,
        !state.on_inbound(iface, packet, evidence, now).state.allows_duplicate(packet),
    ensures
        state.on_inbound(iface, packet, evidence, now).state.on_inbound(
            again_iface,
            packet,
            again_evidence,
            again_now,
        ) == state.on_inbound(iface, packet, evidence, now).state.idle(),
{
    let after = state.on_inbound(iface, packet, evidence, now).state;
    if state.takes(packet) {
        let noted = state.filtered(packet, now);
        assert(noted.cache.contains_key(PacketCache::key_of(packet)));
        let echoed = if noted.broadcast {
            noted.hands_out(
                crate::transport::action::TxMessageType::Broadcast(Some(iface)),
                packet.one_hop_on(),
                now,
            )
        } else {
            noted.idle()
        };
        assert(echoed.state.cache.contains_key(PacketCache::key_of(packet)));
        lemma_handling_remembers_from(echoed.state, iface, packet, evidence, now);
        assert(after.cache.contains_key(PacketCache::key_of(packet)));
    }
}

/// Announcing a destination again does not make the map of known
/// destinations grow: after an announce has been handled, handling the
/// same announce from the same interface once more leaves the map as it
/// is.
pub proof fn lemma_announce_again(
    state: TransportState,
    packet: PacketView,
    evidence: EvidenceView,
    iface: AddressHash,
    now: u64,
    again_now: u64,
)
    ensures
        state.on_announce(packet, evidence, iface, now).state.on_announce(
            packet,
            evidence,
            iface,
            again_now,
        ).state.learned == state.on_announce(packet, evidence, iface, now).state.learned,
        state.on_announce(packet, evidence, iface, now).state.learned.dom()
            == if state.on_announce(packet, evidence, iface, now).actions.len() > 0 {
            state.learned.dom().insert(packet.destination)
        } else {
            state.learned.dom()
        },
{
    let first = state.on_announce(packet, evidence, iface, now);
    if first.actions.len() > 0 {
        assert(first.state.learned.contains_key(packet.destination));
        assert(first.state.learned.dom() =~= state.learned.dom().insert(packet.destination));
    } else {
        assert(first.state.learned.dom() =~= state.learned.dom());
    }
}

/// Whether a packet that goes out has the hops it should have, given the
/// packet `received` that made it go out: it was made here and has none,
/// or it is `received` one hop further on, or it is a recorded announce
/// one hop further on.
pub open spec fn hops_in_order(
    action: TransportActionView,
    received: PacketView,
    announces: Seq<AnnounceEntryView>,
    our_id: AddressHash,
) -> bool {
    action matches TransportActionView::Send(message) ==> {
        ||| message.packet.header.hops == 0
        ||| (message.packet.header.hops == received.header.hops + 1 && message.packet.destination
            == received.destination && message.packet.data == received.data
            && message.packet.context == received.context)
        ||| exists|i: int|
            0 <= i < announces.len() && (#[trigger] announces[i]).packet.header.hops
                < PATHFINDER_M && message.packet == retransmit_of(announces[i].packet, our_id)
    }
}

/// Whether every action of the list has its hops in order.
pub open spec fn all_hops_in_order(
    actions: Seq<TransportActionView>,
    received: PacketView,
    announces: Seq<AnnounceEntryView>,
    our_id: AddressHash,
) -> bool {
    forall|i: int|
        0 <= i < actions.len() ==> hops_in_order(#[trigger] actions[i], received, announces, our_id)
}

/// A packet that is passed on has travelled one hop more than when it
/// came in, and a packet that has travelled [`PATHFINDER_M`] hops or more
/// is dropped.
///
/// Every packet that handling `packet` sends out was either made here, or
/// is `packet` with one hop added, or is an announce recorded earlier with
/// one hop added.
pub proof fn lemma_forwards_add_a_hop(
    state: TransportState,
    iface: AddressHash,
    packet: PacketView,
    evidence: EvidenceView,
    now: u64,
)
    ensures
        packet.header.hops >= PATHFINDER_M ==> state.on_inbound(iface, packet, evidence, now)
            == state.idle(),
        all_hops_in_order(
            state.on_inbound(iface, packet, evidence, now).actions,
            packet,
            state.on_inbound(iface, packet, evidence, now).state.announces,
            state.transport_id,
        ),
{
    if state.takes(packet) {
        let noted = state.filtered(packet, now);
        let echoed = if noted.broadcast && packet.header.packet_type != PacketType::Announce {
            noted.hands_out(
                crate::transport::action::TxMessageType::Broadcast(Some(iface)),
                packet.one_hop_on(),
                now,
            )
        } else {
            noted.idle()
        };
        let done = echoed.state.dispatched(iface, packet, evidence, now);
        lemma_dispatch_hops(echoed.state, iface, packet, evidence, now);
        let all = echoed.actions + done.actions;
        assert forall|i: int| 0 <= i < all.len() implies hops_in_order(
            #[trigger] all[i],
            packet,
            done.state.announces,
            state.transport_id,
        ) by {
            if i < echoed.actions.len() {
                assert(all[i] == echoed.actions[i]);
            } else {
                assert(all[i] == done.actions[i - echoed.actions.len()]);
            }
        }
    }
}

proof fn lemma_reaction_sends_nothing(
    link: crate::destination::link::LinkView,
    incoming: bool,
    packet: PacketView,
    evidence: EvidenceView,
    announces: Seq<AnnounceEntryView>,
    our_id: AddressHash,
)
    ensures
        all_hops_in_order(reaction(link, incoming, packet, evidence), packet, announces, our_id),
{
}

proof fn lemma_joined_hops(
    a: Seq<TransportActionView>,
    b: Seq<TransportActionView>,
    received: PacketView,
    announces: Seq<AnnounceEntryView>,
    our_id: AddressHash,
)
    requires
        all_hops_in_order(a, received, announces, our_id),
        all_hops_in_order(b, received, announces, our_id),
    ensures
        all_hops_in_order(a + b, received, announces, our_id),
{
    assert forall|i: int| 0 <= i < (a + b).len() implies hops_in_order(
        #[trigger] (a + b)[i],
        received,
        announces,
        our_id,
    ) by {
        if i < a.len() {
            assert((a + b)[i] == a[i]);
        } else {
            assert((a + b)[i] == b[i - a.len()]);
        }
    }
}

proof fn lemma_dispatch_hops(
    state: TransportState,
    iface: AddressHash,
    packet: PacketView,
    evidence: EvidenceView,
    now: u64,
)
    requires
        packet.header.hops < PATHFINDER_M,
    ensures
        all_hops_in_order(
            state.dispatched(iface, packet, evidence, now).actions,
            packet,
            state.dispatched(iface, packet, evidence, now).state.announces,
            state.transport_id,
        ),
{
    let done = state.dispatched(iface, packet, evidence, now);
    let announces = done.state.announces;
    let id = state.transport_id;
    match packet.header.packet_type {
        PacketType::Announce => {
            let out = state.on_announce(packet, evidence, iface, now);
            if out.actions.len() == 2 {
                let recorded = out.state.announces;
                let entries = crate::transport::announce_table::added(
                    state.announces,
                    AnnounceEntryView {
                        destination: packet.destination,
                        received_from: iface,
                        packet,
                        added: now,
                        pending: true,
                    },
                );
                let i = first_due(entries, packet.destination, id).unwrap();
                assert(crate::transport::announce_table::is_first_due(
                    entries,
                    i,
                    packet.destination,
                    id,
                ));
                assert(recorded[i].packet == entries[i].packet);
                assert(hops_in_order(out.actions[0], packet, announces, id));
            }
        },
        PacketType::LinkRequest => {},
        PacketType::Proof => {
            let read = state.read_out(packet, evidence, now, true);
            let passed = read.state.pass_back(packet, PacketType::Proof, now);
            if crate::transport::handler::has_link(state.out_links, packet.destination) {
                let link = state.out_links[crate::transport::handler::link_at(
                    state.out_links,
                    packet.destination,
                )];
                lemma_reaction_sends_nothing(link, false, packet, evidence, announces, id);
            }
            assert(all_hops_in_order(read.actions, packet, announces, id));
            assert(all_hops_in_order(passed.actions, packet, announces, id));
            lemma_joined_hops(read.actions, passed.actions, packet, announces, id);
        },
        PacketType::Data => {
            lemma_data_hops(state, packet, evidence, now);
        },
    }
}

proof fn lemma_data_hops(
    state: TransportState,
    packet: PacketView,
    evidence: EvidenceView,
    now: u64,
)
    requires
        packet.header.hops < PATHFINDER_M,
    ensures
        all_hops_in_order(
            state.on_data(packet, evidence, now).actions,
            packet,
            state.on_data(packet, evidence, now).state.announces,
            state.transport_id,
        ),
{
    let announces = state.on_data(packet, evidence, now).state.announces;
    let id = state.transport_id;
    if packet.header.destination_type == crate::packet::DestinationType::Link {
        let first = state.read_in(packet, evidence, now);
        let second = first.state.read_out(packet, evidence, now, false);
        let third = if crate::transport::handler::is_keepalive_answer(packet) {
            second.state.pass_back(packet, PacketType::Data, now)
        } else if second.state.passing_links.contains_key(packet.destination) {
            second.state.relay(
                packet,
                Some(second.state.passing_links[packet.destination].original_destination),
                now,
            )
        } else {
            second.state.idle()
        };
        if crate::transport::handler::has_link(state.in_links, packet.destination) {
            let link = state.in_links[crate::transport::handler::link_at(
                state.in_links,
                packet.destination,
            )];
            lemma_reaction_sends_nothing(link, true, packet, evidence, announces, id);
        }
        assert(all_hops_in_order(first.actions, packet, announces, id));
        if crate::transport::handler::has_link(first.state.out_links, packet.destination) {
            let link = first.state.out_links[crate::transport::handler::link_at(
                first.state.out_links,
                packet.destination,
            )];
            lemma_reaction_sends_nothing(link, false, packet, evidence, announces, id);
        }
        assert(all_hops_in_order(second.actions, packet, announces, id));
        assert(all_hops_in_order(third.actions, packet, announces, id));
        lemma_joined_hops(first.actions, second.actions, packet, announces, id);
        lemma_joined_hops(first.actions + second.actions, third.actions, packet, announces, id);
    }
}

/// The first path to a destination is the one its announce teaches: where
/// no path was known, an announce that holds leaves a path that is one hop
/// longer than the announce has travelled, on the interface it came in on.
/// An announce that has not travelled at all teaches a path of one hop.
pub proof fn lemma_first_path(
    state: TransportState,
    packet: PacketView,
    evidence: EvidenceView,
    iface: AddressHash,
    now: u64,
)
    requires
        packet.header.hops < PATHFINDER_M,
        !state.local.contains_key(packet.destination),
        !state.paths.contains_key(packet.destination),
        crate::destination::DestinationAnnounce::holds(packet, evidence.signature_valid),
    ensures
        state.on_inbound(iface, packet, evidence, now).state.paths == state.paths.insert(
            packet.destination,
            crate::transport::path_table::PathEntry {
                next_hop: match packet.transport {
                    Some(transport) => transport,
                    None => packet.destination,
                },
                iface,
                hops: (packet.header.hops + 1) as u8,
                seen: now,
            },
        ),
        state.on_announce(packet, evidence, iface, now).state.paths == state.on_inbound(
            iface,
            packet,
            evidence,
            now,
        ).state.paths,
        packet.header.hops == 0 ==> state.on_inbound(
            iface,
            packet,
            evidence,
            now,
        ).state.paths[packet.destination].hops == 1,
{
}

/// What a packet that is passed on to every other interface looks like,
/// where the node is set to broadcast.
pub open spec fn echo_of(state: TransportState, iface: AddressHash, packet: PacketView) -> Seq<
    TransportActionView,
> {
    if state.broadcast {
        seq![
            crate::transport::action::sending(
                crate::transport::action::TxMessageType::Broadcast(Some(iface)),
                packet.one_hop_on(),
            ),
        ]
    } else {
        Seq::empty()
    }
}

/// Of a stream of data for a destination of this node, every packet is
/// received once and a repeat does not stop the stream: a new packet is
/// received, the same packet again does nothing, and another new packet
/// after it is received. The two packets are different ones: the cache
/// knows them by different keys.
pub proof fn lemma_stream_goes_on_after_a_repeat(
    state: TransportState,
    iface: AddressHash,
    first: PacketView,
    second: PacketView,
    evidence: EvidenceView,
    now: u64,
)
    requires
        first.header.packet_type == PacketType::Data,
        second.header.packet_type == PacketType::Data,
        first.header.destination_type == crate::packet::DestinationType::Single,
        second.header.destination_type == crate::packet::DestinationType::Single,
        first.header.hops < PATHFINDER_M,
        second.header.hops < PATHFINDER_M,
        state.local.contains_key(first.destination),
        second.destination == first.destination,
        !state.cache.contains_key(PacketCache::key_of(first)),
        !state.cache.contains_key(PacketCache::key_of(second)),
        PacketCache::key_of(first) != PacketCache::key_of(second),
    ensures
        ({
            let one = state.on_inbound(iface, first, evidence, now);
            let again = one.state.on_inbound(iface, first, evidence, now);
            let two = again.state.on_inbound(iface, second, evidence, now);
            &&& one.actions == echo_of(state, iface, first).push(
                TransportActionView::Received { destination: first.destination, data: first.data },
            )
            &&& again == one.state.idle()
            &&& two.actions == echo_of(state, iface, second).push(
                TransportActionView::Received {
                    destination: first.destination,
                    data: second.data,
                },
            )
        }),
{
    let one = state.on_inbound(iface, first, evidence, now);
    let again = one.state.on_inbound(iface, first, evidence, now);
    let two = again.state.on_inbound(iface, second, evidence, now);
    assert(PacketCache::key_of(first.one_hop_on()) == PacketCache::key_of(first)) by {
        assert(first.one_hop_on().hashable_part() =~= first.hashable_part());
    }
    assert(PacketCache::key_of(second.one_hop_on()) == PacketCache::key_of(second)) by {
        assert(second.one_hop_on().hashable_part() =~= second.hashable_part());
    }
    assert(state.takes(first));
    assert(one.actions =~= echo_of(state, iface, first).push(
        TransportActionView::Received { destination: first.destination, data: first.data },
    ));
    assert(one.state.cache.contains_key(PacketCache::key_of(first)));
    assert(!one.state.cache.contains_key(PacketCache::key_of(second)));
    assert(one.state.local == state.local);
    assert(one.state.broadcast == state.broadcast);
    assert(!one.state.takes(first));
    assert(again == one.state.idle());
    assert(one.state.takes(second));
    assert(two.actions =~= echo_of(state, iface, second).push(
        TransportActionView::Received { destination: first.destination, data: second.data },
    ));
}

} // verus!
