//! The state of a transport node and what every kind of packet does to it.

use crate::crypt::Evidence;
use crate::crypt::EvidenceView;
use crate::destination::link::link_packet;
use crate::destination::link::Link;
use crate::destination::link::LinkEvent;
use crate::destination::link::LinkEventData;
use crate::destination::link::LinkEventDataView;
use crate::destination::link::LinkHandleResult;
use crate::destination::link::LinkId;
use crate::destination::link::LinkStatus;
use crate::destination::link::LinkView;
use crate::destination::link::KEEP_ALIVE_RESPONSE;
use crate::destination::link::RTT_PAYLOAD_LENGTH;
use crate::destination::DestinationAnnounce;
use crate::destination::DestinationHandleStatus;
use crate::destination::Identity;
use crate::destination::SingleInputDestination;
use crate::destination::SingleOutputDestination;
use crate::hash::be_bytes;
use crate::hash::AddressHash;
use crate::packet::DestinationType;
use crate::packet::Packet;
use crate::packet::PacketContext;
use crate::packet::PacketDataBuffer;
use crate::packet::PacketType;
use crate::packet::PacketView;
use crate::destination::directory::Directory;
use crate::transport::action::no_actions;
use crate::transport::action::push_action;
use crate::transport::action::sending;
use crate::transport::action::views;
use crate::transport::action::AnnounceEvent;
use crate::transport::action::ReceivedData;
use crate::transport::action::TransportAction;
use crate::transport::action::TransportActionView;
use crate::transport::action::TxMessage;
use crate::transport::action::TxMessageType;
use crate::transport::announce_table::added;
use crate::transport::announce_table::minted;
use crate::transport::announce_table::minting;
use crate::transport::announce_table::AnnounceEntryView;
use crate::transport::announce_table::AnnounceTable;
use crate::transport::link_table::LinkEntry;
use crate::transport::link_table::LinkTable;
use crate::transport::packet_cache::PacketCache;
use crate::transport::path_table::PathEntry;
use crate::transport::path_table::PathTable;
use crate::transport::PATHFINDER_M;
use vstd::prelude::*;

verus! {

/// How a transport node is set up.
#[derive(Debug)]
pub struct TransportConfig {
    name: String,
    identity: Identity,
    broadcast: bool,
    retransmit: bool,
}

impl TransportConfig {
    /// The name of the node.
    pub closed spec fn spec_name(&self) -> Seq<char> {
        self.name@
    }

    /// The identity of the node.
    pub closed spec fn identity(&self) -> Identity {
        self.identity
    }

    /// Whether the node passes every packet but announces on to all other
    /// interfaces.
    pub closed spec fn broadcast(&self) -> bool {
        self.broadcast
    }

    /// Whether the node passes announces on.
    pub closed spec fn retransmit(&self) -> bool {
        self.retransmit
    }

    /// The setup of the node called `name` with the identity `identity`.
    /// Announces are not passed on until [`TransportConfig::set_retransmit`]
    /// says so.
    pub fn new(name: &str, identity: &Identity, broadcast: bool) -> (config: TransportConfig)
        ensures
            config.spec_name() == name@,
            config.identity() == *identity,
            config.broadcast() == broadcast,
            !config.retransmit(),
    {
        TransportConfig { name: name.to_string(), identity: *identity, broadcast, retransmit: false }
    }

    /// Says whether announces are passed on.
    pub fn set_retransmit(&mut self, retransmit: bool)
        ensures
            final(self).retransmit() == retransmit,
            final(self).broadcast() == old(self).broadcast(),
            final(self).identity() == old(self).identity(),
            final(self).spec_name() == old(self).spec_name(),
    {
        self.retransmit = retransmit;
    }

    /// Says whether every packet but announces is passed on to all other
    /// interfaces.
    pub fn set_broadcast(&mut self, broadcast: bool)
        ensures
            final(self).broadcast() == broadcast,
            final(self).retransmit() == old(self).retransmit(),
            final(self).identity() == old(self).identity(),
            final(self).spec_name() == old(self).spec_name(),
    {
        self.broadcast = broadcast;
    }

    /// The name of the node.
    pub fn name(&self) -> (name: &str)
        ensures
            name@ == self.spec_name(),
    {
        self.name.as_str()
    }

    /// The address of the node.
    pub fn transport_id(&self) -> (id: AddressHash)
        ensures
            id == self.identity().address_hash,
    {
        self.identity.address_hash
    }

    /// Whether every packet but announces is passed on to all other
    /// interfaces.
    pub fn is_broadcast(&self) -> (broadcast: bool)
        ensures
            broadcast == self.broadcast(),
    {
        self.broadcast
    }

    /// Whether announces are passed on.
    pub fn is_retransmit(&self) -> (retransmit: bool)
        ensures
            retransmit == self.retransmit(),
    {
        self.retransmit
    }
}

/// The state of a transport node in terms of plain values.
pub struct TransportState {
    /// The name of the node.
    pub name: Seq<char>,
    /// The identity of the node.
    pub identity: Identity,
    /// The address of the node: that of its identity.
    pub transport_id: AddressHash,
    pub broadcast: bool,
    pub retransmit: bool,
    pub paths: Map<AddressHash, PathEntry>,
    pub announces: Seq<AnnounceEntryView>,
    pub passing_links: Map<LinkId, LinkEntry>,
    pub local: Map<AddressHash, SingleInputDestination>,
    pub learned: Map<AddressHash, SingleOutputDestination>,
    pub out_links: Seq<LinkView>,
    pub in_links: Seq<LinkView>,
    pub cache: Map<AddressHash, u64>,
}

/// The links in terms of plain values.
pub open spec fn link_views(links: Seq<Link>) -> Seq<LinkView> {
    Seq::new(links.len(), |i: int| links[i]@)
}

/// Whether no two links have the same id.
pub open spec fn distinct_ids(links: Seq<LinkView>) -> bool {
    forall|i: int, j: int|
        0 <= i < j < links.len() ==> (#[trigger] links[i]).id != (#[trigger] links[j]).id
}

/// Whether some link has the id `id`.
pub open spec fn has_link(links: Seq<LinkView>, id: LinkId) -> bool {
    exists|i: int| 0 <= i < links.len() && (#[trigger] links[i]).id == id
}

/// The index of a link with the id `id`.
pub open spec fn link_at(links: Seq<LinkView>, id: LinkId) -> int {
    choose|i: int| 0 <= i < links.len() && (#[trigger] links[i]).id == id
}

/// The cache after `packet` has been handed to the interfaces at `now`.
pub open spec fn cache_after(cache: Map<AddressHash, u64>, packet: PacketView, now: u64) -> Map<
    AddressHash,
    u64,
> {
    if cache.contains_key(PacketCache::key_of(packet)) {
        cache
    } else {
        cache.insert(PacketCache::key_of(packet), now)
    }
}

/// The event `event` on `link`, for the subscribers.
pub open spec fn event_data(link: LinkView, event: crate::destination::link::LinkEventView)
    -> LinkEventDataView {
    link.news(event)
}

impl TransportState {
    /// Whether `packet` is let pass although it has been seen: it is the
    /// proof of a link that a peer asked for and that still waits for it.
    pub open spec fn allows_duplicate(self, packet: PacketView) -> bool {
        &&& packet.header.packet_type == PacketType::Proof
        &&& packet.context == PacketContext::LinkRequestProof
        &&& has_link(self.in_links, packet.destination)
        &&& self.in_links[link_at(self.in_links, packet.destination)].status.spec_not_yet_active()
    }

    /// Whether `packet` gets past the duplicate filter: announces always
    /// do, any other packet if it is new or is let pass as a duplicate.
    pub open spec fn passes_filter(self, packet: PacketView) -> bool {
        packet.header.packet_type == PacketType::Announce || !self.cache.contains_key(
            PacketCache::key_of(packet),
        ) || self.allows_duplicate(packet)
    }

    /// The state after the duplicate filter has looked at `packet`: every
    /// packet but an announce is in the cache.
    pub open spec fn filtered(self, packet: PacketView, now: u64) -> TransportState {
        if packet.header.packet_type == PacketType::Announce {
            self
        } else {
            TransportState { cache: cache_after(self.cache, packet, now), ..self }
        }
    }

    /// Whether `packet` is taken in at all: it has hops to spare and gets
    /// past the duplicate filter.
    pub open spec fn takes(self, packet: PacketView) -> bool {
        packet.header.hops < PATHFINDER_M && self.passes_filter(packet)
    }

    /// The state after `packet` has been handed to the interfaces.
    pub open spec fn sent(self, packet: PacketView, now: u64) -> TransportState {
        TransportState { cache: cache_after(self.cache, packet, now), ..self }
    }
}

/// A state together with what the runtime is asked to do.
pub struct Outcome {
    pub state: TransportState,
    pub actions: Seq<TransportActionView>,
}

/// What the reading of `packet` by `link` gives the runtime to pass on:
/// the event for the subscribers, then the payload for the channel.
pub open spec fn reaction(
    link: LinkView,
    incoming: bool,
    packet: PacketView,
    evidence: EvidenceView,
) -> Seq<TransportActionView> {
    let handled = link.yields(packet, evidence);
    let told = match handled.event {
        Some(event) => seq![
            if incoming {
                TransportActionView::InLink(event_data(link, event))
            } else {
                TransportActionView::OutLink(event_data(link, event))
            },
        ],
        None => Seq::<TransportActionView>::empty(),
    };
    let piped = match handled.channel {
        Some(payload) => seq![TransportActionView::Channel { link: link.id, payload }],
        None => Seq::<TransportActionView>::empty(),
    };
    told + piped
}

/// Whether `packet` is the answer to a keep-alive.
pub open spec fn is_keepalive_answer(packet: PacketView) -> bool {
    packet.context == PacketContext::KeepAlive && packet.data.len() >= 1 && packet.data[0]
        == KEEP_ALIVE_RESPONSE
}

impl TransportState {
    /// Nothing happens.
    pub open spec fn idle(self) -> Outcome {
        Outcome { state: self, actions: Seq::empty() }
    }

    /// `packet` is handed to the interfaces as `tx_type` says.
    pub open spec fn hands_out(self, tx_type: TxMessageType, packet: PacketView, now: u64)
        -> Outcome {
        Outcome { state: self.sent(packet, now), actions: seq![sending(tx_type, packet)] }
    }

    /// The link that a peer opened and that `packet` is addressed to reads
    /// it, and answers a keep-alive.
    pub open spec fn read_in(self, packet: PacketView, evidence: EvidenceView, now: u64)
        -> Outcome {
        if has_link(self.in_links, packet.destination) {
            let i = link_at(self.in_links, packet.destination);
            let link = self.in_links[i];
            let read = TransportState {
                in_links: self.in_links.update(i, link.after(packet, evidence, now)),
                ..self
            };
            if link.yields(packet, evidence).result == LinkHandleResult::KeepAlive {
                let answer = link_packet(
                    link.id,
                    PacketType::Data,
                    PacketContext::KeepAlive,
                    seq![KEEP_ALIVE_RESPONSE],
                );
                Outcome {
                    state: read.sent(answer, now),
                    actions: reaction(link, true, packet, evidence).push(
                        sending(TxMessageType::Broadcast(None), answer),
                    ),
                }
            } else {
                Outcome { state: read, actions: reaction(link, true, packet, evidence) }
            }
        } else {
            self.idle()
        }
    }

    /// The link that this node opened and that `packet` is addressed to
    /// reads it. Where `probe` is set and the link has just become active,
    /// its round-trip time is to be sealed and sent to the peer.
    pub open spec fn read_out(
        self,
        packet: PacketView,
        evidence: EvidenceView,
        now: u64,
        probe: bool,
    ) -> Outcome {
        if has_link(self.out_links, packet.destination) {
            let i = link_at(self.out_links, packet.destination);
            let link = self.out_links[i];
            let after = link.after(packet, evidence, now);
            let read = TransportState { out_links: self.out_links.update(i, after), ..self };
            if probe && link.yields(packet, evidence).result == LinkHandleResult::Activated {
                Outcome {
                    state: read,
                    actions: reaction(link, false, packet, evidence).push(
                        TransportActionView::Seal {
                            link: link.id,
                            context: PacketContext::LinkRTT,
                            payload: be_bytes(after.rtt as nat, RTT_PAYLOAD_LENGTH as nat),
                        },
                    ),
                }
            } else {
                Outcome { state: read, actions: reaction(link, false, packet, evidence) }
            }
        } else {
            self.idle()
        }
    }

    /// `packet` is passed on towards `lookup`, or towards its destination
    /// if no `lookup` is given, where a path is known. A packet that has
    /// travelled [`PATHFINDER_M`] hops or more is not passed on.
    pub open spec fn relay(self, packet: PacketView, lookup: Option<AddressHash>, now: u64)
        -> Outcome {
        let sought = match lookup {
            Some(address) => address,
            None => packet.destination,
        };
        if packet.header.hops < PATHFINDER_M && self.paths.contains_key(sought) {
            self.hands_out(
                TxMessageType::Direct(self.paths[sought].iface),
                PathEntry::routed(packet, self.transport_id),
                now,
            )
        } else {
            self.idle()
        }
    }

    /// `packet`, if it is of type `wanted` and addressed to a link that
    /// passes through, is passed back towards the node that asked for the
    /// link. A packet that has travelled [`PATHFINDER_M`] hops or more is
    /// not passed back.
    pub open spec fn pass_back(self, packet: PacketView, wanted: PacketType, now: u64) -> Outcome {
        if packet.header.hops < PATHFINDER_M && self.passing_links.contains_key(
            packet.destination,
        ) && packet.header.packet_type == wanted {
            let entry = self.passing_links[packet.destination];
            TransportState {
                passing_links: self.passing_links.insert(
                    packet.destination,
                    LinkEntry { touched: now, ..entry },
                ),
                ..self
            }.hands_out(TxMessageType::Direct(entry.received_from), packet.one_hop_on(), now)
        } else {
            self.idle()
        }
    }

    /// What a proof does: the link of this node that it is addressed to
    /// reads it, and becomes active if the proof is good; then the proof is
    /// passed back along a link that passes through.
    pub open spec fn on_proof(self, packet: PacketView, evidence: EvidenceView, now: u64)
        -> Outcome {
        let read = self.read_out(packet, evidence, now, true);
        let passed = read.state.pass_back(packet, PacketType::Proof, now);
        Outcome { state: passed.state, actions: read.actions + passed.actions }
    }

    /// What a data packet does.
    ///
    /// Addressed to a link, it is read by the links of this node with that
    /// id, first the one a peer opened, then the one this node opened.
    /// Then the answer to a keep-alive is passed back along a link that
    /// passes through; any other packet for a link that passes through is
    /// passed on towards the destination of that link.
    ///
    /// Addressed to a single destination, it is received if the
    /// destination is of this node, else passed on where a path is known.
    pub open spec fn on_data(self, packet: PacketView, evidence: EvidenceView, now: u64)
        -> Outcome {
        if packet.header.destination_type == DestinationType::Link {
            let first = self.read_in(packet, evidence, now);
            let second = first.state.read_out(packet, evidence, now, false);
            let third = if is_keepalive_answer(packet) {
                second.state.pass_back(packet, PacketType::Data, now)
            } else if second.state.passing_links.contains_key(packet.destination) {
                second.state.relay(
                    packet,
                    Some(second.state.passing_links[packet.destination].original_destination),
                    now,
                )
            } else {
                second.state.idle()
            };
            Outcome { state: third.state, actions: first.actions + second.actions + third.actions }
        } else if packet.header.destination_type == DestinationType::Single {
            if self.local.contains_key(packet.destination) {
                Outcome {
                    state: self,
                    actions: seq![
                        TransportActionView::Received {
                            destination: packet.destination,
                            data: packet.data,
                        },
                    ],
                }
            } else {
                self.relay(packet, None, now)
            }
        } else {
            self.idle()
        }
    }
}

impl TransportState {
    /// What an announce does.
    ///
    /// The announce of a destination of this node, and one that does not
    /// hold, does nothing. Any other makes its destination known if it was
    /// not, is recorded for passing on, and teaches a path. Where the node
    /// passes announces on, the first recorded announce of the destination
    /// that is due goes out on every interface but the one it came in on.
    /// Last, the subscribers hear of the destination and the application
    /// data of the announce.
    pub open spec fn on_announce(
        self,
        packet: PacketView,
        evidence: EvidenceView,
        iface: AddressHash,
        now: u64,
    ) -> Outcome {
        if self.local.contains_key(packet.destination) || !DestinationAnnounce::holds(
            packet,
            evidence.signature_valid,
        ) {
            self.idle()
        } else {
            let desc = DestinationAnnounce::announced(packet.data);
            let destination = SingleOutputDestination { identity: desc.identity, desc };
            let recorded = added(
                self.announces,
                AnnounceEntryView {
                    destination: packet.destination,
                    received_from: iface,
                    packet,
                    added: now,
                    pending: true,
                },
            );
            let learned = TransportState {
                learned: if self.learned.contains_key(packet.destination) {
                    self.learned
                } else {
                    self.learned.insert(packet.destination, destination)
                },
                announces: recorded,
                paths: PathTable::after_announce(self.paths, packet, packet.transport, iface, now),
                ..self
            };
            let told = TransportActionView::Announce {
                destination,
                app_data: crate::packet::fitting(
                    packet.data.skip(crate::destination::ANNOUNCE_HEADER_LENGTH as int),
                    crate::packet::PACKET_MDU as int,
                ),
            };
            if self.retransmit {
                match minting(recorded, packet.destination, self.transport_id) {
                    Some((received_from, passed)) => {
                        let sent = TransportState {
                            announces: minted(recorded, packet.destination, self.transport_id),
                            ..learned
                        }.hands_out(TxMessageType::Broadcast(Some(received_from)), passed, now);
                        Outcome { state: sent.state, actions: sent.actions.push(told) }
                    },
                    None => Outcome { state: learned, actions: seq![told] },
                }
            } else {
                Outcome { state: learned, actions: seq![told] }
            }
        }
    }

    /// What a link request to the destination `destination` of this node
    /// does: unless the link is known already, the request is malformed or
    /// no proof is at hand, the link is made, the proof goes out on every
    /// interface, the link is active and its subscribers hear of it.
    pub open spec fn on_link_request_here(
        self,
        destination: SingleInputDestination,
        packet: PacketView,
        evidence: EvidenceView,
        now: u64,
    ) -> Outcome {
        if destination.spec_handle_packet(packet) == DestinationHandleStatus::LinkProof
            && !has_link(self.in_links, LinkView::id_of(packet)) && LinkView::answerable(
            packet,
            destination.desc,
        ) && evidence.link_proof.is_some() {
            let link = LinkView {
                status: LinkStatus::Active,
                ..LinkView::answering(packet, destination.desc, now)
            };
            let proof = link_packet(
                link.id,
                PacketType::Proof,
                PacketContext::LinkRequestProof,
                crate::packet::fitting(
                    evidence.link_proof.unwrap(),
                    crate::packet::PACKET_MDU as int,
                ),
            );
            Outcome {
                state: TransportState { in_links: self.in_links.push(link), ..self.sent(proof, now) },
                actions: seq![
                    sending(TxMessageType::Broadcast(None), proof),
                    TransportActionView::InLink(
                        event_data(link, crate::destination::link::LinkEventView::Activated),
                    ),
                ],
            }
        } else {
            self.idle()
        }
    }

    /// What passing a link request on does: the link is recorded as
    /// passing through, from the interface `iface` that the request came in
    /// on to the next hop `next_hop` on `next_iface`, and the request is
    /// passed on where a path to its destination is known. A request that
    /// has travelled [`PATHFINDER_M`] hops or more is dropped.
    pub open spec fn on_link_request_through(
        self,
        packet: PacketView,
        iface: AddressHash,
        next_hop: AddressHash,
        next_iface: AddressHash,
        now: u64,
    ) -> Outcome {
        let id = LinkTable::id_of(packet);
        if packet.header.hops >= PATHFINDER_M {
            self.idle()
        } else {
            TransportState {
            passing_links: if self.passing_links.contains_key(id) {
                self.passing_links
            } else {
                self.passing_links.insert(
                    id,
                    LinkEntry {
                        original_destination: packet.destination,
                        received_from: iface,
                        next_hop,
                        next_iface,
                        touched: now,
                    },
                )
            },
            ..self
        }.relay(packet, None, now)
        }
    }

    /// What a link request does: it is answered if it is for a destination
    /// of this node, passed on if a path to its destination is known, and
    /// dropped otherwise.
    pub open spec fn on_link_request(
        self,
        packet: PacketView,
        evidence: EvidenceView,
        iface: AddressHash,
        now: u64,
    ) -> Outcome {
        if self.local.contains_key(packet.destination) {
            self.on_link_request_here(self.local[packet.destination], packet, evidence, now)
        } else if self.paths.contains_key(packet.destination) {
            self.on_link_request_through(
                packet,
                iface,
                self.paths[packet.destination].next_hop,
                self.paths[packet.destination].iface,
                now,
            )
        } else {
            self.idle()
        }
    }

    /// What a packet of its type does.
    pub open spec fn dispatched(
        self,
        iface: AddressHash,
        packet: PacketView,
        evidence: EvidenceView,
        now: u64,
    ) -> Outcome {
        match packet.header.packet_type {
            PacketType::Announce => self.on_announce(packet, evidence, iface, now),
            PacketType::LinkRequest => self.on_link_request(packet, evidence, iface, now),
            PacketType::Proof => self.on_proof(packet, evidence, now),
            PacketType::Data => self.on_data(packet, evidence, now),
        }
    }

    /// What a packet that comes in on `iface` does.
    ///
    /// A packet that is not taken does nothing. Any other but an announce
    /// is in the cache from now on. Where the node is set to broadcast,
    /// any packet but an announce goes out, one hop on, on every interface
    /// but `iface`. Then the packet does what packets of its type do.
    pub open spec fn on_inbound(
        self,
        iface: AddressHash,
        packet: PacketView,
        evidence: EvidenceView,
        now: u64,
    ) -> Outcome {
        if !self.takes(packet) {
            self.idle()
        } else {
            let noted = self.filtered(packet, now);
            let echoed = if noted.broadcast && packet.header.packet_type != PacketType::Announce {
                noted.hands_out(TxMessageType::Broadcast(Some(iface)), packet.one_hop_on(), now)
            } else {
                noted.idle()
            };
            let done = echoed.state.dispatched(iface, packet, evidence, now);
            Outcome { state: done.state, actions: echoed.actions + done.actions }
        }
    }
}

/// Reading a packet leaves a link its id.
pub proof fn lemma_link_keeps_id(
    links: Seq<LinkView>,
    i: int,
    packet: PacketView,
    evidence: EvidenceView,
    now: u64,
)
    requires
        distinct_ids(links),
        0 <= i < links.len(),
    ensures
        distinct_ids(links.update(i, links[i].after(packet, evidence, now))),
        links[i].after(packet, evidence, now).id == links[i].id,
{
    let after = links.update(i, links[i].after(packet, evidence, now));
    assert forall|a: int, b: int| 0 <= a < b < after.len() implies (#[trigger] after[a]).id != (
    #[trigger] after[b]).id by {
        assert(after[a].id == links[a].id);
        assert(after[b].id == links[b].id);
    }
}

/// Offers a packet to a link and adds what the runtime is to pass on to
/// `actions`.
pub fn offer(
    link: &mut Link,
    incoming: bool,
    packet: &Packet,
    evidence: &Evidence,
    now: u64,
    actions: &mut Vec<TransportAction>,
) -> (result: LinkHandleResult)
    ensures
        final(link)@ == old(link)@.after(packet@, evidence@, now),
        result == old(link)@.yields(packet@, evidence@).result,
        views(final(actions)@) == views(old(actions)@) + reaction(
            old(link)@,
            incoming,
            packet@,
            evidence@,
        ),
{
    let id = link.id();
    let address_hash = link.destination().address_hash;
    let handled = link.handle_packet(packet, evidence, now);
    let result = handled.result;
    let ghost start = views(actions@);
    let ghost told = match handled@.event {
        Some(event) => seq![
            if incoming {
                TransportActionView::InLink(event_data(old(link)@, event))
            } else {
                TransportActionView::OutLink(event_data(old(link)@, event))
            },
        ],
        None => Seq::<TransportActionView>::empty(),
    };
    match handled.event {
        Some(event) => {
            let data = LinkEventData { id, address_hash, event };
            if incoming {
                push_action(actions, TransportAction::InLink(data));
            } else {
                push_action(actions, TransportAction::OutLink(data));
            }
        },
        None => {},
    }
    assert(views(actions@) =~= start + told);
    match handled.channel {
        Some(payload) => {
            push_action(actions, TransportAction::Channel { link: id, payload });
        },
        None => {},
    }
    assert(views(actions@) =~= start + reaction(old(link)@, incoming, packet@, evidence@));
    result
}

/// The state of a transport node: its setup, what it has learned, the
/// links it holds and the packets it has seen.
#[derive(Debug)]
pub struct TransportHandler {
    pub config: TransportConfig,
    pub path_table: PathTable,
    pub announce_table: AnnounceTable,
    pub link_table: LinkTable,
    pub single_in_destinations: Directory<SingleInputDestination>,
    pub single_out_destinations: Directory<SingleOutputDestination>,
    pub out_links: Vec<Link>,
    pub in_links: Vec<Link>,
    pub packet_cache: PacketCache,
}

impl View for TransportHandler {
    type V = TransportState;

    open spec fn view(&self) -> TransportState {
        TransportState {
            name: self.config.spec_name(),
            identity: self.config.identity(),
            transport_id: self.config.identity().address_hash,
            broadcast: self.config.broadcast(),
            retransmit: self.config.retransmit(),
            paths: self.path_table@,
            announces: self.announce_table@,
            passing_links: self.link_table@,
            local: self.single_in_destinations@,
            learned: self.single_out_destinations@,
            out_links: link_views(self.out_links@),
            in_links: link_views(self.in_links@),
            cache: self.packet_cache@,
        }
    }
}

/// The index of the link with the id `id`.
pub fn find_link(links: &Vec<Link>, id: &LinkId) -> (found: Option<usize>)
    ensures
        found.is_some() == has_link(link_views(links@), *id),
        found matches Some(i) ==> i < links@.len() && links@[i as int]@.id == *id,
        distinct_ids(link_views(links@)) ==> (found matches Some(i) ==> i == link_at(
            link_views(links@),
            *id,
        )),
{
    let mut i: usize = 0;
    while i < links.len()
        invariant
            i <= links@.len(),
            forall|j: int| 0 <= j < i ==> (#[trigger] link_views(links@)[j]).id != *id,
        decreases links@.len() - i,
    {
        if links[i].id() == *id {
            assert(link_views(links@)[i as int].id == *id);
            proof {
                if distinct_ids(link_views(links@)) {
                    let k = link_at(link_views(links@), *id);
                    if k < i {
                        assert(link_views(links@)[k].id != link_views(links@)[i as int].id);
                    } else if i < k {
                        assert(link_views(links@)[i as int].id != link_views(links@)[k].id);
                    }
                }
            }
            return Some(i);
        }
        i += 1;
    }
    None
}

/// The same packet one hop further on.
pub fn create_retransmit_packet(packet: &Packet) -> (passed: Packet)
    requires
        packet@.header.hops < u8::MAX,
    ensures
        passed@ == packet@.one_hop_on(),
{
    let mut passed = packet.clone();
    passed.header.hops = packet.header.hops + 1;
    passed
}

impl TransportHandler {
    /// Every table is well formed and no two links on one side have the
    /// same id.
    pub open spec fn wf(&self) -> bool {
        &&& self.path_table.wf()
        &&& self.announce_table.wf()
        &&& self.link_table.wf()
        &&& self.packet_cache.wf()
        &&& distinct_ids(link_views(self.out_links@))
        &&& distinct_ids(link_views(self.in_links@))
    }

    /// The state of a node that has just been set up.
    pub fn new(config: TransportConfig) -> (handler: TransportHandler)
        ensures
            handler.wf(),
            handler@ == (TransportState {
                name: config.spec_name(),
                identity: config.identity(),
                transport_id: config.identity().address_hash,
                broadcast: config.broadcast(),
                retransmit: config.retransmit(),
                paths: Map::empty(),
                announces: Seq::empty(),
                passing_links: Map::empty(),
                local: Map::empty(),
                learned: Map::empty(),
                out_links: Seq::empty(),
                in_links: Seq::empty(),
                cache: Map::empty(),
            }),
    {
        let handler = TransportHandler {
            config,
            path_table: PathTable::new(),
            announce_table: AnnounceTable::new(),
            link_table: LinkTable::new(),
            single_in_destinations: Directory::new(),
            single_out_destinations: Directory::new(),
            out_links: Vec::new(),
            in_links: Vec::new(),
            packet_cache: PacketCache::new(),
        };
        assert(link_views(handler.out_links@) =~= Seq::<LinkView>::empty());
        assert(link_views(handler.in_links@) =~= Seq::<LinkView>::empty());
        handler
    }

    /// Whether `address` is a destination of this node.
    pub fn has_destination(&self, address: &AddressHash) -> (local: bool)
        ensures
            local == self@.local.contains_key(*address),
    {
        self.single_in_destinations.contains_key(address)
    }

    /// Takes note of a packet that goes out and adds the order to send it
    /// to `actions`.
    pub fn send(
        &mut self,
        tx_type: TxMessageType,
        packet: Packet,
        now: u64,
        actions: &mut Vec<TransportAction>,
    )
        requires
            old(self).wf(),
        ensures
            final(self).wf(),
            final(self)@ == old(self)@.sent(packet@, now),
            views(final(actions)@) == views(old(actions)@).push(sending(tx_type, packet@)),
    {
        self.packet_cache.update(&packet, now);
        push_action(actions, TransportAction::Send(TxMessage { tx_type, packet }));
    }

    /// Takes note of a packet that goes out on every interface and adds the
    /// order to send it to `actions`.
    pub fn send_packet(&mut self, packet: Packet, now: u64, actions: &mut Vec<TransportAction>)
        requires
            old(self).wf(),
        ensures
            final(self).wf(),
            final(self)@ == old(self)@.sent(packet@, now),
            views(final(actions)@) == views(old(actions)@).push(
                sending(TxMessageType::Broadcast(None), packet@),
            ),
    {
        self.send(TxMessageType::Broadcast(None), packet, now, actions);
    }

    /// Tells whether a packet that came in is to be looked at, and takes
    /// note of it. An announce always is; the cache does not hear of it.
    /// Any other packet is if it is new, or if it is the proof of a link
    /// that a peer asked for and that still waits for it.
    pub fn filter_duplicate_packets(&mut self, packet: &Packet, now: u64) -> (pass: bool)
        requires
            old(self).wf(),
        ensures
            final(self).wf(),
            pass == old(self)@.passes_filter(packet@),
            final(self)@ == old(self)@.filtered(packet@, now),
    {
        let mut allow_duplicate = false;
        match packet.header.packet_type {
            PacketType::Announce => {
                return true;
            },
            PacketType::Proof => {
                if packet.context == PacketContext::LinkRequestProof {
                    match find_link(&self.in_links, &packet.destination) {
                        Some(i) => {
                            assert(self@.in_links[i as int] == self.in_links@[i as int]@);
                            if self.in_links[i].status().not_yet_active() {
                                allow_duplicate = true;
                            }
                        },
                        None => {},
                    }
                }
            },
            _ => {},
        }
        let is_new = self.packet_cache.update(packet, now);
        is_new || allow_duplicate
    }
    /// Offers `packet` to the link with its id among those that peers
    /// opened, and answers a keep-alive.
    pub fn read_in(
        &mut self,
        packet: &Packet,
        evidence: &Evidence,
        now: u64,
        actions: &mut Vec<TransportAction>,
    )
        requires
            old(self).wf(),
        ensures
            final(self).wf(),
            final(self)@ == old(self)@.read_in(packet@, evidence@, now).state,
            views(final(actions)@) == views(old(actions)@) + old(self)@.read_in(
                packet@,
                evidence@,
                now,
            ).actions,
    {
        let ghost start = views(actions@);
        match find_link(&self.in_links, &packet.destination) {
            Some(i) => {
                let ghost links = link_views(self.in_links@);
                let result = offer(&mut self.in_links[i], true, packet, evidence, now, actions);
                proof {
                    lemma_link_keeps_id(links, i as int, packet@, evidence@, now);
                    assert(link_views(self.in_links@) =~= links.update(
                        i as int,
                        links[i as int].after(packet@, evidence@, now),
                    ));
                }
                match result {
                    LinkHandleResult::KeepAlive => {
                        let answer = self.in_links[i].keep_alive_packet(KEEP_ALIVE_RESPONSE);
                        let ghost read = views(actions@);
                        self.send_packet(answer, now, actions);
                        assert(views(actions@) =~= start + reaction(
                            links[i as int],
                            true,
                            packet@,
                            evidence@,
                        ).push(sending(TxMessageType::Broadcast(None), answer@)));
                    },
                    _ => {},
                }
            },
            None => {
                assert(views(actions@) =~= start + Seq::<TransportActionView>::empty());
            },
        }
    }

    /// Offers `packet` to the link with its id among those that this node
    /// opened. Where `probe` is set and the link has just become active,
    /// the order to seal and send its round-trip time is added.
    pub fn read_out(
        &mut self,
        packet: &Packet,
        evidence: &Evidence,
        now: u64,
        probe: bool,
        actions: &mut Vec<TransportAction>,
    )
        requires
            old(self).wf(),
        ensures
            final(self).wf(),
            final(self)@ == old(self)@.read_out(packet@, evidence@, now, probe).state,
            views(final(actions)@) == views(old(actions)@) + old(self)@.read_out(
                packet@,
                evidence@,
                now,
                probe,
            ).actions,
    {
        let ghost start = views(actions@);
        match find_link(&self.out_links, &packet.destination) {
            Some(i) => {
                let ghost links = link_views(self.out_links@);
                let result = offer(&mut self.out_links[i], false, packet, evidence, now, actions);
                proof {
                    lemma_link_keeps_id(links, i as int, packet@, evidence@, now);
                    assert(link_views(self.out_links@) =~= links.update(
                        i as int,
                        links[i as int].after(packet@, evidence@, now),
                    ));
                }
                match result {
                    LinkHandleResult::Activated => {
                        if probe {
                            let payload = self.out_links[i].rtt_payload();
                            let id = self.out_links[i].id();
                            push_action(
                                actions,
                                TransportAction::Seal {
                                    link: id,
                                    context: PacketContext::LinkRTT,
                                    payload,
                                },
                            );
                            assert(views(actions@) =~= start + reaction(
                                links[i as int],
                                false,
                                packet@,
                                evidence@,
                            ).push(
                                TransportActionView::Seal {
                                    link: id,
                                    context: PacketContext::LinkRTT,
                                    payload: payload@,
                                },
                            ));
                        }
                    },
                    _ => {},
                }
            },
            None => {
                assert(views(actions@) =~= start + Seq::<TransportActionView>::empty());
            },
        }
    }

    /// Passes `packet` on towards `lookup`, or towards its destination if
    /// no `lookup` is given, where a path is known, and tells whether it
    /// did. A packet that has travelled [`PATHFINDER_M`] hops or more is
    /// not passed on.
    pub fn send_to_next_hop(
        &mut self,
        packet: &Packet,
        lookup: Option<AddressHash>,
        now: u64,
        actions: &mut Vec<TransportAction>,
    ) -> (sent: bool)
        requires
            old(self).wf(),
        ensures
            final(self).wf(),
            final(self)@ == old(self)@.relay(packet@, lookup, now).state,
            views(final(actions)@) == views(old(actions)@) + old(self)@.relay(
                packet@,
                lookup,
                now,
            ).actions,
            sent == (packet@.header.hops < PATHFINDER_M && old(self)@.paths.contains_key(
                match lookup {
                    Some(address) => address,
                    None => packet@.destination,
                },
            )),
            !sent ==> final(self)@ == old(self)@ && final(actions)@ == old(actions)@,
    {
        let ghost start = views(actions@);
        proof {
            assert(start + Seq::<TransportActionView>::empty() =~= start);
        }
        if packet.header.hops as usize >= PATHFINDER_M {
            return false;
        }
        let our_id = self.config.transport_id();
        let (routed, maybe_iface) = self.path_table.handle_inbound_packet(packet, lookup, our_id);
        match maybe_iface {
            Some(iface) => {
                self.send(TxMessageType::Direct(iface), routed, now, actions);
                assert(views(actions@) =~= start + seq![
                    sending(TxMessageType::Direct(iface), routed@),
                ]);
                true
            },
            None => false,
        }
    }

    /// Passes the answer to a keep-alive back along a link that passes
    /// through, and tells whether `packet` was such an answer.
    pub fn handle_keepalive_response(
        &mut self,
        packet: &Packet,
        now: u64,
        actions: &mut Vec<TransportAction>,
    ) -> (answered: bool)
        requires
            old(self).wf(),
        ensures
            final(self).wf(),
            answered == is_keepalive_answer(packet@),
            answered ==> final(self)@ == old(self)@.pass_back(packet@, PacketType::Data, now).state
                && views(final(actions)@) == views(old(actions)@) + old(self)@.pass_back(
                packet@,
                PacketType::Data,
                now,
            ).actions,
            !answered ==> final(self)@ == old(self)@ && final(actions)@ == old(actions)@,
    {
        let ghost start = views(actions@);
        if packet.context == PacketContext::KeepAlive {
            let data = packet.data.as_slice();
            if data.len() >= 1 && data[0] == KEEP_ALIVE_RESPONSE {
                proof {
                    assert(start + Seq::<TransportActionView>::empty() =~= start);
                }
                if (packet.header.hops as usize) < PATHFINDER_M {
                    match self.link_table.handle_keepalive(packet, now) {
                        Some((propagated, iface)) => {
                            self.send(TxMessageType::Direct(iface), propagated, now, actions);
                            assert(views(actions@) =~= start + seq![
                                sending(TxMessageType::Direct(iface), propagated@),
                            ]);
                        },
                        None => {},
                    }
                }
                return true;
            }
        }
        false
    }

    /// Handles a proof: see [`TransportState::on_proof`].
    pub fn handle_proof(
        &mut self,
        packet: &Packet,
        evidence: &Evidence,
        now: u64,
        actions: &mut Vec<TransportAction>,
    )
        requires
            old(self).wf(),
        ensures
            final(self).wf(),
            final(self)@ == old(self)@.on_proof(packet@, evidence@, now).state,
            views(final(actions)@) == views(old(actions)@) + old(self)@.on_proof(
                packet@,
                evidence@,
                now,
            ).actions,
    {
        let ghost start = views(actions@);
        self.read_out(packet, evidence, now, true, actions);
        let ghost read = old(self)@.read_out(packet@, evidence@, now, true);
        proof {
            assert(start + read.actions =~= start + (read.actions + Seq::<
                TransportActionView,
            >::empty()));
        }
        if (packet.header.hops as usize) < PATHFINDER_M {
            match self.link_table.handle_proof(packet, now) {
                Some((passed, iface)) => {
                    self.send(TxMessageType::Direct(iface), passed, now, actions);
                    assert(views(actions@) =~= start + (read.actions + seq![
                        sending(TxMessageType::Direct(iface), passed@),
                    ]));
                },
                None => {},
            }
        }
    }

    /// Handles a data packet: see [`TransportState::on_data`].
    pub fn handle_data(
        &mut self,
        packet: &Packet,
        evidence: &Evidence,
        now: u64,
        actions: &mut Vec<TransportAction>,
    )
        requires
            old(self).wf(),
        ensures
            final(self).wf(),
            final(self)@ == old(self)@.on_data(packet@, evidence@, now).state,
            views(final(actions)@) == views(old(actions)@) + old(self)@.on_data(
                packet@,
                evidence@,
                now,
            ).actions,
    {
        let ghost start = views(actions@);
        if packet.header.destination_type == DestinationType::Link {
            self.read_in(packet, evidence, now, actions);
            let ghost first = old(self)@.read_in(packet@, evidence@, now);
            self.read_out(packet, evidence, now, false, actions);
            let ghost second = first.state.read_out(packet@, evidence@, now, false);
            assert(views(actions@) =~= start + (first.actions + second.actions));
            let ghost so_far = views(actions@);
            if self.handle_keepalive_response(packet, now, actions) {
                let ghost third = second.state.pass_back(packet@, PacketType::Data, now);
                assert(views(actions@) =~= start + (first.actions + second.actions
                    + third.actions));
                return ;
            }
            match self.link_table.original_destination(&packet.destination) {
                Some(original) => {
                    self.send_to_next_hop(packet, Some(original), now, actions);
                    let ghost third = second.state.relay(packet@, Some(original), now);
                    assert(views(actions@) =~= start + (first.actions + second.actions
                        + third.actions));
                },
                None => {
                    assert(views(actions@) =~= start + (first.actions + second.actions + Seq::<
                        TransportActionView,
                    >::empty()));
                },
            }
        } else if packet.header.destination_type == DestinationType::Single {
            if self.single_in_destinations.contains_key(&packet.destination) {
                push_action(
                    actions,
                    TransportAction::Received(
                        ReceivedData { destination: packet.destination, data: packet.data.clone() },
                    ),
                );
                assert(views(actions@) =~= start + seq![
                    TransportActionView::Received {
                        destination: packet@.destination,
                        data: packet@.data,
                    },
                ]);
            } else {
                self.send_to_next_hop(packet, None, now, actions);
            }
        } else {
            assert(views(actions@) =~= start + Seq::<TransportActionView>::empty());
        }
    }
    /// Handles an announce that came in on `iface`: see
    /// [`TransportState::on_announce`].
    pub fn handle_announce(
        &mut self,
        packet: &Packet,
        evidence: &Evidence,
        iface: AddressHash,
        now: u64,
        actions: &mut Vec<TransportAction>,
    )
        requires
            old(self).wf(),
        ensures
            final(self).wf(),
            final(self)@ == old(self)@.on_announce(packet@, evidence@, iface, now).state,
            views(final(actions)@) == views(old(actions)@) + old(self)@.on_announce(
                packet@,
                evidence@,
                iface,
                now,
            ).actions,
    {
        let ghost start = views(actions@);
        if self.has_destination(&packet.destination) {
            assert(views(actions@) =~= start + Seq::<TransportActionView>::empty());
            return ;
        }
        let (destination, app_data) = match DestinationAnnounce::validate(
            packet,
            evidence.signature_valid,
        ) {
            Ok(parts) => parts,
            Err(_) => {
                assert(views(actions@) =~= start + Seq::<TransportActionView>::empty());
                return ;
            },
        };
        if !self.single_out_destinations.contains_key(&packet.destination) {
            self.single_out_destinations.insert(packet.destination, destination);
        }
        self.announce_table.add(packet, packet.destination, iface, now);
        self.path_table.handle_announce(packet, packet.transport, iface, now);
        if self.config.is_retransmit() {
            let transport_id = self.config.transport_id();
            match self.announce_table.new_packet(&packet.destination, &transport_id) {
                Some((received_from, passed)) => {
                    self.send(TxMessageType::Broadcast(Some(received_from)), passed, now, actions);
                },
                None => {},
            }
        }
        let ghost before = views(actions@);
        push_action(
            actions,
            TransportAction::Announce(
                AnnounceEvent {
                    destination,
                    app_data: PacketDataBuffer::new_from_slice(app_data.as_slice()),
                },
            ),
        );
        assert(views(actions@) =~= start + old(self)@.on_announce(
            packet@,
            evidence@,
            iface,
            now,
        ).actions);
    }

    /// Answers a link request to the destination `destination` of this
    /// node: see [`TransportState::on_link_request_here`].
    pub fn handle_link_request_as_destination(
        &mut self,
        destination: SingleInputDestination,
        packet: &Packet,
        evidence: &Evidence,
        now: u64,
        actions: &mut Vec<TransportAction>,
    )
        requires
            old(self).wf(),
        ensures
            final(self).wf(),
            final(self)@ == old(self)@.on_link_request_here(
                destination,
                packet@,
                evidence@,
                now,
            ).state,
            views(final(actions)@) == views(old(actions)@) + old(self)@.on_link_request_here(
                destination,
                packet@,
                evidence@,
                now,
            ).actions,
    {
        let ghost start = views(actions@);
        proof {
            assert(start + Seq::<TransportActionView>::empty() =~= start);
        }
        match destination.handle_packet(packet) {
            DestinationHandleStatus::LinkProof => {
                let link_id = AddressHash::new_from_hash(&packet.hash());
                if find_link(&self.in_links, &link_id).is_some() {
                    return ;
                }
                let proof = match &evidence.link_proof {
                    Some(proof) => proof,
                    None => {
                        return ;
                    },
                };
                let mut link = match Link::new_from_request(packet, destination.desc, now) {
                    Ok(link) => link,
                    Err(_) => {
                        return ;
                    },
                };
                let proved = link.prove(proof.as_slice(), now);
                self.send_packet(proved, now, actions);
                let event = LinkEventData {
                    id: link.id(),
                    address_hash: link.destination().address_hash,
                    event: LinkEvent::Activated,
                };
                push_action(actions, TransportAction::InLink(event));
                let ghost links = link_views(self.in_links@);
                self.in_links.push(link);
                proof {
                    assert(link_views(self.in_links@) =~= links.push(link@));
                    assert forall|a: int, b: int|
                        0 <= a < b < link_views(self.in_links@).len() implies (
                    #[trigger] link_views(self.in_links@)[a]).id != (#[trigger] link_views(
                        self.in_links@,
                    )[b]).id by {
                        if b < links.len() {
                            assert(links[a].id != links[b].id);
                        } else {
                            assert(links[a].id != link_id);
                        }
                    }
                    assert(views(actions@) =~= start + old(self)@.on_link_request_here(
                        destination,
                        packet@,
                        evidence@,
                        now,
                    ).actions);
                }
            },
            DestinationHandleStatus::Ignored => {},
        }
    }

    /// Passes a link request on towards its destination through
    /// `next_hop` on `next_hop_iface`, and records the link as passing
    /// through from `received_from`.
    pub fn handle_link_request_as_intermediate(
        &mut self,
        received_from: AddressHash,
        next_hop: AddressHash,
        next_hop_iface: AddressHash,
        packet: &Packet,
        now: u64,
        actions: &mut Vec<TransportAction>,
    )
        requires
            old(self).wf(),
        ensures
            final(self).wf(),
            final(self)@ == old(self)@.on_link_request_through(
                packet@,
                received_from,
                next_hop,
                next_hop_iface,
                now,
            ).state,
            views(final(actions)@) == views(old(actions)@) + old(self)@.on_link_request_through(
                packet@,
                received_from,
                next_hop,
                next_hop_iface,
                now,
            ).actions,
    {
        if packet.header.hops as usize >= PATHFINDER_M {
            assert(views(actions@) =~= views(actions@) + Seq::<TransportActionView>::empty());
            return ;
        }
        self.link_table.add(packet, packet.destination, received_from, next_hop, next_hop_iface, now);
        self.send_to_next_hop(packet, None, now, actions);
    }

    /// Handles a link request that came in on `iface`: see
    /// [`TransportState::on_link_request`].
    pub fn handle_link_request(
        &mut self,
        packet: &Packet,
        evidence: &Evidence,
        iface: AddressHash,
        now: u64,
        actions: &mut Vec<TransportAction>,
    )
        requires
            old(self).wf(),
        ensures
            final(self).wf(),
            final(self)@ == old(self)@.on_link_request(packet@, evidence@, iface, now).state,
            views(final(actions)@) == views(old(actions)@) + old(self)@.on_link_request(
                packet@,
                evidence@,
                iface,
                now,
            ).actions,
    {
        let local = match self.single_in_destinations.get(&packet.destination) {
            Some(destination) => Some(*destination),
            None => None,
        };
        match local {
            Some(destination) => {
                self.handle_link_request_as_destination(destination, packet, evidence, now, actions);
            },
            None => {
                match self.path_table.next_hop_full(&packet.destination) {
                    Some((next_hop, next_iface)) => {
                        self.handle_link_request_as_intermediate(
                            iface,
                            next_hop,
                            next_iface,
                            packet,
                            now,
                            actions,
                        );
                    },
                    None => {
                        assert(views(actions@) =~= views(actions@) + Seq::<
                            TransportActionView,
                        >::empty());
                    },
                }
            },
        }
    }

    /// Handles a packet that came in on `iface` at time `now`, with what
    /// the cryptography found out about it, and tells the runtime what to
    /// do: see [`TransportState::on_inbound`].
    pub fn handle_inbound(
        &mut self,
        iface: AddressHash,
        packet: &Packet,
        evidence: &Evidence,
        now: u64,
    ) -> (actions: Vec<TransportAction>)
        requires
            old(self).wf(),
        ensures
            final(self).wf(),
            final(self)@ == old(self)@.on_inbound(iface, packet@, evidence@, now).state,
            views(actions@) == old(self)@.on_inbound(iface, packet@, evidence@, now).actions,
    {
        let mut actions = no_actions();
        if packet.header.hops as usize >= PATHFINDER_M {
            return actions;
        }
        if !self.filter_duplicate_packets(packet, now) {
            assert(self@.cache =~= old(self)@.cache);
            return actions;
        }
        let ghost noted = old(self)@.filtered(packet@, now);
        if self.config.is_broadcast() && packet.header.packet_type != PacketType::Announce {
            let echo = create_retransmit_packet(packet);
            self.send(TxMessageType::Broadcast(Some(iface)), echo, now, &mut actions);
            assert(views(actions@) =~= seq![
                sending(TxMessageType::Broadcast(Some(iface)), packet@.one_hop_on()),
            ]);
        }
        let ghost echoed = views(actions@);
        match packet.header.packet_type {
            PacketType::Announce => {
                self.handle_announce(packet, evidence, iface, now, &mut actions);
            },
            PacketType::LinkRequest => {
                self.handle_link_request(packet, evidence, iface, now, &mut actions);
            },
            PacketType::Proof => {
                self.handle_proof(packet, evidence, now, &mut actions);
            },
            PacketType::Data => {
                self.handle_data(packet, evidence, now, &mut actions);
            },
        }
        actions
    }
}

} // verus!
