//! The link between two destinations, as a state machine over plain values.
//!
//! A link starts `Pending`, becomes `Active` when the handshake completes
//! and ends `Closed`, for good. Payloads pass through already sealed or
//! already opened: see [`crate::crypt::Evidence`].

use crate::crypt::Evidence;
use crate::crypt::EvidenceView;
use crate::destination::DestinationDesc;
use crate::destination::PUBLIC_KEY_LENGTH;
use crate::error::RnsError;
use crate::hash::be_bytes;
use crate::hash::be_value;
use crate::hash::AddressHash;
use crate::packet::DestinationType;
use crate::packet::Header;
use crate::packet::HeaderType;
use crate::packet::IfacFlag;
use crate::packet::Packet;
use crate::packet::PacketContext;
use crate::packet::PacketDataBuffer;
use crate::packet::PacketType;
use crate::packet::PacketView;
use crate::packet::PropagationType;
use crate::packet::PACKET_MDU;
use vstd::prelude::*;
use vstd::slice::slice_to_vec;

verus! {

/// A link is known by the address cut from the digest of its request.
pub type LinkId = AddressHash;

/// What travels on a link, opened.
pub type LinkPayload = Vec<u8>;

/// The byte that asks the peer for a sign of life.
pub const KEEP_ALIVE_REQUEST: u8 = 0xFF;

/// The byte that answers [`KEEP_ALIVE_REQUEST`].
pub const KEEP_ALIVE_RESPONSE: u8 = 0xFE;

/// Bytes of the payload that carries a round-trip time.
pub const RTT_PAYLOAD_LENGTH: usize = 8;

/// Where a link stands.
#[derive(Clone, Copy, Debug, PartialEq, Eq, Structural)]
pub enum LinkStatus {
    Pending,
    Active,
    Closed,
}

impl LinkStatus {
    /// Whether the handshake is still under way.
    pub open spec fn spec_not_yet_active(self) -> bool {
        self == LinkStatus::Pending
    }

    /// Whether the handshake is still under way.
    pub fn not_yet_active(&self) -> (pending: bool)
        ensures
            pending == self.spec_not_yet_active(),
    {
        match self {
            LinkStatus::Pending => true,
            _ => false,
        }
    }
}

/// What the caller of [`Link::handle_packet`] has to do next.
#[derive(Clone, Copy, Debug, PartialEq, Eq, Structural)]
pub enum LinkHandleResult {
    /// Nothing.
    Ignored,
    /// The link has just become active: send it the round-trip time.
    Activated,
    /// The peer asked for a sign of life: answer it.
    KeepAlive,
}

/// What a link tells its subscribers.
#[derive(Debug)]
pub enum LinkEvent {
    Activated,
    Data(LinkPayload),
    KeepAlive,
    Closed,
}

/// [`LinkEvent`] in terms of plain values.
pub enum LinkEventView {
    Activated,
    Data(Seq<u8>),
    KeepAlive,
    Closed,
}

impl View for LinkEvent {
    type V = LinkEventView;

    open spec fn view(&self) -> LinkEventView {
        match self {
            LinkEvent::Activated => LinkEventView::Activated,
            LinkEvent::Data(payload) => LinkEventView::Data(payload@),
            LinkEvent::KeepAlive => LinkEventView::KeepAlive,
            LinkEvent::Closed => LinkEventView::Closed,
        }
    }
}

/// An event together with the link it happened on.
#[derive(Debug)]
pub struct LinkEventData {
    pub id: LinkId,
    /// The destination at the far end of the link.
    pub address_hash: AddressHash,
    pub event: LinkEvent,
}

/// [`LinkEventData`] in terms of plain values.
pub struct LinkEventDataView {
    pub id: LinkId,
    pub address_hash: AddressHash,
    pub event: LinkEventView,
}

impl View for LinkEventData {
    type V = LinkEventDataView;

    open spec fn view(&self) -> LinkEventDataView {
        LinkEventDataView { id: self.id, address_hash: self.address_hash, event: self.event@ }
    }
}

/// The outcome of offering a packet to a link.
#[derive(Debug)]
pub struct LinkHandled {
    pub result: LinkHandleResult,
    /// What to tell the subscribers of the link's events.
    pub event: Option<LinkEvent>,
    /// A payload for the channel that rides on the link.
    pub channel: Option<LinkPayload>,
}

/// [`LinkHandled`] in terms of plain values.
pub struct LinkHandledView {
    pub result: LinkHandleResult,
    pub event: Option<LinkEventView>,
    pub channel: Option<Seq<u8>>,
}

impl View for LinkHandled {
    type V = LinkHandledView;

    open spec fn view(&self) -> LinkHandledView {
        LinkHandledView {
            result: self.result,
            event: match self.event {
                Some(event) => Some(event@),
                None => None,
            },
            channel: match self.channel {
                Some(payload) => Some(payload@),
                None => None,
            },
        }
    }
}

impl LinkHandledView {
    /// The outcome of a packet that the link has no use for.
    pub open spec fn nothing() -> LinkHandledView {
        LinkHandledView { result: LinkHandleResult::Ignored, event: None, channel: None }
    }
}

/// A link in terms of plain values.
pub struct LinkView {
    pub id: LinkId,
    pub destination: DestinationDesc,
    pub status: LinkStatus,
    /// Round-trip time in microseconds; zero until measured.
    pub rtt: u64,
    /// When the link was last requested, restarted or heard from.
    pub last_activity: u64,
    /// The public keys that the request carries.
    pub key_material: Seq<u8>,
}

/// One side of an end-to-end session with a destination.
#[derive(Debug)]
pub struct Link {
    id: LinkId,
    destination: DestinationDesc,
    status: LinkStatus,
    rtt: u64,
    last_activity: u64,
    key_material: Vec<u8>,
}

impl View for Link {
    type V = LinkView;

    closed spec fn view(&self) -> LinkView {
        LinkView {
            id: self.id,
            destination: self.destination,
            status: self.status,
            rtt: self.rtt,
            last_activity: self.last_activity,
            key_material: self.key_material@,
        }
    }
}

/// The header of a packet that travels on a link.
pub open spec fn link_header(packet_type: PacketType) -> Header {
    Header {
        ifac_flag: IfacFlag::Open,
        header_type: HeaderType::Type1,
        propagation_type: PropagationType::Broadcast,
        destination_type: DestinationType::Link,
        packet_type,
        hops: 0,
    }
}

/// The packet that carries `data` on link `id` in `context`.
pub open spec fn link_packet(
    id: LinkId,
    packet_type: PacketType,
    context: PacketContext,
    data: Seq<u8>,
) -> PacketView {
    PacketView {
        header: link_header(packet_type),
        ifac: None,
        destination: id,
        transport: None,
        context,
        data,
    }
}

/// The time from `then` to `now`, zero where `then` is not in the past.
pub open spec fn time_since(now: u64, then: u64) -> u64 {
    if now >= then {
        (now - then) as u64
    } else {
        0
    }
}

/// The round-trip time that an eight-byte payload spells.
pub open spec fn spec_rtt_of(payload: Seq<u8>) -> u64 {
    be_value(payload) as u64
}

impl LinkView {
    /// The request that opens a link to `destination` with the keys
    /// `key_material`.
    pub open spec fn request_packet(destination: DestinationDesc, key_material: Seq<u8>)
        -> PacketView {
        PacketView {
            header: Header { packet_type: PacketType::LinkRequest, ..Header::spec_default() },
            ifac: None,
            destination: destination.address_hash,
            transport: None,
            context: PacketContext::Generic,
            data: crate::packet::fitting(key_material, PACKET_MDU as int),
        }
    }

    /// The id of the link that `request` opens.
    pub open spec fn id_of(request: PacketView) -> LinkId {
        AddressHash { value: request.hash().hi }
    }

    /// The link that a requester holds right after asking.
    pub open spec fn requested(destination: DestinationDesc, key_material: Seq<u8>, now: u64)
        -> LinkView {
        LinkView {
            id: LinkView::id_of(LinkView::request_packet(destination, key_material)),
            destination,
            status: LinkStatus::Pending,
            rtt: 0,
            last_activity: now,
            key_material,
        }
    }

    /// Whether `packet` is a request that `destination` can answer.
    pub open spec fn answerable(packet: PacketView, destination: DestinationDesc) -> bool {
        &&& packet.header.packet_type == PacketType::LinkRequest
        &&& packet.destination == destination.address_hash
        &&& packet.data.len() >= 2 * PUBLIC_KEY_LENGTH
    }

    /// The link that the requested side holds before it has proved itself.
    pub open spec fn answering(packet: PacketView, destination: DestinationDesc, now: u64)
        -> LinkView {
        LinkView {
            id: LinkView::id_of(packet),
            destination,
            status: LinkStatus::Pending,
            rtt: 0,
            last_activity: now,
            key_material: packet.data,
        }
    }

    /// Whether `packet` travels on this link.
    pub open spec fn carries(self, packet: PacketView) -> bool {
        packet.destination == self.id && packet.header.destination_type == DestinationType::Link
    }

    /// Whether `packet` is the proof that completes this link's handshake.
    pub open spec fn completes(self, packet: PacketView, evidence: EvidenceView) -> bool {
        &&& self.status == LinkStatus::Pending
        &&& self.carries(packet)
        &&& packet.header.packet_type == PacketType::Proof
        &&& packet.context == PacketContext::LinkRequestProof
        &&& evidence.signature_valid
    }

    /// Whether `packet` is read on this link: the link is active and the
    /// packet is data that travels on it.
    pub open spec fn reads(self, packet: PacketView) -> bool {
        &&& self.status == LinkStatus::Active
        &&& self.carries(packet)
        &&& packet.header.packet_type == PacketType::Data
    }

    /// The event `event` on this link, as its subscribers hear of it.
    pub open spec fn news(self, event: LinkEventView) -> LinkEventDataView {
        LinkEventDataView { id: self.id, address_hash: self.destination.address_hash, event }
    }

    /// The same link with its clock set to `now`.
    pub open spec fn touched(self, now: u64) -> LinkView {
        LinkView { last_activity: now, ..self }
    }

    /// The link after `packet` has been offered to it at time `now`.
    pub open spec fn after(self, packet: PacketView, evidence: EvidenceView, now: u64) -> LinkView {
        if self.completes(packet, evidence) {
            LinkView {
                status: LinkStatus::Active,
                rtt: time_since(now, self.last_activity),
                last_activity: now,
                ..self
            }
        } else if self.reads(packet) {
            match packet.context {
                PacketContext::KeepAlive => if packet.data.len() >= 1 && (packet.data[0]
                    == KEEP_ALIVE_REQUEST || packet.data[0] == KEEP_ALIVE_RESPONSE) {
                    self.touched(now)
                } else {
                    self
                },
                PacketContext::Generic | PacketContext::Channel => if evidence.plaintext.is_some() {
                    self.touched(now)
                } else {
                    self
                },
                PacketContext::LinkRTT => match evidence.plaintext {
                    Some(payload) => if payload.len() == RTT_PAYLOAD_LENGTH {
                        LinkView { rtt: spec_rtt_of(payload), last_activity: now, ..self }
                    } else {
                        self
                    },
                    None => self,
                },
                PacketContext::LinkClose => if evidence.plaintext.is_some() {
                    LinkView { status: LinkStatus::Closed, ..self }
                } else {
                    self
                },
                _ => self,
            }
        } else {
            self
        }
    }

    /// What offering `packet` to the link yields.
    pub open spec fn yields(self, packet: PacketView, evidence: EvidenceView) -> LinkHandledView {
        if self.completes(packet, evidence) {
            LinkHandledView {
                result: LinkHandleResult::Activated,
                event: Some(LinkEventView::Activated),
                channel: None,
            }
        } else if self.reads(packet) {
            match packet.context {
                PacketContext::KeepAlive => if packet.data.len() >= 1 && packet.data[0]
                    == KEEP_ALIVE_REQUEST {
                    LinkHandledView {
                        result: LinkHandleResult::KeepAlive,
                        event: Some(LinkEventView::KeepAlive),
                        channel: None,
                    }
                } else {
                    LinkHandledView::nothing()
                },
                PacketContext::Generic => match evidence.plaintext {
                    Some(payload) => LinkHandledView {
                        result: LinkHandleResult::Ignored,
                        event: Some(LinkEventView::Data(payload)),
                        channel: None,
                    },
                    None => LinkHandledView::nothing(),
                },
                PacketContext::Channel => match evidence.plaintext {
                    Some(payload) => LinkHandledView {
                        result: LinkHandleResult::Ignored,
                        event: None,
                        channel: Some(payload),
                    },
                    None => LinkHandledView::nothing(),
                },
                PacketContext::LinkClose => if evidence.plaintext.is_some() {
                    LinkHandledView {
                        result: LinkHandleResult::Ignored,
                        event: Some(LinkEventView::Closed),
                        channel: None,
                    }
                } else {
                    LinkHandledView::nothing()
                },
                _ => LinkHandledView::nothing(),
            }
        } else {
            LinkHandledView::nothing()
        }
    }
}

fn quiet() -> (handled: LinkHandled)
    ensures
        handled@ == LinkHandledView::nothing(),
{
    LinkHandled { result: LinkHandleResult::Ignored, event: None, channel: None }
}

impl Link {
    /// Starts a link to `destination`. `key_material` holds the public
    /// keys made for this link, which its request will carry. The link is
    /// pending and its id is that of its request.
    pub fn new(destination: DestinationDesc, key_material: &[u8], now: u64) -> (link: Link)
        ensures
            link@ == LinkView::requested(destination, key_material@, now),
    {
        let mut link = Link {
            id: AddressHash { value: 0 },
            destination,
            status: LinkStatus::Pending,
            rtt: 0,
            last_activity: now,
            key_material: slice_to_vec(key_material),
        };
        let request = link.request_packet();
        link.id = AddressHash::new_from_hash(&request.hash());
        link
    }

    fn request_packet(&self) -> (packet: Packet)
        ensures
            packet@ == LinkView::request_packet(self@.destination, self@.key_material),
    {
        Packet {
            header: Header {
                ifac_flag: IfacFlag::Open,
                header_type: HeaderType::Type1,
                propagation_type: PropagationType::Broadcast,
                destination_type: DestinationType::Single,
                packet_type: PacketType::LinkRequest,
                hops: 0,
            },
            ifac: None,
            destination: self.destination.address_hash,
            transport: None,
            context: PacketContext::Generic,
            data: PacketDataBuffer::new_from_slice(self.key_material.as_slice()),
        }
    }

    /// The request that asks the destination for this link. Asking sets the
    /// link's clock, and a link that is not closed is pending afterwards.
    pub fn request(&mut self, now: u64) -> (packet: Packet)
        ensures
            packet@ == LinkView::request_packet(old(self)@.destination, old(self)@.key_material),
            final(self)@ == (LinkView {
                status: if old(self)@.status == LinkStatus::Closed {
                    LinkStatus::Closed
                } else {
                    LinkStatus::Pending
                },
                last_activity: now,
                ..old(self)@
            }),
    {
        if self.status != LinkStatus::Closed {
            self.status = LinkStatus::Pending;
        }
        self.last_activity = now;
        self.request_packet()
    }

    /// The link that answers the request `packet` on behalf of
    /// `destination`: pending, with the id of the request. A packet that is
    /// no request to `destination`, or is too short to hold the
    /// requester's two keys, is refused.
    pub fn new_from_request(packet: &Packet, destination: DestinationDesc, now: u64) -> (result:
        Result<Link, RnsError>)
        ensures
            LinkView::answerable(packet@, destination) ==> result.is_ok() && result.unwrap()@
                == LinkView::answering(packet@, destination, now),
            !LinkView::answerable(packet@, destination) ==> result.is_err() && result.unwrap_err()
                == RnsError::PacketError,
    {
        if packet.header.packet_type != PacketType::LinkRequest || packet.destination
            != destination.address_hash || packet.data.len() < 2 * PUBLIC_KEY_LENGTH {
            return Err(RnsError::PacketError);
        }
        Ok(
            Link {
                id: AddressHash::new_from_hash(&packet.hash()),
                destination,
                status: LinkStatus::Pending,
                rtt: 0,
                last_activity: now,
                key_material: slice_to_vec(packet.data.as_slice()),
            },
        )
    }

    /// The proof that answers the request, carrying the signed bytes
    /// `proof`. A pending link is active once it has proved itself.
    pub fn prove(&mut self, proof: &[u8], now: u64) -> (packet: Packet)
        ensures
            packet@ == link_packet(
                old(self)@.id,
                PacketType::Proof,
                PacketContext::LinkRequestProof,
                crate::packet::fitting(proof@, PACKET_MDU as int),
            ),
            final(self)@ == if old(self)@.status == LinkStatus::Pending {
                LinkView { status: LinkStatus::Active, last_activity: now, ..old(self)@ }
            } else {
                old(self)@
            },
    {
        if self.status == LinkStatus::Pending {
            self.status = LinkStatus::Active;
            self.last_activity = now;
        }
        self.framed(PacketType::Proof, PacketContext::LinkRequestProof, proof)
    }

    fn framed(&self, packet_type: PacketType, context: PacketContext, data: &[u8]) -> (packet:
        Packet)
        ensures
            packet@ == link_packet(
                self@.id,
                packet_type,
                context,
                crate::packet::fitting(data@, PACKET_MDU as int),
            ),
    {
        Packet {
            header: Header {
                ifac_flag: IfacFlag::Open,
                header_type: HeaderType::Type1,
                propagation_type: PropagationType::Broadcast,
                destination_type: DestinationType::Link,
                packet_type,
                hops: 0,
            },
            ifac: None,
            destination: self.id,
            transport: None,
            context,
            data: PacketDataBuffer::new_from_slice(data),
        }
    }

    /// The data packet that carries the sealed payload `sealed` on this
    /// link in `context`, or `OutOfMemory` for a payload that no packet can
    /// hold.
    pub fn sealed_packet(&self, context: PacketContext, sealed: &[u8]) -> (result: Result<
        Packet,
        RnsError,
    >)
        ensures
            sealed@.len() <= PACKET_MDU ==> result.is_ok() && result.unwrap()@ == link_packet(
                self@.id,
                PacketType::Data,
                context,
                sealed@,
            ),
            sealed@.len() > PACKET_MDU ==> result.is_err() && result.unwrap_err()
                == RnsError::OutOfMemory,
    {
        if sealed.len() > PACKET_MDU {
            return Err(RnsError::OutOfMemory);
        }
        Ok(self.framed(PacketType::Data, context, sealed))
    }

    /// The data packet that carries the sealed payload `sealed` on this
    /// link, or `OutOfMemory` for a payload that no packet can hold.
    pub fn data_packet(&self, sealed: &[u8]) -> (result: Result<Packet, RnsError>)
        ensures
            sealed@.len() <= PACKET_MDU ==> result.is_ok() && result.unwrap()@ == link_packet(
                self@.id,
                PacketType::Data,
                PacketContext::Generic,
                sealed@,
            ),
            sealed@.len() > PACKET_MDU ==> result.is_err() && result.unwrap_err()
                == RnsError::OutOfMemory,
    {
        self.sealed_packet(PacketContext::Generic, sealed)
    }

    /// The keep-alive packet with the one payload byte `data`.
    pub fn keep_alive_packet(&self, data: u8) -> (packet: Packet)
        ensures
            packet@ == link_packet(
                self@.id,
                PacketType::Data,
                PacketContext::KeepAlive,
                seq![data],
            ),
    {
        let payload: Vec<u8> = vec![data];
        let packet = self.framed(PacketType::Data, PacketContext::KeepAlive, payload.as_slice());
        assert(payload@ =~= seq![data]);
        packet
    }

    /// The round-trip time as the eight bytes that tell it to the peer.
    pub fn rtt_payload(&self) -> (payload: Vec<u8>)
        ensures
            payload@ == be_bytes(self@.rtt as nat, RTT_PAYLOAD_LENGTH as nat),
            payload@.len() == RTT_PAYLOAD_LENGTH,
            spec_rtt_of(payload@) == self@.rtt,
    {
        proof {
            crate::hash::lemma_pow256_8();
            crate::hash::lemma_be_value_of_bytes(self.rtt as nat, 8);
        }
        crate::hash::to_be_bytes(self.rtt as u128, RTT_PAYLOAD_LENGTH)
    }

    /// Offers `packet` to the link at time `now`, with what the
    /// cryptography found out about it. A closed link, and a packet that
    /// does not travel on this link, change nothing.
    pub fn handle_packet(&mut self, packet: &Packet, evidence: &Evidence, now: u64) -> (handled:
        LinkHandled)
        ensures
            final(self)@ == old(self)@.after(packet@, evidence@, now),
            handled@ == old(self)@.yields(packet@, evidence@),
    {
        if packet.destination != self.id || packet.header.destination_type
            != DestinationType::Link {
            return quiet();
        }
        if self.status == LinkStatus::Pending {
            if packet.header.packet_type == PacketType::Proof && packet.context
                == PacketContext::LinkRequestProof && evidence.signature_valid {
                self.status = LinkStatus::Active;
                self.rtt = if now >= self.last_activity {
                    now - self.last_activity
                } else {
                    0
                };
                self.last_activity = now;
                return LinkHandled {
                    result: LinkHandleResult::Activated,
                    event: Some(LinkEvent::Activated),
                    channel: None,
                };
            }
            return quiet();
        }
        if self.status != LinkStatus::Active || packet.header.packet_type != PacketType::Data {
            return quiet();
        }
        match packet.context {
            PacketContext::KeepAlive => {
                let data = packet.data.as_slice();
                if data.len() >= 1 && data[0] == KEEP_ALIVE_REQUEST {
                    self.last_activity = now;
                    LinkHandled {
                        result: LinkHandleResult::KeepAlive,
                        event: Some(LinkEvent::KeepAlive),
                        channel: None,
                    }
                } else if data.len() >= 1 && data[0] == KEEP_ALIVE_RESPONSE {
                    self.last_activity = now;
                    quiet()
                } else {
                    quiet()
                }
            },
            PacketContext::Generic => match &evidence.plaintext {
                Some(payload) => {
                    self.last_activity = now;
                    LinkHandled {
                        result: LinkHandleResult::Ignored,
                        event: Some(LinkEvent::Data(slice_to_vec(payload.as_slice()))),
                        channel: None,
                    }
                },
                None => quiet(),
            },
            PacketContext::Channel => match &evidence.plaintext {
                Some(payload) => {
                    self.last_activity = now;
                    LinkHandled {
                        result: LinkHandleResult::Ignored,
                        event: None,
                        channel: Some(slice_to_vec(payload.as_slice())),
                    }
                },
                None => quiet(),
            },
            PacketContext::LinkRTT => match &evidence.plaintext {
                Some(payload) => {
                    if payload.len() == RTT_PAYLOAD_LENGTH {
                        proof {
                            crate::hash::lemma_be_value_bound(payload@);
                            crate::hash::lemma_pow256_8();
                        }
                        self.rtt = crate::hash::u128_from_be_bytes(payload.as_slice()) as u64;
                        self.last_activity = now;
                    }
                    quiet()
                },
                None => quiet(),
            },
            PacketContext::LinkClose => match &evidence.plaintext {
                Some(_) => {
                    self.status = LinkStatus::Closed;
                    LinkHandled {
                        result: LinkHandleResult::Ignored,
                        event: Some(LinkEvent::Closed),
                        channel: None,
                    }
                },
                None => quiet(),
            },
            _ => quiet(),
        }
    }

    /// Closes the link, and hands back the news of it for the subscribers
    /// of the link, unless the link was closed already.
    pub fn close_with_news(&mut self) -> (news: Option<LinkEventData>)
        ensures
            final(self)@ == (LinkView { status: LinkStatus::Closed, ..old(self)@ }),
            news.is_some() == (old(self)@.status != LinkStatus::Closed),
            news matches Some(data) ==> data@ == old(self)@.news(LinkEventView::Closed),
    {
        let id = self.id;
        let address_hash = self.destination.address_hash;
        match self.close() {
            Some(event) => Some(LinkEventData { id, address_hash, event }),
            None => None,
        }
    }

    /// Closes the link, and tells whether that is news.
    pub fn close(&mut self) -> (event: Option<LinkEvent>)
        ensures
            final(self)@ == (LinkView { status: LinkStatus::Closed, ..old(self)@ }),
            event.is_some() == (old(self)@.status != LinkStatus::Closed),
            event matches Some(e) ==> e@ == LinkEventView::Closed,
    {
        let was_open = self.status != LinkStatus::Closed;
        self.status = LinkStatus::Closed;
        if was_open {
            Some(LinkEvent::Closed)
        } else {
            None
        }
    }

    /// Sets the link's clock to `now`.
    pub fn restart(&mut self, now: u64)
        ensures
            final(self)@ == old(self)@.touched(now),
    {
        self.last_activity = now;
    }

    /// Where the link stands.
    pub fn status(&self) -> (status: LinkStatus)
        ensures
            status == self@.status,
    {
        self.status
    }

    /// The round-trip time in microseconds; zero until measured.
    pub fn rtt(&self) -> (rtt: u64)
        ensures
            rtt == self@.rtt,
    {
        self.rtt
    }

    /// The id of the link.
    pub fn id(&self) -> (id: LinkId)
        ensures
            id == self@.id,
    {
        self.id
    }

    /// The destination at the far end.
    pub fn destination(&self) -> (destination: DestinationDesc)
        ensures
            destination == self@.destination,
    {
        self.destination
    }

    /// Microseconds since the link was last requested, restarted or heard
    /// from.
    pub fn elapsed(&self, now: u64) -> (elapsed: u64)
        ensures
            elapsed == time_since(now, self@.last_activity),
    {
        if now >= self.last_activity {
            now - self.last_activity
        } else {
            0
        }
    }
}

} // verus!
