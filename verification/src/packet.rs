//! The packet as the transport core sees it: header fields, addresses,
//! context and payload. Encoding to and from wire bytes is done elsewhere.

use crate::error::RnsError;
use crate::hash::AddressHash;
use vstd::prelude::*;
use vstd::slice::slice_subrange;
use vstd::slice::slice_to_vec;

verus! {

/// Largest payload, in bytes, that one packet carries.
pub const PACKET_MDU: usize = 2048;

/// Largest payload of one fragment of a long message.
pub const LXMF_MAX_PAYLOAD: usize = 1024;

/// Whether the packet carries an interface access code.
#[derive(Clone, Copy, Debug, PartialEq, Eq, Structural)]
pub enum IfacFlag {
    Open,
    Authenticated,
}

/// Whether the header names one address or two.
#[derive(Clone, Copy, Debug, PartialEq, Eq, Structural)]
pub enum HeaderType {
    /// Destination only.
    Type1,
    /// Transport node and destination.
    Type2,
}

/// How the packet travels.
#[derive(Clone, Copy, Debug, PartialEq, Eq, Structural)]
pub enum PropagationType {
    Broadcast,
    Transport,
}

/// The kind of endpoint a packet is addressed to.
#[derive(Clone, Copy, Debug, PartialEq, Eq, Structural)]
pub enum DestinationType {
    Single,
    Group,
    Plain,
    Link,
}

/// What the packet is for.
#[derive(Clone, Copy, Debug, PartialEq, Eq, Structural)]
pub enum PacketType {
    Data,
    Announce,
    LinkRequest,
    Proof,
}

/// The sub-protocol a packet belongs to.
#[derive(Clone, Copy, Debug, PartialEq, Eq, Structural)]
pub enum PacketContext {
    /// No sub-protocol: an ordinary packet.
    Generic,
    Resource,
    ResourceAdvertisement,
    ResourceRequest,
    ResourceHashUpdate,
    ResourceProof,
    ResourceInitiatorCancel,
    ResourceReceiverCancel,
    CacheRequest,
    Request,
    Response,
    PathResponse,
    Command,
    CommandStatus,
    Channel,
    KeepAlive,
    LinkIdentify,
    LinkClose,
    LinkProof,
    LinkRTT,
    LinkRequestProof,
}

impl DestinationType {
    /// The two-bit code of the destination type.
    pub open spec fn spec_code(self) -> u8 {
        match self {
            DestinationType::Single => 0,
            DestinationType::Group => 1,
            DestinationType::Plain => 2,
            DestinationType::Link => 3,
        }
    }

    /// The two-bit code of the destination type.
    pub fn code(&self) -> (code: u8)
        ensures
            code == self.spec_code(),
    {
        match self {
            DestinationType::Single => 0,
            DestinationType::Group => 1,
            DestinationType::Plain => 2,
            DestinationType::Link => 3,
        }
    }
}

impl PacketType {
    /// The two-bit code of the packet type.
    pub open spec fn spec_code(self) -> u8 {
        match self {
            PacketType::Data => 0,
            PacketType::Announce => 1,
            PacketType::LinkRequest => 2,
            PacketType::Proof => 3,
        }
    }

    /// The two-bit code of the packet type.
    pub fn code(&self) -> (code: u8)
        ensures
            code == self.spec_code(),
    {
        match self {
            PacketType::Data => 0,
            PacketType::Announce => 1,
            PacketType::LinkRequest => 2,
            PacketType::Proof => 3,
        }
    }
}

impl PacketContext {
    /// The context byte.
    pub open spec fn spec_code(self) -> u8 {
        match self {
            PacketContext::Generic => 0x00,
            PacketContext::Resource => 0x01,
            PacketContext::ResourceAdvertisement => 0x02,
            PacketContext::ResourceRequest => 0x03,
            PacketContext::ResourceHashUpdate => 0x04,
            PacketContext::ResourceProof => 0x05,
            PacketContext::ResourceInitiatorCancel => 0x06,
            PacketContext::ResourceReceiverCancel => 0x07,
            PacketContext::CacheRequest => 0x08,
            PacketContext::Request => 0x09,
            PacketContext::Response => 0x0A,
            PacketContext::PathResponse => 0x0B,
            PacketContext::Command => 0x0C,
            PacketContext::CommandStatus => 0x0D,
            PacketContext::Channel => 0x0E,
            PacketContext::KeepAlive => 0xFA,
            PacketContext::LinkIdentify => 0xFB,
            PacketContext::LinkClose => 0xFC,
            PacketContext::LinkProof => 0xFD,
            PacketContext::LinkRTT => 0xFE,
            PacketContext::LinkRequestProof => 0xFF,
        }
    }

    /// The context byte.
    pub fn code(&self) -> (code: u8)
        ensures
            code == self.spec_code(),
    {
        match self {
            PacketContext::Generic => 0x00,
            PacketContext::Resource => 0x01,
            PacketContext::ResourceAdvertisement => 0x02,
            PacketContext::ResourceRequest => 0x03,
            PacketContext::ResourceHashUpdate => 0x04,
            PacketContext::ResourceProof => 0x05,
            PacketContext::ResourceInitiatorCancel => 0x06,
            PacketContext::ResourceReceiverCancel => 0x07,
            PacketContext::CacheRequest => 0x08,
            PacketContext::Request => 0x09,
            PacketContext::Response => 0x0A,
            PacketContext::PathResponse => 0x0B,
            PacketContext::Command => 0x0C,
            PacketContext::CommandStatus => 0x0D,
            PacketContext::Channel => 0x0E,
            PacketContext::KeepAlive => 0xFA,
            PacketContext::LinkIdentify => 0xFB,
            PacketContext::LinkClose => 0xFC,
            PacketContext::LinkProof => 0xFD,
            PacketContext::LinkRTT => 0xFE,
            PacketContext::LinkRequestProof => 0xFF,
        }
    }
}

/// The fixed part of a packet.
#[derive(Clone, Copy, Debug, PartialEq, Eq, Structural)]
pub struct Header {
    pub ifac_flag: IfacFlag,
    pub header_type: HeaderType,
    pub propagation_type: PropagationType,
    pub destination_type: DestinationType,
    pub packet_type: PacketType,
    /// Number of nodes that have passed the packet on so far.
    pub hops: u8,
}

impl Header {
    /// An open, single-address broadcast data header that has not travelled.
    pub open spec fn spec_default() -> Header {
        Header {
            ifac_flag: IfacFlag::Open,
            header_type: HeaderType::Type1,
            propagation_type: PropagationType::Broadcast,
            destination_type: DestinationType::Single,
            packet_type: PacketType::Data,
            hops: 0,
        }
    }

    /// The low four bits of the flags byte: destination type, then packet
    /// type.
    pub open spec fn spec_type_bits(self) -> u8 {
        (self.destination_type.spec_code() * 4 + self.packet_type.spec_code()) as u8
    }

    /// The low four bits of the flags byte: destination type, then packet
    /// type.
    pub fn type_bits(&self) -> (bits: u8)
        ensures
            bits == self.spec_type_bits(),
            bits < 16,
    {
        self.destination_type.code() * 4 + self.packet_type.code()
    }
}

impl Default for Header {
    fn default() -> (header: Header)
        ensures
            header == Header::spec_default(),
    {
        Header {
            ifac_flag: IfacFlag::Open,
            header_type: HeaderType::Type1,
            propagation_type: PropagationType::Broadcast,
            destination_type: DestinationType::Single,
            packet_type: PacketType::Data,
            hops: 0,
        }
    }
}

/// The first `min(room, data.len())` bytes of `data`.
pub open spec fn fitting(data: Seq<u8>, room: int) -> Seq<u8> {
    if room <= 0 {
        Seq::empty()
    } else if data.len() <= room {
        data
    } else {
        data.take(room)
    }
}

/// A payload buffer that never holds more than [`PACKET_MDU`] bytes.
#[derive(Debug)]
pub struct PacketDataBuffer {
    bytes: Vec<u8>,
}

impl View for PacketDataBuffer {
    type V = Seq<u8>;

    closed spec fn view(&self) -> Seq<u8> {
        self.bytes@
    }
}

impl PacketDataBuffer {
    /// An empty buffer.
    pub fn new() -> (buffer: PacketDataBuffer)
        ensures
            buffer@ == Seq::<u8>::empty(),
    {
        PacketDataBuffer { bytes: Vec::new() }
    }

    /// A buffer holding `data`, cut off at [`PACKET_MDU`] bytes.
    pub fn new_from_slice(data: &[u8]) -> (buffer: PacketDataBuffer)
        ensures
            buffer@ == fitting(data@, PACKET_MDU as int),
    {
        let mut buffer = PacketDataBuffer::new();
        buffer.safe_write(data);
        buffer
    }

    /// Number of bytes held.
    pub fn len(&self) -> (n: usize)
        ensures
            n == self@.len(),
    {
        self.bytes.len()
    }

    /// The bytes held.
    pub fn as_slice(&self) -> (slice: &[u8])
        ensures
            slice@ == self@,
    {
        self.bytes.as_slice()
    }

    /// Appends as much of `data` as still fits and tells how many bytes
    /// that was.
    pub fn safe_write(&mut self, data: &[u8]) -> (written: usize)
        ensures
            final(self)@ == old(self)@ + fitting(data@, PACKET_MDU - old(self)@.len()),
            written == fitting(data@, PACKET_MDU - old(self)@.len()).len(),
    {
        let held = self.bytes.len();
        let room: usize = if held < PACKET_MDU {
            PACKET_MDU - held
        } else {
            0
        };
        let count: usize = if data.len() <= room {
            data.len()
        } else {
            room
        };
        let mut part = slice_to_vec(slice_subrange(data, 0, count));
        assert(part@ =~= fitting(data@, PACKET_MDU - old(self)@.len()));
        self.bytes.append(&mut part);
        count
    }

    /// Appends all of `data`, or nothing when it does not fit.
    pub fn write(&mut self, data: &[u8]) -> (result: Result<usize, RnsError>)
        ensures
            old(self)@.len() + data@.len() <= PACKET_MDU ==> result == Ok::<usize, RnsError>(
                data@.len() as usize,
            ) && final(self)@ == old(self)@ + data@,
            old(self)@.len() + data@.len() > PACKET_MDU ==> result == Err::<usize, RnsError>(
                RnsError::OutOfMemory,
            ) && final(self)@ == old(self)@,
    {
        let held = self.bytes.len();
        if held > PACKET_MDU || data.len() > PACKET_MDU - held {
            return Err(RnsError::OutOfMemory);
        }
        let mut part = slice_to_vec(data);
        self.bytes.append(&mut part);
        Ok(data.len())
    }
}

impl Clone for PacketDataBuffer {
    fn clone(&self) -> (copy: PacketDataBuffer)
        ensures
            copy@ == self@,
    {
        PacketDataBuffer { bytes: slice_to_vec(self.bytes.as_slice()) }
    }
}

/// A packet in terms of plain values.
pub struct PacketView {
    pub header: Header,
    pub ifac: Option<Seq<u8>>,
    pub destination: AddressHash,
    pub transport: Option<AddressHash>,
    pub context: PacketContext,
    pub data: Seq<u8>,
}

/// The unit that interfaces carry.
#[derive(Debug)]
pub struct Packet {
    pub header: Header,
    /// Interface access code, where the interface asks for one.
    pub ifac: Option<Vec<u8>>,
    pub destination: AddressHash,
    /// The transport node the packet is routed through; present on
    /// [`HeaderType::Type2`] packets.
    pub transport: Option<AddressHash>,
    pub context: PacketContext,
    pub data: PacketDataBuffer,
}

impl View for Packet {
    type V = PacketView;

    open spec fn view(&self) -> PacketView {
        PacketView {
            header: self.header,
            ifac: match self.ifac {
                Some(code) => Some(code@),
                None => None,
            },
            destination: self.destination,
            transport: self.transport,
            context: self.context,
            data: self.data@,
        }
    }
}

impl PacketView {
    /// An empty data packet of the default header, addressed to the zero
    /// address.
    pub open spec fn spec_default() -> PacketView {
        PacketView {
            header: Header::spec_default(),
            ifac: None,
            destination: AddressHash { value: 0 },
            transport: None,
            context: PacketContext::Generic,
            data: Seq::empty(),
        }
    }

    /// A transport address is present exactly on two-address headers.
    pub open spec fn well_formed(self) -> bool {
        (self.header.header_type == HeaderType::Type2) == self.transport.is_some()
    }

    /// The bytes that identify the packet wherever it travels: the type
    /// bits, the destination, the context and the payload. Hop count,
    /// routing flags and transport address are left out.
    pub open spec fn hashable_part(self) -> Seq<u8> {
        seq![self.header.spec_type_bits()] + self.destination.bytes() + seq![
            self.context.spec_code(),
        ] + self.data
    }

    /// The digest of the hashable part.
    pub open spec fn hash(self) -> crate::hash::Hash {
        crate::hash::Hash::spec_of(self.hashable_part())
    }

    /// The same packet one hop further on.
    pub open spec fn one_hop_on(self) -> PacketView {
        PacketView {
            header: Header { hops: (self.header.hops + 1) as u8, ..self.header },
            ..self
        }
    }
}

/// How many fragments a message of `len` bytes is cut into.
pub open spec fn fragment_count(len: nat) -> nat {
    ((len + LXMF_MAX_PAYLOAD - 1) / LXMF_MAX_PAYLOAD as int) as nat
}

/// Fragment `i` of a message: its bytes from `i * LXMF_MAX_PAYLOAD` on, as
/// far as they go and at most [`LXMF_MAX_PAYLOAD`] of them.
pub open spec fn fragment(data: Seq<u8>, i: int) -> Seq<u8> {
    data.subrange(
        i * LXMF_MAX_PAYLOAD,
        if (i + 1) * LXMF_MAX_PAYLOAD < data.len() {
            (i + 1) * LXMF_MAX_PAYLOAD
        } else {
            data.len() as int
        },
    )
}

/// Copies an optional byte string.
fn copy_optional_bytes(bytes: &Option<Vec<u8>>) -> (copy: Option<Vec<u8>>)
    ensures
        match (*bytes, copy) {
            (Some(a), Some(b)) => a@ == b@,
            (None, None) => true,
            _ => false,
        },
{
    match bytes {
        Some(code) => Some(slice_to_vec(code.as_slice())),
        None => None,
    }
}

/// Whether two byte slices hold the same bytes.
pub fn same_bytes(a: &[u8], b: &[u8]) -> (same: bool)
    ensures
        same == (a@ == b@),
{
    if a.len() != b.len() {
        return false;
    }
    let mut i: usize = 0;
    while i < a.len()
        invariant
            a@.len() == b@.len(),
            i <= a@.len(),
            forall|j: int| 0 <= j < i ==> a@[j] == b@[j],
        decreases a@.len() - i,
    {
        if a[i] != b[i] {
            return false;
        }
        i += 1;
    }
    assert(a@ =~= b@);
    true
}

impl Packet {
    /// Largest payload of one fragment of a long message.
    pub const LXMF_MAX_PAYLOAD: usize = LXMF_MAX_PAYLOAD;

    /// Cuts a long message into packets of at most [`LXMF_MAX_PAYLOAD`]
    /// bytes each: see [`fragment`]. Every message can be cut, so the
    /// answer is always `Ok`.
    pub fn fragment_for_lxmf(data: &[u8]) -> (result: Result<Vec<Packet>, RnsError>)
        ensures
            result.is_ok(),
            result.unwrap()@.len() == fragment_count(data@.len()),
            forall|i: int|
                0 <= i < result.unwrap()@.len() ==> (#[trigger] result.unwrap()@[i])@ == (
                    PacketView { data: fragment(data@, i), ..PacketView::spec_default() }),
            forall|i: int|
                0 <= i < result.unwrap()@.len() ==> (#[trigger] result.unwrap()@[i])@.data.len()
                    <= LXMF_MAX_PAYLOAD,
    {
        let mut packets: Vec<Packet> = Vec::new();
        let mut offset: usize = 0;
        while offset < data.len()
            invariant
                offset <= data@.len(),
                offset < data@.len() ==> offset == packets@.len() * LXMF_MAX_PAYLOAD,
                offset == data@.len() ==> packets@.len() == fragment_count(data@.len()),
                forall|i: int|
                    0 <= i < packets@.len() ==> (#[trigger] packets@[i])@ == (PacketView {
                        data: fragment(data@, i),
                        ..PacketView::spec_default()
                    }),
            decreases data@.len() - offset,
        {
            let end = if data.len() - offset > LXMF_MAX_PAYLOAD {
                offset + LXMF_MAX_PAYLOAD
            } else {
                data.len()
            };
            let mut packet = Packet::default();
            packet.data = PacketDataBuffer::new_from_slice(slice_subrange(data, offset, end));
            assert(packet.data@ =~= fragment(data@, packets@.len() as int));
            packets.push(packet);
            offset = end;
        }
        Ok(packets)
    }

    /// The digest that identifies the packet in caches and gives links
    /// their ids.
    pub fn hash(&self) -> (hash: crate::hash::Hash)
        ensures
            hash == self@.hash(),
    {
        let mut part: Vec<u8> = Vec::new();
        part.push(self.header.type_bits());
        let mut destination = self.destination.to_bytes();
        part.append(&mut destination);
        part.push(self.context.code());
        let mut data = slice_to_vec(self.data.as_slice());
        part.append(&mut data);
        assert(part@ =~= self@.hashable_part());
        crate::hash::Hash::of(part.as_slice())
    }

    /// Whether two packets agree in every field.
    pub fn equals(&self, other: &Packet) -> (same: bool)
        ensures
            same == (self@ == other@),
    {
        let same_ifac = match (&self.ifac, &other.ifac) {
            (Some(a), Some(b)) => same_bytes(a.as_slice(), b.as_slice()),
            (None, None) => true,
            _ => false,
        };
        let same_transport = match (self.transport, other.transport) {
            (Some(a), Some(b)) => a == b,
            (None, None) => true,
            _ => false,
        };
        same_ifac && same_transport && self.header == other.header && self.destination
            == other.destination && self.context == other.context && same_bytes(
            self.data.as_slice(),
            other.data.as_slice(),
        )
    }
}

impl Clone for Packet {
    fn clone(&self) -> (copy: Packet)
        ensures
            copy@ == self@,
    {
        Packet {
            header: self.header,
            ifac: copy_optional_bytes(&self.ifac),
            destination: self.destination,
            transport: self.transport,
            context: self.context,
            data: self.data.clone(),
        }
    }
}

impl Default for Packet {
    fn default() -> (packet: Packet)
        ensures
            packet@ == PacketView::spec_default(),
    {
        Packet {
            header: Header::default(),
            ifac: None,
            destination: AddressHash { value: 0 },
            transport: None,
            context: PacketContext::Generic,
            data: PacketDataBuffer::new(),
        }
    }
}

} // verus!
