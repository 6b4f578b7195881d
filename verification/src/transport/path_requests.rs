//! Requests for the path to a destination: reading them, telling repeats
//! from news, and writing them.

use crate::destination::DestinationName;
use crate::destination::EmptyIdentity;
use crate::destination::PlainInputDestination;
use crate::hash::AddressHash;
use crate::hash::ADDRESS_HASH_SIZE;
use crate::packet::fitting;
use crate::packet::DestinationType;
use crate::packet::Header;
use crate::packet::HeaderType;
use crate::packet::IfacFlag;
use crate::packet::Packet;
use crate::packet::PacketContext;
use crate::packet::PacketDataBuffer;
use crate::packet::PacketType;
use crate::packet::PacketView;
use crate::packet::PropagationType;
use crate::packet::PACKET_MDU;
use std::collections::BTreeSet;
use vstd::prelude::*;
use vstd::slice::slice_subrange;
use vstd::slice::slice_to_vec;
use vstd::string::StringSliceAdditionalSpecFns;

verus! {

/// The bytes that tell one request from another for the same destination.
pub type TagBytes = Vec<u8>;

/// The name of the destination that path requests are sent to.
pub open spec fn path_request_name() -> DestinationName {
    DestinationName::spec_new("rnstransport".spec_bytes(), "path.request".spec_bytes())
}

/// The plain destination that path requests are sent to.
pub fn create_path_request_destination() -> (destination: PlainInputDestination)
    ensures
        destination == PlainInputDestination::spec_new(path_request_name()),
{
    PlainInputDestination::new(
        EmptyIdentity {  },
        DestinationName::new("rnstransport", "path.request"),
    )
}

/// A fresh tag of sixteen random bytes, or nothing where the system has no
/// randomness to offer.
pub fn create_random_tag() -> (tag: Option<TagBytes>)
    ensures
        tag matches Some(bytes) ==> bytes@.len() == ADDRESS_HASH_SIZE,
{
    match AddressHash::new_from_rand() {
        Some(address) => Some(address.to_bytes()),
        None => None,
    }
}

/// A request for the path to a destination.
#[derive(Debug)]
pub struct PathRequest {
    pub destination: AddressHash,
    /// The transport node that asks, where one does.
    pub requesting_transport: Option<AddressHash>,
    pub tag_bytes: TagBytes,
}

/// [`PathRequest`] in terms of plain values.
pub struct PathRequestView {
    pub destination: AddressHash,
    pub requesting_transport: Option<AddressHash>,
    pub tag_bytes: Seq<u8>,
}

impl View for PathRequest {
    type V = PathRequestView;

    open spec fn view(&self) -> PathRequestView {
        PathRequestView {
            destination: self.destination,
            requesting_transport: self.requesting_transport,
            tag_bytes: self.tag_bytes@,
        }
    }
}

impl PathRequest {
    /// What the bytes of a request say.
    ///
    /// The first sixteen bytes are the destination. A request of more
    /// than 32 bytes names the asking transport node in the next sixteen.
    /// What follows is the tag, of which at most sixteen bytes count. A
    /// request without a tag says nothing.
    pub open spec fn spec_decode(data: Seq<u8>) -> Option<PathRequestView> {
        if data.len() <= ADDRESS_HASH_SIZE {
            None
        } else {
            let with_transport = data.len() > 2 * ADDRESS_HASH_SIZE;
            let tag_start: int = if with_transport {
                2 * ADDRESS_HASH_SIZE
            } else {
                ADDRESS_HASH_SIZE as int
            };
            let tag_end: int = if data.len() - tag_start > ADDRESS_HASH_SIZE {
                tag_start + ADDRESS_HASH_SIZE
            } else {
                data.len() as int
            };
            Some(
                PathRequestView {
                    destination: AddressHash::spec_from_slice(
                        data.subrange(0, ADDRESS_HASH_SIZE as int),
                    ),
                    requesting_transport: if with_transport {
                        Some(
                            AddressHash::spec_from_slice(
                                data.subrange(ADDRESS_HASH_SIZE as int, 2 * ADDRESS_HASH_SIZE),
                            ),
                        )
                    } else {
                        None
                    },
                    tag_bytes: data.subrange(tag_start, tag_end),
                },
            )
        }
    }

    /// Reads a request. `transport_name` names the node that reads, for
    /// its records; it has no part in the reading.
    pub fn decode(data: &[u8], transport_name: &str) -> (request: Option<PathRequest>)
        ensures
            match request {
                Some(r) => PathRequest::spec_decode(data@) == Some(r@),
                None => PathRequest::spec_decode(data@).is_none(),
            },
    {
        if data.len() <= ADDRESS_HASH_SIZE {
            return None;
        }
        let destination = AddressHash::new_from_slice(slice_subrange(data, 0, ADDRESS_HASH_SIZE));
        let mut requesting_transport = None;
        let mut tag_start = ADDRESS_HASH_SIZE;
        let mut tag_end = data.len();
        if data.len() > ADDRESS_HASH_SIZE * 2 {
            requesting_transport = Some(
                AddressHash::new_from_slice(
                    slice_subrange(data, ADDRESS_HASH_SIZE, 2 * ADDRESS_HASH_SIZE),
                ),
            );
            tag_start = ADDRESS_HASH_SIZE * 2;
        }
        if tag_end - tag_start > ADDRESS_HASH_SIZE {
            tag_end = tag_start + ADDRESS_HASH_SIZE;
        }
        let tag_bytes = slice_to_vec(slice_subrange(data, tag_start, tag_end));
        Some(PathRequest { destination, requesting_transport, tag_bytes })
    }
}

/// The payload of a request for `destination` by `transport_id` with the
/// tag `tag`: the sixteen bytes of the destination, the sixteen of the
/// asking transport node where there is one, then as much of the tag as
/// the packet still holds.
pub open spec fn request_payload(
    destination: AddressHash,
    transport_id: Option<AddressHash>,
    tag: Seq<u8>,
) -> Seq<u8> {
    let head = destination.bytes() + match transport_id {
        Some(id) => id.bytes(),
        None => Seq::<u8>::empty(),
    };
    head + fitting(tag, PACKET_MDU - head.len())
}

/// The packet that asks for the path to `destination`: open, with one
/// address, broadcast, plain data, sent to `addressed_to`.
pub open spec fn request_packet(
    addressed_to: AddressHash,
    destination: AddressHash,
    transport_id: Option<AddressHash>,
    tag: Seq<u8>,
) -> PacketView {
    PacketView {
        header: Header {
            ifac_flag: IfacFlag::Open,
            header_type: HeaderType::Type1,
            propagation_type: PropagationType::Broadcast,
            destination_type: DestinationType::Plain,
            packet_type: PacketType::Data,
            hops: 0,
        },
        ifac: None,
        destination: addressed_to,
        transport: None,
        context: PacketContext::Generic,
        data: request_payload(destination, transport_id, tag),
    }
}

/// What the set of seen requests knows a request by: its destination, its
/// tag read as a big-endian number, and the length of its tag.
pub type RequestKey = (u128, u128, u8);

/// The key of the request for `destination` with the tag `tag`.
pub open spec fn request_key(destination: AddressHash, tag: Seq<u8>) -> RequestKey {
    (destination.value, crate::hash::be_value(tag) as u128, tag.len() as u8)
}

/// Requests with different destinations or different tags of at most
/// sixteen bytes have different keys.
pub proof fn lemma_request_key_injective(
    destination: AddressHash,
    tag: Seq<u8>,
    other_destination: AddressHash,
    other_tag: Seq<u8>,
)
    requires
        tag.len() <= ADDRESS_HASH_SIZE,
        other_tag.len() <= ADDRESS_HASH_SIZE,
        request_key(destination, tag) == request_key(other_destination, other_tag),
    ensures
        destination == other_destination,
        tag == other_tag,
{
    crate::hash::lemma_pow256_16();
    crate::hash::lemma_be_value_bound(tag);
    crate::hash::lemma_be_value_bound(other_tag);
    crate::hash::lemma_pow256_increases(tag.len(), 16);
    crate::hash::lemma_pow256_increases(other_tag.len(), 16);
    crate::hash::lemma_be_bytes_of_value(tag);
    crate::hash::lemma_be_bytes_of_value(other_tag);
}

/// Puts a key into the set of seen requests and tells whether it was new.
fn take_note(cache: &mut BTreeSet<RequestKey>, key: RequestKey) -> (is_new: bool)
    ensures
        final(cache)@ == old(cache)@.insert(key),
        is_new == !old(cache)@.contains(key),
{
    broadcast use vstd::laws_cmp::group_laws_cmp;

    cache.insert(key)
}

/// A request that was written can be read back: reading the payload of
/// the request for `destination` by `transport_id` with a tag of one to
/// sixteen bytes gives that destination, that transport node and that
/// tag.
pub proof fn lemma_request_round_trip(
    destination: AddressHash,
    transport_id: Option<AddressHash>,
    tag: Seq<u8>,
)
    requires
        1 <= tag.len() <= ADDRESS_HASH_SIZE,
    ensures
        PathRequest::spec_decode(request_payload(destination, transport_id, tag)) == Some(
            PathRequestView { destination, requesting_transport: transport_id, tag_bytes: tag },
        ),
{
    let payload = request_payload(destination, transport_id, tag);
    crate::hash::lemma_be_bytes_len(destination.value as nat, 16);
    crate::hash::lemma_address_round_trip(destination);
    assert(payload.subrange(0, 16) =~= destination.bytes());
    match transport_id {
        Some(id) => {
            crate::hash::lemma_be_bytes_len(id.value as nat, 16);
            crate::hash::lemma_address_round_trip(id);
            assert(payload.subrange(16, 32) =~= id.bytes());
            assert(payload.subrange(32, payload.len() as int) =~= tag);
        },
        None => {
            assert(payload.subrange(16, payload.len() as int) =~= tag);
        },
    }
}

/// Reads path requests, remembers which it has seen, and writes new ones.
#[derive(Debug)]
pub struct PathRequests {
    cache: BTreeSet<RequestKey>,
    name: String,
    transport_id: Option<AddressHash>,
    controlled_destination: PlainInputDestination,
}

impl PathRequests {
    /// The pairs of destination and tag that have been seen.
    pub closed spec fn seen(&self) -> Set<(AddressHash, Seq<u8>)> {
        Set::new(
            |pair: (AddressHash, Seq<u8>)|
                pair.1.len() <= ADDRESS_HASH_SIZE && self.cache@.contains(
                    request_key(pair.0, pair.1),
                ),
        )
    }

    /// The transport node that asks, where this node is one.
    pub closed spec fn transport_id(&self) -> Option<AddressHash> {
        self.transport_id
    }

    /// The destination that requests are sent to.
    pub closed spec fn controlled_destination(&self) -> PlainInputDestination {
        self.controlled_destination
    }

    /// A reader and writer of path requests for the node called `name`,
    /// which has seen nothing yet.
    pub fn new(name: &str, transport_id: Option<AddressHash>) -> (requests: PathRequests)
        ensures
            requests.seen() == Set::<(AddressHash, Seq<u8>)>::empty(),
            requests.transport_id() == transport_id,
            requests.controlled_destination() == PlainInputDestination::spec_new(
                path_request_name(),
            ),
    {
        let requests = PathRequests {
            cache: BTreeSet::new(),
            name: name.to_string(),
            transport_id,
            controlled_destination: create_path_request_destination(),
        };
        assert(requests.seen() =~= Set::<(AddressHash, Seq<u8>)>::empty());
        requests
    }

    /// Reads a request and takes note of it. A malformed request, and one
    /// whose destination and tag have been seen before, yields nothing.
    pub fn decode(&mut self, data: &[u8]) -> (request: Option<PathRequest>)
        ensures
            final(self).transport_id() == old(self).transport_id(),
            final(self).controlled_destination() == old(self).controlled_destination(),
            match PathRequest::spec_decode(data@) {
                None => request.is_none() && final(self).seen() == old(self).seen(),
                Some(read) => if old(self).seen().contains((read.destination, read.tag_bytes)) {
                    request.is_none() && final(self).seen() == old(self).seen()
                } else {
                    request.is_some() && request.unwrap()@ == read && final(self).seen() == old(self).seen().insert((read.destination, read.tag_bytes))
                },
            },
    {
        let path_request = PathRequest::decode(data, self.name.as_str());
        match path_request {
            Some(request) => {
                let ghost pair = (request.destination, request.tag_bytes@);
                proof {
                    crate::hash::lemma_pow256_16();
                    crate::hash::lemma_be_value_bound(request.tag_bytes@);
                    crate::hash::lemma_pow256_increases(request.tag_bytes@.len(), 16);
                }
                let key: RequestKey = (
                    request.destination.value,
                    crate::hash::u128_from_be_bytes(request.tag_bytes.as_slice()),
                    request.tag_bytes.len() as u8,
                );
                let is_new = take_note(&mut self.cache, key);
                proof {
                    assert forall|p: (AddressHash, Seq<u8>)|
                        self.seen().contains(p) <==> old(self).seen().insert(pair).contains(p) by {
                        if p.1.len() <= ADDRESS_HASH_SIZE && request_key(p.0, p.1) == key {
                            lemma_request_key_injective(p.0, p.1, pair.0, pair.1);
                        }
                    }
                    assert(self.seen() =~= old(self).seen().insert(pair));
                    if !is_new {
                        assert(old(self).seen().insert(pair) =~= old(self).seen());
                    }
                }
                if is_new {
                    Some(request)
                } else {
                    None
                }
            },
            None => None,
        }
    }

    /// Writes the request for the path to `destination` with the tag `tag`.
    pub fn generate_with_tag(&self, destination: &AddressHash, tag: &[u8]) -> (packet: Packet)
        ensures
            packet@ == request_packet(
                self.controlled_destination().desc.address_hash,
                *destination,
                self.transport_id(),
                tag@,
            ),
    {
        let mut data = PacketDataBuffer::new_from_slice(destination.to_bytes().as_slice());
        proof {
            crate::hash::lemma_be_bytes_len(destination.value as nat, 16);
        }
        match self.transport_id {
            Some(transport_id) => {
                proof {
                    crate::hash::lemma_be_bytes_len(transport_id.value as nat, 16);
                }
                data.safe_write(transport_id.to_bytes().as_slice());
            },
            None => {
                assert(data@ + Seq::<u8>::empty() =~= data@);
            },
        }
        data.safe_write(tag);
        Packet {
            header: Header {
                ifac_flag: IfacFlag::Open,
                header_type: HeaderType::Type1,
                propagation_type: PropagationType::Broadcast,
                destination_type: DestinationType::Plain,
                packet_type: PacketType::Data,
                hops: 0,
            },
            ifac: None,
            destination: self.controlled_destination.desc.address_hash,
            transport: None,
            context: PacketContext::Generic,
            data,
        }
    }

    /// Writes the request for the path to `destination`, with the tag
    /// given or else with a fresh random tag of sixteen bytes. With a tag
    /// given there is always a request; without one there is none where
    /// the system has no randomness to offer.
    pub fn generate(&mut self, destination: &AddressHash, tag: Option<TagBytes>) -> (packet: Option<
        Packet,
    >)
        ensures
            final(self).seen() == old(self).seen(),
            final(self).transport_id() == old(self).transport_id(),
            final(self).controlled_destination() == old(self).controlled_destination(),
            match tag {
                Some(given) => packet.is_some() && packet.unwrap()@ == request_packet(
                    old(self).controlled_destination().desc.address_hash,
                    *destination,
                    old(self).transport_id(),
                    given@,
                ),
                None => packet matches Some(written) ==> exists|random: Seq<u8>|
                    random.len() == ADDRESS_HASH_SIZE && written@ == #[trigger] request_packet(
                        old(self).controlled_destination().desc.address_hash,
                        *destination,
                        old(self).transport_id(),
                        random,
                    ),
            },
    {
        let tag = match tag {
            Some(given) => given,
            None => match create_random_tag() {
                Some(random) => random,
                None => {
                    return None;
                },
            },
        };
        Some(self.generate_with_tag(destination, tag.as_slice()))
    }
}

} // verus!
