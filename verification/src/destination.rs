//! Destinations: who can be addressed, and how an address is derived from
//! a name and an identity.

use crate::error::RnsError;
use crate::hash::padded;
use crate::hash::AddressHash;
use crate::packet::DestinationType;
use crate::packet::Packet;
use crate::packet::PacketType;
use vstd::prelude::*;
use vstd::slice::slice_subrange;
use vstd::slice::slice_to_vec;
use vstd::string::StringSliceAdditionalSpecFns;

pub mod directory;
pub mod link;
pub mod link_map;

verus! {

/// Bytes of a name digest that go into an address and onto the wire.
pub const NAME_HASH_LENGTH: usize = 10;

/// Bytes of the random part of an announce.
pub const RAND_HASH_LENGTH: usize = 10;

/// Bytes of one public key.
pub const PUBLIC_KEY_LENGTH: usize = 32;

/// Bytes of a signature.
pub const SIGNATURE_LENGTH: usize = 64;

/// Bytes of an announce before the application data: two public keys, the
/// name digest, the random part and the signature.
pub const ANNOUNCE_HEADER_LENGTH: usize = 148;

/// Thirty-two key bytes, held like a digest.
pub type KeyBytes = crate::hash::Hash;

/// The digest of an application name and its aspects.
#[derive(Clone, Copy, Debug, PartialEq, Eq, Structural)]
pub struct DestinationName {
    pub hash: crate::hash::Hash,
}

impl DestinationName {
    /// The bytes `app_name`, a dot, `aspects`.
    pub open spec fn full_name(app_name: Seq<u8>, aspects: Seq<u8>) -> Seq<u8> {
        app_name + seq![0x2Eu8] + aspects
    }

    /// The name whose digest is that of `app_name.aspects`.
    pub open spec fn spec_new(app_name: Seq<u8>, aspects: Seq<u8>) -> DestinationName {
        DestinationName {
            hash: crate::hash::Hash::spec_of(DestinationName::full_name(app_name, aspects)),
        }
    }

    /// The part of the digest that is used: its first ten bytes.
    pub open spec fn name_hash(self) -> Seq<u8> {
        self.hash.bytes().take(NAME_HASH_LENGTH as int)
    }

    /// The name of application `app_name` with the dotted `aspects`.
    pub fn new(app_name: &str, aspects: &str) -> (name: DestinationName)
        ensures
            name == DestinationName::spec_new(app_name.spec_bytes(), aspects.spec_bytes()),
    {
        let mut full = slice_to_vec(app_name.as_bytes());
        full.push(0x2E);
        let mut rest = slice_to_vec(aspects.as_bytes());
        full.append(&mut rest);
        assert(full@ =~= DestinationName::full_name(app_name.spec_bytes(), aspects.spec_bytes()));
        DestinationName { hash: crate::hash::Hash::of(full.as_slice()) }
    }

    /// The name known only by the ten bytes that travel in an announce.
    pub fn new_from_hash_slice(hash_slice: &[u8]) -> (name: DestinationName)
        ensures
            name.hash == crate::hash::Hash::spec_from_bytes(
                padded(padded(hash_slice@, NAME_HASH_LENGTH as nat), 32),
            ),
            name.name_hash() == padded(hash_slice@, NAME_HASH_LENGTH as nat),
    {
        let short = crate::hash::padded_copy(hash_slice, NAME_HASH_LENGTH);
        let name = DestinationName { hash: crate::hash::Hash::new_from_slice(short.as_slice()) };
        assert(name.hash.bytes().take(NAME_HASH_LENGTH as int) =~= short@);
        name
    }

    /// The first ten bytes of the digest.
    pub fn as_name_hash_slice(&self) -> (bytes: Vec<u8>)
        ensures
            bytes@ == self.name_hash(),
    {
        let all = self.hash.to_bytes();
        proof {
            crate::hash::lemma_be_bytes_len(self.hash.hi as nat, 16);
        }
        slice_to_vec(slice_subrange(all.as_slice(), 0, NAME_HASH_LENGTH))
    }
}

/// The public half of an identity: its two keys and the address cut from
/// their digest.
#[derive(Clone, Copy, Debug, PartialEq, Eq, Structural)]
pub struct Identity {
    /// The key that payloads are encrypted to.
    pub public_key: KeyBytes,
    /// The key that signatures are checked against.
    pub verifying_key: KeyBytes,
    pub address_hash: AddressHash,
}

impl Identity {
    /// The address of an identity: the leading half of the digest of both
    /// keys.
    pub open spec fn spec_address(public_key: KeyBytes, verifying_key: KeyBytes) -> AddressHash {
        AddressHash {
            value: crate::hash::Hash::spec_of(public_key.bytes() + verifying_key.bytes()).hi,
        }
    }

    /// The identity with the given keys.
    pub open spec fn spec_new(public_key: KeyBytes, verifying_key: KeyBytes) -> Identity {
        Identity {
            public_key,
            verifying_key,
            address_hash: Identity::spec_address(public_key, verifying_key),
        }
    }

    /// The address stands in the right relation to the keys.
    pub open spec fn well_formed(self) -> bool {
        self == Identity::spec_new(self.public_key, self.verifying_key)
    }

    /// The identity with the given keys.
    pub fn new(public_key: KeyBytes, verifying_key: KeyBytes) -> (identity: Identity)
        ensures
            identity == Identity::spec_new(public_key, verifying_key),
    {
        let mut keys = public_key.to_bytes();
        let mut second = verifying_key.to_bytes();
        keys.append(&mut second);
        let digest = crate::hash::Hash::of(keys.as_slice());
        Identity { public_key, verifying_key, address_hash: AddressHash::new_from_hash(&digest) }
    }

    /// The identity whose keys are the first 64 bytes of `data`.
    pub fn new_from_slice(data: &[u8]) -> (identity: Identity)
        requires
            data@.len() >= 2 * PUBLIC_KEY_LENGTH,
        ensures
            identity == Identity::spec_new(
                crate::hash::Hash::spec_from_bytes(data@.subrange(0, 32)),
                crate::hash::Hash::spec_from_bytes(data@.subrange(32, 64)),
            ),
    {
        let first = slice_subrange(data, 0, PUBLIC_KEY_LENGTH);
        let second = slice_subrange(data, PUBLIC_KEY_LENGTH, 2 * PUBLIC_KEY_LENGTH);
        assert(padded(first@, 32) =~= data@.subrange(0, 32));
        assert(padded(second@, 32) =~= data@.subrange(32, 64));
        Identity::new(
            crate::hash::Hash::new_from_slice(first),
            crate::hash::Hash::new_from_slice(second),
        )
    }
}

/// The identity of a destination that has none.
#[derive(Clone, Copy, Debug, PartialEq, Eq, Structural)]
pub struct EmptyIdentity {}

/// What anyone may know of a destination.
#[derive(Clone, Copy, Debug, PartialEq, Eq, Structural)]
pub struct DestinationDesc {
    pub identity: Identity,
    pub address_hash: AddressHash,
    pub name: DestinationName,
}

/// The address of the destination `name` of the identity with address
/// `identity`, or of no identity: the leading half of the digest of the
/// name's ten bytes followed by the identity's sixteen.
pub open spec fn spec_address_hash(identity: Option<AddressHash>, name: DestinationName)
    -> AddressHash {
    AddressHash {
        value: crate::hash::Hash::spec_of(
            name.name_hash() + match identity {
                Some(address) => address.bytes(),
                None => Seq::<u8>::empty(),
            },
        ).hi,
    }
}

/// Derives the address of a destination from its name and the address of
/// its identity.
pub fn create_address_hash(identity: Option<AddressHash>, name: &DestinationName) -> (address:
    AddressHash)
    ensures
        address == spec_address_hash(identity, *name),
{
    let mut material = name.as_name_hash_slice();
    match identity {
        Some(owner) => {
            let mut bytes = owner.to_bytes();
            material.append(&mut bytes);
        },
        None => {
            assert(material@ + Seq::<u8>::empty() =~= material@);
        },
    }
    AddressHash::new_from_hash(&crate::hash::Hash::of(material.as_slice()))
}

impl DestinationDesc {
    /// The descriptor of the destination `name` of `identity`.
    pub open spec fn spec_new(identity: Identity, name: DestinationName) -> DestinationDesc {
        DestinationDesc {
            identity,
            address_hash: spec_address_hash(Some(identity.address_hash), name),
            name,
        }
    }

    /// The descriptor of the destination `name` of `identity`.
    pub fn new(identity: Identity, name: DestinationName) -> (desc: DestinationDesc)
        ensures
            desc == DestinationDesc::spec_new(identity, name),
    {
        DestinationDesc {
            identity,
            address_hash: create_address_hash(Some(identity.address_hash), &name),
            name,
        }
    }
}

/// What a local destination makes of a packet addressed to it.
#[derive(Clone, Copy, Debug, PartialEq, Eq, Structural)]
pub enum DestinationHandleStatus {
    /// Nothing to do.
    Ignored,
    /// A link request: answer it with a proof.
    LinkProof,
}

/// A destination of this node that peers can reach and open links to.
#[derive(Clone, Copy, Debug, PartialEq, Eq, Structural)]
pub struct SingleInputDestination {
    pub identity: Identity,
    pub desc: DestinationDesc,
}

impl SingleInputDestination {
    /// The destination `name` of `identity`.
    pub fn new(identity: Identity, name: DestinationName) -> (destination: SingleInputDestination)
        ensures
            destination.identity == identity,
            destination.desc == DestinationDesc::spec_new(identity, name),
    {
        SingleInputDestination { identity, desc: DestinationDesc::new(identity, name) }
    }

    /// Whether `packet` is a link request to this destination.
    pub open spec fn spec_handle_packet(self, packet: crate::packet::PacketView)
        -> DestinationHandleStatus {
        if packet.destination == self.desc.address_hash && packet.header.packet_type
            == PacketType::LinkRequest {
            DestinationHandleStatus::LinkProof
        } else {
            DestinationHandleStatus::Ignored
        }
    }

    /// Tells what to do with a packet: a link request addressed here asks
    /// for a proof, anything else for nothing.
    pub fn handle_packet(&self, packet: &Packet) -> (status: DestinationHandleStatus)
        ensures
            status == self.spec_handle_packet(packet@),
    {
        if packet.destination == self.desc.address_hash && packet.header.packet_type
            == PacketType::LinkRequest {
            DestinationHandleStatus::LinkProof
        } else {
            DestinationHandleStatus::Ignored
        }
    }
}

/// A destination of a peer, learned from its announce.
#[derive(Clone, Copy, Debug, PartialEq, Eq, Structural)]
pub struct SingleOutputDestination {
    pub identity: Identity,
    pub desc: DestinationDesc,
}

impl SingleOutputDestination {
    /// The destination `name` of `identity`.
    pub fn new(identity: Identity, name: DestinationName) -> (destination:
        SingleOutputDestination)
        ensures
            destination.identity == identity,
            destination.desc == DestinationDesc::spec_new(identity, name),
    {
        SingleOutputDestination { identity, desc: DestinationDesc::new(identity, name) }
    }
}

/// A destination without identity or encryption, open to everyone.
#[derive(Clone, Copy, Debug, PartialEq, Eq, Structural)]
pub struct PlainInputDestination {
    pub identity: EmptyIdentity,
    pub desc: DestinationDesc,
}

impl PlainInputDestination {
    /// The identity that stands in the descriptor of a plain destination:
    /// zero keys and the zero address.
    pub open spec fn blank_identity() -> Identity {
        Identity {
            public_key: crate::hash::Hash { hi: 0, lo: 0 },
            verifying_key: crate::hash::Hash { hi: 0, lo: 0 },
            address_hash: AddressHash { value: 0 },
        }
    }

    /// The plain destination `name`.
    pub open spec fn spec_new(name: DestinationName) -> PlainInputDestination {
        PlainInputDestination {
            identity: EmptyIdentity {  },
            desc: DestinationDesc {
                identity: PlainInputDestination::blank_identity(),
                address_hash: spec_address_hash(None, name),
                name,
            },
        }
    }

    /// The plain destination `name`.
    pub fn new(identity: EmptyIdentity, name: DestinationName) -> (destination:
        PlainInputDestination)
        ensures
            destination == PlainInputDestination::spec_new(name),
    {
        PlainInputDestination {
            identity,
            desc: DestinationDesc {
                identity: Identity {
                    public_key: crate::hash::Hash { hi: 0, lo: 0 },
                    verifying_key: crate::hash::Hash { hi: 0, lo: 0 },
                    address_hash: AddressHash { value: 0 },
                },
                address_hash: create_address_hash(None, &name),
                name,
            },
        }
    }
}

/// The parts of an announce payload.
pub struct DestinationAnnounce {}

impl DestinationAnnounce {
    /// The destination that an announce payload speaks of: the identity of
    /// its first 64 bytes and the name of the ten bytes after them.
    pub open spec fn announced(data: Seq<u8>) -> DestinationDesc {
        DestinationDesc::spec_new(
            Identity::spec_new(
                crate::hash::Hash::spec_from_bytes(data.subrange(0, 32)),
                crate::hash::Hash::spec_from_bytes(data.subrange(32, 64)),
            ),
            DestinationName {
                hash: crate::hash::Hash::spec_from_bytes(padded(data.subrange(64, 74), 32)),
            },
        )
    }

    /// Whether `packet` is an announce that holds: it is an announce to a
    /// single destination, its payload is long enough, the address it is
    /// sent to is the one derived from the keys and the name inside, and
    /// its signature has been found good.
    pub open spec fn holds(packet: crate::packet::PacketView, signature_valid: bool) -> bool {
        &&& packet.header.packet_type == PacketType::Announce
        &&& packet.header.destination_type == DestinationType::Single
        &&& packet.data.len() >= ANNOUNCE_HEADER_LENGTH
        &&& DestinationAnnounce::announced(packet.data).address_hash == packet.destination
        &&& signature_valid
    }

    /// Checks an announce and takes it apart. `signature_valid` is the
    /// verdict on the signature over the announce, reached by whoever holds
    /// the cryptography. On success the announced destination and the
    /// application data after the fixed part are handed back.
    pub fn validate(packet: &Packet, signature_valid: bool) -> (result: Result<
        (SingleOutputDestination, Vec<u8>),
        RnsError,
    >)
        ensures
            DestinationAnnounce::holds(packet@, signature_valid) <==> result.is_ok(),
            result matches Ok((destination, app_data)) ==> {
                &&& destination.desc == DestinationAnnounce::announced(packet@.data)
                &&& destination.identity == destination.desc.identity
                &&& app_data@ == packet@.data.skip(ANNOUNCE_HEADER_LENGTH as int)
            },
            !DestinationAnnounce::holds(packet@, signature_valid) ==> result == Err::<
                (SingleOutputDestination, Vec<u8>),
                RnsError,
            >(
                if packet@.header.packet_type != PacketType::Announce
                    || packet@.header.destination_type != DestinationType::Single
                    || packet@.data.len() < ANNOUNCE_HEADER_LENGTH {
                    RnsError::PacketError
                } else if DestinationAnnounce::announced(packet@.data).address_hash
                    != packet@.destination {
                    RnsError::IncorrectHash
                } else {
                    RnsError::IncorrectSignature
                },
            ),
    {
        if packet.header.packet_type != PacketType::Announce || packet.header.destination_type
            != DestinationType::Single {
            return Err(RnsError::PacketError);
        }
        let data = packet.data.as_slice();
        if data.len() < ANNOUNCE_HEADER_LENGTH {
            return Err(RnsError::PacketError);
        }
        let identity = Identity::new_from_slice(data);
        let name = DestinationName::new_from_hash_slice(
            slice_subrange(data, 2 * PUBLIC_KEY_LENGTH, 2 * PUBLIC_KEY_LENGTH + NAME_HASH_LENGTH),
        );
        assert(padded(data@.subrange(64, 74), NAME_HASH_LENGTH as nat) =~= data@.subrange(64, 74));
        let destination = SingleOutputDestination::new(identity, name);
        if destination.desc.address_hash != packet.destination {
            return Err(RnsError::IncorrectHash);
        }
        if !signature_valid {
            return Err(RnsError::IncorrectSignature);
        }
        let app_data = slice_to_vec(slice_subrange(data, ANNOUNCE_HEADER_LENGTH, data.len()));
        assert(app_data@ =~= packet@.data.skip(ANNOUNCE_HEADER_LENGTH as int));
        Ok((destination, app_data))
    }
}

} // verus!
