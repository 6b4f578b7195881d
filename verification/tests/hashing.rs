use reticulum::destination::{create_address_hash, DestinationName, Identity};
use reticulum::hash::{u128_from_be_bytes, u128_to_be_bytes, AddressHash};
use reticulum::packet::{Packet, PacketContext, PacketDataBuffer, PacketType};

fn hex(bytes: &[u8]) -> String {
    let mut out = String::new();
    for b in bytes {
        out.push_str(&format!("{:02x}", b));
    }
    out
}

#[test]
fn sha256_of_abc() {
    let digest = reticulum::hash::Hash::of(b"abc");
    assert_eq!(
        hex(&digest.to_bytes()),
        "ba7816bf8f01cfea414140de5dae2223b00361a396177a9cb410ff61f20015ad"
    );
}

#[test]
fn sha256_of_nothing() {
    let digest = reticulum::hash::Hash::of(b"");
    assert_eq!(
        hex(&digest.to_bytes()),
        "e3b0c44298fc1c149afbf4c8996fb92427ae41e4649b934ca495991b7852b855"
    );
}

#[test]
fn address_is_leading_half_of_digest() {
    let digest = reticulum::hash::Hash::of(b"abc");
    let address = AddressHash::new_from_hash(&digest);
    assert_eq!(hex(&address.to_bytes()), "ba7816bf8f01cfea414140de5dae2223");
}

#[test]
fn big_endian_round_trip() {
    let bytes: Vec<u8> = (1..=16u8).collect();
    let value = u128_from_be_bytes(&bytes);
    assert_eq!(value, 0x0102030405060708090a0b0c0d0e0f10u128);
    assert_eq!(u128_to_be_bytes(value), bytes);
    assert_eq!(u128_from_be_bytes(&[0x12, 0x34]), 0x1234);
}

#[test]
fn address_from_slice_takes_sixteen_bytes() {
    let long = AddressHash::new_from_slice(&[4u8; 32]);
    assert_eq!(long.to_bytes(), vec![4u8; 16]);
    let short = AddressHash::new_from_slice(&[9u8, 8, 7]);
    let mut expected = vec![9u8, 8, 7];
    expected.resize(16, 0);
    assert_eq!(short.to_bytes(), expected);
}

#[test]
fn random_addresses_differ() {
    let a = AddressHash::new_from_rand().unwrap();
    let b = AddressHash::new_from_rand().unwrap();
    assert_ne!(a, b);
}

#[test]
fn destination_address_follows_name_and_identity() {
    let name = DestinationName::new("test", "hop");
    let full = reticulum::hash::Hash::of(b"test.hop");
    assert_eq!(name.hash, full);
    assert_eq!(name.as_name_hash_slice(), full.to_bytes()[..10].to_vec());

    let identity = Identity::new(reticulum::hash::Hash::of(b"public"), reticulum::hash::Hash::of(b"verifying"));
    let mut keys = reticulum::hash::Hash::of(b"public").to_bytes();
    keys.extend_from_slice(&reticulum::hash::Hash::of(b"verifying").to_bytes());
    assert_eq!(
        identity.address_hash,
        AddressHash::new_from_hash(&reticulum::hash::Hash::of(&keys))
    );

    let mut material = full.to_bytes()[..10].to_vec();
    material.extend_from_slice(&identity.address_hash.to_bytes());
    assert_eq!(
        create_address_hash(Some(identity.address_hash), &name),
        AddressHash::new_from_hash(&reticulum::hash::Hash::of(&material))
    );
    assert_eq!(
        create_address_hash(None, &name),
        AddressHash::new_from_hash(&reticulum::hash::Hash::of(&full.to_bytes()[..10]))
    );
}

#[test]
fn packet_hash_ignores_hops_and_route() {
    let mut packet = Packet::default();
    packet.data = PacketDataBuffer::new_from_slice(b"foo");
    packet.destination = AddressHash::new_from_slice(&[4u8; 16]);
    let mut moved = packet.clone();
    moved.header.hops = 9;
    moved.transport = Some(AddressHash::new_from_slice(&[1u8; 16]));
    assert_eq!(packet.hash(), moved.hash());

    let mut other = packet.clone();
    other.data = PacketDataBuffer::new_from_slice(b"bar");
    assert_ne!(packet.hash(), other.hash());
    let mut proof = packet.clone();
    proof.header.packet_type = PacketType::Proof;
    assert_ne!(packet.hash(), proof.hash());
    let mut channel = packet.clone();
    channel.context = PacketContext::Channel;
    assert_ne!(packet.hash(), channel.hash());

    let mut part = vec![0u8];
    part.extend_from_slice(&[4u8; 16]);
    part.push(0);
    part.extend_from_slice(b"foo");
    assert_eq!(packet.hash(), reticulum::hash::Hash::of(&part));
}

#[test]
fn packets_compare_by_every_field() {
    let mut packet = Packet::default();
    packet.data = PacketDataBuffer::new_from_slice(b"foo");
    let copy = packet.clone();
    assert!(packet.equals(&copy));
    let mut moved = packet.clone();
    moved.header.hops = 1;
    assert!(!packet.equals(&moved));
    let mut coded = packet.clone();
    coded.ifac = Some(vec![1, 2]);
    assert!(!packet.equals(&coded));
}
