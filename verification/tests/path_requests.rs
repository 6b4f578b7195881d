use reticulum::destination::link_map::LinkMap;
use reticulum::destination::{create_address_hash, DestinationName};
use reticulum::hash::AddressHash;
use reticulum::packet::{
    DestinationType, HeaderType, IfacFlag, PacketContext, PacketType, PropagationType, PACKET_MDU,
};
use reticulum::transport::path_requests::{
    create_path_request_destination, create_random_tag, PathRequest, PathRequests,
};

fn address(n: u8) -> AddressHash {
    AddressHash::new_from_slice(&[n; 16])
}

#[test]
fn path_request_destination_is_plain() {
    let destination = create_path_request_destination();
    let name = DestinationName::new("rnstransport", "path.request");
    assert_eq!(destination.desc.name, name);
    assert_eq!(destination.desc.address_hash, create_address_hash(None, &name));
    assert_eq!(
        destination.desc.name.hash,
        reticulum::hash::Hash::of(b"rnstransport.path.request")
    );
}

#[test]
fn random_tags_are_sixteen_bytes_and_differ() {
    let a = create_random_tag().unwrap();
    let b = create_random_tag().unwrap();
    assert_eq!(a.len(), 16);
    assert_eq!(b.len(), 16);
    assert_ne!(a, b);
}

#[test]
fn decode_reads_destination_and_tag() {
    assert!(PathRequest::decode(&[], "tp").is_none());
    assert!(PathRequest::decode(&[1u8; 15], "tp").is_none());
    assert!(PathRequest::decode(&[1u8; 16], "tp").is_none());

    let mut data = vec![1u8; 16];
    data.push(9);
    let request = PathRequest::decode(&data, "tp").unwrap();
    assert_eq!(request.destination, address(1));
    assert_eq!(request.requesting_transport, None);
    assert_eq!(request.tag_bytes, vec![9]);

    // 32 bytes: a destination and a tag of sixteen bytes
    let mut data = vec![1u8; 16];
    data.extend_from_slice(&[2u8; 16]);
    let request = PathRequest::decode(&data, "tp").unwrap();
    assert_eq!(request.requesting_transport, None);
    assert_eq!(request.tag_bytes, vec![2u8; 16]);

    // more: a destination, the asking transport node and a tag
    data.extend_from_slice(&[3u8, 4]);
    let request = PathRequest::decode(&data, "tp").unwrap();
    assert_eq!(request.destination, address(1));
    assert_eq!(request.requesting_transport, Some(address(2)));
    assert_eq!(request.tag_bytes, vec![3, 4]);

    // of a long tag sixteen bytes count
    let mut data = vec![1u8; 16];
    data.extend_from_slice(&[2u8; 16]);
    data.extend_from_slice(&(0..40u8).collect::<Vec<u8>>());
    let request = PathRequest::decode(&data, "tp").unwrap();
    assert_eq!(request.requesting_transport, Some(address(2)));
    assert_eq!(request.tag_bytes, (0..16u8).collect::<Vec<u8>>());
}

#[test]
fn repeated_requests_are_dropped() {
    let mut requests = PathRequests::new("tp", None);
    let mut data = vec![1u8; 16];
    data.extend_from_slice(&[7, 7, 7]);
    assert!(requests.decode(&data).is_some());
    assert!(requests.decode(&data).is_none());
    let mut other_tag = vec![1u8; 16];
    other_tag.extend_from_slice(&[7, 7, 8]);
    assert!(requests.decode(&other_tag).is_some());
    let mut other_destination = vec![2u8; 16];
    other_destination.extend_from_slice(&[7, 7, 7]);
    assert!(requests.decode(&other_destination).is_some());
    assert!(requests.decode(&other_destination).is_none());
    assert!(requests.decode(&[1u8; 16]).is_none());
}

#[test]
fn generated_requests_can_be_read_back() {
    let mut plain = PathRequests::new("tp", None);
    let packet = plain.generate(&address(5), Some(vec![1, 2, 3])).unwrap();
    assert_eq!(packet.header.ifac_flag, IfacFlag::Open);
    assert_eq!(packet.header.header_type, HeaderType::Type1);
    assert_eq!(packet.header.propagation_type, PropagationType::Broadcast);
    assert_eq!(packet.header.destination_type, DestinationType::Plain);
    assert_eq!(packet.header.packet_type, PacketType::Data);
    assert_eq!(packet.header.hops, 0);
    assert_eq!(packet.context, PacketContext::Generic);
    assert_eq!(packet.transport, None);
    assert_eq!(packet.ifac, None);
    assert_eq!(packet.destination, create_path_request_destination().desc.address_hash);
    let mut expected = vec![5u8; 16];
    expected.extend_from_slice(&[1, 2, 3]);
    assert_eq!(packet.data.as_slice(), expected.as_slice());
    let read = PathRequest::decode(packet.data.as_slice(), "tp").unwrap();
    assert_eq!(read.destination, address(5));
    assert_eq!(read.requesting_transport, None);
    assert_eq!(read.tag_bytes, vec![1, 2, 3]);

    let mut node = PathRequests::new("tp", Some(address(6)));
    let packet = node.generate(&address(5), Some(vec![1, 2, 3])).unwrap();
    let mut expected = vec![5u8; 16];
    expected.extend_from_slice(&[6u8; 16]);
    expected.extend_from_slice(&[1, 2, 3]);
    assert_eq!(packet.data.as_slice(), expected.as_slice());
    let read = node.decode(packet.data.as_slice()).unwrap();
    assert_eq!(read.destination, address(5));
    assert_eq!(read.requesting_transport, Some(address(6)));
    assert_eq!(read.tag_bytes, vec![1, 2, 3]);

    // without a tag a random one of sixteen bytes is made
    let first = node.generate(&address(5), None).unwrap();
    let second = node.generate(&address(5), None).unwrap();
    assert_eq!(first.data.len(), 48);
    assert_eq!(&first.data.as_slice()[..32], &expected[..32]);
    assert_ne!(first.data.as_slice(), second.data.as_slice());

    // a tag too long for the packet is cut off
    let long = node.generate_with_tag(&address(5), &vec![8u8; 3000]);
    assert_eq!(long.data.len(), PACKET_MDU);
}

#[test]
fn link_map_resolves_what_was_inserted() {
    let mut map = LinkMap::new();
    assert_eq!(map.resolve(&address(1)), None);
    map.insert(&address(1), &address(10));
    map.insert(&address(2), &address(20));
    assert_eq!(map.resolve(&address(1)), Some(address(10)));
    assert_eq!(map.resolve(&address(2)), Some(address(20)));
    map.insert(&address(1), &address(11));
    assert_eq!(map.resolve(&address(1)), Some(address(11)));
    map.remove(&address(1));
    assert_eq!(map.resolve(&address(1)), None);
    assert_eq!(map.resolve(&address(2)), Some(address(20)));
    map.remove(&address(3));
    assert_eq!(LinkMap::default().resolve(&address(2)), None);
}
