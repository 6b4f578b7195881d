use reticulum::crypt::Evidence;
use reticulum::destination::link::{
    Link, LinkEvent, LinkStatus, KEEP_ALIVE_REQUEST, KEEP_ALIVE_RESPONSE,
};
use reticulum::destination::{
    DestinationAnnounce, DestinationDesc, DestinationName, Identity, SingleInputDestination,
};
use reticulum::error::RnsError;
use reticulum::hash::AddressHash;
use reticulum::packet::{
    DestinationType, HeaderType, Packet, PacketContext, PacketDataBuffer, PacketType,
    PropagationType,
};
use reticulum::transport::node::Schedule;
use reticulum::transport::{
    create_retransmit_packet, Transport, TransportAction, TransportConfig, TxMessageType,
    PATHFINDER_M,
};

const SECOND: u64 = 1_000_000;

fn identity(name: &str) -> Identity {
    Identity::new(
        reticulum::hash::Hash::of(name.as_bytes()),
        reticulum::hash::Hash::of(format!("{}-verifying", name).as_bytes()),
    )
}

fn transport(name: &str, broadcast: bool, retransmit: bool) -> Transport {
    let mut config = TransportConfig::new(name, &identity(name), broadcast);
    config.set_retransmit(retransmit);
    Transport::new(config, 0)
}

fn iface(n: u8) -> AddressHash {
    AddressHash::new_from_slice(&[n; 16])
}

fn nothing() -> Evidence {
    Evidence::none()
}

fn signed() -> Evidence {
    Evidence { signature_valid: true, link_proof: None, plaintext: None }
}

fn opened(plaintext: &[u8]) -> Evidence {
    Evidence { signature_valid: false, link_proof: None, plaintext: Some(plaintext.to_vec()) }
}

fn proved(proof: &[u8]) -> Evidence {
    Evidence { signature_valid: true, link_proof: Some(proof.to_vec()), plaintext: None }
}

fn create_packet(data: &[u8], destination: AddressHash) -> Packet {
    let mut packet: Packet = Default::default();

    packet.data = PacketDataBuffer::new_from_slice(data);
    packet.destination = destination;

    packet
}

fn announce_of(owner: &Identity, name: &DestinationName, app_data: &[u8], hops: u8) -> Packet {
    let mut data = owner.public_key.to_bytes();
    data.extend_from_slice(&owner.verifying_key.to_bytes());
    data.extend_from_slice(&name.as_name_hash_slice());
    data.extend_from_slice(&[0x55u8; 10]);
    data.extend_from_slice(&[0xAAu8; 64]);
    data.extend_from_slice(app_data);
    let mut packet = create_packet(&data, DestinationDesc::new(*owner, *name).address_hash);
    packet.header.packet_type = PacketType::Announce;
    packet.header.hops = hops;
    packet
}

fn sends(actions: &[TransportAction]) -> Vec<(TxMessageType, Packet)> {
    let mut out = Vec::new();
    for action in actions {
        if let TransportAction::Send(message) = action {
            out.push((message.tx_type, message.packet.clone()));
        }
    }
    out
}

#[test]
fn drop_duplicates() {
    let mut transport = transport("tp", false, true);
    let handler = transport.get_handler();

    let next_hop_iface = AddressHash::new_from_slice(&[3u8; 32]);
    let destination = AddressHash::new_from_slice(&[4u8; 32]);

    let mut announce: Packet = Default::default();
    announce.header.header_type = HeaderType::Type2;
    announce.header.packet_type = PacketType::Announce;
    announce.header.hops = 3;
    announce.transport = Some(destination);

    assert!(handler.filter_duplicate_packets(&announce, 0));

    let mut actions = Vec::new();
    handler.handle_announce(&announce, &nothing(), next_hop_iface, 0, &mut actions);

    let data_packet = create_packet(b"foo", destination);
    let duplicate: Packet = data_packet.clone();

    let mut different_packet = data_packet.clone();
    different_packet.data = PacketDataBuffer::new_from_slice(b"bar");

    assert!(handler.filter_duplicate_packets(&data_packet, 0));
    assert!(!handler.filter_duplicate_packets(&duplicate, 0));
    assert!(handler.filter_duplicate_packets(&different_packet, 0));

    handler.packet_cache.release(SECOND, 2 * SECOND);

    // Packet should have been removed from cache (stale)
    assert!(handler.filter_duplicate_packets(&duplicate, 2 * SECOND));
}

#[test]
fn announces_always_pass_the_filter() {
    let mut transport = transport("tp", false, false);
    let handler = transport.get_handler();
    let announce = announce_of(&identity("a"), &DestinationName::new("test", "hop"), b"", 0);
    assert!(handler.filter_duplicate_packets(&announce, 0));
    assert!(handler.filter_duplicate_packets(&announce, 0));
    assert_eq!(handler.packet_cache.len(), 0);
}

#[test]
fn cache_keeps_what_is_fresh() {
    let mut transport = transport("tp", false, false);
    let handler = transport.get_handler();
    let old = create_packet(b"old", iface(1));
    let new = create_packet(b"new", iface(1));
    assert!(handler.packet_cache.update(&old, 10));
    assert!(handler.packet_cache.update(&new, 20));
    assert!(!handler.packet_cache.update(&old, 30));
    handler.packet_cache.release(15, 30);
    assert_eq!(handler.packet_cache.len(), 1);
    assert!(!handler.packet_cache.update(&new, 30));
    assert!(handler.packet_cache.update(&old, 30));
    handler.packet_cache.release(10, 30);
    assert_eq!(handler.packet_cache.len(), 2);
    handler.packet_cache.release(9, 30);
    assert_eq!(handler.packet_cache.len(), 1);
}

#[test]
fn regression_transport_stalls_on_duplicate_package() {
    let mut transport_a = transport("a", true, false);
    let dest_a = transport_a.add_destination(identity("a"), DestinationName::new("test", "test"));
    let destination_hash = dest_a.desc.address_hash;
    assert!(transport_a.has_destination(&destination_hash));

    let data1 = [1u8];
    let packet1 = create_packet(&data1, destination_hash);
    let packet1_again = packet1.clone();

    let data2 = [3u8, 3u8, 3u8];
    let packet2 = create_packet(&data2, destination_hash);

    let first = transport_a.handle_inbound(iface(1), &packet1, &nothing(), 0);
    let received: Vec<&TransportAction> = first
        .iter()
        .filter(|a| matches!(a, TransportAction::Received(_)))
        .collect();
    assert_eq!(received.len(), 1);
    match received[0] {
        TransportAction::Received(data) => {
            assert_eq!(data.destination, destination_hash);
            assert_eq!(data.data.as_slice(), data1);
        }
        _ => unreachable!(),
    }

    // duplicate packet was dropped
    let again = transport_a.handle_inbound(iface(1), &packet1_again, &nothing(), 0);
    assert!(again.is_empty());

    let second = transport_a.handle_inbound(iface(1), &packet2, &nothing(), 0);
    let received: Vec<&TransportAction> = second
        .iter()
        .filter(|a| matches!(a, TransportAction::Received(_)))
        .collect();
    assert_eq!(received.len(), 1);
    match received[0] {
        TransportAction::Received(data) => assert_eq!(data.data.as_slice(), data2),
        _ => unreachable!(),
    }
}

#[test]
fn calculate_hop_distance() {
    let mut transport_a = transport("a", true, true);
    let mut transport_b = transport("b", true, true);
    let mut transport_c = transport("c", true, true);

    let id_a = identity("a");
    let dest_a = transport_a.add_destination(id_a, DestinationName::new("test", "hop"));
    let address = dest_a.desc.address_hash;

    // a announces; its announce reaches b and c over their direct links
    let announce = announce_of(&id_a, &DestinationName::new("test", "hop"), b"", 0);
    let sent = sends(&transport_a.send_announce(announce.clone(), 0));
    assert_eq!(sent.len(), 1);
    assert_eq!(sent[0].0, TxMessageType::Broadcast(None));

    let ab = iface(0xab);
    let ac = iface(0xac);
    let bc = iface(0xbc);
    let from_b = sends(&transport_b.handle_inbound(ab, &sent[0].1, &signed(), SECOND));
    // b passes the announce on, one hop further and through itself
    assert_eq!(from_b.len(), 1);
    assert_eq!(from_b[0].0, TxMessageType::Broadcast(Some(ab)));
    assert_eq!(from_b[0].1.header.hops, 1);
    assert_eq!(from_b[0].1.transport, Some(identity("b").address_hash));

    // c hears it from b first, then from a
    transport_c.handle_inbound(bc, &from_b[0].1, &signed(), SECOND);
    let via_b = transport_c.get_handler().path_table.get(&address).unwrap();
    assert_eq!(via_b.hops, 2);
    assert_eq!(via_b.next_hop, identity("b").address_hash);
    transport_c.handle_inbound(ac, &sent[0].1, &signed(), SECOND);

    let at_b = transport_b.get_handler().path_table.get(&address).unwrap();
    assert_eq!(at_b.hops, 1);
    assert_eq!(at_b.iface, ab);
    let at_c = transport_c.get_handler().path_table.get(&address).unwrap();
    assert_eq!(at_c.hops, 1);
    assert_eq!(at_c.iface, ac);
    assert_eq!(at_c.next_hop, address);

    // the longer way does not take the place of the shorter one
    transport_c.handle_inbound(bc, &from_b[0].1, &signed(), 2 * SECOND);
    assert_eq!(transport_c.get_handler().path_table.get(&address).unwrap().hops, 1);
    // a does not learn a path to itself
    let echoed = transport_a.handle_inbound(ab, &from_b[0].1, &signed(), SECOND);
    assert!(echoed.is_empty());
    assert!(transport_a.get_handler().path_table.get(&address).is_none());
}

#[test]
fn announce_validation() {
    let owner = identity("a");
    let name = DestinationName::new("test", "hop");
    let announce = announce_of(&owner, &name, b"app", 0);
    let (destination, app_data) = DestinationAnnounce::validate(&announce, true).unwrap();
    assert_eq!(destination.identity, owner);
    assert_eq!(destination.desc.address_hash, announce.destination);
    assert_eq!(destination.desc.name.as_name_hash_slice(), name.as_name_hash_slice());
    assert_eq!(app_data, b"app".to_vec());

    assert_eq!(
        DestinationAnnounce::validate(&announce, false).map(|_| ()),
        Err(RnsError::IncorrectSignature)
    );
    let mut moved = announce.clone();
    moved.destination = iface(9);
    assert_eq!(
        DestinationAnnounce::validate(&moved, true).map(|_| ()),
        Err(RnsError::IncorrectHash)
    );
    let mut short = announce.clone();
    short.data = PacketDataBuffer::new_from_slice(&[0u8; 147]);
    assert_eq!(
        DestinationAnnounce::validate(&short, true).map(|_| ()),
        Err(RnsError::PacketError)
    );
    let mut data = announce.clone();
    data.header.packet_type = PacketType::Data;
    assert_eq!(
        DestinationAnnounce::validate(&data, true).map(|_| ()),
        Err(RnsError::PacketError)
    );
}

#[test]
fn announce_idempotence() {
    let mut node = transport("n", false, true);
    let owner = identity("a");
    let name = DestinationName::new("test", "hop");
    let announce = announce_of(&owner, &name, b"hello", 2);

    let first = node.handle_inbound(iface(1), &announce, &signed(), 0);
    assert_eq!(first.len(), 2);
    match &first[0] {
        TransportAction::Send(message) => {
            assert_eq!(message.tx_type, TxMessageType::Broadcast(Some(iface(1))));
            assert_eq!(message.packet.header.hops, 3);
            assert_eq!(message.packet.header.header_type, HeaderType::Type2);
            assert_eq!(message.packet.header.propagation_type, PropagationType::Transport);
            assert_eq!(message.packet.transport, Some(identity("n").address_hash));
            assert_eq!(message.packet.data.as_slice(), announce.data.as_slice());
        }
        other => panic!("unexpected {:?}", other),
    }
    match &first[1] {
        TransportAction::Announce(event) => {
            assert_eq!(event.destination.desc.address_hash, announce.destination);
            assert_eq!(event.app_data.as_slice(), b"hello");
        }
        other => panic!("unexpected {:?}", other),
    }
    assert_eq!(node.get_handler().single_out_destinations.len(), 1);
    assert_eq!(node.get_handler().announce_table.len(), 1);

    // the same announce from the same interface: the map does not grow
    let again = node.handle_inbound(iface(1), &announce, &signed(), SECOND);
    assert_eq!(again.len(), 2);
    assert_eq!(node.get_handler().single_out_destinations.len(), 1);
    assert_eq!(node.get_handler().announce_table.len(), 1);
    // from another interface it is recorded once more, the map stays
    node.handle_inbound(iface(2), &announce, &signed(), SECOND);
    assert_eq!(node.get_handler().single_out_destinations.len(), 1);
    assert_eq!(node.get_handler().announce_table.len(), 2);
    // an announce that does not hold changes nothing
    let other = announce_of(&identity("b"), &name, b"", 0);
    assert!(node.handle_inbound(iface(1), &other, &nothing(), SECOND).is_empty());
    assert_eq!(node.get_handler().single_out_destinations.len(), 1);
}

#[test]
fn announces_through_this_node_are_not_passed_on_again() {
    let mut node = transport("n", false, true);
    let mut announce = announce_of(&identity("a"), &DestinationName::new("test", "hop"), b"", 4);
    announce.header.header_type = HeaderType::Type2;
    announce.transport = Some(identity("n").address_hash);
    let actions = node.handle_inbound(iface(1), &announce, &signed(), 0);
    assert_eq!(actions.len(), 1);
    assert!(matches!(actions[0], TransportAction::Announce(_)));
    assert!(node.maintain(SECOND).iter().all(|a| !matches!(a, TransportAction::Send(_))));
}

#[test]
fn recorded_announces_go_out_with_the_clock() {
    // the node starts out not passing announces on, then is told to
    let mut node = transport("n", false, false);
    let announce = announce_of(&identity("a"), &DestinationName::new("test", "hop"), b"", 1);
    let actions = node.handle_inbound(iface(1), &announce, &signed(), 0);
    assert_eq!(actions.len(), 1);
    node.get_handler().config.set_retransmit(true);
    let sent = sends(&node.maintain(SECOND));
    assert_eq!(sent.len(), 1);
    assert_eq!(sent[0].0, TxMessageType::Broadcast(Some(iface(1))));
    assert_eq!(sent[0].1.header.hops, 2);
    assert_eq!(sent[0].1.transport, Some(identity("n").address_hash));
    // once is enough
    assert!(sends(&node.maintain(2 * SECOND)).is_empty());
}

#[test]
fn config_says_what_is_passed_on() {
    let mut config = TransportConfig::new("node", &identity("node"), false);
    assert_eq!(config.name(), "node");
    assert_eq!(config.transport_id(), identity("node").address_hash);
    assert!(!config.is_broadcast());
    assert!(!config.is_retransmit());
    config.set_broadcast(true);
    assert!(config.is_broadcast());
    assert!(!config.is_retransmit());
    config.set_retransmit(true);
    config.set_broadcast(false);
    assert!(!config.is_broadcast());
    assert!(config.is_retransmit());
    let node = Transport::new(config, 0);
    assert_eq!(node.name(), "node");

    // a node that does not broadcast keeps a packet for nowhere to itself
    let mut quiet = transport("q", false, false);
    assert!(quiet.handle_inbound(iface(1), &create_packet(b"foo", iface(9)), &nothing(), 0).is_empty());
}

#[test]
fn hop_monotonicity() {
    // a node that broadcasts passes every packet but announces on, one hop further
    let mut node = transport("n", true, false);
    let mut packet = create_packet(b"foo", iface(9));
    packet.header.hops = 5;
    let sent = sends(&node.handle_inbound(iface(1), &packet, &nothing(), 0));
    assert_eq!(sent.len(), 1);
    assert_eq!(sent[0].0, TxMessageType::Broadcast(Some(iface(1))));
    assert_eq!(sent[0].1.header.hops, 6);
    assert_eq!(sent[0].1.data.as_slice(), b"foo");
    assert_eq!(create_retransmit_packet(&packet).header.hops, 6);

    // a packet that has travelled too far is dropped, and the cache does not hear of it
    let mut tired = create_packet(b"bar", iface(9));
    tired.header.hops = PATHFINDER_M as u8;
    assert!(node.handle_inbound(iface(1), &tired, &nothing(), 0).is_empty());
    tired.header.hops = PATHFINDER_M as u8 - 1;
    let sent = sends(&node.handle_inbound(iface(1), &tired, &nothing(), 0));
    assert_eq!(sent.len(), 1);
    assert_eq!(sent[0].1.header.hops as usize, PATHFINDER_M);
}

#[test]
fn tired_packets_are_not_passed_on() {
    let mut node = transport("n", false, false);
    let announce = announce_of(&identity("a"), &DestinationName::new("test", "hop"), b"", 1);
    node.handle_inbound(iface(1), &announce, &signed(), 0);
    let handler = node.get_handler();

    let mut tired = create_packet(b"payload", announce.destination);
    tired.header.hops = PATHFINDER_M as u8;
    let mut actions = Vec::new();
    assert!(!handler.send_to_next_hop(&tired, None, 0, &mut actions));
    assert!(actions.is_empty());
    handler.handle_data(&tired, &nothing(), 0, &mut actions);
    assert!(actions.is_empty());
    tired.header.hops = 255;
    assert!(!handler.send_to_next_hop(&tired, None, 0, &mut actions));
    assert!(actions.is_empty());

    tired.header.hops = PATHFINDER_M as u8 - 1;
    assert!(handler.send_to_next_hop(&tired, None, 0, &mut actions));
    assert_eq!(actions.len(), 1);
    let lost = create_packet(b"payload", iface(0x42));
    assert!(!handler.send_to_next_hop(&lost, None, 0, &mut actions));
    assert_eq!(actions.len(), 1);

    // a link request that has travelled too far is neither recorded nor passed on
    let mut request = create_packet(&[7u8; 64], announce.destination);
    request.header.packet_type = PacketType::LinkRequest;
    request.header.hops = PATHFINDER_M as u8;
    let mut actions = Vec::new();
    handler.handle_link_request(&request, &nothing(), iface(2), 0, &mut actions);
    assert!(actions.is_empty());
    let id = AddressHash::new_from_hash(&request.hash());
    assert!(handler.link_table.original_destination(&id).is_none());
}

#[test]
fn data_for_a_known_destination_is_passed_along_the_path() {
    let mut node = transport("n", false, false);
    let owner = identity("a");
    let name = DestinationName::new("test", "hop");
    let mut announce = announce_of(&owner, &name, b"", 1);
    announce.header.header_type = HeaderType::Type2;
    announce.transport = Some(iface(0x77));
    node.handle_inbound(iface(1), &announce, &signed(), 0);

    let mut packet = create_packet(b"payload", announce.destination);
    packet.header.hops = 3;
    let sent = sends(&node.handle_inbound(iface(2), &packet, &nothing(), SECOND));
    assert_eq!(sent.len(), 1);
    assert_eq!(sent[0].0, TxMessageType::Direct(iface(1)));
    assert_eq!(sent[0].1.header.hops, 4);
    assert_eq!(sent[0].1.header.header_type, HeaderType::Type2);
    assert_eq!(sent[0].1.header.propagation_type, PropagationType::Transport);
    assert_eq!(sent[0].1.transport, Some(identity("n").address_hash));
    assert_eq!(sent[0].1.destination, announce.destination);
    assert_eq!(sent[0].1.data.as_slice(), b"payload");

    // without a path the packet goes nowhere
    let lost = create_packet(b"payload", iface(0x42));
    assert!(node.handle_inbound(iface(2), &lost, &nothing(), SECOND).is_empty());

    // a packet of this node sets out along the path without a hop added
    let own = create_packet(b"mine", announce.destination);
    let sent = sends(&node.outbound(&own, SECOND));
    assert_eq!(sent.len(), 1);
    assert_eq!(sent[0].0, TxMessageType::Direct(iface(1)));
    assert_eq!(sent[0].1.header.hops, 0);
    assert_eq!(sent[0].1.transport, Some(iface(0x77)));
    assert!(node.outbound(&lost, SECOND).is_empty());
}

fn request_to(destination: &SingleInputDestination) -> Packet {
    let mut request = create_packet(&[7u8; 64], destination.desc.address_hash);
    request.header.packet_type = PacketType::LinkRequest;
    request
}

#[test]
fn link_request_is_answered_with_a_proof() {
    let mut node = transport("n", false, false);
    let local = node.add_destination(identity("a"), DestinationName::new("test", "link"));
    let request = request_to(&local);
    let link_id = AddressHash::new_from_hash(&request.hash());

    // no proof at hand: nothing happens
    assert!(node.handle_inbound(iface(1), &request, &nothing(), 0).is_empty());
    assert!(node.find_in_link(&link_id).is_none());
    node.get_handler().packet_cache.release(0, SECOND);

    let actions = node.handle_inbound(iface(1), &request, &proved(&[9u8; 96]), SECOND);
    assert_eq!(actions.len(), 2);
    match &actions[0] {
        TransportAction::Send(message) => {
            assert_eq!(message.tx_type, TxMessageType::Broadcast(None));
            assert_eq!(message.packet.header.packet_type, PacketType::Proof);
            assert_eq!(message.packet.header.destination_type, DestinationType::Link);
            assert_eq!(message.packet.context, PacketContext::LinkRequestProof);
            assert_eq!(message.packet.destination, link_id);
            assert_eq!(message.packet.data.as_slice(), &[9u8; 96]);
        }
        other => panic!("unexpected {:?}", other),
    }
    match &actions[1] {
        TransportAction::InLink(event) => {
            assert_eq!(event.id, link_id);
            assert_eq!(event.address_hash, local.desc.address_hash);
            assert!(matches!(event.event, LinkEvent::Activated));
        }
        other => panic!("unexpected {:?}", other),
    }
    let link = node.find_in_link(&link_id).unwrap();
    assert_eq!(link.status(), LinkStatus::Active);
    assert_eq!(link.destination(), local.desc);

    // too short for two keys
    let mut short = create_packet(&[7u8; 63], local.desc.address_hash);
    short.header.packet_type = PacketType::LinkRequest;
    assert!(node.handle_inbound(iface(1), &short, &proved(&[9u8; 96]), SECOND).is_empty());
    assert_eq!(
        Link::new_from_request(&short, local.desc, 0).map(|_| ()),
        Err(RnsError::PacketError)
    );
    assert_eq!(local.handle_packet(&short), reticulum::destination::DestinationHandleStatus::LinkProof);
    assert_eq!(
        local.handle_packet(&create_packet(b"x", local.desc.address_hash)),
        reticulum::destination::DestinationHandleStatus::Ignored
    );
}

#[test]
fn data_on_a_link_reaches_subscribers_and_channel() {
    let mut node = transport("n", false, false);
    let local = node.add_destination(identity("a"), DestinationName::new("test", "link"));
    let request = request_to(&local);
    let link_id = AddressHash::new_from_hash(&request.hash());
    node.handle_inbound(iface(1), &request, &proved(&[9u8; 96]), 0);

    let mut data = create_packet(b"sealed", link_id);
    data.header.destination_type = DestinationType::Link;
    let actions = node.handle_inbound(iface(1), &data, &opened(b"clear"), SECOND);
    assert_eq!(actions.len(), 1);
    match &actions[0] {
        TransportAction::InLink(event) => match &event.event {
            LinkEvent::Data(payload) => assert_eq!(payload.as_slice(), b"clear"),
            other => panic!("unexpected {:?}", other),
        },
        other => panic!("unexpected {:?}", other),
    }
    assert_eq!(node.find_in_link(&link_id).unwrap().elapsed(SECOND), 0);

    // the same packet again: dropped
    assert!(node.handle_inbound(iface(1), &data, &opened(b"clear"), SECOND).is_empty());
    // what does not open is dropped without a word
    let mut bad = create_packet(b"garbled", link_id);
    bad.header.destination_type = DestinationType::Link;
    assert!(node.handle_inbound(iface(1), &bad, &nothing(), SECOND).is_empty());

    let mut framed = create_packet(b"sealed frame", link_id);
    framed.header.destination_type = DestinationType::Link;
    framed.context = PacketContext::Channel;
    let actions = node.handle_inbound(iface(1), &framed, &opened(b"frame"), SECOND);
    assert_eq!(actions.len(), 1);
    match &actions[0] {
        TransportAction::Channel { link, payload } => {
            assert_eq!(*link, link_id);
            assert_eq!(payload.as_slice(), b"frame");
        }
        other => panic!("unexpected {:?}", other),
    }

    // a keep-alive is answered
    let mut keep = create_packet(&[KEEP_ALIVE_REQUEST], link_id);
    keep.header.destination_type = DestinationType::Link;
    keep.context = PacketContext::KeepAlive;
    let actions = node.handle_inbound(iface(1), &keep, &nothing(), 2 * SECOND);
    assert_eq!(actions.len(), 2);
    assert!(matches!(&actions[0], TransportAction::InLink(event) if matches!(event.event, LinkEvent::KeepAlive)));
    match &actions[1] {
        TransportAction::Send(message) => {
            assert_eq!(message.tx_type, TxMessageType::Broadcast(None));
            assert_eq!(message.packet.context, PacketContext::KeepAlive);
            assert_eq!(message.packet.destination, link_id);
            assert_eq!(message.packet.data.as_slice(), &[KEEP_ALIVE_RESPONSE]);
        }
        other => panic!("unexpected {:?}", other),
    }

    // the peer closes the link
    let mut close = create_packet(b"bye", link_id);
    close.header.destination_type = DestinationType::Link;
    close.context = PacketContext::LinkClose;
    let actions = node.handle_inbound(iface(1), &close, &opened(b"bye"), 3 * SECOND);
    assert_eq!(actions.len(), 1);
    assert!(matches!(&actions[0], TransportAction::InLink(event) if matches!(event.event, LinkEvent::Closed)));
    assert_eq!(node.find_in_link(&link_id).unwrap().status(), LinkStatus::Closed);
}

fn proof_of(link_id: AddressHash) -> Packet {
    let mut proof = create_packet(&[1u8; 96], link_id);
    proof.header.packet_type = PacketType::Proof;
    proof.header.destination_type = DestinationType::Link;
    proof.context = PacketContext::LinkRequestProof;
    proof
}

#[test]
fn out_link_is_asked_for_once_and_activated_by_its_proof() {
    let mut node = transport("n", false, false);
    let remote = DestinationDesc::new(identity("r"), DestinationName::new("test", "link"));
    let (id, actions) = node.link(remote, &[7u8; 64], 0);
    let sent = sends(&actions);
    assert_eq!(sent.len(), 1);
    assert_eq!(sent[0].0, TxMessageType::Broadcast(None));
    assert_eq!(sent[0].1.header.packet_type, PacketType::LinkRequest);
    assert_eq!(sent[0].1.destination, remote.address_hash);
    assert_eq!(sent[0].1.data.as_slice(), &[7u8; 64]);
    assert_eq!(id, AddressHash::new_from_hash(&sent[0].1.hash()));
    assert_eq!(node.find_out_link(&id).unwrap().status(), LinkStatus::Pending);

    // asking again gives the same link and sends nothing
    let (again, actions) = node.link(remote, &[8u8; 64], SECOND);
    assert_eq!(again, id);
    assert!(actions.is_empty());

    // a proof with a bad signature changes nothing
    let proof = proof_of(id);
    assert!(node.handle_inbound(iface(1), &proof, &nothing(), 2 * SECOND).is_empty());
    assert_eq!(node.find_out_link(&id).unwrap().status(), LinkStatus::Pending);
    node.get_handler().packet_cache.release(0, 3 * SECOND);

    let actions = node.handle_inbound(iface(1), &proof, &signed(), 3 * SECOND);
    assert_eq!(actions.len(), 2);
    assert!(matches!(&actions[0], TransportAction::OutLink(event) if event.id == id && matches!(event.event, LinkEvent::Activated)));
    match &actions[1] {
        TransportAction::Seal { link, context, payload } => {
            assert_eq!(*link, id);
            assert_eq!(*context, PacketContext::LinkRTT);
            assert_eq!(payload.as_slice(), (3 * SECOND).to_be_bytes());
        }
        other => panic!("unexpected {:?}", other),
    }
    let link = node.find_out_link(&id).unwrap();
    assert_eq!(link.status(), LinkStatus::Active);
    assert_eq!(link.rtt(), 3 * SECOND);
    assert_eq!(link.rtt_payload(), (3 * SECOND).to_be_bytes().to_vec());

    // payloads are sealed for active links only
    let orders = node.send_to_all_out_links(b"hi");
    assert_eq!(orders.len(), 1);
    assert!(matches!(&orders[0], TransportAction::Seal { link, context, payload }
        if *link == id && *context == PacketContext::Generic && payload.as_slice() == b"hi"));
    assert_eq!(node.send_to_out_links(&remote.address_hash, b"hi").len(), 1);
    assert_eq!(node.send_to_out_links(&iface(3), b"hi").len(), 0);
    assert_eq!(node.send_to_in_links(&remote.address_hash, b"hi").len(), 0);
}

#[test]
fn duplicate_proof_passes_while_the_in_link_waits() {
    let mut node = transport("n", false, false);
    let local = DestinationDesc::new(identity("a"), DestinationName::new("test", "link"));
    let mut request = create_packet(&[7u8; 64], local.address_hash);
    request.header.packet_type = PacketType::LinkRequest;
    let waiting = Link::new_from_request(&request, local, 0).unwrap();
    let id = waiting.id();
    assert_eq!(waiting.status(), LinkStatus::Pending);
    assert!(waiting.status().not_yet_active());
    node.get_handler().in_links.push(waiting);

    let proof = proof_of(id);
    assert!(node.get_handler().filter_duplicate_packets(&proof, 0));
    assert!(node.get_handler().filter_duplicate_packets(&proof, 0));
    // once the link has proved itself, the repeat is dropped
    node.get_handler().in_links[0].prove(&[1u8; 96], 0);
    assert!(!node.get_handler().filter_duplicate_packets(&proof, 0));
}

#[test]
fn links_through_this_node_are_passed_both_ways() {
    let mut node = transport("n", false, false);
    let owner = identity("far");
    let name = DestinationName::new("test", "link");
    let announce = announce_of(&owner, &name, b"", 0);
    node.handle_inbound(iface(2), &announce, &signed(), 0);

    // the request goes on towards the destination
    let mut request = create_packet(&[7u8; 64], announce.destination);
    request.header.packet_type = PacketType::LinkRequest;
    let link_id = AddressHash::new_from_hash(&request.hash());
    let sent = sends(&node.handle_inbound(iface(1), &request, &nothing(), SECOND));
    assert_eq!(sent.len(), 1);
    assert_eq!(sent[0].0, TxMessageType::Direct(iface(2)));
    assert_eq!(sent[0].1.header.hops, 1);
    assert_eq!(
        node.get_handler().link_table.original_destination(&link_id),
        Some(announce.destination)
    );

    // the proof comes back towards the asker
    let sent = sends(&node.handle_inbound(iface(2), &proof_of(link_id), &nothing(), 2 * SECOND));
    assert_eq!(sent.len(), 1);
    assert_eq!(sent[0].0, TxMessageType::Direct(iface(1)));
    assert_eq!(sent[0].1.header.hops, 1);
    assert_eq!(sent[0].1.header.packet_type, PacketType::Proof);

    // data on the link goes on towards the destination
    let mut data = create_packet(b"sealed", link_id);
    data.header.destination_type = DestinationType::Link;
    let sent = sends(&node.handle_inbound(iface(1), &data, &nothing(), 3 * SECOND));
    assert_eq!(sent.len(), 1);
    assert_eq!(sent[0].0, TxMessageType::Direct(iface(2)));
    assert_eq!(sent[0].1.header.hops, 1);
    assert_eq!(sent[0].1.data.as_slice(), b"sealed");

    // the answer to a keep-alive comes back towards the asker
    let mut answer = create_packet(&[KEEP_ALIVE_RESPONSE], link_id);
    answer.header.destination_type = DestinationType::Link;
    answer.context = PacketContext::KeepAlive;
    let sent = sends(&node.handle_inbound(iface(2), &answer, &nothing(), 4 * SECOND));
    assert_eq!(sent.len(), 1);
    assert_eq!(sent[0].0, TxMessageType::Direct(iface(1)));
    assert_eq!(sent[0].1.data.as_slice(), &[KEEP_ALIVE_RESPONSE]);

    // a request to nowhere is dropped
    let mut lost = create_packet(&[7u8; 64], iface(0x42));
    lost.header.packet_type = PacketType::LinkRequest;
    assert!(node.handle_inbound(iface(1), &lost, &nothing(), SECOND).is_empty());

    // untouched for more than three minutes, the link is forgotten
    node.get_handler().link_table.remove_stale(184 * SECOND);
    assert!(node.get_handler().link_table.original_destination(&link_id).is_some());
    node.get_handler().link_table.remove_stale(184 * SECOND + 1);
    assert!(node.get_handler().link_table.original_destination(&link_id).is_none());
}

#[test]
fn clocks_tick() {
    let mut node = transport("n", false, false);
    let schedule = Schedule::new(0);
    assert_eq!(schedule.links_check, SECOND);
    assert_eq!(schedule.short_sweep, SECOND);
    assert_eq!(schedule.keep_links, 5 * SECOND);
    assert_eq!(schedule.iface_cleanup, 10 * SECOND);
    assert_eq!(schedule.long_sweep, 90 * SECOND);
    assert_eq!(schedule.retransmit, SECOND);
    assert_eq!(schedule.earliest(), SECOND);
    assert_eq!(node.next_maintenance(), SECOND);

    let remote = DestinationDesc::new(identity("r"), DestinationName::new("test", "link"));
    let (id, _) = node.link(remote, &[7u8; 64], 0);
    assert!(node.maintain(SECOND - 1).is_empty());
    assert!(node.maintain(SECOND).is_empty());
    assert_eq!(node.next_maintenance(), 2 * SECOND);

    // a pending link asks again after six seconds
    assert!(node.maintain(6 * SECOND).iter().all(|a| !matches!(a, TransportAction::Send(_))));
    // the links are next looked at a second later
    assert!(node.maintain(6 * SECOND + 1).is_empty());
    let actions = node.maintain(7 * SECOND);
    let sent = sends(&actions);
    assert_eq!(sent.len(), 1);
    assert_eq!(sent[0].1.header.packet_type, PacketType::LinkRequest);
    assert_eq!(node.find_out_link(&id).unwrap().elapsed(7 * SECOND), 0);

    // the interfaces are cleaned up every ten seconds
    let actions = node.maintain(10 * SECOND);
    assert_eq!(
        actions.iter().filter(|a| matches!(a, TransportAction::CleanupInterfaces)).count(),
        1
    );
    assert!(node
        .maintain(11 * SECOND)
        .iter()
        .all(|a| !matches!(a, TransportAction::CleanupInterfaces)));

    // an active link sends a keep-alive every five seconds
    node.handle_inbound(iface(1), &proof_of(id), &signed(), 12 * SECOND);
    let sent = sends(&node.maintain(16 * SECOND));
    assert_eq!(sent.len(), 1);
    assert_eq!(sent[0].1.context, PacketContext::KeepAlive);
    assert_eq!(sent[0].1.data.as_slice(), &[KEEP_ALIVE_REQUEST]);
    assert_eq!(sent[0].1.destination, id);

    // after a minute its clock is set anew
    assert_eq!(node.find_out_link(&id).unwrap().elapsed(72 * SECOND), 60 * SECOND);
    node.maintain(72 * SECOND);
    assert_eq!(node.find_out_link(&id).unwrap().elapsed(72 * SECOND), 60 * SECOND);
    node.maintain(73 * SECOND);
    assert_eq!(node.find_out_link(&id).unwrap().elapsed(73 * SECOND), 0);
}

#[test]
fn silent_in_links_are_closed_and_closed_out_links_forgotten() {
    let mut node = transport("n", false, false);
    let local = node.add_destination(identity("a"), DestinationName::new("test", "link"));
    let request = request_to(&local);
    let link_id = AddressHash::new_from_hash(&request.hash());
    node.handle_inbound(iface(1), &request, &proved(&[9u8; 96]), 0);
    let remote = DestinationDesc::new(identity("r"), DestinationName::new("test", "link"));
    let (out_id, _) = node.link(remote, &[7u8; 64], 0);

    let mut actions = Vec::new();
    node.get_handler().handle_check_links(20 * SECOND, &mut actions);
    assert!(actions.iter().all(|a| !matches!(a, TransportAction::InLink(_))));
    assert!(node.find_in_link(&link_id).is_some());

    let mut actions = Vec::new();
    node.get_handler().handle_check_links(20 * SECOND + 1, &mut actions);
    let closed: Vec<&TransportAction> =
        actions.iter().filter(|a| matches!(a, TransportAction::InLink(_))).collect();
    assert_eq!(closed.len(), 1);
    assert!(matches!(closed[0], TransportAction::InLink(event)
        if event.id == link_id && matches!(event.event, LinkEvent::Closed)));
    assert!(node.find_in_link(&link_id).is_none());

    node.get_handler().out_links[0].close();
    assert!(node.find_out_link(&out_id).is_some());
    let mut actions = Vec::new();
    node.get_handler().handle_check_links(21 * SECOND, &mut actions);
    assert!(actions.is_empty());
    assert!(node.find_out_link(&out_id).is_none());
    // a closed link does not stand in the way of a new one
    let (fresh, actions) = node.link(remote, &[7u8; 64], 22 * SECOND);
    assert_eq!(fresh, out_id);
    assert_eq!(actions.len(), 1);
    assert_eq!(node.find_out_link(&out_id).unwrap().status(), LinkStatus::Pending);
}

#[test]
fn sweeps_forget_old_packets() {
    let mut node = transport("n", false, false);
    let packet = create_packet(b"foo", iface(9));
    node.handle_inbound(iface(1), &packet, &nothing(), 0);
    assert_eq!(node.get_handler().packet_cache.len(), 1);
    node.get_handler().short_sweep(4 * SECOND);
    assert_eq!(node.get_handler().packet_cache.len(), 1);
    node.get_handler().short_sweep(4 * SECOND + 1);
    assert_eq!(node.get_handler().packet_cache.len(), 0);
    node.send_packet(packet.clone(), 5 * SECOND);
    node.get_handler().long_sweep(185 * SECOND);
    assert_eq!(node.get_handler().packet_cache.len(), 1);
    // what this node sent itself is not taken in when it comes back
    assert!(node.handle_inbound(iface(1), &packet, &nothing(), 6 * SECOND).is_empty());
    node.get_handler().long_sweep(185 * SECOND + 1);
    assert_eq!(node.get_handler().packet_cache.len(), 0);
    assert_eq!(sends(&node.send_broadcast(packet.clone(), Some(iface(2)), 0))[0].0,
        TxMessageType::Broadcast(Some(iface(2))));
    assert_eq!(sends(&node.send_direct(iface(3), packet.clone(), 0))[0].0,
        TxMessageType::Direct(iface(3)));
}
