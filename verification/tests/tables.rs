use reticulum::crypt::Evidence;
use reticulum::destination::link::{Link, LinkEvent, LinkHandleResult, LinkStatus};
use reticulum::destination::{DestinationDesc, DestinationName, Identity};
use reticulum::error::RnsError;
use reticulum::hash::AddressHash;
use reticulum::packet::{
    DestinationType, HeaderType, Packet, PacketContext, PacketDataBuffer, PacketType,
    PropagationType, PACKET_MDU,
};
use reticulum::table::Table;
use reticulum::transport::announce_table::AnnounceTable;
use reticulum::transport::link_table::LinkTable;
use reticulum::transport::path_table::PathTable;

fn address(n: u8) -> AddressHash {
    AddressHash::new_from_slice(&[n; 16])
}

fn packet(data: &[u8], destination: AddressHash, hops: u8) -> Packet {
    let mut packet = Packet::default();
    packet.data = PacketDataBuffer::new_from_slice(data);
    packet.destination = destination;
    packet.header.hops = hops;
    packet
}

#[test]
fn table_keeps_order_of_arrival() {
    let mut table: Table<u32> = Table::new();
    table.insert(address(3), 30);
    table.insert(address(1), 10);
    table.insert(address(2), 20);
    table.insert(address(1), 11);
    assert_eq!(table.len(), 3);
    assert_eq!(table.key_at(0), address(3));
    assert_eq!(table.key_at(1), address(1));
    assert_eq!(*table.value_at(1), 11);
    assert_eq!(table.get(&address(2)), Some(&20));
    assert_eq!(table.get(&address(4)), None);
    assert_eq!(table.position(&address(2)), Some(2));
    assert!(table.contains_key(&address(3)));
    assert_eq!(table.remove(&address(3)), Some(30));
    assert_eq!(table.remove(&address(3)), None);
    assert_eq!(table.key_at(0), address(1));
    let row = table.remove_at(1);
    assert_eq!((row.key, row.value), (address(2), 20));
    table.clear();
    assert_eq!(table.len(), 0);
}

#[test]
fn buffer_holds_no_more_than_a_packet() {
    let mut buffer = PacketDataBuffer::new();
    assert_eq!(buffer.write(&[1u8; 2000]), Ok(2000));
    assert_eq!(buffer.write(&[2u8; 49]), Err(RnsError::OutOfMemory));
    assert_eq!(buffer.len(), 2000);
    assert_eq!(buffer.safe_write(&[2u8; 49]), 48);
    assert_eq!(buffer.len(), PACKET_MDU);
    assert_eq!(buffer.safe_write(&[3u8; 5]), 0);
    assert_eq!(buffer.write(&[]), Ok(0));
    assert_eq!(buffer.as_slice()[1999], 1);
    assert_eq!(buffer.as_slice()[2047], 2);
    assert_eq!(PacketDataBuffer::new_from_slice(&[0u8; 5000]).len(), PACKET_MDU);
    assert_eq!(buffer.clone().as_slice(), buffer.as_slice());
}

#[test]
fn path_table_keeps_the_shortest_path_and_the_freshest_of_equals() {
    let mut table = PathTable::new();
    let destination = address(9);
    let mut far = packet(b"", destination, 4);
    far.header.header_type = HeaderType::Type2;
    far.transport = Some(address(0x70));
    table.handle_announce(&far, far.transport, address(1), 100);
    let entry = table.get(&destination).unwrap();
    assert_eq!((entry.hops, entry.iface, entry.next_hop, entry.seen), (5, address(1), address(0x70), 100));
    assert_eq!(table.next_hop_full(&destination), Some((address(0x70), address(1))));

    // longer: ignored
    table.handle_announce(&packet(b"", destination, 5), None, address(2), 200);
    assert_eq!(table.get(&destination).unwrap().iface, address(1));
    // as long and fresher: taken
    table.handle_announce(&packet(b"", destination, 4), None, address(3), 300);
    let entry = table.get(&destination).unwrap();
    assert_eq!((entry.hops, entry.iface, entry.next_hop, entry.seen), (5, address(3), destination, 300));
    // as long and older: ignored
    table.handle_announce(&packet(b"", destination, 4), None, address(4), 250);
    assert_eq!(table.get(&destination).unwrap().iface, address(3));
    // shorter: taken, old as it may be
    table.handle_announce(&packet(b"", destination, 0), None, address(5), 50);
    let entry = table.get(&destination).unwrap();
    assert_eq!((entry.hops, entry.iface), (1, address(5)));

    let inbound = packet(b"data", destination, 7);
    let (routed, iface) = table.handle_inbound_packet(&inbound, None, address(0xee));
    assert_eq!(iface, Some(address(5)));
    assert_eq!(routed.header.hops, 8);
    assert_eq!(routed.header.header_type, HeaderType::Type2);
    assert_eq!(routed.header.propagation_type, PropagationType::Transport);
    assert_eq!(routed.transport, Some(address(0xee)));
    let elsewhere = packet(b"data", address(8), 7);
    let (same, iface) = table.handle_inbound_packet(&elsewhere, None, address(0xee));
    assert_eq!(iface, None);
    assert!(same.equals(&elsewhere));
    let (routed, iface) = table.handle_inbound_packet(&elsewhere, Some(destination), address(0xee));
    assert_eq!(iface, Some(address(5)));
    assert_eq!(routed.destination, address(8));
    assert_eq!(table.next_hop_full(&address(8)), None);
}

#[test]
fn announce_table_passes_each_announce_on_once() {
    let mut table = AnnounceTable::new();
    let us = address(0xee);
    table.add(&packet(b"a", address(1), 2), address(1), address(0x10), 0);
    table.add(&packet(b"b", address(2), 127), address(2), address(0x20), 0);
    table.add(&packet(b"c", address(3), 128), address(3), address(0x30), 0);
    let mut through_us = packet(b"d", address(4), 1);
    through_us.transport = Some(us);
    table.add(&through_us, address(4), address(0x40), 0);
    table.add(&packet(b"e", address(1), 3), address(1), address(0x11), 0);
    assert_eq!(table.len(), 5);
    // the same destination from the same interface takes the place of the old entry
    table.add(&packet(b"a2", address(1), 6), address(1), address(0x10), 1);
    assert_eq!(table.len(), 5);

    let (from, passed) = table.new_packet(&address(1), &us).unwrap();
    assert_eq!(from, address(0x10));
    assert_eq!(passed.data.as_slice(), b"a2");
    assert_eq!(passed.header.hops, 7);
    assert_eq!(passed.transport, Some(us));
    assert_eq!(passed.header.header_type, HeaderType::Type2);
    assert!(table.new_packet(&address(3), &us).is_none());
    assert!(table.new_packet(&address(4), &us).is_none());
    assert!(table.new_packet(&address(9), &us).is_none());

    let due = table.to_retransmit(&us);
    let summary: Vec<(AddressHash, Vec<u8>, u8)> = due
        .iter()
        .map(|(from, p)| (*from, p.data.as_slice().to_vec(), p.header.hops))
        .collect();
    assert_eq!(
        summary,
        vec![(address(0x20), b"b".to_vec(), 128), (address(0x11), b"e".to_vec(), 4)]
    );
    assert!(table.to_retransmit(&us).is_empty());
    assert!(table.new_packet(&address(1), &us).is_none());
}

#[test]
fn link_table_leads_back_to_the_asker() {
    let mut table = LinkTable::new();
    let mut request = packet(&[7u8; 64], address(9), 0);
    request.header.packet_type = PacketType::LinkRequest;
    let id = AddressHash::new_from_hash(&request.hash());
    table.add(&request, address(9), address(1), address(0x70), address(2), 100);
    // the first record stands
    table.add(&request, address(8), address(3), address(0x71), address(4), 200);
    assert_eq!(table.original_destination(&id), Some(address(9)));
    assert_eq!(table.original_destination(&address(5)), None);

    let mut proof = packet(b"proof", id, 2);
    proof.header.packet_type = PacketType::Proof;
    assert!(table.handle_keepalive(&proof, 300).is_none());
    let (passed, iface) = table.handle_proof(&proof, 300).unwrap();
    assert_eq!(iface, address(1));
    assert_eq!(passed.header.hops, 3);
    assert_eq!(passed.data.as_slice(), b"proof");
    let data = packet(b"x", id, 0);
    assert!(table.handle_proof(&data, 300).is_none());
    assert!(table.handle_keepalive(&data, 400).is_some());
    assert!(table.handle_proof(&packet(b"x", address(5), 0), 300).is_none());

    table.remove_stale(180_000_400);
    assert!(table.original_destination(&id).is_some());
    table.remove_stale(180_000_401);
    assert!(table.original_destination(&id).is_none());
}

fn destination() -> DestinationDesc {
    let identity = Identity::new(
        reticulum::hash::Hash::of(b"public"),
        reticulum::hash::Hash::of(b"verifying"),
    );
    DestinationDesc::new(identity, DestinationName::new("test", "link"))
}

fn on_link(link: &Link, context: PacketContext, data: &[u8]) -> Packet {
    let mut packet = packet(data, link.id(), 0);
    packet.header.destination_type = DestinationType::Link;
    packet.context = context;
    packet
}

fn opened(plaintext: &[u8]) -> Evidence {
    Evidence { signature_valid: false, link_proof: None, plaintext: Some(plaintext.to_vec()) }
}

#[test]
fn link_goes_from_pending_to_active_to_closed() {
    let mut link = Link::new(destination(), &[7u8; 64], 100);
    assert_eq!(link.status(), LinkStatus::Pending);
    assert_eq!(link.rtt(), 0);
    assert_eq!(link.elapsed(150), 50);
    assert_eq!(link.elapsed(50), 0);
    assert_eq!(link.destination(), destination());
    let request = link.request(200);
    assert_eq!(link.id(), AddressHash::new_from_hash(&request.hash()));
    assert_eq!(request.header.packet_type, PacketType::LinkRequest);
    assert_eq!(request.header.destination_type, DestinationType::Single);
    assert_eq!(request.destination, destination().address_hash);
    assert_eq!(link.elapsed(200), 0);

    // data before the link is active is not read
    let data = on_link(&link, PacketContext::Generic, b"sealed");
    let handled = link.handle_packet(&data, &opened(b"clear"), 250);
    assert_eq!(handled.result, LinkHandleResult::Ignored);
    assert!(handled.event.is_none());

    let mut proof = on_link(&link, PacketContext::LinkRequestProof, &[1u8; 96]);
    proof.header.packet_type = PacketType::Proof;
    let unsigned = Evidence::none();
    assert_eq!(link.handle_packet(&proof, &unsigned, 300).result, LinkHandleResult::Ignored);
    let signed = Evidence { signature_valid: true, link_proof: None, plaintext: None };
    let mut elsewhere = proof.clone();
    elsewhere.destination = address(1);
    assert_eq!(link.handle_packet(&elsewhere, &signed, 300).result, LinkHandleResult::Ignored);
    let handled = link.handle_packet(&proof, &signed, 300);
    assert_eq!(handled.result, LinkHandleResult::Activated);
    assert!(matches!(handled.event, Some(LinkEvent::Activated)));
    assert_eq!(link.status(), LinkStatus::Active);
    assert_eq!(link.rtt(), 100);
    // a second proof does nothing
    assert_eq!(link.handle_packet(&proof, &signed, 400).result, LinkHandleResult::Ignored);
    assert_eq!(link.rtt(), 100);

    let handled = link.handle_packet(&data, &opened(b"clear"), 500);
    assert!(matches!(handled.event, Some(LinkEvent::Data(payload)) if payload == b"clear"));
    assert_eq!(link.elapsed(500), 0);
    assert!(link.handle_packet(&data, &Evidence::none(), 600).event.is_none());
    assert_eq!(link.elapsed(600), 100);

    // the peer tells its round-trip time
    let rtt = on_link(&link, PacketContext::LinkRTT, b"sealed");
    link.handle_packet(&rtt, &opened(&250_000u64.to_be_bytes()), 700);
    assert_eq!(link.rtt(), 250_000);
    link.handle_packet(&rtt, &opened(&[1, 2, 3]), 700);
    assert_eq!(link.rtt(), 250_000);

    // keep-alives: a request is to be answered, an answer is not
    let ask = on_link(&link, PacketContext::KeepAlive, &[0xFF]);
    assert_eq!(link.handle_packet(&ask, &Evidence::none(), 800).result, LinkHandleResult::KeepAlive);
    let answer = on_link(&link, PacketContext::KeepAlive, &[0xFE]);
    assert_eq!(link.handle_packet(&answer, &Evidence::none(), 900).result, LinkHandleResult::Ignored);
    assert_eq!(link.elapsed(900), 0);
    let empty = on_link(&link, PacketContext::KeepAlive, &[]);
    assert_eq!(link.handle_packet(&empty, &Evidence::none(), 950).result, LinkHandleResult::Ignored);
    assert_eq!(link.elapsed(950), 50);
    assert_eq!(link.keep_alive_packet(0xFF).data.as_slice(), &[0xFF]);

    link.restart(1_000);
    assert_eq!(link.elapsed(1_000), 0);
    assert_eq!(link.status(), LinkStatus::Active);

    let sealed = link.data_packet(b"sealed").unwrap();
    assert_eq!(sealed.destination, link.id());
    assert_eq!(sealed.context, PacketContext::Generic);
    assert_eq!(sealed.header.destination_type, DestinationType::Link);
    assert_eq!(sealed.data.as_slice(), b"sealed");
    assert_eq!(
        link.data_packet(&[0u8; PACKET_MDU + 1]).map(|_| ()),
        Err(RnsError::OutOfMemory)
    );
    assert_eq!(
        link.sealed_packet(PacketContext::LinkRTT, b"rtt").unwrap().context,
        PacketContext::LinkRTT
    );

    let mut twin = Link::new(destination(), &[7u8; 64], 100);
    let news = twin.close_with_news().unwrap();
    assert_eq!(news.id, twin.id());
    assert_eq!(news.address_hash, destination().address_hash);
    assert!(matches!(news.event, LinkEvent::Closed));
    assert!(twin.close_with_news().is_none());
    assert_eq!(twin.status(), LinkStatus::Closed);

    assert!(matches!(link.close(), Some(LinkEvent::Closed)));
    assert!(link.close().is_none());
    assert_eq!(link.status(), LinkStatus::Closed);
    // closed for good
    assert!(link.handle_packet(&data, &opened(b"clear"), 1_100).event.is_none());
    link.request(1_200);
    assert_eq!(link.status(), LinkStatus::Closed);
}
