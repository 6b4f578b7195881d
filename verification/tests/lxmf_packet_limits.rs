use reticulum::packet::Packet;

#[test]
fn packet_fragmentation_respects_limit() {
    let data = vec![0u8; 4096];
    let packets = Packet::fragment_for_lxmf(&data).unwrap();
    assert!(packets
        .iter()
        .all(|p| p.data.len() <= Packet::LXMF_MAX_PAYLOAD));
}

#[test]
fn fragments_put_together_give_the_message() {
    let data: Vec<u8> = (0..2500u32).map(|i| (i % 251) as u8).collect();
    let packets = Packet::fragment_for_lxmf(&data).unwrap();
    assert_eq!(packets.len(), 3);
    assert_eq!(packets[0].data.len(), 1024);
    assert_eq!(packets[1].data.len(), 1024);
    assert_eq!(packets[2].data.len(), 452);
    let mut joined = Vec::new();
    for p in packets.iter() {
        joined.extend_from_slice(p.data.as_slice());
    }
    assert_eq!(joined, data);
}

#[test]
fn empty_message_has_no_fragments() {
    assert_eq!(Packet::fragment_for_lxmf(&[]).unwrap().len(), 0);
    assert_eq!(Packet::fragment_for_lxmf(&[7u8; 1024]).unwrap().len(), 1);
    assert_eq!(Packet::fragment_for_lxmf(&[7u8; 1025]).unwrap().len(), 2);
}
