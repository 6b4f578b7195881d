use reticulum::channel::framing::envelope_raw;
use reticulum::channel::receiver::messages_of;
use reticulum::channel::{
    emplace_envelope, get_packet_state, pop_tx_from_ring, update_packet_timeouts, Channel,
    ChannelError, ChannelReceiver, Envelope, Message, MessageState, PackedMessage,
    PacketCallbacks, TimeoutOutcome, WrappedLink,
};
use reticulum::crypt::Evidence;
use reticulum::destination::link::{Link, LinkHandleResult, LinkStatus};
use reticulum::destination::{DestinationDesc, DestinationName, Identity};
use reticulum::hash::AddressHash;
use reticulum::packet::{
    DestinationType, Packet, PacketContext, PacketDataBuffer, PacketType, PACKET_MDU,
};
use std::collections::VecDeque;

const TEXT: u16 = 0x0101;

#[derive(Clone, Debug, PartialEq)]
struct Text(Vec<u8>);

impl Message for Text {
    fn pack(&self) -> PackedMessage {
        PackedMessage::new(self.0.clone(), TEXT)
    }

    fn unpack(packed: PackedMessage) -> Result<Self, ChannelError> {
        if packed.message_type() != TEXT {
            return Err(ChannelError::InvalidMessageType);
        }
        Ok(Text(packed.payload()))
    }
}

fn text(s: &str) -> Text {
    Text(s.as_bytes().to_vec())
}

fn destination() -> DestinationDesc {
    let identity = Identity::new(
        reticulum::hash::Hash::of(b"public"),
        reticulum::hash::Hash::of(b"verifying"),
    );
    DestinationDesc::new(identity, DestinationName::new("test", "channel"))
}

fn pending_link() -> Link {
    Link::new(destination(), &[7u8; 64], 1_000)
}

fn proof_for(link: &Link) -> Packet {
    let mut proof = Packet::default();
    proof.header.packet_type = PacketType::Proof;
    proof.header.destination_type = DestinationType::Link;
    proof.destination = link.id();
    proof.context = PacketContext::LinkRequestProof;
    proof.data = PacketDataBuffer::new_from_slice(&[1u8; 96]);
    proof
}

fn good_signature() -> Evidence {
    Evidence { signature_valid: true, link_proof: None, plaintext: None }
}

fn active_link(rtt: u64) -> Link {
    let mut link = pending_link();
    let proof = proof_for(&link);
    let handled = link.handle_packet(&proof, &good_signature(), 1_000 + rtt);
    assert_eq!(handled.result, LinkHandleResult::Activated);
    assert_eq!(link.status(), LinkStatus::Active);
    assert_eq!(link.rtt(), rtt);
    link
}

fn frame(message: &str, sequence: u16) -> Vec<u8> {
    envelope_raw(message.as_bytes(), TEXT, Some(sequence))
}

#[test]
fn packed_message_holds_payload_and_type() {
    let packed = PackedMessage::new(vec![1, 2, 3], 0x0abc);
    assert_eq!(packed.message_type(), 0x0abc);
    assert_eq!(packed.payload(), vec![1, 2, 3]);
}

#[test]
fn every_packet_counts_as_sent() {
    assert_eq!(get_packet_state(&Packet::default()), MessageState::Sent);
}

#[test]
fn envelope_packs_and_unpacks() {
    let id = AddressHash::new_from_slice(&[1u8; 16]);
    let mut envelope = Envelope::new(id, Some(text("hi")), None, Some(10), 5);
    assert_eq!(envelope.get_sequence(), Err(ChannelError::Misc));
    assert_eq!(envelope.pack(), Ok(()));
    assert!(envelope.packed);
    assert_eq!(
        envelope.get_raw(),
        Ok(vec![0x01, 0x01, 0x00, 0x0a, 0x00, 0x02, b'h', b'i'])
    );
    assert_eq!(envelope.get_sequence(), Ok(10));

    let raw = envelope.get_raw().unwrap();
    let mut received: Envelope<Text> = Envelope::new(id, None, Some(raw), None, 6);
    assert_eq!(received.get_sequence(), Ok(10));
    assert_eq!(received.unpack(), Ok(()));
    assert!(received.unpacked);
    assert_eq!(received.sequence, Some(10));
    assert_eq!(received.message, Some(text("hi")));
}

#[test]
fn envelope_unpacks_its_message_on_demand() {
    let id = AddressHash::new_from_slice(&[1u8; 16]);
    let mut received: Envelope<Text> = Envelope::new(id, None, Some(frame("hi", 4)), None, 0);
    assert!(!received.unpacked);
    assert_eq!(received.get_message(), Ok(&text("hi")));
    assert!(received.unpacked);
    assert_eq!(received.sequence, Some(4));
    assert_eq!(received.get_message(), Ok(&text("hi")));

    let mut empty: Envelope<Text> = Envelope::new(id, None, None, None, 0);
    assert_eq!(empty.get_message(), Err(ChannelError::Misc));
    let mut short: Envelope<Text> = Envelope::new(id, None, Some(vec![1, 2]), None, 0);
    assert_eq!(short.get_message(), Err(ChannelError::Misc));
    let mut held = Envelope::new(id, Some(text("kept")), None, Some(1), 0);
    held.unpacked = true;
    assert_eq!(held.get_message(), Ok(&text("kept")));
}

#[test]
fn envelope_without_message_does_not_pack() {
    let id = AddressHash::new_from_slice(&[1u8; 16]);
    let mut envelope: Envelope<Text> = Envelope::new(id, None, None, Some(1), 0);
    assert_eq!(envelope.pack(), Err(ChannelError::Misc));
    assert_eq!(envelope.get_raw(), Err(ChannelError::Misc));
    assert!(!envelope.packed);
}

#[test]
fn short_or_foreign_frames_do_not_unpack() {
    let id = AddressHash::new_from_slice(&[1u8; 16]);
    let mut short: Envelope<Text> = Envelope::new(id, None, Some(vec![0, 1, 0, 2, 0]), None, 0);
    assert_eq!(short.unpack(), Err(ChannelError::Misc));
    assert!(short.message.is_none());

    let foreign = envelope_raw(b"x", 0x0202, Some(3));
    let mut other: Envelope<Text> = Envelope::new(id, None, Some(foreign), None, 0);
    assert_eq!(other.unpack(), Err(ChannelError::InvalidMessageType));
    assert!(!other.unpacked);
    assert_eq!(other.sequence, None);
}

#[test]
fn envelope_knows_its_packet() {
    let id = AddressHash::new_from_slice(&[1u8; 16]);
    let mut envelope: Envelope<Text> = Envelope::new(id, None, None, None, 0);
    let mut packet = Packet::default();
    packet.data = PacketDataBuffer::new_from_slice(b"foo");
    assert!(!envelope.is_same_packet(&packet));
    envelope.packet = Some(packet.clone());
    assert!(envelope.is_same_packet(&packet));
    packet.header.hops = 1;
    assert!(!envelope.is_same_packet(&packet));
}

#[test]
fn ring_keeps_envelopes_in_order_and_refuses_repeats() {
    let id = AddressHash::new_from_slice(&[1u8; 16]);
    let mut ring: VecDeque<Envelope<Text>> = VecDeque::new();
    for sequence in [5u16, 1, 9, 3] {
        assert!(emplace_envelope(
            &mut ring,
            Envelope::new(id, Some(text("m")), None, Some(sequence), 0)
        ));
    }
    assert!(!emplace_envelope(
        &mut ring,
        Envelope::new(id, Some(text("again")), None, Some(9), 0)
    ));
    let order: Vec<Option<u16>> = ring.iter().map(|e| e.sequence).collect();
    assert_eq!(order, vec![Some(1), Some(3), Some(5), Some(9)]);
    assert!(ring.iter().all(|e| e.in_ring));

    assert!(pop_tx_from_ring(&mut ring, 4).is_none());
    let popped = pop_tx_from_ring(&mut ring, 3).unwrap();
    assert_eq!(popped.sequence, Some(3));
    let order: Vec<Option<u16>> = ring.iter().map(|e| e.sequence).collect();
    assert_eq!(order, vec![Some(1), Some(5), Some(9)]);
}

#[test]
fn timeouts_only_move_later() {
    let id = AddressHash::new_from_slice(&[1u8; 16]);
    let mut ring: VecDeque<Envelope<Text>> = VecDeque::new();
    let mut early = Envelope::new(id, Some(text("a")), None, Some(1), 0);
    early.tries = 1;
    early.callbacks = Some(PacketCallbacks::new(10));
    let mut late = Envelope::new(id, Some(text("b")), None, Some(2), 0);
    late.tries = 1;
    late.callbacks = Some(PacketCallbacks::new(10_000_000));
    let unarmed = Envelope::new(id, Some(text("c")), None, Some(3), 0);
    emplace_envelope(&mut ring, early);
    emplace_envelope(&mut ring, late);
    emplace_envelope(&mut ring, unarmed);
    // 25 ms * (3 + 1.5) = 112.5 ms after now
    update_packet_timeouts(&mut ring, 0, 1_000);
    assert_eq!(ring[0].callbacks, Some(PacketCallbacks::new(113_500)));
    assert_eq!(ring[1].callbacks, Some(PacketCallbacks::new(10_000_000)));
    assert_eq!(ring[2].callbacks, None);

    let mut armed = PacketCallbacks::new(5);
    assert!(armed.update(6));
    assert!(!armed.update(6));
    assert!(!armed.update(2));
    assert_eq!(armed.timeout, 6);
}

#[test]
fn receiver_hands_messages_on_in_order() {
    let id = AddressHash::new_from_slice(&[1u8; 16]);
    let mut receiver: ChannelReceiver<Text> = ChannelReceiver::new(id);
    assert_eq!(receiver.receive(&frame("two", 2), 0), vec![]);
    assert_eq!(receiver.receive(&frame("one", 1), 0), vec![]);
    assert_eq!(receiver.waiting(), 2);
    assert_eq!(receiver.next_rx_sequence(), 0);
    assert_eq!(
        receiver.receive(&frame("zero", 0), 0),
        vec![text("zero"), text("one"), text("two")]
    );
    assert_eq!(receiver.waiting(), 0);
    assert_eq!(receiver.next_rx_sequence(), 3);
    assert_eq!(receiver.receive(&frame("four", 4), 0), vec![]);
    assert_eq!(receiver.receive(&frame("three", 3), 0), vec![text("three"), text("four")]);
    assert_eq!(receiver.next_rx_sequence(), 5);
}

#[test]
fn receiver_drops_repeats_and_stale_frames() {
    let id = AddressHash::new_from_slice(&[1u8; 16]);
    let mut receiver: ChannelReceiver<Text> = ChannelReceiver::new(id);
    assert_eq!(receiver.receive(&frame("zero", 0), 0), vec![text("zero")]);
    // delivered already: behind the awaited sequence and no wrap in sight
    assert_eq!(receiver.receive(&frame("zero", 0), 0), vec![]);
    assert_eq!(receiver.waiting(), 0);
    // waits already
    assert_eq!(receiver.receive(&frame("two", 2), 0), vec![]);
    assert_eq!(receiver.receive(&frame("two again", 2), 0), vec![]);
    assert_eq!(receiver.waiting(), 1);
    // malformed
    assert_eq!(receiver.receive(&[1, 2, 3], 0), vec![]);
    assert_eq!(receiver.receive(&envelope_raw(b"x", 0x0202, Some(1)), 0), vec![]);
    assert_eq!(receiver.next_rx_sequence(), 1);
    assert_eq!(receiver.receive(&frame("one", 1), 0), vec![text("one"), text("two")]);
}

#[test]
fn receiver_crosses_the_wrap() {
    let id = AddressHash::new_from_slice(&[1u8; 16]);
    let mut receiver: ChannelReceiver<Text> = ChannelReceiver::new(id);
    // bring the receiver to 0xFFFE by handing it every sequence once
    for sequence in 0..0xFFFEu16 {
        let delivered = receiver.receive(&frame("m", sequence), 0);
        assert_eq!(delivered.len(), 1);
    }
    assert_eq!(receiver.next_rx_sequence(), 0xFFFE);
    // after the wrap, within the window: kept
    assert_eq!(receiver.receive(&frame("b", 1), 0), vec![]);
    assert_eq!(receiver.receive(&frame("a", 0), 0), vec![]);
    // after the wrap, beyond the window of 48: stale
    assert_eq!(receiver.receive(&frame("far", 47), 0), vec![]);
    assert_eq!(receiver.waiting(), 2);
    assert_eq!(receiver.receive(&frame("far", 46), 0), vec![]);
    assert_eq!(receiver.waiting(), 3);
    assert_eq!(receiver.receive(&frame("z", 0xFFFF), 0), vec![]);
    assert_eq!(
        receiver.receive(&frame("y", 0xFFFE), 0),
        vec![text("y"), text("z"), text("a"), text("b")]
    );
    assert_eq!(receiver.next_rx_sequence(), 2);
    assert_eq!(receiver.waiting(), 1);
}

#[test]
fn take_in_hands_back_the_envelopes() {
    let id = AddressHash::new_from_slice(&[1u8; 16]);
    let mut receiver: ChannelReceiver<Text> = ChannelReceiver::new(id);
    let mut first: Envelope<Text> = Envelope::new(id, None, Some(frame("a", 0)), None, 0);
    first.unpack().unwrap();
    let delivered = receiver.take_in(first);
    assert_eq!(delivered.len(), 1);
    assert_eq!(delivered[0].sequence, Some(0));
    assert!(delivered[0].in_ring);
    assert_eq!(messages_of(delivered), vec![text("a")]);
}

#[test]
fn channel_send_retry() {
    let mut client: WrappedLink<Text> = WrappedLink::new(pending_link());
    let mut server: ChannelReceiver<Text> = ChannelReceiver::new(client.get_link().id());
    let message = text("hello");

    // the link is pending: the first attempt is refused
    assert_eq!(
        client.send(&message, 2_000).map(|d| d.sequence),
        Err(ChannelError::LinkNotReady)
    );
    assert_eq!(client.get_channel().in_flight_count(), 0);
    assert_eq!(client.get_channel().next_sequence(), 0);

    // the proof comes in and the link is active
    let proof = proof_for(client.get_link());
    let (handled, delivered) = client.handle_packet(&proof, &good_signature(), 51_000);
    assert_eq!(handled.result, LinkHandleResult::Activated);
    assert!(delivered.is_empty());
    assert_eq!(client.get_link().status(), LinkStatus::Active);
    assert_eq!(client.get_link().rtt(), 50_000);

    // the next attempt succeeds
    let dispatch = client.send(&message, 60_000).unwrap();
    assert_eq!(dispatch.sequence, 0);
    assert_eq!(dispatch.packet.context, PacketContext::Channel);
    assert_eq!(dispatch.packet.header.packet_type, PacketType::Data);
    assert_eq!(dispatch.packet.header.destination_type, DestinationType::Link);
    assert_eq!(dispatch.packet.destination, client.get_link().id());
    assert_eq!(dispatch.packet.data.as_slice(), frame("hello", 0).as_slice());
    // 2.5 * 50 ms * (1 + 1.5) after now
    assert_eq!(dispatch.timeout, 60_000 + 312_500);
    assert_eq!(client.get_channel().next_timeout(), Some((0, 372_500)));
    assert_eq!(client.get_channel().in_flight_count(), 1);

    // the server hears exactly one message
    assert_eq!(server.receive(dispatch.packet.data.as_slice(), 70_000), vec![message.clone()]);
    assert_eq!(server.receive(dispatch.packet.data.as_slice(), 70_000), vec![]);
}

#[test]
fn window_limits_what_is_in_flight() {
    let link = active_link(0);
    let mut channel: Channel<Text> = Channel::new(&link);
    assert_eq!(channel.mdu(), PACKET_MDU - 6);
    assert_eq!(channel.params().window, 2);
    assert!(channel.is_ready_to_send(&link));
    assert_eq!(channel.send(&text("a"), &link, 0).unwrap().sequence, 0);
    assert_eq!(channel.send(&text("b"), &link, 0).unwrap().sequence, 1);
    assert!(!channel.is_ready_to_send(&link));
    assert_eq!(
        channel.send(&text("c"), &link, 0).map(|d| d.sequence),
        Err(ChannelError::LinkNotReady)
    );
    assert_eq!(channel.next_sequence(), 2);

    // a delivery frees a place and widens the window
    let delivered = channel.packet_delivered(0, &link).unwrap();
    assert_eq!(delivered.sequence, Some(0));
    assert!(!delivered.in_ring);
    assert!(channel.packet_delivered(0, &link).is_none());
    assert_eq!(channel.params().window, 3);
    assert_eq!(channel.params().fast_rate_rounds, 1);
    assert_eq!(channel.send(&text("c"), &link, 0).unwrap().sequence, 2);
    assert_eq!(channel.send(&text("d"), &link, 0).unwrap().sequence, 3);
    assert_eq!(channel.in_flight_count(), 3);

    // another link is not this channel's
    let other = Link::new(destination(), &[8u8; 64], 0);
    assert!(!channel.is_ready_to_send(&other));
}

#[test]
fn too_big_messages_are_refused() {
    let link = active_link(0);
    let mut channel: Channel<Text> = Channel::new(&link);
    let fits = Text(vec![0u8; PACKET_MDU - 6]);
    let too_big = Text(vec![0u8; PACKET_MDU - 5]);
    assert_eq!(
        channel.send(&too_big, &link, 0).map(|d| d.sequence),
        Err(ChannelError::TooBig)
    );
    assert_eq!(channel.in_flight_count(), 0);
    // the sequence is spent all the same
    assert_eq!(channel.next_sequence(), 1);
    let dispatch = channel.send(&fits, &link, 0).unwrap();
    assert_eq!(dispatch.sequence, 1);
    assert_eq!(dispatch.packet.data.len(), PACKET_MDU);
}

#[test]
fn a_sequence_in_flight_is_not_sent_twice() {
    let link = active_link(0);
    let mut channel: Channel<Text> = Channel::new(&link);
    // sixteen fast deliveries open the window wide
    for sequence in 0..16u16 {
        channel.send(&text("m"), &link, 0).unwrap();
        channel.packet_delivered(sequence, &link).unwrap();
    }
    assert_eq!(channel.params().window_max, 48);
    // one envelope stays in flight while the sequence goes all the way round
    let stuck = channel.send(&text("stuck"), &link, 0).unwrap().sequence;
    assert_eq!(stuck, 16);
    for _ in 0..0xFFFFu32 {
        let sequence = channel.send(&text("m"), &link, 0).unwrap().sequence;
        channel.packet_delivered(sequence, &link).unwrap();
    }
    assert_eq!(channel.next_sequence(), 16);
    assert_eq!(
        channel.send(&text("again"), &link, 0).map(|d| d.sequence),
        Err(ChannelError::AlreadySent)
    );
    assert_eq!(channel.next_sequence(), 17);
    assert_eq!(channel.in_flight_count(), 1);
}

#[test]
fn link_timeout_tear_down() {
    let mut wrapped: WrappedLink<Text> = WrappedLink::new(active_link(0));
    let first = wrapped.send(&text("hello"), 0).unwrap();
    let mut transmissions = 1;
    let mut now = first.timeout;
    loop {
        match wrapped.packet_timed_out(0, now) {
            TimeoutOutcome::Resend(packet) => {
                assert!(packet.equals(&first.packet));
                transmissions += 1;
                let (sequence, timeout) = wrapped.get_channel().next_timeout().unwrap();
                assert_eq!(sequence, 0);
                assert!(timeout > now);
                now = timeout;
            }
            TimeoutOutcome::TornDown(news) => {
                let news = news.expect("the closing is news");
                assert_eq!(news.id, first.packet.destination);
                assert_eq!(news.address_hash, destination().address_hash);
                assert!(matches!(news.event, reticulum::destination::link::LinkEvent::Closed));
                break;
            }
            TimeoutOutcome::Gone => panic!("the envelope is in flight"),
        }
    }
    // the first transmission and one for each of the five tries after it
    assert_eq!(transmissions, 6);
    assert_eq!(wrapped.get_link().status(), LinkStatus::Closed);
    assert_eq!(wrapped.get_channel().in_flight_count(), 0);
    assert_eq!(wrapped.get_receiver().waiting(), 0);
    assert!(wrapped.get_channel().next_timeout().is_none());
    // nothing is left to time out, and nothing can be sent
    assert!(matches!(wrapped.packet_timed_out(0, now), TimeoutOutcome::Gone));
    assert_eq!(
        wrapped.send(&text("more"), now).map(|d| d.sequence),
        Err(ChannelError::LinkNotReady)
    );
}

#[test]
fn timeouts_grow_and_narrow_the_window() {
    let link = active_link(100_000);
    let mut link = link;
    let mut channel: Channel<Text> = Channel::new(&link);
    let mut receiver = channel.receiver();
    channel.send(&text("a"), &link, 0).unwrap();
    channel.packet_delivered(0, &link).unwrap();
    assert_eq!(channel.params().window, 3);
    let dispatch = channel.send(&text("b"), &link, 0).unwrap();
    // 2.5 * 100 ms * (1 + 1.5)
    assert_eq!(dispatch.timeout, 625_000);
    match channel.packet_timed_out(&mut receiver, 1, &mut link, 625_000) {
        TimeoutOutcome::Resend(packet) => assert!(packet.equals(&dispatch.packet)),
        _ => panic!("one more try is due"),
    }
    assert_eq!(channel.params().window, 2);
    assert_eq!(channel.params().window_max, 5);
    // 1.5 * 2.5 * 100 ms * (1 + 1.5) after now
    assert_eq!(channel.next_timeout(), Some((1, 625_000 + 937_500)));
    assert!(matches!(
        channel.packet_timed_out(&mut receiver, 7, &mut link, 0),
        TimeoutOutcome::Gone
    ));
    assert_eq!(link.status(), LinkStatus::Active);
}

#[test]
fn slow_links_get_the_slow_window() {
    let link = active_link(1_450_001);
    let channel: Channel<Text> = Channel::new(&link);
    assert_eq!(channel.params(), reticulum::channel::ChannelParams::new(true));
    let link = active_link(1_450_000);
    let channel: Channel<Text> = Channel::new(&link);
    assert_eq!(channel.params(), reticulum::channel::ChannelParams::new(false));
}
