//! The sending side of a channel: numbering, the window, retransmission
//! and giving up.

use crate::channel::ascending;
use crate::channel::emplace_envelope;
use crate::channel::framing::spec_envelope;
use crate::channel::framing::MessageType;
use crate::channel::framing::ENVELOPE_HEADER_SIZE;
use crate::channel::holds_sequence;
use crate::channel::packs_to;
use crate::channel::pop_tx_from_ring;
use crate::channel::receiver::wrap;
use crate::channel::receiver::ChannelReceiver;
use crate::channel::slot_for;
use crate::channel::spec_deadline;
use crate::channel::update_packet_timeouts;
use crate::channel::window::adjust_params;
use crate::channel::window::packet_timeout_time;
use crate::channel::window::ChannelParams;
use crate::channel::window::MAX_TRIES;
use crate::channel::window::RTT_SLOW;
use crate::channel::ChannelError;
use crate::channel::Envelope;
use crate::channel::Message;
use crate::channel::PackedMessage;
use crate::channel::PacketCallbacks;
use crate::destination::link::link_packet;
use crate::destination::link::Link;
use crate::destination::link::LinkEventData;
use crate::destination::link::LinkEventView;
use crate::destination::link::LinkId;
use crate::destination::link::LinkStatus;
use crate::destination::link::LinkView;
use crate::packet::Packet;
use crate::packet::PacketContext;
use crate::packet::PacketType;
use crate::packet::PACKET_MDU;
use std::collections::VecDeque;
use vstd::prelude::*;

verus! {

/// Whether an envelope is one that a sender keeps in its ring for the link
/// `outlet`: numbered, framed, sent in a packet, armed, and tried at least
/// once and at most one time more than [`MAX_TRIES`].
pub open spec fn in_flight<M: Message>(envelope: Envelope<M>, outlet: LinkId) -> bool {
    &&& envelope.sequence.is_some()
    &&& envelope.raw.is_some()
    &&& envelope.packet.is_some()
    &&& envelope.callbacks.is_some()
    &&& 1 <= envelope.tries <= MAX_TRIES + 1
    &&& envelope.outlet_id == outlet
    &&& envelope.in_ring
    &&& envelope.packed
}

/// Whether every envelope of the ring is in flight on `outlet`.
pub open spec fn all_in_flight<M: Message>(ring: Seq<Envelope<M>>, outlet: LinkId) -> bool {
    forall|i: int| 0 <= i < ring.len() ==> in_flight(#[trigger] ring[i], outlet)
}

/// How many envelopes of the ring travel on `outlet`.
pub open spec fn outstanding<M: Message>(ring: Seq<Envelope<M>>, outlet: LinkId) -> nat
    decreases ring.len(),
{
    if ring.len() == 0 {
        0
    } else {
        outstanding(ring.drop_last(), outlet) + if ring.last().outlet_id == outlet {
            1nat
        } else {
            0nat
        }
    }
}

/// Whether `after` is `before` with every armed timeout moved to what a
/// ring of this length asks for at time `now`.
pub open spec fn rearmed_ring<M: Message>(
    before: Seq<Envelope<M>>,
    after: Seq<Envelope<M>>,
    rtt: u64,
    now: u64,
) -> bool {
    &&& after.len() == before.len()
    &&& forall|i: int|
        0 <= i < before.len() ==> #[trigger] after[i] == before[i].rearmed(
            spec_deadline(now, rtt, before.len() as usize, before[i].tries),
        )
}

/// Moving timeouts changes neither the order of a ring nor whether its
/// envelopes are in flight.
pub proof fn lemma_rearmed_ring<M: Message>(
    before: Seq<Envelope<M>>,
    after: Seq<Envelope<M>>,
    rtt: u64,
    now: u64,
    outlet: LinkId,
)
    requires
        rearmed_ring(before, after, rtt, now),
    ensures
        ascending(before) ==> ascending(after),
        all_in_flight(before, outlet) ==> all_in_flight(after, outlet),
        forall|s: int| holds_sequence(after, s) == holds_sequence(before, s),
        outstanding(after, outlet) == outstanding(before, outlet),
    decreases before.len(),
{
    if ascending(before) {
        assert forall|i: int, j: int| 0 <= i < j < after.len() implies after[i].rank()
            < after[j].rank() by {
            assert(after[i].rank() == before[i].rank());
            assert(after[j].rank() == before[j].rank());
        }
    }
    if all_in_flight(before, outlet) {
        assert forall|i: int| 0 <= i < after.len() implies in_flight(#[trigger] after[i], outlet) by {
            assert(in_flight(before[i], outlet));
        }
    }
    assert forall|s: int| holds_sequence(after, s) == holds_sequence(before, s) by {
        if holds_sequence(after, s) {
            let i = choose|i: int| 0 <= i < after.len() && #[trigger] after[i].rank() == s + 1;
            assert(before[i].rank() == s + 1);
        }
        if holds_sequence(before, s) {
            let i = choose|i: int| 0 <= i < before.len() && #[trigger] before[i].rank() == s + 1;
            assert(after[i].rank() == s + 1);
        }
    }
    lemma_outstanding_same(before, after, outlet);
}

proof fn lemma_outstanding_same<M: Message>(
    before: Seq<Envelope<M>>,
    after: Seq<Envelope<M>>,
    outlet: LinkId,
)
    requires
        after.len() == before.len(),
        forall|i: int| 0 <= i < before.len() ==> (#[trigger] after[i]).outlet_id == before[i].outlet_id,
    ensures
        outstanding(after, outlet) == outstanding(before, outlet),
    decreases before.len(),
{
    if before.len() > 0 {
        assert forall|i: int| 0 <= i < before.drop_last().len() implies (
        #[trigger] after.drop_last()[i]).outlet_id == before.drop_last()[i].outlet_id by {
            assert(after.drop_last()[i] == after[i]);
        }
        lemma_outstanding_same(before.drop_last(), after.drop_last(), outlet);
        assert(after.last() == after[after.len() - 1]);
    }
}

/// In a ring whose envelopes all travel on one link, all of them are
/// outstanding on it.
pub proof fn lemma_outstanding_all<M: Message>(ring: Seq<Envelope<M>>, outlet: LinkId)
    requires
        all_in_flight(ring, outlet),
    ensures
        outstanding(ring, outlet) == ring.len(),
    decreases ring.len(),
{
    if ring.len() > 0 {
        assert forall|i: int| 0 <= i < ring.drop_last().len() implies in_flight(
            #[trigger] ring.drop_last()[i],
            outlet,
        ) by {
            assert(ring.drop_last()[i] == ring[i]);
        }
        lemma_outstanding_all(ring.drop_last(), outlet);
        assert(in_flight(ring[ring.len() - 1], outlet));
    }
}

/// Whether `envelope` is what a sender keeps of a message it has just
/// transmitted for the first time.
pub open spec fn is_sent<M: Message>(
    envelope: Envelope<M>,
    message: M,
    frame: Seq<u8>,
    sequence: u16,
    outlet: LinkId,
    now: u64,
    timeout: u64,
) -> bool {
    &&& envelope.timestamp == now
    &&& envelope.message == Some(message)
    &&& envelope.raw.is_some() && envelope.raw.unwrap()@ == frame
    &&& envelope.packet.is_some() && envelope.packet.unwrap()@ == link_packet(
        outlet,
        PacketType::Data,
        PacketContext::Channel,
        frame,
    )
    &&& envelope.sequence == Some(sequence)
    &&& envelope.outlet_id == outlet
    &&& envelope.tries == 1
    &&& !envelope.unpacked
    &&& envelope.packed
    &&& envelope.in_ring
    &&& envelope.sent
    &&& envelope.callbacks == Some(PacketCallbacks { timeout })
}

/// What taking `message`, packed as `packed`, for sending at time `now`
/// over a ready link leads to, from the ring `before` and the sequence
/// `sequence`.
///
/// A frame longer than a packet is refused as `TooBig`, a sequence that is
/// still in flight as `AlreadySent`; the ring stays as it is. Otherwise the
/// envelope goes into the ring at its place, every timeout in the ring is
/// moved to what the longer ring asks for, and the packet to transmit is
/// the data packet of the link that carries the frame in the channel
/// context.
pub open spec fn send_outcome<M: Message>(
    before: Seq<Envelope<M>>,
    after: Seq<Envelope<M>>,
    result: Result<Dispatch, ChannelError>,
    message: M,
    packed: (Seq<u8>, MessageType),
    sequence: u16,
    outlet: LinkView,
    now: u64,
) -> bool {
    let frame = spec_envelope(packed.0, packed.1, Some(sequence));
    let timeout = spec_deadline(now, outlet.rtt, (before.len() + 1) as usize, 1);
    if frame.len() > PACKET_MDU {
        result == Err::<Dispatch, ChannelError>(ChannelError::TooBig) && after == before
    } else if holds_sequence(before, sequence as int) {
        result == Err::<Dispatch, ChannelError>(ChannelError::AlreadySent) && after == before
    } else {
        &&& result.is_ok()
        &&& result.unwrap().sequence == sequence
        &&& result.unwrap().timeout == timeout
        &&& result.unwrap().packet@ == link_packet(
            outlet.id,
            PacketType::Data,
            PacketContext::Channel,
            frame,
        )
        &&& exists|k: int| #[trigger]
            slot_for(before, sequence + 1, k) && after.len() == before.len() + 1 && is_sent(
                after[k],
                message,
                frame,
                sequence,
                outlet.id,
                now,
                timeout,
            ) && rearmed_ring(before.insert(k, after[k]), after, outlet.rtt, now)
    }
}

/// A message whose frame fits a packet is sent whenever its sequence is
/// free: the answer is the dispatch under that sequence, with the data
/// packet of the link that carries the frame in the channel context, and
/// the ring holds one envelope more, which carries that sequence and has
/// been tried once.
pub proof fn lemma_send_succeeds<M: Message>(
    before: Seq<Envelope<M>>,
    after: Seq<Envelope<M>>,
    result: Result<Dispatch, ChannelError>,
    message: M,
    packed: (Seq<u8>, MessageType),
    sequence: u16,
    outlet: LinkView,
    now: u64,
)
    requires
        send_outcome(before, after, result, message, packed, sequence, outlet, now),
        packed.0.len() + ENVELOPE_HEADER_SIZE <= PACKET_MDU,
        !holds_sequence(before, sequence as int),
    ensures
        result.is_ok(),
        result.unwrap().sequence == sequence,
        result.unwrap().packet@ == link_packet(
            outlet.id,
            PacketType::Data,
            PacketContext::Channel,
            spec_envelope(packed.0, packed.1, Some(sequence)),
        ),
        after.len() == before.len() + 1,
        exists|k: int|
            0 <= k < after.len() && (#[trigger] after[k]).sequence == Some(sequence) && after[k].tries
                == 1 && after[k].message == Some(message),
{
    let frame = spec_envelope(packed.0, packed.1, Some(sequence));
    let timeout = spec_deadline(now, outlet.rtt, (before.len() + 1) as usize, 1);
    let k = choose|k: int| #[trigger]
        slot_for(before, sequence + 1, k) && after.len() == before.len() + 1 && is_sent(
            after[k],
            message,
            frame,
            sequence,
            outlet.id,
            now,
            timeout,
        ) && rearmed_ring(before.insert(k, after[k]), after, outlet.rtt, now);
    assert(after[k].sequence == Some(sequence));
}

/// What a timeout for `sequence` leads to, from the ring `before`.
///
/// Nothing, if no envelope of that sequence is in flight. The end of the
/// channel, if the envelope has been tried more than [`MAX_TRIES`] times:
/// the ring is emptied. Otherwise one more try: the stored packet is to be
/// transmitted again and every timeout in the ring is moved.
pub open spec fn timeout_outcome<M: Message>(
    before: Seq<Envelope<M>>,
    after: Seq<Envelope<M>>,
    outcome: TimeoutOutcome,
    sequence: u16,
    rtt: u64,
    now: u64,
) -> bool {
    if !holds_sequence(before, sequence as int) {
        outcome is Gone && after == before
    } else {
        exists|i: int|
            0 <= i < before.len() && (#[trigger] before[i]).sequence == Some(sequence) && if before[i].tries
                > MAX_TRIES {
                outcome is TornDown && after == Seq::<Envelope<M>>::empty()
            } else {
                &&& outcome matches TimeoutOutcome::Resend(packet)
                &&& before[i].packet.is_some()
                &&& packet@ == before[i].packet.unwrap()@
                &&& rearmed_ring(
                    before.update(
                        i,
                        Envelope { tries: (before[i].tries + 1) as u64, ..before[i] },
                    ),
                    after,
                    rtt,
                    now,
                )
            }
    }
}

/// Every envelope in flight has been transmitted at least once and at most
/// one time more than [`MAX_TRIES`], and a timeout on an envelope that has
/// been transmitted more than [`MAX_TRIES`] times ends the channel: no
/// envelope is ever transmitted more than `MAX_TRIES + 1` times.
pub proof fn lemma_retry_bound<M: Message>(
    channel: Channel<M>,
    after: Seq<Envelope<M>>,
    outcome: TimeoutOutcome,
    sequence: u16,
    rtt: u64,
    now: u64,
)
    requires
        channel.wf(),
        timeout_outcome(channel.ring(), after, outcome, sequence, rtt, now),
    ensures
        forall|i: int|
            0 <= i < channel.ring().len() ==> 1 <= (#[trigger] channel.ring()[i]).tries
                <= MAX_TRIES + 1,
        forall|i: int|
            0 <= i < after.len() ==> 1 <= (#[trigger] after[i]).tries <= MAX_TRIES + 1,
        forall|i: int|
            0 <= i < channel.ring().len() && (#[trigger] channel.ring()[i]).sequence == Some(
                sequence,
            ) && channel.ring()[i].tries == MAX_TRIES + 1 ==> outcome is TornDown,
{
    assert forall|i: int| 0 <= i < channel.ring().len() implies 1 <= (
    #[trigger] channel.ring()[i]).tries <= MAX_TRIES + 1 by {
        assert(in_flight(channel.ring()[i], channel.outlet()));
    }
    if holds_sequence(channel.ring(), sequence as int) {
        let k = choose|k: int|
            0 <= k < channel.ring().len() && (#[trigger] channel.ring()[k]).sequence == Some(
                sequence,
            ) && if channel.ring()[k].tries > MAX_TRIES {
                outcome is TornDown && after == Seq::<Envelope<M>>::empty()
            } else {
                &&& outcome matches TimeoutOutcome::Resend(packet)
                &&& channel.ring()[k].packet.is_some()
                &&& packet@ == channel.ring()[k].packet.unwrap()@
                &&& rearmed_ring(
                    channel.ring().update(
                        k,
                        Envelope {
                            tries: (channel.ring()[k].tries + 1) as u64,
                            ..channel.ring()[k]
                        },
                    ),
                    after,
                    rtt,
                    now,
                )
            };
        assert forall|i: int|
            0 <= i < channel.ring().len() && (#[trigger] channel.ring()[i]).sequence == Some(
                sequence,
            ) implies i == k by {
            if i != k {
                assert(channel.ring()[i].rank() == channel.ring()[k].rank());
            }
        }
        if channel.ring()[k].tries <= MAX_TRIES {
            let bumped = channel.ring().update(
                k,
                Envelope { tries: (channel.ring()[k].tries + 1) as u64, ..channel.ring()[k] },
            );
            assert forall|i: int| 0 <= i < after.len() implies 1 <= (#[trigger] after[i]).tries
                <= MAX_TRIES + 1 by {
                assert(after[i].tries == bumped[i].tries);
                assert(in_flight(channel.ring()[i], channel.outlet()));
            }
        }
    } else {
        assert(after == channel.ring());
    }
}

/// What to transmit after a message has been taken for sending.
#[derive(Debug)]
pub struct Dispatch {
    /// The sequence the message travels under.
    pub sequence: u16,
    /// The packet to hand to the transport. Its payload is the frame in the
    /// clear: whoever transmits it seals it for the link.
    pub packet: Packet,
    /// When to ask [`Channel::packet_timed_out`] about this sequence,
    /// unless the delivery comes first or a later time is set.
    pub timeout: u64,
}

/// What a timeout led to.
#[derive(Debug)]
pub enum TimeoutOutcome {
    /// The envelope is not in flight any more: nothing to do.
    Gone,
    /// Transmit this packet once more.
    Resend(Packet),
    /// The envelope has been tried too often: both rings are empty and the
    /// link is closed. With it comes the news of the closing for the
    /// subscribers of the link, unless the link was closed already.
    TornDown(Option<LinkEventData>),
}

/// The sending end of a channel.
#[derive(Debug)]
pub struct Channel<M: Message> {
    outlet_id: LinkId,
    tx_ring: VecDeque<Envelope<M>>,
    next_sequence: u16,
    params: ChannelParams,
}

impl<M: Message> Channel<M> {
    /// The envelopes in flight, in ascending order of sequence.
    pub closed spec fn ring(&self) -> Seq<Envelope<M>> {
        self.tx_ring@
    }

    /// The sequence that the next message gets.
    pub closed spec fn next(&self) -> u16 {
        self.next_sequence
    }

    /// The window and its limits.
    pub closed spec fn window(&self) -> ChannelParams {
        self.params
    }

    /// The link that the channel was made for.
    pub closed spec fn outlet(&self) -> LinkId {
        self.outlet_id
    }

    /// The ring is in ascending order, every envelope in it is in flight
    /// on the channel's link, and the window is capped.
    pub open spec fn wf(&self) -> bool {
        &&& ascending(self.ring())
        &&& all_in_flight(self.ring(), self.outlet())
        &&& self.window().max_tries == MAX_TRIES
        &&& self.window().capped()
    }

    /// Whether a message can be taken for sending over `outlet`: it is the
    /// channel's link, it is active, and fewer envelopes are outstanding on
    /// it than the window allows.
    pub open spec fn ready(&self, outlet: LinkView) -> bool {
        outlet.id == self.outlet() && outlet.status == LinkStatus::Active && outstanding(
            self.ring(),
            outlet.id,
        ) < self.window().window
    }

    /// A channel over `outlet`, with nothing in flight. A link whose
    /// round-trip time is above [`RTT_SLOW`] gets the slow window.
    pub fn new(outlet: &Link) -> (channel: Channel<M>)
        ensures
            channel.wf(),
            channel.ring() == Seq::<Envelope<M>>::empty(),
            channel.next() == 0,
            channel.outlet() == outlet@.id,
            channel.window() == ChannelParams::spec_new(outlet@.rtt > RTT_SLOW),
    {
        let slow = outlet.rtt() > RTT_SLOW;
        Channel {
            outlet_id: outlet.id(),
            tx_ring: VecDeque::new(),
            next_sequence: 0,
            params: ChannelParams::new(slow),
        }
    }

    /// A receiver for the far end's messages on the same link.
    pub fn receiver(&self) -> (receiver: ChannelReceiver<M>)
        ensures
            receiver.wf(),
            receiver.ring() == Seq::<Envelope<M>>::empty(),
            receiver.next() == 0,
            receiver.link() == self.outlet(),
    {
        ChannelReceiver::new(self.outlet_id)
    }

    /// The largest payload a message may pack to.
    pub fn mdu(&self) -> (mdu: usize)
        ensures
            mdu == PACKET_MDU - ENVELOPE_HEADER_SIZE,
    {
        PACKET_MDU - 6
    }

    /// The window and its limits.
    pub fn params(&self) -> (params: ChannelParams)
        ensures
            params == self.window(),
    {
        self.params
    }

    /// The sequence that the next message gets.
    pub fn next_sequence(&self) -> (next: u16)
        ensures
            next == self.next(),
    {
        self.next_sequence
    }

    /// How many envelopes are in flight.
    pub fn in_flight_count(&self) -> (count: usize)
        ensures
            count == self.ring().len(),
    {
        self.tx_ring.len()
    }

    /// Whether a message can be taken for sending over `outlet`.
    pub fn is_ready_to_send(&self, outlet: &Link) -> (ready: bool)
        ensures
            ready == self.ready(outlet@),
    {
        if outlet.id() != self.outlet_id || outlet.status() != LinkStatus::Active {
            return false;
        }
        let our_id = outlet.id();
        let mut count: usize = 0;
        let mut i: usize = 0;
        while i < self.tx_ring.len()
            invariant
                i <= self.tx_ring@.len(),
                count <= i,
                count == outstanding(self.tx_ring@.take(i as int), our_id),
            decreases self.tx_ring@.len() - i,
        {
            proof {
                assert(self.tx_ring@.take(i + 1).drop_last() =~= self.tx_ring@.take(i as int));
            }
            if self.tx_ring[i].outlet_id == our_id {
                count += 1;
            }
            i += 1;
        }
        assert(self.tx_ring@.take(i as int) =~= self.tx_ring@);
        count < self.params.window as usize
    }

    /// The earliest timeout among the envelopes in flight, with the
    /// sequence it belongs to; the first such in ring order.
    pub fn next_timeout(&self) -> (earliest: Option<(u16, u64)>)
        requires
            self.wf(),
        ensures
            earliest.is_none() == (self.ring().len() == 0),
            earliest matches Some((sequence, timeout)) ==> {
                &&& exists|i: int|
                    0 <= i < self.ring().len() && (#[trigger] self.ring()[i]).sequence == Some(
                        sequence,
                    ) && self.ring()[i].callbacks == Some(PacketCallbacks { timeout })
                &&& forall|j: int|
                    0 <= j < self.ring().len() ==> (
                    #[trigger] self.ring()[j]).callbacks.unwrap().timeout >= timeout
            },
    {
        let mut earliest: Option<(u16, u64)> = None;
        let mut i: usize = 0;
        while i < self.tx_ring.len()
            invariant
                i <= self.tx_ring@.len(),
                all_in_flight(self.tx_ring@, self.outlet_id),
                earliest.is_none() == (i == 0),
                earliest matches Some((sequence, timeout)) ==> {
                    &&& exists|k: int|
                        0 <= k < i && (#[trigger] self.tx_ring@[k]).sequence == Some(sequence)
                            && self.tx_ring@[k].callbacks == Some(PacketCallbacks { timeout })
                    &&& forall|j: int|
                        0 <= j < i ==> (#[trigger] self.tx_ring@[j]).callbacks.unwrap().timeout
                            >= timeout
                },
            decreases self.tx_ring@.len() - i,
        {
            let envelope = &self.tx_ring[i];
            assert(in_flight(self.tx_ring@[i as int], self.outlet_id));
            match (envelope.sequence, envelope.callbacks) {
                (Some(sequence), Some(armed)) => {
                    let sooner = match earliest {
                        Some((_, timeout)) => armed.timeout < timeout,
                        None => true,
                    };
                    if sooner {
                        earliest = Some((sequence, armed.timeout));
                    }
                },
                _ => {},
            }
            i += 1;
        }
        earliest
    }
    /// Where in the ring the envelope of sequence `sequence` sits.
    fn position(&self, sequence: u16) -> (found: Option<usize>)
        requires
            all_in_flight(self.ring(), self.outlet()),
        ensures
            found.is_some() == holds_sequence(self.ring(), sequence as int),
            found matches Some(i) ==> i < self.ring().len() && self.ring()[i as int].sequence
                == Some(sequence),
    {
        let mut i: usize = 0;
        while i < self.tx_ring.len()
            invariant
                i <= self.tx_ring@.len(),
                forall|j: int| 0 <= j < i ==> (#[trigger] self.tx_ring@[j]).rank() != sequence + 1,
            decreases self.tx_ring@.len() - i,
        {
            match self.tx_ring[i].sequence {
                Some(s) => {
                    if s == sequence {
                        assert(self.tx_ring@[i as int].rank() == sequence + 1);
                        return Some(i);
                    }
                },
                None => {},
            }
            i += 1;
        }
        None
    }

    /// Takes a message, already packed, for sending over `outlet` at time
    /// `now`.
    ///
    /// Unless the link is ready nothing happens and the answer is
    /// `LinkNotReady`. Else the message gets the next sequence, and
    /// [`send_outcome`] says what becomes of it.
    pub fn send_packed(&mut self, message: M, packed: PackedMessage, outlet: &Link, now: u64) -> (result:
        Result<Dispatch, ChannelError>)
        requires
            old(self).wf(),
        ensures
            final(self).wf(),
            final(self).outlet() == old(self).outlet(),
            final(self).window() == old(self).window(),
            !old(self).ready(outlet@) ==> result == Err::<Dispatch, ChannelError>(
                ChannelError::LinkNotReady,
            ) && final(self).ring() == old(self).ring() && final(self).next() == old(self).next(),
            old(self).ready(outlet@) ==> final(self).next() == wrap(old(self).next() + 1)
                && send_outcome(
                old(self).ring(),
                final(self).ring(),
                result,
                message,
                packed@,
                old(self).next(),
                outlet@,
                now,
            ),
    {
        if !self.is_ready_to_send(outlet) {
            return Err(ChannelError::LinkNotReady);
        }
        proof {
            lemma_outstanding_all(self.ring(), self.outlet());
        }
        let ghost ring0 = self.tx_ring@;
        let sequence = self.next_sequence;
        self.next_sequence = if sequence == 0xFFFF {
            0
        } else {
            sequence + 1
        };
        let mut envelope: Envelope<M> = Envelope::new(
            outlet.id(),
            Some(message),
            None,
            Some(sequence),
            now,
        );
        envelope.frame(packed);
        let packet = match &envelope.raw {
            Some(raw) => {
                if raw.len() > PACKET_MDU {
                    return Err(ChannelError::TooBig);
                }
                match outlet.sealed_packet(PacketContext::Channel, raw.as_slice()) {
                    Ok(packet) => packet,
                    Err(_) => {
                        return Err(ChannelError::TooBig);
                    },
                }
            },
            None => {
                return Err(ChannelError::Misc);
            },
        };
        let rtt = outlet.rtt();
        let ring_len = self.tx_ring.len() + 1;
        let timeout = now.saturating_add(packet_timeout_time(rtt, ring_len, 1));
        envelope.tries = 1;
        envelope.packet = Some(packet.clone());
        envelope.sent = true;
        envelope.callbacks = Some(PacketCallbacks::new(timeout));
        let ghost fresh = envelope.ring_copy();
        if !emplace_envelope(&mut self.tx_ring, envelope) {
            return Err(ChannelError::AlreadySent);
        }
        let ghost ring1 = self.tx_ring@;
        update_packet_timeouts(&mut self.tx_ring, rtt, now);
        proof {
            let k = choose|k: int| #[trigger]
                slot_for(ring0, sequence + 1, k) && ring1 == ring0.insert(k, fresh);
            assert(ring1[k] == fresh);
            assert(in_flight(fresh, self.outlet()));
            assert forall|i: int| 0 <= i < ring1.len() implies in_flight(
                #[trigger] ring1[i],
                self.outlet(),
            ) by {
                if i < k {
                    assert(ring1[i] == ring0[i]);
                } else if i > k {
                    assert(ring1[i] == ring0[i - 1]);
                }
            }
            lemma_rearmed_ring(ring1, self.tx_ring@, rtt, now, self.outlet());
            assert(self.tx_ring@[k] == fresh);
            assert(ring0.insert(k, self.tx_ring@[k]) == ring1);
        }
        Ok(Dispatch { sequence, packet, timeout })
    }

    /// Takes a message for sending over `outlet` at time `now`.
    ///
    /// Unless the link is ready nothing happens and the answer is
    /// `LinkNotReady`. Else the message is copied, the copy is packed with
    /// [`Message::pack`], it gets the next sequence, and [`send_outcome`]
    /// says what becomes of it, given what copying and packing answered.
    pub fn send(&mut self, message: &M, outlet: &Link, now: u64) -> (result: Result<
        Dispatch,
        ChannelError,
    >)
        requires
            old(self).wf(),
        ensures
            final(self).wf(),
            final(self).outlet() == old(self).outlet(),
            final(self).window() == old(self).window(),
            !old(self).ready(outlet@) ==> result == Err::<Dispatch, ChannelError>(
                ChannelError::LinkNotReady,
            ) && final(self).ring() == old(self).ring() && final(self).next() == old(self).next(),
            old(self).ready(outlet@) ==> final(self).next() == wrap(old(self).next() + 1)
                && exists|copy: M, packed: (Seq<u8>, MessageType)|
                cloned::<M>(*message, copy) && packs_to(copy, packed) && send_outcome(
                    old(self).ring(),
                    final(self).ring(),
                    result,
                    copy,
                    packed,
                    old(self).next(),
                    outlet@,
                    now,
                ),
    {
        if !self.is_ready_to_send(outlet) {
            return Err(ChannelError::LinkNotReady);
        }
        let copy = message.clone();
        let packed = copy.pack();
        let ghost parts = packed@;
        proof {
            assert(call_ensures(M::pack, (&copy,), packed));
            assert(packs_to(copy, parts));
        }
        let result = self.send_packed(copy, packed, outlet, now);
        assert(send_outcome(
            old(self).ring(),
            self.ring(),
            result,
            copy,
            parts,
            old(self).next(),
            outlet@,
            now,
        ));
        result
    }

    /// Takes note that the envelope of sequence `sequence` has reached the
    /// peer: it leaves the ring, and the window is adjusted to the
    /// round-trip time of `outlet`. Nothing happens where no such envelope
    /// is in flight.
    pub fn packet_delivered(&mut self, sequence: u16, outlet: &Link) -> (delivered: Option<
        Envelope<M>,
    >)
        requires
            old(self).wf(),
        ensures
            final(self).wf(),
            final(self).outlet() == old(self).outlet(),
            final(self).next() == old(self).next(),
            delivered.is_some() == holds_sequence(old(self).ring(), sequence as int),
            delivered.is_none() ==> final(self).ring() == old(self).ring() && final(self).window()
                == old(self).window(),
            delivered matches Some(envelope) ==> final(self).window() == old(self).window().after_delivery(outlet@.rtt) && exists|i: int|
                0 <= i < old(self).ring().len() && (#[trigger] old(self).ring()[i]).sequence
                    == Some(sequence) && envelope == (Envelope {
                    in_ring: false,
                    ..old(self).ring()[i]
                }) && final(self).ring() == old(self).ring().remove(i),
    {
        match pop_tx_from_ring(&mut self.tx_ring, sequence) {
            Some(envelope) => {
                let mut envelope = envelope;
                envelope.in_ring = false;
                proof {
                    let i = choose|i: int|
                        0 <= i < old(self).ring().len() && (#[trigger] old(self).ring()[i]).sequence
                            == Some(sequence) && old(self).ring()[i] == (Envelope {
                            in_ring: true,
                            ..envelope
                        }) && self.ring() == old(self).ring().remove(i);
                    assert(in_flight(old(self).ring()[i], self.outlet()));
                    assert forall|j: int| 0 <= j < self.ring().len() implies in_flight(
                        #[trigger] self.ring()[j],
                        self.outlet(),
                    ) by {
                        if j < i {
                            assert(self.ring()[j] == old(self).ring()[j]);
                        } else {
                            assert(self.ring()[j] == old(self).ring()[j + 1]);
                        }
                    }
                    crate::channel::window::lemma_window_stays_capped(
                        self.params,
                        false,
                        outlet@.rtt,
                    );
                }
                adjust_params(outlet.rtt(), &mut self.params);
                Some(envelope)
            },
            None => None,
        }
    }

    /// Gives the channel up: every envelope in flight and every envelope
    /// that waits at the receiving end is forgotten.
    pub fn shutdown_channel(&mut self, receiver: &mut ChannelReceiver<M>)
        ensures
            final(self).ring() == Seq::<Envelope<M>>::empty(),
            final(self).next() == old(self).next(),
            final(self).window() == old(self).window(),
            final(self).outlet() == old(self).outlet(),
            old(self).wf() ==> final(self).wf(),
            final(receiver).ring() == Seq::<Envelope<M>>::empty(),
            final(receiver).next() == old(receiver).next(),
            final(receiver).link() == old(receiver).link(),
            final(receiver).wf(),
    {
        self.tx_ring.clear();
        receiver.clear();
    }

    /// Answers the timeout of the envelope of sequence `sequence` at time
    /// `now`.
    ///
    /// [`timeout_outcome`] says what becomes of the ring. Giving up also
    /// empties the ring of `receiver`, closes `outlet` and hands back the
    /// news of the closing for the subscribers of the link; one more try
    /// narrows the window and leaves both alone.
    pub fn packet_timed_out(
        &mut self,
        receiver: &mut ChannelReceiver<M>,
        sequence: u16,
        outlet: &mut Link,
        now: u64,
    ) -> (outcome: TimeoutOutcome)
        requires
            old(self).wf(),
            old(receiver).wf(),
        ensures
            final(self).wf(),
            final(receiver).wf(),
            final(self).outlet() == old(self).outlet(),
            final(self).next() == old(self).next(),
            final(receiver).next() == old(receiver).next(),
            final(receiver).link() == old(receiver).link(),
            timeout_outcome(
                old(self).ring(),
                final(self).ring(),
                outcome,
                sequence,
                old(outlet)@.rtt,
                now,
            ),
            outcome is Gone ==> final(self).window() == old(self).window() && final(receiver).ring() == old(receiver).ring() && final(outlet)@ == old(outlet)@,
            outcome is Resend ==> final(self).window() == old(self).window().after_timeout()
                && final(receiver).ring() == old(receiver).ring() && final(outlet)@ == old(outlet)@,
            outcome is TornDown ==> final(self).window() == old(self).window() && final(receiver).ring() == Seq::<Envelope<M>>::empty() && final(outlet)@ == (LinkView {
                status: LinkStatus::Closed,
                ..old(outlet)@
            }),
            outcome matches TimeoutOutcome::TornDown(news) ==> news.is_some() == (old(outlet)@.status
                != LinkStatus::Closed) && (news matches Some(data) ==> data@ == old(outlet)@.news(
                LinkEventView::Closed,
            )),
    {
        let found = self.position(sequence);
        let i = match found {
            Some(i) => i,
            None => {
                return TimeoutOutcome::Gone;
            },
        };
        assert(in_flight(self.ring()[i as int], self.outlet()));
        if self.tx_ring[i].tries > self.params.max_tries as u64 {
            self.shutdown_channel(receiver);
            let news = outlet.close_with_news();
            return TimeoutOutcome::TornDown(news);
        }
        let ghost ring0 = self.tx_ring@;
        let packet = match &self.tx_ring[i].packet {
            Some(packet) => packet.clone(),
            None => {
                return TimeoutOutcome::Gone;
            },
        };
        match self.tx_ring.remove(i) {
            Some(envelope) => {
                let mut envelope = envelope;
                envelope.tries = envelope.tries + 1;
                self.tx_ring.insert(i, envelope);
            },
            None => {
                return TimeoutOutcome::Gone;
            },
        }
        let ghost ring1 = self.tx_ring@;
        proof {
            assert(ring1 =~= ring0.update(
                i as int,
                Envelope { tries: (ring0[i as int].tries + 1) as u64, ..ring0[i as int] },
            ));
            assert forall|a: int, b: int| 0 <= a < b < ring1.len() implies ring1[a].rank()
                < ring1[b].rank() by {
                assert(ring1[a].rank() == ring0[a].rank());
                assert(ring1[b].rank() == ring0[b].rank());
            }
            assert forall|j: int| 0 <= j < ring1.len() implies in_flight(
                #[trigger] ring1[j],
                self.outlet(),
            ) by {
                assert(in_flight(ring0[j], self.outlet()));
            }
        }
        update_packet_timeouts(&mut self.tx_ring, outlet.rtt(), now);
        proof {
            lemma_rearmed_ring(ring1, self.tx_ring@, outlet@.rtt, now, self.outlet());
            crate::channel::window::lemma_window_stays_capped(self.params, false, 0);
        }
        self.params.shrink();
        TimeoutOutcome::Resend(packet)
    }
}

} // verus!
