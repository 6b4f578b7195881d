//! Ordered, windowed, retransmitting message transport over one link.
//!
//! The sender numbers its messages, keeps every unacknowledged one in a
//! ring and sends it again when its timeout passes. The receiver keeps what
//! arrives early in a ring of its own and hands messages on strictly in
//! the order of their numbers. Timers and sockets live with the caller:
//! every operation here takes the current time in microseconds and tells
//! what to transmit.

use crate::channel::framing::spec_deenvelope;
use crate::channel::framing::spec_envelope;
use crate::channel::framing::spec_header;
use crate::channel::framing::ENVELOPE_HEADER_SIZE;
use crate::channel::window::spec_packet_timeout_time;
use crate::destination::link::LinkId;
use crate::packet::Packet;
use std::collections::VecDeque;
use vstd::prelude::*;
use vstd::slice::slice_subrange;
use vstd::slice::slice_to_vec;

pub mod framing;
pub mod receiver;
pub mod sender;
pub mod window;
pub mod wrapped;

pub use crate::channel::framing::deenvelope_raw;
pub use crate::channel::framing::envelope_raw;
pub use crate::channel::framing::MessageType;
pub use crate::channel::receiver::ChannelReceiver;
pub use crate::channel::sender::Channel;
pub use crate::channel::sender::Dispatch;
pub use crate::channel::sender::TimeoutOutcome;
pub use crate::channel::window::adjust_params;
pub use crate::channel::window::packet_timeout_time;
pub use crate::channel::window::ChannelParams;
pub use crate::channel::wrapped::WrappedLink;

verus! {

/// Why the channel refused or dropped a message.
#[derive(Clone, Copy, Debug, PartialEq, Eq, Structural)]
pub enum ChannelError {
    /// A message came without a type.
    NoMessageType,
    /// The type of a message is not one that the application reads.
    InvalidMessageType,
    /// Nobody has said how to read messages of this type.
    NotRegistered,
    /// The link is not active, or the window is full.
    LinkNotReady,
    /// The sequence is still in flight.
    AlreadySent,
    /// The framed message is longer than one packet can carry.
    TooBig,
    /// The frame is malformed.
    Misc,
}

/// A message as bytes, with the tag that tells how to read them.
#[derive(Debug)]
pub struct PackedMessage {
    payload: Vec<u8>,
    message_type: MessageType,
}

impl View for PackedMessage {
    type V = (Seq<u8>, MessageType);

    closed spec fn view(&self) -> (Seq<u8>, MessageType) {
        (self.payload@, self.message_type)
    }
}

impl PackedMessage {
    /// Puts a payload and its tag together.
    pub fn new(payload: Vec<u8>, message_type: MessageType) -> (packed: PackedMessage)
        ensures
            packed@ == (payload@, message_type),
    {
        PackedMessage { payload, message_type }
    }

    /// The payload.
    pub fn payload(self) -> (payload: Vec<u8>)
        ensures
            payload@ == self@.0,
    {
        self.payload
    }

    /// The tag.
    pub fn message_type(&self) -> (message_type: MessageType)
        ensures
            message_type == self@.1,
    {
        self.message_type
    }
}

/// What an application sends over a channel. The application decides how
/// its messages turn into bytes and back; the channel only carries them.
pub trait Message: Clone + Send + Sized + Sync + 'static {
    /// The message as bytes and tag.
    fn pack(&self) -> PackedMessage;

    /// The message that bytes and tag stand for, or the reason why they
    /// stand for none.
    fn unpack(packed: PackedMessage) -> Result<Self, ChannelError>;
}

/// How far a message has come.
#[derive(Clone, Copy, Debug, PartialEq, Eq, Structural)]
pub enum MessageState {
    New,
    Sent,
    Delivered,
    Failed,
}

/// The state of the message that travels in `packet`. Packets carry no
/// receipts, so every packet counts as sent and not yet delivered.
pub fn get_packet_state(packet: &Packet) -> (state: MessageState)
    ensures
        state == MessageState::Sent,
{
    MessageState::Sent
}

/// The later of two times.
pub open spec fn later(a: u64, b: u64) -> u64 {
    if a >= b {
        a
    } else {
        b
    }
}

/// The time `wait` after `now`, held at `u64::MAX`.
pub open spec fn deadline_after(now: u64, wait: u64) -> u64 {
    if now + wait > u64::MAX {
        u64::MAX
    } else {
        (now + wait) as u64
    }
}

/// The armed timeout of an envelope in flight.
#[derive(Clone, Copy, Debug, PartialEq, Eq, Structural)]
pub struct PacketCallbacks {
    /// When the timeout fires, unless the delivery comes first.
    pub timeout: u64,
}

impl PacketCallbacks {
    /// Arms a timeout.
    pub fn new(timeout: u64) -> (callbacks: PacketCallbacks)
        ensures
            callbacks.timeout == timeout,
    {
        PacketCallbacks { timeout }
    }

    /// Moves the timeout to `new_timeout` if that is later, and tells
    /// whether it moved.
    pub fn update(&mut self, new_timeout: u64) -> (moved: bool)
        ensures
            final(self).timeout == later(old(self).timeout, new_timeout),
            moved == (new_timeout > old(self).timeout),
    {
        if new_timeout > self.timeout {
            self.timeout = new_timeout;
            true
        } else {
            false
        }
    }
}

/// Whether `packed`, a payload and its tag, is an answer of
/// [`Message::pack`] for `message`.
pub open spec fn packs_to<M: Message>(message: M, packed: (Seq<u8>, MessageType)) -> bool {
    exists|answer: PackedMessage| #[trigger]
        call_ensures(M::pack, (&message,), answer) && answer@ == packed
}

/// Whether `outcome` is an answer of [`Message::unpack`] to what the frame
/// `raw` holds: the bytes after its header, tagged with the message type
/// from its header.
pub open spec fn unpacks_to<M: Message>(raw: Seq<u8>, outcome: Result<M, ChannelError>) -> bool {
    exists|packed: PackedMessage| #[trigger]
        call_ensures(M::unpack, (packed,), outcome) && packed@ == (
            raw.skip(ENVELOPE_HEADER_SIZE as int),
            spec_header(raw).0,
        )
}

/// One message on its way, with what the channel knows about it.
#[derive(Debug)]
pub struct Envelope<M: Message> {
    /// When the envelope was made.
    pub timestamp: u64,
    pub message: Option<M>,
    /// The framed message.
    pub raw: Option<Vec<u8>>,
    /// The packet the message was sent in.
    pub packet: Option<Packet>,
    pub sequence: Option<u16>,
    /// The link the envelope travels on.
    pub outlet_id: LinkId,
    /// How often the packet has been transmitted.
    pub tries: u64,
    pub unpacked: bool,
    pub packed: bool,
    /// Whether the envelope sits in a ring.
    pub in_ring: bool,
    /// Whether the link was active when the packet was made.
    pub sent: bool,
    pub callbacks: Option<PacketCallbacks>,
}

impl<M: Message> Envelope<M> {
    /// Where the envelope stands among others: envelopes without a
    /// sequence first, then by sequence.
    pub open spec fn rank(self) -> int {
        match self.sequence {
            Some(s) => s + 1,
            None => 0,
        }
    }

    /// The same envelope, marked as sitting in a ring.
    pub open spec fn ring_copy(self) -> Envelope<M> {
        Envelope { in_ring: true, ..self }
    }

    /// The same envelope with its timeout, if armed, moved to `deadline`
    /// where that is later.
    pub open spec fn rearmed(self, deadline: u64) -> Envelope<M> {
        Envelope {
            callbacks: match self.callbacks {
                Some(armed) => Some(PacketCallbacks { timeout: later(armed.timeout, deadline) }),
                None => None,
            },
            ..self
        }
    }

    /// The same envelope holding the frame `raw`.
    pub open spec fn framed(self, raw: Vec<u8>) -> Envelope<M> {
        Envelope { raw: Some(raw), packed: true, ..self }
    }

    /// The same envelope holding the message `message` read from a frame of
    /// sequence `sequence`.
    pub open spec fn opened(self, sequence: u16, message: M) -> Envelope<M> {
        Envelope { message: Some(message), sequence: Some(sequence), unpacked: true, ..self }
    }

    /// A fresh envelope: untried, neither packed nor unpacked, in no ring.
    pub open spec fn spec_new(
        outlet_id: LinkId,
        message: Option<M>,
        raw: Option<Vec<u8>>,
        sequence: Option<u16>,
        now: u64,
    ) -> Envelope<M> {
        Envelope {
            timestamp: now,
            message,
            raw,
            packet: None,
            sequence,
            outlet_id,
            tries: 0,
            unpacked: false,
            packed: false,
            in_ring: false,
            sent: false,
            callbacks: None,
        }
    }

    /// A fresh envelope for the link `outlet_id`.
    pub fn new(
        outlet_id: LinkId,
        message: Option<M>,
        raw: Option<Vec<u8>>,
        sequence: Option<u16>,
        now: u64,
    ) -> (envelope: Envelope<M>)
        ensures
            envelope == Envelope::spec_new(outlet_id, message, raw, sequence, now),
    {
        Envelope {
            timestamp: now,
            message,
            raw,
            packet: None,
            sequence,
            outlet_id,
            tries: 0,
            unpacked: false,
            packed: false,
            in_ring: false,
            sent: false,
            callbacks: None,
        }
    }

    fn rank_of(&self) -> (rank: u32)
        ensures
            rank == self.rank(),
    {
        match self.sequence {
            Some(s) => s as u32 + 1,
            None => 0,
        }
    }

    /// Frames the bytes and tag of a packed message under the envelope's
    /// sequence.
    pub fn frame(&mut self, packed: PackedMessage)
        ensures
            final(self).raw.is_some(),
            final(self).raw.unwrap()@ == spec_envelope(packed@.0, packed@.1, old(self).sequence),
            *final(self) == old(self).framed(final(self).raw.unwrap()),
    {
        let message_type = packed.message_type();
        let payload = packed.payload();
        self.raw = Some(envelope_raw(payload.as_slice(), message_type, self.sequence));
        self.packed = true;
    }

    /// Packs the message with [`Message::pack`] and frames what that
    /// answers under the envelope's sequence. An envelope without a message
    /// is left as it is and answers `Misc`.
    pub fn pack(&mut self) -> (result: Result<(), ChannelError>)
        ensures
            old(self).message.is_none() ==> result == Err::<(), ChannelError>(ChannelError::Misc)
                && *final(self) == *old(self),
            old(self).message.is_some() ==> {
                &&& result == Ok::<(), ChannelError>(())
                &&& final(self).raw.is_some()
                &&& *final(self) == old(self).framed(final(self).raw.unwrap())
                &&& exists|packed: (Seq<u8>, MessageType)| #[trigger]
                    packs_to(old(self).message.unwrap(), packed) && final(self).raw.unwrap()@
                        == spec_envelope(packed.0, packed.1, old(self).sequence)
            },
    {
        let packed = match &self.message {
            Some(message) => message.pack(),
            None => {
                return Err(ChannelError::Misc);
            },
        };
        let ghost answer = packed;
        proof {
            assert(call_ensures(M::pack, (&old(self).message.unwrap(),), answer));
            assert(packs_to(old(self).message.unwrap(), answer@));
        }
        self.frame(packed);
        Ok(())
    }

    /// The frame, packing the message first where that has not happened
    /// yet.
    pub fn get_raw(&mut self) -> (result: Result<Vec<u8>, ChannelError>)
        ensures
            old(self).packed && old(self).raw.is_some() ==> *final(self) == *old(self)
                && result.is_ok() && result.unwrap()@ == old(self).raw.unwrap()@,
            old(self).packed && old(self).raw.is_none() ==> *final(self) == *old(self) && result
                == Err::<Vec<u8>, ChannelError>(ChannelError::Misc),
            !old(self).packed && old(self).message.is_none() ==> *final(self) == *old(self)
                && result == Err::<Vec<u8>, ChannelError>(ChannelError::Misc),
            !old(self).packed && old(self).message.is_some() ==> {
                &&& result.is_ok()
                &&& final(self).raw.is_some()
                &&& result.unwrap()@ == final(self).raw.unwrap()@
                &&& *final(self) == old(self).framed(final(self).raw.unwrap())
                &&& exists|packed: (Seq<u8>, MessageType)| #[trigger]
                    packs_to(old(self).message.unwrap(), packed) && final(self).raw.unwrap()@
                        == spec_envelope(packed.0, packed.1, old(self).sequence)
            },
    {
        if !self.packed {
            match self.pack() {
                Ok(()) => {},
                Err(e) => {
                    return Err(e);
                },
            }
        }
        match &self.raw {
            Some(raw) => Ok(slice_to_vec(raw.as_slice())),
            None => Err(ChannelError::Misc),
        }
    }

    /// Takes in what unpacking the frame gave: a message makes the envelope
    /// an unpacked one of sequence `sequence`, a failure leaves it as it is
    /// and is passed on.
    pub fn accept(&mut self, sequence: u16, unpacked: Result<M, ChannelError>) -> (result: Result<
        (),
        ChannelError,
    >)
        ensures
            match unpacked {
                Ok(message) => result == Ok::<(), ChannelError>(()) && *final(self) == old(self).opened(sequence, message),
                Err(e) => result == Err::<(), ChannelError>(e) && *final(self) == *old(self),
            },
    {
        match unpacked {
            Ok(message) => {
                self.message = Some(message);
                self.sequence = Some(sequence);
                self.unpacked = true;
                Ok(())
            },
            Err(e) => Err(e),
        }
    }

    /// Reads the frame: its header gives the sequence, and the bytes after
    /// the header, with the tag from the header, are unpacked as the
    /// message. A frame too short for a header answers `Misc`. A size
    /// field that disagrees with the length of the frame is let pass. What
    /// [`Message::unpack`] answers is taken in as [`Envelope::accept`]
    /// says.
    pub fn unpack(&mut self) -> (result: Result<(), ChannelError>)
        requires
            old(self).raw.is_some(),
        ensures
            old(self).raw.unwrap()@.len() < ENVELOPE_HEADER_SIZE ==> result == Err::<
                (),
                ChannelError,
            >(ChannelError::Misc),
            result.is_err() ==> *final(self) == *old(self),
            result.is_ok() ==> final(self).message.is_some() && *final(self) == old(self).opened(
                spec_header(old(self).raw.unwrap()@).1,
                final(self).message.unwrap(),
            ),
            old(self).raw.unwrap()@.len() >= ENVELOPE_HEADER_SIZE ==> exists|
                outcome: Result<M, ChannelError>,
            | #[trigger]
                unpacks_to(old(self).raw.unwrap()@, outcome) && match outcome {
                    Ok(message) => result == Ok::<(), ChannelError>(()) && *final(self) == old(self).opened(spec_header(old(self).raw.unwrap()@).1, message),
                    Err(e) => result == Err::<(), ChannelError>(e) && *final(self) == *old(self),
                },
    {
        let (packed, sequence) = match &self.raw {
            Some(raw) => {
                let (message_type, sequence, _size) = match deenvelope_raw(raw.as_slice()) {
                    Ok(header) => header,
                    Err(e) => {
                        return Err(e);
                    },
                };
                let payload = slice_to_vec(
                    slice_subrange(raw.as_slice(), ENVELOPE_HEADER_SIZE, raw.len()),
                );
                (PackedMessage::new(payload, message_type), sequence)
            },
            None => {
                return Err(ChannelError::Misc);
            },
        };
        let ghost handed = packed;
        let outcome = M::unpack(packed);
        let ghost answer = outcome;
        proof {
            assert(handed@.0 =~= old(self).raw.unwrap()@.skip(ENVELOPE_HEADER_SIZE as int));
            assert(call_ensures(M::unpack, (handed,), answer));
            assert(unpacks_to(old(self).raw.unwrap()@, answer));
        }
        self.accept(sequence, outcome)
    }

    /// The sequence: that of an unpacked envelope, else the one in the
    /// header of its frame.
    pub fn get_sequence(&self) -> (result: Result<u16, ChannelError>)
        requires
            self.unpacked ==> self.sequence.is_some(),
        ensures
            result == if self.unpacked {
                Ok::<u16, ChannelError>(self.sequence.unwrap())
            } else {
                match self.raw {
                    Some(raw) => match spec_deenvelope(raw@) {
                        Ok(header) => Ok::<u16, ChannelError>(header.1),
                        Err(e) => Err::<u16, ChannelError>(e),
                    },
                    None => Err::<u16, ChannelError>(ChannelError::Misc),
                }
            },
    {
        if self.unpacked {
            match self.sequence {
                Some(s) => Ok(s),
                None => Err(ChannelError::Misc),
            }
        } else {
            match &self.raw {
                Some(raw) => match deenvelope_raw(raw.as_slice()) {
                    Ok((_, s, _)) => Ok(s),
                    Err(e) => Err(e),
                },
                None => Err(ChannelError::Misc),
            }
        }
    }

    /// The message, unpacking the frame first where that has not happened
    /// yet. An envelope that holds neither a message nor a frame answers
    /// `Misc`.
    pub fn get_message(&mut self) -> (result: Result<&M, ChannelError>)
        ensures
            old(self).unpacked ==> *final(self) == *old(self),
            result.is_err() ==> *final(self) == *old(self),
            result matches Ok(message) ==> final(self).message == Some(*message),
            old(self).unpacked ==> result.is_ok() == old(self).message.is_some(),
            !old(self).unpacked && old(self).raw.is_none() ==> result == Err::<&M, ChannelError>(
                ChannelError::Misc,
            ),
            !old(self).unpacked && result.is_ok() ==> *final(self) == old(self).opened(
                spec_header(old(self).raw.unwrap()@).1,
                final(self).message.unwrap(),
            ),
            !old(self).unpacked && old(self).raw.is_some() && old(self).raw.unwrap()@.len()
                >= ENVELOPE_HEADER_SIZE ==> exists|outcome: Result<M, ChannelError>| #[trigger]
                unpacks_to(old(self).raw.unwrap()@, outcome) && match outcome {
                    Ok(message) => result == Ok::<&M, ChannelError>(&message) && *final(self)
                        == old(self).opened(spec_header(old(self).raw.unwrap()@).1, message),
                    Err(e) => result == Err::<&M, ChannelError>(e) && *final(self) == *old(self),
                },
    {
        if !self.unpacked {
            if self.raw.is_none() {
                return Err(ChannelError::Misc);
            }
            match self.unpack() {
                Ok(()) => {},
                Err(e) => {
                    return Err(e);
                },
            }
        }
        match &self.message {
            Some(message) => Ok(message),
            None => Err(ChannelError::Misc),
        }
    }

    /// Whether the envelope was sent in a packet equal to `other`.
    pub fn is_same_packet(&self, other: &Packet) -> (same: bool)
        ensures
            same == (self.packet.is_some() && self.packet.unwrap()@ == other@),
    {
        match &self.packet {
            Some(our) => our.equals(other),
            None => false,
        }
    }
}

/// Whether the envelopes stand in strictly ascending order of rank.
pub open spec fn ascending<M: Message>(ring: Seq<Envelope<M>>) -> bool {
    forall|i: int, j: int| 0 <= i < j < ring.len() ==> ring[i].rank() < ring[j].rank()
}

/// Whether some envelope of the ring has rank `rank`.
pub open spec fn holds_rank<M: Message>(ring: Seq<Envelope<M>>, rank: int) -> bool {
    exists|i: int| 0 <= i < ring.len() && #[trigger] ring[i].rank() == rank
}

/// Whether some envelope of the ring has sequence `sequence`.
pub open spec fn holds_sequence<M: Message>(ring: Seq<Envelope<M>>, sequence: int) -> bool {
    holds_rank(ring, sequence + 1)
}

/// Whether `k` is where an envelope of rank `rank` belongs: everything
/// before `k` ranks lower, everything from `k` on ranks higher.
pub open spec fn slot_for<M: Message>(ring: Seq<Envelope<M>>, rank: int, k: int) -> bool {
    &&& 0 <= k <= ring.len()
    &&& forall|i: int| 0 <= i < k ==> (#[trigger] ring[i]).rank() < rank
    &&& forall|i: int| k <= i < ring.len() ==> (#[trigger] ring[i]).rank() > rank
}

/// Puts an envelope into a ring at the place its sequence gives it, marked
/// as in_ring. An envelope whose sequence the ring already holds is
/// refused.
pub fn emplace_envelope<M: Message>(ring: &mut VecDeque<Envelope<M>>, envelope: Envelope<M>) -> (inserted:
    bool)
    requires
        ascending(old(ring)@),
    ensures
        inserted == !holds_rank(old(ring)@, envelope.rank()),
        !inserted ==> final(ring)@ == old(ring)@,
        inserted ==> exists|k: int| #[trigger]
            slot_for(old(ring)@, envelope.rank(), k) && final(ring)@ == old(ring)@.insert(
                k,
                envelope.ring_copy(),
            ),
        ascending(final(ring)@),
{
    let rank = envelope.rank_of();
    let mut i: usize = 0;
    while i < ring.len() && ring[i].rank_of() < rank
        invariant
            i <= ring@.len(),
            ring@ == old(ring)@,
            ascending(ring@),
            forall|j: int| 0 <= j < i ==> (#[trigger] ring@[j]).rank() < rank,
        decreases ring@.len() - i,
    {
        i += 1;
    }
    if i < ring.len() && ring[i].rank_of() == rank {
        assert(ring@[i as int].rank() == rank);
        return false;
    }
    assert(slot_for(ring@, rank as int, i as int));
    assert(!holds_rank(ring@, rank as int));
    let mut envelope = envelope;
    envelope.in_ring = true;
    ring.insert(i, envelope);
    true
}

/// Takes the envelope of sequence `sequence` out of a ring.
pub fn pop_tx_from_ring<M: Message>(ring: &mut VecDeque<Envelope<M>>, sequence: u16) -> (popped:
    Option<Envelope<M>>)
    requires
        ascending(old(ring)@),
    ensures
        popped.is_some() == holds_sequence(old(ring)@, sequence as int),
        popped.is_none() ==> final(ring)@ == old(ring)@,
        popped matches Some(envelope) ==> exists|i: int|
            0 <= i < old(ring)@.len() && (#[trigger] old(ring)@[i]).sequence == Some(sequence)
                && envelope == old(ring)@[i] && final(ring)@ == old(ring)@.remove(i),
        ascending(final(ring)@),
{
    let mut i: usize = 0;
    while i < ring.len()
        invariant
            i <= ring@.len(),
            ring@ == old(ring)@,
            ascending(ring@),
            forall|j: int| 0 <= j < i ==> (#[trigger] ring@[j]).rank() != sequence + 1,
        decreases ring@.len() - i,
    {
        if ring[i].rank_of() == sequence as u32 + 1 {
            assert(ring@[i as int].rank() == sequence + 1);
            let popped = ring.remove(i);
            return popped;
        }
        i += 1;
    }
    None
}

/// The time at which an envelope that has been tried `tries` times is
/// given up waiting for, counted from `now`.
pub open spec fn spec_deadline(now: u64, rtt: u64, ring_len: usize, tries: u64) -> u64 {
    deadline_after(now, spec_packet_timeout_time(rtt, ring_len, tries))
}

/// Moves the timeout of every armed envelope in the ring to what the
/// length of the ring and the round-trip time `rtt` now ask for, where
/// that is later than its present timeout.
pub fn update_packet_timeouts<M: Message>(ring: &mut VecDeque<Envelope<M>>, rtt: u64, now: u64)
    ensures
        final(ring)@.len() == old(ring)@.len(),
        forall|i: int|
            0 <= i < old(ring)@.len() ==> #[trigger] final(ring)@[i] == old(ring)@[i].rearmed(
                spec_deadline(now, rtt, old(ring)@.len() as usize, old(ring)@[i].tries),
            ),
{
    let ring_len = ring.len();
    let mut i: usize = 0;
    while i < ring_len
        invariant
            i <= ring_len,
            ring_len == old(ring)@.len(),
            ring@.len() == ring_len,
            forall|j: int|
                0 <= j < i ==> #[trigger] ring@[j] == old(ring)@[j].rearmed(
                    spec_deadline(now, rtt, ring_len, old(ring)@[j].tries),
                ),
            forall|j: int| i <= j < ring_len ==> #[trigger] ring@[j] == old(ring)@[j],
        decreases ring_len - i,
    {
        let ghost before = ring@;
        match ring.remove(i) {
            Some(envelope) => {
                let mut envelope = envelope;
                let until_timeout = packet_timeout_time(rtt, ring_len, envelope.tries);
                let deadline = now.saturating_add(until_timeout);
                match envelope.callbacks {
                    Some(armed) => {
                        let mut armed = armed;
                        armed.update(deadline);
                        envelope.callbacks = Some(armed);
                    },
                    None => {},
                }
                ring.insert(i, envelope);
                assert(ring@ =~= before.update(i as int, ring@[i as int]));
            },
            None => {},
        }
        i += 1;
    }
}

} // verus!
