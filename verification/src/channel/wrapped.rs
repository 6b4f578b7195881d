//! A link together with the channel that rides on it.

use crate::channel::receiver::ChannelReceiver;
use crate::channel::receiver::wrap;
use crate::channel::framing::MessageType;
use crate::channel::framing::ENVELOPE_HEADER_SIZE;
use crate::channel::receiver::received;
use crate::channel::unpacks_to;
use crate::channel::sender::send_outcome;
use crate::channel::sender::timeout_outcome;
use crate::channel::sender::Channel;
use crate::channel::sender::Dispatch;
use crate::channel::sender::TimeoutOutcome;
use crate::channel::ChannelError;
use crate::channel::Envelope;
use crate::channel::Message;
use crate::crypt::Evidence;
use crate::destination::link::Link;
use crate::destination::link::LinkHandled;
use crate::destination::link::LinkStatus;
use crate::packet::Packet;
use vstd::prelude::*;

verus! {

/// A link, the sending end of its channel and the receiving end.
#[derive(Debug)]
pub struct WrappedLink<M: Message> {
    link: Link,
    channel: Channel<M>,
    receiver: ChannelReceiver<M>,
}

impl<M: Message> WrappedLink<M> {
    /// The link.
    pub closed spec fn link(&self) -> Link {
        self.link
    }

    /// The sending end of the channel.
    pub closed spec fn channel(&self) -> Channel<M> {
        self.channel
    }

    /// The receiving end of the channel.
    pub closed spec fn receiver(&self) -> ChannelReceiver<M> {
        self.receiver
    }

    /// Both ends of the channel are well formed and belong to the link.
    pub open spec fn wf(&self) -> bool {
        &&& self.channel().wf()
        &&& self.receiver().wf()
        &&& self.channel().outlet() == self.link()@.id
        &&& self.receiver().link() == self.link()@.id
    }

    /// Puts a channel on `link`.
    pub fn new(link: Link) -> (wrapped: WrappedLink<M>)
        ensures
            wrapped.wf(),
            wrapped.link()@ == link@,
            wrapped.channel().ring() == Seq::<Envelope<M>>::empty(),
            wrapped.channel().next() == 0,
            wrapped.receiver().ring() == Seq::<Envelope<M>>::empty(),
            wrapped.receiver().next() == 0,
    {
        let channel = Channel::new(&link);
        let receiver = channel.receiver();
        WrappedLink { link, channel, receiver }
    }

    /// The link.
    pub fn get_link(&self) -> (link: &Link)
        ensures
            *link == self.link(),
    {
        &self.link
    }

    /// The sending end of the channel.
    pub fn get_channel(&mut self) -> (channel: &mut Channel<M>)
        ensures
            *channel == old(self).channel(),
            final(self).channel() == *final(channel),
            final(self).link() == old(self).link(),
            final(self).receiver() == old(self).receiver(),
    {
        &mut self.channel
    }

    /// The receiving end of the channel.
    pub fn get_receiver(&self) -> (receiver: &ChannelReceiver<M>)
        ensures
            *receiver == self.receiver(),
    {
        &self.receiver
    }

    /// Takes a message for sending: see [`Channel::send`].
    pub fn send(&mut self, message: &M, now: u64) -> (result: Result<Dispatch, ChannelError>)
        requires
            old(self).wf(),
        ensures
            final(self).wf(),
            final(self).link() == old(self).link(),
            final(self).receiver() == old(self).receiver(),
            final(self).channel().window() == old(self).channel().window(),
            !old(self).channel().ready(old(self).link()@) ==> result == Err::<
                Dispatch,
                ChannelError,
            >(ChannelError::LinkNotReady) && final(self).channel().ring() == old(self).channel().ring()
                && final(self).channel().next() == old(self).channel().next(),
            old(self).channel().ready(old(self).link()@) ==> final(self).channel().next() == wrap(
                old(self).channel().next() + 1,
            ) && exists|copy: M, packed: (Seq<u8>, MessageType)|
                cloned::<M>(*message, copy) && crate::channel::packs_to(copy, packed)
                    && send_outcome(
                    old(self).channel().ring(),
                    final(self).channel().ring(),
                    result,
                    copy,
                    packed,
                    old(self).channel().next(),
                    old(self).link()@,
                    now,
                ),
    {
        self.channel.send(message, &self.link, now)
    }

    /// Offers an inbound packet to the link and hands the channel payload
    /// it may carry to the receiving end, as [`ChannelReceiver::receive`]
    /// says. The answer holds what the link made of the packet and the
    /// messages whose turn has come.
    pub fn handle_packet(&mut self, packet: &Packet, evidence: &Evidence, now: u64) -> (handled: (
        LinkHandled,
        Vec<M>,
    ))
        requires
            old(self).wf(),
        ensures
            final(self).wf(),
            final(self).channel() == old(self).channel(),
            final(self).link()@ == old(self).link()@.after(packet@, evidence@, now),
            handled.0@ == old(self).link()@.yields(packet@, evidence@),
            handled.0@.channel.is_none() ==> handled.1@.len() == 0 && final(self).receiver() == old(self).receiver(),
            final(self).receiver().next() == wrap(old(self).receiver().next() + handled.1@.len()),
            handled.0@.channel matches Some(payload) ==> if payload.len() < ENVELOPE_HEADER_SIZE {
                handled.1@.len() == 0 && final(self).receiver().ring() == old(
                    self,
                ).receiver().ring()
            } else {
                exists|outcome: Result<M, ChannelError>| #[trigger]
                    unpacks_to(payload, outcome) && received(
                        old(self).receiver().ring(),
                        old(self).receiver().next(),
                        old(self).receiver().link(),
                        final(self).receiver().ring(),
                        final(self).receiver().next(),
                        payload,
                        now,
                        outcome,
                        handled.1@,
                    )
            },
    {
        let handled = self.link.handle_packet(packet, evidence, now);
        let messages = match &handled.channel {
            Some(payload) => self.receiver.receive(payload.as_slice(), now),
            None => Vec::new(),
        };
        (handled, messages)
    }

    /// Takes note of a delivery: see [`Channel::packet_delivered`].
    pub fn packet_delivered(&mut self, sequence: u16) -> (delivered: Option<Envelope<M>>)
        requires
            old(self).wf(),
        ensures
            final(self).wf(),
            final(self).link() == old(self).link(),
            final(self).receiver() == old(self).receiver(),
            delivered.is_some() == crate::channel::holds_sequence(
                old(self).channel().ring(),
                sequence as int,
            ),
            final(self).channel().next() == old(self).channel().next(),
            delivered.is_none() ==> final(self).channel().ring() == old(self).channel().ring()
                && final(self).channel().window() == old(self).channel().window(),
            delivered matches Some(envelope) ==> final(self).channel().window() == old(self).channel().window().after_delivery(old(self).link()@.rtt)
                && exists|i: int|
                0 <= i < old(self).channel().ring().len() && (#[trigger] old(self).channel().ring()[i]).sequence
                    == Some(sequence) && envelope == (Envelope {
                    in_ring: false,
                    ..old(self).channel().ring()[i]
                }) && final(self).channel().ring() == old(self).channel().ring().remove(i),
    {
        self.channel.packet_delivered(sequence, &self.link)
    }

    /// Answers a timeout: see [`Channel::packet_timed_out`].
    pub fn packet_timed_out(&mut self, sequence: u16, now: u64) -> (outcome: TimeoutOutcome)
        requires
            old(self).wf(),
        ensures
            final(self).wf(),
            timeout_outcome(
                old(self).channel().ring(),
                final(self).channel().ring(),
                outcome,
                sequence,
                old(self).link()@.rtt,
                now,
            ),
            final(self).channel().next() == old(self).channel().next(),
            final(self).receiver().next() == old(self).receiver().next(),
            final(self).channel().window() == if outcome is Resend {
                old(self).channel().window().after_timeout()
            } else {
                old(self).channel().window()
            },
            outcome is TornDown ==> final(self).link()@ == (crate::destination::link::LinkView {
                status: LinkStatus::Closed,
                ..old(self).link()@
            }) && final(self).receiver().ring() == Seq::<Envelope<M>>::empty(),
            !(outcome is TornDown) ==> final(self).link()@ == old(self).link()@ && final(self).receiver().ring() == old(self).receiver().ring(),
            outcome matches TimeoutOutcome::TornDown(news) ==> news.is_some() == (old(self).link()@.status != LinkStatus::Closed) && (news matches Some(data) ==> data@ == old(self).link()@.news(crate::destination::link::LinkEventView::Closed)),
    {
        self.channel.packet_timed_out(&mut self.receiver, sequence, &mut self.link, now)
    }
}

} // verus!
