//! What the transport core asks its runtime to do.

use crate::destination::link::LinkEventData;
use crate::destination::link::LinkEventDataView;
use crate::destination::link::LinkId;
use crate::destination::SingleOutputDestination;
use crate::hash::AddressHash;
use crate::packet::Packet;
use crate::packet::PacketContext;
use crate::packet::PacketDataBuffer;
use crate::packet::PacketView;
use vstd::prelude::*;

verus! {

/// Where a packet is to go.
#[derive(Clone, Copy, Debug, PartialEq, Eq, Structural)]
pub enum TxMessageType {
    /// Out on every interface but the one named.
    Broadcast(Option<AddressHash>),
    /// Out on the interface named.
    Direct(AddressHash),
}

/// A packet for the interfaces.
#[derive(Debug)]
pub struct TxMessage {
    pub tx_type: TxMessageType,
    pub packet: Packet,
}

/// [`TxMessage`] in terms of plain values.
pub struct TxMessageView {
    pub tx_type: TxMessageType,
    pub packet: PacketView,
}

impl View for TxMessage {
    type V = TxMessageView;

    open spec fn view(&self) -> TxMessageView {
        TxMessageView { tx_type: self.tx_type, packet: self.packet@ }
    }
}

/// Data that has reached a destination of this node.
#[derive(Debug)]
pub struct ReceivedData {
    pub destination: AddressHash,
    pub data: PacketDataBuffer,
}

impl Clone for ReceivedData {
    fn clone(&self) -> (copy: ReceivedData)
        ensures
            copy.destination == self.destination,
            copy.data@ == self.data@,
    {
        ReceivedData { destination: self.destination, data: self.data.clone() }
    }
}

/// An announce that was found good.
#[derive(Debug)]
pub struct AnnounceEvent {
    pub destination: SingleOutputDestination,
    pub app_data: PacketDataBuffer,
}

impl Clone for AnnounceEvent {
    fn clone(&self) -> (copy: AnnounceEvent)
        ensures
            copy.destination == self.destination,
            copy.app_data@ == self.app_data@,
    {
        AnnounceEvent { destination: self.destination, app_data: self.app_data.clone() }
    }
}

/// One thing for the runtime to do.
#[derive(Debug)]
pub enum TransportAction {
    /// Hand a packet to the interfaces.
    Send(TxMessage),
    /// Seal `payload` with the key of link `link` and send it on that link
    /// as a data packet in `context`.
    Seal { link: LinkId, context: PacketContext, payload: Vec<u8> },
    /// Tell the subscribers of announces.
    Announce(AnnounceEvent),
    /// Tell the subscribers of received data.
    Received(ReceivedData),
    /// Tell the subscribers of events on links that peers opened.
    InLink(LinkEventData),
    /// Tell the subscribers of events on links that this node opened.
    OutLink(LinkEventData),
    /// Hand `payload` to the channel that rides on link `link`.
    Channel { link: LinkId, payload: Vec<u8> },
    /// Let the interface manager drop the interfaces that have gone.
    CleanupInterfaces,
}

/// [`TransportAction`] in terms of plain values.
pub enum TransportActionView {
    Send(TxMessageView),
    Seal { link: LinkId, context: PacketContext, payload: Seq<u8> },
    Announce { destination: SingleOutputDestination, app_data: Seq<u8> },
    Received { destination: AddressHash, data: Seq<u8> },
    InLink(LinkEventDataView),
    OutLink(LinkEventDataView),
    Channel { link: LinkId, payload: Seq<u8> },
    CleanupInterfaces,
}

impl View for TransportAction {
    type V = TransportActionView;

    open spec fn view(&self) -> TransportActionView {
        match self {
            TransportAction::Send(message) => TransportActionView::Send(message@),
            TransportAction::Seal { link, context, payload } => TransportActionView::Seal {
                link: *link,
                context: *context,
                payload: payload@,
            },
            TransportAction::Announce(event) => TransportActionView::Announce {
                destination: event.destination,
                app_data: event.app_data@,
            },
            TransportAction::Received(received) => TransportActionView::Received {
                destination: received.destination,
                data: received.data@,
            },
            TransportAction::InLink(event) => TransportActionView::InLink(event@),
            TransportAction::OutLink(event) => TransportActionView::OutLink(event@),
            TransportAction::Channel { link, payload } => TransportActionView::Channel {
                link: *link,
                payload: payload@,
            },
            TransportAction::CleanupInterfaces => TransportActionView::CleanupInterfaces,
        }
    }
}

/// A list of actions in terms of plain values.
pub open spec fn views(actions: Seq<TransportAction>) -> Seq<TransportActionView> {
    Seq::new(actions.len(), |i: int| actions[i]@)
}

/// The action that sends `packet` as `tx_type` says.
pub open spec fn sending(tx_type: TxMessageType, packet: PacketView) -> TransportActionView {
    TransportActionView::Send(TxMessageView { tx_type, packet })
}

/// Adds an action to a list.
pub fn push_action(actions: &mut Vec<TransportAction>, action: TransportAction)
    ensures
        views(final(actions)@) == views(old(actions)@).push(action@),
        final(actions)@.len() == old(actions)@.len() + 1,
{
    actions.push(action);
    assert(views(actions@) =~= views(old(actions)@).push(action@));
}

/// A list without actions.
pub fn no_actions() -> (actions: Vec<TransportAction>)
    ensures
        views(actions@) == Seq::<TransportActionView>::empty(),
        actions@.len() == 0,
{
    let actions: Vec<TransportAction> = Vec::new();
    assert(views(actions@) =~= Seq::<TransportActionView>::empty());
    actions
}

} // verus!
