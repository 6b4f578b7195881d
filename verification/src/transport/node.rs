//! A transport node as its owner sees it: the state, the clocks, and the
//! calls that applications make.

use crate::channel::deadline_after;
use crate::crypt::Evidence;
use crate::destination::link::Link;
use crate::destination::link::LinkId;
use crate::destination::link::LinkStatus;
use crate::destination::link::LinkView;
use crate::destination::DestinationDesc;
use crate::destination::DestinationName;
use crate::destination::Identity;
use crate::destination::SingleInputDestination;
use crate::hash::AddressHash;
use crate::packet::Packet;
use crate::packet::PacketContext;
use crate::transport::action::no_actions;
use crate::transport::action::push_action;
use crate::transport::action::sending;
use crate::transport::action::views;
use crate::transport::action::TransportAction;
use crate::transport::action::TransportActionView;
use crate::transport::action::TxMessageType;
use crate::transport::handler::distinct_ids;
use crate::transport::handler::find_link;
use crate::transport::handler::has_link;
use crate::transport::handler::link_at;
use crate::transport::handler::link_views;
use crate::transport::handler::Outcome;
use crate::transport::handler::TransportConfig;
use crate::transport::handler::TransportHandler;
use crate::transport::handler::TransportState;
use crate::transport::INTERVAL_ANNOUNCES_RETRANSMIT;
use crate::transport::INTERVAL_IFACE_CLEANUP;
use crate::transport::INTERVAL_LINKS_CHECK;
use crate::transport::INTERVAL_OUTPUT_LINK_KEEP;
use crate::transport::INTERVAL_PACKET_CACHE_CLEANUP;
use crate::transport::INTERVAL_PACKET_CACHE_SHORT_CLEANUP;
use vstd::prelude::*;
use vstd::slice::slice_to_vec;

verus! {

/// When each of the recurring jobs of a node is next due.
#[derive(Clone, Copy, Debug, PartialEq, Eq, Structural)]
pub struct Schedule {
    pub links_check: u64,
    pub short_sweep: u64,
    pub keep_links: u64,
    pub iface_cleanup: u64,
    pub long_sweep: u64,
    pub retransmit: u64,
}

/// When a job that is due at `due` and recurs every `interval` is due
/// after time `now` has come: an interval from `now` if it was due, else
/// as before.
pub open spec fn next_due(due: u64, now: u64, interval: u64) -> u64 {
    if now >= due {
        deadline_after(now, interval)
    } else {
        due
    }
}

impl Schedule {
    /// The schedule of a node that starts at `now`: every job is due one
    /// interval from now.
    pub open spec fn starting(now: u64) -> Schedule {
        Schedule {
            links_check: deadline_after(now, INTERVAL_LINKS_CHECK),
            short_sweep: deadline_after(now, INTERVAL_PACKET_CACHE_SHORT_CLEANUP),
            keep_links: deadline_after(now, INTERVAL_OUTPUT_LINK_KEEP),
            iface_cleanup: deadline_after(now, INTERVAL_IFACE_CLEANUP),
            long_sweep: deadline_after(now, INTERVAL_PACKET_CACHE_CLEANUP),
            retransmit: deadline_after(now, INTERVAL_ANNOUNCES_RETRANSMIT),
        }
    }

    /// The schedule after the jobs due at `now` have run.
    pub open spec fn after(self, now: u64) -> Schedule {
        Schedule {
            links_check: next_due(self.links_check, now, INTERVAL_LINKS_CHECK),
            short_sweep: next_due(self.short_sweep, now, INTERVAL_PACKET_CACHE_SHORT_CLEANUP),
            keep_links: next_due(self.keep_links, now, INTERVAL_OUTPUT_LINK_KEEP),
            iface_cleanup: next_due(self.iface_cleanup, now, INTERVAL_IFACE_CLEANUP),
            long_sweep: next_due(self.long_sweep, now, INTERVAL_PACKET_CACHE_CLEANUP),
            retransmit: next_due(self.retransmit, now, INTERVAL_ANNOUNCES_RETRANSMIT),
        }
    }

    /// The schedule of a node that starts at `now`.
    pub fn new(now: u64) -> (schedule: Schedule)
        ensures
            schedule == Schedule::starting(now),
    {
        Schedule {
            links_check: now.saturating_add(INTERVAL_LINKS_CHECK),
            short_sweep: now.saturating_add(INTERVAL_PACKET_CACHE_SHORT_CLEANUP),
            keep_links: now.saturating_add(INTERVAL_OUTPUT_LINK_KEEP),
            iface_cleanup: now.saturating_add(INTERVAL_IFACE_CLEANUP),
            long_sweep: now.saturating_add(INTERVAL_PACKET_CACHE_CLEANUP),
            retransmit: now.saturating_add(INTERVAL_ANNOUNCES_RETRANSMIT),
        }
    }

    /// The earliest time at which a job is due.
    pub fn earliest(&self) -> (time: u64)
        ensures
            time <= self.links_check && time <= self.short_sweep && time <= self.keep_links && time
                <= self.iface_cleanup && time <= self.long_sweep && time <= self.retransmit,
            time == self.links_check || time == self.short_sweep || time == self.keep_links || time
                == self.iface_cleanup || time == self.long_sweep || time == self.retransmit,
    {
        let mut time = self.links_check;
        if self.short_sweep < time {
            time = self.short_sweep;
        }
        if self.keep_links < time {
            time = self.keep_links;
        }
        if self.iface_cleanup < time {
            time = self.iface_cleanup;
        }
        if self.long_sweep < time {
            time = self.long_sweep;
        }
        if self.retransmit < time {
            time = self.retransmit;
        }
        time
    }
}

/// The orders to seal `payload` for every active link among `links`, in
/// order; with a `destination`, only for the links to it.
pub open spec fn seal_orders(
    links: Seq<LinkView>,
    destination: Option<AddressHash>,
    payload: Seq<u8>,
) -> Seq<TransportActionView>
    decreases links.len(),
{
    if links.len() == 0 {
        Seq::empty()
    } else if links.last().status == LinkStatus::Active && (destination.is_none() || destination
        == Some(links.last().destination.address_hash)) {
        seal_orders(links.drop_last(), destination, payload).push(
            TransportActionView::Seal {
                link: links.last().id,
                context: PacketContext::Generic,
                payload,
            },
        )
    } else {
        seal_orders(links.drop_last(), destination, payload)
    }
}

/// Whether link `i` is the first that leads to `destination` and is not
/// closed.
pub open spec fn is_live_link_to(links: Seq<LinkView>, i: int, destination: AddressHash) -> bool {
    &&& 0 <= i < links.len()
    &&& links[i].destination.address_hash == destination
    &&& links[i].status != LinkStatus::Closed
    &&& forall|j: int|
        0 <= j < i ==> !((#[trigger] links[j]).destination.address_hash == destination
            && links[j].status != LinkStatus::Closed)
}

/// Whether some link leads to `destination` and is not closed.
pub open spec fn has_live_link_to(links: Seq<LinkView>, destination: AddressHash) -> bool {
    exists|i: int| is_live_link_to(links, i, destination)
}

impl TransportState {
    /// What the jobs that are due at `now` do, in the order: check of the
    /// links, short sweep, keep-alives, cleanup of the interfaces, long
    /// sweep, passing on of announces where the node does that.
    pub open spec fn on_maintain(self, schedule: Schedule, now: u64) -> Outcome {
        let checked = if now >= schedule.links_check {
            self.on_check_links(now)
        } else {
            self.idle()
        };
        let swept = if now >= schedule.short_sweep {
            checked.state.on_short_sweep(now)
        } else {
            checked.state
        };
        let kept = if now >= schedule.keep_links {
            swept.on_keep_links(now)
        } else {
            swept.idle()
        };
        let cleanup = if now >= schedule.iface_cleanup {
            seq![TransportActionView::CleanupInterfaces]
        } else {
            Seq::<TransportActionView>::empty()
        };
        let cleared = if now >= schedule.long_sweep {
            kept.state.on_long_sweep(now)
        } else {
            kept.state
        };
        let passed = if cleared.retransmit && now >= schedule.retransmit {
            cleared.on_retransmit_announces(now)
        } else {
            cleared.idle()
        };
        Outcome {
            state: passed.state,
            actions: checked.actions + kept.actions + cleanup + passed.actions,
        }
    }

    /// What asking for a link to `destination` does: where a link to it is
    /// at hand that is not closed, nothing; else a link is made with the
    /// keys `key_material`, takes the place of a link with the same id if
    /// there is one, and its request goes out on every interface.
    pub open spec fn on_link(self, destination: DestinationDesc, key_material: Seq<u8>, now: u64)
        -> Outcome {
        if has_live_link_to(self.out_links, destination.address_hash) {
            self.idle()
        } else {
            let link = LinkView::requested(destination, key_material, now);
            let request = LinkView::request_packet(destination, key_material);
            TransportState {
                out_links: if has_link(self.out_links, link.id) {
                    self.out_links.update(link_at(self.out_links, link.id), link)
                } else {
                    self.out_links.push(link)
                },
                ..self
            }.hands_out(TxMessageType::Broadcast(None), request, now)
        }
    }
}

/// A transport node.
#[derive(Debug)]
pub struct Transport {
    handler: TransportHandler,
    schedule: Schedule,
}

impl View for Transport {
    type V = TransportState;

    closed spec fn view(&self) -> TransportState {
        self.handler@
    }
}

impl Transport {
    /// The state of the node is well formed.
    pub closed spec fn wf(&self) -> bool {
        self.handler.wf()
    }

    /// The state of the node as held.
    pub closed spec fn handler(&self) -> TransportHandler {
        self.handler
    }

    /// When the recurring jobs are next due.
    pub closed spec fn schedule(&self) -> Schedule {
        self.schedule
    }

    /// A node set up as `config` says, started at `now`.
    pub fn new(config: TransportConfig, now: u64) -> (transport: Transport)
        ensures
            transport.wf(),
            transport.schedule() == Schedule::starting(now),
            transport@ == (TransportState {
                name: config.spec_name(),
                identity: config.identity(),
                transport_id: config.identity().address_hash,
                broadcast: config.broadcast(),
                retransmit: config.retransmit(),
                paths: Map::empty(),
                announces: Seq::empty(),
                passing_links: Map::empty(),
                local: Map::empty(),
                learned: Map::empty(),
                out_links: Seq::empty(),
                in_links: Seq::empty(),
                cache: Map::empty(),
            }),
    {
        Transport { handler: TransportHandler::new(config), schedule: Schedule::new(now) }
    }

    /// The name of the node.
    pub fn name(&self) -> (name: &str)
        ensures
            name@ == self@.name,
    {
        self.handler.config.name()
    }

    /// The state of the node, for those who want to drive it by hand. It
    /// is well formed if the node is, and the node is well formed
    /// afterwards if the state is left well formed.
    pub fn get_handler(&mut self) -> (handler: &mut TransportHandler)
        ensures
            *handler == old(self).handler(),
            handler.wf() == old(self).wf(),
            handler@ == old(self)@,
            final(self).handler() == *final(handler),
            final(self).wf() == final(handler).wf(),
            final(self)@ == final(handler)@,
            final(self).schedule() == old(self).schedule(),
    {
        &mut self.handler
    }

    /// The earliest time at which a recurring job is due.
    pub fn next_maintenance(&self) -> (time: u64)
        ensures
            time <= self.schedule().links_check && time <= self.schedule().short_sweep && time
                <= self.schedule().keep_links && time <= self.schedule().iface_cleanup && time
                <= self.schedule().long_sweep && time <= self.schedule().retransmit,
            time == self.schedule().links_check || time == self.schedule().short_sweep || time
                == self.schedule().keep_links || time == self.schedule().iface_cleanup || time
                == self.schedule().long_sweep || time == self.schedule().retransmit,
    {
        self.schedule.earliest()
    }

    /// Handles a packet that came in: see [`TransportState::on_inbound`].
    pub fn handle_inbound(
        &mut self,
        iface: AddressHash,
        packet: &Packet,
        evidence: &Evidence,
        now: u64,
    ) -> (actions: Vec<TransportAction>)
        requires
            old(self).wf(),
        ensures
            final(self).wf(),
            final(self).schedule() == old(self).schedule(),
            final(self)@ == old(self)@.on_inbound(iface, packet@, evidence@, now).state,
            views(actions@) == old(self)@.on_inbound(iface, packet@, evidence@, now).actions,
    {
        self.handler.handle_inbound(iface, packet, evidence, now)
    }

    /// Runs the recurring jobs that are due at `now`: see
    /// [`TransportState::on_maintain`].
    pub fn maintain(&mut self, now: u64) -> (actions: Vec<TransportAction>)
        requires
            old(self).wf(),
        ensures
            final(self).wf(),
            final(self).schedule() == old(self).schedule().after(now),
            final(self)@ == old(self)@.on_maintain(old(self).schedule(), now).state,
            views(actions@) == old(self)@.on_maintain(old(self).schedule(), now).actions,
    {
        let mut actions = no_actions();
        if now >= self.schedule.links_check {
            self.handler.handle_check_links(now, &mut actions);
            self.schedule.links_check = now.saturating_add(INTERVAL_LINKS_CHECK);
        }
        let ghost checked = views(actions@);
        if now >= self.schedule.short_sweep {
            self.handler.short_sweep(now);
            self.schedule.short_sweep = now.saturating_add(INTERVAL_PACKET_CACHE_SHORT_CLEANUP);
        }
        if now >= self.schedule.keep_links {
            self.handler.handle_keep_links(now, &mut actions);
            self.schedule.keep_links = now.saturating_add(INTERVAL_OUTPUT_LINK_KEEP);
        } else {
            assert(views(actions@) =~= checked + Seq::<TransportActionView>::empty());
        }
        let ghost kept = views(actions@);
        if now >= self.schedule.iface_cleanup {
            push_action(&mut actions, TransportAction::CleanupInterfaces);
            self.schedule.iface_cleanup = now.saturating_add(INTERVAL_IFACE_CLEANUP);
            assert(views(actions@) =~= kept + seq![TransportActionView::CleanupInterfaces]);
        } else {
            assert(views(actions@) =~= kept + Seq::<TransportActionView>::empty());
        }
        let ghost cleaned = views(actions@);
        if now >= self.schedule.long_sweep {
            self.handler.long_sweep(now);
            self.schedule.long_sweep = now.saturating_add(INTERVAL_PACKET_CACHE_CLEANUP);
        }
        if self.handler.config.is_retransmit() && now >= self.schedule.retransmit {
            self.handler.retransmit_announces(now, &mut actions);
        } else {
            assert(views(actions@) =~= cleaned + Seq::<TransportActionView>::empty());
        }
        if now >= self.schedule.retransmit {
            self.schedule.retransmit = now.saturating_add(INTERVAL_ANNOUNCES_RETRANSMIT);
        }
        assert(views(actions@) =~= old(self)@.on_maintain(old(self).schedule(), now).actions);
        actions
    }

    /// Sends a packet of this node on its way where a path to its
    /// destination is known: the packet goes out, launched along the path,
    /// on the interface that leads there. Without a path nothing happens.
    pub fn outbound(&mut self, packet: &Packet, now: u64) -> (actions: Vec<TransportAction>)
        requires
            old(self).wf(),
        ensures
            final(self).wf(),
            final(self).schedule() == old(self).schedule(),
            if old(self)@.paths.contains_key(packet@.destination) {
                let path = old(self)@.paths[packet@.destination];
                final(self)@ == old(self)@.sent(path.launched(packet@), now) && views(actions@)
                    == seq![sending(TxMessageType::Direct(path.iface), path.launched(packet@))]
            } else {
                final(self)@ == old(self)@ && views(actions@) == Seq::<
                    TransportActionView,
                >::empty()
            },
    {
        let mut actions = no_actions();
        let (routed, maybe_iface) = self.handler.path_table.handle_packet(packet);
        match maybe_iface {
            Some(iface) => {
                self.handler.send(TxMessageType::Direct(iface), routed, now, &mut actions);
                assert(views(actions@) =~= seq![sending(TxMessageType::Direct(iface), routed@)]);
            },
            None => {},
        }
        actions
    }

    /// Sends a packet out on every interface.
    pub fn send_packet(&mut self, packet: Packet, now: u64) -> (actions: Vec<TransportAction>)
        requires
            old(self).wf(),
        ensures
            final(self).wf(),
            final(self).schedule() == old(self).schedule(),
            final(self)@ == old(self)@.sent(packet@, now),
            views(actions@) == seq![sending(TxMessageType::Broadcast(None), packet@)],
    {
        let mut actions = no_actions();
        self.handler.send_packet(packet, now, &mut actions);
        assert(views(actions@) =~= seq![sending(TxMessageType::Broadcast(None), packet@)]);
        actions
    }

    /// Sends the announce of a destination of this node out on every
    /// interface. The announce comes signed from whoever holds the keys of
    /// the destination.
    pub fn send_announce(&mut self, announce: Packet, now: u64) -> (actions: Vec<TransportAction>)
        requires
            old(self).wf(),
        ensures
            final(self).wf(),
            final(self).schedule() == old(self).schedule(),
            final(self)@ == old(self)@.sent(announce@, now),
            views(actions@) == seq![sending(TxMessageType::Broadcast(None), announce@)],
    {
        self.send_packet(announce, now)
    }

    /// Sends a packet out on every interface but `from_iface`.
    pub fn send_broadcast(&mut self, packet: Packet, from_iface: Option<AddressHash>, now: u64) -> (actions:
        Vec<TransportAction>)
        requires
            old(self).wf(),
        ensures
            final(self).wf(),
            final(self).schedule() == old(self).schedule(),
            final(self)@ == old(self)@.sent(packet@, now),
            views(actions@) == seq![sending(TxMessageType::Broadcast(from_iface), packet@)],
    {
        let mut actions = no_actions();
        self.handler.send(TxMessageType::Broadcast(from_iface), packet, now, &mut actions);
        assert(views(actions@) =~= seq![sending(TxMessageType::Broadcast(from_iface), packet@)]);
        actions
    }

    /// Sends a packet out on the interface `addr`.
    pub fn send_direct(&mut self, addr: AddressHash, packet: Packet, now: u64) -> (actions: Vec<
        TransportAction,
    >)
        requires
            old(self).wf(),
        ensures
            final(self).wf(),
            final(self).schedule() == old(self).schedule(),
            final(self)@ == old(self)@.sent(packet@, now),
            views(actions@) == seq![sending(TxMessageType::Direct(addr), packet@)],
    {
        let mut actions = no_actions();
        self.handler.send(TxMessageType::Direct(addr), packet, now, &mut actions);
        assert(views(actions@) =~= seq![sending(TxMessageType::Direct(addr), packet@)]);
        actions
    }

    /// The orders to seal `payload` for every active link of this node.
    pub fn send_to_all_out_links(&self, payload: &[u8]) -> (actions: Vec<TransportAction>)
        ensures
            views(actions@) == seal_orders(self@.out_links, None, payload@),
    {
        seal_for(&self.handler.out_links, None, payload)
    }

    /// The orders to seal `payload` for every active link of this node to
    /// `destination`.
    pub fn send_to_out_links(&self, destination: &AddressHash, payload: &[u8]) -> (actions: Vec<
        TransportAction,
    >)
        ensures
            views(actions@) == seal_orders(self@.out_links, Some(*destination), payload@),
    {
        seal_for(&self.handler.out_links, Some(*destination), payload)
    }

    /// The orders to seal `payload` for every active link that a peer
    /// opened to `destination`.
    pub fn send_to_in_links(&self, destination: &AddressHash, payload: &[u8]) -> (actions: Vec<
        TransportAction,
    >)
        ensures
            views(actions@) == seal_orders(self@.in_links, Some(*destination), payload@),
    {
        seal_for(&self.handler.in_links, Some(*destination), payload)
    }

    /// The link of this node with the id `link_id`.
    pub fn find_out_link(&self, link_id: &AddressHash) -> (link: Option<&Link>)
        requires
            self.wf(),
        ensures
            link.is_some() == has_link(self@.out_links, *link_id),
            link matches Some(found) ==> found@ == self@.out_links[link_at(
                self@.out_links,
                *link_id,
            )],
    {
        match find_link(&self.handler.out_links, link_id) {
            Some(i) => {
                assert(link_views(self.handler.out_links@)[i as int]
                    == self.handler.out_links@[i as int]@);
                Some(&self.handler.out_links[i])
            },
            None => None,
        }
    }

    /// The link with the id `link_id` that a peer opened.
    pub fn find_in_link(&self, link_id: &AddressHash) -> (link: Option<&Link>)
        requires
            self.wf(),
        ensures
            link.is_some() == has_link(self@.in_links, *link_id),
            link matches Some(found) ==> found@ == self@.in_links[link_at(
                self@.in_links,
                *link_id,
            )],
    {
        match find_link(&self.handler.in_links, link_id) {
            Some(i) => {
                assert(link_views(self.handler.in_links@)[i as int]
                    == self.handler.in_links@[i as int]@);
                Some(&self.handler.in_links[i])
            },
            None => None,
        }
    }

    /// Asks for a link to `destination` and hands back its id: see
    /// [`TransportState::on_link`]. `key_material` holds the public keys
    /// made for the link.
    pub fn link(&mut self, destination: DestinationDesc, key_material: &[u8], now: u64) -> (asked: (
        LinkId,
        Vec<TransportAction>,
    ))
        requires
            old(self).wf(),
        ensures
            final(self).wf(),
            final(self).schedule() == old(self).schedule(),
            final(self)@ == old(self)@.on_link(destination, key_material@, now).state,
            views(asked.1@) == old(self)@.on_link(destination, key_material@, now).actions,
            has_link(final(self)@.out_links, asked.0),
            final(self)@.out_links[link_at(
                final(self)@.out_links,
                asked.0,
            )].destination.address_hash == destination.address_hash,
            final(self)@.out_links[link_at(final(self)@.out_links, asked.0)].status
                != LinkStatus::Closed,
    {
        let mut actions = no_actions();
        let ghost links = link_views(self.handler.out_links@);
        let mut i: usize = 0;
        while i < self.handler.out_links.len()
            invariant
                i <= self.handler.out_links@.len(),
                links == link_views(self.handler.out_links@),
                distinct_ids(links),
                self.wf(),
                self@ == old(self)@,
                views(actions@) == Seq::<TransportActionView>::empty(),
                forall|j: int|
                    0 <= j < i ==> !((#[trigger] links[j]).destination.address_hash
                        == destination.address_hash && links[j].status != LinkStatus::Closed),
            decreases self.handler.out_links@.len() - i,
        {
            assert(links[i as int] == self.handler.out_links@[i as int]@);
            if self.handler.out_links[i].destination().address_hash == destination.address_hash
                && self.handler.out_links[i].status() != LinkStatus::Closed {
                assert(is_live_link_to(links, i as int, destination.address_hash));
                let id = self.handler.out_links[i].id();
                proof {
                    let k = link_at(links, id);
                    if k < i {
                        assert(links[k].id != links[i as int].id);
                    } else if i < k {
                        assert(links[i as int].id != links[k].id);
                    }
                }
                return (id, actions);
            }
            i += 1;
        }
        assert(!has_live_link_to(links, destination.address_hash)) by {
            if has_live_link_to(links, destination.address_hash) {
                let k = choose|k: int| is_live_link_to(links, k, destination.address_hash);
                assert(!(links[k].destination.address_hash == destination.address_hash
                    && links[k].status != LinkStatus::Closed));
            }
        }
        let mut link = Link::new(destination, key_material, now);
        let id = link.id();
        let ghost fresh = link@;
        let request = link.request(now);
        assert(link@ == fresh);
        match find_link(&self.handler.out_links, &id) {
            Some(k) => {
                self.handler.out_links[k] = link;
                proof {
                    let after = link_views(self.handler.out_links@);
                    assert(after =~= links.update(k as int, fresh));
                    assert forall|a: int, b: int| 0 <= a < b < after.len() implies (
                    #[trigger] after[a]).id != (#[trigger] after[b]).id by {
                        assert(after[a].id == links[a].id);
                        assert(after[b].id == links[b].id);
                    }
                    assert(after[k as int].id == id);
                    let at = link_at(after, id);
                    if at < k {
                        assert(after[at].id != after[k as int].id);
                    } else if k < at {
                        assert(after[k as int].id != after[at].id);
                    }
                }
            },
            None => {
                self.handler.out_links.push(link);
                proof {
                    let after = link_views(self.handler.out_links@);
                    assert(after =~= links.push(fresh));
                    assert forall|a: int, b: int| 0 <= a < b < after.len() implies (
                    #[trigger] after[a]).id != (#[trigger] after[b]).id by {
                        if b < links.len() {
                            assert(links[a].id != links[b].id);
                        } else {
                            assert(links[a].id != id);
                        }
                    }
                    assert(after[links.len() as int].id == id);
                    let at = link_at(after, id);
                    if at < links.len() {
                        assert(after[at].id != after[links.len() as int].id);
                    }
                }
            },
        }
        self.handler.send_packet(request, now, &mut actions);
        assert(views(actions@) =~= seq![sending(TxMessageType::Broadcast(None), request@)]);
        (id, actions)
    }

    /// Makes `name` a destination of this node, owned by `identity`, and
    /// hands it back.
    pub fn add_destination(&mut self, identity: Identity, name: DestinationName) -> (destination:
        SingleInputDestination)
        requires
            old(self).wf(),
        ensures
            final(self).wf(),
            final(self).schedule() == old(self).schedule(),
            destination.identity == identity,
            destination.desc == DestinationDesc::spec_new(identity, name),
            final(self)@ == (TransportState {
                local: old(self)@.local.insert(destination.desc.address_hash, destination),
                ..old(self)@
            }),
    {
        let destination = SingleInputDestination::new(identity, name);
        self.handler.single_in_destinations.insert(destination.desc.address_hash, destination);
        destination
    }

    /// Whether `address` is a destination of this node.
    pub fn has_destination(&self, address: &AddressHash) -> (local: bool)
        ensures
            local == self@.local.contains_key(*address),
    {
        self.handler.has_destination(address)
    }
}

/// The orders to seal `payload` for every active link among `links`; with
/// a `destination`, only for the links to it.
fn seal_for(links: &Vec<Link>, destination: Option<AddressHash>, payload: &[u8]) -> (actions: Vec<
    TransportAction,
>)
    ensures
        views(actions@) == seal_orders(link_views(links@), destination, payload@),
{
    let ghost all = link_views(links@);
    let mut actions = no_actions();
    let mut i: usize = 0;
    assert(views(actions@) =~= seal_orders(all.take(0), destination, payload@));
    while i < links.len()
        invariant
            i <= links@.len(),
            all == link_views(links@),
            views(actions@) == seal_orders(all.take(i as int), destination, payload@),
        decreases links@.len() - i,
    {
        proof {
            assert(all.take(i + 1).drop_last() =~= all.take(i as int));
            assert(all.take(i + 1).last() == all[i as int]);
        }
        let wanted = match destination {
            Some(address) => links[i].destination().address_hash == address,
            None => true,
        };
        if links[i].status() == LinkStatus::Active && wanted {
            push_action(
                &mut actions,
                TransportAction::Seal {
                    link: links[i].id(),
                    context: PacketContext::Generic,
                    payload: slice_to_vec(payload),
                },
            );
        }
        i += 1;
    }
    assert(all.take(i as int) =~= all);
    actions
}

} // verus!
