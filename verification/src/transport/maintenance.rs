//! What a transport node does when its clocks tick: it looks after its
//! links, sweeps its cache and passes announces on.

use crate::destination::link::link_packet;
use crate::destination::link::time_since;
use crate::destination::link::Link;
use crate::destination::link::LinkEventData;
use crate::destination::link::LinkEventView;
use crate::destination::link::LinkStatus;
use crate::destination::link::LinkView;
use crate::destination::link::KEEP_ALIVE_REQUEST;
use crate::hash::AddressHash;
use crate::packet::Packet;
use crate::packet::PacketContext;
use crate::packet::PacketType;
use crate::packet::PacketView;
use crate::transport::action::push_action;
use crate::transport::action::views;
use crate::transport::action::TransportAction;
use crate::transport::action::TransportActionView;
use crate::transport::action::TxMessageType;
use crate::transport::announce_table::all_settled;
use crate::transport::announce_table::due_list;
use crate::transport::announce_table::sendings;
use crate::transport::handler::distinct_ids;
use crate::transport::handler::event_data;
use crate::transport::handler::has_link;
use crate::transport::handler::link_views;
use crate::transport::handler::Outcome;
use crate::transport::handler::TransportHandler;
use crate::transport::handler::TransportState;
use crate::transport::link_table::LinkTable;
use crate::transport::packet_cache::PacketCache;
use crate::transport::INTERVAL_INPUT_LINK_CLEANUP;
use crate::transport::INTERVAL_KEEP_PACKET_BRIEFLY;
use crate::transport::INTERVAL_KEEP_PACKET_CACHED;
use crate::transport::INTERVAL_OUTPUT_LINK_REPEAT;
use crate::transport::INTERVAL_OUTPUT_LINK_RESTART;
use vstd::prelude::*;

verus! {

/// A list of packets to send, each with where it is to go.
pub type Orders = Vec<(TxMessageType, Packet)>;

/// A list of orders in terms of plain values.
pub open spec fn orders(list: Seq<(TxMessageType, Packet)>) -> Seq<(TxMessageType, PacketView)> {
    Seq::new(list.len(), |i: int| (list[i].0, list[i].1@))
}

/// Whether a link has been silent for more than `limit`.
pub open spec fn lapsed(link: LinkView, now: u64, limit: u64) -> bool {
    time_since(now, link.last_activity) > limit
}

/// The links that peers opened and that have not been silent too long, in
/// order.
pub open spec fn kept_in(links: Seq<LinkView>, now: u64) -> Seq<LinkView>
    decreases links.len(),
{
    if links.len() == 0 {
        Seq::empty()
    } else if lapsed(links.last(), now, INTERVAL_INPUT_LINK_CLEANUP) {
        kept_in(links.drop_last(), now)
    } else {
        kept_in(links.drop_last(), now).push(links.last())
    }
}

/// The news of the closing of every link that has been silent too long and
/// was not closed yet, in order.
pub open spec fn closings(links: Seq<LinkView>, now: u64) -> Seq<TransportActionView>
    decreases links.len(),
{
    if links.len() == 0 {
        Seq::empty()
    } else if lapsed(links.last(), now, INTERVAL_INPUT_LINK_CLEANUP) && links.last().status
        != LinkStatus::Closed {
        closings(links.drop_last(), now).push(
            TransportActionView::InLink(event_data(links.last(), LinkEventView::Closed)),
        )
    } else {
        closings(links.drop_last(), now)
    }
}

/// The links that are not closed, in order.
pub open spec fn still_open(links: Seq<LinkView>) -> Seq<LinkView>
    decreases links.len(),
{
    if links.len() == 0 {
        Seq::empty()
    } else if links.last().status == LinkStatus::Closed {
        still_open(links.drop_last())
    } else {
        still_open(links.drop_last()).push(links.last())
    }
}

/// Whether the request of a link is to be sent again.
pub open spec fn repeats(link: LinkView, now: u64) -> bool {
    link.status == LinkStatus::Pending && lapsed(link, now, INTERVAL_OUTPUT_LINK_REPEAT)
}

/// A link of this node after it has been looked after: the clock of an
/// active link that is older than the restart interval, and of a pending
/// link whose request is sent again, is set to `now`.
pub open spec fn tended(link: LinkView, now: u64) -> LinkView {
    if (link.status == LinkStatus::Active && lapsed(link, now, INTERVAL_OUTPUT_LINK_RESTART))
        || repeats(link, now) {
        link.touched(now)
    } else {
        link
    }
}

/// Every link looked after.
pub open spec fn all_tended(links: Seq<LinkView>, now: u64) -> Seq<LinkView> {
    Seq::new(links.len(), |i: int| tended(links[i], now))
}

/// The requests that are sent again, in order, each on every interface.
pub open spec fn repeated_requests(links: Seq<LinkView>, now: u64) -> Seq<
    (TxMessageType, PacketView),
>
    decreases links.len(),
{
    if links.len() == 0 {
        Seq::empty()
    } else if repeats(links.last(), now) {
        repeated_requests(links.drop_last(), now).push(
            (
                TxMessageType::Broadcast(None),
                LinkView::request_packet(links.last().destination, links.last().key_material),
            ),
        )
    } else {
        repeated_requests(links.drop_last(), now)
    }
}

/// The keep-alives for the active links, in order, each on every
/// interface.
pub open spec fn keep_alives(links: Seq<LinkView>) -> Seq<(TxMessageType, PacketView)>
    decreases links.len(),
{
    if links.len() == 0 {
        Seq::empty()
    } else if links.last().status == LinkStatus::Active {
        keep_alives(links.drop_last()).push(
            (
                TxMessageType::Broadcast(None),
                link_packet(
                    links.last().id,
                    PacketType::Data,
                    PacketContext::KeepAlive,
                    seq![KEEP_ALIVE_REQUEST],
                ),
            ),
        )
    } else {
        keep_alives(links.drop_last())
    }
}

/// The announces to pass on as orders: each on every interface but the one
/// it came in on.
pub open spec fn announce_orders(list: Seq<(AddressHash, PacketView)>) -> Seq<
    (TxMessageType, PacketView),
> {
    Seq::new(list.len(), |i: int| (TxMessageType::Broadcast(Some(list[i].0)), list[i].1))
}

impl TransportState {
    /// The packets of `list` are handed to the interfaces, in order.
    pub open spec fn sent_all(self, list: Seq<(TxMessageType, PacketView)>, now: u64) -> Outcome
        decreases list.len(),
    {
        if list.len() == 0 {
            self.idle()
        } else {
            let before = self.sent_all(list.drop_last(), now);
            let last = before.state.hands_out(list.last().0, list.last().1, now);
            Outcome { state: last.state, actions: before.actions + last.actions }
        }
    }

    /// What a check of the links does.
    ///
    /// Links that peers opened and that have been silent for more than
    /// [`INTERVAL_INPUT_LINK_CLEANUP`] are closed and forgotten, and their
    /// subscribers hear of it. Closed links of this node are forgotten.
    /// Active links of this node older than
    /// [`INTERVAL_OUTPUT_LINK_RESTART`] get their clocks set anew, and
    /// pending ones older than [`INTERVAL_OUTPUT_LINK_REPEAT`] send their
    /// request again.
    pub open spec fn on_check_links(self, now: u64) -> Outcome {
        let open = still_open(self.out_links);
        let sent = TransportState {
            in_links: kept_in(self.in_links, now),
            out_links: all_tended(open, now),
            ..self
        }.sent_all(repeated_requests(open, now), now);
        Outcome { state: sent.state, actions: closings(self.in_links, now) + sent.actions }
    }

    /// What a round of keep-alives does: every active link of this node
    /// sends one.
    pub open spec fn on_keep_links(self, now: u64) -> Outcome {
        self.sent_all(keep_alives(self.out_links), now)
    }

    /// What a round of passing announces on does: every recorded announce
    /// that is due goes out, and all are settled.
    pub open spec fn on_retransmit_announces(self, now: u64) -> Outcome {
        TransportState { announces: all_settled(self.announces), ..self }.sent_all(
            announce_orders(due_list(self.announces, self.transport_id)),
            now,
        )
    }

    /// What the short sweep does: packets seen more than
    /// [`INTERVAL_KEEP_PACKET_BRIEFLY`] ago are forgotten.
    pub open spec fn on_short_sweep(self, now: u64) -> TransportState {
        TransportState {
            cache: PacketCache::released(self.cache, INTERVAL_KEEP_PACKET_BRIEFLY, now),
            ..self
        }
    }

    /// What the long sweep does: packets seen more than
    /// [`INTERVAL_KEEP_PACKET_CACHED`] ago and links that pass through
    /// and have gone stale are forgotten.
    pub open spec fn on_long_sweep(self, now: u64) -> TransportState {
        TransportState {
            cache: PacketCache::released(self.cache, INTERVAL_KEEP_PACKET_CACHED, now),
            passing_links: LinkTable::unstale(self.passing_links, now),
            ..self
        }
    }
}

/// A link that is kept was there before.
pub proof fn lemma_kept_in(links: Seq<LinkView>, now: u64)
    ensures
        forall|id: AddressHash|
            #![trigger has_link(kept_in(links, now), id)]
            has_link(kept_in(links, now), id) ==> has_link(links, id),
        distinct_ids(links) ==> distinct_ids(kept_in(links, now)),
    decreases links.len(),
{
    if links.len() > 0 {
        let front = links.drop_last();
        lemma_kept_in(front, now);
        let kept = kept_in(links, now);
        let kept_front = kept_in(front, now);
        assert forall|id: AddressHash| has_link(kept, id) implies has_link(links, id) by {
            let i = choose|i: int| 0 <= i < kept.len() && (#[trigger] kept[i]).id == id;
            if i < kept_front.len() {
                assert(kept_front[i].id == id);
                assert(has_link(kept_front, id));
                assert(has_link(front, id));
                let j = choose|j: int| 0 <= j < front.len() && (#[trigger] front[j]).id == id;
                assert(links[j].id == id);
            } else {
                assert(links[links.len() - 1].id == id);
            }
        }
        if distinct_ids(links) {
            assert forall|a: int, b: int| 0 <= a < b < front.len() implies (#[trigger] front[a]).id
                != (#[trigger] front[b]).id by {
                assert(links[a].id != links[b].id);
            }
            assert forall|a: int, b: int| 0 <= a < b < kept.len() implies (#[trigger] kept[a]).id
                != (#[trigger] kept[b]).id by {
                if b < kept_front.len() {
                    assert(kept_front[a].id != kept_front[b].id);
                } else {
                    assert(kept_front[a].id == kept[a].id);
                    assert(has_link(kept_front, kept_front[a].id));
                    assert(has_link(front, kept[a].id));
                    let j = choose|j: int|
                        0 <= j < front.len() && (#[trigger] front[j]).id == kept[a].id;
                    assert(links[j].id != links[links.len() - 1].id);
                }
            }
        }
    }
}

/// A link that is still open was there before.
pub proof fn lemma_still_open(links: Seq<LinkView>)
    ensures
        forall|id: AddressHash|
            #![trigger has_link(still_open(links), id)]
            has_link(still_open(links), id) ==> has_link(links, id),
        distinct_ids(links) ==> distinct_ids(still_open(links)),
    decreases links.len(),
{
    if links.len() > 0 {
        let front = links.drop_last();
        lemma_still_open(front);
        let kept = still_open(links);
        let kept_front = still_open(front);
        assert forall|id: AddressHash| has_link(kept, id) implies has_link(links, id) by {
            let i = choose|i: int| 0 <= i < kept.len() && (#[trigger] kept[i]).id == id;
            if i < kept_front.len() {
                assert(kept_front[i].id == id);
                assert(has_link(kept_front, id));
                assert(has_link(front, id));
                let j = choose|j: int| 0 <= j < front.len() && (#[trigger] front[j]).id == id;
                assert(links[j].id == id);
            } else {
                assert(links[links.len() - 1].id == id);
            }
        }
        if distinct_ids(links) {
            assert forall|a: int, b: int| 0 <= a < b < front.len() implies (#[trigger] front[a]).id
                != (#[trigger] front[b]).id by {
                assert(links[a].id != links[b].id);
            }
            assert forall|a: int, b: int| 0 <= a < b < kept.len() implies (#[trigger] kept[a]).id
                != (#[trigger] kept[b]).id by {
                if b < kept_front.len() {
                    assert(kept_front[a].id != kept_front[b].id);
                } else {
                    assert(kept_front[a].id == kept[a].id);
                    assert(has_link(kept_front, kept_front[a].id));
                    assert(has_link(front, kept[a].id));
                    let j = choose|j: int|
                        0 <= j < front.len() && (#[trigger] front[j]).id == kept[a].id;
                    assert(links[j].id != links[links.len() - 1].id);
                }
            }
        }
    }
}

/// Closes and forgets the links that peers opened and that have been
/// silent too long.
fn close_silent_links(links: &mut Vec<Link>, now: u64, actions: &mut Vec<TransportAction>)
    requires
        distinct_ids(link_views(old(links)@)),
    ensures
        distinct_ids(link_views(final(links)@)),
        link_views(final(links)@) == kept_in(link_views(old(links)@), now),
        views(final(actions)@) == views(old(actions)@) + closings(
            link_views(old(links)@),
            now,
        ),
{
    let ghost initial = link_views(links@);
    let ghost start = views(actions@);
    let ghost mut seen: int = 0;
    let mut i: usize = 0;
    assert(link_views(links@) =~= kept_in(initial.take(0), now) + initial.skip(0));
    assert(views(actions@) =~= start + closings(initial.take(0), now));
    while i < links.len()
        invariant
            distinct_ids(initial),
            0 <= seen <= initial.len(),
            i <= links@.len(),
            links@.len() - i == initial.len() - seen,
            i == kept_in(initial.take(seen), now).len(),
            link_views(links@) == kept_in(initial.take(seen), now) + initial.skip(
                seen,
            ),
            views(actions@) == start + closings(initial.take(seen), now),
        decreases links@.len() - i,
    {
        proof {
            assert(initial.take(seen + 1).drop_last() =~= initial.take(seen));
            assert(initial.take(seen + 1).last() == initial[seen]);
            assert(link_views(links@)[i as int] == initial[seen]);
        }
        if links[i].elapsed(now) > INTERVAL_INPUT_LINK_CLEANUP {
            let ghost before = link_views(links@);
            let mut link = links.remove(i);
            assert(link_views(links@) =~= before.remove(i as int));
            let id = link.id();
            let address_hash = link.destination().address_hash;
            match link.close() {
                Some(event) => {
                    push_action(
                        actions,
                        TransportAction::InLink(LinkEventData { id, address_hash, event }),
                    );
                },
                None => {},
            }
            assert(views(actions@) =~= start + closings(initial.take(seen + 1), now));
            assert(link_views(links@) =~= kept_in(initial.take(seen + 1), now)
                + initial.skip(seen + 1));
        } else {
            assert(link_views(links@) =~= kept_in(initial.take(seen + 1), now)
                + initial.skip(seen + 1));
            i += 1;
        }
        proof {
            seen = seen + 1;
        }
    }
    proof {
        assert(initial.take(seen) =~= initial);
        assert(link_views(links@) =~= kept_in(initial, now));
        lemma_kept_in(initial, now);
    }
}

/// Forgets the closed links of this node.
fn forget_closed_links(links: &mut Vec<Link>)
    requires
        distinct_ids(link_views(old(links)@)),
    ensures
        distinct_ids(link_views(final(links)@)),
        link_views(final(links)@) == still_open(link_views(old(links)@)),
{
    let ghost initial = link_views(links@);
    let ghost mut seen: int = 0;
    let mut i: usize = 0;
    assert(link_views(links@) =~= still_open(initial.take(0)) + initial.skip(0));
    while i < links.len()
        invariant
            distinct_ids(initial),
            0 <= seen <= initial.len(),
            i <= links@.len(),
            links@.len() - i == initial.len() - seen,
            i == still_open(initial.take(seen)).len(),
            link_views(links@) == still_open(initial.take(seen)) + initial.skip(
                seen,
            ),
        decreases links@.len() - i,
    {
        proof {
            assert(initial.take(seen + 1).drop_last() =~= initial.take(seen));
            assert(initial.take(seen + 1).last() == initial[seen]);
            assert(link_views(links@)[i as int] == initial[seen]);
        }
        if links[i].status() == LinkStatus::Closed {
            let ghost before = link_views(links@);
            links.remove(i);
            assert(link_views(links@) =~= before.remove(i as int));
            assert(link_views(links@) =~= still_open(initial.take(seen + 1))
                + initial.skip(seen + 1));
        } else {
            assert(link_views(links@) =~= still_open(initial.take(seen + 1))
                + initial.skip(seen + 1));
            i += 1;
        }
        proof {
            seen = seen + 1;
        }
    }
    proof {
        assert(initial.take(seen) =~= initial);
        assert(link_views(links@) =~= still_open(initial));
        lemma_still_open(initial);
    }
}

/// Looks after the links of this node: sets clocks anew and collects
/// the requests to send again.
fn tend_links(links: &mut Vec<Link>, now: u64) -> (list: Orders)
    requires
        distinct_ids(link_views(old(links)@)),
    ensures
        distinct_ids(link_views(final(links)@)),
        link_views(final(links)@) == all_tended(link_views(old(links)@), now),
        orders(list@) == repeated_requests(link_views(old(links)@), now),
{
    let ghost initial = link_views(links@);
    let mut list: Orders = Vec::new();
    let mut i: usize = 0;
    assert(orders(list@) =~= repeated_requests(initial.take(0), now));
    while i < links.len()
        invariant
            i <= links@.len(),
            links@.len() == initial.len(),
            forall|j: int|
                0 <= j < i ==> #[trigger] link_views(links@)[j] == tended(
                    initial[j],
                    now,
                ),
            forall|j: int|
                i <= j < initial.len() ==> #[trigger] link_views(links@)[j]
                    == initial[j],
            orders(list@) == repeated_requests(initial.take(i as int), now),
        decreases links@.len() - i,
    {
        proof {
            assert(initial.take(i + 1).drop_last() =~= initial.take(i as int));
            assert(initial.take(i + 1).last() == initial[i as int]);
            assert(link_views(links@)[i as int] == initial[i as int]);
        }
        let ghost before = link_views(links@);
        let ghost listed = orders(list@);
        let status = links[i].status();
        let elapsed = links[i].elapsed(now);
        if status == LinkStatus::Active && elapsed > INTERVAL_OUTPUT_LINK_RESTART {
            links[i].restart(now);
        } else if status == LinkStatus::Pending && elapsed > INTERVAL_OUTPUT_LINK_REPEAT {
            let request = links[i].request(now);
            list.push((TxMessageType::Broadcast(None), request));
            assert(orders(list@) =~= listed.push(
                (
                    TxMessageType::Broadcast(None),
                    LinkView::request_packet(
                        initial[i as int].destination,
                        initial[i as int].key_material,
                    ),
                ),
            ));
        }
        assert(link_views(links@) =~= before.update(
            i as int,
            tended(initial[i as int], now),
        ));
        i += 1;
    }
    proof {
        assert(initial.take(i as int) =~= initial);
        assert(link_views(links@) =~= all_tended(initial, now));
        assert forall|a: int, b: int|
            0 <= a < b < link_views(links@).len() implies (#[trigger] link_views(
            links@,
        )[a]).id != (#[trigger] link_views(links@)[b]).id by {
            assert(link_views(links@)[a].id == initial[a].id);
            assert(link_views(links@)[b].id == initial[b].id);
        }
    }
    list
}

impl TransportHandler {
    /// Hands the packets of `list` to the interfaces, in order.
    pub fn send_all(&mut self, list: &Orders, now: u64, actions: &mut Vec<TransportAction>)
        requires
            old(self).wf(),
        ensures
            final(self).wf(),
            final(self)@ == old(self)@.sent_all(orders(list@), now).state,
            views(final(actions)@) == views(old(actions)@) + old(self)@.sent_all(
                orders(list@),
                now,
            ).actions,
    {
        let ghost start = views(actions@);
        let ghost all = orders(list@);
        let mut i: usize = 0;
        assert(views(actions@) =~= start + old(self)@.sent_all(all.take(0), now).actions);
        while i < list.len()
            invariant
                i <= list@.len(),
                all == orders(list@),
                self.wf(),
                self@ == old(self)@.sent_all(all.take(i as int), now).state,
                views(actions@) == start + old(self)@.sent_all(all.take(i as int), now).actions,
            decreases list@.len() - i,
        {
            proof {
                assert(all.take(i + 1).drop_last() =~= all.take(i as int));
                assert(all.take(i + 1).last() == all[i as int]);
            }
            let ghost before = views(actions@);
            self.send(list[i].0, list[i].1.clone(), now, actions);
            assert(views(actions@) =~= start + old(self)@.sent_all(all.take(i + 1), now).actions);
            i += 1;
        }
        assert(all.take(i as int) =~= all);
    }

    /// Checks the links: see [`TransportState::on_check_links`].
    pub fn handle_check_links(&mut self, now: u64, actions: &mut Vec<TransportAction>)
        requires
            old(self).wf(),
        ensures
            final(self).wf(),
            final(self)@ == old(self)@.on_check_links(now).state,
            views(final(actions)@) == views(old(actions)@) + old(self)@.on_check_links(now).actions,
    {
        let ghost start = views(actions@);
        close_silent_links(&mut self.in_links, now, actions);
        forget_closed_links(&mut self.out_links);
        let list = tend_links(&mut self.out_links, now);
        self.send_all(&list, now, actions);
        assert(views(actions@) =~= start + old(self)@.on_check_links(now).actions);
    }

    /// Sends a keep-alive on every active link of this node: see
    /// [`TransportState::on_keep_links`].
    pub fn handle_keep_links(&mut self, now: u64, actions: &mut Vec<TransportAction>)
        requires
            old(self).wf(),
        ensures
            final(self).wf(),
            final(self)@ == old(self)@.on_keep_links(now).state,
            views(final(actions)@) == views(old(actions)@) + old(self)@.on_keep_links(now).actions,
    {
        let ghost links = link_views(self.out_links@);
        let mut list: Orders = Vec::new();
        let mut i: usize = 0;
        assert(orders(list@) =~= keep_alives(links.take(0)));
        while i < self.out_links.len()
            invariant
                i <= self.out_links@.len(),
                links == link_views(self.out_links@),
                orders(list@) == keep_alives(links.take(i as int)),
            decreases self.out_links@.len() - i,
        {
            proof {
                assert(links.take(i + 1).drop_last() =~= links.take(i as int));
                assert(links.take(i + 1).last() == links[i as int]);
            }
            let ghost listed = orders(list@);
            if self.out_links[i].status() == LinkStatus::Active {
                let packet = self.out_links[i].keep_alive_packet(KEEP_ALIVE_REQUEST);
                list.push((TxMessageType::Broadcast(None), packet));
                assert(orders(list@) =~= listed.push((TxMessageType::Broadcast(None), packet@)));
            }
            i += 1;
        }
        assert(links.take(i as int) =~= links);
        self.send_all(&list, now, actions);
    }

    /// Passes on the announces that are due: see
    /// [`TransportState::on_retransmit_announces`].
    pub fn retransmit_announces(&mut self, now: u64, actions: &mut Vec<TransportAction>)
        requires
            old(self).wf(),
        ensures
            final(self).wf(),
            final(self)@ == old(self)@.on_retransmit_announces(now).state,
            views(final(actions)@) == views(old(actions)@) + old(self)@.on_retransmit_announces(now).actions,
    {
        let transport_id = self.config.transport_id();
        let announces = self.announce_table.to_retransmit(&transport_id);
        let mut list: Orders = Vec::new();
        let mut i: usize = 0;
        while i < announces.len()
            invariant
                i <= announces@.len(),
                list@.len() == i,
                forall|j: int|
                    0 <= j < i ==> #[trigger] orders(list@)[j] == (
                        TxMessageType::Broadcast(Some(announces@[j].0)),
                        announces@[j].1@,
                    ),
            decreases announces@.len() - i,
        {
            let ghost listed = orders(list@);
            list.push((TxMessageType::Broadcast(Some(announces[i].0)), announces[i].1.clone()));
            assert forall|j: int| 0 <= j < i + 1 implies #[trigger] orders(list@)[j] == (
                TxMessageType::Broadcast(Some(announces@[j].0)),
                announces@[j].1@,
            ) by {
                if j < i {
                    assert(orders(list@)[j] == listed[j]);
                }
            }
            i += 1;
        }
        assert(orders(list@) =~= announce_orders(sendings(announces@)));
        self.send_all(&list, now, actions);
    }

    /// Forgets the packets seen more than
    /// [`INTERVAL_KEEP_PACKET_BRIEFLY`] ago.
    pub fn short_sweep(&mut self, now: u64)
        requires
            old(self).wf(),
        ensures
            final(self).wf(),
            final(self)@ == old(self)@.on_short_sweep(now),
    {
        self.packet_cache.release(INTERVAL_KEEP_PACKET_BRIEFLY, now);
    }

    /// Forgets the packets seen more than [`INTERVAL_KEEP_PACKET_CACHED`]
    /// ago and the links that pass through and have gone stale.
    pub fn long_sweep(&mut self, now: u64)
        requires
            old(self).wf(),
        ensures
            final(self).wf(),
            final(self)@ == old(self)@.on_long_sweep(now),
    {
        self.packet_cache.release(INTERVAL_KEEP_PACKET_CACHED, now);
        self.link_table.remove_stale(now);
    }
}

} // verus!
