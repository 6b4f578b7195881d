//! The receiving side of a channel: envelopes that arrive early wait in a
//! ring until the ones before them are in, and messages leave strictly in
//! the order of their sequence numbers, across the wrap from `0xFFFF` to 0.

use crate::channel::ascending;
use crate::channel::emplace_envelope;
use crate::channel::framing::spec_header;
use crate::channel::framing::ENVELOPE_HEADER_SIZE;
use crate::channel::holds_rank;
use crate::channel::holds_sequence;
use crate::channel::slot_for;
use crate::channel::unpacks_to;
use crate::channel::ChannelError;
use crate::channel::window::WINDOW_MAX;
use crate::channel::Envelope;
use crate::channel::Message;
use crate::destination::link::LinkId;
use std::collections::VecDeque;
use vstd::prelude::*;
use vstd::slice::slice_to_vec;

verus! {

/// Whether every envelope of the ring has a sequence.
pub open spec fn all_numbered<M: Message>(ring: Seq<Envelope<M>>) -> bool {
    forall|i: int| 0 <= i < ring.len() ==> (#[trigger] ring[i]).sequence.is_some()
}

/// Whether every envelope of the ring holds its message, unpacked.
pub open spec fn all_readable<M: Message>(ring: Seq<Envelope<M>>) -> bool {
    forall|i: int|
        0 <= i < ring.len() ==> (#[trigger] ring[i]).message.is_some() && ring[i].unpacked
}

/// The sequence number `n` places after zero, counted round the 16-bit
/// circle.
pub open spec fn wrap(n: int) -> u16 {
    (n % 0x10000) as u16
}

/// Whether the `count` envelopes from index `at` on are the longest run of
/// consecutive sequences that starts with `first` and ends no later than
/// `0xFFFF`.
pub open spec fn is_run<M: Message>(ring: Seq<Envelope<M>>, first: int, at: int, count: int)
    -> bool {
    &&& 0 <= at
    &&& 0 <= count
    &&& at + count <= ring.len()
    &&& first + count <= 0x10000
    &&& forall|j: int| at <= j < at + count ==> (#[trigger] ring[j]).rank() == first + (j - at) + 1
    &&& first + count < 0x10000 ==> !holds_rank(ring, first + count + 1)
}

/// Whether one walk over `ring` that waits for `first` ends with the ring
/// `rest`, the envelopes `taken` and the awaited sequence `next`, and asks
/// for a second walk or not: the run at index `at` of length `count` is
/// taken, the others stay in their order.
pub open spec fn is_walk<M: Message>(
    ring: Seq<Envelope<M>>,
    first: u16,
    at: int,
    count: int,
    rest: Seq<Envelope<M>>,
    taken: Seq<Envelope<M>>,
    next: u16,
    start_over: bool,
) -> bool {
    &&& is_run(ring, first as int, at, count)
    &&& rest == ring.take(at) + ring.skip(at + count)
    &&& taken == ring.subrange(at, at + count)
    &&& next == wrap(first + count)
    &&& start_over == (first + count == 0x10000)
}

/// Whether an envelope of sequence `sequence` comes too late for a
/// receiver that waits for `next`: it lies behind `next` and not within
/// [`WINDOW_MAX`] ahead of it round the circle.
pub open spec fn is_stale(next: u16, sequence: u16) -> bool {
    sequence < next && sequence + 0x10000 - next > WINDOW_MAX
}

/// Taking a run out of an ascending ring leaves an ascending ring that
/// holds exactly the ranks outside the run.
pub proof fn lemma_cut_run<M: Message>(ring: Seq<Envelope<M>>, first: int, at: int, count: int)
    requires
        ascending(ring),
        is_run(ring, first, at, count),
    ensures
        ascending(ring.take(at) + ring.skip(at + count)),
        forall|r: int|
            holds_rank(ring.take(at) + ring.skip(at + count), r) <==> (holds_rank(ring, r) && !(
            first + 1 <= r < first + count + 1)),
        forall|e: Envelope<M>|
            (ring.take(at) + ring.skip(at + count)).contains(e) ==> ring.contains(e),
        forall|e: Envelope<M>|
            ring.contains(e) ==> (ring.take(at) + ring.skip(at + count)).contains(e)
                || ring.subrange(at, at + count).contains(e),
{
    let rest = ring.take(at) + ring.skip(at + count);
    assert forall|i: int, j: int| 0 <= i < j < rest.len() implies rest[i].rank() < rest[j].rank() by {
        let a = if i < at {
            i
        } else {
            i + count
        };
        let b = if j < at {
            j
        } else {
            j + count
        };
        assert(rest[i] == ring[a]);
        assert(rest[j] == ring[b]);
    }
    assert forall|r: int|
        holds_rank(rest, r) <==> (holds_rank(ring, r) && !(first + 1 <= r < first + count + 1)) by {
        if holds_rank(rest, r) {
            let i = choose|i: int| 0 <= i < rest.len() && #[trigger] rest[i].rank() == r;
            let a = if i < at {
                i
            } else {
                i + count
            };
            assert(rest[i] == ring[a]);
            assert(ring[a].rank() == r);
            if first + 1 <= r < first + count + 1 {
                let b = at + (r - first - 1);
                assert(ring[b].rank() == r);
                assert(a != b);
            }
        }
        if holds_rank(ring, r) && !(first + 1 <= r < first + count + 1) {
            let a = choose|a: int| 0 <= a < ring.len() && #[trigger] ring[a].rank() == r;
            if at <= a < at + count {
                assert(ring[a].rank() == first + (a - at) + 1);
            }
            let i = if a < at {
                a
            } else {
                a - count
            };
            assert(rest[i] == ring[a]);
            assert(rest[i].rank() == r);
        }
    }
    assert forall|e: Envelope<M>| rest.contains(e) implies ring.contains(e) by {
        let i = choose|i: int| 0 <= i < rest.len() && rest[i] == e;
        let a = if i < at {
            i
        } else {
            i + count
        };
        assert(rest[i] == ring[a]);
    }
    assert forall|e: Envelope<M>| ring.contains(e) implies rest.contains(e) || ring.subrange(
        at,
        at + count,
    ).contains(e) by {
        let a = choose|a: int| 0 <= a < ring.len() && ring[a] == e;
        if at <= a < at + count {
            assert(ring.subrange(at, at + count)[a - at] == e);
        } else {
            let i = if a < at {
                a
            } else {
                a - count
            };
            assert(rest[i] == ring[a]);
        }
    }
}

/// Whether every envelope of `part` is one of `whole`.
#[verifier::opaque]
pub open spec fn within<M: Message>(part: Seq<Envelope<M>>, whole: Seq<Envelope<M>>) -> bool {
    forall|i: int| 0 <= i < part.len() ==> whole.contains(#[trigger] part[i])
}

/// Whether every envelope of `part` is one of `whole` or is `extra`.
#[verifier::opaque]
pub open spec fn within_or<M: Message>(
    part: Seq<Envelope<M>>,
    whole: Seq<Envelope<M>>,
    extra: Envelope<M>,
) -> bool {
    forall|i: int| 0 <= i < part.len() ==> whole.contains(#[trigger] part[i]) || part[i] == extra
}

/// Whether every envelope of `whole` is in `a` or in `b`.
#[verifier::opaque]
pub open spec fn covered<M: Message>(
    whole: Seq<Envelope<M>>,
    a: Seq<Envelope<M>>,
    b: Seq<Envelope<M>>,
) -> bool {
    forall|e: Envelope<M>| whole.contains(e) ==> a.contains(e) || b.contains(e)
}

/// Whether no envelope of `a` has the sequence of an envelope of `b`.
#[verifier::opaque]
pub open spec fn apart<M: Message>(a: Seq<Envelope<M>>, b: Seq<Envelope<M>>) -> bool {
    forall|i: int, j: int|
        0 <= i < a.len() && 0 <= j < b.len() ==> (#[trigger] a[i]).rank() != (#[trigger] b[j]).rank()
}

/// Whether the envelopes are numbered `first`, `first + 1` and so on,
/// round the 16-bit circle.
pub open spec fn in_sequence<M: Message>(taken: Seq<Envelope<M>>, first: int) -> bool {
    forall|d: int| 0 <= d < taken.len() ==> (#[trigger] taken[d]).sequence == Some(wrap(first + d))
}

/// Whether some envelope of the ring has sequence `sequence` and holds
/// `message`.
pub open spec fn carries<M: Message>(ring: Seq<Envelope<M>>, sequence: u16, message: M) -> bool {
    exists|j: int|
        0 <= j < ring.len() && (#[trigger] ring[j]).sequence == Some(sequence) && ring[j].message
            == Some(message)
}

/// Whether the message of `envelope` is among `messages` at the place that
/// its sequence gives it, counted from `first`.
pub open spec fn handed_on<M: Message>(messages: Seq<M>, first: u16, envelope: Envelope<M>)
    -> bool {
    exists|d: int|
        0 <= d < messages.len() && envelope.message == Some(#[trigger] messages[d])
            && envelope.sequence == Some(wrap(first + d))
}

/// What one walk over an ascending, numbered ring does: what stays is
/// ascending and comes from the ring, what is taken comes from the ring
/// and is numbered in sequence from the awaited one, nothing is lost, and
/// unless the walk ended on `0xFFFF` the newly awaited sequence is not
/// among what stays.
pub proof fn lemma_walk<M: Message>(
    ring: Seq<Envelope<M>>,
    first: u16,
    at: int,
    count: int,
    rest: Seq<Envelope<M>>,
    taken: Seq<Envelope<M>>,
    next: u16,
    start_over: bool,
)
    requires
        ascending(ring),
        all_numbered(ring),
        is_walk(ring, first, at, count, rest, taken, next, start_over),
    ensures
        ascending(rest),
        within(rest, ring),
        within(taken, ring),
        covered(ring, rest, taken),
        in_sequence(taken, first as int),
        taken.len() == count,
        !start_over ==> !holds_sequence(rest, next as int),
        start_over ==> !holds_rank(rest, 0x10000) && next == 0 && count >= 1,
        !holds_sequence(ring, first as int) ==> count == 0 && rest == ring,
        !holds_rank(ring, 0x10000) ==> !start_over,
        apart(rest, taken),
{
    reveal(within);
    reveal(covered);
    lemma_cut_run(ring, first as int, at, count);
    assert(apart(rest, taken)) by {
        reveal(apart);
        assert forall|i: int, j: int| 0 <= i < rest.len() && 0 <= j < taken.len() implies (
        #[trigger] rest[i]).rank() != (#[trigger] taken[j]).rank() by {
            assert(taken[j] == ring[at + j]);
            assert(ring[at + j].rank() == first + j + 1);
            assert(holds_rank(rest, rest[i].rank()));
        }
    }
    assert forall|i: int| 0 <= i < rest.len() implies ring.contains(#[trigger] rest[i]) by {
        assert(rest.contains(rest[i]));
    }
    assert forall|d: int| 0 <= d < taken.len() implies (#[trigger] taken[d]).sequence == Some(
        wrap(first + d),
    ) && ring.contains(taken[d]) by {
        assert(taken[d] == ring[at + d]);
        assert(ring[at + d].rank() == first + d + 1);
    }
    if start_over {
        assert(ring[at + count - 1].rank() == 0x10000);
    }
    if !holds_sequence(ring, first as int) {
        if count > 0 {
            assert(ring[at].rank() == first + 1);
        }
        assert(rest =~= ring);
    }
}

/// What putting `copy` at index `k` does to membership.
pub proof fn lemma_placed<M: Message>(ring: Seq<Envelope<M>>, k: int, copy: Envelope<M>)
    requires
        0 <= k <= ring.len(),
    ensures
        within_or(ring.insert(k, copy), ring, copy),
        within(ring, ring.insert(k, copy)),
        ring.insert(k, copy).contains(copy),
{
    reveal(within);
    reveal(within_or);
    let placed = ring.insert(k, copy);
    assert forall|i: int| 0 <= i < placed.len() implies ring.contains(#[trigger] placed[i])
        || placed[i] == copy by {
        if i < k {
            assert(placed[i] == ring[i]);
        } else if i > k {
            assert(placed[i] == ring[i - 1]);
        }
    }
    assert forall|j: int| 0 <= j < ring.len() implies placed.contains(#[trigger] ring[j]) by {
        if j < k {
            assert(placed[j] == ring[j]);
        } else {
            assert(placed[j + 1] == ring[j]);
        }
    }
    assert(placed[k] == copy);
}

/// Envelopes drawn from a readable, numbered ring or equal to a readable,
/// numbered newcomer are readable and numbered.
pub proof fn lemma_drawn_readable<M: Message>(
    part: Seq<Envelope<M>>,
    whole: Seq<Envelope<M>>,
    extra: Envelope<M>,
)
    requires
        within_or(part, whole, extra),
        all_numbered(whole),
        all_readable(whole),
        extra.sequence.is_some() && extra.message.is_some() && extra.unpacked,
    ensures
        all_numbered(part),
        all_readable(part),
{
    reveal(within_or);
    assert forall|i: int| 0 <= i < part.len() implies (#[trigger] part[i]).sequence.is_some()
        && part[i].message.is_some() && part[i].unpacked by {
        if whole.contains(part[i]) {
            let j = choose|j: int| 0 <= j < whole.len() && whole[j] == part[i];
        }
    }
}

/// Being drawn from a ring passes on from part to part.
pub proof fn lemma_within_chain<M: Message>(
    part: Seq<Envelope<M>>,
    middle: Seq<Envelope<M>>,
    whole: Seq<Envelope<M>>,
    extra: Envelope<M>,
)
    requires
        within(part, middle),
        within_or(middle, whole, extra),
    ensures
        within_or(part, whole, extra),
{
    reveal(within);
    reveal(within_or);
    assert forall|i: int| 0 <= i < part.len() implies whole.contains(#[trigger] part[i]) || part[i]
        == extra by {
        let j = choose|j: int| 0 <= j < middle.len() && middle[j] == part[i];
        assert(whole.contains(middle[j]) || middle[j] == extra);
    }
}

/// A ring is drawn from itself, and covered by itself.
pub proof fn lemma_untouched<M: Message>(ring: Seq<Envelope<M>>, extra: Envelope<M>)
    ensures
        within(ring, ring),
        within_or(ring, ring, extra),
        within_or(Seq::<Envelope<M>>::empty(), ring, extra),
        covered(ring, ring, Seq::<Envelope<M>>::empty()),
        apart(ring, Seq::<Envelope<M>>::empty()),
{
    reveal(apart);
    reveal(within);
    reveal(within_or);
    reveal(covered);
    assert forall|i: int| 0 <= i < ring.len() implies ring.contains(#[trigger] ring[i]) by {}
}

/// What is covered stays covered when seen from a part of it.
pub proof fn lemma_covered_chain<M: Message>(
    part: Seq<Envelope<M>>,
    whole: Seq<Envelope<M>>,
    a: Seq<Envelope<M>>,
    b: Seq<Envelope<M>>,
)
    requires
        within(part, whole),
        covered(whole, a, b),
    ensures
        covered(part, a, b),
{
    reveal(within);
    reveal(covered);
    assert forall|e: Envelope<M>| part.contains(e) implies a.contains(e) || b.contains(e) by {
        let j = choose|j: int| 0 <= j < part.len() && part[j] == e;
        assert(whole.contains(part[j]));
    }
}

/// An envelope of a covered ring is in one of the two covers.
pub proof fn lemma_covered_holds<M: Message>(
    whole: Seq<Envelope<M>>,
    a: Seq<Envelope<M>>,
    b: Seq<Envelope<M>>,
    e: Envelope<M>,
)
    requires
        covered(whole, a, b),
        whole.contains(e),
    ensures
        a.contains(e) || b.contains(e),
{
    reveal(covered);
}

/// Messages leave in the order of their numbers, call after call: what
/// one call hands on and what the next call hands on, which starts where
/// the first left off, make one run without gap or repeat.
pub proof fn lemma_handed_on_in_order<M: Message>(
    first: Seq<Envelope<M>>,
    second: Seq<Envelope<M>>,
    next: u16,
)
    requires
        in_sequence(first, next as int),
        in_sequence(second, wrap(next + first.len()) as int),
    ensures
        in_sequence(first + second, next as int),
{
    let all = first + second;
    assert forall|d: int| 0 <= d < all.len() implies (#[trigger] all[d]).sequence == Some(
        wrap(next + d),
    ) by {
        if d < first.len() {
            assert(all[d] == first[d]);
        } else {
            assert(all[d] == second[d - first.len()]);
            assert(wrap(wrap(next + first.len()) + (d - first.len())) == wrap(next + d));
        }
    }
}

/// Whether taking in `envelope` leads from the ring `before` that waits
/// for `next` to the ring `after` that waits for `after_next`, with the
/// envelopes `delivered` handed on.
///
/// A stale envelope, and one whose sequence the ring holds, changes
/// nothing. Any other is in the ring afterwards or among the delivered.
/// The delivered are numbered in sequence from `next`, the awaited
/// sequence moves past them, every envelope that was in the ring is still
/// there or among the delivered, and no sequence is both in the ring and
/// among the delivered.
pub open spec fn took_in<M: Message>(
    before: Seq<Envelope<M>>,
    next: u16,
    after: Seq<Envelope<M>>,
    after_next: u16,
    envelope: Envelope<M>,
    delivered: Seq<Envelope<M>>,
) -> bool {
    &&& after_next == wrap(next + delivered.len())
    &&& in_sequence(delivered, next as int)
    &&& within_or(delivered, before, envelope.ring_copy())
    &&& within_or(after, before, envelope.ring_copy())
    &&& covered(before, after, delivered)
    &&& apart(after, delivered)
    &&& if is_stale(next, envelope.sequence.unwrap()) || holds_sequence(
        before,
        envelope.sequence.unwrap() as int,
    ) {
        delivered.len() == 0 && after == before
    } else {
        after.contains(envelope.ring_copy()) || delivered.contains(envelope.ring_copy())
    }
}

/// Whether a receiver on `link` that gets the frame `raw` at time `now`,
/// and whose application unpacks it to `outcome`, goes from the ring
/// `before` that waits for `next` to the ring `after` that waits for
/// `after_next`, and hands on `messages`.
///
/// A frame that does not unpack changes nothing. One that does is taken in
/// as an envelope made at `now` for `link`, holding the frame and the
/// message, under the sequence from the header of the frame: see
/// [`took_in`]. The messages handed on are those of the envelopes
/// delivered, in the same order.
pub open spec fn received<M: Message>(
    before: Seq<Envelope<M>>,
    next: u16,
    link: LinkId,
    after: Seq<Envelope<M>>,
    after_next: u16,
    raw: Seq<u8>,
    now: u64,
    outcome: Result<M, ChannelError>,
    messages: Seq<M>,
) -> bool {
    match outcome {
        Err(_) => messages.len() == 0 && after == before && after_next == next,
        Ok(message) => exists|frame: Vec<u8>, delivered: Seq<Envelope<M>>| #[trigger]
            took_in(
                before,
                next,
                after,
                after_next,
                Envelope::spec_new(link, None, Some(frame), None, now).opened(
                    spec_header(raw).1,
                    message,
                ),
                delivered,
            ) && frame@ == raw && messages.len() == delivered.len() && forall|i: int|
                0 <= i < delivered.len() ==> (#[trigger] delivered[i]).message == Some(
                    messages[i],
                ),
    }
}

/// One call at the receiving end: the envelope that was taken in, the
/// envelopes that were handed on, and the ring and the awaited sequence
/// after the call.
pub struct Call<M: Message> {
    pub envelope: Envelope<M>,
    pub delivered: Seq<Envelope<M>>,
    pub ring: Seq<Envelope<M>>,
    pub next: u16,
}

/// The sequence awaited after the calls `steps`, the first of which found
/// `first` awaited.
pub open spec fn awaited_after<M: Message>(first: u16, steps: Seq<Call<M>>) -> u16 {
    if steps.len() == 0 {
        first
    } else {
        steps.last().next
    }
}

/// The ring after the calls `steps`, the first of which found the ring
/// `start`.
pub open spec fn ring_after<M: Message>(start: Seq<Envelope<M>>, steps: Seq<Call<M>>) -> Seq<
    Envelope<M>,
> {
    if steps.len() == 0 {
        start
    } else {
        steps.last().ring
    }
}

/// Whether `steps` is a run of calls as far as what they hand on goes,
/// starting with `first` awaited: each call hands on envelopes numbered in
/// sequence from what was awaited before it, and moves the awaited
/// sequence past them.
pub open spec fn is_run_of_calls<M: Message>(first: u16, steps: Seq<Call<M>>) -> bool
    decreases steps.len(),
{
    if steps.len() == 0 {
        true
    } else {
        let awaited = awaited_after(first, steps.drop_last());
        &&& is_run_of_calls(first, steps.drop_last())
        &&& in_sequence(steps.last().delivered, awaited as int)
        &&& steps.last().next == wrap(awaited + steps.last().delivered.len())
    }
}

/// Whether `steps` is a run of calls of [`ChannelReceiver::take_in`] on a
/// receiver that starts with the ring `start` and `first` awaited: each
/// call takes its envelope in as [`took_in`] says, and leaves a ring that
/// does not hold the awaited sequence.
pub open spec fn is_trace<M: Message>(
    start: Seq<Envelope<M>>,
    first: u16,
    steps: Seq<Call<M>>,
) -> bool
    decreases steps.len(),
{
    if steps.len() == 0 {
        true
    } else {
        &&& is_trace(start, first, steps.drop_last())
        &&& steps.last().envelope.sequence.is_some()
        &&& took_in(
            ring_after(start, steps.drop_last()),
            awaited_after(first, steps.drop_last()),
            steps.last().ring,
            steps.last().next,
            steps.last().envelope,
            steps.last().delivered,
        )
        &&& !holds_sequence(steps.last().ring, steps.last().next as int)
    }
}

/// Whether an envelope of sequence `sequence` was taken in by one of the
/// calls.
pub open spec fn arrived<M: Message>(steps: Seq<Call<M>>, sequence: u16) -> bool {
    exists|i: int| 0 <= i < steps.len() && (#[trigger] steps[i]).envelope.sequence == Some(sequence)
}

/// Everything that the calls `steps` handed on, in the order in which it
/// was handed on.
pub open spec fn all_handed_on<M: Message>(steps: Seq<Call<M>>) -> Seq<Envelope<M>>
    decreases steps.len(),
{
    if steps.len() == 0 {
        Seq::empty()
    } else {
        all_handed_on(steps.drop_last()) + steps.last().delivered
    }
}

/// Over a whole run of calls, in whatever order the frames come in, the
/// messages leave in the order in which they were sent: what the calls
/// hand on, put end to end, is numbered `first`, `first + 1` and so on
/// round the 16-bit circle, without gap or repeat, and the sequence
/// awaited in the end lies just past it.
pub proof fn lemma_order_over_a_run<M: Message>(first: u16, steps: Seq<Call<M>>)
    requires
        is_run_of_calls(first, steps),
    ensures
        in_sequence(all_handed_on(steps), first as int),
        awaited_after(first, steps) == wrap(first + all_handed_on(steps).len()),
    decreases steps.len(),
{
    if steps.len() > 0 {
        let before = steps.drop_last();
        lemma_order_over_a_run(first, before);
        lemma_handed_on_in_order(all_handed_on(before), steps.last().delivered, first);
        assert(wrap(wrap(first + all_handed_on(before).len()) + steps.last().delivered.len())
            == wrap(first + all_handed_on(steps).len()));
    }
}

/// A run of calls of `take_in` is a run of calls as far as what they hand
/// on goes.
pub proof fn lemma_trace_is_run<M: Message>(
    start: Seq<Envelope<M>>,
    first: u16,
    steps: Seq<Call<M>>,
)
    requires
        is_trace(start, first, steps),
    ensures
        is_run_of_calls(first, steps),
    decreases steps.len(),
{
    if steps.len() > 0 {
        lemma_trace_is_run(start, first, steps.drop_last());
    }
}

/// An envelope that was taken in while its sequence was still to come, and
/// no more than [`WINDOW_MAX`] ahead, is not lost: after the run it has
/// been handed on, or an envelope of its sequence waits in the ring.
pub proof fn lemma_taken_in_is_kept<M: Message>(
    start: Seq<Envelope<M>>,
    first: u16,
    steps: Seq<Call<M>>,
    ahead: int,
)
    requires
        is_trace(start, first, steps),
        0 <= ahead <= WINDOW_MAX,
        arrived(steps, wrap(first + ahead)),
    ensures
        all_handed_on(steps).len() > ahead || holds_sequence(
            ring_after(start, steps),
            wrap(first + ahead) as int,
        ),
    decreases steps.len(),
{
    reveal(within_or);
    reveal(covered);
    let sought = wrap(first + ahead);
    let before = steps.drop_last();
    let last = steps.last();
    let handed = all_handed_on(before).len() as int;
    let awaited = awaited_after(first, before);
    let ring = ring_after(start, before);
    lemma_trace_is_run(start, first, before);
    lemma_order_over_a_run(first, before);
    assert(awaited == wrap(first + handed));
    if handed > ahead {
    } else {
        // where an envelope of the sought sequence is handed on by this
        // call, the call hands on more than enough
        assert forall|d: int|
            0 <= d < last.delivered.len() && (#[trigger] last.delivered[d]).sequence == Some(
                sought,
            ) implies handed + last.delivered.len() > ahead by {
            assert(last.delivered[d].sequence == Some(wrap(awaited + d)));
            if handed + d < ahead {
                assert(wrap(awaited + d) == wrap(first + handed + d));
                assert(wrap(first + handed + d) != wrap(first + ahead));
            }
        }
        if arrived(before, sought) {
            lemma_taken_in_is_kept(start, first, before, ahead);
            assert(holds_sequence(ring, sought as int));
        } else {
            let i = choose|i: int|
                0 <= i < steps.len() && (#[trigger] steps[i]).envelope.sequence == Some(sought);
            if i < before.len() {
                assert(before[i].envelope.sequence == Some(sought));
            }
            assert(last.envelope.sequence == Some(sought));
            assert(!is_stale(awaited, sought));
        }
        if holds_sequence(ring, sought as int) {
            if is_stale(awaited, last.envelope.sequence.unwrap()) || holds_sequence(
                ring,
                last.envelope.sequence.unwrap() as int,
            ) {
                assert(last.ring == ring);
            } else {
                let k = choose|k: int| 0 <= k < ring.len() && #[trigger] ring[k].rank() == sought + 1;
                assert(ring.contains(ring[k]));
                if last.ring.contains(ring[k]) {
                    let m = choose|m: int| 0 <= m < last.ring.len() && last.ring[m] == ring[k];
                    assert(last.ring[m].rank() == sought + 1);
                } else {
                    let d = choose|d: int|
                        0 <= d < last.delivered.len() && last.delivered[d] == ring[k];
                    assert(last.delivered[d].sequence == Some(sought));
                }
            }
        } else {
            let copy = last.envelope.ring_copy();
            if last.ring.contains(copy) {
                let m = choose|m: int| 0 <= m < last.ring.len() && last.ring[m] == copy;
                assert(last.ring[m].rank() == sought + 1);
            } else {
                let d = choose|d: int| 0 <= d < last.delivered.len() && last.delivered[d] == copy;
                assert(last.delivered[d].sequence == Some(sought));
            }
        }
    }
}

/// Every message that was sent is handed on once all of them have come
/// in, in whatever order they came: where the envelopes of sequences
/// `first` to `first + last`, `last` below [`WINDOW_MAX`], have all been
/// taken in, more than `last` envelopes have been handed on, and by
/// [`lemma_order_over_a_run`] these are the envelopes sent, in the order
/// in which they were sent.
pub proof fn lemma_all_that_came_is_handed_on<M: Message>(
    start: Seq<Envelope<M>>,
    first: u16,
    steps: Seq<Call<M>>,
    last: int,
)
    requires
        is_trace(start, first, steps),
        0 <= last < WINDOW_MAX,
        forall|ahead: int| 0 <= ahead <= last ==> arrived(steps, #[trigger] wrap(first + ahead)),
    ensures
        all_handed_on(steps).len() > last,
        in_sequence(all_handed_on(steps), first as int),
{
    lemma_trace_is_run(start, first, steps);
    lemma_order_over_a_run(first, steps);
    let handed = all_handed_on(steps).len() as int;
    if handed <= last {
        assert(arrived(steps, wrap(first + handed)));
        lemma_taken_in_is_kept(start, first, steps, handed);
        assert(steps.len() > 0);
        assert(steps.last().next == wrap(first + handed));
    }
}

/// A frame that has been handed on does nothing when it comes again.
///
/// Where a receiver with an empty ring takes in the envelope it awaits,
/// and the awaited sequence is not `0xFFFF`, that envelope alone is handed
/// on, and an envelope of the same sequence that is taken in next changes
/// nothing and hands nothing on.
pub proof fn lemma_repeat_does_nothing<M: Message>(
    next: u16,
    after: Seq<Envelope<M>>,
    after_next: u16,
    envelope: Envelope<M>,
    delivered: Seq<Envelope<M>>,
    again: Envelope<M>,
    later: Seq<Envelope<M>>,
    later_next: u16,
    delivered_again: Seq<Envelope<M>>,
)
    requires
        next != 0xFFFF,
        envelope.sequence == Some(next),
        again.sequence == Some(next),
        took_in(Seq::<Envelope<M>>::empty(), next, after, after_next, envelope, delivered),
        !holds_sequence(after, after_next as int),
        took_in(after, after_next, later, later_next, again, delivered_again),
    ensures
        delivered == seq![envelope.ring_copy()],
        after == Seq::<Envelope<M>>::empty(),
        after_next == next + 1,
        delivered_again == Seq::<Envelope<M>>::empty(),
        later == after,
        later_next == after_next,
{
    reveal(within_or);
    reveal(covered);
    reveal(apart);
    let nothing = Seq::<Envelope<M>>::empty();
    let copy = envelope.ring_copy();
    assert(!holds_sequence(nothing, next as int));
    assert forall|d: int| 0 <= d < delivered.len() implies #[trigger] delivered[d] == copy by {
        assert(!nothing.contains(delivered[d]));
    }
    assert forall|i: int| 0 <= i < after.len() implies #[trigger] after[i] == copy by {
        assert(!nothing.contains(after[i]));
    }
    if delivered.len() == 0 {
        assert(after.contains(copy));
        let i = choose|i: int| 0 <= i < after.len() && after[i] == copy;
        assert(after[i].rank() == next + 1);
    }
    if delivered.len() >= 2 {
        assert(delivered[1].sequence == Some(wrap(next + 1)));
    }
    assert(delivered.len() == 1);
    assert(delivered =~= seq![copy]);
    if after.len() > 0 {
        assert(after[0].rank() != delivered[0].rank());
    }
    assert(after =~= nothing);
    assert(is_stale(after_next, next));
    assert(delivered_again =~= nothing);
}

/// The receiving end of a channel.
#[derive(Debug)]
pub struct ChannelReceiver<M: Message> {
    rx_ring: VecDeque<Envelope<M>>,
    next_rx_sequence: u16,
    link_id: LinkId,
}

impl<M: Message> ChannelReceiver<M> {
    /// The envelopes that wait for their turn.
    pub closed spec fn ring(&self) -> Seq<Envelope<M>> {
        self.rx_ring@
    }

    /// The sequence that is handed on next.
    pub closed spec fn next(&self) -> u16 {
        self.next_rx_sequence
    }

    /// The link that the receiver listens on.
    pub closed spec fn link(&self) -> LinkId {
        self.link_id
    }

    /// The ring is in ascending order of sequence, every envelope in it is
    /// numbered and unpacked, and none of them is the one waited for.
    pub open spec fn wf(&self) -> bool {
        &&& ascending(self.ring())
        &&& all_numbered(self.ring())
        &&& all_readable(self.ring())
        &&& !holds_sequence(self.ring(), self.next() as int)
    }

    /// A receiver for link `link_id` that waits for sequence 0.
    pub fn new(link_id: LinkId) -> (receiver: ChannelReceiver<M>)
        ensures
            receiver.wf(),
            receiver.ring() == Seq::<Envelope<M>>::empty(),
            receiver.next() == 0,
            receiver.link() == link_id,
    {
        ChannelReceiver { rx_ring: VecDeque::new(), next_rx_sequence: 0, link_id }
    }

    /// The sequence that is handed on next.
    pub fn next_rx_sequence(&self) -> (next: u16)
        ensures
            next == self.next(),
    {
        self.next_rx_sequence
    }

    /// How many envelopes wait for their turn.
    pub fn waiting(&self) -> (count: usize)
        ensures
            count == self.ring().len(),
    {
        self.rx_ring.len()
    }

    /// Forgets every envelope that waits.
    pub fn clear(&mut self)
        ensures
            final(self).ring() == Seq::<Envelope<M>>::empty(),
            final(self).next() == old(self).next(),
            final(self).link() == old(self).link(),
            final(self).wf(),
    {
        self.rx_ring.clear();
    }

    /// Walks the ring once from the front and moves the run of envelopes
    /// that starts with the awaited sequence over to `contiguous`. The walk
    /// ends early after sequence `0xFFFF`: the answer `true` asks for a
    /// second walk, which picks up at sequence 0.
    pub fn receive_traverse_ring(&mut self, contiguous: &mut Vec<Envelope<M>>) -> (start_over: bool)
        requires
            ascending(old(self).ring()),
            all_numbered(old(self).ring()),
        ensures
            final(self).link() == old(self).link(),
            final(contiguous)@.len() >= old(contiguous)@.len(),
            final(contiguous)@.take(old(contiguous)@.len() as int) == old(contiguous)@,
            exists|at: int, count: int|
                is_walk(
                    old(self).ring(),
                    old(self).next(),
                    at,
                    count,
                    final(self).ring(),
                    final(contiguous)@.skip(old(contiguous)@.len() as int),
                    final(self).next(),
                    start_over,
                ),
    {
        let ghost ring0 = self.rx_ring@;
        let ghost first = self.next_rx_sequence as int;
        let ghost mut at: int = 0;
        let ghost mut count: int = 0;
        let ghost mut seen: int = 0;
        let mut retained: VecDeque<Envelope<M>> = VecDeque::new();
        let mut start_over = false;
        loop
            invariant_except_break
                !start_over,
                self.next_rx_sequence == first + count,
            invariant
                ascending(ring0),
                all_numbered(ring0),
                self.link_id == old(self).link_id,
                0 <= at,
                0 <= count,
                at + count <= seen <= ring0.len(),
                count == 0 ==> at == seen,
                self.rx_ring@ == ring0.skip(seen),
                retained@ == ring0.take(at) + ring0.subrange(at + count, seen),
                contiguous@ == old(contiguous)@ + ring0.subrange(at, at + count),
                first + count <= 0x10000,
                forall|j: int|
                    at <= j < at + count ==> (#[trigger] ring0[j]).rank() == first + (j - at) + 1,
                forall|j: int|
                    at + count <= j < seen ==> (#[trigger] ring0[j]).rank() > first + count + 1,
                forall|j: int| 0 <= j < at ==> (#[trigger] ring0[j]).rank() != first + count + 1,
            ensures
                start_over ==> first + count == 0x10000 && self.next_rx_sequence == 0,
                !start_over ==> self.next_rx_sequence == first + count && seen == ring0.len(),
                self.rx_ring@.len() == 0,
            decreases ring0.len() - seen,
        {
            match self.rx_ring.pop_front() {
                None => {
                    break ;
                },
                Some(envelope) => {
                    assert(envelope == ring0[seen]);
                    assert(self.rx_ring@ =~= ring0.skip(seen + 1));
                    match envelope.sequence {
                        Some(sequence) => {
                            if sequence == self.next_rx_sequence {
                                proof {
                                    if count > 0 && at + count < seen {
                                        assert(ring0[seen - 1].rank() > first + count + 1);
                                        assert(ring0[seen - 1].rank() < ring0[seen].rank());
                                    }
                                    assert(at + count == seen);
                                    assert(old(contiguous)@ + ring0.subrange(at, at + count).push(
                                        envelope,
                                    ) =~= old(contiguous)@ + ring0.subrange(at, at + count + 1));
                                    assert(ring0.take(at) + ring0.subrange(at + count, seen)
                                        =~= ring0.take(at) + ring0.subrange(
                                        at + count + 1,
                                        seen + 1,
                                    ));
                                }
                                contiguous.push(envelope);
                                proof {
                                    count = count + 1;
                                    seen = seen + 1;
                                }
                                if self.next_rx_sequence == 0xFFFF {
                                    self.next_rx_sequence = 0;
                                    start_over = true;
                                    proof {
                                        if seen < ring0.len() {
                                            assert(ring0[seen - 1].rank() < ring0[seen].rank());
                                            assert(ring0[seen].sequence.is_some());
                                        }
                                        assert(seen == ring0.len());
                                    }
                                    break ;
                                }
                                self.next_rx_sequence = self.next_rx_sequence + 1;
                                proof {
                                    assert forall|j: int| 0 <= j < at implies (
                                    #[trigger] ring0[j]).rank() != first + count + 1 by {
                                        assert(ring0[j].rank() < ring0[at].rank());
                                    }
                                }
                            } else {
                                proof {
                                    if count > 0 {
                                        assert(ring0[at + count - 1].rank() < ring0[seen].rank());
                                    }
                                    assert(ring0.take(at) + ring0.subrange(at + count, seen + 1)
                                        =~= (ring0.take(at) + ring0.subrange(
                                        at + count,
                                        seen,
                                    )).push(envelope));
                                }
                                retained.push_back(envelope);
                                proof {
                                    if count == 0 {
                                        at = seen + 1;
                                    }
                                    seen = seen + 1;
                                    if count == 0 {
                                        assert(retained@ =~= ring0.take(at) + ring0.subrange(
                                            at + count,
                                            seen,
                                        ));
                                        assert(ring0.subrange(at, at + count) =~= Seq::<
                                            Envelope<M>,
                                        >::empty());
                                        assert(contiguous@ =~= old(contiguous)@ + ring0.subrange(
                                            at,
                                            at + count,
                                        ));
                                    }
                                }
                            }
                        },
                        None => {
                            assert(false);
                        },
                    }
                },
            }
        }
        self.rx_ring.append(&mut retained);
        proof {
            assert(self.rx_ring@ =~= ring0.take(at) + ring0.skip(at + count));
            if first + count < 0x10000 {
                assert forall|i: int| 0 <= i < ring0.len() implies (#[trigger] ring0[i]).rank()
                    != first + count + 1 by {
                    if at <= i < at + count {
                        assert(ring0[i].rank() == first + (i - at) + 1);
                    }
                }
            }
            assert(is_run(ring0, first, at, count));
            assert(contiguous@.take(old(contiguous)@.len() as int) =~= old(contiguous)@);
            assert(contiguous@.skip(old(contiguous)@.len() as int) =~= ring0.subrange(
                at,
                at + count,
            ));
            assert(is_walk(
                ring0,
                old(self).next(),
                at,
                count,
                self.ring(),
                contiguous@.skip(old(contiguous)@.len() as int),
                self.next(),
                start_over,
            ));
        }
        start_over
    }

    /// Whether `envelope` can go into the ring: it is numbered and holds
    /// its message, unpacked.
    pub open spec fn fit_for_ring(envelope: Envelope<M>) -> bool {
        envelope.sequence.is_some() && envelope.message.is_some() && envelope.unpacked
    }

    /// Takes in an unpacked envelope and hands back the envelopes whose
    /// turn has come, in order.
    ///
    /// A stale envelope, and one whose sequence already waits in the ring,
    /// is dropped. Any other goes into the ring. Then the envelopes with
    /// the awaited sequence and the ones that follow it without a gap
    /// leave the ring, across the wrap from `0xFFFF` to 0 if need be, and
    /// the awaited sequence moves past them.
    pub fn take_in(&mut self, envelope: Envelope<M>) -> (delivered: Vec<Envelope<M>>)
        requires
            old(self).wf(),
            Self::fit_for_ring(envelope),
        ensures
            final(self).wf(),
            final(self).link() == old(self).link(),
            final(self).next() == wrap(old(self).next() + delivered@.len()),
            in_sequence(delivered@, old(self).next() as int),
            within_or(delivered@, old(self).ring(), envelope.ring_copy()),
            within_or(final(self).ring(), old(self).ring(), envelope.ring_copy()),
            covered(old(self).ring(), final(self).ring(), delivered@),
            apart(final(self).ring(), delivered@),
            took_in(
                old(self).ring(),
                old(self).next(),
                final(self).ring(),
                final(self).next(),
                envelope,
                delivered@,
            ),
            is_stale(old(self).next(), envelope.sequence.unwrap()) || holds_sequence(
                old(self).ring(),
                envelope.sequence.unwrap() as int,
            ) ==> delivered@.len() == 0 && final(self).ring() == old(self).ring(),
            !is_stale(old(self).next(), envelope.sequence.unwrap()) && !holds_sequence(
                old(self).ring(),
                envelope.sequence.unwrap() as int,
            ) ==> final(self).ring().contains(envelope.ring_copy()) || delivered@.contains(
                envelope.ring_copy(),
            ),
    {
        let ghost ring0 = self.rx_ring@;
        let ghost copy = envelope.ring_copy();
        proof {
            lemma_untouched(ring0, copy);
        }
        let sequence = match envelope.sequence {
            Some(s) => s,
            None => {
                return Vec::new();
            },
        };
        if sequence < self.next_rx_sequence {
            let ahead: u32 = sequence as u32 + 0x10000 - self.next_rx_sequence as u32;
            if ahead > WINDOW_MAX as u32 {
                return Vec::new();
            }
        }
        let inserted = self.place(envelope);
        let ghost ring1 = self.rx_ring@;
        let delivered = self.drain();
        proof {
            lemma_within_chain(self.ring(), ring1, ring0, copy);
            lemma_within_chain(delivered@, ring1, ring0, copy);
            lemma_drawn_readable(self.ring(), ring0, copy);
            lemma_covered_chain(ring0, ring1, self.ring(), delivered@);
            if inserted {
                lemma_covered_holds(ring1, self.ring(), delivered@, copy);
            }
        }
        delivered
    }

    /// Puts an envelope into the ring where its sequence belongs, unless
    /// the ring holds that sequence already.
    fn place(&mut self, envelope: Envelope<M>) -> (inserted: bool)
        requires
            ascending(old(self).ring()),
            all_numbered(old(self).ring()),
            all_readable(old(self).ring()),
            Self::fit_for_ring(envelope),
        ensures
            final(self).link() == old(self).link(),
            final(self).next() == old(self).next(),
            inserted == !holds_sequence(old(self).ring(), envelope.sequence.unwrap() as int),
            !inserted ==> final(self).ring() == old(self).ring(),
            inserted ==> final(self).ring().contains(envelope.ring_copy()),
            ascending(final(self).ring()),
            all_numbered(final(self).ring()),
            all_readable(final(self).ring()),
            within_or(final(self).ring(), old(self).ring(), envelope.ring_copy()),
            within(old(self).ring(), final(self).ring()),
    {
        let ghost ring0 = self.rx_ring@;
        let ghost copy = envelope.ring_copy();
        let inserted = emplace_envelope(&mut self.rx_ring, envelope);
        proof {
            lemma_untouched(ring0, copy);
            if inserted {
                let k = choose|k: int| #[trigger]
                    slot_for(ring0, envelope.rank(), k) && self.rx_ring@ == ring0.insert(k, copy);
                lemma_placed(ring0, k, copy);
            }
            lemma_drawn_readable(self.rx_ring@, ring0, copy);
        }
        inserted
    }

    /// Takes out of the ring the envelopes with the awaited sequence and
    /// the ones that follow it without a gap, across the wrap from
    /// `0xFFFF` to 0 if need be.
    fn drain(&mut self) -> (delivered: Vec<Envelope<M>>)
        requires
            ascending(old(self).ring()),
            all_numbered(old(self).ring()),
        ensures
            final(self).link() == old(self).link(),
            final(self).next() == wrap(old(self).next() + delivered@.len()),
            ascending(final(self).ring()),
            !holds_sequence(final(self).ring(), final(self).next() as int),
            in_sequence(delivered@, old(self).next() as int),
            within(final(self).ring(), old(self).ring()),
            within(delivered@, old(self).ring()),
            covered(old(self).ring(), final(self).ring(), delivered@),
            apart(final(self).ring(), delivered@),
            !holds_sequence(old(self).ring(), old(self).next() as int) ==> delivered@.len() == 0
                && final(self).ring() == old(self).ring(),
    {
        let mut contiguous: Vec<Envelope<M>> = Vec::new();
        let ghost ring1 = self.rx_ring@;
        let ghost next0 = self.next_rx_sequence;
        let start_over = self.receive_traverse_ring(&mut contiguous);
        let ghost ring2 = self.rx_ring@;
        let ghost taken1 = contiguous@;
        let ghost next1 = self.next_rx_sequence;
        proof {
            assert(contiguous@.skip(0) =~= contiguous@);
            let (a1, c1) = choose|at: int, count: int|
                is_walk(ring1, next0, at, count, ring2, taken1, next1, start_over);
            lemma_walk(ring1, next0, a1, c1, ring2, taken1, next1, start_over);
            lemma_walk_numbered(ring2, ring1);
        }
        if start_over {
            let again = self.receive_traverse_ring(&mut contiguous);
            proof {
                let ring3 = self.rx_ring@;
                let taken2 = contiguous@.skip(taken1.len() as int);
                let (a2, c2) = choose|at: int, count: int|
                    is_walk(ring2, next1, at, count, ring3, taken2, self.next_rx_sequence, again);
                lemma_walk(ring2, next1, a2, c2, ring3, taken2, self.next_rx_sequence, again);
                assert(contiguous@ =~= taken1 + taken2);
                lemma_two_walks(ring1, ring2, ring3, taken1, taken2, next0);
            }
        }
        contiguous
    }

    /// Takes in a frame as it came over the link and hands back the
    /// messages whose turn has come, in order.
    ///
    /// The frame is unpacked with [`Message::unpack`]. A frame that is too
    /// short for a header, or that does not unpack, is dropped, and so is a
    /// stale or repeated one: then nothing is handed back and the ring
    /// stays as it is. Every message handed back is that of the envelope
    /// with the next sequence in line, either one that waited in the ring
    /// or the one that just came. What becomes of a frame that holds a
    /// header follows from what `unpack` answered: see [`received`].
    pub fn receive(&mut self, raw: &[u8], now: u64) -> (messages: Vec<M>)
        requires
            old(self).wf(),
        ensures
            final(self).wf(),
            final(self).link() == old(self).link(),
            final(self).next() == wrap(old(self).next() + messages@.len()),
            raw@.len() < ENVELOPE_HEADER_SIZE || is_stale(old(self).next(), spec_header(raw@).1)
                || holds_sequence(old(self).ring(), spec_header(raw@).1 as int) ==> messages@.len()
                == 0 && final(self).ring() == old(self).ring(),
            forall|d: int|
                0 <= d < messages@.len() ==> spec_header(raw@).1 == wrap(old(self).next() + d)
                    || carries(
                    old(self).ring(),
                    wrap(old(self).next() + d),
                    #[trigger] messages@[d],
                ),
            forall|i: int|
                0 <= i < final(self).ring().len() ==> old(self).ring().contains(
                    #[trigger] final(self).ring()[i],
                ) || final(self).ring()[i].sequence == Some(spec_header(raw@).1),
            forall|e: Envelope<M>|
                old(self).ring().contains(e) ==> final(self).ring().contains(e) || handed_on(
                    messages@,
                    old(self).next(),
                    e,
                ),
            raw@.len() >= ENVELOPE_HEADER_SIZE ==> exists|outcome: Result<M, ChannelError>|
                #[trigger] unpacks_to(raw@, outcome) && received(
                    old(self).ring(),
                    old(self).next(),
                    old(self).link(),
                    final(self).ring(),
                    final(self).next(),
                    raw@,
                    now,
                    outcome,
                    messages@,
                ),
    {
        let frame = slice_to_vec(raw);
        let ghost held = frame;
        let mut envelope: Envelope<M> = Envelope::new(self.link_id, None, Some(frame), None, now);
        let ghost fresh = envelope;
        let unpacked = envelope.unpack();
        let ghost answer = if raw@.len() >= ENVELOPE_HEADER_SIZE {
            choose|outcome: Result<M, ChannelError>| #[trigger]
                unpacks_to(raw@, outcome) && match outcome {
                    Ok(message) => unpacked == Ok::<(), ChannelError>(()) && envelope
                        == fresh.opened(spec_header(raw@).1, message),
                    Err(e) => unpacked == Err::<(), ChannelError>(e) && envelope == fresh,
                }
        } else {
            Err(ChannelError::Misc)
        };
        match unpacked {
            Ok(()) => {},
            Err(_) => {
                let nothing: Vec<M> = Vec::new();
                proof {
                    if raw@.len() >= ENVELOPE_HEADER_SIZE {
                        assert(answer is Err);
                        assert(received(
                            old(self).ring(),
                            old(self).next(),
                            old(self).link(),
                            self.ring(),
                            self.next(),
                            raw@,
                            now,
                            answer,
                            nothing@,
                        ));
                    }
                }
                return nothing;
            },
        }
        let ghost copy = envelope.ring_copy();
        let ghost opened = envelope;
        let delivered = self.take_in(envelope);
        let ghost taken = delivered@;
        proof {
            lemma_drawn_readable(taken, old(self).ring(), copy);
        }
        let messages = messages_of(delivered);
        proof {
            assert(answer is Ok);
            assert(opened == Envelope::spec_new(old(self).link(), None, Some(held), None, now).opened(
                spec_header(raw@).1,
                answer->Ok_0,
            ));
            assert(took_in(
                old(self).ring(),
                old(self).next(),
                self.ring(),
                self.next(),
                opened,
                taken,
            ));
            assert(received(
                old(self).ring(),
                old(self).next(),
                old(self).link(),
                self.ring(),
                self.next(),
                raw@,
                now,
                answer,
                messages@,
            ));
        }
        proof {
            reveal(within_or);
            reveal(covered);
            assert forall|d: int| 0 <= d < messages@.len() implies spec_header(raw@).1 == wrap(
                old(self).next() + d,
            ) || carries(old(self).ring(), wrap(old(self).next() + d), #[trigger] messages@[d]) by {
                assert(taken[d].message == Some(messages@[d]));
                if old(self).ring().contains(taken[d]) {
                    let j = choose|j: int|
                        0 <= j < old(self).ring().len() && old(self).ring()[j] == taken[d];
                    assert(old(self).ring()[j].sequence == Some(wrap(old(self).next() + d)));
                }
            }
            assert forall|e: Envelope<M>| old(self).ring().contains(e) implies self.ring().contains(
                e,
            ) || handed_on(messages@, old(self).next(), e) by {
                if taken.contains(e) {
                    let d = choose|d: int| 0 <= d < taken.len() && taken[d] == e;
                    assert(e.message == Some(messages@[d]));
                }
            }
        }
        messages
    }
}

/// What is drawn from a numbered ring is numbered.
proof fn lemma_walk_numbered<M: Message>(part: Seq<Envelope<M>>, whole: Seq<Envelope<M>>)
    requires
        within(part, whole),
        all_numbered(whole),
    ensures
        all_numbered(part),
{
    reveal(within);
    assert forall|i: int| 0 <= i < part.len() implies (#[trigger] part[i]).sequence.is_some() by {
        let j = choose|j: int| 0 <= j < whole.len() && whole[j] == part[i];
    }
}

/// Two walks in a row, the first of which ended on `0xFFFF`, hand on one
/// unbroken sequence and lose nothing.
proof fn lemma_two_walks<M: Message>(
    ring1: Seq<Envelope<M>>,
    ring2: Seq<Envelope<M>>,
    ring3: Seq<Envelope<M>>,
    taken1: Seq<Envelope<M>>,
    taken2: Seq<Envelope<M>>,
    first: u16,
)
    requires
        within(ring2, ring1),
        within(ring3, ring2),
        within(taken1, ring1),
        within(taken2, ring2),
        covered(ring1, ring2, taken1),
        covered(ring2, ring3, taken2),
        in_sequence(taken1, first as int),
        in_sequence(taken2, 0),
        first + taken1.len() == 0x10000,
        apart(ring2, taken1),
        apart(ring3, taken2),
    ensures
        in_sequence(taken1 + taken2, first as int),
        within(ring3, ring1),
        within(taken1 + taken2, ring1),
        covered(ring1, ring3, taken1 + taken2),
        apart(ring3, taken1 + taken2),
{
    reveal(within);
    reveal(covered);
    assert(apart(ring3, taken1 + taken2)) by {
        reveal(apart);
        assert forall|i: int, j: int|
            0 <= i < ring3.len() && 0 <= j < (taken1 + taken2).len() implies (
        #[trigger] ring3[i]).rank() != (#[trigger] (taken1 + taken2)[j]).rank() by {
            if j < taken1.len() {
                assert((taken1 + taken2)[j] == taken1[j]);
                assert(ring2.contains(ring3[i]));
                let k = choose|k: int| 0 <= k < ring2.len() && ring2[k] == ring3[i];
                assert(ring2[k].rank() != taken1[j].rank());
            } else {
                assert((taken1 + taken2)[j] == taken2[j - taken1.len()]);
                assert(ring3[i].rank() != taken2[j - taken1.len()].rank());
            }
        }
    }
    let all = taken1 + taken2;
    assert forall|d: int| 0 <= d < all.len() implies (#[trigger] all[d]).sequence == Some(
        wrap(first + d),
    ) && ring1.contains(all[d]) by {
        if d < taken1.len() {
            assert(all[d] == taken1[d]);
        } else {
            assert(all[d] == taken2[d - taken1.len()]);
            let j = choose|j: int| 0 <= j < ring2.len() && ring2[j] == taken2[d - taken1.len()];
            assert(ring1.contains(ring2[j]));
        }
    }
    assert forall|i: int| 0 <= i < ring3.len() implies ring1.contains(#[trigger] ring3[i]) by {
        let j = choose|j: int| 0 <= j < ring2.len() && ring2[j] == ring3[i];
        assert(ring1.contains(ring2[j]));
    }
    assert forall|e: Envelope<M>| ring1.contains(e) implies ring3.contains(e) || all.contains(
        e,
    ) by {
        if taken1.contains(e) {
            let d = choose|d: int| 0 <= d < taken1.len() && taken1[d] == e;
            assert(all[d] == e);
        } else if taken2.contains(e) {
            let d = choose|d: int| 0 <= d < taken2.len() && taken2[d] == e;
            assert(all[taken1.len() + d] == e);
        }
    }
}

/// The messages of a list of envelopes, in the same order.
pub fn messages_of<M: Message>(envelopes: Vec<Envelope<M>>) -> (messages: Vec<M>)
    requires
        forall|i: int| 0 <= i < envelopes@.len() ==> (#[trigger] envelopes@[i]).message.is_some(),
    ensures
        messages@.len() == envelopes@.len(),
        forall|i: int|
            0 <= i < envelopes@.len() ==> (#[trigger] envelopes@[i]).message == Some(messages@[i]),
{
    let mut envelopes = envelopes;
    let ghost all = envelopes@;
    let mut messages: Vec<M> = Vec::new();
    while envelopes.len() > 0
        invariant
            envelopes@.len() + messages@.len() == all.len(),
            envelopes@ == all.take(envelopes@.len() as int),
            forall|i: int| 0 <= i < all.len() ==> (#[trigger] all[i]).message.is_some(),
            forall|i: int|
                0 <= i < messages@.len() ==> all[envelopes@.len() + i].message == Some(
                    #[trigger] messages@[i],
                ),
        decreases envelopes@.len(),
    {
        let ghost before = messages@;
        match envelopes.pop() {
            Some(envelope) => {
                assert(envelope == all[envelopes@.len() as int]);
                match envelope.message {
                    Some(message) => {
                        messages.insert(0, message);
                        assert forall|i: int| 0 <= i < messages@.len() implies all[envelopes@.len()
                            + i].message == Some(#[trigger] messages@[i]) by {
                            if i > 0 {
                                assert(messages@[i] == before[i - 1]);
                            }
                        }
                    },
                    None => {},
                }
                assert(envelopes@ =~= all.take(envelopes@.len() as int));
            },
            None => {},
        }
    }
    messages
}

} // verus!
