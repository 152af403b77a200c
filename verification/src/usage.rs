//! What the calls on a channel return, told from the calls before them and their results alone.
//!
//! The laws here speak of uses that follow each other: attempts to send and sends, looks for the next
//! item, readings of the capacity, and senders that come and go. They hold whichever handles make
//! them.

use crate::accounting::total_cost;
use crate::error::TrySendError;
use crate::laws::{
    appended, law_last_sender_closes, law_next, law_send, law_try_send, lemma_concat, lemma_initial,
    lemma_inv_all, lemma_one,
};
use crate::model::{items, ChannelState, Event};
use crate::outside::permits_held;
use crate::receiver::{looks, NextStep};
use crate::sender::{
    arrival, departure, finishes_send, try_sends, SendStep, TrySendStep,
};
use tokio::sync::{AcquireError, OwnedSemaphorePermit};
use vstd::prelude::*;

verus! {

/// One use of a channel, with its result and with the journal of its handle before and after it.
pub enum Use<T> {
    /// An attempt to send an item that needs `permits` permits.
    TrySend {
        permits: nat,
        item: T,
        step: TrySendStep<T>,
        before: Seq<Event<T>>,
        after: Seq<Event<T>>,
    },
    /// A send of an item that needs `permits` permits, which need not wait for them.
    Send {
        permits: nat,
        item: T,
        acquired: Result<OwnedSemaphorePermit, AcquireError>,
        step: SendStep<T>,
        before: Seq<Event<T>>,
        after: Seq<Event<T>>,
    },
    /// A look for the next item.
    Look { step: NextStep<T>, before: Seq<Event<T>>, after: Seq<Event<T>> },
    /// A reading of the capacity.
    Read { capacity: nat },
    /// A sender was cloned; there were `senders` before.
    Join { senders: usize },
    /// A sender went away; there were `senders` before.
    Leave { senders: usize, before: Seq<Event<T>>, after: Seq<Event<T>> },
}

impl<T> Use<T> {
    /// Whether this is what the operation does.
    pub open spec fn is_valid(self) -> bool {
        match self {
            Use::TrySend { permits, item, step, before, after } => try_sends(
                before,
                after,
                permits,
                item,
                step,
            ),
            Use::Send { permits, item, acquired, step, before, after } => {
                &&& finishes_send(before, after, item, acquired, step)
                &&& acquired matches Ok(permit) ==> permits_held(permit) == permits
            },
            Use::Look { step, before, after } => looks(before, after, step),
            Use::Read { .. } => true,
            Use::Join { .. } => true,
            Use::Leave { senders, before, after } => after == departure(before, senders),
        }
    }

    /// The events that this use adds to the history of the channel.
    pub open spec fn events(self) -> Seq<Event<T>> {
        match self {
            Use::Send { permits, acquired: Ok(_), before, after, .. } => seq![
                Event::Reserve { permits },
            ] + appended(before, after),
            Use::TrySend { before, after, .. } => appended(before, after),
            Use::Send { before, after, .. } => appended(before, after),
            Use::Look { before, after, .. } => appended(before, after),
            Use::Leave { before, after, .. } => appended(before, after),
            Use::Read { capacity } => seq![Event::Count { permits: capacity }],
            Use::Join { senders } => arrival(senders),
        }
    }

    /// The item that this use reports as sent.
    pub open spec fn sent(self) -> Option<T> {
        match self {
            Use::TrySend { item, step: TrySendStep::Sent, .. } => Some(item),
            Use::Send { item, step: SendStep::Sent, .. } => Some(item),
            _ => None,
        }
    }

    /// The item that this use hands out.
    pub open spec fn received(self) -> Option<T> {
        match self {
            Use::Look { step: NextStep::Item(item), .. } => Some(item),
            _ => None,
        }
    }

    /// Whether an item that is sent needs the permits that `cost` says.
    pub open spec fn is_priced(self, cost: spec_fn(T) -> nat) -> bool {
        match self {
            Use::TrySend { permits, item, .. } => permits == cost(item),
            Use::Send { permits, item, .. } => permits == cost(item),
            _ => true,
        }
    }
}

/// Whether every use is what its operation does.
pub open spec fn all_valid<T>(uses: Seq<Use<T>>) -> bool {
    forall|i: int| 0 <= i < uses.len() ==> (#[trigger] uses[i]).is_valid()
}

/// Whether every item that is sent needs the permits that `cost` says.
pub open spec fn all_priced<T>(uses: Seq<Use<T>>, cost: spec_fn(T) -> nat) -> bool {
    forall|i: int| 0 <= i < uses.len() ==> (#[trigger] uses[i]).is_priced(cost)
}

/// The history that `uses` make, one after the other.
pub open spec fn history<T>(uses: Seq<Use<T>>) -> Seq<Event<T>>
    decreases uses.len(),
{
    if uses.len() == 0 {
        Seq::empty()
    } else {
        history(uses.drop_last()) + uses.last().events()
    }
}

/// The items that `uses` report as sent, in order.
pub open spec fn sent<T>(uses: Seq<Use<T>>) -> Seq<T>
    decreases uses.len(),
{
    if uses.len() == 0 {
        Seq::empty()
    } else {
        match uses.last().sent() {
            Some(item) => sent(uses.drop_last()).push(item),
            None => sent(uses.drop_last()),
        }
    }
}

/// The items that `uses` hand out, in order.
pub open spec fn received<T>(uses: Seq<Use<T>>) -> Seq<T>
    decreases uses.len(),
{
    if uses.len() == 0 {
        Seq::empty()
    } else {
        match uses.last().received() {
            Some(item) => received(uses.drop_last()).push(item),
            None => received(uses.drop_last()),
        }
    }
}

/// The number of senders that there are after `uses`: one at first, one more with each clone, and one
/// less with each that goes away.
pub open spec fn senders<T>(uses: Seq<Use<T>>) -> int
    decreases uses.len(),
{
    if uses.len() == 0 {
        1
    } else {
        match uses.last() {
            Use::Join { .. } => senders(uses.drop_last()) + 1,
            Use::Leave { .. } => senders(uses.drop_last()) - 1,
            _ => senders(uses.drop_last()),
        }
    }
}

/// What is sent and not yet received costs this much.
pub open spec fn outstanding<T>(uses: Seq<Use<T>>, cost: spec_fn(T) -> nat) -> int {
    total_cost(sent(uses), cost) - total_cost(received(uses), cost)
}

/// How the state of a channel relates to the uses that led to it.
spec fn agrees<T>(
    state: ChannelState<T>,
    limit: nat,
    sent: Seq<T>,
    received: Seq<T>,
    senders: int,
) -> bool {
    &&& state.inv()
    &&& state.limit == limit
    &&& state.is_quiet()
    &&& state.busy == 0
    &&& !(state.phase is Gone)
    &&& sent == received + items(state.queue)
    &&& state.senders == senders
    &&& state.closed == (state.senders == 0)
}

proof fn lemma_use<T>(
    state: ChannelState<T>,
    limit: nat,
    before: Seq<T>,
    taken: Seq<T>,
    count: int,
    used: Use<T>,
)
    requires
        agrees(state, limit, before, taken, count),
        used.is_valid(),
        state.allows_all(used.events()),
    ensures
        ({
            let end = state.after_all(used.events());
            &&& agrees(
                end,
                limit,
                match used.sent() {
                    Some(item) => before.push(item),
                    None => before,
                },
                match used.received() {
                    Some(item) => taken.push(item),
                    None => taken,
                },
                match used {
                    Use::Join { .. } => count + 1,
                    Use::Leave { .. } => count - 1,
                    _ => count,
                },
            )
            &&& end.queue == (match (used.sent(), used.received(), used) {
                (Some(item), _, Use::TrySend { permits, .. }) => state.queue.push((permits, item)),
                (Some(item), _, Use::Send { permits, .. }) => state.queue.push((permits, item)),
                (_, Some(_), _) => state.queue.skip(1),
                _ => state.queue,
            })
        }),
{
    lemma_inv_all(state, used.events());
    let end = state.after_all(used.events());
    match used {
        Use::TrySend { permits, item, step, before: first, after } => {
            law_try_send(state, first, after, permits, item, step);
            if step is Sent {
                assert(items(end.queue) =~= items(state.queue).push(item));
                assert(before.push(item) =~= taken + items(end.queue));
            }
        },
        Use::Send { permits, item, acquired, step, before: first, after } => {
            lemma_send_at_once(state, used);
            if step is Sent {
                assert(items(end.queue) =~= items(state.queue).push(item));
                assert(before.push(item) =~= taken + items(end.queue));
            }
        },
        Use::Look { step, before: first, after } => {
            law_next(state, first, after, step);
            if let NextStep::Item(item) = step {
                assert(items(state.queue) =~= seq![item] + items(end.queue));
                assert(before =~= taken.push(item) + items(end.queue));
            }
        },
        Use::Read { capacity } => {
            lemma_one(state, Event::Count { permits: capacity });
        },
        Use::Join { senders } => {
            lemma_one(state, Event::Join { before: senders });
        },
        Use::Leave { senders, before: first, after } => {
            law_last_sender_closes(state, first, after, senders);
            lemma_leave_needs_sender(state, first, after, senders);
        },
    }
}

proof fn lemma_leave_needs_sender<T>(
    state: ChannelState<T>,
    before: Seq<Event<T>>,
    after: Seq<Event<T>>,
    senders: usize,
)
    requires
        after == departure(before, senders),
        state.allows_all(appended(before, after)),
    ensures
        state.has_idle_sender(),
{
    let leave = Event::<T>::Leave { before: senders };
    let events = appended(before, after);
    assert(events =~= seq![leave] + events.skip(1));
    lemma_concat(state, seq![leave], events.skip(1));
    lemma_one(state, leave);
}

proof fn lemma_send_at_once<T>(state: ChannelState<T>, used: Use<T>)
    requires
        state.inv(),
        state.is_quiet(),
        state.closed == (state.senders == 0),
        used is Send,
        used.is_valid(),
        state.allows_all(used.events()),
    ensures
        state.after_all(used.events()) == (if used->Send_step is Sent {
            ChannelState {
                available: (state.available - used->Send_permits) as nat,
                queue: state.queue.push((used->Send_permits, used->Send_item)),
                woken: true,
                ..state
            }
        } else {
            state
        }),
        used->Send_permits <= state.available,
{
    if let Use::Send { permits, item, acquired, step, before, after } = used {
        let sending = appended(before, after);
        match acquired {
            Ok(permit) => {
                let reserve = Event::Reserve { permits };
                lemma_concat(state, seq![reserve], sending);
                lemma_one(state, reserve);
                law_send(state.after(reserve), before, after, item, acquired, step);
            },
            Err(_) => {
                law_send(state, before, after, item, acquired, step);
                assert(sending =~= seq![Event::<T>::Refused]);
                lemma_one(state, Event::<T>::Refused);
            },
        }
    }
}

proof fn lemma_uses<T>(limit: nat, uses: Seq<Use<T>>)
    requires
        all_valid(uses),
        ChannelState::<T>::initial(limit).allows_all(history(uses)),
    ensures
        agrees(
            ChannelState::<T>::initial(limit).after_all(history(uses)),
            limit,
            sent(uses),
            received(uses),
            senders(uses),
        ),
    decreases uses.len(),
{
    let start = ChannelState::<T>::initial(limit);
    if uses.len() == 0 {
        reveal(ChannelState::after_all);
        lemma_initial::<T>(limit);
        assert(sent(uses) =~= received(uses) + items(start.queue));
    } else {
        let earlier = uses.drop_last();
        assert forall|i: int| 0 <= i < earlier.len() implies (#[trigger] earlier[i]).is_valid() by {
            assert(earlier[i] == uses[i]);
        }
        assert(uses[uses.len() - 1].is_valid());
        lemma_concat(start, history(earlier), uses.last().events());
        lemma_uses(limit, earlier);
        lemma_use(
            start.after_all(history(earlier)),
            limit,
            sent(earlier),
            received(earlier),
            senders(earlier),
            uses.last(),
        );
    }
}

proof fn lemma_queue_priced<T>(limit: nat, uses: Seq<Use<T>>, cost: spec_fn(T) -> nat)
    requires
        all_valid(uses),
        all_priced(uses, cost),
        ChannelState::<T>::initial(limit).allows_all(history(uses)),
    ensures
        ({
            let queue = ChannelState::<T>::initial(limit).after_all(history(uses)).queue;
            forall|i: int| 0 <= i < queue.len() ==> (#[trigger] queue[i]).0 == cost(queue[i].1)
        }),
    decreases uses.len(),
{
    let start = ChannelState::<T>::initial(limit);
    if uses.len() == 0 {
        reveal(ChannelState::after_all);
    } else {
        let earlier = uses.drop_last();
        assert forall|i: int| 0 <= i < earlier.len() implies (#[trigger] earlier[i]).is_valid()
            && earlier[i].is_priced(cost) by {
            assert(earlier[i] == uses[i]);
        }
        assert(uses[uses.len() - 1].is_valid() && uses[uses.len() - 1].is_priced(cost));
        lemma_concat(start, history(earlier), uses.last().events());
        lemma_uses(limit, earlier);
        lemma_queue_priced(limit, earlier, cost);
        lemma_use(
            start.after_all(history(earlier)),
            limit,
            sent(earlier),
            received(earlier),
            senders(earlier),
            uses.last(),
        );
    }
}

/// What is at hand is what the items that are out leave of the limit.
proof fn lemma_available<T>(limit: nat, uses: Seq<Use<T>>, cost: spec_fn(T) -> nat)
    requires
        all_valid(uses),
        all_priced(uses, cost),
        ChannelState::<T>::initial(limit).allows_all(history(uses)),
    ensures
        ChannelState::<T>::initial(limit).after_all(history(uses)).available == limit - outstanding(
            uses,
            cost,
        ),
{
    let state = ChannelState::<T>::initial(limit).after_all(history(uses));
    lemma_uses(limit, uses);
    lemma_queue_priced(limit, uses, cost);
    crate::accounting::lemma_queue_cost(state.queue, cost);
    crate::accounting::lemma_cost_concat(received(uses), items(state.queue), cost);
}

/// Adding one use to others.
proof fn lemma_one_more<T>(limit: nat, uses: Seq<Use<T>>, next: Use<T>)
    requires
        all_valid(uses),
        next.is_valid(),
    ensures
        all_valid(uses.push(next)),
        history(uses.push(next)) == history(uses) + next.events(),
        sent(uses.push(next)) == (match next.sent() {
            Some(item) => sent(uses).push(item),
            None => sent(uses),
        }),
        received(uses.push(next)) == (match next.received() {
            Some(item) => received(uses).push(item),
            None => received(uses),
        }),
        ChannelState::<T>::initial(limit).allows_all(history(uses.push(next)))
            <==> ChannelState::<T>::initial(limit).allows_all(history(uses))
            && ChannelState::<T>::initial(limit).after_all(history(uses)).allows_all(next.events()),
{
    assert(uses.push(next).drop_last() =~= uses);
    lemma_concat(ChannelState::<T>::initial(limit), history(uses), next.events());
}

/// First in, first out, and nothing lost: the items handed out are, in this order, the first of those
/// that were reported as sent.
pub proof fn law_received_as_sent<T>(limit: nat, uses: Seq<Use<T>>)
    requires
        all_valid(uses),
        ChannelState::<T>::initial(limit).allows_all(history(uses)),
    ensures
        received(uses).len() <= sent(uses).len() <= received(uses).len() + limit,
        forall|i: int|
            0 <= i < received(uses).len() ==> #[trigger] received(uses)[i] == sent(uses)[i],
{
    lemma_uses(limit, uses);
}

/// A look hands out the oldest item that was sent and not yet handed out. It hands out nothing only
/// when everything that was sent has been received: it is then told that the channel is closed exactly
/// when no sender is left.
pub proof fn law_look<T>(
    limit: nat,
    uses: Seq<Use<T>>,
    before: Seq<Event<T>>,
    after: Seq<Event<T>>,
    step: NextStep<T>,
)
    requires
        all_valid(uses),
        looks(before, after, step),
        ChannelState::<T>::initial(limit).allows_all(history(uses) + appended(before, after)),
    ensures
        step == (if received(uses).len() < sent(uses).len() {
            NextStep::Item(sent(uses)[received(uses).len() as int])
        } else if senders(uses) == 0 {
            NextStep::Closed
        } else {
            NextStep::Wait
        }),
{
    let start = ChannelState::<T>::initial(limit);
    lemma_concat(start, history(uses), appended(before, after));
    lemma_uses(limit, uses);
    law_next(start.after_all(history(uses)), before, after, step);
}

/// A reading gives what the items that were sent and not yet received leave of the limit; a new
/// channel reads its limit.
pub proof fn law_reading<T>(
    limit: nat,
    uses: Seq<Use<T>>,
    cost: spec_fn(T) -> nat,
    capacity: nat,
)
    requires
        all_valid(uses),
        all_priced(uses, cost),
        ChannelState::<T>::initial(limit).allows_all(history(uses.push(Use::Read { capacity }))),
    ensures
        capacity == limit - outstanding(uses, cost),
        sent(uses).len() == received(uses).len() ==> capacity == limit,
{
    let read = Use::<T>::Read { capacity };
    lemma_one_more(limit, uses, read);
    lemma_available(limit, uses, cost);
    lemma_uses(limit, uses);
    lemma_one(
        ChannelState::<T>::initial(limit).after_all(history(uses)),
        Event::Count { permits: capacity },
    );
    if sent(uses).len() == received(uses).len() {
        assert(sent(uses) =~= received(uses));
    }
}

/// An attempt is sent exactly when the item needs no more than the items that were sent and not yet
/// received leave of the limit, and fewer items than the limit are out. It lacks capacity exactly when
/// the item needs more. It is never told that the channel is closed while the receiver is there.
pub proof fn law_attempt<T>(
    limit: nat,
    uses: Seq<Use<T>>,
    cost: spec_fn(T) -> nat,
    before: Seq<Event<T>>,
    after: Seq<Event<T>>,
    item: T,
    step: TrySendStep<T>,
)
    requires
        all_valid(uses),
        all_priced(uses, cost),
        try_sends(before, after, cost(item), item, step),
        ChannelState::<T>::initial(limit).allows_all(history(uses) + appended(before, after)),
    ensures
        step == (if cost(item) > limit - outstanding(uses, cost) {
            TrySendStep::Refused(TrySendError::InsufficientCapacity(item))
        } else if sent(uses).len() - received(uses).len() < limit {
            TrySendStep::Sent
        } else {
            TrySendStep::Overflow(item)
        }),
{
    let start = ChannelState::<T>::initial(limit);
    let state = start.after_all(history(uses));
    lemma_concat(start, history(uses), appended(before, after));
    lemma_uses(limit, uses);
    lemma_available(limit, uses, cost);
    law_try_send(state, before, after, cost(item), item, step);
    if step == TrySendStep::Refused(TrySendError::Disconnected(item)) {
        lemma_attempt_needs_sender(state, before, after, cost(item), item, step);
    }
}

proof fn lemma_attempt_needs_sender<T>(
    state: ChannelState<T>,
    before: Seq<Event<T>>,
    after: Seq<Event<T>>,
    permits: nat,
    item: T,
    step: TrySendStep<T>,
)
    requires
        try_sends(before, after, permits, item, step),
        step is Refused,
        state.allows_all(appended(before, after)),
    ensures
        state.has_idle_sender(),
{
    let ask = appended(before, after)[0];
    assert(appended(before, after) =~= seq![ask]);
    lemma_one(state, ask);
}

/// A reading tells what an attempt right after it gives: the attempt lacks capacity exactly when the
/// item needs more than was read. A reading after the attempt gives so much less as the item needs, if
/// the item was sent, and the same if it was not.
pub proof fn law_reading_and_attempt<T>(
    limit: nat,
    uses: Seq<Use<T>>,
    first: nat,
    permits: nat,
    item: T,
    step: TrySendStep<T>,
    before: Seq<Event<T>>,
    after: Seq<Event<T>>,
    second: nat,
)
    requires
        all_valid(uses),
        try_sends(before, after, permits, item, step),
        ChannelState::<T>::initial(limit).allows_all(
            history(
                uses.push(Use::Read { capacity: first }).push(
                    Use::TrySend { permits, item, step, before, after },
                ).push(Use::Read { capacity: second }),
            ),
        ),
    ensures
        step == TrySendStep::Refused(TrySendError::InsufficientCapacity(item)) <==> permits > first,
        second == (if step is Sent {
            first - permits
        } else {
            first as int
        }),
{
    let start = ChannelState::<T>::initial(limit);
    let read = Use::<T>::Read { capacity: first };
    let attempt = Use::TrySend { permits, item, step, before, after };
    let again = Use::<T>::Read { capacity: second };
    lemma_one_more(limit, uses, read);
    lemma_one_more(limit, uses.push(read), attempt);
    lemma_one_more(limit, uses.push(read).push(attempt), again);
    let state = start.after_all(history(uses));
    lemma_uses(limit, uses);
    lemma_concat(start, history(uses), read.events());
    lemma_one(state, Event::Count { permits: first });
    let reached = start.after_all(history(uses.push(read)));
    lemma_concat(start, history(uses.push(read)), attempt.events());
    law_try_send(reached, before, after, permits, item, step);
    lemma_one(reached.after_all(attempt.events()), Event::Count { permits: second });
    if step == TrySendStep::Refused(TrySendError::Disconnected(item)) {
        lemma_attempt_needs_sender(reached, before, after, permits, item, step);
    }
}

/// A sender that goes away while another one is left changes nothing but the count: what was sent
/// still comes out, a look at the empty channel waits, and attempts of the other sender get the
/// answers that they would have got before. Only the last one closes the channel.
pub proof fn law_departure<T>(
    limit: nat,
    uses: Seq<Use<T>>,
    count: usize,
    before: Seq<Event<T>>,
    after: Seq<Event<T>>,
)
    requires
        all_valid(uses),
        after == departure(before, count),
        ChannelState::<T>::initial(limit).allows_all(history(uses) + appended(before, after)),
    ensures
        count == senders(uses),
        ({
            let state = ChannelState::<T>::initial(limit).after_all(history(uses));
            let end = ChannelState::<T>::initial(limit).after_all(
                history(uses) + appended(before, after),
            );
            &&& end.closed <==> count == 1
            &&& count > 1 ==> end == (ChannelState { senders: (count - 1) as nat, ..state })
            &&& end.queue == state.queue
            &&& end.available == state.available
        }),
{
    let start = ChannelState::<T>::initial(limit);
    let state = start.after_all(history(uses));
    lemma_concat(start, history(uses), appended(before, after));
    lemma_uses(limit, uses);
    lemma_leave_needs_sender(state, before, after, count);
    law_last_sender_closes(state, before, after, count);
}

} // verus!
