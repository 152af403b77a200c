//! What the permits of a channel add up to, and so what the channel has room for.

use crate::error::TrySendError;
use crate::laws::{
    appended, law_everything_queued_comes_out, law_first_in_first_out, law_next, law_no_deadlock,
    law_required_permits, law_send, law_try_send, lemma_concat, lemma_counted_all,
    lemma_hand_out_nothing, lemma_initial, lemma_inv_all, lemma_three, lemma_total_counted, lemma_two,
};
use crate::model::{
    all_counted, items, popped_items, pushed_items, total_given, total_permits, ChannelState, Event,
    Waiter,
};
use crate::outside::permits_held;
use crate::receiver::{looks, NextStep};
use crate::sender::{
    delivery, finishes_send, required_permits, try_sends, SendStep, TrySendStep,
};
use tokio::sync::{AcquireError, OwnedSemaphorePermit};
use vstd::prelude::*;

verus! {

/// What `calls` append to the journals, one call after the other. A call is given by the journal of
/// its handle before and after it.
pub open spec fn in_turn<T>(calls: Seq<(Seq<Event<T>>, Seq<Event<T>>)>) -> Seq<Event<T>>
    decreases calls.len(),
{
    if calls.len() == 0 {
        Seq::empty()
    } else {
        in_turn(calls.drop_last()) + appended(calls.last().0, calls.last().1)
    }
}

/// Whether `calls` are attempts to send `sent`, each with one permit, that ended with `steps`.
pub open spec fn try_sends_each<T>(
    calls: Seq<(Seq<Event<T>>, Seq<Event<T>>)>,
    sent: Seq<T>,
    steps: Seq<TrySendStep<T>>,
) -> bool {
    &&& calls.len() == steps.len()
    &&& sent.len() == steps.len()
    &&& forall|i: int| #![trigger steps[i]]
        0 <= i < steps.len() ==> try_sends(calls[i].0, calls[i].1, 1, sent[i], steps[i])
}

proof fn lemma_fill<T>(
    state: ChannelState<T>,
    calls: Seq<(Seq<Event<T>>, Seq<Event<T>>)>,
    sent: Seq<T>,
    steps: Seq<TrySendStep<T>>,
)
    requires
        state.inv(),
        state.all_counted(),
        !state.closed,
        try_sends_each(calls, sent, steps),
        state.allows_all(in_turn(calls)),
    ensures
        ({
            let end = state.after_all(in_turn(calls));
            &&& end.inv()
            &&& end.limit == state.limit
            &&& end.all_counted()
            &&& !end.closed
            &&& end.available == (if steps.len() < state.available {
                state.available - steps.len()
            } else {
                0
            })
        }),
        forall|i: int|
            0 <= i < steps.len() ==> #[trigger] steps[i] == (if i < state.available {
                TrySendStep::Sent
            } else {
                TrySendStep::Refused(TrySendError::InsufficientCapacity(sent[i]))
            }),
    decreases steps.len(),
{
    reveal(ChannelState::allows_all);
    reveal(ChannelState::after_all);
    if steps.len() > 0 {
        let count = steps.len() - 1;
        let fewer = steps.drop_last();
        let (before, after) = calls.last();
        let step = steps[count];
        assert(try_sends(before, after, 1, sent[count], step));
        assert forall|i: int| #![trigger fewer[i]] 0 <= i < fewer.len() implies try_sends(
            calls.drop_last()[i].0,
            calls.drop_last()[i].1,
            1,
            sent.drop_last()[i],
            fewer[i],
        ) by {
            assert(fewer[i] == steps[i]);
        }
        lemma_concat(state, in_turn(calls.drop_last()), appended(before, after));
        lemma_fill(state, calls.drop_last(), sent.drop_last(), fewer);
        lemma_inv_all(state, in_turn(calls));
        let reached = state.after_all(in_turn(calls.drop_last()));
        lemma_total_counted(reached.queue);
        law_try_send(reached, before, after, 1, sent[count], step);
        assert forall|i: int| 0 <= i < steps.len() implies #[trigger] steps[i] == (if i
            < state.available {
            TrySendStep::Sent
        } else {
            TrySendStep::Refused(TrySendError::InsufficientCapacity(sent[i]))
        }) by {
            if i < count {
                assert(steps[i] == fewer[i]);
            }
        }
    }
}

/// The capacity at hand is what the channel has room for: of a row of items with one event each, as
/// many are sent as there were permits at hand, and all further ones lack capacity. This is so at
/// any time in an open channel whose items all came with at least one permit.
pub proof fn law_capacity_is_room<T>(
    limit: nat,
    history: Seq<Event<T>>,
    calls: Seq<(Seq<Event<T>>, Seq<Event<T>>)>,
    sent: Seq<T>,
    steps: Seq<TrySendStep<T>>,
)
    requires
        ChannelState::<T>::initial(limit).allows_all(history + in_turn(calls)),
        all_counted(history),
        !ChannelState::<T>::initial(limit).after_all(history).closed,
        try_sends_each(calls, sent, steps),
    ensures
        ({
            let available = ChannelState::<T>::initial(limit).after_all(history).available;
            &&& forall|i: int|
                0 <= i < steps.len() ==> #[trigger] steps[i] == (if i < available {
                    TrySendStep::Sent
                } else {
                    TrySendStep::Refused(TrySendError::InsufficientCapacity(sent[i]))
                })
            &&& ChannelState::<T>::initial(limit).after_all(history + in_turn(calls)).available
                == (if steps.len() < available {
                available - steps.len()
            } else {
                0
            })
        }),
{
    let start = ChannelState::<T>::initial(limit);
    lemma_concat(start, history, in_turn(calls));
    lemma_initial::<T>(limit);
    lemma_inv_all(start, history);
    lemma_counted_all(start, history);
    lemma_fill(start.after_all(history), calls, sent, steps);
}

/// A new channel takes exactly as many items of one event each as its limit says: that many are sent,
/// and the next one lacks capacity.
pub proof fn law_limit_items_fit<T>(
    limit: usize,
    calls: Seq<(Seq<Event<T>>, Seq<Event<T>>)>,
    sent: Seq<T>,
    steps: Seq<TrySendStep<T>>,
)
    requires
        0 < limit,
        ChannelState::<T>::initial(limit as nat).allows_all(in_turn(calls)),
        calls.len() == steps.len(),
        sent.len() == steps.len(),
        forall|i: int| #![trigger steps[i]]
            0 <= i < steps.len() ==> try_sends(
                calls[i].0,
                calls[i].1,
                required_permits(limit, 1),
                sent[i],
                steps[i],
            ),
    ensures
        forall|i: int|
            0 <= i < steps.len() ==> #[trigger] steps[i] == (if i < limit {
                TrySendStep::Sent
            } else {
                TrySendStep::Refused(TrySendError::InsufficientCapacity(sent[i]))
            }),
{
    law_required_permits(limit, 1);
    lemma_initial::<T>(limit as nat);
    lemma_fill(ChannelState::<T>::initial(limit as nat), calls, sent, steps);
}

/// While a send waits for permits, the capacity reads zero, and no item that needs a permit gets in
/// before it: every attempt to send one lacks capacity.
pub proof fn law_no_capacity_while_a_send_waits<T>(
    limit: nat,
    history: Seq<Event<T>>,
    capacity: nat,
    before: Seq<Event<T>>,
    after: Seq<Event<T>>,
    permits: nat,
    item: T,
    step: TrySendStep<T>,
)
    requires
        ChannelState::<T>::initial(limit).allows_all(history),
        ChannelState::<T>::initial(limit).after_all(history).waiting.len() > 0,
    ensures
        ({
            let state = ChannelState::<T>::initial(limit).after_all(history);
            &&& state.allows(Event::Count { permits: capacity }) ==> capacity == 0
            &&& permits >= 1 && try_sends(before, after, permits, item, step) && state.allows_all(
                appended(before, after),
            ) ==> step == TrySendStep::Refused(TrySendError::InsufficientCapacity(item))
        }),
{
    let state = ChannelState::<T>::initial(limit).after_all(history);
    lemma_initial::<T>(limit);
    lemma_inv_all(ChannelState::<T>::initial(limit), history);
    if try_sends(before, after, permits, item, step) && state.allows_all(appended(before, after)) {
        law_try_send(state, before, after, permits, item, step);
    }
}

/// The permits of an item that is received go straight to the send that has waited longest. As long
/// as they are too few for it, it keeps them and waits on. When they are just what it lacks, it waits
/// no more. Either way the capacity still reads zero.
pub proof fn law_freed_permits_go_to_the_send_that_waits<T>(
    limit: nat,
    history: Seq<Event<T>>,
    before: Seq<Event<T>>,
    after: Seq<Event<T>>,
    item: T,
)
    requires
        ChannelState::<T>::initial(limit).allows_all(history + appended(before, after)),
        ChannelState::<T>::initial(limit).after_all(history).waiting.len() > 0,
        looks(before, after, NextStep::Item(item)),
    ensures
        ({
            let state = ChannelState::<T>::initial(limit).after_all(history);
            let end = ChannelState::<T>::initial(limit).after_all(history + appended(before, after));
            let first = state.waiting[0];
            let freed = state.queue[0].0;
            &&& freed < first.needed - first.given ==> {
                &&& end.waiting == state.waiting.update(
                    0,
                    Waiter { given: first.given + freed, ..first },
                )
                &&& end.reserved == state.reserved
                &&& end.available == 0
            }
            &&& freed == first.needed - first.given ==> {
                &&& end.waiting == state.waiting.skip(1)
                &&& end.reserved == state.reserved + first.needed
                &&& end.available == 0
            }
        }),
{
    let start = ChannelState::<T>::initial(limit);
    let state = start.after_all(history);
    lemma_concat(start, history, appended(before, after));
    lemma_initial::<T>(limit);
    lemma_inv_all(start, history);
    law_next(state, before, after, NextStep::Item(item));
    lemma_hand_out_nothing(state.waiting.skip(1));
}

/// A send that waits for its permits gets them, however many events its item has, at the latest when
/// the receiver has taken out everything that was sent before, and then it succeeds: an item larger
/// than the channel does not block it. `journals` are the journals of the receiver before the first
/// look and after each; no other send waits or is under way.
pub proof fn law_waiting_send_goes_on<T>(
    limit: usize,
    history: Seq<Event<T>>,
    event_count: usize,
    journals: Seq<Seq<Event<T>>>,
    steps: Seq<NextStep<T>>,
    before: Seq<Event<T>>,
    after: Seq<Event<T>>,
    item: T,
    permit: OwnedSemaphorePermit,
    step: SendStep<T>,
)
    requires
        0 < limit,
        ChannelState::<T>::initial(limit as nat).allows_all(
            history + appended(journals[0], journals.last()),
        ),
        ({
            let state = ChannelState::<T>::initial(limit as nat).after_all(history);
            &&& state.has_idle_sender()
            &&& state.waiting.len() == 1
            &&& state.waiting[0].needed == required_permits(limit, event_count)
            &&& state.reserved == 0
            &&& state.held == 0
            &&& steps.len() == state.queue.len()
        }),
        journals.len() == steps.len() + 1,
        forall|i: int| #![trigger steps[i]]
            0 <= i < steps.len() ==> looks(journals[i], journals[i + 1], steps[i]),
    ensures
        ({
            let state = ChannelState::<T>::initial(limit as nat).after_all(
                history + appended(journals[0], journals.last()),
            );
            let needed = required_permits(limit, event_count);
            &&& state.waiting.len() == 0
            &&& state.reserved == needed
            &&& state.allows_all(
                delivery(seq![Event::Acquire { permits: needed }], needed, item, true),
            )
            &&& finishes_send(before, after, item, Ok::<_, AcquireError>(permit), step)
                && state.allows_all(appended(before, after)) ==> step is Sent
        }),
{
    let start = ChannelState::<T>::initial(limit as nat);
    let looking = appended(journals[0], journals.last());
    let waiting = start.after_all(history);
    let state = start.after_all(history + looking);
    let needed = required_permits(limit, event_count);
    lemma_concat(start, history, looking);
    lemma_initial::<T>(limit as nat);
    lemma_inv_all(start, history);
    lemma_inv_all(start, history + looking);
    law_everything_queued_comes_out(waiting, journals, steps);
    // With nothing queued or held, all permits would be with the send if it still waited.
    law_no_deadlock::<T>(limit as nat, history + looking);
    let acquire = Event::<T>::Acquire { permits: needed };
    let push = Event::Push { permits: needed, item, accepted: true };
    let run = delivery(seq![acquire], needed, item, true);
    assert(run =~= seq![acquire, push, Event::Wake]);
    lemma_three(state, acquire, push, Event::Wake);
    if finishes_send(before, after, item, Ok::<_, AcquireError>(permit), step)
        && state.allows_all(appended(before, after)) {
        law_send(state, before, after, item, Ok(permit), step);
    }
}

/// Whether `event` hands an item to the queue only with the permits that `cost` says.
pub open spec fn is_priced<T>(event: Event<T>, cost: spec_fn(T) -> nat) -> bool {
    event matches Event::Push { permits, item, .. } ==> permits == cost(item)
}

/// Whether every item that `events` hand to the queue has the permits that `cost` says.
pub open spec fn all_priced<T>(events: Seq<Event<T>>, cost: spec_fn(T) -> nat) -> bool {
    forall|i: int| 0 <= i < events.len() ==> is_priced(#[trigger] events[i], cost)
}

/// The cost of all `sent` items together.
pub open spec fn total_cost<T>(sent: Seq<T>, cost: spec_fn(T) -> nat) -> nat
    decreases sent.len(),
{
    if sent.len() == 0 {
        0
    } else {
        total_cost(sent.drop_last(), cost) + cost(sent.last())
    }
}

pub(crate) proof fn lemma_cost_concat<T>(first: Seq<T>, second: Seq<T>, cost: spec_fn(T) -> nat)
    ensures
        total_cost(first + second, cost) == total_cost(first, cost) + total_cost(second, cost),
    decreases second.len(),
{
    if second.len() == 0 {
        assert(first + second =~= first);
    } else {
        lemma_cost_concat(first, second.drop_last(), cost);
        assert((first + second).drop_last() =~= first + second.drop_last());
    }
}

pub(crate) proof fn lemma_queue_cost<T>(queue: Seq<(nat, T)>, cost: spec_fn(T) -> nat)
    requires
        forall|i: int| 0 <= i < queue.len() ==> (#[trigger] queue[i]).0 == cost(queue[i].1),
    ensures
        total_permits(queue) == total_cost(items(queue), cost),
    decreases queue.len(),
{
    if queue.len() > 0 {
        let rest = queue.drop_last();
        assert forall|i: int| 0 <= i < rest.len() implies (#[trigger] rest[i]).0 == cost(
            rest[i].1,
        ) by {
            assert(rest[i] == queue[i]);
        }
        lemma_queue_cost(rest, cost);
        assert(items(queue).drop_last() =~= items(rest));
        assert(queue.last() == queue[queue.len() - 1]);
    }
}

proof fn lemma_queue_priced<T>(limit: nat, history: Seq<Event<T>>, cost: spec_fn(T) -> nat)
    requires
        ChannelState::<T>::initial(limit).allows_all(history),
        all_priced(history, cost),
    ensures
        ({
            let queue = ChannelState::<T>::initial(limit).after_all(history).queue;
            forall|i: int| 0 <= i < queue.len() ==> (#[trigger] queue[i]).0 == cost(queue[i].1)
        }),
    decreases history.len(),
{
    reveal(ChannelState::allows_all);
    reveal(ChannelState::after_all);
    if history.len() > 0 {
        let earlier = history.drop_last();
        assert forall|i: int| 0 <= i < earlier.len() implies is_priced(
            #[trigger] earlier[i],
            cost,
        ) by {
            assert(earlier[i] == history[i]);
        }
        lemma_queue_priced(limit, earlier, cost);
        assert(is_priced(history[history.len() - 1], cost));
    }
}

/// An attempt to send an item, a waiting send of it and a look for the next item hand nothing to the
/// queue with other permits than its own: what is asked for is what goes in.
pub proof fn law_sends_are_priced<T>(
    before: Seq<Event<T>>,
    after: Seq<Event<T>>,
    item: T,
    cost: spec_fn(T) -> nat,
    acquired: Result<OwnedSemaphorePermit, AcquireError>,
    tried: TrySendStep<T>,
    sent: SendStep<T>,
    looked: NextStep<T>,
)
    requires
        ({
            ||| try_sends(before, after, cost(item), item, tried)
            ||| finishes_send(before, after, item, acquired, sent) && (acquired matches Ok(permit)
                ==> permits_held(permit) == cost(item))
            ||| looks(before, after, looked)
        }),
    ensures
        all_priced(appended(before, after), cost),
{
}

/// Taking an item out gives the senders back exactly what sending it took: the capacity at hand rises
/// by the cost of the item, and never above the limit. No send waits for capacity at the time. `cost`
/// says what each item needs, such as the
/// [`required_permits`] of its events.
pub proof fn law_receive_gives_back<T>(
    limit: nat,
    history: Seq<Event<T>>,
    cost: spec_fn(T) -> nat,
    before: Seq<Event<T>>,
    after: Seq<Event<T>>,
    item: T,
)
    requires
        ChannelState::<T>::initial(limit).allows_all(history + appended(before, after)),
        ChannelState::<T>::initial(limit).after_all(history).waiting.len() == 0,
        all_priced(history, cost),
        looks(before, after, NextStep::Item(item)),
    ensures
        ({
            let start = ChannelState::<T>::initial(limit);
            let available = start.after_all(history + appended(before, after)).available;
            &&& available == start.after_all(history).available + cost(item)
            &&& available <= limit
        }),
{
    let start = ChannelState::<T>::initial(limit);
    lemma_concat(start, history, appended(before, after));
    lemma_queue_priced(limit, history, cost);
    law_next(start.after_all(history), before, after, NextStep::Item(item));
    lemma_initial::<T>(limit);
    lemma_inv_all(start, history + appended(before, after));
}

/// The capacity that a handle reads is what the limit leaves beside the permits that senders have been
/// given or hold and the cost of the queued items. While no send is under way, these are the items that
/// have been sent and not yet received; so an empty channel has its whole limit at hand. `cost` says what
/// each item needs, such as the [`required_permits`] of its events.
pub proof fn law_capacity_reading<T>(
    limit: nat,
    history: Seq<Event<T>>,
    cost: spec_fn(T) -> nat,
    permits: nat,
)
    requires
        ChannelState::<T>::initial(limit).allows_all(history.push(Event::Count { permits })),
        all_priced(history, cost),
    ensures
        ({
            let state = ChannelState::<T>::initial(limit).after_all(history);
            &&& permits == state.available
            &&& permits + total_given(state.waiting) + state.reserved + state.held + total_cost(
                items(state.queue),
                cost,
            ) == limit
            &&& state.is_quiet() ==> permits == limit - (total_cost(
                pushed_items(history),
                cost,
            ) - total_cost(popped_items(history), cost))
            &&& state.is_idle() ==> permits == limit
        }),
{
    reveal(ChannelState::allows_all);
    reveal(ChannelState::after_all);
    let start = ChannelState::<T>::initial(limit);
    let count = Event::<T>::Count { permits };
    assert(history.push(count).drop_last() =~= history);
    assert(history.push(count).last() == count);
    let state = start.after_all(history);
    lemma_initial::<T>(limit);
    lemma_inv_all(start, history);
    lemma_queue_priced(limit, history, cost);
    lemma_queue_cost(state.queue, cost);
    law_first_in_first_out::<T>(limit, history);
    lemma_cost_concat(popped_items(history), items(state.queue), cost);
}

/// Two handles that read the capacity with nothing between the readings read the same, whichever ends
/// of the channel they are, and the readings change nothing.
pub proof fn law_readings_agree<T>(state: ChannelState<T>, first: nat, second: nat)
    requires
        state.allows_all(seq![Event::Count { permits: first }, Event::Count { permits: second }]),
    ensures
        first == second,
        state.after_all(
            seq![Event::Count { permits: first }, Event::Count { permits: second }],
        ) == state,
{
    lemma_two(state, Event::Count { permits: first }, Event::Count { permits: second });
}

} // verus!
