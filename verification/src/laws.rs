//! What holds of every channel, whatever its handles do and in whatever order their calls take
//! effect.
//!
//! A history is a sequence of events that [`ChannelState::allows_all`] admits from the start of a
//! channel. The laws on single operations speak of one that no other handle interrupts.

use crate::error::{SendError, TrySendError};
use crate::handle::acquire_event;
use crate::model::{
    all_counted, hand_out, is_counted, items, popped_items, pushed_items, total_given,
    total_permits, ChannelState, End, Event, Outcome, Phase, Waiter,
};
use crate::outside::permits_held;
use crate::receiver::{idle_look, looks, retrieval, NextStep};
use crate::sender::{
    arrival, departure, finishes_send, required_permits, try_sends, SendStep, TrySendStep,
};
use tokio::sync::{AcquireError, OwnedSemaphorePermit};
use vstd::prelude::*;

verus! {

proof fn lemma_total_push<T>(queue: Seq<(nat, T)>, entry: (nat, T))
    ensures
        total_permits(queue.push(entry)) == total_permits(queue) + entry.0,
{
    assert(queue.push(entry).drop_last() =~= queue);
}

proof fn lemma_total_skip<T>(queue: Seq<(nat, T)>)
    requires
        queue.len() > 0,
    ensures
        total_permits(queue) == queue[0].0 + total_permits(queue.skip(1)),
    decreases queue.len(),
{
    if queue.len() == 1 {
        assert(queue.drop_last() =~= Seq::empty());
        assert(queue.skip(1) =~= Seq::empty());
    } else {
        lemma_total_skip(queue.drop_last());
        assert(queue.skip(1).drop_last() =~= queue.drop_last().skip(1));
    }
}

/// The queue cannot hold more items than permits when each has at least one.
pub(crate) proof fn lemma_total_counted<T>(queue: Seq<(nat, T)>)
    requires
        forall|i: int| 0 <= i < queue.len() ==> (#[trigger] queue[i]).0 >= 1,
    ensures
        queue.len() <= total_permits(queue),
    decreases queue.len(),
{
    if queue.len() > 0 {
        let rest = queue.drop_last();
        assert forall|i: int| 0 <= i < rest.len() implies (#[trigger] rest[i]).0 >= 1 by {
            assert(rest[i] == queue[i]);
        }
        lemma_total_counted(rest);
    }
}

/// Two stretches of events, one after the other, are a stretch of events.
pub(crate) proof fn lemma_concat<T>(state: ChannelState<T>, first: Seq<Event<T>>, second: Seq<Event<T>>)
    ensures
        state.after_all(first + second) == state.after_all(first).after_all(second),
        state.allows_all(first + second) <==> state.allows_all(first) && state.after_all(
            first,
        ).allows_all(second),
    decreases second.len(),
{
    reveal(ChannelState::allows_all);
    reveal(ChannelState::after_all);
    if second.len() == 0 {
        assert(first + second =~= first);
    } else {
        lemma_concat(state, first, second.drop_last());
        assert((first + second).drop_last() =~= first + second.drop_last());
        assert((first + second).last() == second.last());
    }
}

/// Only the first of those that wait has been given permits.
proof fn lemma_total_given(waiting: Seq<Waiter>)
    requires
        forall|i: int| 0 < i < waiting.len() ==> (#[trigger] waiting[i]).given == 0,
    ensures
        total_given(waiting) == (if waiting.len() == 0 {
            0
        } else {
            waiting[0].given
        }),
    decreases waiting.len(),
{
    if waiting.len() > 0 {
        let rest = waiting.skip(1);
        assert forall|i: int| 0 <= i < rest.len() implies (#[trigger] rest[i]).given == 0 by {
            assert(rest[i] == waiting[i + 1]);
        }
        lemma_total_given(rest);
    }
}

/// Permits that are handed out are not lost, and go to those that wait in their order.
proof fn lemma_hand_out(waiting: Seq<Waiter>, permits: nat, limit: nat)
    requires
        forall|i: int|
            0 <= i < waiting.len() ==> (#[trigger] waiting[i]).given < waiting[i].needed <= limit && (
            i > 0 ==> waiting[i].given == 0),
    ensures
        ({
            let handout = hand_out(waiting, permits);
            &&& total_given(handout.waiting) + handout.served + handout.left == total_given(waiting)
                + permits
            &&& handout.waiting.len() > 0 ==> handout.left == 0
            &&& handout.waiting.len() <= waiting.len()
            &&& forall|i: int|
                0 <= i < handout.waiting.len() ==> (#[trigger] handout.waiting[i]).given
                    < handout.waiting[i].needed <= limit && (i > 0 ==> handout.waiting[i].given == 0)
        }),
    decreases waiting.len(),
{
    if waiting.len() > 0 {
        let first = waiting[0];
        let missing = (first.needed - first.given) as nat;
        lemma_total_given(waiting);
        if permits < missing {
            let handout = hand_out(waiting, permits);
            lemma_total_given(handout.waiting);
        } else {
            let rest = waiting.skip(1);
            assert forall|i: int| 0 <= i < rest.len() implies (#[trigger] rest[i]).given
                < rest[i].needed <= limit && rest[i].given == 0 by {
                assert(rest[i] == waiting[i + 1]);
            }
            lemma_total_given(rest);
            lemma_hand_out(rest, (permits - missing) as nat, limit);
        }
    }
}

proof fn lemma_returned<T>(state: ChannelState<T>, permits: nat)
    requires
        state.serves_in_order(),
    ensures
        ({
            let end = state.returned(permits);
            &&& end.serves_in_order()
            &&& end.available + total_given(end.waiting) + end.reserved == state.available
                + total_given(state.waiting) + state.reserved + permits
            &&& permits == 0 ==> end == state
        }),
{
    lemma_hand_out(state.waiting, permits, state.limit);
    lemma_hand_out_nothing(state.waiting);
}

pub(crate) proof fn lemma_hand_out_nothing(waiting: Seq<Waiter>)
    requires
        forall|i: int| 0 <= i < waiting.len() ==> (#[trigger] waiting[i]).given < waiting[i].needed,
    ensures
        hand_out(waiting, 0).waiting == waiting,
        hand_out(waiting, 0).served == 0,
        hand_out(waiting, 0).left == 0,
{
    if waiting.len() > 0 {
        assert(hand_out(waiting, 0).waiting =~= waiting);
    }
}

/// A single acquisition that waits goes on waiting or has got all that it asked for.
proof fn lemma_returned_to_one<T>(state: ChannelState<T>, permits: nat)
    ensures
        state.waiting.len() == 1 ==> one_served(state, state.returned(permits)),
{
    reveal_with_fuel(hand_out, 2);
}

/// Whether the one acquisition that waits in `state` still waits in `end` or has got there what it
/// asked for.
spec fn one_served<T>(state: ChannelState<T>, end: ChannelState<T>) -> bool {
    ||| end.waiting.len() == 1 && end.waiting[0].needed == state.waiting[0].needed && end.reserved
        == state.reserved
    ||| end.waiting.len() == 0 && end.reserved == state.reserved + state.waiting[0].needed
}

proof fn lemma_inv_kept<T>(state: ChannelState<T>, event: Event<T>)
    requires
        state.inv(),
        state.allows(event),
    ensures
        state.after(event).inv(),
        state.after(event).limit == state.limit,
{
    match event {
        Event::Push { permits, item, accepted } => {
            lemma_total_push(state.queue, (permits, item));
        },
        Event::Pop { taken: Some(_) } => {
            lemma_total_skip(state.queue);
        },
        Event::Enqueue { permits } => {
            lemma_total_given(state.waiting);
            lemma_total_given(state.after(event).waiting);
        },
        Event::Withdraw { index } => {
            let waiting = state.waiting.remove(index as int);
            lemma_total_given(state.waiting);
            lemma_total_given(waiting);
            lemma_returned(ChannelState { waiting, ..state }, state.waiting[index as int].given);
        },
        Event::Unreserve { permits } => {
            let reserved = (state.reserved - permits) as nat;
            lemma_returned(ChannelState { reserved, ..state }, permits);
        },
        Event::Release { permits } => {
            let held = (state.held - permits) as nat;
            lemma_returned(ChannelState { held, ..state }, permits);
        },
        _ => {},
    }
}

pub(crate) proof fn lemma_inv_all<T>(state: ChannelState<T>, events: Seq<Event<T>>)
    requires
        state.inv(),
        state.allows_all(events),
    ensures
        state.after_all(events).inv(),
        state.after_all(events).limit == state.limit,
    decreases events.len(),
{
    reveal(ChannelState::allows_all);
    reveal(ChannelState::after_all);
    if events.len() > 0 {
        lemma_inv_all(state, events.drop_last());
        lemma_inv_kept(state.after_all(events.drop_last()), events.last());
    }
}

pub(crate) proof fn lemma_counted_all<T>(state: ChannelState<T>, events: Seq<Event<T>>)
    requires
        state.all_counted(),
        state.allows_all(events),
        all_counted(events),
    ensures
        state.after_all(events).all_counted(),
    decreases events.len(),
{
    reveal(ChannelState::allows_all);
    reveal(ChannelState::after_all);
    if events.len() > 0 {
        let earlier = events.drop_last();
        assert forall|i: int| 0 <= i < earlier.len() implies is_counted(#[trigger] earlier[i]) by {
            assert(earlier[i] == events[i]);
        }
        lemma_counted_all(state, earlier);
        assert(is_counted(events[events.len() - 1]));
    }
}

pub(crate) proof fn lemma_initial<T>(limit: nat)
    ensures
        ChannelState::<T>::initial(limit).inv(),
        ChannelState::<T>::initial(limit).all_counted(),
{
}

/// Permits are neither made nor lost: those at hand, those given to senders that wait or set aside for
/// them, those held and those queued always add up to the limit. So the capacity at hand never exceeds the limit,
/// and neither does the number of items in the queue.
pub proof fn law_permits_are_conserved<T>(limit: nat, history: Seq<Event<T>>)
    requires
        ChannelState::<T>::initial(limit).allows_all(history),
    ensures
        ({
            let state = ChannelState::<T>::initial(limit).after_all(history);
            &&& state.available + total_given(state.waiting) + state.reserved + state.held
                + total_permits(state.queue) == limit
            &&& state.available <= limit
            &&& state.queue.len() <= limit
        }),
{
    lemma_initial::<T>(limit);
    lemma_inv_all(ChannelState::<T>::initial(limit), history);
}

/// A sender that holds permits for its item always finds room for it in the queue, in a channel whose
/// items all came with at least one permit.
pub proof fn law_permits_mean_room<T>(
    limit: nat,
    history: Seq<Event<T>>,
    permits: nat,
    item: T,
    accepted: bool,
)
    requires
        ChannelState::<T>::initial(limit).allows_all(
            history.push(Event::Push { permits, item, accepted }),
        ),
        all_counted(history),
        permits >= 1,
    ensures
        accepted,
{
    reveal(ChannelState::allows_all);
    reveal(ChannelState::after_all);
    let push = Event::Push { permits, item, accepted };
    assert(history.push(push).drop_last() =~= history);
    assert(history.push(push).last() == push);
    let start = ChannelState::<T>::initial(limit);
    lemma_initial::<T>(limit);
    lemma_inv_all(start, history);
    lemma_counted_all(start, history);
    lemma_total_counted(start.after_all(history).queue);
}

/// Items come out in the order in which they went in, each once: what came out so far and what is
/// still queued is, in this order, what went in.
pub proof fn law_first_in_first_out<T>(limit: nat, history: Seq<Event<T>>)
    requires
        ChannelState::<T>::initial(limit).allows_all(history),
    ensures
        pushed_items(history) == popped_items(history) + items(
            ChannelState::<T>::initial(limit).after_all(history).queue,
        ),
    decreases history.len(),
{
    reveal(ChannelState::allows_all);
    reveal(ChannelState::after_all);
    let start = ChannelState::<T>::initial(limit);
    if history.len() == 0 {
        assert(pushed_items(history) =~= popped_items(history) + items(start.queue));
    } else {
        let earlier = history.drop_last();
        let before = start.after_all(earlier);
        let after = start.after_all(history);
        law_first_in_first_out::<T>(limit, earlier);
        match history.last() {
            Event::Push { permits, item, accepted: true } => {
                assert(items(after.queue) =~= items(before.queue).push(item));
            },
            Event::Pop { taken: Some((permits, item)) } => {
                assert(items(before.queue) =~= seq![item] + items(after.queue));
            },
            _ => {},
        }
        assert(pushed_items(history) =~= popped_items(history) + items(after.queue));
    }
}

/// Once all senders are gone, nothing goes into the queue any more; and once the queue is empty too,
/// it stays empty and the receiver has got every item that was ever sent.
pub proof fn law_everything_sent_is_received<T>(
    limit: nat,
    history: Seq<Event<T>>,
    later: Seq<Event<T>>,
)
    requires
        ChannelState::<T>::initial(limit).allows_all(history + later),
        ChannelState::<T>::initial(limit).after_all(history).senders == 0,
    ensures
        pushed_items(later) == Seq::<T>::empty(),
        pushed_items(history + later) == pushed_items(history),
        ChannelState::<T>::initial(limit).after_all(history).queue.len() == 0 ==> {
            &&& ChannelState::<T>::initial(limit).after_all(history + later).queue.len() == 0
            &&& popped_items(history + later) == pushed_items(history + later)
        },
    decreases later.len(),
{
    let start = ChannelState::<T>::initial(limit);
    lemma_initial::<T>(limit);
    lemma_concat(start, history, later);
    lemma_inv_all(start, history);
    lemma_no_senders(start.after_all(history), later);
    lemma_pushed_concat(history, later);
    assert(pushed_items(history) + pushed_items(later) =~= pushed_items(history));
    if start.after_all(history).queue.len() == 0 {
        law_first_in_first_out::<T>(limit, history + later);
        let queue = start.after_all(history + later).queue;
        assert(popped_items(history + later) + items(queue) =~= popped_items(history + later));
    }
}

proof fn lemma_no_senders<T>(state: ChannelState<T>, later: Seq<Event<T>>)
    requires
        state.inv(),
        state.senders == 0,
        state.allows_all(later),
    ensures
        state.after_all(later).senders == 0,
        state.after_all(later).queue.len() <= state.queue.len(),
        pushed_items(later) == Seq::<T>::empty(),
    decreases later.len(),
{
    reveal(ChannelState::allows_all);
    reveal(ChannelState::after_all);
    if later.len() > 0 {
        lemma_no_senders(state, later.drop_last());
        lemma_inv_all(state, later.drop_last());
    }
}

proof fn lemma_pushed_concat<T>(first: Seq<Event<T>>, second: Seq<Event<T>>)
    ensures
        pushed_items(first + second) == pushed_items(first) + pushed_items(second),
    decreases second.len(),
{
    if second.len() == 0 {
        assert(first + second =~= first);
        assert(pushed_items(first) + pushed_items(second) =~= pushed_items(first));
    } else {
        lemma_pushed_concat(first, second.drop_last());
        assert((first + second).drop_last() =~= first + second.drop_last());
        assert((first + second).last() == second.last());
        assert(pushed_items(first + second) =~= pushed_items(first) + pushed_items(second));
    }
}

/// A closed channel stays closed, and no sender gets permits from it any more: every attempt to send
/// is told that the channel is closed.
pub proof fn law_closed_for_good<T>(state: ChannelState<T>, later: Seq<Event<T>>)
    requires
        state.closed,
        state.allows_all(later),
    ensures
        state.after_all(later).closed,
        forall|i: int|
            0 <= i < later.len() ==> match #[trigger] later[i] {
                Event::TryAcquire { outcome, .. } => outcome is Closed,
                Event::Reserve { .. } | Event::Enqueue { .. } | Event::Acquire { .. } => false,
                _ => true,
            },
    decreases later.len(),
{
    reveal(ChannelState::allows_all);
    reveal(ChannelState::after_all);
    if later.len() > 0 {
        let earlier = later.drop_last();
        law_closed_for_good(state, earlier);
        assert forall|i: int| 0 <= i < later.len() implies match #[trigger] later[i] {
            Event::TryAcquire { outcome, .. } => outcome is Closed,
            Event::Reserve { .. } | Event::Enqueue { .. } | Event::Acquire { .. } => false,
            _ => true,
        } by {
            if i < earlier.len() {
                assert(later[i] == earlier[i]);
            }
        }
    }
}

/// No wake-up is lost: a receiver that waits while an item is queued, or while the channel is closed,
/// can go on as soon as the senders have finished what they were doing.
pub proof fn law_no_wake_up_is_lost<T>(limit: nat, history: Seq<Event<T>>)
    requires
        ChannelState::<T>::initial(limit).allows_all(history),
    ensures
        ({
            let state = ChannelState::<T>::initial(limit).after_all(history);
            state.phase is Parked && (state.queue.len() > 0 || state.closed) && state.unannounced == 0
                ==> state.allows(Event::Resume)
        }),
{
    lemma_initial::<T>(limit);
    lemma_inv_all(ChannelState::<T>::initial(limit), history);
}

/// The channel never gets stuck: where a send waits for permits, an item is queued for the receiver to
/// take, or permits are held by a call that is under way, or they are set aside for a send that need
/// not wait any longer.
pub proof fn law_no_deadlock<T>(limit: nat, history: Seq<Event<T>>)
    requires
        ChannelState::<T>::initial(limit).allows_all(history),
    ensures
        ({
            let state = ChannelState::<T>::initial(limit).after_all(history);
            state.waiting.len() > 0 ==> state.queue.len() > 0 || state.held > 0 || state.reserved > 0
        }),
{
    let state = ChannelState::<T>::initial(limit).after_all(history);
    lemma_initial::<T>(limit);
    lemma_inv_all(ChannelState::<T>::initial(limit), history);
    lemma_total_given(state.waiting);
}

/// A closing ends every wait for permits: no send waits any more, and those that did are told that
/// the channel is closed.
pub proof fn law_closing_ends_waits<T>(state: ChannelState<T>, end: End)
    requires
        state.allows(Event::Close { end }),
    ensures
        ({
            let closed = state.after(Event::<T>::Close { end });
            &&& closed.waiting.len() == 0
            &&& closed.has_idle_sender() ==> closed.allows(Event::Refused)
            &&& forall|permits: nat| !#[trigger] closed.allows(Event::Acquire { permits })
        }),
{
}

/// What was appended to a journal.
pub open spec fn appended<T>(before: Seq<Event<T>>, after: Seq<Event<T>>) -> Seq<Event<T>> {
    after.skip(before.len() as int)
}

proof fn lemma_appended_concat<T>(
    first: Seq<Event<T>>,
    middle: Seq<Event<T>>,
    last: Seq<Event<T>>,
)
    requires
        first.is_prefix_of(middle),
        middle.is_prefix_of(last),
    ensures
        first.is_prefix_of(last),
        appended(first, last) == appended(first, middle) + appended(middle, last),
{
    assert(first =~= last.subrange(0, first.len() as int));
    assert(appended(first, last) =~= appended(first, middle) + appended(middle, last));
}

pub(crate) proof fn lemma_one<T>(state: ChannelState<T>, event: Event<T>)
    ensures
        state.allows_all(seq![event]) <==> state.allows(event),
        state.after_all(seq![event]) == state.after(event),
{
    reveal_with_fuel(ChannelState::allows_all, 2);
    reveal_with_fuel(ChannelState::after_all, 2);
    assert(seq![event].drop_last() =~= Seq::empty());
}

pub(crate) proof fn lemma_two<T>(state: ChannelState<T>, first: Event<T>, second: Event<T>)
    ensures
        state.allows_all(seq![first, second]) <==> state.allows(first) && state.after(first).allows(
            second,
        ),
        state.after_all(seq![first, second]) == state.after(first).after(second),
{
    reveal(ChannelState::allows_all);
    reveal(ChannelState::after_all);
    lemma_one(state, first);
    assert(seq![first, second].drop_last() =~= seq![first]);
    assert(seq![first, second].last() == second);
}

pub(crate) proof fn lemma_three<T>(state: ChannelState<T>, first: Event<T>, second: Event<T>, third: Event<T>)
    ensures
        state.allows_all(seq![first, second, third]) <==> state.allows(first) && state.after(
            first,
        ).allows(second) && state.after(first).after(second).allows(third),
        state.after_all(seq![first, second, third]) == state.after(first).after(second).after(third),
{
    reveal(ChannelState::allows_all);
    reveal(ChannelState::after_all);
    lemma_two(state, first, second);
    assert(seq![first, second, third].drop_last() =~= seq![first, second]);
    assert(seq![first, second, third].last() == third);
}

/// What an attempt to send an item that needs `permits` permits returns.
pub open spec fn try_send_step<T>(state: ChannelState<T>, permits: nat, item: T) -> TrySendStep<T> {
    if state.closed {
        TrySendStep::Refused(TrySendError::Disconnected(item))
    } else if permits > state.available {
        TrySendStep::Refused(TrySendError::InsufficientCapacity(item))
    } else if state.queue.len() < state.slots {
        TrySendStep::Sent
    } else {
        TrySendStep::Overflow(item)
    }
}

/// An uninterrupted attempt to send an item is refused as disconnected exactly when the channel is
/// closed, and for lack of capacity exactly when the channel is open and lacks the permits for the
/// item. Otherwise the item goes to the end of the queue with its permits, unless the queue has no
/// free slot. An attempt that does not succeed changes nothing.
pub proof fn law_try_send<T>(
    state: ChannelState<T>,
    before: Seq<Event<T>>,
    after: Seq<Event<T>>,
    permits: nat,
    item: T,
    step: TrySendStep<T>,
)
    requires
        state.inv(),
        try_sends(before, after, permits, item, step),
        state.allows_all(appended(before, after)),
    ensures
        step == try_send_step(state, permits, item),
        state.after_all(appended(before, after)) == (match step {
            TrySendStep::Sent => ChannelState {
                available: (state.available - permits) as nat,
                queue: state.queue.push((permits, item)),
                woken: true,
                ..state
            },
            _ => state,
        }),
{
    match step {
        TrySendStep::Refused(error) => {
            let outcome = if error is Disconnected {
                Outcome::Closed
            } else {
                Outcome::NoPermits
            };
            let ask = Event::TryAcquire { permits, outcome };
            assert(appended(before, after) =~= seq![ask]);
            lemma_one(state, ask);
        },
        _ => {
            let ask = Event::TryAcquire { permits, outcome: Outcome::Granted };
            let accepted = step is Sent;
            let push = Event::Push { permits, item, accepted };
            let end = if accepted {
                Event::Wake
            } else {
                Event::Release { permits }
            };
            assert(appended(before, after) =~= seq![ask, push, end]);
            lemma_three(state, ask, push, end);
            let available = (state.available - permits) as nat;
            lemma_returned(ChannelState { available, ..state }, permits);
        },
    }
}

/// What a waiting send of an item returns once its wait has ended.
pub open spec fn send_step<T>(state: ChannelState<T>, item: T) -> SendStep<T> {
    if state.closed {
        SendStep::Disconnected(SendError(item))
    } else if state.queue.len() < state.slots {
        SendStep::Sent
    } else {
        SendStep::Overflow(item)
    }
}

/// A waiting send is disconnected exactly when the channel is closed by the end of its wait.
/// Otherwise the item goes to the end of the queue, with the permits that were set aside for it,
/// whenever the queue has a free slot. A send that does not succeed puts nothing in the queue.
pub proof fn law_send<T>(
    state: ChannelState<T>,
    before: Seq<Event<T>>,
    after: Seq<Event<T>>,
    item: T,
    acquired: Result<OwnedSemaphorePermit, AcquireError>,
    step: SendStep<T>,
)
    requires
        finishes_send(before, after, item, acquired, step),
        state.allows_all(appended(before, after)),
    ensures
        acquired is Err <==> state.closed,
        step == send_step(state, item),
        state.after_all(appended(before, after)) == (match (acquired, step) {
            (Ok(permit), SendStep::Sent) => ChannelState {
                reserved: (state.reserved - permits_held(permit)) as nat,
                queue: state.queue.push((permits_held(permit), item)),
                woken: true,
                ..state
            },
            (Ok(permit), _) => (ChannelState {
                reserved: (state.reserved - permits_held(permit)) as nat,
                ..state
            }).returned(permits_held(permit)),
            (Err(_), _) => state,
        }),
{
    let told = acquire_event::<T>(acquired);
    match acquired {
        Ok(permit) => {
            let permits = permits_held(permit);
            let accepted = step is Sent;
            let push = Event::Push { permits, item, accepted };
            let end = if accepted {
                Event::Wake
            } else {
                Event::Release { permits }
            };
            assert(appended(before, after) =~= seq![told, push, end]);
            lemma_three(state, told, push, end);
        },
        Err(_) => {
            assert(appended(before, after) =~= seq![told]);
            lemma_one(state, told);
        },
    }
}

/// A waiting send that got its permits succeeds, in a channel whose items all came with at least one
/// permit.
pub proof fn law_send_never_overflows<T>(
    limit: nat,
    history: Seq<Event<T>>,
    before: Seq<Event<T>>,
    after: Seq<Event<T>>,
    item: T,
    permit: OwnedSemaphorePermit,
    step: SendStep<T>,
)
    requires
        finishes_send(before, after, item, Ok::<_, AcquireError>(permit), step),
        ChannelState::<T>::initial(limit).allows_all(history + appended(before, after)),
        all_counted(history),
        permits_held(permit) >= 1,
    ensures
        step is Sent,
{
    let start = ChannelState::<T>::initial(limit);
    let state = start.after_all(history);
    lemma_concat(start, history, appended(before, after));
    law_send(state, before, after, item, Ok(permit), step);
    lemma_initial::<T>(limit);
    lemma_inv_all(start, history);
    lemma_counted_all(start, history);
    lemma_total_counted(state.queue);
    if step is Overflow {
        let permits = permits_held(permit);
        let told = Event::<T>::Acquire { permits };
        let push = Event::Push { permits, item, accepted: false };
        let end = Event::Release { permits };
        assert(appended(before, after) =~= seq![told, push, end]);
        lemma_three(state, told, push, end);
    }
}

/// A waiting send and an attempt to send agree: the send has to wait for permits exactly when the
/// attempt lacks capacity. Otherwise the two end alike and leave the channel alike.
pub proof fn law_send_agrees_with_try_send<T>(
    state: ChannelState<T>,
    permits: nat,
    item: T,
    try_before: Seq<Event<T>>,
    try_after: Seq<Event<T>>,
    tried: TrySendStep<T>,
    send_before: Seq<Event<T>>,
    send_after: Seq<Event<T>>,
    acquired: Result<OwnedSemaphorePermit, AcquireError>,
    sent: SendStep<T>,
)
    requires
        state.inv(),
        permits <= state.limit,
        try_sends(try_before, try_after, permits, item, tried),
        state.allows_all(appended(try_before, try_after)),
        finishes_send(send_before, send_after, item, acquired, sent),
        acquired matches Ok(permit) ==> permits_held(permit) == permits,
    ensures
        tried == TrySendStep::Refused(TrySendError::InsufficientCapacity(item)) <==> state.allows(
            Event::Enqueue { permits },
        ),
        ({
            let reserve = Event::Reserve { permits };
            let at_once = if acquired is Ok {
                seq![reserve] + appended(send_before, send_after)
            } else {
                appended(send_before, send_after)
            };
            state.allows_all(at_once) ==> {
                &&& sent is Sent <==> tried is Sent
                &&& sent == SendStep::Disconnected(SendError(item)) <==> tried
                    == TrySendStep::Refused(TrySendError::Disconnected(item))
                &&& sent == SendStep::Overflow(item) <==> tried == TrySendStep::Overflow(item)
                &&& state.after_all(at_once) == state.after_all(appended(try_before, try_after))
            }
        }),
{
    let reserve = Event::Reserve { permits };
    law_try_send(state, try_before, try_after, permits, item, tried);
    let sending = appended(send_before, send_after);
    if acquired is Ok {
        lemma_one(state, reserve);
        lemma_concat(state, seq![reserve], sending);
        if state.allows_all(seq![reserve] + sending) {
            law_send(state.after(reserve), send_before, send_after, item, acquired, sent);
            let available = (state.available - permits) as nat;
            lemma_returned(ChannelState { available, ..state }, permits);
        }
    } else if state.allows_all(sending) {
        law_send(state, send_before, send_after, item, acquired, sent);
    }
}

/// Senders are alike: where one of them attempts to send an item, another one would get the same
/// answer in its place and leave the channel the same.
pub proof fn law_senders_are_alike<T>(
    state: ChannelState<T>,
    permits: nat,
    item: T,
    one_before: Seq<Event<T>>,
    one_after: Seq<Event<T>>,
    one: TrySendStep<T>,
    other_before: Seq<Event<T>>,
    other_after: Seq<Event<T>>,
    other: TrySendStep<T>,
)
    requires
        state.inv(),
        try_sends(one_before, one_after, permits, item, one),
        state.allows_all(appended(one_before, one_after)),
        try_sends(other_before, other_after, permits, item, other),
        state.allows_all(appended(other_before, other_after)),
    ensures
        one == other,
        state.after_all(appended(one_before, one_after)) == state.after_all(
            appended(other_before, other_after),
        ),
{
    law_try_send(state, one_before, one_after, permits, item, one);
    law_try_send(state, other_before, other_after, permits, item, other);
}

/// In a channel whose items all came with at least one permit, an attempt to send one more such item
/// succeeds whenever the permits are there: it is the permits alone that decide.
pub proof fn law_permits_alone_decide<T>(
    limit: nat,
    history: Seq<Event<T>>,
    before: Seq<Event<T>>,
    after: Seq<Event<T>>,
    permits: nat,
    item: T,
    step: TrySendStep<T>,
)
    requires
        try_sends(before, after, permits, item, step),
        ChannelState::<T>::initial(limit).allows_all(history + appended(before, after)),
        all_counted(history),
        permits >= 1,
    ensures
        ({
            let state = ChannelState::<T>::initial(limit).after_all(history);
            &&& step is Sent <==> !state.closed && permits <= state.available
            &&& step == TrySendStep::Refused(TrySendError::InsufficientCapacity(item))
                <==> !state.closed && permits > state.available
            &&& step == TrySendStep::Refused(TrySendError::Disconnected(item)) <==> state.closed
            &&& !(step is Overflow)
        }),
{
    let start = ChannelState::<T>::initial(limit);
    let state = start.after_all(history);
    lemma_concat(start, history, appended(before, after));
    lemma_initial::<T>(limit);
    lemma_inv_all(start, history);
    law_try_send(state, before, after, permits, item, step);
    lemma_counted_all(start, history);
    lemma_total_counted(state.queue);
}

/// An attempt to send finds the queue full exactly when the channel is open, the permits are there,
/// and as many items as the limit says were sent and not yet received. It takes an item without
/// permits to get there.
pub proof fn law_overflow<T>(
    limit: nat,
    history: Seq<Event<T>>,
    before: Seq<Event<T>>,
    after: Seq<Event<T>>,
    permits: nat,
    item: T,
    step: TrySendStep<T>,
)
    requires
        try_sends(before, after, permits, item, step),
        ChannelState::<T>::initial(limit).allows_all(history + appended(before, after)),
    ensures
        ({
            let state = ChannelState::<T>::initial(limit).after_all(history);
            &&& step is Overflow <==> !state.closed && permits <= state.available && pushed_items(
                history,
            ).len() - popped_items(history).len() == limit
            &&& step is Overflow ==> permits == 0 || !all_counted(history)
        }),
{
    let start = ChannelState::<T>::initial(limit);
    let state = start.after_all(history);
    lemma_concat(start, history, appended(before, after));
    lemma_initial::<T>(limit);
    lemma_inv_all(start, history);
    law_try_send(state, before, after, permits, item, step);
    law_first_in_first_out::<T>(limit, history);
    if permits >= 1 && all_counted(history) {
        law_permits_alone_decide(limit, history, before, after, permits, item, step);
    }
}

/// What a look for the next item returns.
pub open spec fn next_step<T>(state: ChannelState<T>) -> NextStep<T> {
    match state.front() {
        Some((_, item)) => NextStep::Item(item),
        None => if state.closed {
            NextStep::Closed
        } else {
            NextStep::Wait
        },
    }
}

/// An uninterrupted look for the next item returns the oldest item of the queue, closed or not, and
/// gives its permits back to the senders. With an empty queue the receiver is done when the channel
/// is closed, and waits when it is open.
pub proof fn law_next<T>(
    state: ChannelState<T>,
    before: Seq<Event<T>>,
    after: Seq<Event<T>>,
    step: NextStep<T>,
)
    requires
        looks(before, after, step),
        state.allows_all(appended(before, after)),
    ensures
        step == next_step(state),
        state.after_all(appended(before, after)) == (match step {
            NextStep::Item(_) => (ChannelState {
                queue: state.queue.skip(1),
                phase: Phase::Active,
                ..state
            }).returned(state.queue[0].0),
            NextStep::Closed => ChannelState { phase: Phase::Active, ..state },
            NextStep::Wait => ChannelState { phase: Phase::Parked, ..state },
        }),
{
    match step {
        NextStep::Item(item) => {
            let permits = choose|permits: nat| after == #[trigger] retrieval(before, permits, item);
            let pop = Event::Pop { taken: Some((permits, item)) };
            let release = Event::Release { permits };
            assert(appended(before, after) =~= seq![pop, release]);
            lemma_two(state, pop, release);
            let taken = state.after(pop);
            assert(taken.held - permits == state.held);
            assert(taken.after(release) == (ChannelState { held: state.held, ..taken }).returned(
                permits,
            ));
        },
        _ => {
            let closed = step is Closed;
            let pop = Event::<T>::Pop { taken: None };
            let observe = Event::ObserveClosed { closed };
            assert(appended(before, after) =~= seq![pop, observe]);
            lemma_two(state, pop, observe);
        },
    }
}

/// What is sent into an empty channel is what comes out next, and with that the channel is as empty
/// as before, with the capacity that it had.
pub proof fn law_round_trip<T>(
    state: ChannelState<T>,
    sender_before: Seq<Event<T>>,
    sender_after: Seq<Event<T>>,
    permits: nat,
    item: T,
    receiver_before: Seq<Event<T>>,
    receiver_after: Seq<Event<T>>,
    step: NextStep<T>,
)
    requires
        state.inv(),
        state.queue.len() == 0,
        try_sends(sender_before, sender_after, permits, item, TrySendStep::Sent),
        looks(receiver_before, receiver_after, step),
        state.allows_all(
            appended(sender_before, sender_after) + appended(receiver_before, receiver_after),
        ),
    ensures
        step == NextStep::Item(item),
        ({
            let end = state.after_all(
                appended(sender_before, sender_after) + appended(receiver_before, receiver_after),
            );
            &&& end.queue.len() == 0
            &&& end.available == state.available
        }),
{
    let sent = appended(sender_before, sender_after);
    lemma_concat(state, sent, appended(receiver_before, receiver_after));
    law_try_send(state, sender_before, sender_after, permits, item, TrySendStep::Sent);
    law_next(state.after_all(sent), receiver_before, receiver_after, step);
    let full = state.after_all(sent);
    let emptied = ChannelState { queue: full.queue.skip(1), phase: Phase::Active, ..full };
    lemma_returned(emptied, permits);
}

/// A sender that goes away closes the channel exactly when it is the last one, and then wakes the
/// receiver.
pub proof fn law_last_sender_closes<T>(
    state: ChannelState<T>,
    before: Seq<Event<T>>,
    after: Seq<Event<T>>,
    senders: usize,
)
    requires
        after == departure(before, senders),
        state.allows_all(appended(before, after)),
    ensures
        senders == state.senders,
        state.after_all(appended(before, after)) == (if senders == 1 {
            ChannelState { senders: 0, woken: true, ..state.shut() }
        } else {
            ChannelState { senders: (state.senders - 1) as nat, ..state }
        }),
{
    let leave = Event::<T>::Leave { before: senders };
    if senders == 1 {
        let close = Event::<T>::Close { end: End::Sender };
        assert(appended(before, after) =~= seq![leave, close, Event::Wake]);
        lemma_three(state, leave, close, Event::Wake);
    } else {
        assert(appended(before, after) =~= seq![leave]);
        lemma_one(state, leave);
    }
}

/// A clone of a sender counts as one more sender and changes nothing else. So the channel stays open
/// when either of the two goes away.
pub proof fn law_clone_keeps_channel_open<T>(
    state: ChannelState<T>,
    senders: usize,
    before: Seq<Event<T>>,
    after: Seq<Event<T>>,
    left: usize,
)
    requires
        state.allows_all(arrival::<T>(senders)),
        after == departure(before, left),
        state.after_all(arrival::<T>(senders)).allows_all(appended(before, after)),
    ensures
        state.after_all(arrival::<T>(senders)) == (ChannelState {
            senders: state.senders + 1,
            ..state
        }),
        state.after_all(arrival::<T>(senders)).after_all(appended(before, after)) == state,
{
    lemma_one(state, Event::<T>::Join { before: senders });
    law_last_sender_closes(state.after_all(arrival::<T>(senders)), before, after, left);
}

/// When the receiver goes away, the channel is closed: every later attempt to send hands its item
/// back as disconnected.
pub proof fn law_no_send_without_receiver<T>(
    state: ChannelState<T>,
    later: Seq<Event<T>>,
    before: Seq<Event<T>>,
    after: Seq<Event<T>>,
    permits: nat,
    item: T,
    step: TrySendStep<T>,
)
    requires
        state.inv(),
        state.allows(Event::Close { end: End::Receiver }),
        state.after(Event::Close { end: End::Receiver }).allows_all(
            later + appended(before, after),
        ),
        try_sends(before, after, permits, item, step),
    ensures
        step == TrySendStep::Refused(TrySendError::Disconnected(item)),
{
    let closed = state.after(Event::Close { end: End::Receiver });
    lemma_concat(closed, later, appended(before, after));
    law_closed_for_good(closed, later);
    lemma_inv_kept(state, Event::Close { end: End::Receiver });
    lemma_inv_all(closed, later);
    law_try_send(closed.after_all(later), before, after, permits, item, step);
}

/// The permits of an item never exceed the limit of the channel nor the events of the item. Up to
/// 32 bits they are one per event, the whole limit for an item that exceeds it, and at least one for
/// an item that has events.
pub proof fn law_required_permits(limit: usize, event_count: usize)
    ensures
        required_permits(limit, event_count) <= limit,
        required_permits(limit, event_count) <= event_count,
        event_count <= limit && event_count <= u32::MAX ==> required_permits(limit, event_count)
            == event_count,
        limit <= event_count && limit <= u32::MAX ==> required_permits(limit, event_count) == limit,
        0 < limit && 0 < event_count && (limit <= u32::MAX || event_count <= u32::MAX)
            ==> required_permits(limit, event_count) >= 1,
{
}

/// An open channel that is empty takes any item, however many events it has: a single item can always
/// be sent.
pub proof fn law_empty_channel_takes_any_item<T>(
    limit: usize,
    history: Seq<Event<T>>,
    event_count: usize,
    before: Seq<Event<T>>,
    after: Seq<Event<T>>,
    item: T,
    step: TrySendStep<T>,
)
    requires
        limit > 0,
        ChannelState::<T>::initial(limit as nat).allows_all(history + appended(before, after)),
        ChannelState::<T>::initial(limit as nat).after_all(history).is_idle(),
        !ChannelState::<T>::initial(limit as nat).after_all(history).closed,
        try_sends(before, after, required_permits(limit, event_count), item, step),
    ensures
        step is Sent,
        ChannelState::<T>::initial(limit as nat).after_all(
            history + appended(before, after),
        ).available == limit - required_permits(limit, event_count),
{
    let start = ChannelState::<T>::initial(limit as nat);
    lemma_concat(start, history, appended(before, after));
    lemma_initial::<T>(limit as nat);
    lemma_inv_all(start, history);
    law_required_permits(limit, event_count);
    law_try_send(
        start.after_all(history),
        before,
        after,
        required_permits(limit, event_count),
        item,
        step,
    );
}

proof fn lemma_look_extends<T>(before: Seq<Event<T>>, after: Seq<Event<T>>, step: NextStep<T>)
    requires
        looks(before, after, step),
    ensures
        before.is_prefix_of(after),
{
    match step {
        NextStep::Item(item) => {
            let permits = choose|permits: nat| after == #[trigger] retrieval(before, permits, item);
            assert(before =~= retrieval(before, permits, item).subrange(0, before.len() as int));
        },
        _ => {
            assert(before =~= idle_look(before, step is Closed).subrange(0, before.len() as int));
        },
    }
}

/// How `end` has come from `state` by `count` looks of the receiver.
spec fn looked_into<T>(state: ChannelState<T>, count: int, end: ChannelState<T>) -> bool {
    &&& end.closed == state.closed
    &&& end.queue == state.queue.skip(
        if count < state.queue.len() {
            count
        } else {
            state.queue.len() as int
        },
    )
    &&& end.held == state.held
    &&& end.senders == state.senders
    &&& end.busy == state.busy
    &&& state.waiting.len() == 0 ==> end.waiting == state.waiting && end.reserved == state.reserved
    &&& state.waiting.len() == 1 ==> one_served(state, end)
}

proof fn lemma_look_once<T>(
    state: ChannelState<T>,
    count: int,
    reached: ChannelState<T>,
    before: Seq<Event<T>>,
    after: Seq<Event<T>>,
    step: NextStep<T>,
)
    requires
        0 <= count,
        looked_into(state, count, reached),
        looks(before, after, step),
        reached.allows_all(appended(before, after)),
        state.closed || count < state.queue.len(),
    ensures
        looked_into(state, count + 1, reached.after_all(appended(before, after))),
        step == (if count < state.queue.len() {
            NextStep::Item(state.queue[count].1)
        } else {
            NextStep::Closed
        }),
{
    law_next(reached, before, after, step);
    if count < state.queue.len() {
        assert(state.queue.skip(count).skip(1) =~= state.queue.skip(count + 1));
        let taken = ChannelState {
            queue: reached.queue.skip(1),
            phase: Phase::Active,
            ..reached
        };
        lemma_returned_to_one(taken, reached.queue[0].0);
    }
}

proof fn lemma_drain<T>(
    state: ChannelState<T>,
    journals: Seq<Seq<Event<T>>>,
    steps: Seq<NextStep<T>>,
)
    requires
        state.closed || steps.len() <= state.queue.len(),
        journals.len() == steps.len() + 1,
        forall|i: int| #![trigger steps[i]]
            0 <= i < steps.len() ==> looks(journals[i], journals[i + 1], steps[i]),
        state.allows_all(appended(journals[0], journals.last())),
    ensures
        looked_into(
            state,
            steps.len() as int,
            state.after_all(appended(journals[0], journals.last())),
        ),
        forall|i: int|
            0 <= i < steps.len() ==> #[trigger] steps[i] == (if i < state.queue.len() {
                NextStep::Item(state.queue[i].1)
            } else {
                NextStep::Closed
            }),
    decreases steps.len(),
{
    let first = journals[0];
    if steps.len() == 0 {
        reveal(ChannelState::after_all);
        assert(appended(first, first) =~= Seq::empty());
        assert(state.queue.skip(0) =~= state.queue);
    } else {
        let count = steps.len() - 1;
        let step = steps[count];
        let fewer = steps.drop_last();
        let middle = journals[count];
        let last = journals.last();
        assert(looks(middle, last, step));
        lemma_look_extends(middle, last, step);
        lemma_looks_extend(journals, steps, count);
        lemma_appended_concat(first, middle, last);
        lemma_concat(state, appended(first, middle), appended(middle, last));
        let shorter = journals.drop_last();
        assert(shorter[0] == first && shorter.last() == middle);
        assert forall|i: int| #![trigger fewer[i]] 0 <= i < fewer.len() implies looks(
            shorter[i],
            shorter[i + 1],
            fewer[i],
        ) by {
            assert(fewer[i] == steps[i]);
        }
        lemma_drain(state, shorter, fewer);
        let reached = state.after_all(appended(first, middle));
        lemma_look_once(state, count, reached, middle, last, step);
        assert forall|i: int| 0 <= i < steps.len() implies #[trigger] steps[i] == (if i
            < state.queue.len() {
            NextStep::Item(state.queue[i].1)
        } else {
            NextStep::Closed
        }) by {
            if i < count {
                assert(steps[i] == fewer[i]);
            }
        }
    }
}

proof fn lemma_looks_extend<T>(
    journals: Seq<Seq<Event<T>>>,
    steps: Seq<NextStep<T>>,
    count: int,
)
    requires
        0 <= count <= steps.len(),
        journals.len() == steps.len() + 1,
        forall|i: int| #![trigger steps[i]]
            0 <= i < steps.len() ==> looks(journals[i], journals[i + 1], steps[i]),
    ensures
        journals[0].is_prefix_of(journals[count]),
    decreases count,
{
    let first = journals[0];
    if count == 0 {
        assert(first =~= first.subrange(0, first.len() as int));
    } else {
        lemma_looks_extend(journals, steps, count - 1);
        let middle = journals[count - 1];
        let last = journals[count];
        assert(looks(middle, last, steps[count - 1]));
        lemma_look_extends(middle, last, steps[count - 1]);
        assert(first =~= last.subrange(0, first.len() as int));
    }
}

/// A receiver that looks again and again into a closed channel gets the queued items, oldest first,
/// and then the end, every time; it never waits. `journals` are its journals before the first look
/// and after each.
pub proof fn law_closed_channel_drains<T>(
    state: ChannelState<T>,
    journals: Seq<Seq<Event<T>>>,
    steps: Seq<NextStep<T>>,
)
    requires
        state.closed,
        journals.len() == steps.len() + 1,
        forall|i: int| #![trigger steps[i]]
            0 <= i < steps.len() ==> looks(journals[i], journals[i + 1], steps[i]),
        state.allows_all(appended(journals[0], journals.last())),
    ensures
        forall|i: int|
            0 <= i < steps.len() ==> #[trigger] steps[i] == (if i < state.queue.len() {
                NextStep::Item(state.queue[i].1)
            } else {
                NextStep::Closed
            }),
{
    lemma_drain(state, journals, steps);
}

/// A receiver that looks as often as there are items in the queue, closed or not, gets them all,
/// oldest first, without waiting, and leaves the queue empty. A send that alone waits for permits
/// meanwhile goes on waiting or has got all that it asked for. `journals` are the journals of the
/// receiver before the first look and after each.
pub proof fn law_everything_queued_comes_out<T>(
    state: ChannelState<T>,
    journals: Seq<Seq<Event<T>>>,
    steps: Seq<NextStep<T>>,
)
    requires
        steps.len() == state.queue.len(),
        journals.len() == steps.len() + 1,
        forall|i: int| #![trigger steps[i]]
            0 <= i < steps.len() ==> looks(journals[i], journals[i + 1], steps[i]),
        state.allows_all(appended(journals[0], journals.last())),
    ensures
        forall|i: int|
            0 <= i < steps.len() ==> #[trigger] steps[i] == NextStep::Item(state.queue[i].1),
        ({
            let end = state.after_all(appended(journals[0], journals.last()));
            &&& end.queue.len() == 0
            &&& end.closed == state.closed
            &&& end.held == state.held
            &&& end.has_idle_sender() == state.has_idle_sender()
            &&& state.waiting.len() == 0 ==> end.waiting.len() == 0 && end.reserved
                == state.reserved
            &&& state.waiting.len() == 1 ==> {
                ||| end.waiting.len() == 1 && end.waiting[0].needed == state.waiting[0].needed
                    && end.reserved == state.reserved
                ||| end.waiting.len() == 0 && end.reserved == state.reserved
                    + state.waiting[0].needed
            }
        }),
{
    lemma_drain(state, journals, steps);
}

/// An attempt to send an item that has events hands no item without a permit to the queue.
pub proof fn law_events_mean_permits<T>(
    limit: usize,
    event_count: usize,
    before: Seq<Event<T>>,
    after: Seq<Event<T>>,
    item: T,
    step: TrySendStep<T>,
)
    requires
        0 < limit,
        0 < event_count,
        limit <= u32::MAX || event_count <= u32::MAX,
        try_sends(before, after, required_permits(limit, event_count), item, step),
    ensures
        all_counted(appended(before, after)),
{
    law_required_permits(limit, event_count);
}

} // verus!
