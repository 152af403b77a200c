//! Several channels side by side.

use crate::model::{ChannelState, Event};
use vstd::prelude::*;

verus! {

/// The events of channel `channel` among `events`, each of which says to which channel it belongs.
pub open spec fn own_events<T>(events: Seq<(nat, Event<T>)>, channel: nat) -> Seq<Event<T>>
    decreases events.len(),
{
    if events.len() == 0 {
        Seq::empty()
    } else {
        let earlier = own_events(events.drop_last(), channel);
        if events.last().0 == channel {
            earlier.push(events.last().1)
        } else {
            earlier
        }
    }
}

/// The states of all channels after `events`, one after the other.
pub open spec fn states_after<T>(
    states: Map<nat, ChannelState<T>>,
    events: Seq<(nat, Event<T>)>,
) -> Map<nat, ChannelState<T>>
    decreases events.len(),
{
    if events.len() == 0 {
        states
    } else {
        let reached = states_after(states, events.drop_last());
        let (channel, event) = events.last();
        reached.insert(channel, reached[channel].after(event))
    }
}

/// Whether `events` can come next, one after the other.
pub open spec fn states_allow<T>(
    states: Map<nat, ChannelState<T>>,
    events: Seq<(nat, Event<T>)>,
) -> bool
    decreases events.len(),
{
    events.len() == 0 || {
        let (channel, event) = events.last();
        &&& states_allow(states, events.drop_last())
        &&& states_after(states, events.drop_last())[channel].allows(event)
    }
}

proof fn lemma_own_state<T>(
    states: Map<nat, ChannelState<T>>,
    events: Seq<(nat, Event<T>)>,
    channel: nat,
)
    ensures
        states_after(states, events)[channel] == states[channel].after_all(
            own_events(events, channel),
        ),
    decreases events.len(),
{
    reveal(ChannelState::allows_all);
    reveal(ChannelState::after_all);
    if events.len() > 0 {
        lemma_own_state(states, events.drop_last(), channel);
        if events.last().0 == channel {
            lemma_push(states[channel], own_events(events.drop_last(), channel), events.last().1);
        }
    }
}

proof fn lemma_push<T>(state: ChannelState<T>, events: Seq<Event<T>>, event: Event<T>)
    ensures
        state.after_all(events.push(event)) == state.after_all(events).after(event),
        state.allows_all(events.push(event)) <==> state.allows_all(events) && state.after_all(
            events,
        ).allows(event),
{
    reveal(ChannelState::allows_all);
    reveal(ChannelState::after_all);
    assert(events.push(event).drop_last() =~= events);
    assert(events.push(event).last() == event);
}

/// Channels share nothing: where a channel gets to follows from its own events alone, and the events
/// of all channels can be interleaved in any way that keeps the order within each.
pub proof fn law_channels_share_nothing<T>(
    states: Map<nat, ChannelState<T>>,
    events: Seq<(nat, Event<T>)>,
)
    ensures
        forall|channel: nat| #[trigger]
            states_after(states, events)[channel] == states[channel].after_all(
                own_events(events, channel),
            ),
        states_allow(states, events) <==> forall|channel: nat|
            states[channel].allows_all(#[trigger] own_events(events, channel)),
    decreases events.len(),
{
    reveal(ChannelState::allows_all);
    reveal(ChannelState::after_all);
    assert forall|channel: nat| #[trigger] states_after(states, events)[channel]
        == states[channel].after_all(own_events(events, channel)) by {
        lemma_own_state(states, events, channel);
    }
    if events.len() > 0 {
        let earlier = events.drop_last();
        let (channel, event) = events.last();
        law_channels_share_nothing(states, earlier);
        lemma_push(states[channel], own_events(earlier, channel), event);
        if states_allow(states, events) {
            assert forall|other: nat| states[other].allows_all(
                #[trigger] own_events(events, other),
            ) by {
                assert(states[other].allows_all(own_events(earlier, other)));
            }
        }
        if forall|other: nat| states[other].allows_all(#[trigger] own_events(events, other)) {
            assert forall|other: nat| states[other].allows_all(
                #[trigger] own_events(earlier, other),
            ) by {
                assert(states[other].allows_all(own_events(events, other)));
            }
            assert(states[channel].allows_all(own_events(events, channel)));
        }
    }
}

} // verus!
