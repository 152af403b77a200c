//! What a channel is, as the calls of all its handles shape it.
//!
//! The calls on the shared objects take effect one at a time, in some order. [`Event`] is one such
//! call with its answer, [`ChannelState`] is what the events so far have led to, and
//! [`ChannelState::allows`] says which events can come next: it holds the meaning of the queue, of
//! the semaphore and of the wake-up. That these objects behave as [`ChannelState::allows`] and
//! [`ChannelState::after`] say is not proved: it is taken on trust, as the contracts in
//! [`outside`](crate::outside) are. A return of permits counts as one event, though the semaphore
//! hands them to a long row of waiting acquisitions in batches.

use vstd::prelude::*;

verus! {

/// The answer to an acquisition that does not wait.
pub enum Outcome {
    Granted,
    NoPermits,
    Closed,
}

/// One of the two ends of a channel.
pub enum End {
    Sender,
    Receiver,
}

/// One call on the shared objects, with its answer.
pub enum Event<T> {
    /// The queue was made with room for `slots` items, the semaphore with `budget` permits, and the
    /// count of senders with `senders`.
    Open { slots: usize, budget: usize, senders: usize },
    /// A sender asked for `permits` permits without waiting.
    TryAcquire { permits: nat, outcome: Outcome },
    /// An acquisition of `permits` permits that would wait for them found them all at once.
    Reserve { permits: nat },
    /// An acquisition of `permits` permits found too few: it took what there was and began to wait.
    Enqueue { permits: nat },
    /// The acquisition at place `index` of those that wait was given up.
    Withdraw { index: nat },
    /// An acquisition that waits no more was given up with `permits` permits that no sender took.
    Unreserve { permits: nat },
    /// A sender got the `permits` permits that it waited for.
    Acquire { permits: nat },
    /// A sender that waited for permits was told that the semaphore is closed.
    Refused,
    /// A sender handed an item and its permits to the queue, which took them or handed them back.
    Push { permits: nat, item: T, accepted: bool },
    /// Permits went back to the semaphore.
    Release { permits: nat },
    /// The receiver was woken, or will be as soon as it waits.
    Wake,
    /// The receiver took an item and its permits out of the queue, or found it empty.
    Pop { taken: Option<(nat, T)> },
    /// A handle counted the permits at hand. No journal holds this, as counting changes nothing.
    Count { permits: nat },
    /// The receiver looked whether the channel is closed.
    ObserveClosed { closed: bool },
    /// The wait of the receiver ended.
    Resume,
    /// A sender was cloned; there were `before` senders.
    Join { before: usize },
    /// A sender went away; there were `before` senders.
    Leave { before: usize },
    /// The channel was closed from one of its ends.
    Close { end: End },
}

/// An acquisition that waits for permits.
pub struct Waiter {
    /// The permits that it asked for.
    pub needed: nat,
    /// The permits that it has been given so far.
    pub given: nat,
}

/// What the receiver is doing.
pub enum Phase {
    /// It has not looked at the queue since it last got an item or was woken.
    Active,
    /// It found the queue empty.
    Checking,
    /// It found the queue empty, then the channel open, and now waits to be woken.
    Parked,
    /// It has disconnected.
    Gone,
}

/// The state of a channel.
pub struct ChannelState<T> {
    /// The number of events that the channel has room for: the permits that there are.
    pub limit: nat,
    /// The number of items that the queue has room for.
    pub slots: nat,
    /// The permits that can be had at once.
    pub available: nat,
    /// The acquisitions that wait for permits, in the order in which they are served.
    pub waiting: Seq<Waiter>,
    /// The permits set aside for acquisitions that wait no more, until their senders take them: of
    /// those that got all they asked for, and of those whose wait was ended by a closing.
    pub reserved: nat,
    /// The permits held outside the queue: by a sender that is about to push, or by the receiver
    /// that has just popped.
    pub held: nat,
    /// The items in the queue, oldest first, each with its permits.
    pub queue: Seq<(nat, T)>,
    /// The number of senders.
    pub senders: nat,
    /// The number of senders that have got permits and not yet pushed.
    pub busy: nat,
    /// Whether the channel is closed.
    pub closed: bool,
    /// Whether a wake-up is set that the receiver has not taken.
    pub woken: bool,
    /// The number of pushes and closings whose wake-up is still to come.
    pub unannounced: nat,
    /// What the receiver is doing.
    pub phase: Phase,
}

/// The permits of all queue entries together.
pub open spec fn total_permits<T>(queue: Seq<(nat, T)>) -> nat
    decreases queue.len(),
{
    if queue.len() == 0 {
        0
    } else {
        total_permits(queue.drop_last()) + queue.last().0
    }
}

/// The permits that all of `waiting` have been given so far.
pub open spec fn total_given(waiting: Seq<Waiter>) -> nat
    decreases waiting.len(),
{
    if waiting.len() == 0 {
        0
    } else {
        waiting[0].given + total_given(waiting.skip(1))
    }
}

/// What becomes of permits that are handed out to those that wait.
pub struct Handout {
    /// Those that still wait.
    pub waiting: Seq<Waiter>,
    /// The permits of those that got all they asked for, with what they had been given before.
    pub served: nat,
    /// The permits that nobody was left to take.
    pub left: nat,
}

/// What becomes of `permits` permits that are handed out to `waiting`, one after the other: the next
/// one gets something only when all before it have got what they asked for.
pub open spec fn hand_out(waiting: Seq<Waiter>, permits: nat) -> Handout
    decreases waiting.len(),
{
    if waiting.len() == 0 {
        Handout { waiting, served: 0, left: permits }
    } else {
        let first = waiting[0];
        let missing = (first.needed - first.given) as nat;
        if permits < missing {
            let helped = Waiter { given: first.given + permits, ..first };
            Handout { waiting: waiting.update(0, helped), served: 0, left: 0 }
        } else {
            let rest = hand_out(waiting.skip(1), (permits - missing) as nat);
            Handout { served: rest.served + first.needed, ..rest }
        }
    }
}

/// The items of all queue entries.
pub open spec fn items<T>(queue: Seq<(nat, T)>) -> Seq<T> {
    queue.map_values(|entry: (nat, T)| entry.1)
}

/// The items that went into the queue by `events`, in order.
pub open spec fn pushed_items<T>(events: Seq<Event<T>>) -> Seq<T>
    decreases events.len(),
{
    if events.len() == 0 {
        Seq::empty()
    } else {
        let earlier = pushed_items(events.drop_last());
        match events.last() {
            Event::Push { permits: _, item, accepted: true } => earlier.push(item),
            _ => earlier,
        }
    }
}

/// The items that came out of the queue by `events`, in order.
pub open spec fn popped_items<T>(events: Seq<Event<T>>) -> Seq<T>
    decreases events.len(),
{
    if events.len() == 0 {
        Seq::empty()
    } else {
        let earlier = popped_items(events.drop_last());
        match events.last() {
            Event::Pop { taken: Some((_, item)) } => earlier.push(item),
            _ => earlier,
        }
    }
}

/// Whether every item that `events` hand to the queue has at least one permit.
pub open spec fn all_counted<T>(events: Seq<Event<T>>) -> bool {
    forall|i: int| 0 <= i < events.len() ==> is_counted(#[trigger] events[i])
}

/// Whether `event` hands no item without a permit to the queue.
pub open spec fn is_counted<T>(event: Event<T>) -> bool {
    event matches Event::Push { permits, .. } ==> permits >= 1
}

impl<T> ChannelState<T> {
    /// A channel that holds nothing yet, made with room for `slots` items and with `budget` permits.
    pub open spec fn opened(slots: nat, budget: nat, senders: nat) -> Self {
        ChannelState {
            limit: budget,
            slots,
            available: budget,
            waiting: Seq::empty(),
            reserved: 0,
            held: 0,
            queue: Seq::empty(),
            senders,
            busy: 0,
            closed: false,
            woken: false,
            unannounced: 0,
            phase: Phase::Active,
        }
    }

    /// A new channel with room for `limit` events: empty, open, with one sender.
    pub open spec fn initial(limit: nat) -> Self {
        Self::opened(limit, limit, 1)
    }

    /// Whether `event` makes a channel that is then in this state.
    pub open spec fn opens_with(self, event: Event<T>) -> bool {
        event matches Event::Open { slots, budget, senders } && self == Self::opened(
            slots as nat,
            budget as nat,
            senders as nat,
        )
    }

    /// Whether a sender exists that is not in the middle of a send.
    pub open spec fn has_idle_sender(self) -> bool {
        self.busy < self.senders
    }

    /// Whether no send is under way: nobody waits for permits, has some set aside or holds any.
    pub open spec fn is_quiet(self) -> bool {
        &&& self.waiting.len() == 0
        &&& self.reserved == 0
        &&& self.held == 0
    }

    /// Whether nothing is queued and no send is under way.
    pub open spec fn is_idle(self) -> bool {
        &&& self.queue.len() == 0
        &&& self.is_quiet()
    }

    /// This channel with `permits` more permits, which the semaphore has got back. They go straight to
    /// the acquisitions that wait, and only what these leave is at hand.
    pub open spec fn returned(self, permits: nat) -> Self {
        let handout = hand_out(self.waiting, permits);
        ChannelState {
            available: self.available + handout.left,
            waiting: handout.waiting,
            reserved: self.reserved + handout.served,
            ..self
        }
    }

    /// This channel, closed: every wait for permits is over.
    pub open spec fn shut(self) -> Self {
        ChannelState {
            closed: true,
            waiting: Seq::empty(),
            reserved: self.reserved + total_given(self.waiting),
            ..self
        }
    }

    /// What the front of the queue holds.
    pub open spec fn front(self) -> Option<(nat, T)> {
        if self.queue.len() == 0 {
            None
        } else {
            Some(self.queue[0])
        }
    }

    /// The answer to an acquisition of `permits` permits that does not wait.
    pub open spec fn try_acquire_outcome(self, permits: nat) -> Outcome {
        if self.closed {
            Outcome::Closed
        } else if permits <= self.available {
            Outcome::Granted
        } else {
            Outcome::NoPermits
        }
    }

    /// Whether `event` can be the next one.
    pub open spec fn allows(self, event: Event<T>) -> bool {
        match event {
            Event::Open { .. } => false,
            Event::TryAcquire { permits, outcome } => {
                &&& self.has_idle_sender()
                &&& outcome == self.try_acquire_outcome(permits)
            },
            Event::Reserve { permits } => !self.closed && permits <= self.available,
            // No item needs more permits than there are.
            Event::Enqueue { permits } => !self.closed && self.available < permits <= self.limit,
            Event::Withdraw { index } => index < self.waiting.len(),
            Event::Unreserve { permits } => permits <= self.reserved,
            Event::Acquire { permits } => {
                &&& self.has_idle_sender()
                &&& !self.closed
                &&& permits <= self.reserved
            },
            Event::Refused => self.has_idle_sender() && self.closed,
            Event::Push { permits, item: _, accepted } => {
                &&& self.busy > 0
                &&& permits <= self.held
                &&& accepted == (self.queue.len() < self.slots)
            },
            Event::Release { permits } => permits <= self.held,
            Event::Wake => self.unannounced > 0,
            Event::Pop { taken } => !(self.phase is Gone) && taken == self.front(),
            Event::Count { permits } => permits == self.available,
            Event::ObserveClosed { closed } => self.phase is Checking && closed == self.closed,
            Event::Resume => self.phase is Parked && self.woken,
            Event::Join { before } => self.senders > 0 && before == self.senders,
            Event::Leave { before } => self.has_idle_sender() && before == self.senders,
            Event::Close { end: End::Sender } => self.senders == 0,
            Event::Close { end: End::Receiver } => !(self.phase is Gone),
        }
    }

    /// The state that `event` leads to.
    pub open spec fn after(self, event: Event<T>) -> Self {
        match event {
            Event::TryAcquire { permits, outcome: Outcome::Granted } => ChannelState {
                available: (self.available - permits) as nat,
                held: self.held + permits,
                busy: self.busy + 1,
                ..self
            },
            Event::Reserve { permits } => ChannelState {
                available: (self.available - permits) as nat,
                reserved: self.reserved + permits,
                ..self
            },
            Event::Enqueue { permits } => ChannelState {
                available: 0,
                waiting: self.waiting.push(Waiter { needed: permits, given: self.available }),
                ..self
            },
            Event::Withdraw { index } => (ChannelState {
                waiting: self.waiting.remove(index as int),
                ..self
            }).returned(self.waiting[index as int].given),
            Event::Unreserve { permits } => (ChannelState {
                reserved: (self.reserved - permits) as nat,
                ..self
            }).returned(permits),
            Event::Acquire { permits } => ChannelState {
                reserved: (self.reserved - permits) as nat,
                held: self.held + permits,
                busy: self.busy + 1,
                ..self
            },
            Event::Push { permits, item, accepted: true } => ChannelState {
                held: (self.held - permits) as nat,
                queue: self.queue.push((permits, item)),
                busy: (self.busy - 1) as nat,
                unannounced: self.unannounced + 1,
                ..self
            },
            Event::Push { permits: _, item: _, accepted: false } => ChannelState {
                busy: (self.busy - 1) as nat,
                ..self
            },
            Event::Release { permits } => (ChannelState {
                held: (self.held - permits) as nat,
                ..self
            }).returned(permits),
            Event::Wake => ChannelState {
                woken: true,
                unannounced: (self.unannounced - 1) as nat,
                ..self
            },
            Event::Pop { taken: Some((permits, _)) } => ChannelState {
                held: self.held + permits,
                queue: self.queue.skip(1),
                phase: Phase::Active,
                ..self
            },
            Event::Pop { taken: None } => ChannelState { phase: Phase::Checking, ..self },
            Event::ObserveClosed { closed } => ChannelState {
                phase: if closed { Phase::Active } else { Phase::Parked },
                ..self
            },
            Event::Resume => ChannelState { woken: false, phase: Phase::Active, ..self },
            Event::Join { .. } => ChannelState { senders: self.senders + 1, ..self },
            Event::Leave { .. } => ChannelState { senders: (self.senders - 1) as nat, ..self },
            Event::Close { end: End::Sender } => ChannelState {
                unannounced: self.unannounced + 1,
                ..self.shut()
            },
            Event::Close { end: End::Receiver } => ChannelState {
                phase: Phase::Gone,
                ..self.shut()
            },
            _ => self,
        }
    }

    /// Whether `events` can come next, one after the other.
    #[verifier::opaque]
    pub open spec fn allows_all(self, events: Seq<Event<T>>) -> bool
        decreases events.len(),
    {
        events.len() == 0 || {
            &&& self.allows_all(events.drop_last())
            &&& self.after_all(events.drop_last()).allows(events.last())
        }
    }

    /// The state that `events` lead to, one after the other.
    #[verifier::opaque]
    pub open spec fn after_all(self, events: Seq<Event<T>>) -> Self
        decreases events.len(),
    {
        if events.len() == 0 {
            self
        } else {
            self.after_all(events.drop_last()).after(events.last())
        }
    }

    /// While acquisitions wait, the channel is open and has no permit at hand, and all permits that
    /// came went to the first of them.
    pub open spec fn serves_in_order(self) -> bool {
        &&& self.waiting.len() > 0 ==> self.available == 0 && !self.closed
        &&& forall|i: int|
            0 <= i < self.waiting.len() ==> (#[trigger] self.waiting[i]).given
                < self.waiting[i].needed <= self.limit && (i > 0 ==> self.waiting[i].given == 0)
    }

    /// What holds of a channel at every moment.
    pub open spec fn inv(self) -> bool {
        &&& self.available + total_given(self.waiting) + self.reserved + self.held + total_permits(
            self.queue,
        ) == self.limit
        &&& self.serves_in_order()
        &&& self.queue.len() <= self.slots
        &&& self.slots == self.limit
        &&& self.busy <= self.senders
        // A receiver that has seen the queue empty is told of what came since.
        &&& (self.phase is Checking || self.phase is Parked) && self.queue.len() > 0 ==> self.woken
            || self.unannounced > 0
        &&& self.phase is Parked && self.closed ==> self.woken || self.unannounced > 0
    }

    /// Whether every queued item has at least one permit.
    pub open spec fn all_counted(self) -> bool {
        forall|i: int| 0 <= i < self.queue.len() ==> (#[trigger] self.queue[i]).0 >= 1
    }
}

} // verus!
