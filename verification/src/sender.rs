use crate::bufferable::{counts_as, Bufferable};
use crate::error::{SendError, TrySendError};
use crate::exchange::SendPort;
use crate::handle::{acquire_event, answers_push, closes, made, wakes, Ended, Handle, Inner};
use crate::model::{End, Event, Outcome};
use crate::outside::{
    answers_acquire, answers_available, answers_decrement, answers_increment, answers_load,
    initial_permits, permits_held, releases, TryAcquired, MAX_PERMITS,
};
use std::sync::atomic::AtomicUsize;
use std::sync::Arc;
use tokio::sync::{AcquireError, OwnedSemaphorePermit, Semaphore};
use vstd::prelude::*;

verus! {

/// The number of permits that an item of `event_count` events needs in a channel with room for
/// `limit` events: one per event, but no more than there are. Permits are asked for as a 32-bit
/// number, of which an item and a limit of 2^32 or more leave the lower bits only.
pub open spec fn required_permits(limit: usize, event_count: usize) -> nat {
    (if limit < event_count {
        limit
    } else {
        event_count
    }) as nat % 0x1_0000_0000
}

/// Whether a sender handed `item` and `permit` to the queue, which took them or not, and then woke the
/// receiver or gave the permits back.
pub open spec fn delivers<T>(
    inner: Inner<T>,
    permit: OwnedSemaphorePermit,
    item: T,
    accepted: bool,
) -> bool {
    if accepted {
        answers_push(inner, permit, item, Ok(())) && wakes(inner)
    } else {
        answers_push(inner, permit, item, Err((permit, item))) && releases(permit)
    }
}

/// The journal after a sender that holds `permits` permits for an item handed both to the queue, then
/// woke the receiver or, as the queue was full, gave the permits back.
pub open spec fn delivery<T>(
    before: Seq<Event<T>>,
    permits: nat,
    item: T,
    accepted: bool,
) -> Seq<Event<T>> {
    let pushed = before.push(Event::Push { permits, item, accepted });
    if accepted {
        pushed.push(Event::Wake)
    } else {
        pushed.push(Event::Release { permits })
    }
}

/// What an attempt to send `item` does to the journal, and what it returns, once the semaphore has
/// answered `acquired`.
pub open spec fn finishes_try_send<T>(
    before: Seq<Event<T>>,
    after: Seq<Event<T>>,
    item: T,
    acquired: TryAcquired,
    step: TrySendStep<T>,
) -> bool {
    match acquired {
        TryAcquired::Granted(permit) => {
            &&& after == delivery(before, permits_held(permit), item, step is Sent)
            &&& step is Sent || step == TrySendStep::Overflow(item)
        },
        TryAcquired::NoPermits => {
            &&& after == before
            &&& step == TrySendStep::Refused(TrySendError::InsufficientCapacity(item))
        },
        TryAcquired::Closed => {
            &&& after == before
            &&& step == TrySendStep::Refused(TrySendError::Disconnected(item))
        },
    }
}

/// The journal after a sender asked for `permits` permits without waiting.
pub open spec fn inquiry<T>(before: Seq<Event<T>>, permits: nat, outcome: Outcome) -> Seq<Event<T>> {
    before.push(Event::TryAcquire { permits, outcome })
}

/// Whether a sender asked the semaphore for `permits` permits, got the answer `acquired`, and acted
/// on it.
pub open spec fn asks_and_acts<T>(
    inner: Inner<T>,
    before: Seq<Event<T>>,
    after: Seq<Event<T>>,
    permits: u32,
    item: T,
    acquired: TryAcquired,
    step: TrySendStep<T>,
) -> bool {
    &&& answers_acquire(inner.limiter(), permits, acquired)
    &&& acquired matches TryAcquired::Granted(permit) ==> permits_held(permit) == permits && delivers(
        inner,
        permit,
        item,
        step is Sent,
    )
    &&& finishes_try_send(
        inquiry(before, permits as nat, acquired.outcome()),
        after,
        item,
        acquired,
        step,
    )
}

/// What an attempt to send `item` with `permits` permits does to the journal, given what it returned.
pub open spec fn try_sends<T>(
    before: Seq<Event<T>>,
    after: Seq<Event<T>>,
    permits: nat,
    item: T,
    step: TrySendStep<T>,
) -> bool {
    match step {
        TrySendStep::Sent => after == delivery(
            inquiry(before, permits, Outcome::Granted),
            permits,
            item,
            true,
        ),
        TrySendStep::Refused(error) => {
            &&& error.item() == item
            &&& after == inquiry(
                before,
                permits,
                if error is Disconnected {
                    Outcome::Closed
                } else {
                    Outcome::NoPermits
                },
            )
        },
        TrySendStep::Overflow(back) => {
            &&& back == item
            &&& after == delivery(inquiry(before, permits, Outcome::Granted), permits, item, false)
        },
    }
}

/// What a waiting send does to the journal, and what it returns, once its wait for permits has ended
/// with `acquired`.
pub open spec fn finishes_send<T>(
    before: Seq<Event<T>>,
    after: Seq<Event<T>>,
    item: T,
    acquired: Result<OwnedSemaphorePermit, AcquireError>,
    step: SendStep<T>,
) -> bool {
    let told = before.push(acquire_event(acquired));
    match acquired {
        Ok(permit) => {
            &&& after == delivery(told, permits_held(permit), item, step is Sent)
            &&& step is Sent || step == SendStep::Overflow(item)
        },
        Err(_) => {
            &&& after == told
            &&& step == SendStep::Disconnected(SendError(item))
        },
    }
}

/// Whether a wait for permits that ended with `acquired` was for the permits of `pending`.
pub open spec fn was_for<T>(
    acquired: Result<OwnedSemaphorePermit, AcquireError>,
    pending: PendingSend<T>,
) -> bool {
    acquired matches Ok(permit) ==> permits_held(permit) == pending.permits
}

/// The journal of a new sender; there were `senders` before.
pub open spec fn arrival<T>(senders: usize) -> Seq<Event<T>> {
    seq![Event::Join { before: senders }]
}

/// Whether one of `senders` senders went away, and closed the channel and woke the receiver if it was
/// the last one.
pub open spec fn departs<T>(inner: Inner<T>, sender_count: Arc<AtomicUsize>, senders: usize) -> bool {
    &&& answers_decrement(sender_count, senders)
    &&& senders == 1 ==> closes(inner) && wakes(inner)
}

/// The journal after one of `senders` senders went away: the last one closes the channel and wakes
/// the receiver.
pub open spec fn departure<T>(before: Seq<Event<T>>, senders: usize) -> Seq<Event<T>> {
    let left = before.push(Event::Leave { before: senders });
    if senders == 1 {
        left.push(Event::Close { end: End::Sender }).push(Event::Wake)
    } else {
        left
    }
}

/// An item on its way into the channel, with the number of permits that it waits for.
pub struct PendingSend<T> {
    pub item: T,
    pub permits: u32,
}

/// How an attempt to send ended.
#[derive(Debug, PartialEq)]
pub enum TrySendStep<T> {
    /// The item is in the queue.
    Sent,
    /// The channel is closed or lacks the permits for the item.
    Refused(TrySendError<T>),
    /// The permits were there but the queue was full, which no channel comes to whose items all
    /// need a permit.
    Overflow(T),
}

/// How a send that waited for its permits ended.
#[derive(Debug, PartialEq)]
pub enum SendStep<T> {
    /// The item is in the queue.
    Sent,
    /// The channel was closed during the wait.
    Disconnected(SendError<T>),
    /// The permits were there but the queue was full, which no channel comes to whose items all
    /// need a permit.
    Overflow(T),
}

/// The sending end of a channel.
///
/// A sender that is merely dropped goes on counting as one: it is [`disconnect`](Self::disconnect)
/// that ends it, and that closes the channel after the last one. Whoever owns a sender calls it where
/// the sender is to go away.
#[verifier::reject_recursive_types(T)]
pub struct LimitedSender<T> {
    handle: SendPort<T>,
}

impl<T> LimitedSender<T> {
    /// What the sender shares with the other handles of the channel.
    pub closed spec fn inner(self) -> Inner<T> {
        self.handle.inner()
    }

    /// The calls that were made through this sender, with their answers.
    pub closed spec fn journal(self) -> Seq<Event<T>> {
        self.handle.journal()
    }

    /// The count that all senders of the channel share.
    pub closed spec fn sender_count(self) -> Arc<AtomicUsize> {
        self.handle.sender_count()
    }

    /// How many calls that change what is shared were begun through this sender and are not in its
    /// journal.
    pub closed spec fn unnoted(self) -> int {
        self.handle.unnoted()
    }

    /// Makes a sender of its port.
    pub(crate) fn new(handle: SendPort<T>) -> (sender: Self)
        ensures
            sender.inner() == handle.inner(),
            sender.unnoted() == handle.unnoted(),
            sender.journal() == handle.journal(),
            sender.sender_count() == handle.sender_count(),
    {
        LimitedSender { handle }
    }

    /// The port of this sender, to be read only.
    pub(crate) fn port(&self) -> (port: &SendPort<T>)
        ensures
            port.inner() == self.inner(),
            port.sender_count() == self.sender_count(),
            port.unnoted() == self.unnoted(),
            port.journal() == self.journal(),
    {
        &self.handle
    }

    /// Gets the number of events that this channel could accept at this moment: the permits that its
    /// semaphore has at hand.
    pub fn available_capacity(&self) -> (capacity: usize)
        ensures
            answers_available(self.inner().limiter(), capacity),
            made(self.inner(), self.sender_count(), Event::Count { permits: capacity as nat }),
            capacity <= usize::MAX / 2,
    {
        self.handle.available_permits()
    }

    /// Gets the semaphore on which a send waits for its permits.
    ///
    /// It is the one that the whole channel counts on: permits that are added to it let in more than
    /// the limit, and giving back the permits of an item panics once it holds all that it can.
    pub fn limiter(&self) -> (limiter: Arc<Semaphore>)
        ensures
            limiter == self.inner().limiter(),
            initial_permits(*limiter) == self.inner().limit(),
    {
        self.handle.handle().limiter()
    }

    /// Gets what the sender shares with the other handles of the channel.
    pub fn shared(&self) -> (shared: &Inner<T>)
        ensures
            *shared == self.inner(),
    {
        self.handle.handle().shared()
    }

    /// Gets the number of senders that the channel has at this moment.
    pub fn senders(&self) -> (senders: usize)
        ensures
            answers_load(self.sender_count(), senders),
    {
        self.handle.handle().senders()
    }

    /// Hands an item to the queue along with the permits held for it.
    fn deliver(&mut self, permit: OwnedSemaphorePermit, item: T) -> (delivered: Result<(), T>)
        ensures
            final(self).inner() == old(self).inner(),
            final(self).sender_count() == old(self).sender_count(),
            final(self).unnoted() == old(self).unnoted(),
            delivers(old(self).inner(), permit, item, delivered is Ok),
            delivered matches Err(back) ==> back == item,
            final(self).journal() == delivery(
                old(self).journal(),
                permits_held(permit),
                item,
                delivered is Ok,
            ),
    {
        self.handle.deliver(permit, item)
    }

    /// Ends the delivery of an item by the answer that the queue gave: wakes the receiver when the
    /// queue took the item, gives the permits back when it did not.
    pub fn finish_push(&mut self, pushed: Result<(), (OwnedSemaphorePermit, T)>) -> (delivered: Result<
        (),
        T,
    >)
        ensures
            final(self).inner() == old(self).inner(),
            final(self).sender_count() == old(self).sender_count(),
            final(self).unnoted() == old(self).unnoted(),
            match pushed {
                Ok(()) => {
                    &&& delivered == Ok::<(), T>(())
                    &&& wakes(old(self).inner())
                    &&& final(self).journal() == old(self).journal().push(Event::Wake)
                },
                Err((permit, item)) => {
                    &&& delivered == Err::<(), T>(item)
                    &&& releases(permit)
                    &&& final(self).journal() == old(self).journal().push(
                        Event::Release { permits: permits_held(permit) },
                    )
                },
            },
    {
        self.handle.finish_push(pushed)
    }

    /// Ends an attempt to send an item by the answer that the semaphore gave.
    pub fn finish_try_send(&mut self, item: T, acquired: TryAcquired) -> (step: TrySendStep<T>)
        ensures
            final(self).inner() == old(self).inner(),
            final(self).sender_count() == old(self).sender_count(),
            final(self).unnoted() == old(self).unnoted(),
            acquired matches TryAcquired::Granted(permit) ==> delivers(
                old(self).inner(),
                permit,
                item,
                step is Sent,
            ),
            finishes_try_send(old(self).journal(), final(self).journal(), item, acquired, step),
    {
        self.handle.finish_try_send(item, acquired)
    }

    /// Ends a send by the outcome of its wait for permits.
    ///
    /// A send starts with [`start_send`](Self::start_send). The wait for the permits that it asks
    /// for, on the semaphore that [`limiter`](Self::limiter) returns, lies between the two.
    pub fn send(
        &mut self,
        pending: PendingSend<T>,
        acquired: Result<OwnedSemaphorePermit, AcquireError>,
    ) -> (step: SendStep<T>)
        requires
            was_for(acquired, pending),
        ensures
            final(self).inner() == old(self).inner(),
            final(self).sender_count() == old(self).sender_count(),
            final(self).unnoted() == old(self).unnoted(),
            acquired matches Ok(permit) ==> delivers(
                old(self).inner(),
                permit,
                pending.item,
                step is Sent,
            ),
            finishes_send(
                old(self).journal(),
                final(self).journal(),
                pending.item,
                acquired,
                step,
            ),
    {
        self.handle.acquired(&acquired);
        match acquired {
            Ok(permit) => match self.deliver(permit, pending.item) {
                Ok(()) => SendStep::Sent,
                Err(item) => SendStep::Overflow(item),
            },
            Err(_) => SendStep::Disconnected(SendError(pending.item)),
        }
    }

    /// Ends a send as [`send`](Self::send) does, but hands everything back when the permits are not
    /// as many as the send waits for.
    pub fn send_checked(
        &mut self,
        pending: PendingSend<T>,
        acquired: Result<OwnedSemaphorePermit, AcquireError>,
    ) -> (checked: Result<SendStep<T>, (PendingSend<T>, OwnedSemaphorePermit)>)
        ensures
            final(self).inner() == old(self).inner(),
            final(self).sender_count() == old(self).sender_count(),
            final(self).unnoted() == old(self).unnoted(),
            checked is Ok <==> was_for(acquired, pending),
            match checked {
                Ok(step) => {
                    &&& acquired matches Ok(permit) ==> delivers(
                        old(self).inner(),
                        permit,
                        pending.item,
                        step is Sent,
                    )
                    &&& finishes_send(
                        old(self).journal(),
                        final(self).journal(),
                        pending.item,
                        acquired,
                        step,
                    )
                },
                Err((back, permit)) => {
                    &&& back == pending
                    &&& acquired == Ok::<_, AcquireError>(permit)
                    &&& final(self).journal() == old(self).journal()
                },
            },
    {
        match acquired {
            Ok(permit) => {
                if permit.num_permits() == pending.permits as usize {
                    Ok(self.send(pending, Ok(permit)))
                } else {
                    Err((pending, permit))
                }
            },
            Err(error) => Ok(self.send(pending, Err(error))),
        }
    }

    /// Ends the use of this sender. The last sender of the channel closes it on the way out. Dropping
    /// a sender does not do this by itself. Returns what the sender leaves behind.
    pub fn disconnect(self) -> (ended: Ended<T>)
        ensures
            ended.inner() == self.inner(),
            ended.sender_count() == self.sender_count(),
            ended.unnoted() == self.unnoted(),
            exists|senders: usize| #[trigger]
                departs(self.inner(), self.sender_count(), senders) && ended.journal() == departure(
                    self.journal(),
                    senders,
                ),
    {
        self.handle.disconnect()
    }
}

impl<T: Bufferable> LimitedSender<T> {
    /// Gets the number of permits that the item needs.
    ///
    /// The number is limited to what the channel has overall: an item that is larger is let in when
    /// the channel is empty, since it could otherwise never be sent.
    pub fn get_required_permits_for_item(&self, item: &T) -> (permits: u32)
        ensures
            exists|count: usize| #[trigger]
                counts_as(*item, count) && permits == required_permits(self.inner().limit(), count),
            permits <= MAX_PERMITS,
    {
        let limit: usize = self.handle.handle().limit();
        let count: usize = item.event_count();
        assert(counts_as(*item, count));
        let least: u64 = if limit < count {
            limit as u64
        } else {
            count as u64
        };
        assert(least as u32 == least % 0x1_0000_0000) by (bit_vector);
        #[verifier::truncate]
        (least as u32)
    }

    /// Starts a send: says how many permits to wait for.
    pub fn start_send(&self, item: T) -> (pending: PendingSend<T>)
        ensures
            pending.item == item,
            exists|count: usize| #[trigger]
                counts_as(item, count) && pending.permits == required_permits(
                    self.inner().limit(),
                    count,
                ),
    {
        let permits = self.get_required_permits_for_item(&item);
        PendingSend { item, permits }
    }

    /// Attempts to send an item into the channel.
    ///
    /// The item is handed back when the channel is closed or when it lacks the permits that the item
    /// needs.
    pub fn try_send(&mut self, item: T) -> (step: TrySendStep<T>)
        ensures
            final(self).inner() == old(self).inner(),
            final(self).sender_count() == old(self).sender_count(),
            final(self).unnoted() == old(self).unnoted(),
            exists|permits: u32, acquired: TryAcquired| #[trigger]
                asks_and_acts(
                    old(self).inner(),
                    old(self).journal(),
                    final(self).journal(),
                    permits,
                    item,
                    acquired,
                    step,
                ),
            exists|count: usize| #[trigger]
                counts_as(item, count) && try_sends(
                    old(self).journal(),
                    final(self).journal(),
                    required_permits(old(self).inner().limit(), count),
                    item,
                    step,
                ),
    {
        // Calculate how many permits we need, and try to acquire them all without waiting.
        let permits_required = self.get_required_permits_for_item(&item);
        let step = self.handle.try_send(permits_required, item);
        let ghost acquired = choose|acquired: TryAcquired| #[trigger]
            asks_and_acts(
                old(self).inner(),
                old(self).journal(),
                self.journal(),
                permits_required,
                item,
                acquired,
                step,
            );
        assert(asks_and_acts(
            old(self).inner(),
            old(self).journal(),
            self.journal(),
            permits_required,
            item,
            acquired,
            step,
        ));
        step
    }
}

impl<T> Clone for LimitedSender<T> {
    fn clone(&self) -> (sender: Self)
        ensures
            sender.inner() == self.inner(),
            sender.sender_count() == self.sender_count(),
            sender.unnoted() == 0,
            exists|senders: usize| #[trigger]
                answers_increment(self.sender_count(), senders) && sender.journal() == arrival::<T>(
                    senders,
                ),
    {
        LimitedSender { handle: Handle::fork(self) }
    }
}

} // verus!
