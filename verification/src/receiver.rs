use crate::exchange::ReceivePort;
use crate::handle::{answers_closed, answers_pop, closes, made, Ended, Inner};
use crate::model::{End, Event};
use crate::outside::{answers_available, permits_held, releases};
use std::sync::atomic::AtomicUsize;
use std::sync::Arc;
use tokio::sync::{Notify, OwnedSemaphorePermit};
use vstd::prelude::*;

verus! {

/// What the receiver is to do after it looked for an item.
#[derive(Debug, PartialEq)]
pub enum NextStep<T> {
    /// Hand out this item.
    Item(T),
    /// Stop: the channel is closed and was empty.
    Closed,
    /// Wait to be woken, then look again.
    Wait,
}

impl<T> NextStep<T> {
    /// Decides what to do next by what came out of the queue and, when that was nothing, by whether
    /// the channel is closed.
    pub fn after_look(popped: Option<T>, closed: bool) -> (step: Self)
        ensures
            step == (match popped {
                Some(item) => NextStep::Item(item),
                None => if closed {
                    NextStep::Closed
                } else {
                    NextStep::Wait
                },
            }),
    {
        match popped {
            Some(item) => NextStep::Item(item),
            // There wasn't an item for us to pop, so see if the channel is actually closed.  If so,
            // then it's time for us to close up shop as well.
            None => if closed {
                NextStep::Closed
            } else {
                // We're not closed, so we need to wait for a writer to tell us they made some
                // progress.
                NextStep::Wait
            },
        }
    }
}

/// Whether the receiver took `item` and `permit` out of the queue and gave the permits back.
pub open spec fn takes_out<T>(inner: Inner<T>, permit: OwnedSemaphorePermit, item: T) -> bool {
    answers_pop(inner, Some((permit, item))) && releases(permit)
}

/// Whether the queue and the semaphore gave the answers that lead to `step`.
pub open spec fn looked<T>(inner: Inner<T>, step: NextStep<T>) -> bool {
    match step {
        NextStep::Item(item) => exists|permit: OwnedSemaphorePermit| takes_out(inner, permit, item),
        NextStep::Closed => answers_pop(inner, None) && answers_closed(inner, true),
        NextStep::Wait => answers_pop(inner, None) && answers_closed(inner, false),
    }
}

/// The journal after the receiver took out an item with `permits` permits, which it then gave back.
pub open spec fn retrieval<T>(before: Seq<Event<T>>, permits: nat, item: T) -> Seq<Event<T>> {
    before.push(Event::Pop { taken: Some((permits, item)) }).push(Event::Release { permits })
}

/// The journal after the receiver found the queue empty and looked whether the channel is closed.
pub open spec fn idle_look<T>(before: Seq<Event<T>>, closed: bool) -> Seq<Event<T>> {
    before.push(Event::Pop { taken: None }).push(Event::ObserveClosed { closed })
}

/// What a look for the next item does to the journal, given what it returned.
pub open spec fn looks<T>(before: Seq<Event<T>>, after: Seq<Event<T>>, step: NextStep<T>) -> bool {
    match step {
        NextStep::Item(item) => exists|permits: nat|
            after == #[trigger] retrieval(before, permits, item),
        NextStep::Closed => after == idle_look(before, true),
        NextStep::Wait => after == idle_look(before, false),
    }
}

/// The receiving end of a channel.
///
/// A receiver that is merely dropped leaves the channel open: it is [`disconnect`](Self::disconnect)
/// that closes it. Whoever owns a receiver calls it where the receiver is to go away.
#[verifier::reject_recursive_types(T)]
pub struct LimitedReceiver<T> {
    handle: ReceivePort<T>,
}

impl<T> LimitedReceiver<T> {
    /// What the receiver shares with the senders of the channel.
    pub closed spec fn inner(self) -> Inner<T> {
        self.handle.inner()
    }

    /// The count of the senders of the channel.
    pub closed spec fn sender_count(self) -> Arc<AtomicUsize> {
        self.handle.sender_count()
    }

    /// The calls that were made through this receiver, with their answers.
    pub closed spec fn journal(self) -> Seq<Event<T>> {
        self.handle.journal()
    }

    /// How many calls that change what is shared were begun through this receiver and are not in its
    /// journal.
    pub closed spec fn unnoted(self) -> int {
        self.handle.unnoted()
    }

    /// Makes the receiver of a new channel.
    pub(crate) fn new(handle: ReceivePort<T>) -> (receiver: Self)
        ensures
            receiver.inner() == handle.inner(),
            receiver.unnoted() == handle.unnoted(),
            receiver.sender_count() == handle.sender_count(),
            receiver.journal() == handle.journal(),
    {
        LimitedReceiver { handle }
    }

    /// Gets what the receiver shares with the senders of the channel.
    pub fn shared(&self) -> (shared: &Inner<T>)
        ensures
            *shared == self.inner(),
    {
        self.handle.handle().shared()
    }

    /// Ends the use of this receiver and closes the channel. Sends that wait for permits end, and new
    /// ones see at once that the channel is closed. Returns what the receiver leaves behind. Dropping a receiver does not close the channel by itself.
    pub fn disconnect(self) -> (ended: Ended<T>)
        ensures
            ended.inner() == self.inner(),
            ended.sender_count() == self.sender_count(),
            ended.unnoted() == self.unnoted(),
            closes(self.inner()),
            ended.journal() == self.journal().push(Event::Close { end: End::Receiver }),
    {
        self.handle.disconnect()
    }
}

impl<T: Send + 'static> LimitedReceiver<T> {
    /// Gets the number of events that this channel could accept at this moment: the permits that its
    /// semaphore has at hand.
    pub fn available_capacity(&self) -> (capacity: usize)
        ensures
            answers_available(self.inner().limiter(), capacity),
            made(self.inner(), self.sender_count(), Event::Count { permits: capacity as nat }),
            capacity <= usize::MAX / 2,
    {
        self.handle.available_permits()
    }

    /// Gets the wake-up on which the receiver waits.
    pub fn read_waker(&self) -> (read_waker: Arc<Notify>)
        ensures
            read_waker == self.inner().read_waker(),
    {
        self.handle.handle().read_waker()
    }

    /// Looks for the next item.
    ///
    /// On [`NextStep::Wait`] the wait on [`read_waker`](Self::read_waker) comes next, then another
    /// look. The wait can end without an item in the queue, since a wake-up is stored until the next
    /// wait.
    pub fn next(&mut self) -> (step: NextStep<T>)
        ensures
            final(self).inner() == old(self).inner(),
            final(self).sender_count() == old(self).sender_count(),
            final(self).unnoted() == old(self).unnoted(),
            looked(old(self).inner(), step),
            looks(old(self).journal(), final(self).journal(), step),
    {
        match self.handle.pop() {
            Some((permit, item)) => {
                let ghost held = permit;
                self.handle.release(permit);
                assert(self.journal() == retrieval(old(self).journal(), permits_held(held), item));
                assert(takes_out(old(self).inner(), held, item));
                let step = NextStep::after_look(Some(item), false);
                assert(step->Item_0 == item);
                step
            },
            None => {
                let closed = self.handle.is_closed();
                NextStep::after_look(None, closed)
            },
        }
    }
}

} // verus!
