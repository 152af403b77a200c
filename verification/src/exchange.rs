//! The two ends of a channel, as far as they make calls on what is shared.
//!
//! A port holds the one handle of its end and does not give it away: outside this module an end can do
//! no more than what is listed here. So a sender takes nothing out of the queue, holds no permits but
//! those of the item that it sends, and closes nothing but by going away.

pub mod noting;

use crate::error::TrySendError;
use crate::handle::{
    acquire_event, answers_closed, answers_pop, closes, made, pop_event, wakes, Ended,
    Handle, Inner,
};
use crate::model::{End, Event};
use crate::outside::{answers_available, permits_held, releases, TryAcquired, MAX_PERMITS};
use crate::sender::{
    asks_and_acts, delivers, delivery, departs, departure, finishes_try_send, TrySendStep,
};
use std::sync::atomic::AtomicUsize;
use std::sync::Arc;
use tokio::sync::{AcquireError, OwnedSemaphorePermit};
use vstd::prelude::*;

verus! {

/// What a sender can do to the channel.
#[verifier::reject_recursive_types(T)]
pub struct SendPort<T> {
    handle: Handle<T>,
}

impl<T> SendPort<T> {
    /// What the port shares with the other handles of the channel.
    pub closed spec fn inner(self) -> Inner<T> {
        self.handle.inner()
    }

    /// The count of the senders of the channel.
    pub closed spec fn sender_count(self) -> Arc<AtomicUsize> {
        self.handle.sender_count()
    }

    /// The calls that were made through this port, with their answers.
    pub closed spec fn journal(self) -> Seq<Event<T>> {
        self.handle.journal()
    }

    /// How many turns the handle of this port has given without a call in the journal.
    pub closed spec fn unnoted(self) -> int {
        self.handle.unnoted()
    }

    /// Makes the port of a handle.
    pub(crate) fn new(handle: Handle<T>) -> (port: Self)
        ensures
            port.inner() == handle.inner(),
            port.sender_count() == handle.sender_count(),
            port.unnoted() == handle.unnoted(),
            port.journal() == handle.journal(),
    {
        SendPort { handle }
    }

    /// The handle of this port, to be read only.
    pub(crate) fn handle(&self) -> (handle: &Handle<T>)
        ensures
            handle.inner() == self.inner(),
            handle.sender_count() == self.sender_count(),
            handle.unnoted() == self.unnoted(),
            handle.journal() == self.journal(),
    {
        &self.handle
    }

    /// Counts the permits that nobody has taken at this moment.
    pub(crate) fn available_permits(&self) -> (permits: usize)
        ensures
            answers_available(self.inner().limiter(), permits),
            made(self.inner(), self.sender_count(), Event::Count { permits: permits as nat }),
            permits <= usize::MAX / 2,
    {
        self.handle.available_permits()
    }

    /// Notes how a wait for permits, made elsewhere, has ended.
    pub(crate) fn acquired(&mut self, acquired: &Result<OwnedSemaphorePermit, AcquireError>)
        ensures
            final(self).inner() == old(self).inner(),
            final(self).sender_count() == old(self).sender_count(),
            final(self).unnoted() == old(self).unnoted(),
            final(self).journal() == old(self).journal().push(acquire_event(*acquired)),
    {
        self.handle.acquired(acquired);
    }

    /// Hands an item to the queue along with the permits held for it.
    pub(crate) fn deliver(&mut self, permit: OwnedSemaphorePermit, item: T) -> (delivered: Result<
        (),
        T,
    >)
        ensures
            final(self).inner() == old(self).inner(),
            final(self).sender_count() == old(self).sender_count(),
            final(self).unnoted() == old(self).unnoted(),
            delivers(old(self).inner(), permit, item, delivered is Ok),
            delivered matches Err(back) ==> back == item,
            final(self).journal() == delivery(
                old(self).journal(),
                permits_held(permit),
                item,
                delivered is Ok,
            ),
    {
        let pushed = self.handle.push(permit, item);
        assert(pushed is Ok ==> pushed->Ok_0 == ());
        self.finish_push(pushed)
    }

    /// Ends the delivery of an item by the answer that the queue gave.
    pub(crate) fn finish_push(
        &mut self,
        pushed: Result<(), (OwnedSemaphorePermit, T)>,
    ) -> (delivered: Result<(), T>)
        ensures
            final(self).inner() == old(self).inner(),
            final(self).sender_count() == old(self).sender_count(),
            final(self).unnoted() == old(self).unnoted(),
            match pushed {
                Ok(()) => {
                    &&& delivered == Ok::<(), T>(())
                    &&& wakes(old(self).inner())
                    &&& final(self).journal() == old(self).journal().push(Event::Wake)
                },
                Err((permit, item)) => {
                    &&& delivered == Err::<(), T>(item)
                    &&& releases(permit)
                    &&& final(self).journal() == old(self).journal().push(
                        Event::Release { permits: permits_held(permit) },
                    )
                },
            },
    {
        match pushed {
            Ok(()) => {
                self.handle.wake();
                Ok(())
            },
            Err((permit, item)) => {
                self.handle.release(permit);
                Err(item)
            },
        }
    }

    /// Ends an attempt to send an item by the answer that the semaphore gave.
    pub(crate) fn finish_try_send(&mut self, item: T, acquired: TryAcquired) -> (step: TrySendStep<T>)
        ensures
            final(self).inner() == old(self).inner(),
            final(self).sender_count() == old(self).sender_count(),
            final(self).unnoted() == old(self).unnoted(),
            acquired matches TryAcquired::Granted(permit) ==> delivers(
                old(self).inner(),
                permit,
                item,
                step is Sent,
            ),
            finishes_try_send(old(self).journal(), final(self).journal(), item, acquired, step),
    {
        match acquired {
            TryAcquired::Granted(permit) => match self.deliver(permit, item) {
                Ok(()) => TrySendStep::Sent,
                Err(item) => TrySendStep::Overflow(item),
            },
            TryAcquired::NoPermits => {
                TrySendStep::Refused(TrySendError::InsufficientCapacity(item))
            },
            TryAcquired::Closed => TrySendStep::Refused(TrySendError::Disconnected(item)),
        }
    }

    /// Asks for `permits` permits without waiting for them, and sends the item with them.
    pub(crate) fn try_send(&mut self, permits: u32, item: T) -> (step: TrySendStep<T>)
        requires
            permits <= MAX_PERMITS,
        ensures
            final(self).inner() == old(self).inner(),
            final(self).sender_count() == old(self).sender_count(),
            final(self).unnoted() == old(self).unnoted(),
            exists|acquired: TryAcquired| #[trigger]
                asks_and_acts(
                    old(self).inner(),
                    old(self).journal(),
                    final(self).journal(),
                    permits,
                    item,
                    acquired,
                    step,
                ),
    {
        let acquired = self.handle.try_acquire(permits);
        let ghost asked = acquired;
        let step = self.finish_try_send(item, acquired);
        assert(asks_and_acts(
            old(self).inner(),
            old(self).journal(),
            self.journal(),
            permits,
            item,
            asked,
            step,
        ));
        step
    }

    /// Goes away. The last sender of the channel closes it on the way out.
    pub(crate) fn disconnect(self) -> (ended: Ended<T>)
        ensures
            ended.inner() == self.inner(),
            ended.sender_count() == self.sender_count(),
            ended.unnoted() == self.unnoted(),
            exists|senders: usize| #[trigger]
                departs(self.inner(), self.sender_count(), senders) && ended.journal() == departure(
                    self.journal(),
                    senders,
                ),
    {
        let mut handle = self.handle;
        let senders = handle.leave();
        if senders == 1 {
            handle.close(Ghost(End::Sender));
            handle.wake();
        }
        assert(departs(self.inner(), self.sender_count(), senders));
        handle.end()
    }
}

/// What a receiver can do to the channel.
#[verifier::reject_recursive_types(T)]
pub struct ReceivePort<T> {
    handle: Handle<T>,
}

impl<T> ReceivePort<T> {
    /// What the port shares with the other handles of the channel.
    pub closed spec fn inner(self) -> Inner<T> {
        self.handle.inner()
    }

    /// The count of the senders of the channel.
    pub closed spec fn sender_count(self) -> Arc<AtomicUsize> {
        self.handle.sender_count()
    }

    /// The calls that were made through this port, with their answers.
    pub closed spec fn journal(self) -> Seq<Event<T>> {
        self.handle.journal()
    }

    /// How many turns the handle of this port has given without a call in the journal.
    pub closed spec fn unnoted(self) -> int {
        self.handle.unnoted()
    }

    /// Makes the port of a handle.
    pub(crate) fn new(handle: Handle<T>) -> (port: Self)
        ensures
            port.inner() == handle.inner(),
            port.sender_count() == handle.sender_count(),
            port.unnoted() == handle.unnoted(),
            port.journal() == handle.journal(),
    {
        ReceivePort { handle }
    }

    /// The handle of this port, to be read only.
    pub(crate) fn handle(&self) -> (handle: &Handle<T>)
        ensures
            handle.inner() == self.inner(),
            handle.sender_count() == self.sender_count(),
            handle.unnoted() == self.unnoted(),
            handle.journal() == self.journal(),
    {
        &self.handle
    }

    /// Counts the permits that nobody has taken at this moment.
    pub(crate) fn available_permits(&self) -> (permits: usize)
        ensures
            answers_available(self.inner().limiter(), permits),
            made(self.inner(), self.sender_count(), Event::Count { permits: permits as nat }),
            permits <= usize::MAX / 2,
    {
        self.handle.available_permits()
    }

    /// Takes an item and its permits out of the queue, if it holds any.
    pub(crate) fn pop(&mut self) -> (popped: Option<(OwnedSemaphorePermit, T)>)
        ensures
            final(self).inner() == old(self).inner(),
            final(self).sender_count() == old(self).sender_count(),
            final(self).unnoted() == old(self).unnoted(),
            answers_pop(old(self).inner(), popped),
            final(self).journal() == old(self).journal().push(pop_event(popped)),
    {
        self.handle.pop()
    }

    /// Gives permits back to the semaphore.
    pub(crate) fn release(&mut self, permit: OwnedSemaphorePermit)
        ensures
            final(self).inner() == old(self).inner(),
            final(self).sender_count() == old(self).sender_count(),
            final(self).unnoted() == old(self).unnoted(),
            releases(permit),
            final(self).journal() == old(self).journal().push(
                Event::Release { permits: permits_held(permit) },
            ),
    {
        self.handle.release(permit);
    }

    /// Looks whether the channel is closed.
    pub(crate) fn is_closed(&mut self) -> (closed: bool)
        ensures
            final(self).inner() == old(self).inner(),
            final(self).sender_count() == old(self).sender_count(),
            final(self).unnoted() == old(self).unnoted(),
            answers_closed(old(self).inner(), closed),
            final(self).journal() == old(self).journal().push(Event::ObserveClosed { closed }),
    {
        self.handle.is_closed()
    }

    /// Goes away and closes the channel.
    pub(crate) fn disconnect(self) -> (ended: Ended<T>)
        ensures
            ended.inner() == self.inner(),
            ended.sender_count() == self.sender_count(),
            ended.unnoted() == self.unnoted(),
            closes(self.inner()),
            ended.journal() == self.journal().push(Event::Close { end: End::Receiver }),
    {
        let mut handle = self.handle;
        handle.close(Ghost(End::Receiver));
        handle.end()
    }
}

} // verus!
