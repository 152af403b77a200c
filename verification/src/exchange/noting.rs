//! The calls of a handle: each takes a turn where it changes what is shared, makes the call, and notes
//! it with its answer.

use crate::calls;
use crate::handle::{
    acquire_event, answers_closed, answers_pop, answers_push, closes, pop_event, wakes, Handle,
};
use crate::model::{End, Event};
use crate::outside::{
    answers_acquire, answers_decrement, lemma_answers_acquire, lemma_releases, permits_held,
    release_permit, releases, try_acquire_many, TryAcquired, MAX_PERMITS,
};
use tokio::sync::{AcquireError, OwnedSemaphorePermit};
use vstd::prelude::*;

verus! {

/// What only this module can show: but for the making of a sender, turns are used nowhere else.
pub closed spec fn here() -> bool {
    true
}

impl<T> Handle<T> {
    /// Asks for permits without waiting for them.
    pub(super) fn try_acquire(&mut self, permits: u32) -> (acquired: TryAcquired)
        requires
            permits <= MAX_PERMITS,
        ensures
            final(self).inner() == old(self).inner(),
            final(self).sender_count() == old(self).sender_count(),
            final(self).unnoted() == old(self).unnoted(),
            answers_acquire(old(self).inner().limiter(), permits, acquired),
            acquired matches TryAcquired::Granted(permit) ==> permits_held(permit) == permits,
            final(self).journal() == old(self).journal().push(
                Event::TryAcquire { permits: permits as nat, outcome: acquired.outcome() },
            ),
    {
        let turn = self.turn();
        let ghost taken = turn;
        let acquired = try_acquire_many(&self.limiter(), permits, turn);
        let ghost event = Event::TryAcquire {
            permits: permits as nat,
            outcome: acquired.outcome(),
        };
        proof {
            lemma_answers_acquire(self.inner().limiter(), permits, taken, acquired);
            assert(event->TryAcquire_outcome == acquired.outcome());
            assert(event->TryAcquire_permits == permits);
        }
        self.note_turn(Ghost(event));
        acquired
    }

    /// Notes how a wait for permits, made elsewhere, has ended.
    pub(super) fn acquired(&mut self, acquired: &Result<OwnedSemaphorePermit, AcquireError>)
        ensures
            final(self).inner() == old(self).inner(),
            final(self).sender_count() == old(self).sender_count(),
            final(self).unnoted() == old(self).unnoted(),
            final(self).journal() == old(self).journal().push(acquire_event(*acquired)),
    {
        self.note(Ghost(acquire_event(*acquired)));
    }

    /// Puts an item and its permits in the queue, or gets them back when the queue is full.
    pub(super) fn push(&mut self, permit: OwnedSemaphorePermit, item: T) -> (pushed: Result<
        (),
        (OwnedSemaphorePermit, T),
    >)
        ensures
            final(self).inner() == old(self).inner(),
            final(self).sender_count() == old(self).sender_count(),
            final(self).unnoted() == old(self).unnoted(),
            answers_push(old(self).inner(), permit, item, pushed),
            pushed matches Err(back) ==> back == (permit, item),
            final(self).journal() == old(self).journal().push(
                Event::Push { permits: permits_held(permit), item, accepted: pushed is Ok },
            ),
    {
        let ghost held = permit;
        let ghost permits = permits_held(permit);
        let ghost sent = item;
        let turn = self.turn();
        let pushed = calls::push::push(self.queue(), (permit, item), turn);
        let ghost event = Event::Push { permits, item: sent, accepted: pushed is Ok };
        assert(answers_push(self.inner(), held, event->Push_item, pushed));
        self.note_turn(Ghost(event));
        pushed
    }

    /// Takes an item and its permits out of the queue, if it holds any.
    pub(super) fn pop(&mut self) -> (popped: Option<(OwnedSemaphorePermit, T)>)
        ensures
            final(self).inner() == old(self).inner(),
            final(self).sender_count() == old(self).sender_count(),
            final(self).unnoted() == old(self).unnoted(),
            answers_pop(old(self).inner(), popped),
            final(self).journal() == old(self).journal().push(pop_event(popped)),
    {
        let turn = self.turn();
        let popped = calls::pop::pop(self.queue(), turn);
        assert(answers_pop(self.inner(), popped));
        self.note_turn(Ghost(pop_event(popped)));
        popped
    }

    /// Gives permits back to the semaphore.
    pub(super) fn release(&mut self, permit: OwnedSemaphorePermit)
        ensures
            final(self).inner() == old(self).inner(),
            final(self).sender_count() == old(self).sender_count(),
            final(self).unnoted() == old(self).unnoted(),
            releases(permit),
            final(self).journal() == old(self).journal().push(
                Event::Release { permits: permits_held(permit) },
            ),
    {
        let ghost permits = permits_held(permit);
        let ghost held = permit;
        release_permit(permit);
        proof {
            lemma_releases(held);
        }
        self.note(Ghost(Event::Release { permits }));
    }

    /// Wakes the receiver, now or as soon as it waits.
    pub(super) fn wake(&mut self)
        ensures
            final(self).inner() == old(self).inner(),
            final(self).sender_count() == old(self).sender_count(),
            final(self).unnoted() == old(self).unnoted(),
            wakes(old(self).inner()),
            final(self).journal() == old(self).journal().push(Event::Wake),
    {
        self.read_waker().notify_one();
        self.note(Ghost(Event::Wake));
    }

    /// Looks whether the channel is closed.
    pub(super) fn is_closed(&mut self) -> (closed: bool)
        ensures
            final(self).inner() == old(self).inner(),
            final(self).sender_count() == old(self).sender_count(),
            final(self).unnoted() == old(self).unnoted(),
            answers_closed(old(self).inner(), closed),
            final(self).journal() == old(self).journal().push(Event::ObserveClosed { closed }),
    {
        let closed = self.limiter().is_closed();
        self.note(Ghost(Event::ObserveClosed { closed }));
        closed
    }

    /// Closes the channel from the given end.
    pub(super) fn close(&mut self, Ghost(end): Ghost<End>)
        ensures
            final(self).inner() == old(self).inner(),
            final(self).sender_count() == old(self).sender_count(),
            final(self).unnoted() == old(self).unnoted(),
            closes(old(self).inner()),
            final(self).journal() == old(self).journal().push(Event::Close { end }),
    {
        let turn = self.turn();
        calls::close::close(&self.limiter(), turn);
        self.note_turn(Ghost(Event::Close { end }));
    }

    /// Takes one from the number of senders.
    pub(super) fn leave(&mut self) -> (before: usize)
        ensures
            final(self).inner() == old(self).inner(),
            final(self).sender_count() == old(self).sender_count(),
            final(self).unnoted() == old(self).unnoted(),
            answers_decrement(old(self).sender_count(), before),
            final(self).journal() == old(self).journal().push(Event::Leave { before }),
    {
        let turn = self.turn();
        let before = self.counter().decrement(turn);
        self.note_turn(Ghost(Event::Leave { before }));
        before
    }
}

} // verus!
