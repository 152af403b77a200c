//! What a handle shares with the others, and its account of the calls that were made through it.
//!
//! It is an invariant of the handle that every entry of its journal is a call that was made on what
//! the handle shares with the others: see [`made`]. And every call that changes what is shared uses up
//! a turn, which the handle keeps account of: see [`Handle::unnoted`].

pub mod fork;

use crate::calls::count::SenderCount;
use crate::exchange::{ReceivePort, SendPort};
use crate::model::{Event, Outcome};
use crate::outside::{
    answers_acquire, answers_available, answers_decrement, answers_increment, answers_load,
    counts_from, initial_permits, permits_held, releases, TryAcquired, MAX_PERMITS,
};
use crate::turn::Turn;
use crossbeam_queue::ArrayQueue;
use std::sync::atomic::AtomicUsize;
use std::sync::Arc;
use tokio::sync::{AcquireError, Notify, OwnedSemaphorePermit, Semaphore};
use vstd::prelude::*;

verus! {

/// What all handles of a channel share.
#[verifier::reject_recursive_types(T)]
#[derive(Debug)]
pub struct Inner<T> {
    data: Arc<ArrayQueue<(OwnedSemaphorePermit, T)>>,
    limit: usize,
    limiter: Arc<Semaphore>,
    read_waker: Arc<Notify>,
}

impl<T> Clone for Inner<T> {
    fn clone(&self) -> (inner: Self)
        ensures
            inner == *self,
    {
        proof {
            use_type_invariant(self);
        }
        Self {
            data: self.data.clone(),
            limit: self.limit,
            limiter: self.limiter.clone(),
            read_waker: self.read_waker.clone(),
        }
    }
}

impl<T> Inner<T> {
    /// The queue and the semaphore were made for the limit.
    #[verifier::type_invariant]
    spec fn wf(self) -> bool {
        &&& 0 < self.limit <= MAX_PERMITS
        &&& is_made_for(self, self.limit)
    }

    /// The queue that holds the items with their permits.
    pub closed spec fn data(self) -> Arc<ArrayQueue<(OwnedSemaphorePermit, T)>> {
        self.data
    }

    /// The number of events that the channel has room for.
    pub closed spec fn limit(self) -> usize {
        self.limit
    }

    /// The semaphore that gives out the permits.
    pub closed spec fn limiter(self) -> Arc<Semaphore> {
        self.limiter
    }

    /// The wake-up on which the receiver waits.
    pub closed spec fn read_waker(self) -> Arc<Notify> {
        self.read_waker
    }
}

/// Whether the queue was made with `limit` slots, the semaphore with `limit` permits, and the wake-up
/// unset.
pub open spec fn is_made_for<T>(inner: Inner<T>, limit: usize) -> bool {
    &&& call_ensures(ArrayQueue::<(OwnedSemaphorePermit, T)>::new, (limit,), *inner.data())
    &&& call_ensures(Semaphore::new, (limit,), *inner.limiter())
    &&& call_ensures(Notify::new, (), *inner.read_waker())
}

/// Whether the queue has answered `pushed` when handed `item` with `permit`.
pub open spec fn answers_push<T>(
    inner: Inner<T>,
    permit: OwnedSemaphorePermit,
    item: T,
    pushed: Result<(), (OwnedSemaphorePermit, T)>,
) -> bool {
    call_ensures(
        ArrayQueue::<(OwnedSemaphorePermit, T)>::push,
        (&*inner.data(), (permit, item)),
        pushed,
    )
}

/// Whether the queue has answered `popped` when asked for its oldest item.
pub open spec fn answers_pop<T>(inner: Inner<T>, popped: Option<(OwnedSemaphorePermit, T)>) -> bool {
    call_ensures(ArrayQueue::<(OwnedSemaphorePermit, T)>::pop, (&*inner.data(),), popped)
}

/// Whether the receiver has been woken.
pub open spec fn wakes<T>(inner: Inner<T>) -> bool {
    call_ensures(Notify::notify_one, (&*inner.read_waker(),), ())
}

/// Whether the semaphore has answered `closed` when asked whether it is closed.
pub open spec fn answers_closed<T>(inner: Inner<T>, closed: bool) -> bool {
    call_ensures(Semaphore::is_closed, (&*inner.limiter(),), closed)
}

/// Whether the semaphore has been closed.
pub open spec fn closes<T>(inner: Inner<T>) -> bool {
    call_ensures(Semaphore::close, (&*inner.limiter(),), ())
}

/// Whether the call that `event` stands for has been made on the shared objects, with the answer that
/// `event` gives. Of permits that went back it says how many they were, not which: which permit was
/// dropped is said by the operations that give permits back. Of a wait for permits, which is made
/// elsewhere, nothing is claimed.
pub open spec fn made<T>(inner: Inner<T>, sender_count: Arc<AtomicUsize>, event: Event<T>) -> bool {
    match event {
        Event::Open { slots, budget, senders } => {
            &&& slots == budget
            &&& is_made_for(inner, slots)
            &&& counts_from(sender_count, senders)
        },
        Event::TryAcquire { permits, outcome } => exists|asked: u32, acquired: TryAcquired| #[trigger]
            answers_acquire(inner.limiter(), asked, acquired) && asked == permits
                && acquired.outcome() == outcome,
        Event::Push { permits, item, accepted } => exists|
            permit: OwnedSemaphorePermit,
            pushed: Result<(), (OwnedSemaphorePermit, T)>,
        | #[trigger]
            answers_push(inner, permit, item, pushed) && permits_held(permit) == permits && accepted
                == (pushed is Ok),
        Event::Pop { .. } => exists|popped: Option<(OwnedSemaphorePermit, T)>| #[trigger]
            answers_pop(inner, popped) && event == pop_event(popped),
        Event::Release { permits } => exists|permit: OwnedSemaphorePermit| #[trigger]
            releases(permit) && permits_held(permit) == permits,
        Event::Wake => wakes(inner),
        Event::Count { permits } => exists|counted: usize| #[trigger]
            answers_available(inner.limiter(), counted) && counted == permits,
        Event::ObserveClosed { closed } => answers_closed(inner, closed),
        Event::Join { before } => answers_increment(sender_count, before),
        Event::Leave { before } => answers_decrement(sender_count, before),
        Event::Close { .. } => closes(inner),
        Event::Acquire { .. } | Event::Refused => true,
        _ => false,
    }
}

/// Whether the call that `event` stands for changes what is shared, and so takes a turn. Giving back
/// permits takes none, since it uses up the permit; nor does a wake-up.
pub open spec fn takes_turn<T>(event: Event<T>) -> bool {
    match event {
        Event::TryAcquire { .. } => true,
        Event::Push { .. } => true,
        Event::Pop { .. } => true,
        Event::Join { .. } => true,
        Event::Leave { .. } => true,
        Event::Close { .. } => true,
        _ => false,
    }
}

/// What only this module can show: turns are given nowhere else.
pub closed spec fn here() -> bool {
    true
}

/// One holder's access to a channel, with a journal of the calls that were made through it.
#[verifier::reject_recursive_types(T)]
pub struct Handle<T> {
    inner: Inner<T>,
    sender_count: SenderCount,
    journal: Ghost<Seq<Event<T>>>,
    unnoted: Ghost<int>,
}

impl<T> Handle<T> {
    /// Every entry of the journal is a call that was made.
    #[verifier::type_invariant]
    spec fn wf(self) -> bool {
        forall|i: int|
            0 <= i < self.journal@.len() ==> made(
                self.inner,
                self.sender_count.counter(),
                #[trigger] self.journal@[i],
            )
    }

    /// What the handle shares with the other handles of the channel.
    pub closed spec fn inner(self) -> Inner<T> {
        self.inner
    }

    /// The count of the senders of the channel.
    pub closed spec fn sender_count(self) -> Arc<AtomicUsize> {
        self.sender_count.counter()
    }

    /// The calls that were made through this handle, with their answers.
    pub closed spec fn journal(self) -> Seq<Event<T>> {
        self.journal@
    }

    /// How many turns this handle has given without a call in its journal. An operation that leaves
    /// this as it was has made no call that changes what is shared, except those in the journal.
    pub closed spec fn unnoted(self) -> int {
        self.unnoted@
    }

    /// Makes the shared objects of a new channel and the count of its senders.
    fn open(limit: usize, senders: usize) -> (opened: Self)
        requires
            0 < limit <= MAX_PERMITS,
        ensures
            opened.inner().limit() == limit,
            is_made_for(opened.inner(), limit),
            counts_from(opened.sender_count(), senders),
            opened.unnoted() == 0,
            opened.journal() == seq![Event::<T>::Open { slots: limit, budget: limit, senders }],
    {
        let inner = Inner {
            data: Arc::new(ArrayQueue::new(limit)),
            limit,
            limiter: Arc::new(Semaphore::new(limit)),
            read_waker: Arc::new(Notify::new()),
        };
        let sender_count = SenderCount::new(senders);
        let ghost journal = seq![Event::Open { slots: limit, budget: limit, senders }];
        Handle { inner, sender_count, journal: Ghost(journal), unnoted: Ghost(0) }
    }

    /// Makes another handle of the same channel, with a journal of its own.
    fn share(&self) -> (handle: Self)
        ensures
            handle.inner() == self.inner(),
            handle.sender_count() == self.sender_count(),
            handle.unnoted() == 0,
            handle.journal() == Seq::<Event<T>>::empty(),
    {
        Handle {
            inner: self.inner.clone(),
            sender_count: self.sender_count.share(),
            journal: Ghost(Seq::empty()),
            unnoted: Ghost(0),
        }
    }

    /// Makes the two ends of a new channel.
    pub(crate) fn pair(limit: usize) -> (ends: (SendPort<T>, ReceivePort<T>))
        requires
            0 < limit <= MAX_PERMITS,
        ensures
            ends.0.inner().limit() == limit,
            is_made_for(ends.0.inner(), limit),
            counts_from(ends.0.sender_count(), 1),
            ends.0.unnoted() == 0,
            ends.0.journal() == seq![Event::<T>::Open { slots: limit, budget: limit, senders: 1 }],
            ends.1.inner() == ends.0.inner(),
            ends.1.sender_count() == ends.0.sender_count(),
            ends.1.unnoted() == 0,
            ends.1.journal() == Seq::<Event<T>>::empty(),
    {
        let handle = Handle::open(limit, 1);
        let receiver = ReceivePort::new(handle.share());
        (SendPort::new(handle), receiver)
    }

    /// Ends the use of this handle.
    pub(crate) fn end(self) -> (ended: Ended<T>)
        ensures
            ended.inner() == self.inner(),
            ended.sender_count() == self.sender_count(),
            ended.unnoted() == self.unnoted(),
            ended.journal() == self.journal(),
    {
        Ended { handle: self }
    }

    /// Gives the turn for one call.
    pub(crate) fn turn(&mut self) -> (turn: Turn)
        ensures
            final(self).inner() == old(self).inner(),
            final(self).sender_count() == old(self).sender_count(),
            final(self).journal() == old(self).journal(),
            final(self).unnoted() == old(self).unnoted() + 1,
    {
        proof {
            use_type_invariant(&*self);
            self.unnoted@ = self.unnoted@ + 1;
        }
        Turn::new()
    }

    /// Notes a call that took no turn.
    pub(crate) fn note(&mut self, Ghost(event): Ghost<Event<T>>)
        requires
            made(old(self).inner(), old(self).sender_count(), event),
            !takes_turn(event),
        ensures
            final(self).inner() == old(self).inner(),
            final(self).sender_count() == old(self).sender_count(),
            final(self).journal() == old(self).journal().push(event),
            final(self).unnoted() == old(self).unnoted(),
    {
        proof {
            use_type_invariant(&*self);
            self.journal@ = self.journal@.push(event);
        }
    }

    /// Notes a call that took a turn.
    pub(crate) fn note_turn(&mut self, Ghost(event): Ghost<Event<T>>)
        requires
            made(old(self).inner(), old(self).sender_count(), event),
            takes_turn(event),
        ensures
            final(self).inner() == old(self).inner(),
            final(self).sender_count() == old(self).sender_count(),
            final(self).journal() == old(self).journal().push(event),
            final(self).unnoted() == old(self).unnoted() - 1,
    {
        proof {
            use_type_invariant(&*self);
            self.journal@ = self.journal@.push(event);
            self.unnoted@ = self.unnoted@ - 1;
        }
    }

    /// What the handle shares with the other handles of the channel.
    pub(crate) fn shared(&self) -> (shared: &Inner<T>)
        ensures
            *shared == self.inner(),
    {
        &self.inner
    }

    /// The queue of the channel.
    pub(crate) fn queue(&self) -> (queue: &ArrayQueue<(OwnedSemaphorePermit, T)>)
        ensures
            *queue == *self.inner().data(),
    {
        &self.inner.data
    }

    /// The count of the senders.
    pub(crate) fn counter(&self) -> (counter: &SenderCount)
        ensures
            counter.counter() == self.sender_count(),
    {
        &self.sender_count
    }

    /// Reads the number of senders at this moment.
    pub(crate) fn senders(&self) -> (senders: usize)
        ensures
            answers_load(self.sender_count(), senders),
    {
        self.sender_count.senders()
    }

    /// The number of events that the channel has room for.
    pub(crate) fn limit(&self) -> (limit: usize)
        ensures
            limit == self.inner().limit(),
            0 < limit <= MAX_PERMITS,
    {
        proof {
            use_type_invariant(&self.inner);
        }
        self.inner.limit
    }

    /// The semaphore, for a sender that waits for permits.
    pub(crate) fn limiter(&self) -> (limiter: Arc<Semaphore>)
        ensures
            limiter == self.inner().limiter(),
            initial_permits(*limiter) == self.inner().limit(),
    {
        proof {
            use_type_invariant(&self.inner);
        }
        self.inner.limiter.clone()
    }

    /// The wake-up, for a receiver that waits for items.
    pub(crate) fn read_waker(&self) -> (read_waker: Arc<Notify>)
        ensures
            read_waker == self.inner().read_waker(),
    {
        self.inner.read_waker.clone()
    }

    /// Counts the permits that nobody has taken at this moment.
    pub(crate) fn available_permits(&self) -> (permits: usize)
        ensures
            answers_available(self.inner().limiter(), permits),
            made(self.inner(), self.sender_count(), Event::Count { permits: permits as nat }),
            permits <= usize::MAX / 2,
    {
        let permits = self.inner.limiter.available_permits();
        assert(answers_available(self.inner.limiter(), permits));
        permits
    }
}

/// A handle whose use has ended, with the journal that it leaves behind.
#[verifier::reject_recursive_types(T)]
pub struct Ended<T> {
    handle: Handle<T>,
}

impl<T> Ended<T> {
    /// What the handle shared with the other handles of the channel.
    pub closed spec fn inner(self) -> Inner<T> {
        self.handle.inner()
    }

    /// The count of the senders of the channel.
    pub closed spec fn sender_count(self) -> Arc<AtomicUsize> {
        self.handle.sender_count()
    }

    /// The calls that were made through the handle, with their answers.
    pub closed spec fn journal(self) -> Seq<Event<T>> {
        self.handle.journal()
    }

    /// How many turns the handle gave without a call in its journal.
    pub closed spec fn unnoted(self) -> int {
        self.handle.unnoted()
    }
}

/// What the journal says of a wait for permits that ended with `acquired`.
pub open spec fn acquire_event<T>(acquired: Result<OwnedSemaphorePermit, AcquireError>) -> Event<T> {
    match acquired {
        Ok(permit) => Event::Acquire { permits: permits_held(permit) },
        Err(_) => Event::Refused,
    }
}

/// What the journal says of an attempt to take an item out of the queue that ended with `popped`.
pub open spec fn pop_event<T>(popped: Option<(OwnedSemaphorePermit, T)>) -> Event<T> {
    match popped {
        Some((permit, item)) => Event::Pop { taken: Some((permits_held(permit), item)) },
        None => Event::Pop { taken: None },
    }
}

impl TryAcquired {
    /// Which of the three answers this is.
    pub open spec fn outcome(self) -> Outcome {
        match self {
            TryAcquired::Granted(_) => Outcome::Granted,
            TryAcquired::NoPermits => Outcome::NoPermits,
            TryAcquired::Closed => Outcome::Closed,
        }
    }
}

} // verus!
