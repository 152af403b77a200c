//! The queue, the semaphore and the wake-up that a channel is built from.
//!
//! Their methods take shared references and answer by what all holders have done so far, so their
//! contracts say only what holds whatever the others do. That a call has been made and what it
//! answered is stated by the spec functions below, each of which can be shown only of a call that was
//! made. The calls that change what is shared ask in addition for what only one module each can show,
//! so that they are made there and nowhere else: see [`calls`](crate::calls).

use crate::turn::Turn;
use crossbeam_queue::ArrayQueue;
use std::sync::atomic::AtomicUsize;
use std::sync::Arc;
use tokio::sync::{AcquireError, Notify, OwnedSemaphorePermit, Semaphore, TryAcquireError};
use vstd::prelude::*;

verus! {

/// The largest number of permits that a [`Semaphore`] can hold.
pub const MAX_PERMITS: usize = usize::MAX / 8;

/// A bounded queue of `crossbeam_queue`, shared by all handles of a channel.
#[verifier::external_type_specification]
#[verifier::external_body]
#[verifier::reject_recursive_types(T)]
pub struct ExArrayQueue<T>(ArrayQueue<T>);

/// A semaphore of `tokio`.
#[verifier::external_type_specification]
#[verifier::external_body]
pub struct ExSemaphore(Semaphore);

/// The permits that one acquisition took from a semaphore; dropping them gives them back.
#[verifier::external_type_specification]
#[verifier::external_body]
pub struct ExOwnedSemaphorePermit(OwnedSemaphorePermit);

/// What a waiting acquisition ends with when the semaphore was closed.
#[verifier::external_type_specification]
#[verifier::external_body]
pub struct ExAcquireError(AcquireError);

/// The wake-up of `tokio` on which the receiver waits.
#[verifier::external_type_specification]
#[verifier::external_body]
pub struct ExNotify(Notify);

/// The number of permits that `permit` stands for: what `OwnedSemaphorePermit::num_permits` returns.
pub uninterp spec fn permits_held(permit: OwnedSemaphorePermit) -> nat;

/// The number of permits that `semaphore` was made with.
pub uninterp spec fn initial_permits(semaphore: Semaphore) -> nat;

/// `ArrayQueue::new` makes an empty queue with room for `cap` items. It panics on a capacity of zero
/// and on one whose successor has no next power of two, which `MAX_PERMITS` rules out. Left unsaid is
/// how many slots the memory holds: as with a `Vec`, slots that cannot be allocated are not covered.
pub assume_specification<T>[ ArrayQueue::<T>::new ](cap: usize) -> ArrayQueue<T>
    requires
        0 < cap <= MAX_PERMITS,
;

/// `ArrayQueue::push` puts the value at the end of the queue, or hands it back when the queue is
/// full. Whether it is full depends on the other holders of the queue.
pub assume_specification<T>[ ArrayQueue::<T>::push ](
    queue: &ArrayQueue<T>,
    value: T,
) -> (pushed: Result<(), T>)
    requires
        crate::calls::push::here(),
    ensures
        pushed matches Err(back) ==> back == value,
;

/// `ArrayQueue::pop` takes the value at the front of the queue, if there is one. Which one that is
/// depends on the other holders of the queue.
pub assume_specification<T>[ ArrayQueue::<T>::pop ](queue: &ArrayQueue<T>) -> Option<T>
    requires
        crate::calls::pop::here(),
;

/// `Semaphore::new` makes an open semaphore with `permits` permits. It panics on more than
/// `MAX_PERMITS`.
pub assume_specification[ Semaphore::new ](permits: usize) -> (semaphore: Semaphore)
    requires
        permits <= MAX_PERMITS,
    ensures
        initial_permits(semaphore) == permits,
;

/// `Semaphore::available_permits` counts the permits that nobody has taken at this moment. One bit of
/// the counter that it reads is no part of the count.
pub assume_specification[ Semaphore::available_permits ](semaphore: &Semaphore) -> (permits: usize)
    ensures
        permits <= usize::MAX / 2,
;

/// Whether `semaphore` has answered `permits` to `Semaphore::available_permits`.
pub open spec fn answers_available(semaphore: Arc<Semaphore>, permits: usize) -> bool {
    call_ensures(Semaphore::available_permits, (&*semaphore,), permits)
}

/// `Semaphore::close` stops the semaphore from giving out permits and ends all waiting acquisitions.
pub assume_specification[ Semaphore::close ](semaphore: &Semaphore)
    requires
        crate::calls::close::here(),
;

/// `Semaphore::is_closed` tells whether any holder has closed the semaphore so far.
pub assume_specification[ Semaphore::is_closed ](semaphore: &Semaphore) -> bool;

/// `Notify::new` makes a wake-up that is not set.
pub assume_specification[ Notify::new ]() -> Notify;

/// `Notify::notify_one` wakes the task that waits, or sets the wake-up for the next one that does.
pub assume_specification[ Notify::notify_one ](notify: &Notify);

/// The answer of a semaphore to an acquisition that does not wait.
pub enum TryAcquired {
    /// The permits asked for.
    Granted(OwnedSemaphorePermit),
    /// Fewer permits than asked for were available.
    NoPermits,
    /// The semaphore is closed.
    Closed,
}

/// `Semaphore::try_acquire_many_owned` takes `permits` permits at once or none. The permit that it
/// returns stands for exactly as many as were asked for; which of the three answers comes depends on
/// the other holders of the semaphore. It panics when asked for more than `MAX_PERMITS`.
#[verifier::external_body]
pub(crate) fn try_acquire_many(limiter: &Arc<Semaphore>, permits: u32, _turn: Turn) -> (acquired:
    TryAcquired)
    requires
        permits <= MAX_PERMITS,
        crate::exchange::noting::here(),
    ensures
        acquired matches TryAcquired::Granted(permit) ==> permits_held(permit) == permits,
{
    match limiter.clone().try_acquire_many_owned(permits) {
        Ok(permit) => TryAcquired::Granted(permit),
        Err(TryAcquireError::NoPermits) => TryAcquired::NoPermits,
        Err(TryAcquireError::Closed) => TryAcquired::Closed,
    }
}

/// Whether the semaphore has answered `acquired` when asked for `permits` permits without waiting.
pub closed spec fn answers_acquire(
    limiter: Arc<Semaphore>,
    permits: u32,
    acquired: TryAcquired,
) -> bool {
    exists|turn: Turn| call_ensures(try_acquire_many, (&limiter, permits, turn), acquired)
}

pub(crate) proof fn lemma_answers_acquire(
    limiter: Arc<Semaphore>,
    permits: u32,
    turn: Turn,
    acquired: TryAcquired,
)
    requires
        call_ensures(try_acquire_many, (&limiter, permits, turn), acquired),
    ensures
        answers_acquire(limiter, permits, acquired),
{
}

/// Dropping an `OwnedSemaphorePermit` gives its permits back to the semaphore that they came from. It
/// panics only when another holder has added so many permits of its own that the semaphore cannot
/// hold these any more.
#[verifier::external_body]
pub(crate) fn release_permit(permit: OwnedSemaphorePermit) {
    drop(permit)
}

/// Whether `permit` has been dropped, so that its permits went back.
pub closed spec fn releases(permit: OwnedSemaphorePermit) -> bool {
    call_ensures(release_permit, (permit,), ())
}

pub(crate) proof fn lemma_releases(permit: OwnedSemaphorePermit)
    requires
        call_ensures(release_permit, (permit,), ()),
    ensures
        releases(permit),
{
}

/// `OwnedSemaphorePermit::num_permits` returns the number of permits that the permit stands for.
pub assume_specification[ OwnedSemaphorePermit::num_permits ](permit: &OwnedSemaphorePermit) -> (permits:
    usize)
    ensures
        permits == permits_held(*permit),
;

/// Whether `counter` was made with the value `senders`.
pub open spec fn counts_from(counter: Arc<AtomicUsize>, senders: usize) -> bool {
    call_ensures(AtomicUsize::new, (senders,), *counter)
}

/// Whether `counter` has answered `senders` when it was read.
pub open spec fn answers_load(counter: Arc<AtomicUsize>, senders: usize) -> bool {
    call_ensures(
        AtomicUsize::load,
        (&*counter, std::sync::atomic::Ordering::SeqCst),
        senders,
    )
}

/// Whether `counter` has answered `before` when one was added to it.
pub open spec fn answers_increment(counter: Arc<AtomicUsize>, before: usize) -> bool {
    call_ensures(
        AtomicUsize::fetch_add,
        (&*counter, 1usize, std::sync::atomic::Ordering::SeqCst),
        before,
    )
}

/// Whether `counter` has answered `before` when one was taken from it.
pub open spec fn answers_decrement(counter: Arc<AtomicUsize>, before: usize) -> bool {
    call_ensures(
        AtomicUsize::fetch_sub,
        (&*counter, 1usize, std::sync::atomic::Ordering::SeqCst),
        before,
    )
}

} // verus!
