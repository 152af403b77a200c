use crate::outside::{answers_decrement, answers_increment, answers_load, counts_from};
use crate::turn::Turn;
use std::sync::atomic::AtomicUsize;
use std::sync::Arc;
use vstd::prelude::*;

verus! {

/// The count of the senders of a channel, which only this module reads and changes.
pub struct SenderCount {
    count: Arc<AtomicUsize>,
}

impl SenderCount {
    /// The counter itself.
    pub closed spec fn counter(self) -> Arc<AtomicUsize> {
        self.count
    }

    /// Starts to count at `senders`.
    pub(crate) fn new(senders: usize) -> (count: Self)
        ensures
            counts_from(count.counter(), senders),
    {
        SenderCount { count: Arc::new(AtomicUsize::new(senders)) }
    }

    /// Makes another access to the same counter.
    pub(crate) fn share(&self) -> (count: Self)
        ensures
            count.counter() == self.counter(),
    {
        SenderCount { count: Arc::clone(&self.count) }
    }

    /// Reads the counter.
    pub(crate) fn senders(&self) -> (senders: usize)
        ensures
            answers_load(self.counter(), senders),
    {
        self.count.load(std::sync::atomic::Ordering::SeqCst)
    }

    /// Adds one to the counter, and returns what it was.
    pub(crate) fn increment(&self, _turn: Turn) -> (before: usize)
        requires
            crate::handle::fork::here(),
        ensures
            answers_increment(self.counter(), before),
    {
        self.count.fetch_add(1, std::sync::atomic::Ordering::SeqCst)
    }

    /// Takes one from the counter, and returns what it was.
    pub(crate) fn decrement(&self, _turn: Turn) -> (before: usize)
        requires
            crate::exchange::noting::here(),
        ensures
            answers_decrement(self.counter(), before),
    {
        self.count.fetch_sub(1, std::sync::atomic::Ordering::SeqCst)
    }
}

} // verus!
