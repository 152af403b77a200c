use vstd::prelude::*;

verus! {

/// What can be sent through the channel: an item that stands for a number of events.
pub trait Bufferable: Sized {
    /// Gets the number of events in the item.
    fn event_count(&self) -> usize;
}

/// Whether `item` can say that it stands for `count` events.
pub open spec fn counts_as<T: Bufferable>(item: T, count: usize) -> bool {
    call_ensures(T::event_count, (&item,), count)
}

} // verus!
