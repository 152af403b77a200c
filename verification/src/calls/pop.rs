use crate::turn::Turn;
use crossbeam_queue::ArrayQueue;
use vstd::prelude::*;

verus! {

/// What only this module can show: nothing is taken out of a queue anywhere else.
pub closed spec fn here() -> bool {
    true
}

/// Takes the oldest value out of the queue, if it holds any.
pub(crate) fn pop<V>(queue: &ArrayQueue<V>, _turn: Turn) -> (popped: Option<V>)
    requires
        crate::exchange::noting::here(),
    ensures
        call_ensures(ArrayQueue::<V>::pop, (queue,), popped),
{
    queue.pop()
}

} // verus!
