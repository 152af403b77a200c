use crate::turn::Turn;
use crossbeam_queue::ArrayQueue;
use vstd::prelude::*;

verus! {

/// What only this module can show: nothing is put in a queue anywhere else.
pub closed spec fn here() -> bool {
    true
}

/// Puts a value at the end of the queue, or gets it back when the queue is full.
pub(crate) fn push<V>(queue: &ArrayQueue<V>, value: V, _turn: Turn) -> (pushed: Result<(), V>)
    requires
        crate::exchange::noting::here(),
    ensures
        call_ensures(ArrayQueue::<V>::push, (queue, value), pushed),
        pushed matches Err(back) ==> back == value,
{
    queue.push(value)
}

} // verus!
