use crate::turn::Turn;
use tokio::sync::Semaphore;
use vstd::prelude::*;

verus! {

/// What only this module can show: a semaphore is closed nowhere else.
pub closed spec fn here() -> bool {
    true
}

/// Closes the semaphore.
pub(crate) fn close(semaphore: &Semaphore, _turn: Turn) -> (closed: ())
    requires
        crate::exchange::noting::here(),
    ensures
        call_ensures(Semaphore::close, (semaphore,), closed),
{
    semaphore.close()
}

} // verus!
