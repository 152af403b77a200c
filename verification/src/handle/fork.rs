//! How a channel gets one more sender.

use crate::exchange::SendPort;
use crate::handle::Handle;
use crate::model::Event;
use crate::outside::answers_increment;
use crate::sender::{arrival, LimitedSender};
use vstd::prelude::*;

verus! {

/// What only this module can show: senders are added nowhere else.
pub closed spec fn here() -> bool {
    true
}

impl<T> Handle<T> {
    /// Makes one more sending end of the channel of `sender`.
    pub(crate) fn fork(sender: &LimitedSender<T>) -> (port: SendPort<T>)
        ensures
            port.inner() == sender.inner(),
            port.sender_count() == sender.sender_count(),
            port.unnoted() == 0,
            exists|senders: usize| #[trigger]
                answers_increment(sender.sender_count(), senders) && port.journal() == arrival::<T>(
                    senders,
                ),
    {
        let mut handle = sender.port().handle().share();
        let senders = handle.join();
        assert(handle.journal() == arrival::<T>(senders));
        SendPort::new(handle)
    }

    /// Adds one to the number of senders.
    fn join(&mut self) -> (before: usize)
        ensures
            final(self).inner() == old(self).inner(),
            final(self).sender_count() == old(self).sender_count(),
            final(self).unnoted() == old(self).unnoted(),
            answers_increment(old(self).sender_count(), before),
            final(self).journal() == old(self).journal().push(Event::Join { before }),
    {
        let turn = self.turn();
        let before = self.counter().increment(turn);
        self.note_turn(Ghost(Event::Join { before }));
        before
    }
}

} // verus!
