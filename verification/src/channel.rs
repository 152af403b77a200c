use crate::handle::{is_made_for, Handle};
use crate::model::{ChannelState, Event};
use crate::outside::{counts_from, MAX_PERMITS};
use crate::receiver::LimitedReceiver;
use crate::sender::LimitedSender;
use vstd::prelude::*;

verus! {

/// Makes a channel with room for `limit` events.
pub fn limited<T>(limit: usize) -> (ends: (LimitedSender<T>, LimitedReceiver<T>))
    requires
        0 < limit <= MAX_PERMITS,
    ensures
        ends.0.inner().limit() == limit,
        is_made_for(ends.0.inner(), limit),
        counts_from(ends.0.sender_count(), 1),
        ends.0.unnoted() == 0,
        ends.1.unnoted() == 0,
        ends.1.inner() == ends.0.inner(),
        ends.1.sender_count() == ends.0.sender_count(),
        ends.0.journal() == seq![Event::<T>::Open { slots: limit, budget: limit, senders: 1 }],
        ChannelState::<T>::initial(limit as nat).opens_with(ends.0.journal()[0]),
        ends.1.journal() == Seq::<Event<T>>::empty(),
{
    let (sender, receiver) = Handle::pair(limit);
    (LimitedSender::new(sender), LimitedReceiver::new(receiver))
}

} // verus!
