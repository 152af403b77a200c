use vstd::prelude::*;

verus! {

/// Error of [`LimitedSender::send`](crate::LimitedSender::send) when the receiver has disconnected.
#[derive(Debug, PartialEq)]
pub struct SendError<T>(pub T);

impl<T> SendError<T> {
    /// The text that describes the error.
    pub fn message(&self) -> (text: String)
        ensures
            text@ == "receiver disconnected"@,
    {
        "receiver disconnected".to_string()
    }
}

/// Error of [`LimitedSender::try_send`](crate::LimitedSender::try_send).
#[derive(Debug, PartialEq)]
pub enum TrySendError<T> {
    InsufficientCapacity(T),
    Disconnected(T),
}

impl<T> TrySendError<T> {
    /// The item that was not sent.
    pub open spec fn item(self) -> T {
        match self {
            TrySendError::InsufficientCapacity(item) => item,
            TrySendError::Disconnected(item) => item,
        }
    }

    /// Gives back the item that was not sent.
    pub fn into_inner(self) -> (item: T)
        ensures
            item == self.item(),
    {
        match self {
            Self::InsufficientCapacity(item) | Self::Disconnected(item) => item,
        }
    }

    /// The text that describes the error.
    pub fn message(&self) -> (text: String)
        ensures
            text@ == (match *self {
                TrySendError::InsufficientCapacity(_) =>
                    "channel lacks sufficient capacity for send"@,
                TrySendError::Disconnected(_) => "receiver disconnected"@,
            }),
    {
        match self {
            Self::InsufficientCapacity(_) => {
                "channel lacks sufficient capacity for send".to_string()
            },
            Self::Disconnected(_) => "receiver disconnected".to_string(),
        }
    }
}

} // verus!
