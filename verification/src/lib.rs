//! A bounded channel whose bound counts events, not items.
//!
//! The channel holds up to `limit` events at a time. An item may stand for any number of events, so
//! a sender first takes one permit per event from a semaphore of `limit` permits, then puts the item
//! in a queue together with its permits, and wakes the receiver. The permits go back when the
//! receiver takes the item out. An item larger than the whole channel asks for `limit` permits only,
//! and so is let in when the channel is empty.
//!
//! Waiting is left to the caller: [`LimitedSender::send`] and [`LimitedReceiver::next`] are the
//! steps of the two waiting operations that lie between their waits.
//!
//! # How the contracts read
//!
//! The semaphore, the queue and the wake-up are shared by all handles of a channel, and what a call
//! on them answers depends on what the other handles did. Every handle therefore keeps a journal, in
//! ghost code, of the calls that it made on them and of the answers that it got: see
//! [`Event`](model::Event). An entry stands for a call that was really made, on the objects of the
//! channel, which is an invariant of every [`Handle`](handle::Handle); of permits that went back it
//! says how many, and the contracts say which. A contract says which calls an operation made, what it
//! appends to the journal of its handle, and how its result follows from the answers. [`model`] says
//! which answers the shared objects can give, for any interleaving of the calls of all handles;
//! [`laws`], [`accounting`] and [`channels`] prove what then holds of every channel, and [`usage`] what
//! the results of calls that follow each other have to do with each other.
//!
//! The journal leaves nothing out. Each call that changes what is shared uses up a [`turn`], is made
//! in one place only, see [`calls`], and is noted there and then. A contract says that an operation
//! leaves the number of turns without an entry as it was; so it has made no such call but those that
//! it notes. The two ends reach the shared objects through the ports of [`exchange`] alone, which do
//! not share their handles.
//!
//! # What is taken on trust
//!
//! Two things are believed of the queue, the semaphore and the wake-up, and not proved: the contracts
//! in [`outside`], on which the operations rest, and [`model`], which says how these objects answer
//! one call after another and on which the laws rest.
//!
//! A handle that is dropped does not disconnect by itself: its owner calls
//! [`LimitedSender::disconnect`] or [`LimitedReceiver::disconnect`]. The handles of the application
//! do so when they are dropped.

pub mod accounting;
pub mod bufferable;
pub mod calls;
pub mod channel;
pub mod channels;
pub mod error;
pub mod exchange;
pub mod handle;
pub mod laws;
pub mod model;
pub mod outside;
pub mod receiver;
pub mod sender;
pub mod turn;
pub mod usage;

pub use bufferable::Bufferable;
pub use channel::limited;
pub use error::{SendError, TrySendError};
pub use outside::MAX_PERMITS;
pub use receiver::{LimitedReceiver, NextStep};
pub use sender::{LimitedSender, PendingSend, SendStep, TrySendStep};
