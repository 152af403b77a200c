//! The calls that change what the handles of a channel share.
//!
//! Each stands in a module of its own, which alone can make it, and uses up a
//! [`Turn`](crate::turn::Turn). None of them knows anything of the channel beyond the object that it
//! is made on.

pub mod close;
pub mod count;
pub mod pop;
pub mod push;
