# limited-queue

A channel with room for a bounded number of events, where one item can stand for many events. The
senders take a permit per event from a semaphore, queue the item together with its permits, and wake
the receiver; the permits go back when the receiver takes the item out.

- `src/` is the library, verified with Verus. `outside.rs` holds the contracts that are taken on trust
  of the queue, the semaphore and the wake-up; `handle.rs` the calls on them; `sender.rs`,
  `receiver.rs` and `channel.rs` the two ends; `model.rs` what a channel is under any interleaving of
  its handles; and `laws.rs`, `accounting.rs` and `channels.rs` what holds of it. That the three
  objects answer one call after another as `model.rs` says is taken on trust too: the laws rest on it.
- `app/` adds the waiting: futures, a stream, and handles that disconnect when they are dropped.
- `tests/` runs the library against the real queue, semaphore and wake-up.
