use limited_queue::{
    limited, Bufferable, LimitedReceiver, LimitedSender, NextStep, SendError, SendStep, TrySendError,
    TrySendStep,
};
use tokio_test::task::spawn;
use std::task::Poll;

#[derive(Debug, PartialEq)]
struct Message(u64);

impl Bufferable for Message {
    fn event_count(&self) -> usize {
        1
    }
}

#[derive(Debug, PartialEq)]
struct MultiEventRecord(usize);

impl Bufferable for MultiEventRecord {
    fn event_count(&self) -> usize {
        self.0
    }
}

/// A send with its wait for permits.
async fn send<T: Bufferable>(tx: &mut LimitedSender<T>, item: T) -> Result<(), SendError<T>> {
    let pending = tx.start_send(item);
    let acquired = tx.limiter().acquire_many_owned(pending.permits).await;
    match tx.send(pending, acquired) {
        SendStep::Sent => Ok(()),
        SendStep::Disconnected(error) => Err(error),
        SendStep::Overflow(_) => panic!("acquired permits but channel reported being full"),
    }
}

/// A receive with its wait for items.
async fn next<T: Send + 'static>(rx: &mut LimitedReceiver<T>) -> Option<T> {
    loop {
        match rx.next() {
            NextStep::Item(item) => return Some(item),
            NextStep::Closed => return None,
            NextStep::Wait => rx.read_waker().notified().await,
        }
    }
}

#[test]
fn send_receive() {
    let (mut tx, mut rx) = limited(2);
    assert_eq!(2, tx.available_capacity());

    // Create our send and receive futures.
    let mut sending = spawn(send(&mut tx, Message(42)));
    let mut recv = spawn(next(&mut rx));

    // Nobody should be woken up.
    assert!(!sending.is_woken());
    assert!(!recv.is_woken());

    // Try polling our receive, which should be pending because we haven't anything yet.
    assert!(recv.poll().is_pending());

    // We should immediately be able to complete a send as there is available capacity.
    assert_eq!(Poll::Ready(Ok(())), sending.poll());

    // Now our receive should have been woken up, and should immediately be ready.
    assert!(recv.is_woken());
    assert_eq!(Poll::Ready(Some(Message(42))), recv.poll());
}

#[test]
fn sender_waits_for_more_capacity_when_none_available() {
    let (mut tx, mut rx) = limited(1);
    assert_eq!(1, tx.available_capacity());

    let mut recv1 = spawn(next(&mut rx));
    assert!(recv1.poll().is_pending());

    // We should immediately be able to complete a send as there is available capacity.
    let mut send1 = spawn(send(&mut tx, Message(42)));
    assert!(!send1.is_woken());
    assert_eq!(Poll::Ready(Ok(())), send1.poll());
    drop(send1);
    assert_eq!(0, tx.available_capacity());

    // Now our receive should have been woken up, and should immediately be ready... but we
    // aren't going to read the value just yet.
    assert!(recv1.is_woken());

    // Now trigger a second send, which should block as there's no available capacity.
    let mut send2 = spawn(send(&mut tx, Message(43)));
    assert!(!send2.is_woken());
    assert!(send2.poll().is_pending());

    // Now if we receive the item, our second send should be woken up and be able to send in. The
    // permit goes straight to the send that waits for it.
    assert_eq!(Poll::Ready(Some(Message(42))), recv1.poll());
    drop(recv1);
    assert_eq!(0, rx.available_capacity());

    let mut recv2 = spawn(next(&mut rx));
    assert!(!recv2.is_woken());
    // The wake-up of the first send is still set, so this wait ends at once and another begins.
    assert!(recv2.poll().is_pending());

    assert!(send2.is_woken());
    assert_eq!(Poll::Ready(Ok(())), send2.poll());
    drop(send2);
    assert_eq!(0, tx.available_capacity());

    // And the final receive to get our second send.
    assert!(recv2.is_woken());
    assert_eq!(Poll::Ready(Some(Message(43))), recv2.poll());
    assert_eq!(1, tx.available_capacity());
}

#[test]
fn sender_waits_for_more_capacity_when_partial_available() {
    let (mut tx, mut rx) = limited(7);
    assert_eq!(7, tx.available_capacity());

    // Try polling our receive, which should be pending because we haven't anything yet.
    let mut recv1 = spawn(next(&mut rx));
    assert!(recv1.poll().is_pending());

    // We should immediately be able to complete our three sends, which we have available capacity
    // for, but will consume all but one of the available slots.
    let mut small_sends = spawn(async {
        for count in [1, 2, 3] {
            send(&mut tx, MultiEventRecord(count)).await?;
        }
        Ok::<_, SendError<MultiEventRecord>>(())
    });
    assert_eq!(Poll::Ready(Ok(())), small_sends.poll());
    drop(small_sends);
    assert_eq!(1, tx.available_capacity());
    assert!(recv1.is_woken());

    // Now trigger a second send that has four events, and needs to wait for two receives to happen.
    let mut send2 = spawn(send(&mut tx, MultiEventRecord(4)));
    assert!(!send2.is_woken());
    assert!(send2.poll().is_pending());

    // Now if we receive the first item, our second send should still not be able to send.
    assert_eq!(Poll::Ready(Some(MultiEventRecord(1))), recv1.poll());
    drop(recv1);

    // Callers waiting to acquire permits have the permits immediately transfer to them when one (or
    // more) are released, so we expect this to be zero until we send and then read the third item.
    assert_eq!(0, rx.available_capacity());

    // We don't get woken up until all permits have been acquired.
    assert!(!send2.is_woken());

    // Our second read should unlock enough available capacity for the second send once complete.
    let mut recv2 = spawn(next(&mut rx));
    assert_eq!(Poll::Ready(Some(MultiEventRecord(2))), recv2.poll());
    drop(recv2);
    assert_eq!(0, rx.available_capacity());

    assert!(send2.is_woken());
    assert_eq!(Poll::Ready(Ok(())), send2.poll());

    // And just make sure we see those last two sends.
    let mut recv3 = spawn(next(&mut rx));
    assert_eq!(Poll::Ready(Some(MultiEventRecord(3))), recv3.poll());
    drop(recv3);
    assert_eq!(3, rx.available_capacity());

    let mut recv4 = spawn(next(&mut rx));
    assert_eq!(Poll::Ready(Some(MultiEventRecord(4))), recv4.poll());
    drop(recv4);
    assert_eq!(7, rx.available_capacity());
}

#[test]
fn empty_receiver_returns_none_when_last_sender_drops() {
    let (mut tx, mut rx) = limited(1);
    assert_eq!(1, tx.available_capacity());
    let tx2 = tx.clone();

    // Try polling our receive, which should be pending because we haven't anything yet.
    let mut recv = spawn(next(&mut rx));
    assert!(recv.poll().is_pending());

    // Now drop our second sender, which shouldn't do anything yet.
    tx2.disconnect();
    assert!(!recv.is_woken());
    assert!(recv.poll().is_pending());

    // Now drop our first sender, but not before doing a send, which should trigger closing the
    // semaphore which should let the receiver complete with no further waiting: one item and then
    // `None`.
    let mut sending = spawn(send(&mut tx, Message(42)));
    assert_eq!(Poll::Ready(Ok(())), sending.poll());
    drop(sending);
    tx.disconnect();

    assert!(recv.is_woken());
    assert_eq!(Poll::Ready(Some(Message(42))), recv.poll());
    drop(recv);

    let mut recv2 = spawn(next(&mut rx));
    assert!(!recv2.is_woken());
    assert_eq!(Poll::Ready(None), recv2.poll());
}

#[test]
fn receiver_returns_none_once_empty_when_last_sender_drops() {
    let (tx, mut rx) = limited::<Message>(1);
    assert_eq!(1, tx.available_capacity());
    let tx2 = tx.clone();

    // Try polling our receive, which should be pending because we haven't anything yet.
    let mut recv = spawn(next(&mut rx));
    assert!(!recv.is_woken());
    assert!(recv.poll().is_pending());

    // Now drop our first sender, which shouldn't do anything yet.
    tx.disconnect();
    assert!(!recv.is_woken());
    assert!(recv.poll().is_pending());

    // Now drop our second sender, which should trigger closing the semaphore which should let the
    // receive complete as there are no items to read.
    tx2.disconnect();
    assert!(recv.is_woken());
    assert_eq!(Poll::Ready(None), recv.poll());
}

#[test]
fn oversized_send_allowed_when_empty() {
    let (mut tx, mut rx) = limited(1);
    assert_eq!(1, tx.available_capacity());

    // We should immediately be able to complete our send, which we don't have full available
    // capacity for, but will consume all of the available slots.
    let mut sending = spawn(send(&mut tx, MultiEventRecord(2)));
    assert!(!sending.is_woken());
    assert_eq!(Poll::Ready(Ok(())), sending.poll());
    drop(sending);
    assert_eq!(0, tx.available_capacity());

    // Now we should be able to get back the oversized item, but our capacity should not be greater
    // than what we started with.
    let mut recv = spawn(next(&mut rx));
    assert_eq!(Poll::Ready(Some(MultiEventRecord(2))), recv.poll());
    drop(recv);
    assert_eq!(1, rx.available_capacity());
}

#[test]
fn oversized_send_allowed_when_partial_capacity() {
    let (mut tx, mut rx) = limited(2);
    assert_eq!(2, tx.available_capacity());

    // We should immediately be able to complete our send, which will only use up a single slot.
    let mut sending = spawn(send(&mut tx, MultiEventRecord(1)));
    assert_eq!(Poll::Ready(Ok(())), sending.poll());
    drop(sending);
    assert_eq!(1, tx.available_capacity());

    // Now we'll trigger another send which has an oversized item.  It shouldn't be able to send
    // until all permits are available.
    let mut send2 = spawn(send(&mut tx, MultiEventRecord(3)));
    assert!(!send2.is_woken());
    assert!(send2.poll().is_pending());
    assert_eq!(0, rx.available_capacity());

    // Now do a receive which should return the one consumed slot, essentially allowing all permits
    // to be acquired by the blocked send.
    let mut recv = spawn(next(&mut rx));
    assert!(!recv.is_woken());
    assert!(!send2.is_woken());
    assert_eq!(Poll::Ready(Some(MultiEventRecord(1))), recv.poll());
    drop(recv);
    assert_eq!(0, rx.available_capacity());

    // Now our blocked send should be able to proceed, and we should be able to read back the item.
    assert_eq!(Poll::Ready(Ok(())), send2.poll());
    drop(send2);
    assert_eq!(0, tx.available_capacity());

    let mut recv2 = spawn(next(&mut rx));
    assert_eq!(Poll::Ready(Some(MultiEventRecord(3))), recv2.poll());
    assert_eq!(2, tx.available_capacity());
}

#[test]
fn waiting_send_is_disconnected_when_the_receiver_goes_away() {
    let (mut tx, rx) = limited(1);
    assert_eq!(TrySendStep::Sent, tx.try_send(Message(1)));
    let mut waiting = spawn(send(&mut tx, Message(2)));
    assert!(waiting.poll().is_pending());

    rx.disconnect();
    assert!(waiting.is_woken());
    assert_eq!(Poll::Ready(Err(SendError(Message(2)))), waiting.poll());
}

#[test]
fn an_item_sent_before_the_receiver_waits_is_not_missed() {
    let (mut tx, mut rx) = limited(4);
    // The receiver has looked and is about to wait when the item and its wake-up come.
    assert_eq!(NextStep::Wait, rx.next());
    assert_eq!(TrySendStep::Sent, tx.try_send(Message(5)));
    let waker = rx.read_waker();
    let mut wait = spawn(waker.notified());
    assert!(wait.poll().is_ready());
    assert_eq!(NextStep::Item(Message(5)), rx.next());
}

#[test]
fn a_full_queue_hands_the_item_of_a_waiting_send_back() {
    // Items without events need no permits, so they can fill the queue.
    let (mut tx, mut rx) = limited(1);
    assert_eq!(TrySendStep::Sent, tx.try_send(MultiEventRecord(0)));
    let pending = tx.start_send(MultiEventRecord(1));
    assert_eq!(1, pending.permits);
    let limiter = tx.limiter();
    let mut wait = spawn(limiter.acquire_many_owned(pending.permits));
    let acquired = match wait.poll() {
        Poll::Ready(acquired) => acquired,
        Poll::Pending => panic!("the permit is available"),
    };
    drop(wait);
    assert_eq!(SendStep::Overflow(MultiEventRecord(1)), tx.send(pending, acquired));
    // The permit has gone back.
    assert_eq!(1, tx.available_capacity());
    assert_eq!(NextStep::Item(MultiEventRecord(0)), rx.next());
    assert_eq!(NextStep::Wait, rx.next());
}

#[test]
fn senders_in_many_tasks_lose_nothing() {
    let runtime = tokio::runtime::Builder::new_current_thread().build().unwrap();
    runtime.block_on(async {
        let (tx, mut rx) = limited(5);
        for _ in 0..4 {
            let mut tx = tx.clone();
            tokio::spawn(async move {
                for count in 1..=50 {
                    assert_eq!(Ok(()), send(&mut tx, MultiEventRecord(1 + count % 7)).await);
                }
                tx.disconnect();
            });
        }
        tx.disconnect();
        let mut received = 0;
        while let Some(item) = next(&mut rx).await {
            assert!(1 <= item.0 && item.0 <= 7);
            received += 1;
        }
        assert_eq!(200, received);
        assert_eq!(5, rx.available_capacity());
    });
}

#[test]
fn a_send_with_other_permits_than_it_asked_for_is_handed_back() {
    let (mut tx, mut rx) = limited(4);
    let pending = tx.start_send(MultiEventRecord(3));
    let permit = tx.limiter().try_acquire_many_owned(2).unwrap();
    let (pending, permit) = match tx.send_checked(pending, Ok(permit)) {
        Err(back) => back,
        Ok(step) => panic!("ended with {step:?}"),
    };
    assert_eq!(MultiEventRecord(3), pending.item);
    assert_eq!(3, pending.permits);
    assert_eq!(2, permit.num_permits());
    assert_eq!(NextStep::Wait, rx.next());
    drop(permit);

    let permit = tx.limiter().try_acquire_many_owned(3).unwrap();
    match tx.send_checked(pending, Ok(permit)) {
        Ok(step) => assert_eq!(SendStep::Sent, step),
        Err(_) => panic!("the permits are as many as the send asked for"),
    }
    assert_eq!(1, tx.available_capacity());
    assert_eq!(NextStep::Item(MultiEventRecord(3)), rx.next());
}

#[test]
fn a_checked_send_is_disconnected_too() {
    let (mut tx, rx) = limited(4);
    let pending = tx.start_send(MultiEventRecord(1));
    rx.disconnect();
    let acquired = match spawn(tx.limiter().acquire_many_owned(pending.permits)).poll() {
        Poll::Ready(acquired) => acquired,
        Poll::Pending => panic!("a closed semaphore does not let wait"),
    };
    match tx.send_checked(pending, acquired) {
        Ok(step) => assert_eq!(SendStep::Disconnected(SendError(MultiEventRecord(1))), step),
        Err(_) => panic!("there were no permits to compare"),
    }
}

#[test]
fn a_send_waits_exactly_when_an_attempt_lacks_capacity() {
    for count in 0..=6 {
        // Of two channels alike, one is sent into, the other one attempted.
        let (mut tx, _rx) = limited(4);
        let (mut other, _other_rx) = limited(4);
        assert_eq!(TrySendStep::Sent, tx.try_send(MultiEventRecord(1)));
        assert_eq!(TrySendStep::Sent, other.try_send(MultiEventRecord(1)));
        let polled = spawn(send(&mut tx, MultiEventRecord(count))).poll();
        match other.try_send(MultiEventRecord(count)) {
            TrySendStep::Sent => assert_eq!(Poll::Ready(Ok(())), polled),
            TrySendStep::Refused(error) => {
                assert_eq!(TrySendError::InsufficientCapacity(MultiEventRecord(count)), error);
                assert_eq!(Poll::Pending, polled);
            }
            TrySendStep::Overflow(_) => panic!("the queue has room"),
        }
        assert_eq!(other.available_capacity(), tx.available_capacity());
    }
}

#[test]
fn an_oversized_send_gets_its_permits_once_all_else_is_out() {
    let (mut tx, mut rx) = limited(3);
    for _ in 0..3 {
        assert_eq!(TrySendStep::Sent, tx.try_send(MultiEventRecord(1)));
    }
    let mut waiting = spawn(send(&mut tx, MultiEventRecord(1000)));
    for _ in 0..3 {
        assert!(waiting.poll().is_pending());
        assert_eq!(NextStep::Item(MultiEventRecord(1)), rx.next());
    }
    assert_eq!(Poll::Ready(Ok(())), waiting.poll());
    drop(waiting);
    assert_eq!(0, tx.available_capacity());
    assert_eq!(NextStep::Item(MultiEventRecord(1000)), rx.next());
    assert_eq!(3, tx.available_capacity());
}

#[test]
fn nothing_is_at_hand_while_a_send_waits() {
    let (mut tx, mut rx) = limited(5);
    let mut other = tx.clone();
    for count in [1, 1, 3] {
        assert_eq!(TrySendStep::Sent, tx.try_send(MultiEventRecord(count)));
    }
    let mut waiting = spawn(send(&mut tx, MultiEventRecord(4)));
    assert!(waiting.poll().is_pending());

    // What is freed goes to the send that waits, and to no other one.
    for _ in 0..2 {
        assert_eq!(NextStep::Item(MultiEventRecord(1)), rx.next());
        assert_eq!((0, 0), (rx.available_capacity(), other.available_capacity()));
        assert!(!waiting.is_woken());
        assert_eq!(
            TrySendStep::Refused(TrySendError::InsufficientCapacity(MultiEventRecord(1))),
            other.try_send(MultiEventRecord(1))
        );
    }

    // The rest is more than it lacks: what is left is at hand again.
    assert_eq!(NextStep::Item(MultiEventRecord(3)), rx.next());
    assert_eq!((1, 1), (rx.available_capacity(), other.available_capacity()));
    assert!(waiting.is_woken());
    assert_eq!(Poll::Ready(Ok(())), waiting.poll());
    assert_eq!(NextStep::Item(MultiEventRecord(4)), rx.next());
    assert_eq!(5, rx.available_capacity());
}

#[test]
fn sends_that_wait_are_served_in_turn() {
    let (mut tx, mut rx) = limited(3);
    let mut second = tx.clone();
    let mut third = tx.clone();
    assert_eq!(TrySendStep::Sent, tx.try_send(MultiEventRecord(3)));
    let mut first_send = spawn(send(&mut second, MultiEventRecord(2)));
    assert!(first_send.poll().is_pending());
    let mut second_send = spawn(send(&mut third, MultiEventRecord(2)));
    assert!(second_send.poll().is_pending());

    // Three permits come back: two for the first send, one towards the second.
    assert_eq!(NextStep::Item(MultiEventRecord(3)), rx.next());
    assert!(first_send.is_woken());
    assert!(!second_send.is_woken());
    assert_eq!(0, rx.available_capacity());

    // A send that is given up passes its permits on.
    drop(first_send);
    assert!(second_send.is_woken());
    assert_eq!(1, rx.available_capacity());
    assert_eq!(Poll::Ready(Ok(())), second_send.poll());
    assert_eq!(NextStep::Item(MultiEventRecord(2)), rx.next());
}
