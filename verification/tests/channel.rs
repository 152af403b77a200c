use limited_queue::outside::TryAcquired;
use limited_queue::{
    limited, Bufferable, NextStep, SendError, TrySendError, TrySendStep, MAX_PERMITS,
};
use std::sync::Arc;
use tokio::sync::Semaphore;
use tokio_test::task::spawn;

#[derive(Debug, PartialEq)]
struct Record(usize);

impl Bufferable for Record {
    fn event_count(&self) -> usize {
        self.0
    }
}

#[test]
fn a_new_channel_has_its_whole_limit_at_hand() {
    let (tx, rx) = limited::<Record>(12);
    assert_eq!(12, tx.available_capacity());
    assert_eq!(12, rx.available_capacity());
}

#[test]
fn an_item_needs_one_permit_per_event_up_to_the_limit() {
    let (tx, _rx) = limited::<Record>(10);
    assert_eq!(0, tx.get_required_permits_for_item(&Record(0)));
    assert_eq!(1, tx.get_required_permits_for_item(&Record(1)));
    assert_eq!(9, tx.get_required_permits_for_item(&Record(9)));
    assert_eq!(10, tx.get_required_permits_for_item(&Record(10)));
    assert_eq!(10, tx.get_required_permits_for_item(&Record(11)));
    assert_eq!(10, tx.get_required_permits_for_item(&Record(usize::MAX)));
}

#[test]
fn a_pending_send_carries_its_item_and_its_permits() {
    let (tx, _rx) = limited(5);
    let pending = tx.start_send(Record(3));
    assert_eq!(Record(3), pending.item);
    assert_eq!(3, pending.permits);
    assert_eq!(5, tx.start_send(Record(8)).permits);
}

#[test]
fn items_come_out_in_the_order_in_which_they_went_in() {
    let (mut tx, mut rx) = limited(6);
    let mut other = tx.clone();
    assert_eq!(TrySendStep::Sent, tx.try_send(Record(1)));
    assert_eq!(TrySendStep::Sent, other.try_send(Record(3)));
    assert_eq!(TrySendStep::Sent, tx.try_send(Record(2)));
    assert_eq!(NextStep::Item(Record(1)), rx.next());
    assert_eq!(NextStep::Item(Record(3)), rx.next());
    assert_eq!(NextStep::Item(Record(2)), rx.next());
    assert_eq!(NextStep::Wait, rx.next());
}

#[test]
fn a_send_takes_capacity_and_a_receive_gives_it_back() {
    let (mut tx, mut rx) = limited(7);
    assert_eq!(TrySendStep::Sent, tx.try_send(Record(4)));
    assert_eq!(3, tx.available_capacity());
    assert_eq!(TrySendStep::Sent, tx.try_send(Record(3)));
    assert_eq!(0, rx.available_capacity());
    assert_eq!(NextStep::Item(Record(4)), rx.next());
    assert_eq!(4, tx.available_capacity());
    assert_eq!(NextStep::Item(Record(3)), rx.next());
    assert_eq!(7, tx.available_capacity());
}

#[test]
fn an_item_that_does_not_fit_is_handed_back() {
    let (mut tx, mut rx) = limited(3);
    assert_eq!(TrySendStep::Sent, tx.try_send(Record(2)));
    assert_eq!(
        TrySendStep::Refused(TrySendError::InsufficientCapacity(Record(2))),
        tx.try_send(Record(2))
    );
    // The refusal has changed nothing.
    assert_eq!(1, tx.available_capacity());
    assert_eq!(TrySendStep::Sent, tx.try_send(Record(1)));
    assert_eq!(NextStep::Item(Record(2)), rx.next());
    assert_eq!(NextStep::Item(Record(1)), rx.next());
}

#[test]
fn an_oversized_item_needs_the_whole_channel() {
    let (mut tx, mut rx) = limited(2);
    assert_eq!(TrySendStep::Sent, tx.try_send(Record(1)));
    assert_eq!(
        TrySendStep::Refused(TrySendError::InsufficientCapacity(Record(9))),
        tx.try_send(Record(9))
    );
    assert_eq!(NextStep::Item(Record(1)), rx.next());
    assert_eq!(TrySendStep::Sent, tx.try_send(Record(9)));
    assert_eq!(0, tx.available_capacity());
    assert_eq!(NextStep::Item(Record(9)), rx.next());
    assert_eq!(2, tx.available_capacity());
}

#[test]
fn no_send_succeeds_without_a_receiver() {
    let (mut tx, rx) = limited(2);
    assert_eq!(TrySendStep::Sent, tx.try_send(Record(1)));
    rx.disconnect();
    assert_eq!(
        TrySendStep::Refused(TrySendError::Disconnected(Record(1))),
        tx.try_send(Record(1))
    );
    assert_eq!(
        TrySendStep::Refused(TrySendError::Disconnected(Record(0))),
        tx.clone().try_send(Record(0))
    );
}

#[test]
fn only_the_last_sender_closes_the_channel() {
    let (tx, mut rx) = limited(2);
    let mut second = tx.clone();
    let third = second.clone();
    tx.disconnect();
    assert_eq!(NextStep::Wait, rx.next());
    third.disconnect();
    assert_eq!(NextStep::Wait, rx.next());
    assert_eq!(TrySendStep::Sent, second.try_send(Record(1)));
    second.disconnect();
    // What was sent still comes out, then the end.
    assert_eq!(NextStep::Item(Record(1)), rx.next());
    assert_eq!(NextStep::Closed, rx.next());
    assert_eq!(NextStep::Closed, rx.next());
}

#[test]
fn the_answer_of_the_semaphore_decides_an_attempt() {
    let (mut tx, mut rx) = limited(4);
    assert_eq!(
        TrySendStep::Refused(TrySendError::InsufficientCapacity(Record(1))),
        tx.finish_try_send(Record(1), TryAcquired::NoPermits)
    );
    assert_eq!(
        TrySendStep::Refused(TrySendError::Disconnected(Record(2))),
        tx.finish_try_send(Record(2), TryAcquired::Closed)
    );
    assert_eq!(NextStep::Wait, rx.next());

    let semaphore = Arc::new(Semaphore::new(3));
    let permit = semaphore.clone().try_acquire_many_owned(3).unwrap();
    assert_eq!(TrySendStep::Sent, tx.finish_try_send(Record(3), TryAcquired::Granted(permit)));
    // The permit stays with the item until it comes out.
    assert_eq!(0, semaphore.available_permits());
    assert_eq!(NextStep::Item(Record(3)), rx.next());
    assert_eq!(3, semaphore.available_permits());
}

#[test]
fn a_full_queue_hands_the_item_of_an_attempt_back() {
    // Items without events need no permits, so they can fill the queue.
    let (mut tx, mut rx) = limited(2);
    assert_eq!(TrySendStep::Sent, tx.try_send(Record(0)));
    assert_eq!(TrySendStep::Sent, tx.try_send(Record(0)));
    assert_eq!(TrySendStep::Overflow(Record(1)), tx.try_send(Record(1)));
    assert_eq!(TrySendStep::Overflow(Record(0)), tx.try_send(Record(0)));
    // The permit has gone back.
    assert_eq!(2, tx.available_capacity());
    assert_eq!(NextStep::Item(Record(0)), rx.next());
    assert_eq!(TrySendStep::Sent, tx.try_send(Record(1)));
    assert_eq!(1, tx.available_capacity());
}

#[test]
fn the_queue_has_room_for_as_many_items_as_the_limit() {
    let (mut tx, mut rx) = limited(100);
    for _ in 0..100 {
        assert_eq!(TrySendStep::Sent, tx.try_send(Record(1)));
    }
    assert_eq!(
        TrySendStep::Refused(TrySendError::InsufficientCapacity(Record(1))),
        tx.try_send(Record(1))
    );
    for _ in 0..100 {
        assert_eq!(NextStep::Item(Record(1)), rx.next());
    }
    assert_eq!(NextStep::Wait, rx.next());
    assert_eq!(100, rx.available_capacity());
}

#[test]
fn the_limit_is_bounded_by_what_a_semaphore_holds() {
    assert_eq!(MAX_PERMITS, Semaphore::MAX_PERMITS);
}

#[test]
fn errors_give_their_item_back() {
    assert_eq!(7, TrySendError::InsufficientCapacity(7).into_inner());
    assert_eq!(8, TrySendError::Disconnected(8).into_inner());
    assert_eq!(9, SendError(9).0);
}

#[test]
fn errors_describe_themselves() {
    assert_eq!("receiver disconnected", SendError(1).message());
    assert_eq!("receiver disconnected", TrySendError::Disconnected(1).message());
    assert_eq!(
        "channel lacks sufficient capacity for send",
        TrySendError::InsufficientCapacity(1).message()
    );
}

#[test]
fn the_answer_of_the_queue_decides_a_delivery() {
    let (mut tx, rx) = limited(2);
    let waker = rx.read_waker();
    let semaphore = Arc::new(Semaphore::new(4));

    // What the queue handed back goes back, and the receiver is not woken.
    let permit = semaphore.clone().try_acquire_many_owned(3).unwrap();
    assert_eq!(1, semaphore.available_permits());
    assert_eq!(Err(Record(3)), tx.finish_push(Err((permit, Record(3)))));
    assert_eq!(4, semaphore.available_permits());
    assert!(spawn(waker.notified()).poll().is_pending());

    assert_eq!(Ok(()), tx.finish_push(Ok(())));
    assert!(spawn(waker.notified()).poll().is_ready());
}

#[test]
fn the_answers_of_a_look_decide_what_comes_next() {
    assert_eq!(NextStep::Item(4), NextStep::after_look(Some(4), false));
    assert_eq!(NextStep::Item(5), NextStep::after_look(Some(5), true));
    assert_eq!(NextStep::Closed, NextStep::<u8>::after_look(None, true));
    assert_eq!(NextStep::Wait, NextStep::<u8>::after_look(None, false));
}

#[test]
fn what_is_at_hand_is_what_fits() {
    let (mut tx, mut rx) = limited(5);
    assert_eq!(TrySendStep::Sent, tx.try_send(Record(3)));
    assert_eq!(2, tx.available_capacity());
    assert_eq!(TrySendStep::Sent, tx.try_send(Record(1)));
    assert_eq!(TrySendStep::Sent, tx.try_send(Record(1)));
    assert_eq!(
        TrySendStep::Refused(TrySendError::InsufficientCapacity(Record(1))),
        tx.try_send(Record(1))
    );
    // Each item gives back as many permits as it took.
    assert_eq!(NextStep::Item(Record(3)), rx.next());
    assert_eq!(3, rx.available_capacity());
    assert_eq!(NextStep::Item(Record(1)), rx.next());
    assert_eq!(4, rx.available_capacity());
    assert_eq!(NextStep::Item(Record(1)), rx.next());
    assert_eq!(5, rx.available_capacity());
}

#[test]
fn all_handles_of_a_channel_read_the_same_capacity() {
    let (mut tx, mut rx) = limited(9);
    let mut other = tx.clone();
    assert_eq!(TrySendStep::Sent, other.try_send(Record(4)));
    assert_eq!(
        (5, 5, 5),
        (tx.available_capacity(), other.available_capacity(), rx.available_capacity())
    );
    assert_eq!(TrySendStep::Sent, tx.try_send(Record(5)));
    assert_eq!(
        (0, 0, 0),
        (tx.available_capacity(), other.available_capacity(), rx.available_capacity())
    );
    // Either sender gets the answer that the other one would get.
    assert_eq!(
        TrySendStep::Refused(TrySendError::InsufficientCapacity(Record(1))),
        tx.try_send(Record(1))
    );
    assert_eq!(
        TrySendStep::Refused(TrySendError::InsufficientCapacity(Record(1))),
        other.try_send(Record(1))
    );
    assert_eq!(NextStep::Item(Record(4)), rx.next());
    assert_eq!(
        (4, 4, 4),
        (tx.available_capacity(), other.available_capacity(), rx.available_capacity())
    );
}

#[test]
fn two_channels_share_nothing() {
    let (mut tx, rx) = limited(3);
    let (mut other_tx, mut other_rx) = limited(3);
    assert_eq!(TrySendStep::Sent, tx.try_send(Record(3)));
    assert_eq!(3, other_tx.available_capacity());
    assert_eq!(NextStep::Wait, other_rx.next());
    rx.disconnect();
    assert_eq!(
        TrySendStep::Refused(TrySendError::Disconnected(Record(1))),
        tx.try_send(Record(1))
    );
    assert_eq!(TrySendStep::Sent, other_tx.try_send(Record(2)));
    assert_eq!(NextStep::Item(Record(2)), other_rx.next());
}

#[test]
fn a_handle_shows_what_it_shares() {
    let (tx, rx) = limited::<Record>(6);
    let other = tx.clone();
    assert_eq!(2, tx.senders());
    assert_eq!(2, other.senders());
    other.disconnect();
    assert_eq!(1, tx.senders());
    let shown = format!("{:?}", tx.shared());
    assert!(shown.starts_with("Inner { data: ") && shown.contains("limit: 6"));
    assert_eq!(shown, format!("{:?}", rx.shared()));
}
