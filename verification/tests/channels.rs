use parallel_loop::asynchronous::{channels, MAXIMUM_CAPACITY};
use tokio::sync::mpsc::error::{TryRecvError, TrySendError};

#[test]
fn channels_have_the_capacity_of_the_pool() {
    let made = channels::<u8, u16>(Some(3), Some(8)).unwrap();
    assert_eq!(made.workers, 3);
    assert_eq!(made.item_sender.max_capacity(), 3);
    assert_eq!(made.output_sender.max_capacity(), 3);
    assert_eq!(made.item_receiver.max_capacity(), 3);
    assert_eq!(made.output_receiver.max_capacity(), 3);
}

#[test]
fn channels_follow_the_platform_without_a_request() {
    let made = channels::<u8, u16>(None, Some(5)).unwrap();
    assert_eq!(made.workers, 5);
    assert_eq!(made.item_sender.max_capacity(), 5);
    let made = channels::<u8, u16>(None, None).unwrap();
    assert_eq!(made.workers, 1);
    assert_eq!(made.output_sender.max_capacity(), 1);
}

#[test]
fn channels_of_an_empty_request_hold_one() {
    let mut made = channels::<u8, u16>(Some(0), None).unwrap();
    assert_eq!(made.workers, 1);
    assert!(made.item_sender.try_send(7).is_ok());
    assert!(matches!(made.item_sender.try_send(8), Err(TrySendError::Full(8))));
    assert_eq!(made.item_receiver.try_recv(), Ok(7));
    assert_eq!(made.item_receiver.try_recv(), Err(TryRecvError::Empty));
}

#[test]
fn channels_are_two_separate_queues() {
    let mut made = channels::<u8, u16>(Some(2), None).unwrap();
    assert!(made.item_sender.try_send(1).is_ok());
    assert!(made.output_sender.try_send(100).is_ok());
    assert!(made.output_sender.try_send(200).is_ok());
    assert!(matches!(made.output_sender.try_send(300), Err(TrySendError::Full(300))));
    assert_eq!(made.output_receiver.try_recv(), Ok(100));
    assert_eq!(made.output_receiver.try_recv(), Ok(200));
    assert_eq!(made.item_receiver.try_recv(), Ok(1));
}

#[test]
fn channels_close_with_their_receiver() {
    let made = channels::<u8, u16>(Some(2), None).unwrap();
    drop(made.output_receiver);
    assert!(matches!(made.output_sender.try_send(1), Err(TrySendError::Closed(1))));
}

#[test]
fn channels_stop_at_the_largest_capacity() {
    assert_eq!(MAXIMUM_CAPACITY, usize::MAX >> 3);
    let made = channels::<u8, u16>(Some(MAXIMUM_CAPACITY), None).unwrap();
    assert_eq!(made.workers, MAXIMUM_CAPACITY);
    assert_eq!(made.item_sender.max_capacity(), MAXIMUM_CAPACITY);
    assert!(channels::<u8, u16>(Some(MAXIMUM_CAPACITY + 1), None).is_none());
    assert!(channels::<u8, u16>(Some(usize::MAX), None).is_none());
    assert!(channels::<u8, u16>(None, Some(usize::MAX)).is_none());
}
