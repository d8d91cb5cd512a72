use parallel_loop::distributor;
use parallel_loop::parallelize;
use parallel_loop::queue::{Queue, Receiving, Sending};
use parallel_loop::worker;

fn double(value: usize, _context: ()) -> usize {
    2 * value
}

#[test]
fn queue_is_first_in_first_out() {
    let mut queue: Queue<u32> = Queue::new(3, 1, 1);
    assert!(matches!(queue.send(10), Sending::Accepted));
    assert!(matches!(queue.send(20), Sending::Accepted));
    assert!(matches!(queue.send(30), Sending::Accepted));
    assert_eq!(queue.len(), 3);
    assert!(matches!(queue.receive(), Receiving::Item(10)));
    assert!(matches!(queue.receive(), Receiving::Item(20)));
    assert!(matches!(queue.receive(), Receiving::Item(30)));
    assert!(matches!(queue.receive(), Receiving::Empty));
    assert_eq!(queue.len(), 0);
}

#[test]
fn queue_hands_back_what_does_not_fit() {
    let mut queue: Queue<u32> = Queue::new(1, 1, 1);
    assert_eq!(queue.capacity(), 1);
    assert!(matches!(queue.send(1), Sending::Accepted));
    assert!(matches!(queue.send(2), Sending::Full(2)));
    assert_eq!(queue.len(), 1);
    assert!(matches!(queue.receive(), Receiving::Item(1)));
    assert!(matches!(queue.send(2), Sending::Accepted));
}

#[test]
fn queue_without_capacity_is_always_full() {
    let mut queue: Queue<u32> = Queue::new(0, 1, 1);
    assert!(matches!(queue.send(1), Sending::Full(1)));
    assert!(matches!(queue.receive(), Receiving::Empty));
}

#[test]
fn queue_refuses_once_nobody_receives() {
    let mut queue: Queue<u32> = Queue::new(2, 1, 2);
    queue.drop_receiver();
    assert_eq!(queue.receivers(), 1);
    assert!(matches!(queue.send(1), Sending::Accepted));
    queue.drop_receiver();
    assert_eq!(queue.receivers(), 0);
    assert!(matches!(queue.send(2), Sending::Closed(2)));
    queue.drop_receiver();
    assert_eq!(queue.receivers(), 0);
    assert_eq!(queue.len(), 1);
}

#[test]
fn queue_drains_before_it_reports_closed() {
    let mut queue: Queue<u32> = Queue::new(2, 1, 1);
    assert!(matches!(queue.send(1), Sending::Accepted));
    queue.drop_sender();
    assert_eq!(queue.senders(), 0);
    assert!(matches!(queue.receive(), Receiving::Item(1)));
    assert!(matches!(queue.receive(), Receiving::Closed));
    queue.drop_sender();
    assert_eq!(queue.senders(), 0);
}

#[test]
fn worker_follows_its_events() {
    assert!(matches!(worker::start::<u8, u16>(), worker::Action::Receive));
    assert!(matches!(
        worker::react::<u8, u16>(worker::Event::Received(4)),
        worker::Action::Apply(4)
    ));
    assert!(matches!(
        worker::react::<u8, u16>(worker::Event::Mapped(8)),
        worker::Action::Send(8)
    ));
    assert!(matches!(worker::react::<u8, u16>(worker::Event::Sent), worker::Action::Receive));
    assert!(matches!(worker::react::<u8, u16>(worker::Event::Drained), worker::Action::Exit));
    assert!(matches!(worker::react::<u8, u16>(worker::Event::Refused), worker::Action::Exit));
}

#[test]
fn distributor_follows_its_events() {
    assert!(matches!(distributor::start::<u8>(), distributor::Action::Pull));
    assert!(matches!(
        distributor::react(distributor::Event::Pulled(4u8)),
        distributor::Action::Send(4)
    ));
    assert!(matches!(
        distributor::react::<u8>(distributor::Event::Sent),
        distributor::Action::Pull
    ));
    assert!(matches!(
        distributor::react::<u8>(distributor::Event::Exhausted),
        distributor::Action::Exit
    ));
    assert!(matches!(
        distributor::react::<u8>(distributor::Event::Refused),
        distributor::Action::Exit
    ));
}

#[test]
fn one_item_walks_through_every_stage() {
    let mut pipeline = parallelize(vec![21usize], double, (), Some(1), None);
    assert!(!pipeline.step_worker(0));
    assert!(pipeline.take().is_none());
    assert!(pipeline.step_distributor());
    assert_eq!(pipeline.pending(), 0);
    assert_eq!(pipeline.queued(), 0);
    assert!(pipeline.step_distributor());
    assert_eq!(pipeline.queued(), 1);
    assert!(pipeline.step_worker(0));
    assert_eq!(pipeline.queued(), 0);
    assert!(pipeline.step_worker(0));
    assert_eq!(pipeline.ready(), 0);
    assert!(pipeline.step_worker(0));
    assert_eq!(pipeline.ready(), 1);
    assert!(!pipeline.step_worker(0));
    assert!(pipeline.step_distributor());
    assert!(!pipeline.step_distributor());
    assert!(pipeline.step_worker(0));
    assert!(!pipeline.step_worker(0));
    assert_eq!(pipeline.live(), 0);
    assert!(pipeline.is_terminated());
    assert_eq!(pipeline.take(), Some(42));
    assert_eq!(pipeline.take(), None);
    assert_eq!(pipeline.next(), None);
}

#[test]
fn distributor_waits_at_a_full_queue() {
    let mut pipeline = parallelize((0..10).collect(), double, (), Some(2), None);
    let mut moves = 0;
    while pipeline.step_distributor() {
        moves += 1;
        assert!(pipeline.queued() <= pipeline.capacity());
    }
    assert_eq!(moves, 5);
    assert_eq!(pipeline.queued(), 2);
    assert_eq!(pipeline.pending(), 7);
    assert!(!pipeline.step_distributor());
    assert!(pipeline.step_worker(1));
    assert_eq!(pipeline.queued(), 1);
    assert!(pipeline.step_distributor());
    assert_eq!(pipeline.queued(), 2);
    assert_eq!(pipeline.pending(), 7);
}

#[test]
fn workers_wait_at_a_full_backward_queue() {
    let mut pipeline = parallelize((0..10).collect(), double, (), Some(1), None);
    for _ in 0..50 {
        pipeline.round();
        assert!(pipeline.queued() <= 1);
        assert!(pipeline.ready() <= 1);
    }
    assert!(!pipeline.round());
    assert_eq!(pipeline.ready(), 1);
    assert_eq!(pipeline.queued(), 1);
    assert_eq!(pipeline.pending(), 6);
    assert_eq!(pipeline.take(), Some(0));
    assert!(pipeline.round());
}

#[test]
fn distributor_stays_within_reach_of_the_caller() {
    let pool = 3;
    let mut pipeline = parallelize((0..100).collect(), double, (), Some(pool), None);
    let mut taken = 0;
    loop {
        while pipeline.round() {
            let pulled = 100 - pipeline.pending();
            assert!(pipeline.queued() <= pool);
            assert!(pipeline.ready() <= pool);
            assert!(pulled <= taken + 3 * pool + 1);
        }
        match pipeline.take() {
            Some(_) => taken += 1,
            None => break,
        }
    }
    assert_eq!(taken, 100);
    assert!(pipeline.is_terminated());
}

#[test]
fn any_schedule_yields_every_result() {
    let mut pipeline = parallelize((0..10).collect(), double, (), Some(3), None);
    let mut values = Vec::new();
    let mut turn = 0usize;
    while !(pipeline.is_terminated() && pipeline.ready() == 0) {
        match turn % 7 {
            0 | 3 => {
                pipeline.step_distributor();
            }
            1 => {
                pipeline.step_worker(2);
            }
            2 | 5 => {
                pipeline.step_worker(0);
            }
            4 => {
                pipeline.step_worker(1);
            }
            _ => {
                if let Some(value) = pipeline.take() {
                    values.push(value);
                }
            }
        }
        turn += 1;
        assert!(turn < 10_000);
    }
    assert_eq!(values.len(), 10);
    values.sort();
    assert_eq!(values, vec![0, 2, 4, 6, 8, 10, 12, 14, 16, 18]);
}

#[test]
fn abandoning_stops_everybody() {
    let mut pipeline = parallelize((0..1000).collect(), double, (), Some(4), None);
    let mut values = Vec::new();
    for _ in 0..3 {
        values.push(pipeline.next().unwrap());
    }
    assert!(!pipeline.is_terminated());
    pipeline.abandon();
    assert!(pipeline.is_abandoned());
    assert!(pipeline.is_terminated());
    assert_eq!(pipeline.live(), 0);
    assert!(pipeline.pending() > 900);
    assert!(pipeline.next().is_none());
    assert!(pipeline.take().is_none());
    assert_eq!(pipeline.collect(), Vec::<usize>::new());
    assert!(!pipeline.round());
    assert_eq!(values.len(), 3);
}

#[test]
fn abandoning_before_the_start_stops_everybody() {
    let mut pipeline = parallelize((0..10).collect(), double, (), Some(2), None);
    pipeline.abandon();
    assert!(pipeline.is_terminated());
    assert!(pipeline.next().is_none());
    pipeline.abandon();
    assert!(pipeline.is_terminated());
}

#[test]
fn abandoning_winds_down_within_its_bound() {
    let pool = 4usize;
    let mut pipeline = parallelize((0..1000).collect(), double, (), Some(pool), None);
    assert!(pipeline.next().is_some());
    let before = pipeline.pending();
    pipeline.abandon();
    let pulled = before - pipeline.pending();
    assert!(pulled <= 2 * pool + 1);
}
