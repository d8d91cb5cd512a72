use std::sync::Arc;

use parallel_loop::asynchronous::{channels, Channels};
use parallel_loop::{distributor, worker};
use tokio::sync::Mutex;

async fn double(value: usize) -> usize {
    2 * value
}

async fn drive(workers: Option<usize>, available: Option<usize>, take: usize) -> Vec<usize> {
    let Channels {
        workers,
        item_sender,
        item_receiver,
        output_sender,
        mut output_receiver,
    } = channels::<usize, usize>(workers, available).unwrap();
    let item_receiver = Arc::new(Mutex::new(item_receiver));
    let mut tasks = Vec::new();
    for _ in 0..workers {
        let item_receiver = item_receiver.clone();
        let output_sender = output_sender.clone();
        tasks.push(tokio::task::spawn(async move {
            let mut action = worker::start::<usize, usize>();
            loop {
                let event = match action {
                    worker::Action::Receive => {
                        let received = {
                            let mut receiver = item_receiver.lock().await;
                            receiver.recv().await
                        };
                        match received {
                            Some(item) => worker::Event::Received(item),
                            None => worker::Event::Drained,
                        }
                    }
                    worker::Action::Apply(item) => worker::Event::Mapped(double(item).await),
                    worker::Action::Send(output) => match output_sender.send(output).await {
                        Ok(()) => worker::Event::Sent,
                        Err(_) => worker::Event::Refused,
                    },
                    worker::Action::Exit => break,
                };
                action = worker::react(event);
            }
        }));
    }
    drop(item_receiver);
    drop(output_sender);
    tasks.push(tokio::task::spawn(async move {
        let mut items = 0..10usize;
        let mut action = distributor::start::<usize>();
        loop {
            let event = match action {
                distributor::Action::Pull => match items.next() {
                    Some(item) => distributor::Event::Pulled(item),
                    None => distributor::Event::Exhausted,
                },
                distributor::Action::Send(item) => match item_sender.send(item).await {
                    Ok(()) => distributor::Event::Sent,
                    Err(_) => distributor::Event::Refused,
                },
                distributor::Action::Exit => break,
            };
            action = distributor::react(event);
        }
    }));
    let mut values = Vec::new();
    while values.len() < take {
        match output_receiver.recv().await {
            Some(value) => values.push(value),
            None => break,
        }
    }
    drop(output_receiver);
    for task in tasks {
        task.await.unwrap();
    }
    values
}

fn run(workers: Option<usize>, available: Option<usize>, take: usize) -> Vec<usize> {
    let runtime = tokio::runtime::Builder::new_current_thread()
        .build()
        .unwrap();
    runtime.block_on(drive(workers, available, take))
}

#[test]
fn asynchronous_parallelize() {
    let mut values = run(None, None, usize::MAX);
    values.sort();
    assert_eq!(values, &[0, 2, 4, 6, 8, 10, 12, 14, 16, 18]);
}

#[test]
fn tasks_of_a_larger_pool_yield_every_result() {
    let mut values = run(Some(4), None, usize::MAX);
    values.sort();
    assert_eq!(values, &[0, 2, 4, 6, 8, 10, 12, 14, 16, 18]);
    let mut values = run(None, Some(3), usize::MAX);
    values.sort();
    assert_eq!(values, &[0, 2, 4, 6, 8, 10, 12, 14, 16, 18]);
}

#[test]
fn tasks_stop_when_the_caller_leaves_early() {
    let values = run(Some(2), None, 3);
    assert_eq!(values.len(), 3);
    let values = run(Some(2), None, 0);
    assert_eq!(values.len(), 0);
}
