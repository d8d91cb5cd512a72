//! What the task-based driver sets up before it starts its tasks: the two
//! bounded channels of tokio that serve as the forward and the backward
//! queue.

use crate::support::resolved_workers;
use tokio::sync::mpsc::{Receiver, Sender};
use vstd::prelude::*;

verus! {

/// The sending end of a bounded channel of tokio. Its content is not
/// modelled: the library creates it and hands it on.
#[verifier::external_type_specification]
#[verifier::external_body]
#[verifier::reject_recursive_types(T)]
pub struct ExSender<T>(Sender<T>);

/// The receiving end of a bounded channel of tokio. Its content is not
/// modelled: the library creates it and hands it on.
#[verifier::external_type_specification]
#[verifier::external_body]
#[verifier::reject_recursive_types(T)]
pub struct ExReceiver<T>(Receiver<T>);

/// The largest capacity that a bounded channel of tokio can be made with:
/// the most permits that its semaphore holds.
pub const MAXIMUM_CAPACITY: usize = usize::MAX >> 3;

/// Calls `tokio::sync::mpsc::channel`, which panics where the capacity is
/// zero or above the most permits of a semaphore, and makes a channel
/// otherwise. Nothing is claimed of the two ends.
#[verifier::external_body]
fn open<T>(capacity: usize) -> (ends: (Sender<T>, Receiver<T>))
    requires
        1 <= capacity <= MAXIMUM_CAPACITY,
{
    tokio::sync::mpsc::channel(capacity)
}

/// The queues of a task-based pipeline and the size of its pool.
#[verifier::reject_recursive_types(Item)]
#[verifier::reject_recursive_types(Output)]
pub struct Channels<Item, Output> {
    /// The number of workers to start.
    pub workers: usize,
    /// The distributor's end of the forward queue.
    pub item_sender: Sender<Item>,
    /// The workers' end of the forward queue, which they share.
    pub item_receiver: Receiver<Item>,
    /// The workers' end of the backward queue, of which each gets a
    /// duplicate.
    pub output_sender: Sender<Output>,
    /// The caller's end of the backward queue.
    pub output_receiver: Receiver<Output>,
}

/// Resolves the size of the pool and makes the two queues, each with the
/// capacity of the pool.
///
/// The pool is resolved as [`crate::support::workers`] says, so it is never
/// empty. There are
/// no queues for a pool larger than [`MAXIMUM_CAPACITY`], because no channel
/// can be that large.
pub fn channels<Item, Output>(workers: Option<usize>, available: Option<usize>) -> (made: Option<
    Channels<Item, Output>,
>)
    ensures
        made is Some <==> resolved_workers(workers, available) <= MAXIMUM_CAPACITY,
        made matches Some(channels) ==> channels.workers == resolved_workers(workers, available),
{
    let count = crate::support::workers(workers, available);
    if count > MAXIMUM_CAPACITY {
        return None;
    }
    let (item_sender, item_receiver) = open::<Item>(count);
    let (output_sender, output_receiver) = open::<Output>(count);
    Some(Channels { workers: count, item_sender, item_receiver, output_sender, output_receiver })
}

} // verus!
