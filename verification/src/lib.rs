//! A bounded parallel map operator.
//!
//! A distributor feeds the caller's items, one at a time, into a bounded
//! forward queue; the workers of a pool take them from there, map them, and
//! put the results on a bounded backward queue, from which the caller takes
//! them, in no promised order.
//!
//! - [`support`] resolves the size of the pool.
//! - [`worker`] and [`distributor`] hold the decisions of the participants,
//!   for any driver that performs the queue operations and the mapping.
//! - [`queue`] is the bounded mailbox with an open or closed state on each
//!   side.
//! - [`model`] is the pipeline as a transition system; [`safety`],
//!   [`progress`] and [`laws`] prove what holds of it, with [`tally`]
//!   counting over the pool.
//! - [`pipeline`] runs that system, step by step, on the caller's thread,
//!   and [`synchronous`] sets it up.
//! - [`asynchronous`] makes the queues of a driver whose participants are
//!   tasks.

pub mod asynchronous;
pub mod distributor;
pub mod laws;
pub mod model;
pub mod pipeline;
pub mod progress;
pub mod queue;
pub mod safety;
pub mod support;
pub mod synchronous;
pub mod tally;
pub mod worker;

pub use synchronous::parallelize;
