//! The decisions of one worker of the pool.
//!
//! A worker alternates between queue operations and the mapping, none of
//! which it performs itself: it names the next [`Action`], whoever drives it
//! performs that action and reports back with an [`Event`].

use vstd::prelude::*;

verus! {

/// What a worker asks its driver to do next.
pub enum Action<Item, Output> {
    /// Take one item from the forward queue, holding exclusive access to its
    /// receiving end for the duration of the attempt only.
    Receive,
    /// Apply the mapping to this item.
    Apply(Item),
    /// Put this result on the backward queue.
    Send(Output),
    /// Stop; the worker is finished.
    Exit,
}

/// What the driver reports after performing an [`Action`].
pub enum Event<Item, Output> {
    /// The forward queue handed over an item.
    Received(Item),
    /// The forward queue is closed and empty.
    Drained,
    /// The mapping produced a result.
    Mapped(Output),
    /// The backward queue took the result.
    Sent,
    /// The backward queue's receiving end is gone.
    Refused,
}

impl<Item, Output> Action<Item, Output> {
    /// The worker has stopped.
    pub open spec fn exited(self) -> bool {
        self is Exit
    }

    /// The worker has an item or a result in hand.
    pub open spec fn holding(self) -> bool {
        self is Apply || self is Send
    }
}

/// The action that follows `event`.
///
/// A received item is mapped and a result is sent on. A delivered result
/// leads to the next receive. Either queue being closed ends the worker: this
/// is the ordinary way to shut down, not a failure.
pub open spec fn reaction<Item, Output>(event: Event<Item, Output>) -> Action<Item, Output> {
    match event {
        Event::Received(item) => Action::Apply(item),
        Event::Drained => Action::Exit,
        Event::Mapped(output) => Action::Send(output),
        Event::Sent => Action::Receive,
        Event::Refused => Action::Exit,
    }
}

/// The first action of a worker: it asks for an item.
pub fn start<Item, Output>() -> (action: Action<Item, Output>)
    ensures
        action is Receive,
{
    Action::Receive
}

/// Decides what a worker does after `event`.
pub fn react<Item, Output>(event: Event<Item, Output>) -> (action: Action<Item, Output>)
    ensures
        action == reaction(event),
{
    match event {
        Event::Received(item) => Action::Apply(item),
        Event::Drained => Action::Exit,
        Event::Mapped(output) => Action::Send(output),
        Event::Sent => Action::Receive,
        Event::Refused => Action::Exit,
    }
}

} // verus!
