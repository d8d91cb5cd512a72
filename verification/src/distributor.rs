//! The decisions of the distributor.
//!
//! The distributor drains the input, in the caller's order, into the forward
//! queue. Like a worker it only names the next [`Action`]; its driver pulls
//! from the input, sends, and reports back with an [`Event`].

use vstd::prelude::*;

verus! {

/// What the distributor asks its driver to do next.
pub enum Action<Item> {
    /// Take the next item of the input.
    Pull,
    /// Put this item on the forward queue.
    Send(Item),
    /// Stop; the distributor is finished.
    Exit,
}

/// What the driver reports after performing an [`Action`].
pub enum Event<Item> {
    /// The input yielded its next item.
    Pulled(Item),
    /// The input is exhausted.
    Exhausted,
    /// The forward queue took the item.
    Sent,
    /// The forward queue's receiving end is gone: every worker has stopped.
    Refused,
}

impl<Item> Action<Item> {
    /// The distributor has stopped.
    pub open spec fn exited(self) -> bool {
        self is Exit
    }
}

/// The action that follows `event`.
///
/// Every pulled item is sent, every accepted send leads to the next pull.
/// The distributor stops when the input runs out, and as soon as a send is
/// refused: the latter is the ordinary shutdown signal, and the item that
/// could not be sent is given up without a retry.
pub open spec fn reaction<Item>(event: Event<Item>) -> Action<Item> {
    match event {
        Event::Pulled(item) => Action::Send(item),
        Event::Exhausted => Action::Exit,
        Event::Sent => Action::Pull,
        Event::Refused => Action::Exit,
    }
}

/// The first action of the distributor: it asks for the first item.
pub fn start<Item>() -> (action: Action<Item>)
    ensures
        action is Pull,
{
    Action::Pull
}

/// Decides what the distributor does after `event`.
pub fn react<Item>(event: Event<Item>) -> (action: Action<Item>)
    ensures
        action == reaction(event),
{
    match event {
        Event::Pulled(item) => Action::Send(item),
        Event::Exhausted => Action::Exit,
        Event::Sent => Action::Pull,
        Event::Refused => Action::Exit,
    }
}

} // verus!
