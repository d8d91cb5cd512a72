//! Capacity-bounded mailboxes with an explicit open or closed state on each
//! side.

use std::collections::VecDeque;
use vstd::prelude::*;

verus! {

/// The mathematical content of a [`Queue`].
pub struct QueueView<T> {
    /// Pending values, oldest first.
    pub items: Seq<T>,
    /// The most values the queue holds at once.
    pub capacity: nat,
    /// Handles that may still send; the sending side is closed at zero.
    pub senders: nat,
    /// Handles that may still receive; the receiving side is closed at zero.
    pub receivers: nat,
}

/// What became of a value handed to [`Queue::send`].
pub enum Sending<T> {
    /// The value is now pending in the queue.
    Accepted,
    /// The queue is at capacity; a blocking sender would wait. The value
    /// comes back.
    Full(T),
    /// Nobody can receive any more. The value comes back.
    Closed(T),
}

/// What [`Queue::receive`] found.
pub enum Receiving<T> {
    /// The oldest pending value.
    Item(T),
    /// Nothing is pending but a sender is alive; a blocking receiver would
    /// wait.
    Empty,
    /// Nothing is pending and nobody can send any more.
    Closed,
}

impl<T> QueueView<T> {
    /// The queue holds no more than its capacity, and every count fits the
    /// machine.
    pub open spec fn bounded(self) -> bool {
        &&& self.items.len() <= self.capacity
        &&& self.capacity <= usize::MAX
        &&& self.senders <= usize::MAX
        &&& self.receivers <= usize::MAX
    }

    /// No room is left.
    pub open spec fn full(self) -> bool {
        self.items.len() >= self.capacity
    }

    /// No receiving handle is left.
    pub open spec fn receiving_closed(self) -> bool {
        self.receivers == 0
    }

    /// No sending handle is left.
    pub open spec fn sending_closed(self) -> bool {
        self.senders == 0
    }

    /// The answer to sending `value`.
    pub open spec fn send_outcome(self, value: T) -> Sending<T> {
        if self.receiving_closed() {
            Sending::Closed(value)
        } else if self.full() {
            Sending::Full(value)
        } else {
            Sending::Accepted
        }
    }

    /// The queue after `value` was sent: it joins the back when it is
    /// accepted, and nothing changes otherwise.
    pub open spec fn after_send(self, value: T) -> QueueView<T> {
        if self.send_outcome(value) is Accepted {
            QueueView { items: self.items.push(value), ..self }
        } else {
            self
        }
    }

    /// The answer to a receive.
    pub open spec fn receive_outcome(self) -> Receiving<T> {
        if self.items.len() > 0 {
            Receiving::Item(self.items[0])
        } else if self.sending_closed() {
            Receiving::Closed
        } else {
            Receiving::Empty
        }
    }

    /// The queue after a receive: the oldest value, if any, is gone.
    pub open spec fn after_receive(self) -> QueueView<T> {
        if self.items.len() > 0 {
            QueueView { items: self.items.drop_first(), ..self }
        } else {
            self
        }
    }

    /// The queue after one sending handle went away.
    pub open spec fn without_sender(self) -> QueueView<T> {
        QueueView { senders: if self.senders > 0 { (self.senders - 1) as nat } else { 0 }, ..self }
    }

    /// The queue after one receiving handle went away.
    pub open spec fn without_receiver(self) -> QueueView<T> {
        QueueView {
            receivers: if self.receivers > 0 { (self.receivers - 1) as nat } else { 0 },
            ..self
        }
    }
}

/// A first-in first-out mailbox that never holds more than its capacity and
/// that records how many handles remain on each side.
pub struct Queue<T> {
    items: VecDeque<T>,
    capacity: usize,
    senders: usize,
    receivers: usize,
}

impl<T> View for Queue<T> {
    type V = QueueView<T>;

    closed spec fn view(&self) -> QueueView<T> {
        QueueView {
            items: self.items@,
            capacity: self.capacity as nat,
            senders: self.senders as nat,
            receivers: self.receivers as nat,
        }
    }
}

impl<T> Queue<T> {
    /// The queue is valid: it holds no more than its capacity.
    pub open spec fn wf(&self) -> bool {
        self@.bounded()
    }

    /// An empty queue with the given capacity and handle counts.
    pub fn new(capacity: usize, senders: usize, receivers: usize) -> (queue: Queue<T>)
        ensures
            queue@ == (QueueView {
                items: Seq::<T>::empty(),
                capacity: capacity as nat,
                senders: senders as nat,
                receivers: receivers as nat,
            }),
            queue.wf(),
    {
        Queue { items: VecDeque::new(), capacity, senders, receivers }
    }

    /// Offers `value` to the queue without waiting.
    pub fn send(&mut self, value: T) -> (outcome: Sending<T>)
        requires
            old(self).wf(),
        ensures
            outcome == old(self)@.send_outcome(value),
            final(self)@ == old(self)@.after_send(value),
            final(self).wf(),
    {
        if self.receivers == 0 {
            Sending::Closed(value)
        } else if self.items.len() >= self.capacity {
            Sending::Full(value)
        } else {
            self.items.push_back(value);
            Sending::Accepted
        }
    }

    /// Takes the oldest pending value without waiting.
    pub fn receive(&mut self) -> (outcome: Receiving<T>)
        requires
            old(self).wf(),
        ensures
            outcome == old(self)@.receive_outcome(),
            final(self)@ == old(self)@.after_receive(),
            final(self).wf(),
    {
        match self.items.pop_front() {
            Some(value) => Receiving::Item(value),
            None => if self.senders == 0 {
                Receiving::Closed
            } else {
                Receiving::Empty
            },
        }
    }

    /// Gives up one sending handle.
    pub fn drop_sender(&mut self)
        requires
            old(self).wf(),
        ensures
            final(self)@ == old(self)@.without_sender(),
            final(self).wf(),
    {
        if self.senders > 0 {
            self.senders = self.senders - 1;
        }
    }

    /// Gives up one receiving handle.
    pub fn drop_receiver(&mut self)
        requires
            old(self).wf(),
        ensures
            final(self)@ == old(self)@.without_receiver(),
            final(self).wf(),
    {
        if self.receivers > 0 {
            self.receivers = self.receivers - 1;
        }
    }

    /// The number of pending values.
    pub fn len(&self) -> (count: usize)
        ensures
            count == self@.items.len(),
    {
        self.items.len()
    }

    /// The most values the queue holds at once.
    pub fn capacity(&self) -> (count: usize)
        ensures
            count == self@.capacity,
    {
        self.capacity
    }

    /// The number of handles that may still send.
    pub fn senders(&self) -> (count: usize)
        ensures
            count == self@.senders,
    {
        self.senders
    }

    /// The number of handles that may still receive.
    pub fn receivers(&self) -> (count: usize)
        ensures
            count == self@.receivers,
    {
        self.receivers
    }
}

} // verus!
