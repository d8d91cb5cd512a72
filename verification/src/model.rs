//! The pipeline as a transition system.
//!
//! A [`State`] records where every submitted item is: still in the input, in
//! the distributor's hand, on the forward queue, in a worker's hand (as an
//! item or as its result), on the backward queue, or with the caller. Each
//! transition is one step of one participant, decided by
//! [`distributor::reaction`] or [`worker::reaction`] from what the queues
//! answer.

use crate::distributor;
use crate::queue::{QueueView, Receiving, Sending};
use crate::tally::{total, Tally};
use crate::worker;
use vstd::prelude::*;

verus! {

/// One moment in the life of a pipeline.
#[verifier::reject_recursive_types(Item)]
#[verifier::reject_recursive_types(Output)]
pub struct State<Item, Output> {
    /// Every item the caller submitted, in the caller's order.
    pub submitted: Seq<Item>,
    /// The results the mapping may produce for an item.
    pub relation: spec_fn(Item, Output) -> bool,
    /// How many items the distributor has taken from the input.
    pub pulled: nat,
    /// What the distributor is about to do.
    pub distributor: distributor::Action<Item>,
    /// The forward queue, from the distributor to the workers.
    pub forward: QueueView<Item>,
    /// How many items the workers have taken from the forward queue.
    pub received: nat,
    /// What each worker is about to do.
    pub workers: Seq<worker::Action<Item, Output>>,
    /// For each worker with an item or a result in hand, the position of
    /// that item among the submitted ones.
    pub tags: Seq<int>,
    /// How many results were given up because the caller was gone.
    pub lost: nat,
    /// The backward queue, from the workers to the caller.
    pub backward: QueueView<Output>,
    /// The positions of the items whose results entered the backward queue,
    /// in the order they entered.
    pub order: Seq<int>,
    /// The results that entered the backward queue, in the order they
    /// entered.
    pub results: Seq<Output>,
    /// How many results the caller has taken.
    pub delivered: nat,
}

/// The state before anything has moved: `workers` workers about to receive,
/// and two empty queues of the given capacity.
pub open spec fn initial<Item, Output>(
    submitted: Seq<Item>,
    relation: spec_fn(Item, Output) -> bool,
    workers: nat,
    capacity: nat,
) -> State<Item, Output> {
    State {
        submitted,
        relation,
        pulled: 0,
        distributor: distributor::Action::Pull,
        forward: QueueView { items: Seq::empty(), capacity, senders: 1, receivers: workers },
        received: 0,
        workers: Seq::new(workers, |index: int| worker::Action::Receive),
        tags: Seq::new(workers, |index: int| 0int),
        lost: 0,
        backward: QueueView { items: Seq::empty(), capacity, senders: workers, receivers: 1 },
        order: Seq::empty(),
        results: Seq::empty(),
        delivered: 0,
    }
}

impl<Item, Output> State<Item, Output> {
    /// The caller has given up the result sequence.
    pub open spec fn abandoned(self) -> bool {
        self.backward.receiving_closed()
    }

    /// How many items have entered the forward queue.
    pub open spec fn enqueued(self) -> nat {
        self.received + self.forward.items.len()
    }

    /// How many results have entered the backward queue.
    pub open spec fn emitted(self) -> nat {
        self.results.len()
    }

    /// How many workers have an item or a result in hand.
    pub open spec fn in_flight(self) -> nat {
        total(Tally::Holding, self.workers)
    }

    /// How many workers have not stopped.
    pub open spec fn live(self) -> nat {
        total(Tally::Live, self.workers)
    }

    /// The distributor and every worker have stopped.
    pub open spec fn terminated(self) -> bool {
        self.distributor is Exit && self.live() == 0
    }

    /// The results the caller has taken so far, in the order taken.
    pub open spec fn taken(self) -> Seq<Output> {
        self.results.take(self.delivered as int)
    }

    /// Worker `index` stops: its handles on both queues go away.
    pub open spec fn retire(self, index: int, action: worker::Action<Item, Output>) -> Self {
        State {
            workers: self.workers.update(index, action),
            forward: self.forward.without_receiver(),
            backward: self.backward.without_sender(),
            ..self
        }
    }

    /// One step of the distributor.
    ///
    /// About to pull, it takes the next item of the input, or stops when
    /// there is none. About to send, it puts its item on the forward queue,
    /// waits (nothing changes) while the queue is full, or stops, giving the
    /// item up, when no worker is left to receive.
    pub open spec fn distribute(self) -> Self {
        match self.distributor {
            distributor::Action::Pull => if self.pulled < self.submitted.len() {
                State {
                    distributor: distributor::reaction(
                        distributor::Event::Pulled(self.submitted[self.pulled as int]),
                    ),
                    pulled: self.pulled + 1,
                    ..self
                }
            } else {
                State {
                    distributor: distributor::reaction(distributor::Event::Exhausted),
                    forward: self.forward.without_sender(),
                    ..self
                }
            },
            distributor::Action::Send(item) => match self.forward.send_outcome(item) {
                Sending::Accepted => State {
                    distributor: distributor::reaction(distributor::Event::Sent),
                    forward: self.forward.after_send(item),
                    ..self
                },
                Sending::Full(_) => self,
                Sending::Closed(_) => State {
                    distributor: distributor::reaction(distributor::Event::Refused),
                    forward: self.forward.without_sender(),
                    ..self
                },
            },
            distributor::Action::Exit => self,
        }
    }

    /// The step of a worker that is about to receive: it takes the oldest
    /// item of the forward queue, waits (nothing changes) while the queue is
    /// empty and the distributor alive, or stops when the queue is empty and
    /// closed.
    pub open spec fn receive(self, index: int) -> Self {
        match self.forward.receive_outcome() {
            Receiving::Item(item) => State {
                workers: self.workers.update(
                    index,
                    worker::reaction(worker::Event::Received(item)),
                ),
                tags: self.tags.update(index, self.received as int),
                forward: self.forward.after_receive(),
                received: self.received + 1,
                ..self
            },
            Receiving::Empty => self,
            Receiving::Closed => self.retire(index, worker::reaction(worker::Event::Drained)),
        }
    }

    /// The step of a worker that is about to map, where the mapping produced
    /// `output`.
    pub open spec fn complete(self, index: int, output: Output) -> Self {
        State {
            workers: self.workers.update(
                index,
                worker::reaction(worker::Event::Mapped(output)),
            ),
            ..self
        }
    }

    /// The step of a worker that is about to send `output`: it puts the
    /// result on the backward queue, waits (nothing changes) while the queue
    /// is full, or stops, giving the result up, when the caller is gone.
    pub open spec fn emit(self, index: int, output: Output) -> Self {
        match self.backward.send_outcome(output) {
            Sending::Accepted => State {
                workers: self.workers.update(index, worker::reaction(worker::Event::Sent)),
                backward: self.backward.after_send(output),
                order: self.order.push(self.tags[index]),
                results: self.results.push(output),
                ..self
            },
            Sending::Full(_) => self,
            Sending::Closed(_) => State {
                lost: self.lost + 1,
                ..self.retire(index, worker::reaction(worker::Event::Refused))
            },
        }
    }

    /// `next` is what one step of worker `index` may lead to.
    pub open spec fn works(self, index: int, next: Self) -> bool {
        match self.workers[index] {
            worker::Action::Receive => next == self.receive(index),
            worker::Action::Apply(item) => {
                &&& next.workers[index] matches worker::Action::Send(output)
                &&& (self.relation)(item, output)
                &&& next == self.complete(index, output)
            },
            worker::Action::Send(output) => next == self.emit(index, output),
            worker::Action::Exit => next == self,
        }
    }

    /// The caller can take a result now.
    pub open spec fn deliverable(self) -> bool {
        !self.abandoned() && self.backward.items.len() > 0
    }

    /// The caller takes the oldest result of the backward queue, if it can.
    pub open spec fn consume(self) -> Self {
        if self.deliverable() {
            State {
                backward: self.backward.after_receive(),
                delivered: self.delivered + 1,
                ..self
            }
        } else {
            self
        }
    }

    /// The caller gives up the result sequence.
    pub open spec fn abandon(self) -> Self {
        State { backward: self.backward.without_receiver(), ..self }
    }

    /// `next` is what one step of one participant may lead to: of the
    /// distributor, of a worker, or of the caller taking a result.
    pub open spec fn steps_to(self, next: Self) -> bool {
        ||| next == self.distribute()
        ||| exists|index: int| 0 <= index < self.workers.len() && #[trigger] self.works(index, next)
        ||| next == self.consume()
    }

    /// `next` is what `count` steps, one after the other, may lead to.
    pub open spec fn reaches(self, count: nat, next: Self) -> bool
        decreases count,
    {
        if count == 0 {
            next == self
        } else {
            exists|middle: Self|
                self.reaches((count - 1) as nat, middle) && #[trigger] middle.steps_to(next)
        }
    }

    /// `next` is what some number of steps may lead to.
    pub open spec fn leads_to(self, next: Self) -> bool {
        exists|count: nat| self.reaches(count, next)
    }

    /// `next` is what may come of letting the first `count` workers step
    /// once each, in turn.
    pub open spec fn sweeps(self, count: nat, next: Self) -> bool
        decreases count,
    {
        if count == 0 {
            next == self
        } else {
            exists|middle: Self|
                self.sweeps((count - 1) as nat, middle) && #[trigger] middle.works(
                    count - 1,
                    next,
                )
        }
    }

    /// `next` is what one round may lead to: a step of the distributor, then
    /// one of every worker, in turn.
    pub open spec fn turns_to(self, next: Self) -> bool {
        self.distribute().sweeps(self.workers.len(), next)
    }

    /// The positions and counts are consistent and within their bounds.
    pub open spec fn inv_shape(self) -> bool {
        &&& self.workers.len() >= 1
        &&& self.tags.len() == self.workers.len()
        &&& self.forward.capacity >= 1
        &&& self.backward.capacity >= 1
        &&& self.forward.items.len() <= self.forward.capacity
        &&& self.backward.items.len() <= self.backward.capacity
        &&& self.pulled <= self.submitted.len()
        &&& self.order.len() == self.results.len()
        &&& self.delivered <= self.results.len()
    }

    /// Each queue counts the participants that are alive on each side.
    pub open spec fn inv_handles(self) -> bool {
        &&& self.forward.senders == (if self.distributor is Exit {
            0nat
        } else {
            1nat
        })
        &&& self.forward.receivers == self.live()
        &&& self.backward.senders == self.live()
        &&& self.backward.receivers <= 1
    }

    /// The forward queue holds, in the caller's order, exactly the pulled
    /// items that no worker has received yet, but for the one the
    /// distributor may have in hand or have given up.
    pub open spec fn inv_forward(self) -> bool {
        &&& self.enqueued() <= self.pulled
        &&& self.forward.items == self.submitted.subrange(
            self.received as int,
            self.enqueued() as int,
        )
        &&& match self.distributor {
            distributor::Action::Pull => self.enqueued() == self.pulled,
            distributor::Action::Send(item) => {
                &&& self.enqueued() + 1 == self.pulled
                &&& item == self.submitted[self.pulled - 1]
            },
            distributor::Action::Exit => self.pulled <= self.enqueued() + 1,
        }
    }

    /// What worker `index` has in hand is a received item, or a result of
    /// mapping one.
    pub open spec fn holds_rightly(self, index: int) -> bool {
        match self.workers[index] {
            worker::Action::Apply(item) => {
                &&& 0 <= self.tags[index] < self.received
                &&& item == self.submitted[self.tags[index]]
            },
            worker::Action::Send(output) => {
                &&& 0 <= self.tags[index] < self.received
                &&& (self.relation)(self.submitted[self.tags[index]], output)
            },
            _ => true,
        }
    }

    /// No two workers have the same item in hand.
    pub open spec fn inv_workers(self) -> bool {
        &&& forall|index: int|
            0 <= index < self.workers.len() && (#[trigger] self.workers[index]).holding()
                ==> self.holds_rightly(index)
        &&& forall|first: int, second: int|
            #![trigger self.workers[first], self.workers[second]]
            0 <= first < second < self.workers.len() && self.workers[first].holding()
                && self.workers[second].holding() ==> self.tags[first] != self.tags[second]
    }

    /// Every result that entered the backward queue is the mapping of one
    /// received item, no item has two results, and none that a worker still
    /// has in hand has one. The queue holds the results not yet taken.
    pub open spec fn inv_results(self) -> bool {
        &&& forall|place: int|
            0 <= place < self.order.len() ==> {
                &&& 0 <= #[trigger] self.order[place] < self.received
                &&& (self.relation)(self.submitted[self.order[place]], self.results[place])
            }
        &&& forall|first: int, second: int|
            #![trigger self.order[first], self.order[second]]
            0 <= first < second < self.order.len() ==> self.order[first] != self.order[second]
        &&& forall|index: int, place: int|
            #![trigger self.workers[index], self.order[place]]
            0 <= index < self.workers.len() && self.workers[index].holding() && 0 <= place
                < self.order.len() ==> self.tags[index] != self.order[place]
        &&& self.backward.items == self.results.subrange(
            self.delivered as int,
            self.results.len() as int,
        )
    }

    /// Every received item is in a worker's hand, has a result on record, or
    /// had its result given up.
    pub open spec fn inv_counts(self) -> bool {
        self.received == self.in_flight() + self.emitted() + self.lost
    }

    /// While the caller has not given up, nothing is lost: the distributor
    /// stops only when the input is exhausted, and a worker only when the
    /// forward queue is closed and empty.
    pub open spec fn inv_quiet(self) -> bool {
        !self.abandoned() ==> {
            &&& self.lost == 0
            &&& self.distributor is Exit ==> self.enqueued() == self.submitted.len()
            &&& (exists|index: int|
                0 <= index < self.workers.len() && #[trigger] self.workers[index] is Exit)
                ==> self.distributor is Exit && self.forward.items.len() == 0
        }
    }

    /// The invariant of the pipeline: it holds initially and every step
    /// keeps it.
    pub open spec fn inv(self) -> bool {
        &&& self.inv_shape()
        &&& self.inv_handles()
        &&& self.inv_forward()
        &&& self.inv_workers()
        &&& self.inv_results()
        &&& self.inv_counts()
        &&& self.inv_quiet()
    }

    /// `later` continues `self`: the same submission under the same mapping
    /// and pool, every counter at least where it was, and the record of
    /// results extended at its end only.
    pub open spec fn continued_by(self, later: Self) -> bool {
        &&& later.submitted == self.submitted
        &&& later.relation == self.relation
        &&& later.workers.len() == self.workers.len()
        &&& later.forward.capacity == self.forward.capacity
        &&& later.backward.capacity == self.backward.capacity
        &&& self.pulled <= later.pulled
        &&& self.received <= later.received
        &&& self.delivered <= later.delivered
        &&& self.lost <= later.lost
        &&& self.order.is_prefix_of(later.order)
        &&& self.results.is_prefix_of(later.results)
        &&& self.abandoned() ==> later.abandoned()
    }
}

} // verus!
