//! The pipeline at run time: a distributor, a pool of workers and the two
//! queues between them and the caller, advanced one step at a time.
//!
//! A [`Pipeline`] owns everything the operator needs and runs it on the
//! thread of whoever calls it. Its view is the [`State`] of the transition
//! system, and every method performs transitions of that system only.

use crate::distributor;
use crate::model::{initial, State};
use crate::progress::lemma_stalled;
use crate::queue::{Queue, Receiving, Sending};
use crate::safety::{
    lemma_abandon, lemma_complete, lemma_consume, lemma_continued, lemma_distribute, lemma_emit,
    lemma_initial, lemma_leads_by_step, lemma_leads_nowhere, lemma_leads_on, lemma_receive,
    lemma_turn_leads, lemma_works,
};
use crate::worker;
use std::collections::VecDeque;
use vstd::prelude::*;

verus! {

/// `handle` is a duplicate of a worker's own duplicate of `context`.
pub open spec fn handle_of<Context: Clone>(context: Context, handle: Context) -> bool {
    exists|own: Context| cloned(context, own) && #[trigger] cloned(own, handle)
}

/// The results that `map` may produce for an item when it is given a handle
/// to `context`.
pub open spec fn yields<Item, Context: Clone, Output, Mapper: Fn(Item, Context) -> Output>(
    map: Mapper,
    context: Context,
) -> spec_fn(Item, Output) -> bool {
    |item: Item, output: Output|
        exists|handle: Context|
            handle_of(context, handle) && #[trigger] call_ensures(map, (item, handle), output)
}

/// `map` accepts every one of `items` together with any handle to
/// `context`.
pub open spec fn applicable<Item, Context: Clone, Output, Mapper: Fn(Item, Context) -> Output>(
    map: Mapper,
    context: Context,
    items: Seq<Item>,
) -> bool {
    forall|place: int, handle: Context|
        0 <= place < items.len() && handle_of(context, handle) ==> #[trigger] call_requires(
            map,
            (items[place], handle),
        )
}

/// A bounded parallel map in progress.
#[verifier::reject_recursive_types(Item)]
#[verifier::reject_recursive_types(Output)]
pub struct Pipeline<Item, Context, Output, Mapper> {
    map: Mapper,
    handles: Vec<Context>,
    input: VecDeque<Item>,
    distributor: distributor::Action<Item>,
    forward: Queue<Item>,
    workers: Vec<worker::Action<Item, Output>>,
    backward: Queue<Output>,
    context: Ghost<Context>,
    state: Ghost<State<Item, Output>>,
}

impl<Item, Context: Clone, Output, Mapper: Fn(Item, Context) -> Output> View for Pipeline<
    Item,
    Context,
    Output,
    Mapper,
> {
    type V = State<Item, Output>;

    closed spec fn view(&self) -> State<Item, Output> {
        self.state@
    }
}

impl<Item, Context: Clone, Output, Mapper: Fn(Item, Context) -> Output> Pipeline<
    Item,
    Context,
    Output,
    Mapper,
> {
    /// The mapping of the pipeline.
    pub closed spec fn mapping(&self) -> Mapper {
        self.map
    }

    /// The context that every worker has a handle to.
    pub closed spec fn shared(&self) -> Context {
        self.context@
    }

    /// What is stored agrees with the view.
    closed spec fn coherent(&self) -> bool {
        &&& self.distributor == self@.distributor
        &&& self.forward@ == self@.forward
        &&& self.workers@ == self@.workers
        &&& self.backward@ == self@.backward
        &&& self.input@ == self@.submitted.subrange(
            self@.pulled as int,
            self@.submitted.len() as int,
        )
        &&& self.handles.len() == self.workers.len()
        &&& forall|index: int|
            0 <= index < self.handles.len() ==> cloned(self.context@, #[trigger] self.handles[index])
        &&& self.forward.wf()
        &&& self.backward.wf()
    }

    /// The pipeline is valid: its view satisfies the invariant of the
    /// transition system under the relation of its mapping, and the mapping
    /// accepts every submitted item.
    pub closed spec fn wf(&self) -> bool {
        &&& self@.inv()
        &&& self@.relation == yields(self.map, self.context@)
        &&& applicable(self.map, self.context@, self@.submitted)
        &&& self.coherent()
    }

    /// A valid pipeline satisfies the invariant, and its view speaks of its
    /// own mapping.
    pub proof fn lemma_wf(&self)
        requires
            self.wf(),
        ensures
            self@.inv(),
            self@.relation == yields(self.mapping(), self.shared()),
            applicable(self.mapping(), self.shared(), self@.submitted),
    {
    }

    /// A pipeline over `items` with `workers` workers, each with its own
    /// duplicate of `context`, and two queues of capacity `workers`.
    pub(crate) fn new(items: Vec<Item>, map: Mapper, context: Context, workers: usize) -> (pipeline:
        Self)
        requires
            workers >= 1,
            applicable(map, context, items@),
        ensures
            pipeline.wf(),
            pipeline.mapping() == map,
            pipeline.shared() == context,
            pipeline@ == initial(items@, yields(map, context), workers as nat, workers as nat),
    {
        let ghost state = initial(items@, yields(map, context), workers as nat, workers as nat);
        let mut input: VecDeque<Item> = VecDeque::new();
        for item in iter: items
            invariant
                input@ == iter.seq().take(iter.index() as int),
                iter.seq() == items@,
        {
            input.push_back(item);
        }
        let mut handles: Vec<Context> = Vec::new();
        let mut actions: Vec<worker::Action<Item, Output>> = Vec::new();
        let mut index: usize = 0;
        while index < workers
            invariant
                index <= workers,
                handles.len() == index,
                actions.len() == index,
                forall|other: int| 0 <= other < index ==> cloned(context, #[trigger] handles[other]),
                forall|other: int| 0 <= other < index ==> #[trigger] actions[other] is Receive,
            decreases workers - index,
        {
            handles.push(context.clone());
            actions.push(worker::start());
            index = index + 1;
        }
        proof {
            lemma_initial(items@, yields(map, context), workers as nat, workers as nat);
            assert(actions@ =~= state.workers);
            assert(input@ =~= items@.subrange(0, items@.len() as int));
        }
        Pipeline {
            map,
            handles,
            input,
            distributor: distributor::start(),
            forward: Queue::new(workers, 1, workers),
            workers: actions,
            backward: Queue::new(workers, workers, 1),
            context: Ghost(context),
            state: Ghost(state),
        }
    }

    /// Lets the distributor take one step, and says whether anything
    /// changed: it did not where the distributor has stopped, or waits at a
    /// full forward queue.
    pub fn step_distributor(&mut self) -> (moved: bool)
        requires
            old(self).wf(),
        ensures
            final(self).wf(),
            final(self).mapping() == old(self).mapping(),
            final(self).shared() == old(self).shared(),
            final(self)@ == old(self)@.distribute(),
            moved <==> final(self)@ != old(self)@,
    {
        let ghost before = self.state@;
        proof {
            lemma_distribute(before);
        }
        let mut action = distributor::Action::Exit;
        std::mem::swap(&mut self.distributor, &mut action);
        let moved = match action {
            distributor::Action::Pull => {
                match self.input.pop_front() {
                    Some(item) => {
                        self.distributor = distributor::react(distributor::Event::Pulled(item));
                        proof {
                            assert(self.input@ =~= before.submitted.subrange(
                                (before.pulled + 1) as int,
                                before.submitted.len() as int,
                            ));
                        }
                    },
                    None => {
                        self.distributor = distributor::react(distributor::Event::Exhausted);
                        self.forward.drop_sender();
                    },
                }
                true
            },
            distributor::Action::Send(item) => {
                match self.forward.send(item) {
                    Sending::Accepted => {
                        self.distributor = distributor::react(distributor::Event::Sent);
                        true
                    },
                    Sending::Full(item) => {
                        self.distributor = distributor::Action::Send(item);
                        false
                    },
                    Sending::Closed(_) => {
                        self.distributor = distributor::react(distributor::Event::Refused);
                        self.forward.drop_sender();
                        true
                    },
                }
            },
            distributor::Action::Exit => false,
        };
        self.state = Ghost(before.distribute());
        moved
    }

    /// Lets worker `index` take one step, and says whether anything changed:
    /// it did not where the worker has stopped, or waits at a queue. A
    /// worker that is about to map calls the mapping with a fresh duplicate
    /// of its own handle to the context.
    pub fn step_worker(&mut self, index: usize) -> (moved: bool)
        requires
            old(self).wf(),
            index < old(self)@.workers.len(),
        ensures
            final(self).wf(),
            final(self).mapping() == old(self).mapping(),
            final(self).shared() == old(self).shared(),
            old(self)@.works(index as int, final(self)@),
            moved <==> final(self)@ != old(self)@,
    {
        let ghost before = self.state@;
        let mut action = worker::Action::Exit;
        std::mem::swap(&mut self.workers[index], &mut action);
        match action {
            worker::Action::Receive => {
                proof {
                    lemma_receive(before, index as int);
                }
                match self.forward.receive() {
                    Receiving::Item(item) => {
                        self.workers[index] = worker::react(worker::Event::Received(item));
                        self.state = Ghost(before.receive(index as int));
                        assert(self.workers@ =~= self.state@.workers);
                        true
                    },
                    Receiving::Empty => {
                        self.workers[index] = worker::Action::Receive;
                        assert(self.workers@ =~= before.workers);
                        false
                    },
                    Receiving::Closed => {
                        self.workers[index] = worker::react(worker::Event::Drained);
                        self.forward.drop_receiver();
                        self.backward.drop_sender();
                        self.state = Ghost(before.receive(index as int));
                        assert(self.workers@ =~= self.state@.workers);
                        true
                    },
                }
            },
            worker::Action::Apply(item) => {
                let handle = self.handles[index].clone();
                proof {
                    assert(before.workers[index as int].holding());
                    assert(before.holds_rightly(index as int));
                    assert(cloned(self.handles[index as int], handle));
                }
                let output = (self.map)(item, handle);
                proof {
                    assert(call_ensures(self.map, (item, handle), output));
                    lemma_complete(before, index as int, output);
                }
                self.workers[index] = worker::react(worker::Event::Mapped(output));
                self.state = Ghost(before.complete(index as int, output));
                assert(self.workers@ =~= self.state@.workers);
                true
            },
            worker::Action::Send(output) => {
                proof {
                    lemma_emit(before, index as int, output);
                }
                match self.backward.send(output) {
                    Sending::Accepted => {
                        self.workers[index] = worker::react(worker::Event::Sent);
                        self.state = Ghost(before.emit(index as int, output));
                        assert(self.workers@ =~= self.state@.workers);
                        true
                    },
                    Sending::Full(output) => {
                        self.workers[index] = worker::Action::Send(output);
                        assert(self.workers@ =~= before.workers);
                        false
                    },
                    Sending::Closed(_) => {
                        self.workers[index] = worker::react(worker::Event::Refused);
                        self.forward.drop_receiver();
                        self.backward.drop_sender();
                        self.state = Ghost(before.emit(index as int, output));
                        assert(self.workers@ =~= self.state@.workers);
                        true
                    },
                }
            },
            worker::Action::Exit => {
                assert(self.workers@ =~= before.workers);
                false
            },
        }
    }

    /// Hands over the oldest result of the backward queue, if the caller can
    /// take one now. Nobody else moves.
    pub fn take(&mut self) -> (result: Option<Output>)
        requires
            old(self).wf(),
        ensures
            final(self).wf(),
            final(self).mapping() == old(self).mapping(),
            final(self).shared() == old(self).shared(),
            final(self)@ == old(self)@.consume(),
            result == (if old(self)@.deliverable() {
                Some(old(self)@.results[old(self)@.delivered as int])
            } else {
                None
            }),
    {
        let ghost before = self.state@;
        proof {
            lemma_consume(before);
        }
        if self.backward.receivers() == 0 {
            return None;
        }
        match self.backward.receive() {
            Receiving::Item(output) => {
                self.state = Ghost(before.consume());
                Some(output)
            },
            _ => None,
        }
    }

    /// The distributor and every worker have stopped.
    pub fn is_terminated(&self) -> (stopped: bool)
        requires
            self.wf(),
        ensures
            stopped == self@.terminated(),
    {
        let exited = match self.distributor {
            distributor::Action::Exit => true,
            _ => false,
        };
        exited && self.backward.senders() == 0
    }

    /// Lets the distributor and then every worker, in turn, take one step,
    /// and says whether anything changed.
    pub fn round(&mut self) -> (moved: bool)
        requires
            old(self).wf(),
        ensures
            final(self).wf(),
            final(self).mapping() == old(self).mapping(),
            final(self).shared() == old(self).shared(),
            old(self)@.turns_to(final(self)@),
            old(self)@.continued_by(final(self)@),
            final(self)@.delivered == old(self)@.delivered,
            final(self)@.abandoned() == old(self)@.abandoned(),
            moved ==> final(self)@.remaining() < old(self)@.remaining(),
            moved && old(self)@.abandoned() ==> final(self)@.winding() < old(self)@.winding(),
            !moved ==> final(self)@ == old(self)@ && old(self)@.stalled(),
    {
        let ghost before = self.state@;
        proof {
            lemma_distribute(before);
        }
        let mut moved = self.step_distributor();
        let count = self.workers.len();
        let mut index: usize = 0;
        while index < count
            invariant
                self.wf(),
                self.mapping() == old(self).mapping(),
                self.shared() == old(self).shared(),
                before == old(self)@,
                count == self@.workers.len(),
                index <= count,
                before.distribute().sweeps(index as nat, self@),
                before.continued_by(self@),
                self@.delivered == before.delivered,
                self@.abandoned() == before.abandoned(),
                moved ==> self@.remaining() < before.remaining(),
                moved && before.abandoned() ==> self@.winding() < before.winding(),
                !moved ==> self@ == before && before.distribute() == before,
                !moved ==> forall|other: int| 0 <= other < index ==> before.waits(other),
            decreases count - index,
        {
            let ghost current = self.state@;
            let stepped = self.step_worker(index);
            proof {
                lemma_works(current, index as int, self@);
                lemma_continued(before, current, self@);
                assert(current.works((index + 1) as nat - 1, self@));
                assert(before.distribute().sweeps(((index + 1) as nat - 1) as nat, current));
                assert(before.distribute().sweeps((index + 1) as nat, self@));
            }
            moved = moved || stepped;
            index = index + 1;
        }
        moved
    }

    /// Produces the next result of the sequence.
    ///
    /// The pipeline runs, round by round, only until a result is there to
    /// take, and hands that result over. It runs to its end, and returns
    /// `None`, once every submitted item has had its result taken, and
    /// returns `None` at once where the caller has given the sequence up.
    pub fn next(&mut self) -> (result: Option<Output>)
        requires
            old(self).wf(),
        ensures
            final(self).wf(),
            final(self).mapping() == old(self).mapping(),
            final(self).shared() == old(self).shared(),
            old(self)@.leads_to(final(self)@),
            old(self)@.continued_by(final(self)@),
            final(self)@.abandoned() == old(self)@.abandoned(),
            old(self)@.deliverable() ==> final(self)@ == old(self)@.consume(),
            result is Some <==> !old(self)@.abandoned() && old(self)@.delivered < old(
                self,
            )@.submitted.len(),
            result matches Some(output) ==> {
                &&& final(self)@.delivered == old(self)@.delivered + 1
                &&& output == final(self)@.results[old(self)@.delivered as int]
            },
            result is None ==> final(self)@.delivered == old(self)@.delivered,
            result is None && !old(self)@.abandoned() ==> final(self)@.exhausted(),
    {
        let ghost before = self.state@;
        proof {
            lemma_leads_nowhere(before);
        }
        loop
            invariant
                self.wf(),
                self.mapping() == old(self).mapping(),
                self.shared() == old(self).shared(),
                before == old(self)@,
                before.leads_to(self@),
                before.continued_by(self@),
                self@.delivered == before.delivered,
                self@.abandoned() == before.abandoned(),
                before.deliverable() ==> self@ == before,
            decreases self@.remaining(),
        {
            let ghost current = self.state@;
            proof {
                current.lemma_counters();
                lemma_consume(current);
            }
            if self.backward.receivers() == 0 {
                return None;
            }
            match self.take() {
                Some(output) => {
                    proof {
                        assert(current.steps_to(self@));
                        lemma_leads_by_step(current, self@);
                        lemma_leads_on(before, current, self@);
                        lemma_continued(before, current, self@);
                    }
                    return Some(output);
                },
                None => {},
            }
            if self.is_terminated() {
                return None;
            }
            let moved = self.round();
            proof {
                if !moved {
                    lemma_stalled(current);
                }
                lemma_turn_leads(current, self@);
                lemma_leads_on(before, current, self@);
                lemma_continued(before, current, self@);
            }
        }
    }

    /// Takes every result that is still to come, in the order in which the
    /// pipeline produces them, and runs the pipeline to its end.
    pub fn collect(&mut self) -> (results: Vec<Output>)
        requires
            old(self).wf(),
        ensures
            final(self).wf(),
            final(self).mapping() == old(self).mapping(),
            final(self).shared() == old(self).shared(),
            old(self)@.leads_to(final(self)@),
            old(self)@.continued_by(final(self)@),
            final(self)@.abandoned() == old(self)@.abandoned(),
            results@ == final(self)@.results.subrange(
                old(self)@.delivered as int,
                final(self)@.delivered as int,
            ),
            old(self)@.abandoned() ==> final(self)@.delivered == old(self)@.delivered,
            !old(self)@.abandoned() ==> {
                &&& final(self)@.exhausted()
                &&& final(self)@.delivered == final(self)@.submitted.len()
            },
    {
        let ghost before = self.state@;
        let mut results: Vec<Output> = Vec::new();
        proof {
            before.lemma_counters();
            lemma_leads_nowhere(before);
        }
        loop
            invariant
                self.wf(),
                self.mapping() == old(self).mapping(),
                self.shared() == old(self).shared(),
                before == old(self)@,
                before.leads_to(self@),
                before.continued_by(self@),
                self@.abandoned() == before.abandoned(),
                before.delivered <= self@.delivered <= self@.results.len(),
                before.abandoned() ==> self@.delivered == before.delivered,
                results@ == self@.results.subrange(
                    before.delivered as int,
                    self@.delivered as int,
                ),
            decreases self@.submitted.len() - self@.delivered,
        {
            let ghost current = self.state@;
            match self.next() {
                Some(output) => {
                    results.push(output);
                    proof {
                        self@.lemma_counters();
                        lemma_leads_on(before, current, self@);
                        lemma_continued(before, current, self@);
                        assert(results@ =~= self@.results.subrange(
                            before.delivered as int,
                            self@.delivered as int,
                        ));
                    }
                },
                None => {
                    proof {
                        self@.lemma_counters();
                        lemma_leads_on(before, current, self@);
                        lemma_continued(before, current, self@);
                        assert(results@ =~= self@.results.subrange(
                            before.delivered as int,
                            self@.delivered as int,
                        ));
                    }
                    return results;
                },
            }
        }
    }

    /// Gives up the result sequence, and runs the pipeline until the
    /// distributor and every worker have stopped.
    ///
    /// No further result is handed over. A mapping that is under way is
    /// completed; its result, like every item still on its way, is given up
    /// at the next queue operation.
    pub fn abandon(&mut self)
        requires
            old(self).wf(),
        ensures
            final(self).wf(),
            final(self).mapping() == old(self).mapping(),
            final(self).shared() == old(self).shared(),
            old(self)@.abandon().leads_to(final(self)@),
            old(self)@.continued_by(final(self)@),
            final(self)@.abandoned(),
            final(self)@.terminated(),
            final(self)@.delivered == old(self)@.delivered,
    {
        let ghost before = self.state@;
        proof {
            lemma_abandon(before);
        }
        self.backward.drop_receiver();
        self.state = Ghost(before.abandon());
        proof {
            lemma_leads_nowhere(before.abandon());
        }
        loop
            invariant
                self.wf(),
                self.mapping() == old(self).mapping(),
                self.shared() == old(self).shared(),
                before == old(self)@,
                before.abandon().leads_to(self@),
                before.continued_by(self@),
                self@.abandoned(),
                self@.delivered == before.delivered,
            decreases self@.winding(),
        {
            let ghost current = self.state@;
            if self.is_terminated() {
                return ;
            }
            let moved = self.round();
            proof {
                if !moved {
                    lemma_stalled(current);
                }
                lemma_turn_leads(current, self@);
                lemma_leads_on(before.abandon(), current, self@);
                lemma_continued(before, current, self@);
            }
        }
    }

    /// The number of workers of the pool, stopped ones included.
    pub fn workers(&self) -> (count: usize)
        requires
            self.wf(),
        ensures
            count == self@.workers.len(),
            count >= 1,
    {
        self.workers.len()
    }

    /// The number of workers that have not stopped.
    pub fn live(&self) -> (count: usize)
        requires
            self.wf(),
        ensures
            count == self@.live(),
    {
        self.backward.senders()
    }

    /// The capacity of the forward queue.
    pub fn capacity(&self) -> (count: usize)
        requires
            self.wf(),
        ensures
            count == self@.forward.capacity,
            count >= 1,
    {
        self.forward.capacity()
    }

    /// The number of items that the distributor has not pulled yet.
    pub fn pending(&self) -> (count: usize)
        requires
            self.wf(),
        ensures
            count == self@.submitted.len() - self@.pulled,
    {
        self.input.len()
    }

    /// The number of items on the forward queue.
    pub fn queued(&self) -> (count: usize)
        requires
            self.wf(),
        ensures
            count == self@.forward.items.len(),
            count <= self@.forward.capacity,
    {
        self.forward.len()
    }

    /// The number of results on the backward queue.
    pub fn ready(&self) -> (count: usize)
        requires
            self.wf(),
        ensures
            count == self@.backward.items.len(),
            count <= self@.backward.capacity,
    {
        self.backward.len()
    }

    /// The caller has given up the result sequence.
    pub fn is_abandoned(&self) -> (gone: bool)
        requires
            self.wf(),
        ensures
            gone == self@.abandoned(),
    {
        self.backward.receivers() == 0
    }
}

} // verus!
