//! The pipeline never comes to a standstill before its work is done.

use crate::distributor;
use crate::model::State;
use crate::queue::{Receiving, Sending};
use crate::tally::{lemma_all_stopped, lemma_none_live};
use crate::worker;
use vstd::prelude::*;

verus! {

impl<Item, Output> State<Item, Output> {
    /// A step of worker `index` would change nothing: the worker has
    /// stopped, or waits at a queue.
    pub open spec fn waits(self, index: int) -> bool {
        match self.workers[index] {
            worker::Action::Receive => self.receive(index) == self,
            worker::Action::Apply(_) => false,
            worker::Action::Send(output) => self.emit(index, output) == self,
            worker::Action::Exit => true,
        }
    }

    /// Neither the distributor nor any worker can move.
    pub open spec fn stalled(self) -> bool {
        &&& self.distribute() == self
        &&& forall|index: int| 0 <= index < self.workers.len() ==> self.waits(index)
    }

    /// The caller has seen the end of the result sequence: everybody has
    /// stopped and nothing is left to take.
    pub open spec fn exhausted(self) -> bool {
        self.terminated() && !self.deliverable()
    }
}

/// No deadlock: where nobody can move and somebody is still at work, the
/// backward queue is full and waits for the caller. In particular a pipeline
/// whose caller has given up, or keeps taking results, never stalls before
/// everybody has stopped.
pub proof fn lemma_stalled<Item, Output>(state: State<Item, Output>)
    requires
        state.inv(),
        state.stalled(),
        !state.terminated(),
    ensures
        state.deliverable(),
        state.backward.full(),
{
    if forall|index: int| 0 <= index < state.workers.len() ==> state.workers[index] is Exit {
        lemma_all_stopped(state.workers);
        match state.distributor {
            distributor::Action::Pull => {
                assert(state.distribute().distributor != state.distributor);
            },
            distributor::Action::Send(item) => {
                assert(state.forward.send_outcome(item) is Closed);
                assert(state.distribute().distributor != state.distributor);
            },
            distributor::Action::Exit => {},
        }
    } else {
        let index = choose|index: int|
            0 <= index < state.workers.len() && !(state.workers[index] is Exit);
        assert(state.waits(index));
        match state.workers[index] {
            worker::Action::Receive => {
                match state.forward.receive_outcome() {
                    Receiving::Item(item) => {
                        assert(state.receive(index).workers[index] != state.workers[index]);
                    },
                    Receiving::Closed => {
                        assert(state.receive(index).workers[index] != state.workers[index]);
                    },
                    Receiving::Empty => {
                        match state.distributor {
                            distributor::Action::Pull => {
                                assert(state.distribute().distributor != state.distributor);
                            },
                            distributor::Action::Send(item) => {
                                assert(state.forward.send_outcome(item) is Accepted);
                                assert(state.distribute().distributor != state.distributor);
                            },
                            distributor::Action::Exit => {},
                        }
                    },
                }
            },
            worker::Action::Apply(_) => {},
            worker::Action::Send(output) => {
                match state.backward.send_outcome(output) {
                    Sending::Accepted => {
                        assert(state.emit(index, output).workers[index] != state.workers[index]);
                    },
                    Sending::Full(_) => {},
                    Sending::Closed(_) => {
                        assert(state.emit(index, output).workers[index] != state.workers[index]);
                    },
                }
            },
            worker::Action::Exit => {},
        }
    }
}

/// Once everybody has stopped and the caller has not given up, every
/// submitted item was received, mapped, and has its result on record.
pub proof fn lemma_terminated<Item, Output>(state: State<Item, Output>)
    requires
        state.inv(),
        state.terminated(),
        !state.abandoned(),
    ensures
        state.pulled == state.submitted.len(),
        state.received == state.submitted.len(),
        state.emitted() == state.submitted.len(),
        state.forward.items.len() == 0,
        state.in_flight() == 0,
        state.lost == 0,
{
    lemma_none_live(state.workers);
    assert(state.workers[0] is Exit);
}

} // verus!
