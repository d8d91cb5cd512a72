//! Every step keeps the invariant of the pipeline, continues the state it
//! started from, and brings the pipeline nearer to its end.

use crate::distributor;
use crate::model::{initial, State};
use crate::queue::{Receiving, Sending};
use crate::tally::{
    lemma_none_live, lemma_total_bounds, lemma_total_covers, lemma_total_fresh,
    lemma_total_update, total, Tally,
};
use crate::worker;
use vstd::prelude::*;

verus! {

impl<Item, Output> State<Item, Output> {
    /// The steps the distributor still has before it, if it pulled no
    /// further item.
    pub open spec fn distributor_effort(self) -> nat {
        match self.distributor {
            distributor::Action::Pull => 1,
            distributor::Action::Send(_) => 2,
            distributor::Action::Exit => 0,
        }
    }

    /// A bound on the number of steps that the pipeline can still take.
    ///
    /// Every item not yet pulled costs the distributor two steps, every item
    /// not yet received costs a worker three, every result not yet taken
    /// costs the caller one, and each participant adds the steps that what
    /// it has in hand still needs, stopping included.
    pub open spec fn remaining(self) -> nat {
        (2 * (self.submitted.len() - self.pulled) + self.distributor_effort() + 3 * (
        self.submitted.len() - self.received) + total(Tally::Effort, self.workers) + (
        self.submitted.len() - self.delivered)) as nat
    }

    /// A bound on the number of steps that the pipeline can still take once
    /// the caller has given up. It does not depend on how much of the input
    /// is left.
    ///
    /// Each worker counts as [`Tally::Winding`] says, every free place of the
    /// forward queue costs the distributor a pull and a send, and the
    /// distributor adds the steps that what it has in hand still needs.
    pub open spec fn winding(self) -> nat {
        (total(Tally::Winding, self.workers) + 2 * (self.forward.capacity
            - self.forward.items.len()) + (match self.distributor {
            distributor::Action::Pull => 2nat,
            distributor::Action::Send(_) => 1nat,
            distributor::Action::Exit => 0nat,
        })) as nat
    }

    /// Under the invariant the counters are ordered: taken, emitted,
    /// received, enqueued, pulled, submitted.
    pub proof fn lemma_counters(self)
        requires
            self.inv(),
        ensures
            self.delivered <= self.emitted() <= self.received <= self.enqueued() <= self.pulled
                <= self.submitted.len(),
            self.in_flight() <= self.live() <= self.workers.len(),
    {
        lemma_total_bounds(self.workers);
    }
}

/// The initial state satisfies the invariant.
pub proof fn lemma_initial<Item, Output>(
    submitted: Seq<Item>,
    relation: spec_fn(Item, Output) -> bool,
    workers: nat,
    capacity: nat,
)
    requires
        workers >= 1,
        capacity >= 1,
    ensures
        initial(submitted, relation, workers, capacity).inv(),
{
    let state = initial(submitted, relation, workers, capacity);
    lemma_total_fresh(state.workers);
    assert(state.forward.items =~= submitted.subrange(0, 0));
    assert(state.backward.items =~= state.results.subrange(0, 0));
}

/// A step of the distributor keeps the invariant.
pub proof fn lemma_distribute<Item, Output>(state: State<Item, Output>)
    requires
        state.inv(),
    ensures
        state.distribute().inv(),
        state.continued_by(state.distribute()),
        state.distribute() != state ==> state.distribute().remaining() < state.remaining(),
        state.distribute() != state ==> state.distribute().winding() < state.winding(),
        state.distribute().delivered == state.delivered,
        state.distribute().abandoned() == state.abandoned(),
{
    let next = state.distribute();
    state.lemma_counters();
    match state.distributor {
        distributor::Action::Pull => {
            if state.pulled < state.submitted.len() {
            } else {
            }
        },
        distributor::Action::Send(item) => {
            match state.forward.send_outcome(item) {
                Sending::Accepted => {
                    assert(next.forward.items =~= state.submitted.subrange(
                        next.received as int,
                        next.enqueued() as int,
                    ));
                },
                Sending::Full(_) => {},
                Sending::Closed(_) => {
                    lemma_none_live(state.workers);
                    assert(state.workers[0] is Exit);
                },
            }
        },
        distributor::Action::Exit => {},
    }
}

/// The step of a worker that is about to receive keeps the invariant.
pub proof fn lemma_receive<Item, Output>(state: State<Item, Output>, index: int)
    requires
        state.inv(),
        0 <= index < state.workers.len(),
        state.workers[index] is Receive,
    ensures
        state.receive(index).inv(),
        state.continued_by(state.receive(index)),
        state.receive(index) != state ==> state.receive(index).remaining() < state.remaining(),
        state.receive(index) != state ==> state.receive(index).winding() < state.winding(),
        state.receive(index).delivered == state.delivered,
        state.receive(index).abandoned() == state.abandoned(),
{
    let next = state.receive(index);
    state.lemma_counters();
    lemma_total_covers(Tally::Live, state.workers, index);
    match state.forward.receive_outcome() {
        Receiving::Item(item) => {
            let action = worker::reaction(worker::Event::<Item, Output>::Received(item));
            lemma_total_update(Tally::Live, state.workers, index, action);
            lemma_total_update(Tally::Holding, state.workers, index, action);
            lemma_total_update(Tally::Effort, state.workers, index, action);
    lemma_total_update(Tally::Winding, state.workers, index, action);
            lemma_total_update(Tally::Winding, state.workers, index, action);
            assert(next.forward.items =~= state.submitted.subrange(
                next.received as int,
                next.enqueued() as int,
            ));
            assert(item == state.submitted[state.received as int]);
            assert forall|other: int|
                0 <= other < next.workers.len() && (#[trigger] next.workers[other]).holding()
                implies next.holds_rightly(other) by {
                if other != index {
                    assert(state.workers[other].holding());
                    assert(state.holds_rightly(other));
                }
            }
            assert forall|first: int, second: int|
                #![trigger next.workers[first], next.workers[second]]
                0 <= first < second < next.workers.len() && next.workers[first].holding()
                    && next.workers[second].holding() implies next.tags[first]
                != next.tags[second] by {
                if first != index {
                    assert(state.workers[first].holding());
                    assert(state.holds_rightly(first));
                }
                if second != index {
                    assert(state.workers[second].holding());
                    assert(state.holds_rightly(second));
                }
            }
            assert forall|other: int, place: int|
                #![trigger next.workers[other], next.order[place]]
                0 <= other < next.workers.len() && next.workers[other].holding() && 0 <= place
                    < next.order.len() implies next.tags[other] != next.order[place] by {
                if other != index {
                    assert(state.workers[other].holding());
                }
            }
            if !state.abandoned() {
                assert forall|other: int| 0 <= other < next.workers.len() implies !(
                #[trigger] next.workers[other] is Exit) by {
                    if other != index {
                        assert(!(state.workers[other] is Exit));
                    }
                }
            }
        },
        Receiving::Empty => {},
        Receiving::Closed => {
            lemma_retire(state, index, worker::reaction(worker::Event::Drained));
        },
    }
}

/// Where a live worker stops, the queues lose one handle each, and whatever
/// the other workers have in hand is as it was.
proof fn lemma_retire<Item, Output>(
    state: State<Item, Output>,
    index: int,
    action: worker::Action<Item, Output>,
)
    requires
        state.inv(),
        0 <= index < state.workers.len(),
        !(state.workers[index] is Exit),
        action is Exit,
    ensures
        state.retire(index, action).inv_shape(),
        state.retire(index, action).inv_forward(),
        state.retire(index, action).inv_workers(),
        state.retire(index, action).inv_results(),
        state.retire(index, action).forward.receivers == state.retire(index, action).live(),
        state.retire(index, action).backward.senders == state.retire(index, action).live(),
        state.retire(index, action).live() + 1 == state.live(),
        state.retire(index, action).in_flight() + weight_of_hand(state.workers[index])
            == state.in_flight(),
        total(Tally::Effort, state.retire(index, action).workers) < total(
            Tally::Effort,
            state.workers,
        ),
        total(Tally::Winding, state.retire(index, action).workers) < total(
            Tally::Winding,
            state.workers,
        ),
{
    let next = state.retire(index, action);
    lemma_total_covers(Tally::Live, state.workers, index);
    lemma_total_update(Tally::Live, state.workers, index, action);
    lemma_total_update(Tally::Holding, state.workers, index, action);
    lemma_total_update(Tally::Effort, state.workers, index, action);
    lemma_total_update(Tally::Winding, state.workers, index, action);
    assert forall|other: int|
        0 <= other < next.workers.len() && (#[trigger] next.workers[other]).holding()
        implies next.holds_rightly(other) by {
        assert(state.workers[other].holding());
        assert(state.holds_rightly(other));
    }
    assert forall|first: int, second: int|
        #![trigger next.workers[first], next.workers[second]]
        0 <= first < second < next.workers.len() && next.workers[first].holding()
            && next.workers[second].holding() implies next.tags[first] != next.tags[second] by {
        assert(state.workers[first].holding());
        assert(state.workers[second].holding());
    }
    assert forall|other: int, place: int|
        #![trigger next.workers[other], next.order[place]]
        0 <= other < next.workers.len() && next.workers[other].holding() && 0 <= place
            < next.order.len() implies next.tags[other] != next.order[place] by {
        assert(state.workers[other].holding());
    }
}

/// One where the worker has an item or a result in hand, zero otherwise.
pub open spec fn weight_of_hand<Item, Output>(action: worker::Action<Item, Output>) -> nat {
    if action.holding() {
        1
    } else {
        0
    }
}

/// The step of a worker whose mapping produced `output` keeps the invariant.
pub proof fn lemma_complete<Item, Output>(state: State<Item, Output>, index: int, output: Output)
    requires
        state.inv(),
        0 <= index < state.workers.len(),
        state.workers[index] matches worker::Action::Apply(item) && (state.relation)(
            item,
            output,
        ),
    ensures
        state.complete(index, output).inv(),
        state.continued_by(state.complete(index, output)),
        state.complete(index, output).remaining() < state.remaining(),
        state.complete(index, output).winding() < state.winding(),
        state.complete(index, output).delivered == state.delivered,
        state.complete(index, output).abandoned() == state.abandoned(),
{
    let next = state.complete(index, output);
    let action = worker::reaction(worker::Event::<Item, Output>::Mapped(output));
    state.lemma_counters();
    lemma_total_update(Tally::Live, state.workers, index, action);
    lemma_total_update(Tally::Holding, state.workers, index, action);
    lemma_total_update(Tally::Effort, state.workers, index, action);
    lemma_total_update(Tally::Winding, state.workers, index, action);
    assert(state.workers[index].holding());
    assert(state.holds_rightly(index));
    assert forall|other: int|
        0 <= other < next.workers.len() && (#[trigger] next.workers[other]).holding()
        implies next.holds_rightly(other) by {
        assert(state.workers[other].holding());
        assert(state.holds_rightly(other));
    }
    assert forall|first: int, second: int|
        #![trigger next.workers[first], next.workers[second]]
        0 <= first < second < next.workers.len() && next.workers[first].holding()
            && next.workers[second].holding() implies next.tags[first] != next.tags[second] by {
        assert(state.workers[first].holding());
        assert(state.workers[second].holding());
    }
    assert forall|other: int, place: int|
        #![trigger next.workers[other], next.order[place]]
        0 <= other < next.workers.len() && next.workers[other].holding() && 0 <= place
            < next.order.len() implies next.tags[other] != next.order[place] by {
        assert(state.workers[other].holding());
    }
    if !state.abandoned() {
        assert forall|other: int| 0 <= other < next.workers.len() && #[trigger] next.workers[other]
            is Exit implies state.workers[other] is Exit by {}
    }
}

/// The step of a worker that is about to send keeps the invariant.
pub proof fn lemma_emit<Item, Output>(state: State<Item, Output>, index: int, output: Output)
    requires
        state.inv(),
        0 <= index < state.workers.len(),
        state.workers[index] == worker::Action::<Item, Output>::Send(output),
    ensures
        state.emit(index, output).inv(),
        state.continued_by(state.emit(index, output)),
        state.emit(index, output) != state ==> state.emit(index, output).remaining()
            < state.remaining(),
        state.abandoned() && state.emit(index, output) != state ==> state.emit(
            index,
            output,
        ).winding() < state.winding(),
        state.emit(index, output).delivered == state.delivered,
        state.emit(index, output).abandoned() == state.abandoned(),
{
    let next = state.emit(index, output);
    state.lemma_counters();
    assert(state.workers[index].holding());
    assert(state.holds_rightly(index));
    match state.backward.send_outcome(output) {
        Sending::Accepted => {
            let action = worker::reaction(worker::Event::<Item, Output>::Sent);
            lemma_total_update(Tally::Live, state.workers, index, action);
            lemma_total_update(Tally::Holding, state.workers, index, action);
            lemma_total_update(Tally::Effort, state.workers, index, action);
    lemma_total_update(Tally::Winding, state.workers, index, action);
            lemma_total_update(Tally::Winding, state.workers, index, action);
            assert(next.backward.items =~= next.results.subrange(
                next.delivered as int,
                next.results.len() as int,
            ));
            assert forall|other: int|
                0 <= other < next.workers.len() && (#[trigger] next.workers[other]).holding()
                implies next.holds_rightly(other) by {
                assert(state.workers[other].holding());
                assert(state.holds_rightly(other));
            }
            assert forall|first: int, second: int|
                #![trigger next.workers[first], next.workers[second]]
                0 <= first < second < next.workers.len() && next.workers[first].holding()
                    && next.workers[second].holding() implies next.tags[first]
                != next.tags[second] by {
                assert(state.workers[first].holding());
                assert(state.workers[second].holding());
            }
            assert forall|place: int| 0 <= place < next.order.len() implies {
                &&& 0 <= #[trigger] next.order[place] < next.received
                &&& (next.relation)(next.submitted[next.order[place]], next.results[place])
            } by {
                if place < state.order.len() {
                    assert(next.order[place] == state.order[place]);
                }
            }
            assert forall|first: int, second: int|
                #![trigger next.order[first], next.order[second]]
                0 <= first < second < next.order.len() implies next.order[first]
                != next.order[second] by {
                assert(next.order[first] == state.order[first]);
                if second < state.order.len() {
                    assert(next.order[second] == state.order[second]);
                }
            }
            assert forall|other: int, place: int|
                #![trigger next.workers[other], next.order[place]]
                0 <= other < next.workers.len() && next.workers[other].holding() && 0 <= place
                    < next.order.len() implies next.tags[other] != next.order[place] by {
                assert(state.workers[other].holding());
                if place < state.order.len() {
                    assert(next.order[place] == state.order[place]);
                } else if other < index {
                    assert(state.tags[other] != state.tags[index]);
                } else {
                    assert(state.tags[index] != state.tags[other]);
                }
            }
            if !state.abandoned() {
                assert forall|other: int|
                    0 <= other < next.workers.len() && #[trigger] next.workers[other]
                        is Exit implies state.workers[other] is Exit by {}
            }
        },
        Sending::Full(_) => {},
        Sending::Closed(_) => {
            lemma_retire(state, index, worker::reaction(worker::Event::Refused));
        },
    }
}

/// Whatever a step of a worker leads to keeps the invariant.
pub proof fn lemma_works<Item, Output>(
    state: State<Item, Output>,
    index: int,
    next: State<Item, Output>,
)
    requires
        state.inv(),
        0 <= index < state.workers.len(),
        state.works(index, next),
    ensures
        next.inv(),
        state.continued_by(next),
        next != state ==> next.remaining() < state.remaining(),
        state.abandoned() && next != state ==> next.winding() < state.winding(),
        next.delivered == state.delivered,
        next.abandoned() == state.abandoned(),
{
    match state.workers[index] {
        worker::Action::Receive => {
            lemma_receive(state, index);
        },
        worker::Action::Apply(item) => {
            let output = next.workers[index]->Send_0;
            lemma_complete(state, index, output);
        },
        worker::Action::Send(output) => {
            lemma_emit(state, index, output);
        },
        worker::Action::Exit => {},
    }
}

/// The caller taking a result keeps the invariant.
pub proof fn lemma_consume<Item, Output>(state: State<Item, Output>)
    requires
        state.inv(),
    ensures
        state.consume().inv(),
        state.continued_by(state.consume()),
        state.deliverable() ==> state.consume().remaining() < state.remaining(),
        state.deliverable() ==> state.consume().delivered == state.delivered + 1,
        state.deliverable() ==> state.backward.items[0] == state.results[state.delivered as int],
        !state.deliverable() ==> state.consume() == state,
        state.consume().abandoned() == state.abandoned(),
{
    let next = state.consume();
    state.lemma_counters();
    if state.deliverable() {
        assert(next.backward.items =~= next.results.subrange(
            next.delivered as int,
            next.results.len() as int,
        ));
    }
}

/// The caller giving up keeps the invariant.
pub proof fn lemma_abandon<Item, Output>(state: State<Item, Output>)
    requires
        state.inv(),
    ensures
        state.abandon().inv(),
        state.continued_by(state.abandon()),
        state.abandon().remaining() == state.remaining(),
        state.abandon().winding() == state.winding(),
        state.abandon().delivered == state.delivered,
        state.abandon().abandoned(),
{
}

/// Continuation is transitive.
pub proof fn lemma_continued<Item, Output>(
    first: State<Item, Output>,
    second: State<Item, Output>,
    third: State<Item, Output>,
)
    requires
        first.continued_by(second),
        second.continued_by(third),
    ensures
        first.continued_by(third),
{
}

/// Whatever one step leads to keeps the invariant and continues the state.
pub proof fn lemma_steps_to<Item, Output>(state: State<Item, Output>, next: State<Item, Output>)
    requires
        state.inv(),
        state.steps_to(next),
    ensures
        next.inv(),
        state.continued_by(next),
        next.abandoned() == state.abandoned(),
        next != state ==> next.remaining() < state.remaining(),
{
    lemma_distribute(state);
    lemma_consume(state);
    if exists|index: int| 0 <= index < state.workers.len() && #[trigger] state.works(index, next) {
        let index = choose|index: int|
            0 <= index < state.workers.len() && #[trigger] state.works(index, next);
        lemma_works(state, index, next);
    }
}

/// Whatever any number of steps leads to keeps the invariant and continues
/// the state.
pub proof fn lemma_reaches<Item, Output>(
    state: State<Item, Output>,
    count: nat,
    next: State<Item, Output>,
)
    requires
        state.inv(),
        state.reaches(count, next),
    ensures
        next.inv(),
        state.continued_by(next),
        next.abandoned() == state.abandoned(),
        next.remaining() <= state.remaining(),
    decreases count,
{
    if count > 0 {
        let middle = choose|middle: State<Item, Output>|
            state.reaches((count - 1) as nat, middle) && #[trigger] middle.steps_to(next);
        lemma_reaches(state, (count - 1) as nat, middle);
        lemma_steps_to(middle, next);
    }
}

/// One step leads to what it leads to.
pub proof fn lemma_leads_by_step<Item, Output>(
    state: State<Item, Output>,
    next: State<Item, Output>,
)
    requires
        state.steps_to(next),
    ensures
        state.leads_to(next),
{
    assert(state.reaches(0, state));
    assert(state.reaches(1, next));
}

/// Every state leads to itself.
pub proof fn lemma_leads_nowhere<Item, Output>(state: State<Item, Output>)
    ensures
        state.leads_to(state),
{
    assert(state.reaches(0, state));
}

/// What a state leads to, it leads to by way of any state in between.
pub proof fn lemma_leads_on<Item, Output>(
    first: State<Item, Output>,
    second: State<Item, Output>,
    third: State<Item, Output>,
)
    requires
        first.leads_to(second),
        second.leads_to(third),
    ensures
        first.leads_to(third),
{
    let before = choose|count: nat| first.reaches(count, second);
    let after = choose|count: nat| second.reaches(count, third);
    lemma_reaches_on(first, before, second, after, third);
}

proof fn lemma_reaches_on<Item, Output>(
    first: State<Item, Output>,
    before: nat,
    second: State<Item, Output>,
    after: nat,
    third: State<Item, Output>,
)
    requires
        first.reaches(before, second),
        second.reaches(after, third),
    ensures
        first.reaches(before + after, third),
    decreases after,
{
    if after > 0 {
        let middle = choose|middle: State<Item, Output>|
            second.reaches((after - 1) as nat, middle) && #[trigger] middle.steps_to(third);
        lemma_reaches_on(first, before, second, (after - 1) as nat, middle);
        assert(first.reaches((before + after - 1) as nat, middle));
    }
}

/// A round is a number of steps.
pub proof fn lemma_sweeps_lead<Item, Output>(
    state: State<Item, Output>,
    count: nat,
    next: State<Item, Output>,
)
    requires
        state.inv(),
        count <= state.workers.len(),
        state.sweeps(count, next),
    ensures
        state.leads_to(next),
        next.workers.len() == state.workers.len(),
    decreases count,
{
    if count == 0 {
        lemma_leads_nowhere(state);
    } else {
        let middle = choose|middle: State<Item, Output>|
            state.sweeps((count - 1) as nat, middle) && #[trigger] middle.works(count - 1, next);
        lemma_sweeps_lead(state, (count - 1) as nat, middle);
        let steps = choose|steps: nat| state.reaches(steps, middle);
        lemma_reaches(state, steps, middle);
        lemma_works(middle, count - 1, next);
        assert(middle.steps_to(next));
        lemma_leads_by_step(middle, next);
        lemma_leads_on(state, middle, next);
    }
}

/// A round is a number of steps.
pub proof fn lemma_turn_leads<Item, Output>(
    state: State<Item, Output>,
    next: State<Item, Output>,
)
    requires
        state.inv(),
        state.turns_to(next),
    ensures
        state.leads_to(next),
{
    lemma_distribute(state);
    assert(state.steps_to(state.distribute()));
    lemma_leads_by_step(state, state.distribute());
    lemma_sweeps_lead(state.distribute(), state.workers.len(), next);
    lemma_leads_on(state, state.distribute(), next);
}

} // verus!
