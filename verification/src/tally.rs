//! Counting over the workers of a pool.

use crate::worker::Action;
use vstd::prelude::*;

verus! {

/// What is counted of each worker.
pub enum Tally {
    /// One for every worker that has not stopped.
    Live,
    /// One for every worker with an item or a result in hand.
    Holding,
    /// The steps a worker still has before it, if it took no further item:
    /// three when it is about to map, two when about to send, one when about
    /// to receive, none once it has stopped.
    Effort,
    /// A bound on what a worker still costs a pipeline whose caller is gone:
    /// one step when it is about to send, two when about to map, and five
    /// when about to receive, for the three steps of one more item and for
    /// the two steps in which the distributor may refill the place that the
    /// item leaves in the forward queue.
    Winding,
}

/// The contribution of one worker to a tally.
pub open spec fn weight<Item, Output>(tally: Tally, action: Action<Item, Output>) -> nat {
    match tally {
        Tally::Live => if action.exited() {
            0
        } else {
            1
        },
        Tally::Holding => if action.holding() {
            1
        } else {
            0
        },
        Tally::Effort => match action {
            Action::Receive => 1,
            Action::Apply(_) => 3,
            Action::Send(_) => 2,
            Action::Exit => 0,
        },
        Tally::Winding => match action {
            Action::Receive => 5,
            Action::Apply(_) => 2,
            Action::Send(_) => 1,
            Action::Exit => 0,
        },
    }
}

/// The sum of the workers' contributions to a tally.
pub open spec fn total<Item, Output>(tally: Tally, workers: Seq<Action<Item, Output>>) -> nat
    decreases workers.len(),
{
    if workers.len() == 0 {
        0
    } else {
        total(tally, workers.drop_last()) + weight(tally, workers.last())
    }
}

/// Replacing one worker's action changes a tally by the difference of the two
/// contributions.
pub proof fn lemma_total_update<Item, Output>(
    tally: Tally,
    workers: Seq<Action<Item, Output>>,
    index: int,
    action: Action<Item, Output>,
)
    requires
        0 <= index < workers.len(),
    ensures
        total(tally, workers.update(index, action)) + weight(tally, workers[index]) == total(
            tally,
            workers,
        ) + weight(tally, action),
    decreases workers.len(),
{
    let updated = workers.update(index, action);
    if index == workers.len() - 1 {
        assert(updated.drop_last() =~= workers.drop_last());
    } else {
        assert(updated.drop_last() =~= workers.drop_last().update(index, action));
        lemma_total_update(tally, workers.drop_last(), index, action);
    }
}

/// No worker contributes more than the whole.
pub proof fn lemma_total_covers<Item, Output>(
    tally: Tally,
    workers: Seq<Action<Item, Output>>,
    index: int,
)
    requires
        0 <= index < workers.len(),
    ensures
        weight(tally, workers[index]) <= total(tally, workers),
    decreases workers.len(),
{
    if index < workers.len() - 1 {
        lemma_total_covers(tally, workers.drop_last(), index);
    }
}

/// A tally is bounded by the largest contribution times the number of
/// workers; in particular the live and the holding workers are never more
/// than the pool.
pub proof fn lemma_total_bounds<Item, Output>(workers: Seq<Action<Item, Output>>)
    ensures
        total(Tally::Live, workers) <= workers.len(),
        total(Tally::Holding, workers) <= total(Tally::Live, workers),
        total(Tally::Effort, workers) <= 3 * workers.len(),
        total(Tally::Winding, workers) <= 5 * workers.len(),
    decreases workers.len(),
{
    if workers.len() > 0 {
        lemma_total_bounds(workers.drop_last());
    }
}

/// Where every worker is about to receive, all are live, none holds
/// anything, and each has one step before it.
pub proof fn lemma_total_fresh<Item, Output>(workers: Seq<Action<Item, Output>>)
    requires
        forall|index: int| 0 <= index < workers.len() ==> workers[index] is Receive,
    ensures
        total(Tally::Live, workers) == workers.len(),
        total(Tally::Holding, workers) == 0,
        total(Tally::Effort, workers) == workers.len(),
    decreases workers.len(),
{
    if workers.len() > 0 {
        lemma_total_fresh(workers.drop_last());
    }
}

/// Where no worker is live, every worker has stopped.
pub proof fn lemma_none_live<Item, Output>(workers: Seq<Action<Item, Output>>)
    requires
        total(Tally::Live, workers) == 0,
    ensures
        forall|index: int| 0 <= index < workers.len() ==> workers[index] is Exit,
        total(Tally::Holding, workers) == 0,
        total(Tally::Effort, workers) == 0,
        total(Tally::Winding, workers) == 0,
    decreases workers.len(),
{
    if workers.len() > 0 {
        lemma_none_live(workers.drop_last());
        assert forall|index: int| 0 <= index < workers.len() implies workers[index] is Exit by {
            if index < workers.len() - 1 {
                assert(workers[index] == workers.drop_last()[index]);
            }
        }
    }
}

/// Where every worker has stopped, no worker is live.
pub proof fn lemma_all_stopped<Item, Output>(workers: Seq<Action<Item, Output>>)
    requires
        forall|index: int| 0 <= index < workers.len() ==> workers[index] is Exit,
    ensures
        total(Tally::Live, workers) == 0,
    decreases workers.len(),
{
    if workers.len() > 0 {
        lemma_all_stopped(workers.drop_last());
    }
}

} // verus!
