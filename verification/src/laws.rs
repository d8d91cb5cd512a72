//! What holds of every pipeline.
//!
//! Each law is stated of a [`State`] that satisfies the invariant, which the
//! initial state does and every step keeps: so it holds at every moment of
//! every run, whatever the order in which the participants move.

use crate::model::State;
use crate::progress::{lemma_stalled, lemma_terminated};
use crate::safety::{lemma_consume, lemma_distribute, lemma_works};
use crate::tally::{lemma_none_live, lemma_total_bounds};
use vstd::prelude::*;
use vstd::seq_lib::{to_multiset_build, to_multiset_remove};

verus! {

/// `order` names each of the positions below `size` exactly once.
pub open spec fn arrangement(order: Seq<int>, size: nat) -> bool {
    &&& order.len() == size
    &&& forall|place: int| 0 <= place < order.len() ==> 0 <= #[trigger] order[place] < size
    &&& forall|first: int, second: int|
        #![trigger order[first], order[second]]
        0 <= first < second < order.len() ==> order[first] != order[second]
}

/// The values of `items` in the order that `order` names.
pub open spec fn arranged<T>(items: Seq<T>, order: Seq<int>) -> Seq<T> {
    Seq::new(order.len(), |place: int| items[order[place]])
}

/// Rearranging a sequence changes neither which values it holds nor how
/// often it holds each.
pub proof fn lemma_arranged_multiset<T>(items: Seq<T>, order: Seq<int>)
    requires
        arrangement(order, items.len()),
    ensures
        arranged(items, order).to_multiset() == items.to_multiset(),
    decreases order.len(),
{
    broadcast use vstd::multiset::group_multiset_axioms;

    if order.len() == 0 {
        assert(arranged(items, order) =~= items);
    } else {
        let last = order.last();
        let rest = order.drop_last();
        let fewer = items.remove(last);
        let shifted = Seq::new(
            rest.len(),
            |place: int|
                if rest[place] > last {
                    rest[place] - 1
                } else {
                    rest[place]
                },
        );
        assert forall|place: int| 0 <= place < shifted.len() implies 0 <= #[trigger] shifted[place]
            < fewer.len() by {
            assert(order[place] != order[order.len() - 1]);
        }
        assert forall|first: int, second: int|
            #![trigger shifted[first], shifted[second]]
            0 <= first < second < shifted.len() implies shifted[first] != shifted[second] by {
            assert(order[first] != order[second]);
            assert(order[first] != order[order.len() - 1]);
            assert(order[second] != order[order.len() - 1]);
        }
        lemma_arranged_multiset(fewer, shifted);
        assert(arranged(fewer, shifted) =~= arranged(items, rest)) by {
            assert forall|place: int| 0 <= place < rest.len() implies fewer[shifted[place]]
                == items[rest[place]] by {
                assert(order[place] != order[order.len() - 1]);
            }
        }
        assert(arranged(items, order) =~= arranged(items, rest).push(items[last]));
        to_multiset_build(arranged(items, rest), items[last]);
        to_multiset_remove(items, last);
        items.to_multiset_ensures();
        assert(items.to_multiset().count(items[last]) > 0);
        assert(items.to_multiset().remove(items[last]).insert(items[last])
            =~= items.to_multiset());
    }
}

/// At most once: at every moment, each result on record is the mapping of
/// one submitted item, no item has more than one result on record, and what
/// the caller has taken is the beginning of that record. So no result is ever
/// handed over for an item that was not mapped, and none twice.
pub proof fn law_at_most_once<Item, Output>(state: State<Item, Output>)
    requires
        state.inv(),
    ensures
        state.order.len() == state.results.len(),
        state.taken().len() == state.delivered,
        state.taken().is_prefix_of(state.results),
        forall|place: int|
            0 <= place < state.order.len() ==> {
                &&& 0 <= #[trigger] state.order[place] < state.submitted.len()
                &&& (state.relation)(state.submitted[state.order[place]], state.results[place])
            },
        forall|first: int, second: int|
            #![trigger state.order[first], state.order[second]]
            0 <= first < second < state.order.len() ==> state.order[first]
                != state.order[second],
{
    state.lemma_counters();
}

/// Completeness: once the caller has taken results until the sequence ended,
/// it has taken exactly as many results as items were submitted, and the
/// results are, in some order, the mappings of the submitted items, one of
/// each.
pub proof fn law_completeness<Item, Output>(state: State<Item, Output>)
    requires
        state.inv(),
        state.exhausted(),
        !state.abandoned(),
    ensures
        state.delivered == state.submitted.len(),
        state.taken() == state.results,
        arrangement(state.order, state.submitted.len()),
        forall|place: int|
            0 <= place < state.submitted.len() ==> (state.relation)(
                state.submitted[#[trigger] state.order[place]],
                state.taken()[place],
            ),
{
    state.lemma_counters();
    lemma_terminated(state);
    assert(state.taken() =~= state.results);
}

/// No duplication, no loss: once the caller has taken results until the
/// sequence ended, the items whose mappings it took are the submitted items,
/// each as often as it was submitted.
pub proof fn law_no_duplication_no_loss<Item, Output>(state: State<Item, Output>)
    requires
        state.inv(),
        state.exhausted(),
        !state.abandoned(),
    ensures
        arranged(state.submitted, state.order).len() == state.taken().len(),
        arranged(state.submitted, state.order).to_multiset() == state.submitted.to_multiset(),
{
    law_completeness(state);
    lemma_arranged_multiset(state.submitted, state.order);
}

/// Where the mapping is a function of the item alone, the results that the
/// caller took until the sequence ended are, up to their order, the values of
/// that function on the submitted items.
pub proof fn law_results_of_a_function<Item, Output>(
    state: State<Item, Output>,
    function: spec_fn(Item) -> Output,
)
    requires
        state.inv(),
        state.exhausted(),
        !state.abandoned(),
        forall|item: Item, output: Output|
            #[trigger] (state.relation)(item, output) ==> output == function(item),
    ensures
        state.taken().to_multiset() == state.submitted.map_values(function).to_multiset(),
{
    law_completeness(state);
    let values = state.submitted.map_values(function);
    lemma_arranged_multiset(values, state.order);
    assert(state.taken() =~= arranged(values, state.order)) by {
        assert forall|place: int| 0 <= place < state.taken().len() implies state.taken()[place]
            == arranged(values, state.order)[place] by {
            assert((state.relation)(
                state.submitted[state.order[place]],
                state.taken()[place],
            ));
        }
    }
}

/// Backpressure: at every moment neither queue holds more than its capacity,
/// and the distributor is ahead of the results that left the workers by no
/// more than what the forward queue holds and the workers have in hand, the
/// one item that it may itself have in hand aside. While the caller has not
/// given up, it is ahead of what the caller took by no more than the two
/// capacities and the items in hand.
pub proof fn law_backpressure<Item, Output>(state: State<Item, Output>)
    requires
        state.inv(),
    ensures
        state.forward.items.len() <= state.forward.capacity,
        state.backward.items.len() <= state.backward.capacity,
        state.in_flight() <= state.workers.len(),
        state.enqueued() == state.emitted() + state.lost + state.in_flight()
            + state.forward.items.len(),
        state.enqueued() <= state.emitted() + state.lost + state.in_flight()
            + state.forward.capacity,
        state.pulled <= state.enqueued() + 1,
        !state.abandoned() ==> state.enqueued() <= state.delivered + state.backward.capacity
            + state.in_flight() + state.forward.capacity,
{
    state.lemma_counters();
}

/// Early abandonment: once the caller has given up, the pipeline cannot
/// stall before everybody has stopped, and every step that changes anything
/// lowers a bound that depends on the size of the pool and of the forward
/// queue only, not on what is left of the input. So the distributor and
/// every worker stop within that many steps.
pub proof fn law_abandonment_winds_down<Item, Output>(state: State<Item, Output>)
    requires
        state.inv(),
        state.abandoned(),
    ensures
        state.winding() <= 5 * state.workers.len() + 2 * state.forward.capacity + 2,
        state.stalled() ==> state.terminated(),
        state.terminated() ==> state.winding() <= 2 * state.forward.capacity,
        state.distribute() != state ==> state.distribute().winding() < state.winding(),
        forall|index: int, next: State<Item, Output>|
            0 <= index < state.workers.len() && #[trigger] state.works(index, next) && next
                != state ==> next.winding() < state.winding(),
{
    lemma_total_bounds(state.workers);
    lemma_distribute(state);
    if state.terminated() {
        lemma_none_live(state.workers);
    } else if state.stalled() {
        lemma_stalled(state);
    }
    assert forall|index: int, next: State<Item, Output>|
        0 <= index < state.workers.len() && #[trigger] state.works(index, next) && next
            != state implies next.winding() < state.winding() by {
        lemma_works(state, index, next);
    }
}

/// The sequence is finite: while the caller keeps taking results, the
/// pipeline cannot stall before everybody has stopped, and every step that
/// changes anything, the caller's included, lowers a bound on the steps that
/// are left.
pub proof fn law_sequence_ends<Item, Output>(state: State<Item, Output>)
    requires
        state.inv(),
    ensures
        state.remaining() <= 6 * state.submitted.len() + 3 * state.workers.len() + 2,
        state.stalled() && !state.terminated() ==> state.deliverable(),
        state.deliverable() ==> state.consume().remaining() < state.remaining(),
        state.distribute() != state ==> state.distribute().remaining() < state.remaining(),
        forall|index: int, next: State<Item, Output>|
            0 <= index < state.workers.len() && #[trigger] state.works(index, next) && next
                != state ==> next.remaining() < state.remaining(),
{
    state.lemma_counters();
    lemma_total_bounds(state.workers);
    lemma_distribute(state);
    lemma_consume(state);
    if state.stalled() && !state.terminated() {
        lemma_stalled(state);
    }
    assert forall|index: int, next: State<Item, Output>|
        0 <= index < state.workers.len() && #[trigger] state.works(index, next) && next
            != state implies next.remaining() < state.remaining() by {
        lemma_works(state, index, next);
    }
}

} // verus!
