//! The operator on the caller's own thread.

use crate::model::initial;
use crate::pipeline::{applicable, yields, Pipeline};
use crate::support::resolved_workers;
use vstd::prelude::*;

verus! {

/// Process items in parallel.
///
/// Sets up a pipeline that maps every one of `items` with `map`, each call
/// receiving its own duplicate of `context`, over a pool whose size is
/// resolved from `workers` and from `available`, the parallelism that the
/// platform reports. Both queues get the capacity of the pool.
///
/// Nothing moves until the caller asks for results: the returned pipeline is
/// the lazily produced result sequence. It yields one result for every item,
/// in no promised order, and cannot be restarted.
pub fn parallelize<Item, Mapper, Context, Output>(
    items: Vec<Item>,
    map: Mapper,
    context: Context,
    workers: Option<usize>,
    available: Option<usize>,
) -> (pipeline: Pipeline<Item, Context, Output, Mapper>) where
    Mapper: Fn(Item, Context) -> Output,
    Context: Clone,

    requires
        applicable(map, context, items@),
    ensures
        pipeline.wf(),
        pipeline.mapping() == map,
        pipeline.shared() == context,
        pipeline@ == initial(
            items@,
            yields(map, context),
            resolved_workers(workers, available) as nat,
            resolved_workers(workers, available) as nat,
        ),
        pipeline@.workers.len() >= 1,
{
    let count = crate::support::workers(workers, available);
    Pipeline::new(items, map, context, count)
}

} // verus!
