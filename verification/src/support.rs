//! Resolution of the worker count.

use vstd::prelude::*;

verus! {

/// The smallest pool the operator ever runs with.
pub const MINIMUM_WORKERS: usize = 1;

/// The worker count that an explicit request and the platform's reported
/// parallelism resolve to.
///
/// An explicit request wins and is used verbatim when it is at least one. A
/// request of zero is raised to one rather than rejected. Without a request
/// the platform's parallelism is used, and one when the platform reports
/// nothing (or reports zero).
pub open spec fn resolved_workers(value: Option<usize>, available: Option<usize>) -> usize {
    match value {
        Some(requested) => at_least_one(requested),
        None => match available {
            Some(detected) => at_least_one(detected),
            None => MINIMUM_WORKERS,
        },
    }
}

/// `count`, or one where `count` is zero.
pub open spec fn at_least_one(count: usize) -> usize {
    if count < MINIMUM_WORKERS {
        MINIMUM_WORKERS
    } else {
        count
    }
}

/// Resolves the number of workers of a pool.
///
/// `value` is the caller's explicit request, `available` the parallelism the
/// platform reports (`None` when it cannot be determined). The result is
/// never zero and has no upper bound of its own.
pub fn workers(value: Option<usize>, available: Option<usize>) -> (count: usize)
    ensures
        count == resolved_workers(value, available),
        count >= 1,
        value matches Some(requested) ==> (requested >= 1 ==> count == requested),
        value is None ==> (available matches Some(detected) ==> (detected >= 1 ==> count
            == detected)),
{
    let chosen: usize = match value {
        Some(requested) => requested,
        None => match available {
            Some(detected) => detected,
            None => MINIMUM_WORKERS,
        },
    };
    if chosen < MINIMUM_WORKERS {
        MINIMUM_WORKERS
    } else {
        chosen
    }
}

} // verus!
