use parallel_loop::parallelize;
use parallel_loop::support::workers;

fn map(left: i32, right: i64) -> usize {
    left as usize * right as usize
}

fn double(value: usize, _context: ()) -> usize {
    2 * value
}

fn evens() -> Vec<usize> {
    vec![0, 2, 4, 6, 8, 10, 12, 14, 16, 18]
}

#[test]
fn synchronous_parallelize() {
    let mut values = parallelize((0..10).collect(), map, 2, None, None).collect();
    values.sort();
    assert_eq!(values, &[0, 2, 4, 6, 8, 10, 12, 14, 16, 18]);
}

#[test]
fn context_reaches_every_call() {
    let mut values = parallelize((0..10).collect(), map, 2, Some(3), Some(8)).collect();
    values.sort();
    assert_eq!(values, evens());
}

#[test]
fn doubling_with_one_worker() {
    let mut values = parallelize((0..10).collect(), double, (), Some(1), None).collect();
    values.sort();
    assert_eq!(values, evens());
}

#[test]
fn doubling_with_two_workers() {
    let mut values = parallelize((0..10).collect(), double, (), Some(2), None).collect();
    values.sort();
    assert_eq!(values, evens());
}

#[test]
fn doubling_with_default_workers() {
    let mut values = parallelize((0..10).collect(), double, (), None, Some(4)).collect();
    values.sort();
    assert_eq!(values, evens());
}

#[test]
fn doubling_with_more_workers_than_items() {
    let mut values = parallelize((0..10).collect(), double, (), Some(64), None).collect();
    values.sort();
    assert_eq!(values, evens());
}

#[test]
fn empty_input_yields_nothing() {
    let mut pipeline = parallelize(Vec::<usize>::new(), double, (), Some(3), None);
    assert!(pipeline.next().is_none());
    assert!(pipeline.is_terminated());
    assert_eq!(pipeline.collect(), Vec::<usize>::new());
}

#[test]
fn yields_one_result_per_item() {
    for count in [1usize, 2, 3, 7, 100] {
        for pool in [1usize, 2, 5] {
            let items: Vec<usize> = (0..count).collect();
            let values = parallelize(items, double, (), Some(pool), None).collect();
            assert_eq!(values.len(), count);
        }
    }
}

#[test]
fn repeated_items_keep_their_multiplicity() {
    let items = vec![3usize, 1, 3, 3, 1, 7];
    let mut values = parallelize(items, double, (), Some(2), None).collect();
    values.sort();
    assert_eq!(values, vec![2, 2, 6, 6, 6, 14]);
}

#[test]
fn closures_may_capture() {
    let offset = 5usize;
    let shift = move |value: usize, factor: usize| value * factor + offset;
    let mut values = parallelize(vec![1, 2, 3], shift, 10, Some(2), None).collect();
    values.sort();
    assert_eq!(values, vec![15, 25, 35]);
}

#[test]
fn failures_travel_in_the_output() {
    let checked = |value: i32, limit: i32| if value < limit { Ok(value) } else { Err(value) };
    let mut values = parallelize(vec![1, 5, 2, 9], checked, 4, Some(2), None).collect();
    values.sort();
    assert_eq!(values, vec![Ok(1), Ok(2), Err(5), Err(9)]);
}

#[test]
fn next_ends_after_the_last_result() {
    let mut pipeline = parallelize(vec![1usize, 2, 3], double, (), Some(2), None);
    let mut values = Vec::new();
    while let Some(value) = pipeline.next() {
        values.push(value);
    }
    values.sort();
    assert_eq!(values, vec![2, 4, 6]);
    assert!(pipeline.next().is_none());
    assert!(pipeline.is_terminated());
    assert_eq!(pipeline.live(), 0);
}

#[test]
fn collect_takes_what_is_left() {
    let mut pipeline = parallelize((0..10).collect(), double, (), Some(3), None);
    let first = pipeline.next().unwrap();
    let second = pipeline.next().unwrap();
    let mut values = pipeline.collect();
    assert_eq!(values.len(), 8);
    values.push(first);
    values.push(second);
    values.sort();
    assert_eq!(values, evens());
    assert_eq!(pipeline.collect(), Vec::<usize>::new());
}

#[test]
fn nothing_moves_before_the_first_request() {
    let pipeline = parallelize((0..10).collect(), double, (), Some(2), None);
    assert_eq!(pipeline.pending(), 10);
    assert_eq!(pipeline.queued(), 0);
    assert_eq!(pipeline.ready(), 0);
    assert_eq!(pipeline.workers(), 2);
    assert_eq!(pipeline.live(), 2);
    assert_eq!(pipeline.capacity(), 2);
    assert!(!pipeline.is_terminated());
    assert!(!pipeline.is_abandoned());
}

#[test]
fn workers_uses_the_request_verbatim() {
    assert_eq!(workers(Some(1), None), 1);
    assert_eq!(workers(Some(2), Some(16)), 2);
    assert_eq!(workers(Some(7), Some(1)), 7);
    assert_eq!(workers(Some(usize::MAX), None), usize::MAX);
}

#[test]
fn workers_raises_zero_to_one() {
    assert_eq!(workers(Some(0), None), 1);
    assert_eq!(workers(Some(0), Some(8)), 1);
    assert_eq!(workers(None, Some(0)), 1);
}

#[test]
fn workers_falls_back_to_the_platform() {
    assert_eq!(workers(None, Some(12)), 12);
    assert_eq!(workers(None, None), 1);
}

#[test]
fn pool_is_never_empty() {
    assert_eq!(parallelize(vec![1usize], double, (), Some(0), None).workers(), 1);
    assert_eq!(parallelize(vec![1usize], double, (), None, None).workers(), 1);
    assert_eq!(parallelize(vec![1usize], double, (), None, Some(0)).workers(), 1);
    assert_eq!(parallelize(vec![1usize], double, (), None, Some(6)).workers(), 6);
    assert_eq!(parallelize(vec![1usize], double, (), Some(0), None).collect(), vec![2]);
}
