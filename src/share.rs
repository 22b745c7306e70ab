use vstd::prelude::*;

verus! {

/// The number of items that each consumer takes in a producer/consumer
/// run of `items` items: each of the `producers` producers enqueues
/// `items / producers` of them, and each consumer takes as many. Every
/// enqueued item is taken only when there are as many consumers as
/// producers, so other counts, and zero producers, give `None`.
pub fn consumer_share(items: usize, producers: usize, consumers: usize) -> (r: Option<usize>)
    ensures
        r == if producers > 0 && producers == consumers {
            Some((items / producers) as usize)
        } else {
            None::<usize>
        },
{
    if producers > 0 && producers == consumers {
        Some(items / producers)
    } else {
        None
    }
}

} // verus!
