//! Lists of results, parted into what succeeded and what failed.
use itertools::Itertools;
use vstd::prelude::*;

verus! {

/// The values of the results that succeeded, in order.
pub open spec fn successes<T, E>(results: Seq<Result<T, E>>) -> Seq<T>
    decreases results.len(),
{
    if results.len() == 0 {
        Seq::empty()
    } else {
        match results.last() {
            Ok(t) => successes(results.drop_last()).push(t),
            Err(_) => successes(results.drop_last()),
        }
    }
}

/// The errors of the results that failed, in order.
pub open spec fn failures<T, E>(results: Seq<Result<T, E>>) -> Seq<E>
    decreases results.len(),
{
    if results.len() == 0 {
        Seq::empty()
    } else {
        match results.last() {
            Ok(_) => failures(results.drop_last()),
            Err(e) => failures(results.drop_last()).push(e),
        }
    }
}

/// `Itertools::partition_result`, on the results in a vector: it puts every
/// `Ok` value into the first list and every `Err` value into the second, each
/// list in the order of the results.
#[verifier::external_body]
pub(crate) fn partition<T, E>(results: Vec<Result<T, E>>) -> (r: (Vec<T>, Vec<E>))
    ensures
        r.0@ == successes(results@),
        r.1@ == failures(results@),
{
    results.into_iter().partition_result()
}

} // verus!
