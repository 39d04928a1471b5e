//! All or nothing: how a sequence of items is turned into a sequence of
//! results, or into the failure of the first item that fails.

use vstd::prelude::*;

verus! {

/// The results of `each` on the items, in order, where it succeeds on all of
/// them; else the failure of the first item on which it fails.
pub open spec fn collect<A, B, E>(items: Seq<A>, each: spec_fn(A) -> Result<B, E>) -> Result<Seq<B>, E>
    decreases items.len(),
{
    if items.len() == 0 {
        Ok(Seq::empty())
    } else {
        match collect(items.drop_last(), each) {
            Err(failure) => Err(failure),
            Ok(done) => match each(items.last()) {
                Err(failure) => Err(failure),
                Ok(result) => Ok(done.push(result)),
            },
        }
    }
}

/// What one more item adds to the outcome for the items before it.
pub proof fn lemma_collect_step<A, B, E>(items: Seq<A>, each: spec_fn(A) -> Result<B, E>, done: int)
    requires
        0 <= done < items.len(),
    ensures
        collect(items.take(done + 1), each) == match collect(items.take(done), each) {
            Err(failure) => Err::<Seq<B>, E>(failure),
            Ok(results) => match each(items[done]) {
                Err(failure) => Err(failure),
                Ok(result) => Ok(results.push(result)),
            },
        },
{
    assert(items.take(done + 1).drop_last() =~= items.take(done));
    assert(items.take(done + 1).last() == items[done]);
}

/// A failure among the first items is the failure of the whole.
pub proof fn lemma_collect_failure<A, B, E>(items: Seq<A>, each: spec_fn(A) -> Result<B, E>, done: int)
    requires
        0 <= done <= items.len(),
        collect(items.take(done), each) is Err,
    ensures
        collect(items, each) == collect(items.take(done), each),
    decreases items.len() - done,
{
    if done < items.len() {
        lemma_collect_step(items, each, done);
        lemma_collect_failure(items, each, done + 1);
    } else {
        assert(items.take(done) =~= items);
    }
}

/// Where all items succeed, each has its result at its own index.
pub proof fn lemma_collect_results<A, B, E>(items: Seq<A>, each: spec_fn(A) -> Result<B, E>)
    ensures
        collect(items, each) matches Ok(results) ==> {
            &&& results.len() == items.len()
            &&& forall|i: int| 0 <= i < items.len() ==> each(#[trigger] items[i]) == Ok::<B, E>(results[i])
        },
    decreases items.len(),
{
    if items.len() > 0 {
        lemma_collect_results(items.drop_last(), each);
        if let Ok(results) = collect(items, each) {
            assert forall|i: int| 0 <= i < items.len() implies each(#[trigger] items[i]) == Ok::<B, E>(
                results[i],
            ) by {
                if i < items.len() - 1 {
                    assert(items.drop_last()[i] == items[i]);
                }
            }
        }
    }
}

/// Where the outcome is a failure, it is the failure of the first item that
/// fails, and every item before it succeeds.
pub proof fn lemma_collect_first_failure<A, B, E>(items: Seq<A>, each: spec_fn(A) -> Result<B, E>) -> (first: int)
    requires
        collect(items, each) is Err,
    ensures
        0 <= first < items.len(),
        each(items[first]) is Err,
        each(items[first])->Err_0 == collect(items, each)->Err_0,
        forall|i: int| 0 <= i < first ==> each(#[trigger] items[i]) is Ok,
    decreases items.len(),
{
    let front = items.drop_last();
    if collect(front, each) is Err {
        let first = lemma_collect_first_failure(front, each);
        assert forall|i: int| 0 <= i < first implies each(#[trigger] items[i]) is Ok by {
            assert(front[i] == items[i]);
        }
        assert(front[first] == items[first]);
        first
    } else {
        lemma_collect_results(front, each);
        assert forall|i: int| 0 <= i < items.len() - 1 implies each(#[trigger] items[i]) is Ok by {
            assert(front[i] == items[i]);
        }
        items.len() - 1
    }
}

} // verus!
