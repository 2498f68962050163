//! What holds of a pool over more than one call.
use crate::pool::{pushed_job, FetchQueueView};
use crate::state::{
    distinct, lemma_listed_push, lemma_recorded_wf, listed, present, vacant, FetchResult, StateView,
};
use vstd::prelude::*;

verus! {

// ---------------------------------------------------------------------------
// Slots
// ---------------------------------------------------------------------------
/// Every index that is left once repetitions are dropped was there before.
pub(crate) proof fn lemma_distinct_listed(indices: Seq<usize>, index: int)
    ensures
        listed(distinct(indices), index) <==> listed(indices, index),
    decreases indices.len(),
{
    if indices.len() > 0 {
        let rest = indices.drop_last();
        lemma_distinct_listed(rest, index);
        lemma_listed_push(rest, indices.last(), index);
        lemma_listed_push(distinct(rest), indices.last(), index);
        assert(indices =~= rest.push(indices.last()));
    }
}

/// Nothing is repeated once repetitions are dropped.
pub(crate) proof fn lemma_distinct_no_duplicates(indices: Seq<usize>)
    ensures
        distinct(indices).no_duplicates(),
    decreases indices.len(),
{
    if indices.len() > 0 {
        let rest = indices.drop_last();
        lemma_distinct_no_duplicates(rest);
        if !listed(rest, indices.last() as int) {
            lemma_distinct_listed(rest, indices.last() as int);
            assert forall|i: int, j: int|
                0 <= i < distinct(indices).len() && 0 <= j < distinct(indices).len() && i
                    != j implies distinct(indices)[i] != distinct(indices)[j] by {
                let last = distinct(rest).len() as int;
                if i == last {
                    assert(distinct(rest)[j] == distinct(indices)[j]);
                } else if j == last {
                    assert(distinct(rest)[i] == distinct(indices)[i]);
                }
            }
        }
    }
}

/// Slots with nothing in them hold no result.
pub(crate) proof fn lemma_vacant_present(n: nat)
    ensures
        present(vacant(n)) == Seq::<FetchResult>::empty(),
    decreases n,
{
    if n > 0 {
        assert(vacant(n).drop_last() =~= vacant((n - 1) as nat));
        lemma_vacant_present((n - 1) as nat);
    }
}

/// A result is handed out once: what was read, as it arrived or all at once, is
/// not there to be read again in either way.
pub proof fn law_results_are_read_once(state: StateView)
    requires
        state.wf(),
    ensures
        state.drained().readable() == Seq::<(usize, FetchResult)>::empty(),
        present(state.drained().results) == Seq::<FetchResult>::empty(),
        state.emptied().readable() == Seq::<(usize, FetchResult)>::empty(),
        present(state.emptied().results) == Seq::<FetchResult>::empty(),
{
    lemma_vacant_present(state.results.len());
    assert(state.drained().readable() =~= Seq::<(usize, FetchResult)>::empty());
    assert(state.emptied().readable() =~= Seq::<(usize, FetchResult)>::empty());
}

/// A result comes back under the index of its job, behind those that arrived
/// earlier.
pub proof fn law_result_comes_back_under_its_index(
    state: StateView,
    index: usize,
    result: FetchResult,
)
    requires
        state.wf(),
        index < state.results.len(),
        state.results[index as int] is None,
    ensures
        state.recorded(index, result).readable() == state.readable().push((index, result)),
{
    let after = state.recorded(index, result);
    assert(after.ready.drop_last() =~= state.ready);
    assert(!listed(state.ready, index as int));
    let kept = distinct(state.ready);
    assert forall|k: int| 0 <= k < kept.len() implies index != #[trigger] kept[k] && kept[k]
        < state.results.len() by {
        lemma_distinct_listed(state.ready, kept[k] as int);
        assert(listed(kept, kept[k] as int));
    }
    assert(after.readable() =~= state.readable().push((index, result)));
}

/// How many results stand before the slot `i`.
pub open spec fn position(results: Seq<Option<FetchResult>>, i: int) -> int {
    present(results.take(i)).len() as int
}

/// Collecting all results at once gives those still held in the order in which
/// their jobs were enqueued, also where some were read before: the result of a
/// slot is there, and stands behind those of all earlier slots.
pub proof fn law_wait_keeps_the_enqueue_order(results: Seq<Option<FetchResult>>, i: int, j: int)
    requires
        0 <= i < j < results.len(),
        results[i] is Some,
        results[j] is Some,
    ensures
        0 <= position(results, i) < position(results, j) < present(results).len(),
        present(results)[position(results, i)] == results[i]->0,
        present(results)[position(results, j)] == results[j]->0,
{
    lemma_position(results, i, results.len() as int);
    lemma_position(results, j, results.len() as int);
    lemma_position(results, i, j);
    assert(results.take(results.len() as int) =~= results);
}

/// The result of a slot among those of the slots before `end`.
proof fn lemma_position(results: Seq<Option<FetchResult>>, i: int, end: int)
    requires
        0 <= i < end <= results.len(),
        results[i] is Some,
    ensures
        position(results, i) < position(results, end),
        present(results.take(end))[position(results, i)] == results[i]->0,
    decreases end,
{
    assert(results.take(end).drop_last() =~= results.take(end - 1));
    if i < end - 1 {
        lemma_position(results, i, end - 1);
    }
}

/// Where every slot holds a result, collecting gives one result for each slot.
pub(crate) proof fn lemma_all_present(results: Seq<Option<FetchResult>>)
    requires
        forall|i: int| 0 <= i < results.len() ==> (#[trigger] results[i]) is Some,
    ensures
        present(results).len() == results.len(),
        forall|i: int| 0 <= i < results.len() ==> #[trigger] present(results)[i] == results[i]->0,
    decreases results.len(),
{
    if results.len() > 0 {
        let rest = results.drop_last();
        assert forall|i: int| 0 <= i < rest.len() implies (#[trigger] rest[i]) is Some by {
            assert(results[i] is Some);
        }
        lemma_all_present(rest);
        assert(results[results.len() - 1] is Some);
        assert forall|i: int| 0 <= i < results.len() implies #[trigger] present(results)[i]
            == results[i]->0 by {
            if i < rest.len() {
                assert(present(rest)[i] == rest[i]->0);
            }
        }
    }
}

// ---------------------------------------------------------------------------
// Batches
// ---------------------------------------------------------------------------
/// After some jobs completed, one after another.
pub open spec fn all_recorded(
    state: StateView,
    completions: Seq<(usize, FetchResult)>,
) -> StateView
    decreases completions.len(),
{
    if completions.len() == 0 {
        state
    } else {
        all_recorded(state, completions.drop_last()).recorded(
            completions.last().0,
            completions.last().1,
        )
    }
}

/// Pushing some URLs enqueues one job for each, in their order and with its place
/// in that order as its index, and makes one slot for each.
pub proof fn law_pushes_keep_their_order(urls: Seq<Seq<char>>)
    requires
        urls.len() <= usize::MAX,
    ensures
        FetchQueueView::initial().all_pushed(urls).jobs == Seq::new(
            urls.len(),
            |i: int| Some(pushed_job(urls[i], i as usize)),
        ),
        FetchQueueView::initial().all_pushed(urls).state == (StateView {
            results: vacant(urls.len()),
            completed: 0,
            total: urls.len(),
            ready: Seq::empty(),
        }),
    decreases urls.len(),
{
    let after = FetchQueueView::initial().all_pushed(urls);
    if urls.len() > 0 {
        law_pushes_keep_their_order(urls.drop_last());
        assert(after.state.results =~= vacant(urls.len()));
    } else {
        assert(after.state.results =~= vacant(0));
    }
    assert(after.jobs =~= Seq::new(
        urls.len(),
        |i: int| Some(pushed_job(urls[i], i as usize)),
    ));
}

/// Whether no job completes twice, and each has a slot.
pub open spec fn completes_each_once(completions: Seq<(usize, FetchResult)>, slots: nat) -> bool {
    &&& forall|k: int| 0 <= k < completions.len() ==> (#[trigger] completions[k]).0 < slots
    &&& forall|k: int, l: int|
        0 <= k < l < completions.len() ==> (#[trigger] completions[k]).0 != (
        #[trigger] completions[l]).0
}

/// The slots of `n` jobs of which some completed.
proof fn lemma_recorded_slots(n: nat, start: StateView, completions: Seq<(usize, FetchResult)>)
    requires
        start == (StateView { results: vacant(n), completed: 0, total: n, ready: Seq::empty() }),
        completes_each_once(completions, n),
    ensures
        all_recorded(start, completions).wf(),
        all_recorded(start, completions).results.len() == n,
        all_recorded(start, completions).completed == completions.len(),
        all_recorded(start, completions).total == n,
        all_recorded(start, completions).readable() == completions,
        forall|k: int|
            0 <= k < completions.len() ==> all_recorded(start, completions).results[(
            #[trigger] completions[k]).0 as int] == Some(completions[k].1),
        forall|i: int|
            0 <= i < n && (forall|k: int|
                0 <= k < completions.len() ==> (#[trigger] completions[k]).0 != i)
                ==> #[trigger] all_recorded(start, completions).results[i] is None,
    decreases completions.len(),
{
    let after = all_recorded(start, completions);
    if completions.len() == 0 {
        assert(after.readable() =~= completions);
    } else {
        let rest = completions.drop_last();
        let last = completions.last();
        assert forall|k: int| 0 <= k < rest.len() implies (#[trigger] rest[k]).0 < n && rest[k].0
            != last.0 by {
            assert(completions[k] == rest[k]);
            assert(completions[completions.len() - 1] == last);
        }
        assert(completes_each_once(rest, n)) by {
            assert forall|k: int, l: int| 0 <= k < l < rest.len() implies (#[trigger] rest[k]).0
                != (#[trigger] rest[l]).0 by {
                assert(completions[k].0 != completions[l].0);
            }
        }
        assert(completions[completions.len() - 1].0 < n);
        lemma_recorded_slots(n, start, rest);
        let before = all_recorded(start, rest);
        law_result_comes_back_under_its_index(before, last.0, last.1);
        assert(rest.push(last) =~= completions);
        lemma_recorded_wf(before, last.0, last.1);
        assert forall|k: int| 0 <= k < completions.len() implies after.results[(
        #[trigger] completions[k]).0 as int] == Some(completions[k].1) by {
            if k < rest.len() {
                assert(rest[k] == completions[k]);
            }
        }
        assert forall|i: int|
            0 <= i < n && (forall|k: int|
                0 <= k < completions.len() ==> (#[trigger] completions[k]).0
                    != i) implies #[trigger] after.results[i] is None by {
            assert(completions[completions.len() - 1].0 != i);
            assert forall|k: int| 0 <= k < rest.len() implies (#[trigger] rest[k]).0 != i by {
                assert(completions[k].0 != i);
            }
            assert(before.results[i] is None);
        }
    }
}

/// As many different indices as there are slots reach every slot.
proof fn lemma_every_slot_reached(completions: Seq<(usize, FetchResult)>, i: int)
    requires
        completes_each_once(completions, completions.len()),
        0 <= i < completions.len(),
    ensures
        exists|k: int| 0 <= k < completions.len() && (#[trigger] completions[k]).0 == i,
{
    let indices = completions.map_values(|completion: (usize, FetchResult)| completion.0 as int);
    assert(indices.no_duplicates()) by {
        assert forall|k: int, l: int|
            0 <= k < indices.len() && 0 <= l < indices.len() && k != l implies indices[k]
            != indices[l] by {
            if k < l {
                assert(completions[k].0 != completions[l].0);
            } else {
                assert(completions[l].0 != completions[k].0);
            }
        }
    }
    let n = completions.len() as int;
    let reached = indices.to_set();
    let slots = vstd::set_lib::set_int_range(0, n);
    indices.unique_seq_to_set();
    vstd::set_lib::lemma_int_range(0, n);
    assert(reached.subset_of(slots)) by {
        assert forall|x: int| reached.contains(x) implies slots.contains(x) by {
            let k = choose|k: int| 0 <= k < indices.len() && indices[k] == x;
            assert(completions[k].0 < n);
        }
    }
    vstd::set_lib::lemma_subset_equality(reached, slots);
    assert(slots.contains(i));
    assert(indices.contains(i));
    let k = choose|k: int| 0 <= k < indices.len() && indices[k] == i;
    assert(completions[k].0 == i);
}

/// A batch of URLs gives one result for each, whatever the order in which the
/// workers complete them: all at once they come in the order of the URLs, and as
/// they arrive they come in the order of completion, each under the index of its
/// URL.
pub proof fn law_batch_results(urls: Seq<Seq<char>>, completions: Seq<(usize, FetchResult)>)
    requires
        urls.len() <= usize::MAX,
        completions.len() == urls.len(),
        completes_each_once(completions, urls.len()),
    ensures
        ({
            let state = all_recorded(
                FetchQueueView::initial().all_pushed(urls).state,
                completions,
            );
            &&& state.finished()
            &&& state.readable() == completions
            &&& present(state.results).len() == urls.len()
            &&& forall|k: int|
                0 <= k < completions.len() ==> present(state.results)[(
                #[trigger] completions[k]).0 as int] == completions[k].1
        }),
{
    law_pushes_keep_their_order(urls);
    let start = FetchQueueView::initial().all_pushed(urls).state;
    let state = all_recorded(start, completions);
    lemma_recorded_slots(urls.len(), start, completions);
    assert forall|i: int| 0 <= i < state.results.len() implies (#[trigger] state.results[i]) is Some
        by {
        lemma_every_slot_reached(completions, i);
        let k = choose|k: int| 0 <= k < completions.len() && (#[trigger] completions[k]).0 == i;
        assert(state.results[completions[k].0 as int] == Some(completions[k].1));
    }
    lemma_all_present(state.results);
    assert forall|k: int| 0 <= k < completions.len() implies present(state.results)[(
    #[trigger] completions[k]).0 as int] == completions[k].1 by {
        assert(state.results[completions[k].0 as int] == Some(completions[k].1));
    }
}

} // verus!
