//! The results of a pool: one slot for each enqueued job, filled as the jobs
//! complete and emptied as the results are read.
use crate::errors::FetchLinkError;
use std::collections::VecDeque;
use vstd::prelude::*;

verus! {

/// What a fetch gave.
pub type FetchResult = Result<String, FetchLinkError>;

/// The slots of a pool and how far it has come.
#[derive(Debug)]
pub struct State {
    results: Vec<Option<FetchResult>>,
    completed: usize,
    total: usize,
    ready: VecDeque<usize>,
}

/// What a [`State`] holds: the slots in the order in which their jobs were
/// enqueued, how many jobs completed and were enqueued, and the slots filled
/// since they were last read, in the order in which they were filled.
pub struct StateView {
    pub results: Seq<Option<FetchResult>>,
    pub completed: nat,
    pub total: nat,
    pub ready: Seq<usize>,
}

/// Whether `index` is among `indices`.
pub open spec fn listed(indices: Seq<usize>, index: int) -> bool {
    exists|k: int| 0 <= k < indices.len() && indices[k] == index
}

/// The indices without repetition, each where it stands first.
pub open spec fn distinct(indices: Seq<usize>) -> Seq<usize>
    decreases indices.len(),
{
    if indices.len() == 0 {
        Seq::empty()
    } else if listed(indices.drop_last(), indices.last() as int) {
        distinct(indices.drop_last())
    } else {
        distinct(indices.drop_last()).push(indices.last())
    }
}

/// The results in the slots that are filled, in the order of the slots.
pub open spec fn present(results: Seq<Option<FetchResult>>) -> Seq<FetchResult>
    decreases results.len(),
{
    if results.len() == 0 {
        Seq::empty()
    } else {
        match results.last() {
            Some(result) => present(results.drop_last()).push(result),
            None => present(results.drop_last()),
        }
    }
}

/// `n` slots with nothing in them.
pub open spec fn vacant(n: nat) -> Seq<Option<FetchResult>> {
    Seq::new(n, |i: int| None)
}

impl StateView {
    /// Nothing enqueued yet.
    pub open spec fn initial() -> StateView {
        StateView { results: Seq::empty(), completed: 0, total: 0, ready: Seq::empty() }
    }

    /// The slots waiting to be read are the filled ones, and no slot was made
    /// without a job.
    pub open spec fn wf(self) -> bool {
        &&& self.results.len() <= self.total
        &&& forall|k: int|
            0 <= k < self.ready.len() ==> 0 <= #[trigger] self.ready[k] < self.results.len()
        &&& forall|i: int|
            0 <= i < self.results.len() ==> ((#[trigger] self.results[i]) is Some <==> listed(
                self.ready,
                i,
            ))
    }

    /// Whether every enqueued job has completed.
    pub open spec fn finished(self) -> bool {
        self.completed >= self.total
    }

    /// After another job was enqueued.
    pub open spec fn reserved(self) -> StateView {
        StateView { results: self.results.push(None), total: self.total + 1, ..self }
    }

    /// After the job of the slot `index` gave `result`.
    pub open spec fn recorded(self, index: usize, result: FetchResult) -> StateView {
        StateView {
            results: self.results.update(index as int, Some(result)),
            completed: self.completed + 1,
            ready: self.ready.push(index),
            ..self
        }
    }

    /// What reading the filled slots gives: each with its index, in the order in
    /// which they were filled.
    pub open spec fn readable(self) -> Seq<(usize, FetchResult)> {
        distinct(self.ready).map_values(|index: usize| (index, self.results[index as int]->0))
    }

    /// After the filled slots were read.
    pub open spec fn drained(self) -> StateView {
        StateView { results: vacant(self.results.len()), ready: Seq::empty(), ..self }
    }

    /// After all slots were read and given up.
    pub open spec fn emptied(self) -> StateView {
        StateView { results: Seq::empty(), ready: Seq::empty(), ..self }
    }
}

impl StateView {
    /// Where a slot waits to be read, reading gives something.
    pub proof fn lemma_readable_when_ready(self)
        ensures
            self.ready.len() > 0 ==> self.readable().len() > 0,
    {
        lemma_distinct_not_empty(self.ready);
    }
}

/// Dropping repetitions leaves at least one index.
proof fn lemma_distinct_not_empty(indices: Seq<usize>)
    ensures
        indices.len() > 0 ==> distinct(indices).len() > 0,
    decreases indices.len(),
{
    if indices.len() > 0 {
        lemma_distinct_not_empty(indices.drop_last());
    }
}

impl View for State {
    type V = StateView;

    closed spec fn view(&self) -> StateView {
        StateView {
            results: self.results@,
            completed: self.completed as nat,
            total: self.total as nat,
            ready: self.ready@,
        }
    }
}

impl State {
    /// Nothing enqueued yet.
    pub fn new() -> (state: State)
        ensures
            state@ == StateView::initial(),
            state@.wf(),
    {
        let state = State { results: Vec::new(), completed: 0, total: 0, ready: VecDeque::new() };
        assert(state@.results =~= StateView::initial().results);
        assert(state@.ready =~= StateView::initial().ready);
        state
    }

    /// How many jobs have completed.
    pub fn completed(&self) -> (completed: usize)
        ensures
            completed == self@.completed,
    {
        self.completed
    }

    /// How many jobs have been enqueued.
    pub fn total(&self) -> (total: usize)
        ensures
            total == self@.total,
    {
        self.total
    }

    /// How many slots there are.
    pub fn slots(&self) -> (slots: usize)
        ensures
            slots == self@.results.len(),
    {
        self.results.len()
    }

    /// Whether a filled slot waits to be read.
    pub fn has_ready(&self) -> (has_ready: bool)
        ensures
            has_ready == (self@.ready.len() > 0),
    {
        self.ready.len() > 0
    }

    /// Makes a slot for another job, and returns its index.
    pub fn reserve(&mut self) -> (index: usize)
        requires
            old(self)@.wf(),
            old(self)@.total < usize::MAX,
        ensures
            index == old(self)@.results.len(),
            final(self)@ == old(self)@.reserved(),
            final(self)@.wf(),
    {
        let index = self.results.len();
        self.results.push(None);
        self.total += 1;
        index
    }

    /// Puts the result of a job into its slot.
    pub fn record(&mut self, index: usize, result: FetchResult)
        requires
            old(self)@.wf(),
            index < old(self)@.results.len(),
            old(self)@.completed < usize::MAX,
        ensures
            final(self)@ == old(self)@.recorded(index, result),
            final(self)@.wf(),
    {
        self.results.set(index, Some(result));
        self.completed += 1;
        self.ready.push_back(index);
        proof {
            lemma_recorded_wf(old(self)@, index, result);
        }
    }

    /// Takes every completed-but-unread result. Only the queue of filled slots is
    /// walked, not all slots.
    pub fn drain_ready(&mut self) -> (out: Vec<(usize, FetchResult)>)
        requires
            old(self)@.wf(),
        ensures
            out@ == old(self)@.readable(),
            final(self)@ == old(self)@.drained(),
            final(self)@.wf(),
    {
        let mut ready = VecDeque::new();
        std::mem::swap(&mut ready, &mut self.ready);
        let mut out: Vec<(usize, FetchResult)> = Vec::with_capacity(ready.len());
        let ghost all = old(self)@.ready;
        let ghost results = old(self)@.results;
        let mut done: usize = 0;
        while done < ready.len()
            invariant
                done <= ready.len(),
                ready@ == all,
                old(self)@.wf(),
                all == old(self)@.ready,
                results == old(self)@.results,
                self.ready@.len() == 0,
                self.completed == old(self)@.completed,
                self.total == old(self)@.total,
                self.results@.len() == results.len(),
                forall|i: int|
                    0 <= i < results.len() ==> #[trigger] self.results@[i] == if listed(
                        all.take(done as int),
                        i,
                    ) {
                        None
                    } else {
                        results[i]
                    },
                out@ == distinct(all.take(done as int)).map_values(
                    |index: usize| (index, results[index as int]->0),
                ),
            decreases ready.len() - done,
        {
            let index = ready[done];
            let taken = self.results[index].take();
            if let Some(result) = taken {
                out.push((index, result));
            }
            proof {
                let before = all.take(done as int);
                let after = all.take(done + 1);
                assert(after =~= before.push(index));
                assert(after.drop_last() =~= before);
                assert forall|i: int| listed(after, i) <==> listed(before, i) || i == index by {
                    lemma_listed_push(before, index, i);
                }
                assert(listed(all, index as int));
                assert(results[index as int] is Some);
                assert(out@ =~= distinct(after).map_values(
                    |index: usize| (index, results[index as int]->0),
                ));
            }
            done += 1;
        }
        proof {
            assert(all.take(done as int) =~= all);
            assert(self@.results =~= old(self)@.drained().results);
            assert(self@.ready =~= old(self)@.drained().ready);
        }
        out
    }

    /// Takes every result still held, in the order of the slots, and gives the
    /// slots up. Results already handed out are gone and are simply skipped.
    pub fn collect(&mut self) -> (out: Vec<FetchResult>)
        requires
            old(self)@.wf(),
        ensures
            out@ == present(old(self)@.results),
            final(self)@ == old(self)@.emptied(),
            final(self)@.wf(),
    {
        self.ready.clear();
        let mut results: Vec<Option<FetchResult>> = Vec::new();
        std::mem::swap(&mut results, &mut self.results);
        let ghost all = results@;
        let mut out: Vec<FetchResult> = Vec::with_capacity(results.len());
        let mut done: usize = 0;
        while done < results.len()
            invariant
                done <= results.len(),
                results@.len() == all.len(),
                forall|i: int| done <= i < all.len() ==> #[trigger] results@[i] == all[i],
                out@ == present(all.take(done as int)),
            decreases results.len() - done,
        {
            if let Some(result) = results[done].take() {
                out.push(result);
            }
            assert(all.take(done + 1).drop_last() =~= all.take(done as int));
            done += 1;
        }
        assert(all.take(done as int) =~= all);
        assert(self@.results =~= old(self)@.emptied().results);
        assert(self@.ready =~= old(self)@.emptied().ready);
        out
    }
}

/// What is listed once an index was added.
pub(crate) proof fn lemma_listed_push(indices: Seq<usize>, added: usize, index: int)
    ensures
        listed(indices.push(added), index) <==> listed(indices, index) || index == added,
{
    let after = indices.push(added);
    if listed(indices, index) {
        let k = choose|k: int| 0 <= k < indices.len() && indices[k] == index;
        assert(after[k] == index);
    }
    if index == added {
        assert(after[indices.len() as int] == index);
    }
    if listed(after, index) && index != added {
        let k = choose|k: int| 0 <= k < after.len() && after[k] == index;
        assert(indices[k] == index);
    }
}

/// Recording keeps a state well-formed.
pub(crate) proof fn lemma_recorded_wf(state: StateView, index: usize, result: FetchResult)
    requires
        state.wf(),
        index < state.results.len(),
    ensures
        state.recorded(index, result).wf(),
{
    let after = state.recorded(index, result);
    assert forall|i: int| 0 <= i < after.results.len() implies ((#[trigger] after.results[i]) is Some
        <==> listed(after.ready, i)) by {
        lemma_listed_push(state.ready, index, i);
    }
}

} // verus!
