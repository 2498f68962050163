//! Runs of a pool: what callers and workers do to it, one step after another in
//! any order, and what holds after every step.
use crate::laws::{
    law_pushes_keep_their_order, lemma_distinct_listed, lemma_distinct_no_duplicates,
    lemma_vacant_present,
};
use crate::pool::{settled_result, FetchQueueView, WorkerPoolView};
use crate::queue::{started, stops, JobView};
use crate::state::{
    distinct, lemma_recorded_wf, listed, present, FetchResult, StateView,
};
use ureq::Agent;
use vstd::multiset::Multiset;
use vstd::prelude::*;

verus! {

// ---------------------------------------------------------------------------
// Steps
// ---------------------------------------------------------------------------
/// A pool together with its workers and its readers.
pub struct Run {
    pub pool: WorkerPoolView,
    /// The jobs that workers are running.
    pub running: Seq<JobView>,
    /// How many workers have stopped.
    pub stopped: nat,
    /// The results of all fetches so far.
    pub gave: Multiset<FetchResult>,
    /// The results that were handed to readers so far.
    pub handed: Multiset<FetchResult>,
}

/// What can happen to a pool.
pub enum Step {
    /// A URL is pushed.
    Push(Seq<char>),
    /// An idle worker takes the oldest entry.
    Take,
    /// The worker that runs the job of that number ends it: with what its fetch
    /// gave, or with `None` when the fetch panicked.
    Finish(int, Option<FetchResult>),
    /// A reader takes the results that have arrived.
    Read,
    /// A reader takes all results, once every job has completed.
    Collect,
    /// The pool is closed.
    Close,
}

/// How many entries of a queue are jobs.
pub open spec fn job_count(entries: Seq<Option<JobView>>) -> nat
    decreases entries.len(),
{
    if entries.len() == 0 {
        0
    } else {
        job_count(entries.drop_last()) + if entries.last() is Some {
            1nat
        } else {
            0nat
        }
    }
}

/// The results among what reading gives.
pub open spec fn results_of(items: Seq<(usize, FetchResult)>) -> Seq<FetchResult> {
    items.map_values(|item: (usize, FetchResult)| item.1)
}

/// Whether a job has a slot that nothing was put into.
pub open spec fn slot_open(state: StateView, job: JobView) -> bool {
    job.index matches Some(index) && index < state.results.len()
        && state.results[index as int] is None
}

impl Run {
    /// A fresh pool.
    pub open spec fn initial(agent: Agent, workers: nat) -> Run {
        Run {
            pool: WorkerPoolView::initial(agent, workers),
            running: Seq::empty(),
            stopped: 0,
            gave: Multiset::empty(),
            handed: Multiset::empty(),
        }
    }

    /// The entries that wait for a worker.
    pub open spec fn entries(self) -> Seq<Option<JobView>> {
        self.pool.queue.jobs
    }

    /// The results of the pool.
    pub open spec fn state(self) -> StateView {
        self.pool.queue.state
    }

    /// Whether a step can happen now.
    pub open spec fn allows(self, step: Step) -> bool {
        match step {
            Step::Push(url) => !self.pool.closed() && self.state().total < usize::MAX,
            Step::Take => self.entries().len() > 0 && self.running.len() + self.stopped
                < self.pool.workers,
            Step::Finish(number, attempt) => 0 <= number < self.running.len(),
            Step::Read => true,
            Step::Collect => self.state().finished(),
            Step::Close => true,
        }
    }

    /// The pool with another queue.
    pub open spec fn with_queue(self, queue: FetchQueueView) -> WorkerPoolView {
        WorkerPoolView { queue, ..self.pool }
    }

    /// The pool with other results.
    pub open spec fn with_state(self, state: StateView) -> WorkerPoolView {
        self.with_queue(FetchQueueView { state, ..self.pool.queue })
    }

    /// After a step.
    pub open spec fn after(self, step: Step) -> Run {
        match step {
            Step::Push(url) => Run { pool: self.with_queue(self.pool.queue.pushed(url)), ..self },
            Step::Take => match started(self.entries()[0]) {
                Some(job) => Run {
                    pool: self.with_queue(self.pool.queue.taken()),
                    running: self.running.push(job),
                    ..self
                },
                None => Run {
                    pool: self.with_queue(self.pool.queue.taken()),
                    stopped: self.stopped + 1,
                    ..self
                },
            },
            Step::Finish(number, attempt) => Run {
                pool: self.with_queue(self.pool.queue.ended(self.running[number], attempt)),
                running: self.running.remove(number),
                gave: self.gave.insert(settled_result(attempt)),
                ..self
            },
            Step::Read => Run {
                pool: self.with_state(self.state().drained()),
                handed: self.handed.add(results_of(self.state().readable()).to_multiset()),
                ..self
            },
            Step::Collect => Run {
                pool: self.with_state(self.state().emptied()),
                handed: self.handed.add(present(self.state().results).to_multiset()),
                ..self
            },
            Step::Close => Run { pool: self.pool.shut(), ..self },
        }
    }

    /// Every job that has not completed has a slot of its own, in which nothing
    /// was put yet.
    pub open spec fn slots_apart(self) -> bool {
        let entries = self.entries();
        let running = self.running;
        &&& forall|p: int|
            0 <= p < entries.len() && (#[trigger] entries[p]) is Some ==> slot_open(
                self.state(),
                entries[p]->0,
            )
        &&& forall|q: int| 0 <= q < running.len() ==> slot_open(self.state(), #[trigger] running[q])
        &&& forall|p: int, r: int|
            0 <= p < r < entries.len() && (#[trigger] entries[p]) is Some && (
            #[trigger] entries[r]) is Some ==> entries[p]->0.index != entries[r]->0.index
        &&& forall|q: int, r: int|
            0 <= q < r < running.len() ==> (#[trigger] running[q]).index != (
            #[trigger] running[r]).index
        &&& forall|p: int, q: int|
            0 <= p < entries.len() && 0 <= q < running.len() && (#[trigger] entries[p]) is Some
                ==> entries[p]->0.index != (#[trigger] running[q]).index
    }

    /// Requests to stop stand behind all jobs, and there is one for each worker
    /// of a closed pool.
    pub open spec fn stops_last(self) -> bool {
        let entries = self.entries();
        &&& forall|p: int, r: int|
            0 <= p < r < entries.len() && (#[trigger] entries[p]) is None ==> (
            #[trigger] entries[r]) is None
        &&& entries.len() - job_count(entries) + self.stopped == if self.pool.closed() {
            self.pool.workers as int
        } else {
            0
        }
        &&& self.stopped > 0 ==> job_count(entries) == 0
        &&& self.running.len() + self.stopped <= self.pool.workers
    }

    /// Every job is counted once, as completed, as running or as waiting.
    pub open spec fn jobs_counted(self) -> bool {
        self.state().total == self.state().completed + self.running.len() + job_count(
            self.entries(),
        )
    }

    /// Every result was handed out once or is still held.
    pub open spec fn results_kept(self) -> bool {
        &&& self.gave == self.handed.add(present(self.state().results).to_multiset())
        &&& self.gave.len() == self.state().completed
    }

    /// What holds after every step.
    pub open spec fn inv(self) -> bool {
        &&& self.pool.workers > 0
        &&& self.state().wf()
        &&& self.state().total <= usize::MAX
        &&& self.state().ready.no_duplicates()
        &&& self.slots_apart()
        &&& self.stops_last()
        &&& self.jobs_counted()
        &&& self.results_kept()
    }
}

// ---------------------------------------------------------------------------
// Counting
// ---------------------------------------------------------------------------
/// Counting from the front.
proof fn lemma_job_count_skip(entries: Seq<Option<JobView>>)
    requires
        entries.len() > 0,
    ensures
        job_count(entries) == job_count(entries.skip(1)) + if entries[0] is Some {
            1nat
        } else {
            0nat
        },
    decreases entries.len(),
{
    let rest = entries.skip(1);
    if entries.len() == 1 {
        assert(entries.drop_last() =~= Seq::empty());
        assert(rest =~= Seq::empty());
    } else {
        lemma_job_count_skip(entries.drop_last());
        assert(entries.drop_last().skip(1) =~= rest.drop_last());
    }
}

/// Requests to stop are no jobs.
proof fn lemma_job_count_stops(entries: Seq<Option<JobView>>, workers: nat)
    ensures
        job_count(entries + stops(workers)) == job_count(entries),
    decreases workers,
{
    if workers == 0 {
        assert(entries + stops(0) =~= entries);
    } else {
        lemma_job_count_stops(entries, (workers - 1) as nat);
        assert((entries + stops(workers)).drop_last() =~= entries + stops((workers - 1) as nat));
    }
}

/// No more jobs than entries, and without a job every entry asks to stop.
pub(crate) proof fn lemma_job_count_bound(entries: Seq<Option<JobView>>)
    ensures
        job_count(entries) <= entries.len(),
        forall|p: int|
            0 <= p < entries.len() && (#[trigger] entries[p]) is Some ==> job_count(entries) > 0,
    decreases entries.len(),
{
    if entries.len() > 0 {
        lemma_job_count_bound(entries.drop_last());
        assert forall|p: int|
            0 <= p < entries.len() && (#[trigger] entries[p]) is Some implies job_count(entries)
            > 0 by {
            if p < entries.len() - 1 {
                assert(entries.drop_last()[p] is Some);
            }
        }
    }
}

/// Filling an empty slot adds its result to those held.
proof fn lemma_present_update(results: Seq<Option<FetchResult>>, i: int, result: FetchResult)
    requires
        0 <= i < results.len(),
        results[i] is None,
    ensures
        present(results.update(i, Some(result))).to_multiset() == present(
            results,
        ).to_multiset().insert(result),
    decreases results.len(),
{
    broadcast use vstd::seq_lib::group_to_multiset_ensures;

    let after = results.update(i, Some(result));
    if i == results.len() - 1 {
        assert(after.drop_last() =~= results.drop_last());
    } else {
        lemma_present_update(results.drop_last(), i, result);
        assert(after.drop_last() =~= results.drop_last().update(i, Some(result)));
        if results.last() is Some {
            let last = results.last()->0;
            assert(present(after).to_multiset() =~= present(
                results.drop_last(),
            ).to_multiset().insert(result).insert(last));
        }
    }
    assert(present(after).to_multiset() =~= present(results).to_multiset().insert(result));
}

/// The filled slots, read through their indices or in their order, hold the same
/// results.
proof fn lemma_indexed_present(results: Seq<Option<FetchResult>>, indices: Seq<usize>)
    requires
        indices.no_duplicates(),
        forall|k: int| 0 <= k < indices.len() ==> #[trigger] indices[k] < results.len(),
        forall|i: int|
            0 <= i < results.len() ==> ((#[trigger] results[i]) is Some <==> listed(indices, i)),
    ensures
        indices.map_values(|index: usize| results[index as int]->0).to_multiset() == present(
            results,
        ).to_multiset(),
    decreases results.len(),
{
    broadcast use vstd::seq_lib::group_to_multiset_ensures;

    let read = indices.map_values(|index: usize| results[index as int]->0);
    if results.len() == 0 {
        if indices.len() > 0 {
            assert(indices[0] < results.len());
        }
        assert(read =~= present(results));
    } else {
        let rest = results.drop_last();
        let last = results.len() - 1;
        match results.last() {
            None => {
                assert(!listed(indices, last)) by {
                    assert(results[last] is None);
                }
                assert forall|k: int| 0 <= k < indices.len() implies #[trigger] indices[k]
                    < rest.len() by {
                    assert(indices[k] < results.len());
                }
                assert forall|i: int| 0 <= i < rest.len() implies ((#[trigger] rest[i]) is Some
                    <==> listed(indices, i)) by {
                    assert(results[i] == rest[i]);
                }
                lemma_indexed_present(rest, indices);
                assert(read =~= indices.map_values(|index: usize| rest[index as int]->0));
            },
            Some(result) => {
                assert(listed(indices, last)) by {
                    assert(results[last] is Some);
                }
                let p = choose|p: int| 0 <= p < indices.len() && indices[p] == last;
                let others = indices.remove(p);
                assert forall|k: int| 0 <= k < others.len() implies #[trigger] others[k]
                    < rest.len() by {
                    let l = if k < p {
                        k
                    } else {
                        k + 1
                    };
                    assert(others[k] == indices[l]);
                    assert(indices[l] != indices[p]);
                }
                assert(others.no_duplicates()) by {
                    assert forall|k: int, l: int|
                        0 <= k < others.len() && 0 <= l < others.len() && k != l implies others[k]
                        != others[l] by {
                        let m = if k < p {
                            k
                        } else {
                            k + 1
                        };
                        let n = if l < p {
                            l
                        } else {
                            l + 1
                        };
                        assert(indices[m] != indices[n]);
                    }
                }
                assert forall|i: int| 0 <= i < rest.len() implies ((#[trigger] rest[i]) is Some
                    <==> listed(others, i)) by {
                    assert(results[i] == rest[i]);
                    if listed(indices, i) {
                        let k = choose|k: int| 0 <= k < indices.len() && indices[k] == i;
                        assert(others[if k < p {
                            k
                        } else {
                            k - 1
                        }] == i);
                    }
                    if listed(others, i) {
                        let k = choose|k: int| 0 <= k < others.len() && others[k] == i;
                        assert(indices[if k < p {
                            k
                        } else {
                            k + 1
                        }] == i);
                    }
                }
                lemma_indexed_present(rest, others);
                let read_others = others.map_values(|index: usize| rest[index as int]->0);
                assert(read.remove(p) =~= read_others);
                assert(read[p] == result);
                assert(read.contains(result));
                assert(read.to_multiset() =~= read_others.to_multiset().insert(result));
                assert(present(results).to_multiset() =~= present(rest).to_multiset().insert(
                    result,
                ));
            },
        }
    }
}

/// Reading the results as they arrived and collecting them all at once take the
/// same results, each once.
pub proof fn law_reading_takes_what_collecting_would(state: StateView)
    requires
        state.wf(),
    ensures
        results_of(state.readable()).to_multiset() == present(state.results).to_multiset(),
{
    let indices = distinct(state.ready);
    lemma_distinct_no_duplicates(state.ready);
    assert forall|k: int| 0 <= k < indices.len() implies #[trigger] indices[k]
        < state.results.len() by {
        lemma_distinct_listed(state.ready, indices[k] as int);
        assert(listed(indices, indices[k] as int));
    }
    assert forall|i: int| 0 <= i < state.results.len() implies ((#[trigger] state.results[i]) is Some
        <==> listed(indices, i)) by {
        lemma_distinct_listed(state.ready, i);
    }
    lemma_indexed_present(state.results, indices);
    assert(results_of(state.readable()) =~= indices.map_values(
        |index: usize| state.results[index as int]->0,
    ));
}

// ---------------------------------------------------------------------------
// What every step keeps
// ---------------------------------------------------------------------------
/// A fresh pool meets the invariant.
pub proof fn law_fresh_pool(agent: Agent, workers: nat)
    requires
        workers > 0,
    ensures
        Run::initial(agent, workers).inv(),
{
    broadcast use vstd::seq_lib::group_to_multiset_ensures;

    let run = Run::initial(agent, workers);
    assert(present(run.state().results) =~= Seq::<FetchResult>::empty());
    assert(present(run.state().results).to_multiset() =~= Multiset::<FetchResult>::empty());
    assert(run.gave =~= run.handed.add(present(run.state().results).to_multiset()));
}

proof fn lemma_push_keeps(run: Run, url: Seq<char>)
    requires
        run.inv(),
        run.allows(Step::Push(url)),
    ensures
        run.after(Step::Push(url)).inv(),
{
    let after = run.after(Step::Push(url));
    lemma_job_count_bound(run.entries());
    assert(after.entries().drop_last() =~= run.entries());
    assert(after.state().results.drop_last() =~= run.state().results);
    assert(forall|p: int|
        0 <= p < run.entries().len() ==> #[trigger] after.entries()[p] == run.entries()[p]);
    assert forall|p: int| 0 <= p < run.entries().len() implies (#[trigger] run.entries()[p]) is Some
        by {
        if run.entries()[p] is None {
            lemma_no_stop_entries(run.entries(), p);
        }
    }
}

/// Where all entries are jobs none asks to stop.
proof fn lemma_no_stop_entries(entries: Seq<Option<JobView>>, p: int)
    requires
        0 <= p < entries.len(),
        job_count(entries) == entries.len(),
    ensures
        entries[p] is Some,
    decreases entries.len(),
{
    lemma_job_count_bound(entries.drop_last());
    if p < entries.len() - 1 {
        lemma_no_stop_entries(entries.drop_last(), p);
    }
}

proof fn lemma_take_keeps(run: Run)
    requires
        run.inv(),
        run.allows(Step::Take),
    ensures
        run.after(Step::Take).inv(),
{
    let after = run.after(Step::Take);
    let entries = run.entries();
    lemma_job_count_skip(entries);
    lemma_job_count_bound(after.entries());
    assert(forall|p: int|
        0 <= p < after.entries().len() ==> #[trigger] after.entries()[p] == entries[p + 1]);
    if entries[0] is None {
        assert forall|p: int| 0 <= p < after.entries().len() implies (
        #[trigger] after.entries()[p]) is None by {
            assert(entries[p + 1] is None);
        }
        lemma_no_jobs(after.entries());
    }
}

/// Entries of which none is a job hold no jobs.
proof fn lemma_no_jobs(entries: Seq<Option<JobView>>)
    requires
        forall|p: int| 0 <= p < entries.len() ==> (#[trigger] entries[p]) is None,
    ensures
        job_count(entries) == 0,
    decreases entries.len(),
{
    if entries.len() > 0 {
        assert(entries[entries.len() - 1] is None);
        lemma_no_jobs(entries.drop_last());
    }
}

proof fn lemma_finish_keeps(run: Run, number: int, attempt: Option<FetchResult>)
    requires
        run.inv(),
        run.allows(Step::Finish(number, attempt)),
    ensures
        run.after(Step::Finish(number, attempt)).inv(),
{
    broadcast use vstd::seq_lib::group_to_multiset_ensures;

    let after = run.after(Step::Finish(number, attempt));
    let job = run.running[number];
    let index = job.index->0;
    let result = settled_result(attempt);
    assert(slot_open(run.state(), job));
    assert(after.state() == run.state().recorded(index, result));
    lemma_recorded_wf(run.state(), index, result);
    lemma_present_update(run.state().results, index as int, result);
    assert(after.gave =~= after.handed.add(present(after.state().results).to_multiset()));
    assert(!listed(run.state().ready, index as int));
    assert(after.state().ready.no_duplicates());
    assert(after.entries() == run.entries());
    assert(forall|q: int|
        0 <= q < after.running.len() ==> #[trigger] after.running[q] == run.running[if q < number {
            q
        } else {
            q + 1
        }]);
    assert forall|p: int|
        0 <= p < after.entries().len() && (#[trigger] after.entries()[p]) is Some implies slot_open(
        after.state(),
        after.entries()[p]->0,
    ) by {
        assert(slot_open(run.state(), run.entries()[p]->0));
        assert(run.entries()[p]->0.index != run.running[number].index);
    }
    assert forall|q: int| 0 <= q < after.running.len() implies slot_open(
        after.state(),
        #[trigger] after.running[q],
    ) by {
        let r = if q < number {
            q
        } else {
            q + 1
        };
        assert(slot_open(run.state(), run.running[r]));
        assert(run.running[r].index != run.running[number].index);
    }
}

proof fn lemma_read_keeps(run: Run)
    requires
        run.inv(),
    ensures
        run.after(Step::Read).inv(),
{
    broadcast use vstd::seq_lib::group_to_multiset_ensures;

    let after = run.after(Step::Read);
    law_reading_takes_what_collecting_would(run.state());
    lemma_vacant_present(run.state().results.len());
    assert(present(after.state().results).to_multiset() =~= Multiset::<FetchResult>::empty());
    assert(after.gave =~= after.handed.add(present(after.state().results).to_multiset()));
    assert(after.entries() == run.entries());
    assert forall|p: int|
        0 <= p < after.entries().len() && (#[trigger] after.entries()[p]) is Some implies slot_open(
        after.state(),
        after.entries()[p]->0,
    ) by {
        assert(slot_open(run.state(), run.entries()[p]->0));
    }
    assert forall|q: int| 0 <= q < after.running.len() implies slot_open(
        after.state(),
        #[trigger] after.running[q],
    ) by {
        assert(slot_open(run.state(), run.running[q]));
    }
}

proof fn lemma_collect_keeps(run: Run)
    requires
        run.inv(),
        run.allows(Step::Collect),
    ensures
        run.after(Step::Collect).inv(),
{
    broadcast use vstd::seq_lib::group_to_multiset_ensures;

    let after = run.after(Step::Collect);
    lemma_job_count_bound(run.entries());
    assert(present(after.state().results) =~= Seq::<FetchResult>::empty());
    assert(present(after.state().results).to_multiset() =~= Multiset::<FetchResult>::empty());
    assert(after.gave =~= after.handed.add(present(after.state().results).to_multiset()));
    assert(after.entries() == run.entries());
}

proof fn lemma_close_keeps(run: Run)
    requires
        run.inv(),
    ensures
        run.after(Step::Close).inv(),
{
    let after = run.after(Step::Close);
    if !run.pool.closed() {
        let entries = run.entries();
        lemma_job_count_stops(entries, run.pool.workers);
        lemma_job_count_bound(entries);
        assert(forall|p: int|
            0 <= p < after.entries().len() ==> #[trigger] after.entries()[p] == if p
                < entries.len() {
                entries[p]
            } else {
                None
            });
        assert forall|p: int| 0 <= p < entries.len() implies (#[trigger] entries[p]) is Some by {
            lemma_no_stop_entries(entries, p);
        }
    }
}

/// Whatever callers, workers and readers do next, the invariant holds afterwards.
pub proof fn law_every_step_keeps_the_invariant(run: Run, step: Step)
    requires
        run.inv(),
        run.allows(step),
    ensures
        run.after(step).inv(),
{
    match step {
        Step::Push(url) => lemma_push_keeps(run, url),
        Step::Take => lemma_take_keeps(run),
        Step::Finish(number, attempt) => lemma_finish_keeps(run, number, attempt),
        Step::Read => lemma_read_keeps(run),
        Step::Collect => lemma_collect_keeps(run),
        Step::Close => lemma_close_keeps(run),
    }
}

// ---------------------------------------------------------------------------
// What holds of every run
// ---------------------------------------------------------------------------
impl Run {
    /// After some steps, one after another.
    pub open spec fn after_all(self, steps: Seq<Step>) -> Run
        decreases steps.len(),
    {
        if steps.len() == 0 {
            self
        } else {
            self.after_all(steps.drop_last()).after(steps.last())
        }
    }

    /// Whether each of some steps can happen once those before it have.
    pub open spec fn allows_all(self, steps: Seq<Step>) -> bool
        decreases steps.len(),
    {
        steps.len() > 0 ==> {
            &&& self.allows_all(steps.drop_last())
            &&& self.after_all(steps.drop_last()).allows(steps.last())
        }
    }
}

/// The invariant holds after every run of a fresh pool.
pub proof fn law_every_run_keeps_the_invariant(agent: Agent, workers: nat, steps: Seq<Step>)
    requires
        workers > 0,
        Run::initial(agent, workers).allows_all(steps),
    ensures
        Run::initial(agent, workers).after_all(steps).inv(),
    decreases steps.len(),
{
    if steps.len() == 0 {
        law_fresh_pool(agent, workers);
    } else {
        law_every_run_keeps_the_invariant(agent, workers, steps.drop_last());
        law_every_step_keeps_the_invariant(
            Run::initial(agent, workers).after_all(steps.drop_last()),
            steps.last(),
        );
    }
}

/// The steps that make a batch: each URL is pushed, then the pool is closed.
pub open spec fn batch_steps(urls: Seq<Seq<char>>) -> Seq<Step> {
    urls.map_values(|url: Seq<char>| Step::Push(url)).push(Step::Close)
}

/// The pushes of a batch, one after another.
proof fn lemma_pushes(agent: Agent, workers: nat, urls: Seq<Seq<char>>)
    requires
        urls.len() <= usize::MAX,
    ensures
        ({
            let steps = urls.map_values(|url: Seq<char>| Step::Push(url));
            let fresh = Run::initial(agent, workers);
            &&& fresh.allows_all(steps)
            &&& fresh.after_all(steps) == (Run {
                pool: fresh.with_queue(FetchQueueView::initial().all_pushed(urls)),
                ..fresh
            })
        }),
    decreases urls.len(),
{
    let steps = urls.map_values(|url: Seq<char>| Step::Push(url));
    if urls.len() > 0 {
        let rest = urls.drop_last();
        lemma_pushes(agent, workers, rest);
        law_pushes_keep_their_order(rest);
        assert(steps.drop_last() =~= rest.map_values(|url: Seq<char>| Step::Push(url)));
        assert(steps.last() == Step::Push(urls.last()));
    }
}

/// A pool that was given a batch is a pool after that run, so that whatever holds
/// of every run holds of batches.
pub proof fn law_a_batch_is_a_run(agent: Agent, workers: nat, urls: Seq<Seq<char>>)
    requires
        workers > 0,
        urls.len() <= usize::MAX,
    ensures
        Run::initial(agent, workers).allows_all(batch_steps(urls)),
        Run::initial(agent, workers).after_all(batch_steps(urls)).pool == WorkerPoolView::batch(
            agent,
            workers,
            urls,
        ),
        Run::initial(agent, workers).after_all(batch_steps(urls)).inv(),
{
    lemma_pushes(agent, workers, urls);
    let steps = batch_steps(urls);
    assert(steps.drop_last() =~= urls.map_values(|url: Seq<char>| Step::Push(url)));
    law_every_run_keeps_the_invariant(agent, workers, steps);
}

/// A worker that ends a job finds the slot of the job, also where results were
/// read or collected meanwhile.
pub proof fn law_a_running_job_has_a_slot(run: Run, number: int)
    requires
        run.inv(),
        0 <= number < run.running.len(),
    ensures
        run.pool.queue.has_slot(run.running[number]),
{
    assert(slot_open(run.state(), run.running[number]));
}

/// All jobs have completed exactly when none waits and none is running, and no
/// more complete than were enqueued.
pub proof fn law_finished_means_no_job_is_left(run: Run)
    requires
        run.inv(),
    ensures
        run.state().completed <= run.state().total,
        run.state().finished() <==> job_count(run.entries()) == 0 && run.running.len() == 0,
{
}

/// Every result is handed out exactly once, or still held: as many results were
/// given as jobs completed, those handed out are among them, and once the readers
/// have taken what has arrived they have every result.
pub proof fn law_every_result_is_handed_out_once(run: Run)
    requires
        run.inv(),
    ensures
        run.gave.len() == run.state().completed,
        run.gave == run.handed.add(present(run.state().results).to_multiset()),
        run.after(Step::Read).handed == run.gave,
        run.state().finished() ==> run.after(Step::Collect).handed == run.gave,
        run.state().finished() ==> run.gave.len() == run.state().total,
{
    law_reading_takes_what_collecting_would(run.state());
}

/// Once every worker has stopped no job is left behind: closing a pool does not
/// affect work that was submitted before.
pub proof fn law_stopped_workers_leave_no_job(run: Run)
    requires
        run.inv(),
        run.stopped == run.pool.workers,
    ensures
        job_count(run.entries()) == 0,
        run.running.len() == 0,
        run.state().finished(),
{
}

/// While jobs have not completed, a worker is running one, or an idle worker can
/// take one.
pub proof fn law_an_unfinished_pool_can_go_on(run: Run)
    requires
        run.inv(),
        !run.state().finished(),
    ensures
        run.running.len() > 0 || (run.allows(Step::Take) && run.entries()[0] is Some),
{
    lemma_job_count_bound(run.entries());
    if run.running.len() == 0 && run.entries()[0] is None {
        let entries = run.entries();
        assert forall|p: int| 0 <= p < entries.len() implies (#[trigger] entries[p]) is None by {
            assert(p > 0 ==> entries[0] is None);
        }
        lemma_no_jobs(entries);
    }
}

/// A closed pool stops: once it has finished, a request to stop is there for each
/// worker that still goes.
pub proof fn law_a_closed_pool_stops(run: Run)
    requires
        run.inv(),
        run.pool.closed(),
        run.state().finished(),
        run.stopped < run.pool.workers,
    ensures
        run.entries().len() == run.pool.workers - run.stopped,
        run.allows(Step::Take),
        run.entries()[0] is None,
{
    lemma_job_count_bound(run.entries());
}

/// What workers do: taking entries and ending jobs.
pub open spec fn is_worker_step(step: Step) -> bool {
    step is Take || step is Finish
}

impl Run {
    /// How many steps the workers can still take: one to stop for each request to
    /// stop, two for each waiting job and one for each running job.
    pub open spec fn work(self) -> nat {
        self.entries().len() + self.running.len() + job_count(self.entries())
    }
}

/// Every step of a worker leaves less to do, by one, and reading leaves as much.
pub proof fn law_worker_steps_use_up_the_work(run: Run, step: Step)
    requires
        run.inv(),
        run.allows(step),
    ensures
        is_worker_step(step) ==> run.after(step).work() == run.work() - 1,
        step is Read || step is Collect ==> run.after(step).work() == run.work(),
{
    if step is Take {
        lemma_job_count_skip(run.entries());
    }
}

/// Waiting ends: left to themselves the workers take as many steps as there is
/// work, and no more. Each leaves one less to do, so only so many can follow one
/// another.
pub proof fn law_worker_steps_run_out(run: Run, steps: Seq<Step>)
    requires
        run.inv(),
        run.allows_all(steps),
        forall|k: int| 0 <= k < steps.len() ==> is_worker_step(#[trigger] steps[k]),
    ensures
        run.after_all(steps).inv(),
        run.after_all(steps).work() == run.work() - steps.len(),
        steps.len() <= run.work(),
    decreases steps.len(),
{
    if steps.len() > 0 {
        let before = steps.drop_last();
        assert forall|k: int| 0 <= k < before.len() implies is_worker_step(
            #[trigger] before[k],
        ) by {
            assert(before[k] == steps[k]);
        }
        law_worker_steps_run_out(run, before);
        assert(is_worker_step(steps[steps.len() - 1]));
        law_every_step_keeps_the_invariant(run.after_all(before), steps.last());
        law_worker_steps_use_up_the_work(run.after_all(before), steps.last());
    }
}

/// Workers can go on exactly while there is work.
pub proof fn law_work_can_always_be_done(run: Run)
    requires
        run.inv(),
    ensures
        run.work() > 0 <==> exists|step: Step|
            is_worker_step(step) && #[trigger] run.allows(step),
{
    lemma_job_count_bound(run.entries());
    if run.running.len() > 0 {
        assert(run.allows(Step::Finish(0, None)));
        assert(is_worker_step(Step::Finish(0, None)));
    } else if run.entries().len() > 0 {
        assert(run.allows(Step::Take));
        assert(is_worker_step(Step::Take));
    }
}

/// Once no work is left every job has completed, and every worker of a closed pool
/// has stopped.
pub proof fn law_no_work_left_means_all_is_done(run: Run)
    requires
        run.inv(),
        run.work() == 0,
    ensures
        run.state().finished(),
        run.running.len() == 0,
        run.pool.closed() ==> run.stopped == run.pool.workers,
{
}

/// A reader that goes on until there is nothing to read from a finished pool has
/// every result: as many were handed out as jobs were enqueued, and none is held.
pub proof fn law_an_empty_read_ends_the_reading(run: Run)
    requires
        run.inv(),
        run.state().finished(),
        run.state().readable().len() == 0,
    ensures
        run.handed == run.gave,
        run.handed.len() == run.state().total,
        present(run.state().results) == Seq::<FetchResult>::empty(),
{
    broadcast use vstd::seq_lib::group_to_multiset_ensures;

    law_reading_takes_what_collecting_would(run.state());
    assert(results_of(run.state().readable()) =~= Seq::<FetchResult>::empty());
    assert(present(run.state().results).len() == 0);
    assert(present(run.state().results) =~= Seq::<FetchResult>::empty());
    assert(run.handed =~= run.gave);
}

/// All workers share one agent: no step exchanges it, nor changes how many workers
/// there are.
pub proof fn law_every_step_keeps_the_agent(run: Run, step: Step)
    ensures
        run.after(step).pool.agent == run.pool.agent,
        run.after(step).pool.workers == run.pool.workers,
{
}

/// Closing a closed pool changes nothing.
pub proof fn law_closing_twice_is_closing_once(pool: WorkerPoolView)
    ensures
        pool.shut().shut() == pool.shut(),
{
}

/// Reading results changes neither the jobs nor the counts, and collecting them
/// leaves a finished pool finished.
pub proof fn law_reading_keeps_the_counts(run: Run)
    ensures
        run.after(Step::Read).entries() == run.entries(),
        run.after(Step::Read).state().completed == run.state().completed,
        run.after(Step::Read).state().total == run.state().total,
        run.after(Step::Collect).entries() == run.entries(),
        run.after(Step::Collect).state().completed == run.state().completed,
        run.after(Step::Collect).state().total == run.state().total,
{
}

/// Indices without repetition stay as they are.
proof fn lemma_distinct_unchanged(indices: Seq<usize>)
    requires
        indices.no_duplicates(),
    ensures
        distinct(indices) == indices,
    decreases indices.len(),
{
    if indices.len() > 0 {
        let rest = indices.drop_last();
        lemma_distinct_unchanged(rest);
        if listed(rest, indices.last() as int) {
            let k = choose|k: int| 0 <= k < rest.len() && rest[k] == indices.last();
            assert(indices[k] == indices[indices.len() - 1]);
        }
    }
    assert(distinct(indices) =~= indices);
}

/// Each slot that became ready holds a result, and reading gives that result
/// under the slot's index, in the order in which the slots became ready.
pub proof fn law_every_ready_slot_is_read(run: Run)
    requires
        run.inv(),
    ensures
        run.state().readable().len() == run.state().ready.len(),
        forall|k: int|
            0 <= k < run.state().ready.len() ==> {
                let index = run.state().ready[k];
                &&& run.state().results[index as int] is Some
                &&& #[trigger] run.state().readable()[k] == (
                    index,
                    run.state().results[index as int]->0,
                )
            },
{
    let state = run.state();
    lemma_distinct_unchanged(state.ready);
    assert forall|k: int| 0 <= k < state.ready.len() implies {
        let index = state.ready[k];
        &&& state.results[index as int] is Some
        &&& #[trigger] state.readable()[k] == (index, state.results[index as int]->0)
    } by {
        assert(listed(state.ready, state.ready[k] as int));
    }
}

} // verus!
