//! What starting a pool, running its jobs and reading their results gives.
use crate::errors::{FetchError, FetchLinkError};
use crate::fetch::agent_limit;
use crate::handle::FetchHandle;
use crate::laws::{
    law_pushes_keep_their_order, law_result_comes_back_under_its_index, lemma_all_present,
    lemma_distinct_listed,
};
use crate::pool::{
    fetch_many, fetch_many_with_agent, init_worker_pool, init_worker_pool_with_agent,
    settled_result, url_chars, FetchQueue, FetchQueueView, WorkerPool,
};
use crate::queue::{JobStatus, JobView, Queue, ScrapeJob};
use crate::state::{distinct, listed, present, FetchResult, StateView};
use ureq::Agent;
use vstd::prelude::*;

verus! {

// ---------------------------------------------------------------------------
// Starting a pool
// ---------------------------------------------------------------------------
/// Whether a pool has what a pool starts with: nothing was pushed to it, and it
/// is open.
pub open spec fn starts_empty(pool: WorkerPool, num_threads: usize) -> bool {
    &&& pool@.workers == num_threads
    &&& pool@.queue.jobs.len() == 0
    &&& !pool@.queue.closed
    &&& pool@.queue.state.results.len() == 0
    &&& pool@.queue.state.ready.len() == 0
    &&& pool@.queue.state.completed == 0
    &&& pool@.queue.state.total == 0
}

/// A pool of any number of threads that the machine offers is started, with that
/// many workers and the given agent. It is refused exactly when more threads are
/// asked for than the machine offers, and the error says how many of each, or
/// when it is not known how many the machine offers.
pub proof fn law_a_pool_starts_on_the_threads_there_are(
    num_threads: usize,
    available: Result<usize, std::io::Error>,
    agent: Agent,
    pool: Result<WorkerPool, FetchError>,
)
    requires
        call_ensures(init_worker_pool_with_agent, (num_threads, available, agent), pool),
    ensures
        available matches Ok(offered) ==> (num_threads <= offered <==> pool is Ok),
        available matches Ok(offered) ==> (num_threads > offered <==> pool
            == Err::<WorkerPool, FetchError>(
            FetchError::TooManyThreads { requested: num_threads, available: offered },
        )),
        available matches Err(reason) ==> pool == Err::<WorkerPool, FetchError>(
            FetchError::ParallelismUnavailable(reason),
        ),
        pool matches Ok(started) ==> starts_empty(started, num_threads) && started@.agent == agent,
{
}

/// The same holds of a pool with the default agent, whose limit is five seconds.
pub proof fn law_a_default_pool_starts_on_the_threads_there_are(
    num_threads: usize,
    available: Result<usize, std::io::Error>,
    pool: Result<WorkerPool, FetchError>,
)
    requires
        call_ensures(init_worker_pool, (num_threads, available), pool),
    ensures
        available matches Ok(offered) ==> (num_threads <= offered <==> pool is Ok),
        available matches Ok(offered) ==> (num_threads > offered <==> pool
            == Err::<WorkerPool, FetchError>(
            FetchError::TooManyThreads { requested: num_threads, available: offered },
        )),
        available matches Err(reason) ==> pool == Err::<WorkerPool, FetchError>(
            FetchError::ParallelismUnavailable(reason),
        ),
        pool matches Ok(started) ==> starts_empty(started, num_threads) && agent_limit(
            started@.agent,
        ) == Some(5_000_000_000nat),
{
}

/// Whether a pool holds a batch that nobody has started on: a job for each URL,
/// in their order, then a request to stop for each worker.
pub open spec fn holds_batch(pool: WorkerPool, urls: Seq<String>, num_threads: usize) -> bool {
    let jobs = pool@.queue.jobs;
    let state = pool@.queue.state;
    &&& pool@.workers == num_threads
    &&& pool@.queue.closed
    &&& jobs.len() == urls.len() + num_threads
    &&& forall|i: int|
        0 <= i < urls.len() ==> {
            &&& (#[trigger] jobs[i]) is Some
            &&& jobs[i]->0.url == urls[i]@
            &&& jobs[i]->0.index == Some(i as usize)
            &&& jobs[i]->0.status == JobStatus::Pending
        }
    &&& forall|i: int| urls.len() <= i < jobs.len() ==> (#[trigger] jobs[i]) is None
    &&& state.results.len() == urls.len()
    &&& forall|i: int| 0 <= i < urls.len() ==> (#[trigger] state.results[i]) is None
    &&& state.ready.len() == 0
    &&& state.completed == 0
    &&& state.total == urls.len()
}

/// A batch is accepted whenever a pool of that size is, whatever the URLs. Each
/// URL then waits once, in the order given and under its place in that order.
pub proof fn law_a_batch_holds_every_url(
    urls: Vec<String>,
    num_threads: usize,
    available: Result<usize, std::io::Error>,
    agent: Agent,
    pool: Result<WorkerPool, FetchError>,
)
    requires
        call_ensures(fetch_many_with_agent, (urls, num_threads, available, agent), pool)
            || call_ensures(fetch_many, (urls, num_threads, available), pool),
    ensures
        available matches Ok(offered) ==> (num_threads <= offered <==> pool is Ok),
        available matches Ok(offered) ==> (num_threads > offered <==> pool
            == Err::<WorkerPool, FetchError>(
            FetchError::TooManyThreads { requested: num_threads, available: offered },
        )),
        available matches Err(reason) ==> pool == Err::<WorkerPool, FetchError>(
            FetchError::ParallelismUnavailable(reason),
        ),
        pool matches Ok(started) ==> holds_batch(started, urls@, num_threads),
        pool matches Ok(started) ==> (call_ensures(
            fetch_many_with_agent,
            (urls, num_threads, available, agent),
            pool,
        ) ==> started@.agent == agent),
        pool matches Ok(started) ==> (call_ensures(
            fetch_many,
            (urls, num_threads, available),
            pool,
        ) ==> agent_limit(started@.agent) == Some(5_000_000_000nat)),
{
    if let Ok(started) = pool {
        let chars = url_chars(urls@);
        assert(urls@.len() == urls.len());
        law_pushes_keep_their_order(chars);
        lemma_all_pushed_open(chars);
        let pushed = FetchQueueView::initial().all_pushed(chars);
        assert forall|i: int| 0 <= i < urls@.len() implies {
            &&& (#[trigger] started@.queue.jobs[i]) is Some
            &&& started@.queue.jobs[i]->0.url == urls@[i]@
            &&& started@.queue.jobs[i]->0.index == Some(i as usize)
            &&& started@.queue.jobs[i]->0.status == JobStatus::Pending
        } by {
            assert(started@.queue.jobs[i] == pushed.jobs[i]);
        }
    }
}

/// Pushing does not close a pool.
proof fn lemma_all_pushed_open(urls: Seq<Seq<char>>)
    ensures
        !FetchQueueView::initial().all_pushed(urls).closed,
    decreases urls.len(),
{
    if urls.len() > 0 {
        lemma_all_pushed_open(urls.drop_last());
    }
}

// ---------------------------------------------------------------------------
// Jobs
// ---------------------------------------------------------------------------
/// Whether one job was added behind all others, for `url` and with the slot
/// `index`, which is a new one, and nothing else changed.
pub open spec fn job_added(
    before: FetchQueueView,
    after: FetchQueueView,
    url: Seq<char>,
    index: usize,
) -> bool {
    let last = before.jobs.len() as int;
    let slot = before.state.results.len() as int;
    &&& index == slot
    &&& after.jobs.len() == last + 1
    &&& forall|p: int| 0 <= p < last ==> #[trigger] after.jobs[p] == before.jobs[p]
    &&& after.jobs[last] is Some
    &&& after.jobs[last]->0.url == url
    &&& after.jobs[last]->0.index == Some(index)
    &&& after.jobs[last]->0.status == JobStatus::Pending
    &&& after.state.results.len() == slot + 1
    &&& forall|i: int|
        0 <= i < slot ==> #[trigger] after.state.results[i] == before.state.results[i]
    &&& after.state.results[slot] is None
    &&& after.state.total == before.state.total + 1
    &&& after.state.completed == before.state.completed
    &&& after.state.ready == before.state.ready
    &&& after.closed == before.closed
}

/// A push adds one job, behind all others, for the given URL and under the index
/// that it returns.
pub proof fn law_a_push_adds_its_url(queue: &mut FetchQueue, url: String, index: usize)
    requires
        call_ensures(FetchQueue::push, (queue, url), index),
    ensures
        job_added(old(queue)@, final(queue)@, url@, index),
{
    assert(index as int as usize == index);
}

/// The same holds of a push to a pool, which keeps its agent and its workers.
pub proof fn law_a_pool_push_adds_its_url(pool: &mut WorkerPool, url: String, index: usize)
    requires
        call_ensures(WorkerPool::push, (pool, url), index),
    ensures
        job_added(old(pool)@.queue, final(pool)@.queue, url@, index),
        final(pool)@.agent == old(pool)@.agent,
        final(pool)@.workers == old(pool)@.workers,
{
    assert(index as int as usize == index);
}

/// Whether the oldest entry was handed to a worker: a job with its URL and its
/// index, now running, or the request to stop. The entries behind it move up.
pub open spec fn entry_handed(
    before: Seq<Option<JobView>>,
    after: Seq<Option<JobView>>,
    next: Option<ScrapeJob>,
) -> bool {
    &&& after.len() == before.len() - 1
    &&& forall|p: int| 0 <= p < after.len() ==> #[trigger] after[p] == before[p + 1]
    &&& next is Some <==> before[0] is Some
    &&& next matches Some(job) ==> {
        &&& job@.url == before[0]->0.url
        &&& job@.index == before[0]->0.index
        &&& job@.status == JobStatus::Running
    }
}

/// A worker gets the oldest entry, and the others keep their order.
pub proof fn law_the_oldest_entry_comes_first(queue: &mut Queue, next: Option<ScrapeJob>)
    requires
        old(queue)@.len() > 0,
    ensures
        call_ensures(Queue::start_next, (queue,), next) ==> entry_handed(
            old(queue)@,
            final(queue)@,
            next,
        ),
        call_ensures(Queue::next, (queue,), next) ==> {
            &&& next is Some <==> old(queue)@[0] is Some
            &&& next matches Some(job) ==> job@ == old(queue)@[0]->0
            &&& final(queue)@.len() == old(queue)@.len() - 1
            &&& forall|p: int|
                0 <= p < final(queue)@.len() ==> #[trigger] final(queue)@[p] == old(queue)@[p + 1]
        },
{
}

/// The same holds of a worker of a pool, and the results stay as they are.
pub proof fn law_a_worker_gets_the_oldest_entry(
    queue: &mut FetchQueue,
    pool: &mut WorkerPool,
    next: Option<ScrapeJob>,
)
    requires
        old(queue)@.jobs.len() > 0,
        old(pool)@.queue.jobs.len() > 0,
    ensures
        call_ensures(FetchQueue::start_next, (queue,), next) ==> {
            &&& entry_handed(old(queue)@.jobs, final(queue)@.jobs, next)
            &&& final(queue)@.state == old(queue)@.state
            &&& final(queue)@.closed == old(queue)@.closed
        },
        call_ensures(WorkerPool::start_next, (pool,), next) ==> {
            &&& entry_handed(old(pool)@.queue.jobs, final(pool)@.queue.jobs, next)
            &&& final(pool)@.queue.state == old(pool)@.queue.state
            &&& final(pool)@.queue.closed == old(pool)@.queue.closed
            &&& final(pool)@.agent == old(pool)@.agent
            &&& final(pool)@.workers == old(pool)@.workers
        },
{
}

/// Whether a slot was given a result, and only that: it arrives behind those that
/// arrived before, one more job has completed, and nothing else changed.
pub open spec fn result_kept(
    before: FetchQueueView,
    after: FetchQueueView,
    index: usize,
    result: FetchResult,
) -> bool {
    &&& after.state.results.len() == before.state.results.len()
    &&& after.state.results[index as int] == Some(result)
    &&& forall|i: int|
        0 <= i < before.state.results.len() && i != index ==> #[trigger] after.state.results[i]
            == before.state.results[i]
    &&& after.state.ready.len() == before.state.ready.len() + 1
    &&& after.state.ready.last() == index
    &&& forall|k: int|
        0 <= k < before.state.ready.len() ==> #[trigger] after.state.ready[k]
            == before.state.ready[k]
    &&& after.state.completed == before.state.completed + 1
    &&& after.state.total == before.state.total
    &&& after.jobs == before.jobs
    &&& after.closed == before.closed
}

/// Whether a job was ended as it should: with a slot, its slot holds exactly what
/// its fetch returned, whatever that is, and only a panic leaves
/// [`FetchLinkError::WorkerPanic`] there; the job has succeeded exactly when the
/// fetch returned a page. Without a slot it has failed and nothing else changed.
pub open spec fn job_ended(
    before: FetchQueueView,
    after: FetchQueueView,
    job: JobView,
    ended: JobView,
    attempt: Option<FetchResult>,
    succeeded: bool,
) -> bool {
    &&& ended.url == job.url
    &&& ended.index == job.index
    &&& succeeded ==> ended.status == JobStatus::Finished
    &&& !succeeded ==> ended.status == JobStatus::Failed
    &&& match job.index {
        Some(index) if index < before.state.results.len() => match attempt {
            Some(result) => result_kept(before, after, index, result) && (succeeded <==> result
                is Ok),
            None => result_kept(before, after, index, Err(FetchLinkError::WorkerPanic))
                && !succeeded,
        },
        _ => after == before && !succeeded,
    }
}

/// What a fetch returned is what its slot holds, for every result.
pub proof fn law_a_slot_holds_what_the_fetch_returned(
    queue: &mut FetchQueue,
    job: &mut ScrapeJob,
    attempt: Option<FetchResult>,
    succeeded: bool,
)
    requires
        call_ensures(FetchQueue::finish, (queue, job, attempt), succeeded),
    ensures
        job_ended(old(queue)@, final(queue)@, old(job)@, final(job)@, attempt, succeeded),
{
}

/// The same holds of a job of a pool, which keeps its agent and its workers.
pub proof fn law_a_pool_slot_holds_what_the_fetch_returned(
    pool: &mut WorkerPool,
    job: &mut ScrapeJob,
    attempt: Option<FetchResult>,
    succeeded: bool,
)
    requires
        call_ensures(WorkerPool::finish, (pool, job, attempt), succeeded),
    ensures
        job_ended(old(pool)@.queue, final(pool)@.queue, old(job)@, final(job)@, attempt, succeeded),
        final(pool)@.agent == old(pool)@.agent,
        final(pool)@.workers == old(pool)@.workers,
{
}

/// A job is settled as finished exactly when its handler returned `true`: a panic
/// counts as a failure. Its URL and its index stay.
pub proof fn law_a_job_finishes_when_its_handler_says_so(
    job: &mut ScrapeJob,
    outcome: Option<bool>,
    status: JobStatus,
)
    ensures
        call_ensures(ScrapeJob::settle, (job, outcome), ()) ==> {
            &&& final(job)@.status == JobStatus::Finished <==> outcome == Some(true)
            &&& final(job)@.status == JobStatus::Finished || final(job)@.status == JobStatus::Failed
            &&& final(job)@.url == old(job)@.url
            &&& final(job)@.index == old(job)@.index
        },
        call_ensures(ScrapeJob::set_status, (job, status), ()) ==> {
            &&& final(job)@.status == status
            &&& final(job)@.url == old(job)@.url
            &&& final(job)@.index == old(job)@.index
        },
{
}

/// Whether `workers` requests to stop were added behind all entries.
pub open spec fn stops_added(
    before: Seq<Option<JobView>>,
    after: Seq<Option<JobView>>,
    workers: nat,
) -> bool {
    &&& after.len() == before.len() + workers
    &&& forall|p: int| 0 <= p < before.len() ==> #[trigger] after[p] == before[p]
    &&& forall|p: int| before.len() <= p < after.len() ==> (#[trigger] after[p]) is None
}

/// Closing an open pool tells each worker to stop, once, behind all jobs that wait;
/// closing it again changes nothing. The jobs and the results stay as they are.
pub proof fn law_closing_stops_each_worker_behind_the_jobs(pool: &mut WorkerPool)
    requires
        call_ensures(WorkerPool::close, (pool,), ()),
    ensures
        final(pool)@.queue.closed,
        !old(pool)@.queue.closed ==> stops_added(
            old(pool)@.queue.jobs,
            final(pool)@.queue.jobs,
            old(pool)@.workers,
        ),
        old(pool)@.queue.closed ==> final(pool)@.queue.jobs == old(pool)@.queue.jobs,
        final(pool)@.queue.state == old(pool)@.queue.state,
        final(pool)@.agent == old(pool)@.agent,
        final(pool)@.workers == old(pool)@.workers,
{
}

/// A queue keeps its jobs in the order of their pushes, and is told to stop once
/// for each worker.
pub proof fn law_a_queue_keeps_its_order(queue: &mut Queue, job: ScrapeJob, workers: usize)
    ensures
        call_ensures(Queue::push, (queue, job), ()) ==> {
            &&& final(queue)@.len() == old(queue)@.len() + 1
            &&& final(queue)@.last() == Some(job@)
            &&& forall|p: int|
                0 <= p < old(queue)@.len() ==> #[trigger] final(queue)@[p] == old(queue)@[p]
        },
        call_ensures(Queue::shutdown, (queue, workers), ()) ==> stops_added(
            old(queue)@,
            final(queue)@,
            workers as nat,
        ),
{
}

// ---------------------------------------------------------------------------
// Reading results
// ---------------------------------------------------------------------------
/// Whether items are the held results, each under the index of its slot: every
/// filled slot once, in the order in which the slots were filled.
pub open spec fn every_arrival_once(state: StateView, items: Seq<(usize, FetchResult)>) -> bool {
    &&& forall|k: int|
        0 <= k < items.len() ==> {
            &&& (#[trigger] items[k]).0 < state.results.len()
            &&& state.results[items[k].0 as int] == Some(items[k].1)
        }
    &&& forall|i: int|
        0 <= i < state.results.len() && (#[trigger] state.results[i]) is Some ==> exists|k: int|
            0 <= k < items.len() && (#[trigger] items[k]).0 == i
    &&& forall|k: int, l: int|
        0 <= k < l < items.len() ==> listed_before(
            state.ready,
            (#[trigger] items[k]).0,
            (#[trigger] items[l]).0,
        )
}

/// Whether `first` is among some indices, and `second` is not among those up to
/// there.
pub open spec fn listed_before(indices: Seq<usize>, first: usize, second: usize) -> bool {
    exists|p: int|
        {
            &&& 0 <= p < indices.len()
            &&& #[trigger] indices[p] == first
            &&& forall|q: int| 0 <= q <= p ==> #[trigger] indices[q] != second
        }
}

/// Dropping repetitions keeps the order in which indices come first.
proof fn lemma_distinct_order(indices: Seq<usize>, k: int, l: int)
    requires
        0 <= k < l < distinct(indices).len(),
    ensures
        listed_before(indices, distinct(indices)[k], distinct(indices)[l]),
    decreases indices.len(),
{
    let rest = indices.drop_last();
    let first = distinct(indices)[k];
    let second = distinct(indices)[l];
    if l < distinct(rest).len() {
        lemma_distinct_order(rest, k, l);
        let p = choose|p: int|
            {
                &&& 0 <= p < rest.len()
                &&& #[trigger] rest[p] == first
                &&& forall|q: int| 0 <= q <= p ==> #[trigger] rest[q] != second
            };
        assert(indices[p] == first);
        assert forall|q: int| 0 <= q <= p implies #[trigger] indices[q] != second by {
            assert(rest[q] != second);
        }
    } else {
        lemma_distinct_listed(rest, first as int);
        assert(distinct(rest)[k] == first);
        assert(listed(distinct(rest), first as int));
        let p = choose|p: int| 0 <= p < rest.len() && rest[p] == first;
        assert(indices[p] == first);
        assert forall|q: int| 0 <= q <= p implies #[trigger] indices[q] != second by {
            assert(rest[q] == indices[q]);
        }
    }
}

/// What reading gives.
proof fn lemma_readable(state: StateView)
    requires
        state.wf(),
    ensures
        every_arrival_once(state, state.readable()),
{
    let kept = distinct(state.ready);
    let items = state.readable();
    assert forall|k: int| 0 <= k < items.len() implies {
        &&& (#[trigger] items[k]).0 < state.results.len()
        &&& state.results[items[k].0 as int] == Some(items[k].1)
    } by {
        assert(listed(kept, kept[k] as int));
        lemma_distinct_listed(state.ready, kept[k] as int);
        assert(state.results[kept[k] as int] is Some);
    }
    assert forall|i: int|
        0 <= i < state.results.len() && (#[trigger] state.results[i]) is Some implies exists|k: int|
        0 <= k < items.len() && (#[trigger] items[k]).0 == i by {
        lemma_distinct_listed(state.ready, i);
        let k = choose|k: int| 0 <= k < kept.len() && kept[k] == i;
        assert(items[k].0 == i);
    }
    assert forall|k: int, l: int| 0 <= k < l < items.len() implies listed_before(
        state.ready,
        (#[trigger] items[k]).0,
        (#[trigger] items[l]).0,
    ) by {
        lemma_distinct_order(state.ready, k, l);
    }
}

/// Reading as results arrive hands out every result that is held, once, under the
/// index of its slot and in the order of arrival, and leaves every slot empty. How
/// many jobs were enqueued and have completed stays as it is.
pub proof fn law_reading_hands_out_every_arrival(
    handle: &mut FetchHandle,
    items: Vec<(usize, FetchResult)>,
)
    requires
        old(handle)@.wf(),
        call_ensures(FetchHandle::ready_results, (handle,), items) || call_ensures(
            FetchHandle::wait_ready,
            (handle,),
            items,
        ),
    ensures
        every_arrival_once(old(handle)@, items@),
        final(handle)@.results.len() == old(handle)@.results.len(),
        forall|i: int|
            0 <= i < final(handle)@.results.len() ==> (#[trigger] final(handle)@.results[i]) is None,
        final(handle)@.ready.len() == 0,
        final(handle)@.completed == old(handle)@.completed,
        final(handle)@.total == old(handle)@.total,
{
    lemma_readable(old(handle)@);
}

/// Whether results are the held ones, in the order of their slots: `slots` says
/// which slot each of them is from.
pub open spec fn from_slots(
    slots: Seq<int>,
    held: Seq<Option<FetchResult>>,
    results: Seq<FetchResult>,
) -> bool {
    &&& slots.len() == results.len()
    &&& forall|k: int|
        0 <= k < slots.len() ==> {
            &&& 0 <= #[trigger] slots[k] < held.len()
            &&& held[slots[k]] == Some(results[k])
        }
    &&& forall|k: int, l: int| 0 <= k < l < slots.len() ==> #[trigger] slots[k] < #[trigger] slots[l]
    &&& forall|i: int|
        0 <= i < held.len() && (#[trigger] held[i]) is Some ==> slots.contains(i)
}

/// The slots of what collecting gives.
proof fn lemma_present_slots(held: Seq<Option<FetchResult>>) -> (slots: Seq<int>)
    ensures
        from_slots(slots, held, present(held)),
    decreases held.len(),
{
    if held.len() == 0 {
        Seq::empty()
    } else {
        let rest = held.drop_last();
        let before = lemma_present_slots(rest);
        let last = held.len() - 1;
        let slots = if held[last] is Some {
            before.push(last)
        } else {
            before
        };
        assert forall|k: int| 0 <= k < slots.len() implies 0 <= #[trigger] slots[k] < held.len()
            && held[slots[k]] == Some(present(held)[k]) by {
            if k < before.len() {
                assert(before[k] == slots[k]);
            }
        }
        assert forall|k: int, l: int| 0 <= k < l < slots.len() implies #[trigger] slots[k]
            < #[trigger] slots[l] by {
            if l < before.len() {
                assert(before[k] < before[l]);
            } else {
                assert(before[k] < rest.len());
            }
        }
        assert forall|i: int| 0 <= i < held.len() && (#[trigger] held[i]) is Some implies
            slots.contains(i) by {
            if i < last {
                assert(rest[i] is Some);
                let k = choose|k: int| 0 <= k < before.len() && before[k] == i;
                assert(slots[k] == i);
            } else {
                assert(slots[slots.len() - 1] == i);
            }
        }
        slots
    }
}

/// Waiting for everything gives every result that is still held, once and in the
/// order in which the jobs were enqueued, and leaves no slot.
pub proof fn law_waiting_gives_every_result_in_order(
    handle: &mut FetchHandle,
    results: Vec<FetchResult>,
)
    requires
        call_ensures(FetchHandle::wait, (handle,), results) || call_ensures(
            FetchHandle::try_results,
            (handle,),
            Some(results),
        ),
    ensures
        exists|slots: Seq<int>| #[trigger] from_slots(slots, old(handle)@.results, results@),
        final(handle)@.results.len() == 0,
        final(handle)@.ready.len() == 0,
        final(handle)@.completed == old(handle)@.completed,
        final(handle)@.total == old(handle)@.total,
{
    let slots = lemma_present_slots(old(handle)@.results);
    assert(from_slots(slots, old(handle)@.results, results@));
}

/// Where every slot holds a result, waiting gives one result for each slot, each
/// at the place of its slot.
pub proof fn law_waiting_for_a_whole_batch(handle: &mut FetchHandle, results: Vec<FetchResult>)
    requires
        forall|i: int|
            0 <= i < old(handle)@.results.len() ==> (#[trigger] old(handle)@.results[i]) is Some,
        call_ensures(FetchHandle::wait, (handle,), results) || call_ensures(
            FetchHandle::try_results,
            (handle,),
            Some(results),
        ),
    ensures
        results@.len() == old(handle)@.results.len(),
        forall|i: int|
            0 <= i < results@.len() ==> Some(#[trigger] results@[i]) == old(handle)@.results[i],
{
    let held = old(handle)@.results;
    lemma_all_present(held);
}

/// Results are given all at once exactly when as many jobs have completed as were
/// enqueued; before that nothing is taken.
pub proof fn law_results_are_complete_when_all_jobs_are(
    handle: &mut FetchHandle,
    results: Option<Vec<FetchResult>>,
)
    requires
        call_ensures(FetchHandle::try_results, (handle,), results),
    ensures
        results is Some <==> old(handle)@.completed >= old(handle)@.total,
        results is None ==> final(handle)@ == old(handle)@,
{
}

/// All is finished exactly when as many jobs have completed as were enqueued, and
/// a reader has to wait exactly when it is not and nothing has arrived.
pub proof fn law_a_reader_waits_only_for_jobs(handle: FetchHandle, finished: bool, waits: bool)
    requires
        call_ensures(FetchHandle::is_finished, (&handle,), finished),
        call_ensures(FetchHandle::must_wait, (&handle,), waits),
    ensures
        finished <==> handle@.completed >= handle@.total,
        waits <==> handle@.ready.len() == 0 && !finished,
{
}

/// What a fetch returned comes back: once a job with an empty slot has ended, the
/// next reader gets exactly what its fetch returned, under the index of the job.
pub proof fn law_what_a_fetch_returned_comes_back(
    queue: &mut FetchQueue,
    job: &mut ScrapeJob,
    result: FetchResult,
    succeeded: bool,
    handle: &mut FetchHandle,
    items: Vec<(usize, FetchResult)>,
)
    requires
        old(queue)@.state.wf(),
        old(job)@.index matches Some(index) && index < old(queue)@.state.results.len()
            && old(queue)@.state.results[index as int] is None,
        call_ensures(FetchQueue::finish, (queue, job, Some(result)), succeeded),
        old(handle)@ == final(queue)@.state,
        call_ensures(FetchHandle::ready_results, (handle,), items),
    ensures
        items@.len() > 0,
        items@.last() == (old(job)@.index->0, result),
{
    let index = old(job)@.index->0;
    law_a_slot_holds_what_the_fetch_returned(queue, job, Some(result), succeeded);
    law_result_comes_back_under_its_index(old(queue)@.state, index, result);
    assert(old(handle)@ =~= old(queue)@.state.recorded(index, result));
}

/// A page is all that a pool of one job gives: once the only job, whose slot was
/// empty, has ended, waiting gives exactly what its fetch returned.
pub proof fn law_the_only_result_is_what_its_fetch_returned(
    queue: &mut FetchQueue,
    job: &mut ScrapeJob,
    result: FetchResult,
    succeeded: bool,
    handle: &mut FetchHandle,
    results: Vec<FetchResult>,
)
    requires
        old(queue)@.state.results.len() == 1,
        old(job)@.index == Some(0usize),
        call_ensures(FetchQueue::finish, (queue, job, Some(result)), succeeded),
        old(handle)@ == final(queue)@.state,
        call_ensures(FetchHandle::wait, (handle,), results),
    ensures
        results@ == seq![result],
        succeeded <==> result is Ok,
        final(job)@.status == JobStatus::Finished <==> result is Ok,
{
    law_a_slot_holds_what_the_fetch_returned(queue, job, Some(result), succeeded);
    law_waiting_for_a_whole_batch(handle, results);
    assert(results@ =~= seq![result]);
}

// ---------------------------------------------------------------------------
// Looking at a pool
// ---------------------------------------------------------------------------
/// A new queue holds nothing and is open.
pub proof fn law_a_new_queue_is_empty(queue: FetchQueue, jobs: Queue)
    ensures
        call_ensures(FetchQueue::new, (), queue) ==> {
            &&& queue@.jobs.len() == 0
            &&& !queue@.closed
            &&& queue@.state.results.len() == 0
            &&& queue@.state.ready.len() == 0
            &&& queue@.state.completed == 0
            &&& queue@.state.total == 0
        },
        call_ensures(Queue::new, (), jobs) ==> jobs@.len() == 0,
{
}

/// What a pool says of itself is so.
pub proof fn law_a_pool_says_what_it_holds(
    pool: WorkerPool,
    closed: bool,
    idle: bool,
    workers: usize,
    agent: &Agent,
)
    ensures
        call_ensures(WorkerPool::is_closed, (&pool,), closed) ==> closed == pool@.queue.closed,
        call_ensures(WorkerPool::is_idle, (&pool,), idle) ==> (idle <==> pool@.queue.jobs.len()
            == 0),
        call_ensures(WorkerPool::workers, (&pool,), workers) ==> workers == pool@.workers,
        call_ensures(WorkerPool::agent, (&pool,), agent) ==> *agent == pool@.agent,
{
}

/// What a fetch returned is its result, for every result; a panic is the only
/// thing that is taken for one.
pub proof fn law_what_a_fetch_returned_is_its_result(result: FetchResult)
    ensures
        settled_result(Some(result)) == result,
        settled_result(None) == Err::<String, FetchLinkError>(FetchLinkError::WorkerPanic),
{
}

} // verus!
