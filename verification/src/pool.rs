//! Worker pools: the jobs that wait for a worker, the results of those that are
//! done, and the shutting down of the workers.
use crate::errors::{FetchError, FetchLinkError};
use crate::fetch::{agent_limit, default_agent, planned, prepare_fetch, Method, Request};
use crate::fetch::DEFAULT_TIMEOUT;
use crate::handle::FetchHandle;
use crate::queue::{
    entry_view, settled_status, started, stops, JobStatus, JobView, Queue, ScrapeJob,
};
use crate::state::{FetchResult, StateView};
use ureq::Agent;
use vstd::prelude::*;

verus! {

// ---------------------------------------------------------------------------
// Jobs and results
// ---------------------------------------------------------------------------
/// A queue of URLs to be fetched by a [`WorkerPool`], with their results.
///
/// Each `push` is assigned a stable index so results come back in the order
/// they were enqueued. The pool keeps running until [`WorkerPool::close`],
/// so URLs may be added incrementally.
#[derive(Debug)]
pub struct FetchQueue {
    queue: Queue,
    results: FetchHandle,
    closed: bool,
}

/// What a [`FetchQueue`] holds.
pub struct FetchQueueView {
    pub jobs: Seq<Option<JobView>>,
    pub state: StateView,
    /// Whether the workers were told to stop.
    pub closed: bool,
}

/// The job that a push of `url` makes.
pub open spec fn pushed_job(url: Seq<char>, index: usize) -> JobView {
    JobView { url, status: JobStatus::Pending, index: Some(index) }
}

/// The result of a fetch that gave `attempt`, or panicked where that is `None`.
pub open spec fn settled_result(attempt: Option<FetchResult>) -> FetchResult {
    match attempt {
        Some(result) => result,
        None => Err(FetchLinkError::WorkerPanic),
    }
}

impl FetchQueueView {
    /// Nothing pushed yet.
    pub open spec fn initial() -> FetchQueueView {
        FetchQueueView { jobs: Seq::empty(), state: StateView::initial(), closed: false }
    }

    /// After `url` was pushed.
    pub open spec fn pushed(self, url: Seq<char>) -> FetchQueueView {
        FetchQueueView {
            jobs: self.jobs.push(Some(pushed_job(url, self.state.results.len() as usize))),
            state: self.state.reserved(),
            ..self
        }
    }

    /// After some URLs were pushed, one after another.
    pub open spec fn all_pushed(self, urls: Seq<Seq<char>>) -> FetchQueueView
        decreases urls.len(),
    {
        if urls.len() == 0 {
            self
        } else {
            self.all_pushed(urls.drop_last()).pushed(urls.last())
        }
    }

    /// After a worker took the oldest entry.
    pub open spec fn taken(self) -> FetchQueueView {
        FetchQueueView { jobs: self.jobs.skip(1), ..self }
    }

    /// Whether a job has a slot for its result.
    pub open spec fn has_slot(self, job: JobView) -> bool {
        job.index matches Some(index) && index < self.state.results.len()
    }

    /// After the fetch of a job gave `attempt`, or panicked.
    pub open spec fn ended(self, job: JobView, attempt: Option<FetchResult>) -> FetchQueueView {
        if self.has_slot(job) {
            FetchQueueView {
                state: self.state.recorded(job.index->0, settled_result(attempt)),
                ..self
            }
        } else {
            self
        }
    }

    /// After `workers` workers were told to stop.
    pub open spec fn stopping(self, workers: nat) -> FetchQueueView {
        FetchQueueView { jobs: self.jobs + stops(workers), closed: true, ..self }
    }
}

impl View for FetchQueue {
    type V = FetchQueueView;

    closed spec fn view(&self) -> FetchQueueView {
        FetchQueueView { jobs: self.queue@, state: self.results@, closed: self.closed }
    }
}

impl FetchQueue {
    /// A queue that nothing was pushed to yet.
    pub fn new() -> (queue: FetchQueue)
        ensures
            queue@ == FetchQueueView::initial(),
            queue@.state.wf(),
    {
        FetchQueue { queue: Queue::new(), results: FetchHandle::new(), closed: false }
    }

    /// Whether the workers were told to stop: nothing can be pushed any more.
    pub fn is_closed(&self) -> (closed: bool)
        ensures
            closed == self@.closed,
    {
        self.closed
    }

    /// Enqueue `url` for fetching. Returns the index used to order the result.
    pub fn push(&mut self, url: String) -> (index: usize)
        requires
            !old(self)@.closed,
            old(self)@.state.wf(),
            old(self)@.state.total < usize::MAX,
        ensures
            index == old(self)@.state.results.len(),
            final(self)@ == old(self)@.pushed(url@),
            final(self)@.state.wf(),
    {
        let index = self.results.reserve();
        self.queue.push(ScrapeJob::new_indexed(url, index));
        index
    }

    /// The results.
    pub fn handle(&mut self) -> (handle: &mut FetchHandle)
        ensures
            handle@ == old(self)@.state,
            final(self)@ == (FetchQueueView { state: final(handle)@, ..old(self)@ }),
    {
        &mut self.results
    }

    /// Whether a worker that asks for a job now has to wait.
    pub fn is_idle(&self) -> (idle: bool)
        ensures
            idle == (self@.jobs.len() == 0),
    {
        self.queue.is_empty()
    }

    /// Takes the oldest entry for a worker: a job, now running, or `None` where
    /// the worker is told to stop. With no entry a worker waits.
    pub fn start_next(&mut self) -> (next: Option<ScrapeJob>)
        requires
            old(self)@.jobs.len() > 0,
        ensures
            entry_view(next) == started(old(self)@.jobs[0]),
            final(self)@ == old(self)@.taken(),
    {
        self.queue.start_next()
    }

    /// Ends the job that a worker ran, where `attempt` is what its fetch gave or
    /// `None` when the fetch panicked. The result goes to the slot of the job, a
    /// panic as [`FetchLinkError::WorkerPanic`]. A job without a slot fails and
    /// leaves the results as they are. Returns whether the job succeeded.
    pub fn finish(&mut self, job: &mut ScrapeJob, attempt: Option<FetchResult>) -> (succeeded: bool)
        requires
            old(self)@.state.wf(),
            old(self)@.state.completed < usize::MAX,
        ensures
            succeeded == (old(self)@.has_slot(old(job)@) && settled_result(attempt) is Ok),
            final(self)@ == old(self)@.ended(old(job)@, attempt),
            final(self)@.state.wf(),
            final(job)@ == (JobView { status: settled_status(Some(succeeded)), ..old(job)@ }),
    {
        let succeeded = match job.index() {
            Some(index) => {
                let result = match attempt {
                    Some(result) => result,
                    None => Err(FetchLinkError::WorkerPanic),
                };
                let ok = result.is_ok();
                self.results.record(index, result) && ok
            },
            None => false,
        };
        job.settle(Some(succeeded));
        succeeded
    }

    /// Tells `workers` workers to stop, once they have taken all jobs pushed so
    /// far.
    fn shutdown(&mut self, workers: usize)
        ensures
            final(self)@ == old(self)@.stopping(workers as nat),
    {
        self.closed = true;
        self.queue.shutdown(workers);
    }
}

// ---------------------------------------------------------------------------
// Pools
// ---------------------------------------------------------------------------
/// A worker pool: its queue, the agent that all its workers share, and how many
/// workers serve it. Push URLs via [`WorkerPool::push`] and collect them with the
/// [`FetchHandle`] from [`WorkerPool::handle`]. Call [`WorkerPool::close`] when
/// done to shut the workers down.
#[derive(Debug)]
pub struct WorkerPool {
    pub queue: FetchQueue,
    agent: Agent,
    workers: usize,
}

/// What a [`WorkerPool`] holds.
pub struct WorkerPoolView {
    pub queue: FetchQueueView,
    pub agent: Agent,
    pub workers: nat,
}

impl WorkerPoolView {
    /// A pool of `workers` workers that nothing was pushed to yet.
    pub open spec fn initial(agent: Agent, workers: nat) -> WorkerPoolView {
        WorkerPoolView { queue: FetchQueueView::initial(), agent, workers }
    }

    /// Whether the pool was closed.
    pub open spec fn closed(self) -> bool {
        self.queue.closed
    }

    /// A pool that was given a batch of URLs and was closed then.
    pub open spec fn batch(agent: Agent, workers: nat, urls: Seq<Seq<char>>) -> WorkerPoolView {
        (WorkerPoolView {
            queue: FetchQueueView::initial().all_pushed(urls),
            ..WorkerPoolView::initial(agent, workers)
        }).shut()
    }

    /// After the pool was closed: each worker is told to stop, once.
    pub open spec fn shut(self) -> WorkerPoolView {
        if self.closed() {
            self
        } else {
            WorkerPoolView { queue: self.queue.stopping(self.workers), ..self }
        }
    }
}

impl View for WorkerPool {
    type V = WorkerPoolView;

    closed spec fn view(&self) -> WorkerPoolView {
        WorkerPoolView { queue: self.queue@, agent: self.agent, workers: self.workers as nat }
    }
}

/// The characters of each URL.
pub open spec fn url_chars(urls: Seq<String>) -> Seq<Seq<char>> {
    urls.map_values(|url: String| url@)
}

/// What asking for a pool gives, where the machine answered `available` when it
/// was asked for its number of threads.
pub open spec fn refused(num_threads: usize, available: Result<usize, std::io::Error>) -> Option<
    FetchError,
> {
    match available {
        Ok(available) => if num_threads > available {
            Some(FetchError::TooManyThreads { requested: num_threads, available })
        } else {
            None
        },
        Err(error) => Some(FetchError::ParallelismUnavailable(error)),
    }
}

impl WorkerPool {
    /// Whether the pool was closed: nothing can be pushed any more.
    pub fn is_closed(&self) -> (closed: bool)
        ensures
            closed == self@.closed(),
    {
        self.queue.is_closed()
    }

    /// Enqueue `url` for fetching. See [`FetchQueue::push`].
    pub fn push(&mut self, url: String) -> (index: usize)
        requires
            !old(self)@.closed(),
            old(self)@.queue.state.wf(),
            old(self)@.queue.state.total < usize::MAX,
        ensures
            index == old(self)@.queue.state.results.len(),
            final(self)@ == (WorkerPoolView { queue: old(self)@.queue.pushed(url@), ..old(self)@ }),
            final(self)@.queue.state.wf(),
    {
        self.queue.push(url)
    }

    /// Obtain a handle to read results for URLs pushed so far.
    pub fn handle(&mut self) -> (handle: &mut FetchHandle)
        ensures
            handle@ == old(self)@.queue.state,
            final(self)@ == (WorkerPoolView {
                queue: FetchQueueView { state: final(handle)@, ..old(self)@.queue },
                ..old(self)@
            }),
    {
        self.queue.handle()
    }

    /// Whether a worker that asks for a job now has to wait.
    pub fn is_idle(&self) -> (idle: bool)
        ensures
            idle == (self@.queue.jobs.len() == 0),
    {
        self.queue.is_idle()
    }

    /// Takes the oldest entry for a worker. See [`FetchQueue::start_next`].
    pub fn start_next(&mut self) -> (next: Option<ScrapeJob>)
        requires
            old(self)@.queue.jobs.len() > 0,
        ensures
            entry_view(next) == started(old(self)@.queue.jobs[0]),
            final(self)@ == (WorkerPoolView { queue: old(self)@.queue.taken(), ..old(self)@ }),
    {
        self.queue.start_next()
    }

    /// Ends the job that a worker ran. See [`FetchQueue::finish`].
    pub fn finish(&mut self, job: &mut ScrapeJob, attempt: Option<FetchResult>) -> (succeeded: bool)
        requires
            old(self)@.queue.state.wf(),
            old(self)@.queue.state.completed < usize::MAX,
        ensures
            succeeded == (old(self)@.queue.has_slot(old(job)@) && settled_result(attempt) is Ok),
            final(self)@ == (WorkerPoolView {
                queue: old(self)@.queue.ended(old(job)@, attempt),
                ..old(self)@
            }),
            final(self)@.queue.state.wf(),
            final(job)@ == (JobView { status: settled_status(Some(succeeded)), ..old(job)@ }),
    {
        self.queue.finish(job, attempt)
    }

    /// The agent that all workers share.
    pub fn agent(&self) -> (agent: &Agent)
        ensures
            *agent == self@.agent,
    {
        &self.agent
    }

    /// How many workers serve the pool.
    pub fn workers(&self) -> (workers: usize)
        ensures
            workers == self@.workers,
    {
        self.workers
    }

    /// Signal that no more URLs will be pushed: the workers keep draining any
    /// already-queued URLs and then exit on their own. Results remain readable
    /// regardless. Closing a closed pool changes nothing.
    pub fn close(&mut self)
        ensures
            final(self)@ == old(self)@.shut(),
    {
        if !self.is_closed() {
            self.queue.shutdown(self.workers);
        }
    }
}

/// The request that a worker sends for a job: the page at its URL, fetched through
/// the agent of its pool. A job without an index is not fetched.
pub fn prepare_job(agent: &Agent, job: &ScrapeJob) -> (request: Option<Request>)
    ensures
        request is Some <==> job@.index is Some,
        request matches Some(prepared) ==> prepared@ == planned(
            *agent,
            job@.url,
            Method::GET,
            None,
            None,
        ),
{
    match job.index() {
        Some(_) => match prepare_fetch(agent, job.url(), Method::GET, None, None) {
            Ok(request) => Some(request),
            Err(_) => None,
        },
        None => None,
    }
}

/// Initializes a worker pool of `num_threads` background fetchers, where
/// `available` is the machine's number of threads, or why it is not known. All
/// workers share a single agent, the default one.
pub fn init_worker_pool(num_threads: usize, available: Result<usize, std::io::Error>) -> (pool:
    Result<WorkerPool, FetchError>)
    requires
        num_threads > 0,
    ensures
        match pool {
            Ok(pool) => {
                &&& refused(num_threads, available) is None
                &&& pool@ == WorkerPoolView::initial(pool@.agent, num_threads as nat)
                &&& agent_limit(pool@.agent) == Some(DEFAULT_TIMEOUT as nat)
                &&& pool@.queue.state.wf()
            },
            Err(error) => refused(num_threads, available) == Some(error),
        },
{
    init_worker_pool_with_agent(num_threads, available, default_agent())
}

/// Same as [`init_worker_pool`], but uses a caller-provided `Agent`. Allows custom
/// TLS/proxy/config while still sharing one agent across all workers.
pub fn init_worker_pool_with_agent(
    num_threads: usize,
    available: Result<usize, std::io::Error>,
    agent: Agent,
) -> (pool: Result<WorkerPool, FetchError>)
    requires
        num_threads > 0,
    ensures
        match pool {
            Ok(pool) => refused(num_threads, available) is None && pool@
                == WorkerPoolView::initial(agent, num_threads as nat) && pool@.queue.state.wf(),
            Err(error) => refused(num_threads, available) == Some(error),
        },
{
    let available = match available {
        Ok(available) => available,
        Err(error) => return Err(FetchError::from(error)),
    };
    if num_threads > available {
        return Err(FetchError::TooManyThreads { requested: num_threads, available });
    }
    Ok(WorkerPool { queue: FetchQueue::new(), agent, workers: num_threads })
}

/// A pool that fetches a batch of URLs with the default agent and stops then.
pub fn fetch_many(
    urls: Vec<String>,
    num_threads: usize,
    available: Result<usize, std::io::Error>,
) -> (pool: Result<WorkerPool, FetchError>)
    requires
        num_threads > 0,
    ensures
        match pool {
            Ok(pool) => {
                &&& refused(num_threads, available) is None
                &&& pool@ == WorkerPoolView::batch(
                    pool@.agent,
                    num_threads as nat,
                    url_chars(urls@),
                )
                &&& agent_limit(pool@.agent) == Some(DEFAULT_TIMEOUT as nat)
                &&& pool@.queue.state.wf()
            },
            Err(error) => refused(num_threads, available) == Some(error),
        },
{
    fetch_many_with_agent(urls, num_threads, available, default_agent())
}

/// A pool that fetches a batch of URLs with a caller-provided agent and stops
/// then. Results retain the order of the input URLs when collected with `wait()`.
pub fn fetch_many_with_agent(
    urls: Vec<String>,
    num_threads: usize,
    available: Result<usize, std::io::Error>,
    agent: Agent,
) -> (pool: Result<WorkerPool, FetchError>)
    requires
        num_threads > 0,
    ensures
        match pool {
            Ok(pool) => {
                &&& refused(num_threads, available) is None
                &&& pool@ == WorkerPoolView::batch(agent, num_threads as nat, url_chars(urls@))
                &&& pool@.queue.state.wf()
            },
            Err(error) => refused(num_threads, available) == Some(error),
        },
{
    let mut pool = match init_worker_pool_with_agent(num_threads, available, agent) {
        Ok(pool) => pool,
        Err(error) => return Err(error),
    };
    let mut urls = urls;
    let ghost all = url_chars(urls@);
    let mut done: usize = 0;
    while done < urls.len()
        invariant
            done <= urls.len(),
            urls@.len() == all.len(),
            forall|i: int| done <= i < all.len() ==> #[trigger] urls@[i]@ == all[i],
            pool@ == (WorkerPoolView {
                queue: FetchQueueView::initial().all_pushed(all.take(done as int)),
                ..WorkerPoolView::initial(agent, num_threads as nat)
            }),
            pool@.queue.state.wf(),
            pool@.queue.state.total == done,
            !pool@.closed(),
        decreases urls.len() - done,
    {
        let mut url = String::new();
        std::mem::swap(&mut url, &mut urls[done]);
        pool.push(url);
        assert(all.take(done + 1).drop_last() =~= all.take(done as int));
        done += 1;
    }
    assert(all.take(done as int) =~= all);
    pool.close();
    Ok(pool)
}

} // verus!
