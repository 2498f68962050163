//! The queue of jobs that the workers of a pool take from.
use std::collections::VecDeque;
use vstd::prelude::*;

verus! {

/// How far a job has come.
#[derive(Clone, Copy, Debug, PartialEq, Eq, Structural)]
pub enum JobStatus {
    Running,
    Pending,
    Finished,
    Failed,
    Waiting,
}

/// A URL to be fetched, and the slot that its result goes to.
#[derive(Debug)]
pub struct ScrapeJob {
    url: String,
    status: JobStatus,
    index: Option<usize>,
}

/// What a job holds.
pub struct JobView {
    pub url: Seq<char>,
    pub status: JobStatus,
    pub index: Option<usize>,
}

impl View for ScrapeJob {
    type V = JobView;

    closed spec fn view(&self) -> JobView {
        JobView { url: self.url@, status: self.status, index: self.index }
    }
}

/// The status of a job whose handler returned `outcome`, or panicked where that
/// is `None`.
pub open spec fn settled_status(outcome: Option<bool>) -> JobStatus {
    if outcome == Some(true) {
        JobStatus::Finished
    } else {
        JobStatus::Failed
    }
}

impl ScrapeJob {
    /// A pending job without a slot.
    pub fn new(url: String) -> (job: ScrapeJob)
        ensures
            job@ == (JobView { url: url@, status: JobStatus::Pending, index: None }),
    {
        ScrapeJob { url, status: JobStatus::Pending, index: None }
    }

    /// A pending job whose result goes to the slot `index`.
    pub fn new_indexed(url: String, index: usize) -> (job: ScrapeJob)
        ensures
            job@ == (JobView { url: url@, status: JobStatus::Pending, index: Some(index) }),
    {
        ScrapeJob { url, status: JobStatus::Pending, index: Some(index) }
    }

    pub fn url(&self) -> (url: &str)
        ensures
            url@ == self@.url,
    {
        self.url.as_str()
    }

    pub fn status(&self) -> (status: &JobStatus)
        ensures
            *status == self@.status,
    {
        &self.status
    }

    pub fn index(&self) -> (index: Option<usize>)
        ensures
            index == self@.index,
    {
        self.index
    }

    pub fn set_status(&mut self, status: JobStatus)
        ensures
            final(self)@ == (JobView { status, ..old(self)@ }),
    {
        self.status = status;
    }

    /// Ends the job: `outcome` is what its handler returned, `true` when the job
    /// succeeded and `false` when it failed, or `None` when the handler panicked.
    /// A panic counts as a failure.
    pub fn settle(&mut self, outcome: Option<bool>)
        ensures
            final(self)@ == (JobView { status: settled_status(outcome), ..old(self)@ }),
    {
        match outcome {
            Some(true) => self.set_status(JobStatus::Finished),
            _ => self.set_status(JobStatus::Failed),
        }
    }
}

/// Jobs in the order in which they were pushed. A `None` in the queue tells one
/// worker to stop.
#[derive(Debug)]
pub struct Queue {
    jobs: VecDeque<Option<ScrapeJob>>,
}

/// What an entry of the queue holds.
pub open spec fn entry_view(entry: Option<ScrapeJob>) -> Option<JobView> {
    match entry {
        Some(job) => Some(job@),
        None => None,
    }
}

impl View for Queue {
    type V = Seq<Option<JobView>>;

    closed spec fn view(&self) -> Seq<Option<JobView>> {
        self.jobs@.map_values(|entry: Option<ScrapeJob>| entry_view(entry))
    }
}

/// As many requests to stop as there are workers.
pub open spec fn stops(workers: nat) -> Seq<Option<JobView>> {
    Seq::new(workers, |i: int| None)
}

impl Queue {
    /// An empty queue.
    pub fn new() -> (queue: Queue)
        ensures
            queue@ == Seq::<Option<JobView>>::empty(),
    {
        let queue = Queue { jobs: VecDeque::new() };
        assert(queue@ =~= Seq::<Option<JobView>>::empty());
        queue
    }

    /// Whether a worker that asks for a job now has to wait.
    pub fn is_empty(&self) -> (empty: bool)
        ensures
            empty == (self@.len() == 0),
    {
        self.jobs.len() == 0
    }

    /// Adds a job behind all others.
    pub fn push(&mut self, job: ScrapeJob)
        ensures
            final(self)@ == old(self)@.push(Some(job@)),
    {
        self.jobs.push_back(Some(job));
        assert(self@ =~= old(self)@.push(Some(job@)));
    }

    /// Takes the oldest entry: a job, or `None` where a worker is told to stop.
    /// On an empty queue a worker waits for another thread to add an entry.
    pub fn next(&mut self) -> (next: Option<ScrapeJob>)
        requires
            old(self)@.len() > 0,
        ensures
            entry_view(next) == old(self)@[0],
            final(self)@ == old(self)@.skip(1),
    {
        let entry = self.jobs.pop_front();
        assert(self@ =~= old(self)@.skip(1));
        match entry {
            Some(next) => next,
            None => None,
        }
    }

    /// Takes the oldest entry, and marks it as running where it is a job.
    pub fn start_next(&mut self) -> (next: Option<ScrapeJob>)
        requires
            old(self)@.len() > 0,
        ensures
            final(self)@ == old(self)@.skip(1),
            entry_view(next) == started(old(self)@[0]),
    {
        match self.next() {
            Some(mut job) => {
                job.set_status(JobStatus::Running);
                Some(job)
            },
            None => None,
        }
    }

    /// Tells `workers` workers to stop, once they have taken all jobs pushed so
    /// far.
    pub fn shutdown(&mut self, workers: usize)
        ensures
            final(self)@ == old(self)@ + stops(workers as nat),
    {
        let mut told: usize = 0;
        assert(self@ =~= old(self)@ + stops(0));
        while told < workers
            invariant
                told <= workers,
                self@ == old(self)@ + stops(told as nat),
            decreases workers - told,
        {
            let ghost before = self@;
            self.jobs.push_back(None);
            told += 1;
            assert(self@ =~= before.push(None));
            assert(self@ =~= old(self)@ + stops(told as nat));
        }
    }
}

/// An entry as the worker that takes it has it: a job is running.
pub open spec fn started(entry: Option<JobView>) -> Option<JobView> {
    match entry {
        Some(job) => Some(JobView { status: JobStatus::Running, ..job }),
        None => None,
    }
}

impl Default for Queue {
    fn default() -> (queue: Queue)
        ensures
            queue@ == Seq::<Option<JobView>>::empty(),
    {
        Queue::new()
    }
}

} // verus!
