//! Reading the results of a pool.
use crate::state::{present, FetchResult, State, StateView};
use vstd::prelude::*;

verus! {

/// Handle to the results of a pool: they are collected as they arrive with
/// [`ready_results`](Self::ready_results) and [`wait_ready`](Self::wait_ready),
/// or all at once with [`wait`](Self::wait) and
/// [`try_results`](Self::try_results). The total number of jobs is dynamic: it
/// grows as URLs are pushed to the pool.
#[derive(Debug)]
pub struct FetchHandle {
    state: State,
}

impl View for FetchHandle {
    type V = StateView;

    closed spec fn view(&self) -> StateView {
        self.state@
    }
}

impl FetchHandle {
    /// A handle to a pool that nothing was pushed to yet.
    pub(crate) fn new() -> (handle: FetchHandle)
        ensures
            handle@ == StateView::initial(),
            handle@.wf(),
    {
        FetchHandle { state: State::new() }
    }

    /// Makes a slot for another job, and returns its index.
    pub(crate) fn reserve(&mut self) -> (index: usize)
        requires
            old(self)@.wf(),
            old(self)@.total < usize::MAX,
        ensures
            index == old(self)@.results.len(),
            final(self)@ == old(self)@.reserved(),
            final(self)@.wf(),
    {
        self.state.reserve()
    }

    /// Puts the result of a job into its slot, if it has one: whether it has.
    pub(crate) fn record(&mut self, index: usize, result: FetchResult) -> (recorded: bool)
        requires
            old(self)@.wf(),
            old(self)@.completed < usize::MAX,
        ensures
            recorded == (index < old(self)@.results.len()),
            final(self)@ == if recorded {
                old(self)@.recorded(index, result)
            } else {
                old(self)@
            },
            final(self)@.wf(),
    {
        if index < self.state.slots() {
            self.state.record(index, result);
            true
        } else {
            false
        }
    }

    /// true if all tasks have finished
    pub fn is_finished(&self) -> (finished: bool)
        ensures
            finished == self@.finished(),
    {
        self.state.completed() >= self.state.total()
    }

    /// Returns results if everything is ready, otherwise None (does not block).
    ///
    /// Results already taken by [`ready_results`](Self::ready_results) are not
    /// returned again.
    pub fn try_results(&mut self) -> (results: Option<Vec<FetchResult>>)
        requires
            old(self)@.wf(),
        ensures
            results is Some <==> old(self)@.finished(),
            match results {
                Some(all) => all@ == present(old(self)@.results) && final(self)@ == old(
                    self,
                )@.emptied(),
                None => final(self)@ == old(self)@,
            },
            final(self)@.wf(),
    {
        if !self.is_finished() {
            return None;
        }
        Some(self.collect())
    }

    /// How many tasks have finished already (does not block)
    pub fn completed(&self) -> (completed: usize)
        ensures
            completed == self@.completed,
    {
        self.state.completed()
    }

    /// How many tasks have been enqueued so far (does not block)
    pub fn total(&self) -> (total: usize)
        ensures
            total == self@.total,
    {
        self.state.total()
    }

    /// Takes and returns the already-completed results (as they arrive), each
    /// with the index that its push returned. Each completed result is returned
    /// exactly once.
    pub fn ready_results(&mut self) -> (results: Vec<(usize, FetchResult)>)
        requires
            old(self)@.wf(),
        ensures
            results@ == old(self)@.readable(),
            final(self)@ == old(self)@.drained(),
            final(self)@.wf(),
    {
        self.state.drain_ready()
    }

    /// Whether [`wait_ready`](Self::wait_ready) has to wait for a worker: no
    /// result is ready, and there are jobs that have not completed.
    pub fn must_wait(&self) -> (waits: bool)
        ensures
            waits == (self@.ready.len() == 0 && !self@.finished()),
    {
        !self.state.has_ready() && !self.is_finished()
    }

    /// Takes everything that arrived, exactly like
    /// [`ready_results`](Self::ready_results), once at least one result is ready
    /// or all jobs have completed.
    ///
    /// Returns an empty vector only when every enqueued job has completed, so a
    /// reader that goes on until it gets one has read every result.
    pub fn wait_ready(&mut self) -> (results: Vec<(usize, FetchResult)>)
        requires
            old(self)@.wf(),
            old(self)@.ready.len() > 0 || old(self)@.finished(),
        ensures
            results@ == old(self)@.readable(),
            final(self)@ == old(self)@.drained(),
            final(self)@.wf(),
            results@.len() == 0 ==> old(self)@.finished(),
    {
        proof {
            old(self)@.lemma_readable_when_ready();
        }
        self.state.drain_ready()
    }

    /// Returns the results in the order in which their jobs were enqueued, once
    /// all jobs have completed.
    ///
    /// Results already taken by [`ready_results`](Self::ready_results) are not
    /// returned again.
    pub fn wait(&mut self) -> (results: Vec<FetchResult>)
        requires
            old(self)@.wf(),
            old(self)@.finished(),
        ensures
            results@ == present(old(self)@.results),
            final(self)@ == old(self)@.emptied(),
            final(self)@.wf(),
    {
        self.collect()
    }

    /// Drains every result still held by the state, in enqueue order.
    ///
    /// Results already handed out by [`ready_results`](Self::ready_results) are
    /// gone from the state and are simply skipped: taking a result twice is not
    /// possible.
    fn collect(&mut self) -> (results: Vec<FetchResult>)
        requires
            old(self)@.wf(),
        ensures
            results@ == present(old(self)@.results),
            final(self)@ == old(self)@.emptied(),
            final(self)@.wf(),
    {
        self.state.collect()
    }
}

} // verus!
