//! Runs of a pool with their history: which push each job comes from, what its
//! fetch gave, and what readers were handed for it.
use crate::pool::settled_result;
use crate::queue::JobView;
use crate::runs::{
    law_a_running_job_has_a_slot, law_every_ready_slot_is_read, law_every_step_keeps_the_invariant,
    law_finished_means_no_job_is_left, law_fresh_pool, lemma_job_count_bound, Run, Step,
};
use crate::state::{listed, present, FetchResult};
use ureq::Agent;
use vstd::prelude::*;

verus! {

/// A result that was handed to a reader: the number of the push that it belongs
/// to, counted from the first push, and the index of its slot.
pub struct Delivery {
    pub number: nat,
    pub index: usize,
    pub result: FetchResult,
}

/// A run, and what happened in it.
pub struct History {
    pub run: Run,
    /// Of each push, the URL and the index that it returned.
    pub pushes: Seq<(Seq<char>, usize)>,
    /// For each entry of the queue the push that it comes from; `None` where it
    /// asks a worker to stop.
    pub waiting: Seq<Option<nat>>,
    /// For each running job the push that it comes from.
    pub running: Seq<nat>,
    /// For each slot the push that made it.
    pub owners: Seq<nat>,
    /// What the fetch for a push gave, once its job ended.
    pub gave: Map<nat, FetchResult>,
    /// What readers were handed, in that order.
    pub delivered: Seq<Delivery>,
}

/// The filled slots, in their order.
pub open spec fn held(results: Seq<Option<FetchResult>>, owners: Seq<nat>) -> Seq<Delivery>
    decreases results.len(),
{
    if results.len() == 0 {
        Seq::empty()
    } else {
        let rest = held(results.drop_last(), owners);
        let last = results.len() - 1;
        match results.last() {
            Some(result) => rest.push(
                Delivery { number: owners[last], index: last as usize, result },
            ),
            None => rest,
        }
    }
}

impl History {
    /// A fresh pool.
    pub open spec fn initial(agent: Agent, workers: nat) -> History {
        History {
            run: Run::initial(agent, workers),
            pushes: Seq::empty(),
            waiting: Seq::empty(),
            running: Seq::empty(),
            owners: Seq::empty(),
            gave: Map::empty(),
            delivered: Seq::empty(),
        }
    }

    /// What a reader that takes the results that have arrived is handed.
    pub open spec fn arrived(self) -> Seq<Delivery> {
        self.run.state().readable().map_values(
            |item: (usize, FetchResult)|
                Delivery { number: self.owners[item.0 as int], index: item.0, result: item.1 },
        )
    }

    /// After a step.
    pub open spec fn after(self, step: Step) -> History {
        let run = self.run.after(step);
        match step {
            Step::Push(url) => History {
                run,
                pushes: self.pushes.push((url, self.run.state().results.len() as usize)),
                waiting: self.waiting.push(Some(self.pushes.len())),
                owners: self.owners.push(self.pushes.len()),
                ..self
            },
            Step::Take => match self.waiting[0] {
                Some(number) => History {
                    run,
                    waiting: self.waiting.skip(1),
                    running: self.running.push(number),
                    ..self
                },
                None => History { run, waiting: self.waiting.skip(1), ..self },
            },
            Step::Finish(position, attempt) => History {
                run,
                running: self.running.remove(position),
                gave: self.gave.insert(self.running[position], settled_result(attempt)),
                ..self
            },
            Step::Read => History { run, delivered: self.delivered + self.arrived(), ..self },
            Step::Collect => History {
                run,
                owners: Seq::empty(),
                delivered: self.delivered + held(self.run.state().results, self.owners),
                ..self
            },
            Step::Close => History {
                run,
                waiting: if self.run.pool.closed() {
                    self.waiting
                } else {
                    self.waiting + Seq::new(self.run.pool.workers, |i: int| None)
                },
                ..self
            },
        }
    }

    /// After some steps, one after another.
    pub open spec fn after_all(self, steps: Seq<Step>) -> History
        decreases steps.len(),
    {
        if steps.len() == 0 {
            self
        } else {
            self.after_all(steps.drop_last()).after(steps.last())
        }
    }

    /// Whether a job comes from the push of that number, and has not ended.
    pub open spec fn comes_from(self, job: JobView, number: nat) -> bool {
        &&& number < self.pushes.len()
        &&& job.url == self.pushes[number as int].0
        &&& job.index == Some(self.pushes[number as int].1)
        &&& self.pushes[number as int].1 < self.owners.len()
        &&& self.owners[self.pushes[number as int].1 as int] == number
        &&& !self.gave.contains_key(number)
    }

    /// Whether a delivery is what the fetch for its push gave, under the index
    /// that the push returned.
    pub open spec fn is_due(self, delivery: Delivery) -> bool {
        &&& delivery.number < self.pushes.len()
        &&& delivery.index == self.pushes[delivery.number as int].1
        &&& self.gave.contains_key(delivery.number)
        &&& delivery.result == self.gave[delivery.number]
    }

    /// Whether the result for a push was handed out.
    pub open spec fn was_delivered(self, number: nat) -> bool {
        exists|k: int| 0 <= k < self.delivered.len() && (#[trigger] self.delivered[k]).number == number
    }

    /// Whether the result for a push is held by a slot.
    pub open spec fn is_held(self, number: nat) -> bool {
        exists|i: int|
            0 <= i < self.owners.len() && #[trigger] self.owners[i] == number
                && self.run.state().results[i] is Some
    }

    /// Whether the job of a push waits.
    pub open spec fn is_waiting(self, number: nat) -> bool {
        exists|p: int| 0 <= p < self.waiting.len() && #[trigger] self.waiting[p] == Some(number)
    }

    /// Whether the job of a push is running.
    pub open spec fn is_running(self, number: nat) -> bool {
        exists|q: int| 0 <= q < self.running.len() && #[trigger] self.running[q] == number
    }

    /// Each slot belongs to one push, and has the index that the push returned.
    pub open spec fn slots_owned(self) -> bool {
        &&& self.owners.len() == self.run.state().results.len()
        &&& self.owners.no_duplicates()
        &&& forall|i: int|
            0 <= i < self.owners.len() ==> {
                &&& #[trigger] self.owners[i] < self.pushes.len()
                &&& self.pushes[self.owners[i] as int].1 == i
            }
    }

    /// Each job that has not ended comes from the push that it is counted for.
    pub open spec fn jobs_traced(self) -> bool {
        let entries = self.run.entries();
        &&& self.waiting.len() == entries.len()
        &&& self.running.len() == self.run.running.len()
        &&& forall|p: int|
            0 <= p < self.waiting.len() ==> match #[trigger] self.waiting[p] {
                Some(number) => entries[p] is Some && self.comes_from(entries[p]->0, number),
                None => entries[p] is None,
            }
        &&& forall|q: int|
            0 <= q < self.running.len() ==> self.comes_from(
                self.run.running[q],
                #[trigger] self.running[q],
            )
    }

    /// A slot holds what the fetch for its push gave, and that was not handed out.
    pub open spec fn slots_true(self) -> bool {
        forall|i: int|
            0 <= i < self.owners.len() && self.run.state().results[i] is Some ==> {
                &&& self.gave.contains_key(#[trigger] self.owners[i])
                &&& self.gave[self.owners[i]] == self.run.state().results[i]->0
                &&& !self.was_delivered(self.owners[i])
            }
    }

    /// What was handed out was due, and nothing was handed out twice.
    pub open spec fn deliveries_true(self) -> bool {
        &&& forall|k: int|
            0 <= k < self.delivered.len() ==> self.is_due(#[trigger] self.delivered[k])
        &&& forall|k: int, l: int|
            0 <= k < l < self.delivered.len() ==> (#[trigger] self.delivered[k]).number != (
            #[trigger] self.delivered[l]).number
    }

    /// The result for a push comes from its job, and is handed out or held once
    /// it is there.
    pub open spec fn pushes_counted(self) -> bool {
        &&& forall|n: nat|
            n < self.pushes.len() ==> #[trigger] self.gave.contains_key(n) || self.is_waiting(n)
                || self.is_running(n)
        &&& forall|n: nat| #[trigger]
            self.gave.contains_key(n) ==> n < self.pushes.len() && (self.was_delivered(n)
                || self.is_held(n))
    }

    /// What holds after every step.
    pub open spec fn inv(self) -> bool {
        &&& self.run.inv()
        &&& self.slots_owned()
        &&& self.jobs_traced()
        &&& self.slots_true()
        &&& self.deliveries_true()
        &&& self.pushes_counted()
    }
}

// ---------------------------------------------------------------------------
// What every step keeps
// ---------------------------------------------------------------------------
/// Whether deliveries are the filled slots: each filled slot once, in its order.
spec fn lists_slots(
    deliveries: Seq<Delivery>,
    results: Seq<Option<FetchResult>>,
    owners: Seq<nat>,
) -> bool {
    &&& forall|k: int|
        0 <= k < deliveries.len() ==> {
            let delivery = #[trigger] deliveries[k];
            &&& delivery.index < results.len()
            &&& results[delivery.index as int] == Some(delivery.result)
            &&& delivery.number == owners[delivery.index as int]
        }
    &&& forall|k: int, l: int|
        0 <= k < l < deliveries.len() ==> (#[trigger] deliveries[k]).index != (
        #[trigger] deliveries[l]).index
    &&& forall|i: int|
        0 <= i < results.len() && (#[trigger] results[i]) is Some ==> exists|k: int|
            0 <= k < deliveries.len() && (#[trigger] deliveries[k]).index == i
}

/// Collecting lists the filled slots.
proof fn lemma_held(results: Seq<Option<FetchResult>>, owners: Seq<nat>)
    requires
        results.len() <= usize::MAX,
    ensures
        lists_slots(held(results, owners), results, owners),
        held(results, owners).map_values(|delivery: Delivery| delivery.result) == present(results),
        forall|k: int, l: int|
            0 <= k < l < held(results, owners).len() ==> (#[trigger] held(results, owners)[k]).index
                < (#[trigger] held(results, owners)[l]).index,
    decreases results.len(),
{
    let all = held(results, owners);
    if results.len() > 0 {
        let shorter = results.drop_last();
        let rest = held(shorter, owners);
        lemma_held(shorter, owners);
        assert forall|k: int| 0 <= k < rest.len() implies (#[trigger] all[k]) == rest[k]
            && rest[k].index < shorter.len() && results[rest[k].index as int]
            == shorter[rest[k].index as int] by {}
        assert forall|i: int|
            0 <= i < results.len() && (#[trigger] results[i]) is Some implies exists|k: int|
            0 <= k < all.len() && (#[trigger] all[k]).index == i by {
            if i < shorter.len() {
                assert(shorter[i] is Some);
                let k = choose|k: int| 0 <= k < rest.len() && (#[trigger] rest[k]).index == i;
                assert(all[k].index == i);
            } else {
                assert(all[rest.len() as int].index == i);
            }
        }
    }
    assert(all.map_values(|delivery: Delivery| delivery.result) =~= present(results));
}

/// Reading lists the filled slots.
proof fn lemma_arrived(history: History)
    requires
        history.run.inv(),
    ensures
        lists_slots(history.arrived(), history.run.state().results, history.owners),
{
    let state = history.run.state();
    let arrived = history.arrived();
    law_every_ready_slot_is_read(history.run);
    assert forall|k: int| 0 <= k < arrived.len() implies {
        let delivery = #[trigger] arrived[k];
        &&& delivery.index == state.ready[k]
        &&& delivery.index < state.results.len()
        &&& state.results[delivery.index as int] == Some(delivery.result)
        &&& delivery.number == history.owners[delivery.index as int]
    } by {
        assert(state.readable()[k].0 == state.ready[k]);
    }
    assert forall|i: int|
        0 <= i < state.results.len() && (#[trigger] state.results[i]) is Some implies exists|k: int|
        0 <= k < arrived.len() && (#[trigger] arrived[k]).index == i by {
        assert(listed(state.ready, i));
        let k = choose|k: int| 0 <= k < state.ready.len() && state.ready[k] == i;
        assert(arrived[k].index == i);
    }
}

/// Handing out the filled slots hands out what is due, and nothing twice.
proof fn lemma_handing_out(before: History, after: History, handed: Seq<Delivery>)
    requires
        before.inv(),
        lists_slots(handed, before.run.state().results, before.owners),
        after.delivered == before.delivered + handed,
        after.pushes == before.pushes,
        after.gave == before.gave,
    ensures
        after.deliveries_true(),
        forall|n: nat| before.was_delivered(n) || before.is_held(n) ==> #[trigger]
            after.was_delivered(n),
{
    let first = before.delivered.len() as int;
    assert forall|k: int| 0 <= k < after.delivered.len() implies after.is_due(
        #[trigger] after.delivered[k],
    ) by {
        if k < first {
            assert(before.is_due(before.delivered[k]));
        } else {
            let delivery = handed[k - first];
            assert(before.gave.contains_key(before.owners[delivery.index as int]));
        }
    }
    assert forall|k: int, l: int| 0 <= k < l < after.delivered.len() implies (
    #[trigger] after.delivered[k]).number != (#[trigger] after.delivered[l]).number by {
        if l < first {
            assert(before.delivered[k].number != before.delivered[l].number);
        } else {
            let later = handed[l - first];
            assert(!before.was_delivered(before.owners[later.index as int]));
            if k < first {
                assert(before.delivered[k].number != later.number);
            } else {
                assert(handed[k - first].index != later.index);
            }
        }
    }
    assert forall|n: nat| before.was_delivered(n) || before.is_held(n) implies
        #[trigger] after.was_delivered(n) by {
        if before.was_delivered(n) {
            let k = choose|k: int|
                0 <= k < before.delivered.len() && (#[trigger] before.delivered[k]).number == n;
            assert(after.delivered[k].number == n);
        } else {
            let i = choose|i: int|
                0 <= i < before.owners.len() && #[trigger] before.owners[i] == n
                    && before.run.state().results[i] is Some;
            assert(before.run.state().results[i] is Some);
            let k = choose|k: int| 0 <= k < handed.len() && (#[trigger] handed[k]).index == i;
            assert(after.delivered[first + k].number == n);
        }
    }
}

proof fn lemma_push_traced(history: History, url: Seq<char>)
    requires
        history.inv(),
        history.run.allows(Step::Push(url)),
    ensures
        history.after(Step::Push(url)).inv(),
{
    let after = history.after(Step::Push(url));
    let number = history.pushes.len();
    law_every_step_keeps_the_invariant(history.run, Step::Push(url));
    assert(!history.gave.contains_key(number));
    assert forall|p: int| 0 <= p < after.waiting.len() implies match #[trigger] after.waiting[p] {
        Some(n) => after.run.entries()[p] is Some && after.comes_from(
            after.run.entries()[p]->0,
            n,
        ),
        None => after.run.entries()[p] is None,
    } by {
        if p < history.waiting.len() {
            assert(history.waiting[p] == after.waiting[p]);
        }
    }
    assert forall|q: int| 0 <= q < after.running.len() implies after.comes_from(
        after.run.running[q],
        #[trigger] after.running[q],
    ) by {
        assert(history.comes_from(history.run.running[q], history.running[q]));
    }
    assert forall|i: int|
        0 <= i < after.owners.len() && after.run.state().results[i] is Some implies {
        &&& after.gave.contains_key(#[trigger] after.owners[i])
        &&& after.gave[after.owners[i]] == after.run.state().results[i]->0
        &&& !after.was_delivered(after.owners[i])
    } by {
        assert(i < history.owners.len());
        assert(!history.was_delivered(history.owners[i]));
    }
    assert forall|k: int| 0 <= k < after.delivered.len() implies after.is_due(
        #[trigger] after.delivered[k],
    ) by {
        assert(history.is_due(history.delivered[k]));
    }
    assert forall|n: nat| n < after.pushes.len() implies #[trigger] after.gave.contains_key(n)
        || after.is_waiting(n) || after.is_running(n) by {
        if n == number {
            assert(after.waiting[history.waiting.len() as int] == Some(n));
        } else if !history.gave.contains_key(n) {
            if history.is_waiting(n) {
                let p = choose|p: int|
                    0 <= p < history.waiting.len() && #[trigger] history.waiting[p] == Some(n);
                assert(after.waiting[p] == Some(n));
            } else {
                assert(history.is_running(n));
                let q = choose|q: int|
                    0 <= q < history.running.len() && #[trigger] history.running[q] == n;
                assert(after.running[q] == n);
            }
        }
    }
    assert forall|n: nat| #[trigger] after.gave.contains_key(n) implies n < after.pushes.len() && (
    after.was_delivered(n) || after.is_held(n)) by {
        if history.was_delivered(n) {
            let k = choose|k: int|
                0 <= k < history.delivered.len() && (#[trigger] history.delivered[k]).number == n;
            assert(after.delivered[k].number == n);
        } else {
            let i = choose|i: int|
                0 <= i < history.owners.len() && #[trigger] history.owners[i] == n
                    && history.run.state().results[i] is Some;
            assert(after.owners[i] == n);
        }
    }
}

proof fn lemma_take_traced(history: History)
    requires
        history.inv(),
        history.run.allows(Step::Take),
    ensures
        history.after(Step::Take).inv(),
{
    let after = history.after(Step::Take);
    law_every_step_keeps_the_invariant(history.run, Step::Take);
    assert forall|p: int| 0 <= p < after.waiting.len() implies match #[trigger] after.waiting[p] {
        Some(n) => after.run.entries()[p] is Some && after.comes_from(
            after.run.entries()[p]->0,
            n,
        ),
        None => after.run.entries()[p] is None,
    } by {
        assert(after.waiting[p] == history.waiting[p + 1]);
    }
    assert forall|q: int| 0 <= q < after.running.len() implies after.comes_from(
        after.run.running[q],
        #[trigger] after.running[q],
    ) by {
        if q < history.running.len() {
            assert(history.comes_from(history.run.running[q], history.running[q]));
        } else {
            assert(history.waiting[0] is Some);
        }
    }
    assert forall|n: nat| n < after.pushes.len() implies #[trigger] after.gave.contains_key(n)
        || after.is_waiting(n) || after.is_running(n) by {
        if history.is_waiting(n) {
            let p = choose|p: int|
                0 <= p < history.waiting.len() && #[trigger] history.waiting[p] == Some(n);
            if p == 0 {
                assert(after.running[history.running.len() as int] == n);
            } else {
                assert(after.waiting[p - 1] == Some(n));
            }
        } else if history.is_running(n) {
            let q = choose|q: int|
                0 <= q < history.running.len() && #[trigger] history.running[q] == n;
            assert(after.running[q] == n);
        } else {
            assert(history.gave.contains_key(n));
        }
    }
    lemma_same_slots(history, after);
}

/// Steps that leave the slots and what was handed out alone keep what is said of
/// them.
proof fn lemma_same_slots(before: History, after: History)
    requires
        before.inv(),
        after.run.state() == before.run.state(),
        after.pushes == before.pushes,
        after.owners == before.owners,
        after.gave == before.gave,
        after.delivered == before.delivered,
    ensures
        after.slots_owned(),
        after.slots_true(),
        after.deliveries_true(),
        forall|n: nat| #[trigger]
            after.gave.contains_key(n) ==> n < after.pushes.len() && (after.was_delivered(n)
                || after.is_held(n)),
{
    assert forall|n: nat| before.was_delivered(n) == #[trigger] after.was_delivered(n) by {}
    assert forall|n: nat| before.is_held(n) == #[trigger] after.is_held(n) by {}
    assert forall|k: int| 0 <= k < after.delivered.len() implies after.is_due(
        #[trigger] after.delivered[k],
    ) by {
        assert(before.is_due(before.delivered[k]));
    }
}

proof fn lemma_close_traced(history: History)
    requires
        history.inv(),
    ensures
        history.after(Step::Close).inv(),
{
    let after = history.after(Step::Close);
    law_every_step_keeps_the_invariant(history.run, Step::Close);
    assert forall|p: int| 0 <= p < after.waiting.len() implies match #[trigger] after.waiting[p] {
        Some(n) => after.run.entries()[p] is Some && after.comes_from(
            after.run.entries()[p]->0,
            n,
        ),
        None => after.run.entries()[p] is None,
    } by {
        if p < history.waiting.len() {
            assert(after.waiting[p] == history.waiting[p]);
        }
    }
    assert forall|q: int| 0 <= q < after.running.len() implies after.comes_from(
        after.run.running[q],
        #[trigger] after.running[q],
    ) by {
        assert(history.comes_from(history.run.running[q], history.running[q]));
    }
    assert forall|n: nat| n < after.pushes.len() implies #[trigger] after.gave.contains_key(n)
        || after.is_waiting(n) || after.is_running(n) by {
        if history.is_waiting(n) {
            let p = choose|p: int|
                0 <= p < history.waiting.len() && #[trigger] history.waiting[p] == Some(n);
            assert(after.waiting[p] == Some(n));
        } else if history.is_running(n) {
            let q = choose|q: int|
                0 <= q < history.running.len() && #[trigger] history.running[q] == n;
            assert(after.running[q] == n);
        } else {
            assert(history.gave.contains_key(n));
        }
    }
    lemma_same_slots(history, after);
}

proof fn lemma_finish_traced(history: History, position: int, attempt: Option<FetchResult>)
    requires
        history.inv(),
        history.run.allows(Step::Finish(position, attempt)),
    ensures
        history.after(Step::Finish(position, attempt)).inv(),
{
    let step = Step::Finish(position, attempt);
    let after = history.after(step);
    let number = history.running[position];
    let job = history.run.running[position];
    let slot = job.index->0 as int;
    law_every_step_keeps_the_invariant(history.run, step);
    law_a_running_job_has_a_slot(history.run, position);
    assert(history.comes_from(job, number));
    assert(history.owners[slot] == number);
    assert forall|p: int| 0 <= p < after.waiting.len() implies match #[trigger] after.waiting[p] {
        Some(n) => after.run.entries()[p] is Some && after.comes_from(
            after.run.entries()[p]->0,
            n,
        ),
        None => after.run.entries()[p] is None,
    } by {
        assert(after.waiting[p] == history.waiting[p]);
        if history.waiting[p] is Some {
            assert(history.run.entries()[p]->0.index != history.run.running[position].index);
        }
    }
    assert forall|q: int| 0 <= q < after.running.len() implies after.comes_from(
        after.run.running[q],
        #[trigger] after.running[q],
    ) by {
        let r = if q < position {
            q
        } else {
            q + 1
        };
        assert(after.running[q] == history.running[r]);
        assert(after.run.running[q] == history.run.running[r]);
        assert(history.run.running[r].index != history.run.running[position].index);
    }
    assert forall|i: int|
        0 <= i < after.owners.len() && after.run.state().results[i] is Some implies {
        &&& after.gave.contains_key(#[trigger] after.owners[i])
        &&& after.gave[after.owners[i]] == after.run.state().results[i]->0
        &&& !after.was_delivered(after.owners[i])
    } by {
        if i == slot {
            if after.was_delivered(number) {
                let k = choose|k: int|
                    0 <= k < after.delivered.len() && (#[trigger] after.delivered[k]).number
                        == number;
                assert(history.is_due(history.delivered[k]));
            }
        } else {
            assert(history.owners[i] != history.owners[slot]);
            assert(!history.was_delivered(history.owners[i]));
        }
    }
    assert forall|k: int| 0 <= k < after.delivered.len() implies after.is_due(
        #[trigger] after.delivered[k],
    ) by {
        assert(history.is_due(history.delivered[k]));
    }
    assert forall|n: nat| n < after.pushes.len() implies #[trigger] after.gave.contains_key(n)
        || after.is_waiting(n) || after.is_running(n) by {
        if history.is_waiting(n) {
            let p = choose|p: int|
                0 <= p < history.waiting.len() && #[trigger] history.waiting[p] == Some(n);
            assert(after.waiting[p] == Some(n));
        } else if history.is_running(n) {
            let q = choose|q: int|
                0 <= q < history.running.len() && #[trigger] history.running[q] == n;
            if q < position {
                assert(after.running[q] == n);
            } else if q > position {
                assert(after.running[q - 1] == n);
            }
        } else {
            assert(history.gave.contains_key(n));
        }
    }
    assert forall|n: nat| #[trigger] after.gave.contains_key(n) implies n < after.pushes.len() && (
    after.was_delivered(n) || after.is_held(n)) by {
        if n == number {
            assert(after.owners[slot] == n);
        } else if history.was_delivered(n) {
            let k = choose|k: int|
                0 <= k < history.delivered.len() && (#[trigger] history.delivered[k]).number == n;
            assert(after.delivered[k].number == n);
        } else {
            assert(history.gave.contains_key(n));
            let i = choose|i: int|
                0 <= i < history.owners.len() && #[trigger] history.owners[i] == n
                    && history.run.state().results[i] is Some;
            assert(after.owners[i] == n);
        }
    }
}

/// Steps that leave the jobs alone keep what is said of them.
proof fn lemma_same_jobs(before: History, after: History)
    requires
        before.inv(),
        after.run.entries() == before.run.entries(),
        after.run.running == before.run.running,
        after.pushes == before.pushes,
        after.waiting == before.waiting,
        after.running == before.running,
        after.owners == before.owners,
        after.gave == before.gave,
    ensures
        after.jobs_traced(),
        forall|n: nat|
            n < after.pushes.len() ==> #[trigger] after.gave.contains_key(n) || after.is_waiting(n)
                || after.is_running(n),
{
    assert forall|p: int| 0 <= p < after.waiting.len() implies match #[trigger] after.waiting[p] {
        Some(n) => after.run.entries()[p] is Some && after.comes_from(
            after.run.entries()[p]->0,
            n,
        ),
        None => after.run.entries()[p] is None,
    } by {
        assert(after.waiting[p] == before.waiting[p]);
    }
    assert forall|q: int| 0 <= q < after.running.len() implies after.comes_from(
        after.run.running[q],
        #[trigger] after.running[q],
    ) by {
        assert(before.comes_from(before.run.running[q], before.running[q]));
    }
    assert forall|n: nat| n < after.pushes.len() implies #[trigger] after.gave.contains_key(n)
        || after.is_waiting(n) || after.is_running(n) by {
        assert(before.gave.contains_key(n) || before.is_waiting(n) || before.is_running(n));
    }
}

proof fn lemma_read_traced(history: History)
    requires
        history.inv(),
    ensures
        history.after(Step::Read).inv(),
{
    let after = history.after(Step::Read);
    law_every_step_keeps_the_invariant(history.run, Step::Read);
    lemma_same_jobs(history, after);
    lemma_arrived(history);
    lemma_handing_out(history, after, history.arrived());
    assert forall|n: nat| #[trigger] after.gave.contains_key(n) implies n < after.pushes.len() && (
    after.was_delivered(n) || after.is_held(n)) by {
        assert(history.gave.contains_key(n));
        assert(after.was_delivered(n));
    }
    assert(forall|i: int|
        0 <= i < after.owners.len() ==> #[trigger] after.run.state().results[i] is None);
}

proof fn lemma_collect_traced(history: History)
    requires
        history.inv(),
        history.run.allows(Step::Collect),
    ensures
        history.after(Step::Collect).inv(),
{
    let after = history.after(Step::Collect);
    let results = history.run.state().results;
    law_every_step_keeps_the_invariant(history.run, Step::Collect);
    law_finished_means_no_job_is_left(history.run);
    lemma_job_count_bound(history.run.entries());
    lemma_held(results, history.owners);
    lemma_handing_out(history, after, held(results, history.owners));
    assert forall|p: int| 0 <= p < after.waiting.len() implies match #[trigger] after.waiting[p] {
        Some(n) => after.run.entries()[p] is Some && after.comes_from(
            after.run.entries()[p]->0,
            n,
        ),
        None => after.run.entries()[p] is None,
    } by {
        assert(after.waiting[p] == history.waiting[p]);
        assert(history.run.entries()[p] is None);
    }
    assert forall|n: nat| n < after.pushes.len() implies #[trigger] after.gave.contains_key(n)
        || after.is_waiting(n) || after.is_running(n) by {
        assert(history.gave.contains_key(n) || history.is_waiting(n) || history.is_running(n));
    }
    assert forall|n: nat| #[trigger] after.gave.contains_key(n) implies n < after.pushes.len() && (
    after.was_delivered(n) || after.is_held(n)) by {
        assert(history.gave.contains_key(n));
        assert(after.was_delivered(n));
    }
}

// ---------------------------------------------------------------------------
// Laws
// ---------------------------------------------------------------------------
/// Every step that can happen keeps what is said of a history.
pub proof fn law_every_step_keeps_the_history_true(history: History, step: Step)
    requires
        history.inv(),
        history.run.allows(step),
    ensures
        history.after(step).inv(),
{
    match step {
        Step::Push(url) => lemma_push_traced(history, url),
        Step::Take => lemma_take_traced(history),
        Step::Finish(position, attempt) => lemma_finish_traced(history, position, attempt),
        Step::Read => lemma_read_traced(history),
        Step::Collect => lemma_collect_traced(history),
        Step::Close => lemma_close_traced(history),
    }
}

/// What is said of a history holds after every run.
pub proof fn law_every_history_is_true(agent: Agent, workers: nat, steps: Seq<Step>)
    requires
        workers > 0,
        Run::initial(agent, workers).allows_all(steps),
    ensures
        History::initial(agent, workers).after_all(steps).run == Run::initial(
            agent,
            workers,
        ).after_all(steps),
        History::initial(agent, workers).after_all(steps).inv(),
    decreases steps.len(),
{
    if steps.len() == 0 {
        law_fresh_pool(agent, workers);
    } else {
        law_every_history_is_true(agent, workers, steps.drop_last());
        law_every_step_keeps_the_history_true(
            History::initial(agent, workers).after_all(steps.drop_last()),
            steps.last(),
        );
    }
}

/// What happened stays as it was: pushes and deliveries are only added, and what a
/// fetch gave is not given again.
pub proof fn law_a_history_only_grows(history: History, step: Step)
    requires
        history.inv(),
        history.run.allows(step),
    ensures
        history.pushes.is_prefix_of(history.after(step).pushes),
        history.gave.submap_of(history.after(step).gave),
        history.delivered.is_prefix_of(history.after(step).delivered),
{
    let after = history.after(step);
    assert(history.pushes =~= after.pushes.subrange(0, history.pushes.len() as int));
    assert(history.delivered =~= after.delivered.subrange(0, history.delivered.len() as int));
    if let Step::Finish(position, attempt) = step {
        assert(history.comes_from(history.run.running[position], history.running[position]));
    }
}

/// A push is noted with its URL and the index of the slot that it made.
pub proof fn law_a_push_is_noted_with_its_index(history: History, url: Seq<char>)
    requires
        history.inv(),
        history.run.allows(Step::Push(url)),
    ensures
        history.after(Step::Push(url)).pushes.len() == history.pushes.len() + 1,
        history.after(Step::Push(url)).pushes.last().0 == url,
        history.after(Step::Push(url)).pushes.last().1 == history.run.state().results.len(),
{
}

/// The end of a job settles one push, the one with the URL and the index of the
/// job, which nothing had settled before.
pub proof fn law_the_end_of_a_job_settles_its_push(
    history: History,
    position: int,
    attempt: Option<FetchResult>,
)
    requires
        history.inv(),
        history.run.allows(Step::Finish(position, attempt)),
    ensures
        ({
            let job = history.run.running[position];
            let number = history.running[position];
            &&& number < history.pushes.len()
            &&& history.pushes[number as int].0 == job.url
            &&& Some(history.pushes[number as int].1) == job.index
            &&& !history.gave.contains_key(number)
            &&& history.after(Step::Finish(position, attempt)).gave == history.gave.insert(
                number,
                settled_result(attempt),
            )
        }),
{
    assert(history.comes_from(history.run.running[position], history.running[position]));
}

/// What is noted as handed out is what readers get: the pairs that reading gives,
/// in their order, and the results that collecting gives, in the order of the
/// indices that the pushes returned.
pub proof fn law_deliveries_are_what_readers_get(history: History)
    requires
        history.inv(),
    ensures
        history.after(Step::Read).delivered == history.delivered + history.arrived(),
        history.arrived().map_values(|delivery: Delivery| (delivery.index, delivery.result))
            == history.run.state().readable(),
        ({
            let collected = held(history.run.state().results, history.owners);
            &&& history.after(Step::Collect).delivered == history.delivered + collected
            &&& collected.map_values(|delivery: Delivery| delivery.result) == present(
                history.run.state().results,
            )
            &&& forall|k: int, l: int|
                0 <= k < l < collected.len() ==> (#[trigger] collected[k]).index < (
                #[trigger] collected[l]).index
        }),
{
    lemma_held(history.run.state().results, history.owners);
    assert(history.arrived().map_values(
        |delivery: Delivery| (delivery.index, delivery.result),
    ) =~= history.run.state().readable());
}

/// In every run, each result that a reader was handed came under the index that
/// the push of its URL had returned, and is what the fetch of that push gave. No
/// push had its result handed out twice. The next read hands out such results, of
/// pushes whose result was not handed out before. Once every job has completed,
/// the readers that took what had arrived have the result of every push.
pub proof fn law_every_result_comes_once_under_the_index_of_its_push(
    agent: Agent,
    workers: nat,
    steps: Seq<Step>,
)
    requires
        workers > 0,
        Run::initial(agent, workers).allows_all(steps),
    ensures
        ({
            let history = History::initial(agent, workers).after_all(steps);
            let run = Run::initial(agent, workers).after_all(steps);
            let items = run.state().readable();
            &&& history.run == run
            &&& forall|k: int|
                0 <= k < history.delivered.len() ==> history.is_due(#[trigger] history.delivered[k])
            &&& forall|k: int, l: int|
                0 <= k < l < history.delivered.len() ==> (#[trigger] history.delivered[k]).number
                    != (#[trigger] history.delivered[l]).number
            &&& history.arrived().len() == items.len()
            &&& forall|k: int|
                0 <= k < items.len() ==> {
                    let delivery = #[trigger] history.arrived()[k];
                    &&& items[k] == (delivery.index, delivery.result)
                    &&& history.is_due(delivery)
                    &&& !history.was_delivered(delivery.number)
                }
            &&& run.state().finished() ==> forall|n: nat|
                n < history.pushes.len() ==> #[trigger] history.after(Step::Read).was_delivered(n)
        }),
{
    let history = History::initial(agent, workers).after_all(steps);
    let run = history.run;
    let items = run.state().readable();
    law_every_history_is_true(agent, workers, steps);
    lemma_arrived(history);
    assert forall|k: int| 0 <= k < items.len() implies {
        let delivery = #[trigger] history.arrived()[k];
        &&& items[k] == (delivery.index, delivery.result)
        &&& history.is_due(delivery)
        &&& !history.was_delivered(delivery.number)
    } by {
        let delivery = history.arrived()[k];
        assert(history.gave.contains_key(history.owners[delivery.index as int]));
    }
    if run.state().finished() {
        law_finished_means_no_job_is_left(run);
        lemma_job_count_bound(run.entries());
        lemma_handing_out(history, history.after(Step::Read), history.arrived());
        assert forall|n: nat| n < history.pushes.len() implies #[trigger] history.after(
            Step::Read,
        ).was_delivered(n) by {
            if history.is_waiting(n) {
                let p = choose|p: int|
                    0 <= p < history.waiting.len() && #[trigger] history.waiting[p] == Some(n);
                assert(run.entries()[p] is Some);
            }
            assert(history.gave.contains_key(n));
        }
    }
}

} // verus!
