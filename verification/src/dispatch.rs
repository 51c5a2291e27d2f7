//! Query dispatcher state machine.
//!
//! Models one benchmark run: a fixed, closed-ended list of point-lookup
//! tasks drains exactly once into a pool of workers, each bounded to a
//! maximum number of in-flight queries, and every completion appends one
//! latency sample (during the timed phase) to a shared collection. The
//! surrounding program performs the actual channel, thread and runtime
//! plumbing and reports every pull and completion to this state machine,
//! which guarantees the bookkeeping: exactly-once consumption, respected
//! concurrency bounds, and a final sample of exactly one entry per task.

use vstd::prelude::*;

verus! {

/// Take-benchmark run configuration, as resolved before the run starts.
#[derive(Clone, Debug)]
pub struct Config {
    /// Storage engine to use.
    pub engine: String,
    /// Number of rows per dataset.
    pub rows_per_dataset: usize,
    /// Batch size when writing data.
    pub write_batch_size: usize,
    /// Vector dimension.
    pub vector_dim: usize,
    /// Number of queries to execute.
    pub num_queries: usize,
    /// Number of rows per query.
    pub rows_per_query: usize,
    /// Number of worker runtimes.
    pub num_runtimes: usize,
    /// Concurrent queries per runtime.
    pub concurrent_queries: usize,
    /// Dataset URIs.
    pub dataset_uri: Vec<String>,
    /// Skip warmup phase.
    pub skip_warmup: bool,
    /// Skip cache drop between warmup and timed phase.
    pub skip_cache_drop: bool,
}

/// One immutable point-lookup task: the dataset to query and the row
/// indices to take; each task is consumed by exactly one worker.
pub struct QueryTask {
    /// Index of the dataset the query reads.
    pub dataset_index: usize,
    /// Row indices to look up, ascending.
    pub row_indices: Vec<u64>,
}

/// The phase of one benchmark run.
#[derive(Clone, Copy, Debug, PartialEq, Eq, Structural)]
pub enum Phase {
    /// The task queue is populated but nothing has been pulled yet.
    Loading,
    /// Workers are pulling tasks from the queue.
    Running,
    /// The queue is exhausted; started tasks are still finishing.
    Draining,
    /// Every task has completed.
    Complete,
}

/// Sum of a sequence of per-worker counters.
pub open spec fn counter_sum(s: Seq<usize>) -> nat
    decreases s.len(),
{
    if s.len() == 0 {
        0
    } else {
        s[0] as nat + counter_sum(s.drop_first())
    }
}

proof fn lemma_counter_sum_push(s: Seq<usize>, x: usize)
    ensures
        counter_sum(s.push(x)) == counter_sum(s) + x,
    decreases s.len(),
{
    let t = s.push(x);
    assert(t.len() == s.len() + 1);
    if s.len() == 0 {
        assert(t[0] == x);
        assert(t.drop_first() =~= Seq::<usize>::empty());
        assert(counter_sum(t) == x + counter_sum(t.drop_first()));
    } else {
        assert(t[0] == s[0]);
        assert(t.drop_first() =~= s.drop_first().push(x));
        lemma_counter_sum_push(s.drop_first(), x);
        assert(counter_sum(t) == t[0] as nat + counter_sum(t.drop_first()));
        assert(counter_sum(s) == s[0] as nat + counter_sum(s.drop_first()));
    }
}

proof fn lemma_counter_sum_update(s: Seq<usize>, i: int, v: usize)
    requires
        0 <= i < s.len(),
    ensures
        counter_sum(s.update(i, v)) == counter_sum(s) - s[i] + v,
    decreases s.len(),
{
    let t = s.update(i, v);
    if i == 0 {
        assert(t[0] == v);
        assert(t.drop_first() =~= s.drop_first());
    } else {
        assert(t[0] == s[0]);
        assert(t.drop_first() =~= s.drop_first().update(i - 1, v));
        lemma_counter_sum_update(s.drop_first(), i - 1, v);
    }
}

proof fn lemma_counter_sum_bound(s: Seq<usize>, i: int)
    requires
        0 <= i < s.len(),
    ensures
        s[i] <= counter_sum(s),
    decreases s.len(),
{
    if i == 0 {
    } else {
        lemma_counter_sum_bound(s.drop_first(), i - 1);
    }
}

/// Dispatcher for one benchmark run over a fixed task list.
pub struct Dispatcher {
    tasks: Vec<QueryTask>,
    next_task: usize,
    in_flight: Vec<usize>,
    concurrency: usize,
    done_count: usize,
    warmup: bool,
    latencies: Vec<u64>,
}

impl Dispatcher {
    /// The fixed task list of this run.
    pub closed spec fn tasks(self) -> Seq<QueryTask> {
        self.tasks@
    }

    /// How many tasks have been pulled from the queue so far.
    pub closed spec fn pulled(self) -> nat {
        self.next_task as nat
    }

    /// How many tasks have completed so far.
    pub closed spec fn completed(self) -> nat {
        self.done_count as nat
    }

    /// Number of workers of this run.
    pub closed spec fn workers(self) -> nat {
        self.in_flight@.len()
    }

    /// How many queries worker `w` has in flight.
    pub closed spec fn in_flight_of(self, w: int) -> nat {
        self.in_flight@[w] as nat
    }

    /// Maximum number of in-flight queries each worker may hold.
    pub closed spec fn concurrency(self) -> nat {
        self.concurrency as nat
    }

    /// Whether this is a warmup run, whose latencies are discarded.
    pub closed spec fn warmup(self) -> bool {
        self.warmup
    }

    /// The latency samples recorded so far, in nanoseconds; a failed
    /// query contributes the zero-duration sentinel.
    pub closed spec fn sample(self) -> Seq<u64> {
        self.latencies@
    }

    /// Well-formedness: pulled tasks are either completed or in flight
    /// at some worker, no worker exceeds the concurrency bound, and the
    /// sample holds exactly one entry per completed task (none during
    /// warmup).
    pub closed spec fn wf(self) -> bool {
        &&& self.next_task <= self.tasks@.len()
        &&& self.in_flight@.len() >= 1
        &&& self.concurrency >= 1
        &&& self.done_count + counter_sum(self.in_flight@) == self.next_task
        &&& forall|w: int|
            0 <= w < self.in_flight@.len() ==> #[trigger] self.in_flight@[w] <= self.concurrency
        &&& self.latencies@.len() == if self.warmup {
            0
        } else {
            self.done_count as int
        }
    }

    /// The phase this run is in, derived from the counters.
    pub open spec fn spec_phase(self) -> Phase {
        if self.completed() == self.tasks().len() {
            Phase::Complete
        } else if self.pulled() == self.tasks().len() {
            Phase::Draining
        } else if self.pulled() > 0 {
            Phase::Running
        } else {
            Phase::Loading
        }
    }

    /// Builds the dispatcher for a run: one task per query, assigned
    /// round-robin over the datasets by task position, with
    /// `num_workers` workers each allowed `concurrency` in-flight
    /// queries.
    pub fn new(
        queries: Vec<Vec<u64>>,
        num_datasets: usize,
        num_workers: usize,
        concurrency: usize,
        warmup: bool,
    ) -> (d: Dispatcher)
        requires
            num_datasets >= 1,
            num_workers >= 1,
            concurrency >= 1,
        ensures
            d.wf(),
            d.tasks().len() == queries@.len(),
            forall|i: int|
                0 <= i < queries@.len() ==> #[trigger] d.tasks()[i].dataset_index == i % (
                num_datasets as int),
            forall|i: int|
                0 <= i < queries@.len() ==> #[trigger] d.tasks()[i].row_indices@ == queries@[i]@,
            d.pulled() == 0,
            d.completed() == 0,
            d.sample() =~= Seq::<u64>::empty(),
            d.workers() == num_workers,
            d.concurrency() == concurrency,
            d.warmup() == warmup,
            forall|w: int| 0 <= w < num_workers ==> d.in_flight_of(w) == 0,
    {
        let ghost all = queries@;
        let mut queries = queries;
        let mut tasks: Vec<QueryTask> = Vec::new();
        let mut i: usize = 0;
        let total = queries.len();
        while i < total
            invariant
                total == all.len(),
                0 <= i <= total,
                queries@ =~= all.skip(i as int),
                tasks@.len() == i,
                num_datasets >= 1,
                forall|k: int|
                    0 <= k < i ==> #[trigger] tasks@[k].dataset_index == k % (num_datasets as int),
                forall|k: int| 0 <= k < i ==> #[trigger] tasks@[k].row_indices@ == all[k]@,
            decreases total - i,
        {
            let q = queries.remove(0);
            proof {
                assert(all.skip(i as int)[0] == all[i as int]);
                assert(all.skip(i as int).subrange(1, all.skip(i as int).len() as int) =~= all.skip(
                    i + 1,
                ));
            }
            let dataset_index = i % num_datasets;
            tasks.push(QueryTask { dataset_index, row_indices: q });
            i = i + 1;
        }

        let mut in_flight: Vec<usize> = Vec::new();
        let mut w: usize = 0;
        while w < num_workers
            invariant
                0 <= w <= num_workers,
                in_flight@.len() == w,
                counter_sum(in_flight@) == 0,
                forall|k: int| 0 <= k < w ==> #[trigger] in_flight@[k] == 0,
            decreases num_workers - w,
        {
            proof {
                lemma_counter_sum_push(in_flight@, 0);
            }
            in_flight.push(0);
            w = w + 1;
        }

        Dispatcher {
            tasks,
            next_task: 0,
            in_flight,
            concurrency,
            done_count: 0,
            warmup,
            latencies: Vec::new(),
        }
    }

    /// Read access to a task by its position in the run's task list.
    pub fn task(&self, i: usize) -> (t: &QueryTask)
        requires
            i < self.tasks().len(),
        ensures
            *t == self.tasks()[i as int],
    {
        &self.tasks[i]
    }

    /// Number of tasks of this run.
    pub fn task_count(&self) -> (n: usize)
        ensures
            n == self.tasks().len(),
    {
        self.tasks.len()
    }

    /// Worker `worker` asks for a task. If the queue still holds tasks
    /// and the worker is under its concurrency bound, the next task is
    /// handed out (by its position, in queue order, each exactly once)
    /// and counted in flight at that worker; otherwise nothing changes.
    pub fn try_start(&mut self, worker: usize) -> (t: Option<usize>)
        requires
            old(self).wf(),
            worker < old(self).workers(),
        ensures
            final(self).wf(),
            final(self).tasks() == old(self).tasks(),
            final(self).workers() == old(self).workers(),
            final(self).concurrency() == old(self).concurrency(),
            final(self).warmup() == old(self).warmup(),
            final(self).completed() == old(self).completed(),
            final(self).sample() == old(self).sample(),
            match t {
                Some(i) => {
                    &&& old(self).pulled() < old(self).tasks().len()
                    &&& old(self).in_flight_of(worker as int) < old(self).concurrency()
                    &&& i == old(self).pulled()
                    &&& final(self).pulled() == old(self).pulled() + 1
                    &&& final(self).in_flight_of(worker as int) == old(self).in_flight_of(
                        worker as int,
                    ) + 1
                    &&& forall|w: int|
                        0 <= w < old(self).workers() && w != worker ==> final(self).in_flight_of(w)
                            == old(self).in_flight_of(w)
                },
                None => {
                    &&& old(self).pulled() == old(self).tasks().len() || old(self).in_flight_of(
                        worker as int,
                    ) == old(self).concurrency()
                    &&& final(self).pulled() == old(self).pulled()
                    &&& forall|w: int|
                        0 <= w < old(self).workers() ==> final(self).in_flight_of(w) == old(
                            self,
                        ).in_flight_of(w)
                },
            },
    {
        if self.next_task >= self.tasks.len() {
            return None;
        }
        let current = self.in_flight[worker];
        if current >= self.concurrency {
            return None;
        }
        proof {
            lemma_counter_sum_bound(self.in_flight@, worker as int);
            lemma_counter_sum_update(self.in_flight@, worker as int, (current + 1) as usize);
        }
        let i = self.next_task;
        self.in_flight.set(worker, current + 1);
        self.next_task = i + 1;
        Some(i)
    }

    /// Worker `worker` reports one completed query with its latency in
    /// nanoseconds (zero for a failed query, the sentinel substitution).
    /// The completion frees the worker's slot; during the timed phase
    /// the latency is appended to the sample, during warmup it is
    /// discarded.
    pub fn complete(&mut self, worker: usize, latency_nanos: u64)
        requires
            old(self).wf(),
            worker < old(self).workers(),
            old(self).in_flight_of(worker as int) >= 1,
        ensures
            final(self).wf(),
            final(self).tasks() == old(self).tasks(),
            final(self).workers() == old(self).workers(),
            final(self).concurrency() == old(self).concurrency(),
            final(self).warmup() == old(self).warmup(),
            final(self).pulled() == old(self).pulled(),
            final(self).completed() == old(self).completed() + 1,
            final(self).in_flight_of(worker as int) == old(self).in_flight_of(worker as int) - 1,
            forall|w: int|
                0 <= w < old(self).workers() && w != worker ==> final(self).in_flight_of(w) == old(
                    self,
                ).in_flight_of(w),
            final(self).sample() == if old(self).warmup() {
                old(self).sample()
            } else {
                old(self).sample().push(latency_nanos)
            },
    {
        let current = self.in_flight[worker];
        proof {
            lemma_counter_sum_bound(self.in_flight@, worker as int);
            lemma_counter_sum_update(self.in_flight@, worker as int, (current - 1) as usize);
        }
        self.in_flight.set(worker, current - 1);
        self.done_count = self.done_count + 1;
        if !self.warmup {
            self.latencies.push(latency_nanos);
        }
    }

    /// Worker `worker` reports one failed query: per the recovery rule,
    /// the failure is absorbed as a zero-duration sample instead of
    /// aborting the run.
    pub fn complete_failed(&mut self, worker: usize)
        requires
            old(self).wf(),
            worker < old(self).workers(),
            old(self).in_flight_of(worker as int) >= 1,
        ensures
            final(self).wf(),
            final(self).tasks() == old(self).tasks(),
            final(self).workers() == old(self).workers(),
            final(self).concurrency() == old(self).concurrency(),
            final(self).warmup() == old(self).warmup(),
            final(self).pulled() == old(self).pulled(),
            final(self).completed() == old(self).completed() + 1,
            final(self).in_flight_of(worker as int) == old(self).in_flight_of(worker as int) - 1,
            forall|w: int|
                0 <= w < old(self).workers() && w != worker ==> final(self).in_flight_of(w) == old(
                    self,
                ).in_flight_of(w),
            final(self).sample() == if old(self).warmup() {
                old(self).sample()
            } else {
                old(self).sample().push(0u64)
            },
    {
        self.complete(worker, 0);
    }

    /// The phase the run is in.
    pub fn phase(&self) -> (p: Phase)
        requires
            self.wf(),
        ensures
            p == self.spec_phase(),
    {
        if self.done_count == self.tasks.len() {
            Phase::Complete
        } else if self.next_task == self.tasks.len() {
            Phase::Draining
        } else if self.next_task > 0 {
            Phase::Running
        } else {
            Phase::Loading
        }
    }

    /// Whether every task of the run has completed.
    pub fn is_complete(&self) -> (b: bool)
        requires
            self.wf(),
        ensures
            b == (self.spec_phase() is Complete),
    {
        self.done_count == self.tasks.len()
    }

    /// Hands out the collected latency sample once the run completed:
    /// for a timed run, exactly one entry per task of the run.
    pub fn into_latencies(self) -> (v: Vec<u64>)
        requires
            self.wf(),
            self.spec_phase() is Complete,
        ensures
            v@ == self.sample(),
            !self.warmup() ==> v@.len() == self.tasks().len(),
    {
        let Dispatcher { latencies, .. } = self;
        latencies
    }
}

/// Law: once a run completes, the timed-phase latency sample has
/// exactly one entry per task — whatever the worker count, concurrency
/// bound and interleaving of pulls and completions were, no task is
/// dropped or double-counted.
pub proof fn lemma_complete_sample_size(d: Dispatcher)
    requires
        d.wf(),
        d.spec_phase() is Complete,
        !d.warmup(),
    ensures
        d.sample().len() == d.tasks().len(),
{
}

} // verus!
