//! The worker state machine.
//!
//! A worker issues a fixed number of sequential requests. The transport
//! itself lives outside the library: the surrounding program asks the
//! worker for the next URL, performs the request, and hands the outcome
//! back. Every outcome — a response or a transport failure — is recorded
//! and advances the worker by exactly one iteration, so a failed request
//! never aborts the remaining iterations.

use vstd::prelude::*;
use crate::record::{RequestOutcome, ResultRecord};
use crate::template::{render_spec, RequestTemplate};

verus! {

/// One request stream: a worker id, a fixed iteration count, and the
/// records of the iterations performed so far.
pub struct Worker {
    pub worker_id: u64,
    pub total: u64,
    pub done: u64,
    pub records: Vec<ResultRecord>,
}

impl Worker {
    /// A worker holds one well-formed record per finished iteration and
    /// never exceeds its iteration count.
    pub open spec fn wf(self) -> bool {
        &&& self.done <= self.total
        &&& self.records@.len() == self.done
        &&& forall|i: int| 0 <= i < self.records@.len() ==> (#[trigger] self.records@[i]).wf()
    }

    /// A fresh worker with no iteration performed yet.
    pub fn new(worker_id: u64, total: u64) -> (w: Worker)
        ensures
            w.worker_id == worker_id,
            w.total == total,
            w.done == 0,
            w.records@ == Seq::<ResultRecord>::empty(),
            w.wf(),
    {
        Worker { worker_id, total, done: 0, records: Vec::new() }
    }

    /// Whether every iteration has been performed.
    pub fn is_finished(&self) -> (b: bool)
        ensures
            b <==> self.done == self.total,
    {
        self.done == self.total
    }

    /// The URL of the next request: the template rendered for this
    /// worker's id and the current iteration number.
    pub fn next_url(&self, template: &RequestTemplate) -> (url: String)
        requires
            self.done < self.total,
        ensures
            url@ == render_spec(template@, self.worker_id as nat, self.done as nat),
    {
        template.render(self.worker_id, self.done)
    }

    /// Records the outcome of the current iteration and advances to the
    /// next one. A transport failure is recorded exactly like a response:
    /// the worker goes on with its remaining iterations either way.
    pub fn record_outcome(&mut self, start_ms: u64, elapsed_ms: u64, outcome: RequestOutcome)
        requires
            old(self).wf(),
            old(self).done < old(self).total,
        ensures
            final(self).wf(),
            final(self).worker_id == old(self).worker_id,
            final(self).total == old(self).total,
            final(self).done == old(self).done + 1,
            final(self).records@ == old(self).records@.push(
                ResultRecord::of_outcome(start_ms, elapsed_ms, outcome),
            ),
    {
        let r = ResultRecord::from_outcome(start_ms, elapsed_ms, outcome);
        self.records.push(r);
        self.done = self.done + 1;
    }

    /// Hands the worker's buffer over for the merge.
    pub fn into_records(self) -> (v: Vec<ResultRecord>)
        ensures
            v@ == self.records@,
    {
        self.records
    }
}

/// Creates the workers of one run: ids `0 .. thread_num`, each with
/// `count_per_thread` iterations to perform and nothing recorded yet.
pub fn spawn_workers(thread_num: u64, count_per_thread: u64) -> (ws: Vec<Worker>)
    ensures
        ws@.len() == thread_num,
        forall|i: int|
            0 <= i < ws@.len() ==> {
                &&& (#[trigger] ws@[i]).worker_id == i
                &&& ws@[i].total == count_per_thread
                &&& ws@[i].done == 0
                &&& ws@[i].records@.len() == 0
                &&& ws@[i].wf()
            },
{
    let mut ws: Vec<Worker> = Vec::new();
    let mut id: u64 = 0;
    while id < thread_num
        invariant
            id <= thread_num,
            ws@.len() == id,
            forall|i: int|
                0 <= i < ws@.len() ==> {
                    &&& (#[trigger] ws@[i]).worker_id == i
                    &&& ws@[i].total == count_per_thread
                    &&& ws@[i].done == 0
                    &&& ws@[i].records@.len() == 0
                    &&& ws@[i].wf()
                },
        decreases thread_num - id,
    {
        ws.push(Worker::new(id, count_per_thread));
        id = id + 1;
    }
    ws
}

/// One timed outcome: the start timestamp, the elapsed milliseconds, and
/// what the transport produced.
pub open spec fn record_of_step(step: (u64, u64, RequestOutcome)) -> ResultRecord {
    ResultRecord::of_outcome(step.0, step.1, step.2)
}

/// The records a worker holds after being driven through a sequence of
/// timed outcomes, one iteration each.
pub open spec fn records_after_steps(
    init: Seq<ResultRecord>,
    steps: Seq<(u64, u64, RequestOutcome)>,
) -> Seq<ResultRecord>
    decreases steps.len(),
{
    if steps.len() == 0 {
        init
    } else {
        records_after_steps(init.push(record_of_step(steps.first())), steps.drop_first())
    }
}

/// No outcome aborts a worker: driving a worker through any sequence of
/// outcomes — transport failures included — appends exactly one record
/// per step, so a worker with `k` remaining iterations always produces
/// `k` more records.
pub proof fn lemma_no_outcome_aborts(
    init: Seq<ResultRecord>,
    steps: Seq<(u64, u64, RequestOutcome)>,
)
    ensures
        records_after_steps(init, steps).len() == init.len() + steps.len(),
        records_after_steps(init, steps) == init + steps.map_values(
            |step: (u64, u64, RequestOutcome)| record_of_step(step),
        ),
    decreases steps.len(),
{
    let f = |step: (u64, u64, RequestOutcome)| record_of_step(step);
    if steps.len() == 0 {
        assert(init + steps.map_values(f) =~= init);
    } else {
        let rest = steps.drop_first();
        lemma_no_outcome_aborts(init.push(f(steps.first())), rest);
        assert(init.push(f(steps.first())) + rest.map_values(f) =~= init + steps.map_values(f));
    }
}

} // verus!
