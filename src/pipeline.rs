//! The per-job pipeline: the decisions that drive one job through its map
//! phase and its reduce phase. Each method takes one event (tasks made, a task
//! sent, an acknowledgement received) and updates the job and its tasks; the
//! caller performs the I/O that goes with it (saving state, publishing).
//!
//! Its invariant ties the job's counters to its tasks: the completed counts
//! are the numbers of finished tasks of each kind, no task has failed more
//! often than the threshold, and a finished job has completed every task.
use vstd::prelude::*;
use vstd::string::*;
use crate::types::{Job, JobStatus, Task, TaskStatus, TaskType};
use crate::splitter::is_fresh_task;
use crate::intake::cancelled_message;

verus! {

/// The number of failed attempts after which a task fails its job.
pub const TASK_FAILURE_THRESHOLD: u64 = 10;

/// The number of tasks of `ts` that satisfy `f`.
pub open spec fn count_by(ts: Seq<Task>, f: spec_fn(Task) -> bool) -> nat
    decreases ts.len(),
{
    if ts.len() == 0 {
        0
    } else {
        count_by(ts.drop_last(), f) + (if f(ts.last()) {
            1nat
        } else {
            0nat
        })
    }
}

pub open spec fn is_kind(k: TaskType) -> spec_fn(Task) -> bool {
    |t: Task| t.kind == k
}

pub open spec fn is_done_kind(k: TaskType) -> spec_fn(Task) -> bool {
    |t: Task| t.kind == k && t.status == TaskStatus::Done
}

/// The number of tasks of kind `k`.
pub open spec fn total_of(ts: Seq<Task>, k: TaskType) -> nat {
    count_by(ts, is_kind(k))
}

/// The number of finished tasks of kind `k`.
pub open spec fn completed_of(ts: Seq<Task>, k: TaskType) -> nat {
    count_by(ts, is_done_kind(k))
}

pub proof fn lemma_count_update(ts: Seq<Task>, i: int, t: Task, f: spec_fn(Task) -> bool)
    requires
        0 <= i < ts.len(),
    ensures
        count_by(ts.update(i, t), f) + (if f(ts[i]) {
            1int
        } else {
            0int
        }) == count_by(ts, f) + (if f(t) {
            1int
        } else {
            0int
        }),
    decreases ts.len(),
{
    let u = ts.update(i, t);
    if i == ts.len() - 1 {
        assert(u.drop_last() =~= ts.drop_last());
    } else {
        assert(u.drop_last() =~= ts.drop_last().update(i, t));
        lemma_count_update(ts.drop_last(), i, t, f);
    }
}

pub proof fn lemma_count_append(a: Seq<Task>, b: Seq<Task>, f: spec_fn(Task) -> bool)
    ensures
        count_by(a + b, f) == count_by(a, f) + count_by(b, f),
    decreases b.len(),
{
    if b.len() == 0 {
        assert(a + b =~= a);
    } else {
        assert((a + b).drop_last() =~= a + b.drop_last());
        lemma_count_append(a, b.drop_last(), f);
    }
}

pub proof fn lemma_count_bounds(ts: Seq<Task>, f: spec_fn(Task) -> bool, g: spec_fn(Task) -> bool)
    requires
        forall|t: Task| #[trigger] f(t) ==> g(t),
    ensures
        count_by(ts, f) <= count_by(ts, g),
        count_by(ts, g) <= ts.len(),
    decreases ts.len(),
{
    if ts.len() > 0 {
        lemma_count_bounds(ts.drop_last(), f, g);
    }
}

pub proof fn lemma_count_all(ts: Seq<Task>, f: spec_fn(Task) -> bool)
    requires
        forall|i: int| 0 <= i < ts.len() ==> f(#[trigger] ts[i]),
    ensures
        count_by(ts, f) == ts.len(),
    decreases ts.len(),
{
    if ts.len() > 0 {
        lemma_count_all(ts.drop_last(), f);
    }
}

pub proof fn lemma_count_none(ts: Seq<Task>, f: spec_fn(Task) -> bool)
    requires
        forall|i: int| 0 <= i < ts.len() ==> !f(#[trigger] ts[i]),
    ensures
        count_by(ts, f) == 0,
    decreases ts.len(),
{
    if ts.len() > 0 {
        lemma_count_none(ts.drop_last(), f);
    }
}

pub proof fn lemma_count_pos(ts: Seq<Task>, i: int, f: spec_fn(Task) -> bool)
    requires
        0 <= i < ts.len(),
        f(ts[i]),
    ensures
        count_by(ts, f) >= 1,
    decreases ts.len(),
{
    if i < ts.len() - 1 {
        assert(ts.drop_last()[i] == ts[i]);
        lemma_count_pos(ts.drop_last(), i, f);
    }
}

/// `a` and `b` are the same task, whatever their progress.
pub open spec fn same_task(a: Task, b: Task) -> bool {
    &&& a.id == b.id
    &&& a.job_id == b.job_id
    &&& a.kind == b.kind
    &&& a.payload_path == b.payload_path
    &&& a.input_chunk == b.input_chunk
    &&& a.output_file == b.output_file
    &&& a.intermediate_key == b.intermediate_key
    &&& a.input_file_paths == b.input_file_paths
    &&& a.time_created == b.time_created
}

/// When every task of kind `k` counts as finished, each of them is finished.
pub proof fn lemma_all_done(ts: Seq<Task>, k: TaskType)
    requires
        completed_of(ts, k) == total_of(ts, k),
    ensures
        forall|i: int|
            0 <= i < ts.len() && (#[trigger] ts[i]).kind == k ==> ts[i].status
                == TaskStatus::Done,
    decreases ts.len(),
{
    if ts.len() > 0 {
        let p = ts.drop_last();
        lemma_count_bounds(p, is_done_kind(k), is_kind(k));
        lemma_all_done(p, k);
        assert forall|i: int|
            0 <= i < ts.len() && (#[trigger] ts[i]).kind == k implies ts[i].status
                == TaskStatus::Done by {
            if i < ts.len() - 1 {
                assert(ts[i] == p[i]);
            }
        }
    }
}

/// The reason a job fails with when its failing task gave none.
pub open spec fn task_failed_message() -> Seq<char> {
    "task failed too many times"@
}

fn task_failed_reason() -> (r: String)
    ensures
        r@ == task_failed_message(),
{
    String::from_str("task failed too many times")
}

/// A task as it is taken up again after a restart: one that was in progress
/// has no acknowledgement coming, so it is pending again.
pub open spec fn demoted(t: Task) -> Task {
    if t.status == TaskStatus::InProgress {
        Task { status: TaskStatus::Pending, ..t }
    } else {
        t
    }
}

/// Whether `marked`, the ids of a job's pending markers, holds `id`.
pub open spec fn is_marked(marked: Seq<String>, id: Seq<char>) -> bool {
    exists|m: int| 0 <= m < marked.len() && (#[trigger] marked[m])@ == id
}

fn contains_id(marked: &Vec<String>, id: &String) -> (r: bool)
    ensures
        r == is_marked(marked@, id@),
{
    let mut m: usize = 0;
    while m < marked.len()
        invariant
            m <= marked@.len(),
            forall|k: int| 0 <= k < m ==> (#[trigger] marked@[k])@ != id@,
        decreases marked@.len() - m,
    {
        if marked[m] == *id {
            return true;
        }
        m = m + 1;
    }
    false
}

/// Whether a stored job and its stored tasks can be taken up again: the job
/// has not ended, the tasks are those the pipeline could have left, and the
/// pending markers `marked` (authoritative for what is still pending) agree
/// with them: every task not yet done has its marker, and no done task has.
pub open spec fn resumable(job: Job, ts: Seq<Task>, threshold: u64, marked: Seq<String>) -> bool {
    &&& threshold >= 1
    &&& (job.status == JobStatus::Queued || job.status == JobStatus::InProgress)
    &&& ts.len() < u64::MAX
    &&& forall|i: int|
        0 <= i < ts.len() ==> {
            let t = #[trigger] ts[i];
            &&& t.job_id@ == job.id@
            &&& t.failure_count <= threshold
            &&& (t.status == TaskStatus::Pending || t.status == TaskStatus::InProgress)
                ==> t.failure_count < threshold
            &&& t.status == TaskStatus::Done ==> !is_marked(marked, t.id@)
            &&& (t.status == TaskStatus::Pending || t.status == TaskStatus::InProgress || t.status
                == TaskStatus::Failed) ==> is_marked(marked, t.id@)
        }
    &&& total_of(ts, TaskType::ReduceTask) > 0 ==> completed_of(ts, TaskType::MapTask) == total_of(
        ts,
        TaskType::MapTask,
    )
}

/// Whether some task of `ts` has status `st`.
pub open spec fn has_status(ts: Seq<Task>, st: TaskStatus) -> bool {
    exists|i: int| 0 <= i < ts.len() && (#[trigger] ts[i]).status == st
}

/// What a job's driver does next.
#[derive(Clone, Copy, Debug, PartialEq, Eq, Structural)]
pub enum Step {
    /// The job has ended, done or failed.
    Finished,
    /// Apply the retry policy to the failed tasks.
    RetryFailed,
    /// Send the pending tasks.
    SendPending,
    /// The map phase is complete: make the reduce tasks and begin that phase.
    BeginReduce,
    /// Every reduce task is done: complete the job.
    Complete,
    /// Tasks are out with workers; wait for their acknowledgements.
    Waiting,
}

/// What the retry policy decided for a failed task.
#[derive(Clone, Copy, Debug, PartialEq, Eq, Structural)]
pub enum RetryOutcome {
    /// The task is not a failed task of a job in progress; nothing changed.
    Ignored,
    /// The task is pending again, to be sent anew.
    Retry,
    /// The task failed too often; the job has failed.
    JobFailed,
}

/// What an acknowledgement led to.
#[derive(Clone, Copy, Debug, PartialEq, Eq, Structural)]
pub enum AckOutcome {
    /// The acknowledgement was not awaited (duplicate, or its job has ended).
    Ignored,
    /// The task finished.
    TaskDone,
    /// The task finished and with it the job.
    JobDone,
    /// The task failed; `retry_failed` decides what follows.
    TaskFailed,
    /// No acknowledgement was available: the queue is not a confirming one.
    ProtocolViolation,
}

/// One job and its tasks, as its pipeline drives them.
pub struct JobPipeline {
    job: Job,
    tasks: Vec<Task>,
    threshold: u64,
    reduce_started: bool,
}

impl JobPipeline {
    pub closed spec fn spec_job(&self) -> Job {
        self.job
    }

    pub closed spec fn spec_tasks(&self) -> Seq<Task> {
        self.tasks@
    }

    pub closed spec fn spec_threshold(&self) -> u64 {
        self.threshold
    }

    /// Whether the reduce phase has been entered.
    pub closed spec fn spec_reduce_started(&self) -> bool {
        self.reduce_started
    }

    /// The pipeline's invariant.
    pub open spec fn wf(&self) -> bool {
        let j = self.spec_job();
        let ts = self.spec_tasks();
        let th = self.spec_threshold();
        &&& th >= 1
        &&& ts.len() < u64::MAX
        &&& j.map_tasks_completed == completed_of(ts, TaskType::MapTask)
        &&& j.reduce_tasks_completed == completed_of(ts, TaskType::ReduceTask)
        &&& j.map_tasks_total == total_of(ts, TaskType::MapTask)
        &&& j.reduce_tasks_total == total_of(ts, TaskType::ReduceTask)
        &&& forall|i: int| 0 <= i < ts.len() ==> (#[trigger] ts[i]).failure_count <= th
        &&& forall|i: int|
            0 <= i < ts.len() && ((#[trigger] ts[i]).status == TaskStatus::Pending || ts[i].status
                == TaskStatus::InProgress) ==> ts[i].failure_count < th
        &&& forall|i: int| 0 <= i < ts.len() ==> (#[trigger] ts[i]).job_id@ == j.id@
        &&& j.status != JobStatus::Queued
        &&& j.time_started.is_some()
        &&& (self.spec_reduce_started() ==> j.map_tasks_completed == j.map_tasks_total)
        &&& (!self.spec_reduce_started() ==> j.reduce_tasks_total == 0)
        &&& (j.status == JobStatus::Done ==> self.spec_reduce_started()
            && j.reduce_tasks_completed == j.reduce_tasks_total && j.time_completed.is_some())
    }

    pub fn job(&self) -> (r: &Job)
        ensures
            *r == self.spec_job(),
    {
        &self.job
    }

    pub fn tasks(&self) -> (r: &Vec<Task>)
        ensures
            r@ == self.spec_tasks(),
    {
        &self.tasks
    }

    /// Starts a job: it is in progress from `now`, with no tasks yet.
    pub fn start(job: Job, now: u64, threshold: u64) -> (p: JobPipeline)
        requires
            threshold >= 1,
        ensures
            p.wf(),
            p.spec_job() == (Job {
                status: JobStatus::InProgress,
                time_started: Some(now),
                time_completed: None,
                map_tasks_total: 0,
                map_tasks_completed: 0,
                reduce_tasks_total: 0,
                reduce_tasks_completed: 0,
                ..job
            }),
            p.spec_tasks().len() == 0,
            p.spec_threshold() == threshold,
            !p.spec_reduce_started(),
    {
        let mut job = job;
        job.status = JobStatus::InProgress;
        job.time_started = Some(now);
        job.time_completed = None;
        job.map_tasks_total = 0;
        job.map_tasks_completed = 0;
        job.reduce_tasks_total = 0;
        job.reduce_tasks_completed = 0;
        let p = JobPipeline { job, tasks: Vec::new(), threshold, reduce_started: false };
        proof {
            assert(p.tasks@ =~= Seq::<Task>::empty());
        }
        p
    }

    /// Takes the map tasks of a job that has none yet. The job's map total is
    /// their number; with none, the map phase is complete at once.
    pub fn begin_map(&mut self, tasks: Vec<Task>)
        requires
            old(self).wf(),
            old(self).spec_tasks().len() == 0,
            old(self).spec_job().status == JobStatus::InProgress,
            !old(self).spec_reduce_started(),
            tasks@.len() < u64::MAX,
            forall|i: int|
                0 <= i < tasks@.len() ==> is_fresh_task(
                    #[trigger] tasks@[i],
                    old(self).spec_job(),
                    TaskType::MapTask,
                ),
        ensures
            final(self).wf(),
            final(self).spec_tasks() == tasks@,
            final(self).spec_job() == (Job {
                map_tasks_total: tasks@.len() as u64,
                ..old(self).spec_job()
            }),
            final(self).spec_threshold() == old(self).spec_threshold(),
            final(self).spec_reduce_started() == old(self).spec_reduce_started(),
    {
        let n = tasks.len();
        self.tasks = tasks;
        self.job.map_tasks_total = n as u64;
        proof {
            let ts = self.tasks@;
            lemma_count_all(ts, is_kind(TaskType::MapTask));
            lemma_count_none(ts, is_kind(TaskType::ReduceTask));
            lemma_count_none(ts, is_done_kind(TaskType::MapTask));
            lemma_count_none(ts, is_done_kind(TaskType::ReduceTask));
        }
    }

    /// Sends task `i` if it is pending and its job is in progress: the task is
    /// then in progress from `now`. Otherwise nothing changes.
    pub fn dispatch(&mut self, i: usize, now: u64) -> (sent: bool)
        requires
            old(self).wf(),
            i < old(self).spec_tasks().len(),
        ensures
            final(self).wf(),
            sent == (old(self).spec_job().status == JobStatus::InProgress
                && old(self).spec_tasks()[i as int].status == TaskStatus::Pending),
            sent ==> final(self).spec_tasks() == old(self).spec_tasks().update(
                i as int,
                (Task {
                    status: TaskStatus::InProgress,
                    time_started: Some(now),
                    ..old(self).spec_tasks()[i as int]
                }),
            ),
            !sent ==> final(self).spec_tasks() == old(self).spec_tasks(),
            final(self).spec_job() == old(self).spec_job(),
            final(self).spec_threshold() == old(self).spec_threshold(),
            final(self).spec_reduce_started() == old(self).spec_reduce_started(),
    {
        if self.job.status != JobStatus::InProgress || self.tasks[i].status != TaskStatus::Pending {
            return false;
        }
        let ghost ts = self.tasks@;
        self.tasks[i].status = TaskStatus::InProgress;
        self.tasks[i].time_started = Some(now);
        proof {
            let t = self.tasks@[i as int];
            assert(self.tasks@ == ts.update(i as int, t));
            lemma_count_update(ts, i as int, t, is_kind(TaskType::MapTask));
            lemma_count_update(ts, i as int, t, is_kind(TaskType::ReduceTask));
            lemma_count_update(ts, i as int, t, is_done_kind(TaskType::MapTask));
            lemma_count_update(ts, i as int, t, is_done_kind(TaskType::ReduceTask));
            assert forall|k: int| 0 <= k < self.tasks@.len() && k != i implies #[trigger] self.tasks@[k]
                == ts[k] by {}
        }
        true
    }

    /// Whether the map phase is over and the reduce phase may begin.
    pub fn map_phase_complete(&self) -> (r: bool)
        requires
            self.wf(),
        ensures
            r == (self.spec_job().status == JobStatus::InProgress && !self.spec_reduce_started()
                && self.spec_job().map_tasks_completed == self.spec_job().map_tasks_total),
    {
        self.job.status == JobStatus::InProgress && !self.reduce_started
            && self.job.map_tasks_completed == self.job.map_tasks_total
    }

    /// Whether an acknowledgement for task `i` is awaited: the job and the
    /// task are in progress, and a map task's phase is not over.
    pub open spec fn awaits_ack(&self, i: int) -> bool {
        &&& self.spec_job().status == JobStatus::InProgress
        &&& self.spec_tasks()[i].status == TaskStatus::InProgress
        &&& !(self.spec_tasks()[i].kind == TaskType::MapTask && self.spec_reduce_started())
    }

    /// Applies the acknowledgement `ack` of task `i`, received at `now`.
    ///
    /// `Some(true)`: the task is done and counted; the last reduce task
    /// finishes the job. `Some(false)`: the task has failed once more and
    /// records why; whether it is retried is decided by `retry_failed`. `None`:
    /// the task's state is unknown, which the caller must treat as fatal. An
    /// acknowledgement that is not awaited changes nothing.
    pub fn on_ack(&mut self, i: usize, ack: Option<bool>, details: Option<String>, now: u64) -> (r:
        AckOutcome)
        requires
            old(self).wf(),
            i < old(self).spec_tasks().len(),
        ensures
            final(self).wf(),
            final(self).spec_threshold() == old(self).spec_threshold(),
            final(self).spec_reduce_started() == old(self).spec_reduce_started(),
            final(self).spec_tasks() == old(self).spec_tasks().update(
                i as int,
                final(self).spec_tasks()[i as int],
            ),
            same_task(final(self).spec_tasks()[i as int], old(self).spec_tasks()[i as int]),
            !old(self).awaits_ack(i as int) ==> r == AckOutcome::Ignored && final(self).spec_tasks()
                == old(self).spec_tasks() && final(self).spec_job() == old(self).spec_job(),
            old(self).awaits_ack(i as int) && ack.is_none() ==> {
                &&& r == AckOutcome::ProtocolViolation
                &&& final(self).spec_tasks()[i as int] == (Task {
                    status: TaskStatus::Unknown,
                    time_done: Some(now),
                    ..old(self).spec_tasks()[i as int]
                })
                &&& final(self).spec_job() == old(self).spec_job()
            },
            old(self).awaits_ack(i as int) && ack == Some(true) ==> {
                let o = old(self).spec_tasks()[i as int];
                let oj = old(self).spec_job();
                &&& final(self).spec_tasks()[i as int] == (Task {
                    status: TaskStatus::Done,
                    time_done: Some(now),
                    ..o
                })
                &&& o.kind == TaskType::MapTask ==> r == AckOutcome::TaskDone
                    && final(self).spec_job() == (Job {
                    map_tasks_completed: (oj.map_tasks_completed + 1) as u64,
                    ..oj
                })
                &&& o.kind == TaskType::ReduceTask && oj.reduce_tasks_completed + 1
                    < oj.reduce_tasks_total ==> r == AckOutcome::TaskDone && final(self).spec_job()
                    == (Job { reduce_tasks_completed: (oj.reduce_tasks_completed + 1) as u64, ..oj })
                &&& o.kind == TaskType::ReduceTask && oj.reduce_tasks_completed + 1
                    >= oj.reduce_tasks_total ==> r == AckOutcome::JobDone && final(self).spec_job()
                    == (Job {
                    reduce_tasks_completed: (oj.reduce_tasks_completed + 1) as u64,
                    status: JobStatus::Done,
                    time_completed: Some(now),
                    ..oj
                })
            },
            old(self).awaits_ack(i as int) && ack == Some(false) ==> {
                let o = old(self).spec_tasks()[i as int];
                let n = final(self).spec_tasks()[i as int];
                let oj = old(self).spec_job();
                let nj = final(self).spec_job();
                &&& n.failure_count == o.failure_count + 1
                &&& n.time_done == Some(now)
                &&& n.time_started == o.time_started
                &&& (details.is_some() ==> n.failure_details == details)
                &&& (details.is_none() ==> n.failure_details == o.failure_details)
                &&& r == AckOutcome::TaskFailed
                &&& n.status == TaskStatus::Failed
                &&& n.assigned_worker_id == o.assigned_worker_id
                &&& nj == oj
            },
    {
        let ghost ts = self.tasks@;
        let ghost oj = self.job;
        if self.job.status != JobStatus::InProgress || self.tasks[i].status != TaskStatus::InProgress
            || (self.tasks[i].kind == TaskType::MapTask && self.reduce_started) {
            return AckOutcome::Ignored;
        }
        proof {
            lemma_count_bounds(ts, is_done_kind(TaskType::MapTask), is_kind(TaskType::MapTask));
            lemma_count_bounds(ts, is_done_kind(TaskType::ReduceTask), is_kind(TaskType::ReduceTask));
        }
        let r = match ack {
            None => {
                self.tasks[i].status = TaskStatus::Unknown;
                self.tasks[i].time_done = Some(now);
                AckOutcome::ProtocolViolation
            },
            Some(true) => {
                self.tasks[i].status = TaskStatus::Done;
                self.tasks[i].time_done = Some(now);
                proof {
                    let t = self.tasks@[i as int];
                    lemma_count_update(ts, i as int, t, is_done_kind(TaskType::MapTask));
                    lemma_count_update(ts, i as int, t, is_done_kind(TaskType::ReduceTask));
                    lemma_count_bounds(self.tasks@, is_done_kind(TaskType::MapTask), is_kind(TaskType::MapTask));
                    lemma_count_bounds(self.tasks@, is_done_kind(TaskType::ReduceTask), is_kind(TaskType::ReduceTask));
                    lemma_count_update(ts, i as int, t, is_kind(TaskType::MapTask));
                    lemma_count_update(ts, i as int, t, is_kind(TaskType::ReduceTask));
                }
                match self.tasks[i].kind {
                    TaskType::MapTask => {
                        self.job.map_tasks_completed = self.job.map_tasks_completed + 1;
                        AckOutcome::TaskDone
                    },
                    TaskType::ReduceTask => {
                        proof {
                            lemma_count_pos(ts, i as int, is_kind(TaskType::ReduceTask));
                        }
                        self.job.reduce_tasks_completed = self.job.reduce_tasks_completed + 1;
                        if self.job.reduce_tasks_completed >= self.job.reduce_tasks_total {
                            self.job.status = JobStatus::Done;
                            self.job.time_completed = Some(now);
                            AckOutcome::JobDone
                        } else {
                            AckOutcome::TaskDone
                        }
                    },
                }
            },
            Some(false) => {
                self.tasks[i].failure_count = self.tasks[i].failure_count + 1;
                self.tasks[i].time_done = Some(now);
                match details {
                    Some(d) => {
                        self.tasks[i].failure_details = Some(d);
                    },
                    None => {},
                }
                self.tasks[i].status = TaskStatus::Failed;
                AckOutcome::TaskFailed
            },
        };
        proof {
            let t = self.tasks@[i as int];
            assert(self.tasks@ == ts.update(i as int, t));
            lemma_count_update(ts, i as int, t, is_kind(TaskType::MapTask));
            lemma_count_update(ts, i as int, t, is_kind(TaskType::ReduceTask));
            lemma_count_update(ts, i as int, t, is_done_kind(TaskType::MapTask));
            lemma_count_update(ts, i as int, t, is_done_kind(TaskType::ReduceTask));
            assert forall|k: int| 0 <= k < self.tasks@.len() && k != i implies #[trigger] self.tasks@[k] == ts[k] by {}
        }
        r
    }

    /// Whether task `i` waits for the retry policy: a failed task of a job in
    /// progress.
    pub open spec fn awaits_retry(&self, i: int) -> bool {
        &&& self.spec_job().status == JobStatus::InProgress
        &&& self.spec_tasks()[i].status == TaskStatus::Failed
    }

    /// Applies the retry policy to the failed task `i`, at the barrier after
    /// its failure was saved. Below the threshold the task is pending again
    /// and loses its worker; at the threshold the job fails, with the task's
    /// last failure reason or, if it gave none, a reason of its own. A task
    /// that does not await a retry changes nothing.
    pub fn retry_failed(&mut self, i: usize) -> (r: RetryOutcome)
        requires
            old(self).wf(),
            i < old(self).spec_tasks().len(),
        ensures
            final(self).wf(),
            final(self).spec_threshold() == old(self).spec_threshold(),
            final(self).spec_reduce_started() == old(self).spec_reduce_started(),
            !old(self).awaits_retry(i as int) ==> r == RetryOutcome::Ignored && final(self).spec_tasks()
                == old(self).spec_tasks() && final(self).spec_job() == old(self).spec_job(),
            old(self).awaits_retry(i as int) ==> {
                let o = old(self).spec_tasks()[i as int];
                let oj = old(self).spec_job();
                let nj = final(self).spec_job();
                &&& o.failure_count < old(self).spec_threshold() ==> {
                    let n = final(self).spec_tasks()[i as int];
                    &&& r == RetryOutcome::Retry
                    &&& final(self).spec_tasks() == old(self).spec_tasks().update(i as int, n)
                    &&& n == (Task {
                        status: TaskStatus::Pending,
                        assigned_worker_id: n.assigned_worker_id,
                        ..o
                    })
                    &&& n.assigned_worker_id@.len() == 0
                    &&& nj == oj
                }
                &&& o.failure_count >= old(self).spec_threshold() ==> {
                    &&& r == RetryOutcome::JobFailed
                    &&& final(self).spec_tasks() == old(self).spec_tasks()
                    &&& nj == (Job { status: JobStatus::Failed, status_details: nj.status_details, ..oj })
                    &&& nj.status_details.is_some()
                    &&& o.failure_details.is_some() ==> nj.status_details->0@ == o.failure_details->0@
                    &&& o.failure_details.is_none() ==> nj.status_details->0@ == task_failed_message()
                }
            },
    {
        if self.job.status != JobStatus::InProgress || self.tasks[i].status != TaskStatus::Failed {
            return RetryOutcome::Ignored;
        }
        if self.tasks[i].failure_count < self.threshold {
            let ghost ts = self.tasks@;
            self.tasks[i].status = TaskStatus::Pending;
            self.tasks[i].assigned_worker_id = String::new();
            proof {
                let t = self.tasks@[i as int];
                assert(self.tasks@ == ts.update(i as int, t));
                lemma_count_update(ts, i as int, t, is_kind(TaskType::MapTask));
                lemma_count_update(ts, i as int, t, is_kind(TaskType::ReduceTask));
                lemma_count_update(ts, i as int, t, is_done_kind(TaskType::MapTask));
                lemma_count_update(ts, i as int, t, is_done_kind(TaskType::ReduceTask));
                assert forall|k: int| 0 <= k < self.tasks@.len() && k != i implies #[trigger] self.tasks@[k]
                    == ts[k] by {}
            }
            RetryOutcome::Retry
        } else {
            let reason = match &self.tasks[i].failure_details {
                Some(d) => d.clone(),
                None => task_failed_reason(),
            };
            self.job.status = JobStatus::Failed;
            self.job.status_details = Some(reason);
            RetryOutcome::JobFailed
        }
    }

    /// Enters the reduce phase with `tasks`, if the map phase is complete;
    /// otherwise nothing changes. With no reduce tasks the job is done at once.
    pub fn begin_reduce(&mut self, tasks: Vec<Task>, now: u64) -> (started: bool)
        requires
            old(self).wf(),
            old(self).spec_tasks().len() + tasks@.len() < u64::MAX,
            forall|i: int|
                0 <= i < tasks@.len() ==> is_fresh_task(
                    #[trigger] tasks@[i],
                    old(self).spec_job(),
                    TaskType::ReduceTask,
                ),
        ensures
            final(self).wf(),
            final(self).spec_threshold() == old(self).spec_threshold(),
            started == (old(self).spec_job().status == JobStatus::InProgress
                && !old(self).spec_reduce_started()
                && old(self).spec_job().map_tasks_completed
                == old(self).spec_job().map_tasks_total),
            !started ==> final(self).spec_tasks() == old(self).spec_tasks() && final(self).spec_job()
                == old(self).spec_job() && final(self).spec_reduce_started()
                == old(self).spec_reduce_started(),
            started ==> final(self).spec_reduce_started() && final(self).spec_tasks()
                == old(self).spec_tasks() + tasks@,
            started && tasks@.len() > 0 ==> final(self).spec_job() == (Job {
                reduce_tasks_total: tasks@.len() as u64,
                ..old(self).spec_job()
            }),
            started && tasks@.len() == 0 ==> final(self).spec_job() == (Job {
                status: JobStatus::Done,
                time_completed: Some(now),
                ..old(self).spec_job()
            }),
    {
        if !self.map_phase_complete() {
            return false;
        }
        let ghost ts = self.tasks@;
        let ghost more = tasks@;
        let n = tasks.len();
        let mut tasks = tasks;
        self.tasks.append(&mut tasks);
        self.reduce_started = true;
        proof {
            assert(self.tasks@ == ts + more);
            lemma_count_append(ts, more, is_kind(TaskType::MapTask));
            lemma_count_append(ts, more, is_kind(TaskType::ReduceTask));
            lemma_count_append(ts, more, is_done_kind(TaskType::MapTask));
            lemma_count_append(ts, more, is_done_kind(TaskType::ReduceTask));
            lemma_count_none(more, is_kind(TaskType::MapTask));
            lemma_count_all(more, is_kind(TaskType::ReduceTask));
            lemma_count_none(more, is_done_kind(TaskType::MapTask));
            lemma_count_none(more, is_done_kind(TaskType::ReduceTask));
            lemma_count_bounds(ts, is_done_kind(TaskType::ReduceTask), is_kind(TaskType::ReduceTask));
            assert forall|k: int| 0 <= k < self.tasks@.len() implies (#[trigger] self.tasks@[k]) == (
            if k < ts.len() {
                ts[k]
            } else {
                more[k - ts.len()]
            }) by {}
        }
        if n == 0 {
            self.job.status = JobStatus::Done;
            self.job.time_completed = Some(now);
        } else {
            self.job.reduce_tasks_total = n as u64;
        }
        true
    }

    /// Marks the job done if its reduce phase has begun and every reduce task
    /// is done (as after a restart that found them all finished); otherwise
    /// nothing changes.
    pub fn complete_if_finished(&mut self, now: u64) -> (completed: bool)
        requires
            old(self).wf(),
        ensures
            final(self).wf(),
            completed == (old(self).spec_job().status == JobStatus::InProgress
                && old(self).spec_reduce_started() && old(self).spec_job().reduce_tasks_completed
                == old(self).spec_job().reduce_tasks_total),
            final(self).spec_tasks() == old(self).spec_tasks(),
            final(self).spec_threshold() == old(self).spec_threshold(),
            final(self).spec_reduce_started() == old(self).spec_reduce_started(),
            !completed ==> final(self).spec_job() == old(self).spec_job(),
            completed ==> final(self).spec_job() == (Job {
                status: JobStatus::Done,
                time_completed: Some(now),
                ..old(self).spec_job()
            }),
    {
        if self.job.status != JobStatus::InProgress || !self.reduce_started
            || self.job.reduce_tasks_completed != self.job.reduce_tasks_total {
            return false;
        }
        self.job.status = JobStatus::Done;
        self.job.time_completed = Some(now);
        true
    }

    fn any_with_status(&self, st: TaskStatus) -> (r: bool)
        ensures
            r == has_status(self.spec_tasks(), st),
    {
        let mut k: usize = 0;
        while k < self.tasks.len()
            invariant
                k <= self.tasks@.len(),
                forall|m: int| 0 <= m < k ==> (#[trigger] self.tasks@[m]).status != st,
            decreases self.tasks@.len() - k,
        {
            if self.tasks[k].status == st {
                return true;
            }
            k = k + 1;
        }
        false
    }

    /// The next step of the job: first the retry policy for failed tasks,
    /// then sending pending ones; once none is left out, entering the reduce
    /// phase after the map phase, or completing the job after the reduce
    /// phase.
    pub fn next_step(&self) -> (r: Step)
        requires
            self.wf(),
        ensures
            self.spec_job().status != JobStatus::InProgress ==> r == Step::Finished,
            self.spec_job().status == JobStatus::InProgress ==> {
                let ts = self.spec_tasks();
                let j = self.spec_job();
                &&& has_status(ts, TaskStatus::Failed) ==> r == Step::RetryFailed
                &&& !has_status(ts, TaskStatus::Failed) && has_status(ts, TaskStatus::Pending) ==> r
                    == Step::SendPending
                &&& !has_status(ts, TaskStatus::Failed) && !has_status(ts, TaskStatus::Pending)
                    && !self.spec_reduce_started() && j.map_tasks_completed == j.map_tasks_total
                    ==> r == Step::BeginReduce
                &&& !has_status(ts, TaskStatus::Failed) && !has_status(ts, TaskStatus::Pending)
                    && self.spec_reduce_started() && j.reduce_tasks_completed
                    == j.reduce_tasks_total ==> r == Step::Complete
                &&& !has_status(ts, TaskStatus::Failed) && !has_status(ts, TaskStatus::Pending) && (
                !self.spec_reduce_started() ==> j.map_tasks_completed != j.map_tasks_total) && (
                self.spec_reduce_started() ==> j.reduce_tasks_completed != j.reduce_tasks_total)
                    ==> r == Step::Waiting
            },
    {
        if self.job.status != JobStatus::InProgress {
            return Step::Finished;
        }
        if self.any_with_status(TaskStatus::Failed) {
            return Step::RetryFailed;
        }
        if self.any_with_status(TaskStatus::Pending) {
            return Step::SendPending;
        }
        if !self.reduce_started {
            if self.job.map_tasks_completed == self.job.map_tasks_total {
                Step::BeginReduce
            } else {
                Step::Waiting
            }
        } else if self.job.reduce_tasks_completed == self.job.reduce_tasks_total {
            Step::Complete
        } else {
            Step::Waiting
        }
    }

    /// Fails a running job with `reason`, as when its state cannot be saved;
    /// acknowledgements of tasks already sent are ignored from then on. A job
    /// that is not in progress is left as it is.
    pub fn fail(&mut self, reason: String) -> (failed: bool)
        requires
            old(self).wf(),
        ensures
            final(self).wf(),
            failed == (old(self).spec_job().status == JobStatus::InProgress),
            final(self).spec_tasks() == old(self).spec_tasks(),
            final(self).spec_threshold() == old(self).spec_threshold(),
            final(self).spec_reduce_started() == old(self).spec_reduce_started(),
            !failed ==> final(self).spec_job() == old(self).spec_job(),
            failed ==> final(self).spec_job() == (Job {
                status: JobStatus::Failed,
                status_details: Some(reason),
                ..old(self).spec_job()
            }),
    {
        if self.job.status != JobStatus::InProgress {
            return false;
        }
        self.job.status = JobStatus::Failed;
        self.job.status_details = Some(reason);
        true
    }

    /// Cancels a running job: it fails with the reason `cancelled`, and the
    /// acknowledgements of tasks already sent are ignored from then on. A job
    /// that is not in progress is left as it is.
    pub fn cancel(&mut self) -> (cancelled: bool)
        requires
            old(self).wf(),
        ensures
            final(self).wf(),
            cancelled == (old(self).spec_job().status == JobStatus::InProgress),
            final(self).spec_tasks() == old(self).spec_tasks(),
            final(self).spec_threshold() == old(self).spec_threshold(),
            final(self).spec_reduce_started() == old(self).spec_reduce_started(),
            !cancelled ==> final(self).spec_job() == old(self).spec_job(),
            cancelled ==> final(self).spec_job() == (Job {
                status: JobStatus::Failed,
                status_details: final(self).spec_job().status_details,
                ..old(self).spec_job()
            }),
            cancelled ==> final(self).spec_job().status_details.is_some()
                && final(self).spec_job().status_details->0@ == cancelled_message(),
    {
        if self.job.status != JobStatus::InProgress {
            return false;
        }
        self.job.status = JobStatus::Failed;
        self.job.status_details = Some(String::from_str("cancelled"));
        true
    }

    /// Takes up a stored job and its stored tasks after a restart, if they are
    /// resumable. Tasks that were in progress are pending again; the counters
    /// are recounted from the tasks. Also returns, in order, the indices of all
    /// pending tasks: the ones to send again, all of them marked pending.
    /// Finished tasks are not among them.
    pub fn resume(job: Job, tasks: Vec<Task>, marked: &Vec<String>, threshold: u64, now: u64) -> (r: Option<
        (JobPipeline, Vec<usize>),
    >)
        ensures
            r.is_some() == resumable(job, tasks@, threshold, marked@),
            r.is_some() ==> {
                let p = r.unwrap().0;
                let resend = r.unwrap().1@;
                let ts = p.spec_tasks();
                &&& p.wf()
                &&& p.spec_threshold() == threshold
                &&& ts.len() == tasks@.len()
                &&& forall|k: int| 0 <= k < ts.len() ==> #[trigger] ts[k] == demoted(tasks@[k])
                &&& p.spec_reduce_started() == (total_of(tasks@, TaskType::ReduceTask) > 0)
                &&& p.spec_job() == (Job {
                    status: JobStatus::InProgress,
                    time_started: p.spec_job().time_started,
                    map_tasks_total: total_of(tasks@, TaskType::MapTask) as u64,
                    map_tasks_completed: completed_of(tasks@, TaskType::MapTask) as u64,
                    reduce_tasks_total: total_of(tasks@, TaskType::ReduceTask) as u64,
                    reduce_tasks_completed: completed_of(tasks@, TaskType::ReduceTask) as u64,
                    ..job
                })
                &&& p.spec_job().time_started == (if job.time_started.is_some() {
                    job.time_started
                } else {
                    Some(now)
                })
                &&& forall|a: int, b: int| 0 <= a < b < resend.len() ==> resend[a] < resend[b]
                &&& forall|a: int| 0 <= a < resend.len() ==> (#[trigger] resend[a]) < ts.len()
                    && ts[resend[a] as int].status == TaskStatus::Pending
                    && is_marked(marked@, ts[resend[a] as int].id@)
                &&& forall|k: int|
                    0 <= k < ts.len() && (#[trigger] ts[k]).status == TaskStatus::Pending
                        ==> resend.contains(k as usize)
            },
    {
        if threshold < 1 || !(job.status == JobStatus::Queued || job.status == JobStatus::InProgress)
            || tasks.len() as u64 >= u64::MAX {
            return None;
        }
        let ghost orig = tasks@;
        let n = tasks.len();
        let mut map_total: u64 = 0;
        let mut map_done: u64 = 0;
        let mut reduce_total: u64 = 0;
        let mut reduce_done: u64 = 0;
        let mut k: usize = 0;
        while k < n
            invariant
                n == orig.len(),
                orig == tasks@,
                n < u64::MAX,
                k <= n,
                map_total == total_of(orig.subrange(0, k as int), TaskType::MapTask),
                map_done == completed_of(orig.subrange(0, k as int), TaskType::MapTask),
                reduce_total == total_of(orig.subrange(0, k as int), TaskType::ReduceTask),
                reduce_done == completed_of(orig.subrange(0, k as int), TaskType::ReduceTask),
                forall|i: int|
                    0 <= i < k ==> {
                        let t = #[trigger] orig[i];
                        &&& t.job_id@ == job.id@
                        &&& t.failure_count <= threshold
                        &&& (t.status == TaskStatus::Pending || t.status == TaskStatus::InProgress)
                            ==> t.failure_count < threshold
                        &&& t.status == TaskStatus::Done ==> !is_marked(marked@, t.id@)
                        &&& (t.status == TaskStatus::Pending || t.status == TaskStatus::InProgress
                            || t.status == TaskStatus::Failed) ==> is_marked(marked@, t.id@)
                    },
            decreases n - k,
        {
            let t = &tasks[k];
            if t.job_id != job.id || t.failure_count > threshold || ((t.status == TaskStatus::Pending
                || t.status == TaskStatus::InProgress) && t.failure_count >= threshold) {
                return None;
            }
            let has_marker = contains_id(marked, &t.id);
            if (t.status == TaskStatus::Done && has_marker) || ((t.status == TaskStatus::Pending
                || t.status == TaskStatus::InProgress || t.status == TaskStatus::Failed)
                && !has_marker) {
                return None;
            }
            proof {
                let pre = orig.subrange(0, k as int);
                let cur = orig.subrange(0, k + 1);
                assert(cur.drop_last() =~= pre);
                lemma_count_bounds(pre, is_done_kind(TaskType::MapTask), is_kind(TaskType::MapTask));
                lemma_count_bounds(pre, is_done_kind(TaskType::ReduceTask), is_kind(TaskType::ReduceTask));
            }
            match t.kind {
                TaskType::MapTask => {
                    map_total = map_total + 1;
                    if t.status == TaskStatus::Done {
                        map_done = map_done + 1;
                    }
                },
                TaskType::ReduceTask => {
                    reduce_total = reduce_total + 1;
                    if t.status == TaskStatus::Done {
                        reduce_done = reduce_done + 1;
                    }
                },
            }
            k = k + 1;
        }
        proof {
            assert(orig.subrange(0, n as int) =~= orig);
        }
        if reduce_total > 0 && map_done != map_total {
            return None;
        }
        let mut tasks = tasks;
        let mut resend: Vec<usize> = Vec::new();
        let mut k: usize = 0;
        while k < n
            invariant
                n == orig.len(),
                tasks@.len() == n,
                k <= n,
                forall|i: int| 0 <= i < k ==> #[trigger] tasks@[i] == demoted(orig[i]),
                forall|i: int| k <= i < n ==> #[trigger] tasks@[i] == orig[i],
                forall|a: int, b: int| 0 <= a < b < resend@.len() ==> resend@[a] < resend@[b],
                forall|a: int| 0 <= a < resend@.len() ==> (#[trigger] resend@[a]) < k
                    && tasks@[resend@[a] as int].status == TaskStatus::Pending,
                forall|i: int|
                    0 <= i < k && (#[trigger] tasks@[i]).status == TaskStatus::Pending
                        ==> resend@.contains(i as usize),
                count_by(tasks@, is_kind(TaskType::MapTask)) == total_of(orig, TaskType::MapTask),
                count_by(tasks@, is_kind(TaskType::ReduceTask)) == total_of(orig, TaskType::ReduceTask),
                count_by(tasks@, is_done_kind(TaskType::MapTask)) == completed_of(orig, TaskType::MapTask),
                count_by(tasks@, is_done_kind(TaskType::ReduceTask)) == completed_of(orig, TaskType::ReduceTask),
            decreases n - k,
        {
            let ghost before = tasks@;
            if tasks[k].status == TaskStatus::InProgress {
                tasks[k].status = TaskStatus::Pending;
            }
            proof {
                let t = tasks@[k as int];
                assert(tasks@ == before.update(k as int, t));
                lemma_count_update(before, k as int, t, is_kind(TaskType::MapTask));
                lemma_count_update(before, k as int, t, is_kind(TaskType::ReduceTask));
                lemma_count_update(before, k as int, t, is_done_kind(TaskType::MapTask));
                lemma_count_update(before, k as int, t, is_done_kind(TaskType::ReduceTask));
            }
            if tasks[k].status == TaskStatus::Pending {
                let ghost old_resend = resend@;
                resend.push(k);
                proof {
                    assert forall|i: int|
                        0 <= i < k + 1 && (#[trigger] tasks@[i]).status == TaskStatus::Pending
                            implies resend@.contains(i as usize) by {
                        if i < k {
                            assert(old_resend.contains(i as usize));
                            let j = choose|j: int| 0 <= j < old_resend.len() && old_resend[j] == i as usize;
                            assert(resend@[j] == i as usize);
                        } else {
                            assert(resend@[old_resend.len() as int] == k);
                        }
                    }
                }
            }
            k = k + 1;
        }
        let mut job = job;
        job.status = JobStatus::InProgress;
        if job.time_started.is_none() {
            job.time_started = Some(now);
        }
        job.map_tasks_total = map_total;
        job.map_tasks_completed = map_done;
        job.reduce_tasks_total = reduce_total;
        job.reduce_tasks_completed = reduce_done;
        let p = JobPipeline { job, tasks, threshold, reduce_started: reduce_total > 0 };
        proof {
            assert forall|i: int| 0 <= i < p.tasks@.len() implies (#[trigger] p.tasks@[i]).job_id@
                == p.job.id@ && p.tasks@[i].failure_count <= threshold && ((p.tasks@[i].status
                == TaskStatus::Pending || p.tasks@[i].status == TaskStatus::InProgress)
                ==> p.tasks@[i].failure_count < threshold) by {
                assert(p.tasks@[i] == demoted(orig[i]));
                assert(orig[i].job_id@ == job.id@);
            }
        }
        Some((p, resend))
    }
}

/// What holds of a job and its tasks after every transition of its pipeline:
/// each completed count is the number of finished tasks of its kind and never
/// exceeds the total, no task has failed more often than the threshold, and a
/// finished job has completed all of its map and reduce tasks.
pub proof fn lemma_pipeline_laws(p: &JobPipeline)
    requires
        p.wf(),
    ensures
        p.spec_job().map_tasks_completed == completed_of(p.spec_tasks(), TaskType::MapTask),
        p.spec_job().reduce_tasks_completed == completed_of(p.spec_tasks(), TaskType::ReduceTask),
        p.spec_job().map_tasks_completed <= p.spec_job().map_tasks_total,
        p.spec_job().reduce_tasks_completed <= p.spec_job().reduce_tasks_total,
        forall|i: int|
            0 <= i < p.spec_tasks().len() ==> (#[trigger] p.spec_tasks()[i]).failure_count
                <= p.spec_threshold(),
        p.spec_job().status == JobStatus::Done ==> p.spec_job().map_tasks_completed
            == p.spec_job().map_tasks_total && p.spec_job().reduce_tasks_completed
            == p.spec_job().reduce_tasks_total,
{
    let ts = p.spec_tasks();
    lemma_count_bounds(ts, is_done_kind(TaskType::MapTask), is_kind(TaskType::MapTask));
    lemma_count_bounds(ts, is_done_kind(TaskType::ReduceTask), is_kind(TaskType::ReduceTask));
}

} // verus!
