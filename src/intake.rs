//! The bounded intake of submitted jobs: a first-in first-out queue of jobs
//! waiting for the pipeline, which refuses a job at once when it is full.
use vstd::prelude::*;
use vstd::string::*;
use crate::types::{InputDataKind, Job, JobStatus};
use crate::ids::{fresh_id, now_secs};

verus! {

/// Why a request to the scheduler was refused.
#[derive(Clone, Copy, Debug, PartialEq, Eq, Structural)]
pub enum SchedulerError {
    InvalidInputKind,
    QueueFull,
    StateWriteFailed,
    NotFound,
}

/// The reason a job fails with when it is cancelled.
pub open spec fn cancelled_message() -> Seq<char> {
    "cancelled"@
}

/// Jobs accepted but not started, oldest first, at most `capacity` of them.
pub struct Intake {
    queue: Vec<Job>,
    capacity: usize,
}

impl Intake {
    pub closed spec fn spec_queue(&self) -> Seq<Job> {
        self.queue@
    }

    pub closed spec fn spec_capacity(&self) -> nat {
        self.capacity as nat
    }

    pub open spec fn wf(&self) -> bool {
        self.spec_queue().len() <= self.spec_capacity()
    }

    /// An empty intake that holds at most `capacity` jobs.
    pub fn new(capacity: usize) -> (r: Intake)
        ensures
            r.wf(),
            r.spec_queue().len() == 0,
            r.spec_capacity() == capacity,
    {
        Intake { queue: Vec::new(), capacity }
    }

    pub fn len(&self) -> (r: usize)
        ensures
            r == self.spec_queue().len(),
    {
        self.queue.len()
    }

    pub fn jobs(&self) -> (r: &Vec<Job>)
        ensures
            r@ == self.spec_queue(),
    {
        &self.queue
    }

    /// Accepts `job` under `id`, queued since `now`, and returns the id. A job
    /// of undefined input kind is refused, and so is any job while the intake
    /// is full; then nothing changes. Nothing here waits.
    pub fn schedule_with(&mut self, job: Job, id: String, now: u64) -> (r: Result<String, SchedulerError>)
        requires
            old(self).wf(),
        ensures
            final(self).wf(),
            final(self).spec_capacity() == old(self).spec_capacity(),
            job.input_kind == InputDataKind::Undefined ==> r == Err::<String, SchedulerError>(
                SchedulerError::InvalidInputKind,
            ),
            job.input_kind != InputDataKind::Undefined && old(self).spec_queue().len()
                >= old(self).spec_capacity() ==> r == Err::<String, SchedulerError>(
                SchedulerError::QueueFull,
            ),
            r.is_err() ==> final(self).spec_queue() == old(self).spec_queue(),
            r.is_ok() == (job.input_kind != InputDataKind::Undefined && old(self).spec_queue().len()
                < old(self).spec_capacity()),
            r.is_ok() ==> {
                let q = final(self).spec_queue();
                let j = q.last();
                &&& r->Ok_0@ == id@
                &&& q.drop_last() == old(self).spec_queue()
                &&& q.len() == old(self).spec_queue().len() + 1
                &&& j == (Job { id: j.id, status: JobStatus::Queued, time_created: now, ..job })
                &&& j.id@ == id@
            },
    {
        if job.input_kind == InputDataKind::Undefined {
            return Err(SchedulerError::InvalidInputKind);
        }
        if self.queue.len() >= self.capacity {
            return Err(SchedulerError::QueueFull);
        }
        let mut job = job;
        let r = id.clone();
        job.id = id;
        job.status = JobStatus::Queued;
        job.time_created = now;
        let ghost before = self.queue@;
        self.queue.push(job);
        proof {
            assert(self.queue@.drop_last() =~= before);
        }
        Ok(r)
    }

    /// Accepts `job` under a fresh id, queued since the current time, as
    /// `schedule_with` does.
    pub fn schedule(&mut self, job: Job) -> (r: Result<String, SchedulerError>)
        requires
            old(self).wf(),
        ensures
            final(self).wf(),
            final(self).spec_capacity() == old(self).spec_capacity(),
            r.is_ok() == (job.input_kind != InputDataKind::Undefined && old(self).spec_queue().len()
                < old(self).spec_capacity()),
            job.input_kind == InputDataKind::Undefined ==> r == Err::<String, SchedulerError>(
                SchedulerError::InvalidInputKind,
            ),
            job.input_kind != InputDataKind::Undefined && old(self).spec_queue().len()
                >= old(self).spec_capacity() ==> r == Err::<String, SchedulerError>(
                SchedulerError::QueueFull,
            ),
            r.is_err() ==> final(self).spec_queue() == old(self).spec_queue(),
            r.is_ok() ==> {
                let q = final(self).spec_queue();
                let j = q.last();
                &&& r->Ok_0@ == j.id@
                &&& j.id@.len() == 36
                &&& q.drop_last() == old(self).spec_queue()
                &&& j == (Job { id: j.id, status: JobStatus::Queued, time_created: j.time_created, ..job })
            },
    {
        let id = fresh_id();
        let now = now_secs();
        self.schedule_with(job, id, now)
    }

    /// The job as it is accepted under `id` at `now`, before it is saved and
    /// queued: refused for an undefined input kind, or while the intake is
    /// full. Nothing changes here.
    pub fn prepare(&self, job: Job, id: String, now: u64) -> (r: Result<Job, SchedulerError>)
        requires
            self.wf(),
        ensures
            job.input_kind == InputDataKind::Undefined ==> r == Err::<Job, SchedulerError>(
                SchedulerError::InvalidInputKind,
            ),
            job.input_kind != InputDataKind::Undefined && self.spec_queue().len()
                >= self.spec_capacity() ==> r == Err::<Job, SchedulerError>(SchedulerError::QueueFull),
            r.is_ok() == (job.input_kind != InputDataKind::Undefined && self.spec_queue().len()
                < self.spec_capacity()),
            r.is_ok() ==> r->Ok_0 == (Job {
                id: r->Ok_0.id,
                status: JobStatus::Queued,
                time_created: now,
                ..job
            }) && r->Ok_0.id@ == id@,
    {
        if job.input_kind == InputDataKind::Undefined {
            return Err(SchedulerError::InvalidInputKind);
        }
        if self.queue.len() >= self.capacity {
            return Err(SchedulerError::QueueFull);
        }
        let mut job = job;
        job.id = id;
        job.status = JobStatus::Queued;
        job.time_created = now;
        Ok(job)
    }

    /// `prepare` under a fresh id at the current time.
    pub fn prepare_new(&self, job: Job) -> (r: Result<Job, SchedulerError>)
        requires
            self.wf(),
        ensures
            job.input_kind == InputDataKind::Undefined ==> r == Err::<Job, SchedulerError>(
                SchedulerError::InvalidInputKind,
            ),
            job.input_kind != InputDataKind::Undefined && self.spec_queue().len()
                >= self.spec_capacity() ==> r == Err::<Job, SchedulerError>(SchedulerError::QueueFull),
            r.is_ok() == (job.input_kind != InputDataKind::Undefined && self.spec_queue().len()
                < self.spec_capacity()),
            r.is_ok() ==> r->Ok_0 == (Job {
                id: r->Ok_0.id,
                status: JobStatus::Queued,
                time_created: r->Ok_0.time_created,
                ..job
            }) && r->Ok_0.id@.len() == 36,
    {
        let id = fresh_id();
        let now = now_secs();
        self.prepare(job, id, now)
    }

    /// Queues a job that was prepared and saved; refused while the intake is
    /// full, and then nothing changes.
    pub fn enqueue(&mut self, job: Job) -> (r: Result<(), SchedulerError>)
        requires
            old(self).wf(),
        ensures
            final(self).wf(),
            final(self).spec_capacity() == old(self).spec_capacity(),
            r.is_ok() == (old(self).spec_queue().len() < old(self).spec_capacity()),
            r.is_err() ==> r == Err::<(), SchedulerError>(SchedulerError::QueueFull)
                && final(self).spec_queue() == old(self).spec_queue(),
            r.is_ok() ==> final(self).spec_queue() == old(self).spec_queue().push(job),
    {
        if self.queue.len() >= self.capacity {
            return Err(SchedulerError::QueueFull);
        }
        self.queue.push(job);
        Ok(())
    }

    /// Takes the oldest job out, if there is one.
    pub fn next_job(&mut self) -> (r: Option<Job>)
        requires
            old(self).wf(),
        ensures
            final(self).wf(),
            final(self).spec_capacity() == old(self).spec_capacity(),
            old(self).spec_queue().len() == 0 ==> r.is_none() && final(self).spec_queue()
                == old(self).spec_queue(),
            old(self).spec_queue().len() > 0 ==> r == Some(old(self).spec_queue()[0])
                && final(self).spec_queue() == old(self).spec_queue().drop_first(),
    {
        if self.queue.len() == 0 {
            return None;
        }
        let j = self.queue.remove(0);
        proof {
            assert(self.queue@ =~= old(self).spec_queue().drop_first());
        }
        Some(j)
    }

    /// Withdraws the queued job with id `job_id`, which fails as cancelled.
    /// A job that is not queued here is not found.
    pub fn cancel(&mut self, job_id: &str) -> (r: Result<Job, SchedulerError>)
        requires
            old(self).wf(),
        ensures
            final(self).wf(),
            final(self).spec_capacity() == old(self).spec_capacity(),
            r.is_err() == (forall|k: int|
                0 <= k < old(self).spec_queue().len() ==> (#[trigger] old(self).spec_queue()[k]).id@
                    != job_id@),
            r.is_err() ==> r == Err::<Job, SchedulerError>(SchedulerError::NotFound)
                && final(self).spec_queue() == old(self).spec_queue(),
            r.is_ok() ==> exists|k: int|
                0 <= k < old(self).spec_queue().len() && (#[trigger] old(self).spec_queue()[k]).id@
                    == job_id@ && (forall|m: int| 0 <= m < k ==> old(self).spec_queue()[m].id@ != job_id@)
                    && final(self).spec_queue() == old(self).spec_queue().remove(k)
                    && r->Ok_0 == (Job {
                    status: JobStatus::Failed,
                    status_details: r->Ok_0.status_details,
                    ..old(self).spec_queue()[k]
                }) && r->Ok_0.status_details.is_some() && r->Ok_0.status_details->0@
                    == cancelled_message(),
    {
        let target = String::from_str(job_id);
        let mut k: usize = 0;
        while k < self.queue.len()
            invariant
                k <= self.queue@.len(),
                self.queue@ == old(self).spec_queue(),
                self.capacity == old(self).spec_capacity(),
                target@ == job_id@,
                self.queue@.len() <= self.capacity,
                forall|m: int| 0 <= m < k ==> (#[trigger] self.queue@[m]).id@ != job_id@,
            decreases self.queue@.len() - k,
        {
            if self.queue[k].id == target {
                let mut j = self.queue.remove(k);
                j.status = JobStatus::Failed;
                j.status_details = Some(String::from_str("cancelled"));
                return Ok(j);
            }
            k = k + 1;
        }
        Err(SchedulerError::NotFound)
    }
}

} // verus!
