//! The data model shared by every component: jobs, tasks and their states.
use vstd::prelude::*;

verus! {

/// Lifecycle of a job: `Queued -> InProgress -> Done | Failed`, or
/// `Queued -> Failed` on cancellation.
#[derive(Clone, Copy, Debug, PartialEq, Eq, Structural)]
pub enum JobStatus {
    Queued,
    InProgress,
    Done,
    Failed,
}

/// Lifecycle of a task: `Pending -> InProgress -> Done`, or
/// `Pending -> InProgress -> Failed -> Pending` on retry.
#[derive(Clone, Copy, Debug, PartialEq, Eq, Structural)]
pub enum TaskStatus {
    Pending,
    InProgress,
    Done,
    Failed,
    Unknown,
}

/// The phase a task belongs to.
#[derive(Clone, Copy, Debug, PartialEq, Eq, Structural)]
pub enum TaskType {
    MapTask,
    ReduceTask,
}

/// How the files of a job's input directory are to be read.
#[derive(Clone, Copy, Debug, PartialEq, Eq, Structural)]
pub enum InputDataKind {
    Undefined,
    TextNewlines,
}

/// A byte range `[start_byte, end_byte)` of one input file.
#[derive(Clone, Debug, PartialEq, Eq)]
pub struct InputChunk {
    pub path: String,
    pub start_byte: u64,
    pub end_byte: u64,
}

/// A user-submitted unit of MapReduce work.
#[derive(Clone, Debug, PartialEq, Eq)]
pub struct Job {
    pub id: String,
    pub client_id: String,
    pub payload_path: String,
    pub input_directory: String,
    pub output_directory: String,
    pub input_kind: InputDataKind,
    pub output_files: Vec<String>,
    pub status: JobStatus,
    pub status_details: Option<String>,
    pub map_tasks_total: u64,
    pub map_tasks_completed: u64,
    pub reduce_tasks_total: u64,
    pub reduce_tasks_completed: u64,
    pub time_created: u64,
    pub time_started: Option<u64>,
    pub time_completed: Option<u64>,
    pub cpu_time: u64,
}

/// One map chunk or one reduce output, dispatched to a worker on its own.
#[derive(Clone, Debug, PartialEq, Eq)]
pub struct Task {
    pub id: String,
    pub job_id: String,
    pub kind: TaskType,
    pub status: TaskStatus,
    pub payload_path: String,
    pub input_chunk: Option<InputChunk>,
    pub output_file: Option<String>,
    pub intermediate_key: Option<String>,
    pub input_file_paths: Vec<String>,
    pub time_created: u64,
    pub time_started: Option<u64>,
    pub time_done: Option<u64>,
    pub failure_count: u64,
    pub failure_details: Option<String>,
    pub assigned_worker_id: String,
}

impl Job {
    /// A job as a client submits it: no id yet, queued, no progress.
    pub fn new(
        client_id: String,
        payload_path: String,
        input_directory: String,
        output_directory: String,
        input_kind: InputDataKind,
        output_files: Vec<String>,
    ) -> (r: Job)
        ensures
            r.id@.len() == 0,
            r.client_id@ == client_id@,
            r.payload_path@ == payload_path@,
            r.input_directory@ == input_directory@,
            r.output_directory@ == output_directory@,
            r.input_kind == input_kind,
            r.output_files@ == output_files@,
            r.status == JobStatus::Queued,
            r.status_details.is_none(),
            r.map_tasks_total == 0,
            r.map_tasks_completed == 0,
            r.reduce_tasks_total == 0,
            r.reduce_tasks_completed == 0,
            r.time_created == 0,
            r.time_started.is_none(),
            r.time_completed.is_none(),
            r.cpu_time == 0,
    {
        Job {
            id: String::new(),
            client_id,
            payload_path,
            input_directory,
            output_directory,
            input_kind,
            output_files,
            status: JobStatus::Queued,
            status_details: None,
            map_tasks_total: 0,
            map_tasks_completed: 0,
            reduce_tasks_total: 0,
            reduce_tasks_completed: 0,
            time_created: 0,
            time_started: None,
            time_completed: None,
            cpu_time: 0,
        }
    }
}

} // verus!
