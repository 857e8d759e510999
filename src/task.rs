//! A map or reduce task as the worker-assigning scheduler tracks it: the job
//! it belongs to, the payload to run, its files and the worker it went to.
use vstd::prelude::*;
use crate::types::TaskType;
use crate::ids::fresh_id;

verus! {

/// Where a `MapReduceTask` stands between queueing and completion.
#[derive(Clone, Copy, Debug, PartialEq, Eq, Structural)]
pub enum MapReduceTaskStatus {
    Queued,
    InProgress,
    Complete,
    Failed,
}

/// A map or reduce task of one MapReduce job.
#[derive(Clone, Debug)]
pub struct MapReduceTask {
    task_type: TaskType,
    map_reduce_id: String,
    task_id: String,
    binary_path: String,
    input_files: Vec<String>,
    output_files: Vec<String>,
    assigned_worker_id: String,
    status: MapReduceTaskStatus,
}

impl MapReduceTask {
    pub closed spec fn spec_task_type(&self) -> TaskType {
        self.task_type
    }

    pub closed spec fn spec_map_reduce_id(&self) -> Seq<char> {
        self.map_reduce_id@
    }

    pub closed spec fn spec_task_id(&self) -> Seq<char> {
        self.task_id@
    }

    pub closed spec fn spec_binary_path(&self) -> Seq<char> {
        self.binary_path@
    }

    pub closed spec fn spec_input_files(&self) -> Seq<String> {
        self.input_files@
    }

    pub closed spec fn spec_output_files(&self) -> Seq<String> {
        self.output_files@
    }

    pub closed spec fn spec_assigned_worker_id(&self) -> Seq<char> {
        self.assigned_worker_id@
    }

    pub closed spec fn spec_status(&self) -> MapReduceTaskStatus {
        self.status
    }

    /// A queued task with a fresh random id, no outputs and no worker.
    pub fn new(
        task_type: TaskType,
        map_reduce_id: String,
        binary_path: String,
        input_files: Vec<String>,
    ) -> (r: Self)
        ensures
            r.spec_task_type() == task_type,
            r.spec_map_reduce_id() == map_reduce_id@,
            r.spec_task_id().len() == 36,
            r.spec_binary_path() == binary_path@,
            r.spec_input_files() == input_files@,
            r.spec_output_files().len() == 0,
            r.spec_assigned_worker_id().len() == 0,
            r.spec_status() == MapReduceTaskStatus::Queued,
    {
        let task_id = fresh_id();
        Self::with_id(task_type, map_reduce_id, task_id, binary_path, input_files)
    }

    /// A queued task under the given id, with no outputs and no worker.
    pub fn with_id(
        task_type: TaskType,
        map_reduce_id: String,
        task_id: String,
        binary_path: String,
        input_files: Vec<String>,
    ) -> (r: Self)
        ensures
            r.spec_task_type() == task_type,
            r.spec_map_reduce_id() == map_reduce_id@,
            r.spec_task_id() == task_id@,
            r.spec_binary_path() == binary_path@,
            r.spec_input_files() == input_files@,
            r.spec_output_files().len() == 0,
            r.spec_assigned_worker_id().len() == 0,
            r.spec_status() == MapReduceTaskStatus::Queued,
    {
        MapReduceTask {
            task_type,
            map_reduce_id,
            task_id,
            binary_path,
            input_files,
            output_files: Vec::new(),
            assigned_worker_id: String::new(),
            status: MapReduceTaskStatus::Queued,
        }
    }

    pub fn get_task_type(&self) -> (r: TaskType)
        ensures
            r == self.spec_task_type(),
    {
        self.task_type
    }

    pub fn get_map_reduce_id(&self) -> (r: &str)
        ensures
            r@ == self.spec_map_reduce_id(),
    {
        self.map_reduce_id.as_str()
    }

    pub fn get_task_id(&self) -> (r: &str)
        ensures
            r@ == self.spec_task_id(),
    {
        self.task_id.as_str()
    }

    pub fn get_binary_path(&self) -> (r: &str)
        ensures
            r@ == self.spec_binary_path(),
    {
        self.binary_path.as_str()
    }

    pub fn get_input_files(&self) -> (r: &[String])
        ensures
            r@ == self.spec_input_files(),
    {
        self.input_files.as_slice()
    }

    pub fn get_output_files(&self) -> (r: &[String])
        ensures
            r@ == self.spec_output_files(),
    {
        self.output_files.as_slice()
    }

    /// Appends one output file; nothing else changes.
    pub fn push_output_file(&mut self, output_file: String)
        ensures
            final(self).spec_output_files() == old(self).spec_output_files().push(output_file),
            final(self).spec_task_type() == old(self).spec_task_type(),
            final(self).spec_map_reduce_id() == old(self).spec_map_reduce_id(),
            final(self).spec_task_id() == old(self).spec_task_id(),
            final(self).spec_binary_path() == old(self).spec_binary_path(),
            final(self).spec_input_files() == old(self).spec_input_files(),
            final(self).spec_assigned_worker_id() == old(self).spec_assigned_worker_id(),
            final(self).spec_status() == old(self).spec_status(),
    {
        self.output_files.push(output_file);
    }

    pub fn get_assigned_worker_id(&self) -> (r: &str)
        ensures
            r@ == self.spec_assigned_worker_id(),
    {
        self.assigned_worker_id.as_str()
    }

    /// Records the worker the task went to; nothing else changes.
    pub fn set_assigned_worker_id(&mut self, worker_id: String)
        ensures
            final(self).spec_assigned_worker_id() == worker_id@,
            final(self).spec_output_files() == old(self).spec_output_files(),
            final(self).spec_task_type() == old(self).spec_task_type(),
            final(self).spec_map_reduce_id() == old(self).spec_map_reduce_id(),
            final(self).spec_task_id() == old(self).spec_task_id(),
            final(self).spec_binary_path() == old(self).spec_binary_path(),
            final(self).spec_input_files() == old(self).spec_input_files(),
            final(self).spec_status() == old(self).spec_status(),
    {
        self.assigned_worker_id = worker_id;
    }

    pub fn get_status(&self) -> (r: MapReduceTaskStatus)
        ensures
            r == self.spec_status(),
    {
        self.status
    }

    /// Moves the task to `new_status`; nothing else changes.
    pub fn set_status(&mut self, new_status: MapReduceTaskStatus)
        ensures
            final(self).spec_status() == new_status,
            final(self).spec_assigned_worker_id() == old(self).spec_assigned_worker_id(),
            final(self).spec_output_files() == old(self).spec_output_files(),
            final(self).spec_task_type() == old(self).spec_task_type(),
            final(self).spec_map_reduce_id() == old(self).spec_map_reduce_id(),
            final(self).spec_task_id() == old(self).spec_task_id(),
            final(self).spec_binary_path() == old(self).spec_binary_path(),
            final(self).spec_input_files() == old(self).spec_input_files(),
    {
        self.status = new_status;
    }

    pub fn get_work_bucket(&self) -> (r: String)
        ensures
            r@ == self.spec_map_reduce_id(),
    {
        self.map_reduce_id.clone()
    }

    pub fn get_work_id(&self) -> (r: String)
        ensures
            r@ == self.spec_task_id(),
    {
        self.task_id.clone()
    }
}

} // verus!
