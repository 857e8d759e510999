//! Core of a MapReduce orchestrator.
//!
//! - `types`: jobs and tasks and their states.
//! - `splitter`: newline-delimited input into byte-range chunks and map
//!   tasks; declared outputs into reduce tasks.
//! - `pipeline`: the per-job state machine of the map and reduce phases,
//!   with retries and the failure threshold.
//! - `intake`: the bounded queue of submitted jobs.
//! - `store`: the state store's layout and the writes each save is made of.
//! - `codec`, `job_record`, `task_record`: the binary records of jobs and
//!   tasks.
//! - `task`, `reduce_queue`: the task record of the worker-assigning
//!   scheduler, and the worker's queue of reduce operations.
pub mod types;
mod ids;
pub mod task;
pub mod splitter;
pub mod pipeline;
pub mod intake;
pub mod store;
pub mod codec;
pub mod job_record;
pub mod task_record;
pub mod reduce_queue;
