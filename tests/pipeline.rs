use heracles::pipeline::{AckOutcome, JobPipeline, RetryOutcome, Step, TASK_FAILURE_THRESHOLD};
use heracles::splitter::{map_split, new_map_task, reduce_split, InputFile};
use heracles::types::{InputChunk, InputDataKind, Job, JobStatus, Task, TaskStatus};

fn job_with_outputs(outputs: Vec<String>) -> Job {
    let mut job = Job::new(
        "client-1".to_owned(),
        "/tmp/bin".to_owned(),
        "/tmp/input".to_owned(),
        "/tmp/output".to_owned(),
        InputDataKind::TextNewlines,
        outputs,
    );
    job.id = "job-1".to_owned();
    job
}

fn map_tasks(job: &Job, n: usize) -> Vec<Task> {
    (0..n)
        .map(|i| {
            let c = InputChunk {
                path: "in".to_owned(),
                start_byte: i as u64 * 10,
                end_byte: i as u64 * 10 + 10,
            };
            new_map_task(job, c, format!("task-{}", i), 100)
        })
        .collect()
}

/// Runs the map phase of a one-task job up to the first acknowledgement.
fn one_task_pipeline(outputs: Vec<String>) -> JobPipeline {
    let job = job_with_outputs(outputs);
    let mut p = JobPipeline::start(job.clone(), 50, TASK_FAILURE_THRESHOLD);
    p.begin_map(map_tasks(&job, 1));
    p
}

#[test]
fn happy_path_tiny_job() {
    let job = job_with_outputs(vec!["out".to_owned()]);
    let files = vec![InputFile {
        path: "in/input-1".to_owned(),
        content: b"this is the first test file".to_vec(),
    }];
    let mut p = JobPipeline::start(job, 10, TASK_FAILURE_THRESHOLD);
    assert_eq!(p.job().status, JobStatus::InProgress);
    assert_eq!(p.job().time_started, Some(10));

    let maps = map_split(p.job(), &files, 1024).unwrap();
    assert_eq!(maps.len(), 1);
    assert_eq!(maps[0].input_chunk.as_ref().unwrap().end_byte, 27);
    p.begin_map(maps);
    assert_eq!(p.job().map_tasks_total, 1);
    assert!(p.dispatch(0, 11));
    assert_eq!(p.tasks()[0].status, TaskStatus::InProgress);
    assert_eq!(p.on_ack(0, Some(true), None, 12), AckOutcome::TaskDone);
    assert!(p.map_phase_complete());

    let reduces = reduce_split(p.job());
    assert_eq!(reduces.len(), 1);
    assert!(p.begin_reduce(reduces, 13));
    assert_eq!(p.job().reduce_tasks_total, 1);
    assert!(p.dispatch(1, 14));
    assert_eq!(p.on_ack(1, Some(true), None, 15), AckOutcome::JobDone);

    let j = p.job();
    assert_eq!(j.status, JobStatus::Done);
    assert_eq!(j.time_completed, Some(15));
    assert_eq!(j.map_tasks_total, 1);
    assert_eq!(j.map_tasks_completed, 1);
    assert_eq!(j.reduce_tasks_total, 1);
    assert_eq!(j.reduce_tasks_completed, 1);
}

#[test]
fn task_retry_then_success() {
    let mut p = one_task_pipeline(vec!["out".to_owned()]);
    for attempt in 0..3 {
        assert!(p.dispatch(0, 60 + attempt));
        let r = p.on_ack(0, Some(false), Some(format!("attempt {} failed", attempt)), 61 + attempt);
        assert_eq!(r, AckOutcome::TaskFailed);
        // Saved as failed first; the barrier then makes it pending again.
        assert_eq!(p.tasks()[0].status, TaskStatus::Failed);
        assert_eq!(p.tasks()[0].failure_count, attempt + 1);
        assert_eq!(p.tasks()[0].time_done, Some(61 + attempt));
        assert_eq!(p.next_step(), Step::RetryFailed);
        assert_eq!(p.retry_failed(0), RetryOutcome::Retry);
        assert_eq!(p.tasks()[0].status, TaskStatus::Pending);
        assert_eq!(p.tasks()[0].assigned_worker_id, "");
    }
    assert!(p.dispatch(0, 70));
    assert_eq!(p.on_ack(0, Some(true), None, 71), AckOutcome::TaskDone);
    assert_eq!(p.tasks()[0].failure_count, 3);
    assert_eq!(p.tasks()[0].status, TaskStatus::Done);
    assert_eq!(p.tasks()[0].failure_details.as_deref(), Some("attempt 2 failed"));
    assert!(p.map_phase_complete());
    let reduces = reduce_split(p.job());
    assert!(p.begin_reduce(reduces, 72));
    assert_eq!(p.job().reduce_tasks_total, 1);
}

#[test]
fn task_exceeds_threshold() {
    let mut p = one_task_pipeline(vec!["out".to_owned()]);
    for attempt in 0..10u64 {
        assert!(p.dispatch(0, 100 + attempt));
        let r = p.on_ack(0, Some(false), Some(format!("worker crashed ({})", attempt)), 101 + attempt);
        assert_eq!(r, AckOutcome::TaskFailed);
        if attempt < 9 {
            assert_eq!(p.retry_failed(0), RetryOutcome::Retry);
        } else {
            assert_eq!(p.retry_failed(0), RetryOutcome::JobFailed);
        }
    }
    assert_eq!(p.job().status, JobStatus::Failed);
    assert_eq!(p.job().status_details.as_deref(), Some("worker crashed (9)"));
    assert_eq!(p.tasks()[0].status, TaskStatus::Failed);
    assert_eq!(p.tasks()[0].failure_count, 10);
    // No reduce tasks are emitted for a failed job.
    let reduces = reduce_split(p.job());
    assert!(!p.begin_reduce(reduces, 200));
    assert_eq!(p.tasks().len(), 1);
    assert_eq!(p.job().reduce_tasks_total, 0);
    // Late acknowledgements are ignored.
    assert!(!p.dispatch(0, 201));
    assert_eq!(p.on_ack(0, Some(true), None, 202), AckOutcome::Ignored);
}

#[test]
fn failure_without_reason_uses_default_reason() {
    let job = job_with_outputs(vec![]);
    let mut p = JobPipeline::start(job.clone(), 0, 1);
    p.begin_map(map_tasks(&job, 1));
    assert!(p.dispatch(0, 1));
    assert_eq!(p.on_ack(0, Some(false), None, 2), AckOutcome::TaskFailed);
    assert_eq!(p.job().status, JobStatus::InProgress);
    assert_eq!(p.retry_failed(0), RetryOutcome::JobFailed);
    assert_eq!(p.job().status_details.as_deref(), Some("task failed too many times"));
}

#[test]
fn missing_ack_is_a_protocol_violation() {
    let mut p = one_task_pipeline(vec![]);
    assert!(p.dispatch(0, 1));
    assert_eq!(p.on_ack(0, None, None, 2), AckOutcome::ProtocolViolation);
    assert_eq!(p.tasks()[0].status, TaskStatus::Unknown);
    assert_eq!(p.job().map_tasks_completed, 0);
}

#[test]
fn duplicate_ack_is_ignored() {
    let mut p = one_task_pipeline(vec!["out".to_owned()]);
    assert!(p.dispatch(0, 1));
    assert_eq!(p.on_ack(0, Some(true), None, 2), AckOutcome::TaskDone);
    assert_eq!(p.on_ack(0, Some(true), None, 3), AckOutcome::Ignored);
    assert_eq!(p.job().map_tasks_completed, 1);
}

#[test]
fn zero_outputs_jump_to_done() {
    let mut p = one_task_pipeline(vec![]);
    assert!(p.dispatch(0, 1));
    assert_eq!(p.on_ack(0, Some(true), None, 2), AckOutcome::TaskDone);
    let reduces = reduce_split(p.job());
    assert!(reduces.is_empty());
    assert!(p.begin_reduce(reduces, 3));
    assert_eq!(p.job().status, JobStatus::Done);
    assert_eq!(p.job().time_completed, Some(3));
    assert_eq!(p.job().reduce_tasks_total, 0);
}

#[test]
fn reduce_waits_for_map_phase() {
    let job = job_with_outputs(vec!["out".to_owned()]);
    let mut p = JobPipeline::start(job.clone(), 0, TASK_FAILURE_THRESHOLD);
    p.begin_map(map_tasks(&job, 2));
    assert!(p.dispatch(0, 1));
    assert_eq!(p.on_ack(0, Some(true), None, 2), AckOutcome::TaskDone);
    assert!(!p.map_phase_complete());
    let reduces = reduce_split(p.job());
    assert!(!p.begin_reduce(reduces, 3));
    assert_eq!(p.tasks().len(), 2);
}

#[test]
fn crash_recovery_resends_pending_tasks() {
    let job = job_with_outputs(vec!["out".to_owned()]);
    let mut p = JobPipeline::start(job.clone(), 0, TASK_FAILURE_THRESHOLD);
    p.begin_map(map_tasks(&job, 10));
    for i in 0..5 {
        assert!(p.dispatch(i, 1));
    }
    for i in 0..3 {
        assert_eq!(p.on_ack(i, Some(true), None, 2), AckOutcome::TaskDone);
    }
    // The process stops here; what the store holds is taken up again.
    let stored_job = p.job().clone();
    let stored_tasks = p.tasks().clone();
    let marked: Vec<String> = (3..10).map(|i| format!("task-{}", i)).collect();
    assert_eq!(marked.len(), 7);
    let (q, resend) =
        JobPipeline::resume(stored_job, stored_tasks, &marked, TASK_FAILURE_THRESHOLD, 9).unwrap();
    assert_eq!(resend, vec![3, 4, 5, 6, 7, 8, 9]);
    assert_eq!(q.job().map_tasks_total, 10);
    assert_eq!(q.job().map_tasks_completed, 3);
    assert_eq!(q.job().time_started, Some(0));
    for i in 0..3 {
        assert_eq!(q.tasks()[i].status, TaskStatus::Done);
    }
    for i in 3..10 {
        assert_eq!(q.tasks()[i].status, TaskStatus::Pending);
    }
}

#[test]
fn resume_refuses_finished_jobs_and_foreign_tasks() {
    let job = job_with_outputs(vec![]);
    let mut done = job.clone();
    done.status = JobStatus::Done;
    assert!(JobPipeline::resume(done, vec![], &vec![], TASK_FAILURE_THRESHOLD, 0).is_none());
    let mut other = job_with_outputs(vec![]);
    other.id = "job-2".to_owned();
    let foreign = map_tasks(&other, 1);
    assert!(JobPipeline::resume(job.clone(), foreign, &vec!["task-0".to_owned()], TASK_FAILURE_THRESHOLD, 0).is_none());
    // A pending task without its marker, or a done task with one, disagrees with the markers.
    let own = map_tasks(&job, 1);
    assert!(JobPipeline::resume(job.clone(), own.clone(), &vec![], TASK_FAILURE_THRESHOLD, 0).is_none());
    assert!(JobPipeline::resume(job, own, &vec!["task-0".to_owned()], TASK_FAILURE_THRESHOLD, 0).is_some());
}

#[test]
fn cancelled_job_ignores_late_acks() {
    let mut p = one_task_pipeline(vec!["out".to_owned()]);
    assert!(p.dispatch(0, 1));
    assert!(p.cancel());
    assert_eq!(p.job().status, JobStatus::Failed);
    assert_eq!(p.job().status_details.as_deref(), Some("cancelled"));
    assert_eq!(p.on_ack(0, Some(true), None, 2), AckOutcome::Ignored);
    assert_eq!(p.job().map_tasks_completed, 0);
    assert!(!p.cancel());
}

#[test]
fn resumed_job_with_all_reduces_done_completes() {
    let mut p = one_task_pipeline(vec!["out".to_owned()]);
    assert!(p.dispatch(0, 1));
    p.on_ack(0, Some(true), None, 2);
    let reduces = reduce_split(p.job());
    assert!(p.begin_reduce(reduces, 3));
    assert!(!p.complete_if_finished(4));
    assert!(p.dispatch(1, 5));
    // The process stops after the reduce task was recorded done but before the job was.
    let mut tasks = p.tasks().clone();
    tasks[1].status = TaskStatus::Done;
    let (mut q, resend) =
        JobPipeline::resume(p.job().clone(), tasks, &vec![], TASK_FAILURE_THRESHOLD, 9).unwrap();
    assert_eq!(q.next_step(), Step::Complete);
    assert!(resend.is_empty());
    assert!(q.complete_if_finished(10));
    assert_eq!(q.job().status, JobStatus::Done);
    assert_eq!(q.job().time_completed, Some(10));
}

#[test]
fn next_step_follows_the_phases() {
    let job = job_with_outputs(vec!["out".to_owned()]);
    let mut p = JobPipeline::start(job.clone(), 0, TASK_FAILURE_THRESHOLD);
    p.begin_map(map_tasks(&job, 1));
    assert_eq!(p.next_step(), Step::SendPending);
    assert!(p.dispatch(0, 1));
    assert_eq!(p.next_step(), Step::Waiting);
    p.on_ack(0, Some(true), None, 2);
    assert_eq!(p.next_step(), Step::BeginReduce);
    assert!(p.begin_reduce(reduce_split(p.job()), 3));
    assert_eq!(p.next_step(), Step::SendPending);
    assert!(p.dispatch(1, 4));
    p.on_ack(1, Some(true), None, 5);
    assert_eq!(p.next_step(), Step::Finished);
}

#[test]
fn failing_a_job_keeps_its_reason() {
    let mut p = one_task_pipeline(vec![]);
    assert!(p.fail("state write failed".to_owned()));
    assert_eq!(p.job().status, JobStatus::Failed);
    assert_eq!(p.job().status_details.as_deref(), Some("state write failed"));
    assert!(!p.fail("again".to_owned()));
    assert_eq!(p.next_step(), Step::Finished);
}
