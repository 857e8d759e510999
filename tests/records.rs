use heracles::job_record::{decode_job, encode_job};
use heracles::splitter::{new_map_task, new_reduce_task};
use heracles::store::{load_job, load_task, FileStore, StateErrorKind, StoreAction};
use heracles::task_record::{decode_task, encode_task};
use heracles::types::{InputChunk, InputDataKind, Job, JobStatus, TaskStatus};

fn sample_job() -> Job {
    let mut job = Job::new(
        "client-ü".to_owned(),
        "/tmp/bin".to_owned(),
        "/tmp/input".to_owned(),
        "/tmp/output".to_owned(),
        InputDataKind::TextNewlines,
        vec!["out-1".to_owned(), "out-2".to_owned()],
    );
    job.id = "job-42".to_owned();
    job.status = JobStatus::Failed;
    job.status_details = Some("worker crashed".to_owned());
    job.map_tasks_total = 7;
    job.map_tasks_completed = 3;
    job.time_created = 1_600_000_000;
    job.time_started = Some(1_600_000_010);
    job.cpu_time = u64::MAX;
    job
}

#[test]
fn job_record_round_trip() {
    let job = sample_job();
    let bytes = encode_job(&job);
    assert_eq!(decode_job(&bytes), Some(job.clone()));
    assert_eq!(load_job(&bytes).unwrap(), job);
    let blank = Job::new(
        String::new(),
        String::new(),
        String::new(),
        String::new(),
        InputDataKind::Undefined,
        vec![],
    );
    assert_eq!(decode_job(&encode_job(&blank)), Some(blank));
}

#[test]
fn job_record_layout() {
    let mut job = Job::new(
        "c".to_owned(),
        String::new(),
        String::new(),
        String::new(),
        InputDataKind::TextNewlines,
        vec![],
    );
    job.id = "ab".to_owned();
    let bytes = encode_job(&job);
    // Field 1 (the id): number, eight-byte length, payload.
    assert_eq!(&bytes[0..11], &[1, 2, 0, 0, 0, 0, 0, 0, 0, b'a', b'b']);
    assert_eq!(&bytes[11..21], &[2, 1, 0, 0, 0, 0, 0, 0, 0, b'c']);
}

#[test]
fn unknown_fields_are_skipped() {
    let job = sample_job();
    let mut bytes = encode_job(&job);
    bytes.extend_from_slice(&[99, 3, 0, 0, 0, 0, 0, 0, 0, 1, 2, 3]);
    assert_eq!(decode_job(&bytes), Some(job));
}

#[test]
fn malformed_records_are_refused() {
    let bytes = encode_job(&sample_job());
    assert_eq!(decode_job(&bytes[..bytes.len() - 1]), None);
    assert_eq!(load_job(&[1, 2]).unwrap_err().kind(), StateErrorKind::JobDeserialisationFailed);
    // A number field whose payload is not eight bytes.
    assert_eq!(decode_job(&[10, 1, 0, 0, 0, 0, 0, 0, 0, 5]), None);
    // A string field that is not UTF-8.
    assert_eq!(decode_job(&[1, 1, 0, 0, 0, 0, 0, 0, 0, 0xff]), None);
    assert_eq!(load_task(&[4, 1, 0, 0, 0, 0, 0, 0, 0, 9]).unwrap_err().kind(), StateErrorKind::TaskDeserialisationFailed);
    assert!(decode_job(&[]).is_some());
}

#[test]
fn task_record_round_trip() {
    let job = sample_job();
    let c = InputChunk { path: "in/input-1".to_owned(), start_byte: 1003, end_byte: 1841 };
    let mut t = new_map_task(&job, c, "task-1".to_owned(), 77);
    t.status = TaskStatus::Failed;
    t.failure_count = 3;
    t.failure_details = Some("nack".to_owned());
    t.time_started = Some(80);
    t.time_done = Some(81);
    t.input_file_paths = vec!["/tmp/a".to_owned(), "/tmp/b".to_owned()];
    t.assigned_worker_id = "worker-1".to_owned();
    let bytes = encode_task(&t);
    assert_eq!(decode_task(&bytes), Some(t.clone()));
    assert_eq!(load_task(&bytes).unwrap(), t);

    let mut r = new_reduce_task(&job, "out-1".to_owned(), "task-2".to_owned(), 5);
    r.intermediate_key = Some("k".to_owned());
    assert_eq!(decode_task(&encode_task(&r)), Some(r));
}

#[test]
fn saved_job_reads_back() {
    let store = FileStore::new("/s".to_owned());
    let job = sample_job();
    let plan = store.save_job_plan(&job);
    assert_eq!(plan[3].action, StoreAction::WriteJob);
    assert_eq!(load_job(&plan[3].data).unwrap(), job);
}

#[test]
fn saving_a_task_twice_plans_the_same_writes() {
    let store = FileStore::new("/s".to_owned());
    let c = InputChunk { path: "p".to_owned(), start_byte: 0, end_byte: 1 };
    let t = new_map_task(&sample_job(), c, "t1".to_owned(), 0);
    let a = store.save_task_plan(&t);
    let b = store.save_task_plan(&t);
    assert_eq!(a.len(), b.len());
    for (x, y) in a.iter().zip(b.iter()) {
        assert_eq!(x.action, y.action);
        assert_eq!(x.path, y.path);
        assert_eq!(x.data, y.data);
    }
    assert_eq!(a[1].data, b"t1".to_vec());
    assert_eq!(load_task(&a[0].data).unwrap(), t);
}

#[test]
fn progress_plan_checks_then_writes() {
    let store = FileStore::new("/s".to_owned());
    let c = InputChunk { path: "p".to_owned(), start_byte: 0, end_byte: 1 };
    let mut t = new_map_task(&sample_job(), c, "t1".to_owned(), 0);
    t.status = TaskStatus::Done;
    let plan = store.save_progress_plan(&t);
    let actions: Vec<StoreAction> = plan.iter().map(|w| w.action).collect();
    assert_eq!(
        actions,
        vec![
            StoreAction::RequireRecord,
            StoreAction::RequireMarker,
            StoreAction::WriteTask,
            StoreAction::RemoveMarker
        ]
    );
    assert_eq!(plan[1].path, "/s/jobs/job-42/pending_map_tasks/t1");
    t.status = TaskStatus::InProgress;
    assert_eq!(store.save_progress_plan(&t).len(), 3);
}
