use heracles::splitter::new_map_task;
use heracles::store::{pending_tasks_data, FileStore, StateErrorKind, StoreAction};
use heracles::task_record::encode_task;
use heracles::types::{InputChunk, InputDataKind, Job, TaskStatus, TaskType};

fn job() -> Job {
    let mut job = Job::new(
        "c".to_owned(),
        "/tmp/bin".to_owned(),
        "/in".to_owned(),
        "/out".to_owned(),
        InputDataKind::TextNewlines,
        vec![],
    );
    job.id = "test_job".to_owned();
    job
}

#[test]
fn test_file_store_paths() {
    let store = FileStore::new("/tmp/heracles_test/state".to_owned());
    assert_eq!(store.job_dir_path("test_job"), "/tmp/heracles_test/state/jobs/test_job");
    assert_eq!(store.request_path("test_job"), "/tmp/heracles_test/state/jobs/test_job/request");
    assert_eq!(
        store.task_path("test_job", "test_task"),
        "/tmp/heracles_test/state/jobs/test_job/tasks/test_task"
    );
    assert_eq!(
        store.marker_path("test_job", TaskType::ReduceTask, "t"),
        "/tmp/heracles_test/state/jobs/test_job/pending_reduce_tasks/t"
    );
}

#[test]
fn saving_tasks_writes_and_marks() {
    let store = FileStore::new("/s".to_owned());
    let c = InputChunk { path: "p".to_owned(), start_byte: 0, end_byte: 1 };
    let mut t = new_map_task(&job(), c, "t1".to_owned(), 0);

    let plan = store.save_task_plan(&t);
    assert_eq!(plan.len(), 2);
    assert_eq!(plan[0].action, StoreAction::WriteTask);
    assert_eq!(plan[0].path, "/s/jobs/test_job/tasks/t1");
    assert_eq!(plan[1].action, StoreAction::CreateMarker);
    assert_eq!(plan[1].path, "/s/jobs/test_job/pending_map_tasks/t1");

    t.status = TaskStatus::InProgress;
    let plan = store.save_task_plan(&t);
    assert_eq!(plan.len(), 1);

    t.status = TaskStatus::Done;
    let plan = store.save_task_plan(&t);
    assert_eq!(plan[1].action, StoreAction::RemoveMarker);
    assert_eq!(plan[1].path, "/s/jobs/test_job/pending_map_tasks/t1");

    t.status = TaskStatus::Failed;
    assert_eq!(store.save_task_plan(&t).len(), 1);
}

#[test]
fn saving_a_job_prepares_its_directories() {
    let store = FileStore::new("/s".to_owned());
    let plan = store.save_job_plan(&job());
    let paths: Vec<&str> = plan.iter().map(|w| w.path.as_str()).collect();
    assert_eq!(
        paths,
        vec![
            "/s/jobs/test_job/tasks",
            "/s/jobs/test_job/pending_map_tasks",
            "/s/jobs/test_job/pending_reduce_tasks",
            "/s/jobs/test_job/request",
        ]
    );
    assert_eq!(plan[3].action, StoreAction::WriteJob);
}

#[test]
fn pending_tasks_come_from_markers() {
    let c = InputChunk { path: "p".to_owned(), start_byte: 0, end_byte: 1 };
    let a = new_map_task(&job(), c.clone(), "a".to_owned(), 0);
    let b = new_map_task(&job(), c, "b".to_owned(), 0);
    let records = vec![("a".to_owned(), encode_task(&a)), ("b".to_owned(), encode_task(&b))];
    let pending = pending_tasks_data(&vec!["b".to_owned()], &records).unwrap();
    assert_eq!(pending, vec![b]);
    assert_eq!(
        pending_tasks_data(&vec!["c".to_owned()], &records).unwrap_err().kind(),
        StateErrorKind::TaskFileOpenFailed
    );
    let bad = vec![("a".to_owned(), vec![1u8])];
    assert_eq!(
        pending_tasks_data(&vec!["a".to_owned()], &bad).unwrap_err().kind(),
        StateErrorKind::TaskDeserialisationFailed
    );
}
