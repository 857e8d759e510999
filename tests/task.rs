use heracles::task::{MapReduceTask, MapReduceTaskStatus};
use heracles::types::TaskType;

#[test]
fn test_get_task_type() {
    let map_task = MapReduceTask::new(
        TaskType::MapTask,
        "map-1".to_owned(),
        "/tmp/bin".to_owned(),
        vec!["/tmp/input/".to_owned()],
    );

    let reduce_task = MapReduceTask::new(
        TaskType::ReduceTask,
        "reduce-1".to_owned(),
        "/tmp/bin".to_owned(),
        vec!["/tmp/input/".to_owned()],
    );

    assert_eq!(map_task.get_task_type(), TaskType::MapTask);
    assert_eq!(reduce_task.get_task_type(), TaskType::ReduceTask);
}

#[test]
fn test_get_map_reduce_id() {
    let map_task = MapReduceTask::new(
        TaskType::MapTask,
        "map-1".to_owned(),
        "/tmp/bin".to_owned(),
        vec!["/tmp/input/".to_owned()],
    );
    assert_eq!(map_task.get_map_reduce_id(), "map-1");
}

#[test]
fn test_get_binary_path() {
    let map_task = MapReduceTask::new(
        TaskType::MapTask,
        "map-1".to_owned(),
        "/tmp/bin".to_owned(),
        vec!["/tmp/input/".to_owned()],
    );
    assert_eq!(map_task.get_binary_path(), "/tmp/bin");
}

#[test]
fn test_get_input_files() {
    let map_task = MapReduceTask::new(
        TaskType::MapTask,
        "map-1".to_owned(),
        "/tmp/bin".to_owned(),
        vec!["/tmp/input/".to_owned()],
    );
    let input_files: &[String] = map_task.get_input_files();
    assert_eq!(input_files[0], "/tmp/input/");
}

#[test]
fn test_set_output_files() {
    let mut reduce_task = MapReduceTask::new(
        TaskType::ReduceTask,
        "reduce-1".to_owned(),
        "/tmp/bin".to_owned(),
        vec!["/tmp/input/inter_mediate".to_owned()],
    );
    reduce_task.push_output_file("output_file_1".to_owned());
    {
        let output_files: &[String] = reduce_task.get_output_files();
        assert_eq!(output_files[0], "output_file_1");
    }

    reduce_task.push_output_file("output_file_2".to_owned());
    {
        let output_files: &[String] = reduce_task.get_output_files();
        assert_eq!(output_files[0], "output_file_1");
        assert_eq!(output_files[1], "output_file_2");
    }
}

#[test]
fn test_assigned_worker_id() {
    let mut reduce_task = MapReduceTask::new(
        TaskType::ReduceTask,
        "reduce-1".to_owned(),
        "/tmp/bin".to_owned(),
        vec!["/tmp/input/inter_mediate".to_owned()],
    );
    // The assigned worker id starts as an empty string.
    assert_eq!(reduce_task.get_assigned_worker_id(), "");

    reduce_task.set_assigned_worker_id("worker-1".to_owned());
    assert_eq!(reduce_task.get_assigned_worker_id(), "worker-1");
}

#[test]
fn test_set_status() {
    let mut reduce_task = MapReduceTask::new(
        TaskType::ReduceTask,
        "reduce-1".to_owned(),
        "/tmp/bin".to_owned(),
        vec!["/tmp/input/inter_mediate".to_owned()],
    );
    // A new task is queued.
    assert_eq!(reduce_task.get_status(), MapReduceTaskStatus::Queued);

    reduce_task.set_status(MapReduceTaskStatus::Complete);
    assert_eq!(reduce_task.get_status(), MapReduceTaskStatus::Complete);
}

#[test]
fn test_queued_work_impl() {
    let reduce_task = MapReduceTask::new(
        TaskType::ReduceTask,
        "reduce-1".to_owned(),
        "/tmp/bin".to_owned(),
        vec!["/tmp/input/inter_mediate".to_owned()],
    );

    assert_eq!(reduce_task.get_work_bucket(), "reduce-1");
    assert_eq!(reduce_task.get_work_id(), reduce_task.get_task_id());
}

#[test]
fn new_tasks_get_distinct_uuid_ids() {
    let a = MapReduceTask::new(TaskType::MapTask, "j".to_owned(), "/b".to_owned(), vec![]);
    let b = MapReduceTask::new(TaskType::MapTask, "j".to_owned(), "/b".to_owned(), vec![]);
    assert_eq!(a.get_task_id().len(), 36);
    assert_eq!(a.get_task_id().matches('-').count(), 4);
    assert_ne!(a.get_task_id(), b.get_task_id());
}

#[test]
fn with_id_keeps_the_given_id() {
    let t = MapReduceTask::with_id(
        TaskType::ReduceTask,
        "job-7".to_owned(),
        "task-3".to_owned(),
        "/b".to_owned(),
        vec!["x".to_owned()],
    );
    assert_eq!(t.get_task_id(), "task-3");
    assert_eq!(t.get_work_id(), "task-3");
    assert_eq!(t.get_work_bucket(), "job-7");
    assert_eq!(t.get_output_files().len(), 0);
}
