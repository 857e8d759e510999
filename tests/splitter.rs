use heracles::splitter::{
    chunk_boundaries, map_split, new_map_task, reduce_split, reduce_tasks_for, InputFile,
    LineSplitter, SplitterErrorKind,
};
use heracles::types::{InputChunk, InputDataKind, Job, TaskStatus, TaskType};

fn job_with(kind: InputDataKind, outputs: Vec<String>) -> Job {
    let mut job = Job::new(
        "client-1".to_owned(),
        "/tmp/bin".to_owned(),
        "/tmp/input".to_owned(),
        "/tmp/output".to_owned(),
        kind,
        outputs,
    );
    job.id = "job-1".to_owned();
    job
}

fn two_long_lines() -> Vec<u8> {
    let mut content = vec![b'a'; 1002];
    content.push(b'\n');
    content.extend(vec![b'b'; 837]);
    content.push(b'\n');
    content
}

#[test]
fn test_splitting_small_file() {
    let job = job_with(InputDataKind::TextNewlines, vec![]);
    let files = vec![InputFile { path: "text_with_newlines".to_owned(), content: two_long_lines() }];
    let tasks = LineSplitter::split(&job, &files, 1024);

    assert_eq!(2, tasks.len());
    assert_eq!(1003, tasks[0].input_chunk.as_ref().unwrap().end_byte);
    assert_eq!(1003, tasks[1].input_chunk.as_ref().unwrap().start_byte);
    assert_eq!(1003 + 838, tasks[1].input_chunk.as_ref().unwrap().end_byte);
}

#[test]
fn tiny_file_is_one_chunk() {
    let content = b"this is the first test file".to_vec();
    assert_eq!(content.len(), 27);
    assert_eq!(chunk_boundaries(&content, 1024), vec![(0, 27)]);
}

#[test]
fn oversized_line_is_one_chunk() {
    let content = vec![b'x'; 10240];
    assert_eq!(chunk_boundaries(&content, 1024), vec![(0, 10240)]);
}

#[test]
fn oversized_line_between_short_lines() {
    // "ab\n" + 6 x's + "\n" + "cd\n", chunk size 4.
    let content = b"ab\nxxxxxx\ncd\n".to_vec();
    assert_eq!(chunk_boundaries(&content, 4), vec![(0, 3), (3, 10), (10, 13)]);
}

#[test]
fn lines_are_packed_while_they_fit() {
    let content = b"a\nb\nc\nd\ne".to_vec();
    assert_eq!(chunk_boundaries(&content, 4), vec![(0, 4), (4, 8), (8, 9)]);
}

#[test]
fn empty_file_has_no_chunks() {
    assert_eq!(chunk_boundaries(&[], 1024), vec![]);
}

#[test]
fn chunks_cover_the_file_in_order() {
    let content = b"one\ntwo two\nthree three three\nfour\n\nfive".to_vec();
    let chunks = chunk_boundaries(&content, 8);
    assert_eq!(chunks[0].0, 0);
    assert_eq!(chunks.last().unwrap().1, content.len() as u64);
    for w in chunks.windows(2) {
        assert_eq!(w[0].1, w[1].0);
    }
    for c in &chunks {
        assert!(c.0 < c.1);
        assert!(c.1 as usize == content.len() || content[c.1 as usize - 1] == b'\n');
    }
}

#[test]
fn splitting_twice_gives_the_same_chunks() {
    let content = two_long_lines();
    assert_eq!(chunk_boundaries(&content, 100), chunk_boundaries(&content, 100));
    let a = LineSplitter::split_file(&"f".to_owned(), &content, 1024);
    let b = LineSplitter::split_file(&"f".to_owned(), &content, 1024);
    assert_eq!(a, b);
}

#[test]
fn files_are_split_in_the_given_order() {
    let files = vec![
        InputFile { path: "input-1".to_owned(), content: b"this is the first test file".to_vec() },
        InputFile { path: "input-2".to_owned(), content: b"this is the second test file".to_vec() },
    ];
    let chunks = LineSplitter::split_files(&files, 1024);
    assert_eq!(
        chunks,
        vec![
            InputChunk { path: "input-1".to_owned(), start_byte: 0, end_byte: 27 },
            InputChunk { path: "input-2".to_owned(), start_byte: 0, end_byte: 28 },
        ]
    );
}

#[test]
fn map_split_makes_pending_map_tasks() {
    let job = job_with(InputDataKind::TextNewlines, vec![]);
    let files = vec![InputFile {
        path: "in/input-1".to_owned(),
        content: b"this is the first test file".to_vec(),
    }];
    let tasks = map_split(&job, &files, 1024).unwrap();
    assert_eq!(tasks.len(), 1);
    let t = &tasks[0];
    assert_eq!(t.kind, TaskType::MapTask);
    assert_eq!(t.status, TaskStatus::Pending);
    assert_eq!(t.job_id, "job-1");
    assert_eq!(t.payload_path, "/tmp/bin");
    assert_eq!(t.failure_count, 0);
    assert_eq!(t.id.len(), 36);
    assert_eq!(
        t.input_chunk,
        Some(InputChunk { path: "in/input-1".to_owned(), start_byte: 0, end_byte: 27 })
    );
}

#[test]
fn map_split_refuses_undefined_input_kind() {
    let job = job_with(InputDataKind::Undefined, vec![]);
    let err = map_split(&job, &vec![], 1024).unwrap_err();
    assert_eq!(err.kind(), SplitterErrorKind::InvalidInputDataKind);
}

#[test]
fn reduce_split_makes_one_task_per_output() {
    let job = job_with(InputDataKind::TextNewlines, vec!["out-a".to_owned(), "out-b".to_owned()]);
    let tasks = reduce_split(&job);
    assert_eq!(tasks.len(), 2);
    assert_eq!(tasks[0].output_file.as_deref(), Some("out-a"));
    assert_eq!(tasks[1].output_file.as_deref(), Some("out-b"));
    assert!(tasks.iter().all(|t| t.kind == TaskType::ReduceTask && t.status == TaskStatus::Pending));
    assert_ne!(tasks[0].id, tasks[1].id);
    assert!(reduce_split(&job_with(InputDataKind::TextNewlines, vec![])).is_empty());
}

#[test]
fn new_map_task_takes_id_and_time() {
    let job = job_with(InputDataKind::TextNewlines, vec![]);
    let c = InputChunk { path: "p".to_owned(), start_byte: 3, end_byte: 9 };
    let t = new_map_task(&job, c.clone(), "t-1".to_owned(), 1234);
    assert_eq!(t.id, "t-1");
    assert_eq!(t.time_created, 1234);
    assert_eq!(t.input_chunk, Some(c));
}

#[test]
fn reduce_tasks_take_the_given_ids() {
    let job = job_with(InputDataKind::TextNewlines, vec!["a".to_owned(), "b".to_owned()]);
    let tasks = reduce_tasks_for(&job, vec!["r-1".to_owned(), "r-2".to_owned()], vec![7, 8]);
    assert_eq!(tasks[0].id, "r-1");
    assert_eq!(tasks[1].id, "r-2");
    assert_eq!(tasks[1].time_created, 8);
    assert_eq!(tasks[1].output_file.as_deref(), Some("b"));
}
