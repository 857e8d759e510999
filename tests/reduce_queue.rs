use heracles::reduce_queue::{ReduceOperation, ReduceOperationQueue};

fn op(key: &str) -> ReduceOperation {
    ReduceOperation { intermediate_key: key.to_owned(), input: format!("{{\"key\":\"{}\"}}", key) }
}

#[test]
fn reduce_queue_runs_operations_last_first() {
    let mut q = ReduceOperationQueue::new();
    assert!(q.is_queue_empty());
    assert_eq!(q.perform_next_reduce_operation(), None);
    q.set_queue(vec![op("a"), op("b")]);
    assert!(!q.is_queue_empty());
    assert_eq!(q.perform_next_reduce_operation(), Some(op("b")));
    assert_eq!(q.perform_next_reduce_operation(), Some(op("a")));
    assert!(q.is_queue_empty());
}
