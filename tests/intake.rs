use heracles::intake::{Intake, SchedulerError};
use heracles::types::{InputDataKind, Job, JobStatus};

fn job(kind: InputDataKind) -> Job {
    Job::new(
        "client-1".to_owned(),
        "/tmp/bin".to_owned(),
        "/tmp/input".to_owned(),
        "/tmp/output".to_owned(),
        kind,
        vec!["out".to_owned()],
    )
}

#[test]
fn full_intake_refuses_at_once() {
    let mut intake = Intake::new(1);
    let id = intake.schedule(job(InputDataKind::TextNewlines)).unwrap();
    assert_eq!(id.len(), 36);
    assert_eq!(intake.jobs()[0].id, id);
    assert_eq!(intake.jobs()[0].status, JobStatus::Queued);
    assert_eq!(
        intake.schedule(job(InputDataKind::TextNewlines)),
        Err(SchedulerError::QueueFull)
    );
    assert_eq!(intake.len(), 1);
}

#[test]
fn undefined_input_kind_is_refused() {
    let mut intake = Intake::new(4);
    assert_eq!(
        intake.schedule(job(InputDataKind::Undefined)),
        Err(SchedulerError::InvalidInputKind)
    );
    assert_eq!(intake.len(), 0);
}

#[test]
fn jobs_leave_in_arrival_order() {
    let mut intake = Intake::new(3);
    intake.schedule_with(job(InputDataKind::TextNewlines), "a".to_owned(), 1).unwrap();
    intake.schedule_with(job(InputDataKind::TextNewlines), "b".to_owned(), 2).unwrap();
    let first = intake.next_job().unwrap();
    assert_eq!(first.id, "a");
    assert_eq!(first.time_created, 1);
    assert_eq!(intake.next_job().unwrap().id, "b");
    assert!(intake.next_job().is_none());
}

#[test]
fn cancel_withdraws_a_queued_job() {
    let mut intake = Intake::new(3);
    intake.schedule_with(job(InputDataKind::TextNewlines), "a".to_owned(), 1).unwrap();
    intake.schedule_with(job(InputDataKind::TextNewlines), "b".to_owned(), 2).unwrap();
    let cancelled = intake.cancel("a").unwrap();
    assert_eq!(cancelled.status, JobStatus::Failed);
    assert_eq!(cancelled.status_details.as_deref(), Some("cancelled"));
    assert_eq!(intake.len(), 1);
    assert_eq!(intake.cancel("zzz").unwrap_err(), SchedulerError::NotFound);
}

#[test]
fn prepare_then_enqueue() {
    let mut intake = Intake::new(1);
    let prepared = intake.prepare(job(InputDataKind::TextNewlines), "x".to_owned(), 9).unwrap();
    assert_eq!(prepared.id, "x");
    assert_eq!(prepared.time_created, 9);
    assert_eq!(intake.len(), 0);
    assert_eq!(intake.enqueue(prepared), Ok(()));
    assert_eq!(intake.prepare_new(job(InputDataKind::TextNewlines)), Err(SchedulerError::QueueFull));
    assert_eq!(intake.enqueue(job(InputDataKind::TextNewlines)), Err(SchedulerError::QueueFull));
}
