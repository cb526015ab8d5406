use rag_engine::ids::Timestamp;
use rag_engine::jobs::{final_job_status, rate_limit_setting, workers_setting, JobQueue, JobStatus};

fn at(secs: i64) -> Timestamp {
    Timestamp { secs, nanos: 0 }
}

fn is_queued(s: &Option<JobStatus>) -> bool {
    matches!(s, Some(JobStatus::Queued))
}

#[test]
fn enqueued_job_reads_queued() {
    let mut q = JobQueue::new(4, 500);
    q.record_enqueued_job("a".to_string());
    assert!(is_queued(&q.get_job_status("a")));
    assert!(q.get_job_status("b").is_none());
    assert_eq!(q.job_statuses.len(), 1);
}

#[test]
fn update_changes_only_that_job() {
    let mut q = JobQueue::new(1, 10);
    q.record_enqueued_job("a".to_string());
    q.record_enqueued_job("b".to_string());
    q.update_job_status("a", JobStatus::Running);
    assert!(matches!(q.get_job_status("a"), Some(JobStatus::Running)));
    assert!(is_queued(&q.get_job_status("b")));
}

#[test]
fn update_of_unknown_job_changes_nothing() {
    let mut q = JobQueue::new(1, 10);
    q.record_enqueued_job_at("a".to_string(), at(5), at(6));
    q.update_job_status_at("zzz", JobStatus::Completed, at(99));
    assert_eq!(q.job_statuses.len(), 1);
    assert_eq!(q.job_statuses[0].updated_at.secs, 6);
    assert!(q.get_job_status("zzz").is_none());
}

#[test]
fn update_at_stamps_first_record_only() {
    let mut q = JobQueue::new(1, 10);
    q.record_enqueued_job_at("dup".to_string(), at(1), at(1));
    q.record_enqueued_job_at("dup".to_string(), at(2), at(2));
    q.update_job_status_at("dup", JobStatus::Completed, at(42));
    assert!(matches!(q.job_statuses[0].status, JobStatus::Completed));
    assert_eq!(q.job_statuses[0].updated_at.secs, 42);
    assert_eq!(q.job_statuses[0].created_at.secs, 1);
    assert!(matches!(q.job_statuses[1].status, JobStatus::Queued));
}

#[test]
fn outcome_marks_completed_or_failed() {
    let mut q = JobQueue::new(2, 0);
    q.record_enqueued_job("ok".to_string());
    q.record_enqueued_job("bad".to_string());
    q.record_job_outcome("ok", &Ok(()));
    q.record_job_outcome("bad", &Err("boom".to_string()));
    assert!(matches!(q.get_job_status("ok"), Some(JobStatus::Completed)));
    match q.get_job_status("bad") {
        Some(JobStatus::Failed(m)) => assert_eq!(m, "Sync job failed: boom"),
        _ => panic!("expected a failed job"),
    }
}

#[test]
fn final_status_message() {
    assert!(matches!(final_job_status(&Ok(())), JobStatus::Completed));
    match final_job_status(&Err("x".to_string())) {
        JobStatus::Failed(m) => assert_eq!(m, "Sync job failed: x"),
        _ => panic!("expected failure"),
    }
}

#[test]
fn duplicate_copies_status() {
    match JobStatus::Failed("m".to_string()).duplicate() {
        JobStatus::Failed(m) => assert_eq!(m, "m"),
        _ => panic!("expected failure"),
    }
}

#[test]
fn worker_setting_defaults_to_four() {
    assert_eq!(workers_setting(None), 4);
    assert_eq!(workers_setting(Some("8")), 8);
    assert_eq!(workers_setting(Some("+8")), 8);
    assert_eq!(workers_setting(Some("-8")), 4);
    assert_eq!(workers_setting(Some("")), 4);
    assert_eq!(workers_setting(Some("+")), 4);
    assert_eq!(workers_setting(Some(" 8")), 4);
    assert_eq!(workers_setting(Some("eight")), 4);
    assert_eq!(workers_setting(Some("0")), 0);
    assert_eq!(workers_setting(Some("99999999999999999999999")), 4);
}

#[test]
fn rate_limit_setting_defaults_to_500() {
    assert_eq!(rate_limit_setting(None), 500);
    assert_eq!(rate_limit_setting(Some("250")), 250);
    assert_eq!(rate_limit_setting(Some("18446744073709551615")), u64::MAX);
    assert_eq!(rate_limit_setting(Some("18446744073709551616")), 500);
    assert_eq!(rate_limit_setting(Some("1.5")), 500);
}

#[test]
fn queue_from_settings() {
    let q = JobQueue::from_settings(Some("3"), None);
    assert_eq!(q.num_workers, 3);
    assert_eq!(q.rate_limit_ms, 500);
    assert!(q.job_statuses.is_empty());
}
