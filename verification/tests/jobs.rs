use ssh_core::error::CoreError;
use ssh_core::jobs::{JobInfo, JobState, JobManager, Progress};

fn job(id: &str, created_at: u64) -> JobInfo {
    JobInfo {
        id: id.to_string(),
        kind: "test".to_string(),
        label: "a job".to_string(),
        state: JobState::Queued,
        progress: None,
        detail: None,
        error: None,
        created_at,
        finished_at: None,
    }
}

#[test]
fn jobs_lifecycle_in_table() {
    let mut jobs = JobManager::new();
    let spawned = jobs.spawn_record("test", "does things");
    assert_eq!(spawned.state, JobState::Queued);
    assert_eq!(spawned.kind, "test");
    assert_eq!(spawned.label, "does things");
    assert_eq!(spawned.id.len(), 36);
    assert!(spawned.progress.is_none());

    let running = jobs.set_state(&spawned.id, JobState::Running, None, 100).unwrap();
    assert_eq!(running.state, JobState::Running);
    assert!(running.finished_at.is_none());

    for i in 1..=4u64 {
        let p = jobs.progress(&spawned.id, i, 4, Some(format!("step {i}"))).unwrap();
        assert_eq!(p.progress, Some(Progress { done: i, total: 4 }));
        assert_eq!(p.detail, Some(format!("step {i}")));
    }

    let done = jobs.finish(&spawned.id, Ok(Some("all done".to_string())), 200).unwrap();
    assert_eq!(done.state, JobState::Done);
    assert_eq!(done.detail.as_deref(), Some("all done"));
    assert_eq!(done.finished_at, Some(200));
    assert!(done.progress.is_none());
    assert_eq!(jobs.get(&spawned.id).unwrap().state, JobState::Done);
}

#[test]
fn jobs_failure_records_error() {
    let mut jobs = JobManager::new();
    let j = jobs.spawn_record("test", "explodes");
    jobs.set_state(&j.id, JobState::Running, None, 1);
    jobs.progress(&j.id, 1, 2, None);
    let failed = jobs.finish(&j.id, Err("boom".to_string()), 5).unwrap();
    assert_eq!(failed.state, JobState::Failed);
    assert!(failed.error.unwrap().contains("boom"));
    assert_eq!(failed.finished_at, Some(5));
    // A failure keeps the last progress.
    assert_eq!(failed.progress, Some(Progress { done: 1, total: 2 }));
}

#[test]
fn jobs_cancellation_in_table() {
    let mut jobs = JobManager::new();
    let j = jobs.spawn_record("test", "sleeps forever");
    jobs.set_state(&j.id, JobState::Running, None, 1);
    assert!(!jobs.is_cancelled(&j.id));
    jobs.cancel(&j.id).unwrap();
    assert!(jobs.is_cancelled(&j.id));
    let settled = jobs.finish(&j.id, Err("cancelled".to_string()), 9).unwrap();
    assert_eq!(settled.state, JobState::Cancelled);
    assert!(settled.error.is_none());
    assert_eq!(jobs.get(&j.id).unwrap().state, JobState::Cancelled);
    assert!(jobs.cancel("no-such-job").is_err());
    assert!(matches!(jobs.cancel("no-such-job"), Err(CoreError::JobNotFound(ref m)) if m == "no-such-job"));
    assert!(matches!(jobs.get("no-such-job"), Err(CoreError::JobNotFound(_))));
}

#[test]
fn jobs_progress_is_clamped() {
    let mut jobs = JobManager::new();
    jobs.insert(job("a", 1));
    let p = jobs.progress("a", 10, 4, None).unwrap();
    assert_eq!(p.progress, Some(Progress { done: 4, total: 4 }));
    assert!(jobs.progress("missing", 1, 1, None).is_none());
}

#[test]
fn jobs_list_newest_first_then_by_id() {
    let mut jobs = JobManager::new();
    jobs.insert(job("b", 10));
    jobs.insert(job("c", 30));
    jobs.insert(job("a", 10));
    jobs.insert(job("d", 20));
    let listed = jobs.list();
    let ids: Vec<&str> = listed.iter().map(|j| j.id.as_str()).collect();
    assert_eq!(ids, vec!["c", "d", "a", "b"]);
}

#[test]
fn jobs_insert_same_id_replaces() {
    let mut jobs = JobManager::new();
    jobs.insert(job("a", 1));
    jobs.insert(job("a", 2));
    let listed = jobs.list();
    assert_eq!(listed.len(), 1);
    assert_eq!(listed[0].created_at, 2);
}
