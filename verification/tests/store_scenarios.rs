use seesaw::error::StoreError;
use seesaw::job::{FailureKind, Job, JobSpec, JobStatus};
use seesaw::store::{JobStore, DEFAULT_LEASE_MS};
use serde_json::Value;

const T: i64 = 1_700_000_000_000;

fn payload_k1() -> Value {
    let mut m = serde_json::Map::new();
    m.insert("k".to_string(), Value::from(1));
    Value::Object(m)
}

fn running_job(id: u128, attempt: u32, max_retries: u32, lease_expires_at: i64) -> Job {
    Job {
        id,
        job_type: "x:y".to_string(),
        payload: payload_k1(),
        version: 2,
        status: JobStatus::Running,
        attempt,
        max_retries,
        priority: 0,
        run_at: T - 10_000,
        worker_id: Some("w0".to_string()),
        lease_expires_at: Some(lease_expires_at),
        error_message: None,
        error_kind: None,
        created_at: T - 20_000,
        updated_at: T - 10_000,
    }
}

#[test]
fn background_enqueue_makes_one_pending_job() {
    let mut store = JobStore::new();
    let spec = JobSpec::new("x:y").with_max_retries(3);
    let id = store.enqueue_with(42, payload_k1(), spec, T).unwrap();
    assert_eq!(id, 42);
    assert_eq!(store.len(), 1);
    let job = store.get(42).unwrap();
    assert_eq!(job.status, JobStatus::Pending);
    assert_eq!(job.attempt, 1);
    assert_eq!(job.version, 1);
    assert_eq!(job.job_type, "x:y");
    assert_eq!(job.payload, payload_k1());
    assert_eq!(job.max_retries, 3);
    assert_eq!(job.priority, 0);
    assert_eq!(job.run_at, T);
    assert_eq!(job.created_at, T);
    assert_eq!(job.updated_at, T);
    assert!(job.worker_id.is_none());
    assert!(job.lease_expires_at.is_none());
    assert!(job.error_message.is_none());
    assert!(job.error_kind.is_none());
}

#[test]
fn enqueue_with_the_clock_is_due_at_once() {
    let mut store = JobStore::new();
    let id = store.enqueue(payload_k1(), JobSpec::new("x:y")).unwrap();
    let now = chrono::Utc::now().timestamp_millis();
    let job = store.get(id).unwrap();
    assert_eq!(job.status, JobStatus::Pending);
    assert!(job.run_at <= now);
    assert_eq!(job.run_at, job.created_at);
    let claimed = store.claim_ready("w", 5).unwrap();
    assert_eq!(claimed.len(), 1);
    assert_eq!(claimed[0].id, id);
}

#[test]
fn scheduled_job_is_not_claimable_before_its_time() {
    let mut store = JobStore::new();
    store.schedule_with(1, payload_k1(), JobSpec::new("x:y"), T + 500, T).unwrap();
    assert_eq!(store.get(1).unwrap().run_at, T + 500);
    assert_eq!(store.get(1).unwrap().created_at, T);
    assert!(store.claim_ready_at("w", 10, T + 499).unwrap().is_empty());
    let claimed = store.claim_ready_at("w", 10, T + 500).unwrap();
    assert_eq!(claimed.len(), 1);
}

#[test]
fn concurrent_claim_hands_out_each_job_once() {
    let mut store = JobStore::new();
    for id in 0..10u128 {
        store.enqueue_with(id, payload_k1(), JobSpec::new("x:y"), T).unwrap();
    }
    let mut seen: Vec<u128> = Vec::new();
    for w in ["w1", "w2", "w3", "w4"] {
        for job in store.claim_ready_at(w, 10, T).unwrap() {
            assert!(!seen.contains(&job.id), "job {} was handed out twice", job.id);
            seen.push(job.id);
        }
    }
    seen.sort();
    assert_eq!(seen, (0..10u128).collect::<Vec<u128>>());
}

#[test]
fn claims_with_small_limits_split_the_jobs() {
    let mut store = JobStore::new();
    for id in 0..10u128 {
        store.enqueue_with(id, payload_k1(), JobSpec::new("x:y"), T).unwrap();
    }
    let a: Vec<u128> = store.claim_ready_at("w1", 3, T).unwrap().iter().map(|j| j.id).collect();
    let b: Vec<u128> = store.claim_ready_at("w2", 3, T).unwrap().iter().map(|j| j.id).collect();
    let c: Vec<u128> = store.claim_ready_at("w3", 10, T).unwrap().iter().map(|j| j.id).collect();
    let d: Vec<u128> = store.claim_ready_at("w4", 10, T).unwrap().iter().map(|j| j.id).collect();
    assert_eq!(a, vec![0, 1, 2]);
    assert_eq!(b, vec![3, 4, 5]);
    assert_eq!(c, vec![6, 7, 8, 9]);
    assert!(d.is_empty());
}

#[test]
fn claim_marks_the_job_running_with_a_lease() {
    let mut store = JobStore::with_lease_timeout(5_000);
    store.enqueue_with(1, payload_k1(), JobSpec::new("x:y"), T).unwrap();
    let claimed = store.claim_ready_at("worker-a", 1, T + 7).unwrap();
    assert_eq!(claimed.len(), 1);
    assert_eq!(claimed[0].id, 1);
    assert_eq!(claimed[0].job_type, "x:y");
    assert_eq!(claimed[0].payload, payload_k1());
    assert_eq!(claimed[0].attempt, 1);
    assert_eq!(claimed[0].version, 2);
    let job = store.get(1).unwrap();
    assert_eq!(job.status, JobStatus::Running);
    assert_eq!(job.worker_id.as_deref(), Some("worker-a"));
    assert_eq!(job.lease_expires_at, Some(T + 7 + 5_000));
    assert_eq!(job.updated_at, T + 7);
    assert_eq!(job.version, 2);
}

#[test]
fn claim_order_is_priority_then_run_at_then_insertion() {
    let mut store = JobStore::new();
    store.schedule_with(1, payload_k1(), JobSpec::new("a").with_priority(5), T - 30, T - 30).unwrap();
    store.schedule_with(2, payload_k1(), JobSpec::new("a").with_priority(1), T - 10, T - 30).unwrap();
    store.schedule_with(3, payload_k1(), JobSpec::new("a").with_priority(1), T - 20, T - 30).unwrap();
    store.schedule_with(4, payload_k1(), JobSpec::new("a").with_priority(-2), T, T - 30).unwrap();
    store.schedule_with(5, payload_k1(), JobSpec::new("a").with_priority(1), T - 20, T - 30).unwrap();
    store.schedule_with(6, payload_k1(), JobSpec::new("a").with_priority(-9), T + 1, T - 30).unwrap();
    let ids: Vec<u128> = store.claim_ready_at("w", 4, T).unwrap().iter().map(|j| j.id).collect();
    assert_eq!(ids, vec![4, 3, 5, 2]);
    assert_eq!(store.get(1).unwrap().status, JobStatus::Pending);
    assert_eq!(store.get(6).unwrap().status, JobStatus::Pending);
    let ids: Vec<u128> = store.claim_ready_at("w", 4, T + 1).unwrap().iter().map(|j| j.id).collect();
    assert_eq!(ids, vec![6, 1]);
}

#[test]
fn claim_limit_zero_claims_nothing_and_negative_is_an_error() {
    let mut store = JobStore::new();
    store.enqueue_with(1, payload_k1(), JobSpec::new("x:y"), T).unwrap();
    assert!(store.claim_ready_at("w", 0, T).unwrap().is_empty());
    assert_eq!(store.claim_ready_at("w", -1, T).unwrap_err(), StoreError::InvalidLimit);
    assert_eq!(store.get(1).unwrap().status, JobStatus::Pending);
}

#[test]
fn retry_schedule_backs_off_exponentially() {
    let mut store = JobStore::new();
    store.insert(running_job(1, 2, 5, T + 60_000)).unwrap();
    store.mark_failed_at(1, "boom", FailureKind::Retryable, T).unwrap();
    let job = store.get(1).unwrap();
    assert_eq!(job.status, JobStatus::Pending);
    assert_eq!(job.attempt, 3);
    assert_eq!(job.run_at, T + 4_000);
    assert_eq!(job.error_message.as_deref(), Some("boom"));
    assert_eq!(job.error_kind, Some(FailureKind::Retryable));
    assert!(job.worker_id.is_none());
    assert!(job.lease_expires_at.is_none());
    assert_eq!(job.version, 3);
    assert_eq!(job.updated_at, T);
}

#[test]
fn retry_backoff_is_capped_at_one_hour() {
    let mut store = JobStore::new();
    store.insert(running_job(1, 11, 50, T + 60_000)).unwrap();
    store.insert(running_job(2, 12, 50, T + 60_000)).unwrap();
    store.insert(running_job(3, 40, 50, T + 60_000)).unwrap();
    for id in 1..=3u128 {
        store.mark_failed_at(id, "boom", FailureKind::Retryable, T).unwrap();
    }
    assert_eq!(store.get(1).unwrap().run_at, T + 2_048_000);
    assert_eq!(store.get(2).unwrap().run_at, T + 3_600_000);
    assert_eq!(store.get(3).unwrap().run_at, T + 3_600_000);
    assert_eq!(store.get(3).unwrap().attempt, 41);
}

#[test]
fn dead_letter_on_exhaustion() {
    let mut store = JobStore::new();
    store.insert(running_job(1, 3, 3, T + 60_000)).unwrap();
    store.mark_failed_at(1, "still broken", FailureKind::Retryable, T).unwrap();
    let job = store.get(1).unwrap();
    assert_eq!(job.status, JobStatus::DeadLetter);
    assert_eq!(job.attempt, 3);
    assert!(job.worker_id.is_none());
    assert!(job.lease_expires_at.is_none());
    assert_eq!(job.error_message.as_deref(), Some("still broken"));
    assert_eq!(job.error_kind, Some(FailureKind::Retryable));
    assert_eq!(job.run_at, T - 10_000);
}

#[test]
fn non_retryable_failure_dead_letters_at_once() {
    let mut store = JobStore::new();
    store.insert(running_job(1, 1, 5, T + 60_000)).unwrap();
    store.mark_failed_at(1, "bad input", FailureKind::NonRetryable, T).unwrap();
    let job = store.get(1).unwrap();
    assert_eq!(job.status, JobStatus::DeadLetter);
    assert_eq!(job.attempt, 1);
    assert_eq!(job.error_kind, Some(FailureKind::NonRetryable));
}

#[test]
fn mark_failed_of_unknown_job_is_an_error() {
    let mut store = JobStore::new();
    assert_eq!(
        store.mark_failed_at(9, "boom", FailureKind::Retryable, T).unwrap_err(),
        StoreError::JobNotFound
    );
    assert_eq!(store.mark_failed(9, "boom", FailureKind::Retryable).unwrap_err(), StoreError::JobNotFound);
}

#[test]
fn reclaim_returns_abandoned_jobs_to_pending() {
    let mut store = JobStore::new();
    store.insert(running_job(1, 2, 5, T - 5_000)).unwrap();
    assert_eq!(store.reclaim_expired_at(T).unwrap(), 1);
    let job = store.get(1).unwrap();
    assert_eq!(job.status, JobStatus::Pending);
    assert!(job.worker_id.is_none());
    assert!(job.lease_expires_at.is_none());
    assert_eq!(job.attempt, 2);
    assert_eq!(store.reclaim_expired_at(T).unwrap(), 0);
}

#[test]
fn reclaim_leaves_live_leases_and_other_statuses_alone() {
    let mut store = JobStore::new();
    store.insert(running_job(1, 1, 3, T)).unwrap();
    store.insert(running_job(2, 1, 3, T + 1)).unwrap();
    store.insert(running_job(3, 1, 3, T - 1)).unwrap();
    store.enqueue_with(4, payload_k1(), JobSpec::new("x:y"), T).unwrap();
    store.insert(running_job(5, 1, 3, T - 100)).unwrap();
    store.mark_succeeded_at(5, T - 50).unwrap();
    assert_eq!(store.reclaim_expired_at(T).unwrap(), 1);
    assert_eq!(store.get(1).unwrap().status, JobStatus::Running);
    assert_eq!(store.get(2).unwrap().status, JobStatus::Running);
    assert_eq!(store.get(3).unwrap().status, JobStatus::Pending);
    assert_eq!(store.get(4).unwrap().status, JobStatus::Pending);
    assert_eq!(store.get(5).unwrap().status, JobStatus::Succeeded);
    assert_eq!(store.get(5).unwrap().updated_at, T - 50);
}

#[test]
fn reclaim_with_the_clock_picks_up_an_old_lease() {
    let mut store = JobStore::new();
    store.insert(running_job(1, 1, 3, 1_000)).unwrap();
    assert_eq!(store.reclaim_expired().unwrap(), 1);
    assert_eq!(store.get(1).unwrap().status, JobStatus::Pending);
}

#[test]
fn heartbeat_extends_the_lease_of_a_running_job_only() {
    let mut store = JobStore::with_lease_timeout(1_000);
    store.insert(running_job(1, 1, 3, T + 10)).unwrap();
    store.enqueue_with(2, payload_k1(), JobSpec::new("x:y"), T).unwrap();
    store.heartbeat_at(1, T + 5).unwrap();
    store.heartbeat_at(2, T + 5).unwrap();
    store.heartbeat_at(3, T + 5).unwrap();
    assert_eq!(store.get(1).unwrap().lease_expires_at, Some(T + 1_005));
    assert_eq!(store.get(1).unwrap().version, 3);
    assert_eq!(store.get(2).unwrap().lease_expires_at, None);
    assert_eq!(store.get(2).unwrap().version, 1);
    assert_eq!(store.len(), 2);
}

#[test]
fn heartbeat_with_the_clock_moves_the_lease_forward() {
    let mut store = JobStore::new();
    store.insert(running_job(1, 1, 3, 5)).unwrap();
    let before = chrono::Utc::now().timestamp_millis();
    store.heartbeat(1).unwrap();
    let lease = store.get(1).unwrap().lease_expires_at.unwrap();
    assert!(lease >= before + DEFAULT_LEASE_MS);
}

#[test]
fn mark_succeeded_is_terminal() {
    let mut store = JobStore::new();
    store.insert(running_job(1, 1, 3, T + 10)).unwrap();
    store.mark_succeeded_at(1, T).unwrap();
    let job = store.get(1).unwrap();
    assert_eq!(job.status, JobStatus::Succeeded);
    assert!(job.worker_id.is_none());
    assert!(job.lease_expires_at.is_none());
    assert_eq!(job.version, 3);
    // Later reports change nothing.
    store.mark_failed_at(1, "late", FailureKind::NonRetryable, T + 1).unwrap();
    store.mark_succeeded_at(1, T + 2).unwrap();
    store.heartbeat_at(1, T + 3).unwrap();
    let job = store.get(1).unwrap();
    assert_eq!(job.status, JobStatus::Succeeded);
    assert_eq!(job.version, 3);
    assert_eq!(job.updated_at, T);
    assert!(job.error_message.is_none());
}

#[test]
fn mark_succeeded_with_the_clock() {
    let mut store = JobStore::new();
    store.insert(running_job(1, 1, 3, T + 10)).unwrap();
    store.mark_succeeded(1).unwrap();
    assert_eq!(store.get(1).unwrap().status, JobStatus::Succeeded);
    store.mark_succeeded(77).unwrap();
}

#[test]
fn reports_for_a_job_that_is_not_running_are_ignored() {
    let mut store = JobStore::new();
    store.enqueue_with(1, payload_k1(), JobSpec::new("x:y"), T).unwrap();
    store.mark_succeeded_at(1, T + 1).unwrap();
    store.mark_failed_at(1, "boom", FailureKind::NonRetryable, T + 1).unwrap();
    let job = store.get(1).unwrap();
    assert_eq!(job.status, JobStatus::Pending);
    assert_eq!(job.version, 1);
    assert_eq!(job.attempt, 1);
}

#[test]
fn dead_letter_is_terminal() {
    let mut store = JobStore::new();
    store.insert(running_job(1, 1, 3, T + 10)).unwrap();
    store.mark_failed_at(1, "bad", FailureKind::NonRetryable, T).unwrap();
    store.mark_succeeded_at(1, T + 1).unwrap();
    store.mark_failed_at(1, "again", FailureKind::Retryable, T + 2).unwrap();
    assert!(store.claim_ready_at("w", 5, T + 10).unwrap().is_empty());
    assert_eq!(store.reclaim_expired_at(T + 100_000).unwrap(), 0);
    let job = store.get(1).unwrap();
    assert_eq!(job.status, JobStatus::DeadLetter);
    assert_eq!(job.error_message.as_deref(), Some("bad"));
}

#[test]
fn cleanup_deletes_old_succeeded_jobs_only() {
    let mut store = JobStore::new();
    store.insert(running_job(1, 1, 3, T)).unwrap();
    store.insert(running_job(2, 1, 3, T)).unwrap();
    store.insert(running_job(3, 1, 3, T)).unwrap();
    store.enqueue_with(4, payload_k1(), JobSpec::new("x:y"), T - 500).unwrap();
    store.mark_succeeded_at(1, T - 100).unwrap();
    store.mark_succeeded_at(2, T).unwrap();
    store.mark_failed_at(3, "bad", FailureKind::NonRetryable, T - 100).unwrap();
    assert_eq!(store.cleanup_succeeded(T).unwrap(), 1);
    assert!(store.get(1).is_none());
    assert!(store.get(2).is_some());
    assert!(store.get(3).is_some());
    assert!(store.get(4).is_some());
    assert_eq!(store.len(), 3);
    assert_eq!(store.cleanup_succeeded(T + 1).unwrap(), 1);
    assert_eq!(store.cleanup_succeeded(T + 1).unwrap(), 0);
    assert_eq!(store.len(), 2);
}

#[test]
fn stats_count_jobs_by_status() {
    let mut store = JobStore::new();
    let s = store.stats().unwrap();
    assert_eq!((s.pending, s.running, s.succeeded, s.failed, s.dead_letter), (0, 0, 0, 0, 0));
    for id in 0..6u128 {
        store.enqueue_with(id, payload_k1(), JobSpec::new("x:y").with_max_retries(1), T).unwrap();
    }
    store.claim_ready_at("w", 4, T).unwrap();
    store.mark_succeeded_at(0, T).unwrap();
    store.mark_failed_at(1, "boom", FailureKind::Retryable, T).unwrap();
    let mut failed = running_job(10, 1, 3, T);
    failed.status = JobStatus::Failed;
    failed.worker_id = None;
    failed.lease_expires_at = None;
    store.insert(failed).unwrap();
    let s = store.stats().unwrap();
    assert_eq!((s.pending, s.running, s.succeeded, s.failed, s.dead_letter), (2, 2, 1, 1, 1));
}

#[test]
fn insert_turns_down_broken_and_duplicate_records() {
    let mut store = JobStore::new();
    store.enqueue_with(1, payload_k1(), JobSpec::new("x:y"), T).unwrap();
    assert_eq!(
        store.enqueue_with(1, payload_k1(), JobSpec::new("x:y"), T).unwrap_err(),
        StoreError::DuplicateId
    );
    let mut no_worker = running_job(2, 1, 3, T);
    no_worker.worker_id = None;
    assert_eq!(store.insert(no_worker).unwrap_err(), StoreError::InvalidJob);
    let mut no_lease = running_job(2, 1, 3, T);
    no_lease.lease_expires_at = None;
    assert_eq!(store.insert(no_lease).unwrap_err(), StoreError::InvalidJob);
    let mut zero_attempt = running_job(2, 0, 3, T);
    zero_attempt.attempt = 0;
    assert_eq!(store.insert(zero_attempt).unwrap_err(), StoreError::InvalidJob);
    assert_eq!(store.insert(running_job(2, 5, 3, T)).unwrap_err(), StoreError::InvalidJob);
    let mut zero_version = running_job(2, 1, 3, T);
    zero_version.version = 0;
    assert_eq!(store.insert(zero_version).unwrap_err(), StoreError::InvalidJob);
    let mut half_error = running_job(2, 1, 3, T);
    half_error.error_message = Some("x".to_string());
    assert_eq!(store.insert(half_error).unwrap_err(), StoreError::InvalidJob);
    assert_eq!(store.len(), 1);
    assert_eq!(store.insert(running_job(2, 4, 3, T)).unwrap(), 2);
}

#[test]
fn deadlines_outside_the_clock_are_errors() {
    let mut store = JobStore::new();
    store.enqueue_with(1, payload_k1(), JobSpec::new("x:y"), 0).unwrap();
    assert_eq!(store.claim_ready_at("w", 1, i64::MAX).unwrap_err(), StoreError::TimeOutOfRange);
    assert_eq!(store.get(1).unwrap().status, JobStatus::Pending);
    store.insert(running_job(2, 1, 3, T)).unwrap();
    assert_eq!(store.heartbeat_at(2, i64::MAX - 10).unwrap_err(), StoreError::TimeOutOfRange);
    assert_eq!(
        store.mark_failed_at(2, "boom", FailureKind::Retryable, i64::MAX - 10).unwrap_err(),
        StoreError::TimeOutOfRange
    );
    assert_eq!(store.get(2).unwrap().status, JobStatus::Running);
    // A failure that is not retried needs no deadline.
    store.mark_failed_at(2, "boom", FailureKind::NonRetryable, i64::MAX - 10).unwrap();
    assert_eq!(store.get(2).unwrap().status, JobStatus::DeadLetter);
    let mut negative = JobStore::with_lease_timeout(-5);
    negative.enqueue_with(1, payload_k1(), JobSpec::new("x:y"), i64::MIN).unwrap();
    assert_eq!(negative.claim_ready_at("w", 1, i64::MIN + 1).unwrap_err(), StoreError::TimeOutOfRange);
}

#[test]
fn version_counts_writes_and_stops_at_the_top() {
    let mut store = JobStore::new();
    let mut job = running_job(1, 1, 3, T);
    job.version = u64::MAX - 1;
    store.insert(job).unwrap();
    store.heartbeat_at(1, T).unwrap();
    assert_eq!(store.get(1).unwrap().version, u64::MAX);
    store.heartbeat_at(1, T).unwrap();
    assert_eq!(store.get(1).unwrap().version, u64::MAX);
}

#[test]
fn a_full_life_of_a_job() {
    let mut store = JobStore::with_lease_timeout(1_000);
    store.enqueue_with(1, payload_k1(), JobSpec::new("x:y").with_max_retries(2), T).unwrap();
    assert_eq!(store.claim_ready_at("w1", 1, T).unwrap()[0].attempt, 1);
    store.mark_failed_at(1, "first", FailureKind::Retryable, T + 10).unwrap();
    assert_eq!(store.get(1).unwrap().run_at, T + 10 + 2_000);
    assert!(store.claim_ready_at("w1", 1, T + 2_009).unwrap().is_empty());
    let again = store.claim_ready_at("w2", 1, T + 2_010).unwrap();
    assert_eq!(again[0].attempt, 2);
    assert_eq!(store.get(1).unwrap().worker_id.as_deref(), Some("w2"));
    // The worker dies: the lease expires and the job is handed to another one.
    assert_eq!(store.reclaim_expired_at(T + 3_010).unwrap(), 0);
    assert_eq!(store.reclaim_expired_at(T + 3_011).unwrap(), 1);
    let third = store.claim_ready_at("w3", 1, T + 3_011).unwrap();
    assert_eq!(third[0].attempt, 2);
    store.mark_failed_at(1, "second", FailureKind::Retryable, T + 3_020).unwrap();
    let job = store.get(1).unwrap();
    assert_eq!(job.status, JobStatus::DeadLetter);
    assert_eq!(job.attempt, 2);
    assert_eq!(job.error_message.as_deref(), Some("second"));
}

#[test]
fn stats_of_six_jobs() {
    let mut store = JobStore::new();
    for id in 0..6u128 {
        store.enqueue_with(id, payload_k1(), JobSpec::new("x:y"), T).unwrap();
    }
    store.claim_ready_at("w", 4, T).unwrap();
    for id in 0..3u128 {
        store.mark_failed_at(id, "bad", FailureKind::NonRetryable, T).unwrap();
    }
    let s = store.stats().unwrap();
    assert_eq!((s.pending, s.running, s.succeeded, s.failed, s.dead_letter), (2, 1, 0, 0, 3));
    assert_eq!(s.pending + s.running + s.succeeded + s.failed + s.dead_letter, 6);
    assert_eq!(store.len(), 6);
}

#[test]
fn heartbeat_for_a_job_that_is_not_running_is_never_an_error() {
    let mut store = JobStore::new();
    store.enqueue_with(1, payload_k1(), JobSpec::new("x:y"), T).unwrap();
    // No lease is computed for these, so no time is out of range.
    store.heartbeat_at(1, i64::MAX).unwrap();
    store.heartbeat_at(2, i64::MAX).unwrap();
    assert_eq!(store.get(1).unwrap().status, JobStatus::Pending);
    assert_eq!(store.get(1).unwrap().version, 1);
    assert!(store.get(1).unwrap().lease_expires_at.is_none());
    assert_eq!(store.len(), 1);
}

#[test]
fn heartbeat_does_not_bring_back_a_lost_lease() {
    let mut store = JobStore::new();
    store.insert(running_job(1, 2, 5, T - 5_000)).unwrap();
    assert_eq!(store.reclaim_expired_at(T).unwrap(), 1);
    let version = store.get(1).unwrap().version;
    store.heartbeat_at(1, T + 1).unwrap();
    store.heartbeat_at(1, i64::MAX).unwrap();
    store.heartbeat(1).unwrap();
    let job = store.get(1).unwrap();
    assert_eq!(job.status, JobStatus::Pending);
    assert!(job.worker_id.is_none());
    assert!(job.lease_expires_at.is_none());
    assert_eq!(job.attempt, 2);
    assert_eq!(job.version, version);
}

#[test]
fn the_table_keeps_the_order_of_the_calls() {
    let mut store = JobStore::new();
    store.enqueue_with(30, Value::from("a"), JobSpec::new("t:1"), T).unwrap();
    store.schedule_with(10, Value::from("b"), JobSpec::new("t:2"), T + 900, T).unwrap();
    store.schedule_with(20, Value::from("c"), JobSpec::new("t:3"), T - 900, T).unwrap();
    assert_eq!(
        store.enqueue_with(10, Value::from("d"), JobSpec::new("t:4"), T).unwrap_err(),
        StoreError::DuplicateId
    );
    store.enqueue_with(5, Value::from("e"), JobSpec::new("t:5").with_priority(-7), T).unwrap();
    let seen: Vec<(u128, String, Value, i64)> = store
        .jobs()
        .iter()
        .map(|j| (j.id, j.job_type.clone(), j.payload.clone(), j.run_at))
        .collect();
    assert_eq!(
        seen,
        vec![
            (30, "t:1".to_string(), Value::from("a"), T),
            (10, "t:2".to_string(), Value::from("b"), T + 900),
            (20, "t:3".to_string(), Value::from("c"), T - 900),
            (5, "t:5".to_string(), Value::from("e"), T),
        ]
    );
}

#[test]
fn operations_with_the_clock_succeed() {
    let mut store = JobStore::new();
    store.enqueue_with(1, payload_k1(), JobSpec::new("x:y"), 0).unwrap();
    assert_eq!(store.claim_ready("w", 1).unwrap().len(), 1);
    store.heartbeat(1).unwrap();
    let before = chrono::Utc::now().timestamp_millis();
    store.mark_failed(1, "boom", FailureKind::Retryable).unwrap();
    let after = chrono::Utc::now().timestamp_millis();
    let job = store.get(1).unwrap();
    assert_eq!(job.status, JobStatus::Pending);
    assert_eq!(job.attempt, 2);
    assert!(job.run_at >= before + 2_000 && job.run_at <= after + 2_000);
    assert_eq!(store.claim_ready("w", -1).unwrap_err(), StoreError::InvalidLimit);
}
