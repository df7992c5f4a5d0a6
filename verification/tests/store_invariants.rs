use seesaw::job::{FailureKind, JobSpec, JobStatus};
use seesaw::store::JobStore;
use serde_json::Value;

const T: i64 = 1_700_000_000_000;

/// A small generator of repeatable pseudo-random numbers.
struct Lcg(u64);

impl Lcg {
    fn next(&mut self, bound: u64) -> u64 {
        self.0 = self.0.wrapping_mul(6364136223846793005).wrapping_add(1442695040888963407);
        (self.0 >> 33) % bound
    }
}

fn check_all(store: &JobStore, ids: u128) {
    for id in 0..ids {
        if let Some(job) = store.get(id) {
            assert!(job.is_valid());
            let running = job.status == JobStatus::Running;
            assert_eq!(running, job.worker_id.is_some());
            assert_eq!(running, job.lease_expires_at.is_some());
            assert!(job.attempt >= 1);
            assert!(job.attempt <= job.max_retries + 1);
            assert!(job.version >= 1);
        }
    }
}

#[test]
fn invariants_hold_after_every_operation() {
    let mut rng = Lcg(7);
    let mut store = JobStore::with_lease_timeout(500);
    let mut next_id: u128 = 0;
    let mut now = T;
    for _ in 0..2_000 {
        now += rng.next(400) as i64;
        let target = rng.next(next_id as u64 + 1) as u128;
        let before: Vec<Option<(JobStatus, u32, u64)>> =
            (0..next_id).map(|id| store.get(id).map(|j| (j.status, j.attempt, j.version))).collect();
        let op = rng.next(8);
        match op {
            0 => {
                let spec = JobSpec::new("x:y")
                    .with_max_retries(rng.next(4) as u32)
                    .with_priority(rng.next(3) as i32);
                store.enqueue_with(next_id, Value::Null, spec, now).unwrap();
                next_id += 1;
            }
            1 => {
                let limit = rng.next(4) as i64;
                let claimed = store.claim_ready_at("w", limit, now).unwrap();
                assert!(claimed.len() as i64 <= limit);
                for job in &claimed {
                    assert_eq!(before[job.id as usize].unwrap().0, JobStatus::Pending);
                    assert_eq!(store.get(job.id).unwrap().status, JobStatus::Running);
                }
            }
            2 => {
                store.mark_succeeded_at(target, now).unwrap();
            }
            3 => {
                let _ = store.mark_failed_at(target, "boom", FailureKind::Retryable, now);
            }
            4 => {
                let _ = store.mark_failed_at(target, "bad", FailureKind::NonRetryable, now);
            }
            5 => {
                store.heartbeat_at(target, now).unwrap();
            }
            6 => {
                store.reclaim_expired_at(now).unwrap();
            }
            _ => {
                store.cleanup_succeeded(now - 5_000).unwrap();
            }
        }
        check_all(&store, next_id);
        for (id, old) in before.iter().enumerate() {
            let (Some((status, attempt, version)), Some(job)) = (old, store.get(id as u128)) else {
                continue;
            };
            // Attempts and versions never go down; final statuses stay.
            assert!(job.attempt >= *attempt);
            assert!(job.attempt <= *attempt + 1);
            assert!(job.version >= *version);
            if status.terminal() || *status == JobStatus::Failed {
                assert_eq!(job.status, *status);
                assert_eq!(job.version, *version);
            }
            if job.status == JobStatus::Running && *status != JobStatus::Running {
                assert_eq!(*status, JobStatus::Pending);
                assert_eq!(op, 1);
            }
            if job.status == JobStatus::DeadLetter && *status != JobStatus::DeadLetter {
                assert_eq!(*status, JobStatus::Running);
            }
            if op == 6 {
                assert_eq!(job.attempt, *attempt);
            }
        }
        let stats = store.stats().unwrap();
        assert_eq!(
            stats.pending + stats.running + stats.succeeded + stats.failed + stats.dead_letter,
            store.len() as i64
        );
    }
}

#[test]
fn attempts_rise_by_one_and_stop_at_the_bound() {
    let mut store = JobStore::new();
    store.enqueue_with(1, Value::Null, JobSpec::new("x:y").with_max_retries(4), T).unwrap();
    let mut now = T;
    let mut attempts = Vec::new();
    loop {
        let claimed = store.claim_ready_at("w", 1, now).unwrap();
        if claimed.is_empty() {
            break;
        }
        attempts.push(claimed[0].attempt);
        store.mark_failed_at(1, "boom", FailureKind::Retryable, now).unwrap();
        now += 3_600_000;
    }
    assert_eq!(attempts, vec![1, 2, 3, 4]);
    let job = store.get(1).unwrap();
    assert_eq!(job.status, JobStatus::DeadLetter);
    assert_eq!(job.attempt, 4);
    assert!(job.attempt <= job.max_retries + 1);
}

#[test]
fn a_job_without_retries_is_dead_lettered_by_its_first_failure() {
    let mut store = JobStore::new();
    store.enqueue_with(1, Value::Null, JobSpec::new("x:y").with_max_retries(0), T).unwrap();
    store.claim_ready_at("w", 1, T).unwrap();
    store.mark_failed_at(1, "boom", FailureKind::Retryable, T).unwrap();
    assert_eq!(store.get(1).unwrap().status, JobStatus::DeadLetter);
    assert_eq!(store.get(1).unwrap().attempt, 1);
}

#[test]
fn a_claim_takes_as_many_jobs_as_it_may() {
    for ready in 0..6i64 {
        for limit in 0..8i64 {
            let mut store = JobStore::new();
            for id in 0..ready {
                store.enqueue_with(id as u128, Value::Null, JobSpec::new("x:y"), T).unwrap();
            }
            store.schedule_with(100, Value::Null, JobSpec::new("x:y"), T + 1, T).unwrap();
            let claimed = store.claim_ready_at("w", limit, T).unwrap();
            assert_eq!(claimed.len() as i64, ready.min(limit));
        }
    }
}
