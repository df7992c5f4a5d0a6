use seesaw::backoff::{backoff_delay_millis, backoff_delay_secs, MAX_BACKOFF_SECS};
use seesaw::error::StoreError;
use seesaw::job::{bump_version, deadline, failure_outcome, FailureKind, FailureOutcome, JobSpec, JobStatus};

#[test]
fn backoff_doubles_up_to_one_hour() {
    let expected: [i64; 14] = [1, 2, 4, 8, 16, 32, 64, 128, 256, 512, 1024, 2048, 3600, 3600];
    for (attempt, want) in expected.iter().enumerate() {
        assert_eq!(backoff_delay_secs(attempt as u32), *want);
        assert_eq!(backoff_delay_millis(attempt as u32), *want * 1000);
    }
    assert_eq!(backoff_delay_secs(63), 3600);
    assert_eq!(backoff_delay_secs(64), 3600);
    assert_eq!(backoff_delay_secs(u32::MAX), MAX_BACKOFF_SECS);
}

#[test]
fn backoff_stays_within_its_bounds() {
    let mut last = 0;
    for attempt in 0..200u32 {
        let d = backoff_delay_secs(attempt);
        assert!((1..=3600).contains(&d));
        assert!(d >= last);
        last = d;
    }
}

#[test]
fn failure_outcome_retries_only_retryable_failures_with_attempts_left() {
    assert_eq!(
        failure_outcome(FailureKind::Retryable, 2, 5),
        FailureOutcome::Retry { delay_millis: 4_000, next_attempt: 3 }
    );
    assert_eq!(
        failure_outcome(FailureKind::Retryable, 1, 2),
        FailureOutcome::Retry { delay_millis: 2_000, next_attempt: 2 }
    );
    assert_eq!(failure_outcome(FailureKind::Retryable, 3, 3), FailureOutcome::DeadLetter);
    assert_eq!(failure_outcome(FailureKind::Retryable, 4, 3), FailureOutcome::DeadLetter);
    assert_eq!(failure_outcome(FailureKind::Retryable, 1, 0), FailureOutcome::DeadLetter);
    assert_eq!(failure_outcome(FailureKind::NonRetryable, 1, 5), FailureOutcome::DeadLetter);
    assert_eq!(
        failure_outcome(FailureKind::Retryable, u32::MAX - 1, u32::MAX),
        FailureOutcome::Retry { delay_millis: 3_600_000, next_attempt: u32::MAX }
    );
}

#[test]
fn deadline_adds_within_the_clock_range() {
    assert_eq!(deadline(1_000, 60_000), Ok(61_000));
    assert_eq!(deadline(1_000, -2_000), Ok(-1_000));
    assert_eq!(deadline(i64::MAX, 0), Ok(i64::MAX));
    assert_eq!(deadline(i64::MAX, 1), Err(StoreError::TimeOutOfRange));
    assert_eq!(deadline(i64::MIN, -1), Err(StoreError::TimeOutOfRange));
}

#[test]
fn versions_count_up_to_the_top() {
    assert_eq!(bump_version(1), 2);
    assert_eq!(bump_version(u64::MAX - 1), u64::MAX);
    assert_eq!(bump_version(u64::MAX), u64::MAX);
}

#[test]
fn stored_names_of_statuses_and_kinds() {
    assert_eq!(JobStatus::Pending.as_str(), "pending");
    assert_eq!(JobStatus::Running.as_str(), "running");
    assert_eq!(JobStatus::Succeeded.as_str(), "succeeded");
    assert_eq!(JobStatus::Failed.as_str(), "failed");
    assert_eq!(JobStatus::DeadLetter.as_str(), "dead_letter");
    assert_eq!(FailureKind::Retryable.as_str(), "retryable");
    assert_eq!(FailureKind::NonRetryable.as_str(), "non_retryable");
    assert!(JobStatus::Succeeded.terminal());
    assert!(JobStatus::DeadLetter.terminal());
    assert!(!JobStatus::Pending.terminal());
    assert!(!JobStatus::Running.terminal());
    assert!(!JobStatus::Failed.terminal());
}

#[test]
fn job_spec_defaults_and_builders() {
    let spec = JobSpec::new("email:send");
    assert_eq!(spec.job_type, "email:send");
    assert_eq!(spec.priority, 0);
    assert_eq!(spec.max_retries, 3);
    let spec = spec.with_priority(-4).with_max_retries(7);
    assert_eq!(spec.job_type, "email:send");
    assert_eq!(spec.priority, -4);
    assert_eq!(spec.max_retries, 7);
    let copy = spec.duplicate();
    assert_eq!(copy.job_type, "email:send");
    assert_eq!(copy.priority, -4);
    assert_eq!(copy.max_retries, 7);
}

#[test]
fn store_errors_describe_themselves() {
    let all = [
        StoreError::JobNotFound,
        StoreError::DuplicateId,
        StoreError::InvalidJob,
        StoreError::InvalidLimit,
        StoreError::TimeOutOfRange,
        StoreError::Full,
    ];
    for (i, a) in all.iter().enumerate() {
        assert!(!a.message().is_empty());
        for b in all.iter().skip(i + 1) {
            assert_ne!(a.message(), b.message());
        }
    }
}
