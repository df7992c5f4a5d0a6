//! Job records and the transitions of a single job.
//!
//! A job is a durable record of a queued command. Its life is a small state
//! machine:
//!
//! ```text
//!     pending --claim--> running --success--> succeeded (terminal)
//!        ^                  |
//!        |                  +--failure (retryable, attempts left)--> pending, after a backoff
//!        |                  +--failure (otherwise)-----------------> dead_letter (terminal)
//!        +--reclaim (lease expired)-- running
//! ```
//!
//! Only the transitions drawn above exist. In particular nothing but a claim
//! leads into `running`, and an outcome reported for a job that is not
//! running (because its lease was taken away meanwhile) is ignored.

use crate::backoff::{backoff_delay_millis, backoff_millis};
use crate::error::StoreError;
use crate::platform::clone_payload;
use serde_json::Value;
use vstd::prelude::*;

verus! {

/// Where a job stands in its life.
#[derive(Clone, Copy, Debug, PartialEq, Eq, Structural)]
pub enum JobStatus {
    Pending,
    Running,
    Succeeded,
    /// Kept for stored records that carry it. No transition of this crate
    /// leads here.
    Failed,
    DeadLetter,
}

/// Whether a failure may go away if the command is tried again.
#[derive(Clone, Copy, Debug, PartialEq, Eq, Structural)]
pub enum FailureKind {
    Retryable,
    NonRetryable,
}

impl JobStatus {
    /// `succeeded` and `dead_letter` are final: no transition leaves them.
    pub open spec fn is_terminal(self) -> bool {
        self == JobStatus::Succeeded || self == JobStatus::DeadLetter
    }

    /// The name under which the status is stored.
    pub open spec fn name(self) -> Seq<char> {
        match self {
            JobStatus::Pending => "pending"@,
            JobStatus::Running => "running"@,
            JobStatus::Succeeded => "succeeded"@,
            JobStatus::Failed => "failed"@,
            JobStatus::DeadLetter => "dead_letter"@,
        }
    }

    /// Tells whether the status is final.
    pub fn terminal(self) -> (b: bool)
        ensures
            b == self.is_terminal(),
    {
        match self {
            JobStatus::Succeeded => true,
            JobStatus::DeadLetter => true,
            _ => false,
        }
    }

    /// The name under which the status is stored.
    pub fn as_str(self) -> (s: &'static str)
        ensures
            s@ == self.name(),
    {
        match self {
            JobStatus::Pending => "pending",
            JobStatus::Running => "running",
            JobStatus::Succeeded => "succeeded",
            JobStatus::Failed => "failed",
            JobStatus::DeadLetter => "dead_letter",
        }
    }
}

impl FailureKind {
    /// The name under which the kind is stored.
    pub open spec fn name(self) -> Seq<char> {
        match self {
            FailureKind::Retryable => "retryable"@,
            FailureKind::NonRetryable => "non_retryable"@,
        }
    }

    /// The name under which the kind is stored.
    pub fn as_str(self) -> (s: &'static str)
        ensures
            s@ == self.name(),
    {
        match self {
            FailureKind::Retryable => "retryable",
            FailureKind::NonRetryable => "non_retryable",
        }
    }
}

/// Two statuses with the same stored name are the same status.
pub proof fn lemma_status_names_distinct(a: JobStatus, b: JobStatus)
    requires
        a.name() == b.name(),
    ensures
        a == b,
{
    reveal_strlit("pending");
    reveal_strlit("running");
    reveal_strlit("succeeded");
    reveal_strlit("failed");
    reveal_strlit("dead_letter");
    assert("pending"@.len() == 7 && "pending"@[0] == 'p');
    assert("running"@.len() == 7 && "running"@[0] == 'r');
    assert("succeeded"@.len() == 9);
    assert("failed"@.len() == 6);
    assert("dead_letter"@.len() == 11);
}

/// Two failure kinds with the same stored name are the same kind.
pub proof fn lemma_kind_names_distinct(a: FailureKind, b: FailureKind)
    requires
        a.name() == b.name(),
    ensures
        a == b,
{
    reveal_strlit("retryable");
    reveal_strlit("non_retryable");
    assert("retryable"@.len() == 9);
    assert("non_retryable"@.len() == 13);
}

/// How a command is to be queued: the name under which its handler is
/// registered, its priority (smaller runs first) and how many attempts it
/// gets.
#[derive(Debug)]
pub struct JobSpec {
    pub job_type: String,
    pub priority: i32,
    pub max_retries: u32,
}

impl JobSpec {
    /// A job spec with priority 0 and three attempts.
    pub fn new(job_type: &str) -> (spec: JobSpec)
        ensures
            spec.job_type@ == job_type@,
            spec.priority == 0,
            spec.max_retries == 3,
    {
        JobSpec { job_type: job_type.to_owned(), priority: 0, max_retries: 3 }
    }

    /// The same job spec with another priority.
    pub fn with_priority(self, priority: i32) -> (spec: JobSpec)
        ensures
            spec.job_type@ == self.job_type@,
            spec.priority == priority,
            spec.max_retries == self.max_retries,
    {
        JobSpec { job_type: self.job_type, priority, max_retries: self.max_retries }
    }

    /// The same job spec with another bound on attempts.
    pub fn with_max_retries(self, max_retries: u32) -> (spec: JobSpec)
        ensures
            spec.job_type@ == self.job_type@,
            spec.priority == self.priority,
            spec.max_retries == max_retries,
    {
        JobSpec { job_type: self.job_type, priority: self.priority, max_retries }
    }

    /// A copy of the job spec.
    pub fn duplicate(&self) -> (spec: JobSpec)
        ensures
            spec.job_type@ == self.job_type@,
            spec.priority == self.priority,
            spec.max_retries == self.max_retries,
    {
        JobSpec {
            job_type: self.job_type.clone(),
            priority: self.priority,
            max_retries: self.max_retries,
        }
    }
}

/// A stored job. Times are milliseconds since the Unix epoch.
#[derive(Debug)]
pub struct Job {
    pub id: u128,
    pub job_type: String,
    pub payload: Value,
    pub version: u64,
    pub status: JobStatus,
    pub attempt: u32,
    pub max_retries: u32,
    pub priority: i32,
    pub run_at: i64,
    pub worker_id: Option<String>,
    pub lease_expires_at: Option<i64>,
    pub error_message: Option<String>,
    pub error_kind: Option<FailureKind>,
    pub created_at: i64,
    pub updated_at: i64,
}

/// What a worker is handed when it claims a job.
#[derive(Debug)]
pub struct ClaimedJob {
    pub id: u128,
    pub job_type: String,
    pub payload: Value,
    pub version: u64,
    pub attempt: u32,
}

/// The mathematical value of a [`Job`].
pub struct JobView {
    pub id: u128,
    pub job_type: Seq<char>,
    pub payload: Value,
    pub version: nat,
    pub status: JobStatus,
    pub attempt: nat,
    pub max_retries: nat,
    pub priority: int,
    pub run_at: int,
    pub worker_id: Option<Seq<char>>,
    pub lease_expires_at: Option<int>,
    pub error_message: Option<Seq<char>>,
    pub error_kind: Option<FailureKind>,
    pub created_at: int,
    pub updated_at: int,
}

/// The mathematical value of a [`ClaimedJob`].
pub struct ClaimedJobView {
    pub id: u128,
    pub job_type: Seq<char>,
    pub payload: Value,
    pub version: nat,
    pub attempt: nat,
}

/// The view of an optional string.
pub open spec fn opt_text(s: Option<String>) -> Option<Seq<char>> {
    match s {
        Some(t) => Some(t@),
        None => None,
    }
}

/// The view of an optional time.
pub open spec fn opt_time(t: Option<i64>) -> Option<int> {
    match t {
        Some(ms) => Some(ms as int),
        None => None,
    }
}

/// The version after one more write. Versions count writes and stop at the
/// largest value a stored version can hold.
pub open spec fn bumped(version: nat) -> nat {
    if version < u64::MAX {
        version + 1
    } else {
        version
    }
}

/// A failed attempt is retried when the failure is retryable and the attempt
/// was not the last one allowed.
pub open spec fn will_retry(kind: FailureKind, attempt: nat, max_retries: nat) -> bool {
    kind == FailureKind::Retryable && attempt < max_retries
}

impl View for Job {
    type V = JobView;

    open spec fn view(&self) -> JobView {
        JobView {
            id: self.id,
            job_type: self.job_type@,
            payload: self.payload,
            version: self.version as nat,
            status: self.status,
            attempt: self.attempt as nat,
            max_retries: self.max_retries as nat,
            priority: self.priority as int,
            run_at: self.run_at as int,
            worker_id: opt_text(self.worker_id),
            lease_expires_at: opt_time(self.lease_expires_at),
            error_message: opt_text(self.error_message),
            error_kind: self.error_kind,
            created_at: self.created_at as int,
            updated_at: self.updated_at as int,
        }
    }
}

impl View for ClaimedJob {
    type V = ClaimedJobView;

    open spec fn view(&self) -> ClaimedJobView {
        ClaimedJobView {
            id: self.id,
            job_type: self.job_type@,
            payload: self.payload,
            version: self.version as nat,
            attempt: self.attempt as nat,
        }
    }
}

impl JobView {
    /// The invariant of job records.
    ///
    /// Versions and attempts count from one; a job never gets more attempts
    /// than its job spec allows; a job has a worker and a lease exactly while it
    /// is running; and an error message is stored together with its kind.
    pub open spec fn wf(self) -> bool {
        &&& self.version >= 1
        &&& self.attempt >= 1
        &&& self.attempt <= self.max_retries + 1
        &&& (self.status == JobStatus::Running <==> self.worker_id is Some)
        &&& (self.status == JobStatus::Running <==> self.lease_expires_at is Some)
        &&& (self.error_message is Some <==> self.error_kind is Some)
    }

    /// A newly queued job: pending, first attempt, first version, no worker,
    /// no lease and no error.
    pub open spec fn fresh(
        id: u128,
        job_type: Seq<char>,
        payload: Value,
        priority: int,
        max_retries: nat,
        run_at: int,
        now: int,
    ) -> JobView {
        JobView {
            id,
            job_type,
            payload,
            version: 1,
            status: JobStatus::Pending,
            attempt: 1,
            max_retries,
            priority,
            run_at,
            worker_id: None,
            lease_expires_at: None,
            error_message: None,
            error_kind: None,
            created_at: now,
            updated_at: now,
        }
    }

    /// A job can be claimed when it is pending and due.
    pub open spec fn ready(self, now: int) -> bool {
        self.status == JobStatus::Pending && self.run_at <= now
    }

    /// A running job whose lease ran out before `now` has been abandoned.
    pub open spec fn lease_expired(self, now: int) -> bool {
        self.status == JobStatus::Running && self.lease_expires_at is Some
            && self.lease_expires_at->0 < now
    }

    /// What a worker is handed for this job.
    pub open spec fn ticket(self) -> ClaimedJobView {
        ClaimedJobView {
            id: self.id,
            job_type: self.job_type,
            payload: self.payload,
            version: self.version,
            attempt: self.attempt,
        }
    }

    /// The job after `worker` has claimed it at `now` with a lease that ends
    /// at `lease_until`. A job that is not ready stays as it is.
    pub open spec fn claimed(self, worker: Seq<char>, now: int, lease_until: int) -> JobView {
        if self.ready(now) {
            JobView {
                status: JobStatus::Running,
                worker_id: Some(worker),
                lease_expires_at: Some(lease_until),
                updated_at: now,
                version: bumped(self.version),
                ..self
            }
        } else {
            self
        }
    }

    /// The job after its worker has reported success at `now`. Only a
    /// running job succeeds.
    pub open spec fn succeeded(self, now: int) -> JobView {
        if self.status == JobStatus::Running {
            JobView {
                status: JobStatus::Succeeded,
                worker_id: None,
                lease_expires_at: None,
                updated_at: now,
                version: bumped(self.version),
                ..self
            }
        } else {
            self
        }
    }

    /// The job after its worker has reported a failure at `now`.
    ///
    /// A running job goes back to pending when the failure will be retried:
    /// its attempt number goes up by one and it becomes due after the
    /// backoff of the attempt that failed. Otherwise it is dead-lettered with
    /// its attempt number unchanged. Either way the error is recorded and the
    /// worker and lease are cleared. A job that is not running stays as it is.
    pub open spec fn failed(self, error: Seq<char>, kind: FailureKind, now: int) -> JobView {
        if self.status != JobStatus::Running {
            self
        } else if will_retry(kind, self.attempt, self.max_retries) {
            JobView {
                status: JobStatus::Pending,
                run_at: now + backoff_millis(self.attempt),
                attempt: self.attempt + 1,
                error_message: Some(error),
                error_kind: Some(FailureKind::Retryable),
                worker_id: None,
                lease_expires_at: None,
                updated_at: now,
                version: bumped(self.version),
                ..self
            }
        } else {
            JobView {
                status: JobStatus::DeadLetter,
                error_message: Some(error),
                error_kind: Some(kind),
                worker_id: None,
                lease_expires_at: None,
                updated_at: now,
                version: bumped(self.version),
                ..self
            }
        }
    }

    /// The job after a heartbeat at `now` that moves the end of the lease to
    /// `lease_until`. Only a running job has a lease to extend.
    pub open spec fn heartbeat(self, now: int, lease_until: int) -> JobView {
        if self.status == JobStatus::Running {
            JobView {
                lease_expires_at: Some(lease_until),
                updated_at: now,
                version: bumped(self.version),
                ..self
            }
        } else {
            self
        }
    }

    /// The job after a reclaim sweep at `now`: an abandoned job is pending
    /// again, with its attempt number unchanged.
    pub open spec fn reclaimed(self, now: int) -> JobView {
        if self.lease_expired(now) {
            JobView {
                status: JobStatus::Pending,
                worker_id: None,
                lease_expires_at: None,
                updated_at: now,
                version: bumped(self.version),
                ..self
            }
        } else {
            self
        }
    }

    /// What holds between a job and the same job after any one operation of
    /// the store.
    ///
    /// What a job is stays: its identifier, type, payload, priority, bound on
    /// attempts and time of creation. Attempts and versions never go down,
    /// and an attempt is added only by a retry, one at a time. A job in a
    /// final status, or in `failed`, does not change at all. Nothing but a
    /// claim of a pending job leads into `running`, and only a running job
    /// becomes `succeeded`, `dead_letter` or, by retry or reclaim, `pending`.
    pub open spec fn evolves_to(self, next: JobView) -> bool {
        &&& next.id == self.id
        &&& next.job_type == self.job_type
        &&& next.payload == self.payload
        &&& next.priority == self.priority
        &&& next.max_retries == self.max_retries
        &&& next.created_at == self.created_at
        &&& next.version >= self.version
        &&& next.attempt >= self.attempt
        &&& (next.attempt != self.attempt ==> next.attempt == self.attempt + 1 && self.status
            == JobStatus::Running && next.status == JobStatus::Pending)
        &&& (self.status.is_terminal() || self.status == JobStatus::Failed ==> next == self)
        &&& (next.status != self.status ==> match next.status {
            JobStatus::Running => self.status == JobStatus::Pending,
            JobStatus::Pending => self.status == JobStatus::Running,
            JobStatus::Succeeded => self.status == JobStatus::Running,
            JobStatus::DeadLetter => self.status == JobStatus::Running,
            JobStatus::Failed => false,
        })
    }

    /// Whether a failure reported at `now` can be recorded: it cannot when
    /// the job would be retried at a time that the clock cannot represent.
    pub open spec fn retry_fits(self, kind: FailureKind, now: int) -> bool {
        self.status == JobStatus::Running && will_retry(kind, self.attempt, self.max_retries)
            ==> now + backoff_millis(self.attempt) <= i64::MAX
    }

    /// A succeeded job that was last written before `older_than` may be
    /// deleted.
    pub open spec fn cleanable(self, older_than: int) -> bool {
        self.status == JobStatus::Succeeded && self.updated_at < older_than
    }
}

impl ClaimedJob {
    /// A copy of the claimed job.
    pub fn duplicate(&self) -> (copy: ClaimedJob)
        ensures
            copy@ == self@,
    {
        ClaimedJob {
            id: self.id,
            job_type: self.job_type.clone(),
            payload: clone_payload(&self.payload),
            version: self.version,
            attempt: self.attempt,
        }
    }
}

impl Job {
    /// A newly queued job for the given job spec, due at `run_at`.
    pub fn new(id: u128, payload: Value, spec: &JobSpec, run_at: i64, now: i64) -> (job: Job)
        ensures
            job@ == JobView::fresh(
                id,
                spec.job_type@,
                payload,
                spec.priority as int,
                spec.max_retries as nat,
                run_at as int,
                now as int,
            ),
            job@.wf(),
    {
        Job {
            id,
            job_type: spec.job_type.clone(),
            payload,
            version: 1,
            status: JobStatus::Pending,
            attempt: 1,
            max_retries: spec.max_retries,
            priority: spec.priority,
            run_at,
            worker_id: None,
            lease_expires_at: None,
            error_message: None,
            error_kind: None,
            created_at: now,
            updated_at: now,
        }
    }

    /// Checks the invariant of job records.
    pub fn is_valid(&self) -> (ok: bool)
        ensures
            ok == self@.wf(),
    {
        let running = match self.status {
            JobStatus::Running => true,
            _ => false,
        };
        self.version >= 1 && self.attempt >= 1 && (self.attempt - 1) <= self.max_retries
            && running == self.worker_id.is_some() && running == self.lease_expires_at.is_some()
            && self.error_message.is_some() == self.error_kind.is_some()
    }

    /// Tells whether the job is running.
    pub fn is_running(&self) -> (running: bool)
        ensures
            running == (self@.status == JobStatus::Running),
    {
        match self.status {
            JobStatus::Running => true,
            _ => false,
        }
    }

    /// Tells whether the job can be claimed at `now`.
    pub fn is_ready(&self, now: i64) -> (ready: bool)
        ensures
            ready == self@.ready(now as int),
    {
        match self.status {
            JobStatus::Pending => self.run_at <= now,
            _ => false,
        }
    }

    /// Tells whether the job is running on a lease that ran out before `now`.
    pub fn is_lease_expired(&self, now: i64) -> (expired: bool)
        ensures
            expired == self@.lease_expired(now as int),
    {
        match self.status {
            JobStatus::Running => match self.lease_expires_at {
                Some(until) => until < now,
                None => false,
            },
            _ => false,
        }
    }

    /// Tells whether a cleanup of jobs older than `older_than` deletes the job.
    pub fn is_cleanable(&self, older_than: i64) -> (cleanable: bool)
        ensures
            cleanable == self@.cleanable(older_than as int),
    {
        match self.status {
            JobStatus::Succeeded => self.updated_at < older_than,
            _ => false,
        }
    }

    /// What a worker is handed for this job.
    pub fn ticket(&self) -> (ticket: ClaimedJob)
        ensures
            ticket@ == self@.ticket(),
    {
        ClaimedJob {
            id: self.id,
            job_type: self.job_type.clone(),
            payload: clone_payload(&self.payload),
            version: self.version,
            attempt: self.attempt,
        }
    }

    /// Claims the job for `worker_id` if it is ready at `now`, with a lease
    /// that ends at `lease_until`. Returns whether the job was claimed.
    pub fn claim(&mut self, worker_id: &str, now: i64, lease_until: i64) -> (claimed: bool)
        ensures
            final(self)@ == old(self)@.claimed(worker_id@, now as int, lease_until as int),
            claimed == old(self)@.ready(now as int),
            old(self)@.wf() ==> final(self)@.wf(),
    {
        if self.is_ready(now) {
            self.status = JobStatus::Running;
            self.worker_id = Some(worker_id.to_owned());
            self.lease_expires_at = Some(lease_until);
            self.updated_at = now;
            self.version = bump_version(self.version);
            true
        } else {
            false
        }
    }

    /// Records that the job's worker succeeded at `now`. Returns whether the
    /// job was running, and so changed.
    pub fn succeed(&mut self, now: i64) -> (changed: bool)
        ensures
            final(self)@ == old(self)@.succeeded(now as int),
            changed == (old(self)@.status == JobStatus::Running),
            old(self)@.wf() ==> final(self)@.wf(),
    {
        match self.status {
            JobStatus::Running => {
                self.status = JobStatus::Succeeded;
                self.worker_id = None;
                self.lease_expires_at = None;
                self.updated_at = now;
                self.version = bump_version(self.version);
                true
            },
            _ => false,
        }
    }

    /// Records that the job's worker failed at `now` with the given error.
    ///
    /// Returns whether the job was running, and so changed. The one error is
    /// a retry whose due time the clock cannot represent; the job is then
    /// left as it was.
    pub fn fail(&mut self, error: &str, kind: FailureKind, now: i64) -> (changed: Result<
        bool,
        StoreError,
    >)
        ensures
            old(self)@.retry_fits(kind, now as int) ==> changed == Ok::<bool, StoreError>(
                old(self)@.status == JobStatus::Running,
            ) && final(self)@ == old(self)@.failed(error@, kind, now as int),
            !old(self)@.retry_fits(kind, now as int) ==> changed == Err::<bool, StoreError>(
                StoreError::TimeOutOfRange,
            ) && *final(self) == *old(self),
            old(self)@.wf() ==> final(self)@.wf(),
    {
        match self.status {
            JobStatus::Running => {},
            _ => {
                return Ok(false);
            },
        }
        match failure_outcome(kind, self.attempt, self.max_retries) {
            FailureOutcome::Retry { delay_millis, next_attempt } => {
                let run_at = match deadline(now, delay_millis) {
                    Ok(at) => at,
                    Err(e) => {
                        return Err(e);
                    },
                };
                self.status = JobStatus::Pending;
                self.run_at = run_at;
                self.attempt = next_attempt;
                self.error_kind = Some(FailureKind::Retryable);
            },
            FailureOutcome::DeadLetter => {
                self.status = JobStatus::DeadLetter;
                self.error_kind = Some(kind);
            },
        }
        self.error_message = Some(error.to_owned());
        self.worker_id = None;
        self.lease_expires_at = None;
        self.updated_at = now;
        self.version = bump_version(self.version);
        Ok(true)
    }

    /// Extends the lease of a running job to `lease_until`. Returns whether
    /// the job was running, and so changed.
    pub fn heartbeat(&mut self, now: i64, lease_until: i64) -> (changed: bool)
        ensures
            final(self)@ == old(self)@.heartbeat(now as int, lease_until as int),
            changed == (old(self)@.status == JobStatus::Running),
            old(self)@.wf() ==> final(self)@.wf(),
    {
        match self.status {
            JobStatus::Running => {
                self.lease_expires_at = Some(lease_until);
                self.updated_at = now;
                self.version = bump_version(self.version);
                true
            },
            _ => false,
        }
    }

    /// Makes the job pending again if it is running on a lease that ran out
    /// before `now`. Returns whether it was.
    pub fn reclaim(&mut self, now: i64) -> (changed: bool)
        ensures
            final(self)@ == old(self)@.reclaimed(now as int),
            changed == old(self)@.lease_expired(now as int),
            old(self)@.wf() ==> final(self)@.wf(),
    {
        if self.is_lease_expired(now) {
            self.status = JobStatus::Pending;
            self.worker_id = None;
            self.lease_expires_at = None;
            self.updated_at = now;
            self.version = bump_version(self.version);
            true
        } else {
            false
        }
    }
}

/// Every transition of a job keeps the invariant of job records and obeys
/// [`JobView::evolves_to`].
pub proof fn lemma_transitions(
    job: JobView,
    worker: Seq<char>,
    error: Seq<char>,
    kind: FailureKind,
    now: int,
    lease_until: int,
)
    ensures
        job.evolves_to(job),
        job.evolves_to(job.claimed(worker, now, lease_until)),
        job.evolves_to(job.succeeded(now)),
        job.evolves_to(job.failed(error, kind, now)),
        job.evolves_to(job.heartbeat(now, lease_until)),
        job.evolves_to(job.reclaimed(now)),
        job.wf() ==> {
            &&& job.claimed(worker, now, lease_until).wf()
            &&& job.succeeded(now).wf()
            &&& job.failed(error, kind, now).wf()
            &&& job.heartbeat(now, lease_until).wf()
            &&& job.reclaimed(now).wf()
        },
{
}

/// What becomes of a running job whose attempt has failed.
#[derive(Clone, Copy, Debug, PartialEq, Eq, Structural)]
pub enum FailureOutcome {
    /// The job is tried again as attempt `next_attempt`, once `delay_millis`
    /// have passed.
    Retry { delay_millis: i64, next_attempt: u32 },
    /// The job is dead-lettered.
    DeadLetter,
}

/// Decides what becomes of a running job whose attempt number `attempt` has
/// failed with a failure of the given kind.
pub fn failure_outcome(kind: FailureKind, attempt: u32, max_retries: u32) -> (outcome:
    FailureOutcome)
    ensures
        will_retry(kind, attempt as nat, max_retries as nat) ==> outcome == (FailureOutcome::Retry {
            delay_millis: backoff_millis(attempt as nat) as i64,
            next_attempt: (attempt + 1) as u32,
        }),
        !will_retry(kind, attempt as nat, max_retries as nat) ==> outcome
            == FailureOutcome::DeadLetter,
        outcome matches FailureOutcome::Retry { delay_millis, next_attempt } ==> 1000
            <= delay_millis <= 3_600_000 && next_attempt <= max_retries,
{
    match kind {
        FailureKind::Retryable => {
            if attempt < max_retries {
                FailureOutcome::Retry {
                    delay_millis: backoff_delay_millis(attempt),
                    next_attempt: attempt + 1,
                }
            } else {
                FailureOutcome::DeadLetter
            }
        },
        FailureKind::NonRetryable => FailureOutcome::DeadLetter,
    }
}

/// The moment `span` milliseconds after `start`, where the clock can
/// represent it.
pub fn deadline(start: i64, span: i64) -> (end: Result<i64, StoreError>)
    ensures
        i64::MIN <= start + span <= i64::MAX ==> end == Ok::<i64, StoreError>((start + span) as i64),
        !(i64::MIN <= start + span <= i64::MAX) ==> end == Err::<i64, StoreError>(
            StoreError::TimeOutOfRange,
        ),
{
    match start.checked_add(span) {
        Some(end) => Ok(end),
        None => Err(StoreError::TimeOutOfRange),
    }
}

/// The version after one more write.
pub fn bump_version(version: u64) -> (next: u64)
    ensures
        next == bumped(version as nat),
{
    if version < u64::MAX {
        version + 1
    } else {
        version
    }
}

} // verus!
