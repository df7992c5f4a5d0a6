//! The job store: a table of job records with the claim, retry, lease and
//! dead-letter protocol.
//!
//! Every operation comes in two forms. The form that ends in `_at` (or
//! `_with`) takes the current time, and for a new job its identifier, as
//! arguments, and its contract says exactly what it does. The short form
//! reads the clock, and draws the identifier, and then does the same; its
//! contract says so for some time that the clock can show, and says when
//! success is owed whatever the clock reads.
//!
//! A store is used by one caller at a time (`&mut self`), so that every
//! operation is atomic and the operations on a store are totally ordered.

use crate::error::StoreError;
use crate::backoff::backoff_millis;
use crate::laws::{
    lemma_filter_jobs, lemma_heartbeat_lost_lease, lemma_job_at, lemma_retry_backoff,
    lemma_stats_total,
};
use crate::job::{
    deadline, will_retry, ClaimedJob, ClaimedJobView, FailureKind, Job, JobSpec, JobStatus,
    JobView,
};
use crate::platform::{clock_reading, fresh_id, now_millis};
use crate::table::{lemma_claim_batch_saturated, lemma_next_is, QueueStatsView, StoreView};
use serde_json::Value;
use vstd::prelude::*;

verus! {

/// The length of a lease where none is given: one minute.
pub const DEFAULT_LEASE_MS: i64 = 60_000;

/// The number of jobs in each status.
#[derive(Debug, Clone, Copy)]
pub struct QueueStats {
    pub pending: i64,
    pub running: i64,
    pub succeeded: i64,
    pub failed: i64,
    pub dead_letter: i64,
}

impl View for QueueStats {
    type V = QueueStatsView;

    open spec fn view(&self) -> QueueStatsView {
        QueueStatsView {
            pending: self.pending as int,
            running: self.running as int,
            succeeded: self.succeeded as int,
            failed: self.failed as int,
            dead_letter: self.dead_letter as int,
        }
    }
}

/// An in-memory job store.
pub struct JobStore {
    jobs: Vec<Job>,
    lease_ms: i64,
}

/// The views of a sequence of jobs.
pub open spec fn job_views(jobs: Seq<Job>) -> Seq<JobView> {
    jobs.map_values(|j: Job| j@)
}

/// The views of a sequence of claimed jobs.
pub open spec fn ticket_views(tickets: Seq<ClaimedJob>) -> Seq<ClaimedJobView> {
    tickets.map_values(|t: ClaimedJob| t@)
}

/// The answer to a claim, with the claimed jobs as mathematical values.
pub open spec fn claim_answer(res: Result<Vec<ClaimedJob>, StoreError>) -> Result<
    Seq<ClaimedJobView>,
    StoreError,
> {
    match res {
        Ok(tickets) => Ok(ticket_views(tickets@)),
        Err(e) => Err(e),
    }
}

/// The answer to a sweep that counted `n` jobs.
pub open spec fn count_answer(n: nat) -> Result<u64, StoreError> {
    Ok(n as u64)
}

impl View for JobStore {
    type V = StoreView;

    closed spec fn view(&self) -> StoreView {
        StoreView { jobs: job_views(self.jobs@), lease_ms: self.lease_ms as int }
    }
}

impl JobStore {
    /// An empty store with leases of one minute.
    pub fn new() -> (store: JobStore)
        ensures
            store@ == StoreView::empty(DEFAULT_LEASE_MS as int),
            store@.wf(),
    {
        let store = JobStore { jobs: Vec::new(), lease_ms: DEFAULT_LEASE_MS };
        assert(store@.jobs =~= Seq::empty());
        store
    }

    /// An empty store with leases of `lease_ms` milliseconds.
    pub fn with_lease_timeout(lease_ms: i64) -> (store: JobStore)
        ensures
            store@ == StoreView::empty(lease_ms as int),
            store@.wf(),
    {
        let store = JobStore { jobs: Vec::new(), lease_ms };
        assert(store@.jobs =~= Seq::empty());
        store
    }

    /// The length of the leases that the store hands out, in milliseconds.
    pub fn lease_ms(&self) -> (lease_ms: i64)
        ensures
            lease_ms == self@.lease_ms,
    {
        self.lease_ms
    }

    /// The stored jobs, in the order in which they were inserted.
    pub fn jobs(&self) -> (all: &Vec<Job>)
        ensures
            job_views(all@) == self@.jobs,
    {
        &self.jobs
    }

    /// The number of stored jobs.
    pub fn len(&self) -> (n: usize)
        ensures
            n == self@.jobs.len(),
    {
        self.jobs.len()
    }

    /// The position of the job with the given identifier.
    fn find(&self, id: u128) -> (found: Option<usize>)
        ensures
            match found {
                Some(i) => i < self@.jobs.len() && self@.jobs[i as int].id == id,
                None => !self@.has(id),
            },
    {
        let mut i: usize = 0;
        while i < self.jobs.len()
            invariant
                i <= self.jobs.len(),
                forall|k: int| 0 <= k < i ==> (#[trigger] self@.jobs[k]).id != id,
            decreases self.jobs.len() - i,
        {
            if self.jobs[i].id == id {
                return Some(i);
            }
            i = i + 1;
        }
        None
    }

    /// Inserts a record as it is given.
    ///
    /// The record is turned down when it breaks the invariant of job records,
    /// when its identifier is taken, or when the store is full.
    pub fn insert(&mut self, job: Job) -> (res: Result<u128, StoreError>)
        requires
            old(self)@.wf(),
        ensures
            (final(self)@, res) == old(self)@.insert_result(job@),
            final(self)@.wf(),
    {
        if !job.is_valid() {
            return Err(StoreError::InvalidJob);
        }
        if self.find(job.id).is_some() {
            return Err(StoreError::DuplicateId);
        }
        if self.jobs.len() as u64 >= i64::MAX as u64 {
            return Err(StoreError::Full);
        }
        let id = job.id;
        let ghost before = self.jobs@;
        self.jobs.push(job);
        proof {
            assert(job_views(self.jobs@) =~= job_views(before).push(job@));
        }
        Ok(id)
    }

    /// Queues a command under the given identifier, due at once.
    ///
    /// The new job is pending, on its first attempt, with `run_at` equal to
    /// `now` and priority and attempts as the job spec says.
    pub fn enqueue_with(&mut self, id: u128, payload: Value, spec: JobSpec, now: i64) -> (res:
        Result<u128, StoreError>)
        requires
            old(self)@.wf(),
        ensures
            (final(self)@, res) == old(self)@.insert_result(
                JobView::fresh(
                    id,
                    spec.job_type@,
                    payload,
                    spec.priority as int,
                    spec.max_retries as nat,
                    now as int,
                    now as int,
                ),
            ),
            final(self)@.wf(),
    {
        self.insert(Job::new(id, payload, &spec, now, now))
    }

    /// Queues a command under the given identifier, due at `run_at`.
    pub fn schedule_with(
        &mut self,
        id: u128,
        payload: Value,
        spec: JobSpec,
        run_at: i64,
        now: i64,
    ) -> (res: Result<u128, StoreError>)
        requires
            old(self)@.wf(),
        ensures
            (final(self)@, res) == old(self)@.insert_result(
                JobView::fresh(
                    id,
                    spec.job_type@,
                    payload,
                    spec.priority as int,
                    spec.max_retries as nat,
                    run_at as int,
                    now as int,
                ),
            ),
            final(self)@.wf(),
    {
        self.insert(Job::new(id, payload, &spec, run_at, now))
    }

    /// Records that the worker of job `job_id` succeeded at `now`.
    ///
    /// A running job becomes `succeeded` and loses its worker and lease. A
    /// job that is not running, or not stored, is left alone.
    pub fn mark_succeeded_at(&mut self, job_id: u128, now: i64) -> (res: Result<(), StoreError>)
        requires
            old(self)@.wf(),
        ensures
            (final(self)@, res) == old(self)@.succeed_result(job_id, now as int),
            final(self)@.wf(),
    {
        match self.find(job_id) {
            Some(i) => {
                self.jobs[i].succeed(now);
                proof {
                    assert(self@.jobs =~= old(self)@.succeeded(job_id, now as int).jobs);
                }
            },
            None => {
                proof {
                    assert(self@.jobs =~= old(self)@.succeeded(job_id, now as int).jobs);
                }
            },
        }
        Ok(())
    }

    /// Records that the worker of job `job_id` failed at `now`.
    ///
    /// A running job is retried after a backoff if the failure is retryable
    /// and attempts are left, and is dead-lettered otherwise. A job that is
    /// not running is left alone. It is an error if no such job is stored,
    /// or if the retry would be due at a time that the clock cannot
    /// represent.
    pub fn mark_failed_at(&mut self, job_id: u128, error: &str, kind: FailureKind, now: i64) -> (res:
        Result<(), StoreError>)
        requires
            old(self)@.wf(),
        ensures
            (final(self)@, res) == old(self)@.fail_result(job_id, error@, kind, now as int),
            res is Ok && old(self)@.holds(job_id) && will_retry(
                kind,
                old(self)@.job(job_id).attempt,
                old(self)@.job(job_id).max_retries,
            ) ==> {
                &&& final(self)@.has(job_id)
                &&& final(self)@.job(job_id).status == JobStatus::Pending
                &&& final(self)@.job(job_id).attempt == old(self)@.job(job_id).attempt + 1
                &&& final(self)@.job(job_id).run_at - now == backoff_millis(
                    old(self)@.job(job_id).attempt,
                )
                &&& 1000 <= final(self)@.job(job_id).run_at - now <= 3_600_000
            },
            final(self)@.wf(),
    {
        proof {
            if self@.holds(job_id) && will_retry(
                kind,
                self@.job(job_id).attempt,
                self@.job(job_id).max_retries,
            ) {
                lemma_retry_backoff(self@, job_id, error@, kind, now as int);
            }
        }
        match self.find(job_id) {
            Some(i) => {
                assert(self@.jobs[i as int].id == job_id);
                match self.jobs[i].fail(error, kind, now) {
                    Ok(_) => {
                        proof {
                            assert(self@.jobs =~= old(self)@.failed(
                                job_id,
                                error@,
                                kind,
                                now as int,
                            ).jobs);
                        }
                        Ok(())
                    },
                    Err(e) => {
                        proof {
                            assert(self@.jobs =~= old(self)@.jobs);
                        }
                        Err(e)
                    },
                }
            },
            None => Err(StoreError::JobNotFound),
        }
    }

    /// Extends the lease of job `job_id` to one lease length after `now`.
    ///
    /// Only a running job has a lease: for any other job, and for an
    /// identifier that is not stored, nothing happens, and that is no error.
    /// For a running job it is an error if the new end of the lease is a
    /// time that cannot be represented.
    pub fn heartbeat_at(&mut self, job_id: u128, now: i64) -> (res: Result<(), StoreError>)
        requires
            old(self)@.wf(),
        ensures
            (final(self)@, res) == old(self)@.heartbeat_result(job_id, now as int),
            !old(self)@.holds(job_id) ==> res is Ok && final(self)@ == old(self)@,
            final(self)@.wf(),
    {
        proof {
            if !self@.holds(job_id) {
                lemma_heartbeat_lost_lease(self@, job_id, now as int);
            }
        }
        match self.find(job_id) {
            Some(i) => {
                proof {
                    lemma_job_at(self@, i as int);
                }
                if self.jobs[i].is_running() {
                    let lease_until = match deadline(now, self.lease_ms) {
                        Ok(t) => t,
                        Err(e) => {
                            return Err(e);
                        },
                    };
                    self.jobs[i].heartbeat(now, lease_until);
                }
            },
            None => {},
        }
        proof {
            assert(self@.jobs =~= old(self)@.heartbeat(job_id, now as int).jobs);
        }
        Ok(())
    }

    /// Makes every running job whose lease ran out before `now` pending
    /// again, and returns how many there were. Attempt numbers stay as they
    /// are: a reclaim is a handoff, not a failure.
    pub fn reclaim_expired_at(&mut self, now: i64) -> (res: Result<u64, StoreError>)
        requires
            old(self)@.wf(),
        ensures
            res == count_answer(old(self)@.reclaim_result(now as int).1),
            final(self)@ == old(self)@.reclaim_result(now as int).0,
            final(self)@.wf(),
    {
        let mut count: u64 = 0;
        let mut i: usize = 0;
        let ghost before = self@;
        let ghost expired = |j: JobView| j.lease_expired(now as int);
        proof {
            assert(before.jobs.take(0) =~= Seq::empty());
            reveal(Seq::filter);
        }
        while i < self.jobs.len()
            invariant
                i <= self.jobs.len(),
                before == old(self)@,
                before.wf(),
                self@.lease_ms == before.lease_ms,
                self@.jobs.len() == before.jobs.len(),
                expired == (|j: JobView| j.lease_expired(now as int)),
                forall|k: int| 0 <= k < i ==> #[trigger] self@.jobs[k] == before.jobs[k].reclaimed(now as int),
                forall|k: int| i <= k < self@.jobs.len() ==> #[trigger] self@.jobs[k] == before.jobs[k],
                count == before.jobs.take(i as int).filter(expired).len(),
                count <= i,
            decreases self.jobs.len() - i,
        {
            let ghost mid = self@;
            assert(mid.jobs[i as int] == before.jobs[i as int]);
            let changed = self.jobs[i].reclaim(now);
            proof {
                let prefix = before.jobs.take(i + 1);
                assert(prefix.drop_last() =~= before.jobs.take(i as int));
                assert(prefix.last() == before.jobs[i as int]);
                assert(expired(prefix.last()) == changed);
                reveal(Seq::filter);
                assert(prefix.filter(expired).len() == before.jobs.take(i as int).filter(
                    expired,
                ).len() + if changed {
                    1int
                } else {
                    0int
                });
                assert(self@.jobs[i as int] == before.jobs[i as int].reclaimed(now as int));
                assert(forall|k: int|
                    0 <= k < self@.jobs.len() && k != i ==> #[trigger] self@.jobs[k]
                        == mid.jobs[k]);
            }
            if changed {
                count = count + 1;
            }
            i = i + 1;
        }
        proof {
            assert(before.jobs.take(i as int) =~= before.jobs);
            assert(self@.jobs =~= before.reclaimed(now as int).jobs);
        }
        Ok(count)
    }

    /// Deletes the succeeded jobs that were last written before `older_than`
    /// and returns how many there were. The other jobs keep their order.
    pub fn cleanup_succeeded(&mut self, older_than: i64) -> (res: Result<u64, StoreError>)
        requires
            old(self)@.wf(),
        ensures
            res == count_answer(old(self)@.cleanup_result(older_than as int).1),
            final(self)@ == old(self)@.cleanup_result(older_than as int).0,
            final(self)@.wf(),
    {
        let mut removed: u64 = 0;
        let mut i: usize = 0;
        let ghost before = self@;
        let ghost done: int = 0;
        let ghost gone = |j: JobView| j.cleanable(older_than as int);
        let ghost kept = |j: JobView| !j.cleanable(older_than as int);
        proof {
            assert(before.jobs.take(0) =~= Seq::empty());
            assert(before.jobs.skip(0) =~= before.jobs);
            reveal(Seq::filter);
        }
        while i < self.jobs.len()
            invariant
                before == old(self)@,
                before.wf(),
                self@.lease_ms == before.lease_ms,
                gone == (|j: JobView| j.cleanable(older_than as int)),
                kept == (|j: JobView| !j.cleanable(older_than as int)),
                0 <= done <= before.jobs.len(),
                done == i + removed,
                i == before.jobs.take(done).filter(kept).len(),
                removed == before.jobs.take(done).filter(gone).len(),
                self@.jobs == before.jobs.take(done).filter(kept) + before.jobs.skip(done),
            decreases self.jobs.len() - i,
        {
            proof {
                let prefix = before.jobs.take(done + 1);
                assert(prefix.drop_last() =~= before.jobs.take(done));
                assert(prefix.last() == before.jobs[done]);
                assert(self@.jobs[i as int] == before.jobs.skip(done)[0]);
                assert(kept(prefix.last()) == !gone(prefix.last()));
                reveal(Seq::filter);
            }
            let ghost mid = self.jobs@;
            if self.jobs[i].is_cleanable(older_than) {
                self.jobs.remove(i);
                removed = removed + 1;
                proof {
                    assert(job_views(self.jobs@) =~= job_views(mid).remove(i as int));
                    assert(self@.jobs =~= before.jobs.take(done + 1).filter(kept)
                        + before.jobs.skip(done + 1));
                }
            } else {
                i = i + 1;
                proof {
                    assert(self@.jobs =~= before.jobs.take(done + 1).filter(kept)
                        + before.jobs.skip(done + 1));
                }
            }
            proof {
                done = done + 1;
            }
        }
        proof {
            assert(done == before.jobs.len());
            assert(before.jobs.take(done) =~= before.jobs);
            assert(self@.jobs =~= before.jobs.filter(kept));
            lemma_filter_jobs(before.jobs, kept);
        }
        Ok(removed)
    }

    /// Counts the jobs with the given status.
    fn count_status(&self, status: JobStatus) -> (n: i64)
        requires
            self@.wf(),
        ensures
            n == self@.count(status),
    {
        let mut n: i64 = 0;
        let mut i: usize = 0;
        let ghost pred = |j: JobView| j.status == status;
        proof {
            assert(self@.jobs.take(0) =~= Seq::empty());
            reveal(Seq::filter);
        }
        while i < self.jobs.len()
            invariant
                i <= self.jobs.len(),
                self@.jobs.len() <= i64::MAX,
                pred == (|j: JobView| j.status == status),
                n == self@.jobs.take(i as int).filter(pred).len(),
                0 <= n <= i,
            decreases self.jobs.len() - i,
        {
            proof {
                let prefix = self@.jobs.take(i + 1);
                assert(prefix.drop_last() =~= self@.jobs.take(i as int));
                assert(prefix.last() == self@.jobs[i as int]);
                reveal(Seq::filter);
            }
            if self.jobs[i].status == status {
                n = n + 1;
            }
            i = i + 1;
        }
        proof {
            assert(self@.jobs.take(i as int) =~= self@.jobs);
        }
        n
    }

    /// Counts the jobs in each status.
    pub fn stats(&self) -> (res: Result<QueueStats, StoreError>)
        requires
            self@.wf(),
        ensures
            res matches Ok(stats) && {
                &&& stats.pending == self@.count(JobStatus::Pending)
                &&& stats.running == self@.count(JobStatus::Running)
                &&& stats.succeeded == self@.count(JobStatus::Succeeded)
                &&& stats.failed == self@.count(JobStatus::Failed)
                &&& stats.dead_letter == self@.count(JobStatus::DeadLetter)
                &&& stats@ == self@.stats()
                &&& stats.pending + stats.running + stats.succeeded + stats.failed
                    + stats.dead_letter == self@.jobs.len()
            },
    {
        proof {
            lemma_stats_total(self@);
        }
        Ok(
            QueueStats {
                pending: self.count_status(JobStatus::Pending),
                running: self.count_status(JobStatus::Running),
                succeeded: self.count_status(JobStatus::Succeeded),
                failed: self.count_status(JobStatus::Failed),
                dead_letter: self.count_status(JobStatus::DeadLetter),
            },
        )
    }

    /// The position of the job to claim next at `now`, if any job is ready.
    fn next_ready(&self, now: i64) -> (found: Option<usize>)
        ensures
            match found {
                Some(i) => self@.is_next(now as int, i as int),
                None => !self@.has_ready(now as int),
            },
    {
        let mut best: Option<usize> = None;
        let mut i: usize = 0;
        while i < self.jobs.len()
            invariant
                i <= self.jobs.len(),
                match best {
                    Some(b) => {
                        &&& b < i
                        &&& self@.jobs[b as int].ready(now as int)
                        &&& forall|j: int|
                            0 <= j < i && j != b && (#[trigger] self@.jobs[j]).ready(now as int)
                                ==> self@.goes_before(b as int, j)
                    },
                    None => forall|j: int| 0 <= j < i ==> !(#[trigger] self@.jobs[j]).ready(now as int),
                },
            decreases self.jobs.len() - i,
        {
            if self.jobs[i].is_ready(now) {
                let better = match best {
                    Some(b) => self.jobs[i].priority < self.jobs[b].priority || (
                    self.jobs[i].priority == self.jobs[b].priority && self.jobs[i].run_at
                        < self.jobs[b].run_at),
                    None => true,
                };
                if better {
                    best = Some(i);
                }
            }
            i = i + 1;
        }
        best
    }

    /// Claims up to `limit` ready jobs for `worker_id` at `now`.
    ///
    /// A job is ready when it is pending and due. Ready jobs are claimed in
    /// order of priority (smaller first), then due time (earlier first), then
    /// insertion. Each claimed job becomes `running` under the worker's name
    /// with a lease of one lease length from `now`. The claimed jobs are
    /// returned in the order in which they were claimed.
    ///
    /// It is an error if the lease would end at a time that the clock cannot
    /// represent, or if the limit is negative.
    pub fn claim_ready_at(&mut self, worker_id: &str, limit: i64, now: i64) -> (res: Result<
        Vec<ClaimedJob>,
        StoreError,
    >)
        requires
            old(self)@.wf(),
        ensures
            (final(self)@, claim_answer(res)) == old(self)@.claim_result(
                worker_id@,
                limit as int,
                now as int,
            ),
            final(self)@.lease_ms == old(self)@.lease_ms,
            final(self)@.jobs.len() == old(self)@.jobs.len(),
            final(self)@.wf(),
    {
        let lease_until = match deadline(now, self.lease_ms) {
            Ok(t) => t,
            Err(e) => {
                return Err(e);
            },
        };
        if limit < 0 {
            return Err(StoreError::InvalidLimit);
        }
        let ghost before = self@;
        let ghost worker = worker_id@;
        let mut tickets: Vec<ClaimedJob> = Vec::new();
        let mut taken: i64 = 0;
        proof {
            assert(ticket_views(tickets@) =~= Seq::empty());
        }
        loop
            invariant_except_break
                0 <= taken <= limit,
                (self@, ticket_views(tickets@)) == before.claim_batch(
                    worker,
                    taken as nat,
                    now as int,
                ),
            invariant
                before == old(self)@,
                worker == worker_id@,
                self@.wf(),
                self@.lease_ms == before.lease_ms,
                self@.jobs.len() == before.jobs.len(),
                lease_until == before.lease_until(now as int),
            ensures
                (self@, ticket_views(tickets@)) == before.claim_batch(
                    worker,
                    limit as nat,
                    now as int,
                ),
            decreases limit - taken,
        {
            if taken >= limit {
                break ;
            }
            match self.next_ready(now) {
                None => {
                    proof {
                        lemma_claim_batch_saturated(
                            before,
                            worker,
                            taken as nat,
                            limit as nat,
                            now as int,
                        );
                    }
                    break ;
                },
                Some(i) => {
                    let ghost mid = self@;
                    let ghost got = tickets@;
                    proof {
                        lemma_next_is(mid, now as int, i as int);
                    }
                    self.jobs[i].claim(worker_id, now, lease_until);
                    let ticket = self.jobs[i].ticket();
                    tickets.push(ticket);
                    taken = taken + 1;
                    proof {
                        assert(self@.jobs =~= mid.claimed_at(i as int, worker, now as int).jobs);
                        assert(ticket_views(tickets@) =~= ticket_views(got).push(
                            self@.jobs[i as int].ticket(),
                        ));
                    }
                },
            }
        }
        Ok(tickets)
    }

    /// Queues a command, due at once, under a newly drawn identifier, and
    /// returns the identifier.
    ///
    /// This is [`JobStore::enqueue_with`] for some identifier and the
    /// clock's reading.
    pub fn enqueue(&mut self, payload: Value, spec: JobSpec) -> (res: Result<u128, StoreError>)
        requires
            old(self)@.wf(),
        ensures
            exists|id: u128, now: int|
                clock_reading(now) && (final(self)@, res) == old(self)@.insert_result(
                    #[trigger] JobView::fresh(
                        id,
                        spec.job_type@,
                        payload,
                        spec.priority as int,
                        spec.max_retries as nat,
                        now,
                        now,
                    ),
                ),
            final(self)@.wf(),
    {
        let id = fresh_id();
        let now = now_millis();
        self.enqueue_with(id, payload, spec, now)
    }

    /// Queues a command, due at `run_at`, under a newly drawn identifier,
    /// and returns the identifier.
    ///
    /// This is [`JobStore::schedule_with`] for some identifier and the
    /// clock's reading.
    pub fn schedule(&mut self, payload: Value, spec: JobSpec, run_at: i64) -> (res: Result<
        u128,
        StoreError,
    >)
        requires
            old(self)@.wf(),
        ensures
            exists|id: u128, now: int|
                clock_reading(now) && (final(self)@, res) == old(self)@.insert_result(
                    #[trigger] JobView::fresh(
                        id,
                        spec.job_type@,
                        payload,
                        spec.priority as int,
                        spec.max_retries as nat,
                        run_at as int,
                        now,
                    ),
                ),
            final(self)@.wf(),
    {
        let id = fresh_id();
        let now = now_millis();
        self.schedule_with(id, payload, spec, run_at, now)
    }

    /// Claims up to `limit` ready jobs for `worker_id`.
    ///
    /// This is [`JobStore::claim_ready_at`] for the clock's reading.
    pub fn claim_ready(&mut self, worker_id: &str, limit: i64) -> (res: Result<
        Vec<ClaimedJob>,
        StoreError,
    >)
        requires
            old(self)@.wf(),
        ensures
            exists|now: int|
                clock_reading(now) && (final(self)@, claim_answer(res)) == #[trigger] old(
                    self,
                )@.claim_result(worker_id@, limit as int, now),
            final(self)@.lease_ms == old(self)@.lease_ms,
            final(self)@.jobs.len() == old(self)@.jobs.len(),
            old(self)@.leases_fit() && limit >= 0 ==> res is Ok,
            old(self)@.leases_fit() && limit < 0 ==> res == Err::<Vec<ClaimedJob>, StoreError>(
                StoreError::InvalidLimit,
            ) && final(self)@ == old(self)@,
            final(self)@.wf(),
    {
        let now = now_millis();
        self.claim_ready_at(worker_id, limit, now)
    }

    /// Records that the worker of job `job_id` succeeded.
    ///
    /// This is [`JobStore::mark_succeeded_at`] for the clock's reading.
    pub fn mark_succeeded(&mut self, job_id: u128) -> (res: Result<(), StoreError>)
        requires
            old(self)@.wf(),
        ensures
            exists|now: int|
                clock_reading(now) && (final(self)@, res) == #[trigger] old(self)@.succeed_result(
                    job_id,
                    now,
                ),
            res is Ok,
            final(self)@.wf(),
    {
        let now = now_millis();
        self.mark_succeeded_at(job_id, now)
    }

    /// Records that the worker of job `job_id` failed with the given error.
    ///
    /// This is [`JobStore::mark_failed_at`] for the clock's reading.
    pub fn mark_failed(&mut self, job_id: u128, error: &str, kind: FailureKind) -> (res: Result<
        (),
        StoreError,
    >)
        requires
            old(self)@.wf(),
        ensures
            exists|now: int|
                clock_reading(now) && (final(self)@, res) == #[trigger] old(self)@.fail_result(
                    job_id,
                    error@,
                    kind,
                    now,
                ),
            old(self)@.has(job_id) ==> res is Ok,
            !old(self)@.has(job_id) ==> res == Err::<(), StoreError>(StoreError::JobNotFound)
                && final(self)@ == old(self)@,
            final(self)@.wf(),
    {
        let now = now_millis();
        self.mark_failed_at(job_id, error, kind, now)
    }

    /// Extends the lease of job `job_id`.
    ///
    /// This is [`JobStore::heartbeat_at`] for the clock's reading.
    pub fn heartbeat(&mut self, job_id: u128) -> (res: Result<(), StoreError>)
        requires
            old(self)@.wf(),
        ensures
            exists|now: int|
                clock_reading(now) && (final(self)@, res) == #[trigger] old(self)@.heartbeat_result(
                    job_id,
                    now,
                ),
            old(self)@.leases_fit() || !old(self)@.holds(job_id) ==> res is Ok,
            !old(self)@.holds(job_id) ==> final(self)@ == old(self)@,
            final(self)@.wf(),
    {
        let now = now_millis();
        self.heartbeat_at(job_id, now)
    }

    /// Makes every running job whose lease has run out pending again, and
    /// returns how many there were.
    ///
    /// This is [`JobStore::reclaim_expired_at`] for the clock's reading.
    pub fn reclaim_expired(&mut self) -> (res: Result<u64, StoreError>)
        requires
            old(self)@.wf(),
        ensures
            exists|now: int|
                clock_reading(now) && final(self)@ == (#[trigger] old(self)@.reclaim_result(now)).0 && res
                    == count_answer(old(self)@.reclaim_result(now).1),
            res is Ok,
            final(self)@.wf(),
    {
        let now = now_millis();
        self.reclaim_expired_at(now)
    }

    /// Tells whether a job with the given identifier is stored.
    pub fn contains(&self, id: u128) -> (found: bool)
        ensures
            found == self@.has(id),
    {
        self.find(id).is_some()
    }

    /// The job with the given identifier.
    pub fn get(&self, id: u128) -> (found: Option<&Job>)
        requires
            self@.wf(),
        ensures
            match found {
                Some(job) => self@.has(id) && job@ == self@.job(id),
                None => !self@.has(id),
            },
    {
        match self.find(id) {
            Some(i) => {
                assert(self@.jobs[i as int].id == id);
                Some(&self.jobs[i])
            },
            None => None,
        }
    }
}

} // verus!
