//! The job table as a mathematical value, and what each operation of the
//! store does to it.
//!
//! The table is a sequence of job records in the order in which they were
//! inserted. The functions here say what [`crate::store::JobStore`] does;
//! the laws that follow from them are proved in [`crate::laws`].

use crate::error::StoreError;
use crate::job::{ClaimedJobView, FailureKind, JobStatus, JobView};
use crate::platform::MAX_CLOCK_MILLIS;
use vstd::prelude::*;

verus! {

/// The mathematical value of a job store: its table and the length of the
/// leases it hands out, in milliseconds.
pub struct StoreView {
    pub jobs: Seq<JobView>,
    pub lease_ms: int,
}

/// The number of jobs in each status, as a mathematical value.
pub struct QueueStatsView {
    pub pending: int,
    pub running: int,
    pub succeeded: int,
    pub failed: int,
    pub dead_letter: int,
}

/// An operation of the store, with its arguments.
pub enum StoreOp {
    Insert { job: JobView },
    Claim { worker: Seq<char>, limit: int, now: int },
    Succeed { id: u128, now: int },
    Fail { id: u128, error: Seq<char>, kind: FailureKind, now: int },
    Heartbeat { id: u128, now: int },
    Reclaim { now: int },
    Cleanup { older_than: int },
}

/// One call of a claim: who asks, for how many jobs, and when.
pub struct ClaimRequest {
    pub worker: Seq<char>,
    pub limit: int,
    pub now: int,
}

/// What a claim handed out: the claimed jobs, or nothing where the claim was
/// turned down.
pub open spec fn handed_out(answer: Result<Seq<ClaimedJobView>, StoreError>) -> Seq<
    ClaimedJobView,
> {
    match answer {
        Ok(tickets) => tickets,
        Err(_) => Seq::empty(),
    }
}

impl StoreView {
    /// The invariant of job stores: every record is well formed, no two
    /// records share an identifier, and the records can be counted.
    pub open spec fn wf(self) -> bool {
        &&& self.jobs.len() <= i64::MAX
        &&& forall|i: int| 0 <= i < self.jobs.len() ==> (#[trigger] self.jobs[i]).wf()
        &&& forall|i: int, j: int|
            0 <= i < j < self.jobs.len() ==> (#[trigger] self.jobs[i]).id != (
            #[trigger] self.jobs[j]).id
    }

    /// A store without jobs.
    pub open spec fn empty(lease_ms: int) -> StoreView {
        StoreView { jobs: Seq::empty(), lease_ms }
    }

    /// Whether a job with the given identifier is stored.
    pub open spec fn has(self, id: u128) -> bool {
        exists|i: int| 0 <= i < self.jobs.len() && (#[trigger] self.jobs[i]).id == id
    }

    /// The position of the job with the given identifier.
    pub open spec fn position(self, id: u128) -> int {
        choose|i: int| 0 <= i < self.jobs.len() && (#[trigger] self.jobs[i]).id == id
    }

    /// The job with the given identifier.
    pub open spec fn job(self, id: u128) -> JobView {
        self.jobs[self.position(id)]
    }

    /// The store with one more job, at the end of the table.
    pub open spec fn inserted(self, job: JobView) -> StoreView {
        StoreView { jobs: self.jobs.push(job), ..self }
    }

    /// The store after the given records were offered for insertion, one
    /// after the other.
    pub open spec fn inserted_all(self, jobs: Seq<JobView>) -> StoreView
        decreases jobs.len(),
    {
        if jobs.len() == 0 {
            self
        } else {
            self.inserted_all(jobs.drop_last()).insert_result(jobs.last()).0
        }
    }

    /// Those of the given records that were accepted when they were offered
    /// for insertion, one after the other, in the order of the offers.
    pub open spec fn accepted_of(self, jobs: Seq<JobView>) -> Seq<JobView>
        decreases jobs.len(),
    {
        if jobs.len() == 0 {
            Seq::empty()
        } else {
            let earlier = self.accepted_of(jobs.drop_last());
            if self.inserted_all(jobs.drop_last()).insert_error(jobs.last()) is None {
                earlier.push(jobs.last())
            } else {
                earlier
            }
        }
    }

    /// Whether each of the given records is accepted when they are offered
    /// for insertion, one after the other.
    pub open spec fn accepts_all(self, jobs: Seq<JobView>) -> bool
        decreases jobs.len(),
    {
        jobs.len() == 0 || (self.accepts_all(jobs.drop_last()) && self.inserted_all(
            jobs.drop_last(),
        ).insert_error(jobs.last()) is None)
    }

    /// The end of a lease that starts at `now`.
    pub open spec fn lease_until(self, now: int) -> int {
        now + self.lease_ms
    }

    /// The store after success was reported for `id` at `now`.
    pub open spec fn succeeded(self, id: u128, now: int) -> StoreView {
        StoreView {
            jobs: self.jobs.map_values(
                |j: JobView|
                    if j.id == id {
                        j.succeeded(now)
                    } else {
                        j
                    },
            ),
            ..self
        }
    }

    /// The store after a failure was reported for `id` at `now`.
    pub open spec fn failed(self, id: u128, error: Seq<char>, kind: FailureKind, now: int)
        -> StoreView {
        StoreView {
            jobs: self.jobs.map_values(
                |j: JobView|
                    if j.id == id {
                        j.failed(error, kind, now)
                    } else {
                        j
                    },
            ),
            ..self
        }
    }

    /// The store after a heartbeat for `id` at `now`.
    pub open spec fn heartbeat(self, id: u128, now: int) -> StoreView {
        StoreView {
            jobs: self.jobs.map_values(
                |j: JobView|
                    if j.id == id {
                        j.heartbeat(now, self.lease_until(now))
                    } else {
                        j
                    },
            ),
            ..self
        }
    }

    /// Why `job` cannot be inserted, if it cannot.
    pub open spec fn insert_error(self, job: JobView) -> Option<StoreError> {
        if !job.wf() {
            Some(StoreError::InvalidJob)
        } else if self.has(job.id) {
            Some(StoreError::DuplicateId)
        } else if self.jobs.len() >= i64::MAX {
            Some(StoreError::Full)
        } else {
            None
        }
    }

    /// The store after an attempt to insert `job`, and the answer given.
    pub open spec fn insert_result(self, job: JobView) -> (StoreView, Result<u128, StoreError>) {
        match self.insert_error(job) {
            Some(e) => (self, Err(e)),
            None => (self.inserted(job), Ok(job.id)),
        }
    }

    /// Whether a lease that starts at `now` ends at a time that the clock
    /// can represent.
    pub open spec fn lease_fits(self, now: int) -> bool {
        i64::MIN <= self.lease_until(now) <= i64::MAX
    }

    /// The store after success was reported for `id` at `now`, and the
    /// answer given.
    pub open spec fn succeed_result(self, id: u128, now: int) -> (StoreView, Result<
        (),
        StoreError,
    >) {
        (self.succeeded(id, now), Ok(()))
    }

    /// The store after a failure was reported for `id` at `now`, and the
    /// answer given.
    pub open spec fn fail_result(self, id: u128, error: Seq<char>, kind: FailureKind, now: int) -> (
        StoreView,
        Result<(), StoreError>,
    ) {
        if !self.has(id) {
            (self, Err(StoreError::JobNotFound))
        } else if !self.job(id).retry_fits(kind, now) {
            (self, Err(StoreError::TimeOutOfRange))
        } else {
            (self.failed(id, error, kind, now), Ok(()))
        }
    }

    /// The store after a heartbeat for `id` at `now`, and the answer given.
    ///
    /// A job that is not running, or not stored, has no lease to extend:
    /// nothing happens, and that is no error. For a running job it is an
    /// error if the new end of the lease cannot be represented.
    pub open spec fn heartbeat_result(self, id: u128, now: int) -> (StoreView, Result<
        (),
        StoreError,
    >) {
        if self.holds(id) && !self.lease_fits(now) {
            (self, Err(StoreError::TimeOutOfRange))
        } else {
            (self.heartbeat(id, now), Ok(()))
        }
    }

    /// Whether a lease ends at a time that can be represented whenever it
    /// starts at a time that the clock can show.
    pub open spec fn leases_fit(self) -> bool {
        self.lease_ms <= i64::MAX - MAX_CLOCK_MILLIS
    }

    /// Whether some job can be claimed at `now`.
    pub open spec fn has_ready(self, now: int) -> bool {
        exists|i: int| 0 <= i < self.jobs.len() && (#[trigger] self.jobs[i]).ready(now)
    }

    /// The number of jobs that can be claimed at `now`.
    pub open spec fn ready_count(self, now: int) -> nat {
        self.jobs.filter(|j: JobView| j.ready(now)).len()
    }

    /// The order in which jobs are claimed: the smaller priority goes first;
    /// among equal priorities, the earlier due time; among equal due times,
    /// the job that was inserted first.
    pub open spec fn goes_before(self, i: int, j: int) -> bool {
        let a = self.jobs[i];
        let b = self.jobs[j];
        a.priority < b.priority || (a.priority == b.priority && (a.run_at < b.run_at || (a.run_at
            == b.run_at && i < j)))
    }

    /// Whether the job at position `i` is the one to claim next at `now`: it
    /// is ready, and it goes before every other ready job.
    pub open spec fn is_next(self, now: int, i: int) -> bool {
        &&& 0 <= i < self.jobs.len()
        &&& self.jobs[i].ready(now)
        &&& forall|j: int|
            0 <= j < self.jobs.len() && j != i && (#[trigger] self.jobs[j]).ready(now)
                ==> self.goes_before(i, j)
    }

    /// The position of the job to claim next at `now`.
    pub open spec fn next(self, now: int) -> int {
        choose|i: int| self.is_next(now, i)
    }

    /// The store after `worker` has claimed the job at position `i` at `now`.
    pub open spec fn claimed_at(self, i: int, worker: Seq<char>, now: int) -> StoreView {
        StoreView {
            jobs: self.jobs.update(i, self.jobs[i].claimed(worker, now, self.lease_until(now))),
            ..self
        }
    }

    /// The store after `worker` has claimed up to `limit` jobs at `now`, one
    /// after the other and each time the job to claim next, together with
    /// what the worker is handed, in the order of the claims.
    pub open spec fn claim_batch(self, worker: Seq<char>, limit: nat, now: int) -> (
        StoreView,
        Seq<ClaimedJobView>,
    )
        decreases limit,
    {
        if limit == 0 {
            (self, Seq::empty())
        } else {
            let (store, tickets) = self.claim_batch(worker, (limit - 1) as nat, now);
            if store.has_ready(now) {
                let i = store.next(now);
                let after = store.claimed_at(i, worker, now);
                (after, tickets.push(after.jobs[i].ticket()))
            } else {
                (store, tickets)
            }
        }
    }

    /// The positions of the jobs that a batch claims, in the order of the
    /// claims.
    pub open spec fn claim_positions(self, worker: Seq<char>, limit: nat, now: int) -> Seq<int>
        decreases limit,
    {
        if limit == 0 {
            Seq::empty()
        } else {
            let store = self.claim_batch(worker, (limit - 1) as nat, now).0;
            let positions = self.claim_positions(worker, (limit - 1) as nat, now);
            if store.has_ready(now) {
                positions.push(store.next(now))
            } else {
                positions
            }
        }
    }

    /// The store after a claim of up to `limit` jobs by `worker` at `now`,
    /// and the answer given.
    pub open spec fn claim_result(self, worker: Seq<char>, limit: int, now: int) -> (
        StoreView,
        Result<Seq<ClaimedJobView>, StoreError>,
    ) {
        if !self.lease_fits(now) {
            (self, Err(StoreError::TimeOutOfRange))
        } else if limit < 0 {
            (self, Err(StoreError::InvalidLimit))
        } else {
            let (store, tickets) = self.claim_batch(worker, limit as nat, now);
            (store, Ok(tickets))
        }
    }

    /// The store after the given claims were served one after the other, and
    /// what each of them handed out.
    pub open spec fn claim_rounds(self, requests: Seq<ClaimRequest>) -> (
        StoreView,
        Seq<Seq<ClaimedJobView>>,
    )
        decreases requests.len(),
    {
        if requests.len() == 0 {
            (self, Seq::empty())
        } else {
            let (store, rounds) = self.claim_rounds(requests.drop_last());
            let r = requests.last();
            let (after, answer) = store.claim_result(r.worker, r.limit, r.now);
            (after, rounds.push(handed_out(answer)))
        }
    }

    /// Whether the job with the given identifier is stored and running.
    pub open spec fn holds(self, id: u128) -> bool {
        self.has(id) && self.job(id).status == JobStatus::Running
    }

    /// The store after the given operation, whatever it answered.
    pub open spec fn apply(self, op: StoreOp) -> StoreView {
        match op {
            StoreOp::Insert { job } => self.insert_result(job).0,
            StoreOp::Claim { worker, limit, now } => self.claim_result(worker, limit, now).0,
            StoreOp::Succeed { id, now } => self.succeed_result(id, now).0,
            StoreOp::Fail { id, error, kind, now } => self.fail_result(id, error, kind, now).0,
            StoreOp::Heartbeat { id, now } => self.heartbeat_result(id, now).0,
            StoreOp::Reclaim { now } => self.reclaim_result(now).0,
            StoreOp::Cleanup { older_than } => self.cleanup_result(older_than).0,
        }
    }

    /// The store after the given operations, one after the other.
    pub open spec fn run(self, ops: Seq<StoreOp>) -> StoreView
        decreases ops.len(),
    {
        if ops.len() == 0 {
            self
        } else {
            self.run(ops.drop_last()).apply(ops.last())
        }
    }

    /// The store after a reclaim sweep at `now`.
    pub open spec fn reclaimed(self, now: int) -> StoreView {
        StoreView { jobs: self.jobs.map_values(|j: JobView| j.reclaimed(now)), ..self }
    }

    /// The number of jobs that a reclaim sweep at `now` makes pending again.
    pub open spec fn expired_count(self, now: int) -> nat {
        self.jobs.filter(|j: JobView| j.lease_expired(now)).len()
    }

    /// The store after succeeded jobs last written before `older_than` were
    /// deleted. The jobs that stay keep their order.
    pub open spec fn cleaned(self, older_than: int) -> StoreView {
        StoreView { jobs: self.jobs.filter(|j: JobView| !j.cleanable(older_than)), ..self }
    }

    /// The number of jobs that a cleanup with `older_than` deletes.
    pub open spec fn cleanable_count(self, older_than: int) -> nat {
        self.jobs.filter(|j: JobView| j.cleanable(older_than)).len()
    }

    /// The store after a reclaim sweep at `now`, and the number of jobs that
    /// the sweep made pending again.
    pub open spec fn reclaim_result(self, now: int) -> (StoreView, nat) {
        (self.reclaimed(now), self.expired_count(now))
    }

    /// The store after a cleanup with `older_than`, and the number of jobs
    /// deleted.
    pub open spec fn cleanup_result(self, older_than: int) -> (StoreView, nat) {
        (self.cleaned(older_than), self.cleanable_count(older_than))
    }

    /// The number of jobs with the given status.
    pub open spec fn count(self, status: JobStatus) -> nat {
        self.jobs.filter(|j: JobView| j.status == status).len()
    }
    /// The number of jobs in each status.
    pub open spec fn stats(self) -> QueueStatsView {
        QueueStatsView {
            pending: self.count(JobStatus::Pending) as int,
            running: self.count(JobStatus::Running) as int,
            succeeded: self.count(JobStatus::Succeeded) as int,
            failed: self.count(JobStatus::Failed) as int,
            dead_letter: self.count(JobStatus::DeadLetter) as int,
        }
    }
}

/// At most one job is the one to claim next.
pub proof fn lemma_next_unique(store: StoreView, now: int, i: int, j: int)
    requires
        store.is_next(now, i),
        store.is_next(now, j),
    ensures
        i == j,
{
    if i != j {
        assert(store.goes_before(i, j));
        assert(store.goes_before(j, i));
    }
}

/// Where a job is the one to claim next, it is the one that `next` names.
pub proof fn lemma_next_is(store: StoreView, now: int, i: int)
    requires
        store.is_next(now, i),
    ensures
        store.has_ready(now),
        store.next(now) == i,
{
    lemma_next_unique(store, now, i, store.next(now));
}

/// Once a batch has left no job ready, a larger limit claims nothing more.
pub proof fn lemma_claim_batch_saturated(
    store: StoreView,
    worker: Seq<char>,
    reached: nat,
    limit: nat,
    now: int,
)
    requires
        reached <= limit,
        !store.claim_batch(worker, reached, now).0.has_ready(now),
    ensures
        store.claim_batch(worker, limit, now) == store.claim_batch(worker, reached, now),
    decreases limit,
{
    if reached < limit {
        lemma_claim_batch_saturated(store, worker, reached, (limit - 1) as nat, now);
    }
}

} // verus!
