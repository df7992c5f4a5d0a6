//! The worker: what a job runner decides between its calls to the store
//! and to the effects.
//!
//! A worker claims a batch of jobs, sets aside those whose command type
//! nobody registered, runs the effect of each of the others while it keeps
//! the lease alive, and reports how the effect ended. Running an effect and
//! waiting are left to the caller; everything that is decided is decided
//! here.

use crate::error::StoreError;
use crate::job::{ClaimedJob, ClaimedJobView, FailureKind};
use crate::registry::{Registry, RegistryView};
use crate::store::{claim_answer, ticket_views, JobStore};
use crate::table::StoreView;
use vstd::prelude::*;

verus! {

/// How the run of an effect ended.
#[derive(Debug)]
pub enum EffectOutcome {
    /// The effect returned its event.
    Succeeded,
    /// The effect returned an error of the given kind.
    Failed { kind: FailureKind, error: String },
    /// The effect panicked.
    Panicked,
}

/// The error recorded for a job whose command type is not registered.
pub open spec fn unknown_type_message() -> Seq<char> {
    "no command is registered for this job type"@
}

/// The error recorded for a job whose effect panicked.
pub open spec fn panic_message() -> Seq<char> {
    "effect panicked"@
}

/// The store after the outcome of job `id` was reported at `now`, and the
/// answer given.
///
/// Success is reported as such. An error is reported with its kind. A panic
/// is reported as a retryable failure.
pub open spec fn settle_result(store: StoreView, id: u128, outcome: EffectOutcome, now: int) -> (
    StoreView,
    Result<(), StoreError>,
) {
    match outcome {
        EffectOutcome::Succeeded => store.succeed_result(id, now),
        EffectOutcome::Failed { kind, error } => store.fail_result(id, error@, kind, now),
        EffectOutcome::Panicked => store.fail_result(
            id,
            panic_message(),
            FailureKind::Retryable,
            now,
        ),
    }
}

/// The store after the claimed `jobs` were screened at `now`, and the jobs
/// that are left to run, in their order.
///
/// A job whose type is registered is left to run. Any other job is reported
/// as failed for good, since trying again would not help.
pub open spec fn screened<H>(
    store: StoreView,
    registry: RegistryView<H>,
    jobs: Seq<ClaimedJobView>,
    now: int,
) -> (StoreView, Seq<ClaimedJobView>)
    decreases jobs.len(),
{
    if jobs.len() == 0 {
        (store, Seq::empty())
    } else {
        let (earlier, runnable) = screened(store, registry, jobs.drop_last(), now);
        let job = jobs.last();
        if registry.has(job.job_type) {
            (earlier, runnable.push(job))
        } else {
            (
                earlier.fail_result(
                    job.id,
                    unknown_type_message(),
                    FailureKind::NonRetryable,
                    now,
                ).0,
                runnable,
            )
        }
    }
}

/// The time between two heartbeats for leases of `lease_ms` milliseconds: a
/// third of the lease, so that two heartbeats fit into every lease with
/// room to spare.
pub open spec fn heartbeat_every(lease_ms: int) -> int {
    if lease_ms > 0 {
        lease_ms / 3
    } else {
        0
    }
}

/// The time between two heartbeats for leases of `lease_ms` milliseconds.
/// It is less than half the lease.
pub fn heartbeat_interval(lease_ms: i64) -> (interval: i64)
    ensures
        interval == heartbeat_every(lease_ms as int),
        lease_ms > 0 ==> 0 <= interval && 2 * interval < lease_ms,
        lease_ms >= 3 ==> interval >= 1,
{
    if lease_ms > 0 {
        lease_ms / 3
    } else {
        0
    }
}

/// A job runner: its name, how many jobs it claims at once, and how long it
/// waits when there was nothing to claim.
pub struct Worker {
    pub worker_id: String,
    pub batch: i64,
    pub poll_interval_ms: u64,
}

impl Worker {
    /// A worker that claims `batch` jobs at a time and polls every
    /// `poll_interval_ms` milliseconds.
    pub fn new(worker_id: &str, batch: i64, poll_interval_ms: u64) -> (worker: Worker)
        ensures
            worker.worker_id@ == worker_id@,
            worker.batch == batch,
            worker.poll_interval_ms == poll_interval_ms,
    {
        Worker { worker_id: worker_id.to_owned(), batch, poll_interval_ms }
    }

    /// Claims a batch of ready jobs at `now`.
    pub fn claim(&self, store: &mut JobStore, now: i64) -> (res: Result<Vec<ClaimedJob>, StoreError>)
        requires
            old(store)@.wf(),
        ensures
            (final(store)@, claim_answer(res)) == old(store)@.claim_result(
                self.worker_id@,
                self.batch as int,
                now as int,
            ),
            final(store)@.lease_ms == old(store)@.lease_ms,
            final(store)@.jobs.len() == old(store)@.jobs.len(),
            final(store)@.wf(),
    {
        store.claim_ready_at(self.worker_id.as_str(), self.batch, now)
    }

    /// How long to wait before the next claim, in milliseconds, after a
    /// claim that handed out `claimed` jobs: the poll interval if there were
    /// none, and not at all otherwise.
    pub fn pause_after(&self, claimed: usize) -> (pause: Option<u64>)
        ensures
            pause == if claimed == 0 {
                Some(self.poll_interval_ms)
            } else {
                None
            },
    {
        if claimed == 0 {
            Some(self.poll_interval_ms)
        } else {
            None
        }
    }

    /// How long to wait before the next claim, in milliseconds, after a
    /// claim with the given answer: the poll interval if the store turned
    /// the claim down or had nothing to hand out, and not at all otherwise.
    pub fn pause_for(&self, answer: &Result<Vec<ClaimedJob>, StoreError>) -> (pause: Option<u64>)
        ensures
            pause == match *answer {
                Ok(jobs) => if jobs@.len() == 0 {
                    Some(self.poll_interval_ms)
                } else {
                    None
                },
                Err(_) => Some(self.poll_interval_ms),
            },
    {
        match answer {
            Ok(jobs) => self.pause_after(jobs.len()),
            Err(_) => Some(self.poll_interval_ms),
        }
    }

    /// Sets aside the claimed jobs whose command type is not registered, and
    /// returns the others, which are to be run.
    pub fn screen<H>(
        &self,
        store: &mut JobStore,
        registry: &Registry<H>,
        jobs: &Vec<ClaimedJob>,
        now: i64,
    ) -> (runnable: Vec<ClaimedJob>)
        requires
            old(store)@.wf(),
            registry@.wf(),
        ensures
            (final(store)@, ticket_views(runnable@)) == screened(
                old(store)@,
                registry@,
                ticket_views(jobs@),
                now as int,
            ),
            final(store)@.wf(),
    {
        let mut runnable: Vec<ClaimedJob> = Vec::new();
        let mut i: usize = 0;
        let ghost all = ticket_views(jobs@);
        proof {
            assert(all.take(0) =~= Seq::empty());
            assert(ticket_views(runnable@) =~= Seq::empty());
        }
        while i < jobs.len()
            invariant
                i <= jobs.len(),
                all == ticket_views(jobs@),
                registry@.wf(),
                store@.wf(),
                (store@, ticket_views(runnable@)) == screened(
                    old(store)@,
                    registry@,
                    all.take(i as int),
                    now as int,
                ),
            decreases jobs.len() - i,
        {
            proof {
                assert(all.take(i + 1).drop_last() =~= all.take(i as int));
                assert(all.take(i + 1).last() == jobs@[i as int]@);
            }
            let job = &jobs[i];
            if registry.contains(job.job_type.as_str()) {
                let ghost before = runnable@;
                runnable.push(job.duplicate());
                proof {
                    assert(ticket_views(runnable@) =~= ticket_views(before).push(job@));
                }
            } else {
                let _ = store.mark_failed_at(
                    job.id,
                    "no command is registered for this job type",
                    FailureKind::NonRetryable,
                    now,
                );
            }
            i = i + 1;
        }
        proof {
            assert(all.take(i as int) =~= all);
        }
        runnable
    }

    /// Reports to the store how the effect of job `job_id` ended.
    pub fn settle(&self, store: &mut JobStore, job_id: u128, outcome: &EffectOutcome, now: i64)
        -> (res: Result<(), StoreError>)
        requires
            old(store)@.wf(),
        ensures
            (final(store)@, res) == settle_result(old(store)@, job_id, *outcome, now as int),
            final(store)@.wf(),
    {
        match outcome {
            EffectOutcome::Succeeded => store.mark_succeeded_at(job_id, now),
            EffectOutcome::Failed { kind, error } => store.mark_failed_at(
                job_id,
                error.as_str(),
                *kind,
                now,
            ),
            EffectOutcome::Panicked => store.mark_failed_at(
                job_id,
                "effect panicked",
                FailureKind::Retryable,
                now,
            ),
        }
    }
}

/// Screening leaves to run exactly the claimed jobs whose type is
/// registered, in their order, and does not touch the leases the store
/// hands out.
pub proof fn lemma_screened_runnable<H>(
    store: StoreView,
    registry: RegistryView<H>,
    jobs: Seq<ClaimedJobView>,
    now: int,
)
    ensures
        screened(store, registry, jobs, now).1 == jobs.filter(
            |job: ClaimedJobView| registry.has(job.job_type),
        ),
        forall|k: int|
            0 <= k < screened(store, registry, jobs, now).1.len() ==> registry.has(
                (#[trigger] screened(store, registry, jobs, now).1[k]).job_type,
            ),
        screened(store, registry, jobs, now).0.lease_ms == store.lease_ms,
    decreases jobs.len(),
{
    reveal(Seq::filter);
    if jobs.len() > 0 {
        lemma_screened_runnable(store, registry, jobs.drop_last(), now);
    }
}

} // verus!
