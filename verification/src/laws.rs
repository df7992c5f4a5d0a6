//! Laws of the job store, proved from the definitions in [`crate::table`].

use crate::error::StoreError;
use crate::job::{FailureKind, JobStatus, JobView};
use crate::table::QueueStatsView;
use crate::backoff::lemma_backoff_bounds;
use crate::job::{lemma_transitions, will_retry};
use crate::order::{embeds, is_subsequence};
use crate::platform::clock_reading;
use crate::table::{handed_out, ClaimRequest, StoreOp, StoreView};
use vstd::arithmetic::power2::pow2;
use vstd::prelude::*;

verus! {

/// Among the first `n` jobs, if one is ready, one ready job goes before all
/// other ready ones.
proof fn lemma_best_among(store: StoreView, now: int, n: int) -> (best: int)
    requires
        0 <= n <= store.jobs.len(),
        exists|i: int| 0 <= i < n && (#[trigger] store.jobs[i]).ready(now),
    ensures
        0 <= best < n,
        store.jobs[best].ready(now),
        forall|j: int|
            0 <= j < n && j != best && (#[trigger] store.jobs[j]).ready(now) ==> store.goes_before(
                best,
                j,
            ),
    decreases n,
{
    let last = n - 1;
    if exists|i: int| 0 <= i < last && (#[trigger] store.jobs[i]).ready(now) {
        let before = lemma_best_among(store, now, last);
        if store.jobs[last].ready(now) && store.goes_before(last, before) {
            last
        } else {
            before
        }
    } else {
        assert(store.jobs[last].ready(now));
        last
    }
}

/// Where a job is ready, there is a job to claim next, and `next` names it.
pub proof fn lemma_next_exists(store: StoreView, now: int)
    requires
        store.has_ready(now),
    ensures
        store.is_next(now, store.next(now)),
{
    let best = lemma_best_among(store, now, store.jobs.len() as int);
    assert(store.is_next(now, best));
}

/// What a batch of claims does, position by position.
///
/// The table keeps its length and stays well formed. The batch claims at
/// most `limit` jobs, each at a position of its own; each of them was ready,
/// is now the claimed form of what it was, and is what the worker was
/// handed. Every other job is untouched. The claims come in claim order, and
/// every ready job that was left out goes after every job that was claimed.
pub proof fn lemma_claim_batch(store: StoreView, worker: Seq<char>, limit: nat, now: int)
    requires
        store.wf(),
    ensures
        ({
            let (after, tickets) = store.claim_batch(worker, limit, now);
            let positions = store.claim_positions(worker, limit, now);
            &&& after.wf()
            &&& after.lease_ms == store.lease_ms
            &&& after.jobs.len() == store.jobs.len()
            &&& positions.len() == tickets.len()
            &&& tickets.len() <= limit
            &&& forall|k: int|
                0 <= k < positions.len() ==> {
                    let p = #[trigger] positions[k];
                    &&& 0 <= p < store.jobs.len()
                    &&& store.jobs[p].ready(now)
                    &&& after.jobs[p] == store.jobs[p].claimed(
                        worker,
                        now,
                        store.lease_until(now),
                    )
                    &&& tickets[k] == after.jobs[p].ticket()
                }
            &&& forall|p: int|
                0 <= p < store.jobs.len() && !positions.contains(p) ==> #[trigger] after.jobs[p]
                    == store.jobs[p]
            &&& forall|k1: int, k2: int|
                0 <= k1 < k2 < positions.len() ==> store.goes_before(
                    #[trigger] positions[k1],
                    #[trigger] positions[k2],
                )
            &&& forall|k: int, p: int|
                0 <= k < positions.len() && 0 <= p < store.jobs.len() && !positions.contains(p)
                    && (#[trigger] store.jobs[p]).ready(now) ==> store.goes_before(
                    #[trigger] positions[k],
                    p,
                )
            &&& (tickets.len() < limit ==> !after.has_ready(now))
        }),
    decreases limit,
{
    if limit > 0 {
        let prev = (limit - 1) as nat;
        lemma_claim_batch(store, worker, prev, now);
        let (mid, got) = store.claim_batch(worker, prev, now);
        let taken = store.claim_positions(worker, prev, now);
        let (after, tickets) = store.claim_batch(worker, limit, now);
        let positions = store.claim_positions(worker, limit, now);
        if mid.has_ready(now) {
            lemma_next_exists(mid, now);
            let i = mid.next(now);
            assert(mid.is_next(now, i));
            assert(after == mid.claimed_at(i, worker, now));
            assert(positions == taken.push(i));
            assert(tickets == got.push(after.jobs[i].ticket()));
            // A job claimed earlier is running, so it is not the one claimed now.
            assert forall|k: int| 0 <= k < taken.len() implies #[trigger] taken[k] != i by {
                let p = taken[k];
                assert(mid.jobs[p].status == JobStatus::Running);
            }
            assert(!taken.contains(i));
            assert(mid.jobs[i] == store.jobs[i]);
            assert forall|p: int|
                0 <= p < store.jobs.len() && !positions.contains(p) implies #[trigger] after.jobs[p]
                == store.jobs[p] by {
                assert(positions[taken.len() as int] == i);
                assert(p != i);
                assert forall|k: int| 0 <= k < taken.len() implies taken[k] != p by {
                    assert(positions[k] == taken[k]);
                }
                assert(!taken.contains(p));
            }
            assert forall|k: int| 0 <= k < positions.len() implies {
                let p = #[trigger] positions[k];
                &&& 0 <= p < store.jobs.len()
                &&& store.jobs[p].ready(now)
                &&& after.jobs[p] == store.jobs[p].claimed(worker, now, store.lease_until(now))
                &&& tickets[k] == after.jobs[p].ticket()
            } by {
                if k < taken.len() {
                    assert(positions[k] == taken[k]);
                    assert(taken[k] != i);
                }
            }
            assert forall|k1: int, k2: int| 0 <= k1 < k2 < positions.len() implies store.goes_before(
                #[trigger] positions[k1],
                #[trigger] positions[k2],
            ) by {
                assert(positions[k1] == taken[k1]);
                if k2 < taken.len() {
                    assert(positions[k2] == taken[k2]);
                } else {
                    assert(positions[k2] == i);
                    assert(store.jobs[i].ready(now));
                }
            }
            assert forall|k: int, p: int|
                0 <= k < positions.len() && 0 <= p < store.jobs.len() && !positions.contains(p) && (
                #[trigger] store.jobs[p]).ready(now) implies store.goes_before(
                #[trigger] positions[k],
                p,
            ) by {
                assert(positions[taken.len() as int] == i);
                assert(p != i);
                assert forall|k: int| 0 <= k < taken.len() implies taken[k] != p by {
                    assert(positions[k] == taken[k]);
                }
                assert(!taken.contains(p));
                assert(mid.jobs[p] == store.jobs[p]);
                assert(mid.jobs[p].ready(now));
                assert(mid.goes_before(i, p));
                if k < taken.len() {
                    assert(positions[k] == taken[k]);
                } else {
                    assert(positions[k] == i);
                }
            }
            assert(after.wf()) by {
                assert forall|a: int| 0 <= a < after.jobs.len() implies (
                #[trigger] after.jobs[a]).wf() by {
                    assert(mid.jobs[a].wf());
                }
                assert forall|a: int, b: int| 0 <= a < b < after.jobs.len() implies (
                #[trigger] after.jobs[a]).id != (#[trigger] after.jobs[b]).id by {
                    assert(mid.jobs[a].id != mid.jobs[b].id);
                }
            }
        }
    }
}

/// Where a record that passes a test is replaced by one that does not, one
/// record fewer passes.
proof fn lemma_filter_len_update(
    jobs: Seq<JobView>,
    pred: spec_fn(JobView) -> bool,
    i: int,
    job: JobView,
)
    requires
        0 <= i < jobs.len(),
        pred(jobs[i]),
        !pred(job),
    ensures
        jobs.update(i, job).filter(pred).len() + 1 == jobs.filter(pred).len(),
    decreases jobs.len(),
{
    reveal(Seq::filter);
    let changed = jobs.update(i, job);
    if i == jobs.len() - 1 {
        assert(changed.drop_last() =~= jobs.drop_last());
    } else {
        assert(changed.drop_last() =~= jobs.drop_last().update(i, job));
        lemma_filter_len_update(jobs.drop_last(), pred, i, job);
    }
}

/// A claim takes as many jobs as it may: as many as its limit, or all that
/// are ready if those are fewer. Every job it takes is one ready job fewer.
pub proof fn lemma_claim_count(store: StoreView, worker: Seq<char>, limit: nat, now: int)
    requires
        store.wf(),
    ensures
        ({
            let (after, tickets) = store.claim_batch(worker, limit, now);
            &&& tickets.len() == if limit <= store.ready_count(now) {
                limit
            } else {
                store.ready_count(now)
            }
            &&& after.ready_count(now) + tickets.len() == store.ready_count(now)
        }),
    decreases limit,
{
    let ready = |j: JobView| j.ready(now);
    lemma_claim_batch(store, worker, limit, now);
    let (after, tickets) = store.claim_batch(worker, limit, now);
    if limit > 0 {
        let prev = (limit - 1) as nat;
        lemma_claim_count(store, worker, prev, now);
        lemma_claim_batch(store, worker, prev, now);
        let mid = store.claim_batch(worker, prev, now).0;
        if mid.has_ready(now) {
            lemma_next_exists(mid, now);
            let i = mid.next(now);
            lemma_filter_len_update(
                mid.jobs,
                ready,
                i,
                mid.jobs[i].claimed(worker, now, mid.lease_until(now)),
            );
        }
    }
    if !after.has_ready(now) {
        lemma_filter_jobs(after.jobs, ready);
        if after.jobs.filter(ready).len() > 0 {
            let j = after.jobs.filter(ready)[0];
            assert(after.jobs.contains(j));
            let k = choose|k: int| 0 <= k < after.jobs.len() && after.jobs[k] == j;
            assert(after.jobs[k].ready(now));
        }
    }
}

/// In a well-formed store a job is found by its identifier.
pub proof fn lemma_job_at(store: StoreView, p: int)
    requires
        store.wf(),
        0 <= p < store.jobs.len(),
    ensures
        store.has(store.jobs[p].id),
        store.position(store.jobs[p].id) == p,
        store.job(store.jobs[p].id) == store.jobs[p],
{
    let id = store.jobs[p].id;
    let q = store.position(id);
    assert(store.jobs[q].id == id);
    if q < p {
        assert(store.jobs[q].id != store.jobs[p].id);
    }
    if p < q {
        assert(store.jobs[p].id != store.jobs[q].id);
    }
}

/// What a batch of claims does, job by job.
///
/// Every job that is handed out was ready before and is running after; no
/// job is handed out twice; and a job that was running before is running
/// after.
pub proof fn lemma_claim_batch_by_id(store: StoreView, worker: Seq<char>, limit: nat, now: int)
    requires
        store.wf(),
    ensures
        ({
            let (after, tickets) = store.claim_batch(worker, limit, now);
            &&& after.wf()
            &&& forall|k: int|
                0 <= k < tickets.len() ==> {
                    let id = (#[trigger] tickets[k]).id;
                    &&& store.has(id)
                    &&& store.job(id).ready(now)
                    &&& after.holds(id)
                    &&& tickets[k] == after.job(id).ticket()
                }
            &&& forall|k1: int, k2: int|
                0 <= k1 < k2 < tickets.len() ==> (#[trigger] tickets[k1]).id != (
                #[trigger] tickets[k2]).id
            &&& forall|id: u128| #[trigger] store.holds(id) ==> after.holds(id)
        }),
{
    lemma_claim_batch(store, worker, limit, now);
    let (after, tickets) = store.claim_batch(worker, limit, now);
    let positions = store.claim_positions(worker, limit, now);
    assert forall|p: int| 0 <= p < store.jobs.len() implies (#[trigger] after.jobs[p]).id
        == store.jobs[p].id && (store.jobs[p].status == JobStatus::Running ==> after.jobs[p].status
        == JobStatus::Running) by {
        if positions.contains(p) {
            let k = choose|k: int| 0 <= k < positions.len() && positions[k] == p;
            assert(positions[k] == p);
        }
    }
    assert forall|k: int| 0 <= k < tickets.len() implies {
        let id = (#[trigger] tickets[k]).id;
        &&& store.has(id)
        &&& store.job(id).ready(now)
        &&& after.holds(id)
        &&& tickets[k] == after.job(id).ticket()
    } by {
        let p = positions[k];
        lemma_job_at(store, p);
        lemma_job_at(after, p);
    }
    assert forall|k1: int, k2: int| 0 <= k1 < k2 < tickets.len() implies (
    #[trigger] tickets[k1]).id != (#[trigger] tickets[k2]).id by {
        let p1 = positions[k1];
        let p2 = positions[k2];
        assert(store.goes_before(p1, p2));
        if p1 < p2 {
            assert(store.jobs[p1].id != store.jobs[p2].id);
        } else if p2 < p1 {
            assert(store.jobs[p2].id != store.jobs[p1].id);
        } else {
            assert(!store.goes_before(p1, p1));
        }
    }
    assert forall|id: u128| #[trigger] store.holds(id) implies after.holds(id) by {
        let p = store.position(id);
        assert(after.jobs[p].id == id);
        lemma_job_at(after, p);
    }
}

/// What a series of claims does: the store stays well formed, every job
/// that any of the claims handed out is running afterwards, and no job was
/// handed out twice, be it by one claim or by two.
pub proof fn lemma_claim_rounds(store: StoreView, requests: Seq<ClaimRequest>)
    requires
        store.wf(),
    ensures
        ({
            let (after, rounds) = store.claim_rounds(requests);
            &&& after.wf()
            &&& rounds.len() == requests.len()
            &&& forall|a: int, i: int|
                0 <= a < rounds.len() && 0 <= i < rounds[a].len() ==> after.holds(
                    (#[trigger] rounds[a][i]).id,
                )
            &&& forall|a: int, i: int, b: int, j: int|
                0 <= a < rounds.len() && 0 <= i < rounds[a].len() && 0 <= b < rounds.len() && 0
                    <= j < rounds[b].len() && (a != b || i != j) ==> (#[trigger] rounds[a][i]).id
                    != (#[trigger] rounds[b][j]).id
        }),
    decreases requests.len(),
{
    if requests.len() > 0 {
        let earlier = requests.drop_last();
        lemma_claim_rounds(store, earlier);
        let (mid, done) = store.claim_rounds(earlier);
        let r = requests.last();
        let (after, rounds) = store.claim_rounds(requests);
        let last = done.len() as int;
        let answer = mid.claim_result(r.worker, r.limit, r.now).1;
        let new = handed_out(answer);
        assert(rounds == done.push(new));
        if answer is Ok {
            lemma_claim_batch_by_id(mid, r.worker, r.limit as nat, r.now);
        } else {
            assert(new.len() == 0);
            assert(after == mid);
        }
        assert forall|a: int, i: int|
            0 <= a < rounds.len() && 0 <= i < rounds[a].len() implies after.holds(
            (#[trigger] rounds[a][i]).id,
        ) by {
            if a < last {
                assert(mid.holds(done[a][i].id));
            }
        }
        assert forall|a: int, i: int, b: int, j: int|
            0 <= a < rounds.len() && 0 <= i < rounds[a].len() && 0 <= b < rounds.len() && 0 <= j
                < rounds[b].len() && (a != b || i != j) implies (#[trigger] rounds[a][i]).id != (
        #[trigger] rounds[b][j]).id by {
            if a < last && b < last {
                assert(done[a][i].id != done[b][j].id);
            } else if a < last {
                assert(mid.holds(done[a][i].id));
                assert(mid.job(new[j].id).ready(r.now));
            } else if b < last {
                assert(mid.holds(done[b][j].id));
                assert(mid.job(new[i].id).ready(r.now));
            } else {
                if i < j {
                    assert(new[i].id != new[j].id);
                } else {
                    assert(new[j].id != new[i].id);
                }
            }
        }
    }
}

/// Claim exclusivity: however many claims are served, and whoever makes
/// them, no job is handed out by two of them, and none twice by one.
pub proof fn lemma_claim_exclusive(
    store: StoreView,
    requests: Seq<ClaimRequest>,
    a: int,
    i: int,
    b: int,
    j: int,
)
    requires
        store.wf(),
        0 <= a < requests.len(),
        0 <= b < requests.len(),
        0 <= i < store.claim_rounds(requests).1[a].len(),
        0 <= j < store.claim_rounds(requests).1[b].len(),
        a != b || i != j,
    ensures
        store.claim_rounds(requests).1[a][i].id != store.claim_rounds(requests).1[b][j].id,
{
    lemma_claim_rounds(store, requests);
}

/// Two claims in a row hand out different jobs.
pub proof fn lemma_two_claims_disjoint(
    store: StoreView,
    first: ClaimRequest,
    second: ClaimRequest,
    i: int,
    j: int,
)
    requires
        store.wf(),
        0 <= i < handed_out(store.claim_result(first.worker, first.limit, first.now).1).len(),
        0 <= j < handed_out(
            store.claim_result(first.worker, first.limit, first.now).0.claim_result(
                second.worker,
                second.limit,
                second.now,
            ).1,
        ).len(),
    ensures
        handed_out(store.claim_result(first.worker, first.limit, first.now).1)[i].id != handed_out(
            store.claim_result(first.worker, first.limit, first.now).0.claim_result(
                second.worker,
                second.limit,
                second.now,
            ).1,
        )[j].id,
{
    let requests = seq![first, second];
    assert(requests.drop_last() =~= seq![first]);
    assert(seq![first].drop_last() =~= Seq::<ClaimRequest>::empty());
    reveal_with_fuel(StoreView::claim_rounds, 3);
    let rounds = store.claim_rounds(requests).1;
    assert(rounds[0] == handed_out(store.claim_result(first.worker, first.limit, first.now).1));
    lemma_claim_exclusive(store, requests, 0, i, 1, j);
}

/// The records that stay after some were dropped are records of the table,
/// in their old order, and their identifiers are still distinct.
pub proof fn lemma_filter_jobs(jobs: Seq<JobView>, pred: spec_fn(JobView) -> bool)
    requires
        forall|i: int, j: int|
            0 <= i < j < jobs.len() ==> (#[trigger] jobs[i]).id != (#[trigger] jobs[j]).id,
    ensures
        jobs.filter(pred).len() <= jobs.len(),
        forall|i: int|
            0 <= i < jobs.filter(pred).len() ==> jobs.contains(#[trigger] jobs.filter(pred)[i])
                && pred(jobs.filter(pred)[i]),
        forall|i: int| 0 <= i < jobs.len() && pred(jobs[i]) ==> jobs.filter(pred).contains(#[trigger] jobs[i]),
        forall|i: int, j: int|
            0 <= i < j < jobs.filter(pred).len() ==> (#[trigger] jobs.filter(pred)[i]).id != (
            #[trigger] jobs.filter(pred)[j]).id,
    decreases jobs.len(),
{
    reveal(Seq::filter);
    if jobs.len() > 0 {
        let rest = jobs.drop_last();
        lemma_filter_jobs(rest, pred);
        let kept = rest.filter(pred);
        let f = jobs.filter(pred);
        assert forall|i: int| 0 <= i < f.len() implies jobs.contains(#[trigger] f[i]) && pred(
            f[i],
        ) by {
            if i < kept.len() {
                assert(rest.contains(kept[i]));
                let k = choose|k: int| 0 <= k < rest.len() && rest[k] == kept[i];
                assert(jobs[k] == f[i]);
            } else {
                assert(jobs[jobs.len() - 1] == f[i]);
            }
        }
        assert forall|i: int| 0 <= i < jobs.len() && pred(jobs[i]) implies f.contains(
            #[trigger] jobs[i],
        ) by {
            if i < rest.len() {
                assert(rest[i] == jobs[i]);
                assert(kept.contains(rest[i]));
                let k = choose|k: int| 0 <= k < kept.len() && kept[k] == rest[i];
                assert(f[k] == jobs[i]);
            } else {
                assert(f[f.len() - 1] == jobs[i]);
            }
        }
        assert forall|i: int, j: int| 0 <= i < j < f.len() implies (#[trigger] f[i]).id != (
        #[trigger] f[j]).id by {
            if j == kept.len() {
                assert(rest.contains(kept[i]));
                let k = choose|k: int| 0 <= k < rest.len() && rest[k] == kept[i];
                assert(jobs[k].id != jobs[jobs.len() - 1].id);
            }
        }
    }
}

/// Every operation keeps the invariant of job stores.
pub proof fn lemma_apply_wf(store: StoreView, op: StoreOp)
    requires
        store.wf(),
    ensures
        store.apply(op).wf(),
        store.apply(op).lease_ms == store.lease_ms,
{
    let after = store.apply(op);
    match op {
        StoreOp::Insert { job } => {
            if store.insert_error(job) is None {
                assert forall|i: int, j: int| 0 <= i < j < after.jobs.len() implies (
                #[trigger] after.jobs[i]).id != (#[trigger] after.jobs[j]).id by {
                    if j == store.jobs.len() {
                        assert(store.jobs[i].id != job.id);
                    } else {
                        assert(store.jobs[i].id != store.jobs[j].id);
                    }
                }
            }
        },
        StoreOp::Claim { worker, limit, now } => {
            if store.lease_fits(now) && limit >= 0 {
                lemma_claim_batch(store, worker, limit as nat, now);
            }
        },
        StoreOp::Succeed { id, now } => {
            assert forall|i: int| 0 <= i < after.jobs.len() implies (#[trigger] after.jobs[i]).wf()
                && after.jobs[i].id == store.jobs[i].id by {
                lemma_transitions(store.jobs[i], seq![], seq![], FailureKind::Retryable, now, now);
            }
        },
        StoreOp::Fail { id, error, kind, now } => {
            assert forall|i: int| 0 <= i < after.jobs.len() implies (#[trigger] after.jobs[i]).wf()
                && after.jobs[i].id == store.jobs[i].id by {
                lemma_transitions(store.jobs[i], seq![], error, kind, now, now);
            }
        },
        StoreOp::Heartbeat { id, now } => {
            assert forall|i: int| 0 <= i < after.jobs.len() implies (#[trigger] after.jobs[i]).wf()
                && after.jobs[i].id == store.jobs[i].id by {
                lemma_transitions(
                    store.jobs[i],
                    seq![],
                    seq![],
                    FailureKind::Retryable,
                    now,
                    store.lease_until(now),
                );
            }
        },
        StoreOp::Reclaim { now } => {
            assert forall|i: int| 0 <= i < after.jobs.len() implies (#[trigger] after.jobs[i]).wf()
                && after.jobs[i].id == store.jobs[i].id by {
                lemma_transitions(store.jobs[i], seq![], seq![], FailureKind::Retryable, now, now);
            }
        },
        StoreOp::Cleanup { older_than } => {
            let kept = |j: JobView| !j.cleanable(older_than);
            lemma_filter_jobs(store.jobs, kept);
            assert forall|i: int| 0 <= i < after.jobs.len() implies (
            #[trigger] after.jobs[i]).wf() by {
                assert(store.jobs.contains(after.jobs[i]));
            }
        },
    }
}

/// Every store that operations lead to from a well-formed store is well
/// formed.
pub proof fn lemma_run_wf(store: StoreView, ops: Seq<StoreOp>)
    requires
        store.wf(),
    ensures
        store.run(ops).wf(),
        store.run(ops).lease_ms == store.lease_ms,
    decreases ops.len(),
{
    if ops.len() > 0 {
        lemma_run_wf(store, ops.drop_last());
        lemma_apply_wf(store.run(ops.drop_last()), ops.last());
    }
}

/// Lease invariant: in every store that operations lead to from the empty
/// store, a job is running exactly if it has a worker, and exactly if it has
/// a lease.
pub proof fn lemma_lease_invariant(lease_ms: int, ops: Seq<StoreOp>, p: int)
    requires
        0 <= p < StoreView::empty(lease_ms).run(ops).jobs.len(),
    ensures
        ({
            let job = StoreView::empty(lease_ms).run(ops).jobs[p];
            &&& job.status == JobStatus::Running <==> job.worker_id is Some
            &&& job.worker_id is Some <==> job.lease_expires_at is Some
        }),
{
    lemma_run_wf(StoreView::empty(lease_ms), ops);
}

/// In every store that operations lead to from the empty store, the attempt
/// number of a job is at least one and at most one more than the retries it
/// is allowed.
pub proof fn lemma_attempt_bounded(lease_ms: int, ops: Seq<StoreOp>, p: int)
    requires
        0 <= p < StoreView::empty(lease_ms).run(ops).jobs.len(),
    ensures
        ({
            let job = StoreView::empty(lease_ms).run(ops).jobs[p];
            1 <= job.attempt <= job.max_retries + 1
        }),
{
    lemma_run_wf(StoreView::empty(lease_ms), ops);
}

/// No operation but a cleanup removes a job.
pub proof fn lemma_jobs_stay(store: StoreView, op: StoreOp, id: u128)
    requires
        store.wf(),
        store.has(id),
        !(op is Cleanup),
    ensures
        store.apply(op).has(id),
        store.apply(op).jobs.len() >= store.jobs.len(),
        store.apply(op).jobs[store.position(id)].id == id,
{
    let p = store.position(id);
    let after = store.apply(op);
    match op {
        StoreOp::Claim { worker, limit, now } => {
            if store.lease_fits(now) && limit >= 0 {
                lemma_claim_batch(store, worker, limit as nat, now);
                let positions = store.claim_positions(worker, limit as nat, now);
                if positions.contains(p) {
                    let k = choose|k: int| 0 <= k < positions.len() && positions[k] == p;
                    assert(positions[k] == p);
                }
            }
        },
        _ => {},
    }
    assert(after.jobs[p].id == id);
}

/// What an operation does to a job: as long as the job is stored, the job
/// after the operation relates to the job before as
/// [`JobView::evolves_to`] says.
pub proof fn lemma_step_evolves(store: StoreView, op: StoreOp, id: u128)
    requires
        store.wf(),
        store.has(id),
        store.apply(op).has(id),
    ensures
        store.job(id).evolves_to(store.apply(op).job(id)),
{
    let p = store.position(id);
    let after = store.apply(op);
    let job = store.jobs[p];
    lemma_apply_wf(store, op);
    lemma_transitions(job, seq![], seq![], FailureKind::Retryable, 0, 0);
    match op {
        StoreOp::Insert { job: _ } => {
            lemma_jobs_stay(store, op, id);
            lemma_job_at(after, p);
        },
        StoreOp::Claim { worker, limit, now } => {
            lemma_jobs_stay(store, op, id);
            lemma_job_at(after, p);
            if store.lease_fits(now) && limit >= 0 {
                lemma_claim_batch(store, worker, limit as nat, now);
                let positions = store.claim_positions(worker, limit as nat, now);
                lemma_transitions(
                    job,
                    worker,
                    seq![],
                    FailureKind::Retryable,
                    now,
                    store.lease_until(now),
                );
                if positions.contains(p) {
                    let k = choose|k: int| 0 <= k < positions.len() && positions[k] == p;
                    assert(positions[k] == p);
                }
            }
        },
        StoreOp::Succeed { id: _, now } => {
            lemma_jobs_stay(store, op, id);
            lemma_job_at(after, p);
            lemma_transitions(job, seq![], seq![], FailureKind::Retryable, now, now);
        },
        StoreOp::Fail { id: _, error, kind, now } => {
            lemma_jobs_stay(store, op, id);
            lemma_job_at(after, p);
            lemma_transitions(job, seq![], error, kind, now, now);
        },
        StoreOp::Heartbeat { id: _, now } => {
            lemma_jobs_stay(store, op, id);
            lemma_job_at(after, p);
            lemma_transitions(
                job,
                seq![],
                seq![],
                FailureKind::Retryable,
                now,
                store.lease_until(now),
            );
        },
        StoreOp::Reclaim { now } => {
            lemma_jobs_stay(store, op, id);
            lemma_job_at(after, p);
            lemma_transitions(job, seq![], seq![], FailureKind::Retryable, now, now);
        },
        StoreOp::Cleanup { older_than } => {
            let kept = |j: JobView| !j.cleanable(older_than);
            lemma_filter_jobs(store.jobs, kept);
            let q = after.position(id);
            assert(store.jobs.contains(after.jobs[q]));
            let k = choose|k: int| 0 <= k < store.jobs.len() && store.jobs[k] == after.jobs[q];
            lemma_job_at(store, k);
        },
    }
}

/// Retry monotonicity: no operation lowers the attempt number of a job, and
/// the number never exceeds the allowed retries by more than one.
pub proof fn lemma_attempt_monotonic(store: StoreView, op: StoreOp, id: u128)
    requires
        store.wf(),
        store.has(id),
        store.apply(op).has(id),
    ensures
        store.job(id).attempt <= store.apply(op).job(id).attempt,
        store.apply(op).job(id).attempt <= store.apply(op).job(id).max_retries + 1,
        store.apply(op).job(id).attempt != store.job(id).attempt ==> op is Fail
            && store.apply(op).job(id).attempt == store.job(id).attempt + 1,
{
    lemma_step_evolves(store, op, id);
    lemma_apply_wf(store, op);
    let after = store.apply(op);
    assert(after.jobs[after.position(id)].wf());
    if store.apply(op).job(id).attempt != store.job(id).attempt {
        let p = store.position(id);
        match op {
            StoreOp::Fail { .. } => {},
            StoreOp::Cleanup { older_than } => {
                let kept = |j: JobView| !j.cleanable(older_than);
                lemma_filter_jobs(store.jobs, kept);
                let q = after.position(id);
                assert(store.jobs.contains(after.jobs[q]));
                let k = choose|k: int| 0 <= k < store.jobs.len() && store.jobs[k] == after.jobs[q];
                lemma_job_at(store, k);
            },
            StoreOp::Claim { worker, limit, now } => {
                lemma_jobs_stay(store, op, id);
                lemma_job_at(after, p);
                if store.lease_fits(now) && limit >= 0 {
                    lemma_claim_batch(store, worker, limit as nat, now);
                    let positions = store.claim_positions(worker, limit as nat, now);
                    if positions.contains(p) {
                        let k = choose|k: int| 0 <= k < positions.len() && positions[k] == p;
                        assert(positions[k] == p);
                    }
                }
            },
            _ => {
                lemma_jobs_stay(store, op, id);
                lemma_job_at(after, p);
            },
        }
    }
}

/// Terminal stability: once a job has succeeded or was dead-lettered, no
/// report of success or failure, and no other operation that leaves it in
/// the store, changes it.
pub proof fn lemma_terminal_stable(store: StoreView, op: StoreOp, id: u128)
    requires
        store.wf(),
        store.has(id),
        store.job(id).status.is_terminal(),
        store.apply(op).has(id),
    ensures
        store.apply(op).job(id) == store.job(id),
{
    lemma_step_evolves(store, op, id);
}

/// Reclaim safety: a reclaim sweep keeps every job in its place, changes no
/// job in a final status and no attempt number, and changes a status only
/// from `running`, on an expired lease, to `pending`.
pub proof fn lemma_reclaim_safe(store: StoreView, now: int, p: int)
    requires
        0 <= p < store.jobs.len(),
    ensures
        store.reclaimed(now).jobs.len() == store.jobs.len(),
        store.reclaimed(now).jobs[p].id == store.jobs[p].id,
        store.reclaimed(now).jobs[p].attempt == store.jobs[p].attempt,
        store.jobs[p].status.is_terminal() ==> store.reclaimed(now).jobs[p] == store.jobs[p],
        store.reclaimed(now).jobs[p].status != store.jobs[p].status ==> store.jobs[p].lease_expired(
            now,
        ) && store.reclaimed(now).jobs[p].status == JobStatus::Pending,
{
}

/// Backoff bound: when a failure of a running job is retried, the job
/// becomes due again after two to the power of the failed attempt's number
/// in seconds, at most an hour and at least a second, and its attempt number
/// goes up by one.
pub proof fn lemma_retry_backoff(
    store: StoreView,
    id: u128,
    error: Seq<char>,
    kind: FailureKind,
    now: int,
)
    requires
        store.wf(),
        store.has(id),
        store.job(id).status == JobStatus::Running,
        will_retry(kind, store.job(id).attempt, store.job(id).max_retries),
    ensures
        ({
            let before = store.job(id);
            let after = store.failed(id, error, kind, now).job(id);
            let delay = if pow2(before.attempt) < 3600 {
                pow2(before.attempt) as int
            } else {
                3600
            };
            &&& store.failed(id, error, kind, now).has(id)
            &&& after.status == JobStatus::Pending
            &&& after.attempt == before.attempt + 1
            &&& after.run_at - now == 1000 * delay
            &&& 1000 <= after.run_at - now <= 3_600_000
            &&& after.error_message == Some(error)
            &&& after.error_kind == Some(FailureKind::Retryable)
            &&& after.worker_id is None
            &&& after.lease_expires_at is None
        }),
{
    let p = store.position(id);
    let after = store.failed(id, error, kind, now);
    lemma_apply_wf(store, StoreOp::Fail { id, error, kind, now: 0 });
    lemma_backoff_bounds(store.job(id).attempt);
    assert(after.jobs[p].id == id);
    assert(after.wf()) by {
        assert forall|i: int| 0 <= i < after.jobs.len() implies (#[trigger] after.jobs[i]).wf()
            && after.jobs[i].id == store.jobs[i].id by {
            lemma_transitions(store.jobs[i], seq![], error, kind, now, now);
        }
    }
    lemma_job_at(after, p);
}

/// When a failure of a running job is not retried, because it is not
/// retryable or because no attempt is left, the job is dead-lettered with
/// its attempt number unchanged and its worker and lease cleared.
pub proof fn lemma_dead_letter(
    store: StoreView,
    id: u128,
    error: Seq<char>,
    kind: FailureKind,
    now: int,
)
    requires
        store.wf(),
        store.has(id),
        store.job(id).status == JobStatus::Running,
        !will_retry(kind, store.job(id).attempt, store.job(id).max_retries),
    ensures
        ({
            let before = store.job(id);
            let after = store.failed(id, error, kind, now).job(id);
            &&& store.failed(id, error, kind, now).has(id)
            &&& after.status == JobStatus::DeadLetter
            &&& after.attempt == before.attempt
            &&& after.run_at == before.run_at
            &&& after.error_message == Some(error)
            &&& after.error_kind == Some(kind)
            &&& after.worker_id is None
            &&& after.lease_expires_at is None
        }),
{
    let p = store.position(id);
    let after = store.failed(id, error, kind, now);
    assert(after.jobs[p].id == id);
    assert(after.wf()) by {
        assert forall|i: int| 0 <= i < after.jobs.len() implies (#[trigger] after.jobs[i]).wf()
            && after.jobs[i].id == store.jobs[i].id by {
            lemma_transitions(store.jobs[i], seq![], error, kind, now, now);
        }
    }
    lemma_job_at(after, p);
}

/// What a worker is handed is what was queued: a claimed job carries the
/// type and the payload that the job had in the store, the attempt number
/// that it had, and the version of the claim.
pub proof fn lemma_claimed_payload(
    store: StoreView,
    worker: Seq<char>,
    limit: nat,
    now: int,
    k: int,
)
    requires
        store.wf(),
        0 <= k < store.claim_batch(worker, limit, now).1.len(),
    ensures
        ({
            let ticket = store.claim_batch(worker, limit, now).1[k];
            let job = store.job(ticket.id);
            &&& store.has(ticket.id)
            &&& ticket.job_type == job.job_type
            &&& ticket.payload == job.payload
            &&& ticket.attempt == job.attempt
            &&& ticket.version >= job.version
        }),
{
    lemma_claim_batch(store, worker, limit, now);
    let positions = store.claim_positions(worker, limit, now);
    lemma_job_at(store, positions[k]);
}

/// Every job is counted once: the counts by status add up to the number of
/// jobs.
pub proof fn lemma_stats_total(store: StoreView)
    ensures
        ({
            let stats: QueueStatsView = store.stats();
            stats.pending + stats.running + stats.succeeded + stats.failed + stats.dead_letter
                == store.jobs.len()
        }),
    decreases store.jobs.len(),
{
    reveal(Seq::filter);
    if store.jobs.len() > 0 {
        lemma_stats_total(StoreView { jobs: store.jobs.drop_last(), ..store });
    }
}

/// A heartbeat keeps a job: after a heartbeat at `now`, no reclaim sweep
/// takes the running job away until a full lease has passed, and the first
/// sweep after that does.
pub proof fn lemma_heartbeat_protects(store: StoreView, id: u128, now: int, sweep: int)
    requires
        store.wf(),
        store.has(id),
        store.job(id).status == JobStatus::Running,
    ensures
        ({
            let kept = store.heartbeat(id, now);
            let after = kept.reclaimed(sweep);
            &&& kept.has(id)
            &&& after.has(id)
            &&& kept.job(id).lease_expires_at == Some(now + store.lease_ms)
            &&& (sweep <= now + store.lease_ms ==> after.job(id) == kept.job(id))
            &&& (sweep > now + store.lease_ms ==> after.job(id).status == JobStatus::Pending
                && after.job(id).attempt == store.job(id).attempt)
        }),
{
    let p = store.position(id);
    let kept = store.heartbeat(id, now);
    let after = kept.reclaimed(sweep);
    lemma_apply_wf(store, StoreOp::Heartbeat { id, now: 0 });
    assert(kept.wf()) by {
        assert forall|i: int| 0 <= i < kept.jobs.len() implies (#[trigger] kept.jobs[i]).wf()
            && kept.jobs[i].id == store.jobs[i].id by {
            lemma_transitions(
                store.jobs[i],
                seq![],
                seq![],
                FailureKind::Retryable,
                now,
                store.lease_until(now),
            );
        }
    }
    lemma_apply_wf(kept, StoreOp::Reclaim { now: sweep });
    assert(kept.jobs[p].id == id);
    assert(after.jobs[p].id == id);
    lemma_job_at(kept, p);
    lemma_job_at(after, p);
}

/// A lost lease is not brought back: a heartbeat for a job that is not
/// running, or not stored, changes nothing and is no error, whatever the
/// time. In particular a job that a reclaim sweep has made pending stays
/// pending, without worker and without lease, when its former worker sends
/// a heartbeat.
pub proof fn lemma_heartbeat_lost_lease(store: StoreView, id: u128, now: int)
    requires
        store.wf(),
        !store.holds(id),
    ensures
        store.heartbeat_result(id, now) == (store, Ok::<(), StoreError>(())),
{
    assert forall|k: int| 0 <= k < store.jobs.len() && (#[trigger] store.jobs[k]).id
        == id implies store.jobs[k].status != JobStatus::Running by {
        lemma_job_at(store, k);
    }
    assert(store.heartbeat(id, now).jobs =~= store.jobs);
}

/// A reclaimed job stays reclaimed under a late heartbeat: after a sweep at
/// `sweep` has taken the job from a worker whose lease had run out, that
/// worker's heartbeat at any time `now` is answered with `Ok`, and the job
/// is pending, without worker and without lease.
pub proof fn lemma_heartbeat_after_reclaim(store: StoreView, id: u128, sweep: int, now: int)
    requires
        store.wf(),
        store.has(id),
        store.job(id).lease_expired(sweep),
    ensures
        ({
            let swept = store.reclaimed(sweep);
            let (after, answer) = swept.heartbeat_result(id, now);
            &&& answer == Ok::<(), StoreError>(())
            &&& after == swept
            &&& after.has(id)
            &&& after.job(id).status == JobStatus::Pending
            &&& after.job(id).worker_id is None
            &&& after.job(id).lease_expires_at is None
            &&& after.job(id).attempt == store.job(id).attempt
        }),
{
    let p = store.position(id);
    let swept = store.reclaimed(sweep);
    lemma_apply_wf(store, StoreOp::Reclaim { now: sweep });
    assert(swept.jobs[p].id == id);
    lemma_job_at(swept, p);
    lemma_heartbeat_lost_lease(swept, id, now);
}

/// Backoff bound, for a failure reported at any time: when a failure of a
/// running job is to be retried, the job becomes due again after two to the
/// power of the failed attempt's number in seconds, at most an hour and at
/// least a second, and its attempt number goes up by one. The one exception
/// is a due time that cannot be represented: the failure is then answered
/// with an error and the job is left as it was. That never happens at a
/// time that the clock can show.
pub proof fn lemma_mark_failed_backoff(
    store: StoreView,
    id: u128,
    error: Seq<char>,
    kind: FailureKind,
    now: int,
)
    requires
        store.wf(),
        store.has(id),
        store.job(id).status == JobStatus::Running,
        will_retry(kind, store.job(id).attempt, store.job(id).max_retries),
    ensures
        ({
            let before = store.job(id);
            let (after, answer) = store.fail_result(id, error, kind, now);
            let delay = if pow2(before.attempt) < 3600 {
                pow2(before.attempt) as int
            } else {
                3600
            };
            &&& 1 <= delay <= 3600
            &&& (now + 1000 * delay <= i64::MAX ==> {
                &&& answer == Ok::<(), StoreError>(())
                &&& after.has(id)
                &&& after.job(id).status == JobStatus::Pending
                &&& after.job(id).attempt == before.attempt + 1
                &&& after.job(id).run_at - now == 1000 * delay
                &&& 1000 <= after.job(id).run_at - now <= 3_600_000
            })
            &&& (now + 1000 * delay > i64::MAX ==> answer == Err::<(), StoreError>(
                StoreError::TimeOutOfRange,
            ) && after == store)
            &&& (clock_reading(now) ==> now + 1000 * delay <= i64::MAX)
        }),
{
    lemma_backoff_bounds(store.job(id).attempt);
    lemma_retry_backoff(store, id, error, kind, now);
}

/// The table keeps the order of the inserts: after any number of records
/// were offered for insertion, the table is what it was, followed by the
/// records that were accepted, in the order in which they were offered.
/// Nothing is reordered, nothing is stored twice, and where every record was
/// accepted, the new part of the table is the offered records themselves,
/// whatever their due times.
pub proof fn lemma_inserts_in_order(store: StoreView, jobs: Seq<JobView>)
    requires
        store.wf(),
    ensures
        store.inserted_all(jobs).wf(),
        store.inserted_all(jobs).lease_ms == store.lease_ms,
        store.inserted_all(jobs).jobs == store.jobs + store.accepted_of(jobs),
        is_subsequence(store.accepted_of(jobs), jobs),
        store.accepts_all(jobs) ==> store.inserted_all(jobs).jobs == store.jobs + jobs,
{
    let at = lemma_accepted_embeds(store, jobs);
}

/// The accepted records are found among the offered ones, in order.
proof fn lemma_accepted_embeds(store: StoreView, jobs: Seq<JobView>) -> (at: Seq<int>)
    requires
        store.wf(),
    ensures
        store.inserted_all(jobs).wf(),
        store.inserted_all(jobs).lease_ms == store.lease_ms,
        store.inserted_all(jobs).jobs == store.jobs + store.accepted_of(jobs),
        embeds(store.accepted_of(jobs), jobs, at),
        store.accepts_all(jobs) ==> store.accepted_of(jobs) == jobs,
    decreases jobs.len(),
{
    if jobs.len() == 0 {
        assert(store.jobs + Seq::<JobView>::empty() =~= store.jobs);
        Seq::empty()
    } else {
        let earlier = jobs.drop_last();
        let at = lemma_accepted_embeds(store, earlier);
        let mid = store.inserted_all(earlier);
        lemma_apply_wf(mid, StoreOp::Insert { job: jobs.last() });
        if mid.insert_error(jobs.last()) is None {
            assert(store.inserted_all(jobs).jobs =~= store.jobs + store.accepted_of(jobs));
            if store.accepts_all(jobs) {
                assert(store.accepted_of(jobs) =~= jobs);
            }
            at.push(jobs.len() - 1)
        } else {
            at
        }
    }
}

} // verus!
