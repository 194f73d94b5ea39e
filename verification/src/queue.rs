//! The job-queue state machine: assignment, lease, completion, abandonment
//! and status counters, all as atomic mutations of the store.
//!
//! These operations do not touch the event bus themselves: the worker layer
//! (`crate::worker`) is the one caller of the mutating operations and
//! publishes `JobAcquired`, `JobAborted` and `JobCompleted` exactly when
//! they fire; its contracts state that coupling.

use vstd::prelude::*;

use crate::error::Error;
use crate::model::{
    AnalysisType, ApiUser, CreateGameAnalysis, CreateJob, GameId, Job, JobId, Key,
};
use crate::store::{
    has_job, job_idx, jobs_unique, lemma_store_evolves_refl, lemma_update_job, store_evolves,
    Store,
};

verus! {

/// A job a worker may take: in the free pool, or held under a lease that
/// expired before `now` without being completed. The worker must hold the
/// job's capability.
pub open spec fn assignable(j: Job, perms: Seq<AnalysisType>, now: u64, lease: u64) -> bool {
    &&& perms.contains(j.analysis_type)
    &&& match j.owner {
        None => true,
        Some(_) => !j.is_complete && j.date_last_updated + lease < now,
    }
}

/// Strict queue order: higher precedence first, then least recently updated.
pub open spec fn better(a: Job, b: Job) -> bool {
    ||| a.precedence > b.precedence
    ||| (a.precedence == b.precedence && a.date_last_updated < b.date_last_updated)
}

/// `i` is the job `assign_job` picks: assignable, no assignable job beats it,
/// and it is the first such job in store order.
pub open spec fn chosen_for_assign(
    jobs: Seq<Job>,
    i: int,
    perms: Seq<AnalysisType>,
    now: u64,
    lease: u64,
) -> bool {
    &&& 0 <= i < jobs.len()
    &&& assignable(jobs[i], perms, now, lease)
    &&& forall|k: int|
        0 <= k < jobs.len() && assignable(#[trigger] jobs[k], perms, now, lease) ==> !better(
            jobs[k],
            jobs[i],
        )
    &&& forall|k: int|
        0 <= k < i && assignable(#[trigger] jobs[k], perms, now, lease) ==> better(jobs[i], jobs[k])
}

/// The job as `assign_job` leaves it: leased to `key` from `now` on.
pub open spec fn with_owner(j: Job, key: Key, now: u64) -> Job {
    Job { owner: Some(key), date_last_updated: now, ..j }
}

/// The job as `unassign_job` leaves it: back in the free pool.
pub open spec fn with_owner_cleared(j: Job, now: u64) -> Job {
    Job { owner: None, date_last_updated: now, ..j }
}

/// The job as `set_complete` leaves it.
pub open spec fn with_complete(j: Job, now: u64) -> Job {
    Job { is_complete: true, date_last_updated: now, ..j }
}

/// `unassign_job` releases a job only while its given owner still holds it
/// and it is not complete: completed jobs keep their owner.
pub open spec fn unassign_match(j: Job, key: Seq<char>) -> bool {
    &&& match j.owner {
        Some(k) => k.0@ == key,
        None => false,
    }
    &&& !j.is_complete
}

/// `set_complete` fires only for the job's current owner, exactly once.
pub open spec fn complete_match(j: Job, key: Seq<char>) -> bool {
    &&& match j.owner {
        Some(k) => k.0@ == key,
        None => false,
    }
    &&& !j.is_complete
}

/// Atomically selects at most one assignable job — precedence descending,
/// then least recently updated, then store order — marks the worker its
/// owner, stamps it with `now`, and returns the job as stored, after the
/// mutation. `worker::acquire_job` wraps this and publishes `JobAcquired`
/// exactly on a match.
pub fn assign_job(store: &mut Store, api_user: &ApiUser, now: u64, lease: u64) -> (r: Option<Job>)
    requires
        old(store).wf(),
    ensures
        final(store).wf(),
        store_evolves(*old(store), *final(store)),
        final(store).reports == old(store).reports,
        final(store).games == old(store).games,
        final(store).analyses == old(store).analyses,
        final(store).api_users == old(store).api_users,
        final(store).next_job_id == old(store).next_job_id,
        final(store).next_report_id == old(store).next_report_id,
        match r {
            None => {
                &&& *final(store) == *old(store)
                &&& forall|k: int|
                    0 <= k < old(store).jobs@.len() ==> !assignable(
                        #[trigger] old(store).jobs@[k],
                        api_user.perms@,
                        now,
                        lease,
                    )
            },
            Some(j) => exists|i: int|
                #![auto]
                {
                    &&& chosen_for_assign(old(store).jobs@, i, api_user.perms@, now, lease)
                    &&& final(store).jobs@ == old(store).jobs@.update(
                        i,
                        with_owner(old(store).jobs@[i], api_user.key, now),
                    )
                    &&& j == final(store).jobs@[i]
                },
        },
{
    let ghost pre = *old(store);
    let n = store.jobs.len();
    let mut best: usize = 0;
    let mut found = false;
    let mut i: usize = 0;
    while i < n
        invariant
            *store == pre,
            pre.wf(),
            n == store.jobs@.len(),
            0 <= i <= n,
            !found ==> forall|k: int|
                0 <= k < i ==> !assignable(
                    #[trigger] store.jobs@[k],
                    api_user.perms@,
                    now,
                    lease,
                ),
            found ==> {
                &&& best < i
                &&& assignable(store.jobs@[best as int], api_user.perms@, now, lease)
                &&& forall|k: int|
                    0 <= k < i && assignable(#[trigger] store.jobs@[k], api_user.perms@, now, lease)
                        ==> !better(store.jobs@[k], store.jobs@[best as int])
                &&& forall|k: int|
                    0 <= k < best && assignable(
                        #[trigger] store.jobs@[k],
                        api_user.perms@,
                        now,
                        lease,
                    ) ==> better(store.jobs@[best as int], store.jobs@[k])
            },
        decreases n - i,
    {
        let may = api_user.may_serve(store.jobs[i].analysis_type);
        let j = &store.jobs[i];
        let lease_expired = now > lease && j.date_last_updated < now - lease;
        let candidate = may && (match &j.owner {
            None => true,
            Some(_) => !j.is_complete && lease_expired,
        });
        assert(candidate == assignable(store.jobs@[i as int], api_user.perms@, now, lease));
        if candidate {
            if !found {
                found = true;
                best = i;
            } else {
                let b = &store.jobs[best];
                let beats = j.precedence > b.precedence || (j.precedence == b.precedence
                    && j.date_last_updated < b.date_last_updated);
                if beats {
                    best = i;
                }
            }
        }
        i = i + 1;
    }
    if !found {
        proof {
            lemma_store_evolves_refl(pre);
        }
        return None;
    }
    let ghost bi = best as int;
    let mut updated = store.jobs[best].clone();
    updated.owner = Some(api_user.key.clone());
    updated.date_last_updated = now;
    let result = updated.clone();
    store.jobs.set(best, updated);
    proof {
        assert(chosen_for_assign(pre.jobs@, bi, api_user.perms@, now, lease));
        assert(store.jobs@[bi] == with_owner(pre.jobs@[bi], api_user.key, now));
        lemma_update_job(pre, *store, bi);
    }
    Some(result)
}

/// Puts a job back into the free pool, only while the calling worker still
/// owns it and it is not complete. Idempotent: a second call finds no owner
/// and changes nothing. `worker::abort_job` wraps this and publishes
/// `JobAborted` exactly when it returns true.
pub fn unassign_job(store: &mut Store, api_user: &ApiUser, id: JobId, now: u64) -> (r: bool)
    requires
        old(store).wf(),
    ensures
        final(store).wf(),
        store_evolves(*old(store), *final(store)),
        final(store).reports == old(store).reports,
        final(store).games == old(store).games,
        final(store).analyses == old(store).analyses,
        final(store).api_users == old(store).api_users,
        final(store).next_job_id == old(store).next_job_id,
        final(store).next_report_id == old(store).next_report_id,
        r == (has_job(old(store).jobs@, id.0) && unassign_match(
            old(store).jobs@[job_idx(old(store).jobs@, id.0)],
            api_user.key.0@,
        )),
        r ==> final(store).jobs@ == old(store).jobs@.update(
            job_idx(old(store).jobs@, id.0),
            with_owner_cleared(old(store).jobs@[job_idx(old(store).jobs@, id.0)], now),
        ),
        !r ==> *final(store) == *old(store),
{
    let ghost pre = *old(store);
    let n = store.jobs.len();
    let mut i: usize = 0;
    while i < n
        invariant
            *store == pre,
            pre == *old(store),
            pre.wf(),
            n == store.jobs@.len(),
            0 <= i <= n,
            forall|k: int| 0 <= k < i ==> #[trigger] store.jobs@[k].id.0 != id.0,
        decreases n - i,
    {
        if store.jobs[i].id.0 == id.0 {
            proof {
                assert(has_job(store.jobs@, id.0));
                let j = job_idx(store.jobs@, id.0);
                assert(store.jobs@[j].id.0 == id.0);
                assert(j == i);
            }
            let owned = match &store.jobs[i].owner {
                Some(k) => k.matches(&api_user.key),
                None => false,
            };
            if owned && !store.jobs[i].is_complete {
                let mut updated = store.jobs[i].clone();
                updated.owner = None;
                updated.date_last_updated = now;
                store.jobs.set(i, updated);
                proof {
                    assert(store.jobs@[i as int] == with_owner_cleared(pre.jobs@[i as int], now));
                    lemma_update_job(pre, *store, i as int);
                }
                return true;
            } else {
                proof {
                    lemma_store_evolves_refl(pre);
                }
                return false;
            }
        }
        i = i + 1;
    }
    proof {
        lemma_store_evolves_refl(pre);
    }
    false
}

/// Marks a job complete, only where the calling worker owns it and it is not
/// yet complete. Returns whether it fired; `worker::save_job_analysis` wraps
/// the completion and publishes `JobCompleted` exactly then.
pub fn set_complete(store: &mut Store, api_user: &ApiUser, id: JobId, now: u64) -> (r: bool)
    requires
        old(store).wf(),
    ensures
        final(store).wf(),
        store_evolves(*old(store), *final(store)),
        final(store).reports == old(store).reports,
        final(store).games == old(store).games,
        final(store).analyses == old(store).analyses,
        final(store).api_users == old(store).api_users,
        final(store).next_job_id == old(store).next_job_id,
        final(store).next_report_id == old(store).next_report_id,
        r == (has_job(old(store).jobs@, id.0) && complete_match(
            old(store).jobs@[job_idx(old(store).jobs@, id.0)],
            api_user.key.0@,
        )),
        r ==> final(store).jobs@ == old(store).jobs@.update(
            job_idx(old(store).jobs@, id.0),
            with_complete(old(store).jobs@[job_idx(old(store).jobs@, id.0)], now),
        ),
        !r ==> *final(store) == *old(store),
{
    let ghost pre = *old(store);
    let n = store.jobs.len();
    let mut i: usize = 0;
    while i < n
        invariant
            *store == pre,
            pre == *old(store),
            pre.wf(),
            n == store.jobs@.len(),
            0 <= i <= n,
            forall|k: int| 0 <= k < i ==> #[trigger] store.jobs@[k].id.0 != id.0,
        decreases n - i,
    {
        if store.jobs[i].id.0 == id.0 {
            proof {
                assert(has_job(store.jobs@, id.0));
                let j = job_idx(store.jobs@, id.0);
                assert(store.jobs@[j].id.0 == id.0);
                assert(j == i);
            }
            let owned = match &store.jobs[i].owner {
                Some(k) => k.matches(&api_user.key),
                None => false,
            };
            if owned && !store.jobs[i].is_complete {
                let mut updated = store.jobs[i].clone();
                updated.is_complete = true;
                updated.date_last_updated = now;
                store.jobs.set(i, updated);
                proof {
                    assert(store.jobs@[i as int] == with_complete(pre.jobs@[i as int], now));
                    lemma_update_job(pre, *store, i as int);
                }
                return true;
            } else {
                proof {
                    lemma_store_evolves_refl(pre);
                }
                return false;
            }
        }
        i = i + 1;
    }
    proof {
        lemma_store_evolves_refl(pre);
    }
    false
}

/// Completes a job in one stroke: stores the analysis record and marks the
/// job complete, where the calling worker owns the incomplete job. Where it
/// does not, nothing is stored at all — the analysis insert is rolled back
/// rather than left as an orphan.
pub fn complete_job(
    store: &mut Store,
    api_user: &ApiUser,
    id: JobId,
    analysis: CreateGameAnalysis,
    now: u64,
) -> (r: bool)
    requires
        old(store).wf(),
        analysis.job_id == id,
    ensures
        final(store).wf(),
        store_evolves(*old(store), *final(store)),
        final(store).reports == old(store).reports,
        final(store).games == old(store).games,
        final(store).api_users == old(store).api_users,
        final(store).next_job_id == old(store).next_job_id,
        final(store).next_report_id == old(store).next_report_id,
        r == (has_job(old(store).jobs@, id.0) && complete_match(
            old(store).jobs@[job_idx(old(store).jobs@, id.0)],
            api_user.key.0@,
        )),
        r ==> final(store).jobs@ == old(store).jobs@.update(
            job_idx(old(store).jobs@, id.0),
            with_complete(old(store).jobs@[job_idx(old(store).jobs@, id.0)], now),
        ),
        r ==> final(store).analyses@ == old(store).analyses@.push(analysis.spec_game_analysis()),
        !r ==> *final(store) == *old(store),
{
    let fired = set_complete(store, api_user, id, now);
    if fired {
        let ghost mid = *store;
        let record = analysis.into_game_analysis();
        store.insert_analysis(record);
        proof {
            crate::store::lemma_store_evolves_trans(*old(store), mid, *store);
        }
    }
    fired
}

/// Removes a job outright; the data-integrity guard for jobs whose game is
/// missing from the store.
pub fn delete_job(store: &mut Store, id: JobId) -> (r: bool)
    requires
        old(store).wf(),
    ensures
        final(store).wf(),
        store_evolves(*old(store), *final(store)),
        final(store).reports == old(store).reports,
        final(store).games == old(store).games,
        final(store).analyses == old(store).analyses,
        final(store).api_users == old(store).api_users,
        final(store).next_job_id == old(store).next_job_id,
        final(store).next_report_id == old(store).next_report_id,
        r == has_job(old(store).jobs@, id.0),
        r ==> final(store).jobs@ == old(store).jobs@.remove(job_idx(old(store).jobs@, id.0)),
        !r ==> *final(store) == *old(store),
{
    let ghost pre = *old(store);
    let n = store.jobs.len();
    let mut i: usize = 0;
    while i < n
        invariant
            *store == pre,
            pre == *old(store),
            pre.wf(),
            n == store.jobs@.len(),
            0 <= i <= n,
            forall|k: int| 0 <= k < i ==> #[trigger] store.jobs@[k].id.0 != id.0,
        decreases n - i,
    {
        if store.jobs[i].id.0 == id.0 {
            proof {
                assert(has_job(store.jobs@, id.0));
                let j = job_idx(store.jobs@, id.0);
                assert(store.jobs@[j].id.0 == id.0);
                assert(j == i);
            }
            self_remove(store, i);
            return true;
        }
        i = i + 1;
    }
    proof {
        lemma_store_evolves_refl(pre);
    }
    false
}

/// Removes the job at `i` and re-establishes the invariants.
fn self_remove(store: &mut Store, i: usize)
    requires
        old(store).wf(),
        0 <= i < old(store).jobs@.len(),
    ensures
        final(store).wf(),
        store_evolves(*old(store), *final(store)),
        final(store).jobs@ == old(store).jobs@.remove(i as int),
        final(store).reports == old(store).reports,
        final(store).games == old(store).games,
        final(store).analyses == old(store).analyses,
        final(store).api_users == old(store).api_users,
        final(store).next_job_id == old(store).next_job_id,
        final(store).next_report_id == old(store).next_report_id,
{
    let ghost pre = *old(store);
    store.jobs.remove(i);
    proof {
        let post = *store;
        let nj = post.jobs@;
        let oj = pre.jobs@;
        assert forall|a: int, b: int|
            0 <= a < b < nj.len() implies #[trigger] nj[a].id.0 != #[trigger] nj[b].id.0 by {
            let oa = if a < i as int {
                a
            } else {
                a + 1
            };
            let ob = if b < i as int {
                b
            } else {
                b + 1
            };
            assert(nj[a] == oj[oa] && nj[b] == oj[ob]);
            assert(oj[oa].id.0 != oj[ob].id.0);
        }
        assert forall|a: int|
            0 <= a < nj.len() implies ((#[trigger] nj[a]).id.0 < post.next_job_id && (
            nj[a].is_complete ==> nj[a].owner is Some) && (nj[a].id.0 >= pre.next_job_id || has_job(
                oj,
                nj[a].id.0,
            ))) by {
            let oa = if a < i as int {
                a
            } else {
                a + 1
            };
            assert(nj[a] == oj[oa]);
            assert(0 <= oa < oj.len() && oj[oa].id.0 == nj[a].id.0);
        }
        assert forall|k: int| 0 <= k < post.reports@.len() implies (#[trigger] post.reports@[k]).id.0
            >= pre.next_report_id || crate::store::has_report(
            pre.reports@,
            post.reports@[k].id.0,
        ) by {
            assert(0 <= k < pre.reports@.len() && pre.reports@[k].id.0 == post.reports@[k].id.0);
        }
        assert forall|a: int, k: int|
            0 <= a < oj.len() && 0 <= k < nj.len() && #[trigger] oj[a].id.0 == #[trigger] nj[k].id.0
                && oj[a].is_complete implies nj[k].is_complete by {
            let ok = if k < i as int {
                k
            } else {
                k + 1
            };
            assert(nj[k] == oj[ok]);
            if a != ok {
                assert(oj[a].id.0 != oj[ok].id.0);
            }
        }
        assert forall|a: int, k: int|
            0 <= a < pre.reports@.len() && 0 <= k < post.reports@.len()
                && #[trigger] pre.reports@[a].id.0 == #[trigger] post.reports@[k].id.0
                && pre.reports@[a].sent_to_irwin implies post.reports@[k].sent_to_irwin by {
            if a != k {
                assert(pre.reports@[a].id.0 != pre.reports@[k].id.0);
            }
        }
    }
}

/// Looks a job up, returning it only if the given worker owns it.
pub fn get_user_job<'a>(store: &'a Store, id: JobId, api_user: &ApiUser) -> (r: Option<&'a Job>)
    requires
        store.wf(),
    ensures
        match r {
            Some(j) => {
                &&& has_job(store.jobs@, id.0)
                &&& *j == store.jobs@[job_idx(store.jobs@, id.0)]
                &&& j.owner matches Some(k) && k.0@ == api_user.key.0@
            },
            None => !(has_job(store.jobs@, id.0) && match store.jobs@[job_idx(
                store.jobs@,
                id.0,
            )].owner {
                Some(k) => k.0@ == api_user.key.0@,
                None => false,
            }),
        },
{
    match store.find_job(id) {
        Some(j) => {
            let owned = match &j.owner {
                Some(k) => k.matches(&api_user.key),
                None => false,
            };
            if owned {
                Some(j)
            } else {
                None
            }
        },
        None => None,
    }
}

/// Looks a job up by id.
pub fn get_job(store: &Store, id: JobId) -> (r: Option<&Job>)
    requires
        store.wf(),
    ensures
        match r {
            Some(j) => {
                &&& has_job(store.jobs@, id.0)
                &&& *j == store.jobs@[job_idx(store.jobs@, id.0)]
                &&& j.id == id
            },
            None => !has_job(store.jobs@, id.0),
        },
{
    store.find_job(id)
}

/// The game a job points at, if the job exists.
pub fn game_id_for_job_id(store: &Store, id: JobId) -> (r: Option<GameId>)
    requires
        store.wf(),
    ensures
        match r {
            Some(g) => has_job(store.jobs@, id.0) && g.0@ == store.jobs@[job_idx(
                store.jobs@,
                id.0,
            )].game_id.0@,
            None => !has_job(store.jobs@, id.0),
        },
{
    match store.find_job(id) {
        Some(j) => Some(j.game_id.clone()),
        None => None,
    }
}

/// Registers a worker key.
pub fn create_api_user(store: &mut Store, api_user: ApiUser) -> (r: Result<(), Error>)
    requires
        old(store).wf(),
        api_user.wf(),
    ensures
        final(store).wf(),
        store_evolves(*old(store), *final(store)),
        match r {
            Ok(()) => {
                &&& !crate::store::has_api_key(old(store).api_users@, api_user.key.0@)
                &&& final(store).api_users@ == old(store).api_users@.push(api_user)
            },
            Err(e) => {
                &&& e == Error::Conflict
                &&& crate::store::has_api_key(old(store).api_users@, api_user.key.0@)
                &&& *final(store) == *old(store)
            },
        },
{
    store.insert_api_user(api_user)
}

/// Resolves a key to its worker, if registered.
pub fn get_api_user<'a>(store: &'a Store, key: &Key) -> (r: Option<&'a ApiUser>)
    requires
        store.wf(),
    ensures
        match r {
            Some(u) => crate::store::has_api_key(store.api_users@, key.0@) && u.key.0@ == key.0@
                && u.wf() && *u == store.api_users@[crate::store::api_key_idx(
                store.api_users@,
                key.0@,
            )],
            None => !crate::store::has_api_key(store.api_users@, key.0@),
        },
{
    store.find_api_user(key)
}

/// Queue depth as reported to workers and operators.
#[derive(Clone, Copy, Debug, PartialEq, Eq, Structural)]
pub struct QStatus {
    pub acquired: u64,
    pub queued: u64,
    pub oldest: u64,
}

/// What `/key/{k}` reports about a key.
#[derive(Clone, Copy, Debug, PartialEq, Eq, Structural)]
pub enum KeyStatus {
    Unknown,
    Active,
    Inactive,
}

/// A job of this type waiting in the free pool.
pub open spec fn is_queued(j: Job, t: AnalysisType) -> bool {
    j.analysis_type == t && !j.is_complete && j.owner is None
}

/// A job of this type currently held by a worker.
pub open spec fn is_acquired(j: Job, t: AnalysisType) -> bool {
    j.analysis_type == t && !j.is_complete && j.owner is Some
}

/// A finished job of this type.
pub open spec fn is_completed(j: Job, t: AnalysisType) -> bool {
    j.analysis_type == t && j.is_complete
}

/// The predicates above, as values usable with `count_jobs`.
pub open spec fn queued_pred(t: AnalysisType) -> spec_fn(Job) -> bool {
    |j: Job| is_queued(j, t)
}

pub open spec fn acquired_pred(t: AnalysisType) -> spec_fn(Job) -> bool {
    |j: Job| is_acquired(j, t)
}

pub open spec fn completed_pred(t: AnalysisType) -> spec_fn(Job) -> bool {
    |j: Job| is_completed(j, t)
}

pub open spec fn of_type_pred(t: AnalysisType) -> spec_fn(Job) -> bool {
    |j: Job| j.analysis_type == t
}

/// How many jobs satisfy `p`.
pub open spec fn count_jobs(jobs: Seq<Job>, p: spec_fn(Job) -> bool) -> nat
    decreases jobs.len(),
{
    if jobs.len() == 0 {
        0
    } else {
        count_jobs(jobs.drop_last(), p) + if p(jobs.last()) {
            1nat
        } else {
            0nat
        }
    }
}

/// The least `date_last_updated` over the queued jobs of this type.
pub open spec fn oldest_queued_date(jobs: Seq<Job>, t: AnalysisType) -> Option<u64>
    decreases jobs.len(),
{
    if jobs.len() == 0 {
        None
    } else {
        let rest = oldest_queued_date(jobs.drop_last(), t);
        if is_queued(jobs.last(), t) {
            match rest {
                None => Some(jobs.last().date_last_updated),
                Some(d) => if d <= jobs.last().date_last_updated {
                    Some(d)
                } else {
                    Some(jobs.last().date_last_updated)
                },
            }
        } else {
            rest
        }
    }
}

/// Queued, acquired and completed partition the jobs of one type: together
/// they count every job ever created for it that is still in the store.
pub proof fn lemma_status_partition(jobs: Seq<Job>, t: AnalysisType)
    ensures
        count_jobs(jobs, queued_pred(t)) + count_jobs(jobs, acquired_pred(t)) + count_jobs(
            jobs,
            completed_pred(t),
        ) == count_jobs(jobs, of_type_pred(t)),
    decreases jobs.len(),
{
    if jobs.len() > 0 {
        lemma_status_partition(jobs.drop_last(), t);
    }
}

/// Counting never exceeds the number of jobs.
pub proof fn lemma_count_jobs_le_len(jobs: Seq<Job>, p: spec_fn(Job) -> bool)
    ensures
        count_jobs(jobs, p) <= jobs.len(),
    decreases jobs.len(),
{
    if jobs.len() > 0 {
        lemma_count_jobs_le_len(jobs.drop_last(), p);
    }
}

/// The queue standing `q_status` reports for one analysis type.
pub open spec fn spec_q_status(jobs: Seq<Job>, t: AnalysisType, now: u64) -> QStatus {
    QStatus {
        acquired: count_jobs(jobs, acquired_pred(t)) as u64,
        queued: count_jobs(jobs, queued_pred(t)) as u64,
        oldest: match oldest_queued_date(jobs, t) {
            None => 0u64,
            Some(d) => if d < now {
                ((now - d) / 1000) as u64
            } else {
                0u64
            },
        },
    }
}

/// Counts the queue's standing for one analysis type: jobs held under a live
/// lease, jobs waiting, and how many seconds the longest-waiting job has
/// waited.
pub fn q_status(store: &Store, t: AnalysisType, now: u64) -> (r: QStatus)
    requires
        store.wf(),
    ensures
        r == spec_q_status(store.jobs@, t, now),
        r.acquired == count_jobs(store.jobs@, acquired_pred(t)),
        r.queued == count_jobs(store.jobs@, queued_pred(t)),
        r.oldest == match oldest_queued_date(store.jobs@, t) {
            None => 0u64,
            Some(d) => if d < now {
                ((now - d) / 1000) as u64
            } else {
                0u64
            },
        },
{
    let n = store.jobs.len();
    let mut acquired: u64 = 0;
    let mut queued: u64 = 0;
    let mut oldest_date: Option<u64> = None;
    let mut i: usize = 0;
    while i < n
        invariant
            n == store.jobs@.len(),
            0 <= i <= n,
            acquired == count_jobs(store.jobs@.take(i as int), acquired_pred(t)),
            queued == count_jobs(store.jobs@.take(i as int), queued_pred(t)),
            acquired <= i,
            queued <= i,
            oldest_date == oldest_queued_date(store.jobs@.take(i as int), t),
        decreases n - i,
    {
        let ghost prefix = store.jobs@.take(i as int);
        let ghost prefix1 = store.jobs@.take(i as int + 1);
        proof {
            assert(prefix1.drop_last() =~= prefix);
            assert(prefix1.last() == store.jobs@[i as int]);
        }
        let j = &store.jobs[i];
        let type_match = j.analysis_type == t;
        if type_match && !j.is_complete {
            match &j.owner {
                Some(_) => {
                    acquired = acquired + 1;
                },
                None => {
                    queued = queued + 1;
                    oldest_date = match oldest_date {
                        None => Some(j.date_last_updated),
                        Some(d) => if d <= j.date_last_updated {
                            Some(d)
                        } else {
                            Some(j.date_last_updated)
                        },
                    };
                },
            }
        }
        i = i + 1;
    }
    proof {
        assert(store.jobs@.take(n as int) =~= store.jobs@);
        lemma_count_jobs_le_len(store.jobs@, acquired_pred(t));
        lemma_count_jobs_le_len(store.jobs@, queued_pred(t));
    }
    let oldest: u64 = match oldest_date {
        None => 0,
        Some(d) => if d < now {
            (now - d) / 1000
        } else {
            0
        },
    };
    QStatus { acquired, queued, oldest }
}

/// What the status endpoint reports about the caller's key: any key that
/// resolves to a worker is active.
pub fn key_status(api_user: Option<&ApiUser>) -> (r: Option<KeyStatus>)
    ensures
        r is Some <==> api_user is Some,
        r matches Some(s) ==> s == KeyStatus::Active,
{
    match api_user {
        Some(_) => Some(KeyStatus::Active),
        None => None,
    }
}

/// Every complete job has an owner, in every well-formed store; nothing the
/// library offers leaves this invariant.
pub proof fn lemma_complete_jobs_are_owned(s: Store)
    requires
        s.wf(),
    ensures
        crate::store::jobs_owned_when_complete(s.jobs@),
{
}

/// A job's completeness is monotonic across any sequence of API calls: every
/// operation ensures `store_evolves`, which carries this clause, and
/// `lemma_store_evolves_trans` chains it.
pub proof fn lemma_is_complete_monotonic(pre: Store, post: Store)
    requires
        store_evolves(pre, post),
    ensures
        crate::store::completes_monotonic(pre.jobs@, post.jobs@),
{
}

/// No two workers obtain the same job unless the first worker's lease has
/// expired: if one `assign_job` hands a job to one worker and a later
/// `assign_job` hands the same job to a different worker, then the second
/// call ran after the first lease ran out.
pub proof fn lemma_no_double_assign(
    s0: Store,
    s1: Store,
    u1: ApiUser,
    u2: ApiUser,
    now1: u64,
    now2: u64,
    lease: u64,
    i1: int,
    i2: int,
)
    requires
        s0.wf(),
        chosen_for_assign(s0.jobs@, i1, u1.perms@, now1, lease),
        s1.jobs@ == s0.jobs@.update(i1, with_owner(s0.jobs@[i1], u1.key, now1)),
        chosen_for_assign(s1.jobs@, i2, u2.perms@, now2, lease),
        s0.jobs@[i1].id.0 == s1.jobs@[i2].id.0,
        u1.key.0@ != u2.key.0@,
    ensures
        now1 + lease < now2,
{
    if i1 != i2 {
        // distinct indices would carry distinct ids
        assert(s1.jobs@[i2] == s0.jobs@[i2]);
        assert(jobs_unique(s0.jobs@));
        if i1 < i2 {
            assert(s0.jobs@[i1].id.0 != s0.jobs@[i2].id.0);
        } else {
            assert(s0.jobs@[i2].id.0 != s0.jobs@[i1].id.0);
        }
    }
    assert(s1.jobs@[i1] == with_owner(s0.jobs@[i1], u1.key, now1));
    assert(assignable(s1.jobs@[i1], u2.perms@, now2, lease));
}

/// The queue picks at most one job: the index `chosen_for_assign` describes
/// is unique, so `assign_job`'s contract pins exactly one job.
pub proof fn lemma_chosen_for_assign_unique(
    jobs: Seq<Job>,
    i1: int,
    i2: int,
    perms: Seq<AnalysisType>,
    now: u64,
    lease: u64,
)
    requires
        chosen_for_assign(jobs, i1, perms, now, lease),
        chosen_for_assign(jobs, i2, perms, now, lease),
    ensures
        i1 == i2,
{
    if i1 < i2 {
        assert(better(jobs[i2], jobs[i1]));
        assert(!better(jobs[i2], jobs[i1]));
    } else if i2 < i1 {
        assert(better(jobs[i1], jobs[i2]));
        assert(!better(jobs[i1], jobs[i2]));
    }
}

/// An expired lease makes a job reclaimable by any worker holding its
/// capability: a leased, incomplete job whose lease ran out before `now` is
/// assignable to whoever asks, and where no assignable job outranks it or
/// precedes it in store order it is the job `assign_job` picks — by
/// `lemma_chosen_for_assign_unique` and `assign_job`'s contract, that call
/// returns exactly this job, freshly leased to the caller.
pub proof fn lemma_expired_lease_reclaimable(
    jobs: Seq<Job>,
    i: int,
    perms: Seq<AnalysisType>,
    now: u64,
    lease: u64,
)
    requires
        0 <= i < jobs.len(),
        jobs[i].owner is Some,
        !jobs[i].is_complete,
        jobs[i].date_last_updated + lease < now,
        perms.contains(jobs[i].analysis_type),
        forall|k: int|
            0 <= k < jobs.len() && assignable(#[trigger] jobs[k], perms, now, lease) ==> !better(
                jobs[k],
                jobs[i],
            ),
        forall|k: int|
            0 <= k < i && assignable(#[trigger] jobs[k], perms, now, lease) ==> better(
                jobs[i],
                jobs[k],
            ),
    ensures
        assignable(jobs[i], perms, now, lease),
        chosen_for_assign(jobs, i, perms, now, lease),
{
}

/// Opens one job per creation payload, in order, each under a fresh id.
pub fn insert_many_jobs(store: &mut Store, jobs: Vec<CreateJob>, now: u64) -> (ids: Vec<JobId>)
    requires
        old(store).wf(),
        old(store).next_job_id + jobs@.len() <= u64::MAX,
    ensures
        final(store).wf(),
        store_evolves(*old(store), *final(store)),
        final(store).reports == old(store).reports,
        final(store).games == old(store).games,
        final(store).analyses == old(store).analyses,
        final(store).api_users == old(store).api_users,
        final(store).next_report_id == old(store).next_report_id,
        final(store).next_job_id == old(store).next_job_id + jobs@.len(),
        ids@.len() == jobs@.len(),
        final(store).jobs@.len() == old(store).jobs@.len() + jobs@.len(),
        final(store).jobs@.take(old(store).jobs@.len() as int) == old(store).jobs@,
        forall|k: int|
            0 <= k < jobs@.len() ==> {
                &&& (#[trigger] ids@[k]).0 == old(store).next_job_id + k
                &&& final(store).jobs@[old(store).jobs@.len() + k] == jobs@[k].spec_job(
                    ids@[k],
                    now,
                )
            },
{
    let ghost pre = *old(store);
    let ghost jobs0 = jobs@;
    let mut ids: Vec<JobId> = Vec::new();
    let n = jobs.len();
    let mut jobs = jobs;
    let mut k: usize = 0;
    proof {
        lemma_store_evolves_refl(pre);
    }
    // consume from the front to keep indices aligned
    while k < n
        invariant
            pre.wf(),
            store.wf(),
            store_evolves(pre, *store),
            0 <= k <= n,
            jobs@.len() == n - k,
            ids@.len() == k,
            pre.next_job_id + n <= u64::MAX,
            store.next_job_id == pre.next_job_id + k,
            store.reports == pre.reports,
            store.games == pre.games,
            store.analyses == pre.analyses,
            store.api_users == pre.api_users,
            store.next_report_id == pre.next_report_id,
            store.jobs@.len() == pre.jobs@.len() + k,
            store.jobs@.take(pre.jobs@.len() as int) == pre.jobs@,
            forall|t: int|
                0 <= t < k ==> {
                    &&& (#[trigger] ids@[t]).0 == pre.next_job_id + t
                    &&& store.jobs@[pre.jobs@.len() + t] == jobs0[t].spec_job(ids@[t], now)
                },
            forall|t: int| 0 <= t < n - k ==> #[trigger] jobs@[t] == jobs0[k + t],
        decreases n - k,
    {
        let ghost prev = *store;
        let c = jobs.remove(0);
        let id = store.insert_job(c, now);
        ids.push(id);
        k = k + 1;
        proof {
            crate::store::lemma_store_evolves_trans(pre, prev, *store);
            assert(store.jobs@.take(pre.jobs@.len() as int) =~= pre.jobs@);
        }
    }
    ids
}

} // verus!
