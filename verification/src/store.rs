//! The in-memory document store the state machines run against.
//!
//! One collection per entity, each keyed as the data model prescribes: jobs
//! and reports by ids the store itself hands out, games by their canonical
//! id, workers by their key. Mutations on a single document are atomic from
//! the callers' point of view, which is all the queue relies on.

use vstd::prelude::*;

use crate::model::{ApiUser, Game, GameAnalysis, Job, Report};

verus! {

/// Connection parameters for a persistent backing store; the library itself
/// keeps everything in memory and leaves durability to its surroundings.
#[derive(Debug)]
pub struct ConnectionOpts {
    pub mongo_uri: String,
    pub mongo_database: String,
}

/// True when some job in `jobs` has the given id.
pub open spec fn has_job(jobs: Seq<Job>, id: u64) -> bool {
    exists|i: int| 0 <= i < jobs.len() && jobs[i].id.0 == id
}

/// The index of the job with the given id.
pub open spec fn job_idx(jobs: Seq<Job>, id: u64) -> int {
    choose|i: int| 0 <= i < jobs.len() && jobs[i].id.0 == id
}

/// True when some report in `reports` has the given id.
pub open spec fn has_report(reports: Seq<Report>, id: u64) -> bool {
    exists|i: int| 0 <= i < reports.len() && reports[i].id.0 == id
}

/// The index of the report with the given id.
pub open spec fn report_idx(reports: Seq<Report>, id: u64) -> int {
    choose|i: int| 0 <= i < reports.len() && reports[i].id.0 == id
}

/// True when some game in `games` has the given id.
pub open spec fn has_game(games: Seq<Game>, id: Seq<char>) -> bool {
    exists|i: int| 0 <= i < games.len() && games[i].id.0@ == id
}

/// The index of the game with the given id.
pub open spec fn game_idx(games: Seq<Game>, id: Seq<char>) -> int {
    choose|i: int| 0 <= i < games.len() && games[i].id.0@ == id
}

/// True when some worker in `users` holds the given key.
pub open spec fn has_api_key(users: Seq<ApiUser>, key: Seq<char>) -> bool {
    exists|i: int| 0 <= i < users.len() && users[i].key.0@ == key
}

/// The index of the worker holding the given key.
pub open spec fn api_key_idx(users: Seq<ApiUser>, key: Seq<char>) -> int {
    choose|i: int| 0 <= i < users.len() && users[i].key.0@ == key
}

/// True when some stored analysis belongs to the given job.
pub open spec fn has_analysis(analyses: Seq<GameAnalysis>, job_id: u64) -> bool {
    exists|i: int| 0 <= i < analyses.len() && analyses[i].job_id.0 == job_id
}

/// `ai` is the newest stored analysis of job `job_id`.
pub open spec fn is_last_analysis(analyses: Seq<GameAnalysis>, job_id: u64, ai: int) -> bool {
    &&& 0 <= ai < analyses.len()
    &&& analyses[ai].job_id.0 == job_id
    &&& forall|k: int| ai < k < analyses.len() ==> (#[trigger] analyses[k]).job_id.0 != job_id
}

/// No two jobs share an id.
pub open spec fn jobs_unique(jobs: Seq<Job>) -> bool {
    forall|i: int, j: int|
        0 <= i < j < jobs.len() ==> #[trigger] jobs[i].id.0 != #[trigger] jobs[j].id.0
}

/// Every complete job has an owner: only an owner completes.
pub open spec fn jobs_owned_when_complete(jobs: Seq<Job>) -> bool {
    forall|i: int| 0 <= i < jobs.len() && (#[trigger] jobs[i]).is_complete ==> jobs[i].owner is Some
}

/// A job that survives an operation never goes back from complete to
/// incomplete.
pub open spec fn completes_monotonic(pre: Seq<Job>, post: Seq<Job>) -> bool {
    forall|i: int, k: int|
        0 <= i < pre.len() && 0 <= k < post.len() && #[trigger] pre[i].id.0
            == #[trigger] post[k].id.0 && pre[i].is_complete ==> post[k].is_complete
}

/// A report that survives an operation never goes back from dispatched to
/// undispatched.
pub open spec fn reports_monotonic(pre: Seq<Report>, post: Seq<Report>) -> bool {
    forall|i: int, k: int|
        0 <= i < pre.len() && 0 <= k < post.len() && #[trigger] pre[i].id.0
            == #[trigger] post[k].id.0 && pre[i].sent_to_irwin ==> post[k].sent_to_irwin
}

/// How any library operation may change the store: id counters only grow, an
/// id present afterwards is either fresh or was already present (ids are
/// never reused), completeness and the dispatch latch are monotonic.
///
/// Every mutating operation of the library ensures this relation between its
/// pre- and post-state, so it holds across any sequence of API calls by
/// [`lemma_store_evolves_trans`].
pub open spec fn store_evolves(pre: Store, post: Store) -> bool {
    &&& pre.next_job_id <= post.next_job_id
    &&& pre.next_report_id <= post.next_report_id
    &&& forall|k: int|
        0 <= k < post.jobs@.len() ==> (#[trigger] post.jobs@[k]).id.0 >= pre.next_job_id
            || has_job(pre.jobs@, post.jobs@[k].id.0)
    &&& forall|k: int|
        0 <= k < post.reports@.len() ==> (#[trigger] post.reports@[k]).id.0 >= pre.next_report_id
            || has_report(pre.reports@, post.reports@[k].id.0)
    &&& completes_monotonic(pre.jobs@, post.jobs@)
    &&& reports_monotonic(pre.reports@, post.reports@)
}

/// Evolution is reflexive on well-formed stores.
pub proof fn lemma_store_evolves_refl(s: Store)
    requires
        s.wf(),
    ensures
        store_evolves(s, s),
{
    assert forall|i: int, k: int|
        0 <= i < s.jobs@.len() && 0 <= k < s.jobs@.len() && #[trigger] s.jobs@[i].id.0
            == #[trigger] s.jobs@[k].id.0 && s.jobs@[i].is_complete implies s.jobs@[k].is_complete by {
        if i != k {
            assert(s.jobs@[i].id.0 != s.jobs@[k].id.0);
        }
    }
    assert forall|i: int, k: int|
        0 <= i < s.reports@.len() && 0 <= k < s.reports@.len() && #[trigger] s.reports@[i].id.0
            == #[trigger] s.reports@[k].id.0 && s.reports@[i].sent_to_irwin implies s.reports@[k].sent_to_irwin by {
        if i != k {
            assert(s.reports@[i].id.0 != s.reports@[k].id.0);
        }
    }
    assert forall|k: int| 0 <= k < s.jobs@.len() implies (#[trigger] s.jobs@[k]).id.0
        >= s.next_job_id || has_job(s.jobs@, s.jobs@[k].id.0) by {
        assert(0 <= k < s.jobs@.len() && s.jobs@[k].id.0 == s.jobs@[k].id.0);
    }
    assert forall|k: int| 0 <= k < s.reports@.len() implies (#[trigger] s.reports@[k]).id.0
        >= s.next_report_id || has_report(s.reports@, s.reports@[k].id.0) by {
        assert(0 <= k < s.reports@.len() && s.reports@[k].id.0 == s.reports@[k].id.0);
    }
}

/// Evolution is transitive: what each single operation ensures therefore
/// holds across any sequence of operations.
pub proof fn lemma_store_evolves_trans(a: Store, b: Store, c: Store)
    requires
        a.wf(),
        b.wf(),
        store_evolves(a, b),
        store_evolves(b, c),
    ensures
        store_evolves(a, c),
{
    assert forall|k: int| 0 <= k < c.jobs@.len() implies (#[trigger] c.jobs@[k]).id.0
        >= a.next_job_id || has_job(a.jobs@, c.jobs@[k].id.0) by {
        let id = c.jobs@[k].id.0;
        if id < a.next_job_id {
            // not fresh since `a`, so it survived through `b`
            assert(id < b.next_job_id);
            assert(has_job(b.jobs@, id));
            let j = choose|j: int| 0 <= j < b.jobs@.len() && b.jobs@[j].id.0 == id;
            assert(b.jobs@[j].id.0 >= a.next_job_id || has_job(a.jobs@, id));
        }
    }
    assert forall|k: int| 0 <= k < c.reports@.len() implies (#[trigger] c.reports@[k]).id.0
        >= a.next_report_id || has_report(a.reports@, c.reports@[k].id.0) by {
        let id = c.reports@[k].id.0;
        if id < a.next_report_id {
            assert(id < b.next_report_id);
            assert(has_report(b.reports@, id));
            let j = choose|j: int| 0 <= j < b.reports@.len() && b.reports@[j].id.0 == id;
            assert(b.reports@[j].id.0 >= a.next_report_id || has_report(a.reports@, id));
        }
    }
    assert forall|i: int, k: int|
        0 <= i < a.jobs@.len() && 0 <= k < c.jobs@.len() && #[trigger] a.jobs@[i].id.0
            == #[trigger] c.jobs@[k].id.0 && a.jobs@[i].is_complete implies c.jobs@[k].is_complete by {
        let id = a.jobs@[i].id.0;
        assert(id < a.next_job_id);
        assert(id < b.next_job_id);
        assert(has_job(b.jobs@, id));
        let j = choose|j: int| 0 <= j < b.jobs@.len() && b.jobs@[j].id.0 == id;
        assert(b.jobs@[j].is_complete);
    }
    assert forall|i: int, k: int|
        0 <= i < a.reports@.len() && 0 <= k < c.reports@.len() && #[trigger] a.reports@[i].id.0
            == #[trigger] c.reports@[k].id.0 && a.reports@[i].sent_to_irwin implies c.reports@[k].sent_to_irwin by {
        let id = a.reports@[i].id.0;
        assert(id < a.next_report_id);
        assert(id < b.next_report_id);
        assert(has_report(b.reports@, id));
        let j = choose|j: int| 0 <= j < b.reports@.len() && b.reports@[j].id.0 == id;
        assert(b.reports@[j].sent_to_irwin);
    }
}

/// Updating one job in place — keeping its id, never unsetting its
/// completeness, and leaving it owned whenever complete — preserves both the
/// store invariant and the evolution relation.
pub proof fn lemma_update_job(pre: Store, post: Store, i: int)
    requires
        pre.wf(),
        0 <= i < pre.jobs@.len(),
        post.jobs@ == pre.jobs@.update(i, post.jobs@[i]),
        post.jobs@[i].id == pre.jobs@[i].id,
        pre.jobs@[i].is_complete ==> post.jobs@[i].is_complete,
        post.jobs@[i].is_complete ==> post.jobs@[i].owner is Some,
        post.reports == pre.reports,
        post.games == pre.games,
        post.api_users == pre.api_users,
        post.next_job_id == pre.next_job_id,
        post.next_report_id == pre.next_report_id,
    ensures
        post.wf(),
        store_evolves(pre, post),
{
    assert forall|a: int, b: int|
        0 <= a < b < post.jobs@.len() implies #[trigger] post.jobs@[a].id.0
        != #[trigger] post.jobs@[b].id.0 by {
        assert(pre.jobs@[a].id.0 != pre.jobs@[b].id.0);
    }
    assert forall|a: int|
        0 <= a < post.jobs@.len() && (#[trigger] post.jobs@[a]).is_complete implies post.jobs@[a].owner
        is Some by {
        if a != i {
            assert(post.jobs@[a] == pre.jobs@[a]);
        }
    }
    assert forall|k: int| 0 <= k < post.jobs@.len() implies (#[trigger] post.jobs@[k]).id.0
        >= pre.next_job_id || has_job(pre.jobs@, post.jobs@[k].id.0) by {
        assert(0 <= k < pre.jobs@.len() && pre.jobs@[k].id.0 == post.jobs@[k].id.0);
    }
    assert forall|k: int| 0 <= k < post.reports@.len() implies (#[trigger] post.reports@[k]).id.0
        >= pre.next_report_id || has_report(pre.reports@, post.reports@[k].id.0) by {
        assert(0 <= k < pre.reports@.len() && pre.reports@[k].id.0 == post.reports@[k].id.0);
    }
    assert forall|a: int, k: int|
        0 <= a < pre.jobs@.len() && 0 <= k < post.jobs@.len() && #[trigger] pre.jobs@[a].id.0
            == #[trigger] post.jobs@[k].id.0 && pre.jobs@[a].is_complete implies post.jobs@[k].is_complete by {
        if a != k {
            assert(pre.jobs@[a].id.0 != pre.jobs@[k].id.0);
        }
    }
    assert forall|a: int, k: int|
        0 <= a < pre.reports@.len() && 0 <= k < post.reports@.len() && #[trigger] pre.reports@[a].id.0
            == #[trigger] post.reports@[k].id.0 && pre.reports@[a].sent_to_irwin implies post.reports@[k].sent_to_irwin by {
        if a != k {
            assert(pre.reports@[a].id.0 != pre.reports@[k].id.0);
        }
    }
}

/// Updating one report in place — keeping its id and never unsetting its
/// dispatch latch — preserves the store invariant and the evolution relation.
pub proof fn lemma_update_report(pre: Store, post: Store, i: int)
    requires
        pre.wf(),
        0 <= i < pre.reports@.len(),
        post.reports@ == pre.reports@.update(i, post.reports@[i]),
        post.reports@[i].id == pre.reports@[i].id,
        pre.reports@[i].sent_to_irwin ==> post.reports@[i].sent_to_irwin,
        post.jobs == pre.jobs,
        post.games == pre.games,
        post.api_users == pre.api_users,
        post.next_job_id == pre.next_job_id,
        post.next_report_id == pre.next_report_id,
    ensures
        post.wf(),
        store_evolves(pre, post),
{
    assert forall|a: int, b: int|
        0 <= a < b < post.reports@.len() implies #[trigger] post.reports@[a].id.0
        != #[trigger] post.reports@[b].id.0 by {
        assert(pre.reports@[a].id.0 != pre.reports@[b].id.0);
    }
    assert forall|k: int| 0 <= k < post.jobs@.len() implies (#[trigger] post.jobs@[k]).id.0
        >= pre.next_job_id || has_job(pre.jobs@, post.jobs@[k].id.0) by {
        assert(0 <= k < pre.jobs@.len() && pre.jobs@[k].id.0 == post.jobs@[k].id.0);
    }
    assert forall|k: int| 0 <= k < post.reports@.len() implies (#[trigger] post.reports@[k]).id.0
        >= pre.next_report_id || has_report(pre.reports@, post.reports@[k].id.0) by {
        assert(0 <= k < pre.reports@.len() && pre.reports@[k].id.0 == post.reports@[k].id.0);
    }
    assert forall|a: int, k: int|
        0 <= a < pre.jobs@.len() && 0 <= k < post.jobs@.len() && #[trigger] pre.jobs@[a].id.0
            == #[trigger] post.jobs@[k].id.0 && pre.jobs@[a].is_complete implies post.jobs@[k].is_complete by {
        if a != k {
            assert(pre.jobs@[a].id.0 != pre.jobs@[k].id.0);
        }
    }
    assert forall|a: int, k: int|
        0 <= a < pre.reports@.len() && 0 <= k < post.reports@.len() && #[trigger] pre.reports@[a].id.0
            == #[trigger] post.reports@[k].id.0 && pre.reports@[a].sent_to_irwin implies post.reports@[k].sent_to_irwin by {
        if a != k {
            assert(pre.reports@[a].id.0 != pre.reports@[k].id.0);
        }
    }
}

/// Jobs have unique ids, so the chosen index is the only one.
pub proof fn lemma_job_idx_unique(jobs: Seq<Job>, id: u64)
    requires
        jobs_unique(jobs),
        has_job(jobs, id),
    ensures
        0 <= job_idx(jobs, id) < jobs.len(),
        jobs[job_idx(jobs, id)].id.0 == id,
        forall|j: int| 0 <= j < jobs.len() && #[trigger] jobs[j].id.0 == id ==> j == job_idx(jobs, id),
{
    let g = job_idx(jobs, id);
    assert(0 <= g < jobs.len() && jobs[g].id.0 == id);
    assert forall|j: int| 0 <= j < jobs.len() && #[trigger] jobs[j].id.0 == id implies j == g by {
        if j < g {
            assert(jobs[j].id.0 != jobs[g].id.0);
        } else if j > g {
            assert(jobs[g].id.0 != jobs[j].id.0);
        }
    }
}

/// The collections and the id counters they draw from.
#[derive(Debug)]
pub struct Store {
    pub jobs: Vec<Job>,
    pub reports: Vec<Report>,
    pub games: Vec<Game>,
    pub analyses: Vec<GameAnalysis>,
    pub api_users: Vec<ApiUser>,
    pub next_job_id: u64,
    pub next_report_id: u64,
}

impl Store {
    /// The store's standing invariant: ids are unique and below their
    /// counters, games and workers are well formed and uniquely keyed, and
    /// complete jobs are owned.
    pub open spec fn wf(self) -> bool {
        &&& forall|i: int|
            0 <= i < self.jobs@.len() ==> (#[trigger] self.jobs@[i]).id.0 < self.next_job_id
        &&& jobs_unique(self.jobs@)
        &&& jobs_owned_when_complete(self.jobs@)
        &&& forall|i: int|
            0 <= i < self.reports@.len() ==> (#[trigger] self.reports@[i]).id.0
                < self.next_report_id
        &&& forall|i: int, j: int|
            0 <= i < j < self.reports@.len() ==> #[trigger] self.reports@[i].id.0
                != #[trigger] self.reports@[j].id.0
        &&& forall|i: int, j: int|
            0 <= i < j < self.games@.len() ==> #[trigger] self.games@[i].id.0@
                != #[trigger] self.games@[j].id.0@
        &&& forall|i: int| 0 <= i < self.games@.len() ==> (#[trigger] self.games@[i]).wf()
        &&& forall|i: int, j: int|
            0 <= i < j < self.api_users@.len() ==> #[trigger] self.api_users@[i].key.0@
                != #[trigger] self.api_users@[j].key.0@
        &&& forall|i: int| 0 <= i < self.api_users@.len() ==> (#[trigger] self.api_users@[i]).wf()
    }

    /// An empty store.
    pub fn new() -> (s: Store)
        ensures
            s.wf(),
            s.jobs@.len() == 0,
            s.reports@.len() == 0,
            s.games@.len() == 0,
            s.analyses@.len() == 0,
            s.api_users@.len() == 0,
            s.next_job_id == 0,
            s.next_report_id == 0,
    {
        Store {
            jobs: Vec::new(),
            reports: Vec::new(),
            games: Vec::new(),
            analyses: Vec::new(),
            api_users: Vec::new(),
            next_job_id: 0,
            next_report_id: 0,
        }
    }

    /// Opens a job under a fresh id.
    pub fn insert_job(&mut self, c: crate::model::CreateJob, now: u64) -> (id: crate::model::JobId)
        requires
            old(self).wf(),
            old(self).next_job_id < u64::MAX,
        ensures
            final(self).wf(),
            store_evolves(*old(self), *final(self)),
            id.0 == old(self).next_job_id,
            final(self).jobs@ == old(self).jobs@.push(c.spec_job(id, now)),
            final(self).next_job_id == old(self).next_job_id + 1,
            final(self).reports == old(self).reports,
            final(self).games == old(self).games,
            final(self).analyses == old(self).analyses,
            final(self).api_users == old(self).api_users,
            final(self).next_report_id == old(self).next_report_id,
    {
        let id = crate::model::JobId(self.next_job_id);
        let j = c.into_job(id, now);
        self.jobs.push(j);
        self.next_job_id = self.next_job_id + 1;
        proof {
            let pre = *old(self);
            let post = *self;
            assert forall|a: int, b: int|
                0 <= a < b < post.jobs@.len() implies #[trigger] post.jobs@[a].id.0
                != #[trigger] post.jobs@[b].id.0 by {
                if b < pre.jobs@.len() as int {
                    assert(pre.jobs@[a].id.0 != pre.jobs@[b].id.0);
                } else {
                    assert(post.jobs@[a].id.0 < pre.next_job_id);
                }
            }
            assert forall|k: int| 0 <= k < post.jobs@.len() implies (#[trigger] post.jobs@[k]).id.0
                >= pre.next_job_id || has_job(pre.jobs@, post.jobs@[k].id.0) by {
                if k < pre.jobs@.len() as int {
                    assert(0 <= k < pre.jobs@.len() && pre.jobs@[k].id.0 == post.jobs@[k].id.0);
                }
            }
            assert forall|k: int| 0 <= k < post.reports@.len() implies (#[trigger] post.reports@[k]).id.0
                >= pre.next_report_id || has_report(pre.reports@, post.reports@[k].id.0) by {
                assert(0 <= k < pre.reports@.len() && pre.reports@[k].id.0 == post.reports@[k].id.0);
            }
        }
        id
    }

    /// Inserts a report under a fresh id.
    pub fn insert_report(
        &mut self,
        c: crate::model::CreateReport,
        now: u64,
    ) -> (id: crate::model::ReportId)
        requires
            old(self).wf(),
            old(self).next_report_id < u64::MAX,
        ensures
            final(self).wf(),
            store_evolves(*old(self), *final(self)),
            id.0 == old(self).next_report_id,
            final(self).reports@ == old(self).reports@.push(c.spec_report(id, now)),
            final(self).next_report_id == old(self).next_report_id + 1,
            final(self).jobs == old(self).jobs,
            final(self).games == old(self).games,
            final(self).analyses == old(self).analyses,
            final(self).api_users == old(self).api_users,
            final(self).next_job_id == old(self).next_job_id,
    {
        let id = crate::model::ReportId(self.next_report_id);
        let r = c.into_report(id, now);
        self.reports.push(r);
        self.next_report_id = self.next_report_id + 1;
        proof {
            let pre = *old(self);
            let post = *self;
            assert forall|a: int, b: int|
                0 <= a < b < post.reports@.len() implies #[trigger] post.reports@[a].id.0
                != #[trigger] post.reports@[b].id.0 by {
                if b < pre.reports@.len() as int {
                    assert(pre.reports@[a].id.0 != pre.reports@[b].id.0);
                } else {
                    assert(post.reports@[a].id.0 < pre.next_report_id);
                }
            }
            assert forall|k: int| 0 <= k < post.jobs@.len() implies (#[trigger] post.jobs@[k]).id.0
                >= pre.next_job_id || has_job(pre.jobs@, post.jobs@[k].id.0) by {
                assert(0 <= k < pre.jobs@.len() && pre.jobs@[k].id.0 == post.jobs@[k].id.0);
            }
            assert forall|k: int| 0 <= k < post.reports@.len() implies (#[trigger] post.reports@[k]).id.0
                >= pre.next_report_id || has_report(pre.reports@, post.reports@[k].id.0) by {
                if k < pre.reports@.len() as int {
                    assert(0 <= k < pre.reports@.len() && pre.reports@[k].id.0 == post.reports@[k].id.0);
                }
            }
        }
        id
    }

    /// Inserts a game, or replaces the stored game of the same id: games are
    /// upserted so that re-submitting a report is idempotent.
    pub fn upsert_game(&mut self, g: Game)
        requires
            old(self).wf(),
            g.wf(),
        ensures
            final(self).wf(),
            store_evolves(*old(self), *final(self)),
            has_game(old(self).games@, g.id.0@) ==> final(self).games@ == old(self).games@.update(
                game_idx(old(self).games@, g.id.0@),
                g,
            ),
            !has_game(old(self).games@, g.id.0@) ==> final(self).games@ == old(
                self,
            ).games@.push(g),
            final(self).jobs == old(self).jobs,
            final(self).reports == old(self).reports,
            final(self).analyses == old(self).analyses,
            final(self).api_users == old(self).api_users,
            final(self).next_job_id == old(self).next_job_id,
            final(self).next_report_id == old(self).next_report_id,
    {
        let n = self.games.len();
        let mut i: usize = 0;
        while i < n
            invariant
                *self == *old(self),
                old(self).wf(),
                g.wf(),
                n == self.games@.len(),
                0 <= i <= n,
                forall|k: int| 0 <= k < i ==> #[trigger] self.games@[k].id.0@ != g.id.0@,
            decreases n - i,
        {
            if self.games[i].id.matches(&g.id) {
                proof {
                    assert(has_game(self.games@, g.id.0@));
                    let j = game_idx(self.games@, g.id.0@);
                    // ids are unique, so the found index is the chosen one
                    assert(self.games@[j].id.0@ == g.id.0@);
                    assert(j == i);
                }
                let ghost gid = g.id.0@;
                self.games.set(i, g);
                proof {
                    let ng = self.games@;
                    let og = old(self).games@;
                    assert forall|a: int, b: int|
                        0 <= a < b < ng.len() implies ng[a].id.0@ != ng[b].id.0@ by {
                        assert(og[a].id.0@ != og[b].id.0@);
                        assert(ng[i as int].id.0@ == gid && gid == og[i as int].id.0@);
                    }
                    assert forall|a: int| 0 <= a < ng.len() implies ng[a].wf() by {
                        if a == i as int {
                            assert(ng[a] == g);
                        } else {
                            assert(ng[a] == og[a]);
                            assert(og[a].wf());
                        }
                    }
                    lemma_store_evolves_refl(*old(self));
                }
                return ;
            }
            i = i + 1;
        }
        assert(!has_game(self.games@, g.id.0@));
        self.games.push(g);
        proof {
            lemma_store_evolves_refl(*old(self));
        }
    }

    /// Looks a game up by id.
    pub fn find_game(&self, id: &crate::model::GameId) -> (r: Option<&Game>)
        requires
            self.wf(),
        ensures
            match r {
                Some(g) => {
                    &&& has_game(self.games@, id.0@)
                    &&& *g == self.games@[game_idx(self.games@, id.0@)]
                    &&& g.id.0@ == id.0@
                },
                None => !has_game(self.games@, id.0@),
            },
    {
        let n = self.games.len();
        let mut i: usize = 0;
        while i < n
            invariant
                self.wf(),
                n == self.games@.len(),
                0 <= i <= n,
                forall|k: int| 0 <= k < i ==> #[trigger] self.games@[k].id.0@ != id.0@,
            decreases n - i,
        {
            if self.games[i].id.matches(id) {
                proof {
                    assert(has_game(self.games@, id.0@));
                    let j = game_idx(self.games@, id.0@);
                    assert(self.games@[j].id.0@ == id.0@);
                    assert(j == i);
                }
                return Some(&self.games[i]);
            }
            i = i + 1;
        }
        None
    }

    /// Looks a worker up by key.
    pub fn find_api_user(&self, key: &crate::model::Key) -> (r: Option<&ApiUser>)
        requires
            self.wf(),
        ensures
            match r {
                Some(u) => {
                    &&& has_api_key(self.api_users@, key.0@)
                    &&& *u == self.api_users@[api_key_idx(self.api_users@, key.0@)]
                    &&& u.key.0@ == key.0@
                    &&& u.wf()
                },
                None => !has_api_key(self.api_users@, key.0@),
            },
    {
        let n = self.api_users.len();
        let mut i: usize = 0;
        while i < n
            invariant
                self.wf(),
                n == self.api_users@.len(),
                0 <= i <= n,
                forall|k: int| 0 <= k < i ==> #[trigger] self.api_users@[k].key.0@ != key.0@,
            decreases n - i,
        {
            if self.api_users[i].key.matches(key) {
                proof {
                    assert(has_api_key(self.api_users@, key.0@));
                    let j = api_key_idx(self.api_users@, key.0@);
                    assert(self.api_users@[j].key.0@ == key.0@);
                    assert(j == i);
                }
                return Some(&self.api_users[i]);
            }
            i = i + 1;
        }
        None
    }

    /// Registers a worker; fails if the key is already taken.
    pub fn insert_api_user(&mut self, u: ApiUser) -> (r: Result<(), crate::error::Error>)
        requires
            old(self).wf(),
            u.wf(),
        ensures
            final(self).wf(),
            store_evolves(*old(self), *final(self)),
            match r {
                Ok(()) => {
                    &&& !has_api_key(old(self).api_users@, u.key.0@)
                    &&& final(self).api_users@ == old(self).api_users@.push(u)
                },
                Err(e) => {
                    &&& e == crate::error::Error::Conflict
                    &&& has_api_key(old(self).api_users@, u.key.0@)
                    &&& *final(self) == *old(self)
                },
            },
            final(self).jobs == old(self).jobs,
            final(self).reports == old(self).reports,
            final(self).games == old(self).games,
            final(self).analyses == old(self).analyses,
            final(self).next_job_id == old(self).next_job_id,
            final(self).next_report_id == old(self).next_report_id,
    {
        proof {
            lemma_store_evolves_refl(*old(self));
        }
        let existing = self.find_api_user(&u.key);
        if existing.is_some() {
            return Err(crate::error::Error::Conflict);
        }
        self.api_users.push(u);
        Ok(())
    }

    /// Looks a report up by id.
    pub fn find_report(&self, id: crate::model::ReportId) -> (r: Option<&Report>)
        requires
            self.wf(),
        ensures
            match r {
                Some(rep) => {
                    &&& has_report(self.reports@, id.0)
                    &&& *rep == self.reports@[report_idx(self.reports@, id.0)]
                    &&& rep.id == id
                },
                None => !has_report(self.reports@, id.0),
            },
    {
        let n = self.reports.len();
        let mut i: usize = 0;
        while i < n
            invariant
                self.wf(),
                n == self.reports@.len(),
                0 <= i <= n,
                forall|k: int| 0 <= k < i ==> #[trigger] self.reports@[k].id.0 != id.0,
            decreases n - i,
        {
            if self.reports[i].id.0 == id.0 {
                proof {
                    assert(has_report(self.reports@, id.0));
                    let j = report_idx(self.reports@, id.0);
                    assert(self.reports@[j].id.0 == id.0);
                    assert(j == i);
                }
                return Some(&self.reports[i]);
            }
            i = i + 1;
        }
        None
    }

    /// Looks a job up by id.
    pub fn find_job(&self, id: crate::model::JobId) -> (r: Option<&Job>)
        requires
            self.wf(),
        ensures
            match r {
                Some(j) => {
                    &&& has_job(self.jobs@, id.0)
                    &&& *j == self.jobs@[job_idx(self.jobs@, id.0)]
                    &&& j.id == id
                },
                None => !has_job(self.jobs@, id.0),
            },
    {
        let n = self.jobs.len();
        let mut i: usize = 0;
        while i < n
            invariant
                self.wf(),
                n == self.jobs@.len(),
                0 <= i <= n,
                forall|k: int| 0 <= k < i ==> #[trigger] self.jobs@[k].id.0 != id.0,
            decreases n - i,
        {
            if self.jobs[i].id.0 == id.0 {
                proof {
                    assert(has_job(self.jobs@, id.0));
                    let j = job_idx(self.jobs@, id.0);
                    assert(self.jobs@[j].id.0 == id.0);
                    assert(j == i);
                }
                return Some(&self.jobs[i]);
            }
            i = i + 1;
        }
        None
    }

    /// Appends a stored analysis record.
    pub fn insert_analysis(&mut self, a: GameAnalysis)
        requires
            old(self).wf(),
        ensures
            final(self).wf(),
            store_evolves(*old(self), *final(self)),
            final(self).analyses@ == old(self).analyses@.push(a),
            final(self).jobs == old(self).jobs,
            final(self).reports == old(self).reports,
            final(self).games == old(self).games,
            final(self).api_users == old(self).api_users,
            final(self).next_job_id == old(self).next_job_id,
            final(self).next_report_id == old(self).next_report_id,
    {
        self.analyses.push(a);
        proof {
            lemma_store_evolves_refl(*old(self));
        }
    }

    /// Finds the newest stored analysis for a job; the newest one is
    /// authoritative should duplicates ever exist.
    pub fn find_analysis_by_job(&self, job_id: crate::model::JobId) -> (r: Option<&GameAnalysis>)
        ensures
            match r {
                Some(a) => {
                    &&& has_analysis(self.analyses@, job_id.0)
                    &&& a.job_id == job_id
                    &&& exists|i: int|
                        #[trigger] is_last_analysis(self.analyses@, job_id.0, i) && *a
                            == self.analyses@[i]
                },
                None => !has_analysis(self.analyses@, job_id.0),
            },
    {
        let n = self.analyses.len();
        let mut i: usize = n;
        while i > 0
            invariant
                n == self.analyses@.len(),
                0 <= i <= n,
                forall|k: int| i <= k < n ==> (#[trigger] self.analyses@[k]).job_id.0 != job_id.0,
            decreases i,
        {
            i = i - 1;
            if self.analyses[i].job_id.0 == job_id.0 {
                proof {
                    assert(is_last_analysis(self.analyses@, job_id.0, i as int));
                }
                return Some(&self.analyses[i]);
            }
        }
        None
    }
}

} // verus!
