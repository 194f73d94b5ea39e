//! The aggregator: listens for job completions, recomputes each report's
//! completeness from current state, latches `sent_to_irwin` exactly once,
//! and builds the downstream payload.

use vstd::prelude::*;

use crate::bus::{Bus, FishnetMsg, RecvResult, Subscriber};
use crate::error::Error;
use crate::model::{Game, GameAnalysis, Job, JobId, PlyAnalysis, Report, ReportId};
use crate::queue::count_jobs;
use crate::store::{
    game_idx, has_game, has_job, has_report, is_last_analysis, job_idx, report_idx, store_evolves,
    Store,
};

verus! {

/// The key this service presents to the downstream consumer.
#[derive(Debug)]
pub struct Key(pub String);

/// Where the downstream consumer listens, and the key to present.
#[derive(Debug)]
pub struct IrwinOpts {
    pub uri: String,
    pub api_key: Key,
}

/// An evaluation as the downstream payload carries it: signed centipawns or
/// signed mate distance.
#[derive(Clone, Copy, Debug, PartialEq, Eq, Structural)]
pub struct EngineEval {
    pub cp: Option<i32>,
    pub mate: Option<i32>,
}

/// One ply of the downstream payload: the move and its evaluation.
#[derive(Debug)]
pub struct Analysis {
    pub uci: String,
    pub engine_eval: EngineEval,
}

/// A position entry of the downstream payload; none are currently produced.
#[derive(Debug)]
pub struct AnalyzedPosition {
    pub id: String,
    pub analyses: Vec<Analysis>,
}

/// One game of the downstream payload.
#[derive(Debug)]
pub struct IrwinGame {
    pub id: String,
    pub white: String,
    pub black: String,
    pub pgn: Vec<String>,
    pub emt: Option<Vec<u32>>,
    pub analysis: Option<Vec<EngineEval>>,
}

/// The downstream payload: one report, aggregated.
#[derive(Debug)]
pub struct IrwinJob {
    pub player_id: String,
    pub games: Vec<IrwinGame>,
    pub analyzed_positions: Vec<AnalyzedPosition>,
}

/// The evaluation a submitted ply yields for the downstream payload: full
/// and empty plies carry their score, skipped or missing plies carry none.
pub open spec fn spec_eval_of_ply(p: Option<PlyAnalysis>) -> Option<EngineEval> {
    match p {
        None => None,
        Some(PlyAnalysis::Skipped(_)) => None,
        Some(PlyAnalysis::Empty(e)) => Some(EngineEval { cp: e.score.cp, mate: e.score.mate }),
        Some(PlyAnalysis::Full(f)) => Some(EngineEval { cp: f.score.cp, mate: f.score.mate }),
    }
}

impl Analysis {
    /// Builds one payload ply, failing with `IncompleteAnalysis` where the
    /// submitted ply carries no evaluation.
    pub fn from_ply_analysis(uci: &String, ply: &Option<PlyAnalysis>) -> (r: Result<Analysis, Error>)
        ensures
            match r {
                Ok(a) => {
                    &&& a.uci@ == uci@
                    &&& Some(a.engine_eval) == spec_eval_of_ply(*ply)
                },
                Err(e) => {
                    &&& e == Error::IncompleteAnalysis
                    &&& spec_eval_of_ply(*ply) is None
                },
            },
    {
        match ply {
            Some(PlyAnalysis::Full(f)) => Ok(
                Analysis {
                    uci: uci.clone(),
                    engine_eval: EngineEval { cp: f.score.cp, mate: f.score.mate },
                },
            ),
            Some(PlyAnalysis::Empty(e)) => Ok(
                Analysis {
                    uci: uci.clone(),
                    engine_eval: EngineEval { cp: e.score.cp, mate: e.score.mate },
                },
            ),
            _ => Err(Error::IncompleteAnalysis),
        }
    }
}

/// How many plies the payload interleaves: one per move that also has a
/// submitted analysis entry.
pub open spec fn zip_len(g: Game, a: GameAnalysis) -> int {
    if g.pgn@.len() <= a.analysis@.len() {
        g.pgn@.len() as int
    } else {
        a.analysis@.len() as int
    }
}

/// The payload game built from a stored game and its analysis record.
pub open spec fn irwin_game_matches(ig: IrwinGame, g: Game, a: GameAnalysis) -> bool {
    &&& ig.id@ == g.id.0@
    &&& ig.white@ == match g.white {
        Some(w) => w.0@,
        None => "Unknown (white)"@,
    }
    &&& ig.black@ == match g.black {
        Some(b) => b.0@,
        None => "Unknown (white)"@,
    }
    &&& ig.pgn.deep_view() == g.pgn.deep_view()
    &&& ig.emt matches Some(e) && e@ == g.emts@
    &&& ig.analysis matches Some(ev) && ev@.len() == zip_len(g, a) && (forall|i: int|
        0 <= i < zip_len(g, a) ==> Some(#[trigger] ev@[i]) == spec_eval_of_ply(a.analysis@[i]))
}

/// Copies a move list element by element.
fn clone_moves(v: &Vec<String>) -> (res: Vec<String>)
    ensures
        res.deep_view() == v.deep_view(),
{
    let mut res: Vec<String> = Vec::new();
    let mut i: usize = 0;
    while i < v.len()
        invariant
            0 <= i <= v@.len(),
            res.deep_view() =~= v.deep_view().take(i as int),
        decreases v@.len() - i,
    {
        let ghost prev = res.deep_view();
        res.push(v[i].clone());
        proof {
            let dv = res.deep_view();
            let tk = v.deep_view().take(i as int + 1);
            assert(prev.len() == res@.len() - 1);
            assert(prev.len() == v.deep_view().take(i as int).len());
            assert(v.deep_view().take(i as int).len() == i);
            assert(dv.len() == i + 1);
            assert forall|t: int| 0 <= t < i + 1 implies dv[t] == tk[t] by {
                if t < i as int {
                    assert(dv[t] == prev[t]);
                } else {
                    assert(res@[t] == v@[i as int]);
                }
            }
            assert(dv =~= tk);
        }
        i = i + 1;
    }
    proof {
        assert(v.deep_view().take(v@.len() as int) =~= v.deep_view());
    }
    res
}

/// Copies a move-time list element by element.
fn clone_times(v: &Vec<u32>) -> (res: Vec<u32>)
    ensures
        res@ == v@,
{
    let mut res: Vec<u32> = Vec::new();
    let mut i: usize = 0;
    while i < v.len()
        invariant
            0 <= i <= v@.len(),
            res@ == v@.take(i as int),
        decreases v@.len() - i,
    {
        res.push(v[i]);
        i = i + 1;
    }
    assert(v@.take(v@.len() as int) == v@);
    res
}

/// Builds one payload game from a stored game and its analysis record:
/// moves and move times copied, one evaluation per analysed ply. Fails with
/// `IncompleteAnalysis` where any interleaved ply carries no evaluation.
pub fn irwin_game_for(g: &Game, a: &GameAnalysis) -> (r: Result<IrwinGame, Error>)
    ensures
        match r {
            Ok(ig) => irwin_game_matches(ig, *g, *a),
            Err(e) => {
                &&& e == Error::IncompleteAnalysis
                &&& exists|i: int|
                    0 <= i < zip_len(*g, *a) && spec_eval_of_ply(#[trigger] a.analysis@[i]) is None
            },
        },
{
    let n = if g.pgn.len() <= a.analysis.len() {
        g.pgn.len()
    } else {
        a.analysis.len()
    };
    let mut evals: Vec<EngineEval> = Vec::new();
    let mut i: usize = 0;
    while i < n
        invariant
            n == zip_len(*g, *a),
            0 <= i <= n,
            evals@.len() == i,
            forall|t: int|
                0 <= t < i ==> Some(#[trigger] evals@[t]) == spec_eval_of_ply(a.analysis@[t]),
        decreases n - i,
    {
        match Analysis::from_ply_analysis(&g.pgn[i], &a.analysis[i]) {
            Ok(one) => {
                evals.push(one.engine_eval);
            },
            Err(e) => {
                return Err(e);
            },
        }
        i = i + 1;
    }
    let white: String = match &g.white {
        Some(w) => w.0.clone(),
        None => "Unknown (white)".to_owned(),
    };
    let black: String = match &g.black {
        Some(b) => b.0.clone(),
        None => "Unknown (white)".to_owned(),
    };
    Ok(
        IrwinGame {
            id: g.id.0.clone(),
            white,
            black,
            pgn: clone_moves(&g.pgn),
            emt: Some(clone_times(&g.emts)),
            analysis: Some(evals),
        },
    )
}

/// A job belonging to the given report.
pub open spec fn job_of_report(j: Job, rid: u64) -> bool {
    match j.report_id {
        Some(r) => r.0 == rid,
        None => false,
    }
}

/// The report's job at index `j` contributes a payload game: it has a stored
/// analysis whose game exists in the store.
pub open spec fn contributes(store: Store, rid: u64, j: int) -> bool {
    &&& 0 <= j < store.jobs@.len()
    &&& job_of_report(store.jobs@[j], rid)
    &&& exists|ai: int|
        is_last_analysis(store.analyses@, store.jobs@[j].id.0, ai) && has_game(
            store.games@,
            (#[trigger] store.analyses@[ai]).game_id.0@,
        )
}

/// The payload game at `sel[t]` was built from the contributing job's newest
/// analysis and that analysis's game.
pub open spec fn built_from(store: Store, j: int, ig: IrwinGame) -> bool {
    exists|ai: int|
        {
            &&& is_last_analysis(store.analyses@, store.jobs@[j].id.0, ai)
            &&& has_game(store.games@, (#[trigger] store.analyses@[ai]).game_id.0@)
            &&& irwin_game_matches(
                ig,
                store.games@[game_idx(store.games@, store.analyses@[ai].game_id.0@)],
                store.analyses@[ai],
            )
        }
}

/// The contributing job at `j` has an interleaved ply with no evaluation,
/// so its report cannot be dispatched yet.
pub open spec fn analysis_incomplete(store: Store, j: int) -> bool {
    exists|ai: int|
        {
            &&& is_last_analysis(store.analyses@, store.jobs@[j].id.0, ai)
            &&& has_game(store.games@, (#[trigger] store.analyses@[ai]).game_id.0@)
            &&& exists|i: int|
                0 <= i < zip_len(
                    store.games@[game_idx(store.games@, store.analyses@[ai].game_id.0@)],
                    store.analyses@[ai],
                ) && spec_eval_of_ply(#[trigger] store.analyses@[ai].analysis@[i]) is None
        }
}

/// `sel` lists exactly the indices of the report's contributing jobs, in
/// store order.
pub open spec fn irwin_selection(store: Store, rid: u64, sel: Seq<int>) -> bool {
    &&& forall|t: int| 0 <= t < sel.len() ==> contributes(store, rid, #[trigger] sel[t])
    &&& forall|t: int, u: int| 0 <= t < u < sel.len() ==> #[trigger] sel[t] < #[trigger] sel[u]
    &&& forall|j: int| #[trigger] contributes(store, rid, j) ==> sel.contains(j)
}

/// Builds the downstream payload for a report: one game per job of the
/// report that has a stored analysis and game, each with its evaluations
/// interleaved; the whole build fails with `IncompleteAnalysis` where any
/// needed evaluation is missing.
pub fn irwin_job_from_report(store: &Store, report: &Report) -> (r: Result<IrwinJob, Error>)
    requires
        store.wf(),
    ensures
        match r {
            Ok(ij) => {
                &&& ij.player_id@ == report.user_id.0@
                &&& ij.analyzed_positions@.len() == 0
                &&& exists|sel: Seq<int>|
                    {
                        &&& #[trigger] irwin_selection(*store, report.id.0, sel)
                        &&& ij.games@.len() == sel.len()
                        &&& forall|t: int|
                            0 <= t < sel.len() ==> built_from(
                                *store,
                                sel[t],
                                #[trigger] ij.games@[t],
                            )
                    }
            },
            Err(e) => {
                &&& e == Error::IncompleteAnalysis
                &&& exists|j: int|
                    #[trigger] contributes(*store, report.id.0, j) && analysis_incomplete(*store, j)
            },
        },
{
    let ghost rid = report.id.0;
    let mut games: Vec<IrwinGame> = Vec::new();
    let ghost sel: Seq<int> = Seq::empty();
    let mut sel = Ghost(sel);
    let n = store.jobs.len();
    let mut jx: usize = 0;
    while jx < n
        invariant
            store.wf(),
            rid == report.id.0,
            n == store.jobs@.len(),
            0 <= jx <= n,
            games@.len() == sel@.len(),
            forall|t: int| 0 <= t < sel@.len() ==> 0 <= #[trigger] sel@[t] < jx,
            forall|t: int| 0 <= t < sel@.len() ==> contributes(*store, rid, #[trigger] sel@[t]),
            forall|t: int, u: int|
                0 <= t < u < sel@.len() ==> #[trigger] sel@[t] < #[trigger] sel@[u],
            forall|j: int| 0 <= j < jx && #[trigger] contributes(*store, rid, j) ==> sel@.contains(
                j,
            ),
            forall|t: int|
                0 <= t < sel@.len() ==> built_from(*store, sel@[t], #[trigger] games@[t]),
        decreases n - jx,
    {
        let job = &store.jobs[jx];
        let of_report = match &job.report_id {
            Some(r) => r.0 == report.id.0,
            None => false,
        };
        if !of_report {
            proof {
                assert(!contributes(*store, rid, jx as int));
            }
        } else {
            match store.find_analysis_by_job(job.id) {
                Some(analysis) => {
                    let ghost ai = choose|ai: int|
                        #[trigger] is_last_analysis(store.analyses@, job.id.0, ai) && *analysis
                            == store.analyses@[ai];
                    match store.find_game(&analysis.game_id) {
                        Some(game) => {
                            match irwin_game_for(game, analysis) {
                                Ok(ig) => {
                                    proof {
                                        assert(is_last_analysis(store.analyses@, job.id.0, ai));
                                        assert(contributes(*store, rid, jx as int));
                                        assert(built_from(*store, jx as int, ig));
                                        let prev_sel = sel@;
                                        sel@ = sel@.push(jx as int);
                                        assert(sel@[prev_sel.len() as int] == jx as int);
                                        assert(sel@.contains(jx as int));
                                        assert forall|j: int|
                                            prev_sel.contains(j) implies sel@.contains(j) by {
                                            let t = choose|t: int|
                                                0 <= t < prev_sel.len() && prev_sel[t] == j;
                                            assert(sel@[t] == j);
                                        }
                                    }
                                    games.push(ig);
                                },
                                Err(e) => {
                                    proof {
                                        assert(is_last_analysis(store.analyses@, job.id.0, ai));
                                        assert(contributes(*store, rid, jx as int));
                                        assert(analysis_incomplete(*store, jx as int));
                                    }
                                    return Err(e);
                                },
                            }
                        },
                        None => {
                            // corrupt state: skip, as a missing game cannot be replayed
                            proof {
                                lemma_not_contributing(*store, rid, jx as int, ai);
                            }
                        },
                    }
                },
                None => {
                    proof {
                        assert(!contributes(*store, rid, jx as int)) by {
                            if contributes(*store, rid, jx as int) {
                                let ai2 = choose|ai2: int|
                                    is_last_analysis(
                                        store.analyses@,
                                        store.jobs@[jx as int].id.0,
                                        ai2,
                                    ) && has_game(
                                        store.games@,
                                        (#[trigger] store.analyses@[ai2]).game_id.0@,
                                    );
                                assert(0 <= ai2 < store.analyses@.len()
                                    && store.analyses@[ai2].job_id.0
                                    == store.jobs@[jx as int].id.0);
                                assert(crate::store::has_analysis(
                                    store.analyses@,
                                    store.jobs@[jx as int].id.0,
                                ));
                            }
                        }
                    }
                },
            }
        }
        jx = jx + 1;
    }
    proof {
        assert(irwin_selection(*store, rid, sel@));
    }
    Ok(IrwinJob { player_id: report.user_id.0.clone(), games, analyzed_positions: Vec::new() })
}

/// A report job whose newest analysis points at a missing game contributes
/// nothing.
proof fn lemma_not_contributing(store: Store, rid: u64, j: int, ai: int)
    requires
        0 <= j < store.jobs@.len(),
        is_last_analysis(store.analyses@, store.jobs@[j].id.0, ai),
        !has_game(store.games@, store.analyses@[ai].game_id.0@),
    ensures
        !contributes(store, rid, j),
{
    if contributes(store, rid, j) {
        let ai2 = choose|ai2: int|
            is_last_analysis(store.analyses@, store.jobs@[j].id.0, ai2) && has_game(
                store.games@,
                (#[trigger] store.analyses@[ai2]).game_id.0@,
            );
        // the newest analysis is unique
        if ai2 < ai {
            assert(store.analyses@[ai].job_id.0 == store.jobs@[j].id.0);
        } else if ai < ai2 {
            assert(store.analyses@[ai2].job_id.0 == store.jobs@[j].id.0);
        }
    }
}

} // verus!

verus! {

/// A job of the given report.
pub open spec fn report_job_pred(rid: u64) -> spec_fn(Job) -> bool {
    |j: Job| job_of_report(j, rid)
}

/// A complete job of the given report.
pub open spec fn report_complete_pred(rid: u64) -> spec_fn(Job) -> bool {
    |j: Job| job_of_report(j, rid) && j.is_complete
}

/// Counts a report's jobs: the complete ones and all of them. Completeness
/// is derived from current state, never accumulated, so a lagged event loses
/// nothing.
pub fn report_completed_counts(store: &Store, rid: ReportId) -> (r: (u64, u64))
    requires
        store.wf(),
    ensures
        r.0 == count_jobs(store.jobs@, report_complete_pred(rid.0)),
        r.1 == count_jobs(store.jobs@, report_job_pred(rid.0)),
        r.0 <= r.1,
{
    let n = store.jobs.len();
    let mut complete: u64 = 0;
    let mut total: u64 = 0;
    let mut i: usize = 0;
    while i < n
        invariant
            n == store.jobs@.len(),
            0 <= i <= n,
            complete == count_jobs(store.jobs@.take(i as int), report_complete_pred(rid.0)),
            total == count_jobs(store.jobs@.take(i as int), report_job_pred(rid.0)),
            complete <= total <= i,
        decreases n - i,
    {
        let ghost prefix = store.jobs@.take(i as int);
        let ghost prefix1 = store.jobs@.take(i as int + 1);
        proof {
            assert(prefix1.drop_last() =~= prefix);
            assert(prefix1.last() == store.jobs@[i as int]);
        }
        let job = &store.jobs[i];
        let of_report = match &job.report_id {
            Some(r) => r.0 == rid.0,
            None => false,
        };
        if of_report {
            total = total + 1;
            if job.is_complete {
                complete = complete + 1;
            }
        }
        i = i + 1;
    }
    proof {
        assert(store.jobs@.take(n as int) =~= store.jobs@);
    }
    (complete, total)
}

/// The report as the dispatch latch leaves it.
pub open spec fn with_sent(r: Report, now: u64) -> Report {
    Report { sent_to_irwin: true, date_completed: Some(now), ..r }
}

/// The atomic dispatch latch: flips `sent_to_irwin` from false to true and
/// stamps `date_completed`, exactly where the report exists and was not yet
/// dispatched. Exactly one caller ever sees `true` for a given report.
pub fn atomically_update_sent_to_irwin(store: &mut Store, rid: ReportId, now: u64) -> (r: bool)
    requires
        old(store).wf(),
    ensures
        final(store).wf(),
        store_evolves(*old(store), *final(store)),
        final(store).jobs == old(store).jobs,
        final(store).games == old(store).games,
        final(store).analyses == old(store).analyses,
        final(store).api_users == old(store).api_users,
        final(store).next_job_id == old(store).next_job_id,
        final(store).next_report_id == old(store).next_report_id,
        r == (has_report(old(store).reports@, rid.0) && !old(store).reports@[report_idx(
            old(store).reports@,
            rid.0,
        )].sent_to_irwin),
        r ==> final(store).reports@ == old(store).reports@.update(
            report_idx(old(store).reports@, rid.0),
            with_sent(old(store).reports@[report_idx(old(store).reports@, rid.0)], now),
        ),
        !r ==> *final(store) == *old(store),
{
    let ghost pre = *old(store);
    let n = store.reports.len();
    let mut i: usize = 0;
    while i < n
        invariant
            *store == pre,
            pre == *old(store),
            pre.wf(),
            n == store.reports@.len(),
            0 <= i <= n,
            forall|k: int| 0 <= k < i ==> #[trigger] store.reports@[k].id.0 != rid.0,
        decreases n - i,
    {
        if store.reports[i].id.0 == rid.0 {
            proof {
                assert(has_report(store.reports@, rid.0));
                let j = report_idx(store.reports@, rid.0);
                assert(store.reports@[j].id.0 == rid.0);
                assert(j == i);
            }
            if store.reports[i].sent_to_irwin {
                proof {
                    crate::store::lemma_store_evolves_refl(pre);
                }
                return false;
            }
            let mut updated = store.reports.remove(i);
            updated.sent_to_irwin = true;
            updated.date_completed = Some(now);
            store.reports.insert(i, updated);
            proof {
                assert(store.reports@ =~= pre.reports@.update(
                    i as int,
                    store.reports@[i as int],
                ));
                assert(store.reports@[i as int] == with_sent(pre.reports@[i as int], now));
                crate::store::lemma_update_report(pre, *store, i as int);
            }
            return true;
        }
        i = i + 1;
    }
    proof {
        crate::store::lemma_store_evolves_refl(pre);
    }
    false
}

} // verus!

verus! {

/// What one completion event led to.
#[derive(Debug)]
pub enum DispatchOutcome {
    /// Not every job of the report is complete yet; the counts say how far
    /// along it is.
    Incomplete { complete: u64, total: u64 },
    /// Someone else won the latch, or the report does not exist: nothing to
    /// do.
    AlreadySent,
    /// The latch was won and the payload built: send it downstream.
    Dispatch(IrwinJob),
    /// The latch was won but the payload could not be built; the latch
    /// deliberately stays set, an operator must intervene.
    Failed(Error),
}

/// Whether the report's jobs are all complete, and there is at least one.
pub open spec fn report_all_complete(store: Store, rid: u64) -> bool {
    &&& count_jobs(store.jobs@, report_job_pred(rid)) > 0
    &&& count_jobs(store.jobs@, report_complete_pred(rid)) == count_jobs(
        store.jobs@,
        report_job_pred(rid),
    )
}

/// Whether the dispatch latch is still open for the report.
pub open spec fn latch_open(store: Store, rid: u64) -> bool {
    has_report(store.reports@, rid) && !store.reports@[report_idx(store.reports@, rid)].sent_to_irwin
}

/// What one completion event does to the store and which outcome it must
/// yield: the exact relation `update_report_completeness` realizes between
/// its pre- and post-state. Jobs, games, analyses and workers never change;
/// only the report named may, and only by taking the latch.
pub open spec fn dispatch_spec(
    pre: Store,
    post: Store,
    rid: ReportId,
    d: DispatchOutcome,
    now: u64,
) -> bool {
    &&& post.jobs == pre.jobs
    &&& post.games == pre.games
    &&& post.analyses == pre.analyses
    &&& post.api_users == pre.api_users
    &&& post.next_job_id == pre.next_job_id
    &&& post.next_report_id == pre.next_report_id
    &&& match d {
        DispatchOutcome::Incomplete { complete, total } => {
            &&& !report_all_complete(pre, rid.0)
            &&& complete == count_jobs(pre.jobs@, report_complete_pred(rid.0))
            &&& total == count_jobs(pre.jobs@, report_job_pred(rid.0))
            &&& post == pre
        },
        DispatchOutcome::AlreadySent => {
            &&& report_all_complete(pre, rid.0)
            &&& !latch_open(pre, rid.0)
            &&& post == pre
        },
        DispatchOutcome::Dispatch(ij) => {
            &&& report_all_complete(pre, rid.0)
            &&& latch_open(pre, rid.0)
            &&& !latch_open(post, rid.0)
            &&& post.reports@ == pre.reports@.update(
                report_idx(pre.reports@, rid.0),
                with_sent(pre.reports@[report_idx(pre.reports@, rid.0)], now),
            )
            &&& ij.player_id@ == pre.reports@[report_idx(pre.reports@, rid.0)].user_id.0@
            &&& ij.analyzed_positions@.len() == 0
            &&& exists|sel: Seq<int>|
                {
                    &&& #[trigger] irwin_selection(post, rid.0, sel)
                    &&& ij.games@.len() == sel.len()
                    &&& forall|t: int|
                        0 <= t < sel.len() ==> built_from(post, sel[t], #[trigger] ij.games@[t])
                }
        },
        DispatchOutcome::Failed(e) => {
            &&& report_all_complete(pre, rid.0)
            &&& latch_open(pre, rid.0)
            // the latch stays set: retries need an operator
            &&& !latch_open(post, rid.0)
            &&& post.reports@ == pre.reports@.update(
                report_idx(pre.reports@, rid.0),
                with_sent(pre.reports@[report_idx(pre.reports@, rid.0)], now),
            )
            &&& e == Error::IncompleteAnalysis
        },
    }
}

/// Recomputes a report's completeness and, where every job is complete,
/// attempts the exactly-once dispatch: wins the latch and builds the
/// payload, or observes that another caller already dispatched. A payload
/// that cannot be built leaves the latch set.
pub fn update_report_completeness(store: &mut Store, rid: ReportId, now: u64) -> (r:
    DispatchOutcome)
    requires
        old(store).wf(),
    ensures
        final(store).wf(),
        store_evolves(*old(store), *final(store)),
        dispatch_spec(*old(store), *final(store), rid, r, now),
{
    let ghost pre = *old(store);
    let (complete, total) = report_completed_counts(store, rid);
    if total == 0 || complete < total {
        proof {
            crate::store::lemma_store_evolves_refl(pre);
        }
        return DispatchOutcome::Incomplete { complete, total };
    }
    let won = atomically_update_sent_to_irwin(store, rid, now);
    if !won {
        return DispatchOutcome::AlreadySent;
    }
    proof {
        let j = report_idx(pre.reports@, rid.0);
        assert(store.reports@[j].sent_to_irwin);
        assert(has_report(store.reports@, rid.0));
        lemma_report_idx_unique(store.reports@, rid.0);
        lemma_report_idx_unique(pre.reports@, rid.0);
        assert(report_idx(store.reports@, rid.0) == j);
    }
    // the report still exists: read it back for the payload
    let report = match store.find_report(rid) {
        Some(rep) => rep,
        None => {
            // unreachable: the latch just matched
            return DispatchOutcome::Failed(Error::IncompleteAnalysis);
        },
    };
    match irwin_job_from_report(store, report) {
        Ok(ij) => {
            proof {
                let j = report_idx(pre.reports@, rid.0);
                assert(report.user_id.0@ == pre.reports@[j].user_id.0@);
            }
            DispatchOutcome::Dispatch(ij)
        },
        Err(e) => DispatchOutcome::Failed(e),
    }
}

/// Reports have unique ids, so the chosen index is the only one.
proof fn lemma_report_idx_unique(reports: Seq<Report>, rid: u64)
    requires
        forall|a: int, b: int|
            0 <= a < b < reports.len() ==> #[trigger] reports[a].id.0 != #[trigger] reports[b].id.0,
        has_report(reports, rid),
    ensures
        0 <= report_idx(reports, rid) < reports.len(),
        reports[report_idx(reports, rid)].id.0 == rid,
        forall|j: int|
            0 <= j < reports.len() && #[trigger] reports[j].id.0 == rid ==> j == report_idx(
                reports,
                rid,
            ),
{
    let g = report_idx(reports, rid);
    assert(0 <= g < reports.len() && reports[g].id.0 == rid);
    assert forall|j: int| 0 <= j < reports.len() && #[trigger] reports[j].id.0 == rid implies j
        == g by {
        if j < g {
            assert(reports[j].id.0 != reports[g].id.0);
        } else if j > g {
            assert(reports[g].id.0 != reports[j].id.0);
        }
    }
}

} // verus!

verus! {

/// What the aggregator did with one event.
#[derive(Debug)]
pub enum AggregatorOutcome {
    /// The event was not a completion; the aggregator only observes those.
    Ignored,
    /// The completed job is gone from the store.
    NoJob,
    /// The completed job belongs to no report.
    NoReportId,
    /// The job's report is gone from the store.
    NoReport,
    /// The report was re-examined.
    Updated(DispatchOutcome),
}

/// What the aggregator's handling of one completion event must do and
/// yield, as a relation on the store: the outcome names exactly why the
/// event went no further, or hands the event to [`dispatch_spec`].
pub open spec fn handle_completed_spec(
    pre: Store,
    post: Store,
    job_id: JobId,
    r: AggregatorOutcome,
    now: u64,
) -> bool {
    match r {
        AggregatorOutcome::Ignored => false,
        AggregatorOutcome::NoJob => !has_job(pre.jobs@, job_id.0) && post == pre,
        AggregatorOutcome::NoReportId => {
            &&& has_job(pre.jobs@, job_id.0)
            &&& pre.jobs@[job_idx(pre.jobs@, job_id.0)].report_id is None
            &&& post == pre
        },
        AggregatorOutcome::NoReport => {
            &&& has_job(pre.jobs@, job_id.0)
            &&& match pre.jobs@[job_idx(pre.jobs@, job_id.0)].report_id {
                Some(rid) => !has_report(pre.reports@, rid.0),
                None => false,
            }
            &&& post == pre
        },
        AggregatorOutcome::Updated(d) => {
            &&& has_job(pre.jobs@, job_id.0)
            &&& match pre.jobs@[job_idx(pre.jobs@, job_id.0)].report_id {
                Some(rid) => has_report(pre.reports@, rid.0) && dispatch_spec(
                    pre,
                    post,
                    rid,
                    d,
                    now,
                ),
                None => false,
            }
        },
    }
}

/// Handles one completion event: resolves the job, then its report, then
/// recomputes that report's completeness and dispatches where it just became
/// complete. Where every job of the report is complete and the latch is
/// still open, the outcome is a dispatch or a recorded failure — never
/// silence.
pub fn handle_job_completed(store: &mut Store, job_id: JobId, now: u64) -> (r: AggregatorOutcome)
    requires
        old(store).wf(),
    ensures
        final(store).wf(),
        store_evolves(*old(store), *final(store)),
        handle_completed_spec(*old(store), *final(store), job_id, r, now),
{
    let ghost pre = *old(store);
    let rid_opt: Option<ReportId> = match crate::queue::get_job(store, job_id) {
        None => {
            proof {
                crate::store::lemma_store_evolves_refl(pre);
            }
            return AggregatorOutcome::NoJob;
        },
        Some(job) => job.report_id,
    };
    let rid = match rid_opt {
        None => {
            proof {
                crate::store::lemma_store_evolves_refl(pre);
            }
            return AggregatorOutcome::NoReportId;
        },
        Some(rid) => rid,
    };
    match store.find_report(rid) {
        None => {
            proof {
                crate::store::lemma_store_evolves_refl(pre);
            }
            return AggregatorOutcome::NoReport;
        },
        Some(_) => {},
    }
    AggregatorOutcome::Updated(update_report_completeness(store, rid, now))
}

/// What one aggregator step must do and yield for any bus message: a
/// completion is handled per [`handle_completed_spec`]; every other event
/// is observed, answered `Ignored`, and changes nothing.
pub open spec fn aggregator_step_spec(
    pre: Store,
    post: Store,
    msg: FishnetMsg,
    r: AggregatorOutcome,
    now: u64,
) -> bool {
    &&& post.wf()
    &&& store_evolves(pre, post)
    &&& match msg {
        FishnetMsg::JobCompleted(job_id, _) => handle_completed_spec(pre, post, job_id, r, now),
        _ => (r matches AggregatorOutcome::Ignored) && post == pre,
    }
}

/// One step of the aggregator loop: completions are handled, every other
/// event is observed and dropped.
pub fn aggregator_step(store: &mut Store, msg: &FishnetMsg, now: u64) -> (r: AggregatorOutcome)
    requires
        old(store).wf(),
    ensures
        aggregator_step_spec(*old(store), *final(store), *msg, r, now),
{
    match msg {
        FishnetMsg::JobCompleted(job_id, _game_id) => {
            let out = handle_job_completed(store, *job_id, now);
            proof {
                assert(!(out matches AggregatorOutcome::Ignored));
            }
            out
        },
        _ => {
            proof {
                crate::store::lemma_store_evolves_refl(*old(store));
            }
            AggregatorOutcome::Ignored
        },
    }
}

/// The position of the first message a drain beginning at `pos` handles:
/// `pos` itself, or the oldest retained message where the subscriber had
/// lagged behind the ring (the older messages are lost, the ring's
/// documented bound; completeness is derived from current state, so the
/// next completion event recomputes whatever a lost one would have).
pub open spec fn drain_start(bus: Bus, pos: int) -> int {
    if pos < bus.first_retained() {
        bus.first_retained()
    } else {
        pos
    }
}

/// A drain's full accounting: one outcome per message from `start` to the
/// end of the bus history, in order; `pres[t]` is the store state the step
/// for message `start + t` ran against, each step meets
/// [`aggregator_step_spec`], the first runs against `pre`, and the last
/// ends in `post`.
pub open spec fn drain_trace_ok(
    pre: Store,
    post: Store,
    bus: Bus,
    start: int,
    outcomes: Seq<AggregatorOutcome>,
    pres: Seq<Store>,
    now: u64,
) -> bool {
    &&& pres.len() == outcomes.len()
    &&& (pres.len() > 0 ==> pres[0] == pre)
    &&& (pres.len() == 0 ==> post == pre)
    &&& forall|t: int|
        0 <= t < pres.len() ==> aggregator_step_spec(
            #[trigger] pres[t],
            if t + 1 < pres.len() {
                pres[t + 1]
            } else {
                post
            },
            bus.history()[start + t],
            outcomes[t],
            now,
        )
}

/// Drains the bus for this subscriber: handles, in publish order, every
/// message from [`drain_start`] to the end of the history, and returns the
/// outcome of each — each one bound to its message and intermediate state
/// by [`aggregator_step_spec`], so every completion drained here was
/// examined, every report that was fully complete with an open latch at its
/// step was latched, and every `Dispatch` outcome carries the payload the
/// process must send downstream.
pub fn aggregator_drain(
    store: &mut Store,
    bus: &Bus,
    sub: &mut Subscriber,
    now: u64,
) -> (outcomes: Vec<AggregatorOutcome>)
    requires
        old(store).wf(),
        bus.wf(),
        old(sub).pos() <= bus.history().len(),
    ensures
        final(store).wf(),
        store_evolves(*old(store), *final(store)),
        final(sub).pos() == bus.history().len(),
        outcomes@.len() == bus.history().len() - drain_start(*bus, old(sub).pos()),
        exists|pres: Seq<Store>|
            drain_trace_ok(
                *old(store),
                *final(store),
                *bus,
                drain_start(*bus, old(sub).pos()),
                outcomes@,
                pres,
                now,
            ),
{
    let ghost pre0 = *old(store);
    let ghost sub0 = old(sub).pos();
    let ghost s = drain_start(*bus, sub0);
    let mut outcomes: Vec<AggregatorOutcome> = Vec::new();
    let ghost pres_init: Seq<Store> = Seq::empty();
    let mut pres = Ghost(pres_init);
    proof {
        crate::store::lemma_store_evolves_refl(pre0);
        bus.lemma_bounds();
    }
    loop
        invariant
            pre0 == *old(store),
            sub0 == old(sub).pos(),
            s == drain_start(*bus, sub0),
            pre0.wf(),
            store.wf(),
            store_evolves(pre0, *store),
            bus.wf(),
            sub0 <= bus.history().len(),
            s <= bus.history().len(),
            sub.pos() <= bus.history().len(),
            outcomes@.len() == pres@.len(),
            sub.pos() < s ==> sub.pos() == sub0 && pres@.len() == 0,
            sub.pos() >= s ==> pres@.len() == sub.pos() - s,
            pres@.len() == 0 ==> *store == pre0,
            pres@.len() > 0 ==> pres@[0] == pre0,
            forall|t: int|
                0 <= t < pres@.len() ==> aggregator_step_spec(
                    #[trigger] pres@[t],
                    if t + 1 < pres@.len() {
                        pres@[t + 1]
                    } else {
                        *store
                    },
                    bus.history()[s + t],
                    outcomes@[t],
                    now,
                ),
        decreases bus.history().len() - sub.pos(),
    {
        let ghost before = sub.pos();
        match bus.recv(sub) {
            RecvResult::Msg(m) => {
                proof {
                    // the message sits exactly at the next slot of the trace
                    assert(bus.first_retained() <= before);
                    assert(before >= s);
                    assert(before == s + pres@.len());
                }
                let ghost prev = *store;
                let ghost oldlen = pres@.len();
                let out = aggregator_step(store, &m, now);
                proof {
                    crate::store::lemma_store_evolves_trans(pre0, prev, *store);
                    pres@ = pres@.push(prev);
                    assert forall|t: int| 0 <= t < pres@.len() implies aggregator_step_spec(
                        #[trigger] pres@[t],
                        if t + 1 < pres@.len() {
                            pres@[t + 1]
                        } else {
                            *store
                        },
                        bus.history()[s + t],
                        outcomes@.push(out)[t],
                        now,
                    ) by {
                        if t < oldlen {
                            assert(pres@[t] == pres@.subrange(0, oldlen as int)[t]);
                            if t + 1 < oldlen as int {
                                assert(aggregator_step_spec(
                                    pres@[t],
                                    pres@[t + 1],
                                    bus.history()[s + t],
                                    outcomes@[t],
                                    now,
                                ));
                            } else {
                                // the former last step ends in the state this
                                // step ran against
                                assert(pres@[t + 1] == prev);
                                assert(aggregator_step_spec(
                                    pres@[t],
                                    prev,
                                    bus.history()[s + t],
                                    outcomes@[t],
                                    now,
                                ));
                            }
                        } else {
                            assert(pres@[t] == prev);
                            assert(m == bus.history()[before]);
                            assert(aggregator_step_spec(prev, *store, m, out, now));
                        }
                    }
                }
                outcomes.push(out);
            },
            RecvResult::Lagged(_) => {
                proof {
                    // only a fresh subscriber behind the ring lags; its
                    // position jumps to the oldest retained message
                    assert(before < bus.first_retained());
                    assert(before < s);
                    assert(before == sub0);
                    assert(s == bus.first_retained());
                    assert(sub.pos() == s);
                }
            },
            RecvResult::Empty => {
                proof {
                    assert(sub.pos() == bus.history().len());
                    assert(drain_trace_ok(pre0, *store, *bus, s, outcomes@, pres@, now));
                }
                return outcomes;
            },
            RecvResult::Closed => {
                proof {
                    assert(sub.pos() == bus.history().len());
                    assert(drain_trace_ok(pre0, *store, *bus, s, outcomes@, pres@, now));
                }
                return outcomes;
            },
        }
    }
}

/// The dispatch latch fires at most once: once a report is marked sent in a
/// well-formed store, no state the library's operations can reach from it
/// has the latch open again, so no second caller ever wins it.
pub proof fn lemma_latch_at_most_once(mid: Store, later: Store, rid: u64)
    requires
        mid.wf(),
        has_report(mid.reports@, rid),
        mid.reports@[report_idx(mid.reports@, rid)].sent_to_irwin,
        store_evolves(mid, later),
    ensures
        !latch_open(later, rid),
{
    if latch_open(later, rid) {
        let i = report_idx(mid.reports@, rid);
        let k = report_idx(later.reports@, rid);
        assert(0 <= k < later.reports@.len() && later.reports@[k].id.0 == rid);
        assert(mid.reports@[i].id.0 == rid);
        assert(later.reports@[k].sent_to_irwin);
    }
}

} // verus!
