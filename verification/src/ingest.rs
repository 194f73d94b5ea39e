//! The ingestor: accepts upstream analysis reports, translates their SAN
//! move lists to UCI, and materializes games, the report and one job per
//! game in the store. An illegal move fails the whole request before
//! anything is stored.

use vstd::prelude::*;

use crate::chess::{san_line, uci_from_san, uci_line_ok};
use crate::error::Error;
use crate::model::{
    lower_of, spec_precedence_for_origin, AnalysisType, CreateGame, CreateJob, CreateReport, Eval,
    Game, GameId, ReportId, ReportOrigin, ReportType, UserId,
};
use crate::store::{game_idx, has_game, store_evolves, Store};

verus! {

/// The suspect user as the upstream reports them.
#[derive(Debug)]
pub struct User {
    pub id: UserId,
    pub titled: bool,
    pub engine: bool,
    pub games: i32,
}

/// One game of an upstream report: SAN moves, players, optional move times
/// and an optional prior analysis (which ingestion does not store).
#[derive(Debug)]
pub struct RequestGame {
    pub id: GameId,
    pub white: UserId,
    pub black: UserId,
    pub emts: Option<Vec<u32>>,
    pub pgn: Vec<String>,
    pub analysis: Option<Vec<Eval>>,
}

/// An upstream analysis request.
#[derive(Debug)]
pub struct Request {
    pub t: String,
    pub origin: ReportOrigin,
    pub user: User,
    pub games: Vec<RequestGame>,
}

/// A keep-alive frame; accepted and ignored.
#[derive(Debug)]
pub struct KeepAlive {
    pub keep_alive: bool,
}

/// The move times the stored game keeps: the given ones where they cover
/// every ply, none otherwise.
pub open spec fn spec_kept_emts(g: RequestGame) -> Seq<u32> {
    match g.emts {
        Some(e) => if e@.len() == g.pgn@.len() {
            e@
        } else {
            Seq::empty()
        },
        None => Seq::empty(),
    }
}

/// The stored game a request game becomes: id and players canonicalized to
/// lowercase, SAN translated to UCI.
pub open spec fn game_translated(g: RequestGame, stored: Game) -> bool {
    &&& stored.id.0@ == lower_of(g.id.0@)
    &&& san_line(Seq::<Seq<char>>::empty(), g.pgn.deep_view()) == Some(stored.pgn.deep_view())
    &&& stored.emts@ == spec_kept_emts(g)
    &&& stored.white matches Some(w) && w.0@ == lower_of(g.white.0@)
    &&& stored.black matches Some(b) && b.0@ == lower_of(g.black.0@)
}

/// Copies a move-time list element by element.
fn clone_emts(v: &Vec<u32>) -> (res: Vec<u32>)
    ensures
        res@ == v@,
{
    let mut res: Vec<u32> = Vec::new();
    let mut i: usize = 0;
    while i < v.len()
        invariant
            0 <= i <= v@.len(),
            res@ == v@.take(i as int),
        decreases v@.len() - i,
    {
        res.push(v[i]);
        i = i + 1;
    }
    assert(v@.take(v@.len() as int) == v@);
    res
}

/// Translates one request game: its SAN line becomes UCI, its move times are
/// kept only where they cover every ply. Fails with `InvalidMoves` exactly
/// where the SAN line does not play out legally.
pub fn create_game_from_request(g: &RequestGame) -> (r: Result<CreateGame, Error>)
    ensures
        match r {
            Ok(c) => {
                &&& game_translated(*g, c.spec_game())
                &&& c.spec_game().wf()
                &&& uci_line_ok(Seq::<Seq<char>>::empty(), c.pgn.deep_view())
            },
            Err(e) => {
                &&& e == Error::InvalidMoves
                &&& san_line(Seq::<Seq<char>>::empty(), g.pgn.deep_view()) is None
            },
        },
{
    let ucis = match uci_from_san(&g.pgn) {
        Ok(u) => u,
        Err(e) => {
            return Err(e);
        },
    };
    proof {
        crate::chess::lemma_san_line_len(
            Seq::<Seq<char>>::empty(),
            g.pgn.deep_view(),
            ucis.deep_view(),
        );
        assert(ucis.deep_view().len() == ucis@.len());
        assert(g.pgn.deep_view().len() == g.pgn@.len());
    }
    let emts: Vec<u32> = match &g.emts {
        Some(e) => {
            if e.len() == g.pgn.len() {
                clone_emts(e)
            } else {
                Vec::new()
            }
        },
        None => Vec::new(),
    };
    Ok(
        CreateGame {
            game_id: g.id.normalized(),
            emts,
            pgn: ucis,
            black: Some(g.black.normalized()),
            white: Some(g.white.normalized()),
        },
    )
}

/// The canonical game ids of a request, in order.
pub open spec fn spec_request_game_ids(games: Seq<RequestGame>) -> Seq<Seq<char>> {
    Seq::new(games.len(), |i: int| lower_of(games[i].id.0@))
}

/// The report a request opens.
pub fn create_report_from_request(request: &Request) -> (c: CreateReport)
    ensures
        c.user_id.0@ == lower_of(request.user.id.0@),
        c.origin == request.origin,
        c.report_type == ReportType::Irwin,
        c.games.deep_view() == spec_request_game_ids(request.games@),
{
    let mut games: Vec<GameId> = Vec::new();
    let n = request.games.len();
    let mut i: usize = 0;
    while i < n
        invariant
            n == request.games@.len(),
            0 <= i <= n,
            games.deep_view() =~= spec_request_game_ids(request.games@).take(i as int),
        decreases n - i,
    {
        let ghost prev = games.deep_view();
        let id = request.games[i].id.normalized();
        games.push(id);
        proof {
            let dv = games.deep_view();
            let tk = spec_request_game_ids(request.games@).take(i as int + 1);
            assert(prev.len() == games@.len() - 1);
            assert(prev.len() == spec_request_game_ids(request.games@).take(i as int).len());
            assert(spec_request_game_ids(request.games@).take(i as int).len() == i);
            assert(dv.len() == i + 1);
            assert forall|t: int| 0 <= t < i + 1 implies dv[t] == tk[t] by {
                if t < i as int {
                    assert(dv[t] == prev[t]);
                } else {
                    assert(games@[t] == id);
                }
            }
            assert(dv =~= tk);
        }
        i = i + 1;
    }
    proof {
        assert(spec_request_game_ids(request.games@).take(n as int) =~= spec_request_game_ids(
            request.games@,
        ));
    }
    CreateReport {
        user_id: request.user.id.normalized(),
        origin: request.origin,
        report_type: ReportType::Irwin,
        games,
    }
}

/// What each job opened by `add_to_queue` must look like.
pub open spec fn ingest_job_ok(
    j: crate::model::Job,
    g: RequestGame,
    rid: ReportId,
    origin: ReportOrigin,
    now: u64,
) -> bool {
    &&& j.game_id.0@ == lower_of(g.id.0@)
    &&& j.report_id == Some(rid)
    &&& j.analysis_type == AnalysisType::Deep
    &&& j.precedence == spec_precedence_for_origin(origin)
    &&& j.owner is None
    &&& !j.is_complete
    &&& j.date_last_updated == now
}

/// Ingests one upstream request: translates every game's SAN line to UCI —
/// an illegal move anywhere rejects the whole request with `InvalidMoves`
/// and stores nothing — then upserts the games, inserts the report with the
/// dispatch latch clear, and opens one `Deep` job per game under the
/// report's id, at the precedence the origin confers.
#[verifier::rlimit(50)]
pub fn add_to_queue(store: &mut Store, request: &Request, now: u64) -> (r: Result<ReportId, Error>)
    requires
        old(store).wf(),
        old(store).next_report_id < u64::MAX,
        old(store).next_job_id + request.games@.len() <= u64::MAX,
    ensures
        final(store).wf(),
        store_evolves(*old(store), *final(store)),
        final(store).analyses == old(store).analyses,
        final(store).api_users == old(store).api_users,
        match r {
            Ok(rid) => {
                // every game's SAN line translated: nothing illegal anywhere
                &&& forall|k: int|
                    0 <= k < request.games@.len() ==> san_line(
                        Seq::<Seq<char>>::empty(),
                        (#[trigger] request.games@[k]).pgn.deep_view(),
                    ) is Some
                // the report, with its latch clear
                &&& rid.0 == old(store).next_report_id
                &&& final(store).reports@.len() == old(store).reports@.len() + 1
                &&& final(store).reports@.take(old(store).reports@.len() as int) == old(
                    store,
                ).reports@
                &&& {
                    let rep = final(store).reports@.last();
                    &&& rep.id == rid
                    &&& rep.user_id.0@ == lower_of(request.user.id.0@)
                    &&& rep.origin == request.origin
                    &&& rep.report_type == ReportType::Irwin
                    &&& rep.games.deep_view() == spec_request_game_ids(request.games@)
                    &&& rep.date_requested == now
                    &&& rep.date_completed is None
                    &&& !rep.sent_to_irwin
                }
                // one job per game, in order
                &&& final(store).jobs@.len() == old(store).jobs@.len() + request.games@.len()
                &&& final(store).jobs@.take(old(store).jobs@.len() as int) == old(store).jobs@
                &&& forall|k: int|
                    0 <= k < request.games@.len() ==> ingest_job_ok(
                        #[trigger] final(store).jobs@[old(store).jobs@.len() + k],
                        request.games@[k],
                        rid,
                        request.origin,
                        now,
                    )
                // every game of the request stored, translated
                &&& forall|k: int|
                    0 <= k < request.games@.len() ==> has_game(
                        final(store).games@,
                        lower_of((#[trigger] request.games@[k]).id.0@),
                    )
                &&& forall|k: int|
                    0 <= k < request.games@.len() ==> exists|t: int|
                        0 <= t < request.games@.len() && lower_of(request.games@[t].id.0@)
                            == lower_of((#[trigger] request.games@[k]).id.0@) && game_translated(
                            request.games@[t],
                            final(store).games@[game_idx(
                                final(store).games@,
                                lower_of(request.games@[k].id.0@),
                            )],
                        )
            },
            Err(e) => {
                &&& e == Error::InvalidMoves
                &&& *final(store) == *old(store)
                &&& exists|k: int|
                    0 <= k < request.games@.len() && san_line(
                        Seq::<Seq<char>>::empty(),
                        (#[trigger] request.games@[k]).pgn.deep_view(),
                    ) is None
            },
        },
{
    let ghost pre = *old(store);
    // translate everything first: nothing is stored on failure
    let creates = match translate_games(request) {
        Ok(c) => c,
        Err(e) => {
            proof {
                crate::store::lemma_store_evolves_refl(pre);
            }
            return Err(e);
        },
    };
    let ghost creates0 = creates@;
    upsert_translated(store, request, creates);
    // insert the report
    let ghost mid1 = *store;
    let report = create_report_from_request(request);
    let rid = store.insert_report(report, now);
    proof {
        crate::store::lemma_store_evolves_trans(pre, mid1, *store);
        assert(store.reports@.take(pre.reports@.len() as int) =~= pre.reports@);
    }
    // open one job per game under the report
    let jobs = jobs_for_request(request, rid);
    let ghost mid2 = *store;
    let _ids = crate::queue::insert_many_jobs(store, jobs, now);
    proof {
        crate::store::lemma_store_evolves_trans(pre, mid2, *store);
        assert(store.reports@.take(pre.reports@.len() as int) =~= pre.reports@);
        assert(store.jobs@.take(pre.jobs@.len() as int) =~= pre.jobs@);
        assert forall|k: int| 0 <= k < request.games@.len() implies ingest_job_ok(
            #[trigger] store.jobs@[pre.jobs@.len() + k],
            request.games@[k],
            rid,
            request.origin,
            now,
        ) by {
            assert(store.jobs@[pre.jobs@.len() + k] == jobs@[k].spec_job(_ids@[k], now));
        }
        assert forall|k: int| 0 <= k < request.games@.len() implies san_line(
            Seq::<Seq<char>>::empty(),
            (#[trigger] request.games@[k]).pgn.deep_view(),
        ) is Some by {
            assert(game_translated(request.games@[k], creates0[k].spec_game()));
        }
    }
    Ok(rid)
}

/// Translates every game of a request, or fails whole with `InvalidMoves`.
fn translate_games(request: &Request) -> (r: Result<Vec<CreateGame>, Error>)
    ensures
        match r {
            Ok(creates) => {
                &&& creates@.len() == request.games@.len()
                &&& forall|k: int|
                    0 <= k < request.games@.len() ==> game_translated(
                        request.games@[k],
                        (#[trigger] creates@[k]).spec_game(),
                    ) && creates@[k].spec_game().wf()
            },
            Err(e) => {
                &&& e == Error::InvalidMoves
                &&& exists|k: int|
                    0 <= k < request.games@.len() && san_line(
                        Seq::<Seq<char>>::empty(),
                        (#[trigger] request.games@[k]).pgn.deep_view(),
                    ) is None
            },
        },
{
    let mut creates: Vec<CreateGame> = Vec::new();
    let n = request.games.len();
    let mut i: usize = 0;
    while i < n
        invariant
            n == request.games@.len(),
            0 <= i <= n,
            creates@.len() == i,
            forall|k: int|
                0 <= k < i ==> game_translated(
                    request.games@[k],
                    (#[trigger] creates@[k]).spec_game(),
                ) && creates@[k].spec_game().wf(),
        decreases n - i,
    {
        match create_game_from_request(&request.games[i]) {
            Ok(c) => {
                creates.push(c);
            },
            Err(e) => {
                return Err(e);
            },
        }
        i = i + 1;
    }
    Ok(creates)
}

/// Upserts every translated game; afterwards each game of the request is
/// stored under its canonical id. Where two request games share an id, the
/// later one is the one kept.
#[verifier::rlimit(50)]
fn upsert_translated(store: &mut Store, request: &Request, creates: Vec<CreateGame>)
    requires
        old(store).wf(),
        creates@.len() == request.games@.len(),
        forall|k: int|
            0 <= k < request.games@.len() ==> game_translated(
                request.games@[k],
                (#[trigger] creates@[k]).spec_game(),
            ) && creates@[k].spec_game().wf(),
    ensures
        final(store).wf(),
        store_evolves(*old(store), *final(store)),
        final(store).jobs == old(store).jobs,
        final(store).reports == old(store).reports,
        final(store).analyses == old(store).analyses,
        final(store).api_users == old(store).api_users,
        final(store).next_job_id == old(store).next_job_id,
        final(store).next_report_id == old(store).next_report_id,
        forall|k: int|
            0 <= k < request.games@.len() ==> has_game(
                final(store).games@,
                lower_of((#[trigger] request.games@[k]).id.0@),
            ),
        forall|k: int|
            0 <= k < request.games@.len() ==> exists|t: int|
                0 <= t < request.games@.len() && lower_of(request.games@[t].id.0@)
                    == lower_of((#[trigger] request.games@[k]).id.0@) && game_translated(
                    request.games@[t],
                    final(store).games@[game_idx(
                        final(store).games@,
                        lower_of(request.games@[k].id.0@),
                    )],
                ),
{
    let ghost pre = *old(store);
    let mut creates = creates;
    let n = request.games.len();
    let mut i: usize = 0;
    proof {
        crate::store::lemma_store_evolves_refl(pre);
    }
    while i < n
        invariant
            pre.wf(),
            pre == *old(store),
            store.wf(),
            store_evolves(pre, *store),
            n == request.games@.len(),
            0 <= i <= n,
            creates@.len() == n - i,
            forall|k: int|
                0 <= k < n - i ==> game_translated(
                    request.games@[k + i],
                    (#[trigger] creates@[k]).spec_game(),
                ) && creates@[k].spec_game().wf(),
            store.jobs == pre.jobs,
            store.reports == pre.reports,
            store.analyses == pre.analyses,
            store.api_users == pre.api_users,
            store.next_job_id == pre.next_job_id,
            store.next_report_id == pre.next_report_id,
            forall|k: int|
                0 <= k < i ==> has_game(store.games@, lower_of((#[trigger] request.games@[k]).id.0@)),
            forall|k: int|
                0 <= k < i ==> exists|t: int|
                    0 <= t < n && lower_of(request.games@[t].id.0@) == lower_of((#[trigger] request.games@[k]).id.0@)
                        && game_translated(
                        request.games@[t],
                        store.games@[game_idx(store.games@, lower_of(request.games@[k].id.0@))],
                    ),
        decreases n - i,
    {
        let ghost prev = *store;
        let c = creates.remove(0);
        let g = c.into_game();
        let ghost gid = g.id.0@;
        store.upsert_game(g);
        proof {
            crate::store::lemma_store_evolves_trans(pre, prev, *store);
            assert(gid == lower_of(request.games@[i as int].id.0@));
            // the game just written is stored under its id
            if has_game(prev.games@, gid) {
                let j = game_idx(prev.games@, gid);
                assert(store.games@[j].id.0@ == gid);
                assert(has_game(store.games@, gid));
            } else {
                let j = store.games@.len() - 1;
                assert(store.games@[j].id.0@ == gid);
                assert(has_game(store.games@, gid));
            }
            lemma_upsert_keeps(prev.games@, store.games@, gid);
            assert forall|k: int| 0 <= k < i + 1 implies has_game(
                store.games@,
                lower_of((#[trigger] request.games@[k]).id.0@),
            ) by {
                if k < i {
                    assert(has_game(prev.games@, lower_of(request.games@[k].id.0@)));
                    if lower_of(request.games@[k].id.0@) != gid {
                        assert(has_game(store.games@, lower_of(request.games@[k].id.0@)));
                    }
                }
            }
            assert forall|k: int| 0 <= k < i + 1 implies exists|t: int|
                0 <= t < n && lower_of(request.games@[t].id.0@) == lower_of((#[trigger] request.games@[k]).id.0@)
                    && game_translated(
                    request.games@[t],
                    store.games@[game_idx(store.games@, lower_of(request.games@[k].id.0@))],
                ) by {
                let id = lower_of(request.games@[k].id.0@);
                if id == gid {
                    let j = game_idx(store.games@, gid);
                    assert(store.games@[j].id.0@ == gid);
                    lemma_game_idx_unique(store.games@, gid);
                    assert(game_translated(request.games@[i as int], store.games@[j]));
                    assert(0 <= i < n && lower_of(request.games@[i as int].id.0@) == id);
                } else {
                    assert(k < i);
                    let t = choose|t: int|
                        0 <= t < n && lower_of(request.games@[t].id.0@) == id && game_translated(
                            request.games@[t],
                            prev.games@[game_idx(prev.games@, id)],
                        );
                    assert(has_game(prev.games@, id));
                    assert(store.games@[game_idx(store.games@, id)] == prev.games@[game_idx(
                        prev.games@,
                        id,
                    )]);
                    assert(game_translated(request.games@[t], store.games@[game_idx(
                        store.games@,
                        id,
                    )]));
                }
            }
        }
        i = i + 1;
    }
}

/// After an upsert of a game with id `gid`, every other id is stored exactly
/// as before, and `gid` is stored.
proof fn lemma_upsert_keeps(prev: Seq<Game>, cur: Seq<Game>, gid: Seq<char>)
    requires
        forall|a: int, b: int| 0 <= a < b < prev.len() ==> #[trigger] prev[a].id.0@ != #[trigger] prev[b].id.0@,
        forall|a: int, b: int| 0 <= a < b < cur.len() ==> #[trigger] cur[a].id.0@ != #[trigger] cur[b].id.0@,
        has_game(cur, gid),
        (has_game(prev, gid) && cur == prev.update(game_idx(prev, gid), cur[game_idx(prev, gid)])
            && cur[game_idx(prev, gid)].id.0@ == gid) || (!has_game(prev, gid) && cur
            == prev.push(cur[prev.len() as int]) && cur[prev.len() as int].id.0@ == gid),
    ensures
        forall|id: Seq<char>|
            id != gid && #[trigger] has_game(prev, id) ==> has_game(cur, id) && game_idx(cur, id)
                == game_idx(prev, id) && cur[game_idx(cur, id)] == prev[game_idx(prev, id)],
        game_idx(cur, gid) == if has_game(prev, gid) {
            game_idx(prev, gid)
        } else {
            prev.len() as int
        },
{
    let jg = if has_game(prev, gid) {
        game_idx(prev, gid)
    } else {
        prev.len() as int
    };
    assert(cur[jg].id.0@ == gid);
    lemma_game_idx_unique(cur, gid);
    assert forall|id: Seq<char>|
        id != gid && #[trigger] has_game(prev, id) implies has_game(cur, id) && game_idx(cur, id)
        == game_idx(prev, id) && cur[game_idx(cur, id)] == prev[game_idx(prev, id)] by {
        let j = game_idx(prev, id);
        assert(prev[j].id.0@ == id);
        assert(j != jg);
        assert(cur[j] == prev[j]);
        assert(has_game(cur, id));
        lemma_game_idx_unique(cur, id);
    }
}

/// Two games never share an id, so the chosen index is the only index.
proof fn lemma_game_idx_unique(games: Seq<Game>, id: Seq<char>)
    requires
        forall|a: int, b: int| 0 <= a < b < games.len() ==> #[trigger] games[a].id.0@ != #[trigger] games[b].id.0@,
        has_game(games, id),
    ensures
        0 <= game_idx(games, id) < games.len(),
        games[game_idx(games, id)].id.0@ == id,
        forall|j: int| 0 <= j < games.len() && #[trigger] games[j].id.0@ == id ==> j == game_idx(games, id),
{
    let g = game_idx(games, id);
    assert(0 <= g < games.len() && games[g].id.0@ == id);
    assert forall|j: int| 0 <= j < games.len() && #[trigger] games[j].id.0@ == id implies j == g by {
        if j < g {
            assert(games[j].id.0@ != games[g].id.0@);
        } else if j > g {
            assert(games[g].id.0@ != games[j].id.0@);
        }
    }
}

/// The job payloads a request opens, one per game, in order.
fn jobs_for_request(request: &Request, rid: ReportId) -> (jobs: Vec<CreateJob>)
    ensures
        jobs@.len() == request.games@.len(),
        forall|k: int|
            0 <= k < request.games@.len() ==> {
                let c = #[trigger] jobs@[k];
                &&& c.game_id.0@ == lower_of(request.games@[k].id.0@)
                &&& c.report_id == Some(rid)
                &&& c.analysis_type == AnalysisType::Deep
                &&& c.precedence == spec_precedence_for_origin(request.origin)
            },
{
    let mut jobs: Vec<CreateJob> = Vec::new();
    let n = request.games.len();
    let mut i: usize = 0;
    while i < n
        invariant
            n == request.games@.len(),
            0 <= i <= n,
            jobs@.len() == i,
            forall|k: int|
                0 <= k < i ==> {
                    let c = #[trigger] jobs@[k];
                    &&& c.game_id.0@ == lower_of(request.games@[k].id.0@)
                    &&& c.report_id == Some(rid)
                    &&& c.analysis_type == AnalysisType::Deep
                    &&& c.precedence == spec_precedence_for_origin(request.origin)
                },
        decreases n - i,
    {
        let precedence = crate::model::precedence_for_origin(request.origin);
        jobs.push(
            CreateJob {
                game_id: request.games[i].id.normalized(),
                report_id: Some(rid),
                analysis_type: AnalysisType::Deep,
                precedence,
            },
        );
        i = i + 1;
    }
    jobs
}

} // verus!
