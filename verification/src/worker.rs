//! The worker protocol: key authentication, the payloads workers exchange,
//! per-capability engine policy, and the acquire/abort/analysis/key/status
//! operations.

use vstd::prelude::*;

use crate::bus::{Bus, FishnetMsg};
use crate::error::{Error, HttpError};
use crate::model::{
    clone_strings, AnalysisType, ApiUser, CreateGameAnalysis, GameId, JobId, Key, PlyAnalysis,
};
use crate::queue::{
    assignable, chosen_for_assign, complete_match, with_complete, with_owner, KeyStatus, QStatus,
};
use crate::store::{
    game_idx, has_api_key, has_game, has_job, job_idx, store_evolves, Store,
};

verus! {

/// The chess variant a job is played under.
#[derive(Clone, Copy, Debug, PartialEq, Eq, Structural)]
pub enum Variant {
    Standard,
}

/// What kind of work a payload asks for.
#[derive(Clone, Copy, Debug, PartialEq, Eq, Structural)]
pub enum WorkType {
    Analysis,
    Move,
}

/// The envelope every worker request carries: its version and key.
#[derive(Debug)]
pub struct RequestInfo {
    pub version: String,
    pub api_key: Key,
}

/// A bare authenticated request.
#[derive(Debug)]
pub struct FishnetRequest {
    pub fishnet: RequestInfo,
}

/// The body of an acquire request.
#[derive(Debug)]
pub struct AcquireRequest {
    pub fishnet: RequestInfo,
}

/// Node budgets for the two engine evaluation modes.
#[derive(Clone, Copy, Debug, PartialEq, Eq, Structural)]
pub struct Nodes {
    pub nnue: u64,
    pub classical: u64,
}

/// The work section of an acquire response.
#[derive(Debug)]
pub struct WorkInfo {
    pub work_type: WorkType,
    pub id: JobId,
    pub nodes: Nodes,
    pub depth: Option<u8>,
    pub multipv: Option<u8>,
}

/// An acquire response: everything a worker needs to analyse one game.
#[derive(Debug)]
pub struct Job {
    pub work: WorkInfo,
    pub game_id: GameId,
    pub position: String,
    pub variant: Variant,
    pub moves: Vec<String>,
    pub skip_positions: Vec<u8>,
}

/// Which engine flavor produced a submission.
#[derive(Clone, Copy, Debug, PartialEq, Eq, Structural)]
pub enum StockfishFlavor {
    Nnue,
    Classical,
}

/// The engine description a submission carries.
#[derive(Clone, Copy, Debug, PartialEq, Eq, Structural)]
pub struct StockfishType {
    pub flavor: StockfishFlavor,
}

/// A worker's submitted analysis: one optional entry per ply.
#[derive(Debug)]
pub struct AnalysisReport {
    pub fishnet: RequestInfo,
    pub stockfish: StockfishType,
    pub analysis: Vec<Option<PlyAnalysis>>,
}

/// A key carried in an `Authorization: Bearer <key>` header.
#[derive(Debug)]
pub struct HeaderKey(pub Key);

impl HeaderKey {
    /// Parses an authorization header value: exactly a `Bearer ` prefix
    /// followed by the key.
    pub fn from_str(s: &str) -> (r: Result<HeaderKey, Error>)
        ensures
            match r {
                Ok(hk) => {
                    &&& s@.len() >= 7
                    &&& s@.subrange(0, 7) == "Bearer "@
                    &&& hk.0.0@ == s@.skip(7)
                },
                Err(e) => {
                    &&& e == Error::Http(HttpError::MalformedHeader)
                    &&& !(s@.len() >= 7 && s@.subrange(0, 7) == "Bearer "@)
                },
            },
    {
        proof {
            reveal_strlit("Bearer ");
        }
        let prefix = "Bearer ";
        let n = s.unicode_len();
        if n < 7 {
            return Err(Error::Http(HttpError::MalformedHeader));
        }
        let mut i: usize = 0;
        while i < 7
            invariant
                0 <= i <= 7,
                n == s@.len(),
                n >= 7,
                prefix@ == "Bearer "@,
                prefix@.len() == 7,
                forall|k: int| 0 <= k < i ==> s@[k] == prefix@[k],
            decreases 7 - i,
        {
            if s.get_char(i) != prefix.get_char(i) {
                proof {
                    assert(s@.subrange(0, 7) != "Bearer "@) by {
                        assert(s@.subrange(0, 7)[i as int] == s@[i as int]);
                    }
                }
                return Err(Error::Http(HttpError::MalformedHeader));
            }
            i = i + 1;
        }
        let key = s.substring_char(7, n).to_owned();
        proof {
            assert(s@.subrange(0, 7) =~= "Bearer "@);
            assert(key@ =~= s@.skip(7));
        }
        Ok(HeaderKey(Key(key)))
    }
}

/// Anything that carries a worker's API key. Implemented by the payload
/// types; authentication is generic over it.
pub trait HasApiKey {
    /// The key's characters.
    spec fn key_view(&self) -> Seq<char>;

    /// Hands the key out for the store lookup.
    fn api_key(&self) -> (r: Key)
        ensures
            r.0@ == self.key_view(),
    ;
}

impl HasApiKey for FishnetRequest {
    open spec fn key_view(&self) -> Seq<char> {
        self.fishnet.api_key.0@
    }

    fn api_key(&self) -> (r: Key)
        ensures
            r.0@ == self.key_view(),
    {
        self.fishnet.api_key.clone()
    }
}

impl HasApiKey for AcquireRequest {
    open spec fn key_view(&self) -> Seq<char> {
        self.fishnet.api_key.0@
    }

    fn api_key(&self) -> (r: Key)
        ensures
            r.0@ == self.key_view(),
    {
        self.fishnet.api_key.clone()
    }
}

impl HasApiKey for AnalysisReport {
    open spec fn key_view(&self) -> Seq<char> {
        self.fishnet.api_key.0@
    }

    fn api_key(&self) -> (r: Key)
        ensures
            r.0@ == self.key_view(),
    {
        self.fishnet.api_key.clone()
    }
}

impl HasApiKey for HeaderKey {
    open spec fn key_view(&self) -> Seq<char> {
        self.0.0@
    }

    fn api_key(&self) -> (r: Key)
        ensures
            r.0@ == self.key_view(),
    {
        self.0.clone()
    }
}

impl HasApiKey for ApiUser {
    open spec fn key_view(&self) -> Seq<char> {
        self.key.0@
    }

    fn api_key(&self) -> (r: Key)
        ensures
            r.0@ == self.key_view(),
    {
        self.key.clone()
    }
}

/// A payload whose key resolved to a registered worker.
pub struct Authorized<T> {
    val: T,
    api_user: ApiUser,
}

impl<T> Authorized<T> {
    /// The authenticated payload.
    pub closed spec fn spec_val(&self) -> T {
        self.val
    }

    /// The worker the key resolved to.
    pub closed spec fn spec_user(&self) -> ApiUser {
        self.api_user
    }

    /// Reads the payload.
    pub fn val(&self) -> (r: &T)
        ensures
            *r == self.spec_val(),
    {
        &self.val
    }

    /// Reads the worker.
    pub fn api_user(&self) -> (r: &ApiUser)
        ensures
            *r == self.spec_user(),
    {
        &self.api_user
    }

    /// Carries the authentication over to a derived payload.
    pub fn map<T2, F: FnOnce(T) -> T2>(self, f: F) -> (r: Authorized<T2>)
        requires
            call_requires(f, (self.spec_val(),)),
        ensures
            call_ensures(f, (self.spec_val(),), r.spec_val()),
            r.spec_user() == self.spec_user(),
    {
        let val = f(self.val);
        Authorized { val, api_user: self.api_user }
    }
}

/// Resolves a payload's key to a registered worker, or refuses it: unknown
/// keys are forbidden.
pub fn authorize<T: HasApiKey>(store: &Store, val: T) -> (r: Result<Authorized<T>, Error>)
    requires
        store.wf(),
    ensures
        match r {
            Ok(a) => {
                &&& has_api_key(store.api_users@, val.key_view())
                &&& a.spec_val() == val
                &&& a.spec_user()@ == store.api_users@[crate::store::api_key_idx(
                    store.api_users@,
                    val.key_view(),
                )]@
                &&& a.spec_user().key.0@ == val.key_view()
                &&& a.spec_user().wf()
            },
            Err(e) => {
                &&& e == Error::Http(HttpError::Forbidden)
                &&& !has_api_key(store.api_users@, val.key_view())
            },
        },
{
    let key = val.api_key();
    match crate::queue::get_api_user(store, &key) {
        Some(u) => {
            let api_user = u.clone();
            Ok(Authorized { val, api_user })
        },
        None => Err(Error::Http(HttpError::Forbidden)),
    }
}

/// The node budgets each analysis kind runs with.
pub open spec fn spec_nodes_for(t: AnalysisType) -> Nodes {
    match t {
        AnalysisType::UserAnalysis => Nodes { nnue: 2_250_000u64, classical: 4_050_000u64 },
        AnalysisType::SystemAnalysis => Nodes { nnue: 2_250_000u64, classical: 4_050_000u64 },
        AnalysisType::Deep => Nodes { nnue: 2_500_000u64, classical: 4_500_000u64 },
    }
}

/// How many candidate lines each analysis kind asks for.
pub open spec fn spec_multipv_for(t: AnalysisType) -> Option<u8> {
    match t {
        AnalysisType::Deep => Some(5u8),
        _ => None,
    }
}

/// Which plies each analysis kind skips.
pub open spec fn spec_skip_positions_for(t: AnalysisType) -> Seq<u8> {
    match t {
        AnalysisType::Deep => Seq::empty(),
        _ => seq![0u8, 1u8, 2u8, 3u8, 4u8, 5u8, 6u8, 7u8, 8u8, 9u8],
    }
}

/// The node budget a job runs with.
pub fn nodes_for_job(job: &crate::model::Job) -> (r: Nodes)
    ensures
        r == spec_nodes_for(job.analysis_type),
{
    match job.analysis_type {
        AnalysisType::UserAnalysis => Nodes { nnue: 2_250_000u64, classical: 4_050_000u64 },
        AnalysisType::SystemAnalysis => Nodes { nnue: 2_250_000u64, classical: 4_050_000u64 },
        AnalysisType::Deep => Nodes { nnue: 2_500_000u64, classical: 4_500_000u64 },
    }
}

/// The candidate-line count a job runs with: deep analysis asks for five.
pub fn multipv_for_job(job: &crate::model::Job) -> (r: Option<u8>)
    ensures
        r == spec_multipv_for(job.analysis_type),
{
    match job.analysis_type {
        AnalysisType::Deep => Some(5u8),
        _ => None,
    }
}

/// The depth a job asks for: none currently does.
pub fn depth_for_job(job: &crate::model::Job) -> (r: Option<u8>)
    ensures
        r is None,
{
    None
}

/// The plies a job skips: the first ten for ordinary analysis, none for
/// deep analysis.
pub fn skip_positions_for_job(job: &crate::model::Job) -> (r: Vec<u8>)
    ensures
        r@ == spec_skip_positions_for(job.analysis_type),
{
    match job.analysis_type {
        AnalysisType::Deep => {
            let r: Vec<u8> = Vec::new();
            proof {
                assert(r@ =~= spec_skip_positions_for(AnalysisType::Deep));
            }
            r
        },
        _ => {
            let r: Vec<u8> = vec![0u8, 1u8, 2u8, 3u8, 4u8, 5u8, 6u8, 7u8, 8u8, 9u8];
            proof {
                assert(r@ =~= spec_skip_positions_for(job.analysis_type));
            }
            r
        },
    }
}

/// The starting position of a standard game, in FEN.
pub open spec fn spec_starting_fen() -> Seq<char> {
    "rnbqkbnr/pppppppp/8/8/8/8/PPPPPPPP/RNBQKBNR w KQkq - 0 1"@
}

/// The FEN every job is analysed from.
pub fn starting_position() -> (r: String)
    ensures
        r@ == spec_starting_fen(),
{
    "rnbqkbnr/pppppppp/8/8/8/8/PPPPPPPP/RNBQKBNR w KQkq - 0 1".to_owned()
}

/// The acquire response for a stored job and its game.
pub open spec fn payload_matches(p: Job, j: crate::model::Job, g: crate::model::Game) -> bool {
    &&& p.work.work_type == WorkType::Analysis
    &&& p.work.id == j.id
    &&& p.work.nodes == spec_nodes_for(j.analysis_type)
    &&& p.work.depth is None
    &&& p.work.multipv == spec_multipv_for(j.analysis_type)
    &&& p.game_id.0@ == j.game_id.0@
    &&& p.position@ == spec_starting_fen()
    &&& p.variant == Variant::Standard
    &&& p.moves.deep_view() == g.pgn.deep_view()
    &&& p.skip_positions@ == spec_skip_positions_for(j.analysis_type)
}

} // verus!

verus! {

/// Serves an acquire request: atomically assigns the best available job to
/// the worker and publishes `JobAcquired`. Where the assigned job points at
/// a game missing from the store — corrupt state — the job is deleted and
/// the request answered as a miss, so the next acquire proceeds.
pub fn acquire_job(
    store: &mut Store,
    bus: &mut Bus,
    api_user: &ApiUser,
    now: u64,
    lease: u64,
) -> (r: Option<Job>)
    requires
        old(store).wf(),
        old(bus).wf(),
        !old(bus).is_closed(),
        old(bus).history().len() + 1 < u64::MAX,
    ensures
        final(store).wf(),
        store_evolves(*old(store), *final(store)),
        final(bus).wf(),
        !final(bus).is_closed(),
        final(bus).cap() == old(bus).cap(),
        final(store).reports == old(store).reports,
        final(store).games == old(store).games,
        final(store).analyses == old(store).analyses,
        final(store).api_users == old(store).api_users,
        final(store).next_job_id == old(store).next_job_id,
        final(store).next_report_id == old(store).next_report_id,
        match r {
            Some(p) => exists|i: int|
                #![auto]
                {
                    &&& chosen_for_assign(old(store).jobs@, i, api_user.perms@, now, lease)
                    &&& final(store).jobs@ == old(store).jobs@.update(
                        i,
                        with_owner(old(store).jobs@[i], api_user.key, now),
                    )
                    &&& has_game(old(store).games@, old(store).jobs@[i].game_id.0@)
                    &&& payload_matches(
                        p,
                        final(store).jobs@[i],
                        old(store).games@[game_idx(
                            old(store).games@,
                            old(store).jobs@[i].game_id.0@,
                        )],
                    )
                    &&& final(bus).history() == old(bus).history().push(
                        FishnetMsg::JobAcquired(
                            final(store).jobs@[i].id,
                            final(store).jobs@[i].game_id,
                        ),
                    )
                },
            None => {
                // no candidate at all, or the candidate's game is missing
                // and the job was removed
                ||| (*final(store) == *old(store) && *final(bus) == *old(bus) && (forall|k: int|
                    0 <= k < old(store).jobs@.len() ==> !assignable(
                        #[trigger] old(store).jobs@[k],
                        api_user.perms@,
                        now,
                        lease,
                    )))
                ||| (exists|i: int|
                    #![auto]
                    {
                        &&& chosen_for_assign(old(store).jobs@, i, api_user.perms@, now, lease)
                        &&& !has_game(old(store).games@, old(store).jobs@[i].game_id.0@)
                        &&& final(store).jobs@ == old(store).jobs@.remove(i)
                        &&& final(bus).history() == old(bus).history().push(
                            FishnetMsg::JobAcquired(
                                old(store).jobs@[i].id,
                                old(store).jobs@[i].game_id,
                            ),
                        )
                    })
            },
        },
{
    let ghost pre = *old(store);
    let assigned = crate::queue::assign_job(store, api_user, now, lease);
    let job = match assigned {
        None => {
            return None;
        },
        Some(job) => job,
    };
    let ghost mid = *store;
    let ghost i = choose|i: int|
        #![auto]
        {
            &&& chosen_for_assign(pre.jobs@, i, api_user.perms@, now, lease)
            &&& mid.jobs@ == pre.jobs@.update(i, with_owner(pre.jobs@[i], api_user.key, now))
            &&& Some(job) == Some(mid.jobs@[i])
        };
    bus.publish(FishnetMsg::JobAcquired(job.id, job.game_id.clone()));
    let found = store.find_game(&job.game_id);
    match found {
        None => {
            proof {
                assert(job == mid.jobs@[i]);
                assert(has_job(mid.jobs@, job.id.0)) by {
                    assert(mid.jobs@[i].id.0 == job.id.0);
                }
                crate::store::lemma_job_idx_unique(mid.jobs@, job.id.0);
                assert(job_idx(mid.jobs@, job.id.0) == i);
            }
            let deleted = crate::queue::delete_job(store, job.id);
            proof {
                assert(deleted);
                crate::store::lemma_store_evolves_trans(pre, mid, *store);
                assert(store.jobs@ =~= pre.jobs@.remove(i));
                assert(!has_game(pre.games@, pre.jobs@[i].game_id.0@));
            }
            None
        },
        Some(game) => {
            let payload = Job {
                work: WorkInfo {
                    work_type: WorkType::Analysis,
                    id: job.id,
                    nodes: nodes_for_job(&job),
                    depth: depth_for_job(&job),
                    multipv: multipv_for_job(&job),
                },
                game_id: job.game_id.clone(),
                position: starting_position(),
                variant: Variant::Standard,
                moves: clone_strings(&game.pgn),
                skip_positions: skip_positions_for_job(&job),
            };
            proof {
                assert(payload_matches(payload, mid.jobs@[i], pre.games@[game_idx(
                    pre.games@,
                    mid.jobs@[i].game_id.0@,
                )]));
            }
            Some(payload)
        },
    }
}

/// Serves an abort request: gives the job back to the free pool where the
/// caller still owns it, publishing `JobAborted` exactly then. Idempotent.
pub fn abort_job(
    store: &mut Store,
    bus: &mut Bus,
    api_user: &ApiUser,
    job_id: JobId,
    now: u64,
) -> (r: bool)
    requires
        old(store).wf(),
        old(bus).wf(),
        !old(bus).is_closed(),
        old(bus).history().len() + 1 < u64::MAX,
    ensures
        final(store).wf(),
        store_evolves(*old(store), *final(store)),
        final(bus).wf(),
        !final(bus).is_closed(),
        final(bus).cap() == old(bus).cap(),
        final(store).reports == old(store).reports,
        final(store).games == old(store).games,
        final(store).analyses == old(store).analyses,
        final(store).api_users == old(store).api_users,
        final(store).next_job_id == old(store).next_job_id,
        final(store).next_report_id == old(store).next_report_id,
        r == (has_job(old(store).jobs@, job_id.0) && crate::queue::unassign_match(
            old(store).jobs@[job_idx(old(store).jobs@, job_id.0)],
            api_user.key.0@,
        )),
        r ==> final(store).jobs@ == old(store).jobs@.update(
            job_idx(old(store).jobs@, job_id.0),
            crate::queue::with_owner_cleared(
                old(store).jobs@[job_idx(old(store).jobs@, job_id.0)],
                now,
            ),
        ),
        r ==> final(bus).history() == old(bus).history().push(
            FishnetMsg::JobAborted(
                job_id,
                old(store).jobs@[job_idx(old(store).jobs@, job_id.0)].game_id,
            ),
        ),
        !r ==> *final(store) == *old(store) && *final(bus) == *old(bus),
{
    let ghost pre = *old(store);
    let game_id: GameId = match crate::queue::get_job(store, job_id) {
        None => {
            proof {
                crate::store::lemma_store_evolves_refl(pre);
            }
            return false;
        },
        Some(job) => job.game_id.clone(),
    };
    let fired = crate::queue::unassign_job(store, api_user, job_id, now);
    if fired {
        bus.publish(FishnetMsg::JobAborted(job_id, game_id));
    }
    fired
}

/// Serves an analysis submission: where the calling worker owns the
/// incomplete job, the game exists and the submission carries exactly one
/// entry per move, the analysis is stored, the job marked complete and
/// `JobCompleted` published. A duplicate or foreign submission changes
/// nothing and reports no content; a missing game or a wrong ply count is
/// the client's error.
pub fn save_job_analysis(
    store: &mut Store,
    bus: &mut Bus,
    api_user: &ApiUser,
    job_id: JobId,
    analysis: Vec<Option<PlyAnalysis>>,
    now: u64,
) -> (r: Result<bool, Error>)
    requires
        old(store).wf(),
        old(bus).wf(),
        !old(bus).is_closed(),
        old(bus).history().len() + 1 < u64::MAX,
    ensures
        final(store).wf(),
        store_evolves(*old(store), *final(store)),
        final(bus).wf(),
        !final(bus).is_closed(),
        final(bus).cap() == old(bus).cap(),
        final(store).reports == old(store).reports,
        final(store).games == old(store).games,
        final(store).api_users == old(store).api_users,
        final(store).next_job_id == old(store).next_job_id,
        final(store).next_report_id == old(store).next_report_id,
        match r {
            Ok(true) => {
                let i = job_idx(old(store).jobs@, job_id.0);
                &&& has_job(old(store).jobs@, job_id.0)
                &&& complete_match(old(store).jobs@[i], api_user.key.0@)
                &&& has_game(old(store).games@, old(store).jobs@[i].game_id.0@)
                &&& analysis@.len() == old(store).games@[game_idx(
                    old(store).games@,
                    old(store).jobs@[i].game_id.0@,
                )].pgn@.len()
                &&& final(store).jobs@ == old(store).jobs@.update(
                    i,
                    with_complete(old(store).jobs@[i], now),
                )
                &&& final(store).analyses@.len() == old(store).analyses@.len() + 1
                &&& {
                    let a = final(store).analyses@.last();
                    &&& a.job_id == job_id
                    &&& a.game_id.0@ == old(store).jobs@[i].game_id.0@
                    &&& a.analysis == analysis
                    &&& a.requested_pvs == match spec_multipv_for(
                        old(store).jobs@[i].analysis_type,
                    ) {
                        Some(p) => p,
                        None => 1u8,
                    }
                    &&& a.requested_depth is None
                    &&& a.requested_nodes == Some(
                        spec_nodes_for(old(store).jobs@[i].analysis_type).nnue,
                    )
                }
                &&& final(bus).history() == old(bus).history().push(
                    FishnetMsg::JobCompleted(
                        job_id,
                        old(store).jobs@[i].game_id,
                    ),
                )
            },
            Ok(false) => {
                &&& *final(store) == *old(store)
                &&& *final(bus) == *old(bus)
                &&& (!has_job(old(store).jobs@, job_id.0) || (has_game(
                    old(store).games@,
                    old(store).jobs@[job_idx(old(store).jobs@, job_id.0)].game_id.0@,
                ) && analysis@.len() == old(store).games@[game_idx(
                    old(store).games@,
                    old(store).jobs@[job_idx(old(store).jobs@, job_id.0)].game_id.0@,
                )].pgn@.len() && !complete_match(
                    old(store).jobs@[job_idx(old(store).jobs@, job_id.0)],
                    api_user.key.0@,
                )))
            },
            Err(e) => {
                &&& *final(store) == *old(store)
                &&& *final(bus) == *old(bus)
                &&& has_job(old(store).jobs@, job_id.0)
                &&& match e {
                    Error::NotFound => !has_game(
                        old(store).games@,
                        old(store).jobs@[job_idx(old(store).jobs@, job_id.0)].game_id.0@,
                    ),
                    Error::InvalidMoves => has_game(
                        old(store).games@,
                        old(store).jobs@[job_idx(old(store).jobs@, job_id.0)].game_id.0@,
                    ) && analysis@.len() != old(store).games@[game_idx(
                        old(store).games@,
                        old(store).jobs@[job_idx(old(store).jobs@, job_id.0)].game_id.0@,
                    )].pgn@.len(),
                    _ => false,
                }
            },
        },
{
    let ghost pre = *old(store);
    let (game_id, moves_len): (GameId, usize) = match crate::queue::get_job(store, job_id) {
        None => {
            proof {
                crate::store::lemma_store_evolves_refl(pre);
            }
            return Ok(false);
        },
        Some(job) => {
            let gid = job.game_id.clone();
            match store.find_game(&gid) {
                None => {
                    proof {
                        crate::store::lemma_store_evolves_refl(pre);
                    }
                    return Err(Error::NotFound);
                },
                Some(game) => (gid, game.pgn.len()),
            }
        },
    };
    if analysis.len() != moves_len {
        proof {
            crate::store::lemma_store_evolves_refl(pre);
        }
        return Err(Error::InvalidMoves);
    }
    let (multipv, nodes) = requested_parameters(store, job_id);
    let record = CreateGameAnalysis {
        job_id,
        game_id: game_id.clone(),
        analysis,
        requested_pvs: multipv,
        requested_depth: None,
        requested_nodes: Some(nodes),
    };
    let fired = crate::queue::complete_job(store, api_user, job_id, record, now);
    if fired {
        bus.publish(FishnetMsg::JobCompleted(job_id, game_id));
    }
    Ok(fired)
}

/// The engine parameters the job was handed out with: the candidate-line
/// count (one where unspecified) and the primary node budget.
fn requested_parameters(store: &Store, job_id: JobId) -> (r: (u8, u64))
    requires
        store.wf(),
        has_job(store.jobs@, job_id.0),
    ensures
        r.0 == match spec_multipv_for(store.jobs@[job_idx(store.jobs@, job_id.0)].analysis_type) {
            Some(p) => p,
            None => 1u8,
        },
        r.1 == spec_nodes_for(store.jobs@[job_idx(store.jobs@, job_id.0)].analysis_type).nnue,
{
    match crate::queue::get_job(store, job_id) {
        Some(job) => {
            let pvs = match multipv_for_job(job) {
                Some(p) => p,
                None => 1,
            };
            (pvs, nodes_for_job(job).nnue)
        },
        None => (1, 0),
    }
}

/// Serves `/key/{k}`: an empty body where the key is registered, not found
/// otherwise.
pub fn check_key_validity(store: &Store, key: &Key) -> (r: Result<String, Error>)
    requires
        store.wf(),
    ensures
        match r {
            Ok(s) => has_api_key(store.api_users@, key.0@) && s@.len() == 0,
            Err(e) => e == Error::NotFound && !has_api_key(store.api_users@, key.0@),
        },
{
    match crate::queue::get_api_user(store, key) {
        Some(_) => Ok(String::new()),
        None => Err(Error::NotFound),
    }
}

/// The per-type queue standings the status endpoint reports.
#[derive(Clone, Copy, Debug, PartialEq, Eq, Structural)]
pub struct FishnetAnalysisStatus {
    pub user: QStatus,
    pub system: QStatus,
    pub deep: QStatus,
}

/// The status endpoint's response: standings per analysis kind, plus the
/// caller's key status where a key was presented.
#[derive(Debug)]
pub struct FishnetStatus {
    pub analysis: FishnetAnalysisStatus,
    pub key: Option<KeyStatus>,
}

/// Serves `/status`: current queue standings for each analysis kind, and
/// whether the caller's key is active.
pub fn fishnet_status(store: &Store, api_user: Option<&ApiUser>, now: u64) -> (r: FishnetStatus)
    requires
        store.wf(),
    ensures
        r.analysis.user == crate::queue::spec_q_status(store.jobs@, AnalysisType::UserAnalysis, now),
        r.analysis.system == crate::queue::spec_q_status(
            store.jobs@,
            AnalysisType::SystemAnalysis,
            now,
        ),
        r.analysis.deep == crate::queue::spec_q_status(store.jobs@, AnalysisType::Deep, now),
        r.key is Some <==> api_user is Some,
        r.key matches Some(s) ==> s == KeyStatus::Active,
{
    let user = crate::queue::q_status(store, AnalysisType::UserAnalysis, now);
    let system = crate::queue::q_status(store, AnalysisType::SystemAnalysis, now);
    let deep = crate::queue::q_status(store, AnalysisType::Deep, now);
    let key = crate::queue::key_status(api_user);
    FishnetStatus { analysis: FishnetAnalysisStatus { user, system, deep }, key }
}

} // verus!
