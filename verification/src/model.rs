//! Entity definitions, id newtypes, enum mappings and derived precedences.
//!
//! Instants are UTC milliseconds held in a `u64`. Database object ids are
//! modelled as integers handed out by the store's own counters.

use vstd::prelude::*;

verus! {

/// A player account, canonically lowercase.
#[derive(Debug)]
pub struct UserId(pub String);

/// A game, canonically lowercase.
#[derive(Debug)]
pub struct GameId(pub String);

/// A worker's API key.
#[derive(Debug)]
pub struct Key(pub String);

/// A job's store id.
#[derive(Clone, Copy, Debug, PartialEq, Eq, Structural)]
pub struct JobId(pub u64);

/// A report's store id.
#[derive(Clone, Copy, Debug, PartialEq, Eq, Structural)]
pub struct ReportId(pub u64);

impl Clone for UserId {
    fn clone(&self) -> (res: Self)
        ensures
            res == *self,
    {
        UserId(self.0.clone())
    }
}

impl Clone for GameId {
    fn clone(&self) -> (res: Self)
        ensures
            res == *self,
    {
        GameId(self.0.clone())
    }
}

impl Clone for Key {
    fn clone(&self) -> (res: Self)
        ensures
            res == *self,
    {
        Key(self.0.clone())
    }
}

/// The lowercase form of a character sequence, as the platform's Unicode
/// tables define it. Canonical ids are lowercase.
pub uninterp spec fn lower_of(s: Seq<char>) -> Seq<char>;

/// Relies on `str::to_lowercase` of std: the result depends on the
/// characters alone.
#[verifier::external_body]
fn lowercase(s: &str) -> (r: String)
    ensures
        r@ == lower_of(s@),
        s@.len() == 0 ==> r@.len() == 0,
{
    s.to_lowercase()
}

impl UserId {
    /// The canonical, lowercase form of this id, used on every persistence.
    pub fn normalized(&self) -> (r: UserId)
        ensures
            r.0@ == lower_of(self.0@),
    {
        UserId(lowercase(&self.0))
    }
}

impl GameId {
    /// The canonical, lowercase form of this id, used on every persistence.
    pub fn normalized(&self) -> (r: GameId)
        ensures
            r.0@ == lower_of(self.0@),
    {
        GameId(lowercase(&self.0))
    }
}

impl View for GameId {
    type V = Seq<char>;

    open spec fn view(&self) -> Seq<char> {
        self.0@
    }
}

impl DeepView for GameId {
    type V = Seq<char>;

    open spec fn deep_view(&self) -> Seq<char> {
        self.0@
    }
}

impl GameId {
    /// True exactly when the two ids hold the same characters.
    pub fn matches(&self, other: &GameId) -> (r: bool)
        ensures
            r == (self.0@ == other.0@),
    {
        self.0 == other.0
    }
}

impl Key {
    /// True exactly when the two keys hold the same characters.
    pub fn matches(&self, other: &Key) -> (r: bool)
        ensures
            r == (self.0@ == other.0@),
    {
        self.0 == other.0
    }
}

/// Where a report came from; decides its jobs' precedence.
#[derive(Clone, Copy, Debug, PartialEq, Eq, Structural)]
pub enum ReportOrigin {
    Moderator,
    Random,
    Leaderboard,
    Tournament,
}

/// The downstream consumer a report is meant for.
#[derive(Clone, Copy, Debug, PartialEq, Eq, Structural)]
pub enum ReportType {
    Irwin,
    CR,
    PGNSPY,
}

/// The kind of engine analysis a job asks for, and the capability a worker
/// must hold to serve it.
#[derive(Clone, Copy, Debug, PartialEq, Eq, Structural)]
pub enum AnalysisType {
    UserAnalysis,
    SystemAnalysis,
    Deep,
}

/// The precedence each report origin confers on its jobs; higher wins.
pub open spec fn spec_precedence_for_origin(origin: ReportOrigin) -> i32 {
    match origin {
        ReportOrigin::Moderator => 1_000_000i32,
        ReportOrigin::Tournament => 100i32,
        ReportOrigin::Leaderboard => 100i32,
        ReportOrigin::Random => 10i32,
    }
}

/// Maps a report origin to the precedence of the jobs it creates.
pub fn precedence_for_origin(origin: ReportOrigin) -> (p: i32)
    ensures
        p == spec_precedence_for_origin(origin),
{
    match origin {
        ReportOrigin::Moderator => 1_000_000i32,
        ReportOrigin::Tournament => 100i32,
        ReportOrigin::Leaderboard => 100i32,
        ReportOrigin::Random => 10i32,
    }
}

/// A single engine evaluation: centipawns or mate distance, both signed.
#[derive(Clone, Copy, Debug, PartialEq, Eq, Structural)]
pub struct Eval {
    pub cp: Option<i32>,
    pub mate: Option<i32>,
}

/// An evaluation as the worker protocol carries it.
#[derive(Clone, Copy, Debug, PartialEq, Eq, Structural)]
pub struct PlyScore {
    pub cp: Option<i32>,
    pub mate: Option<i32>,
}

/// A ply the worker was told to skip.
#[derive(Clone, Copy, Debug, PartialEq, Eq, Structural)]
pub struct SkippedAnalysis {
    pub skipped: bool,
}

/// A ply analysed without a principal variation.
#[derive(Clone, Copy, Debug, PartialEq, Eq, Structural)]
pub struct EmptyAnalysis {
    pub depth: i32,
    pub score: PlyScore,
}

/// A fully analysed ply.
#[derive(Clone, Debug)]
pub struct FullAnalysis {
    pub pv: String,
    pub depth: i32,
    pub score: PlyScore,
    pub time: i32,
    pub nodes: i32,
    pub nps: i32,
}

/// One ply of a worker's submitted analysis.
#[derive(Clone, Debug)]
pub enum PlyAnalysis {
    Full(FullAnalysis),
    Skipped(SkippedAnalysis),
    Empty(EmptyAnalysis),
}

// ---------------------------------------------------------------------------
// Entities
// ---------------------------------------------------------------------------

/// A chess game to be analysed. `pgn` holds its moves in UCI notation.
#[derive(Debug)]
pub struct Game {
    pub id: GameId,
    pub emts: Vec<u32>,
    pub pgn: Vec<String>,
    pub black: Option<UserId>,
    pub white: Option<UserId>,
}

impl Game {
    /// Elapsed move times are either absent or given for every ply.
    pub open spec fn wf(self) -> bool {
        self.emts@.len() == 0 || self.emts@.len() == self.pgn@.len()
    }
}

/// One unit of analysis work, the hot entity of the queue.
#[derive(Debug)]
pub struct Job {
    pub id: JobId,
    pub game_id: GameId,
    pub report_id: Option<ReportId>,
    pub analysis_type: AnalysisType,
    pub precedence: i32,
    pub owner: Option<Key>,
    pub date_last_updated: u64,
    pub is_complete: bool,
}

impl Clone for Job {
    fn clone(&self) -> (res: Self)
        ensures
            res == *self,
    {
        Job {
            id: self.id,
            game_id: self.game_id.clone(),
            report_id: self.report_id,
            analysis_type: self.analysis_type,
            precedence: self.precedence,
            owner: match &self.owner {
                Some(k) => Some(k.clone()),
                None => None,
            },
            date_last_updated: self.date_last_updated,
            is_complete: self.is_complete,
        }
    }
}

/// A request to analyse one user's games, aggregated back together once every
/// job completes.
#[derive(Debug)]
pub struct Report {
    pub id: ReportId,
    pub user_id: UserId,
    pub date_requested: u64,
    pub date_completed: Option<u64>,
    pub origin: ReportOrigin,
    pub report_type: ReportType,
    pub games: Vec<GameId>,
    pub sent_to_irwin: bool,
}

/// The stored output of one completed job.
#[derive(Debug)]
pub struct GameAnalysis {
    pub job_id: JobId,
    pub game_id: GameId,
    pub analysis: Vec<Option<PlyAnalysis>>,
    pub requested_pvs: u8,
    pub requested_depth: Option<u8>,
    pub requested_nodes: Option<u64>,
}

/// An authenticated analysis worker and what it may serve.
#[derive(Debug)]
pub struct ApiUser {
    pub key: Key,
    pub name: String,
    pub user: Option<UserId>,
    pub perms: Vec<AnalysisType>,
}

pub ghost struct ApiUserView {
    pub key: Seq<char>,
    pub name: Seq<char>,
    pub user: Option<Seq<char>>,
    pub perms: Seq<AnalysisType>,
}

impl ApiUser {
    pub open spec fn view(self) -> ApiUserView {
        ApiUserView {
            key: self.key.0@,
            name: self.name@,
            user: match self.user {
                Some(u) => Some(u.0@),
                None => None,
            },
            perms: self.perms@,
        }
    }

    /// A worker must hold at least one capability.
    pub open spec fn wf(self) -> bool {
        self.perms@.len() > 0
    }

    /// True exactly when this worker may serve jobs of the given type.
    pub fn may_serve(&self, t: AnalysisType) -> (r: bool)
        ensures
            r == self.perms@.contains(t),
    {
        let mut i: usize = 0;
        while i < self.perms.len()
            invariant
                0 <= i <= self.perms@.len(),
                forall|k: int| 0 <= k < i ==> self.perms@[k] != t,
            decreases self.perms@.len() - i,
        {
            if self.perms[i] == t {
                return true;
            }
            i = i + 1;
        }
        false
    }
}

impl Clone for ApiUser {
    fn clone(&self) -> (res: Self)
        ensures
            res@ == self@,
            res.wf() == self.wf(),
    {
        ApiUser {
            key: self.key.clone(),
            name: self.name.clone(),
            user: match &self.user {
                Some(u) => Some(u.clone()),
                None => None,
            },
            perms: clone_perms(&self.perms),
        }
    }
}

/// Copies a capability list element by element.
fn clone_perms(v: &Vec<AnalysisType>) -> (res: Vec<AnalysisType>)
    ensures
        res@ == v@,
{
    let mut res: Vec<AnalysisType> = Vec::new();
    let mut i: usize = 0;
    while i < v.len()
        invariant
            0 <= i <= v@.len(),
            res@ == v@.take(i as int),
        decreases v@.len() - i,
    {
        res.push(v[i]);
        i = i + 1;
    }
    assert(v@.take(v@.len() as int) == v@);
    res
}

// ---------------------------------------------------------------------------
// Creation payloads
// ---------------------------------------------------------------------------

/// What the ingestor knows about a game before it is stored.
#[derive(Debug)]
pub struct CreateGame {
    pub game_id: GameId,
    pub emts: Vec<u32>,
    pub pgn: Vec<String>,
    pub black: Option<UserId>,
    pub white: Option<UserId>,
}

impl CreateGame {
    /// The game this payload stores.
    pub open spec fn spec_game(self) -> Game {
        Game {
            id: self.game_id,
            emts: self.emts,
            pgn: self.pgn,
            black: self.black,
            white: self.white,
        }
    }

    /// Builds the stored game.
    pub fn into_game(self) -> (g: Game)
        ensures
            g == self.spec_game(),
    {
        Game {
            id: self.game_id,
            emts: self.emts,
            pgn: self.pgn,
            black: self.black,
            white: self.white,
        }
    }
}

/// What the ingestor knows about a report before it is stored.
#[derive(Debug)]
pub struct CreateReport {
    pub user_id: UserId,
    pub origin: ReportOrigin,
    pub report_type: ReportType,
    pub games: Vec<GameId>,
}

impl CreateReport {
    /// The report this payload stores: freshly requested, not yet dispatched.
    pub open spec fn spec_report(self, id: ReportId, now: u64) -> Report {
        Report {
            id,
            user_id: self.user_id,
            date_requested: now,
            date_completed: None,
            origin: self.origin,
            report_type: self.report_type,
            games: self.games,
            sent_to_irwin: false,
        }
    }

    /// Builds the stored report.
    pub fn into_report(self, id: ReportId, now: u64) -> (r: Report)
        ensures
            r == self.spec_report(id, now),
    {
        Report {
            id,
            user_id: self.user_id,
            date_requested: now,
            date_completed: None,
            origin: self.origin,
            report_type: self.report_type,
            games: self.games,
            sent_to_irwin: false,
        }
    }
}

/// What the queue needs to open a job.
#[derive(Debug)]
pub struct CreateJob {
    pub game_id: GameId,
    pub report_id: Option<ReportId>,
    pub analysis_type: AnalysisType,
    pub precedence: i32,
}

impl CreateJob {
    /// The job this payload opens: unowned and incomplete.
    pub open spec fn spec_job(self, id: JobId, now: u64) -> Job {
        Job {
            id,
            game_id: self.game_id,
            report_id: self.report_id,
            analysis_type: self.analysis_type,
            precedence: self.precedence,
            owner: None,
            date_last_updated: now,
            is_complete: false,
        }
    }

    /// Builds the stored job.
    pub fn into_job(self, id: JobId, now: u64) -> (j: Job)
        ensures
            j == self.spec_job(id, now),
    {
        Job {
            id,
            game_id: self.game_id,
            report_id: self.report_id,
            analysis_type: self.analysis_type,
            precedence: self.precedence,
            owner: None,
            date_last_updated: now,
            is_complete: false,
        }
    }
}

/// A job request carrying only its report origin; the precedence is derived.
#[derive(Debug)]
pub struct CreateFishnetJob {
    pub game_id: GameId,
    pub analysis_type: AnalysisType,
    pub report_origin: Option<ReportOrigin>,
}

impl CreateFishnetJob {
    /// Derives the precedence: the origin's, or 100 for ad-hoc jobs.
    pub fn into_create_job(self) -> (c: CreateJob)
        ensures
            c.game_id == self.game_id,
            c.report_id is None,
            c.analysis_type == self.analysis_type,
            c.precedence == match self.report_origin {
                Some(o) => spec_precedence_for_origin(o),
                None => 100i32,
            },
    {
        let precedence: i32 = match self.report_origin {
            Some(o) => precedence_for_origin(o),
            None => 100i32,
        };
        CreateJob { game_id: self.game_id, report_id: None, analysis_type: self.analysis_type, precedence }
    }
}

/// What a worker's submission turns into before it is stored.
#[derive(Debug)]
pub struct CreateGameAnalysis {
    pub job_id: JobId,
    pub game_id: GameId,
    pub analysis: Vec<Option<PlyAnalysis>>,
    pub requested_pvs: u8,
    pub requested_depth: Option<u8>,
    pub requested_nodes: Option<u64>,
}

impl CreateGameAnalysis {
    /// The record this payload stores.
    pub open spec fn spec_game_analysis(self) -> GameAnalysis {
        GameAnalysis {
            job_id: self.job_id,
            game_id: self.game_id,
            analysis: self.analysis,
            requested_pvs: self.requested_pvs,
            requested_depth: self.requested_depth,
            requested_nodes: self.requested_nodes,
        }
    }

    /// Builds the stored analysis record.
    pub fn into_game_analysis(self) -> (a: GameAnalysis)
        ensures
            a == self.spec_game_analysis(),
    {
        GameAnalysis {
            job_id: self.job_id,
            game_id: self.game_id,
            analysis: self.analysis,
            requested_pvs: self.requested_pvs,
            requested_depth: self.requested_depth,
            requested_nodes: self.requested_nodes,
        }
    }
}

} // verus!

verus! {

/// Copies a string list element by element, preserving every character.
pub fn clone_strings(v: &Vec<String>) -> (res: Vec<String>)
    ensures
        res.deep_view() == v.deep_view(),
{
    let mut res: Vec<String> = Vec::new();
    let mut i: usize = 0;
    while i < v.len()
        invariant
            0 <= i <= v@.len(),
            res.deep_view() =~= v.deep_view().take(i as int),
        decreases v@.len() - i,
    {
        let ghost prev = res.deep_view();
        res.push(v[i].clone());
        proof {
            let dv = res.deep_view();
            let tk = v.deep_view().take(i as int + 1);
            assert(prev.len() == res@.len() - 1);
            assert(prev.len() == v.deep_view().take(i as int).len());
            assert(v.deep_view().take(i as int).len() == i);
            assert(dv.len() == i + 1);
            assert forall|t: int| 0 <= t < i + 1 implies dv[t] == tk[t] by {
                if t < i as int {
                    assert(dv[t] == prev[t]);
                } else {
                    assert(res@[t] == v@[i as int]);
                }
            }
            assert(dv =~= tk);
        }
        i = i + 1;
    }
    proof {
        assert(v.deep_view().take(v@.len() as int) =~= v.deep_view());
    }
    res
}

} // verus!
