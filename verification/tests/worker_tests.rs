use deepq::bus::Bus;
use deepq::error::{error_message, Error, HttpError};
use deepq::model::{
    AnalysisType, ApiUser, FullAnalysis, Key, PlyAnalysis, PlyScore, UserId,
};
use deepq::queue::create_api_user;
use deepq::store::Store;
use deepq::worker::{
    acquire_job, authorize, check_key_validity, depth_for_job, fishnet_status, multipv_for_job,
    nodes_for_job, save_job_analysis, skip_positions_for_job, starting_position, FishnetRequest,
    HasApiKey, HeaderKey, RequestInfo, WorkType,
};
use deepq::LEASE_TTL_MILLIS;

fn deep_worker(key: &str) -> ApiUser {
    ApiUser {
        key: Key(key.to_string()),
        name: format!("worker {}", key),
        user: Some(UserId("tester".to_string())),
        perms: vec![AnalysisType::Deep],
    }
}

fn ingest_one_game_request(store: &mut Store, game: &str, user: &str, sans: &[&str], now: u64) {
    let request = deepq::ingest::Request {
        t: "report".to_string(),
        origin: deepq::model::ReportOrigin::Moderator,
        user: deepq::ingest::User {
            id: UserId(user.to_string()),
            titled: false,
            engine: false,
            games: 1,
        },
        games: vec![deepq::ingest::RequestGame {
            id: deepq::model::GameId(game.to_string()),
            white: UserId(user.to_string()),
            black: UserId("opponent".to_string()),
            emts: None,
            pgn: sans.iter().map(|s| s.to_string()).collect(),
            analysis: None,
        }],
    };
    deepq::ingest::add_to_queue(store, &request, now).unwrap();
}

#[test]
fn header_key_parses_bearer_tokens() {
    let hk = HeaderKey::from_str("Bearer abc123").unwrap();
    assert_eq!(hk.0 .0, "abc123");
    assert!(matches!(
        HeaderKey::from_str("Basic xyz"),
        Err(Error::Http(HttpError::MalformedHeader))
    ));
    assert!(matches!(
        HeaderKey::from_str("Bear"),
        Err(Error::Http(HttpError::MalformedHeader))
    ));
}

#[test]
fn authorize_resolves_known_keys_only() {
    let mut store = Store::new();
    create_api_user(&mut store, deep_worker("good-key")).unwrap();
    let request = FishnetRequest {
        fishnet: RequestInfo { version: "1.0".to_string(), api_key: Key("good-key".to_string()) },
    };
    let authorized = authorize(&store, request).unwrap();
    assert_eq!(authorized.api_user().key.0, "good-key");
    assert_eq!(authorized.val().fishnet.api_key.0, "good-key");
    let bad = FishnetRequest {
        fishnet: RequestInfo { version: "1.0".to_string(), api_key: Key("bad-key".to_string()) },
    };
    assert!(matches!(
        authorize(&store, bad),
        Err(Error::Http(HttpError::Forbidden))
    ));
}

#[test]
fn authorized_map_carries_the_worker_over() {
    let mut store = Store::new();
    create_api_user(&mut store, deep_worker("k")).unwrap();
    let request = FishnetRequest {
        fishnet: RequestInfo { version: "1.0".to_string(), api_key: Key("k".to_string()) },
    };
    let authorized = authorize(&store, request).unwrap();
    let mapped = authorized.map(|r: FishnetRequest| r.api_key());
    assert_eq!(mapped.val().0, "k");
    assert_eq!(mapped.api_user().key.0, "k");
}

#[test]
fn engine_policy_per_analysis_type() {
    let mut store = Store::new();
    let now = 5;
    store.insert_job(
        deepq::model::CreateJob {
            game_id: deepq::model::GameId("g1".to_string()),
            report_id: None,
            analysis_type: AnalysisType::Deep,
            precedence: 1,
        },
        now,
    );
    store.insert_job(
        deepq::model::CreateJob {
            game_id: deepq::model::GameId("g2".to_string()),
            report_id: None,
            analysis_type: AnalysisType::UserAnalysis,
            precedence: 1,
        },
        now,
    );
    let deep = &store.jobs[0];
    let user = &store.jobs[1];
    assert_eq!(nodes_for_job(deep).nnue, 2_500_000);
    assert_eq!(nodes_for_job(deep).classical, 4_500_000);
    assert_eq!(nodes_for_job(user).nnue, 2_250_000);
    assert_eq!(nodes_for_job(user).classical, 4_050_000);
    assert_eq!(multipv_for_job(deep), Some(5));
    assert_eq!(multipv_for_job(user), None);
    assert_eq!(depth_for_job(deep), None);
    assert!(skip_positions_for_job(deep).is_empty());
    assert_eq!(skip_positions_for_job(user), vec![0, 1, 2, 3, 4, 5, 6, 7, 8, 9]);
}

#[test]
fn acquire_returns_the_full_payload() {
    // the happy path's front half: ingest one moderator report, acquire it
    let mut store = Store::new();
    let mut bus = Bus::new(16);
    create_api_user(&mut store, deep_worker("k")).unwrap();
    ingest_one_game_request(&mut store, "Game01", "Suspect", &["e4", "e5", "Nf3", "Nc6"], 100);
    assert_eq!(store.jobs.len(), 1);
    assert_eq!(store.jobs[0].precedence, 1_000_000);
    let w = deep_worker("k");
    let payload = acquire_job(&mut store, &mut bus, &w, 200, LEASE_TTL_MILLIS).unwrap();
    assert!(matches!(payload.work.work_type, WorkType::Analysis));
    assert_eq!(payload.game_id.0, "game01");
    assert_eq!(payload.position, starting_position());
    assert_eq!(payload.moves, vec!["e2e4", "e7e5", "g1f3", "b8c6"]);
    assert!(payload.skip_positions.is_empty());
    assert_eq!(payload.work.nodes.nnue, 2_500_000);
    assert_eq!(payload.work.multipv, Some(5));
    // nothing else to hand out
    assert!(acquire_job(&mut store, &mut bus, &w, 201, LEASE_TTL_MILLIS).is_none());
}

#[test]
fn acquire_deletes_jobs_whose_game_is_missing() {
    let mut store = Store::new();
    let mut bus = Bus::new(16);
    // corrupt state: a job pointing at a game that was never stored
    store.insert_job(
        deepq::model::CreateJob {
            game_id: deepq::model::GameId("ghost".to_string()),
            report_id: None,
            analysis_type: AnalysisType::Deep,
            precedence: 1,
        },
        10,
    );
    let w = deep_worker("k");
    assert!(acquire_job(&mut store, &mut bus, &w, 20, LEASE_TTL_MILLIS).is_none());
    assert!(store.jobs.is_empty(), "the offending job is deleted");
    // a subsequent acquire proceeds once proper work arrives
    ingest_one_game_request(&mut store, "Fresh01", "Suspect", &["d4"], 30);
    assert!(acquire_job(&mut store, &mut bus, &w, 40, LEASE_TTL_MILLIS).is_some());
}

#[test]
fn analysis_submission_validates_ply_count() {
    let mut store = Store::new();
    let mut bus = Bus::new(16);
    create_api_user(&mut store, deep_worker("k")).unwrap();
    ingest_one_game_request(&mut store, "Game01", "Suspect", &["e4", "e5"], 100);
    let w = deep_worker("k");
    let payload = acquire_job(&mut store, &mut bus, &w, 200, LEASE_TTL_MILLIS).unwrap();
    let short = vec![Some(full_ply())];
    assert!(matches!(
        save_job_analysis(&mut store, &mut bus, &w, payload.work.id, short, 300),
        Err(Error::InvalidMoves)
    ));
    let exact = vec![Some(full_ply()), Some(full_ply())];
    assert_eq!(
        save_job_analysis(&mut store, &mut bus, &w, payload.work.id, exact, 301).unwrap(),
        true
    );
}

fn full_ply() -> PlyAnalysis {
    PlyAnalysis::Full(FullAnalysis {
        pv: "e2e4".to_string(),
        depth: 20,
        score: PlyScore { cp: Some(31), mate: None },
        time: 1000,
        nodes: 2_500_000,
        nps: 1_000_000,
    })
}

#[test]
fn key_endpoint_distinguishes_known_keys() {
    let mut store = Store::new();
    create_api_user(&mut store, deep_worker("known")).unwrap();
    assert_eq!(check_key_validity(&store, &Key("known".to_string())).unwrap(), "");
    assert!(matches!(
        check_key_validity(&store, &Key("unknown".to_string())),
        Err(Error::NotFound)
    ));
}

#[test]
fn status_reports_all_three_kinds() {
    let mut store = Store::new();
    ingest_one_game_request(&mut store, "Game01", "Suspect", &["e4"], 100);
    let user = ApiUser {
        key: Key("k".to_string()),
        name: "w".to_string(),
        user: Some(UserId("u".to_string())),
        perms: vec![AnalysisType::Deep],
    };
    let status = fishnet_status(&store, Some(&user), 4_100);
    assert_eq!(status.analysis.deep.queued, 1);
    assert_eq!(status.analysis.deep.acquired, 0);
    assert_eq!(status.analysis.deep.oldest, 4);
    assert_eq!(status.analysis.user.queued, 0);
    assert_eq!(status.analysis.system.queued, 0);
    assert!(status.key.is_some());
    assert!(fishnet_status(&store, None, 4_100).key.is_none());
}

#[test]
fn error_messages_carry_their_status_codes() {
    assert_eq!(error_message(Error::Connectivity).code, 503);
    assert_eq!(error_message(Error::NotFound).code, 404);
    assert_eq!(error_message(Error::InvalidMoves).code, 400);
    assert_eq!(error_message(Error::Http(HttpError::MalformedHeader)).code, 401);
    assert_eq!(error_message(Error::Http(HttpError::Unauthenticated)).code, 401);
    assert_eq!(error_message(Error::Http(HttpError::Forbidden)).code, 403);
    assert_eq!(error_message(Error::Internal).code, 500);
    assert_eq!(error_message(Error::NotFound).message, "NOT_FOUND");
}
