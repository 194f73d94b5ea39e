use deepq::error::Error;
use deepq::ingest::{add_to_queue, Request, RequestGame, User};
use deepq::model::{AnalysisType, ApiUser, GameId, Key, ReportOrigin, UserId};
use deepq::queue::create_api_user;
use deepq::store::Store;

fn request(origin: ReportOrigin, games: Vec<RequestGame>) -> Request {
    Request {
        t: "report".to_string(),
        origin,
        user: User { id: UserId("Suspect".to_string()), titled: false, engine: false, games: games.len() as i32 },
        games,
    }
}

fn game(id: &str, sans: &[&str], emts: Option<Vec<u32>>) -> RequestGame {
    RequestGame {
        id: GameId(id.to_string()),
        white: UserId("White".to_string()),
        black: UserId("Black".to_string()),
        emts,
        pgn: sans.iter().map(|s| s.to_string()).collect(),
        analysis: None,
    }
}

#[test]
fn ingest_materializes_games_report_and_jobs() {
    let mut store = Store::new();
    let rid = add_to_queue(
        &mut store,
        &request(ReportOrigin::Tournament, vec![game("G1", &["e4"], None), game("G2", &["d4"], None)]),
        50,
    )
    .unwrap();
    assert_eq!(store.games.len(), 2);
    assert_eq!(store.reports.len(), 1);
    assert_eq!(store.jobs.len(), 2);
    let report = &store.reports[0];
    assert_eq!(report.id, rid);
    assert_eq!(report.user_id.0, "suspect");
    assert_eq!(report.date_requested, 50);
    assert!(report.date_completed.is_none());
    assert!(!report.sent_to_irwin);
    assert_eq!(report.games.len(), 2);
    assert_eq!(report.games[0].0, "g1");
    for job in &store.jobs {
        assert_eq!(job.report_id, Some(rid));
        assert!(matches!(job.analysis_type, AnalysisType::Deep));
        assert_eq!(job.precedence, 100);
        assert!(job.owner.is_none());
        assert!(!job.is_complete);
        assert_eq!(job.date_last_updated, 50);
    }
}

#[test]
fn ingest_is_all_or_nothing() {
    let mut store = Store::new();
    let result = add_to_queue(
        &mut store,
        &request(
            ReportOrigin::Moderator,
            vec![game("G1", &["e4"], None), game("G2", &["e9"], None)],
        ),
        50,
    );
    assert!(matches!(result, Err(Error::InvalidMoves)));
    // the illegal second game kept the whole request out
    assert_eq!(store.games.len(), 0);
    assert_eq!(store.reports.len(), 0);
    assert_eq!(store.jobs.len(), 0);
}

#[test]
fn ingest_upserts_games_idempotently() {
    let mut store = Store::new();
    let body = request(ReportOrigin::Random, vec![game("G1", &["e4"], None)]);
    add_to_queue(&mut store, &body, 50).unwrap();
    add_to_queue(&mut store, &body, 60).unwrap();
    // games upsert; reports and jobs accumulate per submission
    assert_eq!(store.games.len(), 1);
    assert_eq!(store.reports.len(), 2);
    assert_eq!(store.jobs.len(), 2);
    assert_ne!(store.reports[0].id, store.reports[1].id);
}

#[test]
fn ingest_keeps_matching_move_times_only() {
    let mut store = Store::new();
    add_to_queue(
        &mut store,
        &request(
            ReportOrigin::Random,
            vec![
                game("G1", &["e4", "e5"], Some(vec![10, 20])),
                game("G2", &["d4", "d5"], Some(vec![10])),
                game("G3", &["c4"], None),
            ],
        ),
        50,
    )
    .unwrap();
    let by_id = |id: &str| store.games.iter().find(|g| g.id.0 == id).unwrap();
    assert_eq!(by_id("g1").emts, vec![10, 20]);
    assert_eq!(by_id("g2").emts, Vec::<u32>::new(), "mismatched move times are dropped");
    assert_eq!(by_id("g3").emts, Vec::<u32>::new());
    assert_eq!(by_id("g1").pgn, vec!["e2e4", "e7e5"]);
}

#[test]
fn ingest_canonicalizes_players_and_ids() {
    let mut store = Store::new();
    add_to_queue(
        &mut store,
        &request(ReportOrigin::Random, vec![game("AbCd1234", &["e4"], None)]),
        50,
    )
    .unwrap();
    let g = &store.games[0];
    assert_eq!(g.id.0, "abcd1234");
    assert_eq!(g.white.as_ref().unwrap().0, "white");
    assert_eq!(g.black.as_ref().unwrap().0, "black");
    assert_eq!(store.jobs[0].game_id.0, "abcd1234");
}

#[test]
fn duplicate_worker_keys_are_refused() {
    let mut store = Store::new();
    let user = |name: &str| ApiUser {
        key: Key("same-key".to_string()),
        name: name.to_string(),
        user: None,
        perms: vec![AnalysisType::Deep],
    };
    assert!(create_api_user(&mut store, user("first")).is_ok());
    assert!(matches!(
        create_api_user(&mut store, user("second")),
        Err(Error::Conflict)
    ));
    assert_eq!(store.api_users.len(), 1);
}
