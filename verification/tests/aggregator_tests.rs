use deepq::bus::{Bus, FishnetMsg};
use deepq::irwin::{
    aggregator_drain, aggregator_step, atomically_update_sent_to_irwin, handle_job_completed,
    irwin_game_for, report_completed_counts, update_report_completeness, AggregatorOutcome,
    DispatchOutcome,
};
use deepq::model::{
    AnalysisType, ApiUser, FullAnalysis, GameId, Key, PlyAnalysis, PlyScore, ReportOrigin,
    SkippedAnalysis, UserId,
};
use deepq::queue::create_api_user;
use deepq::store::Store;
use deepq::worker::{acquire_job, save_job_analysis};
use deepq::LEASE_TTL_MILLIS;

fn dispatches_of(outcomes: Vec<AggregatorOutcome>) -> Vec<deepq::irwin::IrwinJob> {
    let mut jobs = Vec::new();
    for outcome in outcomes {
        if let AggregatorOutcome::Updated(DispatchOutcome::Dispatch(job)) = outcome {
            jobs.push(job);
        }
    }
    jobs
}

fn deep_worker(key: &str) -> ApiUser {
    ApiUser {
        key: Key(key.to_string()),
        name: format!("worker {}", key),
        user: Some(UserId("tester".to_string())),
        perms: vec![AnalysisType::Deep],
    }
}

fn full_ply(cp: i32) -> PlyAnalysis {
    PlyAnalysis::Full(FullAnalysis {
        pv: "e2e4".to_string(),
        depth: 20,
        score: PlyScore { cp: Some(cp), mate: None },
        time: 1000,
        nodes: 2_500_000,
        nps: 1_000_000,
    })
}

fn ingest(store: &mut Store, games: &[(&str, &[&str])], now: u64) -> deepq::model::ReportId {
    let request = deepq::ingest::Request {
        t: "report".to_string(),
        origin: ReportOrigin::Moderator,
        user: deepq::ingest::User {
            id: UserId("Suspect".to_string()),
            titled: false,
            engine: true,
            games: games.len() as i32,
        },
        games: games
            .iter()
            .map(|(id, sans)| deepq::ingest::RequestGame {
                id: GameId(id.to_string()),
                white: UserId("Suspect".to_string()),
                black: UserId("Opponent".to_string()),
                emts: None,
                pgn: sans.iter().map(|s| s.to_string()).collect(),
                analysis: None,
            })
            .collect(),
    };
    deepq::ingest::add_to_queue(store, &request, now).unwrap()
}

#[test]
fn happy_path_end_to_end() {
    // one report, one game, acquired, analysed, aggregated, dispatched once
    let mut store = Store::new();
    let mut bus = Bus::new(1024);
    let mut sub = bus.subscribe();
    create_api_user(&mut store, deep_worker("k")).unwrap();
    let _rid = ingest(&mut store, &[("Game01", &["e4", "e5", "Nf3", "Nc6"])], 100);
    assert_eq!(store.games.len(), 1);
    assert_eq!(store.reports.len(), 1);
    assert_eq!(store.jobs.len(), 1);
    assert_eq!(store.jobs[0].precedence, 1_000_000);
    assert!(!store.reports[0].sent_to_irwin);

    let w = deep_worker("k");
    let payload = acquire_job(&mut store, &mut bus, &w, 200, LEASE_TTL_MILLIS).unwrap();
    let submitted = vec![
        Some(full_ply(31)),
        Some(full_ply(-24)),
        Some(full_ply(18)),
        Some(full_ply(-9)),
    ];
    assert!(save_job_analysis(&mut store, &mut bus, &w, payload.work.id, submitted, 300).unwrap());
    assert!(store.jobs[0].is_complete);

    // the aggregator drains the bus: one acquired event, one completed event
    let outcomes = aggregator_drain(&mut store, &bus, &mut sub, 400);
    assert_eq!(outcomes.len(), 2, "one outcome per drained event");
    assert!(matches!(outcomes[0], AggregatorOutcome::Ignored));
    let dispatches = dispatches_of(outcomes);
    assert_eq!(dispatches.len(), 1, "downstream fired exactly once");
    let job = &dispatches[0];
    assert_eq!(job.player_id, "suspect");
    assert_eq!(job.games.len(), 1);
    assert_eq!(job.games[0].id, "game01");
    assert_eq!(job.games[0].pgn, vec!["e2e4", "e7e5", "g1f3", "b8c6"]);
    let evals = job.games[0].analysis.as_ref().unwrap();
    assert_eq!(evals.len(), 4);
    assert_eq!(evals[0].cp, Some(31));
    assert_eq!(evals[1].cp, Some(-24));
    assert!(job.analyzed_positions.is_empty());
    // the report is latched with its completion date
    assert!(store.reports[0].sent_to_irwin);
    assert_eq!(store.reports[0].date_completed, Some(400));
    // a second drain finds nothing new
    let again = aggregator_drain(&mut store, &bus, &mut sub, 500);
    assert!(again.is_empty());

}

#[test]
fn completeness_is_derived_not_accumulated() {
    let mut store = Store::new();
    let mut bus = Bus::new(1024);
    create_api_user(&mut store, deep_worker("k")).unwrap();
    let rid = ingest(
        &mut store,
        &[("g1", &["e4"]), ("g2", &["d4"])],
        100,
    );
    let w = deep_worker("k");
    let p1 = acquire_job(&mut store, &mut bus, &w, 200, LEASE_TTL_MILLIS).unwrap();
    save_job_analysis(&mut store, &mut bus, &w, p1.work.id, vec![Some(full_ply(5))], 210).unwrap();
    let (complete, total) = report_completed_counts(&store, rid);
    assert_eq!((complete, total), (1, 2));
    // one of two jobs done: no dispatch yet
    match update_report_completeness(&mut store, rid, 220) {
        DispatchOutcome::Incomplete { complete, total } => {
            assert_eq!((complete, total), (1, 2));
        }
        _ => panic!("expected an incomplete report"),
    }
    assert!(!store.reports[0].sent_to_irwin);
    let p2 = acquire_job(&mut store, &mut bus, &w, 230, LEASE_TTL_MILLIS).unwrap();
    save_job_analysis(&mut store, &mut bus, &w, p2.work.id, vec![Some(full_ply(7))], 240).unwrap();
    match update_report_completeness(&mut store, rid, 250) {
        DispatchOutcome::Dispatch(job) => {
            assert_eq!(job.games.len(), 2);
        }
        _ => panic!("expected a dispatch"),
    }
}

#[test]
fn latch_fires_exactly_once() {
    let mut store = Store::new();
    let rid = ingest(&mut store, &[("g1", &["e4"])], 100);
    assert!(atomically_update_sent_to_irwin(&mut store, rid, 200));
    assert!(store.reports[0].sent_to_irwin);
    assert_eq!(store.reports[0].date_completed, Some(200));
    // the flag flips false to true at most once
    assert!(!atomically_update_sent_to_irwin(&mut store, rid, 300));
    assert_eq!(store.reports[0].date_completed, Some(200));
    // an unknown report matches nothing
    assert!(!atomically_update_sent_to_irwin(
        &mut store,
        deepq::model::ReportId(99),
        300
    ));
}

#[test]
fn duplicate_completion_dispatches_once() {
    let mut store = Store::new();
    let mut bus = Bus::new(1024);
    let mut sub = bus.subscribe();
    create_api_user(&mut store, deep_worker("k")).unwrap();
    ingest(&mut store, &[("g1", &["e4"])], 100);
    let w = deep_worker("k");
    let payload = acquire_job(&mut store, &mut bus, &w, 200, LEASE_TTL_MILLIS).unwrap();
    let jid = payload.work.id;
    assert!(save_job_analysis(&mut store, &mut bus, &w, jid, vec![Some(full_ply(3))], 210).unwrap());
    // the duplicate submission changes nothing and emits no second event
    let before = store.analyses.len();
    assert!(!save_job_analysis(&mut store, &mut bus, &w, jid, vec![Some(full_ply(3))], 220).unwrap());
    assert_eq!(store.analyses.len(), before);
    assert!(store.jobs[0].is_complete);
    let dispatches = dispatches_of(aggregator_drain(&mut store, &bus, &mut sub, 230));
    assert_eq!(dispatches.len(), 1, "the latch fires exactly once");
    // replaying the completion by hand still cannot dispatch again
    match handle_job_completed(&mut store, jid, 240) {
        AggregatorOutcome::Updated(DispatchOutcome::AlreadySent) => {}
        other => panic!("expected the latch to hold, got {:?}", other),
    }
}

#[test]
fn completion_events_for_unknown_jobs_are_tolerated() {
    let mut store = Store::new();
    match handle_job_completed(&mut store, deepq::model::JobId(42), 100) {
        AggregatorOutcome::NoJob => {}
        other => panic!("expected no job, got {:?}", other),
    }
    let msg = FishnetMsg::JobAcquired(deepq::model::JobId(1), GameId("g".to_string()));
    match aggregator_step(&mut store, &msg, 100) {
        AggregatorOutcome::Ignored => {}
        other => panic!("acquired events are log-only, got {:?}", other),
    }
}

#[test]
fn skipped_plies_abort_the_dispatch_but_keep_the_latch() {
    let mut store = Store::new();
    let mut bus = Bus::new(1024);
    create_api_user(&mut store, deep_worker("k")).unwrap();
    let rid = ingest(&mut store, &[("g1", &["e4"])], 100);
    let w = deep_worker("k");
    let payload = acquire_job(&mut store, &mut bus, &w, 200, LEASE_TTL_MILLIS).unwrap();
    let skipped = vec![Some(PlyAnalysis::Skipped(SkippedAnalysis { skipped: true }))];
    assert!(save_job_analysis(&mut store, &mut bus, &w, payload.work.id, skipped, 210).unwrap());
    match update_report_completeness(&mut store, rid, 220) {
        DispatchOutcome::Failed(e) => assert_eq!(e, deepq::error::Error::IncompleteAnalysis),
        other => panic!("expected a failed dispatch, got {:?}", other),
    }
    // the latch stays set: an operator must intervene
    assert!(store.reports[0].sent_to_irwin);
    match update_report_completeness(&mut store, rid, 230) {
        DispatchOutcome::AlreadySent => {}
        other => panic!("expected the latch to hold, got {:?}", other),
    }
}

#[test]
fn evaluations_stay_signed_end_to_end() {
    let mut store = Store::new();
    let mut bus = Bus::new(1024);
    create_api_user(&mut store, deep_worker("k")).unwrap();
    let rid = ingest(&mut store, &[("g1", &["e4"])], 100);
    let w = deep_worker("k");
    let payload = acquire_job(&mut store, &mut bus, &w, 200, LEASE_TTL_MILLIS).unwrap();
    let mate_for_black = PlyAnalysis::Full(FullAnalysis {
        pv: "e2e4".to_string(),
        depth: 20,
        score: PlyScore { cp: None, mate: Some(-3) },
        time: 1000,
        nodes: 2_500_000,
        nps: 1_000_000,
    });
    save_job_analysis(&mut store, &mut bus, &w, payload.work.id, vec![Some(mate_for_black)], 210)
        .unwrap();
    match update_report_completeness(&mut store, rid, 220) {
        DispatchOutcome::Dispatch(job) => {
            let evals = job.games[0].analysis.as_ref().unwrap();
            assert_eq!(evals[0].mate, Some(-3), "a mate against stays negative");
            assert_eq!(evals[0].cp, None);
        }
        other => panic!("expected a dispatch, got {:?}", other),
    }
}

#[test]
fn payload_game_carries_unknown_player_placeholders() {
    let game = deepq::model::Game {
        id: GameId("g1".to_string()),
        emts: vec![10, 20],
        pgn: vec!["e2e4".to_string(), "e7e5".to_string()],
        black: None,
        white: None,
    };
    let analysis = deepq::model::GameAnalysis {
        job_id: deepq::model::JobId(1),
        game_id: GameId("g1".to_string()),
        analysis: vec![Some(full_ply(1)), Some(full_ply(2))],
        requested_pvs: 5,
        requested_depth: None,
        requested_nodes: None,
    };
    let ig = irwin_game_for(&game, &analysis).unwrap();
    assert_eq!(ig.white, "Unknown (white)");
    assert_eq!(ig.emt, Some(vec![10, 20]));
    assert_eq!(ig.analysis.as_ref().unwrap().len(), 2);
}
