use deepq::model::{
    precedence_for_origin, AnalysisType, ApiUser, CreateJob, GameId, JobId, Key, ReportOrigin,
    UserId,
};
use deepq::queue::{
    assign_job, delete_job, key_status, q_status, set_complete, unassign_job, KeyStatus,
};
use deepq::store::Store;
use deepq::LEASE_TTL_MILLIS;

fn worker(key: &str, perms: Vec<AnalysisType>) -> ApiUser {
    ApiUser {
        key: Key(key.to_string()),
        name: format!("worker {}", key),
        user: Some(UserId("tester".to_string())),
        perms,
    }
}

fn open_job(store: &mut Store, game: &str, t: AnalysisType, precedence: i32, now: u64) -> JobId {
    store.insert_job(
        CreateJob {
            game_id: GameId(game.to_string()),
            report_id: None,
            analysis_type: t,
            precedence,
        },
        now,
    )
}

#[test]
fn precedence_mapping_is_total() {
    assert_eq!(precedence_for_origin(ReportOrigin::Moderator), 1_000_000);
    assert_eq!(precedence_for_origin(ReportOrigin::Tournament), 100);
    assert_eq!(precedence_for_origin(ReportOrigin::Leaderboard), 100);
    assert_eq!(precedence_for_origin(ReportOrigin::Random), 10);
}

#[test]
fn assign_respects_precedence_then_age() {
    // scenario: precedences [10, 100, 100], the two 100s inserted J_a then J_b
    let mut store = Store::new();
    let low = open_job(&mut store, "g-low", AnalysisType::Deep, 10, 0);
    let j_a = open_job(&mut store, "g-a", AnalysisType::Deep, 100, 1);
    let j_b = open_job(&mut store, "g-b", AnalysisType::Deep, 100, 2);
    let w = worker("k1", vec![AnalysisType::Deep]);
    let now = 1_000;
    let first = assign_job(&mut store, &w, now, LEASE_TTL_MILLIS).unwrap();
    assert_eq!(first.id, j_a, "older of the equal precedences first");
    let second = assign_job(&mut store, &w, now, LEASE_TTL_MILLIS).unwrap();
    assert_eq!(second.id, j_b);
    let third = assign_job(&mut store, &w, now, LEASE_TTL_MILLIS).unwrap();
    assert_eq!(third.id, low);
    assert!(assign_job(&mut store, &w, now, LEASE_TTL_MILLIS).is_none());
}

#[test]
fn assign_filters_by_permission() {
    let mut store = Store::new();
    let j1 = open_job(&mut store, "g1", AnalysisType::UserAnalysis, 100, 0);
    let _j2 = open_job(&mut store, "g2", AnalysisType::Deep, 1_000_000, 0);
    let w = worker("k1", vec![AnalysisType::UserAnalysis]);
    let got = assign_job(&mut store, &w, 10, LEASE_TTL_MILLIS).unwrap();
    assert_eq!(got.id, j1, "never a job the worker may not serve");
    assert!(assign_job(&mut store, &w, 10, LEASE_TTL_MILLIS).is_none());
}

#[test]
fn lease_expiry_lets_another_worker_take_over() {
    let mut store = Store::new();
    let j = open_job(&mut store, "g1", AnalysisType::Deep, 100, 0);
    let a = worker("worker-a", vec![AnalysisType::Deep]);
    let b = worker("worker-b", vec![AnalysisType::Deep]);
    let t0 = 1_000;
    let got = assign_job(&mut store, &a, t0, LEASE_TTL_MILLIS).unwrap();
    assert_eq!(got.id, j);
    // before the lease runs out nobody else gets it
    assert!(assign_job(&mut store, &b, t0 + LEASE_TTL_MILLIS, LEASE_TTL_MILLIS).is_none());
    // after the lease runs out worker B does
    let after = t0 + LEASE_TTL_MILLIS + 1;
    let taken = assign_job(&mut store, &b, after, LEASE_TTL_MILLIS).unwrap();
    assert_eq!(taken.id, j);
    assert_eq!(taken.owner.as_ref().unwrap().0, "worker-b");
    // A coming back gets nothing: its old job is freshly leased to B
    assert!(assign_job(&mut store, &a, after + 1, LEASE_TTL_MILLIS).is_none());
}

#[test]
fn same_worker_resumes_its_stale_job() {
    let mut store = Store::new();
    let j = open_job(&mut store, "g1", AnalysisType::Deep, 100, 0);
    let a = worker("worker-a", vec![AnalysisType::Deep]);
    let t0 = 1_000;
    assert_eq!(assign_job(&mut store, &a, t0, LEASE_TTL_MILLIS).unwrap().id, j);
    let again = assign_job(&mut store, &a, t0 + LEASE_TTL_MILLIS + 1, LEASE_TTL_MILLIS).unwrap();
    assert_eq!(again.id, j);
}

#[test]
fn unassign_returns_job_and_is_idempotent() {
    let mut store = Store::new();
    let j = open_job(&mut store, "g1", AnalysisType::Deep, 100, 0);
    let a = worker("worker-a", vec![AnalysisType::Deep]);
    let b = worker("worker-b", vec![AnalysisType::Deep]);
    assign_job(&mut store, &a, 10, LEASE_TTL_MILLIS).unwrap();
    // someone else's key releases nothing
    assert!(!unassign_job(&mut store, &b, j, 20));
    assert!(unassign_job(&mut store, &a, j, 30));
    // a second release finds no owner: idempotent
    assert!(!unassign_job(&mut store, &a, j, 40));
    // the job is back in the free pool
    let got = assign_job(&mut store, &b, 50, LEASE_TTL_MILLIS).unwrap();
    assert_eq!(got.id, j);
}

#[test]
fn complete_is_monotonic_and_owned() {
    let mut store = Store::new();
    let j = open_job(&mut store, "g1", AnalysisType::Deep, 100, 0);
    let a = worker("worker-a", vec![AnalysisType::Deep]);
    // nobody completes an unowned job
    assert!(!set_complete(&mut store, &a, j, 5));
    assign_job(&mut store, &a, 10, LEASE_TTL_MILLIS).unwrap();
    assert!(set_complete(&mut store, &a, j, 20));
    // a complete job keeps its owner and stays complete
    let job = &store.jobs[0];
    assert!(job.is_complete);
    assert_eq!(job.owner.as_ref().unwrap().0, "worker-a");
    // completion fires only once
    assert!(!set_complete(&mut store, &a, j, 30));
    // a complete job cannot be released back into the pool
    assert!(!unassign_job(&mut store, &a, j, 40));
    assert!(store.jobs[0].is_complete);
    assert!(store.jobs[0].owner.is_some());
}

#[test]
fn delete_job_removes_exactly_one() {
    let mut store = Store::new();
    let j1 = open_job(&mut store, "g1", AnalysisType::Deep, 100, 0);
    let j2 = open_job(&mut store, "g2", AnalysisType::Deep, 100, 0);
    assert!(delete_job(&mut store, j1));
    assert!(!delete_job(&mut store, j1));
    assert_eq!(store.jobs.len(), 1);
    assert_eq!(store.jobs[0].id, j2);
}

#[test]
fn status_counts_partition_the_jobs() {
    let mut store = Store::new();
    let w = worker("k1", vec![AnalysisType::Deep]);
    let _q1 = open_job(&mut store, "g1", AnalysisType::Deep, 100, 1_000);
    let _q2 = open_job(&mut store, "g2", AnalysisType::Deep, 100, 3_000);
    let j3 = open_job(&mut store, "g3", AnalysisType::Deep, 200, 2_000);
    let _other = open_job(&mut store, "g4", AnalysisType::UserAnalysis, 100, 500);
    assign_job(&mut store, &w, 10_000, LEASE_TTL_MILLIS).unwrap();
    set_complete(&mut store, &w, j3, 10_000);
    let taken = assign_job(&mut store, &w, 11_000, LEASE_TTL_MILLIS).unwrap();
    assert_eq!(taken.game_id.0, "g1");
    let s = q_status(&store, AnalysisType::Deep, 61_000);
    // queued + acquired + completed = all jobs ever created for the type
    assert_eq!(s.queued, 1);
    assert_eq!(s.acquired, 1);
    assert_eq!(s.queued + s.acquired + 1, 3);
    // the queued set holds only g2 (updated at 3s); 61s - 3s = 58s
    assert_eq!(s.oldest, 58);
    let u = q_status(&store, AnalysisType::UserAnalysis, 61_000);
    assert_eq!(u.queued, 1);
    assert_eq!(u.acquired, 0);
    assert_eq!(u.oldest, 60);
}

#[test]
fn key_status_reports_active_keys_only() {
    let w = worker("k1", vec![AnalysisType::Deep]);
    assert!(matches!(key_status(Some(&w)), Some(KeyStatus::Active)));
    assert!(key_status(None).is_none());
}
