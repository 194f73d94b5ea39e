use deepq::bus::{Bus, FishnetMsg, RecvResult};
use deepq::model::{GameId, JobId};

fn msg(n: u64) -> FishnetMsg {
    FishnetMsg::JobCompleted(JobId(n), GameId(format!("g{}", n)))
}

fn job_of(m: &FishnetMsg) -> u64 {
    match m {
        FishnetMsg::JobAcquired(j, _) => j.0,
        FishnetMsg::JobAborted(j, _) => j.0,
        FishnetMsg::JobCompleted(j, _) => j.0,
    }
}

#[test]
fn subscriber_sees_messages_in_publish_order() {
    let mut bus = Bus::new(16);
    let mut sub = bus.subscribe();
    bus.publish(msg(1));
    bus.publish(msg(2));
    bus.publish(msg(3));
    for expect in 1..=3u64 {
        match bus.recv(&mut sub) {
            RecvResult::Msg(m) => assert_eq!(job_of(&m), expect),
            _ => panic!("expected a message"),
        }
    }
    assert!(matches!(bus.recv(&mut sub), RecvResult::Empty));
}

#[test]
fn messages_before_subscription_are_dropped() {
    let mut bus = Bus::new(16);
    bus.publish(msg(1));
    let mut sub = bus.subscribe();
    bus.publish(msg(2));
    match bus.recv(&mut sub) {
        RecvResult::Msg(m) => assert_eq!(job_of(&m), 2),
        _ => panic!("expected the message published after subscription"),
    }
}

#[test]
fn slow_subscriber_gets_a_lag_signal_and_loses_the_oldest() {
    let mut bus = Bus::new(2);
    let mut sub = bus.subscribe();
    bus.publish(msg(1));
    bus.publish(msg(2));
    bus.publish(msg(3));
    // one message fell off the ring: the oldest
    match bus.recv(&mut sub) {
        RecvResult::Lagged(n) => assert_eq!(n, 1),
        _ => panic!("expected a lag signal"),
    }
    match bus.recv(&mut sub) {
        RecvResult::Msg(m) => assert_eq!(job_of(&m), 2),
        _ => panic!("expected the oldest retained message"),
    }
    match bus.recv(&mut sub) {
        RecvResult::Msg(m) => assert_eq!(job_of(&m), 3),
        _ => panic!("expected the newest message"),
    }
    assert!(matches!(bus.recv(&mut sub), RecvResult::Empty));
}

#[test]
fn closed_channel_reports_closed_after_draining() {
    let mut bus = Bus::new(4);
    let mut sub = bus.subscribe();
    bus.publish(msg(1));
    bus.close();
    assert!(matches!(bus.recv(&mut sub), RecvResult::Msg(_)));
    assert!(matches!(bus.recv(&mut sub), RecvResult::Closed));
}

#[test]
fn two_subscribers_each_see_everything() {
    let mut bus = Bus::new(8);
    let mut fast = bus.subscribe();
    let mut slow = bus.subscribe();
    bus.publish(msg(1));
    bus.publish(msg(2));
    for expect in 1..=2u64 {
        match bus.recv(&mut fast) {
            RecvResult::Msg(m) => assert_eq!(job_of(&m), expect),
            _ => panic!("fast subscriber missed a message"),
        }
    }
    for expect in 1..=2u64 {
        match bus.recv(&mut slow) {
            RecvResult::Msg(m) => assert_eq!(job_of(&m), expect),
            _ => panic!("slow subscriber missed a message"),
        }
    }
}
