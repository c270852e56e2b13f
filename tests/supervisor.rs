use std::time::Duration;

use async_backplane::Fault;
use supervisor_core::{
    Event, Grace, Haste, RateLimit, RateLimiter, Recovery, RecoveryLogic, Restart, RestartPlan,
    ShutdownOrder, Spec, Start, StartError, Started, Step, SupervisionError, Supervisor,
};

fn fixed(ms: u64) -> Haste {
    Haste::Gracefully(Grace::Fixed(Duration::from_millis(ms)))
}

fn supervisor(logic: RecoveryLogic, specs: Vec<Spec<u32>>) -> Supervisor<u32> {
    let mut s = Supervisor::new(logic);
    for spec in specs {
        s.add_task(spec);
    }
    s
}

fn start_all(s: &mut Supervisor<u32>, ids: &[usize]) {
    s.begin_start_up(0);
    for (index, id) in ids.iter().enumerate() {
        assert!(s.record_start(index, *id, Ok(Started::Running)).is_ok());
    }
}

fn states(s: &Supervisor<u32>) -> Vec<Option<usize>> {
    (0..s.states_len()).map(|i| s.state(i)).collect()
}

fn order_indices(orders: &[ShutdownOrder]) -> Vec<usize> {
    orders.iter().map(|o| o.index).collect()
}

#[test]
fn spec_defaults() {
    let spec = Spec::new(Start::new(7u32));
    assert_eq!(spec.restart, Restart::Always);
    assert_eq!(spec.start.fun, 7);
    assert!(matches!(spec.shutdown, Haste::Gracefully(Grace::Fixed(d)) if d == Duration::from_secs(5)));
    assert!(matches!(spec.start.haste, Haste::Gracefully(Grace::Fixed(d)) if d == Duration::from_secs(5)));
}

#[test]
fn spec_builders_replace_one_field() {
    let spec = Spec::new(Start::new(1u32))
        .set_restart(Restart::Never)
        .set_shutdown(Haste::Quickly)
        .set_start(Start::new(2u32).set_haste(Haste::Gracefully(Grace::Forever)).set_fn(3));
    assert_eq!(spec.restart, Restart::Never);
    assert!(matches!(spec.shutdown, Haste::Quickly));
    assert_eq!(spec.start.fun, 3);
    assert!(matches!(spec.start.haste, Haste::Gracefully(Grace::Forever)));
}

#[test]
fn supervisor_default_rate() {
    let s: Supervisor<u32> = Supervisor::new(RecoveryLogic::CascadeAll);
    assert_eq!(s.logic(), RecoveryLogic::CascadeAll);
    assert_eq!(s.restart_rate(), RateLimit { count: 5, period_ms: 5000 });
    assert_eq!(s.len(), 0);
    let limit = RateLimit::new(2, 1000).unwrap();
    let s = s.set_restart_rate(limit);
    assert_eq!(s.restart_rate(), limit);
}

#[test]
fn add_task_appends_in_order() {
    let s = supervisor(
        RecoveryLogic::Isolated,
        vec![Spec::new(Start::new(1)), Spec::new(Start::new(2)).set_restart(Restart::Failed)],
    );
    assert_eq!(s.len(), 2);
    assert_eq!(s.states_len(), 0);
    assert_eq!(s.spec(0).start.fun, 1);
    assert_eq!(s.spec(1).restart, Restart::Failed);
}

#[test]
fn completed_child_keeps_its_index_empty() {
    let mut s = supervisor(
        RecoveryLogic::Isolated,
        vec![Spec::new(Start::new(1)), Spec::new(Start::new(2))],
    );
    s.begin_start_up(0);
    assert!(s.record_start(0, 10, Ok(Started::Completed)).is_ok());
    assert!(s.record_start(1, 11, Ok(Started::Running)).is_ok());
    assert_eq!(states(&s), vec![None, Some(11)]);
    assert!(s.tracks(11));
    assert!(!s.tracks(10));
}

#[test]
fn fault_during_startup_is_reported_with_its_index() {
    let mut s = supervisor(
        RecoveryLogic::Isolated,
        vec![Spec::new(Start::new(1)), Spec::new(Start::new(2))],
    );
    s.begin_start_up(0);
    assert!(s.record_start(0, 10, Ok(Started::Running)).is_ok());
    let r = s.record_start(1, 11, Err(StartError::Fault(Fault::Error)));
    assert!(matches!(r, Err(SupervisionError::StartupFailed(1, StartError::Fault(Fault::Error)))));
    assert_eq!(states(&s), vec![Some(10)]);
}

#[test]
fn single_isolated_restart() {
    let specs = (0..3).map(|k| Spec::new(Start::new(k))).collect();
    let mut s = supervisor(RecoveryLogic::Isolated, specs);
    start_all(&mut s, &[10, 11, 12]);
    assert_eq!(s.disconnected(11, Some(Fault::Error)), Recovery::Restart(1));
    assert_eq!(states(&s), vec![Some(10), None, Some(12)]);
    assert_eq!(s.plan_restart(1, true).ok(), Some(RestartPlan::StartOne(1)));
    assert!(s.record_restart(1, 21, Ok(Started::Running)).is_ok());
    assert_eq!(states(&s), vec![Some(10), Some(21), Some(12)]);
}

#[test]
fn isolated_restart_failure_is_reported() {
    let specs = (0..2).map(|k| Spec::new(Start::new(k))).collect();
    let mut s = supervisor(RecoveryLogic::Isolated, specs);
    start_all(&mut s, &[10, 11]);
    assert_eq!(s.disconnected(10, None), Recovery::Restart(0));
    let r = s.record_restart(0, 20, Err(StartError::Timeout));
    assert!(matches!(r, Err(SupervisionError::StartupFailed(0, StartError::Timeout))));
    assert_eq!(states(&s), vec![None, Some(11)]);
}

#[test]
fn cascade_newer() {
    let specs = (0..3).map(|k| Spec::new(Start::new(k)).set_shutdown(fixed(50))).collect();
    let mut s = supervisor(RecoveryLogic::CascadeNewer, specs);
    start_all(&mut s, &[10, 11, 12]);
    assert_eq!(s.disconnected(11, Some(Fault::Error)), Recovery::Restart(1));
    let plan = s.plan_restart(1, true).ok();
    assert_eq!(plan, Some(RestartPlan::Cascade { stop_from: 2, start_from: 1 }));
    let (orders, mut collector) = s.start_shut_down(2, 0);
    assert_eq!(order_indices(&orders), vec![2]);
    assert_eq!(orders[0].id, 12);
    assert!(matches!(orders[0].haste, Haste::Gracefully(Grace::Fixed(d)) if d == Duration::from_millis(50)));
    assert!(!collector.is_done());
    assert!(collector.is_waiting_for(12));
    assert_eq!(states(&s), vec![Some(10), None]);
    // the late notice of the child torn down restarts nothing
    assert_eq!(s.disconnected(12, None), Recovery::Stale);
    assert_eq!(collector.next_deadline(), Some(50));
    collector.remove(12);
    assert!(collector.is_done());
    s.begin_start_up(1);
    assert!(s.record_start(1, 21, Ok(Started::Running)).is_ok());
    assert!(s.record_start(2, 22, Ok(Started::Running)).is_ok());
    assert_eq!(states(&s), vec![Some(10), Some(21), Some(22)]);
}

#[test]
fn cascade_all_plan() {
    let specs = (0..3).map(|k| Spec::new(Start::new(k))).collect();
    let mut s = supervisor(RecoveryLogic::CascadeAll, specs);
    start_all(&mut s, &[10, 11, 12]);
    assert_eq!(s.disconnected(12, Some(Fault::Drop)), Recovery::Restart(2));
    let plan = s.plan_restart(2, true).ok();
    assert_eq!(plan, Some(RestartPlan::Cascade { stop_from: 0, start_from: 0 }));
    let (orders, _collector) = s.start_shut_down(0, 0);
    assert_eq!(order_indices(&orders), vec![1, 0]);
    assert_eq!(s.states_len(), 0);
}

#[test]
fn throttle_exit() {
    let mut s = supervisor(RecoveryLogic::Isolated, vec![Spec::new(Start::new(0))]);
    s = s.set_restart_rate(RateLimit::new(2, 1000).unwrap());
    start_all(&mut s, &[10]);
    let mut limiter = RateLimiter::new(s.restart_rate());
    let mut next_id = 20;
    for now in [100u64, 200] {
        let id = s.state(0).unwrap();
        assert_eq!(s.disconnected(id, Some(Fault::Error)), Recovery::Restart(0));
        assert_eq!(s.restart(0, &mut limiter, now).ok(), Some(RestartPlan::StartOne(0)));
        assert!(s.record_restart(0, next_id, Ok(Started::Running)).is_ok());
        next_id += 1;
    }
    let id = s.state(0).unwrap();
    assert_eq!(s.disconnected(id, Some(Fault::Error)), Recovery::Restart(0));
    assert!(matches!(s.restart(0, &mut limiter, 300), Err(SupervisionError::Throttled)));
}

#[test]
fn rate_limit_needs_a_count() {
    assert_eq!(RateLimit::new(0, 1000), None);
    assert_eq!(RateLimit::new(3, 1000), Some(RateLimit { count: 3, period_ms: 1000 }));
}

#[test]
fn limiter_admits_again_after_the_window() {
    let mut limiter = RateLimiter::new(RateLimit::new(2, 1000).unwrap());
    assert!(limiter.check(0));
    assert!(limiter.check(500));
    assert!(!limiter.check(1000));
    // the reading at 0 lies more than a period before 1001
    assert!(limiter.check(1001));
    assert!(!limiter.check(1400));
    assert!(limiter.check(2600));
    assert_eq!(limiter.limit(), RateLimit { count: 2, period_ms: 1000 });
    assert_eq!(limiter.latest(), 2600);
}

#[test]
fn limiter_of_one() {
    let mut limiter = RateLimiter::new(RateLimit::new(1, 10).unwrap());
    assert!(limiter.check(5));
    assert!(!limiter.check(15));
    assert!(limiter.check(16));
}

#[test]
fn refused_restart_is_throttled() {
    let s = supervisor(RecoveryLogic::CascadeNewer, vec![Spec::new(Start::new(0))]);
    assert!(matches!(s.plan_restart(0, false), Err(SupervisionError::Throttled)));
}

#[test]
fn startup_timeout() {
    let mut s = supervisor(
        RecoveryLogic::Isolated,
        vec![Spec::new(Start::new(0).set_haste(fixed(100)))],
    );
    s.begin_start_up(0);
    let r = s.record_start(0, 10, Err(StartError::Timeout));
    assert!(matches!(r, Err(SupervisionError::StartupFailed(0, StartError::Timeout))));
    let (orders, collector) = s.start_shut_down(0, 0);
    assert!(orders.is_empty());
    assert!(collector.is_done());
    assert_eq!(s.states_len(), 0);
}

#[test]
fn parental_shutdown_during_steady_state() {
    let specs = (0..2).map(|k| Spec::new(Start::new(k)).set_shutdown(fixed(1000))).collect();
    let mut s = supervisor(RecoveryLogic::Isolated, specs);
    start_all(&mut s, &[10, 11]);
    let (orders, mut collector) = s.start_shut_down(0, 0);
    assert_eq!(order_indices(&orders), vec![1, 0]);
    assert_eq!(orders.iter().map(|o| o.id).collect::<Vec<_>>(), vec![11, 10]);
    collector.remove(11);
    assert!(!collector.is_done());
    collector.remove(99);
    assert!(!collector.is_done());
    collector.remove(10);
    assert!(collector.is_done());
    assert_eq!(s.states_len(), 0);
}

#[test]
fn on_failure_policy() {
    let specs = vec![
        Spec::new(Start::new(0)).set_restart(Restart::Failed),
        Spec::new(Start::new(1)),
    ];
    let mut s = supervisor(RecoveryLogic::Isolated, specs);
    start_all(&mut s, &[10, 11]);
    assert_eq!(s.disconnected(10, None), Recovery::Idle(0));
    assert_eq!(states(&s), vec![None, Some(11)]);
    assert_eq!(s.disconnected(11, Some(Fault::Error)), Recovery::Restart(1));
}

#[test]
fn on_failure_restarts_after_fault() {
    let specs = vec![Spec::new(Start::new(0)).set_restart(Restart::Failed)];
    let mut s = supervisor(RecoveryLogic::Isolated, specs);
    start_all(&mut s, &[10]);
    assert_eq!(s.disconnected(10, Some(Fault::Drop)), Recovery::Restart(0));
}

#[test]
fn never_policy_leaves_slot_idle() {
    let specs = vec![Spec::new(Start::new(0)).set_restart(Restart::Never)];
    let mut s = supervisor(RecoveryLogic::Isolated, specs);
    start_all(&mut s, &[10]);
    assert_eq!(s.disconnected(10, Some(Fault::Error)), Recovery::Idle(0));
    assert_eq!(states(&s), vec![None]);
    assert_eq!(s.disconnected(10, Some(Fault::Error)), Recovery::Stale);
}

#[test]
fn stale_notice_changes_nothing() {
    let specs = (0..2).map(|k| Spec::new(Start::new(k))).collect();
    let mut s = supervisor(RecoveryLogic::Isolated, specs);
    start_all(&mut s, &[10, 11]);
    assert_eq!(s.disconnected(42, Some(Fault::Error)), Recovery::Stale);
    assert_eq!(states(&s), vec![Some(10), Some(11)]);
}

#[test]
fn teardown_is_newest_first_and_honors_haste() {
    let specs = vec![
        Spec::new(Start::new(0)).set_shutdown(Haste::Quickly),
        Spec::new(Start::new(1)).set_shutdown(Haste::Gracefully(Grace::Forever)),
        Spec::new(Start::new(2)),
        Spec::new(Start::new(3)).set_shutdown(fixed(30)),
    ];
    let mut s = supervisor(RecoveryLogic::Isolated, specs);
    s.begin_start_up(0);
    assert!(s.record_start(0, 10, Ok(Started::Running)).is_ok());
    assert!(s.record_start(1, 11, Ok(Started::Running)).is_ok());
    assert!(s.record_start(2, 12, Ok(Started::Completed)).is_ok());
    assert!(s.record_start(3, 13, Ok(Started::Running)).is_ok());
    let (orders, mut collector) = s.start_shut_down(0, 0);
    assert_eq!(order_indices(&orders), vec![3, 1, 0]);
    assert!(matches!(orders[2].haste, Haste::Quickly));
    assert!(collector.is_waiting_for(13));
    assert!(collector.is_waiting_for(11));
    assert!(!collector.is_waiting_for(10));
    collector.remove(13);
    collector.remove(11);
    assert!(collector.is_done());
}

#[test]
fn idle_teardown_is_a_no_op() {
    let specs = (0..3).map(|k| Spec::new(Start::new(k))).collect();
    let mut s = supervisor(RecoveryLogic::Isolated, specs);
    s.begin_start_up(0);
    assert!(s.record_start(0, 10, Ok(Started::Running)).is_ok());
    assert!(s.record_start(1, 11, Ok(Started::Completed)).is_ok());
    assert!(s.record_start(2, 12, Ok(Started::Completed)).is_ok());
    let (orders, collector) = s.start_shut_down(1, 0);
    assert!(orders.is_empty());
    assert!(collector.is_done());
    assert_eq!(states(&s), vec![Some(10)]);
}

#[test]
fn watch_step_shutdown_request_powers_off() {
    let specs = (0..2).map(|k| Spec::new(Start::new(k))).collect();
    let mut s = supervisor(RecoveryLogic::Isolated, specs);
    start_all(&mut s, &[10, 11]);
    let mut limiter = RateLimiter::new(s.restart_rate());
    assert_eq!(s.watch_step(Event::Shutdown(7), &mut limiter, 0), Step::PowerOff(7));
    assert_eq!(states(&s), vec![Some(10), Some(11)]);
}

#[test]
fn watch_step_restarts_and_throttles() {
    let specs = vec![Spec::new(Start::new(0)), Spec::new(Start::new(1)).set_restart(Restart::Never)];
    let mut s = supervisor(RecoveryLogic::CascadeNewer, specs);
    s = s.set_restart_rate(RateLimit::new(1, 1000).unwrap());
    start_all(&mut s, &[10, 11]);
    let mut limiter = RateLimiter::new(s.restart_rate());
    // a stale notice and a child that is never restarted ask nothing of the limiter
    assert_eq!(s.watch_step(Event::Terminated(99, None), &mut limiter, 5), Step::Continue);
    assert_eq!(s.watch_step(Event::Terminated(11, Some(Fault::Error)), &mut limiter, 6), Step::Continue);
    assert_eq!(limiter.latest(), 0);
    assert_eq!(states(&s), vec![Some(10), None]);
    let step = s.watch_step(Event::Terminated(10, None), &mut limiter, 10);
    assert_eq!(step, Step::Recover(RestartPlan::Cascade { stop_from: 1, start_from: 0 }));
    assert_eq!(limiter.latest(), 10);
    let (orders, collector) = s.start_shut_down(1, 0);
    assert!(orders.is_empty());
    assert!(collector.is_done());
    s.begin_start_up(0);
    assert!(s.record_start(0, 20, Ok(Started::Running)).is_ok());
    assert!(s.record_start(1, 21, Ok(Started::Running)).is_ok());
    assert_eq!(s.watch_step(Event::Terminated(20, None), &mut limiter, 500), Step::Throttled);
}

#[test]
fn grace_deadline_expires_the_wait() {
    let specs = vec![
        Spec::new(Start::new(0)).set_shutdown(fixed(1000)),
        Spec::new(Start::new(1)).set_shutdown(fixed(300)),
        Spec::new(Start::new(2)).set_shutdown(Haste::Gracefully(Grace::Forever)),
    ];
    let mut s = supervisor(RecoveryLogic::Isolated, specs);
    start_all(&mut s, &[10, 11, 12]);
    let (orders, mut collector) = s.start_shut_down(0, 100);
    assert_eq!(order_indices(&orders), vec![2, 1, 0]);
    assert_eq!(collector.next_deadline(), Some(400));
    collector.expire(399);
    assert!(collector.is_waiting_for(11));
    collector.expire(400);
    assert!(!collector.is_waiting_for(11));
    assert!(collector.is_waiting_for(10));
    assert_eq!(collector.next_deadline(), Some(1100));
    collector.expire(1100);
    assert!(!collector.is_waiting_for(10));
    // a child shut down with no deadline is waited for until it ends
    assert_eq!(collector.next_deadline(), None);
    collector.expire(u64::MAX);
    assert!(!collector.is_done());
    collector.remove(12);
    assert!(collector.is_done());
}

#[test]
fn grace_deadline_saturates_at_the_end_of_the_clock() {
    let specs = vec![Spec::new(Start::new(0)).set_shutdown(fixed(10))];
    let mut s = supervisor(RecoveryLogic::Isolated, specs);
    start_all(&mut s, &[10]);
    let (_orders, collector) = s.start_shut_down(0, u64::MAX - 3);
    assert_eq!(collector.next_deadline(), Some(u64::MAX));
}
