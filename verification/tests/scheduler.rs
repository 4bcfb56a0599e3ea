use gitexplore::scheduler::{IdleAction, WarmupScheduler, PEER_DEFER_MICROS};

fn users(names: &[&str]) -> Vec<String> {
    names.iter().map(|name| name.to_string()).collect()
}

#[test]
fn kicking_starts_one_loop_and_counts_generations() {
    let mut scheduler = WarmupScheduler::new();
    assert!(scheduler.kick());
    assert!(!scheduler.kick());
    assert!(scheduler.running);
    assert_eq!(scheduler.generation, 2);
    scheduler.generation = u64::MAX;
    scheduler.kick();
    assert_eq!(scheduler.generation, 0);
}

#[test]
fn a_scan_starts_at_most_four_batches_and_skips_users_in_flight() {
    let mut scheduler = WarmupScheduler::new();
    let started = scheduler.schedule(&users(&["a", "b", "c", "d", "e"]), 0);
    assert_eq!(started, users(&["a", "b", "c", "d"]));
    assert_eq!(scheduler.active.len(), 4);
    assert!(scheduler.schedule(&users(&["a", "e"]), 0).is_empty());
    scheduler.batch_finished("b", false, 5);
    assert_eq!(scheduler.schedule(&users(&["a", "e", "f"]), 6), users(&["e"]));
    assert_eq!(scheduler.active.len(), 4);
}

#[test]
fn a_user_held_by_another_process_waits_a_second() {
    let mut scheduler = WarmupScheduler::new();
    scheduler.schedule(&users(&["a"]), 0);
    scheduler.batch_finished("a", true, 10);
    assert!(scheduler.active.is_empty());
    assert_eq!(scheduler.deferred, vec![("a".to_string(), 10 + PEER_DEFER_MICROS)]);
    assert!(scheduler.schedule(&users(&["a"]), 20).is_empty());
    assert_eq!(scheduler.schedule(&users(&["a"]), 10 + PEER_DEFER_MICROS), users(&["a"]));
    assert!(scheduler.deferred.is_empty());
}

#[test]
fn an_idle_loop_rescans_sleeps_or_stops() {
    let mut scheduler = WarmupScheduler::new();
    scheduler.kick();
    let generation = scheduler.generation;
    scheduler.kick();
    assert_eq!(scheduler.when_idle(generation), IdleAction::Rescan);
    assert!(scheduler.running);
    let generation = scheduler.generation;
    scheduler.schedule(&users(&["a", "b"]), 0);
    scheduler.batch_finished("b", true, 50);
    scheduler.batch_finished("a", true, 40);
    assert_eq!(scheduler.when_idle(generation), IdleAction::SleepUntil(40 + PEER_DEFER_MICROS));
    assert!(scheduler.running);
    scheduler.schedule(&Vec::new(), 50 + PEER_DEFER_MICROS);
    assert_eq!(scheduler.when_idle(generation), IdleAction::Stop);
    assert!(!scheduler.running);
}

#[test]
fn failures_stop_an_idle_loop_and_abandon_batches() {
    let mut scheduler = WarmupScheduler::new();
    scheduler.kick();
    scheduler.schedule(&users(&["a", "b"]), 0);
    assert!(!scheduler.scan_failed(false));
    assert!(scheduler.running);
    scheduler.workers_failed();
    assert!(scheduler.active.is_empty());
    assert!(scheduler.scan_failed(true));
    assert!(!scheduler.running);
}
