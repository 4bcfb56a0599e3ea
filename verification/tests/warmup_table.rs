use gitexplore::error::AppError;
use gitexplore::graph::{DiscoveryWarmupJob, DiscoveryWarmupStatus};
use gitexplore::warmup::new_warmup_job;
use gitexplore::warmup_table::{
    discovery_warmup, resume_discovery_warmup_after_reset, runnable_discovery_warmups,
    save_discovery_warmup, start_discovery_warmup, start_warmup, start_warmup_with, WarmupEntry,
};

fn job(id: &str, status: DiscoveryWarmupStatus, updated_at: i64) -> DiscoveryWarmupJob {
    let mut w = new_warmup_job(id.to_string(), "seed".to_string(), updated_at);
    w.status = status;
    w
}

#[test]
fn starting_keeps_a_warmup_that_has_not_failed() {
    let mut table: Vec<WarmupEntry> = Vec::new();
    assert!(start_discovery_warmup(&mut table, "u1", job("a", DiscoveryWarmupStatus::Queued, 1)));
    assert!(!start_discovery_warmup(&mut table, "u1", job("b", DiscoveryWarmupStatus::Queued, 2)));
    assert_eq!(discovery_warmup(&table, "u1").unwrap().id, "a");
    save_discovery_warmup(&mut table, "u1", job("a", DiscoveryWarmupStatus::Failed, 3));
    assert!(start_discovery_warmup(&mut table, "u1", job("c", DiscoveryWarmupStatus::Queued, 4)));
    assert_eq!(discovery_warmup(&table, "u1").unwrap().id, "c");
    assert_eq!(table.len(), 1);
    assert!(discovery_warmup(&table, "u2").is_none());
}

#[test]
fn a_reserve_protected_warmup_resumes_after_its_reset() {
    let mut table: Vec<WarmupEntry> = Vec::new();
    let mut waiting = job("w", DiscoveryWarmupStatus::ReserveProtected, 10);
    waiting.reset_at = Some(100);
    save_discovery_warmup(&mut table, "u1", waiting);
    let resumed = job("w", DiscoveryWarmupStatus::Queued, 150);
    assert_eq!(resume_discovery_warmup_after_reset(&mut table, "u1", resumed.clone(), 99).unwrap(), false);
    assert_eq!(discovery_warmup(&table, "u1").unwrap().status, DiscoveryWarmupStatus::ReserveProtected);
    let other = job("other", DiscoveryWarmupStatus::Queued, 150);
    assert_eq!(resume_discovery_warmup_after_reset(&mut table, "u1", other, 100).unwrap(), false);
    assert_eq!(resume_discovery_warmup_after_reset(&mut table, "u1", resumed.clone(), 100).unwrap(), true);
    assert_eq!(discovery_warmup(&table, "u1"), Some(&resumed));
    match resume_discovery_warmup_after_reset(&mut table, "nobody", resumed, 100) {
        Err(AppError::Storage(message)) => {
            assert_eq!(message, "discovery warmup disappeared while resuming")
        }
        other => panic!("unexpected {other:?}"),
    }
}

#[test]
fn runnable_warmups_come_oldest_first_and_by_user() {
    let mut table: Vec<WarmupEntry> = Vec::new();
    save_discovery_warmup(&mut table, "zoe", job("1", DiscoveryWarmupStatus::Running, 5));
    save_discovery_warmup(&mut table, "amy", job("2", DiscoveryWarmupStatus::Queued, 5));
    save_discovery_warmup(&mut table, "bob", job("3", DiscoveryWarmupStatus::Queued, 2));
    save_discovery_warmup(&mut table, "cal", job("4", DiscoveryWarmupStatus::Completed, 1));
    save_discovery_warmup(&mut table, "dan", job("5", DiscoveryWarmupStatus::Failed, 1));
    save_discovery_warmup(&mut table, "eve", job("6", DiscoveryWarmupStatus::Queued, 9));
    assert_eq!(runnable_discovery_warmups(&table, 10), vec!["bob", "amy", "zoe", "eve"]);
    assert_eq!(runnable_discovery_warmups(&table, 2), vec!["bob", "amy"]);
    assert!(runnable_discovery_warmups(&table, 0).is_empty());
}

#[test]
fn starting_from_the_own_login_queues_or_resumes() {
    let mut table: Vec<WarmupEntry> = Vec::new();
    assert!(start_warmup_with(&mut table, "u1", "me".to_string(), 10, "job-1".to_string()));
    let first = discovery_warmup(&table, "u1").unwrap();
    assert_eq!(first.id, "job-1");
    assert_eq!(first.frontier, vec!["me".to_string()]);
    assert!(start_warmup_with(&mut table, "u1", "me".to_string(), 11, "job-2".to_string()));
    assert_eq!(discovery_warmup(&table, "u1").unwrap().id, "job-1");

    let mut waiting = job("w", DiscoveryWarmupStatus::ReserveProtected, 20);
    waiting.reset_at = Some(30);
    waiting.frontier = vec!["next".to_string()];
    save_discovery_warmup(&mut table, "u2", waiting);
    assert!(!start_warmup_with(&mut table, "u2", "me".to_string(), 25, "job-3".to_string()));
    assert_eq!(discovery_warmup(&table, "u2").unwrap().status, DiscoveryWarmupStatus::ReserveProtected);
    assert!(start_warmup_with(&mut table, "u2", "me".to_string(), 30, "job-4".to_string()));
    let resumed = discovery_warmup(&table, "u2").unwrap();
    assert_eq!(resumed.id, "w");
    assert_eq!(resumed.status, DiscoveryWarmupStatus::Queued);
    assert_eq!(resumed.frontier, vec!["next".to_string()]);
    assert_eq!(resumed.updated_at, 30);

    save_discovery_warmup(&mut table, "u3", job("done", DiscoveryWarmupStatus::Completed, 1));
    assert!(!start_warmup(&mut table, "u3", "me".to_string(), 40));
    assert_eq!(discovery_warmup(&table, "u3").unwrap().id, "done");
}
