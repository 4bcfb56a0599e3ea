use gitexplore::budget::{
    ensure_oauth_identity_budget_status, ensure_rate_budget, ensure_reserve_floor, LeaseTable,
    RATE_BUDGET_LEASE_MICROS,
};
use gitexplore::error::AppError;
use gitexplore::graph::GitHubRateLimitStatus;

fn status(remaining: usize) -> GitHubRateLimitStatus {
    let now = chrono::Utc::now().timestamp_micros();
    GitHubRateLimitStatus {
        limit: 5_000,
        used: 5_000 - remaining,
        remaining,
        reset_at: now + 30 * 60_000_000,
        checked_at: now,
    }
}

#[test]
fn oauth_identity_lookup_preserves_the_minimum_rest_reserve() {
    let mut status = status(1_001);
    ensure_oauth_identity_budget_status(&status)
        .expect("1,001 requests admits the one-request identity lookup");

    status.remaining = 1_000;
    let error = ensure_oauth_identity_budget_status(&status)
        .expect_err("1,000 requests must preserve the reserve");
    assert!(matches!(
        error,
        AppError::RateBudgetReserved {
            operation,
            remaining: 1_000,
            reserve: 1_000,
            requested_cost: 1,
            ..
        } if operation == "github_oauth_identity"
    ));
}

#[test]
fn spending_operations_keep_the_reserve_and_the_floor() {
    let s = status(1_013);
    assert!(ensure_rate_budget("crawl", &s, 13, 1_000).is_ok());
    assert!(matches!(
        ensure_rate_budget("crawl", &s, 14, 1_000),
        Err(AppError::RateBudgetReserved { remaining: 1_013, requested_cost: 14, .. })
    ));
    let empty = status(5);
    assert!(ensure_rate_budget("crawl", &empty, 13, 0).is_ok());
    assert!(ensure_reserve_floor(1_000).is_ok());
    assert!(matches!(ensure_reserve_floor(999), Err(AppError::Validation(_))));
}

#[test]
fn budget_leases_are_exclusive_fenced_and_released() {
    let now = 1_000_000_000;
    let mut table = LeaseTable::new();
    let first = table
        .try_acquire(42, "first-owner", RATE_BUDGET_LEASE_MICROS, now)
        .expect("acquire lease");
    assert_eq!(first.token, "first-owner");
    assert!(table.try_acquire(42, "contender", RATE_BUDGET_LEASE_MICROS, now + 1).is_none());
    assert!(table.try_acquire(43, "other-account", RATE_BUDGET_LEASE_MICROS, now).is_some());

    let stale = gitexplore::graph::GitHubRateLimitLease {
        github_user_id: 42,
        token: "contender".to_string(),
        expires_at: now,
    };
    assert!(!table.renew(&stale, RATE_BUDGET_LEASE_MICROS, now + 1));
    assert!(!table.release(&stale));
    assert!(table.renew(&first, RATE_BUDGET_LEASE_MICROS, now + 10));
    assert!(table.release(&first));
    let replacement = table
        .try_acquire(42, "replacement", RATE_BUDGET_LEASE_MICROS, now + 11)
        .expect("replacement lease");
    assert!(!table.renew(&first, RATE_BUDGET_LEASE_MICROS, now + 12));
    assert!(table.release(&replacement));
}

#[test]
fn an_expired_lease_can_be_taken_over() {
    let now = 5_000_000;
    let mut table = LeaseTable::new();
    let first = table.try_acquire(7, "a", 100, now).expect("first");
    assert!(table.try_acquire(7, "b", 100, now + 99).is_none());
    let second = table.try_acquire(7, "b", 100, now + 100).expect("lapsed lease");
    assert_eq!(second.expires_at, now + 200);
    assert!(!table.renew(&first, 100, now + 101));
}
