use gitexplore::discovery::{DiscoveryUser, UserNeighborhood};
use gitexplore::graph::{
    CacheStatus, DiscoveryWarmupJob, DiscoveryWarmupStatus, GitHubUserNode, GraphImportCoverage,
};
use gitexplore::warmup::{
    advance_warmup_frontier, begin_warmup_batch, new_warmup_job, DISCOVERY_WARMUP_TOTAL_USER_LIMIT,
};

fn person(github_id: i64, login: &str, status: CacheStatus) -> DiscoveryUser {
    DiscoveryUser {
        profile: GitHubUserNode {
            github_id,
            login: login.to_string(),
            url: format!("https://github.com/{login}"),
            ..Default::default()
        },
        neighborhood_cache_status: status,
        neighborhood_last_fetched_at: None,
    }
}

#[test]
fn discovery_warmup_total_bound_truncates_and_exhausts_the_frontier() {
    let now = chrono::Utc::now().timestamp_micros();
    let mut warmup = DiscoveryWarmupJob {
        id: "bounded-warmup".to_string(),
        seed_login: "seed-0".to_string(),
        status: DiscoveryWarmupStatus::Running,
        current_login: Some("current".to_string()),
        expanded_logins: (0..DISCOVERY_WARMUP_TOTAL_USER_LIMIT - 1)
            .map(|index| format!("seed-{index}"))
            .collect(),
        frontier: vec!["current".to_string()],
        frontier_truncated: false,
        remaining_requests: None,
        reserve_requests: 1_000,
        reset_at: None,
        started_at: now,
        updated_at: now,
        completed_at: None,
        last_error: None,
    };
    let mut current = person(1, "current", CacheStatus::Fresh);
    current.neighborhood_last_fetched_at = Some(now);
    let neighborhood = UserNeighborhood {
        user: current,
        followers: Vec::new(),
        following: vec![person(2, "overflow", CacheStatus::Stale)],
        starred_repositories: Vec::new(),
        owned_repositories: Vec::new(),
        coverage: GraphImportCoverage::default(),
    };

    advance_warmup_frontier(&mut warmup, "current", &neighborhood);

    assert_eq!(warmup.discovered_users(), DISCOVERY_WARMUP_TOTAL_USER_LIMIT);
    assert!(warmup.frontier.is_empty());
    assert!(warmup.frontier_truncated);
}

#[test]
fn warmup_queues_followed_people_before_followers() {
    let now = chrono::Utc::now().timestamp_micros();
    let mut warmup = DiscoveryWarmupJob {
        id: "w".to_string(),
        seed_login: "seed".to_string(),
        status: DiscoveryWarmupStatus::Running,
        current_login: None,
        expanded_logins: Vec::new(),
        frontier: vec!["seed".to_string()],
        frontier_truncated: false,
        remaining_requests: None,
        reserve_requests: 1_000,
        reset_at: None,
        started_at: now,
        updated_at: now,
        completed_at: None,
        last_error: None,
    };
    let neighborhood = UserNeighborhood {
        user: person(1, "Seed", CacheStatus::Fresh),
        followers: vec![person(3, "Follower", CacheStatus::Stale)],
        following: vec![person(2, "Followed", CacheStatus::Stale)],
        starred_repositories: Vec::new(),
        owned_repositories: Vec::new(),
        coverage: GraphImportCoverage::default(),
    };
    advance_warmup_frontier(&mut warmup, "seed", &neighborhood);
    assert_eq!(warmup.expanded_logins, vec!["seed".to_string()]);
    assert_eq!(warmup.frontier, vec!["followed".to_string(), "follower".to_string()]);
    assert!(!warmup.frontier_truncated);
}

#[test]
fn a_batch_expands_the_first_new_login_or_completes_an_exhausted_warmup() {
    let mut warmup = new_warmup_job("w".to_string(), "seed".to_string(), 1);
    warmup.expanded_logins = vec!["seed".to_string()];
    warmup.frontier = vec!["Seed".to_string(), "next".to_string()];
    assert_eq!(begin_warmup_batch(&mut warmup, 5), Some("next".to_string()));
    assert_eq!(warmup.frontier, vec!["next".to_string()]);
    assert_eq!(warmup.status, DiscoveryWarmupStatus::Queued);

    warmup.expanded_logins.push("next".to_string());
    assert_eq!(begin_warmup_batch(&mut warmup, 6), None);
    assert!(warmup.frontier.is_empty());
    assert_eq!(warmup.status, DiscoveryWarmupStatus::Completed);
    assert_eq!(warmup.completed_at, Some(6));
    assert_eq!(warmup.current_login, None);
}

#[test]
fn an_expansion_keeps_the_pending_logins_in_order_and_drops_the_expanded_one() {
    let mut warmup = new_warmup_job("w".to_string(), "seed".to_string(), 0);
    warmup.expanded_logins = vec!["seed".to_string()];
    warmup.frontier = vec!["ann".to_string(), "old-name".to_string(), "bob".to_string()];
    let neighborhood = UserNeighborhood {
        user: person(1, "New-Name", CacheStatus::Fresh),
        followers: vec![person(3, "Bob", CacheStatus::Stale), person(4, "new-name", CacheStatus::Stale)],
        following: vec![person(2, "cy", CacheStatus::Stale)],
        starred_repositories: Vec::new(),
        owned_repositories: Vec::new(),
        coverage: GraphImportCoverage::default(),
    };
    advance_warmup_frontier(&mut warmup, "Old-Name", &neighborhood);
    assert_eq!(warmup.frontier, vec!["ann", "bob", "cy"]);
    assert_eq!(warmup.expanded_logins, vec!["seed", "new-name"]);
}
