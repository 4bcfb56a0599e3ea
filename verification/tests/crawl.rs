use std::collections::{HashSet, VecDeque};

use gitexplore::crawl::{
    collect_crawl_neighborhood, graph_expansion_summary, reserve_allows_expansion,
    validate_crawl_options, CrawlProgress, CrawlState, CrawlStep, GraphCrawlStopReason,
    GraphExpansionCounts,
};
use gitexplore::discovery::{DiscoveryRepositoryRecord, DiscoveryUser, UserNeighborhood};
use gitexplore::error::AppError;
use gitexplore::graph::{
    CacheStatus, GitHubRateLimitStatus, GitHubRepositoryNode, GitHubUserNode, GraphImportCoverage,
};

fn discovery_user(github_id: i64, login: &str, fetched_at: Option<i64>) -> DiscoveryUser {
    DiscoveryUser {
        profile: GitHubUserNode {
            github_id,
            login: login.to_string(),
            url: format!("https://github.com/{login}"),
            ..Default::default()
        },
        neighborhood_cache_status: if fetched_at.is_some() {
            CacheStatus::Fresh
        } else {
            CacheStatus::Stale
        },
        neighborhood_last_fetched_at: fetched_at,
    }
}

fn discovery_repository(github_id: i64, full_name: &str) -> DiscoveryRepositoryRecord {
    let (owner_login, name) = full_name.split_once('/').expect("repository full name");
    DiscoveryRepositoryRecord {
        repository: GitHubRepositoryNode {
            github_id,
            owner_login: owner_login.to_string(),
            name: name.to_string(),
            full_name: full_name.to_string(),
            html_url: format!("https://github.com/{full_name}"),
            ..Default::default()
        },
        saved: false,
    }
}

#[test]
fn expansion_summary_reports_collection_and_unique_node_counts() {
    let fetched_at = chrono::Utc::now().timestamp_micros();
    let shared_person = discovery_user(2, "shared", None);
    let shared_repository = discovery_repository(20, "shared/tool");
    let summary = graph_expansion_summary(UserNeighborhood {
        user: discovery_user(1, "seed", Some(fetched_at)),
        followers: vec![shared_person.clone(), discovery_user(3, "follower", None)],
        following: vec![shared_person, discovery_user(4, "following", None)],
        starred_repositories: vec![
            shared_repository.clone(),
            discovery_repository(21, "other/starred"),
        ],
        owned_repositories: vec![shared_repository],
        coverage: GraphImportCoverage::default(),
    });

    assert_eq!(summary.login, "seed");
    assert_eq!(
        summary.counts,
        GraphExpansionCounts {
            followers: 2,
            following: 2,
            starred_repositories: 2,
            repositories: 1,
            unique_users: 4,
            unique_repositories: 2,
            unique_nodes: 6,
        }
    );
    assert_eq!(summary.last_fetched_at, Some(fetched_at));
    assert_eq!(summary.coverage, GraphImportCoverage::default());
}

#[test]
fn crawl_frontier_prioritizes_following_and_deduplicates_people_and_repositories() {
    let shared_person = discovery_user(2, "Shared", None);
    let shared_repository = discovery_repository(20, "shared/tool");
    let neighborhood = UserNeighborhood {
        user: discovery_user(1, "Seed", None),
        followers: vec![shared_person.clone(), discovery_user(3, "Follower", None)],
        following: vec![shared_person, discovery_user(4, "Following", None)],
        starred_repositories: vec![shared_repository.clone()],
        owned_repositories: vec![shared_repository],
        coverage: GraphImportCoverage::default(),
    };
    let expanded = vec!["seed".to_string()];
    let mut queued = vec!["seed".to_string()];
    let mut frontier = VecDeque::new();
    let mut users = Vec::new();
    let mut repositories = Vec::new();

    collect_crawl_neighborhood(
        &neighborhood,
        &expanded,
        &mut queued,
        &mut frontier,
        &mut users,
        &mut repositories,
    );

    assert_eq!(
        frontier.into_iter().collect::<Vec<_>>(),
        vec![
            "shared".to_string(),
            "following".to_string(),
            "follower".to_string()
        ]
    );
    assert_eq!(users.into_iter().collect::<HashSet<_>>(), HashSet::from([1, 2, 3, 4]));
    assert_eq!(repositories.into_iter().collect::<HashSet<_>>(), HashSet::from([20]));
}

fn rate(remaining: usize) -> GitHubRateLimitStatus {
    GitHubRateLimitStatus {
        limit: 5_000,
        used: 0,
        remaining,
        reset_at: 0,
        checked_at: 0,
    }
}

#[test]
fn a_crawl_visits_each_login_once_and_stops_at_its_caps() {
    assert!(matches!(
        CrawlState::start("   "),
        Err(AppError::Validation(message)) if message == "github login cannot be empty"
    ));
    let mut state = CrawlState::start(" Seed ").expect("seed");
    let step = state.next_step(10, 100);
    assert!(matches!(step, CrawlStep::Visit(ref login) if login == "seed"));
    let neighborhood = UserNeighborhood {
        user: discovery_user(1, "seed", None),
        followers: vec![discovery_user(2, "seed", None)],
        following: vec![discovery_user(3, "next", None)],
        starred_repositories: Vec::new(),
        owned_repositories: Vec::new(),
        coverage: GraphImportCoverage::default(),
    };
    assert!(matches!(state.record_expansion(Ok(neighborhood)), CrawlProgress::Continue));
    assert_eq!(state.expansions, 1);
    assert!(matches!(state.next_step(10, 100), CrawlStep::Visit(ref login) if login == "next"));
    assert!(matches!(
        state.next_step(10, 100),
        CrawlStep::Stop(GraphCrawlStopReason::FrontierExhausted)
    ));
    assert!(matches!(
        state.next_step(1, 100),
        CrawlStep::Stop(GraphCrawlStopReason::MaxExpansionsReached)
    ));
    assert!(matches!(
        state.next_step(10, 2),
        CrawlStep::Stop(GraphCrawlStopReason::NodeSafetyCapReached)
    ));
    let summary = state.summary("seed".to_string(), 1_000, rate(5_000), rate(4_987), GraphCrawlStopReason::FrontierExhausted);
    assert_eq!(summary.unique_users, 3);
    assert_eq!(summary.unique_nodes, 3);
    assert_eq!(summary.frontier_remaining, 0);
}

#[test]
fn expansion_failures_skip_users_until_ten_in_a_row() {
    let mut state = CrawlState::start("seed").expect("seed");
    for _ in 0..9 {
        assert!(matches!(
            state.record_expansion(Err(AppError::External("down".to_string()))),
            CrawlProgress::Continue
        ));
    }
    assert_eq!(state.skipped_users, 9);
    assert!(matches!(
        state.record_expansion(Err(AppError::External("down".to_string()))),
        CrawlProgress::Abort(AppError::External(_))
    ));
    let mut state = CrawlState::start("seed").expect("seed");
    assert!(matches!(
        state.record_expansion(Err(AppError::GraphCapacityExceeded {
            resource: "nodes".to_string(),
            current_count: 1,
            incoming_count: 2,
            projected_count: 3,
            maximum_count: 2,
        })),
        CrawlProgress::Stop(GraphCrawlStopReason::DatabaseCapacityReached)
    ));
    assert_eq!(state.capacity_stop.as_ref().map(|s| s.projected_count), Some(3));
    assert!(matches!(
        state.record_expansion(Err(AppError::RateBudgetReserved {
            operation: "x".to_string(),
            remaining: 1,
            reserve: 1000,
            requested_cost: 13,
            reset_at: 0,
        })),
        CrawlProgress::Stop(GraphCrawlStopReason::RequestReserveReached)
    ));
}

#[test]
fn crawl_options_and_reserve_checks() {
    assert!(validate_crawl_options(1_000, 1, 1).is_ok());
    assert!(matches!(validate_crawl_options(999, 1, 1), Err(AppError::Validation(_))));
    assert!(matches!(validate_crawl_options(1_000, 0, 1), Err(AppError::Validation(_))));
    assert!(reserve_allows_expansion(1_013, 1_000));
    assert!(!reserve_allows_expansion(1_012, 1_000));
    assert!(!reserve_allows_expansion(5, 1));
}
