use gitexplore::bookmarks::{Bookmark, BookmarkTarget};
use gitexplore::error::AppError;
use gitexplore::graph::{CacheStatus, GitHubRateLimitStatus, GitHubUserNode};
use gitexplore::graphql::{
    error_code, graphql_error_details, insight_limit, repository_limit, CacheStatusObject,
    GitHubRateLimitObject, GraphUserObject, SavedRepositoryObject,
};
use gitexplore::numbers::saturating_i32;

#[test]
fn rate_budget_errors_include_reset_aware_graphql_extensions() {
    let reset_at = chrono::Utc::now().timestamp_micros() + 30 * 60_000_000;
    let details = graphql_error_details(&AppError::RateBudgetReserved {
        operation: "repository contributor refresh".to_string(),
        remaining: 1_000,
        reserve: 1_000,
        requested_cost: 1,
        reset_at,
    });
    assert_eq!(details.code, "RATE_BUDGET_RESERVED");
    let rate = details.rate_budget.expect("rate-budget extensions");
    assert_eq!(rate.remaining, 1_000);
    assert_eq!(rate.reserve, 1_000);
    assert_eq!(rate.requested_cost, 1);
    assert_eq!(rate.reset_at, reset_at);
    assert!(details.graph_capacity.is_none());
}

#[test]
fn graph_capacity_errors_include_projected_count_extensions() {
    let details = graphql_error_details(&AppError::GraphCapacityExceeded {
        resource: "relationships".to_string(),
        current_count: 379_500,
        incoming_count: 600,
        projected_count: 380_100,
        maximum_count: 380_000,
    });
    assert_eq!(details.code, "GRAPH_CAPACITY_EXCEEDED");
    let capacity = details.graph_capacity.expect("capacity extensions");
    assert_eq!(capacity.resource, "relationships");
    assert_eq!(capacity.current_count, 379_500);
    assert_eq!(capacity.incoming_count, 600);
    assert_eq!(capacity.projected_count, 380_100);
    assert_eq!(capacity.maximum_count, 380_000);
    assert_eq!(details.message, "graph capacity exceeded: relationships");
}

#[test]
fn limits_codes_and_counts_convert_exactly() {
    assert_eq!(repository_limit(1), Ok(1));
    assert_eq!(repository_limit(100), Ok(100));
    assert!(repository_limit(0).is_err());
    assert!(insight_limit(101).is_err());
    assert_eq!(error_code(&AppError::Validation("x".to_string())), "BAD_USER_INPUT");
    assert_eq!(error_code(&AppError::Io("x".to_string())), "STORAGE_ERROR");
    assert_eq!(saturating_i32(u64::MAX), i32::MAX);
    assert_eq!(saturating_i32(7), 7);
    assert_eq!(CacheStatusObject::from_status(CacheStatus::RefreshFailed), CacheStatusObject::RefreshFailed);
    let limit = GitHubRateLimitObject::from_status(&GitHubRateLimitStatus {
        limit: 5_000,
        used: 10,
        remaining: 4_990,
        reset_at: 1,
        checked_at: 2,
    });
    assert_eq!(limit.remaining, 4_990);
    let user = GraphUserObject::from_user(GitHubUserNode {
        github_id: -5,
        login: "x".to_string(),
        followers_count: Some(3_000_000_000),
        ..Default::default()
    });
    assert_eq!(user.github_id, "-5");
    assert_eq!(user.followers_count, Some(i32::MAX));
}

#[test]
fn saved_objects_are_repositories_only() {
    let saved = SavedRepositoryObject::from_bookmark(Bookmark {
        id: "b".to_string(),
        target: BookmarkTarget::GitHubRepository { full_name: "acme/tool".to_string() },
        categories: vec!["rust".to_string()],
        note: None,
        created_at: 5,
    })
    .expect("repository bookmark");
    assert_eq!(saved.full_name, "acme/tool");
    assert!(matches!(
        SavedRepositoryObject::from_bookmark(Bookmark {
            id: "b".to_string(),
            target: BookmarkTarget::GitHubUser { login: "alice".to_string() },
            categories: Vec::new(),
            note: None,
            created_at: 5,
        }),
        Err(AppError::Validation(_))
    ));
}
