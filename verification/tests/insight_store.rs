use gitexplore::error::AppError;
use gitexplore::graph::{CacheMetadata, GitHubRepositoryNode, GitHubUserNode};
use gitexplore::insight_store::{
    begin_repository_contributor_refresh, begin_user_commit_repository_refresh,
    cached_repository_contributors, cached_user_commit_repositories,
    fail_repository_contributor_refresh, fail_user_commit_repository_refresh,
    save_repository_contributors, save_user_commit_repositories, stored_repository_contributors,
    stored_user_commit_repositories,
};
use gitexplore::insights::{
    RepositoryContributor, RepositoryContributorInsights, UserCommitRepository,
    UserCommitRepositoryInsights, REFRESH_RETRY_MICROS,
};
use gitexplore::store::SharedGraphStore;

const NOW: i64 = 1_700_000_000_000_000;

fn user(id: i64, login: &str) -> GitHubUserNode {
    GitHubUserNode {
        github_id: id,
        login: login.to_string(),
        url: format!("https://github.com/{login}"),
        name: Some(format!("Name {login}")),
        ..Default::default()
    }
}

fn repository(id: i64, full_name: &str) -> GitHubRepositoryNode {
    let (owner, name) = full_name.split_once('/').unwrap();
    GitHubRepositoryNode {
        github_id: id,
        owner_login: owner.to_string(),
        name: name.to_string(),
        full_name: full_name.to_string(),
        html_url: format!("https://github.com/{full_name}"),
        stargazer_count: 9,
        pushed_at: Some(NOW - 10),
        ..Default::default()
    }
}

fn fresh_cache() -> CacheMetadata {
    CacheMetadata {
        last_fetched_at: Some(NOW - 100),
        stale_at: Some(NOW + 1_000),
        refresh_started_at: None,
        last_refresh_error: None,
    }
}

fn contributor(id: i64, login: &str, contributions: u64) -> RepositoryContributor {
    RepositoryContributor {
        github_id: id,
        login: login.to_string(),
        avatar_url: None,
        url: format!("https://github.com/{login}"),
        contributions,
    }
}

fn activity(id: i64, full_name: &str, commits: u64, pushes: u64, at: i64) -> UserCommitRepository {
    UserCommitRepository {
        github_id: id,
        full_name: full_name.to_string(),
        url: format!("https://github.com/{full_name}"),
        push_count: pushes,
        commit_count: commits,
        last_pushed_at: at,
    }
}

fn graph() -> SharedGraphStore {
    SharedGraphStore {
        users: vec![user(1, "Alice"), user(2, "bob")],
        repositories: vec![repository(10, "Alice/Tool"), repository(11, "bob/x")],
        repository_contributor_insights: vec![RepositoryContributorInsights {
            full_name: "Alice/Tool".to_string(),
            contributors: vec![contributor(2, "bob", 3)],
            source_complete: true,
            cache: fresh_cache(),
        }],
        user_commit_repository_insights: vec![UserCommitRepositoryInsights {
            login: "bob".to_string(),
            repositories: vec![activity(11, "bob/x", 1, 1, NOW - 5)],
            source_event_count: 1,
            source_truncated: false,
            cache: fresh_cache(),
        }],
        ..Default::default()
    }
}

#[test]
fn stored_insights_are_found_under_any_case_of_the_name() {
    let store = graph();
    let found = stored_repository_contributors(&store, "alice/tool").unwrap();
    assert_eq!(found.full_name, "Alice/Tool");
    assert!(stored_repository_contributors(&store, "bob/x").is_none());
    assert!(stored_repository_contributors(&store, "nobody/none").is_none());
    assert_eq!(stored_user_commit_repositories(&store, "BOB").unwrap().login, "bob");
    assert!(stored_user_commit_repositories(&store, "alice").is_none());
}

#[test]
fn a_refresh_is_claimed_once_and_a_failure_waits_for_the_retry() {
    let mut store = graph();
    assert!(begin_repository_contributor_refresh(&mut store, "alice/TOOL", NOW));
    assert_eq!(
        store.repository_contributor_insights[0].cache.refresh_started_at,
        Some(NOW)
    );
    assert!(!begin_repository_contributor_refresh(&mut store, "Alice/Tool", NOW + 1));
    fail_repository_contributor_refresh(&mut store, "Alice/Tool", "boom", NOW + 2);
    let cache = &store.repository_contributor_insights[0].cache;
    assert_eq!(cache.refresh_started_at, None);
    assert_eq!(cache.last_refresh_error.as_deref(), Some("boom"));
    assert_eq!(cache.stale_at, Some(NOW + 2 + REFRESH_RETRY_MICROS));
    assert!(!begin_repository_contributor_refresh(&mut store, "Alice/Tool", NOW + 3));
    assert!(begin_repository_contributor_refresh(
        &mut store,
        "Alice/Tool",
        NOW + 3 + REFRESH_RETRY_MICROS
    ));
    assert!(!begin_repository_contributor_refresh(&mut store, "bob/x", NOW));
}

#[test]
fn commit_refreshes_follow_the_same_life_cycle() {
    let mut store = graph();
    assert!(begin_user_commit_repository_refresh(&mut store, "Bob", NOW));
    assert!(!begin_user_commit_repository_refresh(&mut store, "bob", NOW));
    fail_user_commit_repository_refresh(&mut store, "bob", "rate limited", NOW);
    let cache = &store.user_commit_repository_insights[0].cache;
    assert_eq!(cache.last_refresh_error.as_deref(), Some("rate limited"));
    assert_eq!(cache.refresh_started_at, None);
    assert!(!begin_user_commit_repository_refresh(&mut store, "alice", NOW));
    fail_user_commit_repository_refresh(&mut store, "alice", "ignored", NOW);
    assert_eq!(store.user_commit_repository_insights.len(), 1);
}

#[test]
fn saved_contributors_are_sorted_and_merged_into_the_users() {
    let mut store = graph();
    let insights = RepositoryContributorInsights {
        full_name: "ALICE/tool".to_string(),
        contributors: vec![
            contributor(3, "carol", 5),
            contributor(1, "Alice", 9),
            contributor(2, "bob", 5),
        ],
        source_complete: false,
        cache: fresh_cache(),
    };
    let changes = save_repository_contributors(&mut store, insights).unwrap();
    assert!(changes.is_empty());
    let saved = stored_repository_contributors(&store, "alice/tool").unwrap();
    assert_eq!(saved.full_name, "Alice/Tool");
    let logins: Vec<&str> = saved.contributors.iter().map(|c| c.login.as_str()).collect();
    assert_eq!(logins, vec!["Alice", "bob", "carol"]);
    assert!(!saved.source_complete);
    let alice = store.users.iter().find(|u| u.login == "Alice").unwrap();
    assert_eq!(alice.name.as_deref(), Some("Name Alice"));
    let carol = store.users.iter().find(|u| u.login == "carol").unwrap();
    assert_eq!(carol.github_id, 3);
    assert_eq!(carol.name, None);
}

#[test]
fn a_renamed_contributor_moves_their_login() {
    let mut store = graph();
    let insights = RepositoryContributorInsights {
        full_name: "bob/x".to_string(),
        contributors: vec![contributor(2, "robert", 1)],
        source_complete: true,
        cache: fresh_cache(),
    };
    let changes = save_repository_contributors(&mut store, insights).unwrap();
    assert_eq!(changes, vec![("bob".to_string(), "robert".to_string())]);
    assert!(store.users.iter().any(|u| u.login == "robert" && u.github_id == 2));
    assert!(!store.users.iter().any(|u| u.login == "bob"));
}

#[test]
fn contributors_of_an_unknown_repository_are_refused() {
    let mut store = graph();
    let insights = RepositoryContributorInsights {
        full_name: "nobody/none".to_string(),
        contributors: vec![contributor(7, "x", 1)],
        source_complete: true,
        cache: fresh_cache(),
    };
    match save_repository_contributors(&mut store, insights) {
        Err(AppError::NotFound(message)) => assert_eq!(
            message,
            "github repository `nobody/none` is not present in the shared graph"
        ),
        other => panic!("unexpected {other:?}"),
    }
    assert_eq!(store.users.len(), 2);
}

#[test]
fn saved_commit_activity_is_ranked_and_merges_partial_repositories() {
    let mut store = graph();
    let insights = UserCommitRepositoryInsights {
        login: "BOB".to_string(),
        repositories: vec![
            activity(11, "bob/x", 2, 1, NOW - 50),
            activity(20, "carol/new", 4, 2, NOW - 1),
            activity(21, "dave/lib", 2, 3, NOW - 7),
        ],
        source_event_count: 6,
        source_truncated: false,
        cache: fresh_cache(),
    };
    let changes = save_user_commit_repositories(&mut store, insights).unwrap();
    assert!(changes.is_empty());
    let saved = stored_user_commit_repositories(&store, "bob").unwrap();
    let names: Vec<&str> = saved.repositories.iter().map(|r| r.full_name.as_str()).collect();
    assert_eq!(names, vec!["carol/new", "dave/lib", "bob/x"]);
    assert_eq!(saved.source_event_count, 6);
    let x = store.repositories.iter().find(|r| r.full_name == "bob/x").unwrap();
    assert_eq!(x.stargazer_count, 9);
    assert_eq!(x.pushed_at, Some(NOW - 10));
    assert_eq!(x.html_url, "https://github.com/bob/x");
    let new = store.repositories.iter().find(|r| r.full_name == "carol/new").unwrap();
    assert_eq!(new.owner_login, "carol");
    assert_eq!(new.name, "new");
    assert_eq!(new.pushed_at, Some(NOW - 1));
    assert_eq!(new.stargazer_count, 0);
}

#[test]
fn a_repository_name_without_an_owner_is_refused() {
    let mut store = graph();
    let insights = UserCommitRepositoryInsights {
        login: "bob".to_string(),
        repositories: vec![activity(30, "a/b", 5, 1, NOW), activity(31, "noslash", 1, 1, NOW)],
        source_event_count: 2,
        source_truncated: false,
        cache: fresh_cache(),
    };
    match save_user_commit_repositories(&mut store, insights) {
        Err(AppError::External(message)) => {
            assert_eq!(message, "GitHub event returned invalid repository name `noslash`")
        }
        other => panic!("unexpected {other:?}"),
    }
    assert!(store.repositories.iter().any(|r| r.full_name == "a/b"));
    assert_eq!(
        stored_user_commit_repositories(&store, "bob").unwrap().repositories.len(),
        1
    );
    let unknown = UserCommitRepositoryInsights {
        login: "nobody".to_string(),
        repositories: Vec::new(),
        source_event_count: 0,
        source_truncated: false,
        cache: fresh_cache(),
    };
    match save_user_commit_repositories(&mut store, unknown) {
        Err(AppError::NotFound(message)) => {
            assert_eq!(message, "github user `nobody` is not present in the shared graph")
        }
        other => panic!("unexpected {other:?}"),
    }
}

#[test]
fn fresh_insights_are_answered_without_a_refresh() {
    let mut store = graph();
    let (insights, claimed) = cached_repository_contributors(&mut store, "alice/tool", 10, NOW).unwrap();
    assert!(!claimed);
    assert_eq!(insights.contributors.len(), 1);
    assert_eq!(store.repository_contributor_insights[0].cache.refresh_started_at, None);
    assert!(cached_repository_contributors(&mut store, "bob/x", 10, NOW).is_none());
}

#[test]
fn stale_insights_claim_one_refresh_and_are_cut_to_the_limit() {
    let mut store = graph();
    store.user_commit_repository_insights[0].repositories.push(activity(12, "bob/y", 1, 1, NOW));
    let later = NOW + 2_000;
    let (insights, claimed) = cached_user_commit_repositories(&mut store, "BOB", 1, later).unwrap();
    assert!(claimed);
    assert_eq!(insights.repositories.len(), 1);
    assert_eq!(insights.cache.refresh_started_at, Some(later));
    assert_eq!(store.user_commit_repository_insights[0].cache.refresh_started_at, Some(later));
    let (_, again) = cached_user_commit_repositories(&mut store, "bob", 5, later + 1).unwrap();
    assert!(!again);
    assert!(cached_user_commit_repositories(&mut store, "alice", 5, later).is_none());
}
