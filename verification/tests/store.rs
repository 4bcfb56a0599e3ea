use gitexplore::bookmarks::{Bookmark, BookmarkTarget};
use gitexplore::error::AppError;
use gitexplore::exploration::ExplorationSeed;
use gitexplore::graph::{CacheMetadata, CacheStatus, GitHubRepositoryNode, GitHubUserNode, GraphImportCoverage};
use gitexplore::store::{
    explore_and_record, explore_graph, exploration_result, resolve_shared_login, resolve_shared_repository_name,
    resolve_target_in_store, user_neighborhood, SharedGraphStore,
};

fn user(id: i64, login: &str) -> GitHubUserNode {
    GitHubUserNode {
        github_id: id,
        login: login.to_string(),
        url: format!("https://github.com/{login}"),
        ..Default::default()
    }
}

fn repository(id: i64, full_name: &str, stars: u64) -> GitHubRepositoryNode {
    let owner = full_name.split('/').next().unwrap_or_default().to_string();
    GitHubRepositoryNode {
        github_id: id,
        owner_login: owner,
        name: full_name.rsplit('/').next().unwrap_or_default().to_string(),
        full_name: full_name.to_string(),
        html_url: format!("https://github.com/{full_name}"),
        stargazer_count: stars,
        ..Default::default()
    }
}

fn pair(a: &str, b: &str) -> (String, String) {
    (a.to_string(), b.to_string())
}

fn sorted(mut v: Vec<String>) -> Vec<String> {
    v.sort();
    v
}

fn graph() -> SharedGraphStore {
    SharedGraphStore {
        users: vec![user(1, "alice"), user(2, "bob"), user(3, "carol"), user(4, "zed")],
        repositories: vec![
            repository(10, "alice/tool", 5),
            repository(11, "bob/x", 7),
            repository(12, "alice/other", 1),
            repository(13, "dave/lib", 3),
        ],
        follows: vec![pair("bob", "alice"), pair("alice", "carol"), pair("zed", "alice")],
        starred: vec![pair("alice", "dave/lib"), pair("bob", "alice/tool"), pair("bob", "bob/x")],
        member_of: vec![pair("alice", "alice/tool"), pair("alice", "alice/other")],
        user_cache: vec![(
            "alice".to_string(),
            CacheMetadata {
                last_fetched_at: Some(100),
                stale_at: Some(200),
                refresh_started_at: None,
                last_refresh_error: None,
            },
        )],
        ..Default::default()
    }
}

#[test]
fn exploring_a_user_finds_their_neighbours_and_repositories() {
    let found = explore_graph(
        &graph(),
        &Vec::new(),
        &ExplorationSeed::User { login: "alice".to_string() },
        150,
    )
    .unwrap();
    assert_eq!(sorted(found.related_people), vec!["bob", "carol", "zed"]);
    assert_eq!(sorted(found.related_repositories), vec!["alice/other", "alice/tool", "dave/lib"]);
    assert_eq!(found.cache_status, CacheStatus::Fresh);
    assert_eq!(found.last_fetched_at, Some(100));
    assert!(found.refresh_job_status.is_none());
}

#[test]
fn exploring_a_repository_finds_its_holders_and_their_other_repositories() {
    let found = explore_graph(
        &graph(),
        &Vec::new(),
        &ExplorationSeed::Repository { full_name: "alice/tool".to_string() },
        150,
    )
    .unwrap();
    assert_eq!(sorted(found.related_people), vec!["alice", "bob"]);
    assert_eq!(sorted(found.related_repositories), vec!["alice/other", "bob/x", "dave/lib"]);
    assert_eq!(found.cache_status, CacheStatus::Stale);
    assert_eq!(found.last_fetched_at, None);
}

#[test]
fn exploring_an_unsynced_seed_is_refused() {
    for seed in [
        ExplorationSeed::User { login: "nobody".to_string() },
        ExplorationSeed::Repository { full_name: "no/where".to_string() },
    ] {
        match explore_graph(&graph(), &Vec::new(), &seed, 0) {
            Err(AppError::Validation(message)) => assert_eq!(message, "run sync before exploring"),
            other => panic!("unexpected {other:?}", other = other.is_ok()),
        }
    }
}

#[test]
fn exploring_a_category_lists_its_bookmarked_people_and_repositories() {
    let bookmarks = vec![
        Bookmark {
            id: "1".to_string(),
            target: BookmarkTarget::GitHubUser { login: "bob".to_string() },
            categories: vec!["rust".to_string()],
            note: None,
            created_at: 0,
        },
        Bookmark {
            id: "2".to_string(),
            target: BookmarkTarget::GitHubRepository { full_name: "bob/x".to_string() },
            categories: vec!["go".to_string(), "rust".to_string()],
            note: None,
            created_at: 0,
        },
        Bookmark {
            id: "3".to_string(),
            target: BookmarkTarget::GitHubRepository { full_name: "alice/tool".to_string() },
            categories: vec!["go".to_string()],
            note: None,
            created_at: 0,
        },
    ];
    let found = explore_graph(
        &SharedGraphStore::default(),
        &bookmarks,
        &ExplorationSeed::Category { name: "rust".to_string() },
        0,
    )
    .unwrap();
    assert_eq!(found.related_people, vec!["bob"]);
    assert_eq!(found.related_repositories, vec!["bob/x"]);
    assert_eq!(found.cache_status, CacheStatus::Fresh);
    let result = exploration_result(
        ExplorationSeed::Category { name: "rust".to_string() },
        found,
        "snapshot-1".to_string(),
        42,
    );
    assert_eq!(result.saved_snapshot.id, "snapshot-1");
    assert_eq!(result.saved_snapshot.generated_at, 42);
    assert_eq!(result.saved_snapshot.discovered_people, vec!["bob"]);
    assert_eq!(result.related_repositories, vec!["bob/x"]);
    assert!(result.refresh_started_at.is_none() && result.last_refresh_error.is_none());
}

#[test]
fn legacy_graph_without_coverage_loads_as_incomplete_and_stale() {
    let neighborhood = user_neighborhood(&graph(), None, "alice", 150).unwrap();
    assert_eq!(neighborhood.coverage, GraphImportCoverage::incomplete());
    assert_eq!(neighborhood.user.neighborhood_cache_status, CacheStatus::Stale);
}

#[test]
fn neighborhood_lists_sorted_neighbours_and_marks_saved_repositories() {
    let mut store = graph();
    store.user_coverage.push(("alice".to_string(), GraphImportCoverage::default()));
    let bookmarks = vec![Bookmark {
        id: "1".to_string(),
        target: BookmarkTarget::GitHubRepository { full_name: "alice/tool".to_string() },
        categories: Vec::new(),
        note: None,
        created_at: 0,
    }];
    let n = user_neighborhood(&store, Some(&bookmarks), "ALICE", 150).unwrap();
    assert_eq!(n.user.profile.login, "alice");
    assert_eq!(n.user.neighborhood_cache_status, CacheStatus::Fresh);
    let followers: Vec<_> = n.followers.iter().map(|d| d.profile.login.clone()).collect();
    assert_eq!(followers, vec!["bob", "zed"]);
    let following: Vec<_> = n.following.iter().map(|d| d.profile.login.clone()).collect();
    assert_eq!(following, vec!["carol"]);
    let owned: Vec<_> = n
        .owned_repositories
        .iter()
        .map(|r| (r.repository.full_name.clone(), r.saved))
        .collect();
    assert_eq!(owned, vec![("alice/other".to_string(), false), ("alice/tool".to_string(), true)]);
    let starred: Vec<_> = n.starred_repositories.iter().map(|r| r.repository.full_name.clone()).collect();
    assert_eq!(starred, vec!["dave/lib"]);
}

#[test]
fn unknown_logins_are_reported_as_absent() {
    match user_neighborhood(&graph(), None, "Nobody", 0) {
        Err(AppError::NotFound(message)) => {
            assert_eq!(message, "github user `Nobody` is not present in the shared graph")
        }
        _ => panic!("expected not found"),
    }
}

#[test]
fn stored_names_resolve_ignoring_ascii_case() {
    let store = graph();
    assert_eq!(resolve_shared_login(&store, "alice").as_deref(), Some("alice"));
    assert_eq!(resolve_shared_login(&store, "ALICE").as_deref(), Some("alice"));
    assert_eq!(resolve_shared_login(&store, "nobody"), None);
    assert_eq!(resolve_shared_repository_name(&store, "Bob/X").as_deref(), Some("bob/x"));
    assert!(resolve_target_in_store(
        &store,
        &BookmarkTarget::GitHubRepository { full_name: "Alice/Tool".to_string() }
    )
    .is_ok());
    match resolve_target_in_store(&store, &BookmarkTarget::GitHubUser { login: "ghost".to_string() }) {
        Err(AppError::NotFound(message)) => {
            assert_eq!(message, "bookmark target not found in imported graph")
        }
        _ => panic!("expected not found"),
    }
}

#[test]
fn an_exploration_is_saved_to_the_end_of_the_history_and_a_refusal_saves_nothing() {
    let store = graph();
    let mut history = Vec::new();
    let first = explore_and_record(
        &store,
        &Vec::new(),
        &mut history,
        ExplorationSeed::User { login: "alice".to_string() },
        "s1".to_string(),
        7,
    )
    .unwrap();
    assert_eq!(history.len(), 1);
    assert_eq!(history[0].id, "s1");
    assert_eq!(history[0].generated_at, 7);
    assert_eq!(history[0].discovered_people, first.related_people);
    let refused = explore_and_record(
        &store,
        &Vec::new(),
        &mut history,
        ExplorationSeed::User { login: "nobody".to_string() },
        "s2".to_string(),
        8,
    );
    assert!(matches!(refused, Err(AppError::Validation(_))));
    assert_eq!(history.len(), 1);
    explore_and_record(
        &store,
        &Vec::new(),
        &mut history,
        ExplorationSeed::Repository { full_name: "bob/x".to_string() },
        "s3".to_string(),
        9,
    )
    .unwrap();
    let ids: Vec<&str> = history.iter().map(|s| s.id.as_str()).collect();
    assert_eq!(ids, vec!["s1", "s3"]);
}
