use gitexplore::aliases::{rename_repository_alias, rename_user_alias};
use gitexplore::bookmarks::{update_bookmark_aliases, Bookmark, BookmarkTarget};
use gitexplore::graph::{GitHubRepositoryNode, GitHubUserNode, GraphImport, GraphImportCoverage};
use gitexplore::imports::upsert_import;
use gitexplore::store::SharedGraphStore;

const HOURS_6: i64 = 6 * 3_600_000_000;

fn user(id: i64, login: &str) -> GitHubUserNode {
    GitHubUserNode {
        github_id: id,
        login: login.to_string(),
        url: format!("https://github.com/{login}"),
        ..Default::default()
    }
}

fn repository(id: i64, owner: &str, name: &str) -> GitHubRepositoryNode {
    GitHubRepositoryNode {
        github_id: id,
        owner_login: owner.to_string(),
        name: name.to_string(),
        full_name: format!("{owner}/{name}"),
        html_url: format!("https://github.com/{owner}/{name}"),
        ..Default::default()
    }
}

fn pair(a: &str, b: &str) -> (String, String) {
    (a.to_string(), b.to_string())
}

fn has_user(store: &SharedGraphStore, login: &str) -> bool {
    store.users.iter().any(|u| u.login == login)
}

#[test]
fn case_only_alias_changes_relocate_stable_local_nodes_and_bookmarks() {
    let mut store = SharedGraphStore::default();
    let fetched_at = 1_000;
    upsert_import(
        &mut store,
        GraphImport {
            viewer: Some(user(1, "Alice")),
            followers: vec![user(2, "Bob")],
            repositories: vec![repository(10, "Alice", "Tool")],
            ..Default::default()
        },
        fetched_at,
        fetched_at + HOURS_6,
    );
    let mut bookmarks = vec![Bookmark {
        id: "bookmark".to_string(),
        target: BookmarkTarget::GitHubRepository { full_name: "Alice/Tool".to_string() },
        categories: Vec::new(),
        note: None,
        created_at: fetched_at,
    }];

    let (user_changes, repository_changes) = upsert_import(
        &mut store,
        GraphImport {
            viewer: Some(user(1, "alice")),
            followers: vec![user(2, "bob")],
            repositories: vec![repository(10, "alice", "tool")],
            ..Default::default()
        },
        fetched_at,
        fetched_at + HOURS_6,
    );
    update_bookmark_aliases(&mut bookmarks, &user_changes, &repository_changes);

    assert_eq!(store.users.iter().filter(|u| u.github_id == 1).count(), 1);
    assert!(has_user(&store, "alice"));
    assert!(!has_user(&store, "Alice"));
    assert_eq!(store.repositories.iter().filter(|r| r.github_id == 10).count(), 1);
    assert!(store.repositories.iter().any(|r| r.full_name == "alice/tool"));
    assert!(matches!(
        &bookmarks[0].target,
        BookmarkTarget::GitHubRepository { full_name } if full_name == "alice/tool"
    ));
    assert!(store.follows.contains(&pair("bob", "alice")));
    assert!(!store.follows.iter().any(|(a, b)| a == "Bob" || b == "Alice"));
    assert!(store.member_of.contains(&pair("alice", "alice/tool")));
}

#[test]
fn an_import_without_a_viewer_changes_nothing() {
    let mut store = SharedGraphStore::default();
    upsert_import(&mut store, GraphImport { viewer: Some(user(1, "a")), ..Default::default() }, 0, 1);
    let users_before = store.users.len();
    let (u, r) = upsert_import(
        &mut store,
        GraphImport { followers: vec![user(9, "z")], ..Default::default() },
        5,
        6,
    );
    assert!(u.is_empty() && r.is_empty());
    assert_eq!(store.users.len(), users_before);
    assert!(!has_user(&store, "z"));
}

#[test]
fn a_login_taken_by_another_account_moves_to_a_placeholder() {
    let mut store = SharedGraphStore::default();
    upsert_import(&mut store, GraphImport { viewer: Some(user(2, "bob")), ..Default::default() }, 0, 1);
    let (changes, _) = upsert_import(
        &mut store,
        GraphImport { viewer: Some(user(1, "BOB")), ..Default::default() },
        0,
        1,
    );
    assert_eq!(changes, vec![pair("bob", "__gitexplore-user-2")]);
    assert!(has_user(&store, "BOB"));
    assert!(has_user(&store, "__gitexplore-user-2"));
    assert!(!has_user(&store, "bob"));
}

#[test]
fn complete_collections_replace_the_viewers_old_pairs() {
    let mut store = SharedGraphStore::default();
    upsert_import(
        &mut store,
        GraphImport {
            viewer: Some(user(1, "v")),
            followers: vec![user(2, "old-follower")],
            following: vec![user(3, "old-followed")],
            ..Default::default()
        },
        0,
        10,
    );
    let coverage = GraphImportCoverage {
        followers_complete: false,
        following_complete: true,
        starred_repositories_complete: true,
        repositories_complete: true,
    };
    upsert_import(
        &mut store,
        GraphImport { viewer: Some(user(1, "v")), coverage, ..Default::default() },
        100,
        200,
    );
    assert!(store.follows.contains(&pair("old-follower", "v")));
    assert!(!store.follows.contains(&pair("v", "old-followed")));
    let cache = &store.user_cache.iter().find(|(k, _)| k == "v").unwrap().1;
    assert_eq!(cache.last_fetched_at, Some(100));
    assert_eq!(cache.stale_at, Some(100));
    let stored = store.user_coverage.iter().find(|(k, _)| k == "v").unwrap().1;
    assert_eq!(stored, coverage);
}

#[test]
fn renaming_a_user_follows_every_relation_and_owner() {
    let mut store = SharedGraphStore {
        users: vec![user(1, "old")],
        repositories: vec![repository(10, "Old", "tool")],
        follows: vec![pair("OLD", "x"), pair("x", "old"), pair("x", "y")],
        starred: vec![pair("old", "a/b")],
        member_of: vec![pair("old", "Old/tool")],
        ..Default::default()
    };
    rename_user_alias(&mut store, "old", "new");
    assert!(has_user(&store, "new") && !has_user(&store, "old"));
    assert_eq!(store.users[0].login, "new");
    let mut follows = store.follows.clone();
    follows.sort();
    assert_eq!(follows, vec![pair("new", "x"), pair("x", "new"), pair("x", "y")]);
    assert_eq!(store.starred, vec![pair("new", "a/b")]);
    assert_eq!(store.member_of, vec![pair("new", "Old/tool")]);
    assert_eq!(store.repositories[0].owner_login, "new");
    rename_repository_alias(&mut store, "Old/tool", "new/tool");
    assert_eq!(store.repositories[0].full_name, "new/tool");
    assert_eq!(store.member_of, vec![pair("new", "new/tool")]);
}
