use gitexplore::bookmarks::{Bookmark, BookmarkTarget};
use gitexplore::candidates::repository_candidate_signals;
use gitexplore::error::AppError;
use gitexplore::graph::{GitHubRepositoryNode, GitHubUserNode};
use gitexplore::store::SharedGraphStore;

fn user(id: i64, login: &str) -> GitHubUserNode {
    GitHubUserNode { github_id: id, login: login.to_string(), ..Default::default() }
}

fn repository(id: i64, full_name: &str, language: Option<&str>) -> GitHubRepositoryNode {
    GitHubRepositoryNode {
        github_id: id,
        full_name: full_name.to_string(),
        language: language.map(str::to_string),
        ..Default::default()
    }
}

fn pair(a: &str, b: &str) -> (String, String) {
    (a.to_string(), b.to_string())
}

fn graph() -> SharedGraphStore {
    SharedGraphStore {
        users: vec![user(1, "alice"), user(2, "bob"), user(3, "carol"), user(4, "dave")],
        repositories: vec![
            repository(10, "alice/own", Some("Rust")),
            repository(11, "x/lib", Some("Go")),
            repository(12, "bob/tool", None),
            repository(13, "z/zz", None),
        ],
        follows: vec![pair("alice", "bob"), pair("carol", "alice")],
        starred: vec![
            pair("bob", "x/lib"),
            pair("carol", "x/lib"),
            pair("bob", "alice/own"),
            pair("dave", "z/zz"),
        ],
        member_of: vec![pair("alice", "alice/own"), pair("bob", "bob/tool"), pair("carol", "ghost/missing")],
        ..Default::default()
    }
}

#[test]
fn candidates_are_what_the_network_stars_or_owns_and_the_user_does_not() {
    let bookmarks = vec![Bookmark {
        id: "b".to_string(),
        target: BookmarkTarget::GitHubRepository { full_name: "x/lib".to_string() },
        categories: Vec::new(),
        note: None,
        created_at: 0,
    }];
    let (mut candidates, languages) =
        repository_candidate_signals(&graph(), Some(&bookmarks), "Alice").unwrap();
    assert_eq!(languages, vec!["rust"]);
    candidates.sort_by(|a, b| a.repository.full_name.cmp(&b.repository.full_name));
    let names: Vec<_> = candidates.iter().map(|c| c.repository.full_name.clone()).collect();
    assert_eq!(names, vec!["bob/tool", "x/lib"]);

    let tool = &candidates[0];
    assert!(!tool.saved);
    assert_eq!(tool.graph_signals.recommenders, 1);
    assert_eq!(tool.graph_signals.followed_recommenders, 1);
    assert_eq!(tool.graph_signals.follower_recommenders, 0);
    assert_eq!(tool.graph_signals.starred_by_recommenders, 0);
    assert_eq!(tool.graph_signals.owned_by_recommenders, 1);
    assert_eq!(tool.via_logins, vec!["bob"]);

    let lib = &candidates[1];
    assert!(lib.saved);
    assert_eq!(lib.repository.language.as_deref(), Some("Go"));
    assert_eq!(lib.graph_signals.recommenders, 2);
    assert_eq!(lib.graph_signals.followed_recommenders, 1);
    assert_eq!(lib.graph_signals.follower_recommenders, 1);
    assert_eq!(lib.graph_signals.starred_by_recommenders, 2);
    assert_eq!(lib.graph_signals.owned_by_recommenders, 0);
    let mut via = lib.via_logins.clone();
    via.sort();
    assert_eq!(via, vec!["bob", "carol"]);
}

#[test]
fn candidates_for_an_unknown_login_are_refused() {
    match repository_candidate_signals(&graph(), None, "nobody") {
        Err(AppError::NotFound(message)) => {
            assert_eq!(message, "github user `nobody` is not present in the shared graph")
        }
        _ => panic!("expected not found"),
    }
}
