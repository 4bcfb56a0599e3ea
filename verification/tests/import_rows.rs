use gitexplore::error::AppError;
use gitexplore::graph::{GitHubRepositoryNode, GitHubUserNode, GraphImport, GraphImportCoverage};
use gitexplore::import_rows::{
    contributor_import_rows, graph_import_plan, repository_import_rows, user_import_rows,
    viewer_import_row,
};
use gitexplore::imports::{import_graph, NEIGHBORHOOD_CACHE_MICROS};
use gitexplore::insights::RepositoryContributor;
use gitexplore::store::SharedGraphStore;

fn user(id: i64, login: &str) -> GitHubUserNode {
    GitHubUserNode { github_id: id, login: login.to_string(), ..Default::default() }
}

fn repository(id: i64, full_name: &str) -> GitHubRepositoryNode {
    GitHubRepositoryNode { github_id: id, full_name: full_name.to_string(), ..Default::default() }
}

#[test]
fn user_rows_keep_the_first_record_of_each_account() {
    let mut first = user(1, "Alice");
    first.name = Some("Alice A".to_string());
    first.followers_count = Some(u64::MAX);
    first.following_count = Some(12);
    let rows = user_import_rows(&vec![first, user(2, "bob"), user(1, "alice-again")]);
    assert_eq!(rows.len(), 2);
    assert_eq!(rows[0].login, "Alice");
    assert_eq!(rows[0].login_key, "alice");
    assert_eq!(rows[0].name, "Alice A");
    assert_eq!(rows[0].bio, "");
    assert_eq!(rows[0].followers_count, -1);
    assert_eq!(rows[0].following_count, 12);
    assert_eq!(rows[0].public_repositories_count, -1);
    assert_eq!(rows[1].login, "bob");
}

#[test]
fn the_viewer_row_casts_its_counts() {
    let mut viewer = user(9, "Viewer");
    viewer.followers_count = Some(u64::MAX);
    let row = viewer_import_row(&viewer);
    assert_eq!(row.followers_count, -1);
    assert_eq!(row.login_key, "viewer");
    viewer.followers_count = Some(1u64 << 63);
    assert_eq!(viewer_import_row(&viewer).followers_count, i64::MIN);
}

#[test]
fn repository_rows_fold_names_and_hold_counts_in_range() {
    let mut big = repository(5, "Org/Big");
    big.stargazer_count = u64::MAX;
    big.language = Some("Rust".to_string());
    big.topics = vec!["graphs".to_string()];
    big.pushed_at = Some(42);
    let rows = repository_import_rows(&vec![big, repository(5, "org/dup"), repository(6, "a/b")]);
    assert_eq!(rows.len(), 2);
    assert_eq!(rows[0].full_name_key, "org/big");
    assert_eq!(rows[0].stargazer_count, i64::MAX);
    assert_eq!(rows[0].language, "Rust");
    assert_eq!(rows[0].description, "");
    assert_eq!(rows[0].topics, vec!["graphs".to_string()]);
    assert_eq!(rows[0].pushed_at, Some(42));
    assert_eq!(rows[1].full_name, "a/b");
}

#[test]
fn contributor_rows_follow_the_contributors() {
    let rows = contributor_import_rows(&vec![RepositoryContributor {
        github_id: 3,
        login: "Carol".to_string(),
        avatar_url: None,
        url: "https://github.com/Carol".to_string(),
        contributions: 17,
    }]);
    assert_eq!(rows.len(), 1);
    assert_eq!(rows[0].login_key, "carol");
    assert_eq!(rows[0].avatar_url, "");
    assert_eq!(rows[0].contributions, 17);
}

#[test]
fn an_import_plan_needs_a_viewer_and_dates_its_freshness() {
    let missing = graph_import_plan(&GraphImport::default(), 100);
    match missing {
        Err(AppError::Validation(message)) => {
            assert_eq!(message, "viewer missing from GitHub graph import")
        }
        _ => panic!("expected a validation error"),
    }
    let import = GraphImport {
        viewer: Some(user(1, "alice")),
        followers: vec![user(2, "bob"), user(3, "carol")],
        following: vec![user(2, "bob")],
        starred_repositories: vec![repository(10, "x/y")],
        repositories: vec![repository(11, "alice/z"), repository(10, "x/y")],
        coverage: GraphImportCoverage::default(),
    };
    let plan = graph_import_plan(&import, 100).unwrap();
    assert_eq!(plan.stale_at, 100 + NEIGHBORHOOD_CACHE_MICROS);
    assert_eq!(plan.neighbours.len(), 2);
    assert_eq!(plan.follower_ids, vec![2, 3]);
    assert_eq!(plan.following_ids, vec![2]);
    assert_eq!(plan.repositories.len(), 2);
    assert_eq!(plan.owned_ids, vec![11, 10]);
    assert_eq!(plan.starred_ids, vec![10]);
    let partial = GraphImport {
        coverage: GraphImportCoverage { followers_complete: false, ..GraphImportCoverage::default() },
        ..import
    };
    assert_eq!(graph_import_plan(&partial, 100).unwrap().stale_at, 100);
}

#[test]
fn a_local_import_is_fresh_for_six_hours() {
    let mut store = SharedGraphStore::default();
    let import = GraphImport {
        viewer: Some(user(1, "alice")),
        followers: vec![user(2, "bob")],
        following: Vec::new(),
        starred_repositories: Vec::new(),
        repositories: vec![repository(11, "alice/z")],
        coverage: GraphImportCoverage::default(),
    };
    let (summary, user_changes, repository_changes) = import_graph(&mut store, import, 1_000);
    assert_eq!(summary.followers, 1);
    assert_eq!(summary.repositories, 1);
    assert_eq!(summary.synced_at, 1_000);
    assert!(user_changes.is_empty() && repository_changes.is_empty());
    let cache = &store.user_cache.iter().find(|(login, _)| login == "alice").unwrap().1;
    assert_eq!(cache.last_fetched_at, Some(1_000));
    assert_eq!(cache.stale_at, Some(1_000 + NEIGHBORHOOD_CACHE_MICROS));
    assert!(store.follows.contains(&("bob".to_string(), "alice".to_string())));
}
