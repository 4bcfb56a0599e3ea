use gitexplore::capacity::{enforce_graph_capacity, GraphImportCapacityEstimate};
use gitexplore::error::AppError;
use gitexplore::graph::{GitHubRepositoryNode, GitHubUserNode, GraphImport};

fn user(github_id: i64, login: &str) -> GitHubUserNode {
    GitHubUserNode {
        github_id,
        login: login.to_string(),
        url: format!("https://github.com/{login}"),
        ..Default::default()
    }
}

fn repository(github_id: i64, full_name: &str) -> GitHubRepositoryNode {
    let (owner_login, name) = full_name.split_once('/').expect("owner/name");
    GitHubRepositoryNode {
        github_id,
        owner_login: owner_login.to_string(),
        name: name.to_string(),
        full_name: full_name.to_string(),
        html_url: format!("https://github.com/{full_name}"),
        ..Default::default()
    }
}

#[test]
fn graph_capacity_estimate_deduplicates_incoming_entities_and_relationships() {
    let import = GraphImport {
        viewer: Some(user(1, "viewer")),
        followers: vec![user(2, "two"), user(2, "two"), user(3, "three")],
        following: vec![user(2, "two"), user(4, "four")],
        repositories: vec![
            repository(10, "viewer/ten"),
            repository(10, "viewer/ten"),
            repository(11, "viewer/eleven"),
        ],
        starred_repositories: vec![
            repository(10, "viewer/ten"),
            repository(12, "other/twelve"),
            repository(12, "other/twelve"),
        ],
        ..Default::default()
    };

    assert_eq!(
        GraphImportCapacityEstimate::from_import(&import),
        GraphImportCapacityEstimate {
            nodes: 7,
            relationships: 8,
        }
    );
}

#[test]
fn graph_capacity_gate_allows_equality_and_rejects_each_exceeded_dimension() {
    let incoming = GraphImportCapacityEstimate {
        nodes: 7,
        relationships: 8,
    };
    enforce_graph_capacity(100, 200, incoming, Some(107), Some(208))
        .expect("configured maxima are inclusive");

    assert!(matches!(
        enforce_graph_capacity(100, 200, incoming, Some(106), Some(208)),
        Err(AppError::GraphCapacityExceeded {
            resource,
            current_count: 100,
            incoming_count: 7,
            projected_count: 107,
            maximum_count: 106,
        }) if resource == "nodes"
    ));
    assert!(matches!(
        enforce_graph_capacity(100, 200, incoming, None, Some(207)),
        Err(AppError::GraphCapacityExceeded {
            resource,
            current_count: 200,
            incoming_count: 8,
            projected_count: 208,
            maximum_count: 207,
        }) if resource == "relationships"
    ));
}

#[test]
fn an_import_without_a_viewer_adds_no_relationships() {
    let import = GraphImport {
        followers: vec![user(2, "two"), user(3, "three")],
        starred_repositories: vec![repository(10, "a/b")],
        ..Default::default()
    };
    assert_eq!(
        GraphImportCapacityEstimate::from_import(&import),
        GraphImportCapacityEstimate {
            nodes: 3,
            relationships: 0,
        }
    );
    let unlimited = GraphImportCapacityEstimate {
        nodes: usize::MAX,
        relationships: 1,
    };
    assert!(enforce_graph_capacity(usize::MAX, 0, unlimited, None, None).is_ok());
}
