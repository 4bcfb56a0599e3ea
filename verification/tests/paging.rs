use gitexplore::graph::{GitHubRepositoryNode, GitHubUserNode};
use gitexplore::paging::{
    add_page, finish_pages, first_page, graph_import_from_collections, needs_next_page,
    BoundedCollection, ListedRepository, MAX_REPOSITORIES_PER_EXPANSION,
    MAX_SOCIAL_CONNECTIONS_PER_EXPANSION,
};

fn read_all(pages: Vec<Vec<u32>>, limit: usize) -> BoundedCollection<u32> {
    let count = pages.len();
    let mut pages = pages.into_iter();
    let first = pages.next().unwrap_or_default();
    let mut cursor = first_page(first, count > 1, limit);
    let mut read = 1;
    while needs_next_page(&cursor, limit) {
        let page = pages.next().unwrap();
        read += 1;
        add_page(&mut cursor, page, read < count, limit);
    }
    finish_pages(cursor)
}

#[test]
fn the_caps_are_three_hundred() {
    assert_eq!(MAX_SOCIAL_CONNECTIONS_PER_EXPANSION, 300);
    assert_eq!(MAX_REPOSITORIES_PER_EXPANSION, 300);
}

#[test]
fn a_collection_read_to_its_end_is_complete() {
    let collection = read_all(vec![vec![1, 2], vec![3, 4], vec![5]], 10);
    assert_eq!(collection.items, vec![1, 2, 3, 4, 5]);
    assert!(collection.complete);
}

#[test]
fn a_collection_that_reaches_the_cap_with_a_page_left_is_partial() {
    let collection = read_all(vec![vec![1, 2], vec![3, 4], vec![5, 6]], 4);
    assert_eq!(collection.items, vec![1, 2, 3, 4]);
    assert!(!collection.complete);
}

#[test]
fn a_first_page_over_the_cap_is_partial() {
    let collection = read_all(vec![vec![1, 2, 3]], 2);
    assert_eq!(collection.items, vec![1, 2]);
    assert!(!collection.complete);
}

#[test]
fn a_last_page_cut_at_the_cap_counts_as_complete() {
    let collection = read_all(vec![vec![1, 2], vec![3, 4, 5]], 3);
    assert_eq!(collection.items, vec![1, 2, 3]);
    assert!(collection.complete);
}

#[test]
fn the_import_keeps_public_repositories_and_reports_coverage() {
    let viewer = GitHubUserNode { github_id: 1, login: "alice".to_string(), ..Default::default() };
    let repo = |id: i64, private: Option<bool>| ListedRepository {
        repository: GitHubRepositoryNode {
            github_id: id,
            full_name: format!("alice/r{id}"),
            ..Default::default()
        },
        private,
    };
    let import = graph_import_from_collections(
        viewer.clone(),
        BoundedCollection { items: vec![viewer.clone()], complete: true },
        BoundedCollection { items: Vec::new(), complete: false },
        BoundedCollection { items: vec![repo(1, Some(true)), repo(2, None)], complete: true },
        BoundedCollection { items: vec![repo(3, Some(false)), repo(4, Some(true))], complete: false },
    );
    assert_eq!(import.viewer, Some(viewer));
    assert_eq!(import.followers.len(), 1);
    let starred: Vec<i64> = import.starred_repositories.iter().map(|r| r.github_id).collect();
    assert_eq!(starred, vec![2]);
    let owned: Vec<i64> = import.repositories.iter().map(|r| r.github_id).collect();
    assert_eq!(owned, vec![3]);
    assert!(import.coverage.followers_complete);
    assert!(!import.coverage.following_complete);
    assert!(import.coverage.starred_repositories_complete);
    assert!(!import.coverage.repositories_complete);
}
