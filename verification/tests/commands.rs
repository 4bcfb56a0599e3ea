use gitexplore::bookmarks::{add_category_to, bookmark_target, new_category, BookmarkTarget};
use gitexplore::commands::{ensure_schema_backend, identity_migration_key};
use gitexplore::config::GraphBackend;
use gitexplore::error::AppError;

#[test]
fn a_bookmark_names_exactly_one_target() {
    for (user, repo) in [(None, None), (Some("a".to_string()), Some("b/c".to_string()))] {
        match bookmark_target(user, repo) {
            Err(AppError::Validation(m)) => assert_eq!(m, "provide exactly one of --user or --repo"),
            _ => panic!("expected a validation error"),
        }
    }
    assert!(matches!(
        bookmark_target(Some("octo".to_string()), None),
        Ok(BookmarkTarget::GitHubUser { login }) if login == "octo"
    ));
    assert!(matches!(
        bookmark_target(None, Some("octo/tool".to_string())),
        Ok(BookmarkTarget::GitHubRepository { full_name }) if full_name == "octo/tool"
    ));
}

#[test]
fn categories_are_trimmed_non_blank_and_added_once() {
    match new_category("   ", None) {
        Err(AppError::Validation(m)) => assert_eq!(m, "category name cannot be empty"),
        _ => panic!("expected a validation error"),
    }
    let rust = new_category("  rust ", Some("systems".to_string())).unwrap();
    assert_eq!(rust.name, "rust");
    assert_eq!(rust.description.as_deref(), Some("systems"));
    let mut categories = Vec::new();
    assert!(add_category_to(&mut categories, rust.clone()));
    assert!(!add_category_to(&mut categories, new_category("rust", None).unwrap()));
    assert_eq!(categories, vec![rust]);
}

#[test]
fn schema_and_migration_commands_check_their_preconditions_in_order() {
    assert!(ensure_schema_backend(GraphBackend::Neo4j).is_ok());
    match ensure_schema_backend(GraphBackend::File) {
        Err(AppError::Config(m)) => assert_eq!(m, "schema commands require GITEXPLORE_GRAPH_BACKEND=neo4j"),
        _ => panic!("expected a configuration error"),
    }
    match identity_migration_key(false, GraphBackend::File, &None) {
        Err(AppError::Validation(m)) => assert_eq!(m, "identity migration requires --confirm"),
        _ => panic!("expected a validation error"),
    }
    match identity_migration_key(true, GraphBackend::Memory, &None) {
        Err(AppError::Config(m)) => assert_eq!(m, "identity migration requires GITEXPLORE_GRAPH_BACKEND=neo4j"),
        _ => panic!("expected a configuration error"),
    }
    match identity_migration_key(true, GraphBackend::Neo4j, &None) {
        Err(AppError::Config(m)) => assert_eq!(m, "identity migration requires GITEXPLORE_IDENTITY_ENCRYPTION_KEY"),
        _ => panic!("expected a configuration error"),
    }
    assert_eq!(
        identity_migration_key(true, GraphBackend::Neo4j, &Some("key".to_string())).unwrap(),
        "key"
    );
}
