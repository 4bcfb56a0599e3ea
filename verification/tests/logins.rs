use gitexplore::error::AppError;
use gitexplore::logins::{
    ensure_distinct_exploration_trail, ensure_insight_limit, normalize_github_login,
    validate_repository_full_name,
};

#[test]
fn github_login_validation_rejects_path_and_query_delimiters() {
    for invalid in [
        "owner/name",
        "alice?tab=repositories",
        "alice#fragment",
        ".",
        "..",
        "-alice",
        "alice-",
        "alice--bob",
        "",
        "aaaaaaaaaaaaaaaaaaaaaaaaaaaaaaaaaaaaaaaa",
    ] {
        assert!(
            matches!(normalize_github_login(invalid), Err(AppError::Validation(_))),
            "`{invalid}` must not be accepted as a GitHub login"
        );
    }
}

#[test]
fn github_login_validation_normalizes_valid_ascii_logins() {
    assert_eq!(
        normalize_github_login(" Octo-Cat1 ").expect("valid GitHub login"),
        "octo-cat1"
    );
}

#[test]
fn exploration_trail_rejects_any_repeated_login() {
    let trail = vec!["alice".to_string(), "bob".to_string(), "alice".to_string()];
    assert!(matches!(
        ensure_distinct_exploration_trail(&trail),
        Err(AppError::Validation(_))
    ));
}

#[test]
fn distinct_trails_and_boundary_logins_are_accepted() {
    let trail = vec!["alice".to_string(), "bob".to_string()];
    assert!(ensure_distinct_exploration_trail(&trail).is_ok());
    assert_eq!(normalize_github_login("a").expect("one letter"), "a");
    let longest = "a".repeat(39);
    assert_eq!(normalize_github_login(&longest).expect("39 letters"), longest);
}

#[test]
fn insight_limits_are_inclusive() {
    assert!(ensure_insight_limit(1).is_ok());
    assert!(ensure_insight_limit(100).is_ok());
    assert!(matches!(ensure_insight_limit(0), Err(AppError::Validation(_))));
    assert!(matches!(ensure_insight_limit(101), Err(AppError::Validation(_))));
}

#[test]
fn repository_names_need_one_slash() {
    assert!(validate_repository_full_name("acme/tool").is_ok());
    assert!(validate_repository_full_name("acme").is_err());
    assert!(validate_repository_full_name("a/b/c").is_err());
}
