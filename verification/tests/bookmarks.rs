use gitexplore::bookmarks::{
    add_bookmark_to, bookmark_targets_match, dedupe_strings, saved_repository_names,
    update_bookmark_aliases, Bookmark, BookmarkTarget,
};

fn repo(name: &str) -> BookmarkTarget {
    BookmarkTarget::GitHubRepository { full_name: name.to_string() }
}

fn bookmark(id: &str, target: BookmarkTarget) -> Bookmark {
    Bookmark {
        id: id.to_string(),
        target,
        categories: Vec::new(),
        note: None,
        created_at: 0,
    }
}

#[test]
fn saving_a_repository_twice_keeps_one_bookmark() {
    let mut saved = Vec::new();
    let first = add_bookmark_to(&mut saved, bookmark("one", repo("Alice/Tool")));
    assert_eq!(first.id, "one");
    let second = add_bookmark_to(&mut saved, bookmark("two", repo("alice/tool")));
    assert_eq!(second.id, "one");
    assert_eq!(saved.len(), 1);
    let person = add_bookmark_to(
        &mut saved,
        bookmark("three", BookmarkTarget::GitHubUser { login: "alice/tool".to_string() }),
    );
    assert_eq!(person.id, "three");
    assert_eq!(saved.len(), 2);
}

#[test]
fn targets_match_by_kind_and_case_insensitive_name() {
    assert!(bookmark_targets_match(&repo("A/B"), &repo("a/b")));
    assert!(!bookmark_targets_match(
        &repo("a"),
        &BookmarkTarget::GitHubUser { login: "a".to_string() }
    ));
}

#[test]
fn case_only_alias_changes_relocate_bookmarks() {
    let mut saved = vec![
        bookmark("r", repo("Alice/Tool")),
        bookmark("u", BookmarkTarget::GitHubUser { login: "Bob".to_string() }),
    ];
    update_bookmark_aliases(
        &mut saved,
        &vec![("bob".to_string(), "robert".to_string())],
        &vec![("alice/tool".to_string(), "alice/tool".to_string())],
    );
    assert!(matches!(&saved[0].target, BookmarkTarget::GitHubRepository { full_name } if full_name == "alice/tool"));
    assert!(matches!(&saved[1].target, BookmarkTarget::GitHubUser { login } if login == "robert"));
    let names = saved_repository_names(Some(&saved));
    assert_eq!(names, vec!["alice/tool".to_string()]);
    assert!(saved_repository_names(None).is_empty());
}

#[test]
fn categories_are_sorted_distinct_and_non_empty() {
    let values = vec![
        "rust".to_string(),
        "".to_string(),
        "cli".to_string(),
        "rust".to_string(),
    ];
    assert_eq!(dedupe_strings(values), vec!["cli".to_string(), "rust".to_string()]);
}

#[test]
fn saving_an_already_saved_target_again_gives_the_saved_bookmark() {
    let mut saved = vec![bookmark("kept", repo("Alice/Tool")), bookmark("other", repo("bob/x"))];
    let first = add_bookmark_to(&mut saved, bookmark("new", repo("ALICE/tool")));
    assert_eq!(first.id, "kept");
    let second = add_bookmark_to(&mut saved, bookmark("newer", repo("alice/TOOL")));
    assert_eq!(second.id, first.id);
    assert_eq!(saved.len(), 2);
    assert_eq!(saved[0].id, "kept");
}
