use gitexplore::identity::{ConnectedAccount, GitHubConnection, PendingBrowserLogin};
use gitexplore::identity_store::{
    canonical_browser_user, canonical_browser_user_with, link_connected_accounts, AccountLink,
    ConnectionEntry,
    PendingLogins, MAX_PENDING_BROWSER_LOGINS,
};

fn pending(user: &str, created_at: i64, expires_at: i64) -> PendingBrowserLogin {
    PendingBrowserLogin {
        user_id: user.to_string(),
        redirect_to: None,
        browser_nonce: format!("nonce-{user}"),
        created_at,
        expires_at,
    }
}

fn connection(github_user_id: i64) -> GitHubConnection {
    GitHubConnection {
        account: ConnectedAccount {
            github_user_id,
            login: format!("user{github_user_id}"),
            display_name: None,
        },
        access_token: "SECRET-REDACTED".to_string(),
        scopes: vec!["read:user".to_string()],
    }
}

fn link(github_user_id: &str, user_id: &str) -> AccountLink {
    AccountLink { github_user_id: github_user_id.to_string(), user_id: user_id.to_string() }
}

#[test]
fn a_saved_login_is_consumed_once() {
    let mut table = PendingLogins::new();
    table.save("state-a", pending("alice", 100, 1_000), 100);
    table.save("state-b", pending("bob", 110, 1_000), 110);
    let (first, changed) = table.consume("state-a", 200);
    assert_eq!(first, Some(pending("alice", 100, 1_000)));
    assert!(changed);
    let (second, changed_again) = table.consume("state-a", 200);
    assert_eq!(second, None);
    assert!(!changed_again);
    assert_eq!(table.entries.len(), 1);
    assert_eq!(table.entries[0].state_id, "state-b");
}

#[test]
fn consuming_hands_out_an_expired_login_and_purges_the_rest() {
    let mut table = PendingLogins::new();
    table.save("old", pending("alice", 0, 50), 0);
    table.save("other", pending("bob", 0, 60), 0);
    let (taken, changed) = table.consume("old", 100);
    assert_eq!(taken, Some(pending("alice", 0, 50)));
    assert!(changed);
    assert!(table.entries.is_empty());
}

#[test]
fn saving_again_under_a_state_replaces_the_login() {
    let mut table = PendingLogins::new();
    table.save("state", pending("alice", 1, 1_000), 1);
    table.save("state", pending("bob", 2, 1_000), 2);
    assert_eq!(table.entries.len(), 1);
    assert_eq!(table.consume("state", 3).0, Some(pending("bob", 2, 1_000)));
}

#[test]
fn the_table_keeps_the_newest_logins_within_its_bound() {
    let mut table = PendingLogins::new();
    for i in 0..(MAX_PENDING_BROWSER_LOGINS as i64 + 5) {
        table.save(&format!("state-{i}"), pending("u", i, 1_000_000), 0);
    }
    assert_eq!(table.entries.len(), MAX_PENDING_BROWSER_LOGINS);
    for i in 0..5 {
        assert_eq!(table.consume(&format!("state-{i}"), 0).0, None);
    }
    assert!(table.consume("state-5", 0).0.is_some());
}

#[test]
fn normalizing_purges_and_trims() {
    let mut table = PendingLogins::new();
    table.save("a", pending("a", 1, 10), 0);
    table.save("b", pending("b", 2, 100), 0);
    assert!(table.normalize(50));
    assert_eq!(table.entries.len(), 1);
    assert!(!table.normalize(50));
}

#[test]
fn an_already_linked_account_keeps_its_app_user() {
    let mut links = vec![link("7", "user-a")];
    let user = canonical_browser_user_with(&mut links, &Vec::new(), "user-b", &connection(7), "fresh");
    assert_eq!(user, "user-a");
    assert_eq!(links.len(), 1);
}

#[test]
fn a_new_account_takes_the_preferred_user_when_it_is_free() {
    let mut links = vec![link("8", "user-x")];
    let user = canonical_browser_user_with(&mut links, &Vec::new(), "user-b", &connection(7), "fresh");
    assert_eq!(user, "user-b");
    assert_eq!(links.len(), 2);
    assert_eq!(links[1].github_user_id, "7");
    assert_eq!(links[1].user_id, "user-b");
    let again = canonical_browser_user_with(&mut links, &Vec::new(), "user-c", &connection(7), "other");
    assert_eq!(again, "user-b");
}

#[test]
fn a_preferred_user_of_another_account_gets_a_fresh_user() {
    let mut links = vec![link("8", "user-b")];
    let user = canonical_browser_user_with(&mut links, &Vec::new(), "user-b", &connection(7), "fresh");
    assert_eq!(user, "fresh");
    let connections = vec![ConnectionEntry { user_id: "user-c".to_string(), connection: connection(9) }];
    let mut empty = Vec::new();
    let other = canonical_browser_user_with(&mut empty, &connections, "user-c", &connection(-3), "new");
    assert_eq!(other, "new");
    assert_eq!(empty[0].github_user_id, "-3");
}

#[test]
fn a_random_user_id_is_drawn_only_when_needed() {
    let mut links = vec![link("8", "user-b")];
    let user = canonical_browser_user(&mut links, &Vec::new(), "user-b", &connection(7));
    assert_ne!(user, "user-b");
    assert_eq!(user.len(), 36);
    let same = canonical_browser_user(&mut links, &Vec::new(), "user-z", &connection(7));
    assert_eq!(same, user);
}

#[test]
fn stored_connections_without_a_link_get_one() {
    let mut links = vec![link("7", "user-a")];
    let connections = vec![
        ConnectionEntry { user_id: "user-x".to_string(), connection: connection(7) },
        ConnectionEntry { user_id: "user-b".to_string(), connection: connection(8) },
        ConnectionEntry { user_id: "user-c".to_string(), connection: connection(8) },
    ];
    assert!(link_connected_accounts(&mut links, &connections));
    assert_eq!(links.len(), 2);
    assert_eq!(links[0].user_id, "user-a");
    assert_eq!(links[1].github_user_id, "8");
    assert_eq!(links[1].user_id, "user-b");
    assert!(!link_connected_accounts(&mut links, &connections));
}

#[test]
fn a_user_that_needs_a_new_id_is_given_a_version_4_uuid() {
    let mut links = vec![link("1", "user-b")];
    let user = canonical_browser_user(&mut links, &Vec::new(), "user-b", &connection(7));
    let chars: Vec<char> = user.chars().collect();
    assert_eq!(chars.len(), 36);
    for (i, c) in chars.iter().enumerate() {
        if [8, 13, 18, 23].contains(&i) {
            assert_eq!(*c, '-');
        } else {
            assert!(c.is_ascii_digit() || ('a'..='f').contains(c));
        }
    }
    assert_eq!(chars[14], '4');
    assert!(['8', '9', 'a', 'b'].contains(&chars[19]));
    assert_eq!(links.len(), 2);
}
