use gitexplore::error::AppError;
use gitexplore::identity::{ConnectedAccount, GitHubConnection, PendingBrowserLogin};
use gitexplore::identity_store::{ConnectionEntry, PendingEntry, PendingLogins};
use gitexplore::sessions::SessionStore;
use gitexplore::sealed::{
    claim_browser_login, decode_connection, decode_pending, encode_connection, encode_pending,
    seal_legacy_secrets,
};
use gitexplore::secrets::IdentityCipher;

const KEY: &str = "HC7oBiY2DcgwFPFOplgK1nk77uOQV7x__mLWuIEBFz4";

fn connection(id: i64, token: &str) -> GitHubConnection {
    GitHubConnection {
        account: ConnectedAccount { github_user_id: id, login: format!("u{id}"), display_name: None },
        access_token: token.to_string(),
        scopes: vec!["read:user".to_string()],
    }
}

fn login(nonce: &str) -> PendingBrowserLogin {
    PendingBrowserLogin {
        user_id: "user".to_string(),
        redirect_to: Some("/app".to_string()),
        browser_nonce: nonce.to_string(),
        created_at: 1,
        expires_at: 2,
    }
}

fn storage_message(error: AppError) -> String {
    match error {
        AppError::Storage(message) => message,
        other => panic!("expected a storage error, got {other:?}"),
    }
}

#[test]
fn a_sealed_token_reads_back_only_for_its_account() {
    let cipher = IdentityCipher::from_secret(KEY).unwrap();
    let stored = encode_connection(&cipher, connection(42, "gho_token")).unwrap();
    assert!(stored.access_token.starts_with("v1."));
    assert_ne!(stored.access_token, "gho_token");
    let read = decode_connection(&cipher, stored.clone()).unwrap();
    assert_eq!(read, connection(42, "gho_token"));
    let mut moved = stored;
    moved.account.github_user_id = 43;
    assert!(decode_connection(&cipher, moved).is_err());
    let plain = decode_connection(&cipher, connection(42, "gho_plain")).unwrap_err();
    assert_eq!(storage_message(plain), "identity connection token is not encrypted");
}

#[test]
fn a_sealed_nonce_reads_back_only_under_its_state() {
    let cipher = IdentityCipher::from_secret(KEY).unwrap();
    let stored = encode_pending(&cipher, "state-1", login("nonce")).unwrap();
    assert!(stored.browser_nonce.starts_with("v1."));
    assert_eq!(decode_pending(&cipher, "state-1", stored.clone()).unwrap(), login("nonce"));
    assert!(decode_pending(&cipher, "state-2", stored).is_err());
    let plain = decode_pending(&cipher, "state-1", login("nonce")).unwrap_err();
    assert_eq!(storage_message(plain), "OAuth browser nonce is not encrypted");
}

#[test]
fn legacy_plain_secrets_are_sealed_once() {
    let cipher = IdentityCipher::from_secret(KEY).unwrap();
    let already = encode_connection(&cipher, connection(7, "old-sealed")).unwrap();
    let mut connections = vec![
        ConnectionEntry { user_id: "a".to_string(), connection: connection(5, "plain-token") },
        ConnectionEntry { user_id: "b".to_string(), connection: already.clone() },
    ];
    let mut pending = vec![PendingEntry { state_id: "s".to_string(), pending: login("plain-nonce") }];
    assert!(seal_legacy_secrets(&cipher, &mut connections, &mut pending).unwrap());
    assert_eq!(connections[1].connection, already);
    assert_eq!(
        decode_connection(&cipher, connections[0].connection.clone()).unwrap().access_token,
        "plain-token"
    );
    assert_eq!(decode_pending(&cipher, "s", pending[0].pending.clone()).unwrap().browser_nonce, "plain-nonce");
    assert!(!seal_legacy_secrets(&cipher, &mut connections, &mut pending).unwrap());
}

#[test]
fn a_sealed_secret_from_another_key_stops_the_sealing() {
    let cipher = IdentityCipher::from_secret(KEY).unwrap();
    let other = IdentityCipher::from_secret("AAAAAAAAAAAAAAAAAAAAAAAAAAAAAAAAAAAAAAAAAAA").unwrap();
    let foreign = encode_connection(&other, connection(9, "t")).unwrap();
    let mut connections = vec![ConnectionEntry { user_id: "x".to_string(), connection: foreign }];
    let mut pending = Vec::new();
    assert!(seal_legacy_secrets(&cipher, &mut connections, &mut pending).is_err());
}

#[test]
fn json_identity_upgrade_encrypts_secrets_and_persists_pending_oauth() {
    let now = chrono::Utc::now().timestamp_micros();
    let mut connections = vec![ConnectionEntry {
        user_id: "app-user".to_string(),
        connection: GitHubConnection {
            account: ConnectedAccount {
                github_user_id: 42,
                login: "octocat".to_string(),
                display_name: Some("Octocat".to_string()),
            },
            access_token: "plaintext-github-token".to_string(),
            scopes: vec!["read:user".to_string()],
        },
    }];
    let mut logins = PendingLogins::new();
    logins.save(
        "oauth-state",
        PendingBrowserLogin {
            user_id: "app-user".to_string(),
            redirect_to: Some("https://example.test/app".to_string()),
            browser_nonce: "plaintext-browser-nonce".to_string(),
            created_at: now,
            expires_at: now + 10 * 60_000_000,
        },
        now,
    );
    let mut sessions = SessionStore::new();
    sessions.create_session("browser-session", "app-user", now);

    let cipher = IdentityCipher::from_secret(KEY).expect("valid identity key");
    seal_legacy_secrets(&cipher, &mut connections, &mut logins.entries).expect("upgrade identity store");
    let token = &connections[0].connection.access_token;
    let nonce = &logins.entries[0].pending.browser_nonce;
    assert!(!token.contains("plaintext-github-token"));
    assert!(!nonce.contains("plaintext-browser-nonce"));
    assert!(token.starts_with("v1.") && nonce.starts_with("v1."));
    assert_eq!(
        decode_connection(&cipher, connections[0].connection.clone())
            .expect("read connection")
            .access_token,
        "plaintext-github-token"
    );

    let (pending, _) = logins.consume("oauth-state", now);
    let pending = pending.expect("pending state");
    assert_eq!(
        decode_pending(&cipher, "oauth-state", pending).expect("decode pending").browser_nonce,
        "plaintext-browser-nonce"
    );
    assert_eq!(sessions.session_user("browser-session").as_deref(), Some("app-user"));
}

fn validation_message(error: AppError) -> String {
    match error {
        AppError::Validation(message) => message,
        other => panic!("expected a validation error, got {other:?}"),
    }
}

#[test]
fn a_store_with_nothing_plain_is_left_as_it_was() {
    let cipher = IdentityCipher::from_secret(KEY).unwrap();
    let sealed_connection = encode_connection(&cipher, connection(3, "t")).unwrap();
    let sealed_login = encode_pending(&cipher, "s", login("n")).unwrap();
    let mut connections = vec![ConnectionEntry { user_id: "u".to_string(), connection: sealed_connection.clone() }];
    let mut pending = vec![PendingEntry { state_id: "s".to_string(), pending: sealed_login.clone() }];
    assert_eq!(seal_legacy_secrets(&cipher, &mut connections, &mut pending).unwrap(), false);
    assert_eq!(connections.len(), 1);
    assert_eq!(connections[0].connection, sealed_connection);
    assert_eq!(pending.len(), 1);
    assert_eq!(pending[0].pending, sealed_login);
}

fn live_login(nonce: &str, now: i64) -> PendingBrowserLogin {
    PendingBrowserLogin {
        user_id: "user".to_string(),
        redirect_to: Some("/app".to_string()),
        browser_nonce: nonce.to_string(),
        created_at: now,
        expires_at: now + 600_000_000,
    }
}

#[test]
fn a_claimed_browser_login_is_gone_whatever_the_outcome() {
    let cipher = IdentityCipher::from_secret(KEY).unwrap();
    let now = 1_700_000_000_000_000;
    let mut logins = PendingLogins::new();
    logins.save("state", encode_pending(&cipher, "state", live_login("nonce", now)).unwrap(), now);
    logins.save("other", encode_pending(&cipher, "other", live_login("nonce", now)).unwrap(), now);

    let wrong = claim_browser_login(&mut logins, &cipher, "state", "another-browser", now + 1).unwrap_err();
    assert_eq!(validation_message(wrong), "OAuth state does not belong to this browser");
    let again = claim_browser_login(&mut logins, &cipher, "state", "nonce", now + 1).unwrap_err();
    assert_eq!(validation_message(again), "invalid or already-used OAuth state");

    let accepted = claim_browser_login(&mut logins, &cipher, "other", "nonce", now + 1).unwrap();
    assert_eq!(accepted, live_login("nonce", now));
    assert!(logins.entries.is_empty());
}

#[test]
fn an_expired_browser_login_is_refused_and_removed() {
    let cipher = IdentityCipher::from_secret(KEY).unwrap();
    let now = 1_700_000_000_000_000;
    let mut logins = PendingLogins::new();
    logins.save("state", encode_pending(&cipher, "state", live_login("nonce", now)).unwrap(), now);
    let late = now + 600_000_001;
    let refused = claim_browser_login(&mut logins, &cipher, "state", "nonce", late).unwrap_err();
    assert_eq!(validation_message(refused), "OAuth state expired");
    assert!(logins.entries.is_empty());
}
