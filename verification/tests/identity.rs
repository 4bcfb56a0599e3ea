use gitexplore::error::AppError;
use gitexplore::identity::{
    accept_pending_browser_login, completed_browser_login, connected_login,
    connection_status_of, device_login_prompt, ensure_device_login_configured,
    start_pending_browser_login, ConnectedAccount, GitHubConnection, BROWSER_LOGIN_TTL_MICROS,
};

fn account() -> ConnectedAccount {
    ConnectedAccount {
        github_user_id: 7,
        login: "octo".to_string(),
        display_name: Some("Octo".to_string()),
    }
}

fn validation_message(error: AppError) -> String {
    match error {
        AppError::Validation(message) => message,
        other => panic!("expected a validation error, got {other:?}"),
    }
}

#[test]
fn device_login_needs_a_client_id() {
    let error = ensure_device_login_configured("").unwrap_err();
    assert_eq!(validation_message(error), "github client id is required");
    assert!(ensure_device_login_configured("client").is_ok());
}

#[test]
fn device_login_prompt_carries_the_uri_and_code() {
    let prompt = device_login_prompt("https://github.com/login/device".to_string(), "ABCD-1234".to_string());
    assert_eq!(prompt.verification_uri.as_deref(), Some("https://github.com/login/device"));
    assert_eq!(prompt.user_code.as_deref(), Some("ABCD-1234"));
    assert!(prompt.connected_account.is_none());
    let done = connected_login(account());
    assert!(done.verification_uri.is_none() && done.user_code.is_none());
    assert_eq!(done.connected_account, Some(account()));
}

#[test]
fn browser_login_needs_a_nonce_and_expires_after_ten_minutes() {
    let error = start_pending_browser_login("user", None, "   ", 1_000).unwrap_err();
    assert_eq!(validation_message(error), "browser nonce is required");
    let pending =
        start_pending_browser_login("user", Some("/graph".to_string()), "nonce", 1_000).unwrap();
    assert_eq!(pending.user_id, "user");
    assert_eq!(pending.redirect_to.as_deref(), Some("/graph"));
    assert_eq!(pending.browser_nonce, "nonce");
    assert_eq!(pending.created_at, 1_000);
    assert_eq!(pending.expires_at, 1_000 + BROWSER_LOGIN_TTL_MICROS);
    assert_eq!(BROWSER_LOGIN_TTL_MICROS, 600_000_000);
}

#[test]
fn browser_login_completion_checks_state_nonce_and_expiry() {
    let pending = start_pending_browser_login("user", None, "nonce", 10_000_000).unwrap();
    let missing = accept_pending_browser_login(None, "nonce", 10_000_000).unwrap_err();
    assert_eq!(validation_message(missing), "invalid or already-used OAuth state");
    let foreign =
        accept_pending_browser_login(Some(pending.clone()), "other", 10_000_000).unwrap_err();
    assert_eq!(validation_message(foreign), "OAuth state does not belong to this browser");
    let late = accept_pending_browser_login(
        Some(pending.clone()),
        "nonce",
        pending.expires_at + 1,
    )
    .unwrap_err();
    assert_eq!(validation_message(late), "OAuth state expired");
    let early = accept_pending_browser_login(
        Some(pending.clone()),
        "nonce",
        pending.created_at - 60_000_001,
    )
    .unwrap_err();
    assert_eq!(validation_message(early), "OAuth state expired");
    let skewed =
        accept_pending_browser_login(Some(pending.clone()), "nonce", pending.created_at - 60_000_000)
            .unwrap();
    assert_eq!(skewed, pending);
    let accepted =
        accept_pending_browser_login(Some(pending.clone()), "nonce", pending.expires_at).unwrap();
    assert_eq!(accepted, pending);
}

#[test]
fn completed_browser_login_returns_session_and_redirect() {
    let pending =
        start_pending_browser_login("user", Some("/saved".to_string()), "nonce", 0).unwrap();
    let done = completed_browser_login(account(), "session-1".to_string(), pending);
    assert_eq!(done.session_id, "session-1");
    assert_eq!(done.redirect_to.as_deref(), Some("/saved"));
    assert_eq!(done.result.connected_account, Some(account()));
    assert!(done.result.verification_uri.is_none());
}

#[test]
fn connection_status_reports_the_stored_account() {
    let none = connection_status_of("user", None);
    assert!(none.authenticated && !none.connected);
    assert_eq!(none.app_user_id.as_deref(), Some("user"));
    assert!(none.account.is_none());
    let some = connection_status_of(
        "user",
        Some(GitHubConnection {
            account: account(),
            access_token: "token".to_string(),
            scopes: vec!["read:user".to_string()],
        }),
    );
    assert!(some.connected);
    assert_eq!(some.account, Some(account()));
}
