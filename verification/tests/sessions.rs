use gitexplore::sessions::{SessionStore, StoredSession, MAX_ACTIVE_SESSIONS, SESSION_TTL_MICROS};

fn now() -> i64 {
    chrono::Utc::now().timestamp_micros()
}

#[test]
fn session_normalization_and_creation_enforce_the_global_bound() {
    let now = now();
    let mut store = SessionStore::new();
    for index in 0..(MAX_ACTIVE_SESSIONS + 128) {
        store.sessions.push(StoredSession {
            id: format!("session-{index}"),
            user_id: "app-user".to_string(),
            expires_at: Some(now + SESSION_TTL_MICROS),
        });
    }

    assert!(store.normalize(now));
    assert_eq!(store.sessions.len(), MAX_ACTIVE_SESSIONS);

    store.create_session("replacement-session", "app-user", now);
    assert_eq!(store.sessions.len(), MAX_ACTIVE_SESSIONS);
    assert!(store.sessions.iter().any(|s| s.id == "replacement-session"));
}

#[test]
fn sessions_resolve_until_they_expire() {
    let now = now();
    let mut store = SessionStore::new();
    store.create_session("abc", "user-1", now);
    assert_eq!(store.session_user("abc").as_deref(), Some("user-1"));
    assert_eq!(store.session_user("missing"), None);
    store.create_session("abc", "user-2", now + 1);
    assert_eq!(store.session_user("abc").as_deref(), Some("user-2"));
    assert_eq!(store.sessions.len(), 1);
    assert!(store.purge_expired(now + SESSION_TTL_MICROS + 1));
    assert_eq!(store.session_user("abc"), None);
}

#[test]
fn legacy_sessions_get_a_fresh_expiry_and_the_oldest_go_first() {
    let now = now();
    let mut store = SessionStore::new();
    store.sessions.push(StoredSession {
        id: "legacy".to_string(),
        user_id: "u".to_string(),
        expires_at: None,
    });
    store.sessions.push(StoredSession {
        id: "soon".to_string(),
        user_id: "u".to_string(),
        expires_at: Some(now + 10),
    });
    store.sessions.push(StoredSession {
        id: "expired".to_string(),
        user_id: "u".to_string(),
        expires_at: Some(now - 10),
    });
    assert!(store.normalize(now));
    assert_eq!(store.sessions.len(), 2);
    assert!(store.trim_to(1));
    assert_eq!(store.sessions.len(), 1);
    assert_eq!(store.sessions[0].id, "legacy");
    assert_eq!(store.sessions[0].expires_at, Some(now + SESSION_TTL_MICROS));
}
