use gitexplore::web::{
    clear_oauth_nonce_cookie_value, clear_session_cookie_value, mutation_origin_is_allowed,
    oauth_nonce_cookie_value, origin_uses_https, parse_cookie, safe_frontend_redirect,
    same_origin, session_cookie_value,
};

#[test]
fn oauth_redirects_stay_on_the_configured_frontend_origin() {
    let origin = "http://localhost:3000";

    assert_eq!(
        safe_frontend_redirect(origin, Some("http://localhost:3000/app/explore")),
        "http://localhost:3000/app/explore"
    );
    assert_eq!(
        safe_frontend_redirect(origin, Some("https://attacker.example/callback")),
        "http://localhost:3000/app"
    );
    assert_eq!(
        safe_frontend_redirect(origin, Some("http://localhost:4000/app")),
        "http://localhost:3000/app"
    );
}

#[test]
fn redirect_falls_back_without_a_usable_request() {
    assert_eq!(
        safe_frontend_redirect("http://localhost:3000/", None),
        "http://localhost:3000/app"
    );
    assert_eq!(
        safe_frontend_redirect("http://localhost:3000", Some("not a url")),
        "http://localhost:3000/app"
    );
}

#[test]
fn cookies_are_read_by_exact_key() {
    let header = "theme=dark; gitexplore_session=abc=def ;other=1";
    assert_eq!(
        parse_cookie(header, "gitexplore_session").as_deref(),
        Some("abc=def")
    );
    assert_eq!(parse_cookie(header, "other").as_deref(), Some("1"));
    assert_eq!(parse_cookie(header, "gitexplore"), None);
    assert_eq!(parse_cookie("", "x"), None);
}

#[test]
fn cookie_values_carry_their_attributes() {
    assert_eq!(
        session_cookie_value("s1", true),
        "gitexplore_session=s1; Path=/; HttpOnly; SameSite=Lax; Max-Age=2592000; Secure"
    );
    assert_eq!(
        clear_session_cookie_value(false),
        "gitexplore_session=; Path=/; HttpOnly; SameSite=Lax; Max-Age=0"
    );
    assert_eq!(
        oauth_nonce_cookie_value("n", false),
        "gitexplore_oauth_nonce=n; Path=/auth/oauth; HttpOnly; SameSite=Lax; Max-Age=600"
    );
    assert_eq!(
        clear_oauth_nonce_cookie_value(true),
        "gitexplore_oauth_nonce=; Path=/auth/oauth; HttpOnly; SameSite=Lax; Max-Age=0; Secure"
    );
}

#[test]
fn mutations_are_accepted_only_from_the_frontend_origin() {
    assert!(same_origin("http://localhost:3000", "http://localhost:3000/x"));
    assert!(!same_origin("http://localhost:3000", "https://localhost:3000"));
    assert!(mutation_origin_is_allowed("http://localhost:3000", None));
    assert!(!mutation_origin_is_allowed("http://localhost:3000", Some("http://evil.example")));
    assert!(origin_uses_https("https://gitexplore.example.com"));
    assert!(!origin_uses_https("http://localhost:3000"));
}
