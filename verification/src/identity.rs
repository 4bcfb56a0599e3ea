//! Who is signed in and which GitHub account they connected, and the rules of the two OAuth
//! login flows. Timestamps are microseconds since the Unix epoch.
use vstd::prelude::*;

use crate::error::{validation, AppError};
use crate::text::{is_blank, owned, str_equal, trim_seq};

verus! {

/// A local application user.
#[derive(Debug, Clone, PartialEq, Eq)]
pub struct LocalUser {
    pub id: String,
}

/// A browser session and the user it signs in.
#[derive(Debug, Clone, PartialEq, Eq)]
pub struct BrowserSession {
    pub id: String,
    pub user_id: String,
}

/// The GitHub account a user connected.
#[derive(Debug, Clone, PartialEq, Eq)]
pub struct ConnectedAccount {
    pub github_user_id: i64,
    pub login: String,
    pub display_name: Option<String>,
}

/// A connected account with the token and scopes it was granted.
#[derive(Debug, Clone, PartialEq, Eq)]
pub struct GitHubConnection {
    pub account: ConnectedAccount,
    pub access_token: String,
    pub scopes: Vec<String>,
}

/// What a login step hands back: the device-flow prompt, or the account now connected.
#[derive(Debug, Clone, PartialEq, Eq)]
pub struct AuthSessionResult {
    pub verification_uri: Option<String>,
    pub user_code: Option<String>,
    pub connected_account: Option<ConnectedAccount>,
}

/// Whether a signed-in user has a GitHub account connected.
#[derive(Debug, Clone, PartialEq, Eq)]
pub struct ConnectionStatus {
    pub authenticated: bool,
    pub app_user_id: Option<String>,
    pub connected: bool,
    pub account: Option<ConnectedAccount>,
}

/// A browser login that was started and waits for GitHub's callback.
#[derive(Debug, Clone, PartialEq, Eq)]
pub struct PendingBrowserLogin {
    pub user_id: String,
    pub redirect_to: Option<String>,
    pub browser_nonce: String,
    pub created_at: i64,
    pub expires_at: i64,
}

/// A finished browser login: the connected account, the new session and where to go next.
#[derive(Debug, Clone, PartialEq, Eq)]
pub struct CompletedBrowserLogin {
    pub result: AuthSessionResult,
    pub session_id: String,
    pub redirect_to: Option<String>,
}

/// How long a started browser login may be completed, in minutes.
pub const BROWSER_LOGIN_TTL_MINUTES: i64 = 10;

/// How long a started browser login may be completed, in microseconds.
pub const BROWSER_LOGIN_TTL_MICROS: i64 = 600_000_000;

/// How far a login's start may lie in the future (clock skew), in microseconds.
pub const BROWSER_LOGIN_SKEW_MICROS: i64 = 60_000_000;

/// The device flow needs a configured OAuth client id.
pub fn ensure_device_login_configured(client_id: &str) -> (r: Result<(), AppError>)
    ensures
        r is Ok <==> client_id@.len() > 0,
        r is Err ==> r->Err_0 is Validation && r->Err_0->Validation_0@
            == "github client id is required"@,
{
    if client_id.is_empty() {
        Err(validation("github client id is required"))
    } else {
        Ok(())
    }
}

/// The answer to a started device login: where to go and which code to enter.
pub fn device_login_prompt(verification_uri: String, user_code: String) -> (r: AuthSessionResult)
    ensures
        r.verification_uri == Some(verification_uri),
        r.user_code == Some(user_code),
        r.connected_account is None,
{
    AuthSessionResult {
        verification_uri: Some(verification_uri),
        user_code: Some(user_code),
        connected_account: None,
    }
}

/// The answer to a finished login: the account now connected.
pub fn connected_login(account: ConnectedAccount) -> (r: AuthSessionResult)
    ensures
        r.verification_uri is None,
        r.user_code is None,
        r.connected_account == Some(account),
{
    AuthSessionResult { verification_uri: None, user_code: None, connected_account: Some(account) }
}

/// The pending record of a browser login started at `now`: refused for a blank nonce;
/// otherwise it expires `BROWSER_LOGIN_TTL_MINUTES` later.
pub fn start_pending_browser_login(
    user_id: &str,
    redirect_to: Option<String>,
    browser_nonce: &str,
    now: i64,
) -> (r: Result<PendingBrowserLogin, AppError>)
    requires
        now <= i64::MAX - BROWSER_LOGIN_TTL_MICROS,
    ensures
        r is Err <==> trim_seq(browser_nonce@).len() == 0,
        r is Err ==> r->Err_0 is Validation && r->Err_0->Validation_0@
            == "browser nonce is required"@,
        r is Ok ==> {
            let p = r->Ok_0;
            &&& p.user_id@ == user_id@
            &&& p.redirect_to == redirect_to
            &&& p.browser_nonce@ == browser_nonce@
            &&& p.created_at == now
            &&& p.expires_at == now + BROWSER_LOGIN_TTL_MICROS
        },
{
    if is_blank(browser_nonce) {
        return Err(validation("browser nonce is required"));
    }
    Ok(
        PendingBrowserLogin {
            user_id: owned(user_id),
            redirect_to,
            browser_nonce: owned(browser_nonce),
            created_at: now,
            expires_at: now + BROWSER_LOGIN_TTL_MICROS,
        },
    )
}

/// Why a browser login cannot be completed with `browser_nonce` at `now`, if it cannot:
/// no pending record (unknown or already used), another browser's nonce, or a start more
/// than a minute in the future or an expiry already past.
pub open spec fn browser_login_refusal(
    pending: Option<PendingBrowserLogin>,
    browser_nonce: Seq<char>,
    now: int,
) -> Option<Seq<char>> {
    match pending {
        None => Some("invalid or already-used OAuth state"@),
        Some(p) => if p.browser_nonce@ != browser_nonce {
            Some("OAuth state does not belong to this browser"@)
        } else if !(now - p.created_at >= -BROWSER_LOGIN_SKEW_MICROS && now <= p.expires_at) {
            Some("OAuth state expired"@)
        } else {
            None
        },
    }
}

/// Checks the pending record that a browser login's callback consumed, before the code is
/// exchanged: it must exist, belong to this browser and still be valid at `now`.
pub fn accept_pending_browser_login(
    pending: Option<PendingBrowserLogin>,
    browser_nonce: &str,
    now: i64,
) -> (r: Result<PendingBrowserLogin, AppError>)
    ensures
        browser_login_refusal(pending, browser_nonce@, now as int) is None ==> r == Ok::<
            PendingBrowserLogin,
            AppError,
        >(pending->0),
        browser_login_refusal(pending, browser_nonce@, now as int) is Some ==> r is Err
            && r->Err_0 is Validation && r->Err_0->Validation_0@ == browser_login_refusal(
            pending,
            browser_nonce@,
            now as int,
        )->0,
{
    proof {
        reveal_strlit("invalid or already-used OAuth state");
        reveal_strlit("OAuth state does not belong to this browser");
        reveal_strlit("OAuth state expired");
    }
    match pending {
        None => Err(validation("invalid or already-used OAuth state")),
        Some(p) => {
            if !str_equal(p.browser_nonce.as_str(), browser_nonce) {
                return Err(validation("OAuth state does not belong to this browser"));
            }
            let age: i128 = now as i128 - p.created_at as i128;
            if !(age >= -(BROWSER_LOGIN_SKEW_MICROS as i128) && now <= p.expires_at) {
                return Err(validation("OAuth state expired"));
            }
            Ok(p)
        },
    }
}

/// The result of a completed browser login.
pub fn completed_browser_login(
    account: ConnectedAccount,
    session_id: String,
    pending: PendingBrowserLogin,
) -> (r: CompletedBrowserLogin)
    ensures
        r.result.verification_uri is None,
        r.result.user_code is None,
        r.result.connected_account == Some(account),
        r.session_id == session_id,
        r.redirect_to == pending.redirect_to,
{
    CompletedBrowserLogin {
        result: connected_login(account),
        session_id,
        redirect_to: pending.redirect_to,
    }
}

/// The connection status of a signed-in user, from the connection stored for them.
pub fn connection_status_of(user_id: &str, connection: Option<GitHubConnection>) -> (r:
    ConnectionStatus)
    ensures
        r.authenticated,
        r.app_user_id is Some && r.app_user_id->0@ == user_id@,
        r.connected == (connection is Some),
        r.account == (match connection {
            Some(c) => Some(c.account),
            None => None,
        }),
{
    let connected = connection.is_some();
    let account = match connection {
        Some(c) => Some(c.account),
        None => None,
    };
    ConnectionStatus { authenticated: true, app_user_id: Some(owned(user_id)), connected, account }
}

/// A login started at `now` with a nonce is accepted by its own browser at any time up to
/// its expiry, and refused for any other nonce.
pub proof fn law_fresh_browser_login_is_accepted(
    pending: PendingBrowserLogin,
    now: int,
    later: int,
    other_nonce: Seq<char>,
)
    requires
        pending.created_at == now,
        pending.expires_at == now + BROWSER_LOGIN_TTL_MICROS,
        now <= later <= now + BROWSER_LOGIN_TTL_MICROS,
        other_nonce != pending.browser_nonce@,
    ensures
        browser_login_refusal(Some(pending), pending.browser_nonce@, later) is None,
        browser_login_refusal(Some(pending), other_nonce, later) is Some,
        browser_login_refusal(Some(pending), pending.browser_nonce@, later + 1 + BROWSER_LOGIN_TTL_MICROS) is Some,
{
}

} // verus!
