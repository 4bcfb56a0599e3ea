//! The HTTP edge's decisions: reading the session cookie, writing cookies, keeping OAuth
//! redirects on the configured frontend origin, and accepting mutations only from it.
use vstd::prelude::*;

use crate::cli::{after_eq, before_eq, eq_position, sub_string};
use crate::discovery::views;
use crate::external::{opt_view, parse_url, parsed_url, ParsedUrl, UrlView};
use crate::text::{chars_of, push_str, str_equal, string_from_chars, trim_chars, trim_seq};

verus! {

pub const SESSION_COOKIE: &'static str = "gitexplore_session";

pub const OAUTH_NONCE_COOKIE: &'static str = "gitexplore_oauth_nonce";

/// The pieces of a text between separators, empty pieces included.
pub open spec fn split_on(s: Seq<char>, sep: char) -> Seq<Seq<char>>
    decreases s.len(),
{
    if s.len() == 0 {
        seq![Seq::empty()]
    } else if s.last() == sep {
        split_on(s.drop_last(), sep).push(Seq::empty())
    } else {
        let p = split_on(s.drop_last(), sep);
        p.update(p.len() - 1, p.last().push(s.last()))
    }
}

pub(crate) fn split_text(text: &str, sep: char) -> (r: Vec<String>)
    ensures
        views(r@) == split_on(text@, sep),
{
    let chars = chars_of(text);
    let mut out: Vec<String> = Vec::new();
    let mut current: Vec<char> = Vec::new();
    let mut i: usize = 0;
    while i < chars.len()
        invariant
            i <= chars.len(),
            chars@ == text@,
            split_on(chars@.take(i as int), sep) == views(out@).push(current@),
        decreases chars.len() - i,
    {
        let c = chars[i];
        assert(chars@.take(i + 1).drop_last() == chars@.take(i as int));
        assert(chars@.take(i + 1).last() == c);
        if c == sep {
            let ghost before = out@;
            out.push(string_from_chars(&current));
            assert(views(out@) == views(before).push(current@));
            current = Vec::new();
        } else {
            proof {
                assert(views(out@).push(current@).update(views(out@).len() as int, current@.push(c))
                    == views(out@).push(current@.push(c)));
            }
            current.push(c);
        }
        i += 1;
    }
    assert(chars@.take(chars.len() as int) == chars@);
    let ghost before = out@;
    out.push(string_from_chars(&current));
    assert(views(out@) == views(before).push(current@));
    out
}

/// The value of the first `key=value` part of a cookie header whose key is `key`; parts are
/// separated by `;` and trimmed.
pub open spec fn cookie_value(parts: Seq<Seq<char>>, key: Seq<char>) -> Option<Seq<char>>
    decreases parts.len(),
{
    if parts.len() == 0 {
        None
    } else {
        let p = trim_seq(parts[0]);
        if p.contains('=') && before_eq(p) == key {
            Some(after_eq(p))
        } else {
            cookie_value(parts.drop_first(), key)
        }
    }
}

/// Reads one cookie from a `Cookie` header.
pub fn parse_cookie(header_value: &str, key: &str) -> (r: Option<String>)
    ensures
        opt_view(r) == cookie_value(split_on(header_value@, ';'), key@),
{
    let parts = split_text(header_value, ';');
    let ghost all = views(parts@);
    let mut i: usize = 0;
    assert(all.skip(0) == all);
    while i < parts.len()
        invariant
            i <= parts.len(),
            all == views(parts@),
            all == split_on(header_value@, ';'),
            cookie_value(all, key@) == cookie_value(all.skip(i as int), key@),
        decreases parts.len() - i,
    {
        assert(all.skip(i as int)[0] == parts@[i as int]@);
        assert(all.skip(i as int).drop_first() == all.skip(i + 1));
        let part = trim_chars(&chars_of(parts[i].as_str()));
        let k = eq_position(&part);
        if k < part.len() {
            let name = sub_string(&part, 0, k);
            if str_equal(name.as_str(), key) {
                return Some(sub_string(&part, k + 1, part.len()));
            }
        }
        i += 1;
    }
    assert(all.skip(i as int).len() == 0);
    None
}

pub open spec fn secure_suffix(secure: bool) -> Seq<char> {
    if secure {
        "; Secure"@
    } else {
        Seq::empty()
    }
}

/// `; Secure` for cookies of an HTTPS deployment, nothing otherwise.
pub fn secure_cookie_suffix(secure: bool) -> (r: &'static str)
    ensures
        r@ == secure_suffix(secure),
{
    if secure {
        "; Secure"
    } else {
        proof {
            reveal_strlit("");
        }
        ""
    }
}

fn cookie(prefix: &str, value: &str, attributes: &str, secure: bool) -> (r: String)
    ensures
        r@ == prefix@ + value@ + attributes@ + secure_suffix(secure),
{
    let mut r = prefix.to_owned();
    push_str(&mut r, value);
    push_str(&mut r, attributes);
    push_str(&mut r, secure_cookie_suffix(secure));
    r
}

pub open spec fn session_cookie(session_id: Seq<char>, secure: bool) -> Seq<char> {
    "gitexplore_session="@ + session_id + "; Path=/; HttpOnly; SameSite=Lax; Max-Age=2592000"@
        + secure_suffix(secure)
}

pub open spec fn nonce_cookie(nonce: Seq<char>, secure: bool) -> Seq<char> {
    "gitexplore_oauth_nonce="@ + nonce
        + "; Path=/auth/oauth; HttpOnly; SameSite=Lax; Max-Age=600"@ + secure_suffix(secure)
}

/// The `Set-Cookie` value of a new session: thirty days, HTTP only, same-site lax.
pub fn session_cookie_value(session_id: &str, secure: bool) -> (r: String)
    ensures
        r@ == session_cookie(session_id@, secure),
{
    cookie(
        "gitexplore_session=",
        session_id,
        "; Path=/; HttpOnly; SameSite=Lax; Max-Age=2592000",
        secure,
    )
}

/// The `Set-Cookie` value that expires the session cookie.
pub fn clear_session_cookie_value(secure: bool) -> (r: String)
    ensures
        r@ == "gitexplore_session="@ + "; Path=/; HttpOnly; SameSite=Lax; Max-Age=0"@
            + secure_suffix(secure),
{
    proof {
        reveal_strlit("");
    }
    let r = cookie("gitexplore_session=", "", "; Path=/; HttpOnly; SameSite=Lax; Max-Age=0", secure);
    assert("gitexplore_session="@ + ""@ == "gitexplore_session="@);
    r
}

/// The `Set-Cookie` value of the browser nonce of an OAuth attempt: ten minutes, scoped to
/// the OAuth routes.
pub fn oauth_nonce_cookie_value(nonce: &str, secure: bool) -> (r: String)
    ensures
        r@ == nonce_cookie(nonce@, secure),
{
    cookie(
        "gitexplore_oauth_nonce=",
        nonce,
        "; Path=/auth/oauth; HttpOnly; SameSite=Lax; Max-Age=600",
        secure,
    )
}

/// The `Set-Cookie` value that expires the OAuth nonce cookie.
pub fn clear_oauth_nonce_cookie_value(secure: bool) -> (r: String)
    ensures
        r@ == "gitexplore_oauth_nonce="@ + "; Path=/auth/oauth; HttpOnly; SameSite=Lax; Max-Age=0"@
            + secure_suffix(secure),
{
    proof {
        reveal_strlit("");
    }
    let r = cookie(
        "gitexplore_oauth_nonce=",
        "",
        "; Path=/auth/oauth; HttpOnly; SameSite=Lax; Max-Age=0",
        secure,
    );
    assert("gitexplore_oauth_nonce="@ + ""@ == "gitexplore_oauth_nonce="@);
    r
}

// ---------------------------------------------------------------------------------------
// Origins
// ---------------------------------------------------------------------------------------

/// Two parsed URLs share scheme, host and (explicit or default) port.
pub open spec fn share_origin(a: UrlView, b: UrlView) -> bool {
    a.scheme == b.scheme && a.host == b.host && a.port == b.port
}

pub fn urls_share_origin(left: &ParsedUrl, right: &ParsedUrl) -> (r: bool)
    ensures
        r == share_origin(left@, right@),
{
    let hosts_match = match (&left.host, &right.host) {
        (Some(a), Some(b)) => str_equal(a.as_str(), b.as_str()),
        (None, None) => true,
        _ => false,
    };
    str_equal(left.scheme.as_str(), right.scheme.as_str()) && hosts_match && left.port
        == right.port
}

/// Both texts parse as URLs of the same origin.
pub open spec fn same_origin_texts(configured: Seq<char>, request: Seq<char>) -> bool {
    parsed_url(configured) is Ok && parsed_url(request) is Ok && share_origin(
        parsed_url(configured)->Ok_0,
        parsed_url(request)->Ok_0,
    )
}

pub fn same_origin(configured_origin: &str, request_origin: &str) -> (r: bool)
    ensures
        r == same_origin_texts(configured_origin@, request_origin@),
{
    let configured = match parse_url(configured_origin) {
        Ok(u) => u,
        Err(_) => return false,
    };
    let request = match parse_url(request_origin) {
        Ok(u) => u,
        Err(_) => return false,
    };
    urls_share_origin(&configured, &request)
}

/// The configured origin parses as an `https` URL.
pub fn origin_uses_https(origin: &str) -> (r: bool)
    ensures
        r == (parsed_url(origin@) is Ok && parsed_url(origin@)->Ok_0.scheme == "https"@),
{
    match parse_url(origin) {
        Ok(u) => str_equal(u.scheme.as_str(), "https"),
        Err(_) => false,
    }
}

/// A state-changing request is accepted without an `Origin` header, or with the frontend's
/// own origin.
pub fn mutation_origin_is_allowed(frontend_origin: &str, request_origin: Option<&str>) -> (r: bool)
    ensures
        r == match request_origin {
            None => true,
            Some(o) => same_origin_texts(frontend_origin@, o@),
        },
{
    match request_origin {
        None => true,
        Some(origin) => same_origin(frontend_origin, origin),
    }
}

/// The text without its trailing `/` characters.
pub open spec fn trim_end_slashes(s: Seq<char>) -> Seq<char>
    decreases s.len(),
{
    if s.len() > 0 && s.last() == '/' {
        trim_end_slashes(s.drop_last())
    } else {
        s
    }
}

/// Where to send the browser after OAuth: the requested URL where it has the frontend's
/// origin, else the frontend's `/app`.
pub open spec fn redirect_target(frontend_origin: Seq<char>, requested: Option<Seq<char>>) -> Seq<
    char,
> {
    let fallback = trim_end_slashes(frontend_origin) + "/app"@;
    match (parsed_url(frontend_origin), requested) {
        (Ok(frontend), Some(r)) => match parsed_url(r) {
            Ok(candidate) => if share_origin(frontend, candidate) {
                candidate.serialized
            } else {
                fallback
            },
            Err(_) => fallback,
        },
        _ => fallback,
    }
}

fn trim_end_slashes_text(s: &str) -> (r: String)
    ensures
        r@ == trim_end_slashes(s@),
{
    let chars = chars_of(s);
    let mut n: usize = chars.len();
    assert(chars@.take(n as int) == chars@);
    while n > 0 && chars[n - 1] == '/'
        invariant
            n <= chars.len(),
            chars@ == s@,
            trim_end_slashes(s@) == trim_end_slashes(chars@.take(n as int)),
        decreases n,
    {
        assert(chars@.take(n as int).drop_last() == chars@.take(n - 1));
        n -= 1;
    }
    sub_string(&chars, 0, n)
}

/// Keeps an OAuth redirect on the configured frontend origin.
pub fn safe_frontend_redirect(frontend_origin: &str, requested: Option<&str>) -> (r: String)
    ensures
        r@ == redirect_target(frontend_origin@, match requested {
            Some(t) => Some(t@),
            None => None,
        }),
{
    let mut fallback = trim_end_slashes_text(frontend_origin);
    push_str(&mut fallback, "/app");
    let frontend = match parse_url(frontend_origin) {
        Ok(u) => u,
        Err(_) => return fallback,
    };
    let requested = match requested {
        Some(t) => t,
        None => return fallback,
    };
    let candidate = match parse_url(requested) {
        Ok(u) => u,
        Err(_) => return fallback,
    };
    if urls_share_origin(&frontend, &candidate) {
        candidate.serialized
    } else {
        fallback
    }
}

} // verus!
