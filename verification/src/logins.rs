//! Validation and normalisation of GitHub logins, repository names and request limits.
use vstd::prelude::*;

use crate::error::{validation, AppError};
use crate::text::{
    chars_of, is_alphanumeric, is_ascii_alnum, lower_chars, lower_seq, owned, push_str, str_equal,
    string_from_chars, trim_chars, trim_seq,
};

verus! {

/// The REST `core` requests that every GitHub-spending operation leaves untouched.
pub const GITHUB_CORE_REST_RESERVE: usize = 1000;

/// A trimmed login is acceptable: 1-39 ASCII letters, digits or single hyphens, starting
/// and ending with a letter or digit.
pub open spec fn login_shape_ok(s: Seq<char>) -> bool {
    &&& 1 <= s.len() <= 39
    &&& forall|i: int| 0 <= i < s.len() ==> is_ascii_alnum(#[trigger] s[i]) || s[i] == '-'
    &&& is_ascii_alnum(s[0])
    &&& is_ascii_alnum(s.last())
    &&& forall|i: int| 0 <= i < s.len() - 1 ==> !(#[trigger] s[i] == '-' && s[i + 1] == '-')
}

/// The login that `normalize_github_login` accepts `raw` as, if any.
pub open spec fn normalized_login(raw: Seq<char>) -> Option<Seq<char>> {
    if login_shape_ok(trim_seq(raw)) {
        Some(lower_seq(trim_seq(raw)))
    } else {
        None
    }
}

pub const LOGIN_RULE: &'static str =
    "github login must be 1-39 ASCII letters, digits, or single hyphens and cannot begin or end with a hyphen";

fn shape_ok(s: &Vec<char>) -> (r: bool)
    ensures
        r == login_shape_ok(s@),
{
    let n = s.len();
    if n < 1 || n > 39 {
        return false;
    }
    if !is_alphanumeric(s[0]) || !is_alphanumeric(s[n - 1]) {
        return false;
    }
    let mut i: usize = 0;
    while i < n
        invariant
            n == s.len(),
            i <= n,
            forall|k: int| 0 <= k < i ==> is_ascii_alnum(#[trigger] s@[k]) || s@[k] == '-',
            forall|k: int| 0 <= k < i && k < n - 1 ==> !(#[trigger] s@[k] == '-' && s@[k + 1] == '-'),
        decreases n - i,
    {
        let c = s[i];
        if !(is_alphanumeric(c) || c == '-') {
            return false;
        }
        if i + 1 < n && c == '-' && s[i + 1] == '-' {
            return false;
        }
        i += 1;
    }
    true
}

/// Trims, validates and lower-cases a GitHub login.
pub fn normalize_github_login(login: &str) -> (r: Result<String, AppError>)
    ensures
        normalized_login(login@) is Some ==> r is Ok && r->Ok_0@ == normalized_login(login@)->0,
        normalized_login(login@) is None ==> r is Err && r->Err_0 is Validation,
{
    let trimmed = trim_chars(&chars_of(login));
    if shape_ok(&trimmed) {
        Ok(string_from_chars(&lower_chars(&trimmed)))
    } else {
        Err(validation(LOGIN_RULE))
    }
}

/// No two entries of the trail are the same text.
pub open spec fn all_distinct(trail: Seq<String>) -> bool {
    forall|i: int, j: int| 0 <= i < j < trail.len() ==> trail[i]@ != trail[j]@
}

/// Rejects a trail that names any person twice.
pub fn ensure_distinct_exploration_trail(trail: &Vec<String>) -> (r: Result<(), AppError>)
    ensures
        r is Ok <==> all_distinct(trail@),
        r is Err ==> r->Err_0 is Validation,
{
    let mut j: usize = 0;
    while j < trail.len()
        invariant
            j <= trail.len(),
            forall|a: int, b: int| 0 <= a < b < j ==> trail@[a]@ != trail@[b]@,
        decreases trail.len() - j,
    {
        let mut i: usize = 0;
        while i < j
            invariant
                i <= j < trail.len(),
                forall|a: int, b: int| 0 <= a < b < j ==> trail@[a]@ != trail@[b]@,
                forall|a: int| 0 <= a < i ==> trail@[a]@ != trail@[j as int]@,
            decreases j - i,
        {
            if str_equal(trail[i].as_str(), trail[j].as_str()) {
                return Err(validation("exploration trail cannot repeat a person"));
            }
            i += 1;
        }
        j += 1;
    }
    Ok(())
}

/// A limit lies in `1..=100`, as discovery and insight queries require.
pub fn ensure_limit_in_range(limit: usize, message: &str) -> (r: Result<(), AppError>)
    ensures
        r is Ok <==> 1 <= limit <= 100,
        r is Err ==> r->Err_0 is Validation && r->Err_0->Validation_0@ == message@,
{
    if 1 <= limit && limit <= 100 {
        Ok(())
    } else {
        Err(validation(message))
    }
}

/// Rejects an insight limit outside `1..=100`.
pub fn ensure_insight_limit(limit: usize) -> (r: Result<(), AppError>)
    ensures
        r is Ok <==> 1 <= limit <= 100,
        r is Err ==> r->Err_0 is Validation,
{
    ensure_limit_in_range(limit, "insight result limit must be between 1 and 100")
}

/// A trimmed repository name has the `owner/name` form: one slash, both sides non-empty.
pub open spec fn repository_name_ok(s: Seq<char>) -> bool {
    exists|k: int|
        0 < k < s.len() - 1 && #[trigger] s[k] == '/' && forall|m: int|
            0 <= m < s.len() && m != k ==> #[trigger] s[m] != '/'
}

fn count_slashes(s: &Vec<char>) -> (r: (usize, usize))
    ensures
        r.0 <= s.len(),
        r.0 == 0 ==> forall|m: int| 0 <= m < s.len() ==> s@[m] != '/',
        r.0 == 1 ==> r.1 < s.len() && s@[r.1 as int] == '/' && forall|m: int|
            0 <= m < s.len() && m != r.1 ==> s@[m] != '/',
        r.0 >= 2 ==> exists|a: int, b: int| 0 <= a < b < s.len() && s@[a] == '/' && s@[b] == '/',
{
    let mut count: usize = 0;
    let mut first: usize = 0;
    let mut i: usize = 0;
    while i < s.len()
        invariant
            i <= s.len(),
            count <= i,
            count == 0 ==> forall|m: int| 0 <= m < i ==> s@[m] != '/',
            count >= 1 ==> first < i && s@[first as int] == '/' && forall|m: int|
                0 <= m < first ==> s@[m] != '/',
            count == 1 ==> forall|m: int| 0 <= m < i && m != first ==> s@[m] != '/',
            count >= 2 ==> exists|a: int, b: int| 0 <= a < b < i && s@[a] == '/' && s@[b] == '/',
        decreases s.len() - i,
    {
        if s[i] == '/' {
            if count == 0 {
                first = i;
            }
            if count < 2 {
                count += 1;
            }
        }
        i += 1;
    }
    (count, first)
}

/// Trims a repository name and checks the `owner/name` form.
pub fn validate_repository_full_name(full_name: &str) -> (r: Result<String, AppError>)
    ensures
        repository_name_ok(trim_seq(full_name@)) ==> r is Ok && r->Ok_0@ == trim_seq(full_name@),
        !repository_name_ok(trim_seq(full_name@)) ==> r is Err && r->Err_0 is Validation,
{
    let t = trim_chars(&chars_of(full_name));
    let (count, at) = count_slashes(&t);
    if count == 1 && at > 0 && at + 1 < t.len() {
        assert(repository_name_ok(t@) ) by {
            assert(t@[at as int] == '/');
        }
        Ok(string_from_chars(&t))
    } else {
        proof {
            if repository_name_ok(t@) {
                let k = choose|k: int|
                    0 < k < t@.len() - 1 && #[trigger] t@[k] == '/' && forall|m: int|
                        0 <= m < t@.len() && m != k ==> #[trigger] t@[m] != '/';
                if count >= 2 {
                    let (a, b) = choose|a: int, b: int|
                        0 <= a < b < t@.len() && t@[a] == '/' && t@[b] == '/';
                    assert(a == k || b == k);
                }
                assert(count != 0);
            }
        }
        Err(validation("repository name must use the owner/name form"))
    }
}

/// The key under which refreshes of one GitHub user are deduplicated.
pub open spec fn refresh_key_text(login: Seq<char>) -> Seq<char> {
    "github-user:"@ + lower_seq(trim_seq(login))
}

/// `github-user:<trimmed, lower-cased login>`.
pub fn refresh_key(login: &str) -> (r: String)
    ensures
        r@ == refresh_key_text(login@),
{
    let mut r = owned("github-user:");
    let l = string_from_chars(&lower_chars(&trim_chars(&chars_of(login))));
    push_str(&mut r, l.as_str());
    r
}

/// `discovery-warmup:<app user id>`: the lease key of one user's warmup batches.
pub fn warmup_refresh_key(user_id: &str) -> (r: String)
    ensures
        r@ == "discovery-warmup:"@ + user_id@,
{
    let mut r = owned("discovery-warmup:");
    push_str(&mut r, user_id);
    r
}

} // verus!
