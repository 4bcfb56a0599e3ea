//! The GitHub REST budget: the reserve that every spending operation leaves untouched, and
//! the per-account lease that serialises the operations that spend it.
use vstd::prelude::*;

use crate::error::{validation, AppError};
use crate::graph::{GitHubRateLimitLease, GitHubRateLimitStatus};
use crate::logins::GITHUB_CORE_REST_RESERVE;
use std::collections::HashMap;

use crate::text::str_equal;

verus! {

/// How long a budget lease lasts, in microseconds (two minutes).
pub const RATE_BUDGET_LEASE_MICROS: i64 = 120_000_000;

/// How long a stored rate-limit reading may be shown without a new probe (one minute).
pub const RATE_LIMIT_DISPLAY_CACHE_MICROS: i64 = 60_000_000;

/// `a - b`, or 0 where `b` is larger.
pub open spec fn saturating_sub(a: usize, b: usize) -> int {
    if a >= b {
        a - b
    } else {
        0
    }
}

/// An operation that may spend `requested_cost` requests is refused where what would remain
/// falls below `reserve`.
pub open spec fn budget_refused(status: GitHubRateLimitStatus, requested_cost: usize, reserve: usize) -> bool {
    saturating_sub(status.remaining, requested_cost) < reserve
}

/// The error is the refusal of `operation`.
pub open spec fn is_budget_refusal(
    e: AppError,
    operation: Seq<char>,
    status: GitHubRateLimitStatus,
    requested_cost: usize,
    reserve: usize,
) -> bool {
    &&& e matches AppError::RateBudgetReserved {
        operation: op,
        remaining,
        reserve: r,
        requested_cost: c,
        reset_at,
    }
    &&& op@ == operation
    &&& remaining == status.remaining
    &&& r == reserve
    &&& c == requested_cost
    &&& reset_at == status.reset_at
}

/// Checks that an operation leaves at least `reserve` requests of the window unspent.
pub fn ensure_rate_budget(
    operation: &str,
    status: &GitHubRateLimitStatus,
    requested_cost: usize,
    reserve: usize,
) -> (r: Result<(), AppError>)
    ensures
        r is Ok <==> !budget_refused(*status, requested_cost, reserve),
        r is Err ==> is_budget_refusal(r->Err_0, operation@, *status, requested_cost, reserve),
{
    if status.remaining.saturating_sub(requested_cost) < reserve {
        return Err(
            AppError::RateBudgetReserved {
                operation: operation.to_owned(),
                remaining: status.remaining,
                reserve,
                requested_cost,
                reset_at: status.reset_at,
            },
        );
    }
    Ok(())
}

/// A caller may raise the reserve but never lower it below the library's floor.
pub fn ensure_reserve_floor(reserve: usize) -> (r: Result<(), AppError>)
    ensures
        r is Ok <==> reserve >= GITHUB_CORE_REST_RESERVE,
        r is Err ==> r->Err_0 is Validation && r->Err_0->Validation_0@
            == "GitHub request reserve cannot be lower than 1000"@,
{
    if reserve < GITHUB_CORE_REST_RESERVE {
        return Err(validation("GitHub request reserve cannot be lower than 1000"));
    }
    Ok(())
}

/// The one-request identity lookup after OAuth must leave the floor untouched too.
pub fn ensure_oauth_identity_budget_status(status: &GitHubRateLimitStatus) -> (r: Result<
    (),
    AppError,
>)
    ensures
        r is Ok <==> !budget_refused(*status, 1, GITHUB_CORE_REST_RESERVE),
        r is Err ==> is_budget_refusal(
            r->Err_0,
            "github_oauth_identity"@,
            *status,
            1,
            GITHUB_CORE_REST_RESERVE,
        ),
{
    ensure_rate_budget("github_oauth_identity", status, 1, GITHUB_CORE_REST_RESERVE)
}

/// A stored reading taken within the last minute may be shown as it is.
pub fn rate_status_is_current(status: &GitHubRateLimitStatus, now: i64) -> (r: bool)
    requires
        now >= i64::MIN + RATE_LIMIT_DISPLAY_CACHE_MICROS,
    ensures
        r == (status.checked_at >= now - RATE_LIMIT_DISPLAY_CACHE_MICROS),
{
    status.checked_at >= now - RATE_LIMIT_DISPLAY_CACHE_MICROS
}

// ---------------------------------------------------------------------------------------
// Budget leases
// ---------------------------------------------------------------------------------------

/// One account's lease: the holder's token and when it lapses.
#[derive(Debug, Clone)]
pub struct StoredLease {
    pub token: String,
    pub expires_at: i64,
}

/// The budget leases of all accounts, at most one per account.
#[derive(Debug)]
pub struct LeaseTable {
    pub leases: HashMap<i64, StoredLease>,
}

pub ghost struct LeaseView {
    pub token: Seq<char>,
    pub expires_at: i64,
}

/// The leases by account, tokens as text.
pub open spec fn lease_views(m: Map<i64, StoredLease>) -> Map<i64, LeaseView> {
    m.map_values(|l: StoredLease| LeaseView { token: l.token@, expires_at: l.expires_at })
}

/// The account holds an unexpired lease at `now`.
pub open spec fn lease_held(m: Map<i64, LeaseView>, github_user_id: i64, now: int) -> bool {
    m.contains_key(github_user_id) && m[github_user_id].expires_at > now
}

/// Taking an account's lease: refused while another is unexpired; otherwise the token holds
/// it until `now + duration`.
pub open spec fn acquire_step(
    m: Map<i64, LeaseView>,
    github_user_id: i64,
    token: Seq<char>,
    duration: int,
    now: int,
) -> (Map<i64, LeaseView>, bool) {
    if lease_held(m, github_user_id, now) {
        (m, false)
    } else {
        (m.insert(github_user_id, LeaseView { token, expires_at: (now + duration) as i64 }), true)
    }
}

/// Extending a lease: only its unexpired holder can.
pub open spec fn renew_step(
    m: Map<i64, LeaseView>,
    github_user_id: i64,
    token: Seq<char>,
    duration: int,
    now: int,
) -> (Map<i64, LeaseView>, bool) {
    if lease_held(m, github_user_id, now) && m[github_user_id].token == token {
        (m.insert(github_user_id, LeaseView { token, expires_at: (now + duration) as i64 }), true)
    } else {
        (m, false)
    }
}

/// Giving a lease back: only the token that holds it can.
pub open spec fn release_step(m: Map<i64, LeaseView>, github_user_id: i64, token: Seq<char>) -> (
    Map<i64, LeaseView>,
    bool,
) {
    if m.contains_key(github_user_id) && m[github_user_id].token == token {
        (m.remove(github_user_id), true)
    } else {
        (m, false)
    }
}

impl LeaseTable {
    pub fn new() -> (r: Self)
        ensures
            lease_views(r.leases@) == Map::<i64, LeaseView>::empty(),
    {
        let r = LeaseTable { leases: HashMap::new() };
        assert(lease_views(r.leases@) =~= Map::<i64, LeaseView>::empty());
        r
    }

    /// Takes an account's lease for `token` until `now + duration`, unless another lease on
    /// the account is still unexpired.
    pub fn try_acquire(&mut self, github_user_id: i64, token: &str, duration: i64, now: i64) -> (r:
        Option<GitHubRateLimitLease>)
        requires
            0 <= duration,
            now <= i64::MAX - duration,
        ensures
            (lease_views(final(self).leases@), r is Some) == acquire_step(
                lease_views(old(self).leases@),
                github_user_id,
                token@,
                duration as int,
                now as int,
            ),
            r is Some ==> r->0.github_user_id == github_user_id && r->0.token@ == token@
                && r->0.expires_at == now + duration,
    {
        broadcast use vstd::std_specs::hash::group_hash_axioms;

        if let Some(current) = self.leases.get(&github_user_id) {
            if current.expires_at > now {
                return None;
            }
        }
        let expires_at = now + duration;
        let ghost before = self.leases@;
        self.leases.insert(github_user_id, StoredLease { token: token.to_owned(), expires_at });
        assert(lease_views(self.leases@) =~= lease_views(before).insert(
            github_user_id,
            LeaseView { token: token@, expires_at },
        ));
        Some(GitHubRateLimitLease { github_user_id, token: token.to_owned(), expires_at })
    }

    /// Extends the holder's lease to `now + duration`; refused where the lease is no longer
    /// the account's current, unexpired one.
    pub fn renew(&mut self, lease: &GitHubRateLimitLease, duration: i64, now: i64) -> (r: bool)
        requires
            0 <= duration,
            now <= i64::MAX - duration,
        ensures
            (lease_views(final(self).leases@), r) == renew_step(
                lease_views(old(self).leases@),
                lease.github_user_id,
                lease.token@,
                duration as int,
                now as int,
            ),
    {
        broadcast use vstd::std_specs::hash::group_hash_axioms;

        let held = match self.leases.get(&lease.github_user_id) {
            Some(current) => str_equal(current.token.as_str(), lease.token.as_str())
                && current.expires_at > now,
            None => false,
        };
        if !held {
            return false;
        }
        let ghost before = self.leases@;
        self.leases.insert(
            lease.github_user_id,
            StoredLease { token: lease.token.clone(), expires_at: now + duration },
        );
        assert(lease_views(self.leases@) =~= lease_views(before).insert(
            lease.github_user_id,
            LeaseView { token: lease.token@, expires_at: (now + duration) as i64 },
        ));
        true
    }

    /// Gives the lease back; refused where another token holds the account's lease.
    pub fn release(&mut self, lease: &GitHubRateLimitLease) -> (r: bool)
        ensures
            (lease_views(final(self).leases@), r) == release_step(
                lease_views(old(self).leases@),
                lease.github_user_id,
                lease.token@,
            ),
    {
        broadcast use vstd::std_specs::hash::group_hash_axioms;

        let mine = match self.leases.get(&lease.github_user_id) {
            Some(current) => str_equal(current.token.as_str(), lease.token.as_str()),
            None => false,
        };
        if !mine {
            return false;
        }
        let ghost before = self.leases@;
        self.leases.remove(&lease.github_user_id);
        assert(lease_views(self.leases@) =~= lease_views(before).remove(lease.github_user_id));
        true
    }
}

/// A lease keeps every other caller out until it lapses: after one caller takes an account's
/// lease for a positive duration, any attempt before it lapses is refused.
pub proof fn law_lease_is_exclusive(
    m: Map<i64, LeaseView>,
    github_user_id: i64,
    first: Seq<char>,
    second: Seq<char>,
    duration: int,
    now: int,
    later: int,
)
    requires
        acquire_step(m, github_user_id, first, duration, now).1,
        now + duration <= i64::MAX,
        later < now + duration,
    ensures
        !acquire_step(
            acquire_step(m, github_user_id, first, duration, now).0,
            github_user_id,
            second,
            duration,
            later,
        ).1,
{
}

/// A lease is fenced by its token: while one token holds an account's lease, another token
/// can neither renew nor release it.
pub proof fn law_lease_is_fenced(
    m: Map<i64, LeaseView>,
    github_user_id: i64,
    holder: Seq<char>,
    other: Seq<char>,
    duration: int,
    now: int,
    later: int,
    extension: int,
)
    requires
        acquire_step(m, github_user_id, holder, duration, now).1,
        holder != other,
    ensures
        !renew_step(
            acquire_step(m, github_user_id, holder, duration, now).0,
            github_user_id,
            other,
            extension,
            later,
        ).1,
        !release_step(
            acquire_step(m, github_user_id, holder, duration, now).0,
            github_user_id,
            other,
        ).1,
{
}

/// A released lease frees the account at once: after its holder gives it back, the next
/// caller takes it, whenever it asks.
pub proof fn law_release_frees_the_lease(
    m: Map<i64, LeaseView>,
    github_user_id: i64,
    holder: Seq<char>,
    next: Seq<char>,
    duration: int,
    now: int,
    later: int,
)
    requires
        acquire_step(m, github_user_id, holder, duration, now).1,
    ensures
        release_step(acquire_step(m, github_user_id, holder, duration, now).0, github_user_id, holder).1,
        acquire_step(
            release_step(
                acquire_step(m, github_user_id, holder, duration, now).0,
                github_user_id,
                holder,
            ).0,
            github_user_id,
            next,
            duration,
            later,
        ).1,
{
}

} // verus!
