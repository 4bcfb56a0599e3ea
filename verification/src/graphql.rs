//! The objects the GraphQL API returns, built from the library's records, and the codes and
//! extension fields its errors carry. Timestamps stay microseconds since the Unix epoch; the
//! program renders them as RFC 3339 text.
use vstd::prelude::*;

use crate::bookmarks::{Bookmark, BookmarkTarget};
use crate::discovery::DiscoveryUser;
use crate::error::{error_text, AppError};
use crate::graph::{
    CacheStatus, DiscoveryWarmupJob, DiscoveryWarmupStatus, GitHubRateLimitStatus,
    GitHubRepositoryNode, GitHubUserNode, GraphImportCoverage,
};
use crate::insights::{
    in_range, insight_status, RepositoryContributor, RepositoryContributorInsights,
    UserCommitRepository, UserCommitRepositoryInsights, REPOSITORY_CONTRIBUTOR_SOURCE,
    USER_COMMIT_ACTIVITY_SOURCE,
};
use crate::numbers::{clamp_i32, clamp_i64, integer_text, saturating_i32, saturating_i64, signed_decimal};

verus! {

/// The session a GraphQL request runs in.
#[derive(Debug, Clone)]
pub struct GraphQlSession {
    pub user_id: Option<String>,
}

/// Checks a repository discovery limit: `1..=100`.
pub fn repository_limit(value: i32) -> (r: Result<usize, String>)
    ensures
        1 <= value <= 100 ==> r == Ok::<usize, String>(value as usize),
        !(1 <= value <= 100) ==> r is Err && r->Err_0@
            == "repository discovery limit must be between 1 and 100"@,
{
    if value < 1 || value > 100 {
        return Err("repository discovery limit must be between 1 and 100".to_owned());
    }
    Ok(value as usize)
}

/// Checks an insight result limit: `1..=100`.
pub fn insight_limit(value: i32) -> (r: Result<usize, String>)
    ensures
        1 <= value <= 100 ==> r == Ok::<usize, String>(value as usize),
        !(1 <= value <= 100) ==> r is Err && r->Err_0@
            == "insight result limit must be between 1 and 100"@,
{
    if value < 1 || value > 100 {
        return Err("insight result limit must be between 1 and 100".to_owned());
    }
    Ok(value as usize)
}

/// The machine-readable code of an error.
pub open spec fn code_of(e: AppError) -> Seq<char> {
    match e {
        AppError::NotFound(_) => "NOT_FOUND"@,
        AppError::Validation(_) => "BAD_USER_INPUT"@,
        AppError::Config(_) => "CONFIGURATION_ERROR"@,
        AppError::External(_) => "EXTERNAL_SERVICE_ERROR"@,
        AppError::Storage(_) | AppError::Io(_) | AppError::Serde(_) => "STORAGE_ERROR"@,
        AppError::Unsupported(_) => "UNSUPPORTED"@,
        AppError::RateBudgetReserved { .. } => "RATE_BUDGET_RESERVED"@,
        AppError::GraphCapacityExceeded { .. } => "GRAPH_CAPACITY_EXCEEDED"@,
    }
}

pub fn error_code(error: &AppError) -> (r: &'static str)
    ensures
        r@ == code_of(*error),
{
    match error {
        AppError::NotFound(_) => "NOT_FOUND",
        AppError::Validation(_) => "BAD_USER_INPUT",
        AppError::Config(_) => "CONFIGURATION_ERROR",
        AppError::External(_) => "EXTERNAL_SERVICE_ERROR",
        AppError::Storage(_) | AppError::Io(_) | AppError::Serde(_) => "STORAGE_ERROR",
        AppError::Unsupported(_) => "UNSUPPORTED",
        AppError::RateBudgetReserved { .. } => "RATE_BUDGET_RESERVED",
        AppError::GraphCapacityExceeded { .. } => "GRAPH_CAPACITY_EXCEEDED",
    }
}

/// The extension fields of a protected-reserve refusal.
#[derive(Debug, Clone, Copy, PartialEq, Eq, Structural)]
pub struct RateBudgetExtensions {
    pub remaining: i64,
    pub reserve: i64,
    pub requested_cost: i64,
    pub reset_at: i64,
}

/// The extension fields of a capacity refusal.
#[derive(Debug, Clone)]
pub struct GraphCapacityExtensions {
    pub resource: String,
    pub current_count: i64,
    pub incoming_count: i64,
    pub projected_count: i64,
    pub maximum_count: i64,
}

/// What a GraphQL error carries: the message, the code, and the extension fields of the
/// two refusals that callers act on.
#[derive(Debug, Clone)]
pub struct GraphQlErrorDetails {
    pub message: String,
    pub code: &'static str,
    pub rate_budget: Option<RateBudgetExtensions>,
    pub graph_capacity: Option<GraphCapacityExtensions>,
}

pub fn graphql_error_details(error: &AppError) -> (r: GraphQlErrorDetails)
    ensures
        r.message@ == error_text(*error),
        r.code@ == code_of(*error),
        r.rate_budget is Some <==> *error is RateBudgetReserved,
        *error matches AppError::RateBudgetReserved {
            remaining,
            reserve,
            requested_cost,
            reset_at,
            ..
        } ==> r.rate_budget == Some(
            RateBudgetExtensions {
                remaining: clamp_i64(remaining as int),
                reserve: clamp_i64(reserve as int),
                requested_cost: clamp_i64(requested_cost as int),
                reset_at,
            },
        ),
        r.graph_capacity is Some <==> *error is GraphCapacityExceeded,
        *error matches AppError::GraphCapacityExceeded {
            resource,
            current_count,
            incoming_count,
            projected_count,
            maximum_count,
        } ==> {
            let c = r.graph_capacity->0;
            &&& c.resource@ == resource@
            &&& c.current_count == clamp_i64(current_count as int)
            &&& c.incoming_count == clamp_i64(incoming_count as int)
            &&& c.projected_count == clamp_i64(projected_count as int)
            &&& c.maximum_count == clamp_i64(maximum_count as int)
        },
{
    let rate_budget = match error {
        AppError::RateBudgetReserved { remaining, reserve, requested_cost, reset_at, .. } => Some(
            RateBudgetExtensions {
                remaining: saturating_i64(*remaining),
                reserve: saturating_i64(*reserve),
                requested_cost: saturating_i64(*requested_cost),
                reset_at: *reset_at,
            },
        ),
        _ => None,
    };
    let graph_capacity = match error {
        AppError::GraphCapacityExceeded {
            resource,
            current_count,
            incoming_count,
            projected_count,
            maximum_count,
        } => Some(
            GraphCapacityExtensions {
                resource: resource.clone(),
                current_count: saturating_i64(*current_count),
                incoming_count: saturating_i64(*incoming_count),
                projected_count: saturating_i64(*projected_count),
                maximum_count: saturating_i64(*maximum_count),
            },
        ),
        _ => None,
    };
    GraphQlErrorDetails {
        message: error.message(),
        code: error_code(error),
        rate_budget,
        graph_capacity,
    }
}

#[derive(Debug, Clone, Copy, PartialEq, Eq, Structural)]
pub enum CacheStatusObject {
    Fresh,
    Stale,
    Refreshing,
    RefreshFailed,
}

pub open spec fn cache_status_object(value: CacheStatus) -> CacheStatusObject {
    match value {
        CacheStatus::Fresh => CacheStatusObject::Fresh,
        CacheStatus::Stale => CacheStatusObject::Stale,
        CacheStatus::Refreshing => CacheStatusObject::Refreshing,
        CacheStatus::RefreshFailed => CacheStatusObject::RefreshFailed,
    }
}

impl CacheStatusObject {
    pub fn from_status(value: CacheStatus) -> (r: Self)
        ensures
            r == cache_status_object(value),
    {
        match value {
            CacheStatus::Fresh => CacheStatusObject::Fresh,
            CacheStatus::Stale => CacheStatusObject::Stale,
            CacheStatus::Refreshing => CacheStatusObject::Refreshing,
            CacheStatus::RefreshFailed => CacheStatusObject::RefreshFailed,
        }
    }
}

#[derive(Debug, Clone, Copy, PartialEq, Eq, Structural)]
pub struct GitHubRateLimitObject {
    pub limit: i32,
    pub used: i32,
    pub remaining: i32,
    pub reset_at: i64,
    pub checked_at: i64,
}

impl GitHubRateLimitObject {
    pub fn from_status(value: &GitHubRateLimitStatus) -> (r: Self)
        ensures
            r.limit == clamp_i32(value.limit as int),
            r.used == clamp_i32(value.used as int),
            r.remaining == clamp_i32(value.remaining as int),
            r.reset_at == value.reset_at,
            r.checked_at == value.checked_at,
    {
        GitHubRateLimitObject {
            limit: saturating_i32(value.limit as u64),
            used: saturating_i32(value.used as u64),
            remaining: saturating_i32(value.remaining as u64),
            reset_at: value.reset_at,
            checked_at: value.checked_at,
        }
    }
}

#[derive(Debug, Clone, Copy, PartialEq, Eq, Structural)]
pub enum DiscoveryWarmupStatusObject {
    Queued,
    Running,
    Completed,
    ReserveProtected,
    Failed,
}

pub open spec fn warmup_status_object(value: DiscoveryWarmupStatus) -> DiscoveryWarmupStatusObject {
    match value {
        DiscoveryWarmupStatus::Queued => DiscoveryWarmupStatusObject::Queued,
        DiscoveryWarmupStatus::Running => DiscoveryWarmupStatusObject::Running,
        DiscoveryWarmupStatus::Completed => DiscoveryWarmupStatusObject::Completed,
        DiscoveryWarmupStatus::ReserveProtected => DiscoveryWarmupStatusObject::ReserveProtected,
        DiscoveryWarmupStatus::Failed => DiscoveryWarmupStatusObject::Failed,
    }
}

impl DiscoveryWarmupStatusObject {
    pub fn from_status(value: DiscoveryWarmupStatus) -> (r: Self)
        ensures
            r == warmup_status_object(value),
    {
        match value {
            DiscoveryWarmupStatus::Queued => DiscoveryWarmupStatusObject::Queued,
            DiscoveryWarmupStatus::Running => DiscoveryWarmupStatusObject::Running,
            DiscoveryWarmupStatus::Completed => DiscoveryWarmupStatusObject::Completed,
            DiscoveryWarmupStatus::ReserveProtected => DiscoveryWarmupStatusObject::ReserveProtected,
            DiscoveryWarmupStatus::Failed => DiscoveryWarmupStatusObject::Failed,
        }
    }
}

#[derive(Debug, Clone)]
pub struct DiscoveryWarmupObject {
    pub id: String,
    pub seed_login: String,
    pub status: DiscoveryWarmupStatusObject,
    pub current_login: Option<String>,
    pub expanded_users: i32,
    pub discovered_users: i32,
    pub pending_users: i32,
    pub frontier_truncated: bool,
    pub remaining_requests: Option<i32>,
    pub reserve_requests: i32,
    pub reset_at: Option<i64>,
    pub started_at: i64,
    pub updated_at: i64,
    pub completed_at: Option<i64>,
    pub last_error: Option<String>,
}

impl DiscoveryWarmupObject {
    pub fn from_job(value: DiscoveryWarmupJob) -> (r: Self)
        ensures
            r.id == value.id,
            r.seed_login == value.seed_login,
            r.status == warmup_status_object(value.status),
            r.current_login == value.current_login,
            r.expanded_users == clamp_i32(value.expanded_logins@.len() as int),
            r.pending_users == clamp_i32(value.frontier@.len() as int),
            r.discovered_users == clamp_i32(
                if value.expanded_logins@.len() + value.frontier@.len() > usize::MAX {
                    usize::MAX as int
                } else {
                    value.expanded_logins@.len() + value.frontier@.len() as int
                },
            ),
            r.frontier_truncated == value.frontier_truncated,
            r.remaining_requests == match value.remaining_requests {
                Some(n) => Some(clamp_i32(n as int)),
                None => None,
            },
            r.reserve_requests == clamp_i32(value.reserve_requests as int),
            r.reset_at == value.reset_at,
            r.started_at == value.started_at,
            r.updated_at == value.updated_at,
            r.completed_at == value.completed_at,
            r.last_error == value.last_error,
    {
        let expanded_users = saturating_i32(value.expanded_users() as u64);
        let discovered_users = saturating_i32(value.discovered_users() as u64);
        let pending_users = saturating_i32(value.pending_users() as u64);
        let remaining_requests = match value.remaining_requests {
            Some(n) => Some(saturating_i32(n as u64)),
            None => None,
        };
        DiscoveryWarmupObject {
            id: value.id,
            seed_login: value.seed_login,
            status: DiscoveryWarmupStatusObject::from_status(value.status),
            current_login: value.current_login,
            expanded_users,
            discovered_users,
            pending_users,
            frontier_truncated: value.frontier_truncated,
            remaining_requests,
            reserve_requests: saturating_i32(value.reserve_requests as u64),
            reset_at: value.reset_at,
            started_at: value.started_at,
            updated_at: value.updated_at,
            completed_at: value.completed_at,
            last_error: value.last_error,
        }
    }
}

#[derive(Debug, Clone)]
pub struct RepositoryContributorObject {
    pub github_id: String,
    pub login: String,
    pub avatar_url: Option<String>,
    pub url: String,
    pub contributions: i32,
}

impl RepositoryContributorObject {
    pub fn from_contributor(value: RepositoryContributor) -> (r: Self)
        ensures
            r.github_id@ == signed_decimal(value.github_id as int),
            r.login == value.login,
            r.avatar_url == value.avatar_url,
            r.url == value.url,
            r.contributions == clamp_i32(value.contributions as int),
    {
        RepositoryContributorObject {
            github_id: integer_text(value.github_id),
            login: value.login,
            avatar_url: value.avatar_url,
            url: value.url,
            contributions: saturating_i32(value.contributions),
        }
    }
}

#[derive(Debug, Clone)]
pub struct RepositoryContributorInsightsObject {
    pub full_name: String,
    pub contributors: Vec<RepositoryContributorObject>,
    pub source_complete: bool,
    pub source_description: String,
    pub cache_status: CacheStatusObject,
    pub last_fetched_at: Option<i64>,
}

impl RepositoryContributorInsightsObject {
    /// The object for insights as they stand at `now`.
    pub fn from_insights(value: RepositoryContributorInsights, now: i64) -> (r: Self)
        requires
            in_range(now),
        ensures
            r.full_name == value.full_name,
            r.contributors@.len() == value.contributors@.len(),
            forall|i: int|
                0 <= i < r.contributors@.len() ==> (#[trigger] r.contributors@[i]).github_id@
                    == signed_decimal(value.contributors@[i].github_id as int)
                    && r.contributors@[i].login == value.contributors@[i].login
                    && r.contributors@[i].contributions == clamp_i32(
                    value.contributors@[i].contributions as int,
                ),
            r.source_complete == value.source_complete,
            r.source_description@ == REPOSITORY_CONTRIBUTOR_SOURCE@,
            r.cache_status == cache_status_object(insight_status(value.cache, now)),
            r.last_fetched_at == value.cache.last_fetched_at,
    {
        let cache_status = CacheStatusObject::from_status(value.cache_status(now));
        let last_fetched_at = value.cache.last_fetched_at;
        let full_name = value.full_name;
        let source_complete = value.source_complete;
        let source = value.contributors;
        let mut contributors: Vec<RepositoryContributorObject> = Vec::new();
        let mut rest = source;
        let ghost all = rest@;
        let mut i: usize = 0;
        while rest.len() > 0
            invariant
                contributors@.len() + rest@.len() == all.len(),
                rest@ == all.skip(contributors@.len() as int),
                forall|k: int|
                    0 <= k < contributors@.len() ==> (#[trigger] contributors@[k]).github_id@
                        == signed_decimal(all[k].github_id as int) && contributors@[k].login
                        == all[k].login && contributors@[k].contributions == clamp_i32(
                        all[k].contributions as int,
                    ),
            decreases rest.len(),
        {
            let next = rest.remove(0);
            assert(all.skip(contributors@.len() as int)[0] == next);
            assert(all.skip(contributors@.len() as int).drop_first() == all.skip(
                contributors@.len() + 1int,
            ));
            contributors.push(RepositoryContributorObject::from_contributor(next));
        }
        RepositoryContributorInsightsObject {
            full_name,
            contributors,
            source_complete,
            source_description: REPOSITORY_CONTRIBUTOR_SOURCE.to_owned(),
            cache_status,
            last_fetched_at,
        }
    }
}

#[derive(Debug, Clone)]
pub struct UserCommitRepositoryObject {
    pub github_id: String,
    pub full_name: String,
    pub url: String,
    pub push_count: i32,
    pub commit_count: i32,
    pub last_pushed_at: i64,
}

impl UserCommitRepositoryObject {
    pub fn from_repository(value: UserCommitRepository) -> (r: Self)
        ensures
            r.github_id@ == signed_decimal(value.github_id as int),
            r.full_name == value.full_name,
            r.url == value.url,
            r.push_count == clamp_i32(value.push_count as int),
            r.commit_count == clamp_i32(value.commit_count as int),
            r.last_pushed_at == value.last_pushed_at,
    {
        UserCommitRepositoryObject {
            github_id: integer_text(value.github_id),
            full_name: value.full_name,
            url: value.url,
            push_count: saturating_i32(value.push_count),
            commit_count: saturating_i32(value.commit_count),
            last_pushed_at: value.last_pushed_at,
        }
    }
}

#[derive(Debug, Clone)]
pub struct UserCommitRepositoryInsightsObject {
    pub login: String,
    pub repositories: Vec<UserCommitRepositoryObject>,
    pub window_days: i32,
    pub source_event_count: i32,
    pub source_truncated: bool,
    pub source_description: String,
    pub cache_status: CacheStatusObject,
    pub last_fetched_at: Option<i64>,
}

impl UserCommitRepositoryInsightsObject {
    /// The object for insights as they stand at `now`.
    pub fn from_insights(value: UserCommitRepositoryInsights, now: i64) -> (r: Self)
        requires
            in_range(now),
        ensures
            r.login == value.login,
            r.repositories@.len() == value.repositories@.len(),
            forall|i: int|
                0 <= i < r.repositories@.len() ==> (#[trigger] r.repositories@[i]).full_name
                    == value.repositories@[i].full_name && r.repositories@[i].commit_count
                    == clamp_i32(value.repositories@[i].commit_count as int)
                    && r.repositories@[i].push_count == clamp_i32(
                    value.repositories@[i].push_count as int,
                ) && r.repositories@[i].last_pushed_at == value.repositories@[i].last_pushed_at,
            r.window_days == 30,
            r.source_event_count == clamp_i32(value.source_event_count as int),
            r.source_truncated == value.source_truncated,
            r.source_description@ == USER_COMMIT_ACTIVITY_SOURCE@,
            r.cache_status == cache_status_object(insight_status(value.cache, now)),
            r.last_fetched_at == value.cache.last_fetched_at,
    {
        let cache_status = CacheStatusObject::from_status(value.cache_status(now));
        let last_fetched_at = value.cache.last_fetched_at;
        let login = value.login;
        let source_event_count = saturating_i32(value.source_event_count as u64);
        let source_truncated = value.source_truncated;
        let mut rest = value.repositories;
        let ghost all = rest@;
        let mut repositories: Vec<UserCommitRepositoryObject> = Vec::new();
        while rest.len() > 0
            invariant
                repositories@.len() + rest@.len() == all.len(),
                rest@ == all.skip(repositories@.len() as int),
                forall|k: int|
                    0 <= k < repositories@.len() ==> (#[trigger] repositories@[k]).full_name
                        == all[k].full_name && repositories@[k].commit_count == clamp_i32(
                        all[k].commit_count as int,
                    ) && repositories@[k].push_count == clamp_i32(all[k].push_count as int)
                        && repositories@[k].last_pushed_at == all[k].last_pushed_at,
            decreases rest.len(),
        {
            let next = rest.remove(0);
            assert(all.skip(repositories@.len() as int)[0] == next);
            assert(all.skip(repositories@.len() as int).drop_first() == all.skip(
                repositories@.len() + 1int,
            ));
            repositories.push(UserCommitRepositoryObject::from_repository(next));
        }
        UserCommitRepositoryInsightsObject {
            login,
            repositories,
            window_days: 30,
            source_event_count,
            source_truncated,
            source_description: USER_COMMIT_ACTIVITY_SOURCE.to_owned(),
            cache_status,
            last_fetched_at,
        }
    }
}

#[derive(Debug, Clone)]
pub struct GraphUserObject {
    pub github_id: String,
    pub login: String,
    pub name: Option<String>,
    pub url: String,
    pub avatar_url: Option<String>,
    pub bio: Option<String>,
    pub followers_count: Option<i32>,
    pub following_count: Option<i32>,
}

pub open spec fn clamp_count(n: Option<u64>) -> Option<i32> {
    match n {
        Some(v) => Some(clamp_i32(v as int)),
        None => None,
    }
}

fn saturating_count(n: Option<u64>) -> (r: Option<i32>)
    ensures
        r == clamp_count(n),
{
    match n {
        Some(v) => Some(saturating_i32(v)),
        None => None,
    }
}

impl GraphUserObject {
    pub fn from_user(value: GitHubUserNode) -> (r: Self)
        ensures
            r.github_id@ == signed_decimal(value.github_id as int),
            r.login == value.login,
            r.name == value.name,
            r.url == value.url,
            r.avatar_url == value.avatar_url,
            r.bio == value.bio,
            r.followers_count == clamp_count(value.followers_count),
            r.following_count == clamp_count(value.following_count),
    {
        GraphUserObject {
            github_id: integer_text(value.github_id),
            login: value.login,
            name: value.name,
            url: value.url,
            avatar_url: value.avatar_url,
            bio: value.bio,
            followers_count: saturating_count(value.followers_count),
            following_count: saturating_count(value.following_count),
        }
    }

    pub fn from_discovery_user(value: DiscoveryUser) -> (r: Self)
        ensures
            r.github_id@ == signed_decimal(value.profile.github_id as int),
            r.login == value.profile.login,
            r.url == value.profile.url,
            r.followers_count == clamp_count(value.profile.followers_count),
            r.following_count == clamp_count(value.profile.following_count),
    {
        GraphUserObject::from_user(value.profile)
    }
}

#[derive(Debug, Clone)]
pub struct GraphRepositoryObject {
    pub github_id: String,
    pub owner_login: String,
    pub name: String,
    pub full_name: String,
    pub description: Option<String>,
    pub html_url: String,
    pub stargazer_count: i32,
    pub fork_count: i32,
    pub primary_language: Option<String>,
    pub topics: Vec<String>,
    /// The latest push, or else the latest update.
    pub updated_at: Option<i64>,
    pub archived: bool,
    pub fork: bool,
}

impl GraphRepositoryObject {
    pub fn from_repository(value: GitHubRepositoryNode) -> (r: Self)
        ensures
            r.github_id@ == signed_decimal(value.github_id as int),
            r.owner_login == value.owner_login,
            r.name == value.name,
            r.full_name == value.full_name,
            r.description == value.description,
            r.html_url == value.html_url,
            r.stargazer_count == clamp_i32(value.stargazer_count as int),
            r.fork_count == clamp_i32(value.fork_count as int),
            r.primary_language == value.language,
            r.topics == value.topics,
            r.updated_at == if value.pushed_at is Some {
                value.pushed_at
            } else {
                value.updated_at
            },
            r.archived == value.archived,
            r.fork == value.is_fork,
    {
        let updated_at = match value.pushed_at {
            Some(t) => Some(t),
            None => value.updated_at,
        };
        GraphRepositoryObject {
            github_id: integer_text(value.github_id),
            owner_login: value.owner_login,
            name: value.name,
            full_name: value.full_name,
            description: value.description,
            html_url: value.html_url,
            stargazer_count: saturating_i32(value.stargazer_count),
            fork_count: saturating_i32(value.fork_count),
            primary_language: value.language,
            topics: value.topics,
            updated_at,
            archived: value.archived,
            fork: value.is_fork,
        }
    }
}

#[derive(Debug, Clone, Copy, PartialEq, Eq, Structural)]
pub struct GraphCoverageObject {
    pub followers_complete: bool,
    pub following_complete: bool,
    pub starred_repositories_complete: bool,
    pub repositories_complete: bool,
}

impl GraphCoverageObject {
    pub fn from_coverage(value: GraphImportCoverage) -> (r: Self)
        ensures
            r.followers_complete == value.followers_complete,
            r.following_complete == value.following_complete,
            r.starred_repositories_complete == value.starred_repositories_complete,
            r.repositories_complete == value.repositories_complete,
    {
        GraphCoverageObject {
            followers_complete: value.followers_complete,
            following_complete: value.following_complete,
            starred_repositories_complete: value.starred_repositories_complete,
            repositories_complete: value.repositories_complete,
        }
    }
}

#[derive(Debug, Clone)]
pub struct SavedRepositoryObject {
    pub id: String,
    pub full_name: String,
    pub categories: Vec<String>,
    pub note: Option<String>,
    pub created_at: i64,
}

impl SavedRepositoryObject {
    /// The saved-repository object of a bookmark; a bookmark of a person is refused.
    pub fn from_bookmark(value: Bookmark) -> (r: Result<Self, AppError>)
        ensures
            value.target is GitHubUser ==> r is Err && r->Err_0 is Validation
                && r->Err_0->Validation_0@ == "saved target is not a repository"@,
            value.target is GitHubRepository ==> r is Ok && r->Ok_0.id == value.id
                && r->Ok_0.full_name == value.target->full_name && r->Ok_0.categories
                == value.categories && r->Ok_0.note == value.note && r->Ok_0.created_at
                == value.created_at,
    {
        match value.target {
            BookmarkTarget::GitHubRepository { full_name } => Ok(
                SavedRepositoryObject {
                    id: value.id,
                    full_name,
                    categories: value.categories,
                    note: value.note,
                    created_at: value.created_at,
                },
            ),
            BookmarkTarget::GitHubUser { .. } => Err(
                AppError::Validation("saved target is not a repository".to_owned()),
            ),
        }
    }
}

} // verus!
