//! The shared GitHub graph's records, cache metadata and refresh bookkeeping.
//!
//! Every timestamp in this library is a count of microseconds since the Unix epoch.
use vstd::prelude::*;

use crate::discovery::views;
use crate::external::opt_view;

verus! {

#[derive(Debug, Clone, PartialEq, Eq, Default)]
pub struct GitHubUserNode {
    pub github_id: i64,
    pub login: String,
    pub name: Option<String>,
    pub url: String,
    pub avatar_url: Option<String>,
    pub bio: Option<String>,
    pub followers_count: Option<u64>,
    pub following_count: Option<u64>,
    pub public_repositories_count: Option<u64>,
}

#[derive(Debug, Clone, PartialEq, Eq, Default)]
pub struct GitHubRepositoryNode {
    pub github_id: i64,
    pub owner_login: String,
    pub name: String,
    pub full_name: String,
    pub description: Option<String>,
    pub html_url: String,
    pub stargazer_count: u64,
    pub fork_count: u64,
    pub language: Option<String>,
    pub topics: Vec<String>,
    pub pushed_at: Option<i64>,
    pub updated_at: Option<i64>,
    pub archived: bool,
    pub is_fork: bool,
}

/// A repository record as plain values.
pub ghost struct RepositoryNodeView {
    pub github_id: i64,
    pub owner_login: Seq<char>,
    pub name: Seq<char>,
    pub full_name: Seq<char>,
    pub description: Option<Seq<char>>,
    pub html_url: Seq<char>,
    pub stargazer_count: u64,
    pub fork_count: u64,
    pub language: Option<Seq<char>>,
    pub topics: Seq<Seq<char>>,
    pub pushed_at: Option<i64>,
    pub updated_at: Option<i64>,
    pub archived: bool,
    pub is_fork: bool,
}

impl View for GitHubRepositoryNode {
    type V = RepositoryNodeView;

    open spec fn view(&self) -> RepositoryNodeView {
        RepositoryNodeView {
            github_id: self.github_id,
            owner_login: self.owner_login@,
            name: self.name@,
            full_name: self.full_name@,
            description: opt_view(self.description),
            html_url: self.html_url@,
            stargazer_count: self.stargazer_count,
            fork_count: self.fork_count,
            language: opt_view(self.language),
            topics: views(self.topics@),
            pushed_at: self.pushed_at,
            updated_at: self.updated_at,
            archived: self.archived,
            is_fork: self.is_fork,
        }
    }
}

pub(crate) fn copy_text(t: &Option<String>) -> (r: Option<String>)
    ensures
        r == *t,
{
    match t {
        Some(v) => Some(v.clone()),
        None => None,
    }
}

/// A copy of a stored user record.
pub(crate) fn copy_user(u: &GitHubUserNode) -> (r: GitHubUserNode)
    ensures
        r == *u,
{
    GitHubUserNode {
        github_id: u.github_id,
        login: u.login.clone(),
        name: copy_text(&u.name),
        url: u.url.clone(),
        avatar_url: copy_text(&u.avatar_url),
        bio: copy_text(&u.bio),
        followers_count: u.followers_count,
        following_count: u.following_count,
        public_repositories_count: u.public_repositories_count,
    }
}

/// A copy of a stored repository record.
pub(crate) fn copy_repository(r: &GitHubRepositoryNode) -> (c: GitHubRepositoryNode)
    ensures
        c@ == r@,
        c.full_name == r.full_name,
{
    let topics = r.topics.clone();
    assert(topics@ =~= r.topics@);
    GitHubRepositoryNode {
        github_id: r.github_id,
        owner_login: r.owner_login.clone(),
        name: r.name.clone(),
        full_name: r.full_name.clone(),
        description: copy_text(&r.description),
        html_url: r.html_url.clone(),
        stargazer_count: r.stargazer_count,
        fork_count: r.fork_count,
        language: copy_text(&r.language),
        topics,
        pushed_at: r.pushed_at,
        updated_at: r.updated_at,
        archived: r.archived,
        is_fork: r.is_fork,
    }
}

/// Which collections of one user's neighbourhood were fetched completely.
#[derive(Debug, Clone, Copy, PartialEq, Eq, Structural)]
pub struct GraphImportCoverage {
    pub followers_complete: bool,
    pub following_complete: bool,
    pub starred_repositories_complete: bool,
    pub repositories_complete: bool,
}

/// A neighbourhood's coverage is complete only when all four of its collections are:
/// followers, followed users, starred repositories and owned repositories; a collection cut
/// at its cap leaves the whole neighbourhood incomplete.
pub proof fn law_coverage_is_complete_only_when_every_collection_is(c: GraphImportCoverage)
    ensures
        c.complete() ==> c.followers_complete,
        c.complete() ==> c.following_complete,
        c.complete() ==> c.starred_repositories_complete,
        c.complete() ==> c.repositories_complete,
        c.followers_complete && c.following_complete && c.starred_repositories_complete
            && c.repositories_complete ==> c.complete(),
{
}

impl GraphImportCoverage {
    pub open spec fn complete(self) -> bool {
        self.followers_complete && self.following_complete && self.starred_repositories_complete
            && self.repositories_complete
    }

    /// All four collections were fetched completely.
    pub fn is_complete(self) -> (r: bool)
        ensures
            r == self.complete(),
            r == (self.followers_complete && self.following_complete
                && self.starred_repositories_complete && self.repositories_complete),
    {
        self.followers_complete && self.following_complete && self.starred_repositories_complete
            && self.repositories_complete
    }

    /// The coverage of a user whose neighbourhood was never fully fetched.
    pub fn incomplete() -> (r: Self)
        ensures
            !r.followers_complete,
            !r.following_complete,
            !r.starred_repositories_complete,
            !r.repositories_complete,
    {
        GraphImportCoverage {
            followers_complete: false,
            following_complete: false,
            starred_repositories_complete: false,
            repositories_complete: false,
        }
    }
}

impl Default for GraphImportCoverage {
    /// An import without coverage information counts as complete.
    fn default() -> (r: Self)
        ensures
            r.complete(),
    {
        GraphImportCoverage {
            followers_complete: true,
            following_complete: true,
            starred_repositories_complete: true,
            repositories_complete: true,
        }
    }
}

/// The neighbourhood of one user as the GitHub API returned it.
#[derive(Debug, Clone, PartialEq, Eq, Default)]
pub struct GraphImport {
    pub viewer: Option<GitHubUserNode>,
    pub followers: Vec<GitHubUserNode>,
    pub following: Vec<GitHubUserNode>,
    pub starred_repositories: Vec<GitHubRepositoryNode>,
    pub repositories: Vec<GitHubRepositoryNode>,
    pub coverage: GraphImportCoverage,
}

/// When a cached record was fetched, when it turns stale, and whether a refresh runs.
#[derive(Debug, Clone, PartialEq, Eq, Default)]
pub struct CacheMetadata {
    pub last_fetched_at: Option<i64>,
    pub stale_at: Option<i64>,
    pub refresh_started_at: Option<i64>,
    pub last_refresh_error: Option<String>,
}

/// A copy of stored cache metadata.
pub(crate) fn copy_metadata(m: &CacheMetadata) -> (r: CacheMetadata)
    ensures
        r == *m,
{
    CacheMetadata {
        last_fetched_at: m.last_fetched_at,
        stale_at: m.stale_at,
        refresh_started_at: m.refresh_started_at,
        last_refresh_error: match &m.last_refresh_error {
            Some(e) => Some(e.clone()),
            None => None,
        },
    }
}

#[derive(Debug, Clone, Copy, PartialEq, Eq, Structural)]
pub enum CacheStatus {
    Fresh,
    Stale,
    Refreshing,
    RefreshFailed,
}

impl CacheStatus {
    /// The status as it is displayed.
    pub fn as_str(self) -> (r: &'static str)
        ensures
            self is Fresh ==> r@ == "fresh"@,
            self is Stale ==> r@ == "stale"@,
            self is Refreshing ==> r@ == "refreshing"@,
            self is RefreshFailed ==> r@ == "refresh_failed"@,
    {
        match self {
            CacheStatus::Fresh => "fresh",
            CacheStatus::Stale => "stale",
            CacheStatus::Refreshing => "refreshing",
            CacheStatus::RefreshFailed => "refresh_failed",
        }
    }
}

#[derive(Debug, Clone, Copy, PartialEq, Eq, Structural)]
pub enum RefreshJobStatus {
    Queued,
    Running,
    Failed,
}

#[derive(Debug, Clone, Copy, PartialEq, Eq, Structural)]
pub enum DiscoveryWarmupStatus {
    Queued,
    Running,
    Completed,
    ReserveProtected,
    Failed,
}

impl DiscoveryWarmupStatus {
    pub open spec fn runnable(self) -> bool {
        self is Queued || self is Running
    }

    /// A queued or running warmup still has work for the scheduler.
    pub fn is_runnable(self) -> (r: bool)
        ensures
            r == self.runnable(),
    {
        match self {
            DiscoveryWarmupStatus::Queued | DiscoveryWarmupStatus::Running => true,
            _ => false,
        }
    }

    /// The snake-case name of the status.
    pub fn as_str(self) -> (r: &'static str)
        ensures
            self is Queued ==> r@ == "queued"@,
            self is Running ==> r@ == "running"@,
            self is Completed ==> r@ == "completed"@,
            self is ReserveProtected ==> r@ == "reserve_protected"@,
            self is Failed ==> r@ == "failed"@,
    {
        match self {
            DiscoveryWarmupStatus::Queued => "queued",
            DiscoveryWarmupStatus::Running => "running",
            DiscoveryWarmupStatus::Completed => "completed",
            DiscoveryWarmupStatus::ReserveProtected => "reserve_protected",
            DiscoveryWarmupStatus::Failed => "failed",
        }
    }
}

/// A breadth-first background crawl that keeps the GitHub REST reserve intact.
#[derive(Debug, Clone, PartialEq, Eq)]
pub struct DiscoveryWarmupJob {
    pub id: String,
    pub seed_login: String,
    pub status: DiscoveryWarmupStatus,
    pub current_login: Option<String>,
    pub expanded_logins: Vec<String>,
    pub frontier: Vec<String>,
    pub frontier_truncated: bool,
    pub remaining_requests: Option<usize>,
    pub reserve_requests: usize,
    pub reset_at: Option<i64>,
    pub started_at: i64,
    pub updated_at: i64,
    pub completed_at: Option<i64>,
    pub last_error: Option<String>,
}

impl DiscoveryWarmupJob {
    /// How many users were expanded.
    pub fn expanded_users(&self) -> (r: usize)
        ensures
            r == self.expanded_logins@.len(),
    {
        self.expanded_logins.len()
    }

    /// How many users wait in the frontier.
    pub fn pending_users(&self) -> (r: usize)
        ensures
            r == self.frontier@.len(),
    {
        self.frontier.len()
    }

    /// Expanded plus pending users, saturating at `usize::MAX`.
    pub fn discovered_users(&self) -> (r: usize)
        ensures
            r == if self.expanded_logins@.len() + self.frontier@.len() > usize::MAX {
                usize::MAX as int
            } else {
                (self.expanded_logins@.len() + self.frontier@.len()) as int
            },
    {
        self.expanded_users().saturating_add(self.pending_users())
    }
}

#[derive(Debug, Clone, Copy, PartialEq, Eq, Structural)]
pub enum SyncState {
    NeverSynced,
    SyncInProgress,
    SyncSucceeded,
    SyncFailed,
}

#[derive(Debug, Clone, PartialEq, Eq)]
pub struct SyncStatus {
    pub state: SyncState,
    pub last_synced_at: Option<i64>,
    pub last_error: Option<String>,
}

impl Default for SyncStatus {
    /// A user that never synchronised.
    fn default() -> (r: Self)
        ensures
            r.state is NeverSynced,
            r.last_synced_at is None,
            r.last_error is None,
    {
        SyncStatus { state: SyncState::NeverSynced, last_synced_at: None, last_error: None }
    }
}

#[derive(Debug, Clone, PartialEq, Eq)]
pub struct SyncSummary {
    pub followers: usize,
    pub following: usize,
    pub starred_repositories: usize,
    pub repositories: usize,
    pub synced_at: i64,
    pub coverage: GraphImportCoverage,
}

#[derive(Debug, Clone, PartialEq, Eq)]
pub struct RefreshLease {
    pub entity_key: String,
    pub token: String,
    pub expires_at: i64,
}

#[derive(Debug, Clone, Copy, PartialEq, Eq, Structural)]
pub enum RefreshLeaseStatus {
    Running,
    Succeeded,
    Failed,
}

#[derive(Debug, Clone, PartialEq, Eq)]
pub struct RefreshLeaseState {
    pub status: RefreshLeaseStatus,
    pub token: String,
    pub expires_at: Option<i64>,
    pub expired: bool,
    pub outcome_json: Option<String>,
    pub last_error: Option<String>,
}

#[derive(Debug, Clone, PartialEq, Eq)]
pub enum RefreshLeaseAttempt {
    Acquired(RefreshLease),
    Busy(RefreshLeaseState),
}

#[derive(Debug, Clone, PartialEq, Eq)]
pub struct UserRefreshOutcome {
    pub canonical_login: String,
    pub summary: SyncSummary,
}

#[derive(Debug, Clone, PartialEq, Eq)]
pub struct GitHubRateLimitStatus {
    pub limit: usize,
    pub used: usize,
    pub remaining: usize,
    pub reset_at: i64,
    pub checked_at: i64,
}

#[derive(Debug, Clone, PartialEq, Eq)]
pub struct GitHubRateLimitLease {
    pub github_user_id: i64,
    pub token: String,
    pub expires_at: i64,
}

#[derive(Debug, Clone, PartialEq, Eq, Hash)]
pub enum GraphNodeRef {
    User { login: String },
    Repository { full_name: String },
}

/// The position of the record with this login, or -1.
pub open spec fn user_position(s: Seq<GitHubUserNode>, login: Seq<char>) -> int
    decreases s.len(),
{
    if s.len() == 0 {
        -1
    } else if s.last().login@ == login {
        s.len() - 1
    } else {
        user_position(s.drop_last(), login)
    }
}

pub open spec fn or_else<A>(first: Option<A>, second: Option<A>) -> Option<A> {
    if first is Some {
        first
    } else {
        second
    }
}

/// A record refreshed from a partial one: the identity, URL and login stay authoritative,
/// and every optional detail the incoming record lacks is kept from the existing one.
pub open spec fn merged_user(existing: GitHubUserNode, incoming: GitHubUserNode) -> GitHubUserNode {
    GitHubUserNode {
        github_id: incoming.github_id,
        login: existing.login,
        name: or_else(incoming.name, existing.name),
        url: incoming.url,
        avatar_url: or_else(incoming.avatar_url, existing.avatar_url),
        bio: or_else(incoming.bio, existing.bio),
        followers_count: or_else(incoming.followers_count, existing.followers_count),
        following_count: or_else(incoming.following_count, existing.following_count),
        public_repositories_count: or_else(
            incoming.public_repositories_count,
            existing.public_repositories_count,
        ),
    }
}

fn first_text(first: &Option<String>, second: &Option<String>) -> (r: Option<String>)
    ensures
        r == or_else(*first, *second),
{
    match first {
        Some(v) => Some(v.clone()),
        None => match second {
            Some(v) => Some(v.clone()),
            None => None,
        },
    }
}

pub(crate) fn user_index(users: &Vec<GitHubUserNode>, login: &str) -> (k: Option<usize>)
    ensures
        match k {
            Some(i) => i == user_position(users@, login@),
            None => user_position(users@, login@) < 0,
        },
{
    let mut j: usize = users.len();
    assert(users@.take(j as int) == users@);
    while j > 0
        invariant
            j <= users.len(),
            user_position(users@, login@) == user_position(users@.take(j as int), login@),
        decreases j,
    {
        assert(users@.take(j as int).drop_last() == users@.take(j - 1));
        if crate::text::str_equal(users[j - 1].login.as_str(), login) {
            return Some(j - 1);
        }
        j -= 1;
    }
    None
}

pub(crate) proof fn lemma_user_position(s: Seq<GitHubUserNode>, login: Seq<char>)
    ensures
        -1 <= user_position(s, login) < s.len(),
        user_position(s, login) >= 0 ==> s[user_position(s, login)].login@ == login,
    decreases s.len(),
{
    if s.len() > 0 {
        lemma_user_position(s.drop_last(), login);
    }
}

/// Writes a user record keyed by login: an authoritative record replaces the stored one, a
/// partial one is merged into it; a new login is added.
pub fn upsert_user_record(users: &mut Vec<GitHubUserNode>, incoming: GitHubUserNode, authoritative: bool)
    ensures
        user_position(old(users)@, incoming.login@) < 0 ==> final(users)@ == old(users)@.push(
            incoming,
        ),
        user_position(old(users)@, incoming.login@) >= 0 && authoritative ==> final(users)@ == old(
            users,
        )@.update(user_position(old(users)@, incoming.login@), incoming),
        user_position(old(users)@, incoming.login@) >= 0 && !authoritative ==> final(users)@
            == old(users)@.update(
            user_position(old(users)@, incoming.login@),
            merged_user(old(users)@[user_position(old(users)@, incoming.login@)], incoming),
        ),
{
    proof {
        lemma_user_position(users@, incoming.login@);
    }
    let ghost start = users@;
    let ghost inc = incoming;
    let ghost at = user_position(users@, incoming.login@);
    match user_index(users, incoming.login.as_str()) {
        None => {
            users.push(incoming);
        },
        Some(k) => {
            if authoritative {
                let ghost before = users@;
                let ghost value = incoming;
                users.set(k, incoming);
                assert(users@ == before.update(k as int, value));
                assert(k == at);
                assert(users@ == start.update(at, inc));
            } else {
                let existing = &users[k];
                let merged = GitHubUserNode {
                    github_id: incoming.github_id,
                    login: existing.login.clone(),
                    name: first_text(&incoming.name, &existing.name),
                    url: incoming.url.clone(),
                    avatar_url: first_text(&incoming.avatar_url, &existing.avatar_url),
                    bio: first_text(&incoming.bio, &existing.bio),
                    followers_count: match incoming.followers_count {
                        Some(c) => Some(c),
                        None => existing.followers_count,
                    },
                    following_count: match incoming.following_count {
                        Some(c) => Some(c),
                        None => existing.following_count,
                    },
                    public_repositories_count: match incoming.public_repositories_count {
                        Some(c) => Some(c),
                        None => existing.public_repositories_count,
                    },
                };
                users.set(k, merged);
            }
        },
    }
}

} // verus!
