//! Contributor and commit-activity insights: their cache life cycle, and the aggregation of
//! a user's public push events into repositories ranked by activity.
use vstd::prelude::*;

use crate::graph::{CacheMetadata, CacheStatus, RefreshJobStatus};
use crate::text::{chars_of, push_str, str_equal};

verus! {

/// Microseconds in a minute and in an hour.
pub const MINUTE_MICROS: i64 = 60_000_000;

pub const HOUR_MICROS: i64 = 3_600_000_000;

pub const REPOSITORY_CONTRIBUTOR_CACHE_HOURS: i64 = 24;

pub const USER_COMMIT_ACTIVITY_CACHE_HOURS: i64 = 1;

pub const INSIGHT_REFRESH_RETRY_MINUTES: i64 = 5;

pub const INSIGHT_REFRESH_TIMEOUT_MINUTES: i64 = 5;

pub const USER_COMMIT_ACTIVITY_WINDOW_DAYS: i64 = 30;

pub const USER_COMMIT_ACTIVITY_EVENT_LIMIT: usize = 300;

pub const REPOSITORY_CONTRIBUTOR_LIMIT: usize = 100;

/// How long a refresh may run before it counts as abandoned.
pub const REFRESH_TIMEOUT_MICROS: i64 = 300_000_000;

/// How long a failed refresh waits before it may be retried.
pub const REFRESH_RETRY_MICROS: i64 = 300_000_000;

pub const CONTRIBUTOR_CACHE_MICROS: i64 = 86_400_000_000;

pub const COMMIT_ACTIVITY_CACHE_MICROS: i64 = 3_600_000_000;

/// The rolling window of commit activity: thirty days.
pub const ACTIVITY_WINDOW_MICROS: i64 = 2_592_000_000_000;

pub const REPOSITORY_CONTRIBUTOR_SOURCE: &'static str =
    "GitHub repository contributors, ranked by attributed commits across repository history; GitHub may cache these totals for several hours.";

pub const USER_COMMIT_ACTIVITY_SOURCE: &'static str =
    "GitHub public PushEvent activity from the rolling last 30 days, limited by GitHub to the newest 300 public events and subject to event-feed latency.";

#[derive(Debug, Clone, PartialEq, Eq)]
pub struct RepositoryContributor {
    pub github_id: i64,
    pub login: String,
    pub avatar_url: Option<String>,
    pub url: String,
    pub contributions: u64,
}

#[derive(Debug, Clone, PartialEq, Eq)]
pub struct RepositoryContributorsSnapshot {
    pub contributors: Vec<RepositoryContributor>,
    pub source_complete: bool,
}

#[derive(Debug, Clone)]
pub struct RepositoryContributorInsights {
    pub full_name: String,
    pub contributors: Vec<RepositoryContributor>,
    pub source_complete: bool,
    pub cache: CacheMetadata,
}

#[derive(Debug, Clone, PartialEq, Eq)]
pub struct UserCommitRepository {
    pub github_id: i64,
    pub full_name: String,
    pub url: String,
    pub push_count: u64,
    pub commit_count: u64,
    pub last_pushed_at: i64,
}

#[derive(Debug, Clone, PartialEq, Eq)]
pub struct UserCommitRepositoriesSnapshot {
    pub repositories: Vec<UserCommitRepository>,
    pub source_event_count: usize,
    pub source_truncated: bool,
}

#[derive(Debug, Clone)]
pub struct UserCommitRepositoryInsights {
    pub login: String,
    pub repositories: Vec<UserCommitRepository>,
    pub source_event_count: usize,
    pub source_truncated: bool,
    pub cache: CacheMetadata,
}

// ---------------------------------------------------------------------------------------
// The cache life cycle
// ---------------------------------------------------------------------------------------

/// A refresh started less than the timeout ago is still running.
pub open spec fn refresh_active(m: CacheMetadata, now: i64) -> bool {
    m.refresh_started_at is Some && m.refresh_started_at->0 > now - REFRESH_TIMEOUT_MICROS
}

/// The status shown for cached insights.
pub open spec fn insight_status(m: CacheMetadata, now: i64) -> CacheStatus {
    if m.last_fetched_at is None {
        CacheStatus::Stale
    } else if refresh_active(m, now) {
        CacheStatus::Refreshing
    } else if m.last_refresh_error is Some {
        CacheStatus::RefreshFailed
    } else if m.stale_at is None || m.stale_at->0 <= now {
        CacheStatus::Stale
    } else {
        CacheStatus::Fresh
    }
}

/// A failed refresh is reported: insights that were fetched, with no refresh started in the
/// last five minutes and a refresh error kept, are shown as a failed refresh, whatever their
/// stale time (a failure sets it to the retry time, which may lie ahead).
pub proof fn law_a_failed_refresh_is_reported(m: CacheMetadata, now: i64)
    ensures
        m.last_fetched_at is Some && !(m.refresh_started_at is Some && m.refresh_started_at->0
            > now - 300_000_000) && m.last_refresh_error is Some ==> insight_status(m, now)
            is RefreshFailed,
{
}

/// Insights are shown fresh only when they were fetched, carry no refresh error, no refresh
/// runs, and their stale time lies ahead.
pub proof fn law_fresh_insights_carry_no_error(m: CacheMetadata, now: i64)
    ensures
        insight_status(m, now) is Fresh ==> {
            &&& m.last_fetched_at is Some
            &&& m.last_refresh_error is None
            &&& !(m.refresh_started_at is Some && m.refresh_started_at->0 > now - 300_000_000)
            &&& m.stale_at is Some && m.stale_at->0 > now
        },
{
}

/// After a refresh of fetched insights fails, they are shown as a failed refresh at every
/// later instant, until a new refresh starts: the retry time set by the failure does not make
/// them fresh.
pub proof fn law_failed_refresh_stays_reported(
    m: CacheMetadata,
    error: String,
    retry_at: i64,
    later: i64,
)
    requires
        m.last_fetched_at is Some,
    ensures
        insight_status(
            CacheMetadata {
                refresh_started_at: None,
                last_refresh_error: Some(error),
                stale_at: Some(retry_at),
                ..m
            },
            later,
        ) is RefreshFailed,
{
}

/// A time far enough from the representable edge for the cache arithmetic.
pub open spec fn in_range(t: i64) -> bool {
    i64::MIN + ACTIVITY_WINDOW_MICROS <= t <= i64::MAX - ACTIVITY_WINDOW_MICROS
}

/// Whether a refresh started less than the timeout before `now` is still running.
pub fn refresh_is_active(metadata: &CacheMetadata, now: i64) -> (r: bool)
    requires
        in_range(now),
    ensures
        r == refresh_active(*metadata, now),
{
    match metadata.refresh_started_at {
        Some(started_at) => started_at > now - REFRESH_TIMEOUT_MICROS,
        None => false,
    }
}

fn insight_cache_status(metadata: &CacheMetadata, now: i64) -> (r: CacheStatus)
    requires
        in_range(now),
    ensures
        r == insight_status(*metadata, now),
        metadata.last_fetched_at is Some && !(metadata.refresh_started_at is Some
            && metadata.refresh_started_at->0 > now - 300_000_000)
            && metadata.last_refresh_error is Some ==> r is RefreshFailed,
        r is Fresh ==> metadata.last_refresh_error is None && metadata.last_fetched_at is Some
            && metadata.stale_at is Some && metadata.stale_at->0 > now,
{
    proof {
        law_a_failed_refresh_is_reported(*metadata, now);
        law_fresh_insights_carry_no_error(*metadata, now);
    }
    if metadata.last_fetched_at.is_none() {
        CacheStatus::Stale
    } else if refresh_is_active(metadata, now) {
        CacheStatus::Refreshing
    } else if metadata.last_refresh_error.is_some() {
        CacheStatus::RefreshFailed
    } else {
        match metadata.stale_at {
            None => CacheStatus::Stale,
            Some(stale_at) => if stale_at <= now {
                CacheStatus::Stale
            } else {
                CacheStatus::Fresh
            },
        }
    }
}

/// Cache metadata for data fetched at `fetched_at` that turns stale at `stale_at`.
pub open spec fn fresh_metadata(fetched_at: i64, stale_at: i64) -> CacheMetadata {
    CacheMetadata {
        last_fetched_at: Some(fetched_at),
        stale_at: Some(stale_at),
        refresh_started_at: None,
        last_refresh_error: None,
    }
}

fn fresh_cache(fetched_at: i64, stale_at: i64) -> (r: CacheMetadata)
    ensures
        r == fresh_metadata(fetched_at, stale_at),
{
    CacheMetadata {
        last_fetched_at: Some(fetched_at),
        stale_at: Some(stale_at),
        refresh_started_at: None,
        last_refresh_error: None,
    }
}

/// Claims a refresh: refused while one runs or while a failed one waits for its retry time;
/// otherwise the refresh starts now and the last error is cleared.
pub open spec fn may_begin_refresh(m: CacheMetadata, now: i64) -> bool {
    !refresh_active(m, now) && !(m.stale_at is Some && m.last_refresh_error is Some && m.stale_at->0
        > now)
}

pub fn begin_insight_refresh(metadata: &mut CacheMetadata, now: i64) -> (r: bool)
    requires
        in_range(now),
    ensures
        r == may_begin_refresh(*old(metadata), now),
        r ==> *final(metadata) == (CacheMetadata {
            refresh_started_at: Some(now),
            last_refresh_error: None,
            ..*old(metadata)
        }),
        !r ==> *final(metadata) == *old(metadata),
{
    let blocked = match metadata.stale_at {
        Some(retry_at) => metadata.last_refresh_error.is_some() && retry_at > now,
        None => false,
    };
    if refresh_is_active(metadata, now) || blocked {
        return false;
    }
    metadata.refresh_started_at = Some(now);
    metadata.last_refresh_error = None;
    true
}

/// Records a failed refresh: it no longer runs, its error is kept, and it may be retried
/// after the retry delay.
pub fn fail_insight_refresh(metadata: &mut CacheMetadata, error: &str, now: i64)
    requires
        in_range(now),
    ensures
        final(metadata).refresh_started_at is None,
        final(metadata).last_refresh_error is Some,
        final(metadata).last_refresh_error->0@ == error@,
        final(metadata).stale_at == Some((now + REFRESH_RETRY_MICROS) as i64),
        final(metadata).last_fetched_at == old(metadata).last_fetched_at,
{
    metadata.refresh_started_at = None;
    metadata.last_refresh_error = Some(error.to_owned());
    metadata.stale_at = Some(now + REFRESH_RETRY_MICROS);
}

/// The status of stored cache metadata as the graph store reports it: any recorded refresh
/// start counts as refreshing, and metadata without a stale time is fresh.
pub open spec fn stored_status(m: CacheMetadata, now: i64) -> CacheStatus {
    if m.last_fetched_at is None {
        CacheStatus::Stale
    } else if m.refresh_started_at is Some {
        CacheStatus::Refreshing
    } else if m.last_refresh_error is Some {
        CacheStatus::RefreshFailed
    } else if m.stale_at is Some && m.stale_at->0 <= now {
        CacheStatus::Stale
    } else {
        CacheStatus::Fresh
    }
}

pub open spec fn job_status_of(status: CacheStatus) -> Option<RefreshJobStatus> {
    match status {
        CacheStatus::Refreshing => Some(RefreshJobStatus::Running),
        CacheStatus::RefreshFailed => Some(RefreshJobStatus::Failed),
        _ => None,
    }
}

/// The status, last fetch time and refresh job status of stored cache metadata.
pub fn cache_status_from_metadata(metadata: CacheMetadata, now: i64) -> (r: (
    CacheStatus,
    Option<i64>,
    Option<RefreshJobStatus>,
))
    ensures
        r.0 == stored_status(metadata, now),
        metadata.last_fetched_at is Some && metadata.refresh_started_at is None
            && metadata.last_refresh_error is Some ==> r.0 is RefreshFailed,
        r.0 is Fresh ==> metadata.last_fetched_at is Some && metadata.last_refresh_error is None
            && metadata.refresh_started_at is None,
        r.1 == metadata.last_fetched_at,
        r.2 == job_status_of(stored_status(metadata, now)),
{
    let status = if metadata.last_fetched_at.is_none() {
        CacheStatus::Stale
    } else if metadata.refresh_started_at.is_some() {
        CacheStatus::Refreshing
    } else if metadata.last_refresh_error.is_some() {
        CacheStatus::RefreshFailed
    } else {
        match metadata.stale_at {
            Some(value) => if value <= now {
                CacheStatus::Stale
            } else {
                CacheStatus::Fresh
            },
            None => CacheStatus::Fresh,
        }
    };
    let refresh_job_status = match status {
        CacheStatus::Refreshing => Some(RefreshJobStatus::Running),
        CacheStatus::RefreshFailed => Some(RefreshJobStatus::Failed),
        _ => None,
    };
    (status, metadata.last_fetched_at, refresh_job_status)
}

impl RepositoryContributorInsights {
    /// Contributor insights fetched at `fetched_at`; they stay fresh for a day.
    pub fn from_snapshot(
        full_name: String,
        snapshot: RepositoryContributorsSnapshot,
        fetched_at: i64,
    ) -> (r: Self)
        requires
            in_range(fetched_at),
        ensures
            r.full_name == full_name,
            r.contributors == snapshot.contributors,
            r.source_complete == snapshot.source_complete,
            r.cache == fresh_metadata(fetched_at, (fetched_at + CONTRIBUTOR_CACHE_MICROS) as i64),
    {
        RepositoryContributorInsights {
            full_name,
            contributors: snapshot.contributors,
            source_complete: snapshot.source_complete,
            cache: fresh_cache(fetched_at, fetched_at + CONTRIBUTOR_CACHE_MICROS),
        }
    }

    pub fn cache_status(&self, now: i64) -> (r: CacheStatus)
        requires
            in_range(now),
        ensures
            r == insight_status(self.cache, now),
            self.cache.last_fetched_at is Some && !(self.cache.refresh_started_at is Some
                && self.cache.refresh_started_at->0 > now - 300_000_000)
                && self.cache.last_refresh_error is Some ==> r is RefreshFailed,
            r is Fresh ==> self.cache.last_refresh_error is None && self.cache.last_fetched_at
                is Some && self.cache.stale_at is Some && self.cache.stale_at->0 > now,
    {
        insight_cache_status(&self.cache, now)
    }

    /// The insights with at most `limit` contributors, the first ones kept.
    pub fn limited(self, limit: usize) -> (r: Self)
        ensures
            r.contributors@ == (if limit < self.contributors@.len() {
                self.contributors@.take(limit as int)
            } else {
                self.contributors@
            }),
            r.full_name == self.full_name,
            r.source_complete == self.source_complete,
            r.cache == self.cache,
    {
        let mut s = self;
        s.contributors.truncate(limit);
        s
    }
}

impl UserCommitRepositoryInsights {
    /// Commit-activity insights fetched at `fetched_at`; they stay fresh for an hour.
    pub fn from_snapshot(login: String, snapshot: UserCommitRepositoriesSnapshot, fetched_at: i64) -> (r:
        Self)
        requires
            in_range(fetched_at),
        ensures
            r.login == login,
            r.repositories == snapshot.repositories,
            r.source_event_count == snapshot.source_event_count,
            r.source_truncated == snapshot.source_truncated,
            r.cache == fresh_metadata(fetched_at, (fetched_at + COMMIT_ACTIVITY_CACHE_MICROS) as i64),
    {
        UserCommitRepositoryInsights {
            login,
            repositories: snapshot.repositories,
            source_event_count: snapshot.source_event_count,
            source_truncated: snapshot.source_truncated,
            cache: fresh_cache(fetched_at, fetched_at + COMMIT_ACTIVITY_CACHE_MICROS),
        }
    }

    pub fn cache_status(&self, now: i64) -> (r: CacheStatus)
        requires
            in_range(now),
        ensures
            r == insight_status(self.cache, now),
            self.cache.last_fetched_at is Some && !(self.cache.refresh_started_at is Some
                && self.cache.refresh_started_at->0 > now - 300_000_000)
                && self.cache.last_refresh_error is Some ==> r is RefreshFailed,
            r is Fresh ==> self.cache.last_refresh_error is None && self.cache.last_fetched_at
                is Some && self.cache.stale_at is Some && self.cache.stale_at->0 > now,
    {
        insight_cache_status(&self.cache, now)
    }

    /// The insights with at most `limit` repositories, the first ones kept.
    pub fn limited(self, limit: usize) -> (r: Self)
        ensures
            r.repositories@ == (if limit < self.repositories@.len() {
                self.repositories@.take(limit as int)
            } else {
                self.repositories@
            }),
            r.login == self.login,
            r.source_event_count == self.source_event_count,
            r.source_truncated == self.source_truncated,
            r.cache == self.cache,
    {
        let mut s = self;
        s.repositories.truncate(limit);
        s
    }
}

// ---------------------------------------------------------------------------------------
// Commit activity
// ---------------------------------------------------------------------------------------

/// One event of a user's public feed, as the library reads it.
#[derive(Debug, Clone)]
pub struct PublicEvent {
    pub kind: String,
    pub repository_id: i64,
    pub repository_name: String,
    /// The number of commits a push carried.
    pub size: u64,
    pub created_at: Option<i64>,
}

pub ghost struct ActivityView {
    pub github_id: i64,
    pub full_name: Seq<char>,
    pub url: Seq<char>,
    pub push_count: u64,
    pub commit_count: u64,
    pub last_pushed_at: i64,
}

impl View for UserCommitRepository {
    type V = ActivityView;

    open spec fn view(&self) -> ActivityView {
        ActivityView {
            github_id: self.github_id,
            full_name: self.full_name@,
            url: self.url@,
            push_count: self.push_count,
            commit_count: self.commit_count,
            last_pushed_at: self.last_pushed_at,
        }
    }
}

pub open spec fn activities(s: Seq<UserCommitRepository>) -> Seq<ActivityView> {
    s.map_values(|r: UserCommitRepository| r@)
}

pub open spec fn saturating_u64(n: int) -> u64 {
    if n > u64::MAX {
        u64::MAX
    } else {
        n as u64
    }
}

/// A push inside the window that ends at `observed` and starts at `cutoff`, both included.
pub open spec fn counted(e: PublicEvent, cutoff: int, observed: i64) -> bool {
    &&& e.kind@ == "PushEvent"@
    &&& e.created_at is Some
    &&& cutoff <= e.created_at->0 <= observed
}

/// The position of the repository named `name`, or -1.
pub open spec fn find_name(acc: Seq<ActivityView>, name: Seq<char>) -> int
    decreases acc.len(),
{
    if acc.len() == 0 {
        -1
    } else if acc.last().full_name == name {
        acc.len() - 1
    } else {
        find_name(acc.drop_last(), name)
    }
}

/// Adds one counted push to the repositories seen so far.
pub open spec fn absorb_push(acc: Seq<ActivityView>, e: PublicEvent) -> Seq<ActivityView> {
    let name = e.repository_name@;
    let at = e.created_at->0;
    let k = find_name(acc, name);
    if k >= 0 {
        let old_entry = acc[k];
        acc.update(
            k,
            ActivityView {
                push_count: saturating_u64(old_entry.push_count + 1),
                commit_count: saturating_u64(old_entry.commit_count + e.size),
                last_pushed_at: if at > old_entry.last_pushed_at {
                    at
                } else {
                    old_entry.last_pushed_at
                },
                ..old_entry
            },
        )
    } else {
        acc.push(
            ActivityView {
                github_id: e.repository_id,
                full_name: name,
                url: "https://github.com/"@ + name,
                push_count: 1,
                commit_count: e.size,
                last_pushed_at: at,
            },
        )
    }
}

/// The repositories the counted pushes went to, in order of their first push: the first
/// push's repository id, the number of pushes and commits, and the latest push.
pub open spec fn activity(events: Seq<PublicEvent>, cutoff: int, observed: i64) -> Seq<ActivityView>
    decreases events.len(),
{
    if events.len() == 0 {
        Seq::empty()
    } else {
        let prev = activity(events.drop_last(), cutoff, observed);
        if counted(events.last(), cutoff, observed) {
            absorb_push(prev, events.last())
        } else {
            prev
        }
    }
}

/// Text order by code point, as `str` compares.
pub open spec fn text_less(a: Seq<char>, b: Seq<char>) -> bool
    decreases a.len(),
{
    if a.len() == 0 {
        b.len() > 0
    } else if b.len() == 0 {
        false
    } else if a[0] != b[0] {
        a[0] < b[0]
    } else {
        text_less(a.drop_first(), b.drop_first())
    }
}

/// `a` ranks before `b`: more commits, then more pushes, then a later push, then the name.
pub open spec fn ranks_before(a: ActivityView, b: ActivityView) -> bool {
    ||| a.commit_count > b.commit_count
    ||| a.commit_count == b.commit_count && a.push_count > b.push_count
    ||| a.commit_count == b.commit_count && a.push_count == b.push_count && a.last_pushed_at
        > b.last_pushed_at
    ||| a.commit_count == b.commit_count && a.push_count == b.push_count && a.last_pushed_at
        == b.last_pushed_at && text_less(a.full_name, b.full_name)
}

/// No repository ranks before one listed ahead of it.
pub open spec fn sorted_by_activity(s: Seq<ActivityView>) -> bool {
    forall|i: int, j: int| 0 <= i < j < s.len() ==> !ranks_before(#[trigger] s[j], #[trigger] s[i])
}

pub(crate) proof fn lemma_text_less_irreflexive(a: Seq<char>)
    ensures
        !text_less(a, a),
    decreases a.len(),
{
    if a.len() > 0 {
        lemma_text_less_irreflexive(a.drop_first());
    }
}

pub(crate) proof fn lemma_text_less_transitive(a: Seq<char>, b: Seq<char>, c: Seq<char>)
    requires
        text_less(a, b),
        text_less(b, c),
    ensures
        text_less(a, c),
    decreases a.len(),
{
    if a.len() > 0 && b.len() > 0 && c.len() > 0 && a[0] == b[0] && b[0] == c[0] {
        lemma_text_less_transitive(a.drop_first(), b.drop_first(), c.drop_first());
    }
}

proof fn lemma_ranks_before_order(a: ActivityView, b: ActivityView, c: ActivityView)
    ensures
        !ranks_before(a, a),
        ranks_before(a, b) && ranks_before(b, c) ==> ranks_before(a, c),
{
    lemma_text_less_irreflexive(a.full_name);
    if ranks_before(a, b) && ranks_before(b, c) && a.commit_count == c.commit_count
        && a.push_count == c.push_count && a.last_pushed_at == c.last_pushed_at {
        lemma_text_less_transitive(a.full_name, b.full_name, c.full_name);
    }
}

pub(crate) fn text_before(a: &str, b: &str) -> (r: bool)
    ensures
        r == text_less(a@, b@),
{
    let x = chars_of(a);
    let y = chars_of(b);
    let mut i: usize = 0;
    assert(x@.skip(0) == x@);
    assert(y@.skip(0) == y@);
    while i < x.len() && i < y.len() && x[i] == y[i]
        invariant
            i <= x.len(),
            i <= y.len(),
            x@ == a@,
            y@ == b@,
            text_less(a@, b@) == text_less(x@.skip(i as int), y@.skip(i as int)),
        decreases x.len() - i,
    {
        assert(x@.skip(i as int).drop_first() == x@.skip(i + 1));
        assert(y@.skip(i as int).drop_first() == y@.skip(i + 1));
        i += 1;
    }
    if i == x.len() {
        i < y.len()
    } else if i == y.len() {
        false
    } else {
        x[i] < y[i]
    }
}

fn ranks_before_exec(a: &UserCommitRepository, b: &UserCommitRepository) -> (r: bool)
    ensures
        r == ranks_before(a@, b@),
{
    if a.commit_count != b.commit_count {
        return a.commit_count > b.commit_count;
    }
    if a.push_count != b.push_count {
        return a.push_count > b.push_count;
    }
    if a.last_pushed_at != b.last_pushed_at {
        return a.last_pushed_at > b.last_pushed_at;
    }
    text_before(a.full_name.as_str(), b.full_name.as_str())
}

fn copy_activity(x: &UserCommitRepository) -> (r: UserCommitRepository)
    ensures
        r@ == x@,
{
    UserCommitRepository {
        github_id: x.github_id,
        full_name: x.full_name.clone(),
        url: x.url.clone(),
        push_count: x.push_count,
        commit_count: x.commit_count,
        last_pushed_at: x.last_pushed_at,
    }
}

/// Sorts repositories by activity: most commits first, then most pushes, then the latest
/// push, then the name.
pub(crate) fn sort_by_activity(items: &Vec<UserCommitRepository>) -> (r: Vec<UserCommitRepository>)
    ensures
        activities(r@).to_multiset() == activities(items@).to_multiset(),
        sorted_by_activity(activities(r@)),
{
    let mut out: Vec<UserCommitRepository> = Vec::new();
    let mut i: usize = 0;
    assert(activities(out@) =~= activities(items@.take(0)));
    while i < items.len()
        invariant
            i <= items.len(),
            activities(out@).to_multiset() == activities(items@.take(i as int)).to_multiset(),
            sorted_by_activity(activities(out@)),
        decreases items.len() - i,
    {
        let x = copy_activity(&items[i]);
        let mut pos: usize = 0;
        while pos < out.len() && !ranks_before_exec(&x, &out[pos])
            invariant
                pos <= out.len(),
                forall|j: int| 0 <= j < pos ==> !ranks_before(x@, #[trigger] activities(out@)[j]),
            decreases out.len() - pos,
        {
            pos += 1;
        }
        let ghost before = activities(out@);
        proof {
            assert forall|m: int| pos <= m < before.len() implies !ranks_before(
                #[trigger] before[m],
                x@,
            ) by {
                lemma_ranks_before_order(before[m], x@, before[pos as int]);
                lemma_ranks_before_order(before[pos as int], before[pos as int], before[pos as int]);
                if m > pos {
                    assert(!ranks_before(before[m], before[pos as int]));
                }
            }
        }
        out.insert(pos, x);
        proof {
            let after = activities(out@);
            assert(after =~= before.insert(pos as int, x@));
            assert forall|a: int, b: int| 0 <= a < b < after.len() implies !ranks_before(
                #[trigger] after[b],
                #[trigger] after[a],
            ) by {
                if b < pos {
                    assert(after[a] == before[a] && after[b] == before[b]);
                } else if b == pos {
                    assert(after[a] == before[a]);
                } else if a == pos {
                    assert(after[b] == before[b - 1]);
                } else if a < pos {
                    assert(after[a] == before[a] && after[b] == before[b - 1]);
                } else {
                    assert(after[a] == before[a - 1] && after[b] == before[b - 1]);
                }
            }
            vstd::seq_lib::to_multiset_insert(before, pos as int, x@);
            assert(activities(items@.take(i + 1)) =~= activities(items@.take(i as int)).push(
                items@[i as int]@,
            ));
            vstd::seq_lib::to_multiset_build(activities(items@.take(i as int)), items@[i as int]@);
        }
        i += 1;
    }
    assert(items@.take(items.len() as int) == items@);
    out
}

fn find_repository(acc: &Vec<UserCommitRepository>, name: &str) -> (k: Option<usize>)
    ensures
        find_name(activities(acc@), name@) >= 0 ==> k == Some(
            find_name(activities(acc@), name@) as usize,
        ),
        find_name(activities(acc@), name@) < 0 ==> k is None,
        find_name(activities(acc@), name@) < acc@.len(),
{
    let mut j: usize = acc.len();
    assert(activities(acc@).take(acc@.len() as int) == activities(acc@));
    while j > 0
        invariant
            j <= acc.len(),
            find_name(activities(acc@), name@) == find_name(activities(acc@).take(j as int), name@),
        decreases j,
    {
        assert(activities(acc@).take(j as int).drop_last() == activities(acc@).take(j - 1));
        if str_equal(acc[j - 1].full_name.as_str(), name) {
            return Some(j - 1);
        }
        j -= 1;
    }
    None
}

proof fn lemma_find_name_bounds(acc: Seq<ActivityView>, name: Seq<char>)
    ensures
        -1 <= find_name(acc, name) < acc.len(),
        find_name(acc, name) >= 0 ==> acc[find_name(acc, name)].full_name == name,
    decreases acc.len(),
{
    if acc.len() > 0 {
        lemma_find_name_bounds(acc.drop_last(), name);
    }
}

/// Aggregates a user's public events into the repositories their pushes in the last thirty
/// days went to, ranked by activity. The feed counts as truncated where the source was
/// incomplete or it holds as many events as GitHub serves.
pub fn aggregate_user_commit_events(
    events: Vec<PublicEvent>,
    source_complete: bool,
    observed_at: i64,
) -> (r: UserCommitRepositoriesSnapshot)
    requires
        in_range(observed_at),
    ensures
        r.source_event_count == events@.len(),
        r.source_truncated == (!source_complete || events@.len()
            == USER_COMMIT_ACTIVITY_EVENT_LIMIT),
        activities(r.repositories@).to_multiset() == activity(
            events@,
            observed_at - ACTIVITY_WINDOW_MICROS,
            observed_at,
        ).to_multiset(),
        sorted_by_activity(activities(r.repositories@)),
{
    let source_event_count = events.len();
    let source_truncated = !source_complete || source_event_count
        == USER_COMMIT_ACTIVITY_EVENT_LIMIT;
    let activity_cutoff = observed_at - ACTIVITY_WINDOW_MICROS;
    let ghost cutoff = observed_at - ACTIVITY_WINDOW_MICROS;
    let mut acc: Vec<UserCommitRepository> = Vec::new();
    let mut i: usize = 0;
    while i < events.len()
        invariant
            i <= events.len(),
            activity_cutoff == cutoff,
            activities(acc@) == activity(events@.take(i as int), cutoff, observed_at),
        decreases events.len() - i,
    {
        let e = &events[i];
        assert(events@.take(i + 1).drop_last() == events@.take(i as int));
        assert(events@.take(i + 1).last() == *e);
        let in_window = match e.created_at {
            Some(at) => activity_cutoff <= at && at <= observed_at,
            None => false,
        };
        if str_equal(e.kind.as_str(), "PushEvent") && in_window {
            let at = match e.created_at {
                Some(at) => at,
                None => observed_at,
            };
            let ghost before = activities(acc@);
            proof {
                lemma_find_name_bounds(before, e.repository_name@);
            }
            match find_repository(&acc, e.repository_name.as_str()) {
                Some(k) => {
                    let updated = UserCommitRepository {
                        github_id: acc[k].github_id,
                        full_name: acc[k].full_name.clone(),
                        url: acc[k].url.clone(),
                        push_count: acc[k].push_count.saturating_add(1),
                        commit_count: acc[k].commit_count.saturating_add(e.size),
                        last_pushed_at: if at > acc[k].last_pushed_at {
                            at
                        } else {
                            acc[k].last_pushed_at
                        },
                    };
                    let ghost old_entry = before[k as int];
                    assert(old_entry == acc@[k as int]@);
                    assert(updated@.push_count == saturating_u64(old_entry.push_count + 1));
                    assert(updated@.commit_count == saturating_u64(old_entry.commit_count + e.size));
                    assert(updated@.github_id == old_entry.github_id);
                    assert(updated@.full_name == old_entry.full_name);
                    assert(updated@.url == old_entry.url);
                    acc.set(k, updated);
                    assert(activities(acc@) =~= before.update(k as int, updated@));
                    assert(find_name(before, e.repository_name@) == k);
                    assert(e.created_at->0 == at);
                    assert(updated@ == ActivityView {
                        push_count: saturating_u64(old_entry.push_count + 1),
                        commit_count: saturating_u64(old_entry.commit_count + e.size),
                        last_pushed_at: if at > old_entry.last_pushed_at {
                            at
                        } else {
                            old_entry.last_pushed_at
                        },
                        ..old_entry
                    });
                    assert(activities(acc@) =~= absorb_push(before, *e));
                },
                None => {
                    let mut url = "https://github.com/".to_owned();
                    push_str(&mut url, e.repository_name.as_str());
                    acc.push(
                        UserCommitRepository {
                            github_id: e.repository_id,
                            full_name: e.repository_name.clone(),
                            url,
                            push_count: 1,
                            commit_count: e.size,
                            last_pushed_at: at,
                        },
                    );
                    assert(activities(acc@) =~= absorb_push(before, *e));
                },
            }
        }
        i += 1;
    }
    assert(events@.take(events.len() as int) == events@);
    let repositories = sort_by_activity(&acc);
    UserCommitRepositoriesSnapshot { repositories, source_event_count, source_truncated }
}

} // verus!
