//! The operator's breadth-first crawl of the shared graph, and the summary of one expansion.
//!
//! The crawl alternates between work only the program can do (reading a cached
//! neighbourhood, expanding a user against GitHub, reading the rate limit, sleeping) and the
//! decisions here: which login to visit next, whether the request reserve allows another
//! expansion, and what an expansion's outcome means for the crawl.
use std::collections::VecDeque;

use vstd::prelude::*;

use crate::capacity::{add_id, distinct_count};
use crate::discovery::{
    contains_text, insert_text, text_set, views, DiscoveryRepositoryRecord, DiscoveryUser,
    UserNeighborhood,
};
use crate::error::{validation, AppError};
use crate::graph::{CacheStatus, GitHubRateLimitStatus, GraphImportCoverage};
use crate::logins::GITHUB_CORE_REST_RESERVE;
use crate::text::{ascii_lowercase, lower_seq, trim, trim_seq};

verus! {

/// The REST requests one expansion may spend at most.
pub const CRAWL_EXPANSION_REQUEST_ESTIMATE: usize = 13;

/// How many expansions in a row may fail before the crawl gives up.
pub const MAX_CONSECUTIVE_CRAWL_FAILURES: usize = 10;

#[derive(Debug, Clone, Copy, PartialEq, Eq, Structural)]
pub enum GraphCrawlStopReason {
    RequestReserveReached,
    DatabaseCapacityReached,
    MaxExpansionsReached,
    NodeSafetyCapReached,
    FrontierExhausted,
}

/// The capacity refusal that stopped a crawl.
#[derive(Debug, Clone)]
pub struct GraphCrawlCapacityStop {
    pub resource: String,
    pub current_count: usize,
    pub incoming_count: usize,
    pub projected_count: usize,
    pub maximum_count: usize,
}

#[derive(Debug, Clone)]
pub struct GraphCrawlSummary {
    pub seed_login: String,
    pub expansions: usize,
    pub cached_neighborhoods: usize,
    pub skipped_users: usize,
    pub unique_users: usize,
    pub unique_repositories: usize,
    pub unique_nodes: usize,
    pub frontier_remaining: usize,
    pub request_reserve: usize,
    pub initial_rate_limit: GitHubRateLimitStatus,
    pub final_rate_limit: GitHubRateLimitStatus,
    pub stop_reason: GraphCrawlStopReason,
    pub capacity_stop: Option<GraphCrawlCapacityStop>,
}

// ---------------------------------------------------------------------------------------
// Collecting a neighbourhood
// ---------------------------------------------------------------------------------------

pub open spec fn person_ids(s: Seq<DiscoveryUser>) -> Seq<i64> {
    s.map_values(|u: DiscoveryUser| u.profile.github_id)
}

pub open spec fn record_ids(s: Seq<DiscoveryRepositoryRecord>) -> Seq<i64> {
    s.map_values(|r: DiscoveryRepositoryRecord| r.repository.github_id)
}

/// The login the crawl queues a person under.
pub open spec fn crawl_login(u: DiscoveryUser) -> Seq<char> {
    lower_seq(trim_seq(u.profile.login@))
}

/// The people a neighbourhood offers the frontier: those it follows first, then its
/// followers.
pub open spec fn crawl_candidates(n: UserNeighborhood) -> Seq<Seq<char>> {
    (n.following@ + n.followers@).map_values(|u: DiscoveryUser| crawl_login(u))
}

/// The candidates that join the frontier, in order: not empty, not expanded, not queued
/// before, and each once.
pub open spec fn enqueued(cands: Seq<Seq<char>>, expanded: Set<Seq<char>>, queued: Set<Seq<char>>) -> Seq<
    Seq<char>,
>
    decreases cands.len(),
{
    if cands.len() == 0 {
        Seq::empty()
    } else {
        let prev = enqueued(cands.drop_last(), expanded, queued);
        let c = cands.last();
        if c.len() > 0 && !expanded.contains(c) && !queued.contains(c) && !prev.contains(c) {
            prev.push(c)
        } else {
            prev
        }
    }
}

/// The people a neighbourhood names: its user, those it follows, and its followers.
pub open spec fn neighborhood_user_ids(n: UserNeighborhood) -> Set<i64> {
    person_ids(n.following@).to_set().union(person_ids(n.followers@).to_set()).insert(
        n.user.profile.github_id,
    )
}

/// The repositories a neighbourhood names: starred and owned.
pub open spec fn neighborhood_repository_ids(n: UserNeighborhood) -> Set<i64> {
    record_ids(n.starred_repositories@).to_set() + record_ids(n.owned_repositories@).to_set()
}

/// The number of entries a neighbourhood holds.
pub open spec fn neighborhood_size(n: UserNeighborhood) -> int {
    1int + n.following@.len() + n.followers@.len() + n.starred_repositories@.len()
        + n.owned_repositories@.len()
}

fn crawl_login_of(u: &DiscoveryUser) -> (r: String)
    ensures
        r@ == crawl_login(*u),
{
    let trimmed = trim(u.profile.login.as_str());
    ascii_lowercase(trimmed.as_str())
}

fn add_person_ids(seen: &mut Vec<i64>, people: &Vec<DiscoveryUser>)
    requires
        old(seen)@.no_duplicates(),
    ensures
        final(seen)@.no_duplicates(),
        final(seen)@.to_set() == old(seen)@.to_set() + person_ids(people@).to_set(),
        final(seen)@.len() <= old(seen)@.len() + people@.len(),
{
    let ghost start = seen@;
    let mut i: usize = 0;
    while i < people.len()
        invariant
            i <= people.len(),
            seen@.no_duplicates(),
            seen@.to_set() == start.to_set() + person_ids(people@.take(i as int)).to_set(),
            seen@.len() <= start.len() + i,
        decreases people.len() - i,
    {
        proof {
            assert(person_ids(people@.take(i + 1)) == person_ids(people@.take(i as int)).push(
                people@[i as int].profile.github_id,
            ));
            person_ids(people@.take(i as int)).lemma_push_to_set_commute(
                people@[i as int].profile.github_id,
            );
        }
        add_id(seen, people[i].profile.github_id);
        assert(seen@.to_set() =~= start.to_set() + person_ids(people@.take(i + 1)).to_set());
        i += 1;
    }
    assert(people@.take(people.len() as int) == people@);
}

fn add_record_ids(seen: &mut Vec<i64>, records: &Vec<DiscoveryRepositoryRecord>)
    requires
        old(seen)@.no_duplicates(),
    ensures
        final(seen)@.no_duplicates(),
        final(seen)@.to_set() == old(seen)@.to_set() + record_ids(records@).to_set(),
        final(seen)@.len() <= old(seen)@.len() + records@.len(),
{
    let ghost start = seen@;
    let mut i: usize = 0;
    while i < records.len()
        invariant
            i <= records.len(),
            seen@.no_duplicates(),
            seen@.to_set() == start.to_set() + record_ids(records@.take(i as int)).to_set(),
            seen@.len() <= start.len() + i,
        decreases records.len() - i,
    {
        proof {
            assert(record_ids(records@.take(i + 1)) == record_ids(records@.take(i as int)).push(
                records@[i as int].repository.github_id,
            ));
            record_ids(records@.take(i as int)).lemma_push_to_set_commute(
                records@[i as int].repository.github_id,
            );
        }
        add_id(seen, records[i].repository.github_id);
        assert(seen@.to_set() =~= start.to_set() + record_ids(records@.take(i + 1)).to_set());
        i += 1;
    }
    assert(records@.take(records.len() as int) == records@);
}

/// Offers one person to the frontier.
fn offer_login(
    person: &DiscoveryUser,
    expanded_logins: &Vec<String>,
    queued_logins: &mut Vec<String>,
    frontier: &mut VecDeque<String>,
    Ghost(cands): Ghost<Seq<Seq<char>>>,
    Ghost(k): Ghost<int>,
    Ghost(queued0): Ghost<Set<Seq<char>>>,
    Ghost(frontier0): Ghost<Seq<Seq<char>>>,
)
    requires
        0 <= k < cands.len(),
        cands[k] == crawl_login(*person),
        views(old(frontier)@) == frontier0 + enqueued(
            cands.take(k),
            text_set(expanded_logins@),
            queued0,
        ),
        text_set(old(queued_logins)@) == queued0 + enqueued(
            cands.take(k),
            text_set(expanded_logins@),
            queued0,
        ).to_set(),
    ensures
        views(final(frontier)@) == frontier0 + enqueued(
            cands.take(k + 1),
            text_set(expanded_logins@),
            queued0,
        ),
        text_set(final(queued_logins)@) == queued0 + enqueued(
            cands.take(k + 1),
            text_set(expanded_logins@),
            queued0,
        ).to_set(),
{
    let ghost expanded = text_set(expanded_logins@);
    assert(cands.take(k + 1).drop_last() == cands.take(k));
    let login = crawl_login_of(person);
    let ghost prev = enqueued(cands.take(k), expanded, queued0);
    if !login.as_str().is_empty() && !contains_text(expanded_logins, login.as_str())
        && !contains_text(queued_logins, login.as_str()) {
        insert_text(queued_logins, login.as_str());
        let ghost before = frontier@;
        frontier.push_back(login);
        proof {
            assert(views(frontier@) == views(before).push(cands[k]));
            prev.lemma_push_to_set_commute(cands[k]);
        }
    }
}

/// Records a neighbourhood: its people and repositories join the discovered ids, and the
/// people it follows, then its followers, join the frontier unless they were expanded or
/// queued before.
pub fn collect_crawl_neighborhood(
    neighborhood: &UserNeighborhood,
    expanded_logins: &Vec<String>,
    queued_logins: &mut Vec<String>,
    frontier: &mut VecDeque<String>,
    user_ids: &mut Vec<i64>,
    repository_ids: &mut Vec<i64>,
)
    requires
        old(user_ids)@.no_duplicates(),
        old(repository_ids)@.no_duplicates(),
    ensures
        views(final(frontier)@) == views(old(frontier)@) + enqueued(
            crawl_candidates(*neighborhood),
            text_set(expanded_logins@),
            text_set(old(queued_logins)@),
        ),
        text_set(final(queued_logins)@) == text_set(old(queued_logins)@) + enqueued(
            crawl_candidates(*neighborhood),
            text_set(expanded_logins@),
            text_set(old(queued_logins)@),
        ).to_set(),
        final(user_ids)@.no_duplicates(),
        final(user_ids)@.to_set() == old(user_ids)@.to_set() + neighborhood_user_ids(
            *neighborhood,
        ),
        final(repository_ids)@.no_duplicates(),
        final(repository_ids)@.to_set() == old(repository_ids)@.to_set()
            + neighborhood_repository_ids(*neighborhood),
        final(user_ids)@.len() + final(repository_ids)@.len() <= old(user_ids)@.len() + old(
            repository_ids,
        )@.len() + neighborhood_size(*neighborhood),
{
    let ghost users0 = user_ids@;
    add_id(user_ids, neighborhood.user.profile.github_id);
    add_person_ids(user_ids, &neighborhood.following);
    add_person_ids(user_ids, &neighborhood.followers);
    assert(user_ids@.to_set() =~= users0.to_set() + neighborhood_user_ids(*neighborhood));
    let ghost cands = crawl_candidates(*neighborhood);
    let ghost expanded = text_set(expanded_logins@);
    let ghost queued0 = text_set(queued_logins@);
    let ghost frontier0 = views(frontier@);
    let n_following = neighborhood.following.len();
    let mut k: usize = 0;
    while k < n_following
        invariant
            k <= n_following,
            n_following == neighborhood.following@.len(),
            cands == crawl_candidates(*neighborhood),
            expanded == text_set(expanded_logins@),
            views(frontier@) == frontier0 + enqueued(cands.take(k as int), expanded, queued0),
            text_set(queued_logins@) == queued0 + enqueued(
                cands.take(k as int),
                expanded,
                queued0,
            ).to_set(),
        decreases n_following - k,
    {
        let person = &neighborhood.following[k];
        assert(cands[k as int] == crawl_login(*person));
        offer_login(person, expanded_logins, queued_logins, frontier, Ghost(cands), Ghost(k as int), Ghost(queued0), Ghost(frontier0));
        k += 1;
    }
    let mut j: usize = 0;
    while j < neighborhood.followers.len()
        invariant
            j <= neighborhood.followers@.len(),
            n_following == neighborhood.following@.len(),
            cands == crawl_candidates(*neighborhood),
            expanded == text_set(expanded_logins@),
            views(frontier@) == frontier0 + enqueued(cands.take(n_following + j), expanded, queued0),
            text_set(queued_logins@) == queued0 + enqueued(
                cands.take(n_following + j),
                expanded,
                queued0,
            ).to_set(),
        decreases neighborhood.followers.len() - j,
    {
        let person = &neighborhood.followers[j];
        assert(cands[n_following + j] == crawl_login(*person));
        offer_login(person, expanded_logins, queued_logins, frontier, Ghost(cands), Ghost(n_following + j), Ghost(queued0), Ghost(frontier0));
        j += 1;
    }
    assert(cands.take(n_following + j) == cands);
    let ghost repositories0 = repository_ids@;
    add_record_ids(repository_ids, &neighborhood.starred_repositories);
    add_record_ids(repository_ids, &neighborhood.owned_repositories);
    assert(repository_ids@.to_set() =~= repositories0.to_set() + neighborhood_repository_ids(
        *neighborhood,
    ));
}

// ---------------------------------------------------------------------------------------
// The crawl
// ---------------------------------------------------------------------------------------

/// Checks an operator's crawl settings: the reserve may not go below the library's floor
/// and both safety caps must be positive.
pub fn validate_crawl_options(
    request_reserve: usize,
    max_expansions: usize,
    max_discovered_nodes: usize,
) -> (r: Result<(), AppError>)
    ensures
        r is Ok <==> request_reserve >= GITHUB_CORE_REST_RESERVE && max_expansions > 0
            && max_discovered_nodes > 0,
        request_reserve < GITHUB_CORE_REST_RESERVE ==> r is Err && r->Err_0 is Validation
            && r->Err_0->Validation_0@ == "request reserve cannot be lower than 1000"@,
        request_reserve >= GITHUB_CORE_REST_RESERVE && (max_expansions == 0
            || max_discovered_nodes == 0) ==> r is Err && r->Err_0 is Validation
            && r->Err_0->Validation_0@ == "crawl safety caps must be greater than zero"@,
{
    if request_reserve < GITHUB_CORE_REST_RESERVE {
        return Err(validation("request reserve cannot be lower than 1000"));
    }
    if max_expansions == 0 || max_discovered_nodes == 0 {
        return Err(validation("crawl safety caps must be greater than zero"));
    }
    Ok(())
}

/// The crawl may spend another expansion: what would remain after one stays at or above
/// the reserve.
pub fn reserve_allows_expansion(remaining: usize, request_reserve: usize) -> (r: bool)
    ensures
        r == (if remaining >= CRAWL_EXPANSION_REQUEST_ESTIMATE {
            remaining - CRAWL_EXPANSION_REQUEST_ESTIMATE
        } else {
            0
        } >= request_reserve),
{
    remaining.saturating_sub(CRAWL_EXPANSION_REQUEST_ESTIMATE) >= request_reserve
}

/// The frontier without the leading logins that were expanded already.
pub open spec fn skip_expanded(f: Seq<Seq<char>>, expanded: Set<Seq<char>>) -> Seq<Seq<char>>
    decreases f.len(),
{
    if f.len() > 0 && expanded.contains(f[0]) {
        skip_expanded(f.drop_first(), expanded)
    } else {
        f
    }
}

/// What the crawl does next.
pub enum CrawlStep {
    Stop(GraphCrawlStopReason),
    /// Look at this login's neighbourhood.
    Visit(String),
}

/// What an expansion's outcome means for the crawl.
pub enum CrawlProgress {
    Continue,
    Stop(GraphCrawlStopReason),
    /// Too many expansions failed in a row: the crawl fails with this error.
    Abort(AppError),
}

/// Where a crawl stands.
pub struct CrawlState {
    pub frontier: VecDeque<String>,
    pub queued_logins: Vec<String>,
    pub expanded_logins: Vec<String>,
    pub user_ids: Vec<i64>,
    pub repository_ids: Vec<i64>,
    pub expansions: usize,
    pub cached_neighborhoods: usize,
    pub skipped_users: usize,
    pub consecutive_failures: usize,
    pub capacity_stop: Option<GraphCrawlCapacityStop>,
}

/// The seed login a crawl starts from: trimmed and lower-cased, and not empty.
pub open spec fn crawl_seed(login: Seq<char>) -> Option<Seq<char>> {
    if trim_seq(login).len() == 0 {
        None
    } else {
        Some(lower_seq(trim_seq(login)))
    }
}

/// `after` is `before` with the neighbourhood collected.
pub open spec fn crawl_collected(before: CrawlState, after: CrawlState, n: UserNeighborhood) -> bool {
    let new_logins = enqueued(
        crawl_candidates(n),
        text_set(before.expanded_logins@),
        text_set(before.queued_logins@),
    );
    &&& views(after.frontier@) == views(before.frontier@) + new_logins
    &&& text_set(after.queued_logins@) == text_set(before.queued_logins@) + new_logins.to_set()
    &&& after.user_ids@.to_set() == before.user_ids@.to_set() + neighborhood_user_ids(n)
    &&& after.repository_ids@.to_set() == before.repository_ids@.to_set()
        + neighborhood_repository_ids(n)
}

impl CrawlState {
    pub open spec fn wf(&self) -> bool {
        &&& self.user_ids@.no_duplicates()
        &&& self.repository_ids@.no_duplicates()
        &&& self.user_ids@.len() + self.repository_ids@.len() <= usize::MAX
        &&& self.consecutive_failures < MAX_CONSECUTIVE_CRAWL_FAILURES
    }

    /// Everything but the frontier and the expanded logins is as in `other`.
    pub open spec fn same_counts(&self, other: &CrawlState) -> bool {
        &&& self.queued_logins@ == other.queued_logins@
        &&& self.user_ids@ == other.user_ids@
        &&& self.repository_ids@ == other.repository_ids@
        &&& self.expansions == other.expansions
        &&& self.cached_neighborhoods == other.cached_neighborhoods
        &&& self.skipped_users == other.skipped_users
        &&& self.consecutive_failures == other.consecutive_failures
        &&& self.capacity_stop == other.capacity_stop
    }

    /// A crawl from one seed: only the seed is queued.
    pub fn start(seed_login: &str) -> (r: Result<CrawlState, AppError>)
        ensures
            crawl_seed(seed_login@) is None ==> r is Err && r->Err_0 is Validation
                && r->Err_0->Validation_0@ == "github login cannot be empty"@,
            crawl_seed(seed_login@) is Some ==> r is Ok && {
                let s = r->Ok_0;
                &&& s.wf()
                &&& views(s.frontier@) == seq![crawl_seed(seed_login@)->0]
                &&& views(s.queued_logins@) == seq![crawl_seed(seed_login@)->0]
                &&& s.expanded_logins@.len() == 0
                &&& s.user_ids@.len() == 0
                &&& s.repository_ids@.len() == 0
                &&& s.expansions == 0
                &&& s.cached_neighborhoods == 0
                &&& s.skipped_users == 0
                &&& s.consecutive_failures == 0
                &&& s.capacity_stop is None
            },
    {
        let trimmed = trim(seed_login);
        if trimmed.as_str().is_empty() {
            return Err(validation("github login cannot be empty"));
        }
        let seed = ascii_lowercase(trimmed.as_str());
        let mut frontier: VecDeque<String> = VecDeque::new();
        frontier.push_back(seed.clone());
        let mut queued_logins: Vec<String> = Vec::new();
        queued_logins.push(seed);
        assert(views(frontier@) =~= seq![crawl_seed(seed_login@)->0]);
        assert(views(queued_logins@) =~= seq![crawl_seed(seed_login@)->0]);
        Ok(
            CrawlState {
                frontier,
                queued_logins,
                expanded_logins: Vec::new(),
                user_ids: Vec::new(),
                repository_ids: Vec::new(),
                expansions: 0,
                cached_neighborhoods: 0,
                skipped_users: 0,
                consecutive_failures: 0,
                capacity_stop: None,
            },
        )
    }

    /// Decides the next step: stop at the expansion cap or the node safety cap, else take
    /// the next login that was not expanded yet from the frontier and mark it expanded, or
    /// stop once the frontier is exhausted.
    pub fn next_step(&mut self, max_expansions: usize, max_discovered_nodes: usize) -> (r:
        CrawlStep)
        requires
            old(self).wf(),
        ensures
            final(self).wf(),
            final(self).same_counts(&*old(self)),
            old(self).expansions >= max_expansions ==> r == CrawlStep::Stop(
                GraphCrawlStopReason::MaxExpansionsReached,
            ) && final(self).frontier@ == old(self).frontier@ && final(self).expanded_logins@
                == old(self).expanded_logins@,
            old(self).expansions < max_expansions && old(self).user_ids@.len() + old(
                self,
            ).repository_ids@.len() >= max_discovered_nodes ==> r == CrawlStep::Stop(
                GraphCrawlStopReason::NodeSafetyCapReached,
            ) && final(self).frontier@ == old(self).frontier@ && final(self).expanded_logins@
                == old(self).expanded_logins@,
            old(self).expansions < max_expansions && old(self).user_ids@.len() + old(
                self,
            ).repository_ids@.len() < max_discovered_nodes ==> {
                let rest = skip_expanded(
                    views(old(self).frontier@),
                    text_set(old(self).expanded_logins@),
                );
                if rest.len() == 0 {
                    &&& r == CrawlStep::Stop(GraphCrawlStopReason::FrontierExhausted)
                    &&& final(self).frontier@.len() == 0
                    &&& final(self).expanded_logins@ == old(self).expanded_logins@
                } else {
                    &&& r is Visit
                    &&& r->Visit_0@ == rest[0]
                    &&& views(final(self).frontier@) == rest.drop_first()
                    &&& text_set(final(self).expanded_logins@) == text_set(
                        old(self).expanded_logins@,
                    ).insert(rest[0])
                }
            },
    {
        if self.expansions >= max_expansions {
            return CrawlStep::Stop(GraphCrawlStopReason::MaxExpansionsReached);
        }
        if self.user_ids.len() + self.repository_ids.len() >= max_discovered_nodes {
            return CrawlStep::Stop(GraphCrawlStopReason::NodeSafetyCapReached);
        }
        let ghost expanded = text_set(self.expanded_logins@);
        let ghost rest = skip_expanded(views(self.frontier@), expanded);
        loop
            invariant
                self.wf(),
                self.same_counts(&*old(self)),
                self.expanded_logins@ == old(self).expanded_logins@,
                expanded == text_set(old(self).expanded_logins@),
                old(self).expansions < max_expansions,
                old(self).user_ids@.len() + old(self).repository_ids@.len() < max_discovered_nodes,
                rest == skip_expanded(views(old(self).frontier@), expanded),
                rest == skip_expanded(views(self.frontier@), expanded),
            decreases self.frontier@.len(),
        {
            let ghost before = views(self.frontier@);
            match self.frontier.pop_front() {
                None => {
                    return CrawlStep::Stop(GraphCrawlStopReason::FrontierExhausted);
                },
                Some(login) => {
                    assert(before[0] == login@);
                    assert(views(self.frontier@) == before.drop_first());
                    if !contains_text(&self.expanded_logins, login.as_str()) {
                        insert_text(&mut self.expanded_logins, login.as_str());
                        return CrawlStep::Visit(login);
                    }
                },
            }
        }
    }

    /// Records a neighbourhood that was fresh in the cache: nothing was spent on it.
    pub fn record_cached(&mut self, neighborhood: &UserNeighborhood)
        requires
            old(self).wf(),
            old(self).cached_neighborhoods < usize::MAX,
            old(self).user_ids@.len() + old(self).repository_ids@.len() + neighborhood_size(
                *neighborhood,
            ) <= usize::MAX,
        ensures
            final(self).wf(),
            final(self).cached_neighborhoods == old(self).cached_neighborhoods + 1,
            final(self).expansions == old(self).expansions,
            final(self).skipped_users == old(self).skipped_users,
            final(self).consecutive_failures == old(self).consecutive_failures,
            final(self).capacity_stop == old(self).capacity_stop,
            final(self).expanded_logins@ == old(self).expanded_logins@,
            crawl_collected(*old(self), *final(self), *neighborhood),
    {
        self.cached_neighborhoods = self.cached_neighborhoods + 1;
        self.collect(neighborhood);
    }

    fn collect(&mut self, neighborhood: &UserNeighborhood)
        requires
            old(self).user_ids@.no_duplicates(),
            old(self).repository_ids@.no_duplicates(),
            old(self).user_ids@.len() + old(self).repository_ids@.len() + neighborhood_size(
                *neighborhood,
            ) <= usize::MAX,
        ensures
            final(self).user_ids@.no_duplicates(),
            final(self).repository_ids@.no_duplicates(),
            final(self).user_ids@.len() + final(self).repository_ids@.len() <= usize::MAX,
            final(self).cached_neighborhoods == old(self).cached_neighborhoods,
            final(self).expansions == old(self).expansions,
            final(self).skipped_users == old(self).skipped_users,
            final(self).consecutive_failures == old(self).consecutive_failures,
            final(self).capacity_stop == old(self).capacity_stop,
            final(self).expanded_logins@ == old(self).expanded_logins@,
            crawl_collected(*old(self), *final(self), *neighborhood),
    {
        collect_crawl_neighborhood(
            neighborhood,
            &self.expanded_logins,
            &mut self.queued_logins,
            &mut self.frontier,
            &mut self.user_ids,
            &mut self.repository_ids,
        );
    }

    /// Records what an expansion gave: a neighbourhood is collected; a protected reserve or a
    /// full database stops the crawl; any other error skips the user, and ten failures in a
    /// row abort the crawl with the last error.
    pub fn record_expansion(&mut self, outcome: Result<UserNeighborhood, AppError>) -> (r:
        CrawlProgress)
        requires
            old(self).wf(),
            old(self).expansions < usize::MAX,
            old(self).skipped_users < usize::MAX,
            outcome is Ok ==> old(self).user_ids@.len() + old(self).repository_ids@.len()
                + neighborhood_size(outcome->Ok_0) <= usize::MAX,
        ensures
            final(self).wf(),
            final(self).cached_neighborhoods == old(self).cached_neighborhoods,
            final(self).expanded_logins@ == old(self).expanded_logins@,
            outcome is Ok ==> {
                &&& r is Continue
                &&& final(self).expansions == old(self).expansions + 1
                &&& final(self).consecutive_failures == 0
                &&& final(self).skipped_users == old(self).skipped_users
                &&& final(self).capacity_stop == old(self).capacity_stop
                &&& crawl_collected(*old(self), *final(self), outcome->Ok_0)
            },
            outcome is Err ==> {
                &&& final(self).frontier@ == old(self).frontier@
                &&& final(self).queued_logins@ == old(self).queued_logins@
                &&& final(self).user_ids@ == old(self).user_ids@
                &&& final(self).repository_ids@ == old(self).repository_ids@
                &&& final(self).expansions == old(self).expansions
            },
            outcome matches Err(AppError::RateBudgetReserved { .. }) ==> {
                &&& r == CrawlProgress::Stop(GraphCrawlStopReason::RequestReserveReached)
                &&& final(self).skipped_users == old(self).skipped_users
                &&& final(self).consecutive_failures == old(self).consecutive_failures
                &&& final(self).capacity_stop == old(self).capacity_stop
            },
            outcome matches Err(
                AppError::GraphCapacityExceeded {
                    resource,
                    current_count,
                    incoming_count,
                    projected_count,
                    maximum_count,
                },
            ) ==> {
                &&& r == CrawlProgress::Stop(GraphCrawlStopReason::DatabaseCapacityReached)
                &&& final(self).skipped_users == old(self).skipped_users
                &&& final(self).consecutive_failures == old(self).consecutive_failures
                &&& final(self).capacity_stop == Some(
                    GraphCrawlCapacityStop {
                        resource,
                        current_count,
                        incoming_count,
                        projected_count,
                        maximum_count,
                    },
                )
            },
            outcome is Err && !(outcome->Err_0 is RateBudgetReserved) && !(
            outcome->Err_0 is GraphCapacityExceeded) ==> {
                &&& final(self).skipped_users == old(self).skipped_users + 1
                &&& final(self).capacity_stop == old(self).capacity_stop
                &&& if old(self).consecutive_failures + 1 >= MAX_CONSECUTIVE_CRAWL_FAILURES {
                    r == CrawlProgress::Abort(outcome->Err_0) && final(self).consecutive_failures
                        == old(self).consecutive_failures
                } else {
                    r is Continue && final(self).consecutive_failures == old(
                        self,
                    ).consecutive_failures + 1
                }
            },
    {
        match outcome {
            Ok(neighborhood) => {
                self.expansions = self.expansions + 1;
                self.consecutive_failures = 0;
                self.collect(&neighborhood);
                CrawlProgress::Continue
            },
            Err(AppError::RateBudgetReserved { .. }) => {
                CrawlProgress::Stop(GraphCrawlStopReason::RequestReserveReached)
            },
            Err(
                AppError::GraphCapacityExceeded {
                    resource,
                    current_count,
                    incoming_count,
                    projected_count,
                    maximum_count,
                },
            ) => {
                self.capacity_stop = Some(
                    GraphCrawlCapacityStop {
                        resource,
                        current_count,
                        incoming_count,
                        projected_count,
                        maximum_count,
                    },
                );
                CrawlProgress::Stop(GraphCrawlStopReason::DatabaseCapacityReached)
            },
            Err(error) => {
                self.skipped_users = self.skipped_users + 1;
                if self.consecutive_failures + 1 >= MAX_CONSECUTIVE_CRAWL_FAILURES {
                    CrawlProgress::Abort(error)
                } else {
                    self.consecutive_failures = self.consecutive_failures + 1;
                    CrawlProgress::Continue
                }
            },
        }
    }

    /// The crawl's report.
    pub fn summary(
        self,
        seed_login: String,
        request_reserve: usize,
        initial_rate_limit: GitHubRateLimitStatus,
        final_rate_limit: GitHubRateLimitStatus,
        stop_reason: GraphCrawlStopReason,
    ) -> (r: GraphCrawlSummary)
        requires
            self.wf(),
        ensures
            r.seed_login == seed_login,
            r.expansions == self.expansions,
            r.cached_neighborhoods == self.cached_neighborhoods,
            r.skipped_users == self.skipped_users,
            r.unique_users == self.user_ids@.to_set().len(),
            r.unique_repositories == self.repository_ids@.to_set().len(),
            r.unique_nodes == r.unique_users + r.unique_repositories,
            r.frontier_remaining == self.frontier@.len(),
            r.request_reserve == request_reserve,
            r.initial_rate_limit == initial_rate_limit,
            r.final_rate_limit == final_rate_limit,
            r.stop_reason == stop_reason,
            r.capacity_stop == self.capacity_stop,
    {
        let unique_users = distinct_count(&self.user_ids);
        let unique_repositories = distinct_count(&self.repository_ids);
        proof {
            self.user_ids@.unique_seq_to_set();
            self.repository_ids@.unique_seq_to_set();
        }
        GraphCrawlSummary {
            seed_login,
            expansions: self.expansions,
            cached_neighborhoods: self.cached_neighborhoods,
            skipped_users: self.skipped_users,
            unique_users,
            unique_repositories,
            unique_nodes: unique_users + unique_repositories,
            frontier_remaining: self.frontier.len(),
            request_reserve,
            initial_rate_limit,
            final_rate_limit,
            stop_reason,
            capacity_stop: self.capacity_stop,
        }
    }
}

// ---------------------------------------------------------------------------------------
// One expansion's summary
// ---------------------------------------------------------------------------------------

#[derive(Debug, Clone, Copy, PartialEq, Eq, Structural)]
pub struct GraphExpansionCounts {
    pub followers: usize,
    pub following: usize,
    pub starred_repositories: usize,
    pub repositories: usize,
    pub unique_users: usize,
    pub unique_repositories: usize,
    pub unique_nodes: usize,
}

#[derive(Debug, Clone)]
pub struct GraphExpansionSummary {
    pub login: String,
    pub counts: GraphExpansionCounts,
    pub cache_status: CacheStatus,
    pub last_fetched_at: Option<i64>,
    pub coverage: GraphImportCoverage,
}

/// What one expansion brought: the size of each collection and the distinct people and
/// repositories among them.
pub fn graph_expansion_summary(neighborhood: UserNeighborhood) -> (r: GraphExpansionSummary)
    requires
        neighborhood_size(neighborhood) <= usize::MAX,
    ensures
        r.login == neighborhood.user.profile.login,
        r.counts.followers == neighborhood.followers@.len(),
        r.counts.following == neighborhood.following@.len(),
        r.counts.starred_repositories == neighborhood.starred_repositories@.len(),
        r.counts.repositories == neighborhood.owned_repositories@.len(),
        r.counts.unique_users == neighborhood_user_ids(neighborhood).len(),
        r.counts.unique_repositories == neighborhood_repository_ids(neighborhood).len(),
        r.counts.unique_nodes == r.counts.unique_users + r.counts.unique_repositories,
        r.cache_status == neighborhood.user.neighborhood_cache_status,
        r.last_fetched_at == neighborhood.user.neighborhood_last_fetched_at,
        r.coverage == neighborhood.coverage,
{
    let mut users: Vec<i64> = Vec::new();
    add_id(&mut users, neighborhood.user.profile.github_id);
    add_person_ids(&mut users, &neighborhood.followers);
    add_person_ids(&mut users, &neighborhood.following);
    assert(users@.to_set() =~= neighborhood_user_ids(neighborhood));
    let mut repositories: Vec<i64> = Vec::new();
    add_record_ids(&mut repositories, &neighborhood.starred_repositories);
    add_record_ids(&mut repositories, &neighborhood.owned_repositories);
    assert(repositories@.to_set() =~= neighborhood_repository_ids(neighborhood));
    let unique_users = distinct_count(&users);
    let unique_repositories = distinct_count(&repositories);
    let counts = GraphExpansionCounts {
        followers: neighborhood.followers.len(),
        following: neighborhood.following.len(),
        starred_repositories: neighborhood.starred_repositories.len(),
        repositories: neighborhood.owned_repositories.len(),
        unique_users,
        unique_repositories,
        unique_nodes: unique_users + unique_repositories,
    };
    GraphExpansionSummary {
        login: neighborhood.user.profile.login,
        counts,
        cache_status: neighborhood.user.neighborhood_cache_status,
        last_fetched_at: neighborhood.user.neighborhood_last_fetched_at,
        coverage: neighborhood.coverage,
    }
}

// ---------------------------------------------------------------------------------------
// Laws
// ---------------------------------------------------------------------------------------

proof fn lemma_enqueued_fresh(cands: Seq<Seq<char>>, expanded: Set<Seq<char>>, queued: Set<Seq<char>>)
    ensures
        enqueued(cands, expanded, queued).no_duplicates(),
        forall|x: Seq<char>| #[trigger]
            enqueued(cands, expanded, queued).contains(x) ==> !queued.contains(x)
                && !expanded.contains(x) && x.len() > 0,
    decreases cands.len(),
{
    if cands.len() > 0 {
        lemma_enqueued_fresh(cands.drop_last(), expanded, queued);
        let prev = enqueued(cands.drop_last(), expanded, queued);
        let c = cands.last();
        if c.len() > 0 && !expanded.contains(c) && !queued.contains(c) && !prev.contains(c) {
            assert forall|x: Seq<char>| #[trigger] prev.push(c).contains(x) implies !queued.contains(
                x,
            ) && !expanded.contains(x) && x.len() > 0 by {
                if x != c {
                    let k = choose|k: int| 0 <= k < prev.push(c).len() && prev.push(c)[k] == x;
                    assert(prev[k] == x);
                    assert(prev.contains(x));
                }
            }
        }
    }
}

/// The crawl queues each login at most once: where the frontier holds distinct logins, all
/// of them queued, it still does after a neighbourhood is collected, and no login that was
/// expanded joins it.
pub proof fn law_crawl_frontier_stays_distinct(
    before: CrawlState,
    after: CrawlState,
    n: UserNeighborhood,
)
    requires
        views(before.frontier@).no_duplicates(),
        views(before.frontier@).to_set().subset_of(text_set(before.queued_logins@)),
        crawl_collected(before, after, n),
    ensures
        views(after.frontier@).no_duplicates(),
        views(after.frontier@).to_set().subset_of(text_set(after.queued_logins@)),
        forall|x: Seq<char>|
            !views(before.frontier@).contains(x) && #[trigger] views(after.frontier@).contains(x)
                ==> !text_set(before.expanded_logins@).contains(x),
{
    let f = views(before.frontier@);
    let q = text_set(before.queued_logins@);
    let e = text_set(before.expanded_logins@);
    let added = enqueued(crawl_candidates(n), e, q);
    lemma_enqueued_fresh(crawl_candidates(n), e, q);
    let g = views(after.frontier@);
    assert(g == f + added);
    assert forall|i: int, j: int| 0 <= i < j < g.len() implies g[i] != g[j] by {
        if j >= f.len() && i < f.len() {
            assert(added.contains(g[j]));
            assert(f.contains(g[i]));
            assert(q.contains(g[i]));
        } else if i >= f.len() {
            assert(g[i] == added[i - f.len()]);
            assert(g[j] == added[j - f.len()]);
        }
    }
    assert forall|x: Seq<char>| #[trigger] g.to_set().contains(x) implies text_set(
        after.queued_logins@,
    ).contains(x) by {
        let k = choose|k: int| 0 <= k < g.len() && g[k] == x;
        if k < f.len() {
            assert(f.contains(x));
        } else {
            assert(added[k - f.len()] == x);
            assert(added.contains(x));
        }
    }
    assert forall|x: Seq<char>| !f.contains(x) && #[trigger] g.contains(x) implies !e.contains(
        x,
    ) by {
        let k = choose|k: int| 0 <= k < g.len() && g[k] == x;
        if k < f.len() {
            assert(f[k] == x);
        } else {
            assert(added[k - f.len()] == x);
            assert(added.contains(x));
        }
    }
}

} // verus!
