//! The shared graph kept in memory: users and repositories keyed by login and full name, the
//! follow, star and membership relations between them, and each record's cache bookkeeping;
//! and the queries and updates the local repositories run on it.
use vstd::prelude::*;

use crate::bookmarks::{
    bookmark_views, repository_names, saved_repository_names, Bookmark, BookmarkTarget, TargetView,
};
use crate::discovery::{contains_text, insert_text, text_set, views};
use crate::error::{validation, AppError};
use crate::exploration::{snapshot_views, ExplorationResult, ExplorationSeed, ExplorationSnapshot};
use crate::graph::{
    copy_metadata, CacheMetadata, CacheStatus, GitHubRepositoryNode, GitHubUserNode, GraphImportCoverage,
    RefreshJobStatus,
};
use crate::insights::{
    cache_status_from_metadata, job_status_of, stored_status, RepositoryContributorInsights,
    UserCommitRepositoryInsights,
};
use crate::graph::{lemma_user_position, user_index};
use crate::discovery::{DiscoveryRepositoryRecord, DiscoveryUser, UserNeighborhood};
use crate::graph::{copy_repository, copy_user, RepositoryNodeView};
use crate::insights::{lemma_text_less_irreflexive, lemma_text_less_transitive, text_before, text_less};
use crate::keyed::distinct_keys;
use crate::text::{eq_ignore_ascii_case, eq_ignore_case, owned, push_str, str_equal};

verus! {

/// The shared graph. Each record list holds one record per key (a user's login, a
/// repository's full name); each relation lists `(from, to)` pairs of such keys.
#[derive(Debug, Clone, Default)]
pub struct SharedGraphStore {
    pub users: Vec<GitHubUserNode>,
    pub repositories: Vec<GitHubRepositoryNode>,
    pub follows: Vec<(String, String)>,
    pub starred: Vec<(String, String)>,
    pub member_of: Vec<(String, String)>,
    pub user_coverage: Vec<(String, GraphImportCoverage)>,
    pub user_cache: Vec<(String, CacheMetadata)>,
    pub repository_cache: Vec<(String, CacheMetadata)>,
    pub repository_contributor_insights: Vec<RepositoryContributorInsights>,
    pub user_commit_repository_insights: Vec<UserCommitRepositoryInsights>,
}

impl SharedGraphStore {
    /// Each record list holds one record per key.
    pub open spec fn wf(&self) -> bool {
        &&& distinct_keys(self.users@)
        &&& distinct_keys(self.repositories@)
        &&& distinct_keys(self.user_coverage@)
        &&& distinct_keys(self.user_cache@)
        &&& distinct_keys(self.repository_cache@)
        &&& distinct_keys(self.repository_contributor_insights@)
        &&& distinct_keys(self.user_commit_repository_insights@)
    }
}

/// Whether a pair starts (forward) or ends (backward) at `key`.
pub open spec fn touches(e: (String, String), key: Seq<char>, forward: bool) -> bool {
    if forward {
        e.0@ == key
    } else {
        e.1@ == key
    }
}

/// The other end of a pair: its target going forward, its source going backward.
pub open spec fn far_end(e: (String, String), forward: bool) -> Seq<char> {
    if forward {
        e.1@
    } else {
        e.0@
    }
}

/// The pair links `key` to `t` in the given direction.
pub open spec fn linked(e: (String, String), key: Seq<char>, t: Seq<char>, forward: bool) -> bool {
    touches(e, key, forward) && far_end(e, forward) == t
}

/// What the first `n` pairs link `key` to, in the given direction.
pub open spec fn image_upto(edges: Seq<(String, String)>, key: Seq<char>, forward: bool, n: int) -> Set<
    Seq<char>,
> {
    Set::new(|t: Seq<char>| exists|i: int| 0 <= i < n && #[trigger] linked(edges[i], key, t, forward))
}

/// What a relation links `key` to: its targets going forward, its sources going backward.
pub open spec fn image(edges: Seq<(String, String)>, key: Seq<char>, forward: bool) -> Set<Seq<char>> {
    image_upto(edges, key, forward, edges.len() as int)
}

/// A set without one text, if one is named.
pub open spec fn minus(s: Set<Seq<char>>, excluded: Option<Seq<char>>) -> Set<Seq<char>> {
    match excluded {
        Some(x) => s.remove(x),
        None => s,
    }
}

pub open spec fn opt_text(t: Option<&str>) -> Option<Seq<char>> {
    match t {
        Some(s) => Some(s@),
        None => None,
    }
}

proof fn lemma_image_step(edges: Seq<(String, String)>, key: Seq<char>, forward: bool, n: int)
    requires
        0 <= n < edges.len(),
    ensures
        image_upto(edges, key, forward, n + 1) == (if touches(edges[n], key, forward) {
            image_upto(edges, key, forward, n).insert(far_end(edges[n], forward))
        } else {
            image_upto(edges, key, forward, n)
        }),
{
    let a = image_upto(edges, key, forward, n + 1);
    let b = image_upto(edges, key, forward, n);
    let c = if touches(edges[n], key, forward) {
        b.insert(far_end(edges[n], forward))
    } else {
        b
    };
    assert forall|t: Seq<char>| a.contains(t) implies c.contains(t) by {
        let i = choose|i: int| 0 <= i < n + 1 && #[trigger] linked(edges[i], key, t, forward);
        if i < n {
            assert(b.contains(t));
        }
    }
    assert forall|t: Seq<char>| c.contains(t) implies a.contains(t) by {
        if b.contains(t) {
            let i = choose|i: int| 0 <= i < n && #[trigger] linked(edges[i], key, t, forward);
            assert(linked(edges[i], key, t, forward));
        } else {
            assert(linked(edges[n], key, t, forward));
        }
    }
    assert(a =~= c);
}

/// Adds to `out` what `edges` links `key` to, except `excluded`; `out` keeps each text once.
pub(crate) fn collect_image(
    edges: &Vec<(String, String)>,
    key: &str,
    forward: bool,
    excluded: Option<&str>,
    out: &mut Vec<String>,
)
    requires
        views(old(out)@).no_duplicates(),
    ensures
        views(final(out)@).no_duplicates(),
        text_set(final(out)@) == text_set(old(out)@).union(
            minus(image(edges@, key@, forward), opt_text(excluded)),
        ),
{
    let ghost start = out@;
    let mut i: usize = 0;
    assert(image_upto(edges@, key@, forward, 0) =~= Set::empty());
    assert(text_set(out@) =~= text_set(start).union(
        minus(image_upto(edges@, key@, forward, 0), opt_text(excluded)),
    ));
    while i < edges.len()
        invariant
            i <= edges.len(),
            views(out@).no_duplicates(),
            text_set(out@) == text_set(start).union(
                minus(image_upto(edges@, key@, forward, i as int), opt_text(excluded)),
            ),
        decreases edges.len() - i,
    {
        proof {
            lemma_image_step(edges@, key@, forward, i as int);
        }
        let ghost before = out@;
        let e = &edges[i];
        let hit = if forward {
            str_equal(e.0.as_str(), key)
        } else {
            str_equal(e.1.as_str(), key)
        };
        if hit {
            let t = if forward {
                e.1.as_str()
            } else {
                e.0.as_str()
            };
            let skip = match excluded {
                Some(x) => str_equal(t, x),
                None => false,
            };
            if !skip {
                insert_text(out, t);
            }
            proof {
                let im = image_upto(edges@, key@, forward, i as int);
                assert(minus(im.insert(t@), opt_text(excluded)) =~= if skip {
                    minus(im, opt_text(excluded))
                } else {
                    minus(im, opt_text(excluded)).insert(t@)
                });
                assert(text_set(out@) =~= text_set(start).union(
                    minus(image_upto(edges@, key@, forward, i + 1), opt_text(excluded)),
                ));
            }
        }
        i += 1;
    }
}

/// The position of the repository with this full name, or -1.
pub open spec fn repository_position(s: Seq<GitHubRepositoryNode>, full_name: Seq<char>) -> int
    decreases s.len(),
{
    if s.len() == 0 {
        -1
    } else if s.last().full_name@ == full_name {
        s.len() - 1
    } else {
        repository_position(s.drop_last(), full_name)
    }
}

/// The position of the entry with this key, or -1.
pub open spec fn entry_position<V>(s: Seq<(String, V)>, key: Seq<char>) -> int
    decreases s.len(),
{
    if s.len() == 0 {
        -1
    } else if s.last().0@ == key {
        s.len() - 1
    } else {
        entry_position(s.drop_last(), key)
    }
}

pub(crate) proof fn lemma_repository_position(s: Seq<GitHubRepositoryNode>, full_name: Seq<char>)
    ensures
        -1 <= repository_position(s, full_name) < s.len(),
        repository_position(s, full_name) >= 0 ==> s[repository_position(s, full_name)].full_name@
            == full_name,
        repository_position(s, full_name) < 0 ==> forall|i: int|
            0 <= i < s.len() ==> s[i].full_name@ != full_name,
    decreases s.len(),
{
    if s.len() > 0 {
        lemma_repository_position(s.drop_last(), full_name);
        if s.last().full_name@ != full_name {
            assert forall|i: int| 0 <= i < s.len() - 1 implies s[i] == s.drop_last()[i] by {}
        }
    }
}

proof fn lemma_entry_position<V>(s: Seq<(String, V)>, key: Seq<char>)
    ensures
        -1 <= entry_position(s, key) < s.len(),
        entry_position(s, key) >= 0 ==> s[entry_position(s, key)].0@ == key,
        entry_position(s, key) < 0 ==> forall|i: int| 0 <= i < s.len() ==> s[i].0@ != key,
    decreases s.len(),
{
    if s.len() > 0 {
        lemma_entry_position(s.drop_last(), key);
        if s.last().0@ != key {
            assert forall|i: int| 0 <= i < s.len() - 1 implies s[i] == s.drop_last()[i] by {}
        }
    }
}

pub(crate) fn repository_index(s: &Vec<GitHubRepositoryNode>, full_name: &str) -> (k: Option<usize>)
    ensures
        match k {
            Some(i) => i == repository_position(s@, full_name@),
            None => repository_position(s@, full_name@) < 0,
        },
{
    let mut j: usize = s.len();
    assert(s@.take(j as int) == s@);
    while j > 0
        invariant
            j <= s.len(),
            repository_position(s@, full_name@) == repository_position(
                s@.take(j as int),
                full_name@,
            ),
        decreases j,
    {
        assert(s@.take(j as int).drop_last() == s@.take(j - 1));
        if str_equal(s[j - 1].full_name.as_str(), full_name) {
            return Some(j - 1);
        }
        j -= 1;
    }
    None
}

fn entry_index<V>(s: &Vec<(String, V)>, key: &str) -> (k: Option<usize>)
    ensures
        match k {
            Some(i) => i == entry_position(s@, key@),
            None => entry_position(s@, key@) < 0,
        },
{
    let mut j: usize = s.len();
    assert(s@.take(j as int) == s@);
    while j > 0
        invariant
            j <= s.len(),
            entry_position(s@, key@) == entry_position(s@.take(j as int), key@),
        decreases j,
    {
        assert(s@.take(j as int).drop_last() == s@.take(j - 1));
        if str_equal(s[j - 1].0.as_str(), key) {
            return Some(j - 1);
        }
        j -= 1;
    }
    None
}

/// Metadata of a record that was never fetched.
pub open spec fn no_metadata() -> CacheMetadata {
    CacheMetadata {
        last_fetched_at: None,
        stale_at: None,
        refresh_started_at: None,
        last_refresh_error: None,
    }
}

/// The cache metadata stored under `key`, or that of a record never fetched.
pub open spec fn cached(entries: Seq<(String, CacheMetadata)>, key: Seq<char>) -> CacheMetadata {
    if entry_position(entries, key) >= 0 {
        entries[entry_position(entries, key)].1
    } else {
        no_metadata()
    }
}

fn cached_metadata(entries: &Vec<(String, CacheMetadata)>, key: &str) -> (r: CacheMetadata)
    ensures
        r == cached(entries@, key@),
{
    proof {
        lemma_entry_position(entries@, key@);
    }
    let found = entry_index(entries, key);
    if let Some(k) = found {
        copy_metadata(&entries[k].1)
    } else {
        CacheMetadata {
            last_fetched_at: None,
            stale_at: None,
            refresh_started_at: None,
            last_refresh_error: None,
        }
    }
}

/// What an exploration of the shared graph found, and the seed's cache state.
#[derive(Debug, Clone)]
pub struct GraphExploration {
    pub related_people: Vec<String>,
    pub related_repositories: Vec<String>,
    pub cache_status: CacheStatus,
    pub last_fetched_at: Option<i64>,
    pub refresh_job_status: Option<RefreshJobStatus>,
    pub refresh_started_at: Option<i64>,
    pub last_refresh_error: Option<String>,
}

/// The users who own or starred a repository.
pub open spec fn holders(store: SharedGraphStore, full_name: Seq<char>) -> Set<Seq<char>> {
    image(store.member_of@, full_name, false).union(image(store.starred@, full_name, false))
}

/// The repositories a user owns or starred.
pub open spec fn holdings(store: SharedGraphStore, login: Seq<char>) -> Set<Seq<char>> {
    image(store.member_of@, login, true).union(image(store.starred@, login, true))
}

/// The bookmark is filed under `name` and points to the user or repository `t`.
pub open spec fn filed(b: Bookmark, name: Seq<char>, t: TargetView) -> bool {
    text_set(b.categories@).contains(name) && b.target@ == t
}

/// A user or a repository target with this key.
pub open spec fn target_of(users: bool, t: Seq<char>) -> TargetView {
    if users {
        TargetView::User(t)
    } else {
        TargetView::Repository(t)
    }
}

/// The targets of the first `n` bookmarks filed under `name`, users or repositories.
pub open spec fn filed_upto(bookmarks: Seq<Bookmark>, name: Seq<char>, users: bool, n: int) -> Set<
    Seq<char>,
> {
    Set::new(
        |t: Seq<char>|
            exists|i: int|
                0 <= i < n && #[trigger] filed(
                    bookmarks[i],
                    name,
                    target_of(users, t),
                ),
    )
}

/// The people an exploration from `seed` finds: a user's followers and followed users; the
/// owners and stargazers of a repository; the users bookmarked under a category.
pub open spec fn explored_people(
    store: SharedGraphStore,
    bookmarks: Seq<Bookmark>,
    seed: ExplorationSeed,
) -> Set<Seq<char>> {
    match seed {
        ExplorationSeed::User { login } => image(store.follows@, login@, true).union(
            image(store.follows@, login@, false),
        ),
        ExplorationSeed::Repository { full_name } => holders(store, full_name@),
        ExplorationSeed::Category { name } => filed_upto(
            bookmarks,
            name@,
            true,
            bookmarks.len() as int,
        ),
    }
}

/// The repositories an exploration from `seed` finds: those a user owns or starred; the
/// others that a repository's owners and stargazers own or starred; the repositories
/// bookmarked under a category.
pub open spec fn explored_repositories(
    store: SharedGraphStore,
    bookmarks: Seq<Bookmark>,
    seed: ExplorationSeed,
) -> Set<Seq<char>> {
    match seed {
        ExplorationSeed::User { login } => holdings(store, login@),
        ExplorationSeed::Repository { full_name } => Set::new(
            |r: Seq<char>|
                exists|u: Seq<char>|
                    holders(store, full_name@).contains(u) && #[trigger] holdings(
                        store,
                        u,
                    ).contains(r) && r != full_name@,
        ),
        ExplorationSeed::Category { name } => filed_upto(
            bookmarks,
            name@,
            false,
            bookmarks.len() as int,
        ),
    }
}

/// The seed is a user or repository that the shared graph does not hold.
pub open spec fn seed_missing(store: SharedGraphStore, seed: ExplorationSeed) -> bool {
    match seed {
        ExplorationSeed::User { login } => crate::graph::user_position(store.users@, login@) < 0,
        ExplorationSeed::Repository { full_name } => repository_position(
            store.repositories@,
            full_name@,
        ) < 0,
        ExplorationSeed::Category { .. } => false,
    }
}

/// The cache metadata that describes the seed: the user's or repository's; none for a
/// category, which counts as fresh.
pub open spec fn seed_metadata(store: SharedGraphStore, seed: ExplorationSeed) -> Option<
    CacheMetadata,
> {
    match seed {
        ExplorationSeed::User { login } => Some(cached(store.user_cache@, login@)),
        ExplorationSeed::Repository { full_name } => Some(
            cached(store.repository_cache@, full_name@),
        ),
        ExplorationSeed::Category { .. } => None,
    }
}

fn collect_filed(bookmarks: &Vec<Bookmark>, name: &str, people: &mut Vec<String>, repositories: &mut Vec<String>)
    requires
        old(people)@.len() == 0,
        old(repositories)@.len() == 0,
    ensures
        views(final(people)@).no_duplicates(),
        views(final(repositories)@).no_duplicates(),
        text_set(final(people)@) == filed_upto(bookmarks@, name@, true, bookmarks@.len() as int),
        text_set(final(repositories)@) == filed_upto(
            bookmarks@,
            name@,
            false,
            bookmarks@.len() as int,
        ),
{
    let mut i: usize = 0;
    assert(text_set(people@) =~= filed_upto(bookmarks@, name@, true, 0));
    assert(text_set(repositories@) =~= filed_upto(bookmarks@, name@, false, 0));
    while i < bookmarks.len()
        invariant
            i <= bookmarks.len(),
            views(people@).no_duplicates(),
            views(repositories@).no_duplicates(),
            text_set(people@) == filed_upto(bookmarks@, name@, true, i as int),
            text_set(repositories@) == filed_upto(bookmarks@, name@, false, i as int),
        decreases bookmarks.len() - i,
    {
        let b = &bookmarks[i];
        let listed = contains_text(&b.categories, name);
        proof {
            let n = i as int;
            assert forall|users: bool, t: Seq<char>| #[trigger]
                filed_upto(bookmarks@, name@, users, n + 1).contains(t) == (filed_upto(
                    bookmarks@,
                    name@,
                    users,
                    n,
                ).contains(t) || filed(
                    bookmarks@[n],
                    name@,
                    target_of(users, t),
                )) by {
                let tv = target_of(users, t);
                if filed_upto(bookmarks@, name@, users, n + 1).contains(t) {
                    let k = choose|k: int|
                        0 <= k < n + 1 && #[trigger] filed(bookmarks@[k], name@, tv);
                    if k < n {
                        assert(filed_upto(bookmarks@, name@, users, n).contains(t));
                    }
                }
                if filed_upto(bookmarks@, name@, users, n).contains(t) {
                    let k = choose|k: int| 0 <= k < n && #[trigger] filed(bookmarks@[k], name@, tv);
                    assert(filed(bookmarks@[k], name@, tv));
                }
                if filed(bookmarks@[n], name@, tv) {
                    assert(filed(bookmarks@[n], name@, tv));
                }
            }
        }
        if listed {
            match &b.target {
                BookmarkTarget::GitHubUser { login } => {
                    insert_text(people, login.as_str());
                },
                BookmarkTarget::GitHubRepository { full_name } => {
                    insert_text(repositories, full_name.as_str());
                },
            }
        }
        assert(text_set(people@) =~= filed_upto(bookmarks@, name@, true, i + 1));
        assert(text_set(repositories@) =~= filed_upto(bookmarks@, name@, false, i + 1));
        i += 1;
    }
}

/// The repositories that the first `n` of `owners` own or starred, other than `excluded`.
pub open spec fn reached_upto(
    store: SharedGraphStore,
    owners: Seq<String>,
    excluded: Seq<char>,
    n: int,
) -> Set<Seq<char>> {
    Set::new(
        |r: Seq<char>|
            exists|k: int|
                0 <= k < n && #[trigger] holdings(store, owners[k]@).contains(r) && r != excluded,
    )
}

fn explore_user(store: &SharedGraphStore, login: &str) -> (r: (Vec<String>, Vec<String>))
    ensures
        views(r.0@).no_duplicates(),
        views(r.1@).no_duplicates(),
        text_set(r.0@) == image(store.follows@, login@, true).union(
            image(store.follows@, login@, false),
        ),
        text_set(r.1@) == holdings(*store, login@),
{
    let mut people: Vec<String> = Vec::new();
    let mut repositories: Vec<String> = Vec::new();
    assert(text_set(people@) =~= Set::empty());
    collect_image(&store.follows, login, true, None, &mut people);
    collect_image(&store.follows, login, false, None, &mut people);
    collect_image(&store.member_of, login, true, None, &mut repositories);
    collect_image(&store.starred, login, true, None, &mut repositories);
    assert(text_set(people@) =~= image(store.follows@, login@, true).union(
        image(store.follows@, login@, false),
    ));
    assert(text_set(repositories@) =~= holdings(*store, login@));
    (people, repositories)
}

fn explore_repository(store: &SharedGraphStore, full_name: &str) -> (r: (Vec<String>, Vec<String>))
    ensures
        views(r.0@).no_duplicates(),
        views(r.1@).no_duplicates(),
        text_set(r.0@) == holders(*store, full_name@),
        forall|x: Seq<char>|
            text_set(r.1@).contains(x) <==> (exists|u: Seq<char>|
                holders(*store, full_name@).contains(u) && #[trigger] holdings(*store, u).contains(
                    x,
                ) && x != full_name@),
{
    let mut owners: Vec<String> = Vec::new();
    assert(text_set(owners@) =~= Set::empty());
    collect_image(&store.member_of, full_name, false, None, &mut owners);
    collect_image(&store.starred, full_name, false, None, &mut owners);
    assert(text_set(owners@) =~= holders(*store, full_name@));
    let mut repositories: Vec<String> = Vec::new();
    assert(text_set(repositories@) =~= reached_upto(*store, owners@, full_name@, 0));
    let mut j: usize = 0;
    while j < owners.len()
        invariant
            j <= owners.len(),
            views(repositories@).no_duplicates(),
            text_set(repositories@) == reached_upto(*store, owners@, full_name@, j as int),
        decreases owners.len() - j,
    {
        let ghost before = text_set(repositories@);
        let owner = owners[j].as_str();
        collect_image(&store.member_of, owner, true, Some(full_name), &mut repositories);
        collect_image(&store.starred, owner, true, Some(full_name), &mut repositories);
        proof {
            let n = j as int;
            assert forall|x: Seq<char>| #[trigger]
                reached_upto(*store, owners@, full_name@, n + 1).contains(x) == (before.contains(x)
                    || (holdings(*store, owners@[n]@).contains(x) && x != full_name@)) by {
                if reached_upto(*store, owners@, full_name@, n + 1).contains(x) {
                    let k = choose|k: int|
                        0 <= k < n + 1 && #[trigger] holdings(*store, owners@[k]@).contains(x)
                            && x != full_name@;
                    if k < n {
                        assert(reached_upto(*store, owners@, full_name@, n).contains(x));
                    }
                }
                if before.contains(x) {
                    let k = choose|k: int|
                        0 <= k < n && #[trigger] holdings(*store, owners@[k]@).contains(x) && x
                            != full_name@;
                    assert(holdings(*store, owners@[k]@).contains(x));
                }
                if holdings(*store, owners@[n]@).contains(x) && x != full_name@ {
                    assert(holdings(*store, owners@[n]@).contains(x));
                }
            }
            assert(text_set(repositories@) =~= reached_upto(*store, owners@, full_name@, n + 1));
        }
        j += 1;
    }
    proof {
        assert forall|x: Seq<char>|
            text_set(repositories@).contains(x) <==> (exists|u: Seq<char>|
                holders(*store, full_name@).contains(u) && #[trigger] holdings(*store, u).contains(
                    x,
                ) && x != full_name@) by {
            if text_set(repositories@).contains(x) {
                let k = choose|k: int|
                    0 <= k < owners@.len() && #[trigger] holdings(*store, owners@[k]@).contains(x)
                        && x != full_name@;
                assert(views(owners@)[k] == owners@[k]@);
                assert(text_set(owners@).contains(owners@[k]@));
            }
            if exists|u: Seq<char>|
                holders(*store, full_name@).contains(u) && #[trigger] holdings(*store, u).contains(
                    x,
                ) && x != full_name@ {
                let u = choose|u: Seq<char>|
                    holders(*store, full_name@).contains(u) && #[trigger] holdings(
                        *store,
                        u,
                    ).contains(x) && x != full_name@;
                assert(views(owners@).contains(u));
                let k = choose|k: int| 0 <= k < views(owners@).len() && views(owners@)[k] == u;
                assert(owners@[k]@ == u);
                assert(holdings(*store, owners@[k]@).contains(x));
            }
        }
    }
    (owners, repositories)
}

/// Explores the shared graph from a seed. A user or repository seed must be in the graph
/// ("run sync before exploring"); the people and repositories found are each listed once,
/// and the seed's cache state is read at `now`.
/// What an exploration found: the related people and repositories, each once, and the
/// seed's cache state at `now` (a category is always fresh).
pub open spec fn explored(
    store: SharedGraphStore,
    bookmarks: Seq<Bookmark>,
    seed: ExplorationSeed,
    now: i64,
    x: GraphExploration,
) -> bool {
    &&& views(x.related_people@).no_duplicates()
    &&& views(x.related_repositories@).no_duplicates()
    &&& text_set(x.related_people@) == explored_people(store, bookmarks, seed)
    &&& text_set(x.related_repositories@) == explored_repositories(store, bookmarks, seed)
    &&& match seed_metadata(store, seed) {
        Some(m) => x.cache_status == stored_status(m, now) && x.last_fetched_at == m.last_fetched_at
            && x.refresh_job_status == job_status_of(stored_status(m, now)) && x.refresh_started_at
            == m.refresh_started_at && x.last_refresh_error == m.last_refresh_error,
        None => x.cache_status == CacheStatus::Fresh && x.last_fetched_at is None
            && x.refresh_job_status is None && x.refresh_started_at is None
            && x.last_refresh_error is None,
    }
}

pub fn explore_graph(
    store: &SharedGraphStore,
    bookmarks: &Vec<Bookmark>,
    seed: &ExplorationSeed,
    now: i64,
) -> (r: Result<GraphExploration, AppError>)
    ensures
        r is Err <==> seed_missing(*store, *seed),
        r is Err ==> r->Err_0 is Validation && r->Err_0->Validation_0@
            == "run sync before exploring"@,
        r is Ok ==> explored(*store, bookmarks@, *seed, now, r->Ok_0),
{
    match seed {
        ExplorationSeed::User { login } => {
            if user_index(&store.users, login.as_str()).is_none() {
                return Err(validation("run sync before exploring"));
            }
            let (people, repositories) = explore_user(store, login.as_str());
            let metadata = cached_metadata(&store.user_cache, login.as_str());
            let refresh_started_at = metadata.refresh_started_at;
            let last_refresh_error = match &metadata.last_refresh_error {
                Some(e) => Some(e.clone()),
                None => None,
            };
            let (cache_status, last_fetched_at, refresh_job_status) = cache_status_from_metadata(
                metadata,
                now,
            );
            Ok(
                GraphExploration {
                    related_people: people,
                    related_repositories: repositories,
                    cache_status,
                    last_fetched_at,
                    refresh_job_status,
                    refresh_started_at,
                    last_refresh_error,
                },
            )
        },
        ExplorationSeed::Repository { full_name } => {
            if repository_index(&store.repositories, full_name.as_str()).is_none() {
                return Err(validation("run sync before exploring"));
            }
            let (people, repositories) = explore_repository(store, full_name.as_str());
            assert(text_set(repositories@) =~= explored_repositories(*store, bookmarks@, *seed));
            let metadata = cached_metadata(&store.repository_cache, full_name.as_str());
            let refresh_started_at = metadata.refresh_started_at;
            let last_refresh_error = match &metadata.last_refresh_error {
                Some(e) => Some(e.clone()),
                None => None,
            };
            let (cache_status, last_fetched_at, refresh_job_status) = cache_status_from_metadata(
                metadata,
                now,
            );
            Ok(
                GraphExploration {
                    related_people: people,
                    related_repositories: repositories,
                    cache_status,
                    last_fetched_at,
                    refresh_job_status,
                    refresh_started_at,
                    last_refresh_error,
                },
            )
        },
        ExplorationSeed::Category { name } => {
            let mut people: Vec<String> = Vec::new();
            let mut repositories: Vec<String> = Vec::new();
            collect_filed(bookmarks, name.as_str(), &mut people, &mut repositories);
            Ok(
                GraphExploration {
                    related_people: people,
                    related_repositories: repositories,
                    cache_status: CacheStatus::Fresh,
                    last_fetched_at: None,
                    refresh_job_status: None,
                    refresh_started_at: None,
                    last_refresh_error: None,
                },
            )
        },
    }
}

/// The saved snapshot and the result of an exploration, under a fresh snapshot id.
pub fn exploration_result(
    seed: ExplorationSeed,
    found: GraphExploration,
    snapshot_id: String,
    generated_at: i64,
) -> (r: ExplorationResult)
    ensures
        r.seed == seed,
        r.related_people == found.related_people,
        r.related_repositories == found.related_repositories,
        r.saved_snapshot.id == snapshot_id,
        r.saved_snapshot.seed == seed,
        r.saved_snapshot.discovered_people@ == found.related_people@,
        r.saved_snapshot.discovered_repositories@ == found.related_repositories@,
        r.saved_snapshot.generated_at == generated_at,
        r.cache_status == found.cache_status,
        r.last_fetched_at == found.last_fetched_at,
        r.refresh_job_status == found.refresh_job_status,
        r.refresh_started_at == found.refresh_started_at,
        r.last_refresh_error == found.last_refresh_error,
{
    let people = found.related_people.clone();
    let repositories = found.related_repositories.clone();
    assert(people@ =~= found.related_people@);
    assert(repositories@ =~= found.related_repositories@);
    let snapshot_seed = copy_seed(&seed);
    ExplorationResult {
        seed,
        related_people: found.related_people,
        related_repositories: found.related_repositories,
        saved_snapshot: ExplorationSnapshot {
            id: snapshot_id,
            seed: snapshot_seed,
            discovered_people: people,
            discovered_repositories: repositories,
            generated_at,
        },
        cache_status: found.cache_status,
        last_fetched_at: found.last_fetched_at,
        refresh_job_status: found.refresh_job_status,
        refresh_started_at: found.refresh_started_at,
        last_refresh_error: found.last_refresh_error,
    }
}

/// What an exploration result reports of what was found.
pub open spec fn found_of(r: ExplorationResult) -> GraphExploration {
    GraphExploration {
        related_people: r.related_people,
        related_repositories: r.related_repositories,
        cache_status: r.cache_status,
        last_fetched_at: r.last_fetched_at,
        refresh_job_status: r.refresh_job_status,
        refresh_started_at: r.refresh_started_at,
        last_refresh_error: r.last_refresh_error,
    }
}

/// Explores the shared graph from a seed for a user at `now` and saves the snapshot under
/// `snapshot_id` to the end of the user's history. A seed the graph does not hold is refused
/// and nothing is saved.
pub fn explore_and_record(
    store: &SharedGraphStore,
    bookmarks: &Vec<Bookmark>,
    history: &mut Vec<ExplorationSnapshot>,
    seed: ExplorationSeed,
    snapshot_id: String,
    now: i64,
) -> (r: Result<ExplorationResult, AppError>)
    ensures
        r is Err <==> seed_missing(*store, seed),
        r is Err ==> r->Err_0 is Validation && r->Err_0->Validation_0@
            == "run sync before exploring"@ && final(history)@ == old(history)@,
        r is Ok ==> {
            let x = r->Ok_0;
            &&& explored(*store, bookmarks@, seed, now, found_of(x))
            &&& x.seed == seed
            &&& x.saved_snapshot.id == snapshot_id
            &&& x.saved_snapshot.seed == seed
            &&& x.saved_snapshot.discovered_people@ == x.related_people@
            &&& x.saved_snapshot.discovered_repositories@ == x.related_repositories@
            &&& x.saved_snapshot.generated_at == now
            &&& snapshot_views(final(history)@) == snapshot_views(old(history)@).push(
                x.saved_snapshot@,
            )
        },
{
    let found = explore_graph(store, bookmarks, &seed, now)?;
    let result = exploration_result(seed, found, snapshot_id, now);
    let saved = ExplorationSnapshot {
        id: result.saved_snapshot.id.clone(),
        seed: copy_seed(&result.saved_snapshot.seed),
        discovered_people: result.saved_snapshot.discovered_people.clone(),
        discovered_repositories: result.saved_snapshot.discovered_repositories.clone(),
        generated_at: result.saved_snapshot.generated_at,
    };
    let ghost before = history@;
    history.push(saved);
    proof {
        assert(saved.discovered_people@ =~= result.saved_snapshot.discovered_people@);
        assert(saved.discovered_repositories@ =~= result.saved_snapshot.discovered_repositories@);
        assert(saved@ == result.saved_snapshot@);
        assert(snapshot_views(history@) =~= snapshot_views(before).push(result.saved_snapshot@));
    }
    Ok(result)
}

fn copy_seed(seed: &ExplorationSeed) -> (r: ExplorationSeed)
    ensures
        r == *seed,
{
    match seed {
        ExplorationSeed::User { login } => ExplorationSeed::User { login: login.clone() },
        ExplorationSeed::Repository { full_name } => ExplorationSeed::Repository {
            full_name: full_name.clone(),
        },
        ExplorationSeed::Category { name } => ExplorationSeed::Category { name: name.clone() },
    }
}

/// A stored login equals `requested` ignoring ASCII case.
pub open spec fn has_login_like(store: SharedGraphStore, requested: Seq<char>) -> bool {
    exists|i: int|
        0 <= i < store.users@.len() && eq_ignore_case(#[trigger] store.users@[i].login@, requested)
}

/// A stored full name equals `requested` ignoring ASCII case.
pub open spec fn has_repository_like(store: SharedGraphStore, requested: Seq<char>) -> bool {
    exists|i: int|
        0 <= i < store.repositories@.len() && eq_ignore_case(
            #[trigger] store.repositories@[i].full_name@,
            requested,
        )
}

/// The user at `i` is the first whose login equals `requested` ignoring ASCII case.
pub open spec fn first_login_like(store: SharedGraphStore, requested: Seq<char>, i: int) -> bool {
    &&& 0 <= i < store.users@.len()
    &&& eq_ignore_case(store.users@[i].login@, requested)
    &&& forall|k: int| 0 <= k < i ==> !eq_ignore_case(#[trigger] store.users@[k].login@, requested)
}

/// The stored login a requested one resolves to: itself where it is stored, otherwise the
/// first stored login equal to it ignoring ASCII case.
pub open spec fn resolved_login(store: SharedGraphStore, requested: Seq<char>) -> Option<Seq<char>> {
    if crate::graph::user_position(store.users@, requested) >= 0 {
        Some(requested)
    } else if exists|i: int| first_login_like(store, requested, i) {
        Some(store.users@[choose|i: int| first_login_like(store, requested, i)].login@)
    } else {
        None
    }
}

proof fn lemma_first_login_like_unique(store: SharedGraphStore, requested: Seq<char>, i: int, j: int)
    requires
        first_login_like(store, requested, i),
        first_login_like(store, requested, j),
    ensures
        i == j,
{
    if i < j {
        assert(!eq_ignore_case(store.users@[i].login@, requested));
    } else if j < i {
        assert(!eq_ignore_case(store.users@[j].login@, requested));
    }
}

/// Finds the stored login for a requested one: the login itself where it is stored,
/// otherwise the first stored login that equals it ignoring ASCII case.
pub fn resolve_shared_login(store: &SharedGraphStore, requested: &str) -> (r: Option<String>)
    ensures
        match r {
            Some(l) => resolved_login(*store, requested@) == Some(l@),
            None => resolved_login(*store, requested@) is None,
        },
        r is None <==> !has_login_like(*store, requested@),
        r is Some ==> crate::graph::user_position(store.users@, r->0@) >= 0 && eq_ignore_case(
            r->0@,
            requested@,
        ),
        crate::graph::user_position(store.users@, requested@) >= 0 ==> r is Some && r->0@
            == requested@,
{
    proof {
        lemma_user_position(store.users@, requested@);
    }
    if user_index(&store.users, requested).is_some() {
        assert(eq_ignore_case(requested@, requested@));
        return Some(requested.to_string());
    }
    let mut i: usize = 0;
    while i < store.users.len()
        invariant
            i <= store.users.len(),
            crate::graph::user_position(store.users@, requested@) < 0,
            forall|k: int| 0 <= k < i ==> !eq_ignore_case(#[trigger] store.users@[k].login@, requested@),
        decreases store.users.len() - i,
    {
        if eq_ignore_ascii_case(store.users[i].login.as_str(), requested) {
            let found = store.users[i].login.clone();
            proof {
                lemma_user_position(store.users@, found@);
                lemma_user_present(store.users@, i as int);
                assert(first_login_like(*store, requested@, i as int));
                let c = choose|c: int| first_login_like(*store, requested@, c);
                lemma_first_login_like_unique(*store, requested@, i as int, c);
            }
            return Some(found);
        }
        i += 1;
    }
    proof {
        if exists|c: int| first_login_like(*store, requested@, c) {
            let c = choose|c: int| first_login_like(*store, requested@, c);
            assert(!eq_ignore_case(store.users@[c].login@, requested@));
        }
    }
    None
}

proof fn lemma_user_present(s: Seq<GitHubUserNode>, i: int)
    requires
        0 <= i < s.len(),
    ensures
        crate::graph::user_position(s, s[i].login@) >= 0,
    decreases s.len(),
{
    if s.last().login@ != s[i].login@ {
        assert(i < s.len() - 1);
        assert(s.drop_last()[i] == s[i]);
        lemma_user_present(s.drop_last(), i);
    }
}

proof fn lemma_repository_present(s: Seq<GitHubRepositoryNode>, i: int)
    requires
        0 <= i < s.len(),
    ensures
        repository_position(s, s[i].full_name@) >= 0,
    decreases s.len(),
{
    if s.last().full_name@ != s[i].full_name@ {
        assert(i < s.len() - 1);
        assert(s.drop_last()[i] == s[i]);
        lemma_repository_present(s.drop_last(), i);
    }
}

/// The repository at `i` is the first whose full name equals `requested` ignoring ASCII case.
pub open spec fn first_repository_like(store: SharedGraphStore, requested: Seq<char>, i: int) -> bool {
    &&& 0 <= i < store.repositories@.len()
    &&& eq_ignore_case(store.repositories@[i].full_name@, requested)
    &&& forall|k: int|
        0 <= k < i ==> !eq_ignore_case(#[trigger] store.repositories@[k].full_name@, requested)
}

/// The stored full name a requested one resolves to: itself where it is stored, otherwise
/// the first stored full name equal to it ignoring ASCII case.
pub open spec fn resolved_repository(store: SharedGraphStore, requested: Seq<char>) -> Option<
    Seq<char>,
> {
    if repository_position(store.repositories@, requested) >= 0 {
        Some(requested)
    } else if exists|i: int| first_repository_like(store, requested, i) {
        Some(
            store.repositories@[choose|i: int| first_repository_like(store, requested, i)].full_name@,
        )
    } else {
        None
    }
}

proof fn lemma_first_repository_like_unique(
    store: SharedGraphStore,
    requested: Seq<char>,
    i: int,
    j: int,
)
    requires
        first_repository_like(store, requested, i),
        first_repository_like(store, requested, j),
    ensures
        i == j,
{
    if i < j {
        assert(!eq_ignore_case(store.repositories@[i].full_name@, requested));
    } else if j < i {
        assert(!eq_ignore_case(store.repositories@[j].full_name@, requested));
    }
}

/// Finds the stored full name for a requested one: the name itself where it is stored,
/// otherwise the first stored name that equals it ignoring ASCII case.
pub fn resolve_shared_repository_name(store: &SharedGraphStore, requested: &str) -> (r: Option<
    String,
>)
    ensures
        match r {
            Some(n) => resolved_repository(*store, requested@) == Some(n@),
            None => resolved_repository(*store, requested@) is None,
        },
        r is None <==> !has_repository_like(*store, requested@),
        r is Some ==> repository_position(store.repositories@, r->0@) >= 0 && eq_ignore_case(
            r->0@,
            requested@,
        ),
        repository_position(store.repositories@, requested@) >= 0 ==> r is Some && r->0@
            == requested@,
{
    proof {
        lemma_repository_position(store.repositories@, requested@);
    }
    if repository_index(&store.repositories, requested).is_some() {
        assert(eq_ignore_case(requested@, requested@));
        return Some(requested.to_string());
    }
    let mut i: usize = 0;
    while i < store.repositories.len()
        invariant
            i <= store.repositories.len(),
            repository_position(store.repositories@, requested@) < 0,
            forall|k: int|
                0 <= k < i ==> !eq_ignore_case(#[trigger] store.repositories@[k].full_name@, requested@),
        decreases store.repositories.len() - i,
    {
        if eq_ignore_ascii_case(store.repositories[i].full_name.as_str(), requested) {
            let found = store.repositories[i].full_name.clone();
            proof {
                lemma_repository_present(store.repositories@, i as int);
                assert(first_repository_like(*store, requested@, i as int));
                let c = choose|c: int| first_repository_like(*store, requested@, c);
                lemma_first_repository_like_unique(*store, requested@, i as int, c);
            }
            return Some(found);
        }
        i += 1;
    }
    proof {
        if exists|c: int| first_repository_like(*store, requested@, c) {
            let c = choose|c: int| first_repository_like(*store, requested@, c);
            assert(!eq_ignore_case(store.repositories@[c].full_name@, requested@));
        }
    }
    None
}

/// A bookmark may only point to a user or repository that the graph holds, compared
/// ignoring ASCII case.
pub fn resolve_target_in_store(store: &SharedGraphStore, target: &BookmarkTarget) -> (r: Result<
    (),
    AppError,
>)
    ensures
        r is Ok <==> match target@ {
            TargetView::User(login) => has_login_like(*store, login),
            TargetView::Repository(full_name) => has_repository_like(*store, full_name),
        },
        r is Err ==> r->Err_0 is NotFound && r->Err_0->NotFound_0@
            == "bookmark target not found in imported graph"@,
{
    let found = match target {
        BookmarkTarget::GitHubUser { login } => resolve_shared_login(store, login.as_str()).is_some(),
        BookmarkTarget::GitHubRepository { full_name } => resolve_shared_repository_name(
            store,
            full_name.as_str(),
        ).is_some(),
    };
    if found {
        Ok(())
    } else {
        Err(AppError::NotFound("bookmark target not found in imported graph".to_string()))
    }
}

/// The discovery record of a stored user: the profile and the neighbourhood's cache state.
pub open spec fn discovery_user_at(store: SharedGraphStore, login: Seq<char>, now: i64) -> Option<
    DiscoveryUser,
> {
    let p = crate::graph::user_position(store.users@, login);
    if p < 0 {
        None
    } else {
        let m = cached(store.user_cache@, login);
        Some(
            DiscoveryUser {
                profile: store.users@[p],
                neighborhood_cache_status: stored_status(m, now),
                neighborhood_last_fetched_at: m.last_fetched_at,
            },
        )
    }
}

/// The discovery record of a stored user, if the graph holds them.
pub fn discovery_user_from_store(store: &SharedGraphStore, login: &str, now: i64) -> (r: Option<
    DiscoveryUser,
>)
    ensures
        r == discovery_user_at(*store, login@, now),
{
    proof {
        lemma_user_position(store.users@, login@);
    }
    match user_index(&store.users, login) {
        None => None,
        Some(k) => {
            let profile = copy_user(&store.users[k]);
            let (status, fetched, _) = cache_status_from_metadata(
                cached_metadata(&store.user_cache, login),
                now,
            );
            Some(
                DiscoveryUser {
                    profile,
                    neighborhood_cache_status: status,
                    neighborhood_last_fetched_at: fetched,
                },
            )
        },
    }
}

/// The stored users at the far ends of the pairs that touch `login`, in pair order.
pub open spec fn neighbours(
    store: SharedGraphStore,
    edges: Seq<(String, String)>,
    login: Seq<char>,
    forward: bool,
    now: i64,
) -> Seq<DiscoveryUser>
    decreases edges.len(),
{
    if edges.len() == 0 {
        Seq::empty()
    } else {
        let prev = neighbours(store, edges.drop_last(), login, forward, now);
        let e = edges.last();
        if touches(e, login, forward) && discovery_user_at(store, far_end(e, forward), now) is Some {
            prev.push(discovery_user_at(store, far_end(e, forward), now)->0)
        } else {
            prev
        }
    }
}

fn collect_neighbours(
    store: &SharedGraphStore,
    edges: &Vec<(String, String)>,
    login: &str,
    forward: bool,
    now: i64,
) -> (r: Vec<DiscoveryUser>)
    ensures
        r@ == neighbours(*store, edges@, login@, forward, now),
{
    let mut out: Vec<DiscoveryUser> = Vec::new();
    let mut i: usize = 0;
    while i < edges.len()
        invariant
            i <= edges.len(),
            out@ == neighbours(*store, edges@.take(i as int), login@, forward, now),
        decreases edges.len() - i,
    {
        assert(edges@.take(i + 1).drop_last() == edges@.take(i as int));
        let e = &edges[i];
        let hit = if forward {
            str_equal(e.0.as_str(), login)
        } else {
            str_equal(e.1.as_str(), login)
        };
        if hit {
            let t = if forward {
                e.1.as_str()
            } else {
                e.0.as_str()
            };
            if let Some(d) = discovery_user_from_store(store, t, now) {
                out.push(d);
            }
        }
        i += 1;
    }
    assert(edges@.take(edges.len() as int) == edges@);
    out
}

/// No user is listed ahead of one whose login sorts before theirs.
pub open spec fn sorted_by_login(s: Seq<DiscoveryUser>) -> bool {
    forall|i: int, j: int|
        0 <= i < j < s.len() ==> !text_less(
            #[trigger] s[j].profile.login@,
            #[trigger] s[i].profile.login@,
        )
}

fn copy_discovery_user(d: &DiscoveryUser) -> (r: DiscoveryUser)
    ensures
        r == *d,
{
    DiscoveryUser {
        profile: copy_user(&d.profile),
        neighborhood_cache_status: d.neighborhood_cache_status,
        neighborhood_last_fetched_at: d.neighborhood_last_fetched_at,
    }
}

/// Sorts discovery users by login.
fn sort_users_by_login(items: &Vec<DiscoveryUser>) -> (r: Vec<DiscoveryUser>)
    ensures
        r@.to_multiset() == items@.to_multiset(),
        sorted_by_login(r@),
{
    let mut out: Vec<DiscoveryUser> = Vec::new();
    let mut i: usize = 0;
    assert(out@ =~= items@.take(0));
    while i < items.len()
        invariant
            i <= items.len(),
            out@.to_multiset() == items@.take(i as int).to_multiset(),
            sorted_by_login(out@),
        decreases items.len() - i,
    {
        let x = copy_discovery_user(&items[i]);
        let mut pos: usize = 0;
        while pos < out.len() && !text_before(x.profile.login.as_str(), out[pos].profile.login.as_str())
            invariant
                pos <= out.len(),
                forall|j: int|
                    0 <= j < pos ==> !text_less(x.profile.login@, #[trigger] out@[j].profile.login@),
            decreases out.len() - pos,
        {
            pos += 1;
        }
        let ghost before = out@;
        proof {
            assert forall|m: int| pos <= m < before.len() implies !text_less(
                #[trigger] before[m].profile.login@,
                x.profile.login@,
            ) by {
                let km = before[m].profile.login@;
                let kp = before[pos as int].profile.login@;
                let kx = x.profile.login@;
                if text_less(km, kx) {
                    lemma_text_less_transitive(km, kx, kp);
                    if m == pos {
                        lemma_text_less_irreflexive(kp);
                    }
                }
            }
        }
        out.insert(pos, x);
        proof {
            let after = out@;
            assert(after =~= before.insert(pos as int, x));
            assert forall|a: int, b: int| 0 <= a < b < after.len() implies !text_less(
                #[trigger] after[b].profile.login@,
                #[trigger] after[a].profile.login@,
            ) by {
                if b < pos {
                    assert(after[a] == before[a] && after[b] == before[b]);
                } else if b == pos {
                    assert(after[a] == before[a]);
                } else if a == pos {
                    assert(after[b] == before[b - 1]);
                } else if a < pos {
                    assert(after[a] == before[a] && after[b] == before[b - 1]);
                } else {
                    assert(after[a] == before[a - 1] && after[b] == before[b - 1]);
                }
            }
            vstd::seq_lib::to_multiset_insert(before, pos as int, x);
            assert(items@.take(i + 1) =~= items@.take(i as int).push(items@[i as int]));
            vstd::seq_lib::to_multiset_build(items@.take(i as int), items@[i as int]);
        }
        i += 1;
    }
    assert(items@.take(items.len() as int) == items@);
    out
}

/// A repository record as plain values, with whether the user saved it.
pub open spec fn record_view(r: DiscoveryRepositoryRecord) -> (RepositoryNodeView, bool) {
    (r.repository@, r.saved)
}

pub open spec fn record_views(s: Seq<DiscoveryRepositoryRecord>) -> Seq<(RepositoryNodeView, bool)> {
    s.map_values(|r: DiscoveryRepositoryRecord| record_view(r))
}

/// The stored repository with this full name, marked saved where `saved` holds its name.
pub open spec fn repository_record_at(
    store: SharedGraphStore,
    full_name: Seq<char>,
    saved: Set<Seq<char>>,
) -> Option<(RepositoryNodeView, bool)> {
    let p = repository_position(store.repositories@, full_name);
    if p < 0 {
        None
    } else {
        Some((store.repositories@[p]@, saved.contains(full_name)))
    }
}

/// The stored repositories that the pairs starting at `login` lead to, in pair order.
pub open spec fn held_records(
    store: SharedGraphStore,
    edges: Seq<(String, String)>,
    login: Seq<char>,
    saved: Set<Seq<char>>,
) -> Seq<(RepositoryNodeView, bool)>
    decreases edges.len(),
{
    if edges.len() == 0 {
        Seq::empty()
    } else {
        let prev = held_records(store, edges.drop_last(), login, saved);
        let e = edges.last();
        if e.0@ == login && repository_record_at(store, e.1@, saved) is Some {
            prev.push(repository_record_at(store, e.1@, saved)->0)
        } else {
            prev
        }
    }
}

fn discovery_repository_from_store(
    store: &SharedGraphStore,
    full_name: &str,
    saved: &Vec<String>,
) -> (r: Option<DiscoveryRepositoryRecord>)
    ensures
        match r {
            Some(x) => repository_record_at(*store, full_name@, text_set(saved@)) == Some(
                record_view(x),
            ),
            None => repository_record_at(*store, full_name@, text_set(saved@)) is None,
        },
{
    proof {
        lemma_repository_position(store.repositories@, full_name@);
    }
    match repository_index(&store.repositories, full_name) {
        None => None,
        Some(k) => Some(
            DiscoveryRepositoryRecord {
                repository: copy_repository(&store.repositories[k]),
                saved: contains_text(saved, full_name),
            },
        ),
    }
}

fn collect_records(
    store: &SharedGraphStore,
    edges: &Vec<(String, String)>,
    login: &str,
    saved: &Vec<String>,
) -> (r: Vec<DiscoveryRepositoryRecord>)
    ensures
        record_views(r@) == held_records(*store, edges@, login@, text_set(saved@)),
{
    let mut out: Vec<DiscoveryRepositoryRecord> = Vec::new();
    let mut i: usize = 0;
    assert(record_views(out@) =~= Seq::empty());
    while i < edges.len()
        invariant
            i <= edges.len(),
            record_views(out@) == held_records(*store, edges@.take(i as int), login@, text_set(saved@)),
        decreases edges.len() - i,
    {
        assert(edges@.take(i + 1).drop_last() == edges@.take(i as int));
        let e = &edges[i];
        if str_equal(e.0.as_str(), login) {
            if let Some(x) = discovery_repository_from_store(store, e.1.as_str(), saved) {
                let ghost before = out@;
                out.push(x);
                assert(record_views(out@) =~= record_views(before).push(record_view(x)));
            }
        }
        i += 1;
    }
    assert(edges@.take(edges.len() as int) == edges@);
    out
}

/// No repository is listed ahead of one whose full name sorts before its own.
pub open spec fn sorted_by_name(s: Seq<(RepositoryNodeView, bool)>) -> bool {
    forall|i: int, j: int|
        0 <= i < j < s.len() ==> !text_less(#[trigger] s[j].0.full_name, #[trigger] s[i].0.full_name)
}

fn copy_record(x: &DiscoveryRepositoryRecord) -> (r: DiscoveryRepositoryRecord)
    ensures
        record_view(r) == record_view(*x),
        r.repository.full_name == x.repository.full_name,
{
    DiscoveryRepositoryRecord { repository: copy_repository(&x.repository), saved: x.saved }
}

/// Sorts repository records by full name.
fn sort_records_by_name(items: &Vec<DiscoveryRepositoryRecord>) -> (r: Vec<DiscoveryRepositoryRecord>)
    ensures
        record_views(r@).to_multiset() == record_views(items@).to_multiset(),
        sorted_by_name(record_views(r@)),
{
    let mut out: Vec<DiscoveryRepositoryRecord> = Vec::new();
    let mut i: usize = 0;
    assert(record_views(out@) =~= record_views(items@.take(0)));
    while i < items.len()
        invariant
            i <= items.len(),
            record_views(out@).to_multiset() == record_views(items@.take(i as int)).to_multiset(),
            sorted_by_name(record_views(out@)),
        decreases items.len() - i,
    {
        let x = copy_record(&items[i]);
        let mut pos: usize = 0;
        while pos < out.len() && !text_before(
            x.repository.full_name.as_str(),
            out[pos].repository.full_name.as_str(),
        )
            invariant
                pos <= out.len(),
                forall|j: int|
                    0 <= j < pos ==> !text_less(
                        x.repository.full_name@,
                        #[trigger] record_views(out@)[j].0.full_name,
                    ),
            decreases out.len() - pos,
        {
            assert(record_views(out@)[pos as int].0.full_name == out@[pos as int].repository.full_name@);
            pos += 1;
        }
        let ghost before = record_views(out@);
        proof {
            if pos < out.len() {
                assert(before[pos as int].0.full_name == out@[pos as int].repository.full_name@);
            }
            assert forall|m: int| pos <= m < before.len() implies !text_less(
                #[trigger] before[m].0.full_name,
                x.repository.full_name@,
            ) by {
                let km = before[m].0.full_name;
                let kp = before[pos as int].0.full_name;
                let kx = x.repository.full_name@;
                if text_less(km, kx) {
                    lemma_text_less_transitive(km, kx, kp);
                    if m == pos {
                        lemma_text_less_irreflexive(kp);
                    }
                }
            }
        }
        out.insert(pos, x);
        proof {
            let after = record_views(out@);
            assert(after =~= before.insert(pos as int, record_view(x)));
            assert(record_view(x).0.full_name == x.repository.full_name@);
            assert forall|a: int, b: int| 0 <= a < b < after.len() implies !text_less(
                #[trigger] after[b].0.full_name,
                #[trigger] after[a].0.full_name,
            ) by {
                if b < pos {
                    assert(after[a] == before[a] && after[b] == before[b]);
                } else if b == pos {
                    assert(after[a] == before[a]);
                } else if a == pos {
                    assert(after[b] == before[b - 1]);
                } else if a < pos {
                    assert(after[a] == before[a] && after[b] == before[b - 1]);
                } else {
                    assert(after[a] == before[a - 1] && after[b] == before[b - 1]);
                }
            }
            vstd::seq_lib::to_multiset_insert(before, pos as int, record_view(x));
            assert(record_views(items@.take(i + 1)) =~= record_views(items@.take(i as int)).push(
                record_view(items@[i as int]),
            ));
            vstd::seq_lib::to_multiset_build(
                record_views(items@.take(i as int)),
                record_view(items@[i as int]),
            );
        }
        i += 1;
    }
    assert(items@.take(items.len() as int) == items@);
    out
}

/// The coverage of a user whose neighbourhood was never fully fetched.
pub open spec fn no_coverage() -> GraphImportCoverage {
    GraphImportCoverage {
        followers_complete: false,
        following_complete: false,
        starred_repositories_complete: false,
        repositories_complete: false,
    }
}

/// The coverage stored for a user, or none at all.
pub open spec fn coverage_of(entries: Seq<(String, GraphImportCoverage)>, login: Seq<char>) -> GraphImportCoverage {
    if entry_position(entries, login) >= 0 {
        entries[entry_position(entries, login)].1
    } else {
        no_coverage()
    }
}

/// A user's discovery record, shown stale where their neighbourhood is incomplete.
pub open spec fn with_coverage(d: DiscoveryUser, coverage: GraphImportCoverage) -> DiscoveryUser {
    if coverage.complete() {
        d
    } else {
        DiscoveryUser { neighborhood_cache_status: CacheStatus::Stale, ..d }
    }
}

/// The names of the repositories saved among a user's bookmarks, if they have any.
pub open spec fn saved_names(bookmarks: Option<&Vec<Bookmark>>) -> Set<Seq<char>> {
    match bookmarks {
        Some(b) => repository_names(bookmark_views(b@)),
        None => Set::empty(),
    }
}

/// The message for a login that the shared graph does not hold.
pub open spec fn user_absent_message(login: Seq<char>) -> Seq<char> {
    "github user `"@ + login + "` is not present in the shared graph"@
}

pub(crate) fn user_absent(login: &str) -> (e: AppError)
    ensures
        e is NotFound && e->NotFound_0@ == user_absent_message(login@),
{
    let mut m = owned("github user `");
    push_str(&mut m, login);
    push_str(&mut m, "` is not present in the shared graph");
    AppError::NotFound(m)
}

/// A user's neighbourhood in the shared graph, for the login as stored or as stored ignoring
/// ASCII case: the user (stale where the neighbourhood is incomplete), their followers and
/// followed users sorted by login, the repositories they starred and own sorted by full name
/// and marked where saved among `bookmarks`, and the stored coverage.
pub fn user_neighborhood(
    store: &SharedGraphStore,
    bookmarks: Option<&Vec<Bookmark>>,
    login: &str,
    now: i64,
) -> (r: Result<UserNeighborhood, AppError>)
    ensures
        r is Err <==> !has_login_like(*store, login@),
        r is Err ==> r->Err_0 is NotFound && r->Err_0->NotFound_0@ == user_absent_message(login@),
        r is Ok ==> {
            let n = r->Ok_0;
            let l = n.user.profile.login@;
            let saved = saved_names(bookmarks);
            &&& crate::graph::user_position(store.users@, l) >= 0
            &&& eq_ignore_case(l, login@)
            &&& crate::graph::user_position(store.users@, login@) >= 0 ==> l == login@
            &&& discovery_user_at(*store, l, now) is Some
            &&& n.user == with_coverage(
                discovery_user_at(*store, l, now)->0,
                coverage_of(store.user_coverage@, l),
            )
            &&& n.coverage == coverage_of(store.user_coverage@, l)
            &&& n.followers@.to_multiset() == neighbours(
                *store,
                store.follows@,
                l,
                false,
                now,
            ).to_multiset()
            &&& sorted_by_login(n.followers@)
            &&& n.following@.to_multiset() == neighbours(
                *store,
                store.follows@,
                l,
                true,
                now,
            ).to_multiset()
            &&& sorted_by_login(n.following@)
            &&& record_views(n.starred_repositories@).to_multiset() == held_records(
                *store,
                store.starred@,
                l,
                saved,
            ).to_multiset()
            &&& sorted_by_name(record_views(n.starred_repositories@))
            &&& record_views(n.owned_repositories@).to_multiset() == held_records(
                *store,
                store.member_of@,
                l,
                saved,
            ).to_multiset()
            &&& sorted_by_name(record_views(n.owned_repositories@))
        },
{
    let resolved = match resolve_shared_login(store, login) {
        Some(found) => found,
        None => {
            return Err(user_absent(login));
        },
    };
    let l = resolved.as_str();
    let saved = saved_repository_names(bookmarks);
    let followers = sort_users_by_login(&collect_neighbours(store, &store.follows, l, false, now));
    let following = sort_users_by_login(&collect_neighbours(store, &store.follows, l, true, now));
    let starred = sort_records_by_name(&collect_records(store, &store.starred, l, &saved));
    let owned = sort_records_by_name(&collect_records(store, &store.member_of, l, &saved));
    proof {
        lemma_entry_position(store.user_coverage@, l@);
        lemma_user_position(store.users@, l@);
    }
    let coverage = match entry_index(&store.user_coverage, l) {
        Some(k) => store.user_coverage[k].1,
        None => GraphImportCoverage::incomplete(),
    };
    let mut user = match discovery_user_from_store(store, l, now) {
        Some(d) => d,
        None => {
            return Err(user_absent(login));
        },
    };
    if !coverage.is_complete() {
        user.neighborhood_cache_status = CacheStatus::Stale;
    }
    assert(user.profile.login@ == l@);
    Ok(
        UserNeighborhood {
            user,
            followers,
            following,
            starred_repositories: starred,
            owned_repositories: owned,
            coverage,
        },
    )
}

/// A user whose neighbourhood coverage was never stored counts as incomplete, and their
/// neighbourhood shows as stale whatever the cache says.
pub proof fn law_uncovered_user_is_stale(store: SharedGraphStore, login: Seq<char>, d: DiscoveryUser)
    requires
        entry_position(store.user_coverage@, login) < 0,
    ensures
        !coverage_of(store.user_coverage@, login).complete(),
        with_coverage(d, coverage_of(store.user_coverage@, login)).neighborhood_cache_status
            == CacheStatus::Stale,
{
}

} // verus!
