//! Contributor and commit-activity insights kept in the shared graph: reading them under the
//! stored name, claiming and failing their refreshes, and saving fetched ones.
use vstd::prelude::*;

use crate::aliases::{
    change_views, reconcile_repository_alias, reconcile_user_alias, repository_reconciled,
    user_reconciled,
};
use crate::error::AppError;
use crate::graph::{
    copy_metadata, copy_text, CacheMetadata, CacheStatus, GitHubRepositoryNode, GitHubUserNode,
    RepositoryNodeView,
};
use crate::imports::{upsert_user, upserted};
use crate::insights::{
    begin_insight_refresh, fail_insight_refresh, in_range, insight_status, lemma_text_less_irreflexive,
    lemma_text_less_transitive, may_begin_refresh, sort_by_activity, sorted_by_activity, activities,
    text_before, text_less, ActivityView, RepositoryContributor, RepositoryContributorInsights,
    UserCommitRepository, UserCommitRepositoryInsights, REFRESH_RETRY_MICROS,
};
use crate::keyed::{key_index, keyed_map, lemma_key_position, put_keyed, take_keyed};
use crate::store::{
    resolve_shared_login, resolve_shared_repository_name, resolved_login, resolved_repository,
    user_absent, user_absent_message, SharedGraphStore,
};
use crate::text::{chars_of, owned, push_str, string_from_chars};

verus! {

/// The contributor insights stored for a repository requested by name, looked up under the
/// stored name it resolves to.
pub open spec fn contributor_entry(store: SharedGraphStore, full_name: Seq<char>) -> Option<
    RepositoryContributorInsights,
> {
    match resolved_repository(store, full_name) {
        Some(c) => if keyed_map(store.repository_contributor_insights@).contains_key(c) {
            Some(keyed_map(store.repository_contributor_insights@)[c])
        } else {
            None
        },
        None => None,
    }
}

/// The commit-activity insights stored for a user requested by login, looked up under the
/// stored login it resolves to.
pub open spec fn commit_entry(store: SharedGraphStore, login: Seq<char>) -> Option<
    UserCommitRepositoryInsights,
> {
    match resolved_login(store, login) {
        Some(c) => if keyed_map(store.user_commit_repository_insights@).contains_key(c) {
            Some(keyed_map(store.user_commit_repository_insights@)[c])
        } else {
            None
        },
        None => None,
    }
}

/// Cache metadata once a refresh was claimed at `now`.
pub open spec fn begun(m: CacheMetadata, now: i64) -> CacheMetadata {
    CacheMetadata { refresh_started_at: Some(now), last_refresh_error: None, ..m }
}

/// Cache metadata once a refresh failed at `now` with `error`.
pub open spec fn failed(before: CacheMetadata, after: CacheMetadata, error: Seq<char>, now: i64) -> bool {
    &&& after.refresh_started_at is None
    &&& after.last_refresh_error is Some
    &&& after.last_refresh_error->0@ == error
    &&& after.stale_at == Some((now + REFRESH_RETRY_MICROS) as i64)
    &&& after.last_fetched_at == before.last_fetched_at
}

/// Only the contributor insights differ between the two graphs.
pub open spec fn only_contributors_differ(a: SharedGraphStore, b: SharedGraphStore) -> bool {
    b == SharedGraphStore { repository_contributor_insights: b.repository_contributor_insights, ..a }
}

/// Only the commit-activity insights differ between the two graphs.
pub open spec fn only_commits_differ(a: SharedGraphStore, b: SharedGraphStore) -> bool {
    b == SharedGraphStore { user_commit_repository_insights: b.user_commit_repository_insights, ..a }
}

/// The contributor insights stored for a repository, looked up under the stored name that
/// the requested one resolves to.
pub fn stored_repository_contributors<'a>(store: &'a SharedGraphStore, full_name: &str) -> (r: Option<
    &'a RepositoryContributorInsights,
>)
    requires
        store.wf(),
    ensures
        match r {
            Some(x) => contributor_entry(*store, full_name@) == Some(*x),
            None => contributor_entry(*store, full_name@) is None,
        },
{
    let canonical = match resolve_shared_repository_name(store, full_name) {
        Some(c) => c,
        None => return None,
    };
    proof {
        lemma_key_position(store.repository_contributor_insights@, canonical@);
    }
    match key_index(&store.repository_contributor_insights, canonical.as_str()) {
        Some(i) => Some(&store.repository_contributor_insights[i]),
        None => None,
    }
}

/// The commit-activity insights stored for a user, looked up under the stored login that
/// the requested one resolves to.
pub fn stored_user_commit_repositories<'a>(store: &'a SharedGraphStore, login: &str) -> (r: Option<
    &'a UserCommitRepositoryInsights,
>)
    requires
        store.wf(),
    ensures
        match r {
            Some(x) => commit_entry(*store, login@) == Some(*x),
            None => commit_entry(*store, login@) is None,
        },
{
    let canonical = match resolve_shared_login(store, login) {
        Some(c) => c,
        None => return None,
    };
    proof {
        lemma_key_position(store.user_commit_repository_insights@, canonical@);
    }
    match key_index(&store.user_commit_repository_insights, canonical.as_str()) {
        Some(i) => Some(&store.user_commit_repository_insights[i]),
        None => None,
    }
}

/// Claims the refresh of a repository's stored contributor insights at `now`; refused where
/// none are stored or where a refresh runs or waits for its retry time.
pub fn begin_repository_contributor_refresh(
    store: &mut SharedGraphStore,
    full_name: &str,
    now: i64,
) -> (r: bool)
    requires
        old(store).wf(),
        in_range(now),
    ensures
        final(store).wf(),
        only_contributors_differ(*old(store), *final(store)),
        r == match contributor_entry(*old(store), full_name@) {
            Some(x) => may_begin_refresh(x.cache, now),
            None => false,
        },
        r ==> keyed_map(final(store).repository_contributor_insights@) == keyed_map(
            old(store).repository_contributor_insights@,
        ).insert(
            contributor_entry(*old(store), full_name@)->0.full_name@,
            RepositoryContributorInsights {
                cache: begun(contributor_entry(*old(store), full_name@)->0.cache, now),
                ..contributor_entry(*old(store), full_name@)->0
            },
        ),
        !r ==> keyed_map(final(store).repository_contributor_insights@) == keyed_map(
            old(store).repository_contributor_insights@,
        ),
{
    let ghost before = keyed_map(store.repository_contributor_insights@);
    let canonical = match resolve_shared_repository_name(store, full_name) {
        Some(c) => c,
        None => return false,
    };
    proof {
        lemma_key_position(store.repository_contributor_insights@, canonical@);
    }
    let taken = take_keyed(&mut store.repository_contributor_insights, canonical.as_str());
    match taken {
        None => {
            assert(before.remove(canonical@) =~= before);
            false
        },
        Some(mut x) => {
            let ghost original = x;
            let started = begin_insight_refresh(&mut x.cache, now);
            put_keyed(&mut store.repository_contributor_insights, x);
            proof {
                assert(original.full_name@ == canonical@);
                if !started {
                    assert(x == original);
                    assert(before.remove(canonical@).insert(canonical@, original) =~= before);
                }
            }
            started
        },
    }
}

/// Claims the refresh of a user's stored commit-activity insights at `now`; refused where
/// none are stored or where a refresh runs or waits for its retry time.
pub fn begin_user_commit_repository_refresh(store: &mut SharedGraphStore, login: &str, now: i64) -> (r:
    bool)
    requires
        old(store).wf(),
        in_range(now),
    ensures
        final(store).wf(),
        only_commits_differ(*old(store), *final(store)),
        r == match commit_entry(*old(store), login@) {
            Some(x) => may_begin_refresh(x.cache, now),
            None => false,
        },
        r ==> keyed_map(final(store).user_commit_repository_insights@) == keyed_map(
            old(store).user_commit_repository_insights@,
        ).insert(
            commit_entry(*old(store), login@)->0.login@,
            UserCommitRepositoryInsights {
                cache: begun(commit_entry(*old(store), login@)->0.cache, now),
                ..commit_entry(*old(store), login@)->0
            },
        ),
        !r ==> keyed_map(final(store).user_commit_repository_insights@) == keyed_map(
            old(store).user_commit_repository_insights@,
        ),
{
    let ghost before = keyed_map(store.user_commit_repository_insights@);
    let canonical = match resolve_shared_login(store, login) {
        Some(c) => c,
        None => return false,
    };
    proof {
        lemma_key_position(store.user_commit_repository_insights@, canonical@);
    }
    let taken = take_keyed(&mut store.user_commit_repository_insights, canonical.as_str());
    match taken {
        None => {
            assert(before.remove(canonical@) =~= before);
            false
        },
        Some(mut x) => {
            let ghost original = x;
            let started = begin_insight_refresh(&mut x.cache, now);
            put_keyed(&mut store.user_commit_repository_insights, x);
            proof {
                assert(original.login@ == canonical@);
                if !started {
                    assert(x == original);
                    assert(before.remove(canonical@).insert(canonical@, original) =~= before);
                }
            }
            started
        },
    }
}

/// Records that the refresh of a repository's stored contributor insights failed at `now`
/// with `error`; nothing happens where none are stored.
pub fn fail_repository_contributor_refresh(
    store: &mut SharedGraphStore,
    full_name: &str,
    error: &str,
    now: i64,
)
    requires
        old(store).wf(),
        in_range(now),
    ensures
        final(store).wf(),
        only_contributors_differ(*old(store), *final(store)),
        contributor_entry(*old(store), full_name@) is None ==> keyed_map(
            final(store).repository_contributor_insights@,
        ) == keyed_map(old(store).repository_contributor_insights@),
        contributor_entry(*old(store), full_name@) is Some ==> {
            let x = contributor_entry(*old(store), full_name@)->0;
            let after = keyed_map(final(store).repository_contributor_insights@);
            &&& after.dom() == keyed_map(old(store).repository_contributor_insights@).dom()
            &&& forall|k: Seq<char>| #[trigger]
                after.contains_key(k) && k != x.full_name@ ==> after[k] == keyed_map(
                    old(store).repository_contributor_insights@,
                )[k]
            &&& after[x.full_name@] == RepositoryContributorInsights {
                cache: after[x.full_name@].cache,
                ..x
            }
            &&& failed(x.cache, after[x.full_name@].cache, error@, now)
        },
{
    let ghost before = keyed_map(store.repository_contributor_insights@);
    let canonical = match resolve_shared_repository_name(store, full_name) {
        Some(c) => c,
        None => return,
    };
    proof {
        lemma_key_position(store.repository_contributor_insights@, canonical@);
    }
    let taken = take_keyed(&mut store.repository_contributor_insights, canonical.as_str());
    match taken {
        None => {
            assert(before.remove(canonical@) =~= before);
        },
        Some(mut x) => {
            let ghost original = x;
            fail_insight_refresh(&mut x.cache, error, now);
            put_keyed(&mut store.repository_contributor_insights, x);
            proof {
                assert(original.full_name@ == canonical@);
                let after = keyed_map(store.repository_contributor_insights@);
                assert(after.dom() =~= before.dom());
            }
        },
    }
}

/// Records that the refresh of a user's stored commit-activity insights failed at `now`
/// with `error`; nothing happens where none are stored.
pub fn fail_user_commit_repository_refresh(
    store: &mut SharedGraphStore,
    login: &str,
    error: &str,
    now: i64,
)
    requires
        old(store).wf(),
        in_range(now),
    ensures
        final(store).wf(),
        only_commits_differ(*old(store), *final(store)),
        commit_entry(*old(store), login@) is None ==> keyed_map(
            final(store).user_commit_repository_insights@,
        ) == keyed_map(old(store).user_commit_repository_insights@),
        commit_entry(*old(store), login@) is Some ==> {
            let x = commit_entry(*old(store), login@)->0;
            let after = keyed_map(final(store).user_commit_repository_insights@);
            &&& after.dom() == keyed_map(old(store).user_commit_repository_insights@).dom()
            &&& forall|k: Seq<char>| #[trigger]
                after.contains_key(k) && k != x.login@ ==> after[k] == keyed_map(
                    old(store).user_commit_repository_insights@,
                )[k]
            &&& after[x.login@] == UserCommitRepositoryInsights { cache: after[x.login@].cache, ..x }
            &&& failed(x.cache, after[x.login@].cache, error@, now)
        },
{
    let ghost before = keyed_map(store.user_commit_repository_insights@);
    let canonical = match resolve_shared_login(store, login) {
        Some(c) => c,
        None => return,
    };
    proof {
        lemma_key_position(store.user_commit_repository_insights@, canonical@);
    }
    let taken = take_keyed(&mut store.user_commit_repository_insights, canonical.as_str());
    match taken {
        None => {
            assert(before.remove(canonical@) =~= before);
        },
        Some(mut x) => {
            let ghost original = x;
            fail_insight_refresh(&mut x.cache, error, now);
            put_keyed(&mut store.user_commit_repository_insights, x);
            proof {
                assert(original.login@ == canonical@);
                let after = keyed_map(store.user_commit_repository_insights@);
                assert(after.dom() =~= before.dom());
            }
        },
    }
}

// ---------------------------------------------------------------------------------------
// Saving contributor insights
// ---------------------------------------------------------------------------------------

/// `a` is listed before `b`: more contributions, then the login in text order.
pub open spec fn contributes_before(a: RepositoryContributor, b: RepositoryContributor) -> bool {
    a.contributions > b.contributions || (a.contributions == b.contributions && text_less(
        a.login@,
        b.login@,
    ))
}

/// No contributor is listed before one ahead of it.
pub open spec fn sorted_by_contributions(s: Seq<RepositoryContributor>) -> bool {
    forall|i: int, j: int|
        0 <= i < j < s.len() ==> !contributes_before(#[trigger] s[j], #[trigger] s[i])
}

proof fn lemma_contributes_before_order(
    a: RepositoryContributor,
    b: RepositoryContributor,
    c: RepositoryContributor,
)
    ensures
        !contributes_before(a, a),
        contributes_before(a, b) && contributes_before(b, c) ==> contributes_before(a, c),
{
    lemma_text_less_irreflexive(a.login@);
    if contributes_before(a, b) && contributes_before(b, c) && a.contributions == c.contributions {
        lemma_text_less_transitive(a.login@, b.login@, c.login@);
    }
}

fn contributes_before_exec(a: &RepositoryContributor, b: &RepositoryContributor) -> (r: bool)
    ensures
        r == contributes_before(*a, *b),
{
    if a.contributions != b.contributions {
        return a.contributions > b.contributions;
    }
    text_before(a.login.as_str(), b.login.as_str())
}

fn copy_contributor(c: &RepositoryContributor) -> (r: RepositoryContributor)
    ensures
        r == *c,
{
    RepositoryContributor {
        github_id: c.github_id,
        login: c.login.clone(),
        avatar_url: copy_text(&c.avatar_url),
        url: c.url.clone(),
        contributions: c.contributions,
    }
}

/// Sorts contributors: most contributions first, then by login; contributors that compare
/// equal keep their order.
fn sort_contributors(items: &Vec<RepositoryContributor>) -> (r: Vec<RepositoryContributor>)
    ensures
        r@.to_multiset() == items@.to_multiset(),
        sorted_by_contributions(r@),
{
    let mut out: Vec<RepositoryContributor> = Vec::new();
    let mut i: usize = 0;
    assert(out@ =~= items@.take(0));
    while i < items.len()
        invariant
            i <= items.len(),
            out@.to_multiset() == items@.take(i as int).to_multiset(),
            sorted_by_contributions(out@),
        decreases items.len() - i,
    {
        let x = copy_contributor(&items[i]);
        let mut pos: usize = 0;
        while pos < out.len() && !contributes_before_exec(&x, &out[pos])
            invariant
                pos <= out.len(),
                forall|j: int| 0 <= j < pos ==> !contributes_before(x, #[trigger] out@[j]),
            decreases out.len() - pos,
        {
            pos += 1;
        }
        let ghost before = out@;
        proof {
            assert forall|m: int| pos <= m < before.len() implies !contributes_before(
                #[trigger] before[m],
                x,
            ) by {
                lemma_contributes_before_order(before[m], x, before[pos as int]);
                lemma_contributes_before_order(
                    before[pos as int],
                    before[pos as int],
                    before[pos as int],
                );
                if m > pos {
                    assert(!contributes_before(before[m], before[pos as int]));
                }
            }
        }
        out.insert(pos, x);
        proof {
            let after = out@;
            assert(after =~= before.insert(pos as int, x));
            assert forall|a: int, b: int| 0 <= a < b < after.len() implies !contributes_before(
                #[trigger] after[b],
                #[trigger] after[a],
            ) by {
                if b < pos {
                    assert(after[a] == before[a] && after[b] == before[b]);
                } else if b == pos {
                    assert(after[a] == before[a]);
                } else if a == pos {
                    assert(after[b] == before[b - 1]);
                } else if a < pos {
                    assert(after[a] == before[a] && after[b] == before[b - 1]);
                } else {
                    assert(after[a] == before[a - 1] && after[b] == before[b - 1]);
                }
            }
            vstd::seq_lib::to_multiset_insert(before, pos as int, x);
            assert(items@.take(i + 1) =~= items@.take(i as int).push(items@[i as int]));
            vstd::seq_lib::to_multiset_build(items@.take(i as int), items@[i as int]);
        }
        i += 1;
    }
    assert(items@.take(items.len() as int) == items@);
    out
}

/// The partial user record a contributor stands for.
pub open spec fn contributor_user(c: RepositoryContributor) -> GitHubUserNode {
    GitHubUserNode {
        github_id: c.github_id,
        login: c.login,
        name: None,
        url: c.url,
        avatar_url: c.avatar_url,
        bio: None,
        followers_count: None,
        following_count: None,
        public_repositories_count: None,
    }
}

/// After a contributor is reconciled, their partial record is merged into the users.
pub open spec fn contributor_written(mid: SharedGraphStore, b: SharedGraphStore, u: GitHubUserNode) -> bool {
    &&& keyed_map(b.users@) == keyed_map(mid.users@).insert(
        u.login@,
        upserted(keyed_map(mid.users@), u, false),
    )
    &&& b == SharedGraphStore { users: b.users, ..mid }
}

/// One contributor step: reconciled (`part` lists its renames), then written.
pub open spec fn contributor_absorbed(
    a: SharedGraphStore,
    b: SharedGraphStore,
    u: GitHubUserNode,
    part: Seq<(Seq<char>, Seq<char>)>,
) -> bool {
    exists|mid: SharedGraphStore|
        mid.wf() && user_reconciled(a, mid, u, part) && #[trigger] contributor_written(mid, b, u)
}

/// The `i`-th step of a contributor chain.
pub open spec fn contributor_step(
    states: Seq<SharedGraphStore>,
    cuts: Seq<int>,
    contributors: Seq<RepositoryContributor>,
    changes: Seq<(Seq<char>, Seq<char>)>,
    i: int,
) -> bool {
    &&& 0 <= cuts[i] <= cuts[i + 1] <= changes.len()
    &&& contributor_absorbed(
        states[i],
        states[i + 1],
        contributor_user(contributors[i]),
        changes.subrange(cuts[i], cuts[i + 1]),
    )
}

/// The stores the contributors pass the graph through, one step each, the renames of the
/// `i`-th step being `changes[cuts[i]..cuts[i + 1]]`.
pub open spec fn contributors_chained(
    states: Seq<SharedGraphStore>,
    cuts: Seq<int>,
    contributors: Seq<RepositoryContributor>,
    changes: Seq<(Seq<char>, Seq<char>)>,
) -> bool {
    &&& states.len() == contributors.len() + 1
    &&& cuts.len() == contributors.len() + 1
    &&& cuts[0] == 0
    &&& cuts[contributors.len() as int] == changes.len()
    &&& forall|i: int|
        0 <= i < contributors.len() ==> #[trigger] contributor_step(states, cuts, contributors, changes, i)
}

/// The contributors absorbed in order, taking the graph from `a` to `b`.
pub open spec fn contributors_absorbed(
    a: SharedGraphStore,
    b: SharedGraphStore,
    contributors: Seq<RepositoryContributor>,
    changes: Seq<(Seq<char>, Seq<char>)>,
) -> bool {
    exists|states: Seq<SharedGraphStore>, cuts: Seq<int>|
        #[trigger] contributors_chained(states, cuts, contributors, changes) && states[0] == a
            && states.last() == b
}

proof fn lemma_views_append(a: Seq<(String, String)>, b: Seq<(String, String)>)
    ensures
        change_views(a + b) == change_views(a) + change_views(b),
{
    assert(change_views(a + b) =~= change_views(a) + change_views(b));
}

fn absorb_contributor(
    store: &mut SharedGraphStore,
    c: &RepositoryContributor,
    changes: &mut Vec<(String, String)>,
)
    requires
        old(store).wf(),
    ensures
        final(store).wf(),
        final(changes)@.take(old(changes)@.len() as int) == old(changes)@,
        final(changes)@.len() >= old(changes)@.len(),
        contributor_absorbed(
            *old(store),
            *final(store),
            contributor_user(*c),
            change_views(final(changes)@).skip(old(changes)@.len() as int),
        ),
{
    let ghost before = changes@;
    let user = GitHubUserNode {
        github_id: c.github_id,
        login: c.login.clone(),
        name: None,
        url: c.url.clone(),
        avatar_url: copy_text(&c.avatar_url),
        bio: None,
        followers_count: None,
        following_count: None,
        public_repositories_count: None,
    };
    let mut renames = reconcile_user_alias(store, &user);
    let ghost made = renames@;
    let ghost mid = *store;
    let ghost written = user;
    upsert_user(&mut store.users, user, false);
    changes.append(&mut renames);
    proof {
        lemma_views_append(before, made);
        assert(changes@.take(before.len() as int) =~= before);
        assert(change_views(changes@).skip(before.len() as int) =~= change_views(made));
        assert(contributor_written(mid, *store, written));
    }
}

fn absorb_contributors(
    store: &mut SharedGraphStore,
    contributors: &Vec<RepositoryContributor>,
    changes: &mut Vec<(String, String)>,
)
    requires
        old(store).wf(),
        old(changes)@.len() == 0,
    ensures
        final(store).wf(),
        contributors_absorbed(*old(store), *final(store), contributors@, change_views(final(changes)@)),
{
    let ghost start = *store;
    let ghost all = contributors@;
    let ghost mut states: Seq<SharedGraphStore> = seq![start];
    let ghost mut cuts: Seq<int> = seq![0int];
    let mut i: usize = 0;
    proof {
        assert(change_views(changes@) =~= Seq::empty());
    }
    while i < contributors.len()
        invariant
            store.wf(),
            i <= all.len(),
            all == contributors@,
            states[0] == start,
            states.last() == *store,
            contributors_chained(states, cuts, all.take(i as int), change_views(changes@)),
        decreases contributors.len() - i,
    {
        let ghost before_changes = changes@;
        let ghost before_store = *store;
        let ghost n = i as int;
        absorb_contributor(store, &contributors[i], changes);
        proof {
            let old_tail = change_views(before_changes);
            let new_tail = change_views(changes@);
            assert(changes@.take(before_changes.len() as int) == before_changes);
            assert forall|q: int| 0 <= q < old_tail.len() implies new_tail[q] == old_tail[q] by {
                assert(changes@[q] == before_changes[q]);
            }
            let step = change_views(changes@).skip(before_changes.len() as int);
            assert(step =~= new_tail.subrange(old_tail.len() as int, new_tail.len() as int));
            let old_states = states;
            let old_cuts = cuts;
            states = states.push(*store);
            cuts = cuts.push(new_tail.len() as int);
            assert(all.take(n + 1) =~= all.take(n).push(all[n]));
            let done = all.take(n + 1);
            assert forall|k: int| 0 <= k < done.len() implies #[trigger] contributor_step(
                states,
                cuts,
                done,
                new_tail,
                k,
            ) by {
                if k < n {
                    assert(contributor_step(old_states, old_cuts, all.take(n), old_tail, k));
                    assert(done[k] == all.take(n)[k]);
                    assert(new_tail.subrange(cuts[k], cuts[k + 1]) =~= old_tail.subrange(
                        old_cuts[k],
                        old_cuts[k + 1],
                    ));
                } else {
                    assert(states[k] == before_store);
                    assert(done[k] == contributors@[n]);
                }
            }
        }
        i += 1;
    }
    proof {
        assert(all.take(i as int) =~= all);
    }
}

/// The message for a repository that the shared graph does not hold.
pub open spec fn repository_absent_message(full_name: Seq<char>) -> Seq<char> {
    "github repository `"@ + full_name + "` is not present in the shared graph"@
}

fn repository_absent(full_name: &str) -> (e: AppError)
    ensures
        e is NotFound && e->NotFound_0@ == repository_absent_message(full_name@),
{
    let mut m = owned("github repository `");
    push_str(&mut m, full_name);
    push_str(&mut m, "` is not present in the shared graph");
    AppError::NotFound(m)
}

/// The graph `b` is `a` after the contributors of `insights`, sorted as `sorted`, were
/// absorbed (taking it to `mid`, with renames `changes`) and the insights were written under
/// the stored name of their repository.
pub open spec fn contributors_saved(
    a: SharedGraphStore,
    b: SharedGraphStore,
    insights: RepositoryContributorInsights,
    changes: Seq<(Seq<char>, Seq<char>)>,
    sorted: Seq<RepositoryContributor>,
    mid: SharedGraphStore,
) -> bool {
    let c = resolved_repository(a, insights.full_name@)->0;
    let saved = keyed_map(b.repository_contributor_insights@);
    &&& sorted.to_multiset() == insights.contributors@.to_multiset()
    &&& sorted_by_contributions(sorted)
    &&& contributors_absorbed(a, mid, sorted, changes)
    &&& only_contributors_differ(mid, b)
    &&& saved.dom() == keyed_map(mid.repository_contributor_insights@).dom().insert(c)
    &&& forall|k: Seq<char>| #[trigger]
        saved.contains_key(k) && k != c ==> saved[k] == keyed_map(
            mid.repository_contributor_insights@,
        )[k]
    &&& saved[c].full_name@ == c
    &&& saved[c].contributors@ == sorted
    &&& saved[c].source_complete == insights.source_complete
    &&& saved[c].cache == insights.cache
}

/// Saves fetched contributor insights under the stored name of their repository: the
/// contributors sorted by contributions and login, each reconciled with the users and merged
/// in as a partial user record, and the insights written. Gives the login renames that the
/// reconciling made, for the bookmarks to follow; refused where the graph holds no such
/// repository.
pub fn save_repository_contributors(
    store: &mut SharedGraphStore,
    insights: RepositoryContributorInsights,
) -> (r: Result<Vec<(String, String)>, AppError>)
    requires
        old(store).wf(),
    ensures
        final(store).wf(),
        r is Err <==> resolved_repository(*old(store), insights.full_name@) is None,
        r is Err ==> r->Err_0 is NotFound && r->Err_0->NotFound_0@ == repository_absent_message(
            insights.full_name@,
        ) && *final(store) == *old(store),
        r is Ok ==> exists|sorted: Seq<RepositoryContributor>, mid: SharedGraphStore|
            #[trigger] contributors_saved(
                *old(store),
                *final(store),
                insights,
                change_views(r->Ok_0@),
                sorted,
                mid,
            ),
{
    let ghost start = *store;
    let canonical = match resolve_shared_repository_name(store, insights.full_name.as_str()) {
        Some(c) => c,
        None => return Err(repository_absent(insights.full_name.as_str())),
    };
    let sorted = sort_contributors(&insights.contributors);
    let mut changes: Vec<(String, String)> = Vec::new();
    absorb_contributors(store, &sorted, &mut changes);
    let ghost mid = *store;
    let ghost before = keyed_map(store.repository_contributor_insights@);
    let record = RepositoryContributorInsights {
        full_name: canonical,
        contributors: sorted,
        source_complete: insights.source_complete,
        cache: insights.cache,
    };
    let ghost written = record;
    put_keyed(&mut store.repository_contributor_insights, record);
    proof {
        let saved = keyed_map(store.repository_contributor_insights@);
        assert(saved.dom() =~= before.dom().insert(written.full_name@));
        assert(contributors_absorbed(start, mid, written.contributors@, change_views(changes@)));
        assert(saved[written.full_name@] == written);
        assert(only_contributors_differ(mid, *store));
        let c = resolved_repository(start, insights.full_name@)->0;
        assert(c == written.full_name@);
        assert(forall|k: Seq<char>| #[trigger]
            saved.contains_key(k) && k != c ==> saved[k] == before[k]);
        assert(written.contributors@.to_multiset() == insights.contributors@.to_multiset());
        assert(sorted_by_contributions(written.contributors@));
        assert(saved.dom() == keyed_map(mid.repository_contributor_insights@).dom().insert(c));
        assert(saved[c].source_complete == insights.source_complete);
        assert(saved[c].cache == insights.cache);
        assert(contributors_saved(
            start,
            *store,
            insights,
            change_views(changes@),
            written.contributors@,
            mid,
        ));
    }
    let r: Result<Vec<(String, String)>, AppError> = Ok(changes);
    assert(change_views(r->Ok_0@) == change_views(changes@));
    r
}

// ---------------------------------------------------------------------------------------
// Saving commit-activity insights
// ---------------------------------------------------------------------------------------

/// The position of the first `/` in a text, or -1.
pub open spec fn slash_at(s: Seq<char>) -> int
    decreases s.len(),
{
    if s.len() == 0 {
        -1
    } else if s[0] == '/' {
        0
    } else if slash_at(s.drop_first()) < 0 {
        -1
    } else {
        slash_at(s.drop_first()) + 1
    }
}

proof fn lemma_slash_at(s: Seq<char>)
    ensures
        -1 <= slash_at(s) < s.len(),
        slash_at(s) >= 0 ==> s[slash_at(s)] == '/',
        forall|k: int| 0 <= k < s.len() && (slash_at(s) < 0 || k < slash_at(s)) ==> s[k] != '/',
    decreases s.len(),
{
    if s.len() > 0 && s[0] != '/' {
        lemma_slash_at(s.drop_first());
        assert forall|k: int|
            0 <= k < s.len() && (slash_at(s) < 0 || k < slash_at(s)) implies s[k] != '/' by {
            if k > 0 {
                assert(s[k] == s.drop_first()[k - 1]);
            }
        }
    }
}

/// Splits a repository's full name at its first `/` into owner and name.
fn split_full_name(full_name: &str) -> (r: Option<(String, String)>)
    ensures
        match r {
            Some((owner, name)) => slash_at(full_name@) >= 0 && owner@ == full_name@.take(
                slash_at(full_name@),
            ) && name@ == full_name@.skip(slash_at(full_name@) + 1),
            None => slash_at(full_name@) < 0,
        },
{
    let chars = chars_of(full_name);
    proof {
        lemma_slash_at(full_name@);
    }
    let mut i: usize = 0;
    while i < chars.len() && chars[i] != '/'
        invariant
            i <= chars.len(),
            chars@ == full_name@,
            forall|k: int| 0 <= k < i ==> chars@[k] != '/',
        decreases chars.len() - i,
    {
        i += 1;
    }
    if i == chars.len() {
        proof {
            if slash_at(full_name@) >= 0 {
                assert(chars@[slash_at(full_name@)] == '/');
            }
        }
        return None;
    }
    proof {
        if slash_at(full_name@) >= 0 && slash_at(full_name@) < i {
            assert(chars@[slash_at(full_name@)] == '/');
        }
        assert(slash_at(full_name@) == i);
    }
    let mut owner: Vec<char> = Vec::new();
    let mut k: usize = 0;
    while k < i
        invariant
            k <= i < chars.len(),
            owner@ == chars@.take(k as int),
        decreases i - k,
    {
        owner.push(chars[k]);
        assert(chars@.take(k + 1) == chars@.take(k as int).push(chars@[k as int]));
        k += 1;
    }
    let mut name: Vec<char> = Vec::new();
    let mut m: usize = i + 1;
    while m < chars.len()
        invariant
            i < m <= chars.len(),
            name@ == chars@.subrange(i + 1, m as int),
        decreases chars.len() - m,
    {
        name.push(chars[m]);
        assert(chars@.subrange(i + 1, m + 1) == chars@.subrange(i + 1, m as int).push(
            chars@[m as int],
        ));
        m += 1;
    }
    assert(chars@.subrange(i + 1, chars.len() as int) == chars@.skip(i + 1));
    Some((string_from_chars(&owner), string_from_chars(&name)))
}

/// Every repository name holds an owner and a name.
pub open spec fn all_named(s: Seq<ActivityView>) -> bool {
    forall|k: int| 0 <= k < s.len() ==> slash_at(#[trigger] s[k].full_name) >= 0
}

/// The partial repository record a commit-activity entry stands for.
pub open spec fn commit_repository_view(x: ActivityView) -> RepositoryNodeView {
    RepositoryNodeView {
        github_id: x.github_id,
        owner_login: x.full_name.take(slash_at(x.full_name)),
        name: x.full_name.skip(slash_at(x.full_name) + 1),
        full_name: x.full_name,
        description: None,
        html_url: x.url,
        stargazer_count: 0,
        fork_count: 0,
        language: None,
        topics: Seq::empty(),
        pushed_at: Some(x.last_pushed_at),
        updated_at: None,
        archived: false,
        is_fork: false,
    }
}

/// The later of two optional instants, where none is earlier than any.
pub open spec fn later(a: Option<i64>, b: Option<i64>) -> Option<i64> {
    match (a, b) {
        (None, _) => b,
        (_, None) => a,
        (Some(x), Some(y)) => if x > y {
            a
        } else {
            b
        },
    }
}

/// The record a partial upsert leaves under the incoming full name: the incoming record
/// where the name is new; otherwise the stored one with the incoming id, owner and name, the
/// incoming URL where it had none, and the later push.
pub open spec fn partially_upserted(
    repositories: Map<Seq<char>, GitHubRepositoryNode>,
    incoming: GitHubRepositoryNode,
) -> GitHubRepositoryNode {
    if !repositories.contains_key(incoming.full_name@) {
        incoming
    } else {
        let existing = repositories[incoming.full_name@];
        GitHubRepositoryNode {
            github_id: incoming.github_id,
            owner_login: incoming.owner_login,
            name: incoming.name,
            html_url: if existing.html_url@.len() == 0 {
                incoming.html_url
            } else {
                existing.html_url
            },
            pushed_at: later(existing.pushed_at, incoming.pushed_at),
            ..existing
        }
    }
}

fn later_exec(a: Option<i64>, b: Option<i64>) -> (r: Option<i64>)
    ensures
        r == later(a, b),
{
    match (a, b) {
        (None, _) => b,
        (_, None) => a,
        (Some(x), Some(y)) => if x > y {
            a
        } else {
            b
        },
    }
}

/// Writes a partial repository record keyed by full name.
fn upsert_partial_repository(repositories: &mut Vec<GitHubRepositoryNode>, incoming: GitHubRepositoryNode)
    requires
        crate::keyed::distinct_keys(old(repositories)@),
    ensures
        crate::keyed::distinct_keys(final(repositories)@),
        keyed_map(final(repositories)@) == keyed_map(old(repositories)@).insert(
            incoming.full_name@,
            partially_upserted(keyed_map(old(repositories)@), incoming),
        ),
{
    let ghost before = keyed_map(repositories@);
    proof {
        lemma_key_position(repositories@, incoming.full_name@);
    }
    let taken = take_keyed(repositories, incoming.full_name.as_str());
    match taken {
        None => {
            put_keyed(repositories, incoming);
            proof {
                assert(before.remove(incoming.full_name@) =~= before);
            }
        },
        Some(existing) => {
            let ghost kept = existing;
            let html_url = if existing.html_url.as_str().is_empty() {
                incoming.html_url
            } else {
                existing.html_url
            };
            let pushed_at = later_exec(existing.pushed_at, incoming.pushed_at);
            let merged = GitHubRepositoryNode {
                github_id: incoming.github_id,
                owner_login: incoming.owner_login,
                name: incoming.name,
                full_name: existing.full_name,
                description: existing.description,
                html_url,
                stargazer_count: existing.stargazer_count,
                fork_count: existing.fork_count,
                language: existing.language,
                topics: existing.topics,
                pushed_at,
                updated_at: existing.updated_at,
                archived: existing.archived,
                is_fork: existing.is_fork,
            };
            proof {
                assert(merged == partially_upserted(before, incoming));
            }
            put_keyed(repositories, merged);
            proof {
                assert(before.remove(incoming.full_name@).insert(incoming.full_name@, merged)
                    =~= before.insert(incoming.full_name@, merged));
            }
        },
    }
}

/// After a commit-activity repository is reconciled, its partial record is merged in.
pub open spec fn commit_repository_written(
    mid: SharedGraphStore,
    b: SharedGraphStore,
    n: GitHubRepositoryNode,
) -> bool {
    &&& keyed_map(b.repositories@) == keyed_map(mid.repositories@).insert(
        n.full_name@,
        partially_upserted(keyed_map(mid.repositories@), n),
    )
    &&& b == SharedGraphStore { repositories: b.repositories, ..mid }
}

/// One commit-activity step: the entry's partial record reconciled (`part` lists its
/// renames), then written.
pub open spec fn commit_repository_absorbed(
    a: SharedGraphStore,
    b: SharedGraphStore,
    x: ActivityView,
    part: Seq<(Seq<char>, Seq<char>)>,
) -> bool {
    exists|mid: SharedGraphStore, n: GitHubRepositoryNode|
        n@ == commit_repository_view(x) && mid.wf() && repository_reconciled(a, mid, n, part)
            && #[trigger] commit_repository_written(mid, b, n)
}

/// The `i`-th step of a commit-activity chain.
pub open spec fn commit_step(
    states: Seq<SharedGraphStore>,
    cuts: Seq<int>,
    items: Seq<ActivityView>,
    changes: Seq<(Seq<char>, Seq<char>)>,
    i: int,
) -> bool {
    &&& 0 <= cuts[i] <= cuts[i + 1] <= changes.len()
    &&& commit_repository_absorbed(
        states[i],
        states[i + 1],
        items[i],
        changes.subrange(cuts[i], cuts[i + 1]),
    )
}

/// The stores the commit-activity entries pass the graph through, one step each.
pub open spec fn commits_chained(
    states: Seq<SharedGraphStore>,
    cuts: Seq<int>,
    items: Seq<ActivityView>,
    changes: Seq<(Seq<char>, Seq<char>)>,
) -> bool {
    &&& states.len() == items.len() + 1
    &&& cuts.len() == items.len() + 1
    &&& cuts[0] == 0
    &&& cuts[items.len() as int] == changes.len()
    &&& forall|i: int| 0 <= i < items.len() ==> #[trigger] commit_step(states, cuts, items, changes, i)
}

/// The commit-activity entries absorbed in order, taking the graph from `a` to `b`.
pub open spec fn commits_absorbed(
    a: SharedGraphStore,
    b: SharedGraphStore,
    items: Seq<ActivityView>,
    changes: Seq<(Seq<char>, Seq<char>)>,
) -> bool {
    exists|states: Seq<SharedGraphStore>, cuts: Seq<int>|
        #[trigger] commits_chained(states, cuts, items, changes) && states[0] == a && states.last()
            == b
}

/// The message for a repository name without an owner.
pub open spec fn invalid_name_message(full_name: Seq<char>) -> Seq<char> {
    "GitHub event returned invalid repository name `"@ + full_name + "`"@
}

fn invalid_name(full_name: &str) -> (e: AppError)
    ensures
        e is External && e->External_0@ == invalid_name_message(full_name@),
{
    let mut m = owned("GitHub event returned invalid repository name `");
    push_str(&mut m, full_name);
    push_str(&mut m, "`");
    AppError::External(m)
}

fn absorb_commit_repository(
    store: &mut SharedGraphStore,
    x: &UserCommitRepository,
    changes: &mut Vec<(String, String)>,
) -> (r: Result<(), AppError>)
    requires
        old(store).wf(),
    ensures
        final(store).wf(),
        r is Err <==> slash_at(x.full_name@) < 0,
        r is Err ==> r->Err_0 is External && r->Err_0->External_0@ == invalid_name_message(
            x.full_name@,
        ) && *final(store) == *old(store) && final(changes)@ == old(changes)@,
        r is Ok ==> final(changes)@.take(old(changes)@.len() as int) == old(changes)@
            && final(changes)@.len() >= old(changes)@.len() && commit_repository_absorbed(
            *old(store),
            *final(store),
            x@,
            change_views(final(changes)@).skip(old(changes)@.len() as int),
        ),
{
    let (owner_login, name) = match split_full_name(x.full_name.as_str()) {
        Some(parts) => parts,
        None => return Err(invalid_name(x.full_name.as_str())),
    };
    let ghost before = changes@;
    let repository = GitHubRepositoryNode {
        github_id: x.github_id,
        owner_login,
        name,
        full_name: x.full_name.clone(),
        description: None,
        html_url: x.url.clone(),
        stargazer_count: 0,
        fork_count: 0,
        language: None,
        topics: Vec::new(),
        pushed_at: Some(x.last_pushed_at),
        updated_at: None,
        archived: false,
        is_fork: false,
    };
    proof {
        assert(repository.topics@ =~= Seq::<String>::empty());
        assert(crate::discovery::views(repository.topics@) =~= Seq::<Seq<char>>::empty());
        assert(repository@ == commit_repository_view(x@));
    }
    let mut renames = reconcile_repository_alias(store, &repository);
    let ghost made = renames@;
    let ghost mid = *store;
    let ghost written = repository;
    upsert_partial_repository(&mut store.repositories, repository);
    changes.append(&mut renames);
    proof {
        lemma_views_append(before, made);
        assert(changes@.take(before.len() as int) =~= before);
        assert(change_views(changes@).skip(before.len() as int) =~= change_views(made));
        assert(commit_repository_written(mid, *store, written));
    }
    Ok(())
}

/// The entries before `i` were absorbed, taking the graph from `a` to `b`, and the entry at
/// `i` is the first whose name has no owner.
pub open spec fn commits_stopped(
    a: SharedGraphStore,
    b: SharedGraphStore,
    items: Seq<ActivityView>,
    changes: Seq<(Seq<char>, Seq<char>)>,
    i: int,
) -> bool {
    &&& 0 <= i < items.len()
    &&& slash_at(items[i].full_name) < 0
    &&& all_named(items.take(i))
    &&& commits_absorbed(a, b, items.take(i), changes)
}

fn absorb_commit_repositories(
    store: &mut SharedGraphStore,
    items: &Vec<UserCommitRepository>,
    changes: &mut Vec<(String, String)>,
) -> (r: Result<(), AppError>)
    requires
        old(store).wf(),
        old(changes)@.len() == 0,
    ensures
        final(store).wf(),
        r is Ok <==> all_named(activities(items@)),
        r is Ok ==> commits_absorbed(
            *old(store),
            *final(store),
            activities(items@),
            change_views(final(changes)@),
        ),
        r is Err ==> exists|i: int|
            #[trigger] commits_stopped(
                *old(store),
                *final(store),
                activities(items@),
                change_views(final(changes)@),
                i,
            ) && r->Err_0 is External && r->Err_0->External_0@ == invalid_name_message(
                activities(items@)[i].full_name,
            ),
{
    let ghost start = *store;
    let ghost all = activities(items@);
    let ghost mut states: Seq<SharedGraphStore> = seq![start];
    let ghost mut cuts: Seq<int> = seq![0int];
    let mut i: usize = 0;
    proof {
        assert(change_views(changes@) =~= Seq::empty());
    }
    while i < items.len()
        invariant
            store.wf(),
            i <= all.len(),
            all == activities(items@),
            start == *old(store),
            states[0] == start,
            states.last() == *store,
            all_named(all.take(i as int)),
            commits_chained(states, cuts, all.take(i as int), change_views(changes@)),
        decreases items.len() - i,
    {
        let ghost before_changes = changes@;
        let ghost before_store = *store;
        let ghost n = i as int;
        let step = absorb_commit_repository(store, &items[i], changes);
        if step.is_err() {
            proof {
                assert(all[n] == items@[n]@);
                assert(commits_absorbed(start, *store, all.take(n), change_views(changes@)));
                assert(commits_stopped(start, *store, all, change_views(changes@), n));
                assert(step->Err_0->External_0@ == invalid_name_message(all[n].full_name));
            }
            return step;
        }
        proof {
            let old_tail = change_views(before_changes);
            let new_tail = change_views(changes@);
            assert(changes@.take(before_changes.len() as int) == before_changes);
            assert forall|q: int| 0 <= q < old_tail.len() implies new_tail[q] == old_tail[q] by {
                assert(changes@[q] == before_changes[q]);
            }
            let part = change_views(changes@).skip(before_changes.len() as int);
            assert(part =~= new_tail.subrange(old_tail.len() as int, new_tail.len() as int));
            let old_states = states;
            let old_cuts = cuts;
            states = states.push(*store);
            cuts = cuts.push(new_tail.len() as int);
            assert(all.take(n + 1) =~= all.take(n).push(all[n]));
            let done = all.take(n + 1);
            assert(all[n] == items@[n]@);
            assert forall|k: int| 0 <= k < done.len() implies #[trigger] commit_step(
                states,
                cuts,
                done,
                new_tail,
                k,
            ) by {
                if k < n {
                    assert(commit_step(old_states, old_cuts, all.take(n), old_tail, k));
                    assert(done[k] == all.take(n)[k]);
                    assert(new_tail.subrange(cuts[k], cuts[k + 1]) =~= old_tail.subrange(
                        old_cuts[k],
                        old_cuts[k + 1],
                    ));
                } else {
                    assert(states[k] == before_store);
                }
            }
            assert forall|k: int| 0 <= k < done.len() implies slash_at(
                #[trigger] done[k].full_name,
            ) >= 0 by {
                if k < n {
                    assert(done[k] == all.take(n)[k]);
                }
            }
        }
        i += 1;
    }
    proof {
        assert(all.take(i as int) =~= all);
    }
    Ok(())
}

/// The graph `b` is `a` after the repositories of `insights`, sorted as `sorted`, were
/// absorbed (taking it to `mid`, with renames `changes`) and the insights were written under
/// the stored login of their user.
pub open spec fn commits_saved(
    a: SharedGraphStore,
    b: SharedGraphStore,
    insights: UserCommitRepositoryInsights,
    changes: Seq<(Seq<char>, Seq<char>)>,
    sorted: Seq<ActivityView>,
    mid: SharedGraphStore,
) -> bool {
    let c = resolved_login(a, insights.login@)->0;
    let saved = keyed_map(b.user_commit_repository_insights@);
    &&& sorted.to_multiset() == activities(insights.repositories@).to_multiset()
    &&& sorted_by_activity(sorted)
    &&& commits_absorbed(a, mid, sorted, changes)
    &&& only_commits_differ(mid, b)
    &&& saved.dom() == keyed_map(mid.user_commit_repository_insights@).dom().insert(c)
    &&& forall|k: Seq<char>| #[trigger]
        saved.contains_key(k) && k != c ==> saved[k] == keyed_map(
            mid.user_commit_repository_insights@,
        )[k]
    &&& saved[c].login@ == c
    &&& activities(saved[c].repositories@) == sorted
    &&& saved[c].source_event_count == insights.source_event_count
    &&& saved[c].source_truncated == insights.source_truncated
    &&& saved[c].cache == insights.cache
}

/// Saves fetched commit-activity insights under the stored login of their user: the
/// repositories sorted by activity, each reconciled with the stored repositories and merged
/// in as a partial repository record, and the insights written. Gives the full-name renames
/// that the reconciling made, for the bookmarks to follow. Refused where the graph holds no
/// such user, or where a repository name has no owner: then the repositories ahead of it
/// have been absorbed and the insights are not written.
pub fn save_user_commit_repositories(
    store: &mut SharedGraphStore,
    insights: UserCommitRepositoryInsights,
) -> (r: Result<Vec<(String, String)>, AppError>)
    requires
        old(store).wf(),
    ensures
        final(store).wf(),
        resolved_login(*old(store), insights.login@) is None ==> r is Err && r->Err_0 is NotFound
            && r->Err_0->NotFound_0@ == user_absent_message(insights.login@) && *final(store)
            == *old(store),
        resolved_login(*old(store), insights.login@) is Some ==> (r is Ok <==> all_named(
            activities(insights.repositories@),
        )),
        r is Ok ==> exists|sorted: Seq<ActivityView>, mid: SharedGraphStore|
            #[trigger] commits_saved(
                *old(store),
                *final(store),
                insights,
                change_views(r->Ok_0@),
                sorted,
                mid,
            ),
        resolved_login(*old(store), insights.login@) is Some && r is Err ==> r->Err_0 is External
            && exists|sorted: Seq<ActivityView>, changes: Seq<(Seq<char>, Seq<char>)>, i: int|
            sorted.to_multiset() == activities(insights.repositories@).to_multiset()
                && sorted_by_activity(sorted) && #[trigger] commits_stopped(
                *old(store),
                *final(store),
                sorted,
                changes,
                i,
            ) && r->Err_0->External_0@ == invalid_name_message(sorted[i].full_name),
{
    let ghost start = *store;
    let canonical = match resolve_shared_login(store, insights.login.as_str()) {
        Some(c) => c,
        None => return Err(user_absent(insights.login.as_str())),
    };
    let sorted = sort_by_activity(&insights.repositories);
    proof {
        lemma_all_named_permuted(activities(sorted@), activities(insights.repositories@));
    }
    let mut changes: Vec<(String, String)> = Vec::new();
    let absorbed = absorb_commit_repositories(store, &sorted, &mut changes);
    if let Err(e) = absorbed {
        return Err(e);
    }
    let ghost mid = *store;
    let ghost before = keyed_map(store.user_commit_repository_insights@);
    let record = UserCommitRepositoryInsights {
        login: canonical,
        repositories: sorted,
        source_event_count: insights.source_event_count,
        source_truncated: insights.source_truncated,
        cache: insights.cache,
    };
    let ghost written = record;
    put_keyed(&mut store.user_commit_repository_insights, record);
    proof {
        let saved = keyed_map(store.user_commit_repository_insights@);
        assert(saved.dom() =~= before.dom().insert(written.login@));
        assert(saved[written.login@] == written);
        assert(only_commits_differ(mid, *store));
        assert(commits_saved(
            start,
            *store,
            insights,
            change_views(changes@),
            activities(written.repositories@),
            mid,
        ));
    }
    let r: Result<Vec<(String, String)>, AppError> = Ok(changes);
    assert(change_views(r->Ok_0@) == change_views(changes@));
    r
}

/// Whether every name has an owner does not depend on the order.
proof fn lemma_all_named_permuted(a: Seq<ActivityView>, b: Seq<ActivityView>)
    requires
        a.to_multiset() == b.to_multiset(),
    ensures
        all_named(a) <==> all_named(b),
{
    a.to_multiset_ensures();
    b.to_multiset_ensures();
    assert forall|x: ActivityView| a.contains(x) implies b.contains(x) by {
        assert(a.to_multiset().count(x) > 0);
    }
    assert forall|x: ActivityView| b.contains(x) implies a.contains(x) by {
        assert(b.to_multiset().count(x) > 0);
    }
    if all_named(a) {
        assert forall|k: int| 0 <= k < b.len() implies slash_at(#[trigger] b[k].full_name) >= 0 by {
            assert(b.contains(b[k]));
            let j = choose|j: int| 0 <= j < a.len() && a[j] == b[k];
        }
    }
    if all_named(b) {
        assert forall|k: int| 0 <= k < a.len() implies slash_at(#[trigger] a[k].full_name) >= 0 by {
            assert(a.contains(a[k]));
            let j = choose|j: int| 0 <= j < b.len() && b[j] == a[k];
        }
    }
}

// ---------------------------------------------------------------------------------------
// Answering from the store
// ---------------------------------------------------------------------------------------

/// `s`, cut to at most `n` items.
pub open spec fn first_n<T>(s: Seq<T>, n: int) -> Seq<T> {
    if n < s.len() {
        s.take(n)
    } else {
        s
    }
}

fn copy_contributors(items: &Vec<RepositoryContributor>) -> (r: Vec<RepositoryContributor>)
    ensures
        r@ == items@,
{
    let mut out: Vec<RepositoryContributor> = Vec::new();
    let mut i: usize = 0;
    while i < items.len()
        invariant
            i <= items.len(),
            out@ == items@.take(i as int),
        decreases items.len() - i,
    {
        out.push(copy_contributor(&items[i]));
        assert(items@.take(i + 1) == items@.take(i as int).push(items@[i as int]));
        i += 1;
    }
    assert(items@.take(items.len() as int) == items@);
    out
}

fn copy_commit_repository(x: &UserCommitRepository) -> (r: UserCommitRepository)
    ensures
        r == *x,
{
    UserCommitRepository {
        github_id: x.github_id,
        full_name: x.full_name.clone(),
        url: x.url.clone(),
        push_count: x.push_count,
        commit_count: x.commit_count,
        last_pushed_at: x.last_pushed_at,
    }
}

fn copy_commit_repositories(items: &Vec<UserCommitRepository>) -> (r: Vec<UserCommitRepository>)
    ensures
        r@ == items@,
{
    let mut out: Vec<UserCommitRepository> = Vec::new();
    let mut i: usize = 0;
    while i < items.len()
        invariant
            i <= items.len(),
            out@ == items@.take(i as int),
        decreases items.len() - i,
    {
        out.push(copy_commit_repository(&items[i]));
        assert(items@.take(i + 1) == items@.take(i as int).push(items@[i as int]));
        i += 1;
    }
    assert(items@.take(items.len() as int) == items@);
    out
}

/// Whether a request for stored insights claims a background refresh: they are not fresh
/// and no refresh runs or waits for its retry time.
pub open spec fn claims_refresh(m: CacheMetadata, now: i64) -> bool {
    !(insight_status(m, now) is Fresh) && may_begin_refresh(m, now)
}

/// Answers a request for a repository's contributors from the store at `now`: nothing
/// where none are stored (the caller fetches them cold); otherwise the stored insights with
/// at most `limit` contributors, and whether a background refresh was claimed for them (the
/// answer then shows it running).
pub fn cached_repository_contributors(
    store: &mut SharedGraphStore,
    full_name: &str,
    limit: usize,
    now: i64,
) -> (r: Option<(RepositoryContributorInsights, bool)>)
    requires
        old(store).wf(),
        in_range(now),
    ensures
        final(store).wf(),
        only_contributors_differ(*old(store), *final(store)),
        r is None <==> contributor_entry(*old(store), full_name@) is None,
        r is None ==> *final(store) == *old(store),
        r matches Some((x, claimed)) ==> {
            let e = contributor_entry(*old(store), full_name@)->0;
            &&& claimed == claims_refresh(e.cache, now)
            &&& x.full_name == e.full_name
            &&& x.contributors@ == first_n(e.contributors@, limit as int)
            &&& x.source_complete == e.source_complete
            &&& x.cache == if claimed {
                begun(e.cache, now)
            } else {
                e.cache
            }
            &&& claimed ==> keyed_map(final(store).repository_contributor_insights@) == keyed_map(
                old(store).repository_contributor_insights@,
            ).insert(e.full_name@, RepositoryContributorInsights { cache: begun(e.cache, now), ..e })
            &&& !claimed ==> keyed_map(final(store).repository_contributor_insights@) == keyed_map(
                old(store).repository_contributor_insights@,
            )
        },
{
    let mut copy = match stored_repository_contributors(store, full_name) {
        Some(e) => RepositoryContributorInsights {
            full_name: e.full_name.clone(),
            contributors: copy_contributors(&e.contributors),
            source_complete: e.source_complete,
            cache: copy_metadata(&e.cache),
        },
        None => return None,
    };
    let claimed = if copy.cache_status(now) != CacheStatus::Fresh {
        begin_repository_contributor_refresh(store, full_name, now)
    } else {
        false
    };
    if claimed {
        copy.cache.refresh_started_at = Some(now);
        copy.cache.last_refresh_error = None;
    }
    Some((copy.limited(limit), claimed))
}

/// Answers a request for a user's commit activity from the store at `now`, as
/// `cached_repository_contributors` does for contributors.
pub fn cached_user_commit_repositories(
    store: &mut SharedGraphStore,
    login: &str,
    limit: usize,
    now: i64,
) -> (r: Option<(UserCommitRepositoryInsights, bool)>)
    requires
        old(store).wf(),
        in_range(now),
    ensures
        final(store).wf(),
        only_commits_differ(*old(store), *final(store)),
        r is None <==> commit_entry(*old(store), login@) is None,
        r is None ==> *final(store) == *old(store),
        r matches Some((x, claimed)) ==> {
            let e = commit_entry(*old(store), login@)->0;
            &&& claimed == claims_refresh(e.cache, now)
            &&& x.login == e.login
            &&& x.repositories@ == first_n(e.repositories@, limit as int)
            &&& x.source_event_count == e.source_event_count
            &&& x.source_truncated == e.source_truncated
            &&& x.cache == if claimed {
                begun(e.cache, now)
            } else {
                e.cache
            }
            &&& claimed ==> keyed_map(final(store).user_commit_repository_insights@) == keyed_map(
                old(store).user_commit_repository_insights@,
            ).insert(e.login@, UserCommitRepositoryInsights { cache: begun(e.cache, now), ..e })
            &&& !claimed ==> keyed_map(final(store).user_commit_repository_insights@) == keyed_map(
                old(store).user_commit_repository_insights@,
            )
        },
{
    let mut copy = match stored_user_commit_repositories(store, login) {
        Some(e) => UserCommitRepositoryInsights {
            login: e.login.clone(),
            repositories: copy_commit_repositories(&e.repositories),
            source_event_count: e.source_event_count,
            source_truncated: e.source_truncated,
            cache: copy_metadata(&e.cache),
        },
        None => return None,
    };
    let claimed = if copy.cache_status(now) != CacheStatus::Fresh {
        begin_user_commit_repository_refresh(store, login, now)
    } else {
        false
    };
    if claimed {
        copy.cache.refresh_started_at = Some(now);
        copy.cache.last_refresh_error = None;
    }
    Some((copy.limited(limit), claimed))
}

} // verus!
