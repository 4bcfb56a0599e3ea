//! Writing a fetched neighbourhood into the shared graph: the viewer's record, coverage and
//! cache entry, the relations that the fetch covered completely replaced, and each
//! follower, followed user, owned and starred repository reconciled and merged in.
use vstd::prelude::*;

use crate::aliases::{
    add_pair, change_views, drop_edges_at, edge_set, kept_edges, reconcile_repository_alias,
    reconcile_user_alias, repository_reconciled, user_reconciled,
};
use crate::graph::{
    copy_metadata, merged_user, upsert_user_record, CacheMetadata, GitHubRepositoryNode, GitHubUserNode, GraphImport, GraphImportCoverage, SyncSummary,
};
use crate::keyed::{
    distinct_keys, keyed_map, lemma_key_position, lemma_keyed_push, lemma_keyed_update,
    lemma_user_position_is_key_position, put_keyed, Keyed,
};
use crate::store::SharedGraphStore;

verus! {

/// The record an upsert leaves under the incoming login: the incoming record where it is
/// authoritative or new, otherwise the stored one merged with it.
pub open spec fn upserted(
    users: Map<Seq<char>, GitHubUserNode>,
    incoming: GitHubUserNode,
    authoritative: bool,
) -> GitHubUserNode {
    if authoritative || !users.contains_key(incoming.login@) {
        incoming
    } else {
        merged_user(users[incoming.login@], incoming)
    }
}

/// Writing a user record again changes nothing more: upserting the same incoming record a
/// second time, into the users the first upsert left, gives the record the first gave.
pub proof fn law_upserting_a_user_twice_keeps_the_first_result(
    users: Map<Seq<char>, GitHubUserNode>,
    incoming: GitHubUserNode,
    authoritative: bool,
)
    ensures
        ({
            let once = upserted(users, incoming, authoritative);
            upserted(users.insert(incoming.login@, once), incoming, authoritative) == once
        }),
{
}

/// Writes a user record keyed by login, as a map update.
pub(crate) fn upsert_user(users: &mut Vec<GitHubUserNode>, incoming: GitHubUserNode, authoritative: bool)
    requires
        distinct_keys(old(users)@),
    ensures
        distinct_keys(final(users)@),
        keyed_map(final(users)@) == keyed_map(old(users)@).insert(
            incoming.login@,
            upserted(keyed_map(old(users)@), incoming, authoritative),
        ),
{
    let ghost before = users@;
    let ghost inc = incoming;
    proof {
        lemma_user_position_is_key_position(before, inc.login@);
        lemma_key_position(before, inc.login@);
        crate::graph::lemma_user_position(before, inc.login@);
    }
    upsert_user_record(users, incoming, authoritative);
    proof {
        let p = crate::graph::user_position(before, inc.login@);
        if p < 0 {
            assert(!keyed_map(before).contains_key(inc.login@));
            lemma_keyed_push(before, inc);
        } else {
            assert(keyed_map(before).contains_key(inc.login@));
            assert(keyed_map(before)[inc.login@] == before[p]);
            let v = upserted(keyed_map(before), inc, authoritative);
            assert(v.key() == before[p].key());
            lemma_keyed_update(before, p, v);
        }
    }
}

/// The cache metadata an import writes: fetched now, stale at `stale_at` where the fetch was
/// complete and at once otherwise.
pub open spec fn import_metadata(
    fetched_at: i64,
    stale_at: i64,
    coverage: GraphImportCoverage,
) -> CacheMetadata {
    CacheMetadata {
        last_fetched_at: Some(fetched_at),
        stale_at: Some(
            if coverage.complete() {
                stale_at
            } else {
                fetched_at
            },
        ),
        refresh_started_at: None,
        last_refresh_error: None,
    }
}

/// A partial import stays stale: where any of the four collections was cut short, the cache
/// entry it writes turns stale at the instant it was fetched; only a complete import stays
/// fresh until `stale_at`.
pub proof fn law_partial_import_is_stale_at_once(
    fetched_at: i64,
    stale_at: i64,
    coverage: GraphImportCoverage,
)
    ensures
        !coverage.followers_complete || !coverage.following_complete
            || !coverage.starred_repositories_complete || !coverage.repositories_complete
            ==> import_metadata(fetched_at, stale_at, coverage).stale_at == Some(fetched_at),
        coverage.followers_complete && coverage.following_complete
            && coverage.starred_repositories_complete && coverage.repositories_complete
            ==> import_metadata(fetched_at, stale_at, coverage).stale_at == Some(stale_at),
        import_metadata(fetched_at, stale_at, coverage).last_fetched_at == Some(fetched_at),
{
}

/// The entry under `key` holds `value`; every other key keeps its entry.
pub open spec fn entry_set<V>(
    before: Map<Seq<char>, (String, V)>,
    after: Map<Seq<char>, (String, V)>,
    key: Seq<char>,
    value: V,
) -> bool {
    &&& after.dom() == before.dom().insert(key)
    &&& after[key].0@ == key
    &&& after[key].1 == value
    &&& forall|k: Seq<char>| #[trigger] after.contains_key(k) && k != key ==> after[k] == before[k]
}

proof fn lemma_entry_set<V>(before: Map<Seq<char>, (String, V)>, key: String, value: V)
    ensures
        entry_set(before, before.insert(key@, (key, value)), key@, value),
{
    let after = before.insert(key@, (key, value));
    assert(after.dom() =~= before.dom().insert(key@));
}

/// After the viewer is reconciled: the relations the fetch covered completely lose the
/// viewer's pairs, and the viewer's record, coverage and cache entry are written.
pub open spec fn viewer_written(
    mid: SharedGraphStore,
    b: SharedGraphStore,
    viewer: GitHubUserNode,
    coverage: GraphImportCoverage,
    metadata: CacheMetadata,
) -> bool {
    let v = viewer.login@;
    &&& edge_set(b.follows@) == kept_edges(
        edge_set(mid.follows@),
        v,
        coverage.following_complete,
        coverage.followers_complete,
    )
    &&& edge_set(b.starred@) == (if coverage.starred_repositories_complete {
        kept_edges(edge_set(mid.starred@), v, true, false)
    } else {
        edge_set(mid.starred@)
    })
    &&& edge_set(b.member_of@) == (if coverage.repositories_complete {
        kept_edges(edge_set(mid.member_of@), v, true, false)
    } else {
        edge_set(mid.member_of@)
    })
    &&& keyed_map(b.users@) == keyed_map(mid.users@).insert(v, viewer)
    &&& entry_set(keyed_map(mid.user_coverage@), keyed_map(b.user_coverage@), v, coverage)
    &&& entry_set(keyed_map(mid.user_cache@), keyed_map(b.user_cache@), v, metadata)
    &&& b == SharedGraphStore {
        follows: b.follows,
        starred: b.starred,
        member_of: b.member_of,
        users: b.users,
        user_coverage: b.user_coverage,
        user_cache: b.user_cache,
        ..mid
    }
}

/// The viewer step of an import: reconciled (`part` lists its renames), then written.
pub open spec fn viewer_absorbed(
    a: SharedGraphStore,
    b: SharedGraphStore,
    viewer: GitHubUserNode,
    coverage: GraphImportCoverage,
    metadata: CacheMetadata,
    part: Seq<(Seq<char>, Seq<char>)>,
) -> bool {
    exists|mid: SharedGraphStore|
        mid.wf() && user_reconciled(a, mid, viewer, part) && #[trigger] viewer_written(
            mid,
            b,
            viewer,
            coverage,
            metadata,
        )
}

/// After a neighbour is reconciled: their record is merged in, and the follow relation
/// gains `(neighbour, viewer)` for a follower or `(viewer, neighbour)` for a followed user.
pub open spec fn neighbour_written(
    mid: SharedGraphStore,
    b: SharedGraphStore,
    u: GitHubUserNode,
    viewer: Seq<char>,
    follower: bool,
) -> bool {
    &&& keyed_map(b.users@) == keyed_map(mid.users@).insert(
        u.login@,
        upserted(keyed_map(mid.users@), u, false),
    )
    &&& edge_set(b.follows@) == edge_set(mid.follows@).insert(
        if follower {
            (u.login@, viewer)
        } else {
            (viewer, u.login@)
        },
    )
    &&& b == SharedGraphStore { users: b.users, follows: b.follows, ..mid }
}

/// One neighbour step of an import: reconciled (`part` lists its renames), then written.
pub open spec fn neighbour_absorbed(
    a: SharedGraphStore,
    b: SharedGraphStore,
    u: GitHubUserNode,
    viewer: Seq<char>,
    follower: bool,
    part: Seq<(Seq<char>, Seq<char>)>,
) -> bool {
    exists|mid: SharedGraphStore|
        mid.wf() && user_reconciled(a, mid, u, part) && #[trigger] neighbour_written(
            mid,
            b,
            u,
            viewer,
            follower,
        )
}

/// After a repository is reconciled: its record replaces the stored one, its cache entry is
/// written, and the membership (owned) or star relation gains `(viewer, repository)`.
pub open spec fn repository_written(
    mid: SharedGraphStore,
    b: SharedGraphStore,
    r: GitHubRepositoryNode,
    viewer: Seq<char>,
    metadata: CacheMetadata,
    owned: bool,
) -> bool {
    &&& keyed_map(b.repositories@) == keyed_map(mid.repositories@).insert(r.full_name@, r)
    &&& entry_set(
        keyed_map(mid.repository_cache@),
        keyed_map(b.repository_cache@),
        r.full_name@,
        metadata,
    )
    &&& if owned {
        &&& edge_set(b.member_of@) == edge_set(mid.member_of@).insert((viewer, r.full_name@))
        &&& b == SharedGraphStore {
            repositories: b.repositories,
            repository_cache: b.repository_cache,
            member_of: b.member_of,
            ..mid
        }
    } else {
        &&& edge_set(b.starred@) == edge_set(mid.starred@).insert((viewer, r.full_name@))
        &&& b == SharedGraphStore {
            repositories: b.repositories,
            repository_cache: b.repository_cache,
            starred: b.starred,
            ..mid
        }
    }
}

/// One repository step of an import: reconciled (`part` lists its renames), then written.
pub open spec fn repository_absorbed(
    a: SharedGraphStore,
    b: SharedGraphStore,
    r: GitHubRepositoryNode,
    viewer: Seq<char>,
    metadata: CacheMetadata,
    owned: bool,
    part: Seq<(Seq<char>, Seq<char>)>,
) -> bool {
    exists|mid: SharedGraphStore|
        mid.wf() && repository_reconciled(a, mid, r, part) && #[trigger] repository_written(
            mid,
            b,
            r,
            viewer,
            metadata,
            owned,
        )
}

proof fn lemma_views_append(a: Seq<(String, String)>, b: Seq<(String, String)>)
    ensures
        change_views(a + b) == change_views(a) + change_views(b),
        change_views(a + b).skip(a.len() as int) == change_views(b),
        change_views(a + b).take(a.len() as int) == change_views(a),
{
    assert(change_views(a + b) =~= change_views(a) + change_views(b));
    assert(change_views(a + b).skip(a.len() as int) =~= change_views(b));
    assert(change_views(a + b).take(a.len() as int) =~= change_views(a));
}

/// Reconciles and writes the viewer; its renames are appended to `changes`.
fn absorb_viewer(
    store: &mut SharedGraphStore,
    viewer: GitHubUserNode,
    coverage: GraphImportCoverage,
    metadata: &CacheMetadata,
    changes: &mut Vec<(String, String)>,
)
    requires
        old(store).wf(),
    ensures
        final(store).wf(),
        final(changes)@.take(old(changes)@.len() as int) == old(changes)@,
        final(changes)@.len() >= old(changes)@.len(),
        viewer_absorbed(
            *old(store),
            *final(store),
            viewer,
            coverage,
            *metadata,
            change_views(final(changes)@).skip(old(changes)@.len() as int),
        ),
{
    let ghost before = changes@;
    let mut renames = reconcile_user_alias(store, &viewer);
    let ghost made = renames@;
    let ghost mid = *store;
    let v = viewer.login.clone();
    drop_edges_at(
        &mut store.follows,
        v.as_str(),
        coverage.following_complete,
        coverage.followers_complete,
    );
    if coverage.starred_repositories_complete {
        drop_edges_at(&mut store.starred, v.as_str(), true, false);
    }
    if coverage.repositories_complete {
        drop_edges_at(&mut store.member_of, v.as_str(), true, false);
    }
    let ghost written = viewer;
    upsert_user(&mut store.users, viewer, true);
    let ghost cov_before = keyed_map(store.user_coverage@);
    let cov_key = v.clone();
    put_keyed(&mut store.user_coverage, (cov_key, coverage));
    let ghost cache_before = keyed_map(store.user_cache@);
    let cache_key = v.clone();
    let stored = copy_metadata(metadata);
    put_keyed(&mut store.user_cache, (cache_key, stored));
    changes.append(&mut renames);
    proof {
        lemma_entry_set(cov_before, cov_key, coverage);
        lemma_entry_set(cache_before, cache_key, stored);
        lemma_views_append(before, made);
        assert(changes@ == before + made);
        assert(changes@.take(before.len() as int) =~= before);
        assert(viewer_written(mid, *store, written, coverage, *metadata));
    }
}

/// Reconciles and merges one neighbour, and records the follow between them and the viewer.
fn absorb_neighbour(
    store: &mut SharedGraphStore,
    u: GitHubUserNode,
    viewer: &str,
    follower: bool,
    changes: &mut Vec<(String, String)>,
)
    requires
        old(store).wf(),
    ensures
        final(store).wf(),
        final(changes)@.take(old(changes)@.len() as int) == old(changes)@,
        final(changes)@.len() >= old(changes)@.len(),
        neighbour_absorbed(
            *old(store),
            *final(store),
            u,
            viewer@,
            follower,
            change_views(final(changes)@).skip(old(changes)@.len() as int),
        ),
{
    let ghost before = changes@;
    let mut renames = reconcile_user_alias(store, &u);
    let ghost made = renames@;
    let ghost mid = *store;
    let login = u.login.clone();
    let ghost written = u;
    upsert_user(&mut store.users, u, false);
    if follower {
        add_pair(&mut store.follows, login, viewer.to_string());
    } else {
        add_pair(&mut store.follows, viewer.to_string(), login);
    }
    changes.append(&mut renames);
    proof {
        lemma_views_append(before, made);
        assert(changes@.take(before.len() as int) =~= before);
        assert(neighbour_written(mid, *store, written, viewer@, follower));
    }
}

/// Reconciles and writes one repository, its cache entry, and the viewer's ownership of it
/// (`owned`) or star on it.
fn absorb_repository(
    store: &mut SharedGraphStore,
    r: GitHubRepositoryNode,
    viewer: &str,
    metadata: &CacheMetadata,
    owned: bool,
    changes: &mut Vec<(String, String)>,
)
    requires
        old(store).wf(),
    ensures
        final(store).wf(),
        final(changes)@.take(old(changes)@.len() as int) == old(changes)@,
        final(changes)@.len() >= old(changes)@.len(),
        repository_absorbed(
            *old(store),
            *final(store),
            r,
            viewer@,
            *metadata,
            owned,
            change_views(final(changes)@).skip(old(changes)@.len() as int),
        ),
{
    let ghost before = changes@;
    let mut renames = reconcile_repository_alias(store, &r);
    let ghost made = renames@;
    let ghost mid = *store;
    let full_name = r.full_name.clone();
    let ghost written = r;
    put_keyed(&mut store.repositories, r);
    let ghost cache_before = keyed_map(store.repository_cache@);
    let cache_key = full_name.clone();
    let stored = copy_metadata(metadata);
    put_keyed(&mut store.repository_cache, (cache_key, stored));
    if owned {
        add_pair(&mut store.member_of, viewer.to_string(), full_name);
    } else {
        add_pair(&mut store.starred, viewer.to_string(), full_name);
    }
    changes.append(&mut renames);
    proof {
        lemma_entry_set(cache_before, cache_key, stored);
        lemma_views_append(before, made);
        assert(changes@.take(before.len() as int) =~= before);
        assert(repository_written(mid, *store, written, viewer@, *metadata, owned));
    }
}

/// The stores `states` pass through as the neighbours are absorbed one by one, the renames
/// of the `i`-th step being `changes[cuts[i]..cuts[i + 1]]`.
pub open spec fn neighbours_chained(
    states: Seq<SharedGraphStore>,
    cuts: Seq<int>,
    users: Seq<GitHubUserNode>,
    viewer: Seq<char>,
    follower: bool,
    changes: Seq<(Seq<char>, Seq<char>)>,
) -> bool {
    &&& states.len() == users.len() + 1
    &&& cuts.len() == users.len() + 1
    &&& cuts[0] == 0
    &&& cuts[users.len() as int] == changes.len()
    &&& forall|i: int|
        0 <= i < users.len() ==> #[trigger] neighbour_step(states, cuts, users, viewer, follower, changes, i)
}

/// The `i`-th step of a neighbour chain.
pub open spec fn neighbour_step(
    states: Seq<SharedGraphStore>,
    cuts: Seq<int>,
    users: Seq<GitHubUserNode>,
    viewer: Seq<char>,
    follower: bool,
    changes: Seq<(Seq<char>, Seq<char>)>,
    i: int,
) -> bool {
    &&& 0 <= cuts[i] <= cuts[i + 1] <= changes.len()
    &&& neighbour_absorbed(
        states[i],
        states[i + 1],
        users[i],
        viewer,
        follower,
        changes.subrange(cuts[i], cuts[i + 1]),
    )
}

/// The neighbours absorbed in order, taking the graph from `a` to `b`.
pub open spec fn neighbours_absorbed(
    a: SharedGraphStore,
    b: SharedGraphStore,
    users: Seq<GitHubUserNode>,
    viewer: Seq<char>,
    follower: bool,
    changes: Seq<(Seq<char>, Seq<char>)>,
) -> bool {
    exists|states: Seq<SharedGraphStore>, cuts: Seq<int>|
        #[trigger] neighbours_chained(states, cuts, users, viewer, follower, changes) && states[0]
            == a && states.last() == b
}

/// The stores that the repositories pass the graph through, one step each.
pub open spec fn repositories_chained(
    states: Seq<SharedGraphStore>,
    cuts: Seq<int>,
    repositories: Seq<GitHubRepositoryNode>,
    viewer: Seq<char>,
    metadata: CacheMetadata,
    owned: bool,
    changes: Seq<(Seq<char>, Seq<char>)>,
) -> bool {
    &&& states.len() == repositories.len() + 1
    &&& cuts.len() == repositories.len() + 1
    &&& cuts[0] == 0
    &&& cuts[repositories.len() as int] == changes.len()
    &&& forall|i: int|
        0 <= i < repositories.len() ==> #[trigger] repository_step(
            states,
            cuts,
            repositories,
            viewer,
            metadata,
            owned,
            changes,
            i,
        )
}

/// The `i`-th step of a repository chain.
pub open spec fn repository_step(
    states: Seq<SharedGraphStore>,
    cuts: Seq<int>,
    repositories: Seq<GitHubRepositoryNode>,
    viewer: Seq<char>,
    metadata: CacheMetadata,
    owned: bool,
    changes: Seq<(Seq<char>, Seq<char>)>,
    i: int,
) -> bool {
    &&& 0 <= cuts[i] <= cuts[i + 1] <= changes.len()
    &&& repository_absorbed(
        states[i],
        states[i + 1],
        repositories[i],
        viewer,
        metadata,
        owned,
        changes.subrange(cuts[i], cuts[i + 1]),
    )
}

/// The repositories absorbed in order, taking the graph from `a` to `b`.
pub open spec fn repositories_absorbed(
    a: SharedGraphStore,
    b: SharedGraphStore,
    repositories: Seq<GitHubRepositoryNode>,
    viewer: Seq<char>,
    metadata: CacheMetadata,
    owned: bool,
    changes: Seq<(Seq<char>, Seq<char>)>,
) -> bool {
    exists|states: Seq<SharedGraphStore>, cuts: Seq<int>|
        #[trigger] repositories_chained(states, cuts, repositories, viewer, metadata, owned, changes)
            && states[0] == a && states.last() == b
}

fn absorb_neighbours(
    store: &mut SharedGraphStore,
    users: Vec<GitHubUserNode>,
    viewer: &str,
    follower: bool,
    changes: &mut Vec<(String, String)>,
)
    requires
        old(store).wf(),
    ensures
        final(store).wf(),
        final(changes)@.take(old(changes)@.len() as int) == old(changes)@,
        final(changes)@.len() >= old(changes)@.len(),
        neighbours_absorbed(
            *old(store),
            *final(store),
            users@,
            viewer@,
            follower,
            change_views(final(changes)@).skip(old(changes)@.len() as int),
        ),
{
    let ghost start = *store;
    let ghost base = changes@;
    let ghost all = users@;
    let mut rest = users;
    let ghost mut states: Seq<SharedGraphStore> = seq![start];
    let ghost mut cuts: Seq<int> = seq![0int];
    let ghost mut i: int = 0;
    proof {
        assert(changes@.take(base.len() as int) =~= base);
        assert(change_views(changes@).skip(base.len() as int) =~= Seq::empty());
    }
    while rest.len() > 0
        invariant
            store.wf(),
            0 <= i <= all.len(),
            rest@ == all.skip(i),
            changes@.len() >= base.len(),
            changes@.take(base.len() as int) == base,
            states[0] == start,
            states.last() == *store,
            neighbours_chained(
                states,
                cuts,
                all.take(i),
                viewer@,
                follower,
                change_views(changes@).skip(base.len() as int),
            ),
        decreases rest.len(),
    {
        let u = rest.remove(0);
        let ghost before_changes = changes@;
        let ghost before_store = *store;
        let ghost n = i;
        assert(n < all.len());
        assert(u == all[n]);
        absorb_neighbour(store, u, viewer, follower, changes);
        proof {
            let old_tail = change_views(before_changes).skip(base.len() as int);
            let new_tail = change_views(changes@).skip(base.len() as int);
            assert(changes@.take(before_changes.len() as int) == before_changes);
            assert(changes@.take(base.len() as int) =~= base);
            assert forall|q: int| 0 <= q < old_tail.len() implies new_tail[q] == old_tail[q] by {
                assert(changes@[base.len() + q] == before_changes[base.len() + q]);
            }
            let step = change_views(changes@).skip(before_changes.len() as int);
            assert(step =~= new_tail.subrange(old_tail.len() as int, new_tail.len() as int));
            let old_states = states;
            let old_cuts = cuts;
            states = states.push(*store);
            cuts = cuts.push(new_tail.len() as int);
            assert(all.take(n + 1) =~= all.take(n).push(u));
            let users = all.take(n + 1);
            assert forall|k: int| 0 <= k < users.len() implies #[trigger] neighbour_step(
                states,
                cuts,
                users,
                viewer@,
                follower,
                new_tail,
                k,
            ) by {
                if k < n {
                    assert(neighbour_step(
                        old_states,
                        old_cuts,
                        all.take(n),
                        viewer@,
                        follower,
                        old_tail,
                        k,
                    ));
                    assert(users[k] == all.take(n)[k]);
                    assert(new_tail.subrange(cuts[k], cuts[k + 1]) =~= old_tail.subrange(
                        old_cuts[k],
                        old_cuts[k + 1],
                    ));
                } else {
                    assert(states[k] == before_store);
                }
            }
            assert(neighbours_chained(states, cuts, users, viewer@, follower, new_tail));
        }
        proof {
            i = i + 1;
        }
    }
    proof {
        assert(all.take(i) =~= all);
        assert(neighbours_chained(
            states,
            cuts,
            all,
            viewer@,
            follower,
            change_views(changes@).skip(base.len() as int),
        ));
    }
}

fn absorb_repositories(
    store: &mut SharedGraphStore,
    repositories: Vec<GitHubRepositoryNode>,
    viewer: &str,
    metadata: &CacheMetadata,
    owned: bool,
    changes: &mut Vec<(String, String)>,
)
    requires
        old(store).wf(),
    ensures
        final(store).wf(),
        final(changes)@.take(old(changes)@.len() as int) == old(changes)@,
        final(changes)@.len() >= old(changes)@.len(),
        repositories_absorbed(
            *old(store),
            *final(store),
            repositories@,
            viewer@,
            *metadata,
            owned,
            change_views(final(changes)@).skip(old(changes)@.len() as int),
        ),
{
    let ghost start = *store;
    let ghost base = changes@;
    let ghost all = repositories@;
    let mut rest = repositories;
    let ghost mut states: Seq<SharedGraphStore> = seq![start];
    let ghost mut cuts: Seq<int> = seq![0int];
    let ghost mut i: int = 0;
    proof {
        assert(changes@.take(base.len() as int) =~= base);
        assert(change_views(changes@).skip(base.len() as int) =~= Seq::empty());
    }
    while rest.len() > 0
        invariant
            store.wf(),
            0 <= i <= all.len(),
            rest@ == all.skip(i),
            changes@.len() >= base.len(),
            changes@.take(base.len() as int) == base,
            states[0] == start,
            states.last() == *store,
            repositories_chained(
                states,
                cuts,
                all.take(i),
                viewer@,
                *metadata,
                owned,
                change_views(changes@).skip(base.len() as int),
            ),
        decreases rest.len(),
    {
        let r = rest.remove(0);
        let ghost before_changes = changes@;
        let ghost before_store = *store;
        let ghost n = i;
        assert(n < all.len());
        assert(r == all[n]);
        absorb_repository(store, r, viewer, metadata, owned, changes);
        proof {
            let old_tail = change_views(before_changes).skip(base.len() as int);
            let new_tail = change_views(changes@).skip(base.len() as int);
            assert(changes@.take(before_changes.len() as int) == before_changes);
            assert(changes@.take(base.len() as int) =~= base);
            assert forall|q: int| 0 <= q < old_tail.len() implies new_tail[q] == old_tail[q] by {
                assert(changes@[base.len() + q] == before_changes[base.len() + q]);
            }
            let step = change_views(changes@).skip(before_changes.len() as int);
            assert(step =~= new_tail.subrange(old_tail.len() as int, new_tail.len() as int));
            let old_states = states;
            let old_cuts = cuts;
            states = states.push(*store);
            cuts = cuts.push(new_tail.len() as int);
            assert(all.take(n + 1) =~= all.take(n).push(r));
            let users = all.take(n + 1);
            assert forall|k: int| 0 <= k < users.len() implies #[trigger] repository_step(
                states,
                cuts,
                users,
                viewer@,
                *metadata,
                owned,
                new_tail,
                k,
            ) by {
                if k < n {
                    assert(repository_step(
                        old_states,
                        old_cuts,
                        all.take(n),
                        viewer@,
                        *metadata,
                        owned,
                        old_tail,
                        k,
                    ));
                    assert(users[k] == all.take(n)[k]);
                    assert(new_tail.subrange(cuts[k], cuts[k + 1]) =~= old_tail.subrange(
                        old_cuts[k],
                        old_cuts[k + 1],
                    ));
                } else {
                    assert(states[k] == before_store);
                }
            }
            assert(repositories_chained(states, cuts, users, viewer@, *metadata, owned, new_tail));
        }
        proof {
            i = i + 1;
        }
    }
    proof {
        assert(all.take(i) =~= all);
        assert(repositories_chained(
            states,
            cuts,
            all,
            viewer@,
            *metadata,
            owned,
            change_views(changes@).skip(base.len() as int),
        ));
    }
}

/// The steps of an import in order: the viewer, the followers, the followed users, the
/// owned and the starred repositories, through the stores `s1`..`s4`; the user renames are
/// cut at `k1` and `k2`, the repository renames at `m1`.
pub open spec fn import_steps(
    a: SharedGraphStore,
    s1: SharedGraphStore,
    s2: SharedGraphStore,
    s3: SharedGraphStore,
    s4: SharedGraphStore,
    b: SharedGraphStore,
    k1: int,
    k2: int,
    m1: int,
    import: GraphImport,
    viewer: GitHubUserNode,
    fetched_at: i64,
    stale_at: i64,
    user_changes: Seq<(Seq<char>, Seq<char>)>,
    repository_changes: Seq<(Seq<char>, Seq<char>)>,
) -> bool {
    let metadata = import_metadata(fetched_at, stale_at, import.coverage);
    let v = viewer.login@;
    &&& 0 <= k1 <= k2 <= user_changes.len()
    &&& 0 <= m1 <= repository_changes.len()
    &&& viewer_absorbed(a, s1, viewer, import.coverage, metadata, user_changes.take(k1))
    &&& neighbours_absorbed(s1, s2, import.followers@, v, true, user_changes.subrange(k1, k2))
    &&& neighbours_absorbed(s2, s3, import.following@, v, false, user_changes.skip(k2))
    &&& repositories_absorbed(
        s3,
        s4,
        import.repositories@,
        v,
        metadata,
        true,
        repository_changes.take(m1),
    )
    &&& repositories_absorbed(
        s4,
        b,
        import.starred_repositories@,
        v,
        metadata,
        false,
        repository_changes.skip(m1),
    )
}

/// What writing an import does to the graph: nothing without a viewer; otherwise the steps
/// in order, with the renames they made listed in order.
pub open spec fn import_absorbed(
    a: SharedGraphStore,
    b: SharedGraphStore,
    import: GraphImport,
    fetched_at: i64,
    stale_at: i64,
    user_changes: Seq<(Seq<char>, Seq<char>)>,
    repository_changes: Seq<(Seq<char>, Seq<char>)>,
) -> bool {
    match import.viewer {
        None => b == a && user_changes.len() == 0 && repository_changes.len() == 0,
        Some(viewer) => exists|
            s1: SharedGraphStore,
            s2: SharedGraphStore,
            s3: SharedGraphStore,
            s4: SharedGraphStore,
            k1: int,
            k2: int,
            m1: int,
        |
            #[trigger] import_steps(
                a,
                s1,
                s2,
                s3,
                s4,
                b,
                k1,
                k2,
                m1,
                import,
                viewer,
                fetched_at,
                stale_at,
                user_changes,
                repository_changes,
            ),
    }
}

/// Writes a fetched neighbourhood into the shared graph, fetched at `fetched_at` and fresh
/// until `stale_at` where the fetch was complete. Returns the login renames and the full
/// name renames made on the way, in order, for the bookmarks to follow.
pub fn upsert_import(
    store: &mut SharedGraphStore,
    import: GraphImport,
    fetched_at: i64,
    stale_at: i64,
) -> (r: (Vec<(String, String)>, Vec<(String, String)>))
    requires
        old(store).wf(),
    ensures
        final(store).wf(),
        import_absorbed(
            *old(store),
            *final(store),
            import,
            fetched_at,
            stale_at,
            change_views(r.0@),
            change_views(r.1@),
        ),
{
    let ghost a = *store;
    let ghost imp = import;
    let GraphImport { viewer, followers, following, starred_repositories, repositories, coverage } =
        import;
    let mut user_changes: Vec<(String, String)> = Vec::new();
    let mut repository_changes: Vec<(String, String)> = Vec::new();
    let viewer = match viewer {
        None => {
            assert(change_views(user_changes@) =~= Seq::empty());
            assert(change_views(repository_changes@) =~= Seq::empty());
            return (user_changes, repository_changes);
        },
        Some(v) => v,
    };
    let complete = coverage.is_complete();
    let metadata = CacheMetadata {
        last_fetched_at: Some(fetched_at),
        stale_at: Some(
            if complete {
                stale_at
            } else {
                fetched_at
            },
        ),
        refresh_started_at: None,
        last_refresh_error: None,
    };
    let viewer_login = viewer.login.clone();
    let ghost vw = viewer;
    absorb_viewer(store, viewer, coverage, &metadata, &mut user_changes);
    let ghost s1 = *store;
    let ghost c1 = user_changes@;
    absorb_neighbours(store, followers, viewer_login.as_str(), true, &mut user_changes);
    let ghost s2 = *store;
    let ghost c2 = user_changes@;
    absorb_neighbours(store, following, viewer_login.as_str(), false, &mut user_changes);
    let ghost s3 = *store;
    absorb_repositories(
        store,
        repositories,
        viewer_login.as_str(),
        &metadata,
        true,
        &mut repository_changes,
    );
    let ghost s4 = *store;
    let ghost d1 = repository_changes@;
    absorb_repositories(
        store,
        starred_repositories,
        viewer_login.as_str(),
        &metadata,
        false,
        &mut repository_changes,
    );
    proof {
        let uc = change_views(user_changes@);
        let rc = change_views(repository_changes@);
        let k1 = c1.len() as int;
        let k2 = c2.len() as int;
        let m1 = d1.len() as int;
        assert(c2.take(k1) == c1);
        assert(user_changes@.take(k2) == c2);
        assert(uc.take(k1) =~= change_views(c1).skip(0)) by {
            assert forall|q: int| 0 <= q < k1 implies uc[q] == change_views(c1)[q] by {
                assert(user_changes@[q] == c2[q]);
                assert(c2[q] == c1[q]);
            }
        }
        assert(uc.subrange(k1, k2) =~= change_views(c2).skip(k1)) by {
            assert forall|q: int| k1 <= q < k2 implies #[trigger] uc[q] == change_views(c2)[q] by {
                assert(user_changes@[q] == c2[q]);
            }
        }
        assert(repository_changes@.take(m1) == d1);
        assert(rc.take(m1) =~= change_views(d1).skip(0)) by {
            assert forall|q: int| 0 <= q < m1 implies rc[q] == change_views(d1)[q] by {
                assert(repository_changes@[q] == d1[q]);
            }
        }
        assert(imp.viewer == Some(vw));
        assert(import_metadata(fetched_at, stale_at, imp.coverage) == metadata);
        assert(import_steps(
            a,
            s1,
            s2,
            s3,
            s4,
            *store,
            k1,
            k2,
            m1,
            imp,
            vw,
            fetched_at,
            stale_at,
            uc,
            rc,
        ));
    }
    (user_changes, repository_changes)
}

/// Only collections fetched completely replace their earlier pairs: when the viewer is
/// written, a pair that starts or ends at the viewer in a collection without complete
/// coverage stays, and none stays in a collection with complete coverage.
pub proof fn law_only_complete_collections_replace_pairs(
    mid: SharedGraphStore,
    b: SharedGraphStore,
    viewer: GitHubUserNode,
    coverage: GraphImportCoverage,
    metadata: CacheMetadata,
    q: (Seq<char>, Seq<char>),
)
    requires
        viewer_written(mid, b, viewer, coverage, metadata),
    ensures
        edge_set(mid.follows@).contains(q) && q.1 == viewer.login@ && !coverage.followers_complete
            && !(coverage.following_complete && q.0 == viewer.login@) ==> edge_set(
            b.follows@,
        ).contains(q),
        edge_set(mid.follows@).contains(q) && q.0 == viewer.login@ && !coverage.following_complete
            && !(coverage.followers_complete && q.1 == viewer.login@) ==> edge_set(
            b.follows@,
        ).contains(q),
        coverage.followers_complete && q.1 == viewer.login@ ==> !edge_set(b.follows@).contains(q),
        coverage.following_complete && q.0 == viewer.login@ ==> !edge_set(b.follows@).contains(q),
        edge_set(mid.starred@).contains(q) && !coverage.starred_repositories_complete ==> edge_set(
            b.starred@,
        ).contains(q),
        coverage.starred_repositories_complete && q.0 == viewer.login@ ==> !edge_set(
            b.starred@,
        ).contains(q),
        edge_set(mid.member_of@).contains(q) && !coverage.repositories_complete ==> edge_set(
            b.member_of@,
        ).contains(q),
        coverage.repositories_complete && q.0 == viewer.login@ ==> !edge_set(
            b.member_of@,
        ).contains(q),
{
}

/// The summary of an import: how many of each collection it fetched, when, and how
/// completely.
pub fn import_summary(import: &GraphImport, synced_at: i64) -> (r: SyncSummary)
    ensures
        r.followers == import.followers@.len(),
        r.following == import.following@.len(),
        r.starred_repositories == import.starred_repositories@.len(),
        r.repositories == import.repositories@.len(),
        r.synced_at == synced_at,
        r.coverage == import.coverage,
{
    SyncSummary {
        followers: import.followers.len(),
        following: import.following.len(),
        starred_repositories: import.starred_repositories.len(),
        repositories: import.repositories.len(),
        synced_at,
        coverage: import.coverage,
    }
}

/// How long an imported neighbourhood stays fresh: six hours, in microseconds.
pub const NEIGHBORHOOD_CACHE_MICROS: i64 = 21_600_000_000;

/// Imports a user's neighbourhood into the shared graph at `now`: fetched now and fresh for
/// six hours. Gives the summary and the login and full-name renames that reconciling made,
/// for the bookmarks to follow.
pub fn import_graph(store: &mut SharedGraphStore, import: GraphImport, now: i64) -> (r: (
    SyncSummary,
    Vec<(String, String)>,
    Vec<(String, String)>,
))
    requires
        old(store).wf(),
        now <= i64::MAX - NEIGHBORHOOD_CACHE_MICROS,
    ensures
        final(store).wf(),
        r.0.followers == import.followers@.len(),
        r.0.following == import.following@.len(),
        r.0.starred_repositories == import.starred_repositories@.len(),
        r.0.repositories == import.repositories@.len(),
        r.0.synced_at == now,
        r.0.coverage == import.coverage,
        import_absorbed(
            *old(store),
            *final(store),
            import,
            now,
            (now + NEIGHBORHOOD_CACHE_MICROS) as i64,
            change_views(r.1@),
            change_views(r.2@),
        ),
{
    let summary = import_summary(&import, now);
    let (user_changes, repository_changes) = upsert_import(
        store,
        import,
        now,
        now + NEIGHBORHOOD_CACHE_MICROS,
    );
    (summary, user_changes, repository_changes)
}

} // verus!
