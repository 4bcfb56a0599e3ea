//! Moving a login or full name to another key throughout the shared graph, when GitHub
//! reports that an account or repository was renamed or that its old name went to someone
//! else.
use vstd::prelude::*;

use crate::graph::{GitHubRepositoryNode, GitHubUserNode};
use crate::numbers::{integer_text, signed_decimal};
use crate::insights::{
    RepositoryContributor, RepositoryContributorInsights, UserCommitRepository,
    UserCommitRepositoryInsights,
};
use crate::keyed::{keyed_map, move_keyed, moved, Keyed};
use crate::store::SharedGraphStore;
use crate::text::{eq_ignore_ascii_case, eq_ignore_case, push_str, str_equal};

verus! {

/// A relation pair as plain values.
pub open spec fn pair_view(e: (String, String)) -> (Seq<char>, Seq<char>) {
    (e.0@, e.1@)
}

/// The pairs among the first `n`, as a set.
pub open spec fn edge_set_upto(s: Seq<(String, String)>, n: int) -> Set<(Seq<char>, Seq<char>)> {
    Set::new(|p: (Seq<char>, Seq<char>)| exists|i: int| 0 <= i < n && #[trigger] pair_view(s[i]) == p)
}

/// A relation's pairs, as a set.
pub open spec fn edge_set(s: Seq<(String, String)>) -> Set<(Seq<char>, Seq<char>)> {
    edge_set_upto(s, s.len() as int)
}

/// A key after the rename `prev` to `next`, compared ignoring ASCII case.
pub open spec fn renamed(x: Seq<char>, prev: Seq<char>, next: Seq<char>) -> Seq<char> {
    if eq_ignore_case(x, prev) {
        next
    } else {
        x
    }
}

/// A pair after the rename, applied to its first and/or second key.
pub open spec fn renamed_pair(
    p: (Seq<char>, Seq<char>),
    prev: Seq<char>,
    next: Seq<char>,
    first: bool,
    second: bool,
) -> (Seq<char>, Seq<char>) {
    (
        if first {
            renamed(p.0, prev, next)
        } else {
            p.0
        },
        if second {
            renamed(p.1, prev, next)
        } else {
            p.1
        },
    )
}

/// A relation after the rename.
pub open spec fn renamed_edges(
    s: Set<(Seq<char>, Seq<char>)>,
    prev: Seq<char>,
    next: Seq<char>,
    first: bool,
    second: bool,
) -> Set<(Seq<char>, Seq<char>)> {
    Set::new(
        |q: (Seq<char>, Seq<char>)|
            exists|p: (Seq<char>, Seq<char>)|
                s.contains(p) && #[trigger] renamed_pair(p, prev, next, first, second) == q,
    )
}

proof fn lemma_edge_step(s: Seq<(String, String)>, n: int)
    requires
        0 <= n < s.len(),
    ensures
        edge_set_upto(s, n + 1) == edge_set_upto(s, n).insert(pair_view(s[n])),
{
    let a = edge_set_upto(s, n + 1);
    let b = edge_set_upto(s, n).insert(pair_view(s[n]));
    assert forall|p: (Seq<char>, Seq<char>)| a.contains(p) implies b.contains(p) by {
        let i = choose|i: int| 0 <= i < n + 1 && #[trigger] pair_view(s[i]) == p;
        if i < n {
            assert(edge_set_upto(s, n).contains(p));
        }
    }
    assert forall|p: (Seq<char>, Seq<char>)| b.contains(p) implies a.contains(p) by {
        if edge_set_upto(s, n).contains(p) {
            let i = choose|i: int| 0 <= i < n && #[trigger] pair_view(s[i]) == p;
            assert(pair_view(s[i]) == p);
        } else {
            assert(pair_view(s[n]) == p);
        }
    }
    assert(a =~= b);
}

proof fn lemma_edge_prefix(s: Seq<(String, String)>, t: Seq<(String, String)>, n: int)
    requires
        0 <= n <= s.len(),
        n <= t.len(),
        forall|i: int| 0 <= i < n ==> s[i] == t[i],
    ensures
        edge_set_upto(s, n) == edge_set_upto(t, n),
{
    assert forall|p: (Seq<char>, Seq<char>)| edge_set_upto(s, n).contains(p) implies edge_set_upto(
        t,
        n,
    ).contains(p) by {
        let i = choose|i: int| 0 <= i < n && #[trigger] pair_view(s[i]) == p;
        assert(pair_view(t[i]) == p);
    }
    assert forall|p: (Seq<char>, Seq<char>)| edge_set_upto(t, n).contains(p) implies edge_set_upto(
        s,
        n,
    ).contains(p) by {
        let i = choose|i: int| 0 <= i < n && #[trigger] pair_view(t[i]) == p;
        assert(pair_view(s[i]) == p);
    }
    assert(edge_set_upto(s, n) =~= edge_set_upto(t, n));
}

proof fn lemma_edge_push(s: Seq<(String, String)>, e: (String, String))
    ensures
        edge_set(s.push(e)) == edge_set(s).insert(pair_view(e)),
{
    let t = s.push(e);
    lemma_edge_step(t, s.len() as int);
    lemma_edge_prefix(s, t, s.len() as int);
}

/// Whether the relation holds the pair `(a, b)`.
pub fn has_pair(v: &Vec<(String, String)>, a: &str, b: &str) -> (r: bool)
    ensures
        r == edge_set(v@).contains((a@, b@)),
{
    let mut i: usize = 0;
    while i < v.len()
        invariant
            i <= v.len(),
            !edge_set_upto(v@, i as int).contains((a@, b@)),
        decreases v.len() - i,
    {
        proof {
            lemma_edge_step(v@, i as int);
        }
        if str_equal(v[i].0.as_str(), a) && str_equal(v[i].1.as_str(), b) {
            assert(pair_view(v@[i as int]) == (a@, b@));
            return true;
        }
        i += 1;
    }
    false
}

/// Adds the pair `(a, b)` unless the relation holds it already.
pub fn add_pair(v: &mut Vec<(String, String)>, a: String, b: String)
    ensures
        edge_set(final(v)@) == edge_set(old(v)@).insert((a@, b@)),
{
    if has_pair(v, a.as_str(), b.as_str()) {
        assert(edge_set(v@).insert((a@, b@)) =~= edge_set(v@));
    } else {
        proof {
            lemma_edge_push(v@, (a, b));
        }
        v.push((a, b));
    }
}

proof fn lemma_renamed_insert(
    s: Set<(Seq<char>, Seq<char>)>,
    p: (Seq<char>, Seq<char>),
    prev: Seq<char>,
    next: Seq<char>,
    first: bool,
    second: bool,
)
    ensures
        renamed_edges(s.insert(p), prev, next, first, second) == renamed_edges(
            s,
            prev,
            next,
            first,
            second,
        ).insert(renamed_pair(p, prev, next, first, second)),
{
    let a = renamed_edges(s.insert(p), prev, next, first, second);
    let b = renamed_edges(s, prev, next, first, second).insert(
        renamed_pair(p, prev, next, first, second),
    );
    assert forall|q: (Seq<char>, Seq<char>)| a.contains(q) implies b.contains(q) by {
        let x = choose|x: (Seq<char>, Seq<char>)|
            s.insert(p).contains(x) && #[trigger] renamed_pair(x, prev, next, first, second) == q;
        if x != p {
            assert(renamed_edges(s, prev, next, first, second).contains(q));
        }
    }
    assert forall|q: (Seq<char>, Seq<char>)| b.contains(q) implies a.contains(q) by {
        if renamed_edges(s, prev, next, first, second).contains(q) {
            let x = choose|x: (Seq<char>, Seq<char>)|
                s.contains(x) && #[trigger] renamed_pair(x, prev, next, first, second) == q;
            assert(s.insert(p).contains(x));
        } else {
            assert(s.insert(p).contains(p));
        }
    }
    assert(a =~= b);
}

fn renamed_text(x: &String, prev: &str, next: &str) -> (r: String)
    ensures
        r@ == renamed(x@, prev@, next@),
{
    if eq_ignore_ascii_case(x.as_str(), prev) {
        next.to_string()
    } else {
        x.clone()
    }
}

/// Applies the rename `prev` to `next` to the first and/or second key of every pair; pairs
/// that become equal are kept once.
pub fn rename_edges(edges: &mut Vec<(String, String)>, prev: &str, next: &str, first: bool, second: bool)
    ensures
        edge_set(final(edges)@) == renamed_edges(edge_set(old(edges)@), prev@, next@, first, second),
{
    let mut source: Vec<(String, String)> = Vec::new();
    std::mem::swap(&mut source, edges);
    assert(edge_set(edges@) =~= renamed_edges(edge_set_upto(source@, 0), prev@, next@, first, second));
    let mut i: usize = 0;
    while i < source.len()
        invariant
            i <= source.len(),
            edge_set(edges@) == renamed_edges(
                edge_set_upto(source@, i as int),
                prev@,
                next@,
                first,
                second,
            ),
        decreases source.len() - i,
    {
        proof {
            lemma_edge_step(source@, i as int);
            lemma_renamed_insert(
                edge_set_upto(source@, i as int),
                pair_view(source@[i as int]),
                prev@,
                next@,
                first,
                second,
            );
        }
        let a = if first {
            renamed_text(&source[i].0, prev, next)
        } else {
            source[i].0.clone()
        };
        let b = if second {
            renamed_text(&source[i].1, prev, next)
        } else {
            source[i].1.clone()
        };
        add_pair(edges, a, b);
        i += 1;
    }
}

/// The pairs that stay when those starting (`from`) or ending (`to`) at `key` are dropped.
pub open spec fn kept_edges(
    s: Set<(Seq<char>, Seq<char>)>,
    key: Seq<char>,
    from: bool,
    to: bool,
) -> Set<(Seq<char>, Seq<char>)> {
    s.filter(|p: (Seq<char>, Seq<char>)| !(from && p.0 == key) && !(to && p.1 == key))
}

/// Drops the pairs that start (`from`) or end (`to`) at `key`.
pub fn drop_edges_at(edges: &mut Vec<(String, String)>, key: &str, from: bool, to: bool)
    ensures
        edge_set(final(edges)@) == kept_edges(edge_set(old(edges)@), key@, from, to),
{
    let mut source: Vec<(String, String)> = Vec::new();
    std::mem::swap(&mut source, edges);
    assert(edge_set(edges@) =~= kept_edges(edge_set_upto(source@, 0), key@, from, to));
    let mut i: usize = 0;
    while i < source.len()
        invariant
            i <= source.len(),
            edge_set(edges@) == kept_edges(edge_set_upto(source@, i as int), key@, from, to),
        decreases source.len() - i,
    {
        proof {
            lemma_edge_step(source@, i as int);
        }
        let drop = (from && str_equal(source[i].0.as_str(), key)) || (to && str_equal(
            source[i].1.as_str(),
            key,
        ));
        let ghost before = edge_set_upto(source@, i as int);
        let ghost p = pair_view(source@[i as int]);
        if !drop {
            add_pair(edges, source[i].0.clone(), source[i].1.clone());
            assert(kept_edges(before.insert(p), key@, from, to) =~= kept_edges(before, key@, from, to).insert(p));
        } else {
            assert(kept_edges(before.insert(p), key@, from, to) =~= kept_edges(before, key@, from, to));
        }
        i += 1;
    }
}

/// The contributor, with the login renamed where it matches `prev` ignoring ASCII case.
pub open spec fn contributor_relabeled(
    n: RepositoryContributor,
    o: RepositoryContributor,
    prev: Seq<char>,
    next: Seq<char>,
) -> bool {
    n == RepositoryContributor { login: n.login, ..o } && n.login@ == renamed(o.login@, prev, next)
}

/// The contributor insights, with each contributor's login renamed.
pub open spec fn contributors_relabeled(
    n: RepositoryContributorInsights,
    o: RepositoryContributorInsights,
    prev: Seq<char>,
    next: Seq<char>,
) -> bool {
    &&& n == RepositoryContributorInsights { contributors: n.contributors, ..o }
    &&& n.contributors@.len() == o.contributors@.len()
    &&& forall|j: int|
        0 <= j < o.contributors@.len() ==> #[trigger] contributor_relabeled(
            n.contributors@[j],
            o.contributors@[j],
            prev,
            next,
        )
}

/// The repository entry of a user's commit activity, with its full name renamed.
pub open spec fn commit_repository_relabeled(
    n: UserCommitRepository,
    o: UserCommitRepository,
    prev: Seq<char>,
    next: Seq<char>,
) -> bool {
    n == UserCommitRepository { full_name: n.full_name, ..o } && n.full_name@ == renamed(
        o.full_name@,
        prev,
        next,
    )
}

/// A user's commit activity, with each repository's full name renamed.
pub open spec fn commit_repositories_relabeled(
    n: UserCommitRepositoryInsights,
    o: UserCommitRepositoryInsights,
    prev: Seq<char>,
    next: Seq<char>,
) -> bool {
    &&& n == UserCommitRepositoryInsights { repositories: n.repositories, ..o }
    &&& n.repositories@.len() == o.repositories@.len()
    &&& forall|j: int|
        0 <= j < o.repositories@.len() ==> #[trigger] commit_repository_relabeled(
            n.repositories@[j],
            o.repositories@[j],
            prev,
            next,
        )
}

/// The repository, with its owner's login renamed.
pub open spec fn owner_relabeled(
    n: GitHubRepositoryNode,
    o: GitHubRepositoryNode,
    prev: Seq<char>,
    next: Seq<char>,
) -> bool {
    n == GitHubRepositoryNode { owner_login: n.owner_login, ..o } && n.owner_login@ == renamed(
        o.owner_login@,
        prev,
        next,
    )
}

fn relabel_contributors(cs: &mut Vec<RepositoryContributor>, prev: &str, next: &str)
    ensures
        final(cs)@.len() == old(cs)@.len(),
        forall|j: int|
            0 <= j < old(cs)@.len() ==> #[trigger] contributor_relabeled(
                final(cs)@[j],
                old(cs)@[j],
                prev@,
                next@,
            ),
{
    let ghost start = cs@;
    let mut j: usize = 0;
    while j < cs.len()
        invariant
            j <= cs.len(),
            cs@.len() == start.len(),
            forall|k: int| 0 <= k < j ==> #[trigger] contributor_relabeled(cs@[k], start[k], prev@, next@),
            forall|k: int| j <= k < cs@.len() ==> cs@[k] == start[k],
        decreases cs.len() - j,
    {
        if eq_ignore_ascii_case(cs[j].login.as_str(), prev) {
            let mut c = cs.remove(j);
            c.login = next.to_string();
            cs.insert(j, c);
        }
        assert(contributor_relabeled(cs@[j as int], start[j as int], prev@, next@));
        j += 1;
    }
}

fn relabel_commit_repositories(rs: &mut Vec<UserCommitRepository>, prev: &str, next: &str)
    ensures
        final(rs)@.len() == old(rs)@.len(),
        forall|j: int|
            0 <= j < old(rs)@.len() ==> #[trigger] commit_repository_relabeled(
                final(rs)@[j],
                old(rs)@[j],
                prev@,
                next@,
            ),
{
    let ghost start = rs@;
    let mut j: usize = 0;
    while j < rs.len()
        invariant
            j <= rs.len(),
            rs@.len() == start.len(),
            forall|k: int|
                0 <= k < j ==> #[trigger] commit_repository_relabeled(rs@[k], start[k], prev@, next@),
            forall|k: int| j <= k < rs@.len() ==> rs@[k] == start[k],
        decreases rs.len() - j,
    {
        if eq_ignore_ascii_case(rs[j].full_name.as_str(), prev) {
            let mut r = rs.remove(j);
            r.full_name = next.to_string();
            rs.insert(j, r);
        }
        assert(commit_repository_relabeled(rs@[j as int], start[j as int], prev@, next@));
        j += 1;
    }
}

fn relabel_owners(rs: &mut Vec<GitHubRepositoryNode>, prev: &str, next: &str)
    ensures
        final(rs)@.len() == old(rs)@.len(),
        forall|j: int|
            0 <= j < old(rs)@.len() ==> #[trigger] owner_relabeled(
                final(rs)@[j],
                old(rs)@[j],
                prev@,
                next@,
            ),
{
    let ghost start = rs@;
    let mut j: usize = 0;
    while j < rs.len()
        invariant
            j <= rs.len(),
            rs@.len() == start.len(),
            forall|k: int| 0 <= k < j ==> #[trigger] owner_relabeled(rs@[k], start[k], prev@, next@),
            forall|k: int| j <= k < rs@.len() ==> rs@[k] == start[k],
        decreases rs.len() - j,
    {
        if eq_ignore_ascii_case(rs[j].owner_login.as_str(), prev) {
            let mut r = rs.remove(j);
            r.owner_login = next.to_string();
            rs.insert(j, r);
        }
        assert(owner_relabeled(rs@[j as int], start[j as int], prev@, next@));
        j += 1;
    }
}

fn relabel_all_contributors(v: &mut Vec<RepositoryContributorInsights>, prev: &str, next: &str)
    ensures
        final(v)@.len() == old(v)@.len(),
        forall|i: int|
            0 <= i < old(v)@.len() ==> #[trigger] contributors_relabeled(
                final(v)@[i],
                old(v)@[i],
                prev@,
                next@,
            ),
{
    let ghost start = v@;
    let mut i: usize = 0;
    while i < v.len()
        invariant
            i <= v.len(),
            v@.len() == start.len(),
            forall|k: int| 0 <= k < i ==> #[trigger] contributors_relabeled(v@[k], start[k], prev@, next@),
            forall|k: int| i <= k < v@.len() ==> v@[k] == start[k],
        decreases v.len() - i,
    {
        let mut x = v.remove(i);
        relabel_contributors(&mut x.contributors, prev, next);
        v.insert(i, x);
        assert(contributors_relabeled(v@[i as int], start[i as int], prev@, next@));
        i += 1;
    }
}

fn relabel_all_commit_repositories(v: &mut Vec<UserCommitRepositoryInsights>, prev: &str, next: &str)
    ensures
        final(v)@.len() == old(v)@.len(),
        forall|i: int|
            0 <= i < old(v)@.len() ==> #[trigger] commit_repositories_relabeled(
                final(v)@[i],
                old(v)@[i],
                prev@,
                next@,
            ),
{
    let ghost start = v@;
    let mut i: usize = 0;
    while i < v.len()
        invariant
            i <= v.len(),
            v@.len() == start.len(),
            forall|k: int|
                0 <= k < i ==> #[trigger] commit_repositories_relabeled(v@[k], start[k], prev@, next@),
            forall|k: int| i <= k < v@.len() ==> v@[k] == start[k],
        decreases v.len() - i,
    {
        let mut x = v.remove(i);
        relabel_commit_repositories(&mut x.repositories, prev, next);
        v.insert(i, x);
        assert(commit_repositories_relabeled(v@[i as int], start[i as int], prev@, next@));
        i += 1;
    }
}

/// What renaming the login `prev` to `next` does to the graph: the user record, its cache
/// entry, coverage and commit activity move to `next`; contributor lists, the follow, star
/// and membership relations and repository owners name `next` wherever they named `prev`
/// ignoring ASCII case; repository cache entries stay.
pub open spec fn user_alias_renamed(
    a: SharedGraphStore,
    b: SharedGraphStore,
    prev: Seq<char>,
    next: Seq<char>,
) -> bool {
    &&& moved(keyed_map(a.users@), keyed_map(b.users@), prev, next)
    &&& moved(keyed_map(a.user_cache@), keyed_map(b.user_cache@), prev, next)
    &&& moved(keyed_map(a.user_coverage@), keyed_map(b.user_coverage@), prev, next)
    &&& moved(
        keyed_map(a.user_commit_repository_insights@),
        keyed_map(b.user_commit_repository_insights@),
        prev,
        next,
    )
    &&& b.repository_contributor_insights@.len() == a.repository_contributor_insights@.len()
    &&& forall|i: int|
        0 <= i < a.repository_contributor_insights@.len() ==> #[trigger] contributors_relabeled(
            b.repository_contributor_insights@[i],
            a.repository_contributor_insights@[i],
            prev,
            next,
        )
    &&& edge_set(b.follows@) == renamed_edges(edge_set(a.follows@), prev, next, true, true)
    &&& edge_set(b.starred@) == renamed_edges(edge_set(a.starred@), prev, next, true, false)
    &&& edge_set(b.member_of@) == renamed_edges(edge_set(a.member_of@), prev, next, true, false)
    &&& b.repositories@.len() == a.repositories@.len()
    &&& forall|i: int|
        0 <= i < a.repositories@.len() ==> #[trigger] owner_relabeled(
            b.repositories@[i],
            a.repositories@[i],
            prev,
            next,
        )
    &&& b.repository_cache == a.repository_cache
}

/// What renaming the full name `prev` to `next` does to the graph: the repository record,
/// its cache entry and contributor insights move to `next`; commit activity and the star
/// and membership relations name `next` wherever they named `prev` ignoring ASCII case;
/// users, follows and user cache entries stay.
pub open spec fn repository_alias_renamed(
    a: SharedGraphStore,
    b: SharedGraphStore,
    prev: Seq<char>,
    next: Seq<char>,
) -> bool {
    &&& moved(keyed_map(a.repositories@), keyed_map(b.repositories@), prev, next)
    &&& moved(keyed_map(a.repository_cache@), keyed_map(b.repository_cache@), prev, next)
    &&& moved(
        keyed_map(a.repository_contributor_insights@),
        keyed_map(b.repository_contributor_insights@),
        prev,
        next,
    )
    &&& b.user_commit_repository_insights@.len() == a.user_commit_repository_insights@.len()
    &&& forall|i: int|
        0 <= i < a.user_commit_repository_insights@.len() ==> #[trigger] commit_repositories_relabeled(
            b.user_commit_repository_insights@[i],
            a.user_commit_repository_insights@[i],
            prev,
            next,
        )
    &&& edge_set(b.starred@) == renamed_edges(edge_set(a.starred@), prev, next, false, true)
    &&& edge_set(b.member_of@) == renamed_edges(edge_set(a.member_of@), prev, next, false, true)
    &&& b.users == a.users
    &&& b.follows == a.follows
    &&& b.user_cache == a.user_cache
    &&& b.user_coverage == a.user_coverage
}

/// Renames the login `previous` to `next` throughout the graph.
pub fn rename_user_alias(store: &mut SharedGraphStore, previous: &str, next: &str)
    requires
        old(store).wf(),
    ensures
        final(store).wf(),
        user_alias_renamed(*old(store), *final(store), previous@, next@),
{
    let ghost a = *store;
    move_keyed(&mut store.users, previous, next);
    move_keyed(&mut store.user_cache, previous, next);
    move_keyed(&mut store.user_coverage, previous, next);
    move_keyed(&mut store.user_commit_repository_insights, previous, next);
    relabel_all_contributors(&mut store.repository_contributor_insights, previous, next);
    rename_edges(&mut store.follows, previous, next, true, true);
    rename_edges(&mut store.starred, previous, next, true, false);
    rename_edges(&mut store.member_of, previous, next, true, false);
    relabel_owners(&mut store.repositories, previous, next);
    proof {
        assert forall|i: int, j: int| 0 <= i < j < store.repositories@.len() implies #[trigger] store.repositories@[i].key()
            != #[trigger] store.repositories@[j].key() by {
            assert(owner_relabeled(store.repositories@[i], a.repositories@[i], previous@, next@));
            assert(owner_relabeled(store.repositories@[j], a.repositories@[j], previous@, next@));
            assert(a.repositories@[i].key() != a.repositories@[j].key());
        }
        assert forall|i: int, j: int|
            0 <= i < j < store.repository_contributor_insights@.len() implies #[trigger] store.repository_contributor_insights@[i].key()
            != #[trigger] store.repository_contributor_insights@[j].key() by {
            assert(contributors_relabeled(
                store.repository_contributor_insights@[i],
                a.repository_contributor_insights@[i],
                previous@,
                next@,
            ));
            assert(contributors_relabeled(
                store.repository_contributor_insights@[j],
                a.repository_contributor_insights@[j],
                previous@,
                next@,
            ));
            assert(a.repository_contributor_insights@[i].key()
                != a.repository_contributor_insights@[j].key());
        }
    }
}

/// Renames the full name `previous` to `next` throughout the graph.
pub fn rename_repository_alias(store: &mut SharedGraphStore, previous: &str, next: &str)
    requires
        old(store).wf(),
    ensures
        final(store).wf(),
        repository_alias_renamed(*old(store), *final(store), previous@, next@),
{
    let ghost a = *store;
    move_keyed(&mut store.repositories, previous, next);
    move_keyed(&mut store.repository_cache, previous, next);
    move_keyed(&mut store.repository_contributor_insights, previous, next);
    relabel_all_commit_repositories(&mut store.user_commit_repository_insights, previous, next);
    rename_edges(&mut store.starred, previous, next, false, true);
    rename_edges(&mut store.member_of, previous, next, false, true);
    proof {
        assert forall|i: int, j: int|
            0 <= i < j < store.user_commit_repository_insights@.len() implies #[trigger] store.user_commit_repository_insights@[i].key()
            != #[trigger] store.user_commit_repository_insights@[j].key() by {
            assert(commit_repositories_relabeled(
                store.user_commit_repository_insights@[i],
                a.user_commit_repository_insights@[i],
                previous@,
                next@,
            ));
            assert(commit_repositories_relabeled(
                store.user_commit_repository_insights@[j],
                a.user_commit_repository_insights@[j],
                previous@,
                next@,
            ));
            assert(a.user_commit_repository_insights@[i].key()
                != a.user_commit_repository_insights@[j].key());
        }
    }
}

/// The pairs of a list of renames, as plain values.
pub open spec fn change_views(s: Seq<(String, String)>) -> Seq<(Seq<char>, Seq<char>)> {
    s.map_values(|c: (String, String)| pair_view(c))
}

/// The key a login moves to when another account takes it.
pub open spec fn user_placeholder(github_id: i64) -> Seq<char> {
    "__gitexplore-user-"@ + signed_decimal(github_id as int)
}

/// The key a full name moves to when another repository takes it.
pub open spec fn repository_placeholder(github_id: i64) -> Seq<char> {
    "__gitexplore-repository-"@ + signed_decimal(github_id as int)
}

/// The stored user at `i` holds the incoming login, ignoring ASCII case, for another account.
pub open spec fn login_taken(store: SharedGraphStore, incoming: GitHubUserNode, i: int) -> bool {
    &&& 0 <= i < store.users@.len()
    &&& eq_ignore_case(store.users@[i].login@, incoming.login@)
    &&& store.users@[i].github_id != incoming.github_id
}

/// The stored user at `i` is the incoming account under an older login.
pub open spec fn login_outdated(store: SharedGraphStore, incoming: GitHubUserNode, i: int) -> bool {
    &&& 0 <= i < store.users@.len()
    &&& store.users@[i].github_id == incoming.github_id
    &&& store.users@[i].login@ != incoming.login@
}

/// The stored repository at `i` holds the incoming full name, ignoring ASCII case, for
/// another repository.
pub open spec fn name_taken(store: SharedGraphStore, incoming: GitHubRepositoryNode, i: int) -> bool {
    &&& 0 <= i < store.repositories@.len()
    &&& eq_ignore_case(store.repositories@[i].full_name@, incoming.full_name@)
    &&& store.repositories@[i].github_id != incoming.github_id
}

/// The stored repository at `i` is the incoming one under an older full name.
pub open spec fn name_outdated(store: SharedGraphStore, incoming: GitHubRepositoryNode, i: int) -> bool {
    &&& 0 <= i < store.repositories@.len()
    &&& store.repositories@[i].github_id == incoming.github_id
    &&& store.repositories@[i].full_name@ != incoming.full_name@
}

/// The first step of reconciling a user: where another account holds the login, that
/// account's login moves to its placeholder (`part` records the move); else nothing changes.
pub open spec fn login_freed(
    a: SharedGraphStore,
    b: SharedGraphStore,
    incoming: GitHubUserNode,
    part: Seq<(Seq<char>, Seq<char>)>,
) -> bool {
    if exists|i: int| login_taken(a, incoming, i) {
        &&& part.len() == 1
        &&& exists|i: int|
            #[trigger] login_taken(a, incoming, i) && part[0] == (
                a.users@[i].login@,
                user_placeholder(a.users@[i].github_id),
            )
        &&& user_alias_renamed(a, b, part[0].0, part[0].1)
    } else {
        part.len() == 0 && b == a
    }
}

/// The second step: where the incoming account is stored under an older login, that login
/// moves to the incoming one (`part` records the move); else nothing changes.
pub open spec fn login_followed(
    a: SharedGraphStore,
    b: SharedGraphStore,
    incoming: GitHubUserNode,
    part: Seq<(Seq<char>, Seq<char>)>,
) -> bool {
    if exists|i: int| login_outdated(a, incoming, i) {
        &&& part.len() == 1
        &&& exists|i: int|
            #[trigger] login_outdated(a, incoming, i) && part[0] == (a.users@[i].login@, incoming.login@)
        &&& user_alias_renamed(a, b, part[0].0, part[0].1)
    } else {
        part.len() == 0 && b == a
    }
}

/// Reconciling a user: the two steps in turn, with the renames they made listed in order.
pub open spec fn user_reconciled(
    a: SharedGraphStore,
    b: SharedGraphStore,
    incoming: GitHubUserNode,
    changes: Seq<(Seq<char>, Seq<char>)>,
) -> bool {
    exists|mid: SharedGraphStore, k: int|
        0 <= k <= changes.len() && mid.wf() && login_freed(a, mid, incoming, changes.take(k))
            && #[trigger] login_followed(mid, b, incoming, changes.skip(k))
}

/// The first step of reconciling a repository: where another repository holds the full
/// name, its name moves to its placeholder; else nothing changes.
pub open spec fn name_freed(
    a: SharedGraphStore,
    b: SharedGraphStore,
    incoming: GitHubRepositoryNode,
    part: Seq<(Seq<char>, Seq<char>)>,
) -> bool {
    if exists|i: int| name_taken(a, incoming, i) {
        &&& part.len() == 1
        &&& exists|i: int|
            #[trigger] name_taken(a, incoming, i) && part[0] == (
                a.repositories@[i].full_name@,
                repository_placeholder(a.repositories@[i].github_id),
            )
        &&& repository_alias_renamed(a, b, part[0].0, part[0].1)
    } else {
        part.len() == 0 && b == a
    }
}

/// The second step: where the incoming repository is stored under an older full name, that
/// name moves to the incoming one; else nothing changes.
pub open spec fn name_followed(
    a: SharedGraphStore,
    b: SharedGraphStore,
    incoming: GitHubRepositoryNode,
    part: Seq<(Seq<char>, Seq<char>)>,
) -> bool {
    if exists|i: int| name_outdated(a, incoming, i) {
        &&& part.len() == 1
        &&& exists|i: int|
            #[trigger] name_outdated(a, incoming, i) && part[0] == (
                a.repositories@[i].full_name@,
                incoming.full_name@,
            )
        &&& repository_alias_renamed(a, b, part[0].0, part[0].1)
    } else {
        part.len() == 0 && b == a
    }
}

/// Reconciling a repository: the two steps in turn, with the renames listed in order.
pub open spec fn repository_reconciled(
    a: SharedGraphStore,
    b: SharedGraphStore,
    incoming: GitHubRepositoryNode,
    changes: Seq<(Seq<char>, Seq<char>)>,
) -> bool {
    exists|mid: SharedGraphStore, k: int|
        0 <= k <= changes.len() && mid.wf() && name_freed(a, mid, incoming, changes.take(k))
            && #[trigger] name_followed(mid, b, incoming, changes.skip(k))
}

fn placeholder(prefix: &str, github_id: i64) -> (r: String)
    ensures
        r@ == prefix@ + signed_decimal(github_id as int),
{
    let mut r = prefix.to_string();
    push_str(&mut r, integer_text(github_id).as_str());
    r
}

/// Makes room for an incoming user record: another account holding its login (ignoring
/// ASCII case) moves to a placeholder login, then an older login of the same account moves
/// to the incoming one. Returns the renames made, in order.
pub fn reconcile_user_alias(store: &mut SharedGraphStore, incoming: &GitHubUserNode) -> (r: Vec<
    (String, String),
>)
    requires
        old(store).wf(),
    ensures
        final(store).wf(),
        r@.len() <= 2,
        user_reconciled(*old(store), *final(store), *incoming, change_views(r@)),
{
    let ghost a = *store;
    let mut changes: Vec<(String, String)> = Vec::new();
    let mut i: usize = 0;
    while i < store.users.len()
        invariant
            i <= store.users.len(),
            *store == a,
            forall|k: int| 0 <= k < i ==> !#[trigger] login_taken(a, *incoming, k),
        ensures
            i <= store.users.len(),
            *store == a,
            forall|k: int| 0 <= k < i ==> !#[trigger] login_taken(a, *incoming, k),
            i < store.users.len() ==> login_taken(a, *incoming, i as int),
        decreases store.users.len() - i,
    {
        if eq_ignore_ascii_case(store.users[i].login.as_str(), incoming.login.as_str())
            && store.users[i].github_id != incoming.github_id {
            break;
        }
        i += 1;
    }
    if i < store.users.len() {
        let occupied = store.users[i].login.clone();
        let replacement = placeholder("__gitexplore-user-", store.users[i].github_id);
        proof {
            reveal_strlit("__gitexplore-user-");
            assert(login_taken(a, *incoming, i as int));
        }
        rename_user_alias(store, occupied.as_str(), replacement.as_str());
        changes.push((occupied, replacement));
    } else {
        assert(!exists|k: int| login_taken(a, *incoming, k));
    }
    let ghost mid = *store;
    let ghost first = change_views(changes@);
    proof {
        assert(login_freed(a, mid, *incoming, first));
    }
    let mut j: usize = 0;
    while j < store.users.len()
        invariant
            j <= store.users.len(),
            *store == mid,
            forall|k: int| 0 <= k < j ==> !#[trigger] login_outdated(mid, *incoming, k),
        ensures
            j <= store.users.len(),
            *store == mid,
            forall|k: int| 0 <= k < j ==> !#[trigger] login_outdated(mid, *incoming, k),
            j < store.users.len() ==> login_outdated(mid, *incoming, j as int),
        decreases store.users.len() - j,
    {
        if store.users[j].github_id == incoming.github_id && !str_equal(
            store.users[j].login.as_str(),
            incoming.login.as_str(),
        ) {
            break;
        }
        j += 1;
    }
    let ghost k = changes@.len() as int;
    if j < store.users.len() {
        let previous = store.users[j].login.clone();
        proof {
            assert(login_outdated(mid, *incoming, j as int));
        }
        rename_user_alias(store, previous.as_str(), incoming.login.as_str());
        changes.push((previous, incoming.login.clone()));
    } else {
        assert(!exists|q: int| login_outdated(mid, *incoming, q));
    }
    proof {
        let all = change_views(changes@);
        assert(all.take(k) =~= first);
        assert(login_followed(mid, *store, *incoming, all.skip(k)));
    }
    changes
}

/// Makes room for an incoming repository record: another repository holding its full name
/// (ignoring ASCII case) moves to a placeholder name, then an older name of the same
/// repository moves to the incoming one. Returns the renames made, in order.
pub fn reconcile_repository_alias(
    store: &mut SharedGraphStore,
    incoming: &GitHubRepositoryNode,
) -> (r: Vec<(String, String)>)
    requires
        old(store).wf(),
    ensures
        final(store).wf(),
        r@.len() <= 2,
        repository_reconciled(*old(store), *final(store), *incoming, change_views(r@)),
{
    let ghost a = *store;
    let mut changes: Vec<(String, String)> = Vec::new();
    let mut i: usize = 0;
    while i < store.repositories.len()
        invariant
            i <= store.repositories.len(),
            *store == a,
            forall|k: int| 0 <= k < i ==> !#[trigger] name_taken(a, *incoming, k),
        ensures
            i <= store.repositories.len(),
            *store == a,
            forall|k: int| 0 <= k < i ==> !#[trigger] name_taken(a, *incoming, k),
            i < store.repositories.len() ==> name_taken(a, *incoming, i as int),
        decreases store.repositories.len() - i,
    {
        if eq_ignore_ascii_case(
            store.repositories[i].full_name.as_str(),
            incoming.full_name.as_str(),
        ) && store.repositories[i].github_id != incoming.github_id {
            break;
        }
        i += 1;
    }
    if i < store.repositories.len() {
        let occupied = store.repositories[i].full_name.clone();
        let replacement = placeholder("__gitexplore-repository-", store.repositories[i].github_id);
        proof {
            reveal_strlit("__gitexplore-repository-");
            assert(name_taken(a, *incoming, i as int));
        }
        rename_repository_alias(store, occupied.as_str(), replacement.as_str());
        changes.push((occupied, replacement));
    } else {
        assert(!exists|k: int| name_taken(a, *incoming, k));
    }
    let ghost mid = *store;
    let ghost first = change_views(changes@);
    proof {
        assert(name_freed(a, mid, *incoming, first));
    }
    let mut j: usize = 0;
    while j < store.repositories.len()
        invariant
            j <= store.repositories.len(),
            *store == mid,
            forall|k: int| 0 <= k < j ==> !#[trigger] name_outdated(mid, *incoming, k),
        ensures
            j <= store.repositories.len(),
            *store == mid,
            forall|k: int| 0 <= k < j ==> !#[trigger] name_outdated(mid, *incoming, k),
            j < store.repositories.len() ==> name_outdated(mid, *incoming, j as int),
        decreases store.repositories.len() - j,
    {
        if store.repositories[j].github_id == incoming.github_id && !str_equal(
            store.repositories[j].full_name.as_str(),
            incoming.full_name.as_str(),
        ) {
            break;
        }
        j += 1;
    }
    let ghost k = changes@.len() as int;
    if j < store.repositories.len() {
        let previous = store.repositories[j].full_name.clone();
        proof {
            assert(name_outdated(mid, *incoming, j as int));
        }
        rename_repository_alias(store, previous.as_str(), incoming.full_name.as_str());
        changes.push((previous, incoming.full_name.clone()));
    } else {
        assert(!exists|q: int| name_outdated(mid, *incoming, q));
    }
    proof {
        let all = change_views(changes@);
        assert(all.take(k) =~= first);
        assert(name_followed(mid, *store, *incoming, all.skip(k)));
    }
    changes
}

proof fn lemma_no_stale_end(
    s: Set<(Seq<char>, Seq<char>)>,
    prev: Seq<char>,
    next: Seq<char>,
    first: bool,
    second: bool,
)
    ensures
        forall|q: (Seq<char>, Seq<char>)|
            #[trigger] renamed_edges(s, prev, next, first, second).contains(q) ==> (first
                && eq_ignore_case(q.0, prev) ==> q.0 == next) && (second && eq_ignore_case(q.1, prev)
                ==> q.1 == next),
{
    assert forall|q: (Seq<char>, Seq<char>)|
        #[trigger] renamed_edges(s, prev, next, first, second).contains(q) implies (first
            && eq_ignore_case(q.0, prev) ==> q.0 == next) && (second && eq_ignore_case(q.1, prev)
            ==> q.1 == next) by {
        let p = choose|p: (Seq<char>, Seq<char>)|
            s.contains(p) && #[trigger] renamed_pair(p, prev, next, first, second) == q;
        assert(renamed_pair(p, prev, next, first, second) == q);
    }
}

/// After the login `prev` is renamed to `next`, no user record is filed under `prev` (unless
/// the two are the same text), and every follow, star and membership pair that names a
/// login equal to `prev` ignoring ASCII case names `next` there.
pub proof fn law_renamed_login_leaves_no_stale_alias(
    a: SharedGraphStore,
    b: SharedGraphStore,
    prev: Seq<char>,
    next: Seq<char>,
)
    requires
        user_alias_renamed(a, b, prev, next),
        !keyed_map(a.users@).contains_key(prev) || prev != next,
    ensures
        !keyed_map(b.users@).contains_key(prev) || !keyed_map(a.users@).contains_key(prev),
        forall|q: (Seq<char>, Seq<char>)|
            #[trigger] edge_set(b.follows@).contains(q) ==> (eq_ignore_case(q.0, prev) ==> q.0
                == next) && (eq_ignore_case(q.1, prev) ==> q.1 == next),
        forall|q: (Seq<char>, Seq<char>)|
            #[trigger] edge_set(b.starred@).contains(q) ==> (eq_ignore_case(q.0, prev) ==> q.0
                == next),
        forall|q: (Seq<char>, Seq<char>)|
            #[trigger] edge_set(b.member_of@).contains(q) ==> (eq_ignore_case(q.0, prev) ==> q.0
                == next),
{
    lemma_no_stale_end(edge_set(a.follows@), prev, next, true, true);
    lemma_no_stale_end(edge_set(a.starred@), prev, next, true, false);
    lemma_no_stale_end(edge_set(a.member_of@), prev, next, true, false);
    if keyed_map(a.users@).contains_key(prev) {
        assert(!keyed_map(b.users@).dom().contains(prev));
    }
}

/// After the full name `prev` is renamed to `next`, no repository record is filed under
/// `prev` (unless the two are the same text), and every star and membership pair that names
/// a full name equal to `prev` ignoring ASCII case names `next` there.
pub proof fn law_renamed_repository_leaves_no_stale_alias(
    a: SharedGraphStore,
    b: SharedGraphStore,
    prev: Seq<char>,
    next: Seq<char>,
)
    requires
        repository_alias_renamed(a, b, prev, next),
        !keyed_map(a.repositories@).contains_key(prev) || prev != next,
    ensures
        !keyed_map(b.repositories@).contains_key(prev) || !keyed_map(
            a.repositories@,
        ).contains_key(prev),
        forall|q: (Seq<char>, Seq<char>)|
            #[trigger] edge_set(b.starred@).contains(q) ==> (eq_ignore_case(q.1, prev) ==> q.1
                == next),
        forall|q: (Seq<char>, Seq<char>)|
            #[trigger] edge_set(b.member_of@).contains(q) ==> (eq_ignore_case(q.1, prev) ==> q.1
                == next),
{
    lemma_no_stale_end(edge_set(a.starred@), prev, next, false, true);
    lemma_no_stale_end(edge_set(a.member_of@), prev, next, false, true);
    if keyed_map(a.repositories@).contains_key(prev) {
        assert(!keyed_map(b.repositories@).dom().contains(prev));
    }
}

} // verus!
