//! Records kept one per key in a vector (a user by login, a repository by full name, a cache
//! entry by the key it is filed under), seen as a map from key to record.
use vstd::prelude::*;

use crate::graph::{user_position, CacheMetadata, GitHubRepositoryNode, GitHubUserNode, GraphImportCoverage};
use crate::insights::{RepositoryContributorInsights, UserCommitRepositoryInsights};
use crate::text::str_equal;

verus! {

/// A record filed under a text key.
pub trait Keyed: Sized {
    spec fn key(&self) -> Seq<char>;

    /// The two records agree on everything but their keys.
    spec fn same_but_key(&self, other: Self) -> bool;

    fn key_text(&self) -> (r: &str)
        ensures
            r@ == self.key(),
    ;

    /// The record filed under another key.
    fn with_key(self, key: String) -> (r: Self)
        ensures
            r.key() == key@,
            r.same_but_key(self),
    ;
}

impl Keyed for GitHubUserNode {
    open spec fn key(&self) -> Seq<char> {
        self.login@
    }

    open spec fn same_but_key(&self, other: Self) -> bool {
        *self == GitHubUserNode { login: self.login, ..other }
    }

    fn key_text(&self) -> (r: &str) {
        self.login.as_str()
    }

    fn with_key(self, key: String) -> (r: Self) {
        GitHubUserNode { login: key, ..self }
    }
}

impl Keyed for GitHubRepositoryNode {
    open spec fn key(&self) -> Seq<char> {
        self.full_name@
    }

    open spec fn same_but_key(&self, other: Self) -> bool {
        *self == GitHubRepositoryNode { full_name: self.full_name, ..other }
    }

    fn key_text(&self) -> (r: &str) {
        self.full_name.as_str()
    }

    fn with_key(self, key: String) -> (r: Self) {
        GitHubRepositoryNode { full_name: key, ..self }
    }
}

impl Keyed for (String, CacheMetadata) {
    open spec fn key(&self) -> Seq<char> {
        self.0@
    }

    open spec fn same_but_key(&self, other: Self) -> bool {
        self.1 == other.1
    }

    fn key_text(&self) -> (r: &str) {
        self.0.as_str()
    }

    fn with_key(self, key: String) -> (r: Self) {
        (key, self.1)
    }
}

impl Keyed for (String, GraphImportCoverage) {
    open spec fn key(&self) -> Seq<char> {
        self.0@
    }

    open spec fn same_but_key(&self, other: Self) -> bool {
        self.1 == other.1
    }

    fn key_text(&self) -> (r: &str) {
        self.0.as_str()
    }

    fn with_key(self, key: String) -> (r: Self) {
        (key, self.1)
    }
}

impl Keyed for RepositoryContributorInsights {
    open spec fn key(&self) -> Seq<char> {
        self.full_name@
    }

    open spec fn same_but_key(&self, other: Self) -> bool {
        *self == RepositoryContributorInsights { full_name: self.full_name, ..other }
    }

    fn key_text(&self) -> (r: &str) {
        self.full_name.as_str()
    }

    fn with_key(self, key: String) -> (r: Self) {
        RepositoryContributorInsights { full_name: key, ..self }
    }
}

impl Keyed for UserCommitRepositoryInsights {
    open spec fn key(&self) -> Seq<char> {
        self.login@
    }

    open spec fn same_but_key(&self, other: Self) -> bool {
        *self == UserCommitRepositoryInsights { login: self.login, ..other }
    }

    fn key_text(&self) -> (r: &str) {
        self.login.as_str()
    }

    fn with_key(self, key: String) -> (r: Self) {
        UserCommitRepositoryInsights { login: key, ..self }
    }
}

/// The position of the last record with this key, or -1.
pub open spec fn key_position<T: Keyed>(s: Seq<T>, k: Seq<char>) -> int
    decreases s.len(),
{
    if s.len() == 0 {
        -1
    } else if s.last().key() == k {
        s.len() - 1
    } else {
        key_position(s.drop_last(), k)
    }
}

/// No two records share a key.
pub open spec fn distinct_keys<T: Keyed>(s: Seq<T>) -> bool {
    forall|i: int, j: int| 0 <= i < j < s.len() ==> #[trigger] s[i].key() != #[trigger] s[j].key()
}

/// The records as a map from key to record.
pub open spec fn keyed_map<T: Keyed>(s: Seq<T>) -> Map<Seq<char>, T> {
    Map::new(|k: Seq<char>| key_position(s, k) >= 0, |k: Seq<char>| s[key_position(s, k)])
}

pub proof fn lemma_key_position<T: Keyed>(s: Seq<T>, k: Seq<char>)
    ensures
        -1 <= key_position(s, k) < s.len(),
        key_position(s, k) >= 0 ==> s[key_position(s, k)].key() == k,
        key_position(s, k) < 0 <==> forall|i: int| 0 <= i < s.len() ==> s[i].key() != k,
        forall|i: int| key_position(s, k) < i < s.len() ==> s[i].key() != k,
    decreases s.len(),
{
    if s.len() > 0 {
        lemma_key_position(s.drop_last(), k);
        assert forall|i: int| 0 <= i < s.len() - 1 implies s[i] == s.drop_last()[i] by {}
    }
}

/// With distinct keys, each record sits at its key's position.
pub proof fn lemma_distinct_position<T: Keyed>(s: Seq<T>, i: int)
    requires
        distinct_keys(s),
        0 <= i < s.len(),
    ensures
        key_position(s, s[i].key()) == i,
{
    lemma_key_position(s, s[i].key());
    let p = key_position(s, s[i].key());
    if p != i {
        assert(p > i);
        assert(s[i].key() != s[p].key());
    }
}

/// With distinct keys, the map holds a key exactly where a record has it, with that record.
pub proof fn lemma_keyed_entry<T: Keyed>(s: Seq<T>, k: Seq<char>)
    requires
        distinct_keys(s),
    ensures
        keyed_map(s).contains_key(k) <==> exists|i: int| 0 <= i < s.len() && s[i].key() == k,
        forall|i: int| 0 <= i < s.len() && s[i].key() == k ==> keyed_map(s)[k] == s[i],
{
    lemma_key_position(s, k);
    assert forall|i: int| 0 <= i < s.len() && s[i].key() == k implies keyed_map(s)[k] == s[i] by {
        lemma_distinct_position(s, i);
    }
}

/// Adding a record under a new key adds it to the map.
pub proof fn lemma_keyed_push<T: Keyed>(s: Seq<T>, v: T)
    requires
        distinct_keys(s),
        !keyed_map(s).contains_key(v.key()),
    ensures
        distinct_keys(s.push(v)),
        keyed_map(s.push(v)) == keyed_map(s).insert(v.key(), v),
{
    let t = s.push(v);
    lemma_key_position(s, v.key());
    assert(distinct_keys(t)) by {
        assert forall|i: int, j: int| 0 <= i < j < t.len() implies #[trigger] t[i].key()
            != #[trigger] t[j].key() by {
            if j == s.len() {
                assert(s[i].key() != v.key());
            }
        }
    }
    assert forall|k: Seq<char>| #[trigger] keyed_map(t).contains_key(k) <==> keyed_map(s).insert(
        v.key(),
        v,
    ).contains_key(k) by {
        lemma_keyed_entry(s, k);
        lemma_keyed_entry(t, k);
        if exists|i: int| 0 <= i < t.len() && t[i].key() == k {
            let i = choose|i: int| 0 <= i < t.len() && t[i].key() == k;
            if i < s.len() {
                assert(s[i].key() == k);
            }
        }
        if exists|i: int| 0 <= i < s.len() && s[i].key() == k {
            let i = choose|i: int| 0 <= i < s.len() && s[i].key() == k;
            assert(t[i].key() == k);
        }
        assert(t[s.len() as int].key() == v.key());
    }
    assert forall|k: Seq<char>| #[trigger] keyed_map(t).contains_key(k) implies keyed_map(t)[k]
        == keyed_map(s).insert(v.key(), v)[k] by {
        lemma_keyed_entry(s, k);
        lemma_keyed_entry(t, k);
        if k == v.key() {
            assert(t[s.len() as int] == v);
        } else {
            let i = choose|i: int| 0 <= i < t.len() && t[i].key() == k;
            assert(i < s.len());
            assert(t[i] == s[i]);
        }
    }
    assert(keyed_map(t) =~= keyed_map(s).insert(v.key(), v));
}

/// Replacing a record by one with the same key replaces it in the map.
pub proof fn lemma_keyed_update<T: Keyed>(s: Seq<T>, p: int, v: T)
    requires
        distinct_keys(s),
        0 <= p < s.len(),
        v.key() == s[p].key(),
    ensures
        distinct_keys(s.update(p, v)),
        keyed_map(s.update(p, v)) == keyed_map(s).insert(v.key(), v),
{
    let t = s.update(p, v);
    assert(distinct_keys(t)) by {
        assert forall|i: int, j: int| 0 <= i < j < t.len() implies #[trigger] t[i].key()
            != #[trigger] t[j].key() by {
            assert(t[i].key() == s[i].key());
            assert(t[j].key() == s[j].key());
        }
    }
    assert forall|k: Seq<char>| #[trigger] keyed_map(t).contains_key(k) <==> keyed_map(s).insert(
        v.key(),
        v,
    ).contains_key(k) by {
        lemma_keyed_entry(s, k);
        lemma_keyed_entry(t, k);
        if exists|i: int| 0 <= i < t.len() && t[i].key() == k {
            let i = choose|i: int| 0 <= i < t.len() && t[i].key() == k;
            assert(s[i].key() == k);
        }
        if exists|i: int| 0 <= i < s.len() && s[i].key() == k {
            let i = choose|i: int| 0 <= i < s.len() && s[i].key() == k;
            assert(t[i].key() == k);
        }
        assert(t[p].key() == v.key());
    }
    assert forall|k: Seq<char>| #[trigger] keyed_map(t).contains_key(k) implies keyed_map(t)[k]
        == keyed_map(s).insert(v.key(), v)[k] by {
        lemma_keyed_entry(s, k);
        lemma_keyed_entry(t, k);
        let i = choose|i: int| 0 <= i < t.len() && t[i].key() == k;
        if i == p {
            assert(t[p] == v);
        } else {
            assert(t[i] == s[i]);
            assert(k != v.key());
        }
    }
    assert(keyed_map(t) =~= keyed_map(s).insert(v.key(), v));
}

/// Removing a record removes its key from the map.
pub proof fn lemma_keyed_remove<T: Keyed>(s: Seq<T>, p: int)
    requires
        distinct_keys(s),
        0 <= p < s.len(),
    ensures
        distinct_keys(s.remove(p)),
        keyed_map(s.remove(p)) == keyed_map(s).remove(s[p].key()),
{
    let t = s.remove(p);
    let gone = s[p].key();
    assert forall|i: int| 0 <= i < t.len() implies #[trigger] t[i] == (if i < p {
        s[i]
    } else {
        s[i + 1]
    }) by {}
    assert(distinct_keys(t)) by {
        assert forall|i: int, j: int| 0 <= i < j < t.len() implies #[trigger] t[i].key()
            != #[trigger] t[j].key() by {
            let a = if i < p {
                i
            } else {
                i + 1
            };
            let b = if j < p {
                j
            } else {
                j + 1
            };
            assert(t[i] == s[a] && t[j] == s[b]);
        }
    }
    assert forall|k: Seq<char>| #[trigger] keyed_map(t).contains_key(k) <==> keyed_map(s).remove(
        gone,
    ).contains_key(k) by {
        lemma_keyed_entry(s, k);
        lemma_keyed_entry(t, k);
        if exists|i: int| 0 <= i < t.len() && t[i].key() == k {
            let i = choose|i: int| 0 <= i < t.len() && t[i].key() == k;
            let a = if i < p {
                i
            } else {
                i + 1
            };
            assert(t[i] == s[a]);
            assert(s[a].key() == k);
            assert(s[a].key() != s[p].key());
        }
        if exists|i: int| 0 <= i < s.len() && s[i].key() == k && k != gone {
            let i = choose|i: int| 0 <= i < s.len() && s[i].key() == k && k != gone;
            assert(i != p);
            let j = if i < p {
                i
            } else {
                i - 1
            };
            assert(t[j] == s[i]);
        }
    }
    assert forall|k: Seq<char>| #[trigger] keyed_map(t).contains_key(k) implies keyed_map(t)[k]
        == keyed_map(s).remove(gone)[k] by {
        lemma_keyed_entry(s, k);
        lemma_keyed_entry(t, k);
        let i = choose|i: int| 0 <= i < t.len() && t[i].key() == k;
        let a = if i < p {
            i
        } else {
            i + 1
        };
        assert(t[i] == s[a]);
    }
    assert(keyed_map(t) =~= keyed_map(s).remove(gone));
}

/// The position of the record with this key, if any.
pub fn key_index<T: Keyed>(s: &Vec<T>, k: &str) -> (r: Option<usize>)
    ensures
        match r {
            Some(i) => i == key_position(s@, k@),
            None => key_position(s@, k@) < 0,
        },
{
    let mut j: usize = s.len();
    assert(s@.take(j as int) == s@);
    while j > 0
        invariant
            j <= s.len(),
            key_position(s@, k@) == key_position(s@.take(j as int), k@),
        decreases j,
    {
        assert(s@.take(j as int).drop_last() == s@.take(j - 1));
        if str_equal(s[j - 1].key_text(), k) {
            return Some(j - 1);
        }
        j -= 1;
    }
    None
}

/// Takes out the record filed under `k`, if there is one.
pub fn take_keyed<T: Keyed>(s: &mut Vec<T>, k: &str) -> (r: Option<T>)
    requires
        distinct_keys(old(s)@),
    ensures
        distinct_keys(final(s)@),
        keyed_map(final(s)@) == keyed_map(old(s)@).remove(k@),
        r == (if keyed_map(old(s)@).contains_key(k@) {
            Some(keyed_map(old(s)@)[k@])
        } else {
            None::<T>
        }),
{
    proof {
        lemma_key_position(s@, k@);
    }
    match key_index(s, k) {
        Some(i) => {
            proof {
                lemma_keyed_remove(s@, i as int);
            }
            Some(s.remove(i))
        },
        None => {
            assert(keyed_map(s@).remove(k@) =~= keyed_map(s@));
            None
        },
    }
}

/// Files a record under its key, replacing the one filed there.
pub fn put_keyed<T: Keyed>(s: &mut Vec<T>, v: T)
    requires
        distinct_keys(old(s)@),
    ensures
        distinct_keys(final(s)@),
        keyed_map(final(s)@) == keyed_map(old(s)@).insert(v.key(), v),
{
    proof {
        lemma_key_position(s@, v.key());
    }
    let found = key_index(s, v.key_text());
    match found {
        Some(i) => {
            proof {
                lemma_keyed_update(s@, i as int, v);
            }
            s.set(i, v);
        },
        None => {
            proof {
                lemma_keyed_push(s@, v);
            }
            s.push(v);
        },
    }
}

/// Whether the record under `prev` moved to `next`: the key `prev` is gone, `next` holds the
/// same record under its new key, and every other key keeps its record. Without a record
/// under `prev` nothing changes.
pub open spec fn moved<T: Keyed>(
    before: Map<Seq<char>, T>,
    after: Map<Seq<char>, T>,
    prev: Seq<char>,
    next: Seq<char>,
) -> bool {
    if before.contains_key(prev) {
        &&& after.dom() == before.dom().remove(prev).insert(next)
        &&& after[next].key() == next
        &&& after[next].same_but_key(before[prev])
        &&& forall|k: Seq<char>| #[trigger] after.contains_key(k) && k != next ==> after[k] == before[k]
    } else {
        after == before
    }
}

/// Moves the record filed under `prev` to the key `next`, replacing what was filed there.
pub fn move_keyed<T: Keyed>(s: &mut Vec<T>, prev: &str, next: &str)
    requires
        distinct_keys(old(s)@),
    ensures
        distinct_keys(final(s)@),
        moved(keyed_map(old(s)@), keyed_map(final(s)@), prev@, next@),
{
    let ghost before = keyed_map(s@);
    let taken = take_keyed(s, prev);
    if let Some(x) = taken {
        let ghost original = x;
        let y = x.with_key(next.to_string());
        put_keyed(s, y);
        proof {
            let after = keyed_map(s@);
            assert(after == before.remove(prev@).insert(next@, y));
            assert(after.dom() =~= before.dom().remove(prev@).insert(next@));
            assert(original == before[prev@]);
            assert(after[next@] == y);
            assert forall|k: Seq<char>| #[trigger] after.contains_key(k) && k != next@ implies after[k]
                == before[k] by {
                assert(before.remove(prev@).contains_key(k));
            }
        }
    } else {
        assert(keyed_map(s@) =~= before);
    }
}

/// The user position used by the user records is the key position.
pub proof fn lemma_user_position_is_key_position(s: Seq<GitHubUserNode>, login: Seq<char>)
    ensures
        user_position(s, login) == key_position(s, login),
    decreases s.len(),
{
    if s.len() > 0 {
        lemma_user_position_is_key_position(s.drop_last(), login);
    }
}

} // verus!
