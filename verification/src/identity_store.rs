//! The identity store's tables: browser logins that wait for GitHub's callback, and the
//! links from stable GitHub accounts to app users.
use vstd::prelude::*;

use crate::identity::{GitHubConnection, PendingBrowserLogin};
use crate::external::{new_identifier, v4_uuid_text};
use crate::numbers::{integer_text, signed_decimal};
use crate::text::{owned, str_equal};

verus! {

/// The most browser logins the store keeps waiting at once.
pub const MAX_PENDING_BROWSER_LOGINS: usize = 256;

/// A waiting browser login under its opaque OAuth state id.
#[derive(Debug, Clone)]
pub struct PendingEntry {
    pub state_id: String,
    pub pending: PendingBrowserLogin,
}

/// The state ids of a table's entries, in order.
pub open spec fn state_ids(s: Seq<PendingEntry>) -> Seq<Seq<char>> {
    s.map_values(|e: PendingEntry| e.state_id@)
}

/// The login has not expired at `now`.
pub open spec fn unexpired(e: PendingEntry, now: i64) -> bool {
    e.pending.expires_at > now
}

/// The login waiting under `state_id`, if any (the first entry with that id).
pub open spec fn pending_lookup(s: Seq<PendingEntry>, state_id: Seq<char>) -> Option<
    PendingBrowserLogin,
>
    decreases s.len(),
{
    if s.len() == 0 {
        None
    } else if s[0].state_id@ == state_id {
        Some(s[0].pending)
    } else {
        pending_lookup(s.drop_first(), state_id)
    }
}

/// The table after the login under `state_id` was taken out and expired logins dropped.
pub open spec fn after_consume(s: Seq<PendingEntry>, state_id: Seq<char>, now: i64) -> Seq<
    PendingEntry,
> {
    s.filter(other_state(state_id)).filter(live_at(now))
}

/// Entries under another state id than this one.
pub open spec fn other_state(state_id: Seq<char>) -> spec_fn(PendingEntry) -> bool {
    |e: PendingEntry| e.state_id@ != state_id
}

/// Entries that have not expired at `now`.
pub open spec fn live_at(now: i64) -> spec_fn(PendingEntry) -> bool {
    |e: PendingEntry| unexpired(e, now)
}

/// No entry has this state id.
pub open spec fn absent(s: Seq<PendingEntry>, state_id: Seq<char>) -> bool {
    forall|k: int| 0 <= k < s.len() ==> (#[trigger] s[k]).state_id@ != state_id
}

proof fn lemma_lookup_absent(s: Seq<PendingEntry>, state_id: Seq<char>)
    requires
        absent(s, state_id),
    ensures
        pending_lookup(s, state_id) is None,
    decreases s.len(),
{
    if s.len() > 0 {
        assert(s[0].state_id@ != state_id);
        assert forall|k: int| 0 <= k < s.drop_first().len() implies (
        #[trigger] s.drop_first()[k]).state_id@ != state_id by {
            assert(s.drop_first()[k] == s[k + 1]);
        }
        lemma_lookup_absent(s.drop_first(), state_id);
    }
}

proof fn lemma_lookup_last(s: Seq<PendingEntry>, e: PendingEntry)
    requires
        absent(s, e.state_id@),
    ensures
        pending_lookup(s.push(e), e.state_id@) == Some(e.pending),
    decreases s.len(),
{
    if s.len() == 0 {
        assert(s.push(e)[0] == e);
    } else {
        assert(s.push(e)[0] == s[0]);
        assert(s.push(e).drop_first() =~= s.drop_first().push(e));
        assert forall|k: int| 0 <= k < s.drop_first().len() implies (
        #[trigger] s.drop_first()[k]).state_id@ != e.state_id@ by {
            assert(s.drop_first()[k] == s[k + 1]);
        }
        lemma_lookup_last(s.drop_first(), e);
    }
}

/// A filter keeps ids distinct, and keeps only entries that were there.
proof fn lemma_filter_distinct(s: Seq<PendingEntry>, p: spec_fn(PendingEntry) -> bool)
    requires
        state_ids(s).no_duplicates(),
    ensures
        state_ids(s.filter(p)).no_duplicates(),
        forall|x: PendingEntry| #[trigger] s.filter(p).contains(x) ==> s.contains(x) && p(x),
    decreases s.len(),
{
    if s.len() > 0 {
        let rest = s.drop_last();
        assert(s == rest.push(s.last()));
        rest.lemma_filter_push(s.last(), p);
        assert(state_ids(rest) == state_ids(s).drop_last());
        lemma_filter_distinct(rest, p);
        let f = rest.filter(p);
        if p(s.last()) {
            assert(s.filter(p) == f.push(s.last()));
            assert forall|x: PendingEntry| #[trigger] s.filter(p).contains(x) implies s.contains(x)
                && p(x) by {
                if x != s.last() {
                    let k = choose|k: int| 0 <= k < s.filter(p).len() && s.filter(p)[k] == x;
                    assert(f[k] == x);
                    assert(f.contains(x));
                    let j = choose|j: int| 0 <= j < rest.len() && rest[j] == x;
                    assert(s[j] == x);
                } else {
                    assert(s[s.len() - 1] == x);
                }
            }
            assert forall|a: int, b: int|
                0 <= a < b < state_ids(s.filter(p)).len() implies state_ids(s.filter(p))[a]
                != state_ids(s.filter(p))[b] by {
                if b == f.len() {
                    assert(f.contains(f[a]));
                    let j = choose|j: int| 0 <= j < rest.len() && rest[j] == f[a];
                    assert(state_ids(s)[j] == f[a].state_id@);
                    assert(state_ids(s)[s.len() - 1] == s.last().state_id@);
                } else {
                    assert(state_ids(f)[a] != state_ids(f)[b]);
                }
            }
        } else {
            assert(s.filter(p) == f);
            assert forall|x: PendingEntry| #[trigger] s.filter(p).contains(x) implies s.contains(x)
                && p(x) by {
                let j = choose|j: int| 0 <= j < rest.len() && rest[j] == x;
                assert(s[j] == x);
            }
        }
    }
}

/// The browser logins waiting for their callback, one per state id.
#[derive(Debug, Clone)]
pub struct PendingLogins {
    pub entries: Vec<PendingEntry>,
}

impl PendingLogins {
    pub open spec fn wf(&self) -> bool {
        state_ids(self.entries@).no_duplicates()
    }

    pub fn new() -> (r: Self)
        ensures
            r.wf(),
            r.entries@.len() == 0,
    {
        let r = PendingLogins { entries: Vec::new() };
        assert(state_ids(r.entries@) =~= Seq::<Seq<char>>::empty());
        r
    }

    /// Drops the logins that expired at `now`; says whether any was dropped.
    pub fn purge_expired(&mut self, now: i64) -> (r: bool)
        requires
            old(self).wf(),
        ensures
            final(self).wf(),
            final(self).entries@ == old(self).entries@.filter(|e: PendingEntry| unexpired(e, now)),
            r == (final(self).entries@.len() != old(self).entries@.len()),
    {
        let ghost start = self.entries@;
        let mut rest: Vec<PendingEntry> = Vec::new();
        std::mem::swap(&mut rest, &mut self.entries);
        let n = rest.len();
        let mut kept: Vec<PendingEntry> = Vec::new();
        while rest.len() > 0
            invariant
                rest.len() <= n,
                n == start.len(),
                rest@ == start.skip(n - rest.len()),
                kept@ == start.take(n - rest.len()).filter(|e: PendingEntry| unexpired(e, now)),
            decreases rest.len(),
        {
            let ghost i: int = n - rest.len();
            let e = rest.remove(0);
            proof {
                assert(e == start[i]);
                assert(rest@ =~= start.skip(i + 1));
                assert(start.take(i + 1) == start.take(i).push(e));
                start.take(i).lemma_filter_push(e, |x: PendingEntry| unexpired(x, now));
            }
            if e.pending.expires_at > now {
                kept.push(e);
            }
        }
        assert(start.take(n as int) == start);
        proof {
            lemma_filter_distinct(start, |x: PendingEntry| unexpired(x, now));
        }
        let changed = kept.len() != n;
        self.entries = kept;
        changed
    }

    /// Takes out the login waiting under `state_id`, if any.
    pub fn remove_state(&mut self, state_id: &str) -> (r: Option<PendingBrowserLogin>)
        requires
            old(self).wf(),
        ensures
            final(self).wf(),
            final(self).entries@ == old(self).entries@.filter(
                |e: PendingEntry| e.state_id@ != state_id@,
            ),
            r == pending_lookup(old(self).entries@, state_id@),
    {
        let ghost start = self.entries@;
        let mut rest: Vec<PendingEntry> = Vec::new();
        std::mem::swap(&mut rest, &mut self.entries);
        let n = rest.len();
        let mut kept: Vec<PendingEntry> = Vec::new();
        let mut found: Option<PendingBrowserLogin> = None;
        assert(start.skip(0) == start);
        while rest.len() > 0
            invariant
                rest.len() <= n,
                n == start.len(),
                rest@ == start.skip(n - rest.len()),
                kept@ == start.take(n - rest.len()).filter(
                    |e: PendingEntry| e.state_id@ != state_id@,
                ),
                found is None ==> pending_lookup(start, state_id@) == pending_lookup(
                    start.skip(n - rest.len()),
                    state_id@,
                ),
                found is Some ==> pending_lookup(start, state_id@) == found,
            decreases rest.len(),
        {
            let ghost i: int = n - rest.len();
            let e = rest.remove(0);
            proof {
                assert(e == start[i]);
                assert(rest@ =~= start.skip(i + 1));
                assert(start.skip(i).drop_first() =~= start.skip(i + 1));
                assert(start.skip(i)[0] == e);
                assert(start.take(i + 1) == start.take(i).push(e));
                start.take(i).lemma_filter_push(e, |x: PendingEntry| x.state_id@ != state_id@);
            }
            if str_equal(e.state_id.as_str(), state_id) {
                if found.is_none() {
                    found = Some(e.pending);
                }
            } else {
                kept.push(e);
            }
        }
        assert(start.take(n as int) == start);
        proof {
            lemma_filter_distinct(start, |x: PendingEntry| x.state_id@ != state_id@);
            if found is None {
                assert(start.skip(n as int) =~= Seq::<PendingEntry>::empty());
            }
        }
        self.entries = kept;
        found
    }
}

impl PendingLogins {
    /// Keeps at most `limit` logins, dropping those started first; says whether any was
    /// dropped.
    pub fn trim_to(&mut self, limit: usize) -> (r: bool)
        requires
            old(self).wf(),
        ensures
            final(self).wf(),
            r == (old(self).entries@.len() > limit),
            final(self).entries@.len() == if old(self).entries@.len() > limit {
                limit as int
            } else {
                old(self).entries@.len() as int
            },
            !r ==> final(self).entries@ == old(self).entries@,
            forall|x: PendingEntry| #[trigger]
                final(self).entries@.contains(x) ==> old(self).entries@.contains(x),
            forall|x: PendingEntry, y: PendingEntry|
                #[trigger] old(self).entries@.contains(x) && !final(self).entries@.contains(x)
                    && #[trigger] final(self).entries@.contains(y) ==> x.pending.created_at
                    <= y.pending.created_at,
    {
        if self.entries.len() <= limit {
            return false;
        }
        let ghost start = self.entries@;
        while self.entries.len() > limit
            invariant
                self.wf(),
                self.entries.len() >= limit,
                forall|x: PendingEntry| #[trigger] self.entries@.contains(x) ==> start.contains(x),
                forall|x: PendingEntry, y: PendingEntry|
                    #[trigger] start.contains(x) && !self.entries@.contains(x)
                        && #[trigger] self.entries@.contains(y) ==> x.pending.created_at
                        <= y.pending.created_at,
            decreases self.entries.len(),
        {
            let ghost cur = self.entries@;
            let mut m: usize = 0;
            let mut i: usize = 1;
            while i < self.entries.len()
                invariant
                    cur == self.entries@,
                    self.entries.len() > limit,
                    m < self.entries.len(),
                    1 <= i <= self.entries.len(),
                    m < i,
                    forall|j: int|
                        0 <= j < i ==> cur[m as int].pending.created_at
                            <= #[trigger] cur[j].pending.created_at,
                decreases self.entries.len() - i,
            {
                if self.entries[i].pending.created_at < self.entries[m].pending.created_at {
                    m = i;
                }
                i += 1;
            }
            self.entries.remove(m);
            proof {
                let now_s = self.entries@;
                assert(now_s =~= cur.remove(m as int));
                assert(state_ids(now_s) =~= state_ids(cur).remove(m as int));
                assert forall|x: PendingEntry| #[trigger] now_s.contains(x) implies start.contains(
                    x,
                ) by {
                    let k = choose|k: int| 0 <= k < now_s.len() && now_s[k] == x;
                    if k < m {
                        assert(cur[k] == x);
                    } else {
                        assert(cur[k + 1] == x);
                    }
                    assert(cur.contains(x));
                }
                assert forall|x: PendingEntry, y: PendingEntry|
                    #[trigger] start.contains(x) && !now_s.contains(x)
                        && #[trigger] now_s.contains(y) implies x.pending.created_at
                    <= y.pending.created_at by {
                    let ky = choose|k: int| 0 <= k < now_s.len() && now_s[k] == y;
                    let jy = if ky < m {
                        ky
                    } else {
                        ky + 1
                    };
                    assert(cur[jy] == y);
                    assert(cur.contains(y));
                    if cur.contains(x) {
                        let kx = choose|k: int| 0 <= k < cur.len() && cur[k] == x;
                        if kx != m {
                            let jx = if kx < m {
                                kx
                            } else {
                                kx - 1
                            };
                            assert(now_s[jx] == x);
                        }
                        assert(cur[m as int].pending.created_at <= cur[jy].pending.created_at);
                    }
                }
            }
        }
        true
    }

    /// Stores a login to wait under `state_id`: expired logins and any login under the same
    /// id go first, and the oldest make room so the table stays within its bound.
    pub fn save(&mut self, state_id: &str, pending: PendingBrowserLogin, now: i64)
        requires
            old(self).wf(),
        ensures
            final(self).wf(),
            final(self).entries@.len() <= MAX_PENDING_BROWSER_LOGINS,
            pending_lookup(final(self).entries@, state_id@) == Some(pending),
            forall|x: PendingEntry| #[trigger]
                final(self).entries@.contains(x) && x.state_id@ != state_id@
                    ==> old(self).entries@.contains(x) && unexpired(x, now),
    {
        let ghost start = self.entries@;
        self.purge_expired(now);
        let ghost purged = self.entries@;
        self.remove_state(state_id);
        let ghost without = self.entries@;
        self.trim_to(MAX_PENDING_BROWSER_LOGINS - 1);
        let ghost trimmed = self.entries@;
        proof {
            lemma_filter_distinct(start, |x: PendingEntry| unexpired(x, now));
            lemma_filter_distinct(purged, |x: PendingEntry| x.state_id@ != state_id@);
            assert forall|x: PendingEntry| #[trigger] trimmed.contains(x) implies start.contains(x)
                && unexpired(x, now) && x.state_id@ != state_id@ by {
                assert(without.contains(x));
                assert(purged.contains(x));
            }
        }
        let entry = PendingEntry { state_id: state_id.to_owned(), pending };
        let ghost e = entry;
        self.entries.push(entry);
        proof {
            assert(self.entries@ == trimmed.push(e));
            assert forall|k: int| 0 <= k < trimmed.len() implies (
            #[trigger] trimmed[k]).state_id@ != e.state_id@ by {
                assert(trimmed.contains(trimmed[k]));
            }
            lemma_lookup_last(trimmed, e);
            assert(state_ids(self.entries@) == state_ids(trimmed).push(state_id@));
            assert forall|a: int, b: int|
                0 <= a < b < state_ids(self.entries@).len() implies state_ids(self.entries@)[a]
                != state_ids(self.entries@)[b] by {
                if b == trimmed.len() {
                    assert(trimmed[a].state_id@ != e.state_id@);
                } else {
                    assert(state_ids(trimmed)[a] != state_ids(trimmed)[b]);
                }
            }
            assert forall|x: PendingEntry| #[trigger]
                self.entries@.contains(x) && x.state_id@ != state_id@ implies start.contains(x)
                && unexpired(x, now) by {
                let k = choose|k: int| 0 <= k < self.entries@.len() && self.entries@[k] == x;
                if k < trimmed.len() {
                    assert(trimmed[k] == x);
                    assert(trimmed.contains(x));
                }
            }
        }
    }

    /// Takes out the login waiting under `state_id`, whether or not it has expired, so that
    /// a state serves one callback only, and drops the logins that expired at `now`. Gives
    /// the login, and whether the table changed.
    pub fn consume(&mut self, state_id: &str, now: i64) -> (r: (Option<PendingBrowserLogin>, bool))
        requires
            old(self).wf(),
        ensures
            final(self).wf(),
            r.0 == pending_lookup(old(self).entries@, state_id@),
            final(self).entries@ == after_consume(old(self).entries@, state_id@, now),
            r.1 == (final(self).entries@ != old(self).entries@),
            pending_lookup(final(self).entries@, state_id@) is None,
    {
        let ghost start = self.entries@;
        let taken = self.remove_state(state_id);
        let ghost without = self.entries@;
        let purged = self.purge_expired(now);
        proof {
            lemma_filter_distinct(start, |x: PendingEntry| x.state_id@ != state_id@);
            lemma_filter_distinct(without, |x: PendingEntry| unexpired(x, now));
            assert forall|k: int| 0 <= k < self.entries@.len() implies (
            #[trigger] self.entries@[k]).state_id@ != state_id@ by {
                assert(self.entries@.contains(self.entries@[k]));
                assert(without.contains(self.entries@[k]));
            }
            lemma_lookup_absent(self.entries@, state_id@);
            if taken is Some {
                assert(pending_lookup(start, state_id@) is Some);
                lemma_lookup_found(start, state_id@);
                let k = choose|k: int| 0 <= k < start.len() && start[k].state_id@ == state_id@;
                assert(!self.entries@.contains(start[k]));
                assert(self.entries@ != start);
            }
            if !purged {
                assert(self.entries@.len() == without.len());
                if taken is None {
                    lemma_absent_of_none(start, state_id@);
                    assert(without =~= start) by {
                        lemma_filter_all(start, |x: PendingEntry| x.state_id@ != state_id@);
                    }
                    assert(self.entries@ =~= without) by {
                        lemma_filter_same_len(without, |x: PendingEntry| unexpired(x, now));
                    }
                }
            } else {
                assert(self.entries@.len() != without.len());
                assert(without.len() <= start.len()) by {
                    start.lemma_filter_len(|x: PendingEntry| x.state_id@ != state_id@);
                }
                assert(self.entries@ != start);
            }
        }
        let changed = taken.is_some() || purged;
        (taken, changed)
    }

    /// Brings the table up to date at `now`: expired logins go and the table is trimmed to
    /// its bound. Says whether anything changed.
    pub fn normalize(&mut self, now: i64) -> (r: bool)
        requires
            old(self).wf(),
        ensures
            final(self).wf(),
            final(self).entries@.len() <= MAX_PENDING_BROWSER_LOGINS,
            forall|x: PendingEntry| #[trigger]
                final(self).entries@.contains(x) ==> old(self).entries@.contains(x) && unexpired(
                    x,
                    now,
                ),
            r == (final(self).entries@ != old(self).entries@),
    {
        let ghost start = self.entries@;
        let purged = self.purge_expired(now);
        let ghost alive = self.entries@;
        let trimmed = self.trim_to(MAX_PENDING_BROWSER_LOGINS);
        proof {
            lemma_filter_distinct(start, |x: PendingEntry| unexpired(x, now));
            if purged {
                assert(self.entries@.len() <= alive.len());
                assert(alive.len() <= start.len()) by {
                    start.lemma_filter_len(|x: PendingEntry| unexpired(x, now));
                }
                assert(self.entries@ != start);
            } else if trimmed {
                assert(self.entries@.len() < alive.len());
                assert(self.entries@ != start);
            } else {
                assert(alive =~= start) by {
                    lemma_filter_same_len(start, |x: PendingEntry| unexpired(x, now));
                }
            }
        }
        purged || trimmed
    }
}

proof fn lemma_lookup_found(s: Seq<PendingEntry>, state_id: Seq<char>)
    requires
        pending_lookup(s, state_id) is Some,
    ensures
        exists|k: int| 0 <= k < s.len() && s[k].state_id@ == state_id,
    decreases s.len(),
{
    if s[0].state_id@ != state_id {
        lemma_lookup_found(s.drop_first(), state_id);
        let k = choose|k: int| 0 <= k < s.drop_first().len() && s.drop_first()[k].state_id@ == state_id;
        assert(s[k + 1] == s.drop_first()[k]);
    }
}

proof fn lemma_absent_of_none(s: Seq<PendingEntry>, state_id: Seq<char>)
    requires
        pending_lookup(s, state_id) is None,
    ensures
        absent(s, state_id),
    decreases s.len(),
{
    if s.len() > 0 {
        lemma_absent_of_none(s.drop_first(), state_id);
        assert forall|k: int| 0 <= k < s.len() implies (#[trigger] s[k]).state_id@ != state_id by {
            if k > 0 {
                assert(s[k] == s.drop_first()[k - 1]);
            }
        }
    }
}

/// A filter that every element passes changes nothing.
proof fn lemma_filter_all(s: Seq<PendingEntry>, p: spec_fn(PendingEntry) -> bool)
    requires
        forall|k: int| 0 <= k < s.len() ==> p(#[trigger] s[k]),
    ensures
        s.filter(p) == s,
    decreases s.len(),
{
    if s.len() > 0 {
        let rest = s.drop_last();
        assert(s == rest.push(s.last()));
        rest.lemma_filter_push(s.last(), p);
        assert forall|k: int| 0 <= k < rest.len() implies p(#[trigger] rest[k]) by {
            assert(rest[k] == s[k]);
        }
        lemma_filter_all(rest, p);
        assert(p(s[s.len() - 1]));
    } else {
        assert(s.filter(p) =~= s);
    }
}

/// A filter that keeps the length keeps everything.
proof fn lemma_filter_same_len(s: Seq<PendingEntry>, p: spec_fn(PendingEntry) -> bool)
    requires
        s.filter(p).len() == s.len(),
    ensures
        s.filter(p) == s,
    decreases s.len(),
{
    if s.len() > 0 {
        let rest = s.drop_last();
        assert(s == rest.push(s.last()));
        rest.lemma_filter_push(s.last(), p);
        rest.lemma_filter_len(p);
        if p(s.last()) {
            lemma_filter_same_len(rest, p);
        } else {
            assert(false);
        }
    } else {
        assert(s.filter(p) =~= s);
    }
}

/// An app user's stored GitHub connection.
#[derive(Debug, Clone)]
pub struct ConnectionEntry {
    pub user_id: String,
    pub connection: GitHubConnection,
}

/// A link from a stable GitHub account id, as decimal text, to the app user it belongs to.
#[derive(Debug, Clone)]
pub struct AccountLink {
    pub github_user_id: String,
    pub user_id: String,
}

/// The links as pairs of texts.
pub open spec fn link_views(s: Seq<AccountLink>) -> Seq<(Seq<char>, Seq<char>)> {
    s.map_values(|l: AccountLink| (l.github_user_id@, l.user_id@))
}

/// The app user a GitHub account id is linked to, if any (the first link for it).
pub open spec fn linked_user(s: Seq<(Seq<char>, Seq<char>)>, github_user_id: Seq<char>) -> Option<
    Seq<char>,
>
    decreases s.len(),
{
    if s.len() == 0 {
        None
    } else if s[0].0 == github_user_id {
        Some(s[0].1)
    } else {
        linked_user(s.drop_first(), github_user_id)
    }
}

/// The connection stored for an app user, if any (the first entry for it).
pub open spec fn stored_connection(s: Seq<ConnectionEntry>, user_id: Seq<char>) -> Option<
    GitHubConnection,
>
    decreases s.len(),
{
    if s.len() == 0 {
        None
    } else if s[0].user_id@ == user_id {
        Some(s[0].connection)
    } else {
        stored_connection(s.drop_first(), user_id)
    }
}

/// The preferred user is already linked to another GitHub account.
pub open spec fn linked_elsewhere(
    links: Seq<(Seq<char>, Seq<char>)>,
    preferred: Seq<char>,
    github_user_id: Seq<char>,
) -> bool {
    exists|k: int| 0 <= k < links.len() && (#[trigger] links[k]).1 == preferred && links[k].0 != github_user_id
}

/// The preferred user holds a connection to another GitHub account.
pub open spec fn connected_elsewhere(
    connections: Seq<ConnectionEntry>,
    preferred: Seq<char>,
    github_user_id: i64,
) -> bool {
    match stored_connection(connections, preferred) {
        Some(c) => c.account.github_user_id != github_user_id,
        None => false,
    }
}

/// The app user a browser login with `connection` belongs to: the user its GitHub account
/// is linked to; else the preferred user, unless that user belongs to another GitHub
/// account, in which case the fresh user id.
pub open spec fn canonical_user(
    links: Seq<(Seq<char>, Seq<char>)>,
    connections: Seq<ConnectionEntry>,
    preferred: Seq<char>,
    connection: GitHubConnection,
    fresh: Seq<char>,
) -> Seq<char> {
    let gid = signed_decimal(connection.account.github_user_id as int);
    match linked_user(links, gid) {
        Some(user) => user,
        None => if linked_elsewhere(links, preferred, gid) || connected_elsewhere(
            connections,
            preferred,
            connection.account.github_user_id,
        ) {
            fresh
        } else {
            preferred
        },
    }
}

fn find_link(links: &Vec<AccountLink>, github_user_id: &str) -> (r: Option<String>)
    ensures
        match r {
            Some(u) => linked_user(link_views(links@), github_user_id@) == Some(u@),
            None => linked_user(link_views(links@), github_user_id@) is None,
        },
{
    let ghost s = link_views(links@);
    let mut i: usize = 0;
    assert(s.skip(0) =~= s);
    while i < links.len()
        invariant
            i <= links.len(),
            s == link_views(links@),
            linked_user(s, github_user_id@) == linked_user(s.skip(i as int), github_user_id@),
        decreases links.len() - i,
    {
        assert(s.skip(i as int)[0] == s[i as int]);
        assert(s.skip(i as int).drop_first() =~= s.skip(i + 1));
        if str_equal(links[i].github_user_id.as_str(), github_user_id) {
            return Some(links[i].user_id.clone());
        }
        i += 1;
    }
    assert(s.skip(i as int) =~= Seq::<(Seq<char>, Seq<char>)>::empty());
    None
}

fn any_link_elsewhere(links: &Vec<AccountLink>, preferred: &str, github_user_id: &str) -> (r: bool)
    ensures
        r == linked_elsewhere(link_views(links@), preferred@, github_user_id@),
{
    let ghost s = link_views(links@);
    let mut i: usize = 0;
    while i < links.len()
        invariant
            i <= links.len(),
            s == link_views(links@),
            forall|k: int| 0 <= k < i ==> !((#[trigger] s[k]).1 == preferred@ && s[k].0 != github_user_id@),
        decreases links.len() - i,
    {
        if str_equal(links[i].user_id.as_str(), preferred) && !str_equal(
            links[i].github_user_id.as_str(),
            github_user_id,
        ) {
            assert(s[i as int].1 == preferred@ && s[i as int].0 != github_user_id@);
            return true;
        }
        i += 1;
    }
    false
}

fn other_connection(connections: &Vec<ConnectionEntry>, preferred: &str, github_user_id: i64) -> (r:
    bool)
    ensures
        r == connected_elsewhere(connections@, preferred@, github_user_id),
{
    let ghost s = connections@;
    let mut i: usize = 0;
    assert(s.skip(0) =~= s);
    while i < connections.len()
        invariant
            i <= connections.len(),
            s == connections@,
            stored_connection(s, preferred@) == stored_connection(s.skip(i as int), preferred@),
        decreases connections.len() - i,
    {
        assert(s.skip(i as int)[0] == s[i as int]);
        assert(s.skip(i as int).drop_first() =~= s.skip(i + 1));
        if str_equal(connections[i].user_id.as_str(), preferred) {
            return connections[i].connection.account.github_user_id != github_user_id;
        }
        i += 1;
    }
    assert(s.skip(i as int) =~= Seq::<ConnectionEntry>::empty());
    false
}

proof fn lemma_linked_user_push(
    s: Seq<(Seq<char>, Seq<char>)>,
    github_user_id: Seq<char>,
    user: Seq<char>,
)
    requires
        linked_user(s, github_user_id) is None,
    ensures
        linked_user(s.push((github_user_id, user)), github_user_id) == Some(user),
    decreases s.len(),
{
    if s.len() == 0 {
        assert(s.push((github_user_id, user))[0] == (github_user_id, user));
    } else {
        assert(s.push((github_user_id, user))[0] == s[0]);
        assert(s.push((github_user_id, user)).drop_first() =~= s.drop_first().push(
            (github_user_id, user),
        ));
        lemma_linked_user_push(s.drop_first(), github_user_id, user);
    }
}

/// Links the GitHub account of a finished browser login to an app user and gives that user:
/// the user the account is already linked to, else the preferred user, unless it belongs to
/// another GitHub account, in which case `fresh_user_id`. A new link is recorded.
pub fn canonical_browser_user_with(
    links: &mut Vec<AccountLink>,
    connections: &Vec<ConnectionEntry>,
    preferred_user_id: &str,
    connection: &GitHubConnection,
    fresh_user_id: &str,
) -> (r: String)
    ensures
        r@ == canonical_user(
            link_views(old(links)@),
            connections@,
            preferred_user_id@,
            *connection,
            fresh_user_id@,
        ),
        linked_user(
            link_views(old(links)@),
            signed_decimal(connection.account.github_user_id as int),
        ) is Some ==> final(links)@ == old(links)@,
        linked_user(
            link_views(old(links)@),
            signed_decimal(connection.account.github_user_id as int),
        ) is None ==> link_views(final(links)@) == link_views(old(links)@).push(
            (signed_decimal(connection.account.github_user_id as int), r@),
        ),
        linked_user(link_views(final(links)@), signed_decimal(connection.account.github_user_id as int))
            == Some(r@),
{
    let github_user_id = integer_text(connection.account.github_user_id);
    match find_link(links, github_user_id.as_str()) {
        Some(user_id) => user_id,
        None => {
            let elsewhere = any_link_elsewhere(links, preferred_user_id, github_user_id.as_str());
            let other = other_connection(
                connections,
                preferred_user_id,
                connection.account.github_user_id,
            );
            let chosen = if elsewhere || other {
                owned(fresh_user_id)
            } else {
                owned(preferred_user_id)
            };
            let ghost before = link_views(links@);
            let link = AccountLink { github_user_id, user_id: chosen.clone() };
            links.push(link);
            proof {
                assert(link_views(links@) == before.push((link.github_user_id@, link.user_id@)));
                lemma_linked_user_push(before, link.github_user_id@, chosen@);
            }
            chosen
        },
    }
}

/// Links the GitHub account of a finished browser login to an app user, as
/// `canonical_browser_user_with` does, drawing a new random user id, a version 4 UUID, for
/// the case that needs one.
pub fn canonical_browser_user(
    links: &mut Vec<AccountLink>,
    connections: &Vec<ConnectionEntry>,
    preferred_user_id: &str,
    connection: &GitHubConnection,
) -> (r: String)
    ensures
        exists|fresh: Seq<char>|
            v4_uuid_text(fresh) && r@ == canonical_user(
                link_views(old(links)@),
                connections@,
                preferred_user_id@,
                *connection,
                fresh,
            ),
        linked_user(
            link_views(old(links)@),
            signed_decimal(connection.account.github_user_id as int),
        ) is Some ==> final(links)@ == old(links)@,
        linked_user(
            link_views(old(links)@),
            signed_decimal(connection.account.github_user_id as int),
        ) is None ==> link_views(final(links)@) == link_views(old(links)@).push(
            (signed_decimal(connection.account.github_user_id as int), r@),
        ),
        linked_user(link_views(final(links)@), signed_decimal(connection.account.github_user_id as int))
            == Some(r@),
{
    let fresh = new_identifier();
    canonical_browser_user_with(links, connections, preferred_user_id, connection, fresh.as_str())
}

/// Reconnecting the same stable GitHub account reuses its app user: once a login has linked
/// an account, every later login with that account is given the same user, whatever user
/// it prefers and whatever fresh id is at hand.
pub proof fn law_reconnect_keeps_app_user(
    links: Seq<(Seq<char>, Seq<char>)>,
    connections: Seq<ConnectionEntry>,
    preferred: Seq<char>,
    connection: GitHubConnection,
    fresh: Seq<char>,
    later_connections: Seq<ConnectionEntry>,
    later_preferred: Seq<char>,
    later_fresh: Seq<char>,
)
    ensures
        ({
            let gid = signed_decimal(connection.account.github_user_id as int);
            let first = canonical_user(links, connections, preferred, connection, fresh);
            let after = if linked_user(links, gid) is Some {
                links
            } else {
                links.push((gid, first))
            };
            canonical_user(after, later_connections, later_preferred, connection, later_fresh)
                == first
        }),
{
    let gid = signed_decimal(connection.account.github_user_id as int);
    let first = canonical_user(links, connections, preferred, connection, fresh);
    if linked_user(links, gid) is None {
        lemma_linked_user_push(links, gid, first);
    }
}

/// An OAuth state serves one callback: whatever login the table held under a state id, once
/// a consume has taken it out, nothing is left under that id for another consume to find.
pub proof fn law_browser_login_state_is_used_once(
    entries: Seq<PendingEntry>,
    state_id: Seq<char>,
    now: i64,
)
    ensures
        pending_lookup(after_consume(entries, state_id, now), state_id) is None,
{
    let f = after_consume(entries, state_id, now);
    let g = entries.filter(other_state(state_id));
    assert forall|k: int| 0 <= k < f.len() implies (#[trigger] f[k]).state_id@ != state_id by {
        lemma_filter_members(g, live_at(now), k);
        let x = f[k];
        let j = choose|j: int| 0 <= j < g.len() && g[j] == x;
        lemma_filter_members(entries, other_state(state_id), j);
    }
    lemma_lookup_absent(f, state_id);
}

proof fn lemma_filter_members(s: Seq<PendingEntry>, p: spec_fn(PendingEntry) -> bool, k: int)
    requires
        0 <= k < s.filter(p).len(),
    ensures
        p(s.filter(p)[k]),
        s.contains(s.filter(p)[k]),
    decreases s.len(),
{
    s.lemma_filter_pred(p, k);
    s.lemma_filter_len(p);
    let rest = s.drop_last();
    assert(s == rest.push(s.last()));
    rest.lemma_filter_push(s.last(), p);
    if p(s.last()) && k == rest.filter(p).len() {
        assert(s.filter(p)[k] == s.last());
        assert(s[s.len() - 1] == s.last());
    } else {
        assert(s.filter(p)[k] == rest.filter(p)[k]);
        lemma_filter_members(rest, p, k);
        let j = choose|j: int| 0 <= j < rest.len() && rest[j] == rest.filter(p)[k];
        assert(s[j] == rest[j]);
    }
}

/// The links after every connection, in order, whose GitHub account had no link yet was
/// linked to the app user that holds it.
pub open spec fn connections_linked(
    links: Seq<(Seq<char>, Seq<char>)>,
    connections: Seq<ConnectionEntry>,
) -> Seq<(Seq<char>, Seq<char>)>
    decreases connections.len(),
{
    if connections.len() == 0 {
        links
    } else {
        let before = connections_linked(links, connections.drop_last());
        let c = connections.last();
        let gid = signed_decimal(c.connection.account.github_user_id as int);
        if linked_user(before, gid) is Some {
            before
        } else {
            before.push((gid, c.user_id@))
        }
    }
}

/// Links every stored connection's GitHub account that has no link yet to the app user
/// holding the connection, as data written before links existed needs; says whether any
/// link was added.
pub fn link_connected_accounts(links: &mut Vec<AccountLink>, connections: &Vec<ConnectionEntry>) -> (r:
    bool)
    ensures
        link_views(final(links)@) == connections_linked(link_views(old(links)@), connections@),
        r == (final(links)@.len() != old(links)@.len()),
{
    let ghost start = link_views(links@);
    let n0 = links.len();
    let mut i: usize = 0;
    assert(connections@.take(0) =~= Seq::<ConnectionEntry>::empty());
    while i < connections.len()
        invariant
            i <= connections.len(),
            links@.len() >= n0,
            link_views(links@) == connections_linked(start, connections@.take(i as int)),
        decreases connections.len() - i,
    {
        proof {
            assert(connections@.take(i + 1).drop_last() =~= connections@.take(i as int));
            assert(connections@.take(i + 1).last() == connections@[i as int]);
        }
        let github_user_id = integer_text(connections[i].connection.account.github_user_id);
        match find_link(links, github_user_id.as_str()) {
            Some(_) => {},
            None => {
                let ghost before = link_views(links@);
                let link = AccountLink {
                    github_user_id,
                    user_id: connections[i].user_id.clone(),
                };
                links.push(link);
                proof {
                    assert(link_views(links@) == before.push((link.github_user_id@, link.user_id@)));
                }
            },
        }
        i += 1;
    }
    assert(connections@.take(connections.len() as int) =~= connections@);
    links.len() != n0
}

} // verus!
