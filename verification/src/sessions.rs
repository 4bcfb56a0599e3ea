//! Browser sessions: each maps an opaque session id to an app user until it expires, and the
//! store holds a bounded number of them.
use vstd::prelude::*;

use crate::text::str_equal;

verus! {

/// How long a session lasts: thirty days, in microseconds.
pub const SESSION_TTL_MICROS: i64 = 2_592_000_000_000;

/// The most sessions the store keeps.
pub const MAX_ACTIVE_SESSIONS: usize = 4_096;

/// A stored session; one without an expiry was written by an older release.
#[derive(Debug, Clone)]
pub struct StoredSession {
    pub id: String,
    pub user_id: String,
    pub expires_at: Option<i64>,
}

pub ghost struct SessionView {
    pub id: Seq<char>,
    pub user_id: Seq<char>,
    pub expires_at: Option<i64>,
}

impl View for StoredSession {
    type V = SessionView;

    open spec fn view(&self) -> SessionView {
        SessionView { id: self.id@, user_id: self.user_id@, expires_at: self.expires_at }
    }
}

pub open spec fn session_views(s: Seq<StoredSession>) -> Seq<SessionView> {
    s.map_values(|x: StoredSession| x@)
}

pub open spec fn session_ids(s: Seq<SessionView>) -> Seq<Seq<char>> {
    s.map_values(|x: SessionView| x.id)
}

/// `a` expires no later than `b`; a session without an expiry counts as the earliest.
pub open spec fn expires_no_later(a: Option<i64>, b: Option<i64>) -> bool {
    match (a, b) {
        (None, _) => true,
        (Some(_), None) => false,
        (Some(x), Some(y)) => x <= y,
    }
}

/// A session still valid at `now`.
pub open spec fn live(s: SessionView, now: i64) -> bool {
    s.expires_at is Some && s.expires_at->0 > now
}

/// The sessions held by id; at most one per id.
#[derive(Debug, Clone)]
pub struct SessionStore {
    pub sessions: Vec<StoredSession>,
}

impl SessionStore {
    pub open spec fn wf(&self) -> bool {
        session_ids(session_views(self.sessions@)).no_duplicates()
    }

    pub open spec fn contents(&self) -> Seq<SessionView> {
        session_views(self.sessions@)
    }

    pub fn new() -> (r: Self)
        ensures
            r.wf(),
            r.contents().len() == 0,
    {
        let r = SessionStore { sessions: Vec::new() };
        assert(session_ids(session_views(r.sessions@)) =~= Seq::<Seq<char>>::empty());
        r
    }

    /// Drops the sessions that expired at `now`, and those without an expiry; says whether
    /// any was dropped.
    pub fn purge_expired(&mut self, now: i64) -> (r: bool)
        requires
            old(self).wf(),
        ensures
            final(self).wf(),
            final(self).contents() == old(self).contents().filter(|s: SessionView| live(s, now)),
            r == (final(self).contents().len() != old(self).contents().len()),
    {
        let ghost start = self.contents();
        let mut kept: Vec<StoredSession> = Vec::new();
        let mut i: usize = 0;
        let n = self.sessions.len();
        while i < n
            invariant
                n == self.sessions.len(),
                i <= n,
                start == self.contents(),
                session_views(kept@) == start.take(i as int).filter(|s: SessionView| live(s, now)),
            decreases n - i,
        {
            let s = &self.sessions[i];
            proof {
                assert(start.take(i + 1) == start.take(i as int).push(s@));
                start.take(i as int).lemma_filter_push(s@, |x: SessionView| live(x, now));
            }
            let keep = match s.expires_at {
                Some(at) => at > now,
                None => false,
            };
            if keep {
                let ghost before = kept@;
                kept.push(StoredSession {
                    id: s.id.clone(),
                    user_id: s.user_id.clone(),
                    expires_at: s.expires_at,
                });
                assert(session_views(kept@) == session_views(before).push(s@));
            }
            i += 1;
        }
        assert(start.take(n as int) == start);
        let changed = kept.len() != n;
        proof {
            lemma_filter_keeps_distinct_ids(start, |x: SessionView| live(x, now));
        }
        self.sessions = kept;
        changed
    }
}

proof fn lemma_filter_keeps_distinct_ids(s: Seq<SessionView>, p: spec_fn(SessionView) -> bool)
    requires
        session_ids(s).no_duplicates(),
    ensures
        session_ids(s.filter(p)).no_duplicates(),
        forall|x: SessionView| #[trigger] s.filter(p).contains(x) ==> s.contains(x),
    decreases s.len(),
{
    if s.len() > 0 {
        let rest = s.drop_last();
        assert(s == rest.push(s.last()));
        rest.lemma_filter_push(s.last(), p);
        assert(session_ids(rest) == session_ids(s).drop_last());
        lemma_filter_keeps_distinct_ids(rest, p);
        if p(s.last()) {
            let f = rest.filter(p);
            assert(s.filter(p) == f.push(s.last()));
            assert forall|x: SessionView| #[trigger] s.filter(p).contains(x) implies s.contains(x) by {
                if x != s.last() {
                    let k = choose|k: int| 0 <= k < s.filter(p).len() && s.filter(p)[k] == x;
                    assert(f[k] == x);
                    assert(f.contains(x));
                    let j = choose|j: int| 0 <= j < rest.len() && rest[j] == x;
                    assert(s[j] == x);
                } else {
                    assert(s[s.len() - 1] == x);
                }
            }
            assert forall|a: int, b: int| 0 <= a < b < session_ids(s.filter(p)).len() implies session_ids(s.filter(p))[a] != session_ids(s.filter(p))[b] by {
                if b == f.len() {
                    assert(f.contains(f[a]));
                    assert(rest.contains(f[a]));
                    let j = choose|j: int| 0 <= j < rest.len() && rest[j] == f[a];
                    assert(session_ids(s)[j] == f[a].id);
                    assert(session_ids(s)[s.len() - 1] == s.last().id);
                } else {
                    assert(session_ids(f)[a] != session_ids(f)[b]);
                }
            }
        } else {
            assert(s.filter(p) == rest.filter(p));
            assert forall|x: SessionView| #[trigger] s.filter(p).contains(x) implies s.contains(x) by {
                let j = choose|j: int| 0 <= j < rest.len() && rest[j] == x;
                assert(s[j] == x);
            }
        }
    }
}

/// The user a session id maps to, if the store holds it.
pub open spec fn session_lookup(s: Seq<SessionView>, id: Seq<char>) -> Option<Seq<char>>
    decreases s.len(),
{
    if s.len() == 0 {
        None
    } else if s.last().id == id {
        Some(s.last().user_id)
    } else {
        session_lookup(s.drop_last(), id)
    }
}

proof fn lemma_lookup_finds(s: Seq<SessionView>, x: SessionView)
    requires
        session_ids(s).no_duplicates(),
        s.contains(x),
    ensures
        session_lookup(s, x.id) == Some(x.user_id),
    decreases s.len(),
{
    let rest = s.drop_last();
    assert(session_ids(rest) == session_ids(s).drop_last());
    if s.last() == x {
    } else {
        let k = choose|k: int| 0 <= k < s.len() && s[k] == x;
        assert(rest[k] == x);
        assert(session_ids(s)[k] == x.id);
        assert(session_ids(s)[s.len() - 1] == s.last().id);
        lemma_lookup_finds(rest, x);
    }
}

fn no_later(a: Option<i64>, b: Option<i64>) -> (r: bool)
    ensures
        r == expires_no_later(a, b),
{
    match (a, b) {
        (None, _) => true,
        (Some(_), None) => false,
        (Some(x), Some(y)) => x <= y,
    }
}

impl SessionStore {
    /// Keeps at most `limit` sessions, dropping those that expire first (sessions without an
    /// expiry before all others); says whether any was dropped.
    pub fn trim_to(&mut self, limit: usize) -> (r: bool)
        requires
            old(self).wf(),
        ensures
            final(self).wf(),
            r == (old(self).contents().len() > limit),
            final(self).contents().len() == if old(self).contents().len() > limit {
                limit as int
            } else {
                old(self).contents().len() as int
            },
            !r ==> final(self).contents() == old(self).contents(),
            forall|x: SessionView| #[trigger]
                final(self).contents().contains(x) ==> old(self).contents().contains(x),
            forall|x: SessionView, y: SessionView|
                #[trigger] old(self).contents().contains(x) && !final(self).contents().contains(x)
                    && #[trigger] final(self).contents().contains(y) ==> expires_no_later(
                    x.expires_at,
                    y.expires_at,
                ),
    {
        if self.sessions.len() <= limit {
            return false;
        }
        let ghost start = self.contents();
        while self.sessions.len() > limit
            invariant
                self.wf(),
                self.sessions.len() >= limit,
                forall|x: SessionView| #[trigger]
                    self.contents().contains(x) ==> start.contains(x),
                forall|x: SessionView, y: SessionView|
                    #[trigger] start.contains(x) && !self.contents().contains(x)
                        && #[trigger] self.contents().contains(y) ==> expires_no_later(
                        x.expires_at,
                        y.expires_at,
                    ),
            decreases self.sessions.len(),
        {
            let ghost cur = self.contents();
            let mut m: usize = 0;
            let mut i: usize = 1;
            while i < self.sessions.len()
                invariant
                    cur == self.contents(),
                    self.sessions.len() > limit,
                    m < self.sessions.len(),
                    1 <= i <= self.sessions.len(),
                    m < i,
                    forall|j: int| 0 <= j < i ==> expires_no_later(
                        cur[m as int].expires_at,
                        #[trigger] cur[j].expires_at,
                    ),
                decreases self.sessions.len() - i,
            {
                if !no_later(self.sessions[m].expires_at, self.sessions[i].expires_at) {
                    m = i;
                }
                i += 1;
            }
            let ghost gone = cur[m as int];
            self.sessions.remove(m);
            proof {
                let now_s = self.contents();
                assert(now_s =~= cur.remove(m as int));
                assert(session_ids(now_s) =~= session_ids(cur).remove(m as int));
                assert forall|x: SessionView| #[trigger] now_s.contains(x) implies start.contains(x) by {
                    let k = choose|k: int| 0 <= k < now_s.len() && now_s[k] == x;
                    if k < m {
                        assert(cur[k] == x);
                    } else {
                        assert(cur[k + 1] == x);
                    }
                    assert(cur.contains(x));
                }
                assert forall|x: SessionView, y: SessionView|
                    #[trigger] start.contains(x) && !now_s.contains(x) && #[trigger] now_s.contains(y) implies expires_no_later(
                    x.expires_at,
                    y.expires_at,
                ) by {
                    let ky = choose|k: int| 0 <= k < now_s.len() && now_s[k] == y;
                    let jy = if ky < m { ky } else { ky + 1 };
                    assert(cur[jy] == y);
                    assert(cur.contains(y));
                    if cur.contains(x) {
                        let kx = choose|k: int| 0 <= k < cur.len() && cur[k] == x;
                        if kx != m {
                            let jx = if kx < m { kx } else { kx - 1 };
                            assert(now_s[jx] == x);
                        }
                        assert(expires_no_later(cur[m as int].expires_at, cur[jy].expires_at));
                    }
                }
            }
        }
        true
    }

    /// Drops the session with this id, if any.
    pub fn remove_session(&mut self, id: &str)
        requires
            old(self).wf(),
        ensures
            final(self).wf(),
            final(self).contents() == old(self).contents().filter(|s: SessionView| s.id != id@),
    {
        let ghost start = self.contents();
        let mut kept: Vec<StoredSession> = Vec::new();
        let mut i: usize = 0;
        let n = self.sessions.len();
        while i < n
            invariant
                n == self.sessions.len(),
                i <= n,
                start == self.contents(),
                session_views(kept@) == start.take(i as int).filter(|s: SessionView| s.id != id@),
            decreases n - i,
        {
            let s = &self.sessions[i];
            proof {
                assert(start.take(i + 1) == start.take(i as int).push(s@));
                start.take(i as int).lemma_filter_push(s@, |x: SessionView| x.id != id@);
            }
            if !str_equal(s.id.as_str(), id) {
                let ghost before = kept@;
                kept.push(StoredSession {
                    id: s.id.clone(),
                    user_id: s.user_id.clone(),
                    expires_at: s.expires_at,
                });
                assert(session_views(kept@) == session_views(before).push(s@));
            }
            i += 1;
        }
        assert(start.take(n as int) == start);
        proof {
            lemma_filter_keeps_distinct_ids(start, |x: SessionView| x.id != id@);
        }
        self.sessions = kept;
    }

    /// Opens a session for `user_id` that lasts thirty days from `now`: expired sessions and
    /// any session with the same id go first, and the oldest sessions make room so the store
    /// stays within its bound.
    pub fn create_session(&mut self, id: &str, user_id: &str, now: i64)
        requires
            old(self).wf(),
            now <= i64::MAX - SESSION_TTL_MICROS,
        ensures
            final(self).wf(),
            final(self).contents().len() <= MAX_ACTIVE_SESSIONS,
            final(self).contents().contains(
                SessionView {
                    id: id@,
                    user_id: user_id@,
                    expires_at: Some((now + SESSION_TTL_MICROS) as i64),
                },
            ),
            forall|x: SessionView| #[trigger]
                final(self).contents().contains(x) && x.id != id@ ==> old(self).contents().contains(x)
                    && live(x, now),
    {
        let ghost start = self.contents();
        self.purge_expired(now);
        let ghost purged = self.contents();
        self.remove_session(id);
        let ghost without = self.contents();
        self.trim_to(MAX_ACTIVE_SESSIONS - 1);
        let ghost trimmed = self.contents();
        proof {
            assert forall|x: SessionView| #[trigger] trimmed.contains(x) implies start.contains(x)
                && live(x, now) && x.id != id@ by {
                assert(without.contains(x));
                lemma_filter_keeps_distinct_ids(purged, |s: SessionView| s.id != id@);
                let k = choose|k: int| 0 <= k < without.len() && without[k] == x;
                assert(purged.filter(|s: SessionView| s.id != id@)[k] == x);
                purged.lemma_filter_pred(|s: SessionView| s.id != id@, k);
                assert(purged.contains(x));
                let j = choose|j: int| 0 <= j < purged.len() && purged[j] == x;
                start.lemma_filter_pred(|s: SessionView| live(s, now), j);
                lemma_filter_keeps_distinct_ids(start, |s: SessionView| live(s, now));
            }
        }
        let ghost before = self.sessions@;
        self.sessions.push(StoredSession {
            id: id.to_owned(),
            user_id: user_id.to_owned(),
            expires_at: Some(now + SESSION_TTL_MICROS),
        });
        proof {
            let new_view = SessionView {
                id: id@,
                user_id: user_id@,
                expires_at: Some((now + SESSION_TTL_MICROS) as i64),
            };
            assert(self.contents() == trimmed.push(new_view));
            assert(session_ids(self.contents()) == session_ids(trimmed).push(id@));
            assert forall|a: int, b: int| 0 <= a < b < session_ids(self.contents()).len() implies session_ids(self.contents())[a] != session_ids(self.contents())[b] by {
                if b == trimmed.len() {
                    assert(trimmed.contains(trimmed[a]));
                } else {
                    assert(session_ids(trimmed)[a] != session_ids(trimmed)[b]);
                }
            }
            assert(self.contents()[trimmed.len() as int] == new_view);
            assert forall|x: SessionView| #[trigger] self.contents().contains(x) && x.id != id@ implies start.contains(x) && live(x, now) by {
                let k = choose|k: int| 0 <= k < self.contents().len() && self.contents()[k] == x;
                if k < trimmed.len() {
                    assert(trimmed[k] == x);
                    assert(trimmed.contains(x));
                }
            }
        }
    }

    /// The user a session id maps to.
    pub fn session_user(&self, id: &str) -> (r: Option<String>)
        ensures
            match r {
                Some(u) => session_lookup(self.contents(), id@) == Some(u@),
                None => session_lookup(self.contents(), id@) is None,
            },
    {
        let mut j: usize = self.sessions.len();
        assert(self.contents().take(j as int) == self.contents());
        while j > 0
            invariant
                j <= self.sessions.len(),
                session_lookup(self.contents(), id@) == session_lookup(
                    self.contents().take(j as int),
                    id@,
                ),
            decreases j,
        {
            assert(self.contents().take(j as int).drop_last() == self.contents().take(j - 1));
            if str_equal(self.sessions[j - 1].id.as_str(), id) {
                return Some(self.sessions[j - 1].user_id.clone());
            }
            j -= 1;
        }
        None
    }
}

/// The sessions with every session that lacks an expiry given `at`.
pub open spec fn renewed(s: Seq<SessionView>, at: i64) -> Seq<SessionView> {
    s.map_values(
        |x: SessionView|
            if x.expires_at is None {
                SessionView { expires_at: Some(at), ..x }
            } else {
                x
            },
    )
}

pub open spec fn has_legacy(s: Seq<SessionView>) -> bool {
    exists|k: int| 0 <= k < s.len() && (#[trigger] s[k]).expires_at is None
}

impl SessionStore {
    /// Gives every session written without an expiry the expiry `at`; says whether any was.
    pub fn renew_legacy(&mut self, at: i64) -> (r: bool)
        requires
            old(self).wf(),
        ensures
            final(self).wf(),
            final(self).contents() == renewed(old(self).contents(), at),
            r == has_legacy(old(self).contents()),
    {
        let ghost start = self.contents();
        let mut changed = false;
        let mut i: usize = 0;
        while i < self.sessions.len()
            invariant
                i <= self.sessions.len(),
                self.contents().len() == start.len(),
                session_ids(self.contents()) == session_ids(start),
                forall|k: int| 0 <= k < i ==> #[trigger] self.contents()[k] == renewed(start, at)[k],
                forall|k: int| i <= k < start.len() ==> #[trigger] self.contents()[k] == start[k],
                changed == exists|k: int| 0 <= k < i && (#[trigger] start[k]).expires_at is None,
            decreases self.sessions.len() - i,
        {
            assert(self.contents()[i as int] == start[i as int]);
            assert(self.sessions@[i as int]@ == start[i as int]);
            if self.sessions[i].expires_at.is_none() {
                let entry = StoredSession {
                    id: self.sessions[i].id.clone(),
                    user_id: self.sessions[i].user_id.clone(),
                    expires_at: Some(at),
                };
                let ghost before = self.contents();
                assert(entry@ == renewed(start, at)[i as int]);
                self.sessions.set(i, entry);
                proof {
                    assert(self.contents() == before.update(i as int, renewed(start, at)[i as int]));
                    assert(session_ids(self.contents()) =~= session_ids(before));
                }
                changed = true;
            } else {
                assert(renewed(start, at)[i as int] == start[i as int]);
            }
            i += 1;
        }
        assert(self.contents() =~= renewed(start, at));
        changed
    }

    /// Brings stored sessions up to date at `now`: sessions without an expiry get thirty
    /// days from now, expired ones go, and the store is trimmed to its bound. Says whether
    /// anything changed.
    pub fn normalize(&mut self, now: i64) -> (r: bool)
        requires
            old(self).wf(),
            now <= i64::MAX - SESSION_TTL_MICROS,
        ensures
            final(self).wf(),
            final(self).contents().len() <= MAX_ACTIVE_SESSIONS,
            forall|x: SessionView| #[trigger]
                final(self).contents().contains(x) ==> renewed(
                    old(self).contents(),
                    (now + SESSION_TTL_MICROS) as i64,
                ).contains(x) && live(x, now),
            final(self).contents().len() == if renewed(
                old(self).contents(),
                (now + SESSION_TTL_MICROS) as i64,
            ).filter(|s: SessionView| live(s, now)).len() > MAX_ACTIVE_SESSIONS {
                MAX_ACTIVE_SESSIONS as int
            } else {
                renewed(old(self).contents(), (now + SESSION_TTL_MICROS) as i64).filter(
                    |s: SessionView| live(s, now),
                ).len() as int
            },
            !has_legacy(old(self).contents()) && old(self).contents().filter(
                |s: SessionView| live(s, now),
            ).len() == old(self).contents().len() && old(self).contents().len()
                <= MAX_ACTIVE_SESSIONS ==> !r,
            r ==> final(self).contents() != old(self).contents() || has_legacy(
                old(self).contents(),
            ),
    {
        let ghost start = self.contents();
        let renewed_any = self.renew_legacy(now + SESSION_TTL_MICROS);
        let ghost fresh = self.contents();
        let purged = self.purge_expired(now);
        let ghost alive = self.contents();
        let trimmed = self.trim_to(MAX_ACTIVE_SESSIONS);
        proof {
            assert forall|x: SessionView| #[trigger] self.contents().contains(x) implies fresh.contains(x) && live(x, now) by {
                assert(alive.contains(x));
                let k = choose|k: int| 0 <= k < alive.len() && alive[k] == x;
                fresh.lemma_filter_pred(|s: SessionView| live(s, now), k);
                lemma_filter_keeps_distinct_ids(fresh, |s: SessionView| live(s, now));
            }
            if !has_legacy(start) {
                assert(fresh =~= start);
            }
            if purged || trimmed {
                if self.contents() == start {
                    if purged {
                        assert(self.contents().len() <= alive.len());
                    }
                }
            }
        }
        renewed_any || purged || trimmed
    }
}

/// What a session write stores, a read gives back: right after a session is opened, its id
/// resolves to its user.
pub proof fn law_opened_session_resolves(
    store: SessionStore,
    id: Seq<char>,
    user_id: Seq<char>,
    expires_at: Option<i64>,
)
    requires
        store.wf(),
        store.contents().contains(SessionView { id, user_id, expires_at }),
    ensures
        session_lookup(store.contents(), id) == Some(user_id),
{
    lemma_lookup_finds(store.contents(), SessionView { id, user_id, expires_at });
}

} // verus!
