//! Exploration trails: the chain of people a user clicked through to reach someone, checked
//! against the shared graph and stored by stable GitHub id.
use vstd::prelude::*;

use crate::aliases::{edge_set, has_pair};
use crate::discovery::views;
use crate::error::{validation, AppError};
use crate::graph::{copy_user, lemma_user_position, user_index, user_position, GitHubUserNode};
use crate::activity::{
    record_recent_visit, set_recent_visibility, visibility_changed, visit_recorded,
    count_hidden, count_visible, StoredExplorationActivity, StoredRecentPerson,
};
use crate::discovery::{
    ExplorationActivity, ExplorationDirection, RecentPerson, MAX_HIDDEN_RECENT_PEOPLE,
};
use crate::store::{
    resolve_shared_login, resolved_login, user_absent, user_absent_message, SharedGraphStore,
};
use crate::text::{eq_ignore_ascii_case, eq_ignore_case, owned, push_str};

verus! {

/// A trail resolved against the graph: each person's stable id and stored login.
#[derive(Debug, Clone, PartialEq, Eq)]
pub struct ResolvedExplorationTrail {
    pub github_ids: Vec<i64>,
    pub logins: Vec<String>,
}

/// The stable id of the user stored under a login.
pub open spec fn id_of(store: SharedGraphStore, login: Seq<char>) -> i64 {
    store.users@[user_position(store.users@, login)].github_id
}

/// The requested login at `k` is the first that the graph does not hold.
pub open spec fn first_unknown(store: SharedGraphStore, trail: Seq<String>, k: int) -> bool {
    &&& 0 <= k < trail.len()
    &&& resolved_login(store, trail[k]@) is None
    &&& forall|j: int| 0 <= j < k ==> #[trigger] resolved_login(store, trail[j]@) is Some
}

/// The stored logins a trail resolves to.
pub open spec fn trail_logins(store: SharedGraphStore, trail: Seq<String>) -> Seq<Seq<char>> {
    trail.map_values(|t: String| resolved_login(store, t@)->0)
}

/// The stable ids of the people on a resolved trail.
pub open spec fn trail_ids(store: SharedGraphStore, logins: Seq<Seq<char>>) -> Seq<i64> {
    logins.map_values(|l: Seq<char>| id_of(store, l))
}

/// One of the two follows the other.
pub open spec fn hop_connected(store: SharedGraphStore, a: Seq<char>, b: Seq<char>) -> bool {
    edge_set(store.follows@).contains((a, b)) || edge_set(store.follows@).contains((b, a))
}

/// The hop from `k` to `k + 1` is the first whose two people are not connected.
pub open spec fn first_bad_hop(store: SharedGraphStore, logins: Seq<Seq<char>>, k: int) -> bool {
    &&& 0 <= k < logins.len() - 1
    &&& !hop_connected(store, logins[k], logins[k + 1])
    &&& forall|j: int| 0 <= j < k ==> #[trigger] hop_connected(store, logins[j], logins[j + 1])
}

pub open spec fn unknown_person_message(login: Seq<char>) -> Seq<char> {
    "exploration trail contains unknown github user `"@ + login + "`"@
}

pub open spec fn missing_hop_message(a: Seq<char>, b: Seq<char>) -> Seq<char> {
    "exploration trail hop `"@ + a + "` -> `"@ + b + "` is not present in the shared graph"@
}

/// What checking a trail gives: the first unknown person, a repeated person, or the first
/// hop between people who do not follow each other; otherwise the ids and stored logins.
pub open spec fn trail_outcome(store: SharedGraphStore, trail: Seq<String>) -> Result<
    (Seq<i64>, Seq<Seq<char>>),
    Seq<char>,
> {
    if exists|k: int| first_unknown(store, trail, k) {
        Err(unknown_person_message(trail[choose|k: int| first_unknown(store, trail, k)]@))
    } else {
        let ls = trail_logins(store, trail);
        let ids = trail_ids(store, ls);
        if !ids.no_duplicates() {
            Err("exploration trail cannot repeat a person"@)
        } else if exists|k: int| first_bad_hop(store, ls, k) {
            let k = choose|k: int| first_bad_hop(store, ls, k);
            Err(missing_hop_message(ls[k], ls[k + 1]))
        } else {
            Ok((ids, ls))
        }
    }
}

proof fn lemma_first_unknown_unique(store: SharedGraphStore, trail: Seq<String>, i: int, j: int)
    requires
        first_unknown(store, trail, i),
        first_unknown(store, trail, j),
    ensures
        i == j,
{
    if i < j {
        assert(resolved_login(store, trail[i]@) is Some);
    } else if j < i {
        assert(resolved_login(store, trail[j]@) is Some);
    }
}

proof fn lemma_first_bad_hop_unique(store: SharedGraphStore, ls: Seq<Seq<char>>, i: int, j: int)
    requires
        first_bad_hop(store, ls, i),
        first_bad_hop(store, ls, j),
    ensures
        i == j,
{
    if i < j {
        assert(hop_connected(store, ls[i], ls[i + 1]));
    } else if j < i {
        assert(hop_connected(store, ls[j], ls[j + 1]));
    }
}

/// A resolved login is stored.
proof fn lemma_resolved_is_stored(store: SharedGraphStore, requested: Seq<char>)
    requires
        resolved_login(store, requested) is Some,
    ensures
        user_position(store.users@, resolved_login(store, requested)->0) >= 0,
{
    if user_position(store.users@, requested) < 0 {
        let i = choose|i: int| crate::store::first_login_like(store, requested, i);
        lemma_present(store.users@, i);
    }
}

proof fn lemma_present(s: Seq<crate::graph::GitHubUserNode>, i: int)
    requires
        0 <= i < s.len(),
    ensures
        user_position(s, s[i].login@) >= 0,
    decreases s.len(),
{
    if s.last().login@ != s[i].login@ {
        assert(s.drop_last()[i] == s[i]);
        lemma_present(s.drop_last(), i);
    }
}

fn unknown_person(login: &str) -> (e: AppError)
    ensures
        e is Validation && e->Validation_0@ == unknown_person_message(login@),
{
    let mut m = owned("exploration trail contains unknown github user `");
    push_str(&mut m, login);
    push_str(&mut m, "`");
    AppError::Validation(m)
}

fn missing_hop(a: &str, b: &str) -> (e: AppError)
    ensures
        e is Validation && e->Validation_0@ == missing_hop_message(a@, b@),
{
    let mut m = owned("exploration trail hop `");
    push_str(&mut m, a);
    push_str(&mut m, "` -> `");
    push_str(&mut m, b);
    push_str(&mut m, "` is not present in the shared graph");
    AppError::Validation(m)
}

fn distinct_ids(ids: &Vec<i64>) -> (r: bool)
    ensures
        r == ids@.no_duplicates(),
{
    let mut j: usize = 0;
    while j < ids.len()
        invariant
            j <= ids.len(),
            forall|a: int, b: int| 0 <= a < b < j ==> ids@[a] != ids@[b],
        decreases ids.len() - j,
    {
        let mut i: usize = 0;
        while i < j
            invariant
                i <= j < ids.len(),
                forall|a: int, b: int| 0 <= a < b < j ==> ids@[a] != ids@[b],
                forall|a: int| 0 <= a < i ==> ids@[a] != ids@[j as int],
            decreases j - i,
        {
            if ids[i] == ids[j] {
                return false;
            }
            i += 1;
        }
        j += 1;
    }
    true
}

/// Checks a trail against the shared graph: every person must be stored (compared ignoring
/// ASCII case), no person may appear twice, and each two neighbours on the trail must follow
/// one another in some direction.
pub fn resolve_local_exploration_trail(store: &SharedGraphStore, trail: &Vec<String>) -> (r: Result<
    ResolvedExplorationTrail,
    AppError,
>)
    ensures
        match r {
            Ok(t) => trail_outcome(*store, trail@) == Ok::<
                (Seq<i64>, Seq<Seq<char>>),
                Seq<char>,
            >((t.github_ids@, views(t.logins@))),
            Err(e) => e is Validation && trail_outcome(*store, trail@) == Err::<
                (Seq<i64>, Seq<Seq<char>>),
                Seq<char>,
            >(e->Validation_0@),
        },
{
    let mut github_ids: Vec<i64> = Vec::new();
    let mut logins: Vec<String> = Vec::new();
    let mut k: usize = 0;
    while k < trail.len()
        invariant
            k <= trail.len(),
            forall|j: int| 0 <= j < k ==> #[trigger] resolved_login(*store, trail@[j]@) is Some,
            views(logins@) == trail_logins(*store, trail@).take(k as int),
            github_ids@ == trail_ids(*store, trail_logins(*store, trail@)).take(k as int),
        decreases trail.len() - k,
    {
        match resolve_shared_login(store, trail[k].as_str()) {
            None => {
                proof {
                    assert(first_unknown(*store, trail@, k as int));
                    let c = choose|c: int| first_unknown(*store, trail@, c);
                    lemma_first_unknown_unique(*store, trail@, k as int, c);
                }
                return Err(unknown_person(trail[k].as_str()));
            },
            Some(canonical) => {
                proof {
                    lemma_resolved_is_stored(*store, trail@[k as int]@);
                    lemma_user_position(store.users@, canonical@);
                }
                let p = match user_index(&store.users, canonical.as_str()) {
                    Some(p) => p,
                    None => {
                        return Err(validation("exploration trail cannot repeat a person"));
                    },
                };
                let ghost before = logins@;
                github_ids.push(store.users[p].github_id);
                let stored = store.users[p].login.clone();
                logins.push(stored);
                proof {
                    assert(trail_logins(*store, trail@)[k as int] == canonical@);
                    assert(stored@ == canonical@);
                    assert(views(logins@) =~= views(before).push(stored@));
                    assert(views(logins@) =~= trail_logins(*store, trail@).take(k + 1));
                    assert(github_ids@ =~= trail_ids(*store, trail_logins(*store, trail@)).take(k + 1));
                }
            },
        }
        k += 1;
    }
    proof {
        assert(trail_logins(*store, trail@).take(trail@.len() as int) == trail_logins(*store, trail@));
        assert(trail_ids(*store, trail_logins(*store, trail@)).take(trail@.len() as int)
            == trail_ids(*store, trail_logins(*store, trail@)));
        assert(!exists|c: int| first_unknown(*store, trail@, c));
    }
    if !distinct_ids(&github_ids) {
        return Err(validation("exploration trail cannot repeat a person"));
    }
    let ghost ls = trail_logins(*store, trail@);
    let mut h: usize = 0;
    while h < logins.len() && logins.len() - h > 1
        invariant
            views(logins@) == ls,
            ls == trail_logins(*store, trail@),
            trail_ids(*store, ls) == github_ids@,
            github_ids@.no_duplicates(),
            !exists|c: int| first_unknown(*store, trail@, c),
            h <= logins.len(),
            forall|j: int| 0 <= j < h ==> #[trigger] hop_connected(*store, ls[j], ls[j + 1]),
        decreases logins.len() - h,
    {
        let a = logins[h].as_str();
        let b = logins[h + 1].as_str();
        if !(has_pair(&store.follows, a, b) || has_pair(&store.follows, b, a)) {
            proof {
                assert(ls[h as int] == a@ && ls[h + 1] == b@);
                assert(first_bad_hop(*store, ls, h as int));
                let c = choose|c: int| first_bad_hop(*store, ls, c);
                lemma_first_bad_hop_unique(*store, ls, h as int, c);
            }
            return Err(missing_hop(a, b));
        }
        proof {
            assert(ls[h as int] == a@ && ls[h + 1] == b@);
        }
        h += 1;
    }
    proof {
        if exists|c: int| first_bad_hop(*store, ls, c) {
            let c = choose|c: int| first_bad_hop(*store, ls, c);
            assert(hop_connected(*store, ls[c], ls[c + 1]));
        }
    }
    Ok(ResolvedExplorationTrail { github_ids, logins })
}

/// What recording a visit to `login` along `trail` gives: an unknown login or a trail that
/// fails its checks is refused and nothing changes; so is a trail that does not end at the
/// visited person; otherwise the visit is recorded under the person's stable id.
pub open spec fn person_visit_outcome(
    store: SharedGraphStore,
    a: StoredExplorationActivity,
    b: StoredExplorationActivity,
    login: Seq<char>,
    trail: Seq<String>,
    direction: ExplorationDirection,
    now: i64,
    r: Result<(), AppError>,
) -> bool {
    match resolved_login(store, login) {
        None => r is Err && r->Err_0 is NotFound && r->Err_0->NotFound_0@ == user_absent_message(
            login,
        ) && b == a,
        Some(target) => match trail_outcome(store, trail) {
            Err(message) => r is Err && r->Err_0 is Validation && r->Err_0->Validation_0@
                == message && b == a,
            Ok((ids, logins)) => if ids.len() > 0 && ids.last() == id_of(store, target) {
                r is Ok && visit_recorded(a, b, id_of(store, target), ids, logins, direction, now)
            } else {
                r is Err && r->Err_0 is Validation && r->Err_0->Validation_0@
                    == "exploration trail must end at the visited person"@ && b == a
            },
        },
    }
}

/// The stable id of the stored user a login resolves to, if any.
fn resolved_id(store: &SharedGraphStore, login: &str) -> (r: Option<i64>)
    ensures
        match resolved_login(*store, login@) {
            None => r is None,
            Some(l) => r == Some(id_of(*store, l)),
        },
{
    match resolve_shared_login(store, login) {
        None => None,
        Some(canonical) => {
            proof {
                lemma_resolved_is_stored(*store, login@);
                lemma_user_position(store.users@, canonical@);
            }
            match user_index(&store.users, canonical.as_str()) {
                Some(p) => Some(store.users[p].github_id),
                None => None,
            }
        },
    }
}

/// Records that the user visited `login` along `trail` at `now`, moving the person to the
/// front of their recent list.
pub fn record_person_visit(
    store: &SharedGraphStore,
    activity: &mut StoredExplorationActivity,
    login: &str,
    trail: &Vec<String>,
    direction: ExplorationDirection,
    now: i64,
) -> (r: Result<(), AppError>)
    ensures
        person_visit_outcome(
            *store,
            *old(activity),
            *final(activity),
            login@,
            trail@,
            direction,
            now,
            r,
        ),
{
    let github_id = match resolved_id(store, login) {
        Some(id) => id,
        None => {
            return Err(user_absent(login));
        },
    };
    let resolved = resolve_local_exploration_trail(store, trail)?;
    let n = resolved.github_ids.len();
    if n == 0 || resolved.github_ids[n - 1] != github_id {
        return Err(validation("exploration trail must end at the visited person"));
    }
    let ghost ids = resolved.github_ids@;
    let ghost ls = views(resolved.logins@);
    record_recent_visit(
        activity,
        github_id,
        resolved.github_ids,
        resolved.logins,
        direction,
        now,
    );
    assert(ids.last() == github_id);
    Ok(())
}

/// What showing or hiding a recent person gives: an unknown login is refused and nothing
/// changes; otherwise as for the person's stable id.
pub open spec fn person_visibility_outcome(
    store: SharedGraphStore,
    a: StoredExplorationActivity,
    b: StoredExplorationActivity,
    login: Seq<char>,
    visible: bool,
    now: i64,
    r: Result<(), AppError>,
) -> bool {
    match resolved_login(store, login) {
        None => r is Err && r->Err_0 is NotFound && r->Err_0->NotFound_0@ == user_absent_message(
            login,
        ) && b == a,
        Some(target) => visibility_changed(a, b, id_of(store, target), visible, now, r),
    }
}

/// Shows or hides a recently explored person, moving them to the front of the list.
pub fn set_recent_person_visible(
    store: &SharedGraphStore,
    activity: &mut StoredExplorationActivity,
    login: &str,
    visible: bool,
    now: i64,
) -> (r: Result<(), AppError>)
    ensures
        person_visibility_outcome(*store, *old(activity), *final(activity), login@, visible, now, r),
{
    let github_id = match resolved_id(store, login) {
        Some(id) => id,
        None => {
            return Err(user_absent(login));
        },
    };
    set_recent_visibility(activity, github_id, visible, now)
}

/// The position of the last stored user with this stable id, or -1.
pub open spec fn id_position(users: Seq<GitHubUserNode>, github_id: i64) -> int
    decreases users.len(),
{
    if users.len() == 0 {
        -1
    } else if users.last().github_id == github_id {
        users.len() - 1
    } else {
        id_position(users.drop_last(), github_id)
    }
}

/// The stored profile with a stable id (the last one stored, should two share it).
pub open spec fn profile_of(store: SharedGraphStore, github_id: i64) -> Option<GitHubUserNode> {
    let p = id_position(store.users@, github_id);
    if p < 0 {
        None
    } else {
        Some(store.users@[p])
    }
}

proof fn lemma_id_position(users: Seq<GitHubUserNode>, github_id: i64)
    ensures
        -1 <= id_position(users, github_id) < users.len(),
        id_position(users, github_id) >= 0 ==> users[id_position(users, github_id)].github_id
            == github_id,
    decreases users.len(),
{
    if users.len() > 0 {
        lemma_id_position(users.drop_last(), github_id);
    }
}

fn id_index(users: &Vec<GitHubUserNode>, github_id: i64) -> (r: Option<usize>)
    ensures
        match r {
            Some(i) => i == id_position(users@, github_id),
            None => id_position(users@, github_id) < 0,
        },
{
    let mut j: usize = users.len();
    assert(users@.take(j as int) == users@);
    while j > 0
        invariant
            j <= users.len(),
            id_position(users@, github_id) == id_position(users@.take(j as int), github_id),
        decreases j,
    {
        assert(users@.take(j as int).drop_last() == users@.take(j - 1));
        if users[j - 1].github_id == github_id {
            return Some(j - 1);
        }
        j -= 1;
    }
    None
}

/// The user at `i` is the profile kept for its id.
pub open spec fn kept_profile(store: SharedGraphStore, i: int) -> bool {
    0 <= i < store.users@.len() && id_position(store.users@, store.users@[i].github_id) == i
}

/// The user at `i` is the first kept profile whose login equals `login` ignoring ASCII case.
pub open spec fn first_profile_like(store: SharedGraphStore, login: Seq<char>, i: int) -> bool {
    &&& kept_profile(store, i)
    &&& eq_ignore_case(store.users@[i].login@, login)
    &&& forall|k: int|
        0 <= k < i ==> !(kept_profile(store, k) && eq_ignore_case(#[trigger] store.users@[k].login@, login))
}

/// A login of an older trail as currently stored: the first kept profile's login that
/// equals it ignoring ASCII case, else the login as it was.
pub open spec fn legacy_login(store: SharedGraphStore, login: Seq<char>) -> Seq<char> {
    if exists|i: int| first_profile_like(store, login, i) {
        store.users@[choose|i: int| first_profile_like(store, login, i)].login@
    } else {
        login
    }
}

/// The logins of the first `n` ids of a stored trail: the profile's current login, else the
/// login recorded with the trail, else the visited person's login for their own id; an id
/// with none of these is left out.
pub open spec fn id_trail(
    store: SharedGraphStore,
    ids: Seq<i64>,
    trail: Seq<Seq<char>>,
    target: GitHubUserNode,
    n: int,
) -> Seq<Seq<char>>
    decreases n,
{
    if n <= 0 {
        Seq::empty()
    } else {
        let prev = id_trail(store, ids, trail, target, n - 1);
        let k = n - 1;
        match profile_of(store, ids[k]) {
            Some(p) => prev.push(p.login@),
            None => if k < trail.len() {
                prev.push(trail[k])
            } else if ids[k] == target.github_id {
                prev.push(target.login@)
            } else {
                prev
            },
        }
    }
}

/// The trail shown for a remembered visit: by stable ids where it has them; an older trail
/// of logins is brought to the stored logins and ends at the visited person.
pub open spec fn canonical_trail(
    store: SharedGraphStore,
    recent: StoredRecentPerson,
    target: GitHubUserNode,
) -> Seq<Seq<char>> {
    if recent.trail_github_ids@.len() == 0 {
        let legacy = views(recent.trail@).map_values(|l: Seq<char>| legacy_login(store, l));
        if legacy.len() == 0 {
            seq![target.login@]
        } else {
            legacy.update(legacy.len() - 1, target.login@)
        }
    } else {
        id_trail(
            store,
            recent.trail_github_ids@,
            views(recent.trail@),
            target,
            recent.trail_github_ids@.len() as int,
        )
    }
}

proof fn lemma_first_profile_like_unique(store: SharedGraphStore, login: Seq<char>, i: int, j: int)
    requires
        first_profile_like(store, login, i),
        first_profile_like(store, login, j),
    ensures
        i == j,
{
    if i < j {
        assert(!(kept_profile(store, i) && eq_ignore_case(store.users@[i].login@, login)));
    } else if j < i {
        assert(!(kept_profile(store, j) && eq_ignore_case(store.users@[j].login@, login)));
    }
}

fn current_legacy_login(store: &SharedGraphStore, login: &String) -> (r: String)
    ensures
        r@ == legacy_login(*store, login@),
{
    let mut i: usize = 0;
    while i < store.users.len()
        invariant
            i <= store.users.len(),
            forall|k: int|
                0 <= k < i ==> !(kept_profile(*store, k) && eq_ignore_case(
                    #[trigger] store.users@[k].login@,
                    login@,
                )),
        decreases store.users.len() - i,
    {
        let kept = match id_index(&store.users, store.users[i].github_id) {
            Some(p) => p == i,
            None => false,
        };
        if kept && eq_ignore_ascii_case(store.users[i].login.as_str(), login.as_str()) {
            proof {
                assert(first_profile_like(*store, login@, i as int));
                let c = choose|c: int| first_profile_like(*store, login@, c);
                lemma_first_profile_like_unique(*store, login@, i as int, c);
            }
            return store.users[i].login.clone();
        }
        i += 1;
    }
    proof {
        if exists|c: int| first_profile_like(*store, login@, c) {
            let c = choose|c: int| first_profile_like(*store, login@, c);
            assert(!(kept_profile(*store, c) && eq_ignore_case(store.users@[c].login@, login@)));
        }
    }
    login.clone()
}

/// The trail shown for a remembered visit to `target`.
pub fn canonicalize_stored_trail(
    store: &SharedGraphStore,
    recent: &StoredRecentPerson,
    target: &GitHubUserNode,
) -> (r: Vec<String>)
    ensures
        views(r@) == canonical_trail(*store, *recent, *target),
{
    let mut out: Vec<String> = Vec::new();
    if recent.trail_github_ids.len() == 0 {
        let ghost legacy = views(recent.trail@).map_values(|l: Seq<char>| legacy_login(*store, l));
        let mut k: usize = 0;
        while k < recent.trail.len()
            invariant
                k <= recent.trail.len(),
                legacy == views(recent.trail@).map_values(|l: Seq<char>| legacy_login(*store, l)),
                views(out@) == legacy.take(k as int),
            decreases recent.trail.len() - k,
        {
            let current = current_legacy_login(store, &recent.trail[k]);
            let ghost before = out@;
            out.push(current);
            assert(views(out@) =~= views(before).push(current@));
            assert(legacy.take(k + 1) =~= legacy.take(k as int).push(legacy[k as int]));
            k += 1;
        }
        assert(legacy.take(recent.trail.len() as int) =~= legacy);
        let n = out.len();
        if n == 0 {
            out.push(target.login.clone());
            assert(views(out@) =~= seq![target.login@]);
        } else {
            let ghost before = out@;
            out.set(n - 1, target.login.clone());
            assert(views(out@) =~= views(before).update(n - 1, target.login@));
        }
        return out;
    }
    let mut k: usize = 0;
    while k < recent.trail_github_ids.len()
        invariant
            k <= recent.trail_github_ids.len(),
            views(out@) == id_trail(
                *store,
                recent.trail_github_ids@,
                views(recent.trail@),
                *target,
                k as int,
            ),
        decreases recent.trail_github_ids.len() - k,
    {
        let id = recent.trail_github_ids[k];
        let ghost before = out@;
        proof {
            lemma_id_position(store.users@, id);
        }
        match id_index(&store.users, id) {
            Some(p) => {
                out.push(store.users[p].login.clone());
            },
            None => {
                if k < recent.trail.len() {
                    out.push(recent.trail[k].clone());
                } else if id == target.github_id {
                    out.push(target.login.clone());
                }
            },
        }
        assert(views(out@) =~= id_trail(
            *store,
            recent.trail_github_ids@,
            views(recent.trail@),
            *target,
            k + 1,
        ));
        k += 1;
    }
    out
}

/// A recently explored person as shown, as plain values.
pub ghost struct RecentPersonView {
    pub profile: GitHubUserNode,
    pub trail: Seq<Seq<char>>,
    pub direction: ExplorationDirection,
    pub last_viewed_at: i64,
    pub visit_count: u64,
    pub visible: bool,
}

pub open spec fn recent_view(r: RecentPerson) -> RecentPersonView {
    RecentPersonView {
        profile: r.profile,
        trail: views(r.trail@),
        direction: r.direction,
        last_viewed_at: r.last_viewed_at,
        visit_count: r.visit_count,
        visible: r.visible,
    }
}

pub open spec fn recent_views(s: Seq<RecentPerson>) -> Seq<RecentPersonView> {
    s.map_values(|r: RecentPerson| recent_view(r))
}

/// The remembered person at `k` is shown: they are within the visible limit (or, hidden,
/// within the hidden bound) counting everyone up to them, and their profile is stored.
pub open spec fn shown(
    store: SharedGraphStore,
    people: Seq<StoredRecentPerson>,
    limit: usize,
    k: int,
) -> bool {
    &&& if people[k].visible {
        count_visible(people.take(k + 1)) <= limit
    } else {
        count_hidden(people.take(k + 1)) <= MAX_HIDDEN_RECENT_PEOPLE
    }
    &&& profile_of(store, people[k].github_id) is Some
}

/// How a remembered person is shown: their stored profile and canonical trail.
pub open spec fn shown_view(store: SharedGraphStore, r: StoredRecentPerson) -> RecentPersonView {
    let p = profile_of(store, r.github_id)->0;
    RecentPersonView {
        profile: p,
        trail: canonical_trail(store, r, p),
        direction: r.direction,
        last_viewed_at: r.last_viewed_at,
        visit_count: r.visit_count,
        visible: r.visible,
    }
}

/// The people shown among the first `n` remembered, in order.
pub open spec fn rendered(
    store: SharedGraphStore,
    people: Seq<StoredRecentPerson>,
    limit: usize,
    n: int,
) -> Seq<RecentPersonView>
    decreases n,
{
    if n <= 0 {
        Seq::empty()
    } else {
        let prev = rendered(store, people, limit, n - 1);
        if shown(store, people, limit, n - 1) {
            prev.push(shown_view(store, people[n - 1]))
        } else {
            prev
        }
    }
}

proof fn lemma_counts_bounded(s: Seq<StoredRecentPerson>)
    ensures
        count_visible(s) <= s.len(),
        count_hidden(s) <= s.len(),
    decreases s.len(),
{
    if s.len() > 0 {
        lemma_counts_bounded(s.drop_last());
    }
}

/// A user's recent exploration as shown: at most `limit` visible people and the hidden
/// bound of hidden ones, most recent first, each with their stored profile and canonical
/// trail; a person whose profile is gone is left out. Without stored activity, nothing.
pub fn exploration_activity_from_store(
    store: &SharedGraphStore,
    activity: Option<&StoredExplorationActivity>,
    limit: usize,
) -> (r: ExplorationActivity)
    ensures
        match activity {
            None => r.recent_people@.len() == 0 && r.max_trail_depth == 0,
            Some(a) => r.max_trail_depth == a.max_trail_depth && recent_views(r.recent_people@)
                == rendered(*store, a.recent_people@, limit, a.recent_people@.len() as int),
        },
{
    let activity = match activity {
        None => {
            return ExplorationActivity { recent_people: Vec::new(), max_trail_depth: 0 };
        },
        Some(a) => a,
    };
    let people = &activity.recent_people;
    let mut shown_people: Vec<RecentPerson> = Vec::new();
    let mut visible: usize = 0;
    let mut hidden: usize = 0;
    let mut k: usize = 0;
    assert(recent_views(shown_people@) =~= rendered(*store, people@, limit, 0));
    while k < people.len()
        invariant
            k <= people.len(),
            visible == count_visible(people@.take(k as int)),
            hidden == count_hidden(people@.take(k as int)),
            recent_views(shown_people@) == rendered(*store, people@, limit, k as int),
        decreases people.len() - k,
    {
        let r = &people[k];
        proof {
            assert(people@.take(k + 1).drop_last() == people@.take(k as int));
            lemma_counts_bounded(people@.take(k as int));
        }
        let within = if r.visible {
            visible += 1;
            visible <= limit
        } else {
            hidden += 1;
            hidden <= MAX_HIDDEN_RECENT_PEOPLE
        };
        let ghost before = shown_people@;
        if within {
            proof {
                lemma_id_position(store.users@, r.github_id);
            }
            match id_index(&store.users, r.github_id) {
                Some(p) => {
                    let profile = copy_user(&store.users[p]);
                    let trail = canonicalize_stored_trail(store, r, &profile);
                    let shown_person = RecentPerson {
                        profile,
                        trail,
                        direction: r.direction,
                        last_viewed_at: r.last_viewed_at,
                        visit_count: r.visit_count,
                        visible: r.visible,
                    };
                    shown_people.push(shown_person);
                    assert(recent_views(shown_people@) =~= recent_views(before).push(
                        recent_view(shown_person),
                    ));
                },
                None => {},
            }
        }
        assert(recent_views(shown_people@) =~= rendered(*store, people@, limit, k + 1));
        k += 1;
    }
    ExplorationActivity { recent_people: shown_people, max_trail_depth: activity.max_trail_depth }
}

} // verus!
