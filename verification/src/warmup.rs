//! The discovery warmup: a bounded breadth-first frontier of GitHub users to expand.
use vstd::prelude::*;

use crate::discovery::{views, UserNeighborhood};
use crate::error::{error_text, AppError};
use crate::graph::{CacheStatus, DiscoveryWarmupJob, DiscoveryWarmupStatus};
use crate::logins::GITHUB_CORE_REST_RESERVE;
use crate::logins::{normalize_github_login, normalized_login};
use crate::text::{chars_equal, chars_of, eq_ignore_case, lower_chars, lower_seq, string_from_chars};

verus! {

/// How many distinct users one warmup may ever know of.
pub const DISCOVERY_WARMUP_TOTAL_USER_LIMIT: usize = 10_000;

/// The lower-cased texts of a sequence of strings, as a set.
pub open spec fn lower_set(s: Seq<String>) -> Set<Seq<char>> {
    views(s).map_values(|x: Seq<char>| lower_seq(x)).to_set()
}

/// The frontier entries whose lower-cased text is not that of an expanded login.
pub open spec fn frontier_without_expanded(frontier: Seq<String>, expanded: Seq<String>) -> Seq<
    Seq<char>,
> {
    views(frontier).filter(|l: Seq<char>| !lower_set(expanded).contains(lower_seq(l)))
}

/// The frontier without the requested and the canonical login.
pub open spec fn frontier_without(frontier: Seq<String>, a: Seq<char>, b: Seq<char>) -> Seq<
    Seq<char>,
> {
    views(frontier).filter(|l: Seq<char>| lower_seq(l) != a && lower_seq(l) != b)
}

/// The expanded list after recording `canonical` (lower-cased) as expanded.
pub open spec fn expanded_with(expanded: Seq<String>, canonical: Seq<char>) -> Seq<Seq<char>> {
    if exists|i: int| 0 <= i < expanded.len() && eq_ignore_case(#[trigger] expanded[i]@, canonical) {
        views(expanded)
    } else {
        views(expanded).push(canonical)
    }
}

/// The logins of a neighbourhood's people: whom the user follows, then the followers.
pub open spec fn neighbour_logins(n: UserNeighborhood) -> Seq<Seq<char>> {
    n.following@.map_values(|u: crate::discovery::DiscoveryUser| u.profile.login@)
        + n.followers@.map_values(|u: crate::discovery::DiscoveryUser| u.profile.login@)
}

/// Offers the candidate logins, in order, to a frontier whose known logins are `known`.
/// A candidate joins when it is a valid login not yet known and fewer than the limit are known;
/// a new candidate that finds the limit reached marks the frontier truncated.
pub open spec fn absorb(
    frontier: Seq<Seq<char>>,
    known: Set<Seq<char>>,
    truncated: bool,
    candidates: Seq<Seq<char>>,
) -> (Seq<Seq<char>>, Set<Seq<char>>, bool)
    decreases candidates.len(),
{
    if candidates.len() == 0 {
        (frontier, known, truncated)
    } else {
        let (f, k, t) = absorb(frontier, known, truncated, candidates.drop_last());
        match normalized_login(candidates.last()) {
            None => (f, k, t),
            Some(n) => if k.contains(n) {
                (f, k, t)
            } else if k.len() >= DISCOVERY_WARMUP_TOTAL_USER_LIMIT {
                (f, k, true)
            } else {
                (f.push(n), k.insert(n), t)
            },
        }
    }
}

/// A sequence whose lower-cased entries are pairwise different.
pub open spec fn distinct_ignoring_case(s: Seq<Seq<char>>) -> bool {
    forall|i: int, j: int| 0 <= i < j < s.len() ==> lower_seq(s[i]) != lower_seq(s[j])
}

fn lowered_all(v: &Vec<String>) -> (r: Vec<Vec<char>>)
    ensures
        r@.len() == v@.len(),
        forall|i: int| 0 <= i < v@.len() ==> #[trigger] r@[i]@ == lower_seq(v@[i]@),
{
    let mut r: Vec<Vec<char>> = Vec::new();
    let mut i: usize = 0;
    while i < v.len()
        invariant
            i <= v.len(),
            r@.len() == i,
            forall|k: int| 0 <= k < i ==> #[trigger] r@[k]@ == lower_seq(v@[k]@),
        decreases v.len() - i,
    {
        r.push(lower_chars(&chars_of(v[i].as_str())));
        i += 1;
    }
    r
}

fn position_of(list: &Vec<Vec<char>>, x: &Vec<char>) -> (r: Option<usize>)
    ensures
        r is None ==> forall|k: int| 0 <= k < list@.len() ==> list@[k]@ != x@,
        r is Some ==> r->0 < list@.len() && list@[r->0 as int]@ == x@,
{
    let mut i: usize = 0;
    while i < list.len()
        invariant
            i <= list.len(),
            forall|k: int| 0 <= k < i ==> list@[k]@ != x@,
        decreases list.len() - i,
    {
        if chars_equal(&list[i], x) {
            return Some(i);
        }
        i += 1;
    }
    None
}

/// Drops from the frontier every login that was already expanded (compared without case).
pub fn remove_expanded_frontier_entries(warmup: &mut DiscoveryWarmupJob)
    ensures
        views(final(warmup).frontier@) == frontier_without_expanded(
            old(warmup).frontier@,
            old(warmup).expanded_logins@,
        ),
        final(warmup).expanded_logins == old(warmup).expanded_logins,
        final(warmup).id == old(warmup).id,
        final(warmup).seed_login == old(warmup).seed_login,
        final(warmup).status == old(warmup).status,
        final(warmup).current_login == old(warmup).current_login,
        final(warmup).frontier_truncated == old(warmup).frontier_truncated,
        final(warmup).remaining_requests == old(warmup).remaining_requests,
        final(warmup).reserve_requests == old(warmup).reserve_requests,
        final(warmup).reset_at == old(warmup).reset_at,
        final(warmup).started_at == old(warmup).started_at,
        final(warmup).updated_at == old(warmup).updated_at,
        final(warmup).completed_at == old(warmup).completed_at,
        final(warmup).last_error == old(warmup).last_error,
{
    let expanded = lowered_all(&warmup.expanded_logins);
    let ghost e = warmup.expanded_logins@;
    let ghost pred = |l: Seq<char>| !lower_set(e).contains(lower_seq(l));
    let mut old_frontier: Vec<String> = Vec::new();
    std::mem::swap(&mut old_frontier, &mut warmup.frontier);
    let mut kept: Vec<String> = Vec::new();
    let mut i: usize = 0;
    while i < old_frontier.len()
        invariant
            i <= old_frontier.len(),
            e == warmup.expanded_logins@,
            pred == (|l: Seq<char>| !lower_set(e).contains(lower_seq(l))),
            expanded@.len() == e.len(),
            forall|k: int| 0 <= k < e.len() ==> #[trigger] expanded@[k]@ == lower_seq(e[k]@),
            views(kept@) == views(old_frontier@).take(i as int).filter(pred),
        decreases old_frontier.len() - i,
    {
        let lowered = lower_chars(&chars_of(old_frontier[i].as_str()));
        let found = position_of(&expanded, &lowered);
        proof {
            let m = views(e).map_values(|x: Seq<char>| lower_seq(x));
            let x = old_frontier@[i as int]@;
            assert(lowered@ == lower_seq(x));
            assert(views(old_frontier@).take(i + 1) == views(old_frontier@).take(i as int).push(x));
            views(old_frontier@).take(i as int).lemma_filter_push(x, pred);
            assert(lower_set(e) == m.to_set());
            if found is None {
                if m.contains(lowered@) {
                    let k = choose|k: int| 0 <= k < m.len() && m[k] == lowered@;
                    assert(expanded@[k]@ == lowered@);
                }
                assert(!m.to_set().contains(lowered@));
            } else {
                let k = found->0 as int;
                assert(m[k] == lowered@);
                assert(m.contains(lowered@));
                assert(m.to_set().contains(lowered@));
            }
        }
        let ghost kept_before = kept@;
        proof {
            assert(pred(old_frontier@[i as int]@) == (found is None));
        }
        if found.is_none() {
            kept.push(old_frontier[i].clone());
            proof {
                assert(views(kept@) =~= views(kept_before).push(old_frontier@[i as int]@));
            }
        }
        i += 1;
    }
    assert(views(old_frontier@).take(old_frontier.len() as int) == views(old_frontier@));
    warmup.frontier = kept;
}


/// The lower-cased entries of a sequence of texts.
pub open spec fn lowered(s: Seq<Seq<char>>) -> Seq<Seq<char>> {
    s.map_values(|x: Seq<char>| lower_seq(x))
}

/// The frontier, the known logins and the truncation flag after one expansion.
pub open spec fn advanced(
    warmup: DiscoveryWarmupJob,
    requested: Seq<char>,
    neighborhood: UserNeighborhood,
) -> (Seq<Seq<char>>, Set<Seq<char>>, bool) {
    let rl = lower_seq(requested);
    let cl = lower_seq(neighborhood.user.profile.login@);
    let f1 = frontier_without(warmup.frontier@, rl, cl);
    let e1 = expanded_with(warmup.expanded_logins@, cl);
    absorb(f1, lowered(e1 + f1).to_set(), warmup.frontier_truncated, neighbour_logins(neighborhood))
}

fn text_from(v: &Vec<char>) -> (r: String)
    ensures
        r@ == v@,
{
    string_from_chars(v)
}

proof fn lemma_absorb_step(
    f: Seq<Seq<char>>,
    k: Set<Seq<char>>,
    t: bool,
    cands: Seq<Seq<char>>,
    j: int,
)
    requires
        0 <= j < cands.len(),
    ensures
        absorb(f, k, t, cands.take(j + 1)) == ({
            let (f2, k2, t2) = absorb(f, k, t, cands.take(j));
            match normalized_login(cands[j]) {
                None => (f2, k2, t2),
                Some(n) => if k2.contains(n) {
                    (f2, k2, t2)
                } else if k2.len() >= DISCOVERY_WARMUP_TOTAL_USER_LIMIT {
                    (f2, k2, true)
                } else {
                    (f2.push(n), k2.insert(n), t2)
                },
            }
        }),
{
    assert(cands.take(j + 1).drop_last() == cands.take(j));
    assert(cands.take(j + 1).last() == cands[j]);
}

/// Adds `x` to a list of distinct texts unless it is already there.
fn insert_distinct(list: &mut Vec<Vec<char>>, x: Vec<char>)
    requires
        old(list)@.map_values(|v: Vec<char>| v@).no_duplicates(),
    ensures
        final(list)@.map_values(|v: Vec<char>| v@).no_duplicates(),
        final(list)@.map_values(|v: Vec<char>| v@).to_set() == old(list)@.map_values(
            |v: Vec<char>| v@,
        ).to_set().insert(x@),
{
    let ghost before = list@.map_values(|v: Vec<char>| v@);
    match position_of(list, &x) {
        Some(p) => {
            proof {
                assert(before[p as int] == x@);
                assert(before.to_set().insert(x@) =~= before.to_set());
            }
        },
        None => {
            list.push(x);
            proof {
                let after = list@.map_values(|v: Vec<char>| v@);
                assert(after =~= before.push(list@[list@.len() - 1]@));
                before.lemma_push_to_set_commute(list@[list@.len() - 1]@);
                assert forall|a: int, b: int| 0 <= a < b < after.len() implies after[a] != after[b] by {
                    if b == after.len() - 1 {
                        assert(list@[a]@ != list@[b]@);
                    } else {
                        assert(after[a] == before[a] && after[b] == before[b]);
                    }
                }
            }
        },
    }
}

/// Offers one candidate login to the frontier (one step of `absorb`).
fn offer_candidate(
    frontier: &mut Vec<String>,
    known: &mut Vec<Vec<char>>,
    truncated: &mut bool,
    login_text: &String,
)
    requires
        old(known)@.map_values(|v: Vec<char>| v@).no_duplicates(),
    ensures
        final(known)@.map_values(|v: Vec<char>| v@).no_duplicates(),
        ({
            let kv = old(known)@.map_values(|v: Vec<char>| v@).to_set();
            let f = views(old(frontier)@);
            let t = *old(truncated);
            let out = match normalized_login(login_text@) {
                None => (f, kv, t),
                Some(n) => if kv.contains(n) {
                    (f, kv, t)
                } else if kv.len() >= DISCOVERY_WARMUP_TOTAL_USER_LIMIT {
                    (f, kv, true)
                } else {
                    (f.push(n), kv.insert(n), t)
                },
            };
            &&& views(final(frontier)@) == out.0
            &&& final(known)@.map_values(|v: Vec<char>| v@).to_set() == out.1
            &&& *final(truncated) == out.2
        }),
{
    let ghost kv = known@.map_values(|v: Vec<char>| v@);
    proof {
        kv.unique_seq_to_set();
    }
    match normalize_github_login(login_text.as_str()) {
        Err(_) => {},
        Ok(login) => {
            let lc = chars_of(login.as_str());
            match position_of(known, &lc) {
                Some(p) => {
                    proof {
                        assert(kv[p as int] == lc@);
                        assert(kv.to_set().contains(lc@));
                    }
                },
                None => {
                    proof {
                        if kv.to_set().contains(lc@) {
                            let q = choose|q: int| 0 <= q < kv.len() && kv[q] == lc@;
                            assert(known@[q]@ == lc@);
                        }
                    }
                    if known.len() >= DISCOVERY_WARMUP_TOTAL_USER_LIMIT {
                        *truncated = true;
                    } else {
                        let ghost fb = frontier@;
                        insert_distinct(known, lc);
                        frontier.push(login);
                        proof {
                            assert(views(frontier@) =~= views(fb).push(login@));
                        }
                    }
                },
            }
        },
    }
}

/// Records one expansion: removes the requested and canonical logins from the frontier, marks
/// the canonical login expanded, and queues the neighbourhood's people (whom the user follows
/// first) that are valid logins and not yet known, up to the total user limit.
pub fn advance_warmup_frontier(
    warmup: &mut DiscoveryWarmupJob,
    requested_login: &str,
    neighborhood: &UserNeighborhood,
)
    ensures
        ({
            let (f, k, t) = advanced(*old(warmup), requested_login@, *neighborhood);
            &&& views(final(warmup).frontier@) == f
            &&& views(final(warmup).expanded_logins@) == expanded_with(
                old(warmup).expanded_logins@,
                lower_seq(neighborhood.user.profile.login@),
            )
            &&& final(warmup).frontier_truncated == t
        }),
        final(warmup).id == old(warmup).id,
        final(warmup).seed_login == old(warmup).seed_login,
        final(warmup).status == old(warmup).status,
        final(warmup).current_login == old(warmup).current_login,
        final(warmup).remaining_requests == old(warmup).remaining_requests,
        final(warmup).reserve_requests == old(warmup).reserve_requests,
        final(warmup).reset_at == old(warmup).reset_at,
        final(warmup).started_at == old(warmup).started_at,
        final(warmup).updated_at == old(warmup).updated_at,
        final(warmup).completed_at == old(warmup).completed_at,
        final(warmup).last_error == old(warmup).last_error,
{
    let ghost w0 = *warmup;
    let requested = lower_chars(&chars_of(requested_login));
    let canonical = lower_chars(&chars_of(neighborhood.user.profile.login.as_str()));
    let ghost rl = requested@;
    let ghost cl = canonical@;
    let ghost keep = |l: Seq<char>| lower_seq(l) != rl && lower_seq(l) != cl;

    let mut old_frontier: Vec<String> = Vec::new();
    std::mem::swap(&mut old_frontier, &mut warmup.frontier);
    let mut kept: Vec<String> = Vec::new();
    let mut i: usize = 0;
    while i < old_frontier.len()
        invariant
            i <= old_frontier.len(),
            keep == (|l: Seq<char>| lower_seq(l) != rl && lower_seq(l) != cl),
            rl == requested@,
            cl == canonical@,
            views(kept@) == views(old_frontier@).take(i as int).filter(keep),
        decreases old_frontier.len() - i,
    {
        let lowered_entry = lower_chars(&chars_of(old_frontier[i].as_str()));
        let drop = chars_equal(&lowered_entry, &requested) || chars_equal(&lowered_entry, &canonical);
        let ghost kept_before = kept@;
        proof {
            let x = old_frontier@[i as int]@;
            assert(views(old_frontier@).take(i + 1) == views(old_frontier@).take(i as int).push(x));
            views(old_frontier@).take(i as int).lemma_filter_push(x, keep);
        }
        if !drop {
            kept.push(old_frontier[i].clone());
            proof {
                assert(views(kept@) =~= views(kept_before).push(old_frontier@[i as int]@));
            }
        }
        i += 1;
    }
    assert(views(old_frontier@).take(old_frontier.len() as int) == views(old_frontier@));
    let ghost f1 = views(kept@);

    let mut already = false;
    let mut e: usize = 0;
    while e < warmup.expanded_logins.len() && !already
        invariant
            e <= warmup.expanded_logins.len(),
            warmup.expanded_logins == w0.expanded_logins,
            already ==> 0 < e && eq_ignore_case(w0.expanded_logins@[e - 1]@, cl),
            !already ==> forall|k: int| 0 <= k < e ==> !eq_ignore_case(#[trigger] w0.expanded_logins@[k]@, cl),
            cl == canonical@,
        decreases warmup.expanded_logins.len() - e,
    {
        let c = text_from(&canonical);
        if crate::text::eq_ignore_ascii_case(warmup.expanded_logins[e].as_str(), c.as_str()) {
            already = true;
        }
        e += 1;
    }
    if !already {
        warmup.expanded_logins.push(text_from(&canonical));
    }
    proof {
        if already {
            assert(eq_ignore_case(w0.expanded_logins@[e - 1]@, cl));
            assert(views(warmup.expanded_logins@) == expanded_with(w0.expanded_logins@, cl));
        } else {
            assert(views(warmup.expanded_logins@) =~= views(w0.expanded_logins@).push(cl));
        }
    }
    let ghost e1 = views(warmup.expanded_logins@);
    assert(e1 == expanded_with(w0.expanded_logins@, cl));

    // The distinct lower-cased logins that are already known.
    let mut known: Vec<Vec<char>> = Vec::new();
    let ghost combined = e1 + f1;
    let mut j: usize = 0;
    while j < warmup.expanded_logins.len()
        invariant
            combined == e1 + f1,
            e1 == views(warmup.expanded_logins@),
            f1 == views(kept@),
            j <= e1.len(),
            known@.map_values(|v: Vec<char>| v@).no_duplicates(),
            known@.map_values(|v: Vec<char>| v@).to_set() == lowered(combined.take(j as int)).to_set(),
        decreases e1.len() - j,
    {
        let entry = lower_chars(&chars_of(warmup.expanded_logins[j].as_str()));
        proof {
            assert(entry@ == lower_seq(combined[j as int]));
            assert(lowered(combined.take(j + 1)) =~= lowered(combined.take(j as int)).push(entry@));
            lowered(combined.take(j as int)).lemma_push_to_set_commute(entry@);
        }
        insert_distinct(&mut known, entry);
        j += 1;
    }
    let mut j2: usize = 0;
    while j2 < kept.len()
        invariant
            combined == e1 + f1,
            e1 == views(warmup.expanded_logins@),
            f1 == views(kept@),
            j2 <= f1.len(),
            known@.map_values(|v: Vec<char>| v@).no_duplicates(),
            known@.map_values(|v: Vec<char>| v@).to_set() == lowered(combined.take((e1.len() + j2) as int)).to_set(),
        decreases f1.len() - j2,
    {
        let entry = lower_chars(&chars_of(kept[j2].as_str()));
        proof {
            let j = (e1.len() + j2) as int;
            assert(entry@ == lower_seq(combined[j]));
            assert(lowered(combined.take(j + 1)) =~= lowered(combined.take(j)).push(entry@));
            lowered(combined.take(j)).lemma_push_to_set_commute(entry@);
        }
        insert_distinct(&mut known, entry);
        j2 += 1;
    }
    assert(combined.take((e1.len() + f1.len()) as int) == combined);

    let ghost cands = neighbour_logins(*neighborhood);
    let ghost k0 = lowered(combined).to_set();
    let mut frontier = kept;
    let mut truncated = warmup.frontier_truncated;
    let ghost n_following = neighborhood.following@.len();
    proof {
        assert(cands.take(0) == Seq::<Seq<char>>::empty());
    }
    let mut c: usize = 0;
    while c < neighborhood.following.len()
        invariant
            cands == neighbour_logins(*neighborhood),
            n_following == neighborhood.following@.len(),
            c <= n_following,
            known@.map_values(|v: Vec<char>| v@).no_duplicates(),
            ({
                let (f, k, t) = absorb(f1, k0, w0.frontier_truncated, cands.take(c as int));
                &&& views(frontier@) == f
                &&& known@.map_values(|v: Vec<char>| v@).to_set() == k
                &&& truncated == t
            }),
        decreases n_following - c,
    {
        proof {
            lemma_absorb_step(f1, k0, w0.frontier_truncated, cands, c as int);
        }
        offer_candidate(&mut frontier, &mut known, &mut truncated, &neighborhood.following[c].profile.login);
        c += 1;
    }
    let mut d: usize = 0;
    while d < neighborhood.followers.len()
        invariant
            cands == neighbour_logins(*neighborhood),
            n_following == neighborhood.following@.len(),
            cands.len() == n_following + neighborhood.followers@.len(),
            d <= neighborhood.followers@.len(),
            known@.map_values(|v: Vec<char>| v@).no_duplicates(),
            ({
                let (f, k, t) = absorb(f1, k0, w0.frontier_truncated, cands.take((n_following + d) as int));
                &&& views(frontier@) == f
                &&& known@.map_values(|v: Vec<char>| v@).to_set() == k
                &&& truncated == t
            }),
        decreases neighborhood.followers@.len() - d,
    {
        proof {
            lemma_absorb_step(f1, k0, w0.frontier_truncated, cands, (n_following + d) as int);
        }
        offer_candidate(&mut frontier, &mut known, &mut truncated, &neighborhood.followers[d].profile.login);
        d += 1;
    }
    assert(cands.take(cands.len() as int) == cands);
    warmup.frontier = frontier;
    warmup.frontier_truncated = truncated;
}


proof fn lemma_lower_idempotent(x: Seq<char>)
    ensures
        lower_seq(lower_seq(x)) == lower_seq(x),
{
    assert forall|i: int| 0 <= i < x.len() implies #[trigger] lower_seq(lower_seq(x))[i] == lower_seq(
        x,
    )[i] by {
        let c = x[i];
        if 'A' <= c && c <= 'Z' {
            assert(((c as u32) + 32) as char as u32 == (c as u32) + 32);
        }
    }
    assert(lower_seq(lower_seq(x)) =~= lower_seq(x));
}

proof fn lemma_normalized_is_lower(raw: Seq<char>)
    requires
        normalized_login(raw) is Some,
    ensures
        lower_seq(normalized_login(raw)->0) == normalized_login(raw)->0,
{
    lemma_lower_idempotent(crate::text::trim_seq(raw));
}

/// What `absorb` adds: only new, lower-case logins, at most up to the limit.
proof fn lemma_absorb_grows(
    f: Seq<Seq<char>>,
    k: Set<Seq<char>>,
    t: bool,
    cands: Seq<Seq<char>>,
)
    requires
        k.finite(),
        forall|i: int| 0 <= i < f.len() ==> k.contains(lower_seq(#[trigger] f[i])),
        distinct_ignoring_case(f),
    ensures
        ({
            let (f2, k2, t2) = absorb(f, k, t, cands);
            &&& k2.finite()
            &&& k.subset_of(k2)
            &&& k2.len() <= if k.len() > DISCOVERY_WARMUP_TOTAL_USER_LIMIT {
                k.len()
            } else {
                DISCOVERY_WARMUP_TOTAL_USER_LIMIT as nat
            }
            &&& f2.len() >= f.len()
            &&& f2.subrange(0, f.len() as int) == f
            &&& forall|i: int| 0 <= i < f2.len() ==> k2.contains(lower_seq(#[trigger] f2[i]))
            &&& distinct_ignoring_case(f2)
            &&& forall|i: int| f.len() <= i < f2.len() ==> !k.contains(lower_seq(#[trigger] f2[i]))
            &&& k2.len() - k.len() == f2.len() - f.len()
        }),
    decreases cands.len(),
{
    if cands.len() > 0 {
        lemma_absorb_grows(f, k, t, cands.drop_last());
        let (f1, k1, t1) = absorb(f, k, t, cands.drop_last());
        match normalized_login(cands.last()) {
            None => {},
            Some(n) => {
                if !k1.contains(n) && k1.len() < DISCOVERY_WARMUP_TOTAL_USER_LIMIT {
                    lemma_normalized_is_lower(cands.last());
                    let f2 = f1.push(n);
                    assert(f2.subrange(0, f.len() as int) == f1.subrange(0, f.len() as int));
                    assert forall|i: int| 0 <= i < f2.len() implies k1.insert(n).contains(
                        lower_seq(#[trigger] f2[i]),
                    ) by {
                        if i < f1.len() {
                            assert(f2[i] == f1[i]);
                        }
                    }
                    assert forall|i: int, j: int| 0 <= i < j < f2.len() implies lower_seq(f2[i])
                        != lower_seq(f2[j]) by {
                        if j == f1.len() {
                            assert(k1.contains(lower_seq(f1[i])));
                        } else {
                            assert(f2[i] == f1[i] && f2[j] == f1[j]);
                        }
                    }
                    assert forall|i: int| f.len() <= i < f2.len() implies !k.contains(
                        lower_seq(#[trigger] f2[i]),
                    ) by {
                        if i < f1.len() {
                            assert(f2[i] == f1[i]);
                        } else {
                            assert(k.subset_of(k1));
                        }
                    }
                }
            },
        }
    }
}

/// Law: an expansion keeps a warmup's expanded and pending logins distinct (ignoring case),
/// and the warmup never discovers more than the total user limit, except for the one expanded
/// login itself when the limit was already reached.
pub proof fn law_warmup_frontier_stays_distinct_and_bounded(
    warmup: DiscoveryWarmupJob,
    requested: Seq<char>,
    neighborhood: UserNeighborhood,
)
    requires
        distinct_ignoring_case(views(warmup.expanded_logins@) + views(warmup.frontier@)),
    ensures
        ({
            let cl = lower_seq(neighborhood.user.profile.login@);
            let (f, k, t) = advanced(warmup, requested, neighborhood);
            let e = expanded_with(warmup.expanded_logins@, cl);
            let before = (warmup.expanded_logins@.len() + warmup.frontier@.len()) as int;
            &&& distinct_ignoring_case(e + f)
            &&& e.len() + f.len() <= if before + 1 > DISCOVERY_WARMUP_TOTAL_USER_LIMIT {
                before + 1
            } else {
                DISCOVERY_WARMUP_TOTAL_USER_LIMIT as int
            }
        }),
{
    let rl = lower_seq(requested);
    let cl = lower_seq(neighborhood.user.profile.login@);
    let ev = views(warmup.expanded_logins@);
    let fv = views(warmup.frontier@);
    let keep = |l: Seq<char>| lower_seq(l) != rl && lower_seq(l) != cl;
    let f1 = frontier_without(warmup.frontier@, rl, cl);
    let e1 = expanded_with(warmup.expanded_logins@, cl);
    let both = ev + fv;
    assert(f1 == fv.filter(keep));
    assert(distinct_ignoring_case(fv)) by {
        assert forall|i: int, j: int| 0 <= i < j < fv.len() implies lower_seq(fv[i]) != lower_seq(fv[j]) by {
            assert(both[ev.len() + i] == fv[i] && both[ev.len() + j] == fv[j]);
        }
    }
    lemma_filter_distinct(fv, keep);
    let c = e1 + f1;
    assert(distinct_ignoring_case(c)) by {
        assert forall|i: int, j: int| 0 <= i < j < c.len() implies lower_seq(c[i]) != lower_seq(
            c[j],
        ) by {
            if j < e1.len() {
                if j < ev.len() {
                    assert(c[i] == ev[i] && c[j] == ev[j] && both[i] == ev[i] && both[j] == ev[j]);
                } else {
                    lemma_lower_idempotent(neighborhood.user.profile.login@);
                    assert(c[j] == cl);
                    assert(!eq_ignore_case(warmup.expanded_logins@[i]@, cl));
                    assert(ev[i] == warmup.expanded_logins@[i]@);
                }
            } else if i < e1.len() {
                let jj = j - e1.len();
                assert(c[j] == f1[jj]);
                lemma_filter_member(fv, keep, jj);
                let b = choose|b: int| 0 <= b < fv.len() && fv[b] == fv.filter(keep)[jj];
                if i < ev.len() {
                    assert(c[i] == ev[i] && both[i] == ev[i] && both[ev.len() + b] == fv[b]);
                } else {
                    lemma_lower_idempotent(neighborhood.user.profile.login@);
                    assert(keep(f1[jj]));
                }
            } else {
                assert(c[i] == f1[i - e1.len()] && c[j] == f1[j - e1.len()]);
            }
        }
    }
    let k0 = lowered(c).to_set();
    assert(lowered(c).no_duplicates());
    lowered(c).unique_seq_to_set();
    assert forall|i: int| 0 <= i < f1.len() implies k0.contains(lower_seq(#[trigger] f1[i])) by {
        assert(lowered(c)[e1.len() + i] == lower_seq(f1[i]));
    }
    lemma_absorb_grows(f1, k0, warmup.frontier_truncated, neighbour_logins(neighborhood));
    let (f, k, t) = absorb(f1, k0, warmup.frontier_truncated, neighbour_logins(neighborhood));
    // The final lists.
    assert(f.subrange(0, f1.len() as int) == f1);
    assert forall|i: int, j: int| 0 <= i < j < (e1 + f).len() implies lower_seq((e1 + f)[i])
        != lower_seq((e1 + f)[j]) by {
        let d = e1 + f;
        if j < e1.len() + f1.len() {
            assert(d[i] == c[i] && d[j] == c[j]);
        } else if i < e1.len() + f1.len() {
            assert(d[i] == c[i]);
            assert(lowered(c)[i] == lower_seq(c[i]));
            assert(k0.contains(lower_seq(d[i])));
            assert(d[j] == f[j - e1.len()]);
        } else {
            assert(d[i] == f[i - e1.len()] && d[j] == f[j - e1.len()]);
        }
    }
    assert(lowered(c).len() == c.len());
    assert(fv.filter(keep).len() <= fv.len()) by {
        broadcast use vstd::seq_lib::group_filter_ensures;
    }
}

/// Every entry of a filter is an entry of the filtered sequence that passes the predicate.
proof fn lemma_filter_member(s: Seq<Seq<char>>, p: spec_fn(Seq<char>) -> bool, i: int)
    requires
        0 <= i < s.filter(p).len(),
    ensures
        exists|a: int| 0 <= a < s.len() && s[a] == s.filter(p)[i],
        p(s.filter(p)[i]),
    decreases s.len(),
{
    broadcast use vstd::seq_lib::group_filter_ensures;

    reveal(Seq::filter);
    let t = s.drop_last();
    if p(s.last()) && i == s.filter(p).len() - 1 {
        assert(s.filter(p) == t.filter(p).push(s.last()));
        assert(s[s.len() - 1] == s.filter(p)[i]);
    } else {
        if p(s.last()) {
            assert(s.filter(p) == t.filter(p).push(s.last()));
        } else {
            assert(s.filter(p) == t.filter(p));
        }
        assert(s.filter(p)[i] == t.filter(p)[i]);
        lemma_filter_member(t, p, i);
        let a = choose|a: int| 0 <= a < t.len() && t[a] == t.filter(p)[i];
        assert(s[a] == t[a]);
    }
}

/// Filtering keeps a sequence distinct (ignoring case).
/// Law: an expansion removes the expanded login from the frontier for good and keeps the
/// rest of the frontier in order: what was pending, but for the requested and the canonical
/// login, stays first, in its order; the logins after it are new to the warmup; and no
/// pending login is the canonical login, ignoring case. (The requested login can come back
/// only as a new neighbour, where GitHub renamed it.)
pub proof fn law_expansion_keeps_the_frontier_in_order(
    warmup: DiscoveryWarmupJob,
    requested: Seq<char>,
    neighborhood: UserNeighborhood,
)
    requires
        distinct_ignoring_case(views(warmup.expanded_logins@) + views(warmup.frontier@)),
    ensures
        ({
            let rl = lower_seq(requested);
            let cl = lower_seq(neighborhood.user.profile.login@);
            let f1 = frontier_without(warmup.frontier@, rl, cl);
            let e1 = expanded_with(warmup.expanded_logins@, cl);
            let f = advanced(warmup, requested, neighborhood).0;
            &&& f.len() >= f1.len()
            &&& f.subrange(0, f1.len() as int) == f1
            &&& forall|i: int| 0 <= i < f1.len() ==> lower_seq(#[trigger] f[i]) != rl
            &&& forall|i: int| 0 <= i < f.len() ==> lower_seq(#[trigger] f[i]) != cl
            &&& forall|i: int|
                f1.len() <= i < f.len() ==> !lowered(e1 + f1).contains(lower_seq(#[trigger] f[i]))
        }),
{
    let rl = lower_seq(requested);
    let cl = lower_seq(neighborhood.user.profile.login@);
    let ev = views(warmup.expanded_logins@);
    let fv = views(warmup.frontier@);
    let keep = |l: Seq<char>| lower_seq(l) != rl && lower_seq(l) != cl;
    let f1 = frontier_without(warmup.frontier@, rl, cl);
    let e1 = expanded_with(warmup.expanded_logins@, cl);
    let both = ev + fv;
    let c = e1 + f1;
    let k = lowered(c).to_set();
    assert(f1 == fv.filter(keep));
    assert(distinct_ignoring_case(fv)) by {
        assert forall|i: int, j: int| 0 <= i < j < fv.len() implies lower_seq(fv[i]) != lower_seq(fv[j]) by {
            assert(both[ev.len() + i] == fv[i] && both[ev.len() + j] == fv[j]);
        }
    }
    lemma_filter_distinct(fv, keep);
    vstd::seq_lib::seq_to_set_is_finite(lowered(c));
    assert forall|i: int| 0 <= i < f1.len() implies k.contains(lower_seq(#[trigger] f1[i])) by {
        assert(lowered(c)[e1.len() + i] == lower_seq(f1[i]));
        assert(lowered(c).contains(lower_seq(f1[i])));
    }
    lemma_absorb_grows(f1, k, warmup.frontier_truncated, neighbour_logins(neighborhood));
    let f = advanced(warmup, requested, neighborhood).0;
    assert forall|i: int| 0 <= i < f1.len() implies lower_seq(#[trigger] f[i]) != rl by {
        assert(f.subrange(0, f1.len() as int)[i] == f[i]);
        assert(f1.contains(f1[i]));
        fv.lemma_filter_pred(keep, i);
    }
    lemma_lower_idempotent(neighborhood.user.profile.login@);
    let p: int = if exists|i: int|
        0 <= i < warmup.expanded_logins@.len() && eq_ignore_case(
            #[trigger] warmup.expanded_logins@[i]@,
            cl,
        ) {
        choose|i: int|
            0 <= i < warmup.expanded_logins@.len() && eq_ignore_case(
                #[trigger] warmup.expanded_logins@[i]@,
                cl,
            )
    } else {
        ev.len() as int
    };
    assert(0 <= p < c.len() && lower_seq(c[p]) == cl);
    assert(k.contains(cl)) by {
        assert(lowered(c)[p] == cl);
    }
    assert forall|i: int| 0 <= i < f.len() implies lower_seq(#[trigger] f[i]) != cl by {
        if i < f1.len() {
            assert(f.subrange(0, f1.len() as int)[i] == f[i]);
            fv.lemma_filter_pred(keep, i);
        }
    }
    assert forall|i: int| f1.len() <= i < f.len() implies !lowered(c).contains(
        lower_seq(#[trigger] f[i]),
    ) by {
        if lowered(c).contains(lower_seq(f[i])) {
            assert(k.contains(lower_seq(f[i])));
        }
    }
}

proof fn lemma_filter_distinct(s: Seq<Seq<char>>, p: spec_fn(Seq<char>) -> bool)
    requires
        distinct_ignoring_case(s),
    ensures
        distinct_ignoring_case(s.filter(p)),
    decreases s.len(),
{
    reveal(Seq::filter);
    if s.len() > 0 {
        let t = s.drop_last();
        assert(distinct_ignoring_case(t)) by {
            assert forall|i: int, j: int| 0 <= i < j < t.len() implies lower_seq(t[i]) != lower_seq(t[j]) by {
                assert(t[i] == s[i] && t[j] == s[j]);
            }
        }
        lemma_filter_distinct(t, p);
        if p(s.last()) {
            let f = s.filter(p);
            assert(f == t.filter(p).push(s.last()));
            assert forall|i: int, j: int| 0 <= i < j < f.len() implies lower_seq(f[i]) != lower_seq(f[j]) by {
                if j == f.len() - 1 {
                    lemma_filter_member(t, p, i);
                    let a = choose|a: int| 0 <= a < t.len() && t[a] == t.filter(p)[i];
                    assert(s[a] == t[a]);
                    assert(f[i] == t.filter(p)[i]);
                    assert(f[j] == s[s.len() - 1]);
                } else {
                    assert(f[i] == t.filter(p)[i] && f[j] == t.filter(p)[j]);
                }
            }
        } else {
            assert(s.filter(p) == t.filter(p));
        }
    }
}


/// How a warmup batch ended, for the scheduler.
#[derive(Debug, Clone, Copy, PartialEq, Eq, Structural)]
pub enum DiscoveryWarmupBatchResult {
    Continue,
    Stop,
    PeerActive,
}

/// The first thousand characters of an error's text, as stored on a failed warmup.
pub open spec fn warmup_error_text(e: AppError) -> Seq<char> {
    let t = error_text(e);
    if t.len() <= 1000 {
        t
    } else {
        t.take(1000)
    }
}

/// The error message kept on a failed warmup: at most 1,000 characters.
pub fn truncate_warmup_error(error: &AppError) -> (r: String)
    ensures
        r@ == warmup_error_text(*error),
{
    let text = error.message();
    let chars = chars_of(text.as_str());
    if chars.len() <= 1000 {
        text
    } else {
        let mut kept: Vec<char> = Vec::new();
        let mut i: usize = 0;
        while i < 1000
            invariant
                i <= 1000 < chars@.len(),
                kept@ == chars@.take(i as int),
            decreases 1000 - i,
        {
            kept.push(chars[i]);
            i += 1;
            assert(chars@.take(i as int) == chars@.take(i - 1).push(chars@[i - 1]));
        }
        string_from_chars(&kept)
    }
}

/// A new warmup that starts from the connected account's own login.
pub fn new_warmup_job(id: String, seed_login: String, now: i64) -> (r: DiscoveryWarmupJob)
    ensures
        r.id == id,
        r.seed_login == seed_login,
        r.status is Queued,
        r.current_login is None,
        r.expanded_logins@.len() == 0,
        views(r.frontier@) == seq![seed_login@],
        !r.frontier_truncated,
        r.remaining_requests is None,
        r.reserve_requests == GITHUB_CORE_REST_RESERVE,
        r.reset_at is None,
        r.started_at == now,
        r.updated_at == now,
        r.completed_at is None,
        r.last_error is None,
{
    let frontier = vec![seed_login.clone()];
    let r = DiscoveryWarmupJob {
        id,
        seed_login,
        status: DiscoveryWarmupStatus::Queued,
        current_login: None,
        expanded_logins: Vec::new(),
        frontier,
        frontier_truncated: false,
        remaining_requests: None,
        reserve_requests: GITHUB_CORE_REST_RESERVE,
        reset_at: None,
        started_at: now,
        updated_at: now,
        completed_at: None,
        last_error: None,
    };
    assert(views(r.frontier@) =~= seq![r.seed_login@]);
    r
}

/// A reserve-protected warmup may resume once the GitHub window it waited for has reset.
pub open spec fn resumable(existing: DiscoveryWarmupJob, now: i64) -> bool {
    existing.status is ReserveProtected && existing.reset_at is Some && existing.reset_at->0 <= now
}

/// The warmup to resume after the rate-limit window reset, if the existing one may resume:
/// queued again, with the reset bookkeeping cleared and the frontier kept.
pub fn resume_after_reset(existing: &DiscoveryWarmupJob, now: i64) -> (r: Option<
    DiscoveryWarmupJob,
>)
    ensures
        r is Some <==> resumable(*existing, now),
        r matches Some(w) ==> {
            &&& w.status is Queued
            &&& w.current_login is None
            &&& w.remaining_requests is None
            &&& w.reset_at is None
            &&& w.updated_at == now
            &&& w.completed_at is None
            &&& w.last_error is None
            &&& w.id == existing.id
            &&& w.seed_login == existing.seed_login
            &&& w.expanded_logins@ == existing.expanded_logins@
            &&& w.frontier@ == existing.frontier@
            &&& w.frontier_truncated == existing.frontier_truncated
            &&& w.reserve_requests == existing.reserve_requests
            &&& w.started_at == existing.started_at
        },
{
    let ready = match existing.reset_at {
        Some(reset_at) => reset_at <= now,
        None => false,
    };
    if existing.status == DiscoveryWarmupStatus::ReserveProtected && ready {
        let expanded_logins = existing.expanded_logins.clone();
        let frontier = existing.frontier.clone();
        assert(expanded_logins@ =~= existing.expanded_logins@);
        assert(frontier@ =~= existing.frontier@);
        Some(DiscoveryWarmupJob {
            id: existing.id.clone(),
            seed_login: existing.seed_login.clone(),
            status: DiscoveryWarmupStatus::Queued,
            current_login: None,
            expanded_logins,
            frontier,
            frontier_truncated: existing.frontier_truncated,
            remaining_requests: None,
            reserve_requests: existing.reserve_requests,
            reset_at: None,
            started_at: existing.started_at,
            updated_at: now,
            completed_at: None,
            last_error: None,
        })
    } else {
        None
    }
}

/// Whether a start request keeps the stored warmup: any warmup that has not failed is kept.
pub fn keeps_existing_warmup(existing: &Option<DiscoveryWarmupJob>) -> (r: bool)
    ensures
        r == (existing matches Some(w) && !(w.status is Failed)),
{
    match existing {
        Some(w) => w.status != DiscoveryWarmupStatus::Failed,
        None => false,
    }
}

/// A cached neighbourhood is used as is when it is fresh and complete.
pub fn neighborhood_is_current(neighborhood: &UserNeighborhood) -> (r: bool)
    ensures
        r == (neighborhood.user.neighborhood_cache_status is Fresh
            && neighborhood.coverage.complete()),
{
    neighborhood.user.neighborhood_cache_status == CacheStatus::Fresh
        && neighborhood.coverage.is_complete()
}

/// A warmup with nothing left to expand completes.
pub fn complete_exhausted_warmup(warmup: &mut DiscoveryWarmupJob, now: i64)
    requires
        old(warmup).frontier@.len() == 0,
    ensures
        final(warmup).status is Completed,
        final(warmup).current_login is None,
        final(warmup).updated_at == now,
        final(warmup).completed_at == Some(now),
        final(warmup).frontier == old(warmup).frontier,
        final(warmup).expanded_logins == old(warmup).expanded_logins,
        final(warmup).last_error == old(warmup).last_error,
{
    warmup.status = DiscoveryWarmupStatus::Completed;
    warmup.current_login = None;
    warmup.updated_at = now;
    warmup.completed_at = Some(now);
}

/// Starts a warmup batch at `now`: the logins already expanded leave the frontier; where
/// nothing is left the warmup completes and no login is given, otherwise the frontier's
/// first login is the one to expand next and the warmup is otherwise unchanged.
pub fn begin_warmup_batch(warmup: &mut DiscoveryWarmupJob, now: i64) -> (r: Option<String>)
    ensures
        views(final(warmup).frontier@) == frontier_without_expanded(
            old(warmup).frontier@,
            old(warmup).expanded_logins@,
        ),
        final(warmup).expanded_logins == old(warmup).expanded_logins,
        r is None <==> final(warmup).frontier@.len() == 0,
        r is None ==> {
            &&& final(warmup).status is Completed
            &&& final(warmup).current_login is None
            &&& final(warmup).updated_at == now
            &&& final(warmup).completed_at == Some(now)
        },
        r matches Some(login) ==> {
            &&& login@ == final(warmup).frontier@[0]@
            &&& final(warmup).status == old(warmup).status
            &&& final(warmup).current_login == old(warmup).current_login
        },
{
    remove_expanded_frontier_entries(warmup);
    if warmup.frontier.len() == 0 {
        complete_exhausted_warmup(warmup, now);
        None
    } else {
        Some(warmup.frontier[0].clone())
    }
}

/// A warmup that starts expanding `login`.
pub fn mark_warmup_running(warmup: &mut DiscoveryWarmupJob, login: String, now: i64)
    ensures
        final(warmup).status is Running,
        final(warmup).current_login == Some(login),
        final(warmup).updated_at == now,
        final(warmup).completed_at is None,
        final(warmup).last_error is None,
        final(warmup).frontier == old(warmup).frontier,
        final(warmup).expanded_logins == old(warmup).expanded_logins,
{
    warmup.status = DiscoveryWarmupStatus::Running;
    warmup.current_login = Some(login);
    warmup.updated_at = now;
    warmup.completed_at = None;
    warmup.last_error = None;
}

/// A warmup that failed with `error`.
pub fn mark_warmup_failed(warmup: &mut DiscoveryWarmupJob, error: &AppError, now: i64)
    ensures
        final(warmup).status is Failed,
        final(warmup).current_login is None,
        final(warmup).updated_at == now,
        final(warmup).completed_at == Some(now),
        final(warmup).last_error matches Some(m) && m@ == warmup_error_text(*error),
        final(warmup).frontier == old(warmup).frontier,
        final(warmup).expanded_logins == old(warmup).expanded_logins,
{
    warmup.status = DiscoveryWarmupStatus::Failed;
    warmup.current_login = None;
    warmup.updated_at = now;
    warmup.completed_at = Some(now);
    warmup.last_error = Some(truncate_warmup_error(error));
}

/// A warmup stopped because the next expansion would spend the reserved REST budget.
pub fn mark_warmup_reserve_protected(
    warmup: &mut DiscoveryWarmupJob,
    remaining: usize,
    reset_at: i64,
    now: i64,
)
    ensures
        final(warmup).status is ReserveProtected,
        final(warmup).current_login is None,
        final(warmup).remaining_requests == Some(remaining),
        final(warmup).reset_at == Some(reset_at),
        final(warmup).updated_at == now,
        final(warmup).completed_at == Some(now),
        final(warmup).last_error is None,
        final(warmup).frontier == old(warmup).frontier,
        final(warmup).expanded_logins == old(warmup).expanded_logins,
{
    warmup.status = DiscoveryWarmupStatus::ReserveProtected;
    warmup.current_login = None;
    warmup.remaining_requests = Some(remaining);
    warmup.reset_at = Some(reset_at);
    warmup.updated_at = now;
    warmup.completed_at = Some(now);
    warmup.last_error = None;
}

/// Records a successful expansion of `requested`. `observed` is the REST budget read after a
/// live refresh (remaining requests and reset time), absent when a cached neighbourhood was used.
/// The warmup stops when the budget reached its reserve or the frontier is empty, else requeues.
pub fn record_warmup_expansion(
    warmup: &mut DiscoveryWarmupJob,
    requested: &str,
    neighborhood: &UserNeighborhood,
    observed: Option<(usize, i64)>,
    now: i64,
) -> (r: DiscoveryWarmupBatchResult)
    ensures
        ({
            let (f, k, t) = advanced(*old(warmup), requested@, *neighborhood);
            &&& views(final(warmup).frontier@) == f
            &&& views(final(warmup).expanded_logins@) == expanded_with(
                old(warmup).expanded_logins@,
                lower_seq(neighborhood.user.profile.login@),
            )
            &&& final(warmup).frontier_truncated == t
        }),
        final(warmup).current_login is None,
        final(warmup).updated_at == now,
        observed matches Some((rem, reset)) ==> final(warmup).remaining_requests == Some(rem)
            && final(warmup).reset_at == Some(reset),
        observed is None ==> final(warmup).remaining_requests == old(warmup).remaining_requests
            && final(warmup).reset_at == old(warmup).reset_at,
        observed matches Some((rem, _)) && rem <= old(warmup).reserve_requests ==> {
            &&& final(warmup).status is ReserveProtected
            &&& final(warmup).completed_at == Some(now)
            &&& r is Stop
        },
        !(observed matches Some((rem, _)) && rem <= old(warmup).reserve_requests)
            && final(warmup).frontier@.len() == 0 ==> {
            &&& final(warmup).status is Completed
            &&& final(warmup).completed_at == Some(now)
            &&& r is Stop
        },
        !(observed matches Some((rem, _)) && rem <= old(warmup).reserve_requests)
            && final(warmup).frontier@.len() != 0 ==> {
            &&& final(warmup).status is Queued
            &&& final(warmup).completed_at is None
            &&& r is Continue
        },
        final(warmup).last_error == old(warmup).last_error,
        final(warmup).reserve_requests == old(warmup).reserve_requests,
{
    advance_warmup_frontier(warmup, requested, neighborhood);
    let mut protected = false;
    if let Some((remaining, reset_at)) = observed {
        warmup.remaining_requests = Some(remaining);
        warmup.reset_at = Some(reset_at);
        protected = remaining <= warmup.reserve_requests;
    }
    warmup.current_login = None;
    warmup.updated_at = now;
    if protected {
        warmup.status = DiscoveryWarmupStatus::ReserveProtected;
        warmup.completed_at = Some(now);
        DiscoveryWarmupBatchResult::Stop
    } else if warmup.frontier.len() == 0 {
        warmup.status = DiscoveryWarmupStatus::Completed;
        warmup.completed_at = Some(now);
        DiscoveryWarmupBatchResult::Stop
    } else {
        warmup.status = DiscoveryWarmupStatus::Queued;
        warmup.completed_at = None;
        DiscoveryWarmupBatchResult::Continue
    }
}

} // verus!
