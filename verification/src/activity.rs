//! A user's private list of recently explored people: ordering, visibility and retention.
use vstd::prelude::*;

use crate::discovery::{ExplorationDirection, MAX_HIDDEN_RECENT_PEOPLE, MAX_RECENT_PEOPLE};
use crate::error::AppError;
use crate::text::owned;

verus! {

/// One remembered visit, keyed by the person's stable GitHub id.
#[derive(Debug, Clone, PartialEq, Eq)]
pub struct StoredRecentPerson {
    pub github_id: i64,
    pub trail_github_ids: Vec<i64>,
    pub trail: Vec<String>,
    pub direction: ExplorationDirection,
    pub last_viewed_at: i64,
    pub visit_count: u64,
    pub visible: bool,
}

/// The stored list, most recent first, and the deepest trail ever recorded.
#[derive(Debug, Clone, PartialEq, Eq, Default)]
pub struct StoredExplorationActivity {
    pub recent_people: Vec<StoredRecentPerson>,
    pub max_trail_depth: usize,
}

pub open spec fn count_visible(s: Seq<StoredRecentPerson>) -> nat
    decreases s.len(),
{
    if s.len() == 0 {
        0
    } else {
        count_visible(s.drop_last()) + if s.last().visible {
            1nat
        } else {
            0nat
        }
    }
}

pub open spec fn count_hidden(s: Seq<StoredRecentPerson>) -> nat
    decreases s.len(),
{
    if s.len() == 0 {
        0
    } else {
        count_hidden(s.drop_last()) + if s.last().visible {
            0nat
        } else {
            1nat
        }
    }
}

/// The list with only the first `MAX_RECENT_PEOPLE` visible and the first
/// `MAX_HIDDEN_RECENT_PEOPLE` hidden people kept, in order.
pub open spec fn pruned(s: Seq<StoredRecentPerson>) -> Seq<StoredRecentPerson>
    decreases s.len(),
{
    if s.len() == 0 {
        s
    } else {
        let p = pruned(s.drop_last());
        let x = s.last();
        if x.visible {
            if count_visible(s.drop_last()) < MAX_RECENT_PEOPLE {
                p.push(x)
            } else {
                p
            }
        } else {
            if count_hidden(s.drop_last()) < MAX_HIDDEN_RECENT_PEOPLE {
                p.push(x)
            } else {
                p
            }
        }
    }
}

proof fn lemma_counts_push(s: Seq<StoredRecentPerson>, x: StoredRecentPerson)
    ensures
        count_visible(s.push(x)) == count_visible(s) + if x.visible {
            1nat
        } else {
            0nat
        },
        count_hidden(s.push(x)) == count_hidden(s) + if x.visible {
            0nat
        } else {
            1nat
        },
        pruned(s.push(x)) == if x.visible {
            if count_visible(s) < MAX_RECENT_PEOPLE {
                pruned(s).push(x)
            } else {
                pruned(s)
            }
        } else {
            if count_hidden(s) < MAX_HIDDEN_RECENT_PEOPLE {
                pruned(s).push(x)
            } else {
                pruned(s)
            }
        },
{
    assert(s.push(x).drop_last() == s);
}

/// Drops the people beyond the visible and hidden retention bounds.
pub fn prune_stored_recent_people(activity: &mut StoredExplorationActivity)
    ensures
        final(activity).recent_people@ == pruned(old(activity).recent_people@),
        final(activity).max_trail_depth == old(activity).max_trail_depth,
{
    let mut rest: Vec<StoredRecentPerson> = Vec::new();
    std::mem::swap(&mut rest, &mut activity.recent_people);
    let ghost all = rest@;
    assert(all.len() == rest.len());
    let mut kept: Vec<StoredRecentPerson> = Vec::new();
    let mut visible: usize = 0;
    let mut hidden: usize = 0;
    let mut i: usize = 0;
    while rest.len() > 0
        invariant
            i <= all.len(),
            all.len() <= usize::MAX,
            rest@ == all.skip(i as int),
            kept@ == pruned(all.take(i as int)),
            visible == count_visible(all.take(i as int)),
            hidden == count_hidden(all.take(i as int)),
            visible + hidden == i,
        decreases rest.len(),
    {
        let person = rest.remove(0);
        proof {
            assert(person == all[i as int]);
            assert(all.take(i + 1) == all.take(i as int).push(all[i as int]));
            lemma_counts_push(all.take(i as int), all[i as int]);
            assert(rest@ == all.skip(i + 1));
        }
        if person.visible {
            if visible < MAX_RECENT_PEOPLE {
                kept.push(person);
            }
            visible += 1;
        } else {
            if hidden < MAX_HIDDEN_RECENT_PEOPLE {
                kept.push(person);
            }
            hidden += 1;
        }
        i += 1;
    }
    assert(all.take(all.len() as int) == all);
    activity.recent_people = kept;
}


/// The first position of the person with `github_id`, or -1.
pub open spec fn position_of_id(s: Seq<StoredRecentPerson>, github_id: i64) -> int
    decreases s.len(),
{
    if s.len() == 0 {
        -1
    } else {
        let p = position_of_id(s.drop_last(), github_id);
        if p >= 0 {
            p
        } else if s.last().github_id == github_id {
            s.len() - 1
        } else {
            -1
        }
    }
}

proof fn lemma_position_of_id(s: Seq<StoredRecentPerson>, github_id: i64)
    ensures
        -1 <= position_of_id(s, github_id) < s.len(),
        position_of_id(s, github_id) >= 0 ==> s[position_of_id(s, github_id)].github_id == github_id,
        position_of_id(s, github_id) >= 0 ==> forall|k: int|
            0 <= k < position_of_id(s, github_id) ==> s[k].github_id != github_id,
        position_of_id(s, github_id) < 0 ==> forall|k: int| 0 <= k < s.len() ==> s[k].github_id != github_id,
    decreases s.len(),
{
    if s.len() > 0 {
        lemma_position_of_id(s.drop_last(), github_id);
        assert forall|k: int| 0 <= k < s.len() - 1 implies s[k] == s.drop_last()[k] by {}
    }
}

fn find_person(people: &Vec<StoredRecentPerson>, github_id: i64) -> (r: Option<usize>)
    ensures
        r is None ==> position_of_id(people@, github_id) < 0,
        r is Some ==> r->0 as int == position_of_id(people@, github_id),
{
    proof {
        lemma_position_of_id(people@, github_id);
    }
    let mut i: usize = 0;
    while i < people.len()
        invariant
            i <= people.len(),
            forall|k: int| 0 <= k < i ==> people@[k].github_id != github_id,
        decreases people.len() - i,
    {
        if people[i].github_id == github_id {
            proof {
                lemma_position_of_id(people@, github_id);
                let p = position_of_id(people@, github_id);
                if p < 0 {
                    assert(people@[i as int].github_id != github_id);
                } else {
                    assert(!(p < i));
                    if p > i {
                        assert(people@[i as int].github_id != github_id);
                    }
                }
            }
            return Some(i);
        }
        i += 1;
    }
    proof {
        lemma_position_of_id(people@, github_id);
        let p = position_of_id(people@, github_id);
        if p >= 0 {
            assert(people@[p].github_id != github_id);
        }
    }
    None
}

/// Whether a visited person stays visible: a remembered person keeps its visibility.
pub open spec fn visit_visible(s: Seq<StoredRecentPerson>, github_id: i64) -> bool {
    let p = position_of_id(s, github_id);
    if p >= 0 {
        s[p].visible
    } else {
        true
    }
}

/// How often the person was visited before.
pub open spec fn visits_before(s: Seq<StoredRecentPerson>, github_id: i64) -> u64 {
    let p = position_of_id(s, github_id);
    if p >= 0 {
        s[p].visit_count
    } else {
        0
    }
}

/// The list without the visited person's earlier entry.
pub open spec fn without_person(s: Seq<StoredRecentPerson>, github_id: i64) -> Seq<
    StoredRecentPerson,
> {
    let p = position_of_id(s, github_id);
    if p >= 0 {
        s.remove(p)
    } else {
        s
    }
}

/// The deepest trail after recording one of `trail_len` people.
pub open spec fn deeper(old_depth: usize, trail_len: nat) -> usize {
    let d = if trail_len == 0 {
        0
    } else {
        (trail_len - 1) as nat
    };
    if d > old_depth {
        d as usize
    } else {
        old_depth
    }
}

/// What recording a visit does: the person moves to the front with the new trail,
/// direction and time, one more visit and the visibility they had (a new person is
/// visible); the list is then pruned and the deepest trail depth kept.
pub open spec fn visit_recorded(
    a: StoredExplorationActivity,
    b: StoredExplorationActivity,
    github_id: i64,
    trail_github_ids: Seq<i64>,
    trail: Seq<Seq<char>>,
    direction: ExplorationDirection,
    now: i64,
) -> bool {
    let s = a.recent_people@;
    let f = b.recent_people@;
    &&& f == pruned(seq![f[0]] + without_person(s, github_id))
    &&& f[0].github_id == github_id
    &&& f[0].trail_github_ids@ == trail_github_ids
    &&& crate::discovery::views(f[0].trail@) == trail
    &&& f[0].direction == direction
    &&& f[0].last_viewed_at == now
    &&& f[0].visible == visit_visible(s, github_id)
    &&& f[0].visit_count == if visits_before(s, github_id) == u64::MAX {
        u64::MAX
    } else {
        (visits_before(s, github_id) + 1) as u64
    }
    &&& b.max_trail_depth == deeper(a.max_trail_depth, trail_github_ids.len())
}

/// What changing a person's visibility does: an unrecorded person is refused and nothing
/// changes; a recorded one moves to the front with the new visibility and time, and the
/// list is pruned.
pub open spec fn visibility_changed(
    a: StoredExplorationActivity,
    b: StoredExplorationActivity,
    github_id: i64,
    visible: bool,
    now: i64,
    r: Result<(), AppError>,
) -> bool {
    &&& position_of_id(a.recent_people@, github_id) < 0 ==> r is Err && r->Err_0 is NotFound
        && r->Err_0->NotFound_0@ == "recent person was not recorded"@ && b == a
    &&& position_of_id(a.recent_people@, github_id) >= 0 ==> r is Ok && ({
        let s = a.recent_people@;
        let p = position_of_id(s, github_id);
        let f = b.recent_people@;
        &&& f == pruned(seq![f[0]] + s.remove(p))
        &&& f[0] == (StoredRecentPerson { visible, last_viewed_at: now, ..s[p] })
    })
    &&& b.max_trail_depth == a.max_trail_depth
}

/// Records a visit: the person moves to the front with the new trail, direction and time,
/// one more visit, and the visibility it already had (a new person is visible); the list is
/// then pruned and the deepest trail depth kept.
pub fn record_recent_visit(
    activity: &mut StoredExplorationActivity,
    github_id: i64,
    trail_github_ids: Vec<i64>,
    trail: Vec<String>,
    direction: ExplorationDirection,
    now: i64,
)
    requires
        trail_github_ids@.len() <= usize::MAX,
    ensures
        ({
            let s = old(activity).recent_people@;
            let f = final(activity).recent_people@;
            &&& f == pruned(seq![f[0]] + without_person(s, github_id))
            &&& f[0].github_id == github_id
            &&& f[0].trail_github_ids@ == trail_github_ids@
            &&& f[0].trail@ == trail@
            &&& f[0].direction == direction
            &&& f[0].last_viewed_at == now
            &&& f[0].visible == visit_visible(s, github_id)
            &&& f[0].visit_count == if visits_before(s, github_id) == u64::MAX {
                u64::MAX
            } else {
                (visits_before(s, github_id) + 1) as u64
            }
        }),
        final(activity).max_trail_depth == deeper(
            old(activity).max_trail_depth,
            trail_github_ids@.len(),
        ),
        final(activity).max_trail_depth >= old(activity).max_trail_depth,
        visit_recorded(
            *old(activity),
            *final(activity),
            github_id,
            trail_github_ids@,
            crate::discovery::views(trail@),
            direction,
            now,
        ),
{
    let ghost s = activity.recent_people@;
    let depth = if trail_github_ids.len() == 0 {
        0
    } else {
        trail_github_ids.len() - 1
    };
    let found = find_person(&activity.recent_people, github_id);
    proof {
        lemma_position_of_id(s, github_id);
    }
    let mut person = match found {
        Some(p) => activity.recent_people.remove(p),
        None => StoredRecentPerson {
            github_id,
            trail_github_ids: Vec::new(),
            trail: Vec::new(),
            direction,
            last_viewed_at: now,
            visit_count: 0,
            visible: true,
        },
    };
    person.trail_github_ids = trail_github_ids;
    person.trail = trail;
    person.direction = direction;
    person.last_viewed_at = now;
    person.visit_count = person.visit_count.saturating_add(1);
    let ghost rest = activity.recent_people@;
    assert(rest == without_person(s, github_id));
    activity.recent_people.insert(0, person);
    assert(activity.recent_people@ == seq![person] + rest);
    prune_stored_recent_people(activity);
    proof {
        lemma_pruned_keeps_first(seq![person] + rest);
    }
    if depth > activity.max_trail_depth {
        activity.max_trail_depth = depth;
    }
}

/// Changes whether a recorded person is shown, moving them to the front; fails when the
/// person was never recorded.
pub fn set_recent_visibility(
    activity: &mut StoredExplorationActivity,
    github_id: i64,
    visible: bool,
    now: i64,
) -> (r: Result<(), AppError>)
    ensures
        position_of_id(old(activity).recent_people@, github_id) < 0 ==> r is Err && r->Err_0 is NotFound
            && *final(activity) == *old(activity),
        position_of_id(old(activity).recent_people@, github_id) >= 0 ==> r is Ok && ({
            let s = old(activity).recent_people@;
            let p = position_of_id(s, github_id);
            let f = final(activity).recent_people@;
            &&& f == pruned(seq![f[0]] + s.remove(p))
            &&& f[0] == (StoredRecentPerson { visible, last_viewed_at: now, ..s[p] })
        }),
        final(activity).max_trail_depth == old(activity).max_trail_depth,
        visibility_changed(*old(activity), *final(activity), github_id, visible, now, r),
{
    match find_person(&activity.recent_people, github_id) {
        None => Err(AppError::NotFound(owned("recent person was not recorded"))),
        Some(p) => {
            let ghost s = activity.recent_people@;
            proof {
                lemma_position_of_id(s, github_id);
            }
            let mut person = activity.recent_people.remove(p);
            person.visible = visible;
            person.last_viewed_at = now;
            let ghost rest = activity.recent_people@;
            activity.recent_people.insert(0, person);
            assert(activity.recent_people@ == seq![person] + rest);
            prune_stored_recent_people(activity);
            proof {
                lemma_pruned_keeps_first(seq![person] + rest);
            }
            Ok(())
        },
    }
}

proof fn lemma_pruned_prefix(s: Seq<StoredRecentPerson>, k: int)
    requires
        0 <= k <= s.len(),
    ensures
        pruned(s.take(k)).len() <= pruned(s).len(),
        pruned(s).take(pruned(s.take(k)).len() as int) == pruned(s.take(k)),
    decreases s.len() - k,
{
    if k < s.len() {
        lemma_pruned_prefix(s, k + 1);
        let t = s.take(k + 1);
        assert(t.drop_last() == s.take(k));
        let a = pruned(s.take(k));
        let b = pruned(t);
        assert(b == a || b == a.push(t.last()));
        assert(pruned(s).take(b.len() as int).take(a.len() as int) == pruned(s).take(a.len() as int));
        assert(b.take(a.len() as int) == a);
    } else {
        assert(s.take(k) == s);
    }
}

/// Pruning never drops the first person.
proof fn lemma_pruned_keeps_first(s: Seq<StoredRecentPerson>)
    requires
        s.len() > 0,
    ensures
        pruned(s).len() > 0,
        pruned(s)[0] == s[0],
{
    lemma_pruned_prefix(s, 1);
    let one = s.take(1);
    assert(one.drop_last().len() == 0);
    assert(pruned(one.drop_last()) == one.drop_last());
    assert(count_visible(one.drop_last()) == 0);
    assert(count_hidden(one.drop_last()) == 0);
    assert(one.last() == s[0]);
    assert(pruned(one) =~= seq![s[0]]);
    assert(pruned(s).take(1)[0] == pruned(s)[0]);
}


proof fn lemma_count_concat(a: Seq<StoredRecentPerson>, b: Seq<StoredRecentPerson>)
    ensures
        count_visible(a + b) == count_visible(a) + count_visible(b),
        count_hidden(a + b) == count_hidden(a) + count_hidden(b),
    decreases b.len(),
{
    if b.len() > 0 {
        lemma_count_concat(a, b.drop_last());
        assert((a + b).drop_last() == a + b.drop_last());
    } else {
        assert(a + b == a);
    }
}

proof fn lemma_count_single(x: StoredRecentPerson)
    ensures
        count_hidden(seq![x]) == if x.visible {
            0nat
        } else {
            1nat
        },
        count_visible(seq![x]) == if x.visible {
            1nat
        } else {
            0nat
        },
{
    let one = seq![x];
    let e = Seq::<StoredRecentPerson>::empty();
    assert(one.drop_last() =~= e);
    assert(one.last() == x);
    assert(count_hidden(e) == 0);
    assert(count_visible(e) == 0);
    assert(count_hidden(one) == count_hidden(one.drop_last()) + if one.last().visible {
        0nat
    } else {
        1nat
    });
    assert(count_visible(one) == count_visible(one.drop_last()) + if one.last().visible {
        1nat
    } else {
        0nat
    });
}

proof fn lemma_count_remove(s: Seq<StoredRecentPerson>, p: int)
    requires
        0 <= p < s.len(),
    ensures
        count_hidden(s) == count_hidden(s.remove(p)) + if s[p].visible {
            0nat
        } else {
            1nat
        },
        count_visible(s) == count_visible(s.remove(p)) + if s[p].visible {
            1nat
        } else {
            0nat
        },
{
    let a = s.take(p);
    let b = s.skip(p + 1);
    assert(s == a + seq![s[p]] + b);
    assert(s.remove(p) == a + b);
    lemma_count_concat(a + seq![s[p]], b);
    lemma_count_concat(a, seq![s[p]]);
    lemma_count_concat(a, b);
    lemma_count_single(s[p]);
}

proof fn lemma_pruned_bounds(s: Seq<StoredRecentPerson>)
    ensures
        count_visible(pruned(s)) <= MAX_RECENT_PEOPLE,
        count_hidden(pruned(s)) <= MAX_HIDDEN_RECENT_PEOPLE,
        count_visible(pruned(s)) <= count_visible(s),
        count_hidden(pruned(s)) <= count_hidden(s),
        count_visible(s) <= MAX_RECENT_PEOPLE ==> count_visible(pruned(s)) == count_visible(s),
        count_hidden(s) <= MAX_HIDDEN_RECENT_PEOPLE ==> count_hidden(pruned(s)) == count_hidden(s),
    decreases s.len(),
{
    if s.len() > 0 {
        let t = s.drop_last();
        lemma_pruned_bounds(t);
        lemma_counts_push(t, s.last());
        lemma_counts_push(pruned(t), s.last());
        assert(t.push(s.last()) == s);
    }
}

/// Every hidden person of a list with no more than the hidden bound survives pruning.
proof fn lemma_hidden_kept(s: Seq<StoredRecentPerson>, k: int)
    requires
        0 <= k < s.len(),
        !s[k].visible,
        count_hidden(s) <= MAX_HIDDEN_RECENT_PEOPLE,
    ensures
        pruned(s).contains(s[k]),
    decreases s.len(),
{
    let t = s.drop_last();
    lemma_counts_push(t, s.last());
    assert(t.push(s.last()) == s);
    if k == s.len() - 1 {
        assert(count_hidden(t) < MAX_HIDDEN_RECENT_PEOPLE);
        assert(pruned(s) == pruned(t).push(s[k]));
        assert(pruned(s)[pruned(s).len() - 1] == s[k]);
    } else {
        assert(t[k] == s[k]);
        lemma_hidden_kept(t, k);
        let j = choose|j: int| 0 <= j < pruned(t).len() && pruned(t)[j] == s[k];
        assert(pruned(s)[j] == pruned(t)[j]);
    }
}

/// Law: the stored list never shows more than `MAX_RECENT_PEOPLE` visible people nor
/// remembers more than `MAX_HIDDEN_RECENT_PEOPLE` hidden ones.
pub proof fn law_recent_people_are_bounded(s: Seq<StoredRecentPerson>)
    ensures
        count_visible(pruned(s)) <= MAX_RECENT_PEOPLE,
        count_hidden(pruned(s)) <= MAX_HIDDEN_RECENT_PEOPLE,
{
    lemma_pruned_bounds(s);
}

/// Law: visiting one person never drops a hidden person (an explicit removal) from a list
/// that respects the hidden bound, however many visible people age out.
pub proof fn law_visits_keep_hidden_people(
    s: Seq<StoredRecentPerson>,
    visited: StoredRecentPerson,
)
    requires
        count_hidden(s) <= MAX_HIDDEN_RECENT_PEOPLE,
        visited.visible == visit_visible(s, visited.github_id),
    ensures
        forall|k: int|
            0 <= k < s.len() && !s[k].visible && s[k].github_id != visited.github_id ==> pruned(
                seq![visited] + without_person(s, visited.github_id),
            ).contains(#[trigger] s[k]),
{
    let id = visited.github_id;
    let w = without_person(s, id);
    let t = seq![visited] + w;
    lemma_position_of_id(s, id);
    let p = position_of_id(s, id);
    lemma_count_concat(seq![visited], w);
    lemma_count_single(visited);
    if p >= 0 {
        lemma_count_remove(s, p);
    }
    assert(count_hidden(t) <= MAX_HIDDEN_RECENT_PEOPLE);
    assert forall|k: int|
        0 <= k < s.len() && !s[k].visible && s[k].github_id != id implies pruned(t).contains(
        #[trigger] s[k],
    ) by {
        let j = if p >= 0 && k > p {
            k - 1
        } else {
            k
        };
        if p >= 0 {
            assert(k != p);
            assert(w[j] == s[k]);
        } else {
            assert(w[j] == s[k]);
        }
        assert(t[j + 1] == s[k]);
        lemma_hidden_kept(t, j + 1);
    }
}

} // verus!
