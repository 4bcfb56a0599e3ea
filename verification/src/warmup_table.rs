//! The discovery warmups kept per app user: starting, resuming and saving them, and picking
//! the ones the scheduler runs next.
use vstd::prelude::*;

use crate::discovery::views;
use crate::error::AppError;
use crate::graph::{DiscoveryWarmupJob, DiscoveryWarmupStatus};
use crate::insights::{lemma_text_less_irreflexive, lemma_text_less_transitive, text_before, text_less};
use crate::keyed::{
    distinct_keys, key_index, keyed_map, lemma_key_position, put_keyed, Keyed,
};
use crate::text::{owned, str_equal};
use crate::external::new_identifier;
use crate::warmup::{new_warmup_job, resume_after_reset, resumable};

verus! {

/// An app user's warmup.
#[derive(Debug, Clone)]
pub struct WarmupEntry {
    pub user_id: String,
    pub warmup: DiscoveryWarmupJob,
}

impl Keyed for WarmupEntry {
    open spec fn key(&self) -> Seq<char> {
        self.user_id@
    }

    open spec fn same_but_key(&self, other: Self) -> bool {
        self.warmup == other.warmup
    }

    fn key_text(&self) -> (r: &str) {
        self.user_id.as_str()
    }

    fn with_key(self, key: String) -> (r: Self) {
        WarmupEntry { user_id: key, warmup: self.warmup }
    }
}

/// The warmup stored for an app user, if any.
pub open spec fn warmup_of(table: Seq<WarmupEntry>, user_id: Seq<char>) -> Option<DiscoveryWarmupJob> {
    if keyed_map(table).contains_key(user_id) {
        Some(keyed_map(table)[user_id].warmup)
    } else {
        None
    }
}

/// `after` holds `warmup` for `user_id` and every other user's warmup as `before` did.
pub open spec fn warmup_set(
    before: Seq<WarmupEntry>,
    after: Seq<WarmupEntry>,
    user_id: Seq<char>,
    warmup: DiscoveryWarmupJob,
) -> bool {
    &&& keyed_map(after).dom() == keyed_map(before).dom().insert(user_id)
    &&& warmup_of(after, user_id) == Some(warmup)
    &&& forall|k: Seq<char>| k != user_id ==> #[trigger] warmup_of(after, k) == warmup_of(before, k)
}

/// The warmup stored for an app user.
pub fn discovery_warmup<'a>(table: &'a Vec<WarmupEntry>, user_id: &str) -> (r: Option<
    &'a DiscoveryWarmupJob,
>)
    ensures
        match r {
            Some(w) => warmup_of(table@, user_id@) == Some(*w),
            None => warmup_of(table@, user_id@) is None,
        },
{
    proof {
        lemma_key_position(table@, user_id@);
    }
    match key_index(table, user_id) {
        Some(i) => Some(&table[i].warmup),
        None => None,
    }
}

/// Stores an app user's warmup.
pub fn save_discovery_warmup(table: &mut Vec<WarmupEntry>, user_id: &str, warmup: DiscoveryWarmupJob)
    requires
        distinct_keys(old(table)@),
    ensures
        distinct_keys(final(table)@),
        warmup_set(old(table)@, final(table)@, user_id@, warmup),
{
    let ghost before = keyed_map(table@);
    let entry = WarmupEntry { user_id: owned(user_id), warmup };
    let ghost e = entry;
    put_keyed(table, entry);
    proof {
        let after = keyed_map(table@);
        assert(after == before.insert(user_id@, e));
        assert(after.dom() =~= before.dom().insert(user_id@));
    }
}

/// Starts a warmup for an app user unless one that has not failed is stored; says whether
/// `initial` was stored. The stored warmup is what the user then has.
pub fn start_discovery_warmup(table: &mut Vec<WarmupEntry>, user_id: &str, initial: DiscoveryWarmupJob) -> (r:
    bool)
    requires
        distinct_keys(old(table)@),
    ensures
        distinct_keys(final(table)@),
        r == !(warmup_of(old(table)@, user_id@) matches Some(w) && !(w.status is Failed)),
        r ==> warmup_set(old(table)@, final(table)@, user_id@, initial),
        !r ==> final(table)@ == old(table)@,
{
    let keep = match discovery_warmup(table, user_id) {
        Some(existing) => existing.status != DiscoveryWarmupStatus::Failed,
        None => false,
    };
    if keep {
        return false;
    }
    save_discovery_warmup(table, user_id, initial);
    true
}

/// The message when a warmup to resume is gone.
pub open spec fn warmup_gone_message() -> Seq<char> {
    "discovery warmup disappeared while resuming"@
}

/// Resumes an app user's warmup after the rate-limit window reset: `resumed` replaces the
/// stored warmup where that one has the same id and may resume at `now` (`Ok(true)`);
/// otherwise the stored warmup stays (`Ok(false)`). Refused where none is stored.
pub fn resume_discovery_warmup_after_reset(
    table: &mut Vec<WarmupEntry>,
    user_id: &str,
    resumed: DiscoveryWarmupJob,
    now: i64,
) -> (r: Result<bool, AppError>)
    requires
        distinct_keys(old(table)@),
    ensures
        distinct_keys(final(table)@),
        warmup_of(old(table)@, user_id@) is None ==> r is Err && r->Err_0 is Storage
            && r->Err_0->Storage_0@ == warmup_gone_message() && final(table)@ == old(table)@,
        warmup_of(old(table)@, user_id@) matches Some(e) ==> {
            let should = e.id@ == resumed.id@ && resumable(e, now);
            &&& r == Ok::<bool, AppError>(should)
            &&& should ==> warmup_set(old(table)@, final(table)@, user_id@, resumed)
            &&& !should ==> final(table)@ == old(table)@
        },
{
    let should = match discovery_warmup(table, user_id) {
        Some(existing) => {
            let ready = match existing.reset_at {
                Some(reset_at) => reset_at <= now,
                None => false,
            };
            str_equal(existing.id.as_str(), resumed.id.as_str()) && existing.status
                == DiscoveryWarmupStatus::ReserveProtected && ready
        },
        None => {
            return Err(AppError::Storage(owned("discovery warmup disappeared while resuming")));
        },
    };
    if should {
        save_discovery_warmup(table, user_id, resumed);
    }
    Ok(should)
}

// ---------------------------------------------------------------------------------------
// Picking runnable warmups
// ---------------------------------------------------------------------------------------

/// The scheduling key of a warmup: when it was last updated, then its user.
pub open spec fn schedule_key(e: WarmupEntry) -> (i64, Seq<char>) {
    (e.warmup.updated_at, e.user_id@)
}

/// The warmup is queued or running.
pub open spec fn is_runnable_entry(e: WarmupEntry) -> bool {
    e.warmup.status.runnable()
}

/// The scheduling keys of the runnable warmups, in table order.
pub open spec fn runnable_keys(table: Seq<WarmupEntry>) -> Seq<(i64, Seq<char>)> {
    table.filter(|e: WarmupEntry| is_runnable_entry(e)).map_values(|e: WarmupEntry| schedule_key(e))
}

/// `a` is scheduled before `b`: updated earlier, then by user id.
pub open spec fn scheduled_before(a: (i64, Seq<char>), b: (i64, Seq<char>)) -> bool {
    a.0 < b.0 || (a.0 == b.0 && text_less(a.1, b.1))
}

/// No key is scheduled before one listed ahead of it.
pub open spec fn in_schedule_order(s: Seq<(i64, Seq<char>)>) -> bool {
    forall|i: int, j: int| 0 <= i < j < s.len() ==> !scheduled_before(#[trigger] s[j], #[trigger] s[i])
}

/// The users of the first `limit` keys.
pub open spec fn first_users(s: Seq<(i64, Seq<char>)>, limit: int) -> Seq<Seq<char>> {
    (if limit < s.len() {
        s.take(limit)
    } else {
        s
    }).map_values(|p: (i64, Seq<char>)| p.1)
}

proof fn lemma_scheduled_before_order(a: (i64, Seq<char>), b: (i64, Seq<char>), c: (i64, Seq<char>))
    ensures
        !scheduled_before(a, a),
        scheduled_before(a, b) && scheduled_before(b, c) ==> scheduled_before(a, c),
{
    lemma_text_less_irreflexive(a.1);
    if scheduled_before(a, b) && scheduled_before(b, c) && a.0 == b.0 && b.0 == c.0 {
        lemma_text_less_transitive(a.1, b.1, c.1);
    }
}

pub open spec fn key_views(s: Seq<(i64, String)>) -> Seq<(i64, Seq<char>)> {
    s.map_values(|k: (i64, String)| (k.0, k.1@))
}

fn scheduled_before_exec(a: &(i64, String), b: &(i64, String)) -> (r: bool)
    ensures
        r == scheduled_before((a.0, a.1@), (b.0, b.1@)),
{
    if a.0 != b.0 {
        return a.0 < b.0;
    }
    text_before(a.1.as_str(), b.1.as_str())
}

/// The user ids of at most `limit` runnable warmups, those updated longest ago first and,
/// among equals, by user id.
pub fn runnable_discovery_warmups(table: &Vec<WarmupEntry>, limit: usize) -> (r: Vec<String>)
    ensures
        exists|sorted: Seq<(i64, Seq<char>)>|
            #[trigger] in_schedule_order(sorted) && sorted.to_multiset() == runnable_keys(
                table@,
            ).to_multiset() && views(r@) == first_users(sorted, limit as int),
{
    let ghost all = table@;
    let mut keys: Vec<(i64, String)> = Vec::new();
    let mut i: usize = 0;
    proof {
        assert(all.take(0) =~= Seq::<WarmupEntry>::empty());
        assert(runnable_keys(all.take(0)) =~= Seq::<(i64, Seq<char>)>::empty());
        assert(key_views(keys@) =~= Seq::<(i64, Seq<char>)>::empty());
    }
    while i < table.len()
        invariant
            i <= table.len(),
            all == table@,
            key_views(keys@) == runnable_keys(all.take(i as int)),
        decreases table.len() - i,
    {
        let ghost before = keys@;
        proof {
            assert(all.take(i + 1) == all.take(i as int).push(all[i as int]));
            all.take(i as int).lemma_filter_push(all[i as int], |e: WarmupEntry| is_runnable_entry(e));
        }
        if table[i].warmup.status.is_runnable() {
            keys.push((table[i].warmup.updated_at, table[i].user_id.clone()));
            proof {
                assert(key_views(keys@) =~= key_views(before).push(schedule_key(all[i as int])));
                assert(runnable_keys(all.take(i + 1)) =~= runnable_keys(all.take(i as int)).push(
                    schedule_key(all[i as int]),
                ));
            }
        } else {
            proof {
                assert(runnable_keys(all.take(i + 1)) =~= runnable_keys(all.take(i as int)));
            }
        }
        i += 1;
    }
    assert(all.take(table.len() as int) == all);
    let ghost found = key_views(keys@);
    let mut out: Vec<(i64, String)> = Vec::new();
    let mut j: usize = 0;
    assert(key_views(out@) =~= found.take(0));
    while j < keys.len()
        invariant
            j <= keys.len(),
            found == key_views(keys@),
            key_views(out@).to_multiset() == found.take(j as int).to_multiset(),
            in_schedule_order(key_views(out@)),
            out@.len() == j,
        decreases keys.len() - j,
    {
        let x = (keys[j].0, keys[j].1.clone());
        let mut pos: usize = 0;
        while pos < out.len() && !scheduled_before_exec(&x, &out[pos])
            invariant
                pos <= out.len(),
                forall|m: int|
                    0 <= m < pos ==> !scheduled_before((x.0, x.1@), #[trigger] key_views(out@)[m]),
            decreases out.len() - pos,
        {
            pos += 1;
        }
        let ghost before = key_views(out@);
        let ghost xv = (x.0, x.1@);
        proof {
            assert forall|m: int| pos <= m < before.len() implies !scheduled_before(
                #[trigger] before[m],
                xv,
            ) by {
                lemma_scheduled_before_order(before[m], xv, before[pos as int]);
                lemma_scheduled_before_order(before[pos as int], before[pos as int], before[pos as int]);
                if m > pos {
                    assert(!scheduled_before(before[m], before[pos as int]));
                }
            }
        }
        out.insert(pos, x);
        proof {
            let after = key_views(out@);
            assert(after =~= before.insert(pos as int, xv));
            assert forall|a: int, b: int| 0 <= a < b < after.len() implies !scheduled_before(
                #[trigger] after[b],
                #[trigger] after[a],
            ) by {
                if b < pos {
                    assert(after[a] == before[a] && after[b] == before[b]);
                } else if b == pos {
                    assert(after[a] == before[a]);
                } else if a == pos {
                    assert(after[b] == before[b - 1]);
                } else if a < pos {
                    assert(after[a] == before[a] && after[b] == before[b - 1]);
                } else {
                    assert(after[a] == before[a - 1] && after[b] == before[b - 1]);
                }
            }
            vstd::seq_lib::to_multiset_insert(before, pos as int, xv);
            assert(xv == found[j as int]);
            assert(found.take(j + 1) =~= found.take(j as int).push(found[j as int]));
            vstd::seq_lib::to_multiset_build(found.take(j as int), found[j as int]);
        }
        j += 1;
    }
    assert(found.take(keys.len() as int) == found);
    let ghost sorted = key_views(out@);
    let mut users: Vec<String> = Vec::new();
    let mut k: usize = 0;
    let count = if limit < out.len() {
        limit
    } else {
        out.len()
    };
    while k < count
        invariant
            k <= count <= out.len(),
            count == if limit < out@.len() {
                limit as int
            } else {
                out@.len() as int
            },
            sorted == key_views(out@),
            views(users@) == sorted.take(k as int).map_values(|p: (i64, Seq<char>)| p.1),
        decreases count - k,
    {
        let ghost prev = users@;
        users.push(out[k].1.clone());
        proof {
            assert(views(users@) =~= views(prev).push(out@[k as int].1@));
            assert(sorted[k as int].1 == out@[k as int].1@);
            assert(sorted.take(k + 1) == sorted.take(k as int).push(sorted[k as int]));
            assert(views(users@) =~= sorted.take(k + 1).map_values(|p: (i64, Seq<char>)| p.1));
        }
        k += 1;
    }
    proof {
        if !(limit < sorted.len()) {
            assert(sorted.take(count as int) == sorted);
        }
        assert(views(users@) =~= first_users(sorted, limit as int));
        assert(sorted.to_multiset() == runnable_keys(table@).to_multiset());
        assert(in_schedule_order(sorted));
    }
    users
}

/// Starts, or resumes, an app user's warmup at `now` from their own login: a warmup that
/// waited for the rate-limit window and may resume is queued again with its frontier kept;
/// otherwise a new warmup with id `fresh_id` is started unless one that has not failed is
/// stored. Says whether the user's warmup is now runnable, so the scheduler should run.
pub fn start_warmup_with(
    table: &mut Vec<WarmupEntry>,
    user_id: &str,
    seed_login: String,
    now: i64,
    fresh_id: String,
) -> (r: bool)
    requires
        distinct_keys(old(table)@),
    ensures
        distinct_keys(final(table)@),
        warmup_of(final(table)@, user_id@) is Some,
        r == warmup_of(final(table)@, user_id@)->0.status.runnable(),
        warmup_of(old(table)@, user_id@) is Some && resumable(
            warmup_of(old(table)@, user_id@)->0,
            now,
        ) ==> {
            let e = warmup_of(old(table)@, user_id@)->0;
            let w = warmup_of(final(table)@, user_id@)->0;
            &&& w.status is Queued
            &&& w.id == e.id
            &&& w.frontier@ == e.frontier@
            &&& w.expanded_logins@ == e.expanded_logins@
            &&& w.updated_at == now
            &&& forall|k: Seq<char>|
                k != user_id@ ==> #[trigger] warmup_of(final(table)@, k) == warmup_of(old(table)@, k)
        },
        !(warmup_of(old(table)@, user_id@) is Some && resumable(
            warmup_of(old(table)@, user_id@)->0,
            now,
        )) ==> {
            let kept = warmup_of(old(table)@, user_id@) matches Some(e) && !(e.status is Failed);
            &&& kept ==> final(table)@ == old(table)@
            &&& !kept ==> {
                let w = warmup_of(final(table)@, user_id@)->0;
                &&& w.id == fresh_id
                &&& w.seed_login == seed_login
                &&& w.status is Queued
                &&& w.started_at == now
                &&& forall|k: Seq<char>|
                    k != user_id@ ==> #[trigger] warmup_of(final(table)@, k) == warmup_of(
                        old(table)@,
                        k,
                    )
            }
        },
{
    let resumed = match discovery_warmup(table, user_id) {
        Some(existing) => resume_after_reset(existing, now),
        None => None,
    };
    if let Some(w) = resumed {
        let ghost job = w;
        let outcome = resume_discovery_warmup_after_reset(table, user_id, w, now);
        proof {
            assert(outcome == Ok::<bool, AppError>(true));
            assert(warmup_of(table@, user_id@) == Some(job));
        }
        return match discovery_warmup(table, user_id) {
            Some(w) => w.status.is_runnable(),
            None => false,
        };
    }
    let job = new_warmup_job(fresh_id, seed_login, now);
    start_discovery_warmup(table, user_id, job);
    match discovery_warmup(table, user_id) {
        Some(w) => w.status.is_runnable(),
        None => false,
    }
}

/// Starts, or resumes, an app user's warmup as `start_warmup_with` does, drawing a new
/// random id for a new warmup.
pub fn start_warmup(table: &mut Vec<WarmupEntry>, user_id: &str, seed_login: String, now: i64) -> (r:
    bool)
    requires
        distinct_keys(old(table)@),
    ensures
        distinct_keys(final(table)@),
        warmup_of(final(table)@, user_id@) is Some,
        r == warmup_of(final(table)@, user_id@)->0.status.runnable(),
{
    let fresh_id = new_identifier();
    start_warmup_with(table, user_id, seed_login, now, fresh_id)
}

} // verus!
