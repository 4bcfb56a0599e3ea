//! The decisions of the discovery warmup scheduler: which users' warmups start next, how
//! long a user whose warmup another process holds waits before it is tried again, and when
//! the scheduler stops. The caller runs the batches, keeps the clock and sleeps; each step
//! here takes what happened and gives what to do next.
use vstd::prelude::*;

use crate::discovery::{contains_text, insert_text, text_set, views};
use crate::text::str_equal;

verus! {

/// How many warmup batches run at once in one process.
pub const WARMUP_WORKER_LIMIT: usize = 4;

/// How many runnable warmups one scan asks the store for.
pub const WARMUP_SCAN_LIMIT: usize = 32;

/// How long a user whose warmup another process holds waits, in microseconds.
pub const PEER_DEFER_MICROS: i64 = 1_000_000;

/// The scheduler's state: whether its loop runs, a counter bumped whenever warmups are
/// queued, the users with a batch in flight, and the users waiting out a deferral with the
/// instant they may be tried again.
pub struct WarmupScheduler {
    pub running: bool,
    pub generation: u64,
    pub active: Vec<String>,
    pub deferred: Vec<(String, i64)>,
}

/// What the loop does once no batch is in flight.
#[derive(Debug, Clone, Copy, PartialEq, Eq, Structural)]
pub enum IdleAction {
    /// Warmups were queued since the last scan: scan again.
    Rescan,
    /// Sleep until the earliest deferral ends, then scan again.
    SleepUntil(i64),
    /// Nothing is left to do: the loop ends.
    Stop,
}

/// The deferrals as pairs of user and instant.
pub open spec fn deferral_views(d: Seq<(String, i64)>) -> Seq<(Seq<char>, i64)> {
    d.map_values(|e: (String, i64)| (e.0@, e.1))
}

/// The users with a deferral.
pub open spec fn deferral_users(d: Seq<(String, i64)>) -> Seq<Seq<char>> {
    d.map_values(|e: (String, i64)| e.0@)
}

/// The user waits out a deferral that ends after `now`.
pub open spec fn waiting(d: Seq<(Seq<char>, i64)>, u: Seq<char>, now: int) -> bool {
    exists|k: int| 0 <= k < d.len() && (#[trigger] d[k]).0 == u && d[k].1 > now
}

/// The candidates, in order, that neither have a batch in flight nor wait out a deferral.
pub open spec fn eligible(
    candidates: Seq<Seq<char>>,
    active: Set<Seq<char>>,
    deferred: Seq<(Seq<char>, i64)>,
    now: int,
) -> Seq<Seq<char>>
    decreases candidates.len(),
{
    if candidates.len() == 0 {
        Seq::empty()
    } else {
        let before = eligible(candidates.drop_last(), active, deferred, now);
        let u = candidates.last();
        if !active.contains(u) && !waiting(deferred, u, now) {
            before.push(u)
        } else {
            before
        }
    }
}

/// The batches that may still start beside `running` ones.
pub open spec fn free_slots(running: int) -> int {
    if running >= WARMUP_WORKER_LIMIT {
        0
    } else {
        WARMUP_WORKER_LIMIT - running
    }
}

/// At most the first `n` of a sequence.
pub open spec fn first_n(s: Seq<Seq<char>>, n: int) -> Seq<Seq<char>> {
    if s.len() <= n {
        s
    } else {
        s.take(n)
    }
}

/// The users a scan starts: the first eligible candidates, as many as slots are free.
pub open spec fn picked(
    candidates: Seq<Seq<char>>,
    active: Seq<String>,
    deferred: Seq<(String, i64)>,
    now: int,
) -> Seq<Seq<char>> {
    first_n(
        eligible(candidates, text_set(active), deferral_views(deferred), now),
        free_slots(active.len() as int),
    )
}

impl WarmupScheduler {
    /// Each user is in flight at most once and has at most one deferral.
    pub open spec fn wf(&self) -> bool {
        &&& views(self.active@).no_duplicates()
        &&& deferral_users(self.deferred@).no_duplicates()
    }

    /// A scheduler that has not run yet.
    pub fn new() -> (r: Self)
        ensures
            r.wf(),
            !r.running,
            r.generation == 0,
            r.active@.len() == 0,
            r.deferred@.len() == 0,
    {
        let r = WarmupScheduler { running: false, generation: 0, active: Vec::new(), deferred: Vec::new() };
        assert(views(r.active@) =~= Seq::<Seq<char>>::empty());
        assert(deferral_users(r.deferred@) =~= Seq::<Seq<char>>::empty());
        r
    }

    /// Warmups were queued: the counter moves on, wrapping, and the loop is marked running.
    /// Says whether a loop must be started, that is whether none was running.
    pub fn kick(&mut self) -> (r: bool)
        ensures
            r == !old(self).running,
            final(self).running,
            final(self).generation == (if old(self).generation == u64::MAX {
                0
            } else {
                (old(self).generation + 1) as u64
            }),
            final(self).active == old(self).active,
            final(self).deferred == old(self).deferred,
    {
        self.generation = self.generation.wrapping_add(1);
        if self.running {
            false
        } else {
            self.running = true;
            true
        }
    }

    /// Drops the deferrals that ended by `now`.
    fn purge_deferrals(&mut self, now: i64)
        requires
            old(self).wf(),
        ensures
            final(self).wf(),
            final(self).running == old(self).running,
            final(self).generation == old(self).generation,
            final(self).active == old(self).active,
            forall|e: (Seq<char>, i64)|
                #![trigger deferral_views(final(self).deferred@).contains(e)]
                deferral_views(final(self).deferred@).contains(e) <==> deferral_views(
                    old(self).deferred@,
                ).contains(e) && e.1 > now,
    {
        let ghost start = self.deferred@;
        let mut kept: Vec<(String, i64)> = Vec::new();
        let mut i: usize = 0;
        while i < self.deferred.len()
            invariant
                i <= self.deferred.len(),
                self.deferred@ == start,
                deferral_users(start).no_duplicates(),
                forall|e: (Seq<char>, i64)|
                    #![trigger deferral_views(kept@).contains(e)]
                    deferral_views(kept@).contains(e) <==> deferral_views(start.take(i as int)).contains(
                        e,
                    ) && e.1 > now,
                forall|k: int|
                    0 <= k < kept@.len() ==> deferral_users(start.take(i as int)).contains(
                        #[trigger] deferral_users(kept@)[k],
                    ),
                deferral_users(kept@).no_duplicates(),
            decreases self.deferred.len() - i,
        {
            let entry = &self.deferred[i];
            let ghost before = kept@;
            let ghost prefix = start.take(i as int);
            let ghost next = start.take(i + 1);
            proof {
                assert(next == prefix.push(start[i as int]));
                assert(deferral_views(next) =~= deferral_views(prefix).push((entry.0@, entry.1)));
                assert(deferral_users(next) =~= deferral_users(prefix).push(entry.0@));
            }
            if entry.1 > now {
                kept.push((entry.0.clone(), entry.1));
                proof {
                    assert(deferral_views(kept@) =~= deferral_views(before).push((entry.0@, entry.1)));
                    assert(deferral_users(kept@) =~= deferral_users(before).push(entry.0@));
                    assert(!deferral_users(before).contains(entry.0@)) by {
                        if deferral_users(before).contains(entry.0@) {
                            let k = choose|k: int|
                                0 <= k < deferral_users(before).len() && deferral_users(before)[k]
                                    == entry.0@;
                            assert(deferral_users(prefix).contains(entry.0@));
                            let j = choose|j: int|
                                0 <= j < deferral_users(prefix).len() && deferral_users(prefix)[j]
                                    == entry.0@;
                            assert(deferral_users(start)[j] == deferral_users(start)[i as int]);
                        }
                    }
                    assert forall|k: int| 0 <= k < kept@.len() implies deferral_users(next).contains(
                        #[trigger] deferral_users(kept@)[k],
                    ) by {
                        if k < before.len() {
                            assert(deferral_users(kept@)[k] == deferral_users(before)[k]);
                            let j = choose|j: int|
                                0 <= j < deferral_users(prefix).len() && deferral_users(prefix)[j]
                                    == deferral_users(before)[k];
                            assert(deferral_users(next)[j] == deferral_users(prefix)[j]);
                        } else {
                            assert(deferral_users(next)[i as int] == entry.0@);
                        }
                    }
                    assert forall|e: (Seq<char>, i64)|
                        #![trigger deferral_views(kept@).contains(e)]
                        deferral_views(kept@).contains(e) <==> deferral_views(next).contains(e)
                            && e.1 > now by {
                        if deferral_views(before).contains(e) {
                            let k = choose|k: int|
                                0 <= k < deferral_views(before).len() && deferral_views(before)[k] == e;
                            assert(deferral_views(kept@)[k] == e);
                        }
                        if deferral_views(prefix).contains(e) {
                            let k = choose|k: int|
                                0 <= k < deferral_views(prefix).len() && deferral_views(prefix)[k] == e;
                            assert(deferral_views(next)[k] == e);
                        }
                        if e == (entry.0@, entry.1) {
                            assert(deferral_views(kept@)[before.len() as int] == e);
                            assert(deferral_views(next)[i as int] == e);
                        }
                        if deferral_views(kept@).contains(e) {
                            let k = choose|k: int|
                                0 <= k < deferral_views(kept@).len() && deferral_views(kept@)[k] == e;
                            if k < before.len() {
                                assert(deferral_views(before)[k] == e);
                            }
                        }
                        if deferral_views(next).contains(e) {
                            let k = choose|k: int|
                                0 <= k < deferral_views(next).len() && deferral_views(next)[k] == e;
                            if k < i {
                                assert(deferral_views(prefix)[k] == e);
                            }
                        }
                    }
                }
            } else {
                proof {
                    assert forall|k: int| 0 <= k < kept@.len() implies deferral_users(next).contains(
                        #[trigger] deferral_users(kept@)[k],
                    ) by {
                        let j = choose|j: int|
                            0 <= j < deferral_users(prefix).len() && deferral_users(prefix)[j]
                                == deferral_users(kept@)[k];
                        assert(deferral_users(next)[j] == deferral_users(prefix)[j]);
                    }
                    assert forall|e: (Seq<char>, i64)|
                        #![trigger deferral_views(kept@).contains(e)]
                        deferral_views(kept@).contains(e) <==> deferral_views(next).contains(e)
                            && e.1 > now by {
                        if deferral_views(prefix).contains(e) {
                            let k = choose|k: int|
                                0 <= k < deferral_views(prefix).len() && deferral_views(prefix)[k] == e;
                            assert(deferral_views(next)[k] == e);
                        }
                        if deferral_views(next).contains(e) {
                            let k = choose|k: int|
                                0 <= k < deferral_views(next).len() && deferral_views(next)[k] == e;
                            if k < i {
                                assert(deferral_views(prefix)[k] == e);
                            }
                        }
                    }
                }
            }
            i += 1;
        }
        proof {
            assert(start.take(start.len() as int) == start);
        }
        self.deferred = kept;
    }

    /// Whether the user waits out a deferral; run after the ended ones were dropped.
    fn is_deferred(&self, user_id: &str, now: i64) -> (r: bool)
        requires
            forall|e: (Seq<char>, i64)|
                #![trigger deferral_views(self.deferred@).contains(e)]
                deferral_views(self.deferred@).contains(e) ==> e.1 > now,
        ensures
            r == waiting(deferral_views(self.deferred@), user_id@, now as int),
    {
        let mut i: usize = 0;
        while i < self.deferred.len()
            invariant
                i <= self.deferred.len(),
                forall|k: int| 0 <= k < i ==> (#[trigger] self.deferred@[k]).0@ != user_id@,
                forall|e: (Seq<char>, i64)|
                    #![trigger deferral_views(self.deferred@).contains(e)]
                    deferral_views(self.deferred@).contains(e) ==> e.1 > now,
            decreases self.deferred.len() - i,
        {
            if str_equal(self.deferred[i].0.as_str(), user_id) {
                proof {
                    let d = deferral_views(self.deferred@);
                    assert(d[i as int] == (self.deferred@[i as int].0@, self.deferred@[i as int].1));
                    assert(d.contains(d[i as int]));
                    assert(d[i as int].1 > now);
                    assert(d[i as int].0 == user_id@);
                    assert(waiting(d, user_id@, now as int));
                }
                return true;
            }
            i += 1;
        }
        proof {
            let d = deferral_views(self.deferred@);
            if waiting(d, user_id@, now as int) {
                let k = choose|k: int| 0 <= k < d.len() && (#[trigger] d[k]).0 == user_id@ && d[k].1 > now;
                assert(self.deferred@[k].0@ == d[k].0);
            }
        }
        false
    }

    /// A scan found `candidates` runnable at `now`: deferrals that ended are dropped, and
    /// the first candidates with no batch in flight and no deferral, as many as slots are
    /// free, are marked in flight and given back for their batches to start.
    pub fn schedule(&mut self, candidates: &Vec<String>, now: i64) -> (r: Vec<String>)
        requires
            old(self).wf(),
        ensures
            final(self).wf(),
            final(self).running == old(self).running,
            final(self).generation == old(self).generation,
            views(r@) == picked(views(candidates@), old(self).active@, old(self).deferred@, now as int),
            text_set(final(self).active@) == text_set(old(self).active@).union(views(r@).to_set()),
            r@.len() <= free_slots(old(self).active@.len() as int),
            old(self).active@.len() <= WARMUP_WORKER_LIMIT ==> final(self).active@.len()
                <= WARMUP_WORKER_LIMIT,
            forall|e: (Seq<char>, i64)|
                #![trigger deferral_views(final(self).deferred@).contains(e)]
                deferral_views(final(self).deferred@).contains(e) <==> deferral_views(
                    old(self).deferred@,
                ).contains(e) && e.1 > now,
    {
        let ghost start = *self;
        self.purge_deferrals(now);
        proof {
            let d0 = deferral_views(start.deferred@);
            let d1 = deferral_views(self.deferred@);
            assert forall|u: Seq<char>| waiting(d1, u, now as int) == waiting(d0, u, now as int) by {
                if waiting(d1, u, now as int) {
                    let k = choose|k: int| 0 <= k < d1.len() && (#[trigger] d1[k]).0 == u && d1[k].1 > now;
                    assert(d1.contains(d1[k]));
                    assert(d0.contains(d1[k]));
                    let j = choose|j: int| 0 <= j < d0.len() && d0[j] == d1[k];
                    assert(d0[j].0 == u);
                }
                if waiting(d0, u, now as int) {
                    let k = choose|k: int| 0 <= k < d0.len() && (#[trigger] d0[k]).0 == u && d0[k].1 > now;
                    assert(d0.contains(d0[k]));
                    assert(d1.contains(d0[k]));
                    let j = choose|j: int| 0 <= j < d1.len() && d1[j] == d0[k];
                    assert(d1[j].0 == u);
                }
            }
        }
        let available: usize = if self.active.len() >= WARMUP_WORKER_LIMIT {
            0
        } else {
            WARMUP_WORKER_LIMIT - self.active.len()
        };
        let ghost cands = views(candidates@);
        let ghost active0 = text_set(start.active@);
        let ghost d0 = deferral_views(start.deferred@);
        let mut out: Vec<String> = Vec::new();
        let mut i: usize = 0;
        while i < candidates.len()
            invariant
                i <= candidates.len(),
                cands == views(candidates@),
                active0 == text_set(start.active@),
                d0 == deferral_views(start.deferred@),
                self.active@ == start.active@,
                available == free_slots(start.active@.len() as int),
                forall|e: (Seq<char>, i64)|
                    #![trigger deferral_views(self.deferred@).contains(e)]
                    deferral_views(self.deferred@).contains(e) ==> e.1 > now,
                forall|u: Seq<char>|
                    waiting(deferral_views(self.deferred@), u, now as int) == waiting(d0, u, now as int),
                views(out@) == first_n(
                    eligible(cands.take(i as int), active0, d0, now as int),
                    available as int,
                ),
            decreases candidates.len() - i,
        {
            let u = &candidates[i];
            let ghost prev = eligible(cands.take(i as int), active0, d0, now as int);
            proof {
                assert(cands.take(i + 1).drop_last() == cands.take(i as int));
                assert(cands.take(i + 1).last() == u@);
            }
            let free = !contains_text(&self.active, u.as_str()) && !self.is_deferred(u.as_str(), now);
            proof {
                assert(text_set(self.active@) == active0);
                assert(waiting(deferral_views(self.deferred@), u@, now as int) == waiting(
                    d0,
                    u@,
                    now as int,
                ));
                assert(free == (!active0.contains(u@) && !waiting(d0, u@, now as int)));
                assert(eligible(cands.take(i + 1), active0, d0, now as int) == (if free {
                    prev.push(u@)
                } else {
                    prev
                }));
            }
            if free {
                if out.len() < available {
                    let ghost before = out@;
                    out.push(u.clone());
                    proof {
                        assert(views(out@) =~= views(before).push(u@));
                        assert(prev.len() < available);
                    }
                } else {
                    proof {
                        assert(prev.len() >= available);
                        assert(prev.push(u@).take(available as int) =~= prev.take(available as int));
                        if prev.len() == available {
                            assert(prev.take(available as int) =~= prev);
                        }
                    }
                }
            }
            i += 1;
        }
        proof {
            assert(cands.take(candidates.len() as int) == cands);
        }
        let mut j: usize = 0;
        while j < out.len()
            invariant
                j <= out.len(),
                views(self.active@).no_duplicates(),
                text_set(self.active@) == text_set(start.active@).union(views(out@.take(j as int)).to_set()),
                deferral_users(self.deferred@).no_duplicates(),
                self.running == start.running,
                self.generation == start.generation,
                forall|e: (Seq<char>, i64)|
                    #![trigger deferral_views(self.deferred@).contains(e)]
                    deferral_views(self.deferred@).contains(e) <==> deferral_views(
                        start.deferred@,
                    ).contains(e) && e.1 > now,
            decreases out.len() - j,
        {
            insert_text(&mut self.active, out[j].as_str());
            proof {
                let done = views(out@.take(j + 1));
                assert(done =~= views(out@.take(j as int)).push(out@[j as int]@));
                assert(done.to_set() =~= views(out@.take(j as int)).to_set().insert(out@[j as int]@)) by {
                    assert forall|x: Seq<char>| done.to_set().contains(x) <==> views(
                        out@.take(j as int),
                    ).to_set().insert(out@[j as int]@).contains(x) by {
                        if done.contains(x) {
                            let k = choose|k: int| 0 <= k < done.len() && done[k] == x;
                            if k < j {
                                assert(views(out@.take(j as int))[k] == x);
                            }
                        }
                        if views(out@.take(j as int)).contains(x) {
                            let k = choose|k: int|
                                0 <= k < views(out@.take(j as int)).len() && views(
                                    out@.take(j as int),
                                )[k] == x;
                            assert(done[k] == x);
                        }
                        if x == out@[j as int]@ {
                            assert(done[j as int] == x);
                        }
                    }
                }
                assert(text_set(self.active@) =~= text_set(start.active@).union(done.to_set()));
            }
            j += 1;
        }
        proof {
            assert(out@.take(out.len() as int) == out@);
            let a = views(start.active@);
            let b = views(out@);
            a.unique_seq_to_set();
            views(self.active@).unique_seq_to_set();
            b.lemma_cardinality_of_set();
            vstd::seq_lib::seq_to_set_is_finite(a);
            vstd::seq_lib::seq_to_set_is_finite(b);
            vstd::set_lib::lemma_len_union(a.to_set(), b.to_set());
        }
        out
    }

    /// A batch for `user_id` ended at `now`: the user is no longer in flight, and where
    /// another process held the warmup the user waits a second before it is tried again.
    pub fn batch_finished(&mut self, user_id: &str, peer_active: bool, now: i64)
        requires
            old(self).wf(),
            now <= i64::MAX - PEER_DEFER_MICROS,
        ensures
            final(self).wf(),
            final(self).running == old(self).running,
            final(self).generation == old(self).generation,
            text_set(final(self).active@) == text_set(old(self).active@).remove(user_id@),
            !peer_active ==> final(self).deferred == old(self).deferred,
            peer_active ==> forall|e: (Seq<char>, i64)|
                #![trigger deferral_views(final(self).deferred@).contains(e)]
                deferral_views(final(self).deferred@).contains(e) <==> (e == (
                    user_id@,
                    (now + PEER_DEFER_MICROS) as i64,
                ) || (e.0 != user_id@ && deferral_views(old(self).deferred@).contains(e))),
    {
        let ghost start = *self;
        let mut active: Vec<String> = Vec::new();
        let mut i: usize = 0;
        while i < self.active.len()
            invariant
                i <= self.active.len(),
                self.active@ == start.active@,
                views(start.active@).no_duplicates(),
                forall|x: Seq<char>|
                    #![trigger views(active@).contains(x)]
                    views(active@).contains(x) <==> views(start.active@.take(i as int)).contains(x)
                        && x != user_id@,
                forall|k: int|
                    0 <= k < active@.len() ==> views(start.active@.take(i as int)).contains(
                        #[trigger] views(active@)[k],
                    ),
                views(active@).no_duplicates(),
            decreases self.active.len() - i,
        {
            let x = &self.active[i];
            let ghost before = active@;
            let ghost prefix = views(start.active@.take(i as int));
            let ghost next = views(start.active@.take(i + 1));
            proof {
                assert(next =~= prefix.push(x@));
            }
            if !str_equal(x.as_str(), user_id) {
                active.push(x.clone());
                proof {
                    assert(views(active@) =~= views(before).push(x@));
                    assert(!views(before).contains(x@)) by {
                        if views(before).contains(x@) {
                            let k = choose|k: int| 0 <= k < views(before).len() && views(before)[k] == x@;
                            assert(prefix.contains(x@));
                            let j = choose|j: int| 0 <= j < prefix.len() && prefix[j] == x@;
                            assert(views(start.active@)[j] == views(start.active@)[i as int]);
                        }
                    }
                }
            }
            proof {
                assert forall|k: int| 0 <= k < active@.len() implies next.contains(
                    #[trigger] views(active@)[k],
                ) by {
                    if k < before.len() {
                        assert(views(active@)[k] == views(before)[k]);
                        let j = choose|j: int| 0 <= j < prefix.len() && prefix[j] == views(before)[k];
                        assert(next[j] == prefix[j]);
                    } else {
                        assert(next[i as int] == x@);
                    }
                }
                assert forall|y: Seq<char>| #![trigger views(active@).contains(y)]
                    views(active@).contains(y) <==> next.contains(y) && y != user_id@ by {
                    if views(before).contains(y) {
                        let k = choose|k: int| 0 <= k < views(before).len() && views(before)[k] == y;
                        assert(views(active@)[k] == y);
                    }
                    if prefix.contains(y) {
                        let k = choose|k: int| 0 <= k < prefix.len() && prefix[k] == y;
                        assert(next[k] == y);
                    }
                    if views(active@).contains(y) {
                        let k = choose|k: int| 0 <= k < views(active@).len() && views(active@)[k] == y;
                        if k < before.len() {
                            assert(views(before)[k] == y);
                        }
                    }
                    if next.contains(y) && y != user_id@ {
                        let k = choose|k: int| 0 <= k < next.len() && next[k] == y;
                        if k < i {
                            assert(prefix[k] == y);
                        } else {
                            assert(views(active@)[before.len() as int] == y);
                        }
                    }
                }
            }
            i += 1;
        }
        proof {
            assert(start.active@.take(start.active@.len() as int) == start.active@);
            assert(text_set(active@) =~= text_set(start.active@).remove(user_id@)) by {
                assert forall|y: Seq<char>| text_set(active@).contains(y) <==> text_set(
                    start.active@,
                ).remove(user_id@).contains(y) by {
                    assert(views(active@).contains(y) <==> views(start.active@).contains(y) && y
                        != user_id@);
                }
            }
        }
        self.active = active;
        if peer_active {
            self.defer(user_id, now + PEER_DEFER_MICROS);
        }
    }

    /// Sets the user's deferral to end at `until`, replacing one the user had.
    fn defer(&mut self, user_id: &str, until: i64)
        requires
            old(self).wf(),
        ensures
            final(self).wf(),
            final(self).running == old(self).running,
            final(self).generation == old(self).generation,
            final(self).active == old(self).active,
            forall|e: (Seq<char>, i64)|
                #![trigger deferral_views(final(self).deferred@).contains(e)]
                deferral_views(final(self).deferred@).contains(e) <==> (e == (user_id@, until) || (
                e.0 != user_id@ && deferral_views(old(self).deferred@).contains(e))),
    {
        let ghost start = self.deferred@;
        let mut kept: Vec<(String, i64)> = Vec::new();
        let mut i: usize = 0;
        while i < self.deferred.len()
            invariant
                i <= self.deferred.len(),
                self.deferred@ == start,
                deferral_users(start).no_duplicates(),
                forall|e: (Seq<char>, i64)|
                    #![trigger deferral_views(kept@).contains(e)]
                    deferral_views(kept@).contains(e) <==> deferral_views(start.take(i as int)).contains(
                        e,
                    ) && e.0 != user_id@,
                forall|k: int|
                    0 <= k < kept@.len() ==> deferral_users(start.take(i as int)).contains(
                        #[trigger] deferral_users(kept@)[k],
                    ) && deferral_users(kept@)[k] != user_id@,
                deferral_users(kept@).no_duplicates(),
            decreases self.deferred.len() - i,
        {
            let entry = &self.deferred[i];
            let ghost before = kept@;
            let ghost prefix = start.take(i as int);
            let ghost next = start.take(i + 1);
            proof {
                assert(next == prefix.push(start[i as int]));
                assert(deferral_views(next) =~= deferral_views(prefix).push((entry.0@, entry.1)));
                assert(deferral_users(next) =~= deferral_users(prefix).push(entry.0@));
            }
            if !str_equal(entry.0.as_str(), user_id) {
                kept.push((entry.0.clone(), entry.1));
                proof {
                    assert(deferral_views(kept@) =~= deferral_views(before).push((entry.0@, entry.1)));
                    assert(deferral_users(kept@) =~= deferral_users(before).push(entry.0@));
                    assert(!deferral_users(before).contains(entry.0@)) by {
                        if deferral_users(before).contains(entry.0@) {
                            let k = choose|k: int|
                                0 <= k < deferral_users(before).len() && deferral_users(before)[k]
                                    == entry.0@;
                            assert(deferral_users(prefix).contains(entry.0@));
                            let j = choose|j: int|
                                0 <= j < deferral_users(prefix).len() && deferral_users(prefix)[j]
                                    == entry.0@;
                            assert(deferral_users(start)[j] == deferral_users(start)[i as int]);
                        }
                    }
                }
            }
            proof {
                assert forall|k: int| 0 <= k < kept@.len() implies deferral_users(next).contains(
                    #[trigger] deferral_users(kept@)[k],
                ) && deferral_users(kept@)[k] != user_id@ by {
                    if k < before.len() {
                        assert(deferral_users(kept@)[k] == deferral_users(before)[k]);
                        let j = choose|j: int|
                            0 <= j < deferral_users(prefix).len() && deferral_users(prefix)[j]
                                == deferral_users(before)[k];
                        assert(deferral_users(next)[j] == deferral_users(prefix)[j]);
                    } else {
                        assert(deferral_users(next)[i as int] == entry.0@);
                    }
                }
                assert forall|e: (Seq<char>, i64)|
                    #![trigger deferral_views(kept@).contains(e)]
                    deferral_views(kept@).contains(e) <==> deferral_views(next).contains(e) && e.0
                        != user_id@ by {
                    if e == (entry.0@, entry.1) {
                        assert(deferral_views(next)[i as int] == e);
                    }
                    if deferral_views(before).contains(e) {
                        let k = choose|k: int|
                            0 <= k < deferral_views(before).len() && deferral_views(before)[k] == e;
                        assert(deferral_views(kept@)[k] == e);
                    }
                    if deferral_views(prefix).contains(e) {
                        let k = choose|k: int|
                            0 <= k < deferral_views(prefix).len() && deferral_views(prefix)[k] == e;
                        assert(deferral_views(next)[k] == e);
                    }
                    if deferral_views(kept@).contains(e) {
                        let k = choose|k: int|
                            0 <= k < deferral_views(kept@).len() && deferral_views(kept@)[k] == e;
                        if k < before.len() {
                            assert(deferral_views(before)[k] == e);
                        }
                    }
                    if deferral_views(next).contains(e) && e.0 != user_id@ {
                        let k = choose|k: int|
                            0 <= k < deferral_views(next).len() && deferral_views(next)[k] == e;
                        if k < i {
                            assert(deferral_views(prefix)[k] == e);
                        } else {
                            assert(deferral_views(kept@)[before.len() as int] == e);
                        }
                    }
                }
            }
            i += 1;
        }
        proof {
            assert(start.take(start.len() as int) == start);
        }
        let ghost before = kept@;
        kept.push((user_id.to_string(), until));
        proof {
            assert(deferral_views(kept@) =~= deferral_views(before).push((user_id@, until)));
            assert(deferral_users(kept@) =~= deferral_users(before).push(user_id@));
            assert(!deferral_users(before).contains(user_id@)) by {
                if deferral_users(before).contains(user_id@) {
                    let k = choose|k: int|
                        0 <= k < deferral_users(before).len() && deferral_users(before)[k] == user_id@;
                }
            }
            assert forall|e: (Seq<char>, i64)|
                #![trigger deferral_views(kept@).contains(e)]
                deferral_views(kept@).contains(e) <==> (e == (user_id@, until) || (e.0 != user_id@
                    && deferral_views(start).contains(e))) by {
                assert(deferral_views(before).contains(e) <==> deferral_views(start).contains(e) && e.0
                    != user_id@);
                if deferral_views(before).contains(e) {
                    let k = choose|k: int|
                        0 <= k < deferral_views(before).len() && deferral_views(before)[k] == e;
                    assert(deferral_views(kept@)[k] == e);
                }
                if e == (user_id@, until) {
                    assert(deferral_views(kept@)[before.len() as int] == e);
                }
                if deferral_views(kept@).contains(e) {
                    let k = choose|k: int|
                        0 <= k < deferral_views(kept@).len() && deferral_views(kept@)[k] == e;
                    if k < before.len() {
                        assert(deferral_views(before)[k] == e);
                    }
                }
            }
        }
        self.deferred = kept;
    }

    /// A batch's task failed outright: every batch is abandoned, so no user is in flight.
    pub fn workers_failed(&mut self)
        requires
            old(self).wf(),
        ensures
            final(self).wf(),
            final(self).active@.len() == 0,
            final(self).running == old(self).running,
            final(self).generation == old(self).generation,
            final(self).deferred == old(self).deferred,
    {
        self.active = Vec::new();
        assert(views(self.active@) =~= Seq::<Seq<char>>::empty());
    }

    /// The scan for runnable warmups failed: with no batch in flight the loop stops, and
    /// says so; otherwise it carries on with the batches it has.
    pub fn scan_failed(&mut self, workers_idle: bool) -> (r: bool)
        ensures
            r == workers_idle,
            final(self).running == (old(self).running && !workers_idle),
            final(self).generation == old(self).generation,
            final(self).active == old(self).active,
            final(self).deferred == old(self).deferred,
    {
        if workers_idle {
            self.running = false;
        }
        workers_idle
    }

    /// The earliest instant a deferral ends, if any user waits.
    fn earliest_retry(&self) -> (r: Option<i64>)
        ensures
            r is None <==> self.deferred@.len() == 0,
            r is Some ==> exists|k: int|
                0 <= k < self.deferred@.len() && (#[trigger] self.deferred@[k]).1 == r->0,
            r is Some ==> forall|k: int|
                0 <= k < self.deferred@.len() ==> r->0 <= (#[trigger] self.deferred@[k]).1,
    {
        if self.deferred.len() == 0 {
            return None;
        }
        let mut best: i64 = self.deferred[0].1;
        let mut i: usize = 1;
        while i < self.deferred.len()
            invariant
                1 <= i <= self.deferred.len(),
                exists|k: int| 0 <= k < i && (#[trigger] self.deferred@[k]).1 == best,
                forall|k: int| 0 <= k < i ==> best <= (#[trigger] self.deferred@[k]).1,
            decreases self.deferred.len() - i,
        {
            if self.deferred[i].1 < best {
                best = self.deferred[i].1;
            }
            i += 1;
        }
        Some(best)
    }

    /// No batch is in flight: scan again if warmups were queued since the scan that began
    /// at `scan_generation`; else sleep until the earliest deferral ends; else stop, marking
    /// the loop as no longer running.
    pub fn when_idle(&mut self, scan_generation: u64) -> (r: IdleAction)
        ensures
            final(self).generation == old(self).generation,
            final(self).active == old(self).active,
            final(self).deferred == old(self).deferred,
            old(self).generation != scan_generation ==> r == IdleAction::Rescan && final(self).running
                == old(self).running,
            old(self).generation == scan_generation && old(self).deferred@.len() == 0 ==> r
                == IdleAction::Stop && !final(self).running,
            old(self).generation == scan_generation && old(self).deferred@.len() > 0 ==> (exists|
                k: int|
                0 <= k < old(self).deferred@.len() && r == IdleAction::SleepUntil(
                    (#[trigger] old(self).deferred@[k]).1,
                )) && (forall|k: int|
                0 <= k < old(self).deferred@.len() ==> r->0 <= (#[trigger] old(self).deferred@[k]).1)
                && final(self).running == old(self).running,
    {
        if self.generation != scan_generation {
            return IdleAction::Rescan;
        }
        match self.earliest_retry() {
            None => {
                self.running = false;
                IdleAction::Stop
            },
            Some(t) => IdleAction::SleepUntil(t),
        }
    }
}

} // verus!
