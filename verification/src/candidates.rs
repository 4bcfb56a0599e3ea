//! The graph evidence behind repository discovery: for every repository that a user's
//! followers and followed users star or own, and that the user does not star or own
//! already, the distinct accounts that point to it, by relation.
use vstd::prelude::*;

use crate::bookmarks::{saved_repository_names, Bookmark};
use crate::discovery::{
    contains_text, insert_text, text_set, views, CandidateSignalAccumulator,
    RepositoryGraphSignals,
};
use crate::error::AppError;
use crate::graph::{copy_repository, GitHubRepositoryNode};
use crate::store::{
    collect_image, has_login_like, holdings, image, lemma_repository_position, linked,
    repository_index, repository_position, resolve_shared_login, saved_names, user_absent,
    user_absent_message, SharedGraphStore,
};
use crate::text::{ascii_lowercase, eq_ignore_case, lower_seq, str_equal};

verus! {

/// The accounts a user follows or is followed by.
pub open spec fn peers_of(store: SharedGraphStore, login: Seq<char>) -> Set<Seq<char>> {
    image(store.follows@, login, true).union(image(store.follows@, login, false))
}

/// The peers among whose first `n` pairs one leads to `full_name`.
pub open spec fn via_upto(
    edges: Seq<(String, String)>,
    n: int,
    peers: Set<Seq<char>>,
    full_name: Seq<char>,
) -> Set<Seq<char>> {
    Set::new(
        |p: Seq<char>|
            peers.contains(p) && exists|k: int|
                0 <= k < n && #[trigger] linked(edges[k], p, full_name, true),
    )
}

/// The peers that star a repository.
pub open spec fn starred_by(store: SharedGraphStore, login: Seq<char>, full_name: Seq<char>) -> Set<
    Seq<char>,
> {
    via_upto(store.starred@, store.starred@.len() as int, peers_of(store, login), full_name)
}

/// The peers that own a repository.
pub open spec fn owned_by(store: SharedGraphStore, login: Seq<char>, full_name: Seq<char>) -> Set<
    Seq<char>,
> {
    via_upto(store.member_of@, store.member_of@.len() as int, peers_of(store, login), full_name)
}

/// The peers that star or own a repository.
pub open spec fn recommenders(store: SharedGraphStore, login: Seq<char>, full_name: Seq<char>) -> Set<
    Seq<char>,
> {
    starred_by(store, login, full_name).union(owned_by(store, login, full_name))
}

/// A repository is a candidate for a user: a peer stars or owns it, and the user neither
/// stars nor owns it.
pub open spec fn is_candidate(store: SharedGraphStore, login: Seq<char>, full_name: Seq<char>) -> bool {
    !holdings(store, login).contains(full_name) && exists|p: Seq<char>|
        recommenders(store, login, full_name).contains(p)
}

/// The languages of the repositories a user stars or owns, lower-cased.
pub open spec fn preferred_languages(store: SharedGraphStore, login: Seq<char>) -> Set<Seq<char>> {
    Set::new(
        |x: Seq<char>|
            exists|f: Seq<char>|
                #[trigger] holdings(store, login).contains(f) && language_of(store, f) == Some(x),
    )
}

/// The lower-cased language of a stored repository, if it has one.
pub open spec fn language_of(store: SharedGraphStore, full_name: Seq<char>) -> Option<Seq<char>> {
    let p = repository_position(store.repositories@, full_name);
    if p < 0 {
        None
    } else {
        match store.repositories@[p].language {
            Some(l) => Some(lower_seq(l@)),
            None => None,
        }
    }
}

/// One candidate repository with whether the user saved it, the counts of distinct
/// accounts behind it by relation, and those accounts.
#[derive(Debug, Clone)]
pub struct RepositoryCandidateSignals {
    pub repository: GitHubRepositoryNode,
    pub saved: bool,
    pub graph_signals: RepositoryGraphSignals,
    pub via_logins: Vec<String>,
}

/// The entry describes the candidate `full_name` of `login` exactly.
pub open spec fn describes(
    c: RepositoryCandidateSignals,
    store: SharedGraphStore,
    login: Seq<char>,
    saved: Set<Seq<char>>,
) -> bool {
    let f = c.repository.full_name@;
    let r = recommenders(store, login, f);
    &&& repository_position(store.repositories@, f) >= 0
    &&& c.repository@ == store.repositories@[repository_position(store.repositories@, f)]@
    &&& c.saved == saved.contains(f)
    &&& c.graph_signals.recommenders == r.len()
    &&& c.graph_signals.followed_recommenders == r.intersect(image(store.follows@, login, true)).len()
    &&& c.graph_signals.follower_recommenders == r.intersect(image(store.follows@, login, false)).len()
    &&& c.graph_signals.starred_by_recommenders == starred_by(store, login, f).len()
    &&& c.graph_signals.owned_by_recommenders == owned_by(store, login, f).len()
    &&& views(c.via_logins@).no_duplicates()
    &&& text_set(c.via_logins@) == r
}

/// The candidates listed are exactly the stored candidate repositories of `login`, each
/// once and described exactly.
pub open spec fn lists_candidates(
    cs: Seq<RepositoryCandidateSignals>,
    store: SharedGraphStore,
    login: Seq<char>,
    saved: Set<Seq<char>>,
) -> bool {
    &&& forall|i: int, j: int|
        0 <= i < j < cs.len() ==> #[trigger] cs[i].repository.full_name@ != #[trigger] cs[j].repository.full_name@
    &&& forall|i: int| 0 <= i < cs.len() ==> #[trigger] describes(cs[i], store, login, saved)
    &&& forall|i: int|
        0 <= i < cs.len() ==> is_candidate(store, login, #[trigger] cs[i].repository.full_name@)
    &&& forall|f: Seq<char>|
        #[trigger] is_candidate(store, login, f) && repository_position(store.repositories@, f)
            >= 0 ==> exists|i: int| 0 <= i < cs.len() && cs[i].repository.full_name@ == f
}

proof fn lemma_via_step(edges: Seq<(String, String)>, n: int, peers: Set<Seq<char>>, f: Seq<char>)
    requires
        0 <= n < edges.len(),
    ensures
        via_upto(edges, n + 1, peers, f) == (if edges[n].1@ == f && peers.contains(edges[n].0@) {
            via_upto(edges, n, peers, f).insert(edges[n].0@)
        } else {
            via_upto(edges, n, peers, f)
        }),
{
    let a = via_upto(edges, n + 1, peers, f);
    let b = via_upto(edges, n, peers, f);
    let c = if edges[n].1@ == f && peers.contains(edges[n].0@) {
        b.insert(edges[n].0@)
    } else {
        b
    };
    assert forall|p: Seq<char>| a.contains(p) implies c.contains(p) by {
        let k = choose|k: int| 0 <= k < n + 1 && #[trigger] linked(edges[k], p, f, true);
        if k < n {
            assert(b.contains(p));
        }
    }
    assert forall|p: Seq<char>| c.contains(p) implies a.contains(p) by {
        if b.contains(p) {
            let k = choose|k: int| 0 <= k < n && #[trigger] linked(edges[k], p, f, true);
            assert(linked(edges[k], p, f, true));
        } else {
            assert(linked(edges[n], p, f, true));
        }
    }
    assert(a =~= c);
}

/// The peers that the first `ns` star pairs and the first `nm` membership pairs lead to
/// `full_name`.
pub open spec fn in_play(
    store: SharedGraphStore,
    login: Seq<char>,
    ns: int,
    nm: int,
    full_name: Seq<char>,
) -> Set<Seq<char>> {
    via_upto(store.starred@, ns, peers_of(store, login), full_name).union(
        via_upto(store.member_of@, nm, peers_of(store, login), full_name),
    )
}

/// The accumulator records exactly the peers seen so far for its repository.
pub open spec fn entry_ok(
    e: (String, CandidateSignalAccumulator),
    store: SharedGraphStore,
    login: Seq<char>,
    ns: int,
    nm: int,
) -> bool {
    let f = e.0@;
    let s = via_upto(store.starred@, ns, peers_of(store, login), f);
    let m = via_upto(store.member_of@, nm, peers_of(store, login), f);
    &&& e.1.wf()
    &&& text_set(e.1.recommenders@) == s.union(m)
    &&& text_set(e.1.followed_recommenders@) == s.union(m).intersect(
        image(store.follows@, login, true),
    )
    &&& text_set(e.1.follower_recommenders@) == s.union(m).intersect(
        image(store.follows@, login, false),
    )
    &&& text_set(e.1.starred_by_recommenders@) == s
    &&& text_set(e.1.owned_by_recommenders@) == m
}

/// A repository that the pairs seen so far make a candidate.
pub open spec fn seen_candidate(
    store: SharedGraphStore,
    login: Seq<char>,
    ns: int,
    nm: int,
    full_name: Seq<char>,
) -> bool {
    !holdings(store, login).contains(full_name) && exists|p: Seq<char>|
        in_play(store, login, ns, nm, full_name).contains(p)
}

/// One accumulator per candidate seen so far, each recording exactly its peers.
pub open spec fn accumulated(
    accs: Seq<(String, CandidateSignalAccumulator)>,
    store: SharedGraphStore,
    login: Seq<char>,
    ns: int,
    nm: int,
) -> bool {
    &&& forall|i: int, j: int|
        0 <= i < j < accs.len() ==> #[trigger] accs[i].0@ != #[trigger] accs[j].0@
    &&& forall|i: int| 0 <= i < accs.len() ==> #[trigger] entry_ok(accs[i], store, login, ns, nm)
    &&& forall|i: int|
        0 <= i < accs.len() ==> seen_candidate(store, login, ns, nm, #[trigger] accs[i].0@)
    &&& forall|f: Seq<char>|
        #[trigger] seen_candidate(store, login, ns, nm, f) ==> exists|i: int|
            0 <= i < accs.len() && accs[i].0@ == f
}

fn find_candidate(accs: &Vec<(String, CandidateSignalAccumulator)>, name: &str) -> (r: Option<usize>)
    ensures
        match r {
            Some(i) => i < accs@.len() && accs@[i as int].0@ == name@,
            None => forall|i: int| 0 <= i < accs@.len() ==> accs@[i].0@ != name@,
        },
{
    let mut i: usize = 0;
    while i < accs.len()
        invariant
            i <= accs.len(),
            forall|k: int| 0 <= k < i ==> accs@[k].0@ != name@,
        decreases accs.len() - i,
    {
        if str_equal(accs[i].0.as_str(), name) {
            return Some(i);
        }
        i += 1;
    }
    None
}

/// How far the star and membership relations have been read when `n` pairs of one of them
/// (stars first) have been read.
pub open spec fn read_upto(store: SharedGraphStore, starred: bool, n: int) -> (int, int) {
    if starred {
        (n, 0)
    } else {
        (store.starred@.len() as int, n)
    }
}

/// The pair read at `n` changes the via sets of `f` only where it leads to `f` from a peer:
/// that peer joins the relation read.
proof fn lemma_read_one(store: SharedGraphStore, login: Seq<char>, starred: bool, n: int, f: Seq<char>)
    requires
        0 <= n < (if starred {
            store.starred@.len()
        } else {
            store.member_of@.len()
        }),
    ensures
        ({
            let e = if starred {
                store.starred@[n]
            } else {
                store.member_of@[n]
            };
            let ns = read_upto(store, starred, n).0;
            let nm = read_upto(store, starred, n).1;
            let ns2 = read_upto(store, starred, n + 1).0;
            let nm2 = read_upto(store, starred, n + 1).1;
            let peers = peers_of(store, login);
            &&& via_upto(store.starred@, ns2, peers, f) == (if starred && e.1@ == f && peers.contains(
                e.0@,
            ) {
                via_upto(store.starred@, ns, peers, f).insert(e.0@)
            } else {
                via_upto(store.starred@, ns, peers, f)
            })
            &&& via_upto(store.member_of@, nm2, peers, f) == (if !starred && e.1@ == f
                && peers.contains(e.0@) {
                via_upto(store.member_of@, nm, peers, f).insert(e.0@)
            } else {
                via_upto(store.member_of@, nm, peers, f)
            })
        }),
{
    let peers = peers_of(store, login);
    if starred {
        lemma_via_step(store.starred@, n, peers, f);
    } else {
        lemma_via_step(store.member_of@, n, peers, f);
    }
}

/// The length of the relation read: stars or memberships.
pub open spec fn relation_len(store: SharedGraphStore, starred: bool) -> int {
    if starred {
        store.starred@.len() as int
    } else {
        store.member_of@.len() as int
    }
}

/// Reads one relation (stars, or memberships), recording each pair from a peer to a
/// repository the user neither stars nor owns.
fn accumulate(
    store: &SharedGraphStore,
    login: &str,
    starred: bool,
    followed: &Vec<String>,
    followers: &Vec<String>,
    seed: &Vec<String>,
    accs: &mut Vec<(String, CandidateSignalAccumulator)>,
)
    requires
        text_set(followed@) == image(store.follows@, login@, true),
        text_set(followers@) == image(store.follows@, login@, false),
        text_set(seed@) == holdings(*store, login@),
        accumulated(
            old(accs)@,
            *store,
            login@,
            read_upto(*store, starred, 0).0,
            read_upto(*store, starred, 0).1,
        ),
    ensures
        accumulated(
            final(accs)@,
            *store,
            login@,
            read_upto(*store, starred, relation_len(*store, starred)).0,
            read_upto(*store, starred, relation_len(*store, starred)).1,
        ),
{
    let edges: &Vec<(String, String)> = if starred {
        &store.starred
    } else {
        &store.member_of
    };
    let mut i: usize = 0;
    while i < edges.len()
        invariant
            edges@ == (if starred {
                store.starred@
            } else {
                store.member_of@
            }),
            i <= edges.len(),
            text_set(followed@) == image(store.follows@, login@, true),
            text_set(followers@) == image(store.follows@, login@, false),
            text_set(seed@) == holdings(*store, login@),
            accumulated(
                accs@,
                *store,
                login@,
                read_upto(*store, starred, i as int).0,
                read_upto(*store, starred, i as int).1,
            ),
        decreases edges.len() - i,
    {
        let ghost n = i as int;
        let ghost before = accs@;
        let ghost ns = read_upto(*store, starred, n).0;
        let ghost nm = read_upto(*store, starred, n).1;
        let ghost ns2 = read_upto(*store, starred, n + 1).0;
        let ghost nm2 = read_upto(*store, starred, n + 1).1;
        let ghost peers = peers_of(*store, login@);
        let p = edges[i].0.as_str();
        let f0 = edges[i].1.as_str();
        let in_followed = contains_text(followed, p);
        let in_followers = contains_text(followers, p);
        let hit = in_followed || in_followers;
        let owned_already = contains_text(seed, f0);
        proof {
            assert(hit == peers.contains(p@));
            assert(owned_already == holdings(*store, login@).contains(f0@));
            lemma_read_one(*store, login@, starred, n, f0@);
            assert forall|g: Seq<char>| g != f0@ || !hit implies #[trigger] in_play(
                *store,
                login@,
                ns2,
                nm2,
                g,
            ) == in_play(*store, login@, ns, nm, g) && via_upto(store.starred@, ns2, peers, g)
                == via_upto(store.starred@, ns, peers, g) && via_upto(
                store.member_of@,
                nm2,
                peers,
                g,
            ) == via_upto(store.member_of@, nm, peers, g) by {
                lemma_read_one(*store, login@, starred, n, g);
            }
            assert forall|g: Seq<char>|
                #[trigger] in_play(*store, login@, ns, nm, g).subset_of(
                    in_play(*store, login@, ns2, nm2, g),
                ) by {
                lemma_read_one(*store, login@, starred, n, g);
            }
        }
        if hit && !owned_already {
            match find_candidate(accs, f0) {
                Some(k) => {
                    proof {
                        assert(entry_ok(before[k as int], *store, login@, ns, nm));
                    }
                    let (name, mut acc) = accs.remove(k);
                    acc.record(p, in_followed, in_followers, starred);
                    accs.insert(k, (name, acc));
                    proof {
                        let after = accs@;
                        assert(after =~= before.update(k as int, (before[k as int].0, acc)));
                        assert(entry_ok(before[k as int], *store, login@, ns, nm));
                        let sv = via_upto(store.starred@, ns, peers, f0@);
                        let mv = via_upto(store.member_of@, nm, peers, f0@);
                        let fd = image(store.follows@, login@, true);
                        let fr = image(store.follows@, login@, false);
                        assert(sv.union(mv).insert(p@).intersect(fd) =~= if in_followed {
                            sv.union(mv).intersect(fd).insert(p@)
                        } else {
                            sv.union(mv).intersect(fd)
                        });
                        assert(sv.union(mv).insert(p@).intersect(fr) =~= if in_followers {
                            sv.union(mv).intersect(fr).insert(p@)
                        } else {
                            sv.union(mv).intersect(fr)
                        });
                        if starred {
                            assert(sv.insert(p@).union(mv) =~= sv.union(mv).insert(p@));
                        } else {
                            assert(sv.union(mv.insert(p@)) =~= sv.union(mv).insert(p@));
                        }
                        assert(entry_ok(after[k as int], *store, login@, ns2, nm2));
                        assert forall|j: int| 0 <= j < after.len() implies #[trigger] entry_ok(
                            after[j],
                            *store,
                            login@,
                            ns2,
                            nm2,
                        ) by {
                            if j != k {
                                assert(after[j] == before[j]);
                                assert(entry_ok(before[j], *store, login@, ns, nm));
                                assert(before[j].0@ != before[k as int].0@);
                                assert(in_play(*store, login@, ns2, nm2, before[j].0@) == in_play(
                                    *store,
                                    login@,
                                    ns,
                                    nm,
                                    before[j].0@,
                                ));
                            }
                        }
                        assert forall|j: int| 0 <= j < after.len() implies seen_candidate(
                            *store,
                            login@,
                            ns2,
                            nm2,
                            #[trigger] after[j].0@,
                        ) by {
                            assert(after[j].0@ == before[j].0@);
                            assert(seen_candidate(*store, login@, ns, nm, before[j].0@));
                            let q = choose|q: Seq<char>|
                                in_play(*store, login@, ns, nm, before[j].0@).contains(q);
                            assert(in_play(*store, login@, ns, nm, before[j].0@).subset_of(
                                in_play(*store, login@, ns2, nm2, before[j].0@),
                            ));
                            assert(in_play(*store, login@, ns2, nm2, after[j].0@).contains(q));
                        }
                        assert forall|g: Seq<char>| #[trigger]
                            seen_candidate(*store, login@, ns2, nm2, g) implies exists|j: int|
                            0 <= j < after.len() && after[j].0@ == g by {
                            if g == f0@ {
                                assert(after[k as int].0@ == g);
                            } else {
                                assert(seen_candidate(*store, login@, ns, nm, g));
                                let j = choose|j: int| 0 <= j < before.len() && before[j].0@ == g;
                                assert(after[j].0@ == g);
                            }
                        }
                        assert forall|a: int, b: int| 0 <= a < b < after.len() implies #[trigger] after[a].0@
                            != #[trigger] after[b].0@ by {
                            assert(after[a].0@ == before[a].0@ && after[b].0@ == before[b].0@);
                        }
                    }
                },
                None => {
                    let mut acc = CandidateSignalAccumulator::new();
                    acc.record(p, in_followed, in_followers, starred);
                    let name = f0.to_string();
                    accs.push((name, acc));
                    proof {
                        let after = accs@;
                        let sv = via_upto(store.starred@, ns, peers, f0@);
                        let mv = via_upto(store.member_of@, nm, peers, f0@);
                        assert(!exists|q: Seq<char>| in_play(*store, login@, ns, nm, f0@).contains(q))
                            by {
                            if exists|q: Seq<char>| in_play(*store, login@, ns, nm, f0@).contains(q) {
                                assert(seen_candidate(*store, login@, ns, nm, f0@));
                            }
                        }
                        assert(sv =~= Set::empty()) by {
                            assert forall|q: Seq<char>| !sv.contains(q) by {
                                if sv.contains(q) {
                                    assert(in_play(*store, login@, ns, nm, f0@).contains(q));
                                }
                            }
                        }
                        assert(mv =~= Set::empty()) by {
                            assert forall|q: Seq<char>| !mv.contains(q) by {
                                if mv.contains(q) {
                                    assert(in_play(*store, login@, ns, nm, f0@).contains(q));
                                }
                            }
                        }
                        let fd = image(store.follows@, login@, true);
                        let fr = image(store.follows@, login@, false);
                        let one = Set::<Seq<char>>::empty().insert(p@);
                        assert(one.intersect(fd) =~= if in_followed {
                            Set::<Seq<char>>::empty().insert(p@)
                        } else {
                            Set::<Seq<char>>::empty()
                        });
                        assert(one.intersect(fr) =~= if in_followers {
                            Set::<Seq<char>>::empty().insert(p@)
                        } else {
                            Set::<Seq<char>>::empty()
                        });
                        if starred {
                            assert(sv.insert(p@).union(mv) =~= one);
                        } else {
                            assert(sv.union(mv.insert(p@)) =~= one);
                        }
                        assert(entry_ok(after[before.len() as int], *store, login@, ns2, nm2));
                        assert forall|j: int| 0 <= j < after.len() implies #[trigger] entry_ok(
                            after[j],
                            *store,
                            login@,
                            ns2,
                            nm2,
                        ) by {
                            if j < before.len() {
                                assert(after[j] == before[j]);
                                assert(entry_ok(before[j], *store, login@, ns, nm));
                                assert(before[j].0@ != f0@);
                                assert(in_play(*store, login@, ns2, nm2, before[j].0@) == in_play(
                                    *store,
                                    login@,
                                    ns,
                                    nm,
                                    before[j].0@,
                                ));
                            }
                        }
                        assert(in_play(*store, login@, ns2, nm2, f0@).contains(p@));
                        assert forall|j: int| 0 <= j < after.len() implies seen_candidate(
                            *store,
                            login@,
                            ns2,
                            nm2,
                            #[trigger] after[j].0@,
                        ) by {
                            if j < before.len() {
                                assert(after[j] == before[j]);
                                assert(seen_candidate(*store, login@, ns, nm, before[j].0@));
                                let q = choose|q: Seq<char>|
                                    in_play(*store, login@, ns, nm, before[j].0@).contains(q);
                                assert(in_play(*store, login@, ns, nm, before[j].0@).subset_of(
                                    in_play(*store, login@, ns2, nm2, before[j].0@),
                                ));
                                assert(in_play(*store, login@, ns2, nm2, after[j].0@).contains(q));
                            }
                        }
                        assert forall|g: Seq<char>| #[trigger]
                            seen_candidate(*store, login@, ns2, nm2, g) implies exists|j: int|
                            0 <= j < after.len() && after[j].0@ == g by {
                            if g == f0@ {
                                assert(after[before.len() as int].0@ == g);
                            } else {
                                assert(seen_candidate(*store, login@, ns, nm, g));
                                let j = choose|j: int| 0 <= j < before.len() && before[j].0@ == g;
                                assert(after[j].0@ == g);
                            }
                        }
                        assert forall|a: int, b: int| 0 <= a < b < after.len() implies #[trigger] after[a].0@
                            != #[trigger] after[b].0@ by {
                            if b == before.len() {
                                assert(after[a] == before[a]);
                            } else {
                                assert(after[a] == before[a] && after[b] == before[b]);
                            }
                        }
                    }
                },
            }
        } else {
            proof {
                assert forall|j: int| 0 <= j < before.len() implies #[trigger] entry_ok(
                    before[j],
                    *store,
                    login@,
                    ns2,
                    nm2,
                ) by {
                    assert(entry_ok(before[j], *store, login@, ns, nm));
                    assert(seen_candidate(*store, login@, ns, nm, before[j].0@));
                    assert(in_play(*store, login@, ns2, nm2, before[j].0@) == in_play(
                        *store,
                        login@,
                        ns,
                        nm,
                        before[j].0@,
                    ));
                }
                assert forall|j: int| 0 <= j < before.len() implies seen_candidate(
                    *store,
                    login@,
                    ns2,
                    nm2,
                    #[trigger] before[j].0@,
                ) by {
                    assert(seen_candidate(*store, login@, ns, nm, before[j].0@));
                    let q = choose|q: Seq<char>|
                        in_play(*store, login@, ns, nm, before[j].0@).contains(q);
                    assert(in_play(*store, login@, ns, nm, before[j].0@).subset_of(
                        in_play(*store, login@, ns2, nm2, before[j].0@),
                    ));
                }
                assert forall|g: Seq<char>| #[trigger]
                    seen_candidate(*store, login@, ns2, nm2, g) implies exists|j: int|
                    0 <= j < before.len() && before[j].0@ == g by {
                    assert(seen_candidate(*store, login@, ns, nm, g));
                }
            }
        }
        i += 1;
    }
}

/// The languages of the first `n` of `names`, lower-cased.
pub open spec fn languages_upto(store: SharedGraphStore, names: Seq<String>, n: int) -> Set<Seq<char>> {
    Set::new(
        |x: Seq<char>| exists|m: int| 0 <= m < n && #[trigger] language_of(store, names[m]@) == Some(x),
    )
}

fn preferred_language_list(store: &SharedGraphStore, login: &str, seed: &Vec<String>) -> (r: Vec<String>)
    requires
        text_set(seed@) == holdings(*store, login@),
    ensures
        views(r@).no_duplicates(),
        text_set(r@) == preferred_languages(*store, login@),
{
    let mut out: Vec<String> = Vec::new();
    let mut j: usize = 0;
    assert(text_set(out@) =~= languages_upto(*store, seed@, 0));
    while j < seed.len()
        invariant
            j <= seed.len(),
            views(out@).no_duplicates(),
            text_set(out@) == languages_upto(*store, seed@, j as int),
        decreases seed.len() - j,
    {
        let name = seed[j].as_str();
        proof {
            lemma_repository_position(store.repositories@, name@);
        }
        let ghost before = out@;
        match repository_index(&store.repositories, name) {
            Some(k) => {
                match &store.repositories[k].language {
                    Some(language) => {
                        let lowered = ascii_lowercase(language.as_str());
                        insert_text(&mut out, lowered.as_str());
                    },
                    None => {},
                }
            },
            None => {},
        }
        proof {
            let n = j as int;
            assert forall|x: Seq<char>| #[trigger]
                languages_upto(*store, seed@, n + 1).contains(x) == text_set(out@).contains(x) by {
                if languages_upto(*store, seed@, n + 1).contains(x) {
                    let m = choose|m: int|
                        0 <= m < n + 1 && #[trigger] language_of(*store, seed@[m]@) == Some(x);
                    if m < n {
                        assert(languages_upto(*store, seed@, n).contains(x));
                    }
                }
                if languages_upto(*store, seed@, n).contains(x) {
                    let m = choose|m: int|
                        0 <= m < n && #[trigger] language_of(*store, seed@[m]@) == Some(x);
                    assert(language_of(*store, seed@[m]@) == Some(x));
                }
                if language_of(*store, seed@[n]@) == Some(x) {
                    assert(language_of(*store, seed@[n]@) == Some(x));
                }
            }
            assert(text_set(out@) =~= languages_upto(*store, seed@, n + 1));
        }
        j += 1;
    }
    proof {
        assert forall|x: Seq<char>| #[trigger]
            preferred_languages(*store, login@).contains(x) == text_set(out@).contains(x) by {
            if preferred_languages(*store, login@).contains(x) {
                let f = choose|f: Seq<char>|
                    #[trigger] holdings(*store, login@).contains(f) && language_of(*store, f) == Some(x);
                assert(views(seed@).contains(f));
                let m = choose|m: int| 0 <= m < views(seed@).len() && views(seed@)[m] == f;
                assert(seed@[m]@ == f);
                assert(language_of(*store, seed@[m]@) == Some(x));
            }
            if text_set(out@).contains(x) {
                let m = choose|m: int|
                    0 <= m < seed@.len() && #[trigger] language_of(*store, seed@[m]@) == Some(x);
                assert(views(seed@)[m] == seed@[m]@);
                assert(holdings(*store, login@).contains(seed@[m]@));
            }
        }
        assert(text_set(out@) =~= preferred_languages(*store, login@));
    }
    out
}

proof fn lemma_candidate_is_seen(store: SharedGraphStore, login: Seq<char>, f: Seq<char>)
    ensures
        in_play(store, login, store.starred@.len() as int, store.member_of@.len() as int, f)
            == recommenders(store, login, f),
        is_candidate(store, login, f) == seen_candidate(
            store,
            login,
            store.starred@.len() as int,
            store.member_of@.len() as int,
            f,
        ),
{
    let ns = store.starred@.len() as int;
    let nm = store.member_of@.len() as int;
    assert(in_play(store, login, ns, nm, f) == recommenders(store, login, f));
    if is_candidate(store, login, f) {
        let q = choose|q: Seq<char>| recommenders(store, login, f).contains(q);
        assert(in_play(store, login, ns, nm, f).contains(q));
    }
    if seen_candidate(store, login, ns, nm, f) {
        let q = choose|q: Seq<char>| in_play(store, login, ns, nm, f).contains(q);
        assert(recommenders(store, login, f).contains(q));
    }
}

proof fn lemma_describes(
    store: SharedGraphStore,
    login: Seq<char>,
    e: (String, CandidateSignalAccumulator),
    c: RepositoryCandidateSignals,
    sv: Set<Seq<char>>,
)
    requires
        entry_ok(e, store, login, store.starred@.len() as int, store.member_of@.len() as int),
        c.repository.full_name@ == e.0@,
        repository_position(store.repositories@, e.0@) >= 0,
        c.repository@ == store.repositories@[repository_position(store.repositories@, e.0@)]@,
        c.saved == sv.contains(e.0@),
        c.graph_signals.recommenders == text_set(e.1.recommenders@).len(),
        c.graph_signals.followed_recommenders == text_set(e.1.followed_recommenders@).len(),
        c.graph_signals.follower_recommenders == text_set(e.1.follower_recommenders@).len(),
        c.graph_signals.starred_by_recommenders == text_set(e.1.starred_by_recommenders@).len(),
        c.graph_signals.owned_by_recommenders == text_set(e.1.owned_by_recommenders@).len(),
        text_set(c.via_logins@) == text_set(e.1.recommenders@),
        views(c.via_logins@).no_duplicates(),
    ensures
        describes(c, store, login, sv),
{
    lemma_candidate_is_seen(store, login, e.0@);
}

fn build_candidates(
    store: &SharedGraphStore,
    login: &str,
    accs: Vec<(String, CandidateSignalAccumulator)>,
    saved: &Vec<String>,
) -> (r: Vec<RepositoryCandidateSignals>)
    requires
        accumulated(
            accs@,
            *store,
            login@,
            store.starred@.len() as int,
            store.member_of@.len() as int,
        ),
    ensures
        lists_candidates(r@, *store, login@, text_set(saved@)),
{
    let ghost all = accs@;
    let ghost ns = store.starred@.len() as int;
    let ghost nm = store.member_of@.len() as int;
    let ghost sv = text_set(saved@);
    let mut rest = accs;
    let mut out: Vec<RepositoryCandidateSignals> = Vec::new();
    let ghost mut i: int = 0;
    while rest.len() > 0
        invariant
            0 <= i <= all.len(),
            rest@ == all.skip(i),
            accumulated(all, *store, login@, ns, nm),
            ns == store.starred@.len() as int,
            nm == store.member_of@.len() as int,
            sv == text_set(saved@),
            forall|a: int, b: int|
                0 <= a < b < out@.len() ==> #[trigger] out@[a].repository.full_name@
                    != #[trigger] out@[b].repository.full_name@,
            forall|q: int| 0 <= q < out@.len() ==> #[trigger] describes(out@[q], *store, login@, sv),
            forall|q: int|
                0 <= q < out@.len() ==> exists|m: int|
                    0 <= m < i && all[m].0@ == #[trigger] out@[q].repository.full_name@,
            forall|m: int|
                0 <= m < i && repository_position(store.repositories@, #[trigger] all[m].0@) >= 0
                    ==> exists|q: int| 0 <= q < out@.len() && out@[q].repository.full_name@ == all[m].0@,
        decreases rest.len(),
    {
        let ghost n = i;
        assert(n < all.len());
        let (name, acc) = rest.remove(0);
        proof {
            assert((name, acc) == all[n]);
            assert(entry_ok(all[n], *store, login@, ns, nm));
            lemma_repository_position(store.repositories@, name@);
        }
        let ghost before = out@;
        match repository_index(&store.repositories, name.as_str()) {
            Some(k) => {
                let repository = copy_repository(&store.repositories[k]);
                let saved_flag = contains_text(saved, name.as_str());
                let (graph_signals, via_logins) = acc.into_parts();
                let c = RepositoryCandidateSignals {
                    repository,
                    saved: saved_flag,
                    graph_signals,
                    via_logins,
                };
                out.push(c);
                proof {
                    assert(c.repository.full_name@ == name@);
                    lemma_describes(*store, login@, all[n], c, sv);
                    assert forall|a: int, b: int|
                        0 <= a < b < out@.len() implies #[trigger] out@[a].repository.full_name@
                        != #[trigger] out@[b].repository.full_name@ by {
                        if b == before.len() {
                            let m = choose|m: int|
                                0 <= m < n && all[m].0@ == #[trigger] before[a].repository.full_name@;
                            assert(all[m].0@ != all[n].0@);
                        } else {
                            assert(out@[a] == before[a] && out@[b] == before[b]);
                        }
                    }
                    assert forall|q: int| 0 <= q < out@.len() implies #[trigger] describes(
                        out@[q],
                        *store,
                        login@,
                        sv,
                    ) by {
                        if q < before.len() {
                            assert(out@[q] == before[q]);
                        }
                    }
                    assert forall|q: int| 0 <= q < out@.len() implies exists|m: int|
                        0 <= m < n + 1 && all[m].0@ == #[trigger] out@[q].repository.full_name@ by {
                        if q < before.len() {
                            assert(out@[q] == before[q]);
                            let m = choose|m: int|
                                0 <= m < n && all[m].0@ == #[trigger] before[q].repository.full_name@;
                            assert(all[m].0@ == out@[q].repository.full_name@);
                        } else {
                            assert(all[n].0@ == out@[q].repository.full_name@);
                        }
                    }
                    assert forall|m: int|
                        0 <= m < n + 1 && repository_position(store.repositories@, #[trigger] all[m].0@)
                            >= 0 implies exists|q: int|
                        0 <= q < out@.len() && out@[q].repository.full_name@ == all[m].0@ by {
                        if m < n {
                            let q = choose|q: int|
                                0 <= q < before.len() && before[q].repository.full_name@ == all[m].0@;
                            assert(out@[q] == before[q]);
                        } else {
                            assert(out@[before.len() as int].repository.full_name@ == all[m].0@);
                        }
                    }
                }
            },
            None => {
                proof {
                    assert forall|q: int| 0 <= q < out@.len() implies exists|m: int|
                        0 <= m < n + 1 && all[m].0@ == #[trigger] out@[q].repository.full_name@ by {
                        let m = choose|m: int|
                            0 <= m < n && all[m].0@ == #[trigger] out@[q].repository.full_name@;
                        assert(all[m].0@ == out@[q].repository.full_name@);
                    }
                }
            },
        }
        proof {
            i = i + 1;
        }
    }
    proof {
        assert(i == all.len());
        assert forall|q: int| 0 <= q < out@.len() implies is_candidate(
            *store,
            login@,
            #[trigger] out@[q].repository.full_name@,
        ) by {
            let m = choose|m: int|
                0 <= m < i && all[m].0@ == #[trigger] out@[q].repository.full_name@;
            assert(seen_candidate(*store, login@, ns, nm, all[m].0@));
            lemma_candidate_is_seen(*store, login@, all[m].0@);
        }
        assert forall|f: Seq<char>|
            #[trigger] is_candidate(*store, login@, f) && repository_position(
                store.repositories@,
                f,
            ) >= 0 implies exists|q: int|
            0 <= q < out@.len() && out@[q].repository.full_name@ == f by {
            lemma_candidate_is_seen(*store, login@, f);
            assert(seen_candidate(*store, login@, ns, nm, f));
            let m = choose|m: int| 0 <= m < all.len() && all[m].0@ == f;
            assert(repository_position(store.repositories@, all[m].0@) >= 0);
        }
    }
    out
}

/// The login a requested one resolves to: stored, equal to it ignoring ASCII case, and the
/// requested login itself where that is stored.
pub open spec fn resolved_as(store: SharedGraphStore, requested: Seq<char>, login: Seq<char>) -> bool {
    &&& crate::graph::user_position(store.users@, login) >= 0
    &&& eq_ignore_case(login, requested)
    &&& crate::graph::user_position(store.users@, requested) >= 0 ==> login == requested
}

/// The evidence for discovering repositories through a user's network, for the login as
/// stored or as stored ignoring ASCII case: every stored repository that the user's
/// followers and followed users star or own and that the user neither stars nor owns, once,
/// with whether the user saved it, the counts of distinct accounts behind it by relation and
/// those accounts; and the lower-cased languages of the user's own repositories.
pub fn repository_candidate_signals(
    store: &SharedGraphStore,
    bookmarks: Option<&Vec<Bookmark>>,
    login: &str,
) -> (r: Result<(Vec<RepositoryCandidateSignals>, Vec<String>), AppError>)
    ensures
        r is Err <==> !has_login_like(*store, login@),
        r is Err ==> r->Err_0 is NotFound && r->Err_0->NotFound_0@ == user_absent_message(login@),
        r is Ok ==> exists|l: Seq<char>|
            #[trigger] resolved_as(*store, login@, l) && lists_candidates(
                r->Ok_0.0@,
                *store,
                l,
                saved_names(bookmarks),
            ) && views(r->Ok_0.1@).no_duplicates() && text_set(r->Ok_0.1@) == preferred_languages(
                *store,
                l,
            ),
{
    let resolved = match resolve_shared_login(store, login) {
        Some(found) => found,
        None => {
            return Err(user_absent(login));
        },
    };
    let l = resolved.as_str();
    let mut seed: Vec<String> = Vec::new();
    assert(text_set(seed@) =~= Set::empty());
    collect_image(&store.member_of, l, true, None, &mut seed);
    collect_image(&store.starred, l, true, None, &mut seed);
    assert(text_set(seed@) =~= holdings(*store, l@));
    let mut followed: Vec<String> = Vec::new();
    assert(text_set(followed@) =~= Set::empty());
    collect_image(&store.follows, l, true, None, &mut followed);
    assert(text_set(followed@) =~= image(store.follows@, l@, true));
    let mut followers: Vec<String> = Vec::new();
    assert(text_set(followers@) =~= Set::empty());
    collect_image(&store.follows, l, false, None, &mut followers);
    assert(text_set(followers@) =~= image(store.follows@, l@, false));
    let languages = preferred_language_list(store, l, &seed);
    let mut accs: Vec<(String, CandidateSignalAccumulator)> = Vec::new();
    proof {
        assert forall|f: Seq<char>| !#[trigger] seen_candidate(*store, l@, 0, 0, f) by {
            assert forall|q: Seq<char>| !in_play(*store, l@, 0, 0, f).contains(q) by {}
        }
    }
    accumulate(store, l, true, &followed, &followers, &seed, &mut accs);
    accumulate(store, l, false, &followed, &followers, &seed, &mut accs);
    let saved = saved_repository_names(bookmarks);
    let candidates = build_candidates(store, l, accs, &saved);
    proof {
        assert(resolved_as(*store, login@, l@));
    }
    Ok((candidates, languages))
}

/// Discovery only proposes what the user's network points to: a listed candidate is a
/// repository the user neither stars nor owns, at least one account stands behind it, and
/// every account behind it follows the user or is followed by them.
pub proof fn law_candidates_come_from_the_network(
    store: SharedGraphStore,
    login: Seq<char>,
    c: RepositoryCandidateSignals,
    saved: Set<Seq<char>>,
)
    requires
        describes(c, store, login, saved),
        is_candidate(store, login, c.repository.full_name@),
    ensures
        !holdings(store, login).contains(c.repository.full_name@),
        c.graph_signals.recommenders >= 1,
        forall|p: Seq<char>| #[trigger] text_set(c.via_logins@).contains(p) ==> peers_of(store, login).contains(p),
{
    let f = c.repository.full_name@;
    let r = recommenders(store, login, f);
    let q = choose|q: Seq<char>| r.contains(q);
    assert(r.finite()) by {
        assert(text_set(c.via_logins@) == r);
    }
    vstd::set_lib::lemma_set_empty_equivalency_len(r);
    assert(r.len() != 0) by {
        if r.len() == 0 {
            assert(r =~= Set::empty());
            assert(!r.contains(q));
        }
    }
}

} // verus!
