//! Neighbourhoods, recent exploration activity, and the graph signals behind repository discovery.
use vstd::prelude::*;

use crate::graph::{CacheStatus, GitHubRepositoryNode, GitHubUserNode, GraphImportCoverage};
use crate::text::{owned, str_equal};

verus! {

/// How many visible people the recent-exploration list keeps.
pub const MAX_RECENT_PEOPLE: usize = 50;

/// How many hidden people (removals the user asked for) the list remembers.
pub const MAX_HIDDEN_RECENT_PEOPLE: usize = 50;

#[derive(Debug, Clone, PartialEq, Eq)]
pub struct DiscoveryUser {
    pub profile: GitHubUserNode,
    pub neighborhood_cache_status: CacheStatus,
    pub neighborhood_last_fetched_at: Option<i64>,
}

#[derive(Debug, Clone, PartialEq, Eq)]
pub struct DiscoveryRepositoryRecord {
    pub repository: GitHubRepositoryNode,
    pub saved: bool,
}

#[derive(Debug, Clone, PartialEq, Eq)]
pub struct UserNeighborhood {
    pub user: DiscoveryUser,
    pub followers: Vec<DiscoveryUser>,
    pub following: Vec<DiscoveryUser>,
    pub starred_repositories: Vec<DiscoveryRepositoryRecord>,
    pub owned_repositories: Vec<DiscoveryRepositoryRecord>,
    pub coverage: GraphImportCoverage,
}

/// How many distinct network accounts point to a candidate repository, by relation.
#[derive(Debug, Clone, Copy, Default, PartialEq, Eq, Structural)]
pub struct RepositoryGraphSignals {
    pub recommenders: usize,
    pub followed_recommenders: usize,
    pub follower_recommenders: usize,
    pub starred_by_recommenders: usize,
    pub owned_by_recommenders: usize,
}

#[derive(Debug, Clone, Copy, PartialEq, Eq, Structural)]
pub enum RepositoryReasonKind {
    NetworkEndorsement,
    FollowedDeveloper,
    FollowerDiscovery,
    StarredByNetwork,
    BuiltByNetwork,
    GlobalStars,
    ForkAdoption,
    LanguageMatch,
    RecentActivity,
    HiddenGem,
    ArchivedPenalty,
}

/// Which edge of the graph a person was reached through.
#[derive(Debug, Clone, Copy, PartialEq, Eq, Structural)]
pub enum ExplorationDirection {
    Followers,
    Following,
}

#[derive(Debug, Clone, PartialEq, Eq)]
pub struct RecentPerson {
    pub profile: GitHubUserNode,
    pub trail: Vec<String>,
    pub direction: ExplorationDirection,
    pub last_viewed_at: i64,
    pub visit_count: u64,
    pub visible: bool,
}

#[derive(Debug, Clone, PartialEq, Eq, Default)]
pub struct ExplorationActivity {
    pub recent_people: Vec<RecentPerson>,
    pub max_trail_depth: usize,
}

/// The texts of a sequence of strings.
pub open spec fn views(s: Seq<String>) -> Seq<Seq<char>> {
    s.map_values(|x: String| x@)
}

/// The texts of a sequence of strings, as a set.
pub open spec fn text_set(s: Seq<String>) -> Set<Seq<char>> {
    views(s).to_set()
}

pub fn contains_text(v: &Vec<String>, t: &str) -> (r: bool)
    ensures
        r == text_set(v@).contains(t@),
{
    let mut i: usize = 0;
    while i < v.len()
        invariant
            i <= v.len(),
            forall|k: int| 0 <= k < i ==> v@[k]@ != t@,
        decreases v.len() - i,
    {
        if str_equal(v[i].as_str(), t) {
            assert(views(v@)[i as int] == t@);
            return true;
        }
        i += 1;
    }
    assert(!views(v@).contains(t@)) by {
        if views(v@).contains(t@) {
            let k = choose|k: int| 0 <= k < views(v@).len() && views(v@)[k] == t@;
            assert(v@[k]@ == t@);
        }
    }
    false
}

/// Adds a text to a list that holds each text once.
pub fn insert_text(v: &mut Vec<String>, t: &str)
    ensures
        text_set(final(v)@) == text_set(old(v)@).insert(t@),
        views(old(v)@).no_duplicates() ==> views(final(v)@).no_duplicates(),
{
    if !contains_text(v, t) {
        let ghost before = v@;
        v.push(owned(t));
        proof {
            assert(views(v@) == views(before).push(t@));
            assert(views(v@).to_set() =~= views(before).to_set().insert(t@)) by {
                assert forall|x: Seq<char>| #[trigger] views(v@).to_set().contains(x) <==> views(
                    before,
                ).to_set().insert(t@).contains(x) by {
                    if views(v@).contains(x) {
                        let k = choose|k: int| 0 <= k < views(v@).len() && views(v@)[k] == x;
                        if k < before.len() {
                            assert(views(before)[k] == x);
                        }
                    }
                    if views(before).contains(x) {
                        let k = choose|k: int| 0 <= k < views(before).len() && views(before)[k] == x;
                        assert(views(v@)[k] == x);
                    }
                    if x == t@ {
                        assert(views(v@)[before.len() as int] == x);
                    }
                }
            }
        }
    } else {
        assert(text_set(v@).insert(t@) =~= text_set(v@));
    }
}

/// The distinct accounts recorded for one candidate repository, by relation.
pub struct CandidateSignalAccumulator {
    pub recommenders: Vec<String>,
    pub followed_recommenders: Vec<String>,
    pub follower_recommenders: Vec<String>,
    pub starred_by_recommenders: Vec<String>,
    pub owned_by_recommenders: Vec<String>,
}

impl CandidateSignalAccumulator {
    /// Every list holds each login at most once.
    pub open spec fn wf(&self) -> bool {
        &&& views(self.recommenders@).no_duplicates()
        &&& views(self.followed_recommenders@).no_duplicates()
        &&& views(self.follower_recommenders@).no_duplicates()
        &&& views(self.starred_by_recommenders@).no_duplicates()
        &&& views(self.owned_by_recommenders@).no_duplicates()
    }

    /// An accumulator that has recorded nobody.
    pub fn new() -> (r: Self)
        ensures
            r.wf(),
            text_set(r.recommenders@).is_empty(),
            text_set(r.followed_recommenders@).is_empty(),
            text_set(r.follower_recommenders@).is_empty(),
            text_set(r.starred_by_recommenders@).is_empty(),
            text_set(r.owned_by_recommenders@).is_empty(),
    {
        let r = CandidateSignalAccumulator {
            recommenders: Vec::new(),
            followed_recommenders: Vec::new(),
            follower_recommenders: Vec::new(),
            starred_by_recommenders: Vec::new(),
            owned_by_recommenders: Vec::new(),
        };
        assert(text_set(r.recommenders@) =~= Set::empty());
        assert(text_set(r.followed_recommenders@) =~= Set::empty());
        assert(text_set(r.follower_recommenders@) =~= Set::empty());
        assert(text_set(r.starred_by_recommenders@) =~= Set::empty());
        assert(text_set(r.owned_by_recommenders@) =~= Set::empty());
        r
    }

    /// Records that `login` stars (or, when `starred` is false, owns) the candidate.
    pub fn record(&mut self, login: &str, followed: bool, follower: bool, starred: bool)
        requires
            old(self).wf(),
        ensures
            final(self).wf(),
            text_set(final(self).recommenders@) == text_set(old(self).recommenders@).insert(
                login@,
            ),
            text_set(final(self).followed_recommenders@) == if followed {
                text_set(old(self).followed_recommenders@).insert(login@)
            } else {
                text_set(old(self).followed_recommenders@)
            },
            text_set(final(self).follower_recommenders@) == if follower {
                text_set(old(self).follower_recommenders@).insert(login@)
            } else {
                text_set(old(self).follower_recommenders@)
            },
            text_set(final(self).starred_by_recommenders@) == if starred {
                text_set(old(self).starred_by_recommenders@).insert(login@)
            } else {
                text_set(old(self).starred_by_recommenders@)
            },
            text_set(final(self).owned_by_recommenders@) == if !starred {
                text_set(old(self).owned_by_recommenders@).insert(login@)
            } else {
                text_set(old(self).owned_by_recommenders@)
            },
    {
        insert_text(&mut self.recommenders, login);
        if followed {
            insert_text(&mut self.followed_recommenders, login);
        }
        if follower {
            insert_text(&mut self.follower_recommenders, login);
        }
        if starred {
            insert_text(&mut self.starred_by_recommenders, login);
        } else {
            insert_text(&mut self.owned_by_recommenders, login);
        }
    }

    /// The counts of distinct accounts per relation, and the recommending logins.
    pub fn into_parts(self) -> (r: (RepositoryGraphSignals, Vec<String>))
        requires
            self.wf(),
        ensures
            r.0.recommenders == text_set(self.recommenders@).len(),
            r.0.followed_recommenders == text_set(self.followed_recommenders@).len(),
            r.0.follower_recommenders == text_set(self.follower_recommenders@).len(),
            r.0.starred_by_recommenders == text_set(self.starred_by_recommenders@).len(),
            r.0.owned_by_recommenders == text_set(self.owned_by_recommenders@).len(),
            text_set(r.1@) == text_set(self.recommenders@),
            views(r.1@).no_duplicates(),
    {
        proof {
            views(self.recommenders@).unique_seq_to_set();
            views(self.followed_recommenders@).unique_seq_to_set();
            views(self.follower_recommenders@).unique_seq_to_set();
            views(self.starred_by_recommenders@).unique_seq_to_set();
            views(self.owned_by_recommenders@).unique_seq_to_set();
        }
        let signals = RepositoryGraphSignals {
            recommenders: self.recommenders.len(),
            followed_recommenders: self.followed_recommenders.len(),
            follower_recommenders: self.follower_recommenders.len(),
            starred_by_recommenders: self.starred_by_recommenders.len(),
            owned_by_recommenders: self.owned_by_recommenders.len(),
        };
        (signals, self.recommenders)
    }
}

} // verus!
