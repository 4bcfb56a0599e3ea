//! The graph-size limit: how many nodes and relationships an import can add at most, and the
//! refusal of an import that would take the graph past its configured maxima.
use vstd::prelude::*;

use crate::error::AppError;
use crate::graph::{GitHubRepositoryNode, GitHubUserNode, GraphImport};

verus! {

/// An upper bound on what one import adds to the graph: distinct people and repositories,
/// and distinct follow, ownership and star relationships.
#[derive(Debug, Clone, Copy, PartialEq, Eq, Structural)]
pub struct GraphImportCapacityEstimate {
    pub nodes: usize,
    pub relationships: usize,
}

pub open spec fn user_ids(s: Seq<GitHubUserNode>) -> Seq<i64> {
    s.map_values(|u: GitHubUserNode| u.github_id)
}

pub open spec fn repository_ids(s: Seq<GitHubRepositoryNode>) -> Seq<i64> {
    s.map_values(|r: GitHubRepositoryNode| r.github_id)
}

/// `n`, or `usize::MAX` where it does not fit.
pub open spec fn saturating(n: int) -> usize {
    if n > usize::MAX {
        usize::MAX
    } else {
        n as usize
    }
}

/// The people an import names.
pub open spec fn incoming_users(import: GraphImport) -> Set<i64> {
    let others = user_ids(import.followers@).to_set() + user_ids(import.following@).to_set();
    match import.viewer {
        Some(viewer) => others.insert(viewer.github_id),
        None => others,
    }
}

/// The repositories an import names.
pub open spec fn incoming_repositories(import: GraphImport) -> Set<i64> {
    repository_ids(import.repositories@).to_set() + repository_ids(
        import.starred_repositories@,
    ).to_set()
}

/// The follow relationships an import states, as (follower, followed) pairs; none without
/// a viewer.
pub open spec fn incoming_follows(import: GraphImport) -> Set<(i64, i64)> {
    match import.viewer {
        Some(viewer) => user_ids(import.followers@).map_values(|f: i64| (f, viewer.github_id)).to_set()
            + user_ids(import.following@).map_values(|g: i64| (viewer.github_id, g)).to_set(),
        None => Set::empty(),
    }
}

/// The repositories the viewer owns; none without a viewer.
pub open spec fn incoming_owned(import: GraphImport) -> Set<i64> {
    match import.viewer {
        Some(_) => repository_ids(import.repositories@).to_set(),
        None => Set::empty(),
    }
}

/// The repositories the viewer starred; none without a viewer.
pub open spec fn incoming_starred(import: GraphImport) -> Set<i64> {
    match import.viewer {
        Some(_) => repository_ids(import.starred_repositories@).to_set(),
        None => Set::empty(),
    }
}

pub(crate) fn add_id(seen: &mut Vec<i64>, id: i64)
    requires
        old(seen)@.no_duplicates(),
    ensures
        final(seen)@.no_duplicates(),
        final(seen)@.to_set() == old(seen)@.to_set().insert(id),
        final(seen)@.len() <= old(seen)@.len() + 1,
{
    let mut i: usize = 0;
    while i < seen.len()
        invariant
            i <= seen.len(),
            seen@.no_duplicates(),
            forall|k: int| 0 <= k < i ==> seen@[k] != id,
        decreases seen.len() - i,
    {
        if seen[i] == id {
            assert(seen@.contains(id));
            assert(seen@.to_set().insert(id) =~= seen@.to_set());
            return;
        }
        i += 1;
    }
    proof {
        seen@.lemma_push_to_set_commute(id);
    }
    seen.push(id);
}

fn add_pair(seen: &mut Vec<(i64, i64)>, pair: (i64, i64))
    requires
        old(seen)@.no_duplicates(),
    ensures
        final(seen)@.no_duplicates(),
        final(seen)@.to_set() == old(seen)@.to_set().insert(pair),
{
    let mut i: usize = 0;
    while i < seen.len()
        invariant
            i <= seen.len(),
            seen@.no_duplicates(),
            forall|k: int| 0 <= k < i ==> seen@[k] != pair,
        decreases seen.len() - i,
    {
        let (a, b) = seen[i];
        if a == pair.0 && b == pair.1 {
            assert(seen@[i as int] == pair);
            assert(seen@.contains(pair));
            assert(seen@.to_set().insert(pair) =~= seen@.to_set());
            return;
        }
        i += 1;
    }
    proof {
        seen@.lemma_push_to_set_commute(pair);
    }
    seen.push(pair);
}

fn add_user_ids(seen: &mut Vec<i64>, users: &Vec<GitHubUserNode>)
    requires
        old(seen)@.no_duplicates(),
    ensures
        final(seen)@.no_duplicates(),
        final(seen)@.to_set() == old(seen)@.to_set() + user_ids(users@).to_set(),
{
    let ghost start = seen@.to_set();
    let mut i: usize = 0;
    while i < users.len()
        invariant
            i <= users.len(),
            seen@.no_duplicates(),
            seen@.to_set() == start + user_ids(users@.take(i as int)).to_set(),
        decreases users.len() - i,
    {
        proof {
            assert(user_ids(users@.take(i + 1)) == user_ids(users@.take(i as int)).push(
                users@[i as int].github_id,
            ));
            user_ids(users@.take(i as int)).lemma_push_to_set_commute(users@[i as int].github_id);
        }
        add_id(seen, users[i].github_id);
        assert(seen@.to_set() =~= start + user_ids(users@.take(i + 1)).to_set());
        i += 1;
    }
    assert(users@.take(users.len() as int) == users@);
}

fn add_repository_ids(seen: &mut Vec<i64>, repositories: &Vec<GitHubRepositoryNode>)
    requires
        old(seen)@.no_duplicates(),
    ensures
        final(seen)@.no_duplicates(),
        final(seen)@.to_set() == old(seen)@.to_set() + repository_ids(repositories@).to_set(),
{
    let ghost start = seen@.to_set();
    let mut i: usize = 0;
    while i < repositories.len()
        invariant
            i <= repositories.len(),
            seen@.no_duplicates(),
            seen@.to_set() == start + repository_ids(repositories@.take(i as int)).to_set(),
        decreases repositories.len() - i,
    {
        proof {
            assert(repository_ids(repositories@.take(i + 1)) == repository_ids(
                repositories@.take(i as int),
            ).push(repositories@[i as int].github_id));
            repository_ids(repositories@.take(i as int)).lemma_push_to_set_commute(
                repositories@[i as int].github_id,
            );
        }
        add_id(seen, repositories[i].github_id);
        assert(seen@.to_set() =~= start + repository_ids(repositories@.take(i + 1)).to_set());
        i += 1;
    }
    assert(repositories@.take(repositories.len() as int) == repositories@);
}

/// Adds the pairs `(user, viewer)` (`towards_viewer`) or `(viewer, user)` for every user.
fn add_follow_pairs(
    seen: &mut Vec<(i64, i64)>,
    users: &Vec<GitHubUserNode>,
    viewer: i64,
    towards_viewer: bool,
)
    requires
        old(seen)@.no_duplicates(),
    ensures
        final(seen)@.no_duplicates(),
        towards_viewer ==> final(seen)@.to_set() == old(seen)@.to_set() + user_ids(
            users@,
        ).map_values(|f: i64| (f, viewer)).to_set(),
        !towards_viewer ==> final(seen)@.to_set() == old(seen)@.to_set() + user_ids(
            users@,
        ).map_values(|g: i64| (viewer, g)).to_set(),
{
    let ghost start = seen@.to_set();
    let ghost pair_of = |u: i64|
        if towards_viewer {
            (u, viewer)
        } else {
            (viewer, u)
        };
    let mut i: usize = 0;
    while i < users.len()
        invariant
            i <= users.len(),
            seen@.no_duplicates(),
            pair_of == (|u: i64|
                if towards_viewer {
                    (u, viewer)
                } else {
                    (viewer, u)
                }),
            seen@.to_set() == start + user_ids(users@.take(i as int)).map_values(pair_of).to_set(),
        decreases users.len() - i,
    {
        let id = users[i].github_id;
        let pair = if towards_viewer {
            (id, viewer)
        } else {
            (viewer, id)
        };
        proof {
            assert(user_ids(users@.take(i + 1)).map_values(pair_of) == user_ids(
                users@.take(i as int),
            ).map_values(pair_of).push(pair));
            user_ids(users@.take(i as int)).map_values(pair_of).lemma_push_to_set_commute(pair);
        }
        add_pair(seen, pair);
        assert(seen@.to_set() =~= start + user_ids(users@.take(i + 1)).map_values(
            pair_of,
        ).to_set());
        i += 1;
    }
    assert(users@.take(users.len() as int) == users@);
    assert(towards_viewer ==> user_ids(users@).map_values(pair_of) == user_ids(users@).map_values(
        |f: i64| (f, viewer),
    ));
    assert(!towards_viewer ==> user_ids(users@).map_values(pair_of) == user_ids(
        users@,
    ).map_values(|g: i64| (viewer, g)));
}

pub(crate) fn distinct_count<A>(seen: &Vec<A>) -> (n: usize)
    requires
        seen@.no_duplicates(),
    ensures
        n == seen@.to_set().len(),
        n == seen@.len(),
{
    proof {
        seen@.unique_seq_to_set();
    }
    seen.len()
}

impl GraphImportCapacityEstimate {
    /// Counts the distinct people, repositories and relationships an import would write.
    pub fn from_import(import: &GraphImport) -> (r: Self)
        ensures
            r.nodes == saturating(
                incoming_users(*import).len() + incoming_repositories(*import).len() as int,
            ),
            r.relationships == saturating(
                saturating(incoming_follows(*import).len() + incoming_owned(*import).len() as int)
                    + incoming_starred(*import).len(),
            ),
    {
        let mut users: Vec<i64> = Vec::new();
        let mut repositories: Vec<i64> = Vec::new();
        let mut follows: Vec<(i64, i64)> = Vec::new();
        let mut owned: Vec<i64> = Vec::new();
        let mut starred: Vec<i64> = Vec::new();
        match &import.viewer {
            Some(viewer) => {
                add_id(&mut users, viewer.github_id);
                add_user_ids(&mut users, &import.followers);
                add_follow_pairs(&mut follows, &import.followers, viewer.github_id, true);
                add_user_ids(&mut users, &import.following);
                add_follow_pairs(&mut follows, &import.following, viewer.github_id, false);
                add_repository_ids(&mut repositories, &import.repositories);
                add_repository_ids(&mut owned, &import.repositories);
                add_repository_ids(&mut repositories, &import.starred_repositories);
                add_repository_ids(&mut starred, &import.starred_repositories);
                proof {
                    let f = user_ids(import.followers@).to_set();
                    let g = user_ids(import.following@).to_set();
                    assert(users@.to_set() =~= (f + g).insert(viewer.github_id));
                }
            },
            None => {
                add_user_ids(&mut users, &import.followers);
                add_user_ids(&mut users, &import.following);
                add_repository_ids(&mut repositories, &import.repositories);
                add_repository_ids(&mut repositories, &import.starred_repositories);
            },
        }
        assert(repositories@.to_set() =~= incoming_repositories(*import));
        assert(users@.to_set() =~= incoming_users(*import));
        assert(follows@.to_set() =~= incoming_follows(*import));
        assert(owned@.to_set() =~= incoming_owned(*import));
        assert(starred@.to_set() =~= incoming_starred(*import));
        let user_count = distinct_count(&users);
        let repository_count = distinct_count(&repositories);
        let follow_count = distinct_count(&follows);
        let owned_count = distinct_count(&owned);
        let starred_count = distinct_count(&starred);
        GraphImportCapacityEstimate {
            nodes: user_count.saturating_add(repository_count),
            relationships: follow_count.saturating_add(owned_count).saturating_add(starred_count),
        }
    }
}

/// The capacity decision: `None` lets the import through; otherwise the exceeded dimension
/// ("nodes" first), with the current, incoming, projected and maximum counts.
pub open spec fn capacity_refusal(
    current_nodes: usize,
    current_relationships: usize,
    incoming: GraphImportCapacityEstimate,
    max_total_nodes: Option<usize>,
    max_total_relationships: Option<usize>,
) -> Option<(bool, usize, usize, usize, usize)> {
    let projected_nodes = saturating(current_nodes + incoming.nodes);
    let projected_relationships = saturating(current_relationships + incoming.relationships);
    if max_total_nodes is Some && projected_nodes > max_total_nodes->0 {
        Some((true, current_nodes, incoming.nodes, projected_nodes, max_total_nodes->0))
    } else if max_total_relationships is Some && projected_relationships
        > max_total_relationships->0 {
        Some(
            (
                false,
                current_relationships,
                incoming.relationships,
                projected_relationships,
                max_total_relationships->0,
            ),
        )
    } else {
        None
    }
}

/// The error reports the exceeded limit `f`.
pub open spec fn is_capacity_error(e: AppError, f: (bool, usize, usize, usize, usize)) -> bool {
    &&& e matches AppError::GraphCapacityExceeded {
        resource,
        current_count,
        incoming_count,
        projected_count,
        maximum_count,
    }
    &&& resource@ == (if f.0 {
        "nodes"@
    } else {
        "relationships"@
    })
    &&& current_count == f.1
    &&& incoming_count == f.2
    &&& projected_count == f.3
    &&& maximum_count == f.4
}

/// Refuses an import that would take the graph past a configured maximum; the maxima are
/// inclusive.
pub fn enforce_graph_capacity(
    current_nodes: usize,
    current_relationships: usize,
    incoming: GraphImportCapacityEstimate,
    max_total_nodes: Option<usize>,
    max_total_relationships: Option<usize>,
) -> (r: Result<(), AppError>)
    ensures
        capacity_refusal(
            current_nodes,
            current_relationships,
            incoming,
            max_total_nodes,
            max_total_relationships,
        ) is None ==> r is Ok,
        capacity_refusal(
            current_nodes,
            current_relationships,
            incoming,
            max_total_nodes,
            max_total_relationships,
        ) is Some ==> r is Err && is_capacity_error(
            r->Err_0,
            capacity_refusal(
                current_nodes,
                current_relationships,
                incoming,
                max_total_nodes,
                max_total_relationships,
            )->0,
        ),
{
    let projected_nodes = current_nodes.saturating_add(incoming.nodes);
    if let Some(maximum_count) = max_total_nodes {
        if projected_nodes > maximum_count {
            return Err(
                AppError::GraphCapacityExceeded {
                    resource: "nodes".to_owned(),
                    current_count: current_nodes,
                    incoming_count: incoming.nodes,
                    projected_count: projected_nodes,
                    maximum_count,
                },
            );
        }
    }
    let projected_relationships = current_relationships.saturating_add(incoming.relationships);
    if let Some(maximum_count) = max_total_relationships {
        if projected_relationships > maximum_count {
            return Err(
                AppError::GraphCapacityExceeded {
                    resource: "relationships".to_owned(),
                    current_count: current_relationships,
                    incoming_count: incoming.relationships,
                    projected_count: projected_relationships,
                    maximum_count,
                },
            );
        }
    }
    Ok(())
}

} // verus!
