//! Reading a paged GitHub collection up to a cap, and whether what was read is complete.
//! The pages themselves are fetched by the caller; this decides how many more it needs and
//! what it keeps of each.
use vstd::prelude::*;

use crate::graph::{GitHubRepositoryNode, GitHubUserNode, GraphImport, GraphImportCoverage};

verus! {

/// The most followers, or followed users, one expansion reads.
pub const MAX_SOCIAL_CONNECTIONS_PER_EXPANSION: usize = 300;

/// The most starred, or owned, repositories one expansion reads.
pub const MAX_REPOSITORIES_PER_EXPANSION: usize = 300;

/// What was read of a paged collection so far.
pub struct PageCursor<T> {
    pub items: Vec<T>,
    /// The first page held more items than the cap.
    pub truncated_within_page: bool,
    /// GitHub announced another page after the last one read.
    pub has_next: bool,
}

/// A collection read up to a cap, and whether it is complete.
pub struct BoundedCollection<T> {
    pub items: Vec<T>,
    pub complete: bool,
}

/// `s`, cut to at most `n` items.
pub open spec fn capped<T>(s: Seq<T>, n: int) -> Seq<T> {
    if s.len() > n {
        s.take(n)
    } else {
        s
    }
}

/// Starts reading a collection from its first page: at most `limit` items are kept.
pub fn first_page<T>(items: Vec<T>, has_next: bool, limit: usize) -> (r: PageCursor<T>)
    ensures
        r.items@ == capped(items@, limit as int),
        r.truncated_within_page == (items@.len() > limit),
        r.has_next == has_next,
        r.items@.len() <= limit,
{
    let mut items = items;
    let truncated_within_page = items.len() > limit;
    items.truncate(limit);
    PageCursor { items, truncated_within_page, has_next }
}

/// Another page is read while the cap is not reached and GitHub announces one.
pub fn needs_next_page<T>(cursor: &PageCursor<T>, limit: usize) -> (r: bool)
    ensures
        r == (cursor.items@.len() < limit && cursor.has_next),
{
    cursor.items.len() < limit && cursor.has_next
}

/// Adds the next page: as many of its items as fit under the cap.
pub fn add_page<T>(cursor: &mut PageCursor<T>, items: Vec<T>, has_next: bool, limit: usize)
    requires
        old(cursor).items@.len() <= limit,
    ensures
        final(cursor).items@ == old(cursor).items@ + capped(
            items@,
            limit - old(cursor).items@.len(),
        ),
        final(cursor).items@.len() <= limit,
        final(cursor).truncated_within_page == old(cursor).truncated_within_page,
        final(cursor).has_next == has_next,
{
    let mut items = items;
    let room = limit - cursor.items.len();
    items.truncate(room);
    cursor.items.append(&mut items);
    cursor.has_next = has_next;
}

/// What was read: complete when the first page fit under the cap and no page is left.
pub fn finish_pages<T>(cursor: PageCursor<T>) -> (r: BoundedCollection<T>)
    ensures
        r.items@ == cursor.items@,
        r.complete == (!cursor.truncated_within_page && !cursor.has_next),
{
    BoundedCollection {
        items: cursor.items,
        complete: !cursor.truncated_within_page && !cursor.has_next,
    }
}

/// A repository as GitHub lists it, with its visibility.
pub struct ListedRepository {
    pub repository: GitHubRepositoryNode,
    /// GitHub's `private` flag, where it gave one.
    pub private: Option<bool>,
}

/// The repository is public: GitHub did not mark it private.
pub open spec fn is_public(r: ListedRepository) -> bool {
    !(r.private == Some(true))
}

/// The public repositories of a listing, in order.
pub open spec fn public_repositories(s: Seq<ListedRepository>) -> Seq<GitHubRepositoryNode> {
    s.filter(|r: ListedRepository| is_public(r)).map_values(|r: ListedRepository| r.repository)
}

fn keep_public(listed: Vec<ListedRepository>) -> (r: Vec<GitHubRepositoryNode>)
    ensures
        r@ == public_repositories(listed@),
{
    let ghost all = listed@;
    let mut rest = listed;
    let mut kept: Vec<GitHubRepositoryNode> = Vec::new();
    let n = rest.len();
    assert(all.skip(0) == all);
    assert(all.take(0) =~= Seq::<ListedRepository>::empty());
    assert(public_repositories(all.take(0)) =~= Seq::<GitHubRepositoryNode>::empty());
    while rest.len() > 0
        invariant
            rest.len() <= n,
            n == all.len(),
            rest@ == all.skip(n - rest.len()),
            kept@ == public_repositories(all.take(n - rest.len())),
        decreases rest.len(),
    {
        let ghost i: int = n - rest.len();
        let x = rest.remove(0);
        proof {
            assert(x == all[i]);
            assert(rest@ =~= all.skip(i + 1));
            assert(all.take(i + 1) == all.take(i).push(x));
            all.take(i).lemma_filter_push(x, |r: ListedRepository| is_public(r));
        }
        let public = match x.private {
            Some(p) => !p,
            None => true,
        };
        if public {
            let ghost before = kept@;
            kept.push(x.repository);
            proof {
                assert(public_repositories(all.take(i + 1)) =~= before.push(all[i].repository));
            }
        } else {
            proof {
                assert(public_repositories(all.take(i + 1)) =~= public_repositories(all.take(i)));
            }
        }
    }
    assert(all.take(n as int) == all);
    kept
}

/// A user's neighbourhood as read from GitHub: the four collections as read, the
/// repositories restricted to public ones, and each collection's completeness as coverage.
pub fn graph_import_from_collections(
    viewer: GitHubUserNode,
    followers: BoundedCollection<GitHubUserNode>,
    following: BoundedCollection<GitHubUserNode>,
    starred: BoundedCollection<ListedRepository>,
    repositories: BoundedCollection<ListedRepository>,
) -> (r: GraphImport)
    ensures
        r.viewer == Some(viewer),
        r.followers@ == followers.items@,
        r.following@ == following.items@,
        r.starred_repositories@ == public_repositories(starred.items@),
        r.repositories@ == public_repositories(repositories.items@),
        r.coverage == (GraphImportCoverage {
            followers_complete: followers.complete,
            following_complete: following.complete,
            starred_repositories_complete: starred.complete,
            repositories_complete: repositories.complete,
        }),
{
    let coverage = GraphImportCoverage {
        followers_complete: followers.complete,
        following_complete: following.complete,
        starred_repositories_complete: starred.complete,
        repositories_complete: repositories.complete,
    };
    GraphImport {
        viewer: Some(viewer),
        followers: followers.items,
        following: following.items,
        starred_repositories: keep_public(starred.items),
        repositories: keep_public(repositories.items),
        coverage,
    }
}

} // verus!
