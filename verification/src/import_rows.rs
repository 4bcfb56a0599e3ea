//! The rows a graph-database import writes: one per distinct account or repository, with
//! case-folded keys, absent texts as empty ones and counts in the database's signed range.
use vstd::prelude::*;

use crate::discovery::views;
use crate::graph::{
    copy_repository, copy_user, GitHubRepositoryNode, GitHubUserNode, GraphImport,
    GraphImportCoverage, RepositoryNodeView,
};
use crate::error::{validation, AppError};
use crate::imports::NEIGHBORHOOD_CACHE_MICROS;
use crate::insights::RepositoryContributor;
use crate::numbers::clamp_i64;
use crate::text::{ascii_lowercase, lower_seq, owned};

verus! {

/// An optional text, empty where absent.
pub open spec fn or_empty(t: Option<String>) -> Seq<char> {
    match t {
        Some(s) => s@,
        None => Seq::empty(),
    }
}

fn text_or_empty(t: &Option<String>) -> (r: String)
    ensures
        r@ == or_empty(*t),
{
    proof {
        reveal_strlit("");
    }
    match t {
        Some(s) => s.clone(),
        None => owned(""),
    }
}

/// An optional count as the database takes it: -1 where absent or beyond its range.
pub open spec fn count_param(c: Option<u64>) -> i64 {
    match c {
        Some(n) => if n <= i64::MAX {
            n as i64
        } else {
            -1i64
        },
        None => -1i64,
    }
}

fn count_param_exec(c: Option<u64>) -> (r: i64)
    ensures
        r == count_param(c),
{
    match c {
        Some(n) => if n <= i64::MAX as u64 {
            n as i64
        } else {
            -1
        },
        None => -1,
    }
}

/// A count as the database takes it, held at the top of its range.
fn capped_count(n: u64) -> (r: i64)
    ensures
        r == clamp_i64(n as int),
{
    if n > i64::MAX as u64 {
        i64::MAX
    } else {
        n as i64
    }
}

/// An account's row.
#[derive(Debug, Clone)]
pub struct UserImportRow {
    pub github_id: i64,
    pub login: String,
    pub login_key: String,
    pub name: String,
    pub url: String,
    pub avatar_url: String,
    pub bio: String,
    pub followers_count: i64,
    pub following_count: i64,
    pub public_repositories_count: i64,
}

/// The row written for an account.
pub open spec fn user_row_of(
    r: UserImportRow,
    u: GitHubUserNode,
) -> bool {
    &&& r.github_id == u.github_id
    &&& r.login@ == u.login@
    &&& r.login_key@ == lower_seq(u.login@)
    &&& r.name@ == or_empty(u.name)
    &&& r.url@ == u.url@
    &&& r.avatar_url@ == or_empty(u.avatar_url)
    &&& r.bio@ == or_empty(u.bio)
    &&& r.followers_count == count_param(u.followers_count)
    &&& r.following_count == count_param(u.following_count)
    &&& r.public_repositories_count == count_param(u.public_repositories_count)
}

fn user_row(u: &GitHubUserNode) -> (r: UserImportRow)
    ensures
        user_row_of(r, *u),
{
    UserImportRow {
        github_id: u.github_id,
        login: u.login.clone(),
        login_key: ascii_lowercase(u.login.as_str()),
        name: text_or_empty(&u.name),
        url: u.url.clone(),
        avatar_url: text_or_empty(&u.avatar_url),
        bio: text_or_empty(&u.bio),
        followers_count: count_param_exec(u.followers_count),
        following_count: count_param_exec(u.following_count),
        public_repositories_count: count_param_exec(u.public_repositories_count),
    }
}

/// The viewer's row: as any account's, but counts beyond the signed range wrap around, as
/// the viewer's import writes them.
pub open spec fn viewer_row_of(r: UserImportRow, u: GitHubUserNode) -> bool {
    &&& r.github_id == u.github_id
    &&& r.login@ == u.login@
    &&& r.login_key@ == lower_seq(u.login@)
    &&& r.name@ == or_empty(u.name)
    &&& r.url@ == u.url@
    &&& r.avatar_url@ == or_empty(u.avatar_url)
    &&& r.bio@ == or_empty(u.bio)
    &&& r.followers_count == wrapped_count(u.followers_count)
    &&& r.following_count == wrapped_count(u.following_count)
    &&& r.public_repositories_count == wrapped_count(u.public_repositories_count)
}

/// An optional count cast to the signed range, -1 where absent.
pub open spec fn wrapped_count(c: Option<u64>) -> i64 {
    match c {
        Some(n) => n as i64,
        None => -1i64,
    }
}

fn wrapped_count_exec(c: Option<u64>) -> (r: i64)
    ensures
        r == wrapped_count(c),
{
    match c {
        Some(n) => n as i64,
        None => -1,
    }
}

/// The viewer's row of an import.
pub fn viewer_import_row(viewer: &GitHubUserNode) -> (r: UserImportRow)
    ensures
        viewer_row_of(r, *viewer),
{
    UserImportRow {
        github_id: viewer.github_id,
        login: viewer.login.clone(),
        login_key: ascii_lowercase(viewer.login.as_str()),
        name: text_or_empty(&viewer.name),
        url: viewer.url.clone(),
        avatar_url: text_or_empty(&viewer.avatar_url),
        bio: text_or_empty(&viewer.bio),
        followers_count: wrapped_count_exec(viewer.followers_count),
        following_count: wrapped_count_exec(viewer.following_count),
        public_repositories_count: wrapped_count_exec(viewer.public_repositories_count),
    }
}

/// The position in `s` of the first record with this id, or -1.
pub open spec fn first_with_id(ids: Seq<i64>, id: i64) -> int
    decreases ids.len(),
{
    if ids.len() == 0 {
        -1
    } else if first_with_id(ids.drop_last(), id) >= 0 {
        first_with_id(ids.drop_last(), id)
    } else if ids.last() == id {
        ids.len() - 1
    } else {
        -1
    }
}

/// The positions of the first record of each id, in order.
pub open spec fn first_positions(ids: Seq<i64>) -> Seq<int>
    decreases ids.len(),
{
    if ids.len() == 0 {
        Seq::empty()
    } else if first_with_id(ids.drop_last(), ids.last()) >= 0 {
        first_positions(ids.drop_last())
    } else {
        first_positions(ids.drop_last()).push(ids.len() - 1)
    }
}

fn seen_id(ids: &Vec<i64>, id: i64) -> (r: bool)
    ensures
        r == ids@.contains(id),
{
    let mut i: usize = 0;
    while i < ids.len()
        invariant
            i <= ids.len(),
            forall|k: int| 0 <= k < i ==> ids@[k] != id,
        decreases ids.len() - i,
    {
        if ids[i] == id {
            return true;
        }
        i += 1;
    }
    false
}

proof fn lemma_first_with_id(ids: Seq<i64>, id: i64)
    ensures
        first_with_id(ids, id) >= 0 <==> ids.contains(id),
        first_with_id(ids, id) < ids.len(),
    decreases ids.len(),
{
    if ids.len() > 0 {
        lemma_first_with_id(ids.drop_last(), id);
        if ids.drop_last().contains(id) {
            let k = choose|k: int| 0 <= k < ids.drop_last().len() && ids.drop_last()[k] == id;
            assert(ids[k] == id);
        }
        if ids.contains(id) && !ids.drop_last().contains(id) {
            let k = choose|k: int| 0 <= k < ids.len() && ids[k] == id;
            if k < ids.len() - 1 {
                assert(ids.drop_last()[k] == id);
            }
        }
        if ids.last() == id {
            assert(ids[ids.len() - 1] == id);
        }
    }
}

/// The ids of a list of accounts.
pub open spec fn user_ids(s: Seq<GitHubUserNode>) -> Seq<i64> {
    s.map_values(|u: GitHubUserNode| u.github_id)
}

/// The ids of a list of repositories.
pub open spec fn repository_ids(s: Seq<GitHubRepositoryNode>) -> Seq<i64> {
    s.map_values(|r: GitHubRepositoryNode| r.github_id)
}

/// One row per distinct account, for the first record of each id, in order.
pub fn user_import_rows(users: &Vec<GitHubUserNode>) -> (r: Vec<UserImportRow>)
    ensures
        r@.len() == first_positions(user_ids(users@)).len(),
        forall|k: int|
            0 <= k < r@.len() ==> user_row_of(
                #[trigger] r@[k],
                users@[first_positions(user_ids(users@))[k]],
            ),
{
    let mut seen: Vec<i64> = Vec::new();
    let mut rows: Vec<UserImportRow> = Vec::new();
    let mut i: usize = 0;
    while i < users.len()
        invariant
            i <= users.len(),
            seen@ == user_ids(users@.take(i as int)),
            rows@.len() == first_positions(user_ids(users@.take(i as int))).len(),
            forall|k: int|
                0 <= k < rows@.len() ==> user_row_of(
                    #[trigger] rows@[k],
                    users@[first_positions(user_ids(users@.take(i as int)))[k]],
                ),
            forall|k: int|
                0 <= k < first_positions(user_ids(users@.take(i as int))).len() ==> 0
                    <= #[trigger] first_positions(user_ids(users@.take(i as int)))[k] < i,
        decreases users.len() - i,
    {
        let ghost before = users@.take(i as int);
        let ghost after = users@.take(i + 1);
        proof {
            assert(after == before.push(users@[i as int]));
            assert(user_ids(after) =~= user_ids(before).push(users@[i as int].github_id));
            assert(user_ids(after).drop_last() =~= user_ids(before));
            lemma_first_with_id(user_ids(before), users@[i as int].github_id);
        }
        let id = users[i].github_id;
        if !seen_id(&seen, id) {
            let row = user_row(&users[i]);
            let ghost rows_before = rows@;
            rows.push(row);
            proof {
                assert(first_positions(user_ids(after)) == first_positions(user_ids(before)).push(
                    i as int,
                ));
                assert forall|k: int| 0 <= k < rows@.len() implies user_row_of(
                    #[trigger] rows@[k],
                    users@[first_positions(user_ids(after))[k]],
                ) by {
                    if k < rows@.len() - 1 {
                        assert(rows@[k] == rows_before[k]);
                    }
                }
            }
        } else {
            proof {
                assert(first_positions(user_ids(after)) == first_positions(user_ids(before)));
            }
        }
        seen.push(id);
        proof {
            assert(seen@ =~= user_ids(after));
        }
        i += 1;
    }
    proof {
        assert(users@.take(users.len() as int) =~= users@);
    }
    rows
}

/// A repository's row; its instants stay microsecond counts, absent where unknown.
#[derive(Debug, Clone)]
pub struct RepositoryImportRow {
    pub github_id: i64,
    pub full_name: String,
    pub full_name_key: String,
    pub owner_login: String,
    pub name: String,
    pub description: String,
    pub html_url: String,
    pub stargazer_count: i64,
    pub fork_count: i64,
    pub language: String,
    pub topics: Vec<String>,
    pub pushed_at: Option<i64>,
    pub updated_at: Option<i64>,
    pub archived: bool,
    pub is_fork: bool,
}

/// An optional text as plain values, empty where absent.
pub open spec fn or_empty_text(t: Option<Seq<char>>) -> Seq<char> {
    match t {
        Some(s) => s,
        None => Seq::empty(),
    }
}

/// The row written for a repository.
pub open spec fn repository_row_of(r: RepositoryImportRow, x: RepositoryNodeView) -> bool {
    &&& r.github_id == x.github_id
    &&& r.full_name@ == x.full_name
    &&& r.full_name_key@ == lower_seq(x.full_name)
    &&& r.owner_login@ == x.owner_login
    &&& r.name@ == x.name
    &&& r.description@ == or_empty_text(x.description)
    &&& r.html_url@ == x.html_url
    &&& r.stargazer_count == clamp_i64(x.stargazer_count as int)
    &&& r.fork_count == clamp_i64(x.fork_count as int)
    &&& r.language@ == or_empty_text(x.language)
    &&& views(r.topics@) == x.topics
    &&& r.pushed_at == x.pushed_at
    &&& r.updated_at == x.updated_at
    &&& r.archived == x.archived
    &&& r.is_fork == x.is_fork
}

fn copy_texts(v: &Vec<String>) -> (r: Vec<String>)
    ensures
        views(r@) == views(v@),
{
    let mut out: Vec<String> = Vec::new();
    let mut i: usize = 0;
    while i < v.len()
        invariant
            i <= v.len(),
            views(out@) == views(v@.take(i as int)),
        decreases v.len() - i,
    {
        out.push(v[i].clone());
        assert(views(v@.take(i + 1)) =~= views(v@.take(i as int)).push(v@[i as int]@));
        assert(views(out@) =~= views(v@.take(i + 1)));
        i += 1;
    }
    assert(v@.take(v.len() as int) =~= v@);
    out
}

fn repository_row(x: &GitHubRepositoryNode) -> (r: RepositoryImportRow)
    ensures
        repository_row_of(r, x@),
{
    RepositoryImportRow {
        github_id: x.github_id,
        full_name: x.full_name.clone(),
        full_name_key: ascii_lowercase(x.full_name.as_str()),
        owner_login: x.owner_login.clone(),
        name: x.name.clone(),
        description: text_or_empty(&x.description),
        html_url: x.html_url.clone(),
        stargazer_count: capped_count(x.stargazer_count),
        fork_count: capped_count(x.fork_count),
        language: text_or_empty(&x.language),
        topics: copy_texts(&x.topics),
        pushed_at: x.pushed_at,
        updated_at: x.updated_at,
        archived: x.archived,
        is_fork: x.is_fork,
    }
}

/// One row per distinct repository, for the first record of each id, in order.
pub fn repository_import_rows(repositories: &Vec<GitHubRepositoryNode>) -> (r: Vec<
    RepositoryImportRow,
>)
    ensures
        r@.len() == first_positions(repository_ids(repositories@)).len(),
        forall|k: int|
            0 <= k < r@.len() ==> repository_row_of(
                #[trigger] r@[k],
                repositories@[first_positions(repository_ids(repositories@))[k]]@,
            ),
{
    let mut seen: Vec<i64> = Vec::new();
    let mut rows: Vec<RepositoryImportRow> = Vec::new();
    let mut i: usize = 0;
    while i < repositories.len()
        invariant
            i <= repositories.len(),
            seen@ == repository_ids(repositories@.take(i as int)),
            rows@.len() == first_positions(repository_ids(repositories@.take(i as int))).len(),
            forall|k: int|
                0 <= k < rows@.len() ==> repository_row_of(
                    #[trigger] rows@[k],
                    repositories@[first_positions(repository_ids(repositories@.take(i as int)))[k]]@,
                ),
            forall|k: int|
                0 <= k < first_positions(repository_ids(repositories@.take(i as int))).len() ==> 0
                    <= #[trigger] first_positions(repository_ids(repositories@.take(i as int)))[k]
                    < i,
        decreases repositories.len() - i,
    {
        let ghost before = repositories@.take(i as int);
        let ghost after = repositories@.take(i + 1);
        proof {
            assert(after == before.push(repositories@[i as int]));
            assert(repository_ids(after) =~= repository_ids(before).push(
                repositories@[i as int].github_id,
            ));
            assert(repository_ids(after).drop_last() =~= repository_ids(before));
            lemma_first_with_id(repository_ids(before), repositories@[i as int].github_id);
        }
        let id = repositories[i].github_id;
        if !seen_id(&seen, id) {
            let row = repository_row(&repositories[i]);
            let ghost rows_before = rows@;
            rows.push(row);
            proof {
                assert(first_positions(repository_ids(after)) == first_positions(
                    repository_ids(before),
                ).push(i as int));
                assert forall|k: int| 0 <= k < rows@.len() implies repository_row_of(
                    #[trigger] rows@[k],
                    repositories@[first_positions(repository_ids(after))[k]]@,
                ) by {
                    if k < rows@.len() - 1 {
                        assert(rows@[k] == rows_before[k]);
                    }
                }
            }
        } else {
            proof {
                assert(first_positions(repository_ids(after)) == first_positions(
                    repository_ids(before),
                ));
            }
        }
        seen.push(id);
        proof {
            assert(seen@ =~= repository_ids(after));
        }
        i += 1;
    }
    proof {
        assert(repositories@.take(repositories.len() as int) =~= repositories@);
    }
    rows
}

/// A contributor's row.
#[derive(Debug, Clone)]
pub struct ContributorImportRow {
    pub github_id: i64,
    pub login: String,
    pub login_key: String,
    pub url: String,
    pub avatar_url: String,
    pub contributions: i64,
}

/// The row written for a contributor.
pub open spec fn contributor_row_of(r: ContributorImportRow, c: RepositoryContributor) -> bool {
    &&& r.github_id == c.github_id
    &&& r.login@ == c.login@
    &&& r.login_key@ == lower_seq(c.login@)
    &&& r.url@ == c.url@
    &&& r.avatar_url@ == or_empty(c.avatar_url)
    &&& r.contributions == clamp_i64(c.contributions as int)
}

/// One row per contributor, in order.
pub fn contributor_import_rows(contributors: &Vec<RepositoryContributor>) -> (r: Vec<
    ContributorImportRow,
>)
    ensures
        r@.len() == contributors@.len(),
        forall|k: int| 0 <= k < r@.len() ==> contributor_row_of(#[trigger] r@[k], contributors@[k]),
{
    let mut rows: Vec<ContributorImportRow> = Vec::new();
    let mut i: usize = 0;
    while i < contributors.len()
        invariant
            i <= contributors.len(),
            rows@.len() == i,
            forall|k: int| 0 <= k < i ==> contributor_row_of(#[trigger] rows@[k], contributors@[k]),
        decreases contributors.len() - i,
    {
        let c = &contributors[i];
        rows.push(
            ContributorImportRow {
                github_id: c.github_id,
                login: c.login.clone(),
                login_key: ascii_lowercase(c.login.as_str()),
                url: c.url.clone(),
                avatar_url: text_or_empty(&c.avatar_url),
                contributions: capped_count(c.contributions),
            },
        );
        i += 1;
    }
    rows
}

/// What a graph-database import of one neighbourhood writes: the viewer's row and coverage,
/// when the neighbourhood turns stale, one row per distinct neighbour and repository, and
/// the ids each relation links to the viewer.
#[derive(Debug, Clone)]
pub struct GraphImportPlan {
    pub viewer: UserImportRow,
    pub coverage: GraphImportCoverage,
    pub stale_at: i64,
    pub neighbours: Vec<UserImportRow>,
    pub follower_ids: Vec<i64>,
    pub following_ids: Vec<i64>,
    pub repositories: Vec<RepositoryImportRow>,
    pub owned_ids: Vec<i64>,
    pub starred_ids: Vec<i64>,
}

fn joined_users(a: &Vec<GitHubUserNode>, b: &Vec<GitHubUserNode>) -> (r: Vec<GitHubUserNode>)
    ensures
        r@ == a@ + b@,
{
    let mut out: Vec<GitHubUserNode> = Vec::new();
    let mut i: usize = 0;
    while i < a.len()
        invariant
            i <= a.len(),
            out@ == a@.take(i as int),
        decreases a.len() - i,
    {
        out.push(copy_user(&a[i]));
        assert(a@.take(i + 1) == a@.take(i as int).push(a@[i as int]));
        i += 1;
    }
    let mut j: usize = 0;
    assert(a@.take(a.len() as int) == a@);
    while j < b.len()
        invariant
            j <= b.len(),
            out@ == a@ + b@.take(j as int),
        decreases b.len() - j,
    {
        out.push(copy_user(&b[j]));
        assert(a@ + b@.take(j + 1) == (a@ + b@.take(j as int)).push(b@[j as int]));
        j += 1;
    }
    assert(b@.take(b.len() as int) == b@);
    out
}

/// The views of a list of repositories.
pub open spec fn repository_views(s: Seq<GitHubRepositoryNode>) -> Seq<RepositoryNodeView> {
    s.map_values(|r: GitHubRepositoryNode| r@)
}

fn joined_repositories(a: &Vec<GitHubRepositoryNode>, b: &Vec<GitHubRepositoryNode>) -> (r: Vec<
    GitHubRepositoryNode,
>)
    ensures
        repository_views(r@) == repository_views(a@ + b@),
{
    let mut out: Vec<GitHubRepositoryNode> = Vec::new();
    let mut i: usize = 0;
    while i < a.len()
        invariant
            i <= a.len(),
            repository_views(out@) == repository_views(a@.take(i as int)),
        decreases a.len() - i,
    {
        out.push(copy_repository(&a[i]));
        assert(repository_views(a@.take(i + 1)) =~= repository_views(a@.take(i as int)).push(
            a@[i as int]@,
        ));
        assert(repository_views(out@) =~= repository_views(a@.take(i + 1)));
        i += 1;
    }
    let mut j: usize = 0;
    assert(a@.take(a.len() as int) == a@);
    while j < b.len()
        invariant
            j <= b.len(),
            repository_views(out@) == repository_views(a@ + b@.take(j as int)),
        decreases b.len() - j,
    {
        out.push(copy_repository(&b[j]));
        assert(repository_views(a@ + b@.take(j + 1)) =~= repository_views(a@ + b@.take(j as int)).push(
            b@[j as int]@,
        ));
        assert(repository_views(out@) =~= repository_views(a@ + b@.take(j + 1)));
        j += 1;
    }
    assert(b@.take(b.len() as int) == b@);
    out
}

fn user_id_list(s: &Vec<GitHubUserNode>) -> (r: Vec<i64>)
    ensures
        r@ == user_ids(s@),
{
    let mut out: Vec<i64> = Vec::new();
    let mut i: usize = 0;
    while i < s.len()
        invariant
            i <= s.len(),
            out@ == user_ids(s@.take(i as int)),
        decreases s.len() - i,
    {
        out.push(s[i].github_id);
        assert(user_ids(s@.take(i + 1)) =~= user_ids(s@.take(i as int)).push(s@[i as int].github_id));
        i += 1;
    }
    assert(s@.take(s.len() as int) =~= s@);
    out
}

fn repository_id_list(s: &Vec<GitHubRepositoryNode>) -> (r: Vec<i64>)
    ensures
        r@ == repository_ids(s@),
{
    let mut out: Vec<i64> = Vec::new();
    let mut i: usize = 0;
    while i < s.len()
        invariant
            i <= s.len(),
            out@ == repository_ids(s@.take(i as int)),
        decreases s.len() - i,
    {
        out.push(s[i].github_id);
        assert(repository_ids(s@.take(i + 1)) =~= repository_ids(s@.take(i as int)).push(
            s@[i as int].github_id,
        ));
        i += 1;
    }
    assert(s@.take(s.len() as int) =~= s@);
    out
}

/// The plan of a graph-database import at `now`: refused without a viewer; otherwise the
/// viewer's row, the coverage, a stale time six hours on where every collection is complete
/// and `now` otherwise, the rows of the followers and followed users and of the owned and
/// starred repositories (one per distinct id, first record kept), and the ids of each
/// relation.
pub fn graph_import_plan(import: &GraphImport, now: i64) -> (r: Result<GraphImportPlan, AppError>)
    requires
        now <= i64::MAX - NEIGHBORHOOD_CACHE_MICROS,
    ensures
        r is Err <==> import.viewer is None,
        r is Err ==> r->Err_0 is Validation && r->Err_0->Validation_0@
            == "viewer missing from GitHub graph import"@,
        r is Ok ==> {
            let p = r->Ok_0;
            let people = import.followers@ + import.following@;
            let repos = import.repositories@ + import.starred_repositories@;
            &&& viewer_row_of(p.viewer, import.viewer->0)
            &&& p.coverage == import.coverage
            &&& p.stale_at == if import.coverage.complete() {
                now + NEIGHBORHOOD_CACHE_MICROS
            } else {
                now as int
            }
            &&& p.neighbours@.len() == first_positions(user_ids(people)).len()
            &&& forall|k: int|
                0 <= k < p.neighbours@.len() ==> user_row_of(
                    #[trigger] p.neighbours@[k],
                    people[first_positions(user_ids(people))[k]],
                )
            &&& p.follower_ids@ == user_ids(import.followers@)
            &&& p.following_ids@ == user_ids(import.following@)
            &&& p.repositories@.len() == first_positions(repository_ids(repos)).len()
            &&& forall|k: int|
                0 <= k < p.repositories@.len() ==> repository_row_of(
                    #[trigger] p.repositories@[k],
                    repos[first_positions(repository_ids(repos))[k]]@,
                )
            &&& p.owned_ids@ == repository_ids(import.repositories@)
            &&& p.starred_ids@ == repository_ids(import.starred_repositories@)
        },
{
    let viewer = match &import.viewer {
        Some(v) => v,
        None => return Err(validation("viewer missing from GitHub graph import")),
    };
    let stale_at = if import.coverage.is_complete() {
        now + NEIGHBORHOOD_CACHE_MICROS
    } else {
        now
    };
    let people = joined_users(&import.followers, &import.following);
    let repositories = joined_repositories(&import.repositories, &import.starred_repositories);
    let repository_rows = repository_import_rows(&repositories);
    proof {
        let repos = import.repositories@ + import.starred_repositories@;
        assert(repository_views(repositories@).len() == repository_views(repos).len());
        assert(repositories@.len() == repos.len());
        assert(repository_ids(repositories@) =~= repository_ids(repos)) by {
            assert forall|k: int| 0 <= k < repos.len() implies repository_ids(repositories@)[k]
                == repository_ids(repos)[k] by {
                assert(repository_views(repositories@)[k] == repository_views(repos)[k]);
                assert(repository_views(repositories@)[k] == repositories@[k]@);
                assert(repository_views(repos)[k] == repos[k]@);
            }
        }
        assert forall|k: int| 0 <= k < repositories@.len() implies repositories@[k]@ == repos[k]@ by {
            assert(repository_views(repositories@)[k] == repository_views(repos)[k]);
        }
    }
    let plan = GraphImportPlan {
        viewer: viewer_import_row(viewer),
        coverage: import.coverage,
        stale_at,
        neighbours: user_import_rows(&people),
        follower_ids: user_id_list(&import.followers),
        following_ids: user_id_list(&import.following),
        repositories: repository_rows,
        owned_ids: repository_id_list(&import.repositories),
        starred_ids: repository_id_list(&import.starred_repositories),
    };
    proof {
        let repos = import.repositories@ + import.starred_repositories@;
        let positions = first_positions(repository_ids(repos));
        assert forall|k: int| 0 <= k < plan.repositories@.len() implies repository_row_of(
            #[trigger] plan.repositories@[k],
            repos[positions[k]]@,
        ) by {
            assert(repository_row_of(
                plan.repositories@[k],
                repositories@[first_positions(repository_ids(repositories@))[k]]@,
            ));
            lemma_first_positions_bounds(repository_ids(repos));
            assert(0 <= positions[k] < repos.len());
        }
        let people_seq = import.followers@ + import.following@;
        assert(people@ == people_seq);
    }
    let r: Result<GraphImportPlan, AppError> = Ok(plan);
    r
}

proof fn lemma_first_positions_bounds(ids: Seq<i64>)
    ensures
        forall|k: int|
            0 <= k < first_positions(ids).len() ==> 0 <= #[trigger] first_positions(ids)[k] < ids.len(),
    decreases ids.len(),
{
    if ids.len() > 0 {
        let d = ids.drop_last();
        lemma_first_positions_bounds(d);
        if first_with_id(d, ids.last()) < 0 {
            assert(first_positions(ids) == first_positions(d).push(ids.len() - 1));
        }
        assert forall|k: int| 0 <= k < first_positions(ids).len() implies 0
            <= #[trigger] first_positions(ids)[k] < ids.len() by {
            if k < first_positions(d).len() {
                assert(first_positions(ids)[k] == first_positions(d)[k]);
            }
        }
    }
}

} // verus!
