//! Private bookmarks of people and repositories: idempotent saves, the names of saved
//! repositories, and following GitHub renames.
use vstd::prelude::*;

use crate::discovery::{insert_text, text_set, views};
use crate::external::opt_view;
use crate::insights::{lemma_text_less_transitive, text_before, text_less};
use crate::error::{validation, AppError};
use crate::text::{eq_ignore_ascii_case, eq_ignore_case, str_equal, trim, trim_seq};

verus! {

#[derive(Debug, Clone)]
pub enum BookmarkTarget {
    GitHubUser { login: String },
    GitHubRepository { full_name: String },
}

#[derive(Debug, Clone)]
pub struct Bookmark {
    pub id: String,
    pub target: BookmarkTarget,
    pub categories: Vec<String>,
    pub note: Option<String>,
    pub created_at: i64,
}

pub ghost enum TargetView {
    User(Seq<char>),
    Repository(Seq<char>),
}

pub ghost struct BookmarkView {
    pub id: Seq<char>,
    pub target: TargetView,
    pub categories: Seq<Seq<char>>,
    pub note: Option<Seq<char>>,
    pub created_at: i64,
}

impl View for BookmarkTarget {
    type V = TargetView;

    open spec fn view(&self) -> TargetView {
        match self {
            BookmarkTarget::GitHubUser { login } => TargetView::User(login@),
            BookmarkTarget::GitHubRepository { full_name } => TargetView::Repository(full_name@),
        }
    }
}

impl View for Bookmark {
    type V = BookmarkView;

    open spec fn view(&self) -> BookmarkView {
        BookmarkView {
            id: self.id@,
            target: self.target@,
            categories: views(self.categories@),
            note: opt_view(self.note),
            created_at: self.created_at,
        }
    }
}

pub open spec fn bookmark_views(s: Seq<Bookmark>) -> Seq<BookmarkView> {
    s.map_values(|b: Bookmark| b@)
}

/// Two targets name the same person or repository: same kind, names equal without regard to
/// ASCII case.
pub open spec fn same_target(a: TargetView, b: TargetView) -> bool {
    match (a, b) {
        (TargetView::User(x), TargetView::User(y)) => eq_ignore_case(x, y),
        (TargetView::Repository(x), TargetView::Repository(y)) => eq_ignore_case(x, y),
        _ => false,
    }
}

pub fn bookmark_targets_match(left: &BookmarkTarget, right: &BookmarkTarget) -> (r: bool)
    ensures
        r == same_target(left@, right@),
{
    match (left, right) {
        (BookmarkTarget::GitHubUser { login: a }, BookmarkTarget::GitHubUser { login: b }) => {
            eq_ignore_ascii_case(a.as_str(), b.as_str())
        },
        (
            BookmarkTarget::GitHubRepository { full_name: a },
            BookmarkTarget::GitHubRepository { full_name: b },
        ) => eq_ignore_ascii_case(a.as_str(), b.as_str()),
        _ => false,
    }
}

fn copy_target(t: &BookmarkTarget) -> (r: BookmarkTarget)
    ensures
        r@ == t@,
{
    match t {
        BookmarkTarget::GitHubUser { login } => BookmarkTarget::GitHubUser { login: login.clone() },
        BookmarkTarget::GitHubRepository { full_name } => BookmarkTarget::GitHubRepository {
            full_name: full_name.clone(),
        },
    }
}

fn copy_bookmark(b: &Bookmark) -> (r: Bookmark)
    ensures
        r@ == b@,
{
    let categories = b.categories.clone();
    assert(views(categories@) =~= views(b.categories@)) by {
        assert forall|i: int| 0 <= i < categories@.len() implies categories@[i]@
            == b.categories@[i]@ by {
            assert(cloned::<String>(b.categories@[i], categories@[i]));
        }
    }
    Bookmark {
        id: b.id.clone(),
        target: copy_target(&b.target),
        categories,
        note: match &b.note {
            Some(n) => Some(n.clone()),
            None => None,
        },
        created_at: b.created_at,
    }
}

/// The position of the first bookmark of the same target, or -1.
pub open spec fn saved_position(s: Seq<BookmarkView>, t: TargetView) -> int
    decreases s.len(),
{
    if s.len() == 0 {
        -1
    } else if saved_position(s.drop_last(), t) >= 0 {
        saved_position(s.drop_last(), t)
    } else if same_target(s.last().target, t) {
        s.len() - 1
    } else {
        -1
    }
}

proof fn lemma_saved_position(s: Seq<BookmarkView>, t: TargetView)
    ensures
        -1 <= saved_position(s, t) < s.len(),
        saved_position(s, t) >= 0 ==> same_target(s[saved_position(s, t)].target, t),
        saved_position(s, t) < 0 ==> forall|k: int|
            0 <= k < s.len() ==> !same_target(#[trigger] s[k].target, t),
        forall|k: int| 0 <= k < saved_position(s, t) ==> !same_target(#[trigger] s[k].target, t),
    decreases s.len(),
{
    if s.len() > 0 {
        let rest = s.drop_last();
        lemma_saved_position(rest, t);
        let p = saved_position(s, t);
        if p < 0 {
            assert forall|k: int| 0 <= k < s.len() implies !same_target(#[trigger] s[k].target, t) by {
                if k < s.len() - 1 {
                    assert(s[k] == rest[k]);
                }
            }
        }
        assert forall|k: int| 0 <= k < p implies !same_target(#[trigger] s[k].target, t) by {
            assert(s[k] == rest[k]);
        }
    }
}

/// Saves a bookmark unless its target is saved already, in which case the saved one is
/// returned and nothing changes.
pub fn add_bookmark_to(bookmarks: &mut Vec<Bookmark>, bookmark: Bookmark) -> (r: Bookmark)
    ensures
        saved_position(bookmark_views(old(bookmarks)@), bookmark@.target) >= 0 ==> {
            &&& bookmark_views(final(bookmarks)@) == bookmark_views(old(bookmarks)@)
            &&& r@ == bookmark_views(old(bookmarks)@)[saved_position(
                bookmark_views(old(bookmarks)@),
                bookmark@.target,
            )]
        },
        saved_position(bookmark_views(old(bookmarks)@), bookmark@.target) < 0 ==> {
            &&& bookmark_views(final(bookmarks)@) == bookmark_views(old(bookmarks)@).push(bookmark@)
            &&& r@ == bookmark@
        },
{
    let ghost s = bookmark_views(bookmarks@);
    proof {
        lemma_saved_position(s, bookmark@.target);
    }
    let mut i: usize = 0;
    while i < bookmarks.len()
        invariant
            i <= bookmarks.len(),
            s == bookmark_views(bookmarks@),
            forall|k: int| 0 <= k < i ==> !same_target(#[trigger] s[k].target, bookmark@.target),
            -1 <= saved_position(s, bookmark@.target) < s.len(),
            saved_position(s, bookmark@.target) >= 0 ==> same_target(
                s[saved_position(s, bookmark@.target)].target,
                bookmark@.target,
            ),
            saved_position(s, bookmark@.target) < 0 ==> forall|k: int|
                0 <= k < s.len() ==> !same_target(#[trigger] s[k].target, bookmark@.target),
            forall|k: int|
                0 <= k < saved_position(s, bookmark@.target) ==> !same_target(
                    #[trigger] s[k].target,
                    bookmark@.target,
                ),
        decreases bookmarks.len() - i,
    {
        if bookmark_targets_match(&bookmarks[i].target, &bookmark.target) {
            assert(s[i as int].target == bookmarks@[i as int].target@);
            assert(saved_position(s, bookmark@.target) == i);
            return copy_bookmark(&bookmarks[i]);
        }
        i += 1;
    }
    let r = copy_bookmark(&bookmark);
    bookmarks.push(bookmark);
    assert(bookmark_views(bookmarks@) =~= s.push(r@));
    r
}

/// Saving a bookmark is idempotent: once a target is saved, whether by this save or an
/// earlier one, saving it again (under any ASCII case) finds the bookmark the first save
/// gave back, so the second save gives that same bookmark and the list does not change.
pub proof fn law_saving_twice_changes_nothing(
    s: Seq<BookmarkView>,
    first: BookmarkView,
    second: BookmarkView,
)
    requires
        same_target(first.target, second.target),
    ensures
        ({
            let p = saved_position(s, first.target);
            let after = if p >= 0 {
                s
            } else {
                s.push(first)
            };
            let given = if p >= 0 {
                s[p]
            } else {
                first
            };
            &&& saved_position(after, second.target) >= 0
            &&& after[saved_position(after, second.target)] == given
        }),
{
    lemma_saved_position(s, first.target);
    lemma_saved_position(s, second.target);
    let p = saved_position(s, first.target);
    let q = saved_position(s, second.target);
    if p >= 0 {
        assert(same_target(s[p].target, second.target));
        if q < p {
            assert(same_target(s[q].target, first.target));
        }
    } else {
        assert(s.push(first).drop_last() == s);
        if q >= 0 {
            assert(same_target(s[q].target, first.target));
        }
    }
}

/// The full names of the repositories among the bookmarks.
pub open spec fn repository_names(s: Seq<BookmarkView>) -> Set<Seq<char>> {
    Set::new(|n: Seq<char>| exists|k: int| 0 <= k < s.len() && s[k].target == TargetView::Repository(n))
}

/// The names of the saved repositories, each once.
pub fn saved_repository_names(bookmarks: Option<&Vec<Bookmark>>) -> (r: Vec<String>)
    ensures
        views(r@).no_duplicates(),
        text_set(r@) == match bookmarks {
            Some(b) => repository_names(bookmark_views(b@)),
            None => Set::empty(),
        },
{
    let mut names: Vec<String> = Vec::new();
    assert(views(names@).no_duplicates());
    match bookmarks {
        None => {
            assert(text_set(names@) =~= Set::<Seq<char>>::empty());
            names
        },
        Some(list) => {
            let ghost s = bookmark_views(list@);
            let mut i: usize = 0;
            while i < list.len()
                invariant
                    i <= list.len(),
                    s == bookmark_views(list@),
                    views(names@).no_duplicates(),
                    text_set(names@) == repository_names(s.take(i as int)),
                decreases list.len() - i,
            {
                let ghost before = text_set(names@);
                match &list[i].target {
                    BookmarkTarget::GitHubRepository { full_name } => {
                        insert_text(&mut names, full_name.as_str());
                        assert(text_set(names@) =~= repository_names(s.take(i + 1))) by {
                            assert forall|n: Seq<char>| #[trigger] repository_names(s.take(i + 1)).contains(n) <==> before.insert(full_name@).contains(n) by {
                                if repository_names(s.take(i + 1)).contains(n) {
                                    let k = choose|k: int| 0 <= k < s.take(i + 1).len() && (#[trigger] s.take(i + 1)[k]).target == TargetView::Repository(n);
                                    if k < i {
                                        assert(s.take(i as int)[k] == s.take(i + 1)[k]);
                                    }
                                }
                                if before.contains(n) {
                                    let k = choose|k: int| 0 <= k < s.take(i as int).len() && (#[trigger] s.take(i as int)[k]).target == TargetView::Repository(n);
                                    assert(s.take(i + 1)[k] == s.take(i as int)[k]);
                                }
                                if n == full_name@ {
                                    assert(s.take(i + 1)[i as int].target == TargetView::Repository(n));
                                }
                            }
                        }
                    },
                    BookmarkTarget::GitHubUser { .. } => {
                        assert(text_set(names@) =~= repository_names(s.take(i + 1))) by {
                            assert forall|n: Seq<char>| #[trigger] repository_names(s.take(i + 1)).contains(n) <==> before.contains(n) by {
                                if repository_names(s.take(i + 1)).contains(n) {
                                    let k = choose|k: int| 0 <= k < s.take(i + 1).len() && (#[trigger] s.take(i + 1)[k]).target == TargetView::Repository(n);
                                    assert(k != i);
                                    assert(s.take(i as int)[k] == s.take(i + 1)[k]);
                                }
                                if before.contains(n) {
                                    let k = choose|k: int| 0 <= k < s.take(i as int).len() && (#[trigger] s.take(i as int)[k]).target == TargetView::Repository(n);
                                    assert(s.take(i + 1)[k] == s.take(i as int)[k]);
                                }
                            }
                        }
                    },
                }
                i += 1;
            }
            assert(s.take(list.len() as int) == s);
            names
        },
    }
}

/// A name after a sequence of renames, each applied in turn where the name matches the
/// previous name without regard to ASCII case.
pub open spec fn renamed(name: Seq<char>, changes: Seq<(Seq<char>, Seq<char>)>) -> Seq<char>
    decreases changes.len(),
{
    if changes.len() == 0 {
        name
    } else {
        let n = renamed(name, changes.drop_last());
        if eq_ignore_case(n, changes.last().0) {
            changes.last().1
        } else {
            n
        }
    }
}

pub open spec fn change_views(s: Seq<(String, String)>) -> Seq<(Seq<char>, Seq<char>)> {
    s.map_values(|p: (String, String)| (p.0@, p.1@))
}

/// A bookmark's target after user and repository renames.
pub open spec fn retargeted(
    t: TargetView,
    user_changes: Seq<(Seq<char>, Seq<char>)>,
    repository_changes: Seq<(Seq<char>, Seq<char>)>,
) -> TargetView {
    match t {
        TargetView::User(login) => TargetView::User(renamed(login, user_changes)),
        TargetView::Repository(name) => TargetView::Repository(renamed(name, repository_changes)),
    }
}

fn apply_renames(name: &String, changes: &Vec<(String, String)>) -> (r: String)
    ensures
        r@ == renamed(name@, change_views(changes@)),
{
    let mut current = name.clone();
    let mut i: usize = 0;
    while i < changes.len()
        invariant
            i <= changes.len(),
            current@ == renamed(name@, change_views(changes@).take(i as int)),
        decreases changes.len() - i,
    {
        assert(change_views(changes@).take(i + 1).drop_last() == change_views(changes@).take(
            i as int,
        ));
        if eq_ignore_ascii_case(current.as_str(), changes[i].0.as_str()) {
            current = changes[i].1.clone();
        }
        i += 1;
    }
    assert(change_views(changes@).take(changes.len() as int) == change_views(changes@));
    current
}

/// Follows GitHub renames: each bookmark's target takes the new login or full name.
pub fn update_bookmark_aliases(
    bookmarks: &mut Vec<Bookmark>,
    user_changes: &Vec<(String, String)>,
    repository_changes: &Vec<(String, String)>,
)
    ensures
        final(bookmarks)@.len() == old(bookmarks)@.len(),
        forall|i: int|
            0 <= i < old(bookmarks)@.len() ==> #[trigger] final(bookmarks)@[i]@ == (BookmarkView {
                target: retargeted(
                    old(bookmarks)@[i]@.target,
                    change_views(user_changes@),
                    change_views(repository_changes@),
                ),
                ..old(bookmarks)@[i]@
            }),
{
    let ghost start = bookmarks@;
    let mut i: usize = 0;
    while i < bookmarks.len()
        invariant
            i <= bookmarks.len(),
            bookmarks@.len() == start.len(),
            forall|k: int|
                0 <= k < i ==> #[trigger] bookmarks@[k]@ == (BookmarkView {
                    target: retargeted(
                        start[k]@.target,
                        change_views(user_changes@),
                        change_views(repository_changes@),
                    ),
                    ..start[k]@
                }),
            forall|k: int| i <= k < start.len() ==> #[trigger] bookmarks@[k] == start[k],
        decreases bookmarks.len() - i,
    {
        let target = match &bookmarks[i].target {
            BookmarkTarget::GitHubUser { login } => BookmarkTarget::GitHubUser {
                login: apply_renames(login, user_changes),
            },
            BookmarkTarget::GitHubRepository { full_name } => BookmarkTarget::GitHubRepository {
                full_name: apply_renames(full_name, repository_changes),
            },
        };
        let mut updated = copy_bookmark(&bookmarks[i]);
        updated.target = target;
        bookmarks.set(i, updated);
        i += 1;
    }
}

/// The distinct non-empty values, in text order.
pub fn dedupe_strings(values: Vec<String>) -> (r: Vec<String>)
    ensures
        text_set(r@) == text_set(values@).filter(|v: Seq<char>| v.len() > 0),
        forall|i: int, j: int| 0 <= i < j < r@.len() ==> text_less(#[trigger] r@[i]@, #[trigger] r@[j]@),
{
    let mut out: Vec<String> = Vec::new();
    let mut i: usize = 0;
    while i < values.len()
        invariant
            i <= values.len(),
            text_set(out@) == text_set(values@.take(i as int)).filter(|v: Seq<char>| v.len() > 0),
            forall|a: int, b: int| 0 <= a < b < out@.len() ==> text_less(#[trigger] out@[a]@, #[trigger] out@[b]@),
        decreases values.len() - i,
    {
        let v = &values[i];
        proof {
            assert(views(values@.take(i + 1)) == views(values@.take(i as int)).push(v@));
            views(values@.take(i as int)).lemma_push_to_set_commute(v@);
        }
        if v.as_str().is_empty() {
            assert(text_set(out@) =~= text_set(values@.take(i + 1)).filter(|v: Seq<char>| v.len() > 0));
        } else {
            let mut pos: usize = 0;
            while pos < out.len() && text_before(out[pos].as_str(), v.as_str())
                invariant
                    pos <= out.len(),
                    forall|k: int| 0 <= k < pos ==> text_less(#[trigger] out@[k]@, v@),
                decreases out.len() - pos,
            {
                pos += 1;
            }
            if pos < out.len() && str_equal(out[pos].as_str(), v.as_str()) {
                assert(views(out@)[pos as int] == v@);
                assert(text_set(out@) =~= text_set(values@.take(i + 1)).filter(|v: Seq<char>| v.len() > 0));
            } else {
                let ghost before = out@;
                proof {
                    if pos < before.len() {
                        assert(!text_less(before[pos as int]@, v@));
                        lemma_text_order_total(before[pos as int]@, v@);
                    }
                    assert forall|m: int| pos <= m < before.len() implies text_less(v@, #[trigger] before[m]@) by {
                        if m > pos {
                            lemma_text_less_transitive(v@, before[pos as int]@, before[m]@);
                        }
                    }
                }
                out.insert(pos, v.clone());
                proof {
                    assert(views(out@) =~= views(before).insert(pos as int, v@));
                    assert forall|a: int, b: int| 0 <= a < b < out@.len() implies text_less(#[trigger] out@[a]@, #[trigger] out@[b]@) by {
                        if b < pos {
                            assert(out@[a] == before[a] && out@[b] == before[b]);
                        } else if b == pos {
                            assert(out@[a] == before[a]);
                        } else if a == pos {
                            assert(out@[b] == before[b - 1]);
                        } else if a < pos {
                            assert(out@[a] == before[a] && out@[b] == before[b - 1]);
                            lemma_text_less_transitive(before[a]@, v@, before[b - 1]@);
                        } else {
                            assert(out@[a] == before[a - 1] && out@[b] == before[b - 1]);
                        }
                    }
                    views(before).lemma_push_to_set_commute(v@);
                    assert(views(out@).to_set() =~= views(before).to_set().insert(v@)) by {
                        assert forall|x: Seq<char>| views(out@).contains(x) <==> views(before).to_set().insert(v@).contains(x) by {
                            if views(out@).contains(x) {
                                let k = choose|k: int| 0 <= k < views(out@).len() && views(out@)[k] == x;
                                if k < pos {
                                    assert(views(before)[k] == x);
                                } else if k > pos {
                                    assert(views(before)[k - 1] == x);
                                }
                            }
                            if views(before).contains(x) {
                                let k = choose|k: int| 0 <= k < views(before).len() && views(before)[k] == x;
                                if k < pos {
                                    assert(views(out@)[k] == x);
                                } else {
                                    assert(views(out@)[k + 1] == x);
                                }
                            }
                            if x == v@ {
                                assert(views(out@)[pos as int] == x);
                            }
                        }
                    }
                    assert(text_set(out@) =~= text_set(values@.take(i + 1)).filter(|v: Seq<char>| v.len() > 0));
                }
            }
        }
        i += 1;
    }
    assert(values@.take(values.len() as int) == values@);
    out
}

/// Of two different texts, one comes first.
pub(crate) proof fn lemma_text_order_total(a: Seq<char>, b: Seq<char>)
    ensures
        a == b || text_less(a, b) || text_less(b, a),
    decreases a.len(),
{
    if a.len() > 0 && b.len() > 0 && a[0] == b[0] {
        lemma_text_order_total(a.drop_first(), b.drop_first());
        if a.drop_first() == b.drop_first() {
            assert(a == seq![a[0]] + a.drop_first());
            assert(b == seq![b[0]] + b.drop_first());
        }
    } else if a.len() == 0 && b.len() == 0 {
        assert(a == b);
    } else if a.len() > 0 && b.len() > 0 {
        assert(a[0] < b[0] || b[0] < a[0]);
    }
}

/// A named collection a user files bookmarks under.
#[derive(Debug, Clone, PartialEq, Eq)]
pub struct Category {
    pub name: String,
    pub description: Option<String>,
}

/// A category to create: the name is trimmed and may not be blank.
pub fn new_category(name: &str, description: Option<String>) -> (r: Result<Category, AppError>)
    ensures
        r is Err <==> trim_seq(name@).len() == 0,
        r is Err ==> r->Err_0 is Validation && r->Err_0->Validation_0@
            == "category name cannot be empty"@,
        r is Ok ==> r->Ok_0.name@ == trim_seq(name@) && r->Ok_0.description == description,
{
    let trimmed = trim(name);
    if trimmed.as_str().is_empty() {
        return Err(validation("category name cannot be empty"));
    }
    Ok(Category { name: trimmed, description })
}

/// The names of a user's categories.
pub open spec fn category_names(s: Seq<Category>) -> Seq<Seq<char>> {
    s.map_values(|c: Category| c.name@)
}

/// Adds a category unless one with the same name exists; says whether it was added.
pub fn add_category_to(categories: &mut Vec<Category>, category: Category) -> (r: bool)
    ensures
        r == !category_names(old(categories)@).contains(category.name@),
        r ==> final(categories)@ == old(categories)@.push(category),
        !r ==> final(categories)@ == old(categories)@,
{
    let mut i: usize = 0;
    while i < categories.len()
        invariant
            i <= categories.len(),
            forall|k: int| 0 <= k < i ==> categories@[k].name@ != category.name@,
        decreases categories.len() - i,
    {
        if str_equal(categories[i].name.as_str(), category.name.as_str()) {
            assert(category_names(categories@)[i as int] == category.name@);
            return false;
        }
        i += 1;
    }
    assert(!category_names(categories@).contains(category.name@)) by {
        if category_names(categories@).contains(category.name@) {
            let k = choose|k: int|
                0 <= k < category_names(categories@).len() && category_names(categories@)[k]
                    == category.name@;
            assert(categories@[k].name@ == category.name@);
        }
    }
    categories.push(category);
    true
}

/// The bookmark to save: exactly one of a user and a repository names its target.
pub fn bookmark_target(user: Option<String>, repo: Option<String>) -> (r: Result<
    BookmarkTarget,
    AppError,
>)
    ensures
        (user is Some) == (repo is Some) ==> r is Err && r->Err_0 is Validation && r->Err_0->Validation_0@
            == "provide exactly one of --user or --repo"@,
        user is Some && repo is None ==> r is Ok && r->Ok_0@ == TargetView::User(user->0@),
        user is None && repo is Some ==> r is Ok && r->Ok_0@ == TargetView::Repository(repo->0@),
{
    match (user, repo) {
        (Some(login), None) => Ok(BookmarkTarget::GitHubUser { login }),
        (None, Some(full_name)) => Ok(BookmarkTarget::GitHubRepository { full_name }),
        _ => Err(validation("provide exactly one of --user or --repo")),
    }
}

} // verus!
