//! Which reasons a candidate repository is ranked for, and how recent its activity is.
//!
//! The scores themselves are decimal weights; what is decided here is which reasons apply,
//! and a reason applies exactly when its weight comes out positive.
use vstd::prelude::*;

use crate::discovery::{contains_text, text_set, views, RepositoryGraphSignals, RepositoryReasonKind};
use crate::error::AppError;
use crate::graph::GitHubRepositoryNode;
use crate::insights::{lemma_text_less_irreflexive, lemma_text_less_transitive, text_before, text_less};
use crate::text::{ascii_lowercase, lower_seq, owned, str_equal};

verus! {

/// Microseconds in a day.
pub const MICROS_PER_DAY: i64 = 86_400_000_000;

/// A repository with at most this many stars and enough network support is a hidden gem.
pub const HIDDEN_GEM_MAX_STARS: u64 = 5_000;

/// The network support a hidden gem needs.
pub const HIDDEN_GEM_MIN_RECOMMENDERS: usize = 2;

/// How recent a repository's last activity is, in the bands the ranking weighs.
#[derive(Debug, Clone, Copy, PartialEq, Eq, Structural)]
pub enum ActivityBand {
    /// At most 30 days old.
    Month,
    /// At most 180 days old.
    HalfYear,
    /// At most 365 days old.
    Year,
    /// Older than a year: no weight.
    Older,
}

/// The instant a repository was last active: its last push, or else its last update.
pub open spec fn activity_instant(r: GitHubRepositoryNode) -> Option<i64> {
    if r.pushed_at is Some {
        r.pushed_at
    } else {
        r.updated_at
    }
}

proof fn lemma_concat_contains(a: Seq<RepositoryReasonKind>, b: Seq<RepositoryReasonKind>, x: RepositoryReasonKind)
    ensures
        (a + b).contains(x) <==> a.contains(x) || b.contains(x),
{
    if (a + b).contains(x) {
        let i = choose|i: int| 0 <= i < (a + b).len() && (a + b)[i] == x;
        if i < a.len() {
            assert(a[i] == x);
        } else {
            assert(b[i - a.len()] == x);
        }
    }
    if a.contains(x) {
        let i = choose|i: int| 0 <= i < a.len() && a[i] == x;
        assert((a + b)[i] == x);
    }
    if b.contains(x) {
        let i = choose|i: int| 0 <= i < b.len() && b[i] == x;
        assert((a + b)[a.len() + i] == x);
    }
}

proof fn lemma_reason_if_contains(holds: bool, kind: RepositoryReasonKind, x: RepositoryReasonKind)
    ensures
        reason_if(holds, kind).contains(x) <==> holds && kind == x,
{
    if holds {
        assert(reason_if(holds, kind)[0] == kind);
    }
}

proof fn lemma_reason_kinds_contains(
    r: GitHubRepositoryNode,
    s: RepositoryGraphSignals,
    preferred: Set<Seq<char>>,
    now: i64,
    x: RepositoryReasonKind,
)
    ensures
        reason_kinds(r, s, preferred, now).contains(x) <==> {
            ||| s.recommenders > 0 && x == RepositoryReasonKind::NetworkEndorsement
            ||| s.followed_recommenders > 0 && x == RepositoryReasonKind::FollowedDeveloper
            ||| s.follower_recommenders > 0 && x == RepositoryReasonKind::FollowerDiscovery
            ||| s.starred_by_recommenders > 0 && x == RepositoryReasonKind::StarredByNetwork
            ||| s.owned_by_recommenders > 0 && x == RepositoryReasonKind::BuiltByNetwork
            ||| r.stargazer_count > 0 && x == RepositoryReasonKind::GlobalStars
            ||| r.fork_count > 0 && x == RepositoryReasonKind::ForkAdoption
            ||| language_matches(r, preferred) && x == RepositoryReasonKind::LanguageMatch
            ||| recently_active(r, now) && x == RepositoryReasonKind::RecentActivity
            ||| is_hidden_gem(r, s) && x == RepositoryReasonKind::HiddenGem
            ||| r.archived && x == RepositoryReasonKind::ArchivedPenalty
        },
{
    let p0 = reason_if(s.recommenders > 0, RepositoryReasonKind::NetworkEndorsement);
    let p1 = reason_if(s.followed_recommenders > 0, RepositoryReasonKind::FollowedDeveloper);
    let p2 = reason_if(s.follower_recommenders > 0, RepositoryReasonKind::FollowerDiscovery);
    let p3 = reason_if(s.starred_by_recommenders > 0, RepositoryReasonKind::StarredByNetwork);
    let p4 = reason_if(s.owned_by_recommenders > 0, RepositoryReasonKind::BuiltByNetwork);
    let p5 = reason_if(r.stargazer_count > 0, RepositoryReasonKind::GlobalStars);
    let p6 = reason_if(r.fork_count > 0, RepositoryReasonKind::ForkAdoption);
    let p7 = reason_if(language_matches(r, preferred), RepositoryReasonKind::LanguageMatch);
    let p8 = reason_if(recently_active(r, now), RepositoryReasonKind::RecentActivity);
    let p9 = reason_if(is_hidden_gem(r, s), RepositoryReasonKind::HiddenGem);
    let p10 = reason_if(r.archived, RepositoryReasonKind::ArchivedPenalty);
    lemma_reason_if_contains(s.recommenders > 0, RepositoryReasonKind::NetworkEndorsement, x);
    lemma_reason_if_contains(s.followed_recommenders > 0, RepositoryReasonKind::FollowedDeveloper, x);
    lemma_reason_if_contains(s.follower_recommenders > 0, RepositoryReasonKind::FollowerDiscovery, x);
    lemma_reason_if_contains(s.starred_by_recommenders > 0, RepositoryReasonKind::StarredByNetwork, x);
    lemma_reason_if_contains(s.owned_by_recommenders > 0, RepositoryReasonKind::BuiltByNetwork, x);
    lemma_reason_if_contains(r.stargazer_count > 0, RepositoryReasonKind::GlobalStars, x);
    lemma_reason_if_contains(r.fork_count > 0, RepositoryReasonKind::ForkAdoption, x);
    lemma_reason_if_contains(language_matches(r, preferred), RepositoryReasonKind::LanguageMatch, x);
    lemma_reason_if_contains(recently_active(r, now), RepositoryReasonKind::RecentActivity, x);
    lemma_reason_if_contains(is_hidden_gem(r, s), RepositoryReasonKind::HiddenGem, x);
    lemma_reason_if_contains(r.archived, RepositoryReasonKind::ArchivedPenalty, x);
    let a1 = p0 + p1;
    let a2 = a1 + p2;
    let a3 = a2 + p3;
    let a4 = a3 + p4;
    let a5 = a4 + p5;
    let a6 = a5 + p6;
    let a7 = a6 + p7;
    let a8 = a7 + p8;
    let a9 = a8 + p9;
    let a10 = a9 + p10;
    lemma_concat_contains(p0, p1, x);
    lemma_concat_contains(a1, p2, x);
    lemma_concat_contains(a2, p3, x);
    lemma_concat_contains(a3, p4, x);
    lemma_concat_contains(a4, p5, x);
    lemma_concat_contains(a5, p6, x);
    lemma_concat_contains(a6, p7, x);
    lemma_concat_contains(a7, p8, x);
    lemma_concat_contains(a8, p9, x);
    lemma_concat_contains(a9, p10, x);
    assert(reason_kinds(r, s, preferred, now) == a10);
}

/// The place of a reason in the list of reasons.
pub open spec fn reason_place(k: RepositoryReasonKind) -> int {
    match k {
        RepositoryReasonKind::NetworkEndorsement => 0,
        RepositoryReasonKind::FollowedDeveloper => 1,
        RepositoryReasonKind::FollowerDiscovery => 2,
        RepositoryReasonKind::StarredByNetwork => 3,
        RepositoryReasonKind::BuiltByNetwork => 4,
        RepositoryReasonKind::GlobalStars => 5,
        RepositoryReasonKind::ForkAdoption => 6,
        RepositoryReasonKind::LanguageMatch => 7,
        RepositoryReasonKind::RecentActivity => 8,
        RepositoryReasonKind::HiddenGem => 9,
        RepositoryReasonKind::ArchivedPenalty => 10,
    }
}

/// The reasons come in their places' order, each at most once, all before place `n`.
pub open spec fn placed_below(s: Seq<RepositoryReasonKind>, n: int) -> bool {
    &&& forall|i: int, j: int| 0 <= i < j < s.len() ==> reason_place(s[i]) < reason_place(s[j])
    &&& forall|i: int| 0 <= i < s.len() ==> reason_place(#[trigger] s[i]) < n
}

proof fn lemma_placed_push(a: Seq<RepositoryReasonKind>, n: int, holds: bool, k: RepositoryReasonKind)
    requires
        placed_below(a, n),
        reason_place(k) == n,
    ensures
        placed_below(a + reason_if(holds, k), n + 1),
{
    let b = a + reason_if(holds, k);
    if holds {
        assert(b =~= a.push(k));
    } else {
        assert(b =~= a);
    }
}

/// The reasons are listed in one fixed order, each at most once: network endorsement,
/// followed developer, follower, starred by the network, built by the network, global stars,
/// forks, language, activity, hidden gem, and the archive penalty last.
pub proof fn law_reasons_come_in_a_fixed_order(
    r: GitHubRepositoryNode,
    s: RepositoryGraphSignals,
    preferred: Set<Seq<char>>,
    now: i64,
)
    ensures
        ({
            let k = reason_kinds(r, s, preferred, now);
            forall|i: int, j: int| 0 <= i < j < k.len() ==> reason_place(k[i]) < reason_place(k[j])
        }),
{
    let e = Seq::<RepositoryReasonKind>::empty();
    let p0 = reason_if(s.recommenders > 0, RepositoryReasonKind::NetworkEndorsement);
    assert(e + p0 =~= p0);
    lemma_placed_push(e, 0, s.recommenders > 0, RepositoryReasonKind::NetworkEndorsement);
    let a1 = p0 + reason_if(s.followed_recommenders > 0, RepositoryReasonKind::FollowedDeveloper);
    lemma_placed_push(p0, 1, s.followed_recommenders > 0, RepositoryReasonKind::FollowedDeveloper);
    let a2 = a1 + reason_if(s.follower_recommenders > 0, RepositoryReasonKind::FollowerDiscovery);
    lemma_placed_push(a1, 2, s.follower_recommenders > 0, RepositoryReasonKind::FollowerDiscovery);
    let a3 = a2 + reason_if(s.starred_by_recommenders > 0, RepositoryReasonKind::StarredByNetwork);
    lemma_placed_push(a2, 3, s.starred_by_recommenders > 0, RepositoryReasonKind::StarredByNetwork);
    let a4 = a3 + reason_if(s.owned_by_recommenders > 0, RepositoryReasonKind::BuiltByNetwork);
    lemma_placed_push(a3, 4, s.owned_by_recommenders > 0, RepositoryReasonKind::BuiltByNetwork);
    let a5 = a4 + reason_if(r.stargazer_count > 0, RepositoryReasonKind::GlobalStars);
    lemma_placed_push(a4, 5, r.stargazer_count > 0, RepositoryReasonKind::GlobalStars);
    let a6 = a5 + reason_if(r.fork_count > 0, RepositoryReasonKind::ForkAdoption);
    lemma_placed_push(a5, 6, r.fork_count > 0, RepositoryReasonKind::ForkAdoption);
    let a7 = a6 + reason_if(language_matches(r, preferred), RepositoryReasonKind::LanguageMatch);
    lemma_placed_push(a6, 7, language_matches(r, preferred), RepositoryReasonKind::LanguageMatch);
    let a8 = a7 + reason_if(recently_active(r, now), RepositoryReasonKind::RecentActivity);
    lemma_placed_push(a7, 8, recently_active(r, now), RepositoryReasonKind::RecentActivity);
    let a9 = a8 + reason_if(is_hidden_gem(r, s), RepositoryReasonKind::HiddenGem);
    lemma_placed_push(a8, 9, is_hidden_gem(r, s), RepositoryReasonKind::HiddenGem);
    let a10 = a9 + reason_if(r.archived, RepositoryReasonKind::ArchivedPenalty);
    lemma_placed_push(a9, 10, r.archived, RepositoryReasonKind::ArchivedPenalty);
    assert(reason_kinds(r, s, preferred, now) == a10);
}

/// A candidate is a hidden gem exactly when it has at most 5,000 stars and at least two
/// distinct accounts of the network recommend it, whatever relation they recommend it by.
pub proof fn law_hidden_gem_is_a_small_audience_with_two_recommenders(
    r: GitHubRepositoryNode,
    s: RepositoryGraphSignals,
    preferred: Set<Seq<char>>,
    now: i64,
)
    ensures
        reason_kinds(r, s, preferred, now).contains(RepositoryReasonKind::HiddenGem) <==> (
        r.stargazer_count <= 5000 && s.recommenders >= 2),
{
    lemma_reason_kinds_contains(r, s, preferred, now, RepositoryReasonKind::HiddenGem);
}

/// Every reason a candidate is given has its cause, and every cause gives its reason: network
/// endorsement for any recommender, a followed developer, a follower, a star or a build by
/// the network for a recommender of that relation, global stars and forks when there are
/// any, a language the seed uses (ignoring case), activity (last push, else last update)
/// within 365 whole days, and the penalty for an archived repository.
pub proof fn law_each_reason_has_its_cause(
    r: GitHubRepositoryNode,
    s: RepositoryGraphSignals,
    preferred: Set<Seq<char>>,
    now: i64,
)
    ensures
        ({
            let k = reason_kinds(r, s, preferred, now);
            let at = if r.pushed_at is Some {
                r.pushed_at
            } else {
                r.updated_at
            };
            &&& k.contains(RepositoryReasonKind::NetworkEndorsement) <==> s.recommenders > 0
            &&& k.contains(RepositoryReasonKind::FollowedDeveloper) <==> s.followed_recommenders > 0
            &&& k.contains(RepositoryReasonKind::FollowerDiscovery) <==> s.follower_recommenders > 0
            &&& k.contains(RepositoryReasonKind::StarredByNetwork) <==> s.starred_by_recommenders
                > 0
            &&& k.contains(RepositoryReasonKind::BuiltByNetwork) <==> s.owned_by_recommenders > 0
            &&& k.contains(RepositoryReasonKind::GlobalStars) <==> r.stargazer_count > 0
            &&& k.contains(RepositoryReasonKind::ForkAdoption) <==> r.fork_count > 0
            &&& k.contains(RepositoryReasonKind::LanguageMatch) <==> (r.language is Some
                && preferred.contains(lower_seq(r.language->0@)))
            &&& k.contains(RepositoryReasonKind::RecentActivity) <==> (at is Some && (now <= at->0
                || (now - at->0) / 86_400_000_000 <= 365))
            &&& k.contains(RepositoryReasonKind::HiddenGem) <==> (r.stargazer_count <= 5000
                && s.recommenders >= 2)
            &&& k.contains(RepositoryReasonKind::ArchivedPenalty) <==> r.archived
        }),
{
    lemma_reason_kinds_contains(r, s, preferred, now, RepositoryReasonKind::NetworkEndorsement);
    lemma_reason_kinds_contains(r, s, preferred, now, RepositoryReasonKind::FollowedDeveloper);
    lemma_reason_kinds_contains(r, s, preferred, now, RepositoryReasonKind::FollowerDiscovery);
    lemma_reason_kinds_contains(r, s, preferred, now, RepositoryReasonKind::StarredByNetwork);
    lemma_reason_kinds_contains(r, s, preferred, now, RepositoryReasonKind::BuiltByNetwork);
    lemma_reason_kinds_contains(r, s, preferred, now, RepositoryReasonKind::GlobalStars);
    lemma_reason_kinds_contains(r, s, preferred, now, RepositoryReasonKind::ForkAdoption);
    lemma_reason_kinds_contains(r, s, preferred, now, RepositoryReasonKind::LanguageMatch);
    lemma_reason_kinds_contains(r, s, preferred, now, RepositoryReasonKind::RecentActivity);
    lemma_reason_kinds_contains(r, s, preferred, now, RepositoryReasonKind::HiddenGem);
    lemma_reason_kinds_contains(r, s, preferred, now, RepositoryReasonKind::ArchivedPenalty);
}

/// Whole days from `at` to `now`; none when `at` lies in the future.
pub open spec fn age_in_days(now: i64, at: i64) -> int {
    if now > at {
        (now - at) / (MICROS_PER_DAY as int)
    } else {
        0
    }
}

/// The band of an age in days.
pub open spec fn band_of(age: int) -> ActivityBand {
    if age <= 30 {
        ActivityBand::Month
    } else if age <= 180 {
        ActivityBand::HalfYear
    } else if age <= 365 {
        ActivityBand::Year
    } else {
        ActivityBand::Older
    }
}

/// The repository's language, lower-cased, is one of the seed's languages.
pub open spec fn language_matches(r: GitHubRepositoryNode, preferred: Set<Seq<char>>) -> bool {
    r.language is Some && preferred.contains(lower_seq(r.language->0@))
}

/// Strong network support with a small global audience.
pub open spec fn is_hidden_gem(r: GitHubRepositoryNode, s: RepositoryGraphSignals) -> bool {
    r.stargazer_count <= HIDDEN_GEM_MAX_STARS && s.recommenders >= HIDDEN_GEM_MIN_RECOMMENDERS
}

/// The repository was active within the last year.
pub open spec fn recently_active(r: GitHubRepositoryNode, now: i64) -> bool {
    match activity_instant(r) {
        Some(at) => age_in_days(now, at) <= 365,
        None => false,
    }
}

/// `kind` alone when `holds`, else nothing.
pub open spec fn reason_if(holds: bool, kind: RepositoryReasonKind) -> Seq<RepositoryReasonKind> {
    if holds {
        seq![kind]
    } else {
        Seq::empty()
    }
}

/// The reasons a candidate is ranked for, in the order they are listed: each network count
/// that is not zero, stars and forks when there are any, a language the seed already uses,
/// activity within the last year, a hidden gem, and the penalty for an archived repository.
pub open spec fn reason_kinds(
    r: GitHubRepositoryNode,
    s: RepositoryGraphSignals,
    preferred: Set<Seq<char>>,
    now: i64,
) -> Seq<RepositoryReasonKind> {
    reason_if(s.recommenders > 0, RepositoryReasonKind::NetworkEndorsement) + reason_if(
        s.followed_recommenders > 0,
        RepositoryReasonKind::FollowedDeveloper,
    ) + reason_if(s.follower_recommenders > 0, RepositoryReasonKind::FollowerDiscovery) + reason_if(
        s.starred_by_recommenders > 0,
        RepositoryReasonKind::StarredByNetwork,
    ) + reason_if(s.owned_by_recommenders > 0, RepositoryReasonKind::BuiltByNetwork) + reason_if(
        r.stargazer_count > 0,
        RepositoryReasonKind::GlobalStars,
    ) + reason_if(r.fork_count > 0, RepositoryReasonKind::ForkAdoption) + reason_if(
        language_matches(r, preferred),
        RepositoryReasonKind::LanguageMatch,
    ) + reason_if(recently_active(r, now), RepositoryReasonKind::RecentActivity) + reason_if(
        is_hidden_gem(r, s),
        RepositoryReasonKind::HiddenGem,
    ) + reason_if(r.archived, RepositoryReasonKind::ArchivedPenalty)
}

/// Whole days from `at` to `now`, counting a future instant as no days.
pub fn activity_age_days(now: i64, at: i64) -> (r: i64)
    ensures
        r == age_in_days(now, at),
        r >= 0,
{
    if now > at {
        let span: i128 = (now as i128) - (at as i128);
        assert(span / 86_400_000_000i128 <= span) by (nonlinear_arith)
            requires
                span > 0,
        ;
        assert(span < 0x1_0000_0000_0000_0000);
        (span / 86_400_000_000i128) as i64
    } else {
        0
    }
}

/// The band of an age in days.
pub fn activity_band(age_days: i64) -> (r: ActivityBand)
    ensures
        r == band_of(age_days as int),
{
    if age_days <= 30 {
        ActivityBand::Month
    } else if age_days <= 180 {
        ActivityBand::HalfYear
    } else if age_days <= 365 {
        ActivityBand::Year
    } else {
        ActivityBand::Older
    }
}

fn push_when(kinds: &mut Vec<RepositoryReasonKind>, holds: bool, kind: RepositoryReasonKind)
    ensures
        final(kinds)@ == old(kinds)@ + reason_if(holds, kind),
{
    if holds {
        kinds.push(kind);
    } else {
        assert(old(kinds)@ + reason_if(holds, kind) =~= old(kinds)@);
    }
}

/// The reasons a candidate repository is ranked for, given the seed's lower-cased languages
/// and the present instant in microseconds.
pub fn repository_reason_kinds(
    repository: &GitHubRepositoryNode,
    signals: RepositoryGraphSignals,
    preferred_languages: &Vec<String>,
    now: i64,
) -> (r: Vec<RepositoryReasonKind>)
    ensures
        r@ == reason_kinds(*repository, signals, text_set(preferred_languages@), now),
        r@.contains(RepositoryReasonKind::HiddenGem) <==> (repository.stargazer_count <= 5000
            && signals.recommenders >= 2),
{
    let mut kinds: Vec<RepositoryReasonKind> = Vec::new();
    push_when(&mut kinds, signals.recommenders > 0, RepositoryReasonKind::NetworkEndorsement);
    push_when(
        &mut kinds,
        signals.followed_recommenders > 0,
        RepositoryReasonKind::FollowedDeveloper,
    );
    push_when(
        &mut kinds,
        signals.follower_recommenders > 0,
        RepositoryReasonKind::FollowerDiscovery,
    );
    push_when(
        &mut kinds,
        signals.starred_by_recommenders > 0,
        RepositoryReasonKind::StarredByNetwork,
    );
    push_when(&mut kinds, signals.owned_by_recommenders > 0, RepositoryReasonKind::BuiltByNetwork);
    push_when(&mut kinds, repository.stargazer_count > 0, RepositoryReasonKind::GlobalStars);
    push_when(&mut kinds, repository.fork_count > 0, RepositoryReasonKind::ForkAdoption);
    let language_match = match &repository.language {
        Some(language) => {
            let lowered = ascii_lowercase(language.as_str());
            contains_text(preferred_languages, lowered.as_str())
        },
        None => false,
    };
    push_when(&mut kinds, language_match, RepositoryReasonKind::LanguageMatch);
    let activity = match repository.pushed_at {
        Some(at) => Some(at),
        None => repository.updated_at,
    };
    let recent = match activity {
        Some(at) => activity_age_days(now, at) <= 365,
        None => false,
    };
    push_when(&mut kinds, recent, RepositoryReasonKind::RecentActivity);
    push_when(
        &mut kinds,
        repository.stargazer_count <= HIDDEN_GEM_MAX_STARS && signals.recommenders
            >= HIDDEN_GEM_MIN_RECOMMENDERS,
        RepositoryReasonKind::HiddenGem,
    );
    push_when(&mut kinds, repository.archived, RepositoryReasonKind::ArchivedPenalty);
    proof {
        assert(kinds@ =~= reason_kinds(*repository, signals, text_set(preferred_languages@), now));
        law_hidden_gem_is_a_small_audience_with_two_recommenders(
            *repository,
            signals,
            text_set(preferred_languages@),
            now,
        );
    }
    kinds
}

/// The signals a repository the seed user starred or built is listed with: a small global
/// audience, and activity within the last six months.
pub fn direct_candidate_signals(repository: &GitHubRepositoryNode, now: i64) -> (r: (bool, bool))
    ensures
        r.0 == (repository.stargazer_count <= HIDDEN_GEM_MAX_STARS),
        r.1 == match activity_instant(*repository) {
            Some(at) => age_in_days(now, at) <= 180,
            None => false,
        },
{
    let small = repository.stargazer_count <= HIDDEN_GEM_MAX_STARS;
    let activity = match repository.pushed_at {
        Some(at) => Some(at),
        None => repository.updated_at,
    };
    let active = match activity {
        Some(at) => activity_age_days(now, at) <= 180,
        None => false,
    };
    (small, active)
}

/// The largest number of candidates a discovery request may ask for.
pub const MAX_DISCOVERY_LIMIT: usize = 100;

/// A repository discovery request asks for between 1 and 100 candidates.
pub fn ensure_discovery_limit(limit: usize) -> (r: Result<(), AppError>)
    ensures
        r is Ok <==> 1 <= limit <= 100,
        r is Err ==> r->Err_0 is Validation && r->Err_0->Validation_0@
            == "repository discovery limit must be between 1 and 100"@,
{
    if limit < 1 || limit > MAX_DISCOVERY_LIMIT {
        return Err(
            AppError::Validation(owned("repository discovery limit must be between 1 and 100")),
        );
    }
    Ok(())
}

/// Each text comes strictly after the one before it, so none occurs twice.
pub open spec fn strictly_ascending(s: Seq<String>) -> bool {
    forall|i: int, j: int| 0 <= i < j < s.len() ==> text_less(#[trigger] s[i]@, #[trigger] s[j]@)
}

proof fn lemma_text_less_total(a: Seq<char>, b: Seq<char>)
    requires
        a != b,
    ensures
        text_less(a, b) || text_less(b, a),
    decreases a.len(),
{
    if a.len() > 0 && b.len() > 0 && a[0] == b[0] {
        if a.drop_first() == b.drop_first() {
            assert(a =~= seq![a[0]] + a.drop_first());
            assert(b =~= seq![b[0]] + b.drop_first());
        }
        lemma_text_less_total(a.drop_first(), b.drop_first());
    } else if a.len() == 0 && b.len() == 0 {
        assert(a =~= b);
    }
}

proof fn lemma_views_push(s: Seq<String>, x: String, t: Seq<char>)
    ensures
        views(s.push(x)).contains(t) <==> (views(s).contains(t) || t == x@),
{
    assert(views(s.push(x)) =~= views(s).push(x@));
    if views(s).contains(t) {
        let k = choose|k: int| 0 <= k < views(s).len() && views(s)[k] == t;
        assert(views(s.push(x))[k] == t);
    }
    if t == x@ {
        assert(views(s.push(x))[s.len() as int] == t);
    }
}

proof fn lemma_views_insert(s: Seq<String>, p: int, x: String, t: Seq<char>)
    requires
        0 <= p <= s.len(),
    ensures
        views(s.insert(p, x)).contains(t) <==> (views(s).contains(t) || t == x@),
{
    let u = s.insert(p, x);
    assert(views(u) =~= views(s).insert(p, x@));
    if views(s).contains(t) {
        let k = choose|k: int| 0 <= k < views(s).len() && views(s)[k] == t;
        if k < p {
            assert(views(u)[k] == t);
        } else {
            assert(views(u)[k + 1] == t);
        }
    }
    if t == x@ {
        assert(views(u)[p] == t);
    }
    if views(u).contains(t) {
        let k = choose|k: int| 0 <= k < views(u).len() && views(u)[k] == t;
        if k < p {
            assert(views(s)[k] == t);
        } else if k > p {
            assert(views(s)[k - 1] == t);
        }
    }
}

/// The texts in code-point order, each once (as `sort` then `dedup` leave them): the same
/// texts, strictly ascending.
pub fn sorted_unique_texts(values: Vec<String>) -> (r: Vec<String>)
    ensures
        strictly_ascending(r@),
        text_set(r@) == text_set(values@),
{
    let mut out: Vec<String> = Vec::new();
    let mut i: usize = 0;
    while i < values.len()
        invariant
            i <= values.len(),
            strictly_ascending(out@),
            forall|t: Seq<char>|
                #![trigger views(out@).contains(t)]
                views(out@).contains(t) <==> views(values@.take(i as int)).contains(t),
        decreases values.len() - i,
    {
        let v = &values[i];
        let mut pos: usize = 0;
        while pos < out.len() && text_before(out[pos].as_str(), v.as_str())
            invariant
                pos <= out.len(),
                forall|j: int| 0 <= j < pos ==> text_less(#[trigger] out@[j]@, v@),
            decreases out.len() - pos,
        {
            pos += 1;
        }
        let ghost before = out@;
        let ghost seen = values@.take(i as int);
        let ghost upto = values@.take(i + 1);
        proof {
            assert(upto == seen.push(values@[i as int]));
        }
        if pos < out.len() && str_equal(out[pos].as_str(), v.as_str()) {
            proof {
                assert forall|t: Seq<char>| #![trigger views(out@).contains(t)]
                    views(out@).contains(t) <==> views(upto).contains(t) by {
                    lemma_views_push(seen, *v, t);
                    if t == v@ {
                        assert(views(out@)[pos as int] == t);
                    }
                }
            }
        } else {
            proof {
                assert forall|m: int| pos <= m < before.len() implies text_less(
                    v@,
                    #[trigger] before[m]@,
                ) by {
                    let kp = before[pos as int]@;
                    lemma_text_less_total(v@, kp);
                    if m > pos {
                        lemma_text_less_transitive(v@, kp, before[m]@);
                    }
                }
            }
            out.insert(pos, v.clone());
            proof {
                let after = out@;
                assert(after =~= before.insert(pos as int, *v));
                assert forall|a: int, b: int| 0 <= a < b < after.len() implies text_less(
                    #[trigger] after[a]@,
                    #[trigger] after[b]@,
                ) by {
                    if b < pos {
                        assert(after[a] == before[a] && after[b] == before[b]);
                    } else if b == pos {
                        assert(after[a] == before[a]);
                    } else if a == pos {
                        assert(after[b] == before[b - 1]);
                    } else if a < pos {
                        assert(after[a] == before[a] && after[b] == before[b - 1]);
                        lemma_text_less_transitive(before[a]@, v@, before[b - 1]@);
                    } else {
                        assert(after[a] == before[a - 1] && after[b] == before[b - 1]);
                    }
                }
                assert forall|t: Seq<char>| #![trigger views(out@).contains(t)]
                    views(out@).contains(t) <==> views(upto).contains(t) by {
                    lemma_views_push(seen, *v, t);
                    lemma_views_insert(before, pos as int, *v, t);
                    assert(views(before).contains(t) <==> views(seen).contains(t));
                }
            }
        }
        i += 1;
    }
    proof {
        assert(values@.take(values.len() as int) == values@);
        assert(text_set(out@) =~= text_set(values@)) by {
            assert forall|t: Seq<char>| text_set(out@).contains(t) <==> text_set(values@).contains(t) by {
                assert(views(out@).contains(t) <==> views(values@).contains(t));
            }
        }
    }
    out
}

} // verus!
