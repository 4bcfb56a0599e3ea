use gitexplore::discovery::{RepositoryGraphSignals, RepositoryReasonKind};
use gitexplore::graph::GitHubRepositoryNode;
use gitexplore::error::AppError;
use gitexplore::ranking::{
    activity_age_days, activity_band, direct_candidate_signals, ensure_discovery_limit,
    repository_reason_kinds, sorted_unique_texts, ActivityBand, MICROS_PER_DAY,
};

const NOW: i64 = 1_700_000_000_000_000;

fn signals(recommenders: usize, followed: usize, follower: usize, starred: usize, owned: usize) -> RepositoryGraphSignals {
    RepositoryGraphSignals {
        recommenders,
        followed_recommenders: followed,
        follower_recommenders: follower,
        starred_by_recommenders: starred,
        owned_by_recommenders: owned,
    }
}

#[test]
fn activity_age_counts_whole_days_and_clamps_the_future() {
    assert_eq!(activity_age_days(NOW, NOW - 3 * MICROS_PER_DAY - 1), 3);
    assert_eq!(activity_age_days(NOW, NOW - MICROS_PER_DAY + 1), 0);
    assert_eq!(activity_age_days(NOW, NOW + 10 * MICROS_PER_DAY), 0);
    assert_eq!(activity_age_days(i64::MAX, i64::MIN), 213_503_982);
}

#[test]
fn activity_bands_follow_the_day_thresholds() {
    assert_eq!(activity_band(0), ActivityBand::Month);
    assert_eq!(activity_band(30), ActivityBand::Month);
    assert_eq!(activity_band(31), ActivityBand::HalfYear);
    assert_eq!(activity_band(180), ActivityBand::HalfYear);
    assert_eq!(activity_band(365), ActivityBand::Year);
    assert_eq!(activity_band(366), ActivityBand::Older);
}

#[test]
fn a_small_active_repository_with_network_support_gets_every_positive_reason() {
    let repository = GitHubRepositoryNode {
        full_name: "x/lib".to_string(),
        stargazer_count: 42,
        fork_count: 3,
        language: Some("Rust".to_string()),
        pushed_at: Some(NOW - 2 * MICROS_PER_DAY),
        ..Default::default()
    };
    let kinds = repository_reason_kinds(
        &repository,
        signals(2, 1, 1, 2, 1),
        &vec!["rust".to_string()],
        NOW,
    );
    assert_eq!(
        kinds,
        vec![
            RepositoryReasonKind::NetworkEndorsement,
            RepositoryReasonKind::FollowedDeveloper,
            RepositoryReasonKind::FollowerDiscovery,
            RepositoryReasonKind::StarredByNetwork,
            RepositoryReasonKind::BuiltByNetwork,
            RepositoryReasonKind::GlobalStars,
            RepositoryReasonKind::ForkAdoption,
            RepositoryReasonKind::LanguageMatch,
            RepositoryReasonKind::RecentActivity,
            RepositoryReasonKind::HiddenGem,
        ]
    );
}

#[test]
fn archived_old_popular_repositories_keep_only_their_reasons() {
    let repository = GitHubRepositoryNode {
        full_name: "big/old".to_string(),
        stargazer_count: 50_000,
        fork_count: 0,
        language: Some("Go".to_string()),
        pushed_at: None,
        updated_at: Some(NOW - 400 * MICROS_PER_DAY),
        archived: true,
        ..Default::default()
    };
    let kinds = repository_reason_kinds(
        &repository,
        signals(3, 0, 3, 3, 0),
        &vec!["rust".to_string()],
        NOW,
    );
    assert_eq!(
        kinds,
        vec![
            RepositoryReasonKind::NetworkEndorsement,
            RepositoryReasonKind::FollowerDiscovery,
            RepositoryReasonKind::StarredByNetwork,
            RepositoryReasonKind::GlobalStars,
            RepositoryReasonKind::ArchivedPenalty,
        ]
    );
}

#[test]
fn the_last_push_wins_over_the_last_update_for_activity() {
    let repository = GitHubRepositoryNode {
        pushed_at: Some(NOW - 500 * MICROS_PER_DAY),
        updated_at: Some(NOW),
        ..Default::default()
    };
    let kinds = repository_reason_kinds(&repository, signals(0, 0, 0, 0, 0), &Vec::new(), NOW);
    assert!(kinds.is_empty());
}

#[test]
fn direct_candidates_note_a_small_audience_and_half_year_activity() {
    let mut repository = GitHubRepositoryNode {
        stargazer_count: 5_000,
        updated_at: Some(NOW - 180 * MICROS_PER_DAY),
        ..Default::default()
    };
    assert_eq!(direct_candidate_signals(&repository, NOW), (true, true));
    repository.stargazer_count = 5_001;
    repository.updated_at = Some(NOW - 181 * MICROS_PER_DAY);
    assert_eq!(direct_candidate_signals(&repository, NOW), (false, false));
    repository.updated_at = None;
    assert_eq!(direct_candidate_signals(&repository, NOW), (false, false));
}

#[test]
fn discovery_limits_run_from_one_to_a_hundred() {
    assert!(ensure_discovery_limit(1).is_ok());
    assert!(ensure_discovery_limit(100).is_ok());
    for limit in [0usize, 101] {
        match ensure_discovery_limit(limit) {
            Err(AppError::Validation(message)) => {
                assert_eq!(message, "repository discovery limit must be between 1 and 100")
            }
            other => panic!("expected a validation error, got {other:?}"),
        }
    }
}

#[test]
fn via_logins_come_sorted_and_once_each() {
    let texts = vec!["bob".to_string(), "alice".to_string(), "bob".to_string(), "Alice".to_string(), "al".to_string()];
    assert_eq!(sorted_unique_texts(texts), vec!["Alice", "al", "alice", "bob"]);
    assert!(sorted_unique_texts(Vec::new()).is_empty());
}
