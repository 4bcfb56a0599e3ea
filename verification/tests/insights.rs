use gitexplore::graph::{CacheMetadata, CacheStatus, RefreshJobStatus};
use gitexplore::insights::{
    aggregate_user_commit_events, begin_insight_refresh, cache_status_from_metadata,
    fail_insight_refresh, refresh_is_active, PublicEvent, RepositoryContributor,
    RepositoryContributorInsights, RepositoryContributorsSnapshot, ACTIVITY_WINDOW_MICROS,
};

const MINUTE: i64 = 60_000_000;
const HOUR: i64 = 60 * MINUTE;
const DAY: i64 = 24 * HOUR;

fn now() -> i64 {
    chrono::Utc::now().timestamp_micros()
}

fn at(text: &str) -> i64 {
    chrono::DateTime::parse_from_rfc3339(text)
        .expect("valid observation time")
        .timestamp_micros()
}

fn push(id: i64, name: &str, size: u64, created_at: Option<i64>) -> PublicEvent {
    PublicEvent {
        kind: "PushEvent".to_string(),
        repository_id: id,
        repository_name: name.to_string(),
        size,
        created_at,
    }
}

#[test]
fn stale_insight_data_remains_available_while_refreshing() {
    let now = now();
    let mut insights = RepositoryContributorInsights {
        full_name: "acme/tool".to_string(),
        contributors: vec![RepositoryContributor {
            github_id: 1,
            login: "alice".to_string(),
            avatar_url: None,
            url: "https://github.com/alice".to_string(),
            contributions: 42,
        }],
        source_complete: true,
        cache: CacheMetadata {
            last_fetched_at: Some(now - 2 * DAY),
            stale_at: Some(now - DAY),
            refresh_started_at: None,
            last_refresh_error: None,
        },
    };

    assert_eq!(insights.cache_status(now), CacheStatus::Stale);
    insights.cache.refresh_started_at = Some(now);
    assert_eq!(insights.cache_status(now), CacheStatus::Refreshing);
    assert_eq!(insights.contributors[0].contributions, 42);
}

#[test]
fn abandoned_refresh_is_treated_as_stale() {
    let now = now();
    let insights = RepositoryContributorInsights {
        full_name: "acme/tool".to_string(),
        contributors: Vec::new(),
        source_complete: true,
        cache: CacheMetadata {
            last_fetched_at: Some(now - 2 * DAY),
            stale_at: Some(now - DAY),
            refresh_started_at: Some(now - 6 * MINUTE),
            last_refresh_error: None,
        },
    };

    assert_eq!(insights.cache_status(now), CacheStatus::Stale);
}

#[test]
fn public_push_events_are_aggregated_by_repository_and_commit_count() {
    let observed_at = at("2026-07-01T12:00:00Z");
    let snapshot = aggregate_user_commit_events(
        vec![
            push(10, "acme/tool", 2, Some(observed_at - 2 * HOUR)),
            PublicEvent {
                kind: "WatchEvent".to_string(),
                repository_id: 11,
                repository_name: "acme/ignored".to_string(),
                size: 0,
                created_at: Some(observed_at),
            },
            push(10, "acme/tool", 3, Some(observed_at)),
        ],
        true,
        observed_at,
    );

    assert_eq!(snapshot.source_event_count, 3);
    assert!(!snapshot.source_truncated);
    assert_eq!(snapshot.repositories.len(), 1);
    assert_eq!(snapshot.repositories[0].push_count, 2);
    assert_eq!(snapshot.repositories[0].commit_count, 5);
    assert_eq!(snapshot.repositories[0].last_pushed_at, observed_at);
}

#[test]
fn public_push_events_are_limited_to_the_rolling_activity_window() {
    let observed_at = at("2026-07-01T12:00:00Z");
    let cutoff = observed_at - 30 * DAY;
    let snapshot = aggregate_user_commit_events(
        vec![
            push(10, "acme/at-cutoff", 2, Some(cutoff)),
            push(11, "acme/before-cutoff", 20, Some(cutoff - 1_000_000)),
            push(12, "acme/at-observation", 3, Some(observed_at)),
            push(13, "acme/future", 30, Some(observed_at + 1_000_000)),
        ],
        true,
        observed_at,
    );

    assert_eq!(snapshot.source_event_count, 4);
    assert!(!snapshot.source_truncated);
    assert_eq!(snapshot.repositories.len(), 2);
    assert_eq!(snapshot.repositories[0].full_name, "acme/at-observation");
    assert_eq!(snapshot.repositories[1].full_name, "acme/at-cutoff");
}

#[test]
fn activity_ties_break_by_pushes_then_recency_then_name() {
    let observed_at = at("2026-07-01T12:00:00Z");
    let snapshot = aggregate_user_commit_events(
        vec![
            push(1, "b/two-pushes", 1, Some(observed_at - HOUR)),
            push(1, "b/two-pushes", 1, Some(observed_at - 2 * HOUR)),
            push(2, "a/one-push", 2, Some(observed_at - 3 * HOUR)),
            push(3, "c/recent", 2, Some(observed_at)),
            push(4, "d/same", 2, Some(observed_at)),
        ],
        false,
        observed_at,
    );
    let names: Vec<&str> = snapshot
        .repositories
        .iter()
        .map(|r| r.full_name.as_str())
        .collect();
    assert_eq!(names, vec!["b/two-pushes", "c/recent", "d/same", "a/one-push"]);
    assert!(snapshot.source_truncated);
    assert_eq!(snapshot.repositories[0].url, "https://github.com/b/two-pushes");
    assert_eq!(ACTIVITY_WINDOW_MICROS, 30 * DAY);
}

#[test]
fn a_failed_refresh_waits_for_its_retry_time() {
    let now = now();
    let mut metadata = CacheMetadata {
        last_fetched_at: Some(now - DAY),
        stale_at: Some(now - HOUR),
        refresh_started_at: None,
        last_refresh_error: None,
    };
    assert!(begin_insight_refresh(&mut metadata, now));
    assert_eq!(metadata.refresh_started_at, Some(now));
    assert!(refresh_is_active(&metadata, now));
    assert!(!begin_insight_refresh(&mut metadata, now + MINUTE));

    fail_insight_refresh(&mut metadata, "boom", now);
    assert_eq!(metadata.refresh_started_at, None);
    assert_eq!(metadata.last_refresh_error.as_deref(), Some("boom"));
    assert_eq!(metadata.stale_at, Some(now + 5 * MINUTE));
    assert!(!begin_insight_refresh(&mut metadata, now + MINUTE));
    assert!(begin_insight_refresh(&mut metadata, now + 5 * MINUTE));
    assert_eq!(metadata.last_refresh_error, None);
}

#[test]
fn stored_cache_metadata_reports_its_refresh_job() {
    let now = now();
    let running = CacheMetadata {
        last_fetched_at: Some(now - DAY),
        stale_at: None,
        refresh_started_at: Some(now - HOUR),
        last_refresh_error: None,
    };
    assert_eq!(
        cache_status_from_metadata(running, now),
        (CacheStatus::Refreshing, Some(now - DAY), Some(RefreshJobStatus::Running))
    );
    let fresh = CacheMetadata {
        last_fetched_at: Some(now),
        stale_at: None,
        refresh_started_at: None,
        last_refresh_error: None,
    };
    assert_eq!(cache_status_from_metadata(fresh, now), (CacheStatus::Fresh, Some(now), None));
    let failed = CacheMetadata {
        last_fetched_at: Some(now),
        stale_at: None,
        refresh_started_at: None,
        last_refresh_error: Some("x".to_string()),
    };
    assert_eq!(
        cache_status_from_metadata(failed, now).2,
        Some(RefreshJobStatus::Failed)
    );
}

#[test]
fn snapshots_become_insights_that_stay_fresh_for_a_day() {
    let now = now();
    let insights = RepositoryContributorInsights::from_snapshot(
        "acme/tool".to_string(),
        RepositoryContributorsSnapshot {
            contributors: Vec::new(),
            source_complete: false,
        },
        now,
    );
    assert_eq!(insights.cache.stale_at, Some(now + DAY));
    assert_eq!(insights.cache_status(now + DAY - 1), CacheStatus::Fresh);
    assert_eq!(insights.cache_status(now + DAY), CacheStatus::Stale);
    let limited = insights.limited(0);
    assert!(limited.contributors.is_empty());
}
