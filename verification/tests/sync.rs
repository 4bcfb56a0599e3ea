use gitexplore::error::AppError;
use gitexplore::graph::{GitHubUserNode, GraphImport, GraphImportCoverage, SyncState, SyncSummary};
use gitexplore::sync::{import_login, sync_finished, sync_in_progress};

#[test]
fn a_running_sync_has_no_result_yet() {
    let status = sync_in_progress();
    assert_eq!(status.state, SyncState::SyncInProgress);
    assert_eq!(status.last_synced_at, None);
    assert_eq!(status.last_error, None);
}

#[test]
fn a_finished_sync_records_its_time_or_its_error() {
    let summary = SyncSummary {
        followers: 1,
        following: 2,
        starred_repositories: 3,
        repositories: 4,
        synced_at: 99,
        coverage: GraphImportCoverage::default(),
    };
    let ok = sync_finished(&Ok(summary));
    assert_eq!(ok.state, SyncState::SyncSucceeded);
    assert_eq!(ok.last_synced_at, Some(99));
    assert_eq!(ok.last_error, None);
    let failed = sync_finished(&Err(AppError::External("github is down".to_string())));
    assert_eq!(failed.state, SyncState::SyncFailed);
    assert_eq!(failed.last_synced_at, None);
    assert_eq!(failed.last_error.as_deref(), Some("external service error: github is down"));
}

#[test]
fn an_import_is_filed_under_the_viewer_login() {
    let mut import = GraphImport::default();
    assert_eq!(import_login(&import, "asked"), "asked");
    import.viewer = Some(GitHubUserNode { login: "Renamed".to_string(), ..Default::default() });
    assert_eq!(import_login(&import, "asked"), "Renamed");
}
