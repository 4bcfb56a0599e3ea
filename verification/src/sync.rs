//! The synchronisation status an app user sees while their graph is synchronised, and the
//! login an import is filed under.
use vstd::prelude::*;

use crate::error::{error_text, AppError};
use crate::graph::{GraphImport, SyncState, SyncStatus, SyncSummary};
use crate::text::owned;

verus! {

/// The status while a synchronisation runs.
pub fn sync_in_progress() -> (r: SyncStatus)
    ensures
        r.state is SyncInProgress,
        r.last_synced_at is None,
        r.last_error is None,
{
    SyncStatus { state: SyncState::SyncInProgress, last_synced_at: None, last_error: None }
}

/// The status once a synchronisation finished: succeeded at the summary's time, or failed
/// with the error's message.
pub fn sync_finished(result: &Result<SyncSummary, AppError>) -> (r: SyncStatus)
    ensures
        result is Ok ==> r.state is SyncSucceeded && r.last_synced_at == Some(
            result->Ok_0.synced_at,
        ) && r.last_error is None,
        result is Err ==> r.state is SyncFailed && r.last_synced_at is None && r.last_error is Some
            && r.last_error->0@ == error_text(result->Err_0),
{
    match result {
        Ok(summary) => SyncStatus {
            state: SyncState::SyncSucceeded,
            last_synced_at: Some(summary.synced_at),
            last_error: None,
        },
        Err(error) => SyncStatus {
            state: SyncState::SyncFailed,
            last_synced_at: None,
            last_error: Some(error.message()),
        },
    }
}

/// The login an import is filed under: the viewer's as GitHub returned it, else the one
/// asked for.
pub fn import_login(import: &GraphImport, requested: &str) -> (r: String)
    ensures
        r@ == match import.viewer {
            Some(v) => v.login@,
            None => requested@,
        },
{
    match &import.viewer {
        Some(viewer) => viewer.login.clone(),
        None => owned(requested),
    }
}

} // verus!
