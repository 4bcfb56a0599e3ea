//! The checks the command line makes before running a command.
use vstd::prelude::*;

use crate::config::GraphBackend;
use crate::error::{validation, AppError};
use crate::text::owned;

verus! {

/// Schema commands manage the Neo4j schema and need that backend.
pub fn ensure_schema_backend(backend: GraphBackend) -> (r: Result<(), AppError>)
    ensures
        r is Ok <==> backend is Neo4j,
        r is Err ==> r->Err_0 is Config && r->Err_0->Config_0@
            == "schema commands require GITEXPLORE_GRAPH_BACKEND=neo4j"@,
{
    match backend {
        GraphBackend::Neo4j => Ok(()),
        _ => Err(AppError::Config(owned("schema commands require GITEXPLORE_GRAPH_BACKEND=neo4j"))),
    }
}

/// Moving file identities into Neo4j needs an explicit confirmation, the Neo4j backend and
/// the identity encryption key, checked in that order; gives the key.
pub fn identity_migration_key(
    confirm: bool,
    backend: GraphBackend,
    key: &Option<String>,
) -> (r: Result<String, AppError>)
    ensures
        !confirm ==> r is Err && r->Err_0 is Validation && r->Err_0->Validation_0@
            == "identity migration requires --confirm"@,
        confirm && !(backend is Neo4j) ==> r is Err && r->Err_0 is Config && r->Err_0->Config_0@
            == "identity migration requires GITEXPLORE_GRAPH_BACKEND=neo4j"@,
        confirm && backend is Neo4j && key is None ==> r is Err && r->Err_0 is Config
            && r->Err_0->Config_0@ == "identity migration requires GITEXPLORE_IDENTITY_ENCRYPTION_KEY"@,
        confirm && backend is Neo4j && key is Some ==> r is Ok && r->Ok_0@ == key->0@,
{
    if !confirm {
        return Err(validation("identity migration requires --confirm"));
    }
    match backend {
        GraphBackend::Neo4j => {},
        _ => {
            return Err(
                AppError::Config(owned("identity migration requires GITEXPLORE_GRAPH_BACKEND=neo4j")),
            );
        },
    }
    match key {
        Some(k) => Ok(k.clone()),
        None => Err(
            AppError::Config(owned("identity migration requires GITEXPLORE_IDENTITY_ENCRYPTION_KEY")),
        ),
    }
}

} // verus!
