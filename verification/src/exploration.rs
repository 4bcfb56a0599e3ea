//! Exploration seeds and results, and how a seed is written down and read back.
use vstd::prelude::*;

use crate::error::{validation, AppError};
use crate::graph::{CacheStatus, GraphNodeRef, RefreshJobStatus};
use crate::text::{push_str, str_equal};

verus! {

#[derive(Debug, Clone)]
pub enum ExplorationSeed {
    User { login: String },
    Repository { full_name: String },
    Category { name: String },
}

#[derive(Debug, Clone)]
pub struct ExplorationSnapshot {
    pub id: String,
    pub seed: ExplorationSeed,
    pub discovered_people: Vec<String>,
    pub discovered_repositories: Vec<String>,
    pub generated_at: i64,
}

/// A saved snapshot as plain values.
pub ghost struct SnapshotView {
    pub id: Seq<char>,
    pub seed: ExplorationSeed,
    pub discovered_people: Seq<Seq<char>>,
    pub discovered_repositories: Seq<Seq<char>>,
    pub generated_at: i64,
}

impl View for ExplorationSnapshot {
    type V = SnapshotView;

    open spec fn view(&self) -> SnapshotView {
        SnapshotView {
            id: self.id@,
            seed: self.seed,
            discovered_people: self.discovered_people@.map_values(|s: String| s@),
            discovered_repositories: self.discovered_repositories@.map_values(|s: String| s@),
            generated_at: self.generated_at,
        }
    }
}

/// A user's snapshot history as plain values.
pub open spec fn snapshot_views(s: Seq<ExplorationSnapshot>) -> Seq<SnapshotView> {
    s.map_values(|x: ExplorationSnapshot| x@)
}

#[derive(Debug, Clone)]
pub struct ExplorationResult {
    pub seed: ExplorationSeed,
    pub related_people: Vec<String>,
    pub related_repositories: Vec<String>,
    pub saved_snapshot: ExplorationSnapshot,
    pub cache_status: CacheStatus,
    pub last_fetched_at: Option<i64>,
    pub refresh_job_status: Option<RefreshJobStatus>,
    pub refresh_started_at: Option<i64>,
    pub last_refresh_error: Option<String>,
}

/// The name of a seed's kind.
pub open spec fn seed_kind(seed: ExplorationSeed) -> Seq<char> {
    match seed {
        ExplorationSeed::User { .. } => "user"@,
        ExplorationSeed::Repository { .. } => "repository"@,
        ExplorationSeed::Category { .. } => "category"@,
    }
}

/// The text a seed names.
pub open spec fn seed_text(seed: ExplorationSeed) -> Seq<char> {
    match seed {
        ExplorationSeed::User { login } => login@,
        ExplorationSeed::Repository { full_name } => full_name@,
        ExplorationSeed::Category { name } => name@,
    }
}

/// The seed of a kind and a text, if the kind is one of the three.
pub open spec fn seed_of(kind: Seq<char>, value: Seq<char>) -> Option<(Seq<char>, Seq<char>)> {
    if kind == "user"@ || kind == "repository"@ || kind == "category"@ {
        Some((kind, value))
    } else {
        None
    }
}

pub fn seed_type(seed: &ExplorationSeed) -> (r: &'static str)
    ensures
        r@ == seed_kind(*seed),
{
    match seed {
        ExplorationSeed::User { .. } => "user",
        ExplorationSeed::Repository { .. } => "repository",
        ExplorationSeed::Category { .. } => "category",
    }
}

pub fn seed_value(seed: &ExplorationSeed) -> (r: String)
    ensures
        r@ == seed_text(*seed),
{
    match seed {
        ExplorationSeed::User { login } => login.clone(),
        ExplorationSeed::Repository { full_name } => full_name.clone(),
        ExplorationSeed::Category { name } => name.clone(),
    }
}

fn build_seed(kind: &str, value: &str) -> (r: Option<ExplorationSeed>)
    ensures
        seed_of(kind@, value@) is Some <==> r is Some,
        r is Some ==> seed_kind(r->0) == kind@ && seed_text(r->0) == value@,
{
    if str_equal(kind, "user") {
        Some(ExplorationSeed::User { login: value.to_owned() })
    } else if str_equal(kind, "repository") {
        Some(ExplorationSeed::Repository { full_name: value.to_owned() })
    } else if str_equal(kind, "category") {
        Some(ExplorationSeed::Category { name: value.to_owned() })
    } else {
        None
    }
}

/// Reads a stored seed back; a stored kind that is none of the three is an error of the
/// store.
pub fn parse_seed(kind: &str, value: &str) -> (r: Result<ExplorationSeed, AppError>)
    ensures
        seed_of(kind@, value@) is Some ==> r is Ok && seed_kind(r->Ok_0) == kind@ && seed_text(
            r->Ok_0,
        ) == value@,
        seed_of(kind@, value@) is None ==> r is Err && r->Err_0 is External
            && r->Err_0->External_0@ == "unknown exploration seed type `"@ + kind@
            + "` from Neo4j"@,
{
    match build_seed(kind, value) {
        Some(seed) => Ok(seed),
        None => {
            let mut message = "unknown exploration seed type `".to_owned();
            push_str(&mut message, kind);
            push_str(&mut message, "` from Neo4j");
            Err(AppError::External(message))
        },
    }
}

/// Reads the seed of an exploration request; an unknown kind is the caller's mistake.
pub fn request_seed(kind: &str, value: &str) -> (r: Result<ExplorationSeed, AppError>)
    ensures
        seed_of(kind@, value@) is Some ==> r is Ok && seed_kind(r->Ok_0) == kind@ && seed_text(
            r->Ok_0,
        ) == value@,
        seed_of(kind@, value@) is None ==> r is Err && r->Err_0 is Validation
            && r->Err_0->Validation_0@ == "seed_type must be one of user|repository|category"@,
{
    match build_seed(kind, value) {
        Some(seed) => Ok(seed),
        None => Err(validation("seed_type must be one of user|repository|category")),
    }
}

/// A seed that is written down as its kind and text reads back as the same seed.
pub proof fn law_seed_round_trip(seed: ExplorationSeed)
    ensures
        seed_of(seed_kind(seed), seed_text(seed)) == Some((seed_kind(seed), seed_text(seed))),
{
}

impl From<GraphNodeRef> for ExplorationSeed {
    fn from(value: GraphNodeRef) -> (r: Self) {
        match value {
            GraphNodeRef::User { login } => ExplorationSeed::User { login },
            GraphNodeRef::Repository { full_name } => ExplorationSeed::Repository { full_name },
        }
    }
}

impl vstd::std_specs::convert::FromSpecImpl<GraphNodeRef> for ExplorationSeed {
    open spec fn obeys_from_spec() -> bool {
        true
    }

    open spec fn from_spec(value: GraphNodeRef) -> Self {
        match value {
            GraphNodeRef::User { login } => ExplorationSeed::User { login },
            GraphNodeRef::Repository { full_name } => ExplorationSeed::Repository { full_name },
        }
    }
}

} // verus!
