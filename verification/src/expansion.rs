//! The decisions of expanding one user's neighbourhood with a caller-chosen REST reserve.
//!
//! An expansion alternates outside work (joining the in-process refresh of the login,
//! loading the GitHub connection, entering the durable refresh, taking the rate budget,
//! fetching, importing, reading the neighbourhood back) with decisions. The caller performs
//! each action and reports what came of it as the next event; `expansion_step` gives the
//! next state and action. The reserve and login checks come first; a follower of a refresh
//! in flight waits for its leader and then reads; the leader of the durable refresh takes
//! the budget, at most the expansion's cost against the caller's reserve, before it fetches,
//! and marks the lease failed when budget, fetch or import fail.
use vstd::prelude::*;

use crate::discovery::UserNeighborhood;
use crate::error::{error_text, validation, AppError};
use crate::graph::{GraphImport, SyncSummary, UserRefreshOutcome};
use crate::identity::GitHubConnection;
use crate::logins::{
    normalize_github_login, normalized_login, refresh_key, refresh_key_text,
    GITHUB_CORE_REST_RESERVE,
};
use crate::text::owned;

verus! {

/// The most REST requests one expansion may spend.
pub const GITHUB_GRAPH_EXPANSION_MAX_REQUESTS: usize = 13;

/// Where an expansion stands.
#[derive(Debug)]
pub enum ExpansionPhase {
    /// Not begun.
    Start,
    /// Waiting to learn whether this call leads the in-process refresh of the login.
    Joining,
    /// Following a refresh in flight: waiting for its leader.
    Following,
    /// Leading: loading the user's GitHub connection.
    Connecting,
    /// Entering the durable refresh of the login.
    Entering,
    /// Leading the durable refresh: taking the rate budget.
    Budgeting,
    /// Fetching the user's graph from GitHub.
    Fetching,
    /// Importing the fetched graph under the given login.
    Importing { canonical_login: String },
    /// Marking the durable lease failed, before reporting the error.
    Failing { error: AppError },
    /// Reading the neighbourhood of the given login back.
    Reading { login: String },
    /// Finished.
    Done,
}

/// An expansion of `login` for the app user `user_id` that keeps `request_reserve` REST
/// requests of the window unspent.
#[derive(Debug)]
pub struct ExpansionState {
    pub user_id: String,
    pub login: String,
    pub request_reserve: usize,
    pub phase: ExpansionPhase,
}

/// What came of entering the durable refresh: another process completed it (with its
/// stored outcome, if one was stored and could be read), or this call leads it.
#[derive(Debug)]
pub enum DurableRole {
    Completed(Option<Result<UserRefreshOutcome, AppError>>),
    Leader,
}

/// What came of the last action.
#[derive(Debug)]
pub enum ExpansionEvent {
    Begin,
    JoinedAsFollower,
    JoinedAsLeader,
    LeaderFinished(Result<(), AppError>),
    Connection(Result<Option<GitHubConnection>, AppError>),
    Role(Result<DurableRole, AppError>),
    BudgetBegun(Result<(), AppError>),
    Fetched(Result<GraphImport, AppError>),
    Imported(Result<SyncSummary, AppError>),
    LeaseFailed,
    Neighborhood(Result<UserNeighborhood, AppError>),
}

/// What to do next.
#[derive(Debug)]
pub enum ExpansionAction {
    /// Join the in-process refresh under this key; report whether this call leads it.
    JoinRefresh(String),
    /// Wait for the leader of the refresh to finish.
    WaitForLeader,
    /// Load the app user's GitHub connection.
    LoadConnection,
    /// Enter the durable refresh under this key.
    EnterDurableRefresh(String),
    /// Take the rate budget: at most `max_requests`, keeping `reserve` unspent.
    BeginBudget { max_requests: usize, reserve: usize },
    /// Fetch this login's graph.
    Fetch(String),
    /// Import the fetched graph under the durable lease as `canonical_login`'s.
    Import { graph: GraphImport, canonical_login: String },
    /// Read this login's neighbourhood from the shared graph.
    ReadNeighborhood(String),
    /// Mark the durable lease failed with this message.
    FailLease(String),
    /// The expansion's result.
    Finish(Result<UserNeighborhood, AppError>),
}

/// The event is one the phase waits for.
pub open spec fn expects(phase: ExpansionPhase, event: ExpansionEvent) -> bool {
    match (phase, event) {
        (ExpansionPhase::Start, ExpansionEvent::Begin) => true,
        (ExpansionPhase::Joining, ExpansionEvent::JoinedAsFollower) => true,
        (ExpansionPhase::Joining, ExpansionEvent::JoinedAsLeader) => true,
        (ExpansionPhase::Following, ExpansionEvent::LeaderFinished(_)) => true,
        (ExpansionPhase::Connecting, ExpansionEvent::Connection(_)) => true,
        (ExpansionPhase::Entering, ExpansionEvent::Role(_)) => true,
        (ExpansionPhase::Budgeting, ExpansionEvent::BudgetBegun(_)) => true,
        (ExpansionPhase::Fetching, ExpansionEvent::Fetched(_)) => true,
        (ExpansionPhase::Importing { .. }, ExpansionEvent::Imported(_)) => true,
        (ExpansionPhase::Failing { .. }, ExpansionEvent::LeaseFailed) => true,
        (ExpansionPhase::Reading { .. }, ExpansionEvent::Neighborhood(_)) => true,
        _ => false,
    }
}

/// The expansion finishes with this error.
pub open spec fn finishes_with(n: ExpansionState, a: ExpansionAction, e: AppError) -> bool {
    &&& n.phase is Done
    &&& a == ExpansionAction::Finish(Err(e))
}

/// The expansion finishes with a validation error carrying this message.
pub open spec fn refused(n: ExpansionState, a: ExpansionAction, message: Seq<char>) -> bool {
    &&& n.phase is Done
    &&& a matches ExpansionAction::Finish(Err(AppError::Validation(m)))
    &&& m@ == message
}

/// The lease is marked failed with the error's text, and the error is kept to report.
pub open spec fn fails_lease(n: ExpansionState, a: ExpansionAction, e: AppError) -> bool {
    &&& n.phase == ExpansionPhase::Failing { error: e }
    &&& a matches ExpansionAction::FailLease(m)
    &&& m@ == error_text(e)
}

/// The neighbourhood of a login with this text is read next.
pub open spec fn reads(n: ExpansionState, a: ExpansionAction, login: Seq<char>) -> bool {
    &&& n.phase matches ExpansionPhase::Reading { login: l }
    &&& l@ == login
    &&& a matches ExpansionAction::ReadNeighborhood(r)
    &&& r@ == login
}

/// The login the graph is imported under: the fetched viewer's, else the requested one.
pub open spec fn canonical_of(g: GraphImport, login: Seq<char>) -> Seq<char> {
    match g.viewer {
        Some(v) => v.login@,
        None => login,
    }
}

/// One step of an expansion: from the state and the event that came of the last action, the
/// next state and action.
pub open spec fn stepped(
    s: ExpansionState,
    event: ExpansionEvent,
    n: ExpansionState,
    a: ExpansionAction,
) -> bool {
    &&& n.user_id == s.user_id
    &&& n.request_reserve == s.request_reserve
    &&& match (s.phase, event) {
        (ExpansionPhase::Start, ExpansionEvent::Begin) => if s.request_reserve
            < GITHUB_CORE_REST_RESERVE {
            refused(n, a, "GitHub request reserve cannot be lower than 1000"@)
        } else if normalized_login(s.login@) is None {
            n.phase is Done && a matches ExpansionAction::Finish(Err(AppError::Validation(_)))
        } else {
            &&& n.login@ == normalized_login(s.login@)->0
            &&& n.phase is Joining
            &&& a matches ExpansionAction::JoinRefresh(k)
            &&& k@ == refresh_key_text(n.login@)
        },
        (ExpansionPhase::Joining, ExpansionEvent::JoinedAsFollower) => n.login == s.login
            && n.phase is Following && a is WaitForLeader,
        (ExpansionPhase::Joining, ExpansionEvent::JoinedAsLeader) => n.login == s.login
            && n.phase is Connecting && a is LoadConnection,
        (ExpansionPhase::Following, ExpansionEvent::LeaderFinished(Err(e))) => finishes_with(
            n,
            a,
            e,
        ),
        (ExpansionPhase::Following, ExpansionEvent::LeaderFinished(Ok(_))) => reads(n, a, s.login@),
        (ExpansionPhase::Connecting, ExpansionEvent::Connection(Err(e))) => finishes_with(n, a, e),
        (ExpansionPhase::Connecting, ExpansionEvent::Connection(Ok(None))) => refused(
            n,
            a,
            "user is not authenticated with GitHub"@,
        ),
        (ExpansionPhase::Connecting, ExpansionEvent::Connection(Ok(Some(_)))) => {
            &&& n.login == s.login
            &&& n.phase is Entering
            &&& a matches ExpansionAction::EnterDurableRefresh(k)
            &&& k@ == refresh_key_text(s.login@)
        },
        (ExpansionPhase::Entering, ExpansionEvent::Role(Err(e))) => finishes_with(n, a, e),
        (ExpansionPhase::Entering, ExpansionEvent::Role(Ok(DurableRole::Completed(None)))) => {
            &&& n.phase is Done
            &&& a matches ExpansionAction::Finish(Err(AppError::Storage(m)))
            &&& m@ == "completed user refresh is missing its durable outcome"@
        },
        (
            ExpansionPhase::Entering,
            ExpansionEvent::Role(Ok(DurableRole::Completed(Some(Err(e))))),
        ) => finishes_with(n, a, e),
        (
            ExpansionPhase::Entering,
            ExpansionEvent::Role(Ok(DurableRole::Completed(Some(Ok(o))))),
        ) => reads(n, a, o.canonical_login@),
        (ExpansionPhase::Entering, ExpansionEvent::Role(Ok(DurableRole::Leader))) => {
            &&& n.login == s.login
            &&& n.phase is Budgeting
            &&& a == ExpansionAction::BeginBudget {
                max_requests: GITHUB_GRAPH_EXPANSION_MAX_REQUESTS,
                reserve: s.request_reserve,
            }
        },
        (ExpansionPhase::Budgeting, ExpansionEvent::BudgetBegun(Err(e))) => fails_lease(n, a, e),
        (ExpansionPhase::Budgeting, ExpansionEvent::BudgetBegun(Ok(_))) => {
            &&& n.login == s.login
            &&& n.phase is Fetching
            &&& a matches ExpansionAction::Fetch(l)
            &&& l@ == s.login@
        },
        (ExpansionPhase::Fetching, ExpansionEvent::Fetched(Err(e))) => fails_lease(n, a, e),
        (ExpansionPhase::Fetching, ExpansionEvent::Fetched(Ok(g))) => {
            &&& n.phase matches ExpansionPhase::Importing { canonical_login: c }
            &&& c@ == canonical_of(g, s.login@)
            &&& a matches ExpansionAction::Import { graph, canonical_login }
            &&& graph == g
            &&& canonical_login@ == canonical_of(g, s.login@)
        },
        (ExpansionPhase::Importing { canonical_login }, ExpansionEvent::Imported(Err(e))) => fails_lease(
            n,
            a,
            e,
        ),
        (ExpansionPhase::Importing { canonical_login }, ExpansionEvent::Imported(Ok(_))) => reads(
            n,
            a,
            canonical_login@,
        ),
        (ExpansionPhase::Failing { error }, ExpansionEvent::LeaseFailed) => finishes_with(
            n,
            a,
            error,
        ),
        (ExpansionPhase::Reading { .. }, ExpansionEvent::Neighborhood(result)) => n.phase is Done
            && a == ExpansionAction::Finish(result),
        _ => false,
    }
}

impl ExpansionState {
    /// An expansion not yet begun.
    pub fn new(user_id: String, login: String, request_reserve: usize) -> (r: Self)
        ensures
            r.user_id == user_id,
            r.login == login,
            r.request_reserve == request_reserve,
            r.phase is Start,
    {
        ExpansionState { user_id, login, request_reserve, phase: ExpansionPhase::Start }
    }
}

fn finished(user_id: String, login: String, request_reserve: usize, action: ExpansionAction) -> (r: (
    ExpansionState,
    ExpansionAction,
))
    ensures
        r.0.user_id == user_id,
        r.0.request_reserve == request_reserve,
        r.0.phase is Done,
        r.1 == action,
{
    (ExpansionState { user_id, login, request_reserve, phase: ExpansionPhase::Done }, action)
}

fn lease_failure(
    user_id: String,
    login: String,
    request_reserve: usize,
    error: AppError,
) -> (r: (ExpansionState, ExpansionAction))
    ensures
        r.0.user_id == user_id,
        r.0.request_reserve == request_reserve,
        fails_lease(r.0, r.1, error),
{
    let message = error.message();
    (
        ExpansionState {
            user_id,
            login,
            request_reserve,
            phase: ExpansionPhase::Failing { error },
        },
        ExpansionAction::FailLease(message),
    )
}

/// Takes one step of an expansion.
pub fn expansion_step(state: ExpansionState, event: ExpansionEvent) -> (r: (
    ExpansionState,
    ExpansionAction,
))
    requires
        expects(state.phase, event),
    ensures
        stepped(state, event, r.0, r.1),
{
    let ExpansionState { user_id, login, request_reserve, phase } = state;
    match (phase, event) {
        (ExpansionPhase::Start, ExpansionEvent::Begin) => {
            proof {
                reveal_strlit("GitHub request reserve cannot be lower than 1000");
            }
            if request_reserve < GITHUB_CORE_REST_RESERVE {
                let e = validation("GitHub request reserve cannot be lower than 1000");
                return finished(user_id, login, request_reserve, ExpansionAction::Finish(Err(e)));
            }
            match normalize_github_login(login.as_str()) {
                Err(e) => finished(user_id, login, request_reserve, ExpansionAction::Finish(Err(e))),
                Ok(normalized) => {
                    let key = refresh_key(normalized.as_str());
                    (
                        ExpansionState {
                            user_id,
                            login: normalized,
                            request_reserve,
                            phase: ExpansionPhase::Joining,
                        },
                        ExpansionAction::JoinRefresh(key),
                    )
                },
            }
        },
        (ExpansionPhase::Joining, ExpansionEvent::JoinedAsFollower) => (
            ExpansionState { user_id, login, request_reserve, phase: ExpansionPhase::Following },
            ExpansionAction::WaitForLeader,
        ),
        (ExpansionPhase::Joining, ExpansionEvent::JoinedAsLeader) => (
            ExpansionState { user_id, login, request_reserve, phase: ExpansionPhase::Connecting },
            ExpansionAction::LoadConnection,
        ),
        (ExpansionPhase::Following, ExpansionEvent::LeaderFinished(result)) => match result {
            Err(e) => finished(user_id, login, request_reserve, ExpansionAction::Finish(Err(e))),
            Ok(()) => {
                let next = login.clone();
                let action = ExpansionAction::ReadNeighborhood(login.clone());
                (
                    ExpansionState {
                        user_id,
                        login,
                        request_reserve,
                        phase: ExpansionPhase::Reading { login: next },
                    },
                    action,
                )
            },
        },
        (ExpansionPhase::Connecting, ExpansionEvent::Connection(result)) => match result {
            Err(e) => finished(user_id, login, request_reserve, ExpansionAction::Finish(Err(e))),
            Ok(None) => {
                proof {
                    reveal_strlit("user is not authenticated with GitHub");
                }
                let e = validation("user is not authenticated with GitHub");
                finished(user_id, login, request_reserve, ExpansionAction::Finish(Err(e)))
            },
            Ok(Some(_)) => {
                let key = refresh_key(login.as_str());
                (
                    ExpansionState { user_id, login, request_reserve, phase: ExpansionPhase::Entering },
                    ExpansionAction::EnterDurableRefresh(key),
                )
            },
        },
        (ExpansionPhase::Entering, ExpansionEvent::Role(result)) => match result {
            Err(e) => finished(user_id, login, request_reserve, ExpansionAction::Finish(Err(e))),
            Ok(DurableRole::Completed(None)) => {
                let e = AppError::Storage(
                    owned("completed user refresh is missing its durable outcome"),
                );
                proof {
                    reveal_strlit("completed user refresh is missing its durable outcome");
                }
                finished(user_id, login, request_reserve, ExpansionAction::Finish(Err(e)))
            },
            Ok(DurableRole::Completed(Some(Err(e)))) => finished(
                user_id,
                login,
                request_reserve,
                ExpansionAction::Finish(Err(e)),
            ),
            Ok(DurableRole::Completed(Some(Ok(outcome)))) => {
                let canonical = outcome.canonical_login;
                let action = ExpansionAction::ReadNeighborhood(canonical.clone());
                (
                    ExpansionState {
                        user_id,
                        login,
                        request_reserve,
                        phase: ExpansionPhase::Reading { login: canonical },
                    },
                    action,
                )
            },
            Ok(DurableRole::Leader) => (
                ExpansionState { user_id, login, request_reserve, phase: ExpansionPhase::Budgeting },
                ExpansionAction::BeginBudget {
                    max_requests: GITHUB_GRAPH_EXPANSION_MAX_REQUESTS,
                    reserve: request_reserve,
                },
            ),
        },
        (ExpansionPhase::Budgeting, ExpansionEvent::BudgetBegun(result)) => match result {
            Err(e) => lease_failure(user_id, login, request_reserve, e),
            Ok(()) => {
                let fetch = login.clone();
                (
                    ExpansionState { user_id, login, request_reserve, phase: ExpansionPhase::Fetching },
                    ExpansionAction::Fetch(fetch),
                )
            },
        },
        (ExpansionPhase::Fetching, ExpansionEvent::Fetched(result)) => match result {
            Err(e) => lease_failure(user_id, login, request_reserve, e),
            Ok(graph) => {
                let canonical = match &graph.viewer {
                    Some(viewer) => viewer.login.clone(),
                    None => login.clone(),
                };
                let kept = canonical.clone();
                (
                    ExpansionState {
                        user_id,
                        login,
                        request_reserve,
                        phase: ExpansionPhase::Importing { canonical_login: kept },
                    },
                    ExpansionAction::Import { graph, canonical_login: canonical },
                )
            },
        },
        (ExpansionPhase::Importing { canonical_login }, ExpansionEvent::Imported(result)) => match result {
            Err(e) => lease_failure(user_id, login, request_reserve, e),
            Ok(_) => {
                let action = ExpansionAction::ReadNeighborhood(canonical_login.clone());
                (
                    ExpansionState {
                        user_id,
                        login,
                        request_reserve,
                        phase: ExpansionPhase::Reading { login: canonical_login },
                    },
                    action,
                )
            },
        },
        (ExpansionPhase::Failing { error }, ExpansionEvent::LeaseFailed) => finished(
            user_id,
            login,
            request_reserve,
            ExpansionAction::Finish(Err(error)),
        ),
        (ExpansionPhase::Reading { .. }, ExpansionEvent::Neighborhood(result)) => finished(
            user_id,
            login,
            request_reserve,
            ExpansionAction::Finish(result),
        ),
        _ => {
            proof {
                assert(false);
            }
            finished(user_id, login, request_reserve, ExpansionAction::LoadConnection)
        },
    }
}

/// The REST reserve is preflighted before each fetch: an expansion step asks to fetch only
/// when the rate budget was just taken, under the caller's reserve, by the leader of the
/// durable refresh.
pub proof fn law_fetch_only_after_budget(
    s: ExpansionState,
    e: ExpansionEvent,
    n: ExpansionState,
    a: ExpansionAction,
)
    requires
        stepped(s, e, n, a),
        a is Fetch,
    ensures
        s.phase is Budgeting,
        e matches ExpansionEvent::BudgetBegun(Ok(_)),
{
}

/// The reserve and the login are checked before anything else: from the start, a step that
/// does anything but refuse has a reserve of at least 1000 and a valid login.
pub proof fn law_reserve_and_login_checked_first(
    s: ExpansionState,
    e: ExpansionEvent,
    n: ExpansionState,
    a: ExpansionAction,
)
    requires
        s.phase is Start,
        stepped(s, e, n, a),
        !(a matches ExpansionAction::Finish(Err(AppError::Validation(_)))),
    ensures
        s.request_reserve >= GITHUB_CORE_REST_RESERVE,
        normalized_login(s.login@) is Some,
        a is JoinRefresh,
{
}

/// Every budget taken keeps exactly the caller's reserve, and the expansion's cost is its
/// maximum.
pub proof fn law_budget_keeps_the_callers_reserve(
    s: ExpansionState,
    e: ExpansionEvent,
    n: ExpansionState,
    a: ExpansionAction,
)
    requires
        stepped(s, e, n, a),
        a is BeginBudget,
    ensures
        a == (ExpansionAction::BeginBudget {
            max_requests: GITHUB_GRAPH_EXPANSION_MAX_REQUESTS,
            reserve: s.request_reserve,
        }),
{
}

} // verus!
