use gitexplore::error::AppError;
use gitexplore::expansion::{
    expansion_step, DurableRole, ExpansionAction, ExpansionEvent, ExpansionPhase, ExpansionState,
    GITHUB_GRAPH_EXPANSION_MAX_REQUESTS,
};
use gitexplore::graph::{GitHubUserNode, GraphImport, GraphImportCoverage, SyncSummary, UserRefreshOutcome};
use gitexplore::identity::{ConnectedAccount, GitHubConnection};

fn step(state: ExpansionState, event: ExpansionEvent) -> (ExpansionState, ExpansionAction) {
    expansion_step(state, event)
}

fn summary() -> SyncSummary {
    SyncSummary {
        followers: 0,
        following: 0,
        starred_repositories: 0,
        repositories: 0,
        synced_at: 0,
        coverage: GraphImportCoverage::default(),
    }
}

fn connection() -> GitHubConnection {
    GitHubConnection {
        account: ConnectedAccount { github_user_id: 1, login: "me".to_string(), display_name: None },
        access_token: "token".to_string(),
        scopes: Vec::new(),
    }
}

fn leader_until_budget(reserve: usize) -> ExpansionState {
    let (s, a) = step(ExpansionState::new("u".to_string(), "  Octo-Cat ".to_string(), reserve), ExpansionEvent::Begin);
    match a {
        ExpansionAction::JoinRefresh(key) => assert_eq!(key, "github-user:octo-cat"),
        other => panic!("unexpected {other:?}"),
    }
    assert_eq!(s.login, "octo-cat");
    let (s, a) = step(s, ExpansionEvent::JoinedAsLeader);
    assert!(matches!(a, ExpansionAction::LoadConnection));
    let (s, a) = step(s, ExpansionEvent::Connection(Ok(Some(connection()))));
    match a {
        ExpansionAction::EnterDurableRefresh(key) => assert_eq!(key, "github-user:octo-cat"),
        other => panic!("unexpected {other:?}"),
    }
    let (s, a) = step(s, ExpansionEvent::Role(Ok(DurableRole::Leader)));
    match a {
        ExpansionAction::BeginBudget { max_requests, reserve: r } => {
            assert_eq!(max_requests, GITHUB_GRAPH_EXPANSION_MAX_REQUESTS);
            assert_eq!(r, reserve);
        }
        other => panic!("unexpected {other:?}"),
    }
    s
}

fn validation_of(action: ExpansionAction) -> String {
    match action {
        ExpansionAction::Finish(Err(AppError::Validation(m))) => m,
        other => panic!("unexpected {other:?}"),
    }
}

#[test]
fn the_reserve_and_login_are_checked_before_anything_else() {
    let (s, a) = step(ExpansionState::new("u".to_string(), "octocat".to_string(), 999), ExpansionEvent::Begin);
    assert_eq!(validation_of(a), "GitHub request reserve cannot be lower than 1000");
    assert!(matches!(s.phase, ExpansionPhase::Done));
    let (_, a) = step(ExpansionState::new("u".to_string(), "-bad-".to_string(), 1000), ExpansionEvent::Begin);
    validation_of(a);
}

#[test]
fn a_follower_waits_then_reads_the_neighbourhood() {
    let (s, _) = step(ExpansionState::new("u".to_string(), "Octocat".to_string(), 1000), ExpansionEvent::Begin);
    let (s, a) = step(s, ExpansionEvent::JoinedAsFollower);
    assert!(matches!(a, ExpansionAction::WaitForLeader));
    let (_, a) = step(s, ExpansionEvent::LeaderFinished(Ok(())));
    match a {
        ExpansionAction::ReadNeighborhood(login) => assert_eq!(login, "octocat"),
        other => panic!("unexpected {other:?}"),
    }
}

#[test]
fn a_user_without_a_connection_is_refused() {
    let (s, _) = step(ExpansionState::new("u".to_string(), "octocat".to_string(), 1000), ExpansionEvent::Begin);
    let (s, _) = step(s, ExpansionEvent::JoinedAsLeader);
    let (_, a) = step(s, ExpansionEvent::Connection(Ok(None)));
    assert_eq!(validation_of(a), "user is not authenticated with GitHub");
}

#[test]
fn a_completed_refresh_reads_its_outcome_or_reports_a_missing_one() {
    let (s, _) = step(ExpansionState::new("u".to_string(), "octocat".to_string(), 1000), ExpansionEvent::Begin);
    let (s, _) = step(s, ExpansionEvent::JoinedAsLeader);
    let (s, _) = step(s, ExpansionEvent::Connection(Ok(Some(connection()))));
    let (_, a) = step(s, ExpansionEvent::Role(Ok(DurableRole::Completed(None))));
    match a {
        ExpansionAction::Finish(Err(AppError::Storage(m))) => {
            assert_eq!(m, "completed user refresh is missing its durable outcome")
        }
        other => panic!("unexpected {other:?}"),
    }
    let (s, _) = step(ExpansionState::new("u".to_string(), "octocat".to_string(), 1000), ExpansionEvent::Begin);
    let (s, _) = step(s, ExpansionEvent::JoinedAsLeader);
    let (s, _) = step(s, ExpansionEvent::Connection(Ok(Some(connection()))));
    let outcome = UserRefreshOutcome { canonical_login: "the-octocat".to_string(), summary: summary() };
    let (_, a) = step(s, ExpansionEvent::Role(Ok(DurableRole::Completed(Some(Ok(outcome))))));
    match a {
        ExpansionAction::ReadNeighborhood(login) => assert_eq!(login, "the-octocat"),
        other => panic!("unexpected {other:?}"),
    }
}

#[test]
fn the_leader_fetches_after_the_budget_and_imports_under_the_viewer_login() {
    let s = leader_until_budget(1500);
    let (s, a) = step(s, ExpansionEvent::BudgetBegun(Ok(())));
    match a {
        ExpansionAction::Fetch(login) => assert_eq!(login, "octo-cat"),
        other => panic!("unexpected {other:?}"),
    }
    let viewer = GitHubUserNode { login: "Octo-Cat".to_string(), ..GitHubUserNode::default() };
    let graph = GraphImport { viewer: Some(viewer), ..GraphImport::default() };
    let (s, a) = step(s, ExpansionEvent::Fetched(Ok(graph.clone())));
    match a {
        ExpansionAction::Import { graph: g, canonical_login } => {
            assert_eq!(g, graph);
            assert_eq!(canonical_login, "Octo-Cat");
        }
        other => panic!("unexpected {other:?}"),
    }
    let (_, a) = step(s, ExpansionEvent::Imported(Ok(summary())));
    match a {
        ExpansionAction::ReadNeighborhood(login) => assert_eq!(login, "Octo-Cat"),
        other => panic!("unexpected {other:?}"),
    }
    let s = leader_until_budget(1000);
    let (s, _) = step(s, ExpansionEvent::BudgetBegun(Ok(())));
    let (_, a) = step(s, ExpansionEvent::Fetched(Ok(GraphImport::default())));
    match a {
        ExpansionAction::Import { canonical_login, .. } => assert_eq!(canonical_login, "octo-cat"),
        other => panic!("unexpected {other:?}"),
    }
}

#[test]
fn failures_under_the_lease_mark_it_failed_before_finishing() {
    let s = leader_until_budget(1000);
    let (s, a) = step(s, ExpansionEvent::BudgetBegun(Err(AppError::External("down".to_string()))));
    match a {
        ExpansionAction::FailLease(message) => assert_eq!(message, "external service error: down"),
        other => panic!("unexpected {other:?}"),
    }
    let (s, a) = step(s, ExpansionEvent::LeaseFailed);
    assert!(matches!(a, ExpansionAction::Finish(Err(AppError::External(ref m))) if m == "down"));
    assert!(matches!(s.phase, ExpansionPhase::Done));
    let s = leader_until_budget(1000);
    let (s, _) = step(s, ExpansionEvent::BudgetBegun(Ok(())));
    let (s, a) = step(s, ExpansionEvent::Fetched(Err(AppError::Io("x".to_string()))));
    assert!(matches!(a, ExpansionAction::FailLease(_)));
    let (_, a) = step(s, ExpansionEvent::LeaseFailed);
    assert!(matches!(a, ExpansionAction::Finish(Err(AppError::Io(_)))));
}
