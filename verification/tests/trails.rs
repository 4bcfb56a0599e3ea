use gitexplore::activity::{StoredExplorationActivity, StoredRecentPerson};
use gitexplore::discovery::{ExplorationDirection, MAX_HIDDEN_RECENT_PEOPLE, MAX_RECENT_PEOPLE};
use gitexplore::error::AppError;
use gitexplore::graph::{GitHubUserNode, GraphImport};
use gitexplore::imports::{import_summary, upsert_import};
use gitexplore::store::SharedGraphStore;
use gitexplore::trails::{
    canonicalize_stored_trail, exploration_activity_from_store, record_person_visit,
    resolve_local_exploration_trail, set_recent_person_visible,
};

fn user(id: i64, login: &str) -> GitHubUserNode {
    GitHubUserNode {
        github_id: id,
        login: login.to_string(),
        url: format!("https://github.com/{login}"),
        ..Default::default()
    }
}

fn import(store: &mut SharedGraphStore, graph: GraphImport) {
    upsert_import(store, graph, 0, 21_600_000_000);
}

fn trail(logins: &[&str]) -> Vec<String> {
    logins.iter().map(|l| l.to_string()).collect()
}

fn message<T>(r: Result<T, AppError>) -> String {
    match r {
        Err(AppError::Validation(m)) => m,
        _ => panic!("expected a validation error"),
    }
}

fn visit(
    store: &SharedGraphStore,
    activity: &mut StoredExplorationActivity,
    login: &str,
    path: &[&str],
    direction: ExplorationDirection,
    now: i64,
) -> Result<(), AppError> {
    record_person_visit(store, activity, login, &trail(path), direction, now)
}

#[test]
fn local_exploration_activity_keeps_routes_visibility_and_monotonic_rank_private() {
    let mut store = SharedGraphStore::default();
    import(
        &mut store,
        GraphImport {
            viewer: Some(user(1, "alice")),
            followers: vec![user(2, "bob"), user(3, "carol")],
            ..Default::default()
        },
    );
    import(
        &mut store,
        GraphImport {
            viewer: Some(user(2, "bob")),
            following: vec![user(1, "alice"), user(3, "carol")],
            ..Default::default()
        },
    );
    let mut activity = StoredExplorationActivity::default();
    visit(&store, &mut activity, "bob", &["alice", "bob"], ExplorationDirection::Followers, 1)
        .expect("record bob");
    visit(&store, &mut activity, "carol", &["alice", "bob", "carol"], ExplorationDirection::Following, 2)
        .expect("record carol");
    let shown = exploration_activity_from_store(&store, Some(&activity), MAX_RECENT_PEOPLE);
    assert_eq!(shown.max_trail_depth, 2);
    assert_eq!(shown.recent_people[0].profile.login, "carol");
    assert_eq!(shown.recent_people[0].trail.len(), 3);

    visit(&store, &mut activity, "BOB", &["bob"], ExplorationDirection::Followers, 3)
        .expect("move bob to the front");
    let shown = exploration_activity_from_store(&store, Some(&activity), MAX_RECENT_PEOPLE);
    assert_eq!(shown.recent_people[0].profile.github_id, 2);
    assert_eq!(shown.recent_people[0].visit_count, 2);
    assert_eq!(shown.max_trail_depth, 2, "shallower visits never demote rank");

    set_recent_person_visible(&store, &mut activity, "bob", false, 4).expect("hide bob");
    let shown = exploration_activity_from_store(&store, Some(&activity), MAX_RECENT_PEOPLE);
    assert!(!shown.recent_people[0].visible);
    assert_eq!(shown.max_trail_depth, 2);

    visit(&store, &mut activity, "bob", &["alice", "bob"], ExplorationDirection::Followers, 5)
        .expect("revisit hidden bob");
    let shown = exploration_activity_from_store(&store, Some(&activity), MAX_RECENT_PEOPLE);
    assert!(!shown.recent_people[0].visible, "automatic recording must preserve an explicit removal");
    set_recent_person_visible(&store, &mut activity, "bob", true, 6).expect("restore bob");
    let shown = exploration_activity_from_store(&store, Some(&activity), MAX_RECENT_PEOPLE);
    assert!(shown.recent_people[0].visible);

    import(&mut store, GraphImport { viewer: Some(user(2, "robert")), ..Default::default() });
    let renamed = exploration_activity_from_store(&store, Some(&activity), MAX_RECENT_PEOPLE);
    assert_eq!(renamed.recent_people[0].profile.login, "robert");
    assert_eq!(renamed.recent_people[0].trail, ["alice", "robert"]);
    let carol = renamed
        .recent_people
        .iter()
        .find(|recent| recent.profile.login == "carol")
        .expect("carol remains in recents");
    assert_eq!(carol.trail, ["alice", "robert", "carol"]);

    import(&mut store, GraphImport { viewer: Some(user(4, "dave")), ..Default::default() });
    let other_user = exploration_activity_from_store(&store, None, MAX_RECENT_PEOPLE);
    assert!(other_user.recent_people.is_empty());
    assert_eq!(other_user.max_trail_depth, 0);

    assert!(matches!(
        visit(&store, &mut activity, "unknown", &["unknown"], ExplorationDirection::Followers, 7),
        Err(AppError::NotFound(_))
    ));
    assert!(matches!(
        visit(&store, &mut activity, "robert", &["alice", "missing", "robert"], ExplorationDirection::Followers, 7),
        Err(AppError::Validation(_))
    ));
    assert!(matches!(
        visit(&store, &mut activity, "dave", &["robert", "dave"], ExplorationDirection::Followers, 7),
        Err(AppError::Validation(_))
    ));
    assert!(matches!(
        visit(&store, &mut activity, "alice", &["alice", "robert", "alice"], ExplorationDirection::Followers, 7),
        Err(AppError::Validation(_))
    ));
}

#[test]
fn legacy_recent_person_without_stable_trail_ids_remains_readable() {
    let recent = StoredRecentPerson {
        github_id: 2,
        trail_github_ids: Vec::new(),
        trail: vec!["alice".to_string(), "bob".to_string()],
        direction: ExplorationDirection::Followers,
        last_viewed_at: 0,
        visit_count: 1,
        visible: true,
    };
    assert!(recent.trail_github_ids.is_empty());
    let store = SharedGraphStore {
        users: vec![user(1, "alice"), user(2, "robert")],
        ..Default::default()
    };
    assert_eq!(
        canonicalize_stored_trail(&store, &recent, &store.users[1]),
        ["alice", "robert"]
    );
}

#[test]
fn stored_trail_ids_follow_renames_and_fall_back_to_recorded_logins() {
    let store = SharedGraphStore {
        users: vec![user(1, "alice"), user(2, "robert")],
        ..Default::default()
    };
    let recent = StoredRecentPerson {
        github_id: 2,
        trail_github_ids: vec![1, 9, 2],
        trail: vec!["alice".to_string(), "ghost".to_string(), "bob".to_string()],
        direction: ExplorationDirection::Following,
        last_viewed_at: 0,
        visit_count: 1,
        visible: true,
    };
    assert_eq!(
        canonicalize_stored_trail(&store, &recent, &store.users[1]),
        ["alice", "ghost", "robert"]
    );
}

#[test]
fn trail_errors_name_the_first_problem() {
    let mut store = SharedGraphStore::default();
    import(
        &mut store,
        GraphImport {
            viewer: Some(user(1, "alice")),
            followers: vec![user(2, "bob")],
            ..Default::default()
        },
    );
    import(&mut store, GraphImport { viewer: Some(user(3, "carol")), ..Default::default() });
    let resolved = resolve_local_exploration_trail(&store, &trail(&["ALICE", "bob"])).unwrap();
    assert_eq!(resolved.github_ids, vec![1, 2]);
    assert_eq!(resolved.logins, vec!["alice", "bob"]);

    assert_eq!(
        message(resolve_local_exploration_trail(&store, &trail(&["alice", "zed", "yan"]))),
        "exploration trail contains unknown github user `zed`"
    );
    assert_eq!(
        message(resolve_local_exploration_trail(&store, &trail(&["bob", "alice", "BOB"]))),
        "exploration trail cannot repeat a person"
    );
    assert_eq!(
        message(resolve_local_exploration_trail(&store, &trail(&["alice", "bob", "carol"]))),
        "exploration trail hop `bob` -> `carol` is not present in the shared graph"
    );
    let mut activity = StoredExplorationActivity::default();
    assert_eq!(
        message(visit(&store, &mut activity, "bob", &["bob", "alice"], ExplorationDirection::Followers, 1)),
        "exploration trail must end at the visited person"
    );
    assert!(activity.recent_people.is_empty());
    match set_recent_person_visible(&store, &mut activity, "bob", false, 1) {
        Err(AppError::NotFound(m)) => assert_eq!(m, "recent person was not recorded"),
        _ => panic!("expected not found"),
    }
}

#[test]
fn local_exploration_activity_is_bounded_to_fifty_people() {
    let mut store = SharedGraphStore::default();
    let followers = (0..=MAX_RECENT_PEOPLE)
        .map(|index| user(index as i64 + 2, &format!("person-{index}")))
        .collect();
    import(
        &mut store,
        GraphImport { viewer: Some(user(1, "root")), followers, ..Default::default() },
    );
    let mut activity = StoredExplorationActivity::default();
    for index in 0..=MAX_RECENT_PEOPLE {
        let login = format!("person-{index}");
        visit(&store, &mut activity, &login, &["root", &login], ExplorationDirection::Followers, index as i64)
            .expect("record person");
    }
    let shown = exploration_activity_from_store(&store, Some(&activity), MAX_RECENT_PEOPLE);
    assert_eq!(shown.recent_people.len(), MAX_RECENT_PEOPLE);
    assert_eq!(shown.recent_people[0].profile.login, "person-50");
    assert!(shown.recent_people.iter().all(|person| person.profile.login != "person-0"));
}

#[test]
fn hidden_recent_person_survives_visible_age_out_and_revisit() {
    let mut store = SharedGraphStore::default();
    let mut followers = vec![user(2, "hidden-person")];
    followers.extend((0..=MAX_RECENT_PEOPLE).map(|index| user(index as i64 + 3, &format!("visible-person-{index}"))));
    import(
        &mut store,
        GraphImport { viewer: Some(user(1, "root")), followers, ..Default::default() },
    );
    let mut activity = StoredExplorationActivity::default();
    visit(&store, &mut activity, "hidden-person", &["root", "hidden-person"], ExplorationDirection::Followers, 1)
        .expect("record hidden person");
    set_recent_person_visible(&store, &mut activity, "hidden-person", false, 2).expect("hide person");
    for index in 0..=MAX_RECENT_PEOPLE {
        let login = format!("visible-person-{index}");
        visit(&store, &mut activity, &login, &["root", &login], ExplorationDirection::Followers, 3)
            .expect("record visible person");
    }
    let aged = exploration_activity_from_store(&store, Some(&activity), MAX_RECENT_PEOPLE);
    assert_eq!(aged.recent_people.iter().filter(|person| person.visible).count(), MAX_RECENT_PEOPLE);
    let hidden = aged
        .recent_people
        .iter()
        .find(|person| person.profile.login == "hidden-person")
        .expect("hidden tombstone survives visible pruning");
    assert!(!hidden.visible);

    visit(&store, &mut activity, "hidden-person", &["root", "hidden-person"], ExplorationDirection::Followers, 4)
        .expect("revisit hidden person");
    let revisited = exploration_activity_from_store(&store, Some(&activity), MAX_RECENT_PEOPLE);
    assert_eq!(revisited.recent_people[0].profile.login, "hidden-person");
    assert!(!revisited.recent_people[0].visible);
    assert_eq!(revisited.recent_people[0].visit_count, 2);
    assert_eq!(revisited.recent_people.iter().filter(|person| !person.visible).count(), 1);
}

#[test]
fn hidden_recent_people_are_bounded_to_fifty_tombstones() {
    let mut store = SharedGraphStore::default();
    let hidden_people = (0..=MAX_HIDDEN_RECENT_PEOPLE)
        .map(|index| user(index as i64 + 2, &format!("hidden-{index}")))
        .collect();
    import(
        &mut store,
        GraphImport { viewer: Some(user(1, "root")), followers: hidden_people, ..Default::default() },
    );
    let mut activity = StoredExplorationActivity::default();
    for index in 0..=MAX_HIDDEN_RECENT_PEOPLE {
        let login = format!("hidden-{index}");
        visit(&store, &mut activity, &login, &["root", &login], ExplorationDirection::Followers, 1)
            .expect("record hidden person");
        set_recent_person_visible(&store, &mut activity, &login, false, 2).expect("hide recent person");
    }
    let shown = exploration_activity_from_store(&store, Some(&activity), MAX_RECENT_PEOPLE);
    assert_eq!(shown.recent_people.len(), MAX_HIDDEN_RECENT_PEOPLE);
    assert!(shown.recent_people.iter().all(|person| !person.visible));
    assert!(shown.recent_people.iter().all(|person| person.profile.login != "hidden-0"));
}

#[test]
fn import_summary_counts_each_collection() {
    let graph = GraphImport {
        viewer: Some(user(1, "root")),
        followers: vec![user(2, "a"), user(3, "b")],
        following: vec![user(4, "c")],
        ..Default::default()
    };
    let summary = import_summary(&graph, 99);
    assert_eq!(summary.followers, 2);
    assert_eq!(summary.following, 1);
    assert_eq!(summary.starred_repositories, 0);
    assert_eq!(summary.repositories, 0);
    assert_eq!(summary.synced_at, 99);
    assert_eq!(summary.coverage, graph.coverage);
}
