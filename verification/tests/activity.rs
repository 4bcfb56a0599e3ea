use gitexplore::activity::{record_recent_visit, set_recent_visibility, StoredExplorationActivity};
use gitexplore::discovery::{ExplorationDirection, MAX_HIDDEN_RECENT_PEOPLE, MAX_RECENT_PEOPLE};
use gitexplore::error::AppError;

fn visit(activity: &mut StoredExplorationActivity, id: i64, now: i64) {
    record_recent_visit(
        activity,
        id,
        vec![1, id],
        vec!["root".to_string(), format!("person-{id}")],
        ExplorationDirection::Followers,
        now,
    );
}

#[test]
fn recent_people_are_bounded_to_fifty_and_newest_first() {
    let mut activity = StoredExplorationActivity::default();
    for id in 0..=(MAX_RECENT_PEOPLE as i64) {
        visit(&mut activity, id + 2, 100 + id);
    }
    assert_eq!(activity.recent_people.len(), MAX_RECENT_PEOPLE);
    assert_eq!(activity.recent_people[0].github_id, MAX_RECENT_PEOPLE as i64 + 2);
    assert!(activity.recent_people.iter().all(|p| p.github_id != 2));
    assert_eq!(activity.max_trail_depth, 1);
}

#[test]
fn revisits_count_and_keep_a_hidden_person_hidden() {
    let mut activity = StoredExplorationActivity::default();
    visit(&mut activity, 7, 1);
    visit(&mut activity, 8, 2);
    visit(&mut activity, 7, 3);
    assert_eq!(activity.recent_people[0].github_id, 7);
    assert_eq!(activity.recent_people[0].visit_count, 2);
    set_recent_visibility(&mut activity, 7, false, 4).expect("hide");
    visit(&mut activity, 7, 5);
    assert!(!activity.recent_people[0].visible);
    assert!(matches!(
        set_recent_visibility(&mut activity, 99, true, 6),
        Err(AppError::NotFound(_))
    ));
}

#[test]
fn hidden_people_are_bounded_to_fifty_tombstones() {
    let mut activity = StoredExplorationActivity::default();
    for id in 0..=(MAX_HIDDEN_RECENT_PEOPLE as i64) {
        visit(&mut activity, id + 2, 10 + id);
        set_recent_visibility(&mut activity, id + 2, false, 10 + id).expect("hide");
    }
    let hidden = activity.recent_people.iter().filter(|p| !p.visible).count();
    assert_eq!(hidden, MAX_HIDDEN_RECENT_PEOPLE);
    assert!(activity.recent_people.iter().all(|p| p.github_id != 2));
}
