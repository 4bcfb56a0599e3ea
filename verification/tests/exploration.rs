use gitexplore::error::AppError;
use gitexplore::exploration::{parse_seed, request_seed, seed_type, seed_value, ExplorationSeed};
use gitexplore::graph::GraphNodeRef;

#[test]
fn seeds_round_trip_through_their_stored_form() {
    for seed in [
        ExplorationSeed::User { login: "alice".to_string() },
        ExplorationSeed::Repository { full_name: "acme/tool".to_string() },
        ExplorationSeed::Category { name: "Rust".to_string() },
    ] {
        let back = parse_seed(seed_type(&seed), &seed_value(&seed)).expect("stored seed");
        assert_eq!(seed_type(&back), seed_type(&seed));
        assert_eq!(seed_value(&back), seed_value(&seed));
    }
}

#[test]
fn unknown_seed_kinds_are_refused() {
    assert!(matches!(
        parse_seed("team", "x"),
        Err(AppError::External(message)) if message == "unknown exploration seed type `team` from Neo4j"
    ));
    assert!(matches!(request_seed("team", "x"), Err(AppError::Validation(_))));
    let seed = ExplorationSeed::from(GraphNodeRef::User { login: "bob".to_string() });
    assert_eq!(seed_type(&seed), "user");
}
