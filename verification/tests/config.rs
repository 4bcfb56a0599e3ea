use gitexplore::config::AppConfig;

fn pairs(values: &[(&str, &str)]) -> Vec<(String, String)> {
    values
        .iter()
        .map(|(key, value)| (key.to_string(), value.to_string()))
        .collect()
}

#[test]
fn vercel_port_binds_the_server_to_all_interfaces() {
    let values = pairs(&[("PORT", "8080"), ("GITEXPLORE_GRAPH_BACKEND", "memory")]);

    let config = AppConfig::from_map(&values).expect("PORT should produce a valid address");

    assert_eq!(config.server_addr, "0.0.0.0:8080");
}

#[test]
fn explicit_server_address_takes_precedence_over_port() {
    let values = pairs(&[
        ("GITEXPLORE_SERVER_ADDR", "127.0.0.1:4100"),
        ("PORT", "8080"),
        ("GITEXPLORE_GRAPH_BACKEND", "memory"),
    ]);

    let config = AppConfig::from_map(&values).expect("explicit address should be valid");

    assert_eq!(config.server_addr, "127.0.0.1:4100");
}

#[test]
fn invalid_vercel_port_is_rejected() {
    let values = pairs(&[("PORT", "not-a-port")]);

    let error = AppConfig::from_map(&values).expect_err("invalid PORT must fail");

    assert_eq!(
        error.message(),
        "configuration error: PORT must be an integer between 1 and 65535"
    );
}

#[test]
fn neo4j_identity_fails_closed_without_an_encryption_key() {
    let values = pairs(&[
        ("GITEXPLORE_GRAPH_BACKEND", "neo4j"),
        ("GITEXPLORE_NEO4J_URI", "neo4j://localhost:7687"),
        ("GITEXPLORE_NEO4J_USERNAME", "neo4j"),
        ("GITEXPLORE_NEO4J_PASSWORD", "password"),
    ]);

    let error = AppConfig::from_map(&values).expect_err("missing identity key must fail");

    assert!(error.message().contains("GITEXPLORE_IDENTITY_ENCRYPTION_KEY"));
}

#[test]
fn file_identity_fails_closed_without_an_encryption_key() {
    let values = pairs(&[("GITEXPLORE_GRAPH_BACKEND", "file")]);

    let error = AppConfig::from_map(&values).expect_err("missing identity key must fail");

    assert!(error.message().contains("GITEXPLORE_IDENTITY_ENCRYPTION_KEY"));
}

#[test]
fn identity_encryption_key_requires_exact_base64url_length() {
    let values = pairs(&[
        ("GITEXPLORE_IDENTITY_ENCRYPTION_KEY", "not-a-32-byte-key"),
        ("GITEXPLORE_GRAPH_BACKEND", "memory"),
    ]);

    let error = AppConfig::from_map(&values).expect_err("invalid identity key must fail");

    assert!(error.message().contains("unpadded base64url"));
}

#[test]
fn production_mode_rejects_ephemeral_storage_defaults() {
    let values = pairs(&[
        ("GITEXPLORE_DEPLOYMENT_MODE", "production"),
        (
            "GITEXPLORE_IDENTITY_ENCRYPTION_KEY",
            "AAAAAAAAAAAAAAAAAAAAAAAAAAAAAAAAAAAAAAAAAAA",
        ),
    ]);

    let error = AppConfig::from_map(&values).expect_err("production file mode must fail");

    assert!(error.message().contains("GRAPH_BACKEND=neo4j"));
}

#[test]
fn production_mode_accepts_the_complete_durable_contract() {
    let values = pairs(&[
        ("GITEXPLORE_DEPLOYMENT_MODE", "production"),
        ("GITEXPLORE_GRAPH_BACKEND", "neo4j"),
        (
            "GITEXPLORE_IDENTITY_ENCRYPTION_KEY",
            "AAAAAAAAAAAAAAAAAAAAAAAAAAAAAAAAAAAAAAAAAAA",
        ),
        ("GITEXPLORE_FRONTEND_ORIGIN", "https://gitexplore.example.com"),
        ("GITEXPLORE_GITHUB_CLIENT_ID", "client"),
        ("GITEXPLORE_GITHUB_CLIENT_SECRET", "secret"),
        (
            "GITEXPLORE_GITHUB_REDIRECT_URI",
            "https://gitexplore.example.com/auth/oauth/callback",
        ),
        ("GITEXPLORE_NEO4J_URI", "neo4j+s://example.databases.neo4j.io"),
        ("GITEXPLORE_NEO4J_USERNAME", "neo4j"),
        ("GITEXPLORE_NEO4J_PASSWORD", "password"),
        ("GITEXPLORE_NEO4J_MAX_TOTAL_NODES", "190000"),
        ("GITEXPLORE_NEO4J_MAX_TOTAL_RELATIONSHIPS", "380000"),
    ]);

    let config = AppConfig::from_map(&values).expect("production contract should validate");

    assert_eq!(config.neo4j.max_total_nodes, Some(190_000));
    assert_eq!(config.neo4j.max_total_relationships, Some(380_000));
}

#[test]
fn invalid_neo4j_capacity_limit_is_rejected() {
    let values = pairs(&[
        ("GITEXPLORE_GRAPH_BACKEND", "memory"),
        ("GITEXPLORE_NEO4J_MAX_TOTAL_NODES", "0"),
    ]);

    let error = AppConfig::from_map(&values).expect_err("zero capacity must fail");

    assert!(error.message().contains("MAX_TOTAL_NODES"));
}

#[test]
fn defaults_describe_a_local_memory_deployment() {
    let values = pairs(&[("GITEXPLORE_GRAPH_BACKEND", "memory")]);
    let config = AppConfig::from_map(&values).expect("memory defaults");
    assert_eq!(config.server_addr, "127.0.0.1:4000");
    assert_eq!(config.frontend_origin, "http://localhost:3000");
    assert_eq!(config.data_dir, ".gitexplore-data");
    assert_eq!(config.neo4j.database, "neo4j");
    assert_eq!(config.github.scopes, vec!["read:user".to_string()]);
}

#[test]
fn scopes_are_trimmed_and_empty_ones_dropped() {
    let values = pairs(&[
        ("GITEXPLORE_GRAPH_BACKEND", "memory"),
        ("GITEXPLORE_GITHUB_SCOPES", " read:user , ,repo,"),
    ]);
    let config = AppConfig::from_map(&values).expect("scopes");
    assert_eq!(
        config.github.scopes,
        vec!["read:user".to_string(), "repo".to_string()]
    );
}

#[test]
fn unknown_backend_and_mode_are_configuration_errors() {
    let error = AppConfig::from_map(&pairs(&[("GITEXPLORE_GRAPH_BACKEND", "sqlite")]))
        .expect_err("unknown backend");
    assert_eq!(
        error.message(),
        "configuration error: invalid graph backend `sqlite`; expected memory|file|neo4j"
    );
    let error = AppConfig::from_map(&pairs(&[
        ("GITEXPLORE_GRAPH_BACKEND", "memory"),
        ("GITEXPLORE_DEPLOYMENT_MODE", "staging"),
    ]))
    .expect_err("unknown mode");
    assert_eq!(
        error.message(),
        "configuration error: invalid deployment mode `staging`; expected local|production"
    );
}

#[test]
fn frontend_origin_must_be_a_bare_origin() {
    let error = AppConfig::from_map(&pairs(&[
        ("GITEXPLORE_GRAPH_BACKEND", "memory"),
        ("GITEXPLORE_FRONTEND_ORIGIN", "http://localhost:3000/app"),
    ]))
    .expect_err("origin with a path");
    assert!(error.message().contains("without a path"));
    let error = AppConfig::from_map(&pairs(&[
        ("GITEXPLORE_GRAPH_BACKEND", "memory"),
        ("GITEXPLORE_FRONTEND_ORIGIN", "not a url"),
    ]))
    .expect_err("unparsable origin");
    assert!(error.message().starts_with("configuration error: invalid frontend origin: "));
}

#[test]
fn production_redirect_must_match_the_callback() {
    let values = pairs(&[
        ("GITEXPLORE_DEPLOYMENT_MODE", "production"),
        ("GITEXPLORE_GRAPH_BACKEND", "neo4j"),
        (
            "GITEXPLORE_IDENTITY_ENCRYPTION_KEY",
            "AAAAAAAAAAAAAAAAAAAAAAAAAAAAAAAAAAAAAAAAAAA",
        ),
        ("GITEXPLORE_FRONTEND_ORIGIN", "https://gitexplore.example.com"),
        ("GITEXPLORE_GITHUB_CLIENT_ID", "client"),
        ("GITEXPLORE_GITHUB_CLIENT_SECRET", "secret"),
        ("GITEXPLORE_GITHUB_REDIRECT_URI", "https://gitexplore.example.com/other"),
        ("GITEXPLORE_NEO4J_URI", "neo4j+s://example.databases.neo4j.io"),
        ("GITEXPLORE_NEO4J_USERNAME", "neo4j"),
        ("GITEXPLORE_NEO4J_PASSWORD", "password"),
        ("GITEXPLORE_NEO4J_MAX_TOTAL_NODES", "190000"),
        ("GITEXPLORE_NEO4J_MAX_TOTAL_RELATIONSHIPS", "380000"),
    ]);
    let error = AppConfig::from_map(&values).expect_err("wrong redirect");
    assert!(error.message().contains("redirect URI"));
}
