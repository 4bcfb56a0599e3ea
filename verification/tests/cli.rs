use gitexplore::cli::{
    Cli, CliError, Commands, GraphCommand, IdentityCommand, OutputFormat, SchemaCommand,
};
use gitexplore::cli::{AuthCommand, BookmarkCommand, CategoryCommand, ExploreCommand};
use gitexplore::logins::GITHUB_CORE_REST_RESERVE;

#[test]
fn graph_expand_command_parses_an_arbitrary_login() {
    let cli = Cli::try_parse_from(&[
        "gitexplore",
        "--format",
        "json",
        "graph",
        "expand",
        "--login",
        "octocat",
    ])
    .expect("graph expand command");

    assert!(matches!(cli.format, OutputFormat::Json));
    assert!(matches!(
        cli.command,
        Commands::Graph {
            command: GraphCommand::Expand { login }
        } if login == "octocat"
    ));
}

#[test]
fn graph_rate_limit_command_parses() {
    let cli = Cli::try_parse_from(&["gitexplore", "graph", "rate-limit"])
        .expect("graph rate-limit command");
    assert!(matches!(
        cli.command,
        Commands::Graph {
            command: GraphCommand::RateLimit
        }
    ));
}

#[test]
fn graph_crawl_command_preserves_the_minimum_request_reserve() {
    let cli = Cli::try_parse_from(&["gitexplore", "graph", "crawl", "--login", "octocat"])
        .expect("graph crawl command");

    assert!(matches!(
        cli.command,
        Commands::Graph {
            command: GraphCommand::Crawl {
                login,
                request_reserve: GITHUB_CORE_REST_RESERVE,
                max_expansions: 350,
                max_discovered_nodes: 180_000,
                delay_ms: 250,
            }
        } if login == "octocat"
    ));
}

#[test]
fn guarded_identity_migration_command_parses() {
    let cli = Cli::try_parse_from(&["gitexplore", "identity", "migrate-to-neo4j", "--confirm"])
        .expect("identity migration command");

    assert!(matches!(
        cli.command,
        Commands::Identity {
            command: IdentityCommand::MigrateToNeo4j { confirm: true }
        }
    ));
}

#[test]
fn schema_apply_and_check_commands_parse() {
    let apply =
        Cli::try_parse_from(&["gitexplore", "schema", "apply"]).expect("schema apply command");
    assert!(matches!(
        apply.command,
        Commands::Schema {
            command: SchemaCommand::Apply
        }
    ));

    let check =
        Cli::try_parse_from(&["gitexplore", "schema", "check"]).expect("schema check command");
    assert!(matches!(
        check.command,
        Commands::Schema {
            command: SchemaCommand::Check
        }
    ));
}

#[test]
fn global_options_have_their_defaults() {
    let cli = Cli::try_parse_from(&["gitexplore", "serve"]).expect("serve command");
    assert_eq!(cli.user_id, "default");
    assert!(matches!(cli.format, OutputFormat::Text));
    assert!(matches!(cli.command, Commands::Serve));

    let cli = Cli::try_parse_from(&["gitexplore", "--user-id=abc", "sync", "status"])
        .expect("sync status with a user id");
    assert_eq!(cli.user_id, "abc");
}

#[test]
fn crawl_options_take_explicit_values_in_both_forms() {
    let cli = Cli::try_parse_from(&[
        "gitexplore",
        "graph",
        "crawl",
        "--login=octocat",
        "--request-reserve",
        "1500",
        "--max-expansions=7",
        "--max-discovered-nodes",
        "90",
        "--delay-ms",
        "0",
    ])
    .expect("crawl with explicit caps");
    assert!(matches!(
        cli.command,
        Commands::Graph {
            command: GraphCommand::Crawl {
                login,
                request_reserve: 1500,
                max_expansions: 7,
                max_discovered_nodes: 90,
                delay_ms: 0,
            }
        } if login == "octocat"
    ));
}

#[test]
fn refused_argument_lists_report_why() {
    assert!(matches!(
        Cli::try_parse_from(&["gitexplore"]),
        Err(CliError::MissingCommand)
    ));
    assert!(matches!(
        Cli::try_parse_from(&["gitexplore", "graph", "expand"]),
        Err(CliError::MissingArgument(name)) if name == "login"
    ));
    assert!(matches!(
        Cli::try_parse_from(&["gitexplore", "graph", "expand", "--login"]),
        Err(CliError::MissingValue(name)) if name == "login"
    ));
    assert!(matches!(
        Cli::try_parse_from(&["gitexplore", "graph", "expand", "--login", "a", "--login", "b"]),
        Err(CliError::Repeated(name)) if name == "login"
    ));
    assert!(matches!(
        Cli::try_parse_from(&["gitexplore", "--format", "yaml", "serve"]),
        Err(CliError::InvalidValue(name, value)) if name == "format" && value == "yaml"
    ));
    assert!(matches!(
        Cli::try_parse_from(&["gitexplore", "graph", "crawl", "--login", "a", "--max-expansions", "many"]),
        Err(CliError::InvalidValue(name, value)) if name == "max-expansions" && value == "many"
    ));
    assert!(matches!(
        Cli::try_parse_from(&["gitexplore", "graph", "walk"]),
        Err(CliError::UnknownCommand(name)) if name == "walk"
    ));
    assert!(matches!(
        Cli::try_parse_from(&["gitexplore", "serve", "--verbose"]),
        Err(CliError::UnexpectedArgument(token)) if token == "--verbose"
    ));
}

#[test]
fn bookmark_categories_split_at_commas_across_occurrences() {
    let cli = Cli::try_parse_from(&[
        "gitexplore",
        "bookmark",
        "add",
        "--repo",
        "acme/tool",
        "--categories",
        "rust,cli",
        "--categories=tools",
    ])
    .expect("bookmark add");
    match cli.command {
        Commands::Bookmark {
            command: BookmarkCommand::Add { user, repo, categories, note },
        } => {
            assert_eq!(user, None);
            assert_eq!(repo.as_deref(), Some("acme/tool"));
            assert_eq!(categories, vec!["rust", "cli", "tools"]);
            assert_eq!(note, None);
        }
        _ => panic!("expected a bookmark add command"),
    }
}

#[test]
fn positional_arguments_and_login_defaults_parse() {
    let cli = Cli::try_parse_from(&["gitexplore", "category", "create", "Rust", "--description", "tools"])
        .expect("category create");
    assert!(matches!(
        cli.command,
        Commands::Category {
            command: CategoryCommand::Create { name, description: Some(d) }
        } if name == "Rust" && d == "tools"
    ));
    let cli = Cli::try_parse_from(&["gitexplore", "explore", "from-repo", "acme/tool"])
        .expect("explore from repo");
    assert!(matches!(
        cli.command,
        Commands::Explore {
            command: ExploreCommand::FromRepo { full_name }
        } if full_name == "acme/tool"
    ));
    let cli = Cli::try_parse_from(&["gitexplore", "auth", "login"]).expect("auth login");
    assert!(matches!(
        cli.command,
        Commands::Auth {
            command: AuthCommand::Login { mode, device_code: None }
        } if mode == "device"
    ));
}
