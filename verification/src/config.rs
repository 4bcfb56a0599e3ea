//! Application configuration: reading settings from `NAME=value` pairs and checking that
//! they describe a deployment the service can run.
use vstd::prelude::*;

use crate::discovery::views;
use crate::error::AppError;
use crate::external::{
    base64url_decoded, decode_base64url, join_url, joined_url, opt_view, parse_url, parsed_url,
    ParsedUrl, UrlView,
};
use crate::numbers::{decimal, decimal_text, parse_unsigned, parsed_unsigned};
use crate::text::{
    chars_of, has_prefix, is_blank, push_str, starts_with, str_equal, string_from_chars, trim_chars,
    trim_seq,
};

verus! {

#[derive(Debug, Clone, Copy, PartialEq, Eq, Structural)]
pub enum GraphBackend {
    Memory,
    File,
    Neo4j,
}

#[derive(Debug, Clone, Copy, PartialEq, Eq, Structural)]
pub enum DeploymentMode {
    Local,
    Production,
}

/// GitHub OAuth settings. Secrets are held as plain text; the program wraps them for use.
#[derive(Debug, Clone)]
pub struct GitHubConfig {
    pub client_id: Option<String>,
    pub client_secret: Option<String>,
    pub scopes: Vec<String>,
    pub redirect_uri: Option<String>,
}

#[derive(Debug, Clone)]
pub struct Neo4jConfig {
    pub uri: Option<String>,
    pub username: Option<String>,
    pub password: Option<String>,
    pub database: String,
    pub max_total_nodes: Option<usize>,
    pub max_total_relationships: Option<usize>,
}

#[derive(Debug, Clone)]
pub struct AppConfig {
    pub server_addr: String,
    pub frontend_origin: String,
    pub data_dir: String,
    pub deployment_mode: DeploymentMode,
    pub graph_backend: GraphBackend,
    pub identity_encryption_key: Option<String>,
    pub github: GitHubConfig,
    pub neo4j: Neo4jConfig,
}

pub ghost struct GitHubConfigView {
    pub client_id: Option<Seq<char>>,
    pub client_secret: Option<Seq<char>>,
    pub scopes: Seq<Seq<char>>,
    pub redirect_uri: Option<Seq<char>>,
}

pub ghost struct Neo4jConfigView {
    pub uri: Option<Seq<char>>,
    pub username: Option<Seq<char>>,
    pub password: Option<Seq<char>>,
    pub database: Seq<char>,
    pub max_total_nodes: Option<usize>,
    pub max_total_relationships: Option<usize>,
}

pub ghost struct AppConfigView {
    pub server_addr: Seq<char>,
    pub frontend_origin: Seq<char>,
    pub data_dir: Seq<char>,
    pub deployment_mode: DeploymentMode,
    pub graph_backend: GraphBackend,
    pub identity_encryption_key: Option<Seq<char>>,
    pub github: GitHubConfigView,
    pub neo4j: Neo4jConfigView,
}

impl View for GitHubConfig {
    type V = GitHubConfigView;

    open spec fn view(&self) -> GitHubConfigView {
        GitHubConfigView {
            client_id: opt_view(self.client_id),
            client_secret: opt_view(self.client_secret),
            scopes: views(self.scopes@),
            redirect_uri: opt_view(self.redirect_uri),
        }
    }
}

impl View for Neo4jConfig {
    type V = Neo4jConfigView;

    open spec fn view(&self) -> Neo4jConfigView {
        Neo4jConfigView {
            uri: opt_view(self.uri),
            username: opt_view(self.username),
            password: opt_view(self.password),
            database: self.database@,
            max_total_nodes: self.max_total_nodes,
            max_total_relationships: self.max_total_relationships,
        }
    }
}

impl View for AppConfig {
    type V = AppConfigView;

    open spec fn view(&self) -> AppConfigView {
        AppConfigView {
            server_addr: self.server_addr@,
            frontend_origin: self.frontend_origin@,
            data_dir: self.data_dir@,
            deployment_mode: self.deployment_mode,
            graph_backend: self.graph_backend,
            identity_encryption_key: opt_view(self.identity_encryption_key),
            github: self.github@,
            neo4j: self.neo4j@,
        }
    }
}

/// A refusal: the kind of error (`config` for `AppError::Config`, otherwise
/// `AppError::Validation`) and its message.
pub ghost struct Fault {
    pub config: bool,
    pub message: Seq<char>,
}

/// The error `e` is the refusal `f`.
pub open spec fn is_fault(e: AppError, f: Fault) -> bool {
    if f.config {
        e is Config && e->Config_0@ == f.message
    } else {
        e is Validation && e->Validation_0@ == f.message
    }
}

pub open spec fn config_fault(message: Seq<char>) -> Fault {
    Fault { config: true, message }
}

pub open spec fn validation_fault(message: Seq<char>) -> Fault {
    Fault { config: false, message }
}

fn fail(config: bool, message: String) -> (e: AppError)
    ensures
        is_fault(e, Fault { config, message: message@ }),
{
    if config {
        AppError::Config(message)
    } else {
        AppError::Validation(message)
    }
}

// ---------------------------------------------------------------------------------------
// Settings
// ---------------------------------------------------------------------------------------

/// The value of setting `key`: the last pair that names it, as a map built from the pairs
/// keeps it.
pub open spec fn setting(values: Seq<(String, String)>, key: Seq<char>) -> Option<Seq<char>>
    decreases values.len(),
{
    if values.len() == 0 {
        None
    } else if values.last().0@ == key {
        Some(values.last().1@)
    } else {
        setting(values.drop_last(), key)
    }
}

/// Looks a setting up.
pub fn setting_value(values: &Vec<(String, String)>, key: &str) -> (r: Option<String>)
    ensures
        opt_view(r) == setting(values@, key@),
{
    let mut i: usize = values.len();
    assert(values@.take(values.len() as int) == values@);
    while i > 0
        invariant
            i <= values.len(),
            setting(values@, key@) == setting(values@.take(i as int), key@),
        decreases i,
    {
        i -= 1;
        assert(values@.take(i + 1).drop_last() == values@.take(i as int));
        if str_equal(values[i].0.as_str(), key) {
            return Some(values[i].1.clone());
        }
    }
    None
}

/// The setting, or `default` where it is absent.
pub open spec fn setting_or(values: Seq<(String, String)>, key: Seq<char>, default: Seq<char>) -> Seq<
    char,
> {
    match setting(values, key) {
        Some(v) => v,
        None => default,
    }
}

fn setting_or_default(values: &Vec<(String, String)>, key: &str, default: &str) -> (r: String)
    ensures
        r@ == setting_or(values@, key@, default@),
{
    match setting_value(values, key) {
        Some(v) => v,
        None => default.to_owned(),
    }
}

/// The comma-separated pieces of a text, empty pieces included.
pub open spec fn comma_pieces(s: Seq<char>) -> Seq<Seq<char>>
    decreases s.len(),
{
    if s.len() == 0 {
        seq![Seq::empty()]
    } else if s.last() == ',' {
        comma_pieces(s.drop_last()).push(Seq::empty())
    } else {
        let p = comma_pieces(s.drop_last());
        p.update(p.len() - 1, p.last().push(s.last()))
    }
}

/// The trimmed pieces that are not empty.
pub open spec fn kept_pieces(pieces: Seq<Seq<char>>) -> Seq<Seq<char>>
    decreases pieces.len(),
{
    if pieces.len() == 0 {
        Seq::empty()
    } else {
        let rest = kept_pieces(pieces.drop_last());
        let t = trim_seq(pieces.last());
        if t.len() == 0 {
            rest
        } else {
            rest.push(t)
        }
    }
}

/// The scopes of a comma-separated scope list.
pub open spec fn scope_list(s: Seq<char>) -> Seq<Seq<char>> {
    kept_pieces(comma_pieces(s))
}

proof fn lemma_kept_pieces_push(pieces: Seq<Seq<char>>, last: Seq<char>)
    ensures
        kept_pieces(pieces.push(last)) == (if trim_seq(last).len() == 0 {
            kept_pieces(pieces)
        } else {
            kept_pieces(pieces).push(trim_seq(last))
        }),
{
    assert(pieces.push(last).drop_last() == pieces);
}

/// Splits a scope list at commas, trims each scope and drops the empty ones.
pub fn split_scopes(text: &str) -> (r: Vec<String>)
    ensures
        views(r@) == scope_list(text@),
{
    let chars = chars_of(text);
    let mut out: Vec<String> = Vec::new();
    let mut current: Vec<char> = Vec::new();
    let ghost mut completed: Seq<Seq<char>> = Seq::empty();
    let mut i: usize = 0;
    while i < chars.len()
        invariant
            i <= chars.len(),
            chars@ == text@,
            comma_pieces(chars@.take(i as int)) == completed.push(current@),
            views(out@) == kept_pieces(completed),
        decreases chars.len() - i,
    {
        let c = chars[i];
        assert(chars@.take(i + 1).drop_last() == chars@.take(i as int));
        assert(chars@.take(i + 1).last() == c);
        if c == ',' {
            let piece = trim_chars(&current);
            proof {
                lemma_kept_pieces_push(completed, current@);
            }
            if piece.len() > 0 {
                out.push(string_from_chars(&piece));
                assert(views(out@) == views(out@.drop_last()).push(piece@));
            }
            proof {
                completed = completed.push(current@);
            }
            current = Vec::new();
        } else {
            proof {
                assert(completed.push(current@).update(completed.len() as int, current@.push(c))
                    == completed.push(current@.push(c)));
            }
            current.push(c);
        }
        i += 1;
    }
    assert(chars@.take(chars.len() as int) == chars@);
    let piece = trim_chars(&current);
    proof {
        lemma_kept_pieces_push(completed, current@);
    }
    if piece.len() > 0 {
        out.push(string_from_chars(&piece));
        assert(views(out@) == views(out@.drop_last()).push(piece@));
    }
    out
}

/// The message for a capacity setting that is not a positive integer.
pub open spec fn positive_integer_message(key: Seq<char>) -> Seq<char> {
    key + " must be a positive integer"@
}

/// What a capacity setting reads as: absent, a positive integer, or a refusal.
pub open spec fn positive_setting(values: Seq<(String, String)>, key: Seq<char>) -> Result<
    Option<usize>,
    Fault,
> {
    match setting(values, key) {
        None => Ok(None),
        Some(v) => match parsed_unsigned(v, usize::MAX as nat) {
            None => Err(config_fault(positive_integer_message(key))),
            Some(n) => if n == 0 {
                Err(validation_fault(positive_integer_message(key)))
            } else {
                Ok(Some(n as usize))
            },
        },
    }
}

fn optional_positive_usize(values: &Vec<(String, String)>, key: &str) -> (r: Result<
    Option<usize>,
    AppError,
>)
    ensures
        positive_setting(values@, key@) is Ok ==> r == Ok::<Option<usize>, AppError>(
            positive_setting(values@, key@)->Ok_0,
        ),
        positive_setting(values@, key@) is Err ==> r is Err && is_fault(
            r->Err_0,
            positive_setting(values@, key@)->Err_0,
        ),
{
    proof {
        reveal_strlit(" must be a positive integer");
    }
    match setting_value(values, key) {
        None => Ok(None),
        Some(v) => {
            let mut message = key.to_owned();
            push_str(&mut message, " must be a positive integer");
            match parse_unsigned(v.as_str(), usize::MAX as u64) {
                None => Err(fail(true, message)),
                Some(n) => {
                    if n == 0 {
                        Err(fail(false, message))
                    } else {
                        Ok(Some(n as usize))
                    }
                },
            }
        },
    }
}

// ---------------------------------------------------------------------------------------
// Reading the configuration
// ---------------------------------------------------------------------------------------

pub open spec fn port_rule() -> Seq<char> {
    "PORT must be an integer between 1 and 65535"@
}

/// The address the server binds: an explicit address, else all interfaces on `PORT`, else
/// the local default.
pub open spec fn server_address(values: Seq<(String, String)>) -> Result<Seq<char>, Fault> {
    match setting(values, "GITEXPLORE_SERVER_ADDR"@) {
        Some(address) => Ok(address),
        None => match setting(values, "PORT"@) {
            Some(port) => match parsed_unsigned(port, 65535) {
                None => Err(config_fault(port_rule())),
                Some(n) => if n == 0 {
                    Err(validation_fault(port_rule()))
                } else {
                    Ok("0.0.0.0:"@ + decimal(n))
                },
            },
            None => Ok("127.0.0.1:4000"@),
        },
    }
}

pub open spec fn backend_named(name: Seq<char>) -> Option<GraphBackend> {
    if name == "memory"@ {
        Some(GraphBackend::Memory)
    } else if name == "file"@ {
        Some(GraphBackend::File)
    } else if name == "neo4j"@ {
        Some(GraphBackend::Neo4j)
    } else {
        None
    }
}

pub open spec fn mode_named(name: Seq<char>) -> Option<DeploymentMode> {
    if name == "local"@ {
        Some(DeploymentMode::Local)
    } else if name == "production"@ {
        Some(DeploymentMode::Production)
    } else {
        None
    }
}

pub open spec fn backend_message(name: Seq<char>) -> Seq<char> {
    "invalid graph backend `"@ + name + "`; expected memory|file|neo4j"@
}

pub open spec fn mode_message(name: Seq<char>) -> Seq<char> {
    "invalid deployment mode `"@ + name + "`; expected local|production"@
}

/// The identity key, where it is set to something other than white space.
pub open spec fn identity_key_setting(values: Seq<(String, String)>) -> Option<Seq<char>> {
    match setting(values, "GITEXPLORE_IDENTITY_ENCRYPTION_KEY"@) {
        Some(v) => if trim_seq(v).len() == 0 {
            None
        } else {
            Some(v)
        },
        None => None,
    }
}

pub open spec fn scopes_setting(values: Seq<(String, String)>) -> Seq<Seq<char>> {
    match setting(values, "GITEXPLORE_GITHUB_SCOPES"@) {
        Some(s) => scope_list(s),
        None => seq!["read:user"@],
    }
}

/// The configuration the settings describe, before it is checked as a whole.
pub open spec fn read_config(values: Seq<(String, String)>) -> Result<AppConfigView, Fault> {
    let backend_name = setting_or(values, "GITEXPLORE_GRAPH_BACKEND"@, "file"@);
    let mode_name = setting_or(values, "GITEXPLORE_DEPLOYMENT_MODE"@, "local"@);
    match server_address(values) {
        Err(f) => Err(f),
        Ok(server_addr) => match backend_named(backend_name) {
            None => Err(config_fault(backend_message(backend_name))),
            Some(graph_backend) => match mode_named(mode_name) {
                None => Err(config_fault(mode_message(mode_name))),
                Some(deployment_mode) => match positive_setting(
                    values,
                    "GITEXPLORE_NEO4J_MAX_TOTAL_NODES"@,
                ) {
                    Err(f) => Err(f),
                    Ok(max_total_nodes) => match positive_setting(
                        values,
                        "GITEXPLORE_NEO4J_MAX_TOTAL_RELATIONSHIPS"@,
                    ) {
                        Err(f) => Err(f),
                        Ok(max_total_relationships) => Ok(
                            AppConfigView {
                                server_addr,
                                frontend_origin: setting_or(
                                    values,
                                    "GITEXPLORE_FRONTEND_ORIGIN"@,
                                    "http://localhost:3000"@,
                                ),
                                data_dir: setting_or(
                                    values,
                                    "GITEXPLORE_DATA_DIR"@,
                                    ".gitexplore-data"@,
                                ),
                                deployment_mode,
                                graph_backend,
                                identity_encryption_key: identity_key_setting(values),
                                github: GitHubConfigView {
                                    client_id: setting(values, "GITEXPLORE_GITHUB_CLIENT_ID"@),
                                    client_secret: setting(
                                        values,
                                        "GITEXPLORE_GITHUB_CLIENT_SECRET"@,
                                    ),
                                    scopes: scopes_setting(values),
                                    redirect_uri: setting(
                                        values,
                                        "GITEXPLORE_GITHUB_REDIRECT_URI"@,
                                    ),
                                },
                                neo4j: Neo4jConfigView {
                                    uri: setting(values, "GITEXPLORE_NEO4J_URI"@),
                                    username: setting(values, "GITEXPLORE_NEO4J_USERNAME"@),
                                    password: setting(values, "GITEXPLORE_NEO4J_PASSWORD"@),
                                    database: setting_or(
                                        values,
                                        "GITEXPLORE_NEO4J_DATABASE"@,
                                        "neo4j"@,
                                    ),
                                    max_total_nodes,
                                    max_total_relationships,
                                },
                            },
                        ),
                    },
                },
            },
        },
    }
}

/// What `AppConfig::from_map` gives for the settings: the configuration, or the refusal.
pub open spec fn configured(values: Seq<(String, String)>) -> Result<AppConfigView, Fault> {
    match read_config(values) {
        Err(f) => Err(f),
        Ok(c) => match config_refusal(c) {
            Some(f) => Err(f),
            None => Ok(c),
        },
    }
}

// ---------------------------------------------------------------------------------------
// Checking the configuration
// ---------------------------------------------------------------------------------------

pub open spec fn origin_rule() -> Seq<char> {
    "GITEXPLORE_FRONTEND_ORIGIN must be an http(s) origin without a path, query, or fragment"@
}

pub open spec fn key_rule() -> Seq<char> {
    "GITEXPLORE_IDENTITY_ENCRYPTION_KEY must be unpadded base64url encoding of exactly 32 random bytes"@
}

/// A parsed frontend origin is a bare http(s) origin.
pub open spec fn origin_shape_ok(u: UrlView) -> bool {
    &&& (u.scheme == "http"@ || u.scheme == "https"@)
    &&& u.host is Some
    &&& u.username.len() == 0
    &&& u.password is None
    &&& u.path == "/"@
    &&& u.query is None
    &&& u.fragment is None
}

/// The identity key decodes to exactly 32 bytes.
pub open spec fn identity_key_ok(key: Seq<char>) -> bool {
    base64url_decoded(key) is Some && base64url_decoded(key)->0.len() == 32
}

/// A secret or name is set to something other than white space.
pub open spec fn present(o: Option<Seq<char>>) -> bool {
    o is Some && trim_seq(o->0).len() > 0
}

pub open spec fn callback_path() -> Seq<char> {
    "/auth/oauth/callback"@
}

/// The further requirements of a production deployment, first failure first.
pub open spec fn production_refusal(c: AppConfigView, u: UrlView) -> Option<Fault> {
    if c.graph_backend != GraphBackend::Neo4j {
        Some(validation_fault("production requires GITEXPLORE_GRAPH_BACKEND=neo4j"@))
    } else if u.scheme != "https"@ {
        Some(validation_fault("production requires an HTTPS GITEXPLORE_FRONTEND_ORIGIN"@))
    } else if !present(c.github.client_id) {
        Some(validation_fault("production requires GITEXPLORE_GITHUB_CLIENT_ID"@))
    } else if !present(c.github.client_secret) {
        Some(validation_fault("production requires GITEXPLORE_GITHUB_CLIENT_SECRET"@))
    } else if !(joined_url(c.frontend_origin, callback_path()) is Some && c.github.redirect_uri
        == joined_url(c.frontend_origin, callback_path())) {
        Some(
            validation_fault(
                "production GitHub redirect URI must exactly match <frontend-origin>/auth/oauth/callback"@,
            ),
        )
    } else if !(c.neo4j.uri is Some && (has_prefix(c.neo4j.uri->0, "neo4j+s://"@) || has_prefix(
        c.neo4j.uri->0,
        "bolt+s://"@,
    ))) {
        Some(
            validation_fault(
                "production requires an encrypted Neo4j URI (neo4j+s:// or bolt+s://)"@,
            ),
        )
    } else if !present(c.neo4j.username) {
        Some(validation_fault("production requires GITEXPLORE_NEO4J_USERNAME"@))
    } else if !present(c.neo4j.password) {
        Some(validation_fault("production requires GITEXPLORE_NEO4J_PASSWORD"@))
    } else if trim_seq(c.neo4j.database).len() == 0 {
        Some(validation_fault("production requires GITEXPLORE_NEO4J_DATABASE"@))
    } else if !(c.neo4j.max_total_nodes is Some && c.neo4j.max_total_nodes->0 <= 190_000) {
        Some(
            validation_fault(
                "production requires GITEXPLORE_NEO4J_MAX_TOTAL_NODES at or below 190000"@,
            ),
        )
    } else if !(c.neo4j.max_total_relationships is Some && c.neo4j.max_total_relationships->0
        <= 380_000) {
        Some(
            validation_fault(
                "production requires GITEXPLORE_NEO4J_MAX_TOTAL_RELATIONSHIPS at or below 380000"@,
            ),
        )
    } else {
        None
    }
}

/// Why a configuration cannot run, first failure first; `None` where it can.
pub open spec fn config_refusal(c: AppConfigView) -> Option<Fault> {
    match parsed_url(c.frontend_origin) {
        Err(e) => Some(config_fault("invalid frontend origin: "@ + e)),
        Ok(u) => if !origin_shape_ok(u) {
            Some(validation_fault(origin_rule()))
        } else if c.graph_backend == GraphBackend::Neo4j && c.neo4j.uri is None {
            Some(validation_fault("neo4j backend requires GITEXPLORE_NEO4J_URI"@))
        } else if c.graph_backend == GraphBackend::Neo4j && c.neo4j.username is None {
            Some(validation_fault("neo4j backend requires GITEXPLORE_NEO4J_USERNAME"@))
        } else if c.graph_backend == GraphBackend::Neo4j && c.neo4j.password is None {
            Some(validation_fault("neo4j backend requires GITEXPLORE_NEO4J_PASSWORD"@))
        } else if c.graph_backend != GraphBackend::Memory && c.identity_encryption_key is None {
            Some(
                config_fault(
                    "durable identity storage requires GITEXPLORE_IDENTITY_ENCRYPTION_KEY"@,
                ),
            )
        } else if c.identity_encryption_key is Some && !identity_key_ok(
            c.identity_encryption_key->0,
        ) {
            Some(config_fault(key_rule()))
        } else if c.deployment_mode == DeploymentMode::Production {
            production_refusal(c, u)
        } else {
            None
        },
    }
}

fn is_present(o: &Option<String>) -> (r: bool)
    ensures
        r == present(opt_view(*o)),
{
    match o {
        Some(v) => !is_blank(v.as_str()),
        None => false,
    }
}

fn concat3(a: &str, b: &str, c: &str) -> (r: String)
    ensures
        r@ == a@ + b@ + c@,
{
    let mut r = a.to_owned();
    push_str(&mut r, b);
    push_str(&mut r, c);
    r
}

impl AppConfig {
    /// Reads the configuration from `NAME=value` pairs (the process environment, in the
    /// program) and checks it.
    pub fn from_map(values: &Vec<(String, String)>) -> (r: Result<AppConfig, AppError>)
        ensures
            configured(values@) is Ok ==> r is Ok && r->Ok_0@ == configured(values@)->Ok_0,
            configured(values@) is Err ==> r is Err && is_fault(
                r->Err_0,
                configured(values@)->Err_0,
            ),
    {
        let server_addr = match setting_value(values, "GITEXPLORE_SERVER_ADDR") {
            Some(address) => address,
            None => match setting_value(values, "PORT") {
                Some(port) => match parse_unsigned(port.as_str(), 65535) {
                    None => {
                        return Err(
                            fail(true, "PORT must be an integer between 1 and 65535".to_owned()),
                        );
                    },
                    Some(n) => {
                        if n == 0 {
                            return Err(
                                fail(
                                    false,
                                    "PORT must be an integer between 1 and 65535".to_owned(),
                                ),
                            );
                        }
                        let mut address = "0.0.0.0:".to_owned();
                        let digits = decimal_text(n);
                        push_str(&mut address, digits.as_str());
                        address
                    },
                },
                None => "127.0.0.1:4000".to_owned(),
            },
        };
        let data_dir = setting_or_default(values, "GITEXPLORE_DATA_DIR", ".gitexplore-data");
        let backend_name = setting_or_default(values, "GITEXPLORE_GRAPH_BACKEND", "file");
        let graph_backend = if str_equal(backend_name.as_str(), "memory") {
            GraphBackend::Memory
        } else if str_equal(backend_name.as_str(), "file") {
            GraphBackend::File
        } else if str_equal(backend_name.as_str(), "neo4j") {
            GraphBackend::Neo4j
        } else {
            return Err(
                fail(
                    true,
                    concat3(
                        "invalid graph backend `",
                        backend_name.as_str(),
                        "`; expected memory|file|neo4j",
                    ),
                ),
            );
        };
        let mode_name = setting_or_default(values, "GITEXPLORE_DEPLOYMENT_MODE", "local");
        let deployment_mode = if str_equal(mode_name.as_str(), "local") {
            DeploymentMode::Local
        } else if str_equal(mode_name.as_str(), "production") {
            DeploymentMode::Production
        } else {
            return Err(
                fail(
                    true,
                    concat3(
                        "invalid deployment mode `",
                        mode_name.as_str(),
                        "`; expected local|production",
                    ),
                ),
            );
        };
        let scopes = match setting_value(values, "GITEXPLORE_GITHUB_SCOPES") {
            Some(text) => split_scopes(text.as_str()),
            None => {
                let mut v: Vec<String> = Vec::new();
                v.push("read:user".to_owned());
                assert(views(v@) =~= seq!["read:user"@]);
                v
            },
        };
        let github = GitHubConfig {
            client_id: setting_value(values, "GITEXPLORE_GITHUB_CLIENT_ID"),
            client_secret: setting_value(values, "GITEXPLORE_GITHUB_CLIENT_SECRET"),
            scopes,
            redirect_uri: setting_value(values, "GITEXPLORE_GITHUB_REDIRECT_URI"),
        };
        let max_total_nodes = optional_positive_usize(values, "GITEXPLORE_NEO4J_MAX_TOTAL_NODES")?;
        let max_total_relationships = optional_positive_usize(
            values,
            "GITEXPLORE_NEO4J_MAX_TOTAL_RELATIONSHIPS",
        )?;
        let neo4j = Neo4jConfig {
            uri: setting_value(values, "GITEXPLORE_NEO4J_URI"),
            username: setting_value(values, "GITEXPLORE_NEO4J_USERNAME"),
            password: setting_value(values, "GITEXPLORE_NEO4J_PASSWORD"),
            database: setting_or_default(values, "GITEXPLORE_NEO4J_DATABASE", "neo4j"),
            max_total_nodes,
            max_total_relationships,
        };
        let identity_encryption_key = match setting_value(
            values,
            "GITEXPLORE_IDENTITY_ENCRYPTION_KEY",
        ) {
            Some(v) => if is_blank(v.as_str()) {
                None
            } else {
                Some(v)
            },
            None => None,
        };
        let config = AppConfig {
            server_addr,
            frontend_origin: setting_or_default(
                values,
                "GITEXPLORE_FRONTEND_ORIGIN",
                "http://localhost:3000",
            ),
            data_dir,
            deployment_mode,
            graph_backend,
            identity_encryption_key,
            github,
            neo4j,
        };
        assert(read_config(values@) == Ok::<AppConfigView, Fault>(config@));
        config.validate()?;
        Ok(config)
    }

    /// Checks that the configuration describes a deployment that can run.
    pub fn validate(&self) -> (r: Result<(), AppError>)
        ensures
            config_refusal(self@) is None ==> r is Ok,
            config_refusal(self@) is Some ==> r is Err && is_fault(
                r->Err_0,
                config_refusal(self@)->0,
            ),
    {
        let origin = match parse_url(self.frontend_origin.as_str()) {
            Ok(u) => u,
            Err(e) => {
                let mut message = "invalid frontend origin: ".to_owned();
                push_str(&mut message, e.as_str());
                return Err(fail(true, message));
            },
        };
        let shape_ok = (str_equal(origin.scheme.as_str(), "http") || str_equal(
            origin.scheme.as_str(),
            "https",
        )) && origin.host.is_some() && origin.username.as_str().is_empty()
            && origin.password.is_none() && str_equal(origin.path.as_str(), "/")
            && origin.query.is_none() && origin.fragment.is_none();
        if !shape_ok {
            return Err(
                fail(
                    false,
                    "GITEXPLORE_FRONTEND_ORIGIN must be an http(s) origin without a path, query, or fragment".to_owned(),
                ),
            );
        }
        if self.graph_backend == GraphBackend::Neo4j {
            if self.neo4j.uri.is_none() {
                return Err(fail(false, "neo4j backend requires GITEXPLORE_NEO4J_URI".to_owned()));
            }
            if self.neo4j.username.is_none() {
                return Err(
                    fail(false, "neo4j backend requires GITEXPLORE_NEO4J_USERNAME".to_owned()),
                );
            }
            if self.neo4j.password.is_none() {
                return Err(
                    fail(false, "neo4j backend requires GITEXPLORE_NEO4J_PASSWORD".to_owned()),
                );
            }
        }
        if self.graph_backend != GraphBackend::Memory && self.identity_encryption_key.is_none() {
            return Err(
                fail(
                    true,
                    "durable identity storage requires GITEXPLORE_IDENTITY_ENCRYPTION_KEY".to_owned(),
                ),
            );
        }
        if let Some(encoded_key) = &self.identity_encryption_key {
            let decoded = decode_base64url(encoded_key.as_str());
            let key_ok = match &decoded {
                Some(bytes) => bytes.len() == 32,
                None => false,
            };
            if !key_ok {
                return Err(
                    fail(
                        true,
                        "GITEXPLORE_IDENTITY_ENCRYPTION_KEY must be unpadded base64url encoding of exactly 32 random bytes".to_owned(),
                    ),
                );
            }
        }
        if self.deployment_mode == DeploymentMode::Production {
            return self.validate_production(&origin);
        }
        Ok(())
    }

    fn validate_production(&self, origin: &ParsedUrl) -> (r: Result<(), AppError>)
        ensures
            production_refusal(self@, origin@) is None ==> r is Ok,
            production_refusal(self@, origin@) is Some ==> r is Err && is_fault(
                r->Err_0,
                production_refusal(self@, origin@)->0,
            ),
    {
        if self.graph_backend != GraphBackend::Neo4j {
            return Err(
                fail(false, "production requires GITEXPLORE_GRAPH_BACKEND=neo4j".to_owned()),
            );
        }
        if !str_equal(origin.scheme.as_str(), "https") {
            return Err(
                fail(false, "production requires an HTTPS GITEXPLORE_FRONTEND_ORIGIN".to_owned()),
            );
        }
        if !is_present(&self.github.client_id) {
            return Err(
                fail(false, "production requires GITEXPLORE_GITHUB_CLIENT_ID".to_owned()),
            );
        }
        if !is_present(&self.github.client_secret) {
            return Err(
                fail(false, "production requires GITEXPLORE_GITHUB_CLIENT_SECRET".to_owned()),
            );
        }
        let expected = join_url(self.frontend_origin.as_str(), "/auth/oauth/callback");
        let redirect_ok = match (&expected, &self.github.redirect_uri) {
            (Some(e), Some(given)) => str_equal(e.as_str(), given.as_str()),
            _ => false,
        };
        if !redirect_ok {
            return Err(
                fail(
                    false,
                    "production GitHub redirect URI must exactly match <frontend-origin>/auth/oauth/callback".to_owned(),
                ),
            );
        }
        let uri_ok = match &self.neo4j.uri {
            Some(uri) => starts_with(uri.as_str(), "neo4j+s://") || starts_with(
                uri.as_str(),
                "bolt+s://",
            ),
            None => false,
        };
        if !uri_ok {
            return Err(
                fail(
                    false,
                    "production requires an encrypted Neo4j URI (neo4j+s:// or bolt+s://)".to_owned(),
                ),
            );
        }
        if !is_present(&self.neo4j.username) {
            return Err(fail(false, "production requires GITEXPLORE_NEO4J_USERNAME".to_owned()));
        }
        if !is_present(&self.neo4j.password) {
            return Err(fail(false, "production requires GITEXPLORE_NEO4J_PASSWORD".to_owned()));
        }
        if is_blank(self.neo4j.database.as_str()) {
            return Err(fail(false, "production requires GITEXPLORE_NEO4J_DATABASE".to_owned()));
        }
        let nodes_ok = match self.neo4j.max_total_nodes {
            Some(limit) => limit <= 190_000,
            None => false,
        };
        if !nodes_ok {
            return Err(
                fail(
                    false,
                    "production requires GITEXPLORE_NEO4J_MAX_TOTAL_NODES at or below 190000".to_owned(),
                ),
            );
        }
        let relationships_ok = match self.neo4j.max_total_relationships {
            Some(limit) => limit <= 380_000,
            None => false,
        };
        if !relationships_ok {
            return Err(
                fail(
                    false,
                    "production requires GITEXPLORE_NEO4J_MAX_TOTAL_RELATIONSHIPS at or below 380000".to_owned(),
                ),
            );
        }
        Ok(())
    }
}

} // verus!
