//! The command line: its commands, and the grammar that reads them from argument lists.
//!
//! An argument list is the program name, then the global options (`--user-id <ID>`,
//! `--format text|json`), then a command and, for command groups, a subcommand, then the
//! subcommand's own arguments. An option is written `--name value` or `--name=value`; a
//! value may not itself look like an option. A flag is written `--name`. Options that hold
//! one value may be given once; `--categories` may be given several times and each value is
//! split at commas.
use vstd::prelude::*;

use crate::config::comma_pieces;
use crate::discovery::views;
use crate::external::opt_view;
use crate::logins::GITHUB_CORE_REST_RESERVE;
use crate::numbers::{parse_unsigned, parsed_unsigned};
use crate::text::{chars_of, has_prefix, starts_with, str_equal, string_from_chars};

verus! {

#[derive(Debug, Clone, Copy, PartialEq, Eq, Structural)]
pub enum OutputFormat {
    Text,
    Json,
}

#[derive(Debug)]
pub enum AuthCommand {
    Login { mode: String, device_code: Option<String> },
    Status,
    Logout,
}

#[derive(Debug)]
pub enum SyncCommand {
    Run,
    Status,
}

#[derive(Debug)]
pub enum GraphCommand {
    /// Fetch and import one public GitHub user's immediate graph.
    Expand { login: String },
    /// Breadth-first import of public neighbourhoods until the REST reserve or a safety cap
    /// is reached.
    Crawl {
        login: String,
        request_reserve: usize,
        max_expansions: usize,
        max_discovered_nodes: usize,
        delay_ms: u64,
    },
    /// Show the authenticated GitHub token's core REST API budget.
    RateLimit,
}

#[derive(Debug)]
pub enum BookmarkCommand {
    Add {
        user: Option<String>,
        repo: Option<String>,
        categories: Vec<String>,
        note: Option<String>,
    },
    List,
}

#[derive(Debug)]
pub enum CategoryCommand {
    Create { name: String, description: Option<String> },
    List,
}

#[derive(Debug)]
pub enum ExploreCommand {
    FromUser { login: String },
    FromRepo { full_name: String },
    FromCategory { name: String },
    Snapshots,
}

#[derive(Debug, Clone, Copy, PartialEq, Eq, Structural)]
pub enum IdentityCommand {
    /// Encrypt and copy the configured identity store into the configured Neo4j database
    /// once; `confirm` acknowledges that the target database will be written.
    MigrateToNeo4j { confirm: bool },
}

#[derive(Debug, Clone, Copy, PartialEq, Eq, Structural)]
pub enum SchemaCommand {
    /// Apply all pending idempotent Neo4j schema migrations.
    Apply,
    /// Verify migration checksums, schema definitions, indexes, and backfills.
    Check,
}

#[derive(Debug)]
pub enum Commands {
    Serve,
    Auth { command: AuthCommand },
    Sync { command: SyncCommand },
    Graph { command: GraphCommand },
    Bookmark { command: BookmarkCommand },
    Category { command: CategoryCommand },
    Explore { command: ExploreCommand },
    Identity { command: IdentityCommand },
    Schema { command: SchemaCommand },
}

#[derive(Debug)]
pub struct Cli {
    pub user_id: String,
    pub format: OutputFormat,
    pub command: Commands,
}

/// Why an argument list was refused.
#[derive(Debug)]
pub enum CliError {
    /// A token that no option, flag or positional argument of the command accepts.
    UnexpectedArgument(String),
    /// An option given without its value.
    MissingValue(String),
    /// An option value that is not one the option takes: the option and the value.
    InvalidValue(String, String),
    /// An option that holds one value, given more than once.
    Repeated(String),
    /// A required argument that was not given.
    MissingArgument(String),
    /// The list ends where a command or subcommand is expected.
    MissingCommand,
    /// A name that is not a command or subcommand here.
    UnknownCommand(String),
}

// ---------------------------------------------------------------------------------------
// Views
// ---------------------------------------------------------------------------------------

pub ghost enum CliFault {
    UnexpectedArgument(Seq<char>),
    MissingValue(Seq<char>),
    InvalidValue(Seq<char>, Seq<char>),
    Repeated(Seq<char>),
    MissingArgument(Seq<char>),
    MissingCommand,
    UnknownCommand(Seq<char>),
}

impl View for CliError {
    type V = CliFault;

    open spec fn view(&self) -> CliFault {
        match self {
            CliError::UnexpectedArgument(t) => CliFault::UnexpectedArgument(t@),
            CliError::MissingValue(n) => CliFault::MissingValue(n@),
            CliError::InvalidValue(n, v) => CliFault::InvalidValue(n@, v@),
            CliError::Repeated(n) => CliFault::Repeated(n@),
            CliError::MissingArgument(n) => CliFault::MissingArgument(n@),
            CliError::MissingCommand => CliFault::MissingCommand,
            CliError::UnknownCommand(n) => CliFault::UnknownCommand(n@),
        }
    }
}

pub ghost enum AuthCommandView {
    Login { mode: Seq<char>, device_code: Option<Seq<char>> },
    Status,
    Logout,
}

pub ghost enum GraphCommandView {
    Expand { login: Seq<char> },
    Crawl {
        login: Seq<char>,
        request_reserve: usize,
        max_expansions: usize,
        max_discovered_nodes: usize,
        delay_ms: u64,
    },
    RateLimit,
}

pub ghost enum BookmarkCommandView {
    Add {
        user: Option<Seq<char>>,
        repo: Option<Seq<char>>,
        categories: Seq<Seq<char>>,
        note: Option<Seq<char>>,
    },
    List,
}

pub ghost enum CategoryCommandView {
    Create { name: Seq<char>, description: Option<Seq<char>> },
    List,
}

pub ghost enum ExploreCommandView {
    FromUser { login: Seq<char> },
    FromRepo { full_name: Seq<char> },
    FromCategory { name: Seq<char> },
    Snapshots,
}

pub ghost enum CommandsView {
    Serve,
    Auth(AuthCommandView),
    Sync(SyncCommand),
    Graph(GraphCommandView),
    Bookmark(BookmarkCommandView),
    Category(CategoryCommandView),
    Explore(ExploreCommandView),
    Identity(IdentityCommand),
    Schema(SchemaCommand),
}

pub ghost struct CliView {
    pub user_id: Seq<char>,
    pub format: OutputFormat,
    pub command: CommandsView,
}

impl View for AuthCommand {
    type V = AuthCommandView;

    open spec fn view(&self) -> AuthCommandView {
        match self {
            AuthCommand::Login { mode, device_code } => AuthCommandView::Login {
                mode: mode@,
                device_code: opt_view(*device_code),
            },
            AuthCommand::Status => AuthCommandView::Status,
            AuthCommand::Logout => AuthCommandView::Logout,
        }
    }
}

impl View for GraphCommand {
    type V = GraphCommandView;

    open spec fn view(&self) -> GraphCommandView {
        match self {
            GraphCommand::Expand { login } => GraphCommandView::Expand { login: login@ },
            GraphCommand::Crawl {
                login,
                request_reserve,
                max_expansions,
                max_discovered_nodes,
                delay_ms,
            } => GraphCommandView::Crawl {
                login: login@,
                request_reserve: *request_reserve,
                max_expansions: *max_expansions,
                max_discovered_nodes: *max_discovered_nodes,
                delay_ms: *delay_ms,
            },
            GraphCommand::RateLimit => GraphCommandView::RateLimit,
        }
    }
}

impl View for BookmarkCommand {
    type V = BookmarkCommandView;

    open spec fn view(&self) -> BookmarkCommandView {
        match self {
            BookmarkCommand::Add { user, repo, categories, note } => BookmarkCommandView::Add {
                user: opt_view(*user),
                repo: opt_view(*repo),
                categories: views(categories@),
                note: opt_view(*note),
            },
            BookmarkCommand::List => BookmarkCommandView::List,
        }
    }
}

impl View for CategoryCommand {
    type V = CategoryCommandView;

    open spec fn view(&self) -> CategoryCommandView {
        match self {
            CategoryCommand::Create { name, description } => CategoryCommandView::Create {
                name: name@,
                description: opt_view(*description),
            },
            CategoryCommand::List => CategoryCommandView::List,
        }
    }
}

impl View for ExploreCommand {
    type V = ExploreCommandView;

    open spec fn view(&self) -> ExploreCommandView {
        match self {
            ExploreCommand::FromUser { login } => ExploreCommandView::FromUser { login: login@ },
            ExploreCommand::FromRepo { full_name } => ExploreCommandView::FromRepo {
                full_name: full_name@,
            },
            ExploreCommand::FromCategory { name } => ExploreCommandView::FromCategory {
                name: name@,
            },
            ExploreCommand::Snapshots => ExploreCommandView::Snapshots,
        }
    }
}

impl View for Commands {
    type V = CommandsView;

    open spec fn view(&self) -> CommandsView {
        match self {
            Commands::Serve => CommandsView::Serve,
            Commands::Auth { command } => CommandsView::Auth(command@),
            Commands::Sync { command } => CommandsView::Sync(*command),
            Commands::Graph { command } => CommandsView::Graph(command@),
            Commands::Bookmark { command } => CommandsView::Bookmark(command@),
            Commands::Category { command } => CommandsView::Category(command@),
            Commands::Explore { command } => CommandsView::Explore(command@),
            Commands::Identity { command } => CommandsView::Identity(*command),
            Commands::Schema { command } => CommandsView::Schema(*command),
        }
    }
}

impl View for Cli {
    type V = CliView;

    open spec fn view(&self) -> CliView {
        CliView { user_id: self.user_id@, format: self.format, command: self.command@ }
    }
}

// ---------------------------------------------------------------------------------------
// Reading one command's arguments
// ---------------------------------------------------------------------------------------

/// A token that reads as an option or flag rather than as a value.
pub open spec fn option_like(t: Seq<char>) -> bool {
    t.len() > 1 && t[0] == '-'
}

/// The part of a text before its first `=`.
pub open spec fn before_eq(s: Seq<char>) -> Seq<char>
    decreases s.len(),
{
    if s.len() == 0 || s[0] == '=' {
        Seq::empty()
    } else {
        seq![s[0]] + before_eq(s.drop_first())
    }
}

/// The part of a text after its first `=`.
pub open spec fn after_eq(s: Seq<char>) -> Seq<char> {
    s.skip(before_eq(s).len() + 1int)
}

/// The options (name and value, in order; a flag has the value `true`) and the positional
/// arguments of one command.
pub ghost struct Scan {
    pub options: Seq<(Seq<char>, Seq<char>)>,
    pub positionals: Seq<Seq<char>>,
}

pub open spec fn with_option(name: Seq<char>, value: Seq<char>, rest: Result<Scan, CliFault>) -> Result<
    Scan,
    CliFault,
> {
    match rest {
        Ok(s) => Ok(Scan { options: seq![(name, value)] + s.options, positionals: s.positionals }),
        Err(e) => Err(e),
    }
}

pub open spec fn with_positional(t: Seq<char>, rest: Result<Scan, CliFault>) -> Result<
    Scan,
    CliFault,
> {
    match rest {
        Ok(s) => Ok(Scan { options: s.options, positionals: seq![t] + s.positionals }),
        Err(e) => Err(e),
    }
}

/// Reads a command's arguments, given the names of its flags and of its options that take
/// a value.
/// With `stop`, reading ends at the first positional argument, and that argument and all
/// that follow it are the positionals, as they stand.
pub open spec fn scan(
    t: Seq<Seq<char>>,
    flags: Set<Seq<char>>,
    valued: Set<Seq<char>>,
    stop: bool,
) -> Result<Scan, CliFault>
    decreases t.len(),
{
    if t.len() == 0 {
        Ok(Scan { options: Seq::empty(), positionals: Seq::empty() })
    } else {
        let tok = t[0];
        if has_prefix(tok, "--"@) {
            let body = tok.skip(2);
            if body.contains('=') {
                if valued.contains(before_eq(body)) {
                    with_option(before_eq(body), after_eq(body), scan(t.skip(1), flags, valued, stop))
                } else {
                    Err(CliFault::UnexpectedArgument(tok))
                }
            } else if flags.contains(body) {
                with_option(body, "true"@, scan(t.skip(1), flags, valued, stop))
            } else if valued.contains(body) {
                if t.len() > 1 && !option_like(t[1]) {
                    with_option(body, t[1], scan(t.skip(2), flags, valued, stop))
                } else {
                    Err(CliFault::MissingValue(body))
                }
            } else {
                Err(CliFault::UnexpectedArgument(tok))
            }
        } else if option_like(tok) {
            Err(CliFault::UnexpectedArgument(tok))
        } else if stop {
            Ok(Scan { options: Seq::empty(), positionals: t })
        } else {
            with_positional(tok, scan(t.skip(1), flags, valued, stop))
        }
    }
}

/// `acc` followed by what `rest` read.
pub open spec fn after(acc: Scan, rest: Result<Scan, CliFault>) -> Result<Scan, CliFault> {
    match rest {
        Ok(s) => Ok(
            Scan {
                options: acc.options + s.options,
                positionals: acc.positionals + s.positionals,
            },
        ),
        Err(e) => Err(e),
    }
}

/// The options and positional arguments of one command, as read.
pub struct Scanned {
    pub options: Vec<(String, String)>,
    pub positionals: Vec<String>,
}

pub open spec fn pair_views(s: Seq<(String, String)>) -> Seq<(Seq<char>, Seq<char>)> {
    s.map_values(|p: (String, String)| (p.0@, p.1@))
}

impl View for Scanned {
    type V = Scan;

    open spec fn view(&self) -> Scan {
        Scan { options: pair_views(self.options@), positionals: views(self.positionals@) }
    }
}

fn contains_name(names: &Vec<&str>, name: &str) -> (r: bool)
    ensures
        r == views_str(names@).contains(name@),
{
    let mut i: usize = 0;
    while i < names.len()
        invariant
            i <= names.len(),
            forall|k: int| 0 <= k < i ==> names@[k]@ != name@,
        decreases names.len() - i,
    {
        if str_equal(names[i], name) {
            assert(views_str(names@)[i as int] == name@);
            return true;
        }
        i += 1;
    }
    assert forall|k: int| 0 <= k < views_str(names@).len() implies views_str(names@)[k]
        != name@ by {}
    false
}

/// The texts of a sequence of string slices.
pub open spec fn views_str(s: Seq<&str>) -> Seq<Seq<char>> {
    s.map_values(|x: &str| x@)
}

/// The position of the first `=` in a text, or its length.
pub(crate) fn eq_position(s: &Vec<char>) -> (k: usize)
    ensures
        k <= s.len(),
        s@.take(k as int) == before_eq(s@),
        k < s.len() <==> s@.contains('='),
        k < s.len() ==> s@[k as int] == '=',
{
    let mut k: usize = 0;
    assert(s@.skip(0) == s@);
    assert(s@.take(0) + before_eq(s@) == before_eq(s@));
    while k < s.len()
        invariant
            k <= s.len(),
            forall|i: int| 0 <= i < k ==> s@[i] != '=',
            before_eq(s@) == s@.take(k as int) + before_eq(s@.skip(k as int)),
        decreases s.len() - k,
    {
        if s[k] == '=' {
            assert(before_eq(s@.skip(k as int)) == Seq::<char>::empty());
            assert(s@.take(k as int) + Seq::<char>::empty() == s@.take(k as int));
            return k;
        }
        assert(s@.skip(k as int).drop_first() == s@.skip(k + 1));
        assert(s@.take(k + 1) == s@.take(k as int) + seq![s@[k as int]]);
        k += 1;
    }
    assert(s@.skip(k as int) == Seq::<char>::empty());
    assert(s@.take(k as int) == s@);
    assert(!s@.contains('='));
    k
}

pub(crate) fn sub_string(s: &Vec<char>, from: usize, to: usize) -> (r: String)
    requires
        from <= to <= s.len(),
    ensures
        r@ == s@.subrange(from as int, to as int),
{
    let mut v: Vec<char> = Vec::new();
    let mut i: usize = from;
    while i < to
        invariant
            from <= i <= to <= s.len(),
            v@ == s@.subrange(from as int, i as int),
        decreases to - i,
    {
        v.push(s[i]);
        i += 1;
    }
    string_from_chars(&v)
}

fn is_option_like(t: &str) -> (r: bool)
    ensures
        r == option_like(t@),
{
    let c = chars_of(t);
    c.len() > 1 && c[0] == '-'
}

/// Reads the arguments `args[start..]` of one command.
pub fn scan_arguments(
    args: &[&str],
    start: usize,
    flags: &Vec<&str>,
    valued: &Vec<&str>,
    stop: bool,
) -> (r: Result<Scanned, CliError>)
    requires
        start <= args@.len(),
    ensures
        r is Ok ==> scan(
            views_str(args@).skip(start as int),
            views_str(flags@).to_set(),
            views_str(valued@).to_set(),
            stop,
        ) == Ok::<Scan, CliFault>(r->Ok_0@),
        r is Err ==> scan(
            views_str(args@).skip(start as int),
            views_str(flags@).to_set(),
            views_str(valued@).to_set(),
            stop,
        ) == Err::<Scan, CliFault>(r->Err_0@),
{
    let ghost t = views_str(args@);
    let ghost fs = views_str(flags@).to_set();
    let ghost vs = views_str(valued@).to_set();
    let mut options: Vec<(String, String)> = Vec::new();
    let mut positionals: Vec<String> = Vec::new();
    let mut i: usize = start;
    while i < args.len()
        invariant
            start <= i <= args@.len(),
            t == views_str(args@),
            fs == views_str(flags@).to_set(),
            vs == views_str(valued@).to_set(),
            scan(t.skip(start as int), fs, vs, stop) == after(
                Scan { options: pair_views(options@), positionals: views(positionals@) },
                scan(t.skip(i as int), fs, vs, stop),
            ),
        decreases args.len() - i,
    {
        let ghost acc = Scan { options: pair_views(options@), positionals: views(positionals@) };
        let ghost rest = t.skip(i as int);
        assert(rest[0] == args@[i as int]@);
        assert(rest.skip(1) == t.skip(i + 1));
        let tok = args[i];
        if starts_with(tok, "--") {
            let chars = chars_of(tok);
            proof {
                reveal_strlit("--");
            }
            let body_start: usize = 2;
            let body = sub_string(&chars, body_start, chars.len());
            let body_chars = chars_of(body.as_str());
            assert(body_chars@ == tok@.skip(2));
            let k = eq_position(&body_chars);
            if k < body_chars.len() {
                let name = sub_string(&body_chars, 0, k);
                let value = sub_string(&body_chars, k + 1, body_chars.len());
                assert(name@ == before_eq(body_chars@));
                assert(value@ == after_eq(body_chars@));
                if contains_name(valued, name.as_str()) {
                    options.push((name, value));
                    proof {
                        assert(pair_views(options@) == acc.options.push((name@, value@)));
                        assert(body_chars@.contains('='));
                        assert(scan(rest, fs, vs, stop) == with_option(
                            name@,
                            value@,
                            scan(t.skip(i + 1), fs, vs, stop),
                        ));
                    }
                    i += 1;
                    proof {
                        lemma_after_option(acc, name@, value@, scan(t.skip(i as int), fs, vs, stop));
                    }
                } else {
                    return Err(CliError::UnexpectedArgument(tok.to_owned()));
                }
            } else {
                if contains_name(flags, body.as_str()) {
                    proof {
                        reveal_strlit("true");
                    }
                    let flag_value = "true".to_owned();
                    options.push((body, flag_value));
                    proof {
                        assert(pair_views(options@) == acc.options.push((body@, "true"@)));
                        assert(!body_chars@.contains('='));
                        assert(scan(rest, fs, vs, stop) == with_option(
                            body@,
                            "true"@,
                            scan(t.skip(i + 1), fs, vs, stop),
                        ));
                    }
                    i += 1;
                    proof {
                        lemma_after_option(acc, body@, "true"@, scan(t.skip(i as int), fs, vs, stop));
                    }
                } else if contains_name(valued, body.as_str()) {
                    if i + 1 < args.len() && !is_option_like(args[i + 1]) {
                        assert(rest[1] == args@[i + 1]@);
                        assert(rest.skip(2) == t.skip(i + 2));
                        let value = args[i + 1].to_owned();
                        options.push((body, value));
                        proof {
                            assert(pair_views(options@) == acc.options.push((body@, value@)));
                            assert(!body_chars@.contains('='));
                            assert(scan(rest, fs, vs, stop) == with_option(
                                body@,
                                value@,
                                scan(t.skip(i + 2), fs, vs, stop),
                            ));
                        }
                        i += 2;
                        proof {
                            lemma_after_option(acc, body@, value@, scan(t.skip(i as int), fs, vs, stop));
                        }
                    } else {
                        return Err(CliError::MissingValue(body));
                    }
                } else {
                    return Err(CliError::UnexpectedArgument(tok.to_owned()));
                }
            }
        } else if is_option_like(tok) {
            return Err(CliError::UnexpectedArgument(tok.to_owned()));
        } else if stop {
            let mut j: usize = i;
            while j < args.len()
                invariant
                    i <= j <= args@.len(),
                    positionals@.len() == acc.positionals.len() + (j - i),
                    views(positionals@) == acc.positionals + t.subrange(i as int, j as int),
                    t == views_str(args@),
                decreases args.len() - j,
            {
                let ghost before = positionals@;
                positionals.push(args[j].to_owned());
                assert(views(positionals@) == views(before).push(t[j as int]));
                assert(t.subrange(i as int, j + 1) == t.subrange(i as int, j as int).push(
                    t[j as int],
                ));
                j += 1;
            }
            assert(t.subrange(i as int, j as int) == rest);
            assert(pair_views(options@) == acc.options + Seq::<(Seq<char>, Seq<char>)>::empty());
            return Ok(Scanned { options, positionals });
        } else {
            positionals.push(tok.to_owned());
            proof {
                assert(views(positionals@) == acc.positionals.push(tok@));
                assert(scan(rest, fs, vs, stop) == with_positional(tok@, scan(t.skip(i + 1), fs, vs, stop)));
            }
            i += 1;
            proof {
                lemma_after_positional(acc, tok@, scan(t.skip(i as int), fs, vs, stop));
            }
        }
    }
    assert(t.skip(i as int) == Seq::<Seq<char>>::empty());
    let scanned = Scanned { options, positionals };
    assert(scanned@.options == scanned@.options + Seq::<(Seq<char>, Seq<char>)>::empty());
    assert(scanned@.positionals == scanned@.positionals + Seq::<Seq<char>>::empty());
    Ok(scanned)
}

proof fn lemma_after_option(
    acc: Scan,
    name: Seq<char>,
    value: Seq<char>,
    rest: Result<Scan, CliFault>,
)
    ensures
        after(acc, with_option(name, value, rest)) == after(
            Scan { options: acc.options.push((name, value)), positionals: acc.positionals },
            rest,
        ),
{
    if let Ok(s) = rest {
        assert(acc.options + (seq![(name, value)] + s.options) == acc.options.push((name, value))
            + s.options);
    }
}

proof fn lemma_after_positional(acc: Scan, t: Seq<char>, rest: Result<Scan, CliFault>)
    ensures
        after(acc, with_positional(t, rest)) == after(
            Scan { options: acc.options, positionals: acc.positionals.push(t) },
            rest,
        ),
{
    if let Ok(s) = rest {
        assert(acc.positionals + (seq![t] + s.positionals) == acc.positionals.push(t)
            + s.positionals);
    }
}

// ---------------------------------------------------------------------------------------
// Option values
// ---------------------------------------------------------------------------------------

/// The values given for option `name`, in order.
pub open spec fn values_of(options: Seq<(Seq<char>, Seq<char>)>, name: Seq<char>) -> Seq<Seq<char>>
    decreases options.len(),
{
    if options.len() == 0 {
        Seq::empty()
    } else {
        let rest = values_of(options.drop_last(), name);
        if options.last().0 == name {
            rest.push(options.last().1)
        } else {
            rest
        }
    }
}

/// The one value of an option that may be given at most once.
pub open spec fn single(s: Scan, name: Seq<char>) -> Result<Option<Seq<char>>, CliFault> {
    let v = values_of(s.options, name);
    if v.len() == 0 {
        Ok(None)
    } else if v.len() == 1 {
        Ok(Some(v[0]))
    } else {
        Err(CliFault::Repeated(name))
    }
}

/// A required option's value.
pub open spec fn required(s: Scan, name: Seq<char>) -> Result<Seq<char>, CliFault> {
    match single(s, name) {
        Err(e) => Err(e),
        Ok(None) => Err(CliFault::MissingArgument(name)),
        Ok(Some(v)) => Ok(v),
    }
}

/// A numeric option's value, or `default` where it is absent; `max` is the largest value
/// its type holds.
pub open spec fn numeric(s: Scan, name: Seq<char>, default: nat, max: nat) -> Result<nat, CliFault> {
    match single(s, name) {
        Err(e) => Err(e),
        Ok(None) => Ok(default),
        Ok(Some(v)) => match parsed_unsigned(v, max) {
            Some(n) => Ok(n),
            None => Err(CliFault::InvalidValue(name, v)),
        },
    }
}

/// The values of a list option, each split at commas.
pub open spec fn list_values(values: Seq<Seq<char>>) -> Seq<Seq<char>>
    decreases values.len(),
{
    if values.len() == 0 {
        Seq::empty()
    } else {
        list_values(values.drop_last()) + comma_pieces(values.last())
    }
}

fn option_values(s: &Scanned, name: &str) -> (r: Vec<String>)
    ensures
        views(r@) == values_of(s@.options, name@),
{
    let mut r: Vec<String> = Vec::new();
    let mut i: usize = 0;
    while i < s.options.len()
        invariant
            i <= s.options.len(),
            views(r@) == values_of(pair_views(s.options@).take(i as int), name@),
        decreases s.options.len() - i,
    {
        let ghost before = r@;
        assert(pair_views(s.options@).take(i + 1).drop_last() == pair_views(s.options@).take(
            i as int,
        ));
        if str_equal(s.options[i].0.as_str(), name) {
            r.push(s.options[i].1.clone());
            assert(views(r@) == views(before).push(s.options@[i as int].1@));
        }
        i += 1;
    }
    assert(pair_views(s.options@).take(s.options.len() as int) == pair_views(s.options@));
    r
}

fn single_value(s: &Scanned, name: &str) -> (r: Result<Option<String>, CliError>)
    ensures
        single(s@, name@) is Ok ==> r is Ok && opt_view(r->Ok_0) == single(s@, name@)->Ok_0,
        single(s@, name@) is Err ==> r is Err && r->Err_0@ == single(s@, name@)->Err_0,
{
    let mut values = option_values(s, name);
    if values.len() == 0 {
        Ok(None)
    } else if values.len() == 1 {
        assert(views(values@)[0] == values@[0]@);
        Ok(Some(values.remove(0)))
    } else {
        Err(CliError::Repeated(name.to_owned()))
    }
}

fn required_value(s: &Scanned, name: &str) -> (r: Result<String, CliError>)
    ensures
        required(s@, name@) is Ok ==> r is Ok && r->Ok_0@ == required(s@, name@)->Ok_0,
        required(s@, name@) is Err ==> r is Err && r->Err_0@ == required(s@, name@)->Err_0,
{
    match single_value(s, name)? {
        Some(v) => Ok(v),
        None => Err(CliError::MissingArgument(name.to_owned())),
    }
}

fn numeric_value(s: &Scanned, name: &str, default: u64, max: u64) -> (r: Result<u64, CliError>)
    requires
        default <= max,
    ensures
        numeric(s@, name@, default as nat, max as nat) is Ok ==> r is Ok && r->Ok_0 == numeric(
            s@,
            name@,
            default as nat,
            max as nat,
        )->Ok_0,
        numeric(s@, name@, default as nat, max as nat) is Err ==> r is Err && r->Err_0@
            == numeric(s@, name@, default as nat, max as nat)->Err_0,
        r is Ok ==> r->Ok_0 <= max,
{
    match single_value(s, name)? {
        None => Ok(default),
        Some(v) => match parse_unsigned(v.as_str(), max) {
            Some(n) => Ok(n),
            None => Err(CliError::InvalidValue(name.to_owned(), v)),
        },
    }
}

/// Splits a text at commas, keeping empty pieces.
fn split_commas(text: &str) -> (r: Vec<String>)
    ensures
        views(r@) == comma_pieces(text@),
{
    let chars = chars_of(text);
    let mut out: Vec<String> = Vec::new();
    let mut current: Vec<char> = Vec::new();
    let mut i: usize = 0;
    while i < chars.len()
        invariant
            i <= chars.len(),
            chars@ == text@,
            comma_pieces(chars@.take(i as int)) == views(out@).push(current@),
        decreases chars.len() - i,
    {
        let c = chars[i];
        assert(chars@.take(i + 1).drop_last() == chars@.take(i as int));
        assert(chars@.take(i + 1).last() == c);
        if c == ',' {
            let ghost before = out@;
            out.push(string_from_chars(&current));
            assert(views(out@) == views(before).push(current@));
            current = Vec::new();
        } else {
            proof {
                assert(views(out@).push(current@).update(views(out@).len() as int, current@.push(c))
                    == views(out@).push(current@.push(c)));
            }
            current.push(c);
        }
        i += 1;
    }
    assert(chars@.take(chars.len() as int) == chars@);
    let ghost before = out@;
    out.push(string_from_chars(&current));
    assert(views(out@) == views(before).push(current@));
    out
}

fn list_option(s: &Scanned, name: &str) -> (r: Vec<String>)
    ensures
        views(r@) == list_values(values_of(s@.options, name@)),
{
    let values = option_values(s, name);
    let mut out: Vec<String> = Vec::new();
    let mut i: usize = 0;
    while i < values.len()
        invariant
            i <= values.len(),
            views(out@) == list_values(views(values@).take(i as int)),
        decreases values.len() - i,
    {
        let pieces = split_commas(values[i].as_str());
        assert(views(values@).take(i + 1).drop_last() == views(values@).take(i as int));
        let mut j: usize = 0;
        let ghost start = views(out@);
        while j < pieces.len()
            invariant
                j <= pieces.len(),
                views(out@) == start + views(pieces@).take(j as int),
            decreases pieces.len() - j,
        {
            let ghost before = out@;
            out.push(pieces[j].clone());
            assert(views(out@) == views(before).push(pieces@[j as int]@));
            assert(views(pieces@).take(j + 1) == views(pieces@).take(j as int).push(
                pieces@[j as int]@,
            ));
            j += 1;
        }
        assert(views(pieces@).take(j as int) == views(pieces@));
        i += 1;
    }
    assert(views(values@).take(values.len() as int) == views(values@));
    out
}

/// The arguments of a command that takes the given options and no positional argument.
pub open spec fn plain(t: Seq<Seq<char>>, flags: Set<Seq<char>>, valued: Set<Seq<char>>) -> Result<
    Scan,
    CliFault,
> {
    match scan(t, flags, valued, false) {
        Err(e) => Err(e),
        Ok(s) => if s.positionals.len() > 0 {
            Err(CliFault::UnexpectedArgument(s.positionals[0]))
        } else {
            Ok(s)
        },
    }
}

/// The one positional argument of a command that takes no option.
pub open spec fn lone_positional(t: Seq<Seq<char>>, name: Seq<char>) -> Result<Seq<char>, CliFault> {
    match scan(t, Set::empty(), Set::empty(), false) {
        Err(e) => Err(e),
        Ok(s) => if s.positionals.len() == 0 {
            Err(CliFault::MissingArgument(name))
        } else if s.positionals.len() > 1 {
            Err(CliFault::UnexpectedArgument(s.positionals[1]))
        } else {
            Ok(s.positionals[0])
        },
    }
}

fn plain_arguments(args: &[&str], start: usize, flags: &Vec<&str>, valued: &Vec<&str>) -> (r: Result<
    Scanned,
    CliError,
>)
    requires
        start <= args@.len(),
    ensures
        r is Ok ==> plain(
            views_str(args@).skip(start as int),
            views_str(flags@).to_set(),
            views_str(valued@).to_set(),
        ) == Ok::<Scan, CliFault>(r->Ok_0@),
        r is Err ==> plain(
            views_str(args@).skip(start as int),
            views_str(flags@).to_set(),
            views_str(valued@).to_set(),
        ) == Err::<Scan, CliFault>(r->Err_0@),
{
    let s = scan_arguments(args, start, flags, valued, false)?;
    if s.positionals.len() > 0 {
        assert(s@.positionals[0] == s.positionals@[0]@);
        return Err(CliError::UnexpectedArgument(s.positionals[0].clone()));
    }
    Ok(s)
}

fn lone_positional_argument(args: &[&str], start: usize, name: &str) -> (r: Result<String, CliError>)
    requires
        start <= args@.len(),
    ensures
        r is Ok ==> lone_positional(views_str(args@).skip(start as int), name@) == Ok::<
            Seq<char>,
            CliFault,
        >(r->Ok_0@),
        r is Err ==> lone_positional(views_str(args@).skip(start as int), name@) == Err::<
            Seq<char>,
            CliFault,
        >(r->Err_0@),
{
    let none: Vec<&str> = Vec::new();
    assert(views_str(none@).to_set() =~= Set::<Seq<char>>::empty());
    let s = scan_arguments(args, start, &none, &none, false)?;
    if s.positionals.len() == 0 {
        Err(CliError::MissingArgument(name.to_owned()))
    } else if s.positionals.len() > 1 {
        assert(s@.positionals[1] == s.positionals@[1]@);
        Err(CliError::UnexpectedArgument(s.positionals[1].clone()))
    } else {
        assert(s@.positionals[0] == s.positionals@[0]@);
        Ok(s.positionals[0].clone())
    }
}

// ---------------------------------------------------------------------------------------
// Commands
// ---------------------------------------------------------------------------------------

/// A command that takes no argument at all.
pub open spec fn bare(t: Seq<Seq<char>>) -> bool {
    plain(t, Set::empty(), Set::empty()) is Ok
}

/// The refusal of a command that takes no argument, where it was given one.
pub open spec fn bare_fault(t: Seq<Seq<char>>) -> CliFault {
    plain(t, Set::empty(), Set::empty())->Err_0
}

pub open spec fn auth_command(sub: Seq<char>, t: Seq<Seq<char>>) -> Result<AuthCommandView, CliFault> {
    if sub == "login"@ {
        match plain(t, Set::empty(), set!["mode"@, "device-code"@]) {
            Err(e) => Err(e),
            Ok(s) => match single(s, "mode"@) {
                Err(e) => Err(e),
                Ok(mode) => match single(s, "device-code"@) {
                    Err(e) => Err(e),
                    Ok(device_code) => Ok(
                        AuthCommandView::Login {
                            mode: match mode {
                                Some(m) => m,
                                None => "device"@,
                            },
                            device_code,
                        },
                    ),
                },
            },
        }
    } else if sub == "status"@ || sub == "logout"@ {
        if bare(t) {
            Ok(
                if sub == "status"@ {
                    AuthCommandView::Status
                } else {
                    AuthCommandView::Logout
                },
            )
        } else {
            Err(bare_fault(t))
        }
    } else {
        Err(CliFault::UnknownCommand(sub))
    }
}

pub open spec fn sync_command(sub: Seq<char>, t: Seq<Seq<char>>) -> Result<SyncCommand, CliFault> {
    if sub == "run"@ || sub == "status"@ {
        if bare(t) {
            Ok(
                if sub == "run"@ {
                    SyncCommand::Run
                } else {
                    SyncCommand::Status
                },
            )
        } else {
            Err(bare_fault(t))
        }
    } else {
        Err(CliFault::UnknownCommand(sub))
    }
}

pub open spec fn crawl_options() -> Set<Seq<char>> {
    set![
        "login"@,
        "request-reserve"@,
        "max-expansions"@,
        "max-discovered-nodes"@,
        "delay-ms"@,
    ]
}

pub open spec fn graph_command(sub: Seq<char>, t: Seq<Seq<char>>) -> Result<GraphCommandView, CliFault> {
    if sub == "expand"@ {
        match plain(t, Set::empty(), set!["login"@]) {
            Err(e) => Err(e),
            Ok(s) => match required(s, "login"@) {
                Err(e) => Err(e),
                Ok(login) => Ok(GraphCommandView::Expand { login }),
            },
        }
    } else if sub == "crawl"@ {
        match plain(t, Set::empty(), crawl_options()) {
            Err(e) => Err(e),
            Ok(s) => match required(s, "login"@) {
                Err(e) => Err(e),
                Ok(login) => match numeric(
                    s,
                    "request-reserve"@,
                    GITHUB_CORE_REST_RESERVE as nat,
                    usize::MAX as nat,
                ) {
                    Err(e) => Err(e),
                    Ok(request_reserve) => match numeric(
                        s,
                        "max-expansions"@,
                        350,
                        usize::MAX as nat,
                    ) {
                        Err(e) => Err(e),
                        Ok(max_expansions) => match numeric(
                            s,
                            "max-discovered-nodes"@,
                            180_000,
                            usize::MAX as nat,
                        ) {
                            Err(e) => Err(e),
                            Ok(max_discovered_nodes) => match numeric(
                                s,
                                "delay-ms"@,
                                250,
                                u64::MAX as nat,
                            ) {
                                Err(e) => Err(e),
                                Ok(delay_ms) => Ok(
                                    GraphCommandView::Crawl {
                                        login,
                                        request_reserve: request_reserve as usize,
                                        max_expansions: max_expansions as usize,
                                        max_discovered_nodes: max_discovered_nodes as usize,
                                        delay_ms: delay_ms as u64,
                                    },
                                ),
                            },
                        },
                    },
                },
            },
        }
    } else if sub == "rate-limit"@ {
        if bare(t) {
            Ok(GraphCommandView::RateLimit)
        } else {
            Err(bare_fault(t))
        }
    } else {
        Err(CliFault::UnknownCommand(sub))
    }
}

pub open spec fn bookmark_command(sub: Seq<char>, t: Seq<Seq<char>>) -> Result<
    BookmarkCommandView,
    CliFault,
> {
    if sub == "add"@ {
        match plain(t, Set::empty(), set!["user"@, "repo"@, "categories"@, "note"@]) {
            Err(e) => Err(e),
            Ok(s) => match single(s, "user"@) {
                Err(e) => Err(e),
                Ok(user) => match single(s, "repo"@) {
                    Err(e) => Err(e),
                    Ok(repo) => match single(s, "note"@) {
                        Err(e) => Err(e),
                        Ok(note) => Ok(
                            BookmarkCommandView::Add {
                                user,
                                repo,
                                categories: list_values(values_of(s.options, "categories"@)),
                                note,
                            },
                        ),
                    },
                },
            },
        }
    } else if sub == "list"@ {
        if bare(t) {
            Ok(BookmarkCommandView::List)
        } else {
            Err(bare_fault(t))
        }
    } else {
        Err(CliFault::UnknownCommand(sub))
    }
}

pub open spec fn category_command(sub: Seq<char>, t: Seq<Seq<char>>) -> Result<
    CategoryCommandView,
    CliFault,
> {
    if sub == "create"@ {
        match scan(t, Set::empty(), set!["description"@], false) {
            Err(e) => Err(e),
            Ok(s) => if s.positionals.len() == 0 {
                Err(CliFault::MissingArgument("name"@))
            } else if s.positionals.len() > 1 {
                Err(CliFault::UnexpectedArgument(s.positionals[1]))
            } else {
                match single(s, "description"@) {
                    Err(e) => Err(e),
                    Ok(description) => Ok(
                        CategoryCommandView::Create { name: s.positionals[0], description },
                    ),
                }
            },
        }
    } else if sub == "list"@ {
        if bare(t) {
            Ok(CategoryCommandView::List)
        } else {
            Err(bare_fault(t))
        }
    } else {
        Err(CliFault::UnknownCommand(sub))
    }
}

pub open spec fn explore_command(sub: Seq<char>, t: Seq<Seq<char>>) -> Result<
    ExploreCommandView,
    CliFault,
> {
    if sub == "from-user"@ {
        match lone_positional(t, "login"@) {
            Err(e) => Err(e),
            Ok(login) => Ok(ExploreCommandView::FromUser { login }),
        }
    } else if sub == "from-repo"@ {
        match lone_positional(t, "full-name"@) {
            Err(e) => Err(e),
            Ok(full_name) => Ok(ExploreCommandView::FromRepo { full_name }),
        }
    } else if sub == "from-category"@ {
        match lone_positional(t, "name"@) {
            Err(e) => Err(e),
            Ok(name) => Ok(ExploreCommandView::FromCategory { name }),
        }
    } else if sub == "snapshots"@ {
        if bare(t) {
            Ok(ExploreCommandView::Snapshots)
        } else {
            Err(bare_fault(t))
        }
    } else {
        Err(CliFault::UnknownCommand(sub))
    }
}

pub open spec fn identity_command(sub: Seq<char>, t: Seq<Seq<char>>) -> Result<
    IdentityCommand,
    CliFault,
> {
    if sub == "migrate-to-neo4j"@ {
        match plain(t, set!["confirm"@], Set::empty()) {
            Err(e) => Err(e),
            Ok(s) => match single(s, "confirm"@) {
                Err(e) => Err(e),
                Ok(confirm) => Ok(IdentityCommand::MigrateToNeo4j { confirm: confirm is Some }),
            },
        }
    } else {
        Err(CliFault::UnknownCommand(sub))
    }
}

pub open spec fn schema_command(sub: Seq<char>, t: Seq<Seq<char>>) -> Result<SchemaCommand, CliFault> {
    if sub == "apply"@ || sub == "check"@ {
        if bare(t) {
            Ok(
                if sub == "apply"@ {
                    SchemaCommand::Apply
                } else {
                    SchemaCommand::Check
                },
            )
        } else {
            Err(bare_fault(t))
        }
    } else {
        Err(CliFault::UnknownCommand(sub))
    }
}

/// Wraps a group's subcommand.
pub open spec fn in_group<A>(r: Result<A, CliFault>, wrap: spec_fn(A) -> CommandsView) -> Result<
    CommandsView,
    CliFault,
> {
    match r {
        Ok(c) => Ok(wrap(c)),
        Err(e) => Err(e),
    }
}

pub open spec fn is_group(name: Seq<char>) -> bool {
    ||| name == "auth"@
    ||| name == "sync"@
    ||| name == "graph"@
    ||| name == "bookmark"@
    ||| name == "category"@
    ||| name == "explore"@
    ||| name == "identity"@
    ||| name == "schema"@
}

/// The subcommand `sub` of group `name`, with its arguments `t`.
pub open spec fn group_subcommand(name: Seq<char>, sub: Seq<char>, t: Seq<Seq<char>>) -> Result<
    CommandsView,
    CliFault,
> {
    if name == "auth"@ {
        in_group(auth_command(sub, t), |c: AuthCommandView| CommandsView::Auth(c))
    } else if name == "sync"@ {
        in_group(sync_command(sub, t), |c: SyncCommand| CommandsView::Sync(c))
    } else if name == "graph"@ {
        in_group(graph_command(sub, t), |c: GraphCommandView| CommandsView::Graph(c))
    } else if name == "bookmark"@ {
        in_group(bookmark_command(sub, t), |c: BookmarkCommandView| CommandsView::Bookmark(c))
    } else if name == "category"@ {
        in_group(category_command(sub, t), |c: CategoryCommandView| CommandsView::Category(c))
    } else if name == "explore"@ {
        in_group(explore_command(sub, t), |c: ExploreCommandView| CommandsView::Explore(c))
    } else if name == "identity"@ {
        in_group(identity_command(sub, t), |c: IdentityCommand| CommandsView::Identity(c))
    } else {
        in_group(schema_command(sub, t), |c: SchemaCommand| CommandsView::Schema(c))
    }
}

/// The command `name`, with what follows it `t`.
pub open spec fn command(name: Seq<char>, t: Seq<Seq<char>>) -> Result<CommandsView, CliFault> {
    if name == "serve"@ {
        if bare(t) {
            Ok(CommandsView::Serve)
        } else {
            Err(bare_fault(t))
        }
    } else if is_group(name) {
        if t.len() == 0 {
            Err(CliFault::MissingCommand)
        } else if option_like(t[0]) {
            Err(CliFault::UnexpectedArgument(t[0]))
        } else {
            group_subcommand(name, t[0], t.skip(1))
        }
    } else {
        Err(CliFault::UnknownCommand(name))
    }
}

/// What an argument list (the program name first) reads as.
pub open spec fn parsed_cli(args: Seq<Seq<char>>) -> Result<CliView, CliFault> {
    if args.len() == 0 {
        Err(CliFault::MissingCommand)
    } else {
        match scan(args.skip(1), Set::empty(), set!["user-id"@, "format"@], true) {
            Err(e) => Err(e),
            Ok(g) => match single(g, "user-id"@) {
                Err(e) => Err(e),
                Ok(user_id) => match single(g, "format"@) {
                    Err(e) => Err(e),
                    Ok(format) => {
                        let chosen = match format {
                            None => Ok(OutputFormat::Text),
                            Some(f) => if f == "text"@ {
                                Ok(OutputFormat::Text)
                            } else if f == "json"@ {
                                Ok(OutputFormat::Json)
                            } else {
                                Err(CliFault::InvalidValue("format"@, f))
                            },
                        };
                        match chosen {
                            Err(e) => Err(e),
                            Ok(format) => if g.positionals.len() == 0 {
                                Err(CliFault::MissingCommand)
                            } else {
                                match command(g.positionals[0], g.positionals.skip(1)) {
                                    Err(e) => Err(e),
                                    Ok(command) => Ok(
                                        CliView {
                                            user_id: match user_id {
                                                Some(u) => u,
                                                None => "default"@,
                                            },
                                            format,
                                            command,
                                        },
                                    ),
                                }
                            },
                        }
                    },
                },
            },
        }
    }
}

// ---------------------------------------------------------------------------------------
// Reading commands
// ---------------------------------------------------------------------------------------

proof fn lemma_set_of_one(a: Seq<char>)
    ensures
        seq![a].to_set() == set![a],
{
    assert(seq![a][0] == a);
    assert(seq![a].to_set() =~= set![a]);
}

proof fn lemma_set_of_two(a: Seq<char>, b: Seq<char>)
    ensures
        seq![a, b].to_set() == set![a, b],
{
    assert(seq![a, b][0] == a);
    assert(seq![a, b][1] == b);
    assert(seq![a, b].to_set() =~= set![a, b]);
}

proof fn lemma_set_of_four(a: Seq<char>, b: Seq<char>, c: Seq<char>, d: Seq<char>)
    ensures
        seq![a, b, c, d].to_set() == set![a, b, c, d],
{
    let s = seq![a, b, c, d];
    assert(s[0] == a && s[1] == b && s[2] == c && s[3] == d);
    assert(s.to_set() =~= set![a, b, c, d]);
}

proof fn lemma_set_of_five(a: Seq<char>, b: Seq<char>, c: Seq<char>, d: Seq<char>, e: Seq<char>)
    ensures
        seq![a, b, c, d, e].to_set() == set![a, b, c, d, e],
{
    let s = seq![a, b, c, d, e];
    assert(s[0] == a && s[1] == b && s[2] == c && s[3] == d && s[4] == e);
    assert(s.to_set() =~= set![a, b, c, d, e]);
}

fn no_names() -> (r: Vec<&'static str>)
    ensures
        views_str(r@).to_set() == Set::<Seq<char>>::empty(),
{
    let r: Vec<&'static str> = Vec::new();
    assert(views_str(r@).to_set() =~= Set::<Seq<char>>::empty());
    r
}

fn one_name(a: &'static str) -> (r: Vec<&'static str>)
    ensures
        views_str(r@).to_set() == set![a@],
{
    let mut r: Vec<&'static str> = Vec::new();
    r.push(a);
    assert(views_str(r@) =~= seq![a@]);
    proof {
        lemma_set_of_one(a@);
    }
    r
}

fn bare_arguments(args: &[&str], start: usize) -> (r: Result<(), CliError>)
    requires
        start <= args@.len(),
    ensures
        r is Ok <==> bare(views_str(args@).skip(start as int)),
        r is Err ==> r->Err_0@ == bare_fault(views_str(args@).skip(start as int)),
{
    let none = no_names();
    plain_arguments(args, start, &none, &none)?;
    Ok(())
}

fn parse_auth(args: &[&str], sub: &str, start: usize) -> (r: Result<AuthCommand, CliError>)
    requires
        start <= args@.len(),
    ensures
        r is Ok ==> auth_command(sub@, views_str(args@).skip(start as int)) == Ok::<
            AuthCommandView,
            CliFault,
        >(r->Ok_0@),
        r is Err ==> auth_command(sub@, views_str(args@).skip(start as int)) == Err::<
            AuthCommandView,
            CliFault,
        >(r->Err_0@),
{
    if str_equal(sub, "login") {
        let none = no_names();
        let mut valued: Vec<&str> = Vec::new();
        valued.push("mode");
        valued.push("device-code");
        assert(views_str(valued@) =~= seq!["mode"@, "device-code"@]);
        proof {
            lemma_set_of_two("mode"@, "device-code"@);
        }
        let s = plain_arguments(args, start, &none, &valued)?;
        let mode = single_value(&s, "mode")?;
        let device_code = single_value(&s, "device-code")?;
        let mode = match mode {
            Some(m) => m,
            None => "device".to_owned(),
        };
        Ok(AuthCommand::Login { mode, device_code })
    } else if str_equal(sub, "status") || str_equal(sub, "logout") {
        bare_arguments(args, start)?;
        if str_equal(sub, "status") {
            Ok(AuthCommand::Status)
        } else {
            Ok(AuthCommand::Logout)
        }
    } else {
        Err(CliError::UnknownCommand(sub.to_owned()))
    }
}

fn parse_sync(args: &[&str], sub: &str, start: usize) -> (r: Result<SyncCommand, CliError>)
    requires
        start <= args@.len(),
    ensures
        r is Ok ==> sync_command(sub@, views_str(args@).skip(start as int)) == Ok::<
            SyncCommand,
            CliFault,
        >(r->Ok_0),
        r is Err ==> sync_command(sub@, views_str(args@).skip(start as int)) == Err::<
            SyncCommand,
            CliFault,
        >(r->Err_0@),
{
    if str_equal(sub, "run") || str_equal(sub, "status") {
        bare_arguments(args, start)?;
        if str_equal(sub, "run") {
            Ok(SyncCommand::Run)
        } else {
            Ok(SyncCommand::Status)
        }
    } else {
        Err(CliError::UnknownCommand(sub.to_owned()))
    }
}

fn parse_graph(args: &[&str], sub: &str, start: usize) -> (r: Result<GraphCommand, CliError>)
    requires
        start <= args@.len(),
    ensures
        r is Ok ==> graph_command(sub@, views_str(args@).skip(start as int)) == Ok::<
            GraphCommandView,
            CliFault,
        >(r->Ok_0@),
        r is Err ==> graph_command(sub@, views_str(args@).skip(start as int)) == Err::<
            GraphCommandView,
            CliFault,
        >(r->Err_0@),
{
    let none = no_names();
    if str_equal(sub, "expand") {
        let valued = one_name("login");
        let s = plain_arguments(args, start, &none, &valued)?;
        let login = required_value(&s, "login")?;
        Ok(GraphCommand::Expand { login })
    } else if str_equal(sub, "crawl") {
        let mut valued: Vec<&str> = Vec::new();
        valued.push("login");
        valued.push("request-reserve");
        valued.push("max-expansions");
        valued.push("max-discovered-nodes");
        valued.push("delay-ms");
        assert(views_str(valued@) =~= seq![
            "login"@,
            "request-reserve"@,
            "max-expansions"@,
            "max-discovered-nodes"@,
            "delay-ms"@,
        ]);
        proof {
            lemma_set_of_five(
                "login"@,
                "request-reserve"@,
                "max-expansions"@,
                "max-discovered-nodes"@,
                "delay-ms"@,
            );
        }
        let s = plain_arguments(args, start, &none, &valued)?;
        let login = required_value(&s, "login")?;
        let max = usize::MAX as u64;
        let request_reserve = numeric_value(
            &s,
            "request-reserve",
            GITHUB_CORE_REST_RESERVE as u64,
            max,
        )?;
        let max_expansions = numeric_value(&s, "max-expansions", 350, max)?;
        let max_discovered_nodes = numeric_value(&s, "max-discovered-nodes", 180_000, max)?;
        let delay_ms = numeric_value(&s, "delay-ms", 250, u64::MAX)?;
        Ok(
            GraphCommand::Crawl {
                login,
                request_reserve: request_reserve as usize,
                max_expansions: max_expansions as usize,
                max_discovered_nodes: max_discovered_nodes as usize,
                delay_ms,
            },
        )
    } else if str_equal(sub, "rate-limit") {
        bare_arguments(args, start)?;
        Ok(GraphCommand::RateLimit)
    } else {
        Err(CliError::UnknownCommand(sub.to_owned()))
    }
}

fn parse_bookmark(args: &[&str], sub: &str, start: usize) -> (r: Result<BookmarkCommand, CliError>)
    requires
        start <= args@.len(),
    ensures
        r is Ok ==> bookmark_command(sub@, views_str(args@).skip(start as int)) == Ok::<
            BookmarkCommandView,
            CliFault,
        >(r->Ok_0@),
        r is Err ==> bookmark_command(sub@, views_str(args@).skip(start as int)) == Err::<
            BookmarkCommandView,
            CliFault,
        >(r->Err_0@),
{
    if str_equal(sub, "add") {
        let none = no_names();
        let mut valued: Vec<&str> = Vec::new();
        valued.push("user");
        valued.push("repo");
        valued.push("categories");
        valued.push("note");
        assert(views_str(valued@) =~= seq!["user"@, "repo"@, "categories"@, "note"@]);
        proof {
            lemma_set_of_four("user"@, "repo"@, "categories"@, "note"@);
        }
        let s = plain_arguments(args, start, &none, &valued)?;
        let user = single_value(&s, "user")?;
        let repo = single_value(&s, "repo")?;
        let note = single_value(&s, "note")?;
        let categories = list_option(&s, "categories");
        Ok(BookmarkCommand::Add { user, repo, categories, note })
    } else if str_equal(sub, "list") {
        bare_arguments(args, start)?;
        Ok(BookmarkCommand::List)
    } else {
        Err(CliError::UnknownCommand(sub.to_owned()))
    }
}

fn parse_category(args: &[&str], sub: &str, start: usize) -> (r: Result<CategoryCommand, CliError>)
    requires
        start <= args@.len(),
    ensures
        r is Ok ==> category_command(sub@, views_str(args@).skip(start as int)) == Ok::<
            CategoryCommandView,
            CliFault,
        >(r->Ok_0@),
        r is Err ==> category_command(sub@, views_str(args@).skip(start as int)) == Err::<
            CategoryCommandView,
            CliFault,
        >(r->Err_0@),
{
    if str_equal(sub, "create") {
        let none = no_names();
        let valued = one_name("description");
        let s = scan_arguments(args, start, &none, &valued, false)?;
        if s.positionals.len() == 0 {
            return Err(CliError::MissingArgument("name".to_owned()));
        }
        if s.positionals.len() > 1 {
            assert(s@.positionals[1] == s.positionals@[1]@);
            return Err(CliError::UnexpectedArgument(s.positionals[1].clone()));
        }
        let description = single_value(&s, "description")?;
        assert(s@.positionals[0] == s.positionals@[0]@);
        Ok(CategoryCommand::Create { name: s.positionals[0].clone(), description })
    } else if str_equal(sub, "list") {
        bare_arguments(args, start)?;
        Ok(CategoryCommand::List)
    } else {
        Err(CliError::UnknownCommand(sub.to_owned()))
    }
}

fn parse_explore(args: &[&str], sub: &str, start: usize) -> (r: Result<ExploreCommand, CliError>)
    requires
        start <= args@.len(),
    ensures
        r is Ok ==> explore_command(sub@, views_str(args@).skip(start as int)) == Ok::<
            ExploreCommandView,
            CliFault,
        >(r->Ok_0@),
        r is Err ==> explore_command(sub@, views_str(args@).skip(start as int)) == Err::<
            ExploreCommandView,
            CliFault,
        >(r->Err_0@),
{
    if str_equal(sub, "from-user") {
        let login = lone_positional_argument(args, start, "login")?;
        Ok(ExploreCommand::FromUser { login })
    } else if str_equal(sub, "from-repo") {
        let full_name = lone_positional_argument(args, start, "full-name")?;
        Ok(ExploreCommand::FromRepo { full_name })
    } else if str_equal(sub, "from-category") {
        let name = lone_positional_argument(args, start, "name")?;
        Ok(ExploreCommand::FromCategory { name })
    } else if str_equal(sub, "snapshots") {
        bare_arguments(args, start)?;
        Ok(ExploreCommand::Snapshots)
    } else {
        Err(CliError::UnknownCommand(sub.to_owned()))
    }
}

fn parse_identity(args: &[&str], sub: &str, start: usize) -> (r: Result<IdentityCommand, CliError>)
    requires
        start <= args@.len(),
    ensures
        r is Ok ==> identity_command(sub@, views_str(args@).skip(start as int)) == Ok::<
            IdentityCommand,
            CliFault,
        >(r->Ok_0),
        r is Err ==> identity_command(sub@, views_str(args@).skip(start as int)) == Err::<
            IdentityCommand,
            CliFault,
        >(r->Err_0@),
{
    if str_equal(sub, "migrate-to-neo4j") {
        let flags = one_name("confirm");
        let none = no_names();
        let s = plain_arguments(args, start, &flags, &none)?;
        let confirm = single_value(&s, "confirm")?;
        Ok(IdentityCommand::MigrateToNeo4j { confirm: confirm.is_some() })
    } else {
        Err(CliError::UnknownCommand(sub.to_owned()))
    }
}

fn parse_schema(args: &[&str], sub: &str, start: usize) -> (r: Result<SchemaCommand, CliError>)
    requires
        start <= args@.len(),
    ensures
        r is Ok ==> schema_command(sub@, views_str(args@).skip(start as int)) == Ok::<
            SchemaCommand,
            CliFault,
        >(r->Ok_0),
        r is Err ==> schema_command(sub@, views_str(args@).skip(start as int)) == Err::<
            SchemaCommand,
            CliFault,
        >(r->Err_0@),
{
    if str_equal(sub, "apply") || str_equal(sub, "check") {
        bare_arguments(args, start)?;
        if str_equal(sub, "apply") {
            Ok(SchemaCommand::Apply)
        } else {
            Ok(SchemaCommand::Check)
        }
    } else {
        Err(CliError::UnknownCommand(sub.to_owned()))
    }
}

fn parse_command(args: &[&str], at: usize) -> (r: Result<Commands, CliError>)
    requires
        at < args@.len(),
    ensures
        r is Ok ==> command(args@[at as int]@, views_str(args@).skip(at + 1)) == Ok::<
            CommandsView,
            CliFault,
        >(r->Ok_0@),
        r is Err ==> command(args@[at as int]@, views_str(args@).skip(at + 1)) == Err::<
            CommandsView,
            CliFault,
        >(r->Err_0@),
{
    let name = args[at];
    let ghost t = views_str(args@).skip(at + 1);
    if str_equal(name, "serve") {
        bare_arguments(args, at + 1)?;
        return Ok(Commands::Serve);
    }
    let group = str_equal(name, "auth") || str_equal(name, "sync") || str_equal(name, "graph")
        || str_equal(name, "bookmark") || str_equal(name, "category") || str_equal(
        name,
        "explore",
    ) || str_equal(name, "identity") || str_equal(name, "schema");
    if !group {
        return Err(CliError::UnknownCommand(name.to_owned()));
    }
    if at + 1 >= args.len() {
        return Err(CliError::MissingCommand);
    }
    let sub = args[at + 1];
    assert(t[0] == sub@);
    if is_option_like(sub) {
        return Err(CliError::UnexpectedArgument(sub.to_owned()));
    }
    let start = at + 2;
    assert(t.skip(1) == views_str(args@).skip(start as int));
    if str_equal(name, "auth") {
        Ok(Commands::Auth { command: parse_auth(args, sub, start)? })
    } else if str_equal(name, "sync") {
        Ok(Commands::Sync { command: parse_sync(args, sub, start)? })
    } else if str_equal(name, "graph") {
        Ok(Commands::Graph { command: parse_graph(args, sub, start)? })
    } else if str_equal(name, "bookmark") {
        Ok(Commands::Bookmark { command: parse_bookmark(args, sub, start)? })
    } else if str_equal(name, "category") {
        Ok(Commands::Category { command: parse_category(args, sub, start)? })
    } else if str_equal(name, "explore") {
        Ok(Commands::Explore { command: parse_explore(args, sub, start)? })
    } else if str_equal(name, "identity") {
        Ok(Commands::Identity { command: parse_identity(args, sub, start)? })
    } else {
        Ok(Commands::Schema { command: parse_schema(args, sub, start)? })
    }
}

proof fn lemma_stop_suffix(t: Seq<Seq<char>>, flags: Set<Seq<char>>, valued: Set<Seq<char>>)
    ensures
        scan(t, flags, valued, true) is Ok ==> {
            let p = scan(t, flags, valued, true)->Ok_0.positionals;
            p.len() <= t.len() && p == t.skip(t.len() - p.len())
        },
    decreases t.len(),
{
    if t.len() > 0 {
        lemma_stop_suffix(t.skip(1), flags, valued);
        assert(forall|k: int| 0 <= k <= t.len() - 1 ==> #[trigger] t.skip(1).skip(k) == t.skip(
            k + 1,
        ));
        if t.len() > 1 {
            lemma_stop_suffix(t.skip(2), flags, valued);
            assert(forall|k: int| 0 <= k <= t.len() - 2 ==> #[trigger] t.skip(2).skip(k) == t.skip(
                k + 2,
            ));
        }
        assert(t.skip(0) == t);
    }
}

impl Cli {
    /// Reads an argument list, the program name first.
    pub fn try_parse_from(args: &[&str]) -> (r: Result<Cli, CliError>)
        ensures
            r is Ok ==> parsed_cli(views_str(args@)) == Ok::<CliView, CliFault>(r->Ok_0@),
            r is Err ==> parsed_cli(views_str(args@)) == Err::<CliView, CliFault>(r->Err_0@),
    {
        if args.len() == 0 {
            return Err(CliError::MissingCommand);
        }
        let none = no_names();
        let mut valued: Vec<&str> = Vec::new();
        valued.push("user-id");
        valued.push("format");
        assert(views_str(valued@) =~= seq!["user-id"@, "format"@]);
        proof {
            lemma_set_of_two("user-id"@, "format"@);
        }
        let g = scan_arguments(args, 1, &none, &valued, true)?;
        let user_id = single_value(&g, "user-id")?;
        let format_text = single_value(&g, "format")?;
        let format = match format_text {
            None => OutputFormat::Text,
            Some(f) => {
                if str_equal(f.as_str(), "text") {
                    OutputFormat::Text
                } else if str_equal(f.as_str(), "json") {
                    OutputFormat::Json
                } else {
                    return Err(CliError::InvalidValue("format".to_owned(), f));
                }
            },
        };
        if g.positionals.len() == 0 {
            return Err(CliError::MissingCommand);
        }
        proof {
            lemma_stop_suffix(views_str(args@).skip(1), Set::empty(), set!["user-id"@, "format"@]);
        }
        let at = args.len() - g.positionals.len();
        assert(views_str(args@).skip(1).skip((args@.len() - 1) - g@.positionals.len())
            == views_str(args@).skip(at as int));
        assert(g@.positionals[0] == args@[at as int]@);
        assert(g@.positionals.skip(1) == views_str(args@).skip(at + 1));
        let command = parse_command(args, at)?;
        let user_id = match user_id {
            Some(u) => u,
            None => "default".to_owned(),
        };
        Ok(Cli { user_id, format, command })
    }
}

} // verus!
