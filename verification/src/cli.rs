//! The server program's command line and configuration: what the
//! arguments ask for, the settings a configuration file may hold, and how
//! the two combine.
use crate::text::{parse_u16, spec_to_lowercase, split_chars, split_spec, str_eq, string_of, to_lowercase, views};
use vstd::prelude::*;

verus! {

/// The program's version.
pub const VERSION: &'static str = "1.0.0";

/// What the command line asks for.
#[derive(Debug, Clone, PartialEq, Eq)]
pub struct CliArgs {
    /// Path of a configuration file.
    pub config_path: Option<String>,
    /// Address to bind.
    pub host: Option<String>,
    /// Port to bind.
    pub port: Option<u16>,
    /// Print the help text and stop.
    pub show_help: bool,
    /// Print the version and stop.
    pub show_version: bool,
}

/// A command line that cannot be used.
#[derive(Debug, Clone, PartialEq, Eq)]
pub enum CliError {
    /// An option that needs a value came last; the option and what it
    /// needs ("file path", "host", "port").
    MissingValue(String, String),
    /// The value of `-p`/`--port` is not a port number.
    InvalidPort(String),
    /// A `HOST:PORT` argument whose port is not a port number.
    InvalidAddressPort(String),
    /// An argument with more than one `:`.
    InvalidAddress(String),
    /// An argument that is no option and no address.
    UnknownOption(String),
    /// An address after other settings.
    Unexpected(String),
}

/// The command line as mathematical values.
pub ghost struct CliView {
    pub config_path: Option<Seq<char>>,
    pub host: Option<Seq<char>>,
    pub port: Option<u16>,
    pub show_help: bool,
    pub show_version: bool,
}

/// A command-line failure as mathematical values.
pub ghost enum CliFailure {
    MissingValue(Seq<char>, Seq<char>),
    InvalidPort(Seq<char>),
    InvalidAddressPort(Seq<char>),
    InvalidAddress(Seq<char>),
    UnknownOption(Seq<char>),
    Unexpected(Seq<char>),
}

/// The text of an optional string.
pub open spec fn opt_text(s: Option<String>) -> Option<Seq<char>> {
    match s {
        Some(t) => Some(t@),
        None => None,
    }
}

impl CliArgs {
    /// The command line as mathematical values.
    pub open spec fn view_of(&self) -> CliView {
        CliView {
            config_path: opt_text(self.config_path),
            host: opt_text(self.host),
            port: self.port,
            show_help: self.show_help,
            show_version: self.show_version,
        }
    }
}

impl CliError {
    /// The failure as mathematical values.
    pub open spec fn view_of(&self) -> CliFailure {
        match self {
            CliError::MissingValue(o, w) => CliFailure::MissingValue(o@, w@),
            CliError::InvalidPort(a) => CliFailure::InvalidPort(a@),
            CliError::InvalidAddressPort(a) => CliFailure::InvalidAddressPort(a@),
            CliError::InvalidAddress(a) => CliFailure::InvalidAddress(a@),
            CliError::UnknownOption(a) => CliFailure::UnknownOption(a@),
            CliError::Unexpected(a) => CliFailure::Unexpected(a@),
        }
    }

    /// The message the program prints before it exits.
    pub fn message(&self) -> (r: String)
        ensures
            r@ == failure_message(self.view_of()),
    {
        let mut s = string_of("Error: ");
        match self {
            CliError::MissingValue(o, w) => {
                crate::text::push_str(&mut s, o.as_str());
                crate::text::push_str(&mut s, " requires a ");
                crate::text::push_str(&mut s, w.as_str());
                crate::text::push_str(&mut s, " argument");
            },
            CliError::InvalidPort(a) => {
                crate::text::push_str(&mut s, "Invalid port number '");
                crate::text::push_str(&mut s, a.as_str());
                crate::text::push_str(&mut s, "'");
            },
            CliError::InvalidAddressPort(a) => {
                crate::text::push_str(&mut s, "Invalid port in address '");
                crate::text::push_str(&mut s, a.as_str());
                crate::text::push_str(&mut s, "'. Expected HOST:PORT");
            },
            CliError::InvalidAddress(a) => {
                crate::text::push_str(&mut s, "Invalid address format '");
                crate::text::push_str(&mut s, a.as_str());
                crate::text::push_str(&mut s, "'. Expected HOST:PORT");
            },
            CliError::UnknownOption(a) => {
                crate::text::push_str(&mut s, "Unknown option '");
                crate::text::push_str(&mut s, a.as_str());
                crate::text::push_str(&mut s, "'. Use --help for usage.");
            },
            CliError::Unexpected(a) => {
                crate::text::push_str(&mut s, "Unexpected argument '");
                crate::text::push_str(&mut s, a.as_str());
                crate::text::push_str(&mut s, "'. Use --help for usage.");
            },
        }
        s
    }
}

/// The message printed for a command-line failure.
pub open spec fn failure_message(f: CliFailure) -> Seq<char> {
    "Error: "@ + match f {
        CliFailure::MissingValue(o, w) => o + " requires a "@ + w + " argument"@,
        CliFailure::InvalidPort(a) => "Invalid port number '"@ + a + "'"@,
        CliFailure::InvalidAddressPort(a) => "Invalid port in address '"@ + a + "'. Expected HOST:PORT"@,
        CliFailure::InvalidAddress(a) => "Invalid address format '"@ + a + "'. Expected HOST:PORT"@,
        CliFailure::UnknownOption(a) => "Unknown option '"@ + a + "'. Use --help for usage."@,
        CliFailure::Unexpected(a) => "Unexpected argument '"@ + a + "'. Use --help for usage."@,
    }
}

/// A port number in the syntax of Rust's `u16` parsing.
pub open spec fn port_of(s: Seq<char>) -> Option<u16> {
    match crate::text::parse_unsigned_spec(s, u16::MAX as nat) {
        Some(v) => Some(v as u16),
        None => None,
    }
}

/// Reading the arguments from position `i` on, with what was read so far.
/// `-h`/`--help` and `-v`/`--version` stop the reading; `-c`, `-H` and `-p`
/// (and their long forms) take the next argument; a first argument of
/// the form `HOST:PORT` sets both.
pub open spec fn parse_from(args: Seq<Seq<char>>, i: int, acc: CliView) -> Result<CliView, CliFailure>
    decreases args.len() - i,
{
    if i >= args.len() || i < 0 {
        Ok(acc)
    } else {
        let a = args[i];
        if a == "-h"@ || a == "--help"@ {
            Ok(CliView { show_help: true, ..acc })
        } else if a == "-v"@ || a == "--version"@ {
            Ok(CliView { show_version: true, ..acc })
        } else if a == "-c"@ || a == "--config"@ {
            if i + 1 < args.len() {
                parse_from(args, i + 2, CliView { config_path: Some(args[i + 1]), ..acc })
            } else {
                Err(CliFailure::MissingValue(a, "file path"@))
            }
        } else if a == "-H"@ || a == "--host"@ {
            if i + 1 < args.len() {
                parse_from(args, i + 2, CliView { host: Some(args[i + 1]), ..acc })
            } else {
                Err(CliFailure::MissingValue(a, "host"@))
            }
        } else if a == "-p"@ || a == "--port"@ {
            if i + 1 < args.len() {
                match port_of(args[i + 1]) {
                    Some(p) => parse_from(args, i + 2, CliView { port: Some(p), ..acc }),
                    None => Err(CliFailure::InvalidPort(args[i + 1])),
                }
            } else {
                Err(CliFailure::MissingValue(a, "port"@))
            }
        } else if acc.config_path is None && acc.host is None && acc.port is None {
            if a.contains(':') {
                let parts = split_spec(a, ':');
                if parts.len() == 2 {
                    match port_of(parts[1]) {
                        Some(p) => parse_from(args, i + 1, CliView { host: Some(parts[0]), port: Some(p), ..acc }),
                        None => Err(CliFailure::InvalidAddressPort(a)),
                    }
                } else {
                    Err(CliFailure::InvalidAddress(a))
                }
            } else {
                Err(CliFailure::UnknownOption(a))
            }
        } else {
            Err(CliFailure::Unexpected(a))
        }
    }
}

/// Nothing asked for yet.
pub open spec fn empty_cli() -> CliView {
    CliView { config_path: None, host: None, port: None, show_help: false, show_version: false }
}

/// Whether `s` holds the character `c`.
fn has_char(s: &str, c: char) -> (r: bool)
    ensures
        r == s@.contains(c),
{
    let n = s.unicode_len();
    let mut i: usize = 0;
    while i < n
        invariant
            i <= n,
            n == s@.len(),
            forall|j: int| 0 <= j < i ==> s@[j] != c,
        decreases n - i,
    {
        if s.get_char(i) == c {
            return true;
        }
        i = i + 1;
    }
    false
}

/// Reads the program's arguments; `args[0]` is the program's name.
pub fn parse_args(args: &[String]) -> (r: Result<CliArgs, CliError>)
    ensures
        match parse_from(views(args@), 1, empty_cli()) {
            Ok(v) => r matches Ok(c) && c.view_of() == v,
            Err(f) => r matches Err(e) && e.view_of() == f,
        },
{
    let ghost av = views(args@);
    let mut cli = CliArgs { config_path: None, host: None, port: None, show_help: false, show_version: false };
    let mut i: usize = 1;
    while i < args.len()
        invariant
            1 <= i,
            args@.len() == args.len(),
            av == views(args@),
            av.len() == args@.len(),
            forall|j: int| 0 <= j < args@.len() ==> #[trigger] av[j] == args@[j]@,
            parse_from(av, 1, empty_cli()) == parse_from(av, i as int, cli.view_of()),
        decreases args.len() + 1 - i,
    {
        let a = args[i].as_str();
        if str_eq(a, "-h") || str_eq(a, "--help") {
            cli.show_help = true;
            return Ok(cli);
        } else if str_eq(a, "-v") || str_eq(a, "--version") {
            cli.show_version = true;
            return Ok(cli);
        } else if str_eq(a, "-c") || str_eq(a, "--config") {
            if i + 1 < args.len() {
                cli.config_path = Some(args[i + 1].clone());
                i = i + 2;
            } else {
                return Err(CliError::MissingValue(string_of(a), string_of("file path")));
            }
        } else if str_eq(a, "-H") || str_eq(a, "--host") {
            if i + 1 < args.len() {
                cli.host = Some(args[i + 1].clone());
                i = i + 2;
            } else {
                return Err(CliError::MissingValue(string_of(a), string_of("host")));
            }
        } else if str_eq(a, "-p") || str_eq(a, "--port") {
            if i + 1 < args.len() {
                match parse_u16(args[i + 1].as_str()) {
                    Some(p) => {
                        cli.port = Some(p);
                        i = i + 2;
                    },
                    None => {
                        return Err(CliError::InvalidPort(args[i + 1].clone()));
                    },
                }
            } else {
                return Err(CliError::MissingValue(string_of(a), string_of("port")));
            }
        } else if cli.config_path.is_none() && cli.host.is_none() && cli.port.is_none() {
            if has_char(a, ':') {
                let parts = split_chars(a, ':');
                if parts.len() == 2 {
                    match parse_u16(parts[1].as_str()) {
                        Some(p) => {
                            cli.host = Some(parts[0].clone());
                            cli.port = Some(p);
                            i = i + 1;
                        },
                        None => {
                            return Err(CliError::InvalidAddressPort(string_of(a)));
                        },
                    }
                } else {
                    return Err(CliError::InvalidAddress(string_of(a)));
                }
            } else {
                return Err(CliError::UnknownOption(string_of(a)));
            }
        } else {
            return Err(CliError::Unexpected(string_of(a)));
        }
    }
    Ok(cli)
}

/// The `[server]` settings of a configuration file.
#[derive(Debug, Clone, PartialEq, Eq)]
pub struct ServerConfig {
    /// Address to bind.
    pub host: String,
    /// Port to bind.
    pub port: u16,
}

/// The `[storage]` settings of a configuration file.
#[derive(Debug, Clone, PartialEq, Eq)]
pub struct StorageConfig {
    /// Storage engine: "memory" or "aidb".
    pub engine: String,
    /// Data directory of the AiDb engine.
    pub data_dir: String,
    /// Number of databases.
    pub databases: usize,
}

/// The `[logging]` settings of a configuration file.
#[derive(Debug, Clone, PartialEq, Eq)]
pub struct LoggingConfig {
    /// Log level: trace, debug, info, warn or error.
    pub level: String,
}

/// A configuration file's settings.
#[derive(Debug, Clone, PartialEq, Eq)]
pub struct Config {
    /// The `[server]` section.
    pub server: ServerConfig,
    /// The `[storage]` section.
    pub storage: StorageConfig,
    /// The `[logging]` section.
    pub logging: LoggingConfig,
}

/// The address bound when none is given.
pub fn default_host() -> (r: String)
    ensures
        r@ == "127.0.0.1"@,
{
    string_of("127.0.0.1")
}

/// The port bound when none is given.
pub fn default_port() -> (r: u16)
    ensures
        r == 6379,
{
    6379
}

/// The storage engine used when none is named.
pub fn default_engine() -> (r: String)
    ensures
        r@ == "memory"@,
{
    string_of("memory")
}

/// The AiDb data directory used when none is named.
pub fn default_data_dir() -> (r: String)
    ensures
        r@ == "./data"@,
{
    string_of("./data")
}

/// The number of databases used when none is given.
pub fn default_databases() -> (r: usize)
    ensures
        r == 16,
{
    16
}

/// The log level used when none is named.
pub fn default_log_level() -> (r: String)
    ensures
        r@ == "info"@,
{
    string_of("info")
}

impl Default for ServerConfig {
    fn default() -> (r: Self)
        ensures
            r.host@ == "127.0.0.1"@,
            r.port == 6379,
    {
        ServerConfig { host: default_host(), port: default_port() }
    }
}

impl Default for StorageConfig {
    fn default() -> (r: Self)
        ensures
            r.engine@ == "memory"@,
            r.data_dir@ == "./data"@,
            r.databases == 16,
    {
        StorageConfig { engine: default_engine(), data_dir: default_data_dir(), databases: default_databases() }
    }
}

impl Default for LoggingConfig {
    fn default() -> (r: Self)
        ensures
            r.level@ == "info"@,
    {
        LoggingConfig { level: default_log_level() }
    }
}

impl Default for Config {
    fn default() -> (r: Self)
        ensures
            r.server.host@ == "127.0.0.1"@,
            r.server.port == 6379,
            r.storage.engine@ == "memory"@,
            r.storage.data_dir@ == "./data"@,
            r.storage.databases == 16,
            r.logging.level@ == "info"@,
    {
        Config { server: ServerConfig::default(), storage: StorageConfig::default(), logging: LoggingConfig::default() }
    }
}

/// The address and port to bind: the command line's, else the
/// configuration's.
pub fn resolve_address(cli: &CliArgs, config: &ServerConfig) -> (r: (String, u16))
    ensures
        r.0@ == match cli.host {
            Some(h) => h@,
            None => config.host@,
        },
        r.1 == match cli.port {
            Some(p) => p,
            None => config.port,
        },
{
    let host = match &cli.host {
        Some(h) => h.clone(),
        None => config.host.clone(),
    };
    let port = match cli.port {
        Some(p) => p,
        None => config.port,
    };
    (host, port)
}

/// The storage engine a configuration names.
#[derive(Debug, Clone, Copy, PartialEq, Eq)]
pub enum EngineKind {
    /// The in-memory engine.
    Memory,
    /// The AiDb engine, kept in the data directory.
    AiDb,
    /// A name no engine has; the in-memory engine stands in.
    Unknown,
}

/// The engine a name (in any case) selects.
pub fn engine_kind(name: &str) -> (r: EngineKind)
    ensures
        r == (if spec_to_lowercase(name@) == "aidb"@ {
            EngineKind::AiDb
        } else if spec_to_lowercase(name@) == "memory"@ {
            EngineKind::Memory
        } else {
            EngineKind::Unknown
        }),
{
    let lower = to_lowercase(name);
    if str_eq(lower.as_str(), "aidb") {
        EngineKind::AiDb
    } else if str_eq(lower.as_str(), "memory") {
        EngineKind::Memory
    } else {
        EngineKind::Unknown
    }
}

} // verus!
