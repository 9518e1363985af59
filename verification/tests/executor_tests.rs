use aikv::cli::{engine_kind, parse_args, resolve_address, CliError, Config, EngineKind, ServerConfig};
use aikv::command::CommandExecutor;
use aikv::error::AikvError;
use aikv::protocol::RespValue;
use aikv::storage::StorageEngine;

fn b(s: &str) -> Vec<u8> {
    s.as_bytes().to_vec()
}

fn bulk(s: &str) -> RespValue {
    RespValue::bulk_string(b(s))
}

fn args(items: &[&str]) -> Vec<Vec<u8>> {
    items.iter().map(|s| b(s)).collect()
}

fn strings(items: &[&str]) -> Vec<String> {
    items.iter().map(|s| s.to_string()).collect()
}

fn executor() -> CommandExecutor {
    CommandExecutor::new(StorageEngine::new_memory(16))
}

#[test]
fn executor_routes_by_name_in_any_case() {
    let mut e = executor();
    let mut db = 0usize;
    assert_eq!(e.execute("set", &args(&["k", "v"]), &mut db, 1).unwrap(), RespValue::ok());
    assert_eq!(e.execute("GeT", &args(&["k"]), &mut db, 1).unwrap(), bulk("v"));
    assert_eq!(e.execute("TYPE", &args(&["k"]), &mut db, 1).unwrap(), RespValue::simple_string("string"));
    assert_eq!(e.execute("hset", &args(&["h", "f", "1"]), &mut db, 1).unwrap(), RespValue::integer(1));
    assert_eq!(e.execute("RPUSH", &args(&["l", "a"]), &mut db, 1).unwrap(), RespValue::integer(1));
    assert_eq!(e.execute("sadd", &args(&["s", "a"]), &mut db, 1).unwrap(), RespValue::integer(1));
    assert_eq!(e.execute("DBSIZE", &args(&[]), &mut db, 1).unwrap(), RespValue::integer(4));
}

#[test]
fn executor_select_changes_database() {
    let mut e = executor();
    let mut db = 0usize;
    e.execute("SET", &args(&["k", "v"]), &mut db, 1).unwrap();
    assert_eq!(e.execute("SELECT", &args(&["3"]), &mut db, 1).unwrap(), RespValue::ok());
    assert_eq!(db, 3);
    assert_eq!(e.execute("GET", &args(&["k"]), &mut db, 1).unwrap(), RespValue::null_bulk_string());
    assert!(e.execute("SELECT", &args(&["16"]), &mut db, 1).is_err());
    assert_eq!(db, 3);
}

#[test]
fn executor_ping_echo_unknown() {
    let mut e = executor();
    let mut db = 0usize;
    assert_eq!(e.execute("PING", &args(&[]), &mut db, 1).unwrap(), RespValue::simple_string("PONG"));
    assert_eq!(e.execute("ping", &args(&["hi"]), &mut db, 1).unwrap(), bulk("hi"));
    assert!(matches!(e.execute("PING", &args(&["a", "b"]), &mut db, 1), Err(AikvError::WrongArgCount(n)) if n == "PING"));
    assert_eq!(e.execute("ECHO", &args(&["x"]), &mut db, 1).unwrap(), bulk("x"));
    assert!(matches!(e.execute("ECHO", &args(&[]), &mut db, 1), Err(AikvError::WrongArgCount(n)) if n == "ECHO"));
    assert!(matches!(e.execute("nosuch", &args(&[]), &mut db, 1), Err(AikvError::InvalidCommand(m)) if m == "Unknown command: nosuch"));
}

#[test]
fn executor_config_and_client_subcommands() {
    let mut e = executor();
    let mut db = 0usize;
    assert!(matches!(e.execute("CONFIG", &args(&[]), &mut db, 1), Err(AikvError::WrongArgCount(n)) if n == "CONFIG"));
    assert!(matches!(e.execute("CONFIG", &args(&["bogus"]), &mut db, 1), Err(AikvError::InvalidCommand(m)) if m == "Unknown CONFIG subcommand: BOGUS"));
    assert_eq!(
        e.execute("CONFIG", &args(&["GET", "port"]), &mut db, 1).unwrap(),
        RespValue::array(vec![bulk("port"), bulk("6379")])
    );
    assert!(matches!(e.execute("CLIENT", &args(&["nope"]), &mut db, 1), Err(AikvError::InvalidCommand(m)) if m == "Unknown CLIENT subcommand: NOPE"));
    assert_eq!(e.execute("CLIENT", &args(&["SETNAME", "conn"]), &mut db, 7).unwrap(), RespValue::ok());
}

#[test]
fn executor_decrby_min_is_refused() {
    let mut e = executor();
    let mut db = 0usize;
    let r = e.execute("DECRBY", &args(&["n", "-9223372036854775808"]), &mut db, 1);
    assert!(matches!(r, Err(AikvError::InvalidArgument(_))));
    assert_eq!(e.execute("DECRBY", &args(&["n", "5"]), &mut db, 1).unwrap(), RespValue::integer(-5));
}

#[test]
fn executor_cluster_fallback() {
    let mut e = executor();
    let mut db = 0usize;
    assert_eq!(e.execute("CLUSTER", &args(&["KEYSLOT", "foo"]), &mut db, 1).unwrap(), RespValue::integer(12182));
    assert_eq!(e.execute("CLUSTER", &args(&["slots"]), &mut db, 1).unwrap(), RespValue::array(vec![]));
    assert_eq!(
        e.execute("CLUSTER", &args(&["MYID"]), &mut db, 1).unwrap(),
        bulk("0000000000000000000000000000000000000000")
    );
    assert_eq!(e.execute("READONLY", &args(&[]), &mut db, 1).unwrap(), RespValue::ok());
    assert!(matches!(e.execute("CLUSTER", &args(&["MEET", "x"]), &mut db, 1), Err(AikvError::Internal(_))));
    if let RespValue::BulkString(Some(v)) = e.execute("CLUSTER", &args(&["INFO"]), &mut db, 1).unwrap() {
        let text = String::from_utf8(v).unwrap();
        assert!(text.starts_with("cluster_state:fail\r\n"));
        assert!(text.ends_with("cluster_stats_messages_received:0"));
    } else {
        panic!("expected a bulk string");
    }
}

#[test]
fn cli_parses_options() {
    let cli = parse_args(&strings(&["aikv", "--config", "c.toml", "-H", "0.0.0.0", "-p", "6380"])).unwrap();
    assert_eq!(cli.config_path.as_deref(), Some("c.toml"));
    assert_eq!(cli.host.as_deref(), Some("0.0.0.0"));
    assert_eq!(cli.port, Some(6380));
    assert!(!cli.show_help);
    let cli = parse_args(&strings(&["aikv", "-h", "--bogus"])).unwrap();
    assert!(cli.show_help);
    let cli = parse_args(&strings(&["aikv", "--version"])).unwrap();
    assert!(cli.show_version);
}

#[test]
fn cli_legacy_address() {
    let cli = parse_args(&strings(&["aikv", "127.0.0.1:7000"])).unwrap();
    assert_eq!(cli.host.as_deref(), Some("127.0.0.1"));
    assert_eq!(cli.port, Some(7000));
    assert_eq!(
        parse_args(&strings(&["aikv", "a:b:c"])),
        Err(CliError::InvalidAddress("a:b:c".to_string()))
    );
    assert_eq!(
        parse_args(&strings(&["aikv", "host:port"])),
        Err(CliError::InvalidAddressPort("host:port".to_string()))
    );
    assert_eq!(
        parse_args(&strings(&["aikv", "-p", "1", "x:1"])),
        Err(CliError::Unexpected("x:1".to_string()))
    );
}

#[test]
fn cli_errors_and_messages() {
    let e = parse_args(&strings(&["aikv", "--port"])).unwrap_err();
    assert_eq!(e.message(), "Error: --port requires a port argument");
    let e = parse_args(&strings(&["aikv", "-p", "70000"])).unwrap_err();
    assert_eq!(e.message(), "Error: Invalid port number '70000'");
    let e = parse_args(&strings(&["aikv", "serve"])).unwrap_err();
    assert_eq!(e.message(), "Error: Unknown option 'serve'. Use --help for usage.");
    let e = parse_args(&strings(&["aikv", "-c"])).unwrap_err();
    assert_eq!(e.message(), "Error: -c requires a file path argument");
}

#[test]
fn config_defaults_and_overrides() {
    let config = Config::default();
    assert_eq!(config.server.host, "127.0.0.1");
    assert_eq!(config.server.port, 6379);
    assert_eq!(config.storage.engine, "memory");
    assert_eq!(config.storage.data_dir, "./data");
    assert_eq!(config.storage.databases, 16);
    assert_eq!(config.logging.level, "info");
    let cli = parse_args(&strings(&["aikv", "-p", "7001"])).unwrap();
    let server = ServerConfig { host: "10.0.0.1".to_string(), port: 6000 };
    assert_eq!(resolve_address(&cli, &server), ("10.0.0.1".to_string(), 7001));
    assert_eq!(engine_kind("AiDb"), EngineKind::AiDb);
    assert_eq!(engine_kind("MEMORY"), EngineKind::Memory);
    assert_eq!(engine_kind("rocks"), EngineKind::Unknown);
}

#[test]
fn executor_script_subcommands() {
    let mut e = executor();
    let mut db = 0usize;
    let sha = "e0e1f9fabfc9d4800c877a703b823ac0578ff8db";
    assert_eq!(e.execute("SCRIPT", &args(&["load", "return 1"]), &mut db, 1).unwrap(), bulk(sha));
    assert_eq!(
        e.execute("script", &args(&["EXISTS", sha, "nope"]), &mut db, 1).unwrap(),
        RespValue::Array(Some(vec![RespValue::integer(1), RespValue::integer(0)]))
    );
    assert_eq!(e.execute("SCRIPT", &args(&["FLUSH"]), &mut db, 1).unwrap(), RespValue::ok());
    assert_eq!(
        e.execute("SCRIPT", &args(&["EXISTS", sha]), &mut db, 1).unwrap(),
        RespValue::Array(Some(vec![RespValue::integer(0)]))
    );
    assert_eq!(
        e.execute("SCRIPT", &args(&["KILL"]), &mut db, 1),
        Err(AikvError::InvalidArgument("NOTBUSY No scripts in execution right now.".to_string()))
    );
    assert_eq!(
        e.execute("SCRIPT", &args(&["bogus"]), &mut db, 1),
        Err(AikvError::InvalidCommand("Unknown SCRIPT subcommand: BOGUS".to_string()))
    );
    assert_eq!(e.execute("SCRIPT", &args(&[]), &mut db, 1), Err(AikvError::WrongArgCount("SCRIPT".to_string())));
    assert_eq!(
        e.execute("SCRIPT", &args(&["LOAD"]), &mut db, 1),
        Err(AikvError::WrongArgCount("SCRIPT LOAD".to_string()))
    );
    assert_eq!(e.execute("DBSIZE", &args(&[]), &mut db, 1).unwrap(), RespValue::integer(0));
}
