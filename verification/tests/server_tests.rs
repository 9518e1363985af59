use aikv::command::server::{HostInfo, ServerCommands};
use aikv::error::AikvError;
use aikv::observability::logging::Level;
use aikv::protocol::RespValue;
use std::time::Duration;

fn b(s: &str) -> Vec<u8> {
    s.as_bytes().to_vec()
}

fn bulk(s: &str) -> RespValue {
    RespValue::bulk_string(b(s))
}

fn items(r: RespValue) -> Vec<RespValue> {
    match r {
        RespValue::Array(Some(v)) => v,
        other => panic!("expected an array, got {:?}", other),
    }
}

fn text(r: RespValue) -> String {
    match r {
        RespValue::BulkString(Some(v)) => String::from_utf8(v).unwrap(),
        other => panic!("expected a bulk string, got {:?}", other),
    }
}

fn host() -> HostInfo {
    HostInfo {
        os: "linux".to_string(),
        family: "unix".to_string(),
        arch: "x86_64".to_string(),
        pointer_width: 64,
        process_id: 42,
    }
}

#[test]
fn config_get_patterns() {
    let s = ServerCommands::with_port_and_cluster(7000, true);
    let port = items(s.config_get(&[b("port")]).unwrap());
    assert_eq!(port, vec![bulk("port"), bulk("7000")]);
    let cluster = items(s.config_get(&[b("CLUSTER-*")]).unwrap());
    assert_eq!(
        cluster,
        vec![
            bulk("cluster-enabled"),
            bulk("yes"),
            bulk("cluster-node-timeout"),
            bulk("15000"),
            bulk("cluster-announce-port"),
            bulk("7000"),
            bulk("cluster-announce-bus-port"),
            bulk("17000"),
        ]
    );
    let all = items(s.config_get(&[b("*")]).unwrap());
    assert_eq!(all.len(), 2 * (4 + 7));
    assert_eq!(s.config_get(&[]), Err(AikvError::WrongArgCount("CONFIG GET".to_string())));
}

#[test]
fn config_set_applies_settings() {
    let mut s = ServerCommands::new();
    assert_eq!(
        s.config_set(&[b("PORT"), b("1")]),
        Err(AikvError::InvalidArgument("ERR configuration parameter is read-only".to_string()))
    );
    assert_eq!(s.config_set(&[b("loglevel"), b("debug")]).unwrap(), RespValue::ok());
    assert_eq!(s.log_level(), Level::DEBUG);
    assert_eq!(
        s.config_set(&[b("loglevel"), b("loud")]),
        Err(AikvError::InvalidArgument("ERR invalid log level: loud".to_string()))
    );
    assert_eq!(s.config_set(&[b("slowlog-log-slower-than"), b("5")]).unwrap(), RespValue::ok());
    assert_eq!(s.slow_query_log().threshold_us(), 5);
    assert_eq!(s.config_set(&[b("slowlog-max-len"), b("2")]).unwrap(), RespValue::ok());
    assert_eq!(s.slow_query_log().max_len(), 2);
    assert_eq!(
        s.config_set(&[b("slowlog-max-len"), b("-2")]),
        Err(AikvError::InvalidArgument("ERR invalid slowlog max length value".to_string()))
    );
    assert_eq!(s.config_set(&[b("maxmemory"), b("100mb")]).unwrap(), RespValue::ok());
    assert_eq!(items(s.config_get(&[b("maxmemory")]).unwrap()), vec![bulk("maxmemory"), bulk("100mb")]);
    assert_eq!(items(s.config_get(&[b("loglevel")]).unwrap()), vec![bulk("loglevel"), bulk("debug")]);
}

#[test]
fn clients_registry() {
    let mut s = ServerCommands::new();
    s.register_client(1, "127.0.0.1:5000".to_string()).unwrap();
    s.register_client(2, "127.0.0.1:5001".to_string()).unwrap();
    assert_eq!(s.client_getname(&[], 1).unwrap(), RespValue::null_bulk_string());
    assert_eq!(s.client_setname(&[b("worker")], 1).unwrap(), RespValue::ok());
    assert_eq!(s.client_getname(&[], 1).unwrap(), bulk("worker"));
    assert_eq!(
        text(s.client_list(&[]).unwrap()),
        "id=1 addr=127.0.0.1:5000 name=worker\nid=2 addr=127.0.0.1:5001"
    );
    s.unregister_client(1).unwrap();
    assert_eq!(text(s.client_list(&[]).unwrap()), "id=2 addr=127.0.0.1:5001");
    assert_eq!(s.client_setname(&[], 2), Err(AikvError::WrongArgCount("CLIENT SETNAME".to_string())));
}

#[test]
fn slowlog_subcommands() {
    let mut s = ServerCommands::new();
    s.config_set(&[b("slowlog-log-slower-than"), b("0")]).unwrap();
    assert_eq!(s.slowlog(&[b("len")]).unwrap(), RespValue::integer(0));
    assert_eq!(items(s.slowlog(&[b("HELP")]).unwrap()).len(), 4);
    assert_eq!(s.slowlog(&[b("reset")]).unwrap(), RespValue::ok());
    assert_eq!(items(s.slowlog(&[b("GET")]).unwrap()).len(), 0);
    assert_eq!(
        s.slowlog(&[b("bogus")]),
        Err(AikvError::InvalidCommand("Unknown SLOWLOG subcommand: BOGUS".to_string()))
    );
    let _ = Duration::from_micros(1);
}

#[test]
fn command_table_queries() {
    let s = ServerCommands::new();
    assert_eq!(s.command(&[b("COUNT")]).unwrap(), RespValue::integer(108));
    assert_eq!(items(s.command(&[]).unwrap()).len(), 108);
    let info = items(s.command(&[b("INFO"), b("get"), b("nosuch")]).unwrap());
    assert_eq!(info.len(), 2);
    assert_eq!(info[1], RespValue::null_bulk_string());
    let get = match &info[0] {
        RespValue::Array(Some(v)) => v,
        other => panic!("unexpected {:?}", other),
    };
    assert_eq!(get[0], bulk("get"));
    assert_eq!(get[1], RespValue::integer(2));
    assert_eq!(
        items(s.command(&[b("GETKEYS"), b("MSET"), b("a"), b("1"), b("b"), b("2")]).unwrap()),
        vec![bulk("a"), bulk("b")]
    );
    assert_eq!(
        items(s.command(&[b("GETKEYS"), b("LMOVE"), b("src"), b("dst"), b("LEFT"), b("RIGHT")]).unwrap()),
        vec![bulk("src"), bulk("dst")]
    );
    assert_eq!(items(s.command(&[b("GETKEYS"), b("PING")]).unwrap()), Vec::<RespValue>::new());
    assert_eq!(
        s.command(&[b("GETKEYS"), b("nosuch")]),
        Err(AikvError::InvalidCommand("Invalid command specified: NOSUCH".to_string()))
    );
    assert_eq!(
        s.command(&[b("bogus")]),
        Err(AikvError::InvalidCommand("Unknown COMMAND subcommand: BOGUS".to_string()))
    );
    assert_eq!(items(s.command(&[b("help")]).unwrap()).len(), 6);
    match s.command(&[b("DOCS"), b("get"), b("nosuch")]).unwrap() {
        RespValue::Dict(pairs) => {
            assert_eq!(pairs.len(), 1);
            assert_eq!(pairs[0].0, bulk("get"));
        }
        other => panic!("unexpected {:?}", other),
    }
}

#[test]
fn info_sections() {
    let s = ServerCommands::with_port(6380);
    let server = text(s.info_at(&[b("server")], &host(), 90000).unwrap());
    assert!(server.starts_with("# Server\r\nredis_version:7.2.4\r\n"));
    assert!(server.contains("\r\nredis_build_id:aikv100\r\n"));
    assert!(server.contains("\r\nredis_mode:standalone\r\n"));
    assert!(server.contains("\r\nos:linux unix x86_64\r\n"));
    assert!(server.contains("\r\nprocess_id:42\r\n"));
    assert!(server.contains("\r\ntcp_port:6380\r\n"));
    assert!(server.contains("\r\nuptime_in_seconds:90000\r\nuptime_in_days:1\r\n"));
    let default = text(s.info_at(&[], &host(), 0).unwrap());
    assert!(default.contains("\r\n\r\n# Clients\r\nconnected_clients:0\r\n"));
    assert!(default.contains("# Cluster\r\ncluster_enabled:1"));
    assert!(!default.contains("# Modules"));
    let all = text(s.info_at(&[b("ALL")], &host(), 0).unwrap());
    assert!(all.contains("# Modules\r\n\r\n# Errorstats"));
    assert_eq!(text(s.info(&[b("nosuch")], &host()).unwrap()), "");
    assert_eq!(text(s.info(&[b("cpu")], &host()).unwrap()).lines().count(), 7);
}

#[test]
fn shutdown_flag() {
    let mut s = ServerCommands::new();
    assert!(!s.is_shutdown_requested());
    assert_eq!(
        s.shutdown(&[b("nosave")]),
        Err(AikvError::Storage("Server is shutting down".to_string()))
    );
    assert!(s.is_shutdown_requested());
    assert_eq!(s.shutdown(&[b("ABORT")]).unwrap(), RespValue::ok());
    assert!(!s.is_shutdown_requested());
    assert_eq!(
        s.shutdown(&[b("later")]),
        Err(AikvError::InvalidArgument("Unknown SHUTDOWN option: LATER".to_string()))
    );
    assert!(!s.is_shutdown_requested());
}

#[test]
fn time_and_lastsave() {
    let mut s = ServerCommands::new();
    let t = items(s.time(&[]).unwrap());
    assert_eq!(t.len(), 2);
    let micros: u64 = text(t.into_iter().nth(1).unwrap()).parse().unwrap();
    assert!(micros < 1_000_000);
    s.set_last_save_time(1234);
    assert_eq!(s.lastsave(&[]).unwrap(), RespValue::integer(1234));
    assert_eq!(s.config_rewrite(&[]).unwrap(), RespValue::ok());
}

#[test]
fn command_table_entries_are_well_formed() {
    let s = ServerCommands::new();
    let all = items(s.command(&[]).unwrap());
    let mut names: Vec<String> = Vec::new();
    for entry in all {
        let e = match entry {
            RespValue::Array(Some(v)) => v,
            other => panic!("unexpected {:?}", other),
        };
        let name = match &e[0] {
            RespValue::BulkString(Some(n)) => String::from_utf8(n.clone()).unwrap(),
            other => panic!("unexpected {:?}", other),
        };
        let num = |v: &RespValue| match v {
            RespValue::Integer(n) => *n,
            other => panic!("unexpected {:?}", other),
        };
        let (arity, first, last, step) = (num(&e[1]), num(&e[3]), num(&e[4]), num(&e[5]));
        assert_ne!(arity, 0, "{}", name);
        assert!(first < arity.abs(), "{}", name);
        if first == 0 {
            assert_eq!((last, step), (0, 0), "{}", name);
        } else {
            assert!(step >= 1 && (last == -1 || last >= first), "{}", name);
        }
        names.push(name);
    }
    let mut sorted = names.clone();
    sorted.sort();
    sorted.dedup();
    assert_eq!(sorted.len(), names.len());
}
