use aikv::command::database::DatabaseCommands;
use aikv::command::dump::{calculate_checksum, dump_frame, verify_checksum};
use aikv::storage::StoredValue;
use aikv::command::key::{ExpireKind, KeyCommands};
use aikv::command::string::StringCommands;
use aikv::error::AikvError;
use aikv::protocol::RespValue;
use aikv::storage::StorageEngine;

fn b(s: &str) -> Vec<u8> {
    s.as_bytes().to_vec()
}

fn bulk(s: &str) -> RespValue {
    RespValue::bulk_string(b(s))
}

/// A keyspace holding the given string keys in database 0, set at time 0.
fn keyspace(pairs: &[(&str, &str)]) -> StorageEngine {
    let mut s = StringCommands::new(StorageEngine::new_memory(16));
    for (k, v) in pairs {
        s.set_at(&[b(k), b(v)], 0, 0).unwrap();
    }
    s.into_storage()
}

fn split_page(r: RespValue) -> (RespValue, Vec<RespValue>) {
    let mut it = array_items(r).into_iter();
    let cursor = it.next().unwrap();
    let page = array_items(it.next().unwrap());
    (cursor, page)
}

fn array_items(r: RespValue) -> Vec<RespValue> {
    match r {
        RespValue::Array(Some(items)) => items,
        other => panic!("expected an array, got {:?}", other),
    }
}

#[test]
fn keys_with_patterns() {
    let k = KeyCommands::new(keyspace(&[("user:1", "a"), ("user:2", "b"), ("item:1", "c")]));
    let all = array_items(k.keys(&[b("*")], 0).unwrap());
    assert_eq!(all.len(), 3);
    let users = array_items(k.keys(&[b("user:*")], 0).unwrap());
    assert_eq!(users, vec![bulk("user:1"), bulk("user:2")]);
    let one = array_items(k.keys(&[b("?tem:?")], 0).unwrap());
    assert_eq!(one, vec![bulk("item:1")]);
    assert_eq!(k.keys(&[], 0), Err(AikvError::WrongArgCount("KEYS".to_string())));
}

#[test]
fn scan_pages_through_keys() {
    let k = KeyCommands::new(keyspace(&[("a", "1"), ("b", "2"), ("c", "3"), ("d", "4"), ("e", "5")]));
    let (cursor, page) = split_page(k.scan(&[b("0"), b("COUNT"), b("2")], 0).unwrap());
    assert_eq!(cursor, bulk("2"));
    assert_eq!(page, vec![bulk("a"), bulk("b")]);
    let (cursor, page) = split_page(k.scan(&[b("4"), b("count"), b("2")], 0).unwrap());
    assert_eq!(cursor, bulk("0"));
    assert_eq!(page, vec![bulk("e")]);
    let (cursor, page) = split_page(k.scan(&[b("0"), b("MATCH"), b("?"), b("COUNT"), b("0")], 0).unwrap());
    assert_eq!(cursor, bulk("1"));
    assert_eq!(page, vec![bulk("a")]);
    assert_eq!(
        k.scan(&[b("x")], 0),
        Err(AikvError::InvalidArgument("ERR invalid cursor".to_string()))
    );
    assert_eq!(
        k.scan(&[b("0"), b("bogus")], 0),
        Err(AikvError::InvalidArgument("ERR unknown option 'BOGUS'".to_string()))
    );
    // A cursor past the end reads as the end.
    let (cursor, page) = split_page(k.scan(&[b("99")], 0).unwrap());
    assert_eq!(cursor, bulk("0"));
    assert!(page.is_empty());
}

#[test]
fn rename_and_renamenx() {
    let mut k = KeyCommands::new(keyspace(&[("a", "1"), ("b", "2")]));
    assert_eq!(k.renamenx(&[b("a"), b("b")], 0).unwrap(), RespValue::integer(0));
    assert_eq!(k.rename(&[b("a"), b("c")], 0).unwrap(), RespValue::ok());
    assert_eq!(k.rename(&[b("a"), b("c")], 0), Err(AikvError::KeyNotFound));
    assert_eq!(k.renamenx(&[b("c"), b("d")], 0).unwrap(), RespValue::integer(1));
    let s = StringCommands::new(k.into_storage());
    assert_eq!(s.get(&[b("d")], 0).unwrap(), bulk("1"));
    assert_eq!(s.get(&[b("a")], 0).unwrap(), RespValue::null_bulk_string());
}

#[test]
fn type_and_copy() {
    let mut k = KeyCommands::new(keyspace(&[("a", "1")]));
    assert_eq!(k.get_type(&[b("a")], 0).unwrap(), RespValue::simple_string("string"));
    assert_eq!(k.get_type(&[b("zz")], 0).unwrap(), RespValue::simple_string("none"));
    assert_eq!(k.copy(&[b("a"), b("b")], 0).unwrap(), RespValue::integer(1));
    assert_eq!(k.copy(&[b("a"), b("b")], 0).unwrap(), RespValue::integer(0));
    assert_eq!(k.copy(&[b("a"), b("b"), b("REPLACE")], 0).unwrap(), RespValue::integer(1));
    assert_eq!(k.copy(&[b("a"), b("a"), b("DB"), b("3")], 0).unwrap(), RespValue::integer(1));
    assert_eq!(
        k.copy(&[b("a"), b("b"), b("DB"), b("x")], 0),
        Err(AikvError::InvalidArgument("ERR invalid DB index".to_string()))
    );
    let s = StringCommands::new(k.into_storage());
    assert_eq!(s.get(&[b("a")], 3).unwrap(), bulk("1"));
}

#[test]
fn expire_ttl_persist() {
    let mut k = KeyCommands::new(keyspace(&[("a", "1"), ("b", "2")]));
    assert_eq!(k.ttl_at(&[b("a")], 0, 100, false, false).unwrap(), RespValue::integer(-1));
    assert_eq!(k.ttl_at(&[b("nope")], 0, 100, false, false).unwrap(), RespValue::integer(-2));
    assert_eq!(k.expire_at(&[b("a"), b("10")], 0, 1000, ExpireKind::Seconds).unwrap(), RespValue::integer(1));
    assert_eq!(k.ttl_at(&[b("a")], 0, 1500, false, false).unwrap(), RespValue::integer(9));
    assert_eq!(k.ttl_at(&[b("a")], 0, 1500, false, true).unwrap(), RespValue::integer(9500));
    assert_eq!(k.ttl_at(&[b("a")], 0, 1500, true, true).unwrap(), RespValue::integer(11000));
    assert_eq!(k.ttl_at(&[b("a")], 0, 1500, true, false).unwrap(), RespValue::integer(11));
    assert_eq!(k.persist_at(&[b("a")], 0, 1500).unwrap(), RespValue::integer(1));
    assert_eq!(k.persist_at(&[b("a")], 0, 1500).unwrap(), RespValue::integer(0));
    assert_eq!(k.expire_at(&[b("b"), b("2000")], 0, 1000, ExpireKind::AtMillis).unwrap(), RespValue::integer(1));
    assert_eq!(k.ttl_at(&[b("b")], 0, 1999, false, true).unwrap(), RespValue::integer(1));
    assert_eq!(k.ttl_at(&[b("b")], 0, 2000, false, true).unwrap(), RespValue::integer(-2));
    // A number not above zero deletes the key.
    assert_eq!(k.expire_at(&[b("a"), b("0")], 0, 1000, ExpireKind::Millis).unwrap(), RespValue::integer(1));
    assert_eq!(k.get_type_at(&[b("a")], 0, 1000).unwrap(), RespValue::simple_string("none"));
    assert_eq!(
        k.expire(&[b("a"), b("soon")], 0),
        Err(AikvError::InvalidArgument("ERR value is not an integer".to_string()))
    );
}

#[test]
fn migrate_between_databases() {
    let mut k = KeyCommands::new(keyspace(&[("a", "1"), ("b", "2")]));
    let args = [b("host"), b("6379"), b("a"), b("2"), b("1000")];
    assert_eq!(k.migrate(&args, 0).unwrap(), RespValue::ok());
    assert_eq!(k.migrate(&args, 0).unwrap(), RespValue::simple_string("NOKEY"));
    let copy = [b("h"), b("1"), b(""), b("2"), b("0"), b("COPY"), b("KEYS"), b("b")];
    assert_eq!(k.migrate(&copy, 0).unwrap(), RespValue::ok());
    let busy = [b("h"), b("1"), b("b"), b("2"), b("0")];
    assert_eq!(
        k.migrate(&busy, 0),
        Err(AikvError::InvalidArgument("BUSYKEY Target key name already exists".to_string()))
    );
    let empty = [b("h"), b("1"), b(""), b("2"), b("0")];
    assert_eq!(
        k.migrate(&empty, 0),
        Err(AikvError::InvalidArgument("ERR empty key specified".to_string()))
    );
    let bad_db = [b("h"), b("1"), b("b"), b("16"), b("0")];
    assert_eq!(k.migrate(&bad_db, 0), Err(AikvError::InvalidArgument("ERR invalid DB index".to_string())));
    let s = StringCommands::new(k.into_storage());
    assert_eq!(s.get(&[b("a")], 2).unwrap(), bulk("1"));
    assert_eq!(s.get(&[b("b")], 2).unwrap(), bulk("2"));
    assert_eq!(s.get(&[b("b")], 0).unwrap(), bulk("2"));
    assert_eq!(s.get(&[b("a")], 0).unwrap(), RespValue::null_bulk_string());
}

#[test]
fn randomkey_picks_a_key() {
    let k = KeyCommands::new(keyspace(&[("a", "1"), ("b", "2")]));
    let r = k.randomkey(&[], 0).unwrap();
    assert!(r == bulk("a") || r == bulk("b"));
    assert_eq!(k.randomkey(&[], 1).unwrap(), RespValue::null_bulk_string());
}

#[test]
fn randomkey_pick_counts_round_the_keys() {
    let k = KeyCommands::new(keyspace(&[("a", "1"), ("b", "2")]));
    assert_eq!(k.randomkey_pick(0, 0, 0).unwrap(), bulk("a"));
    assert_eq!(k.randomkey_pick(0, 0, 1).unwrap(), bulk("b"));
    assert_eq!(k.randomkey_pick(0, 0, 4).unwrap(), bulk("a"));
    assert_eq!(k.randomkey_pick(1, 0, 7).unwrap(), RespValue::null_bulk_string());
    assert!(k.randomkey_pick(99, 0, 0).is_err());
}

#[test]
fn database_commands() {
    let mut d = DatabaseCommands::new(keyspace(&[("a", "1"), ("b", "2")]));
    let mut current: usize = 0;
    assert_eq!(d.select(&[b("3")], &mut current).unwrap(), RespValue::ok());
    assert_eq!(current, 3);
    assert_eq!(
        d.select(&[b("16")], &mut current),
        Err(AikvError::InvalidArgument("ERR DB index is out of range".to_string()))
    );
    assert_eq!(current, 3);
    assert_eq!(d.dbsize(&[], 0).unwrap(), RespValue::integer(2));
    assert_eq!(d.move_key(&[b("a"), b("1")], 0).unwrap(), RespValue::integer(1));
    assert_eq!(d.move_key(&[b("a"), b("1")], 0).unwrap(), RespValue::integer(0));
    assert_eq!(d.dbsize(&[], 1).unwrap(), RespValue::integer(1));
    assert_eq!(d.swapdb(&[b("0"), b("1")]).unwrap(), RespValue::ok());
    assert_eq!(d.dbsize(&[], 0).unwrap(), RespValue::integer(1));
    assert_eq!(d.flushdb(&[], 0).unwrap(), RespValue::ok());
    assert_eq!(d.dbsize(&[], 0).unwrap(), RespValue::integer(0));
    assert_eq!(d.flushall(&[]).unwrap(), RespValue::ok());
    assert_eq!(d.dbsize(&[], 1).unwrap(), RespValue::integer(0));
    assert_eq!(
        d.swapdb(&[b("x"), b("1")]),
        Err(AikvError::InvalidArgument("ERR invalid first DB index".to_string()))
    );
}

#[test]
fn dump_checksum_and_frame() {
    assert_eq!(calculate_checksum(&[1, 2, 3]), 14);
    assert_eq!(calculate_checksum(&[]), 0);
    let frame = dump_frame(b"abc");
    assert_eq!(frame, vec![b'a', b'b', b'c', 0, 9, 0x7b, 0x02, 0, 0, 0, 0, 0, 0]);
    assert!(verify_checksum(&frame));
    let mut bad = frame.clone();
    bad[1] = b'x';
    assert!(!verify_checksum(&bad));
    assert!(!verify_checksum(&frame[..9]));
    assert!(verify_checksum(&dump_frame(&[])));
}

#[test]
fn restore_stores_framed_values() {
    let mut k = KeyCommands::new(keyspace(&[("taken", "x")]));
    let frame = dump_frame(b"payload");
    let args = |items: &[&[u8]]| -> Vec<Vec<u8>> { items.iter().map(|s| s.to_vec()).collect() };

    let r = k.restore_at(&args(&[b"k", b"5000", &frame]), 0, 1000, Ok(StoredValue::Str(b("v"))));
    assert_eq!(r.unwrap(), RespValue::ok());
    assert_eq!(k.ttl_at(&[b("k")], 0, 1000, false, true).unwrap(), RespValue::integer(5000));
    assert_eq!(k.get_type_at(&[b("k")], 0, 1000).unwrap(), RespValue::simple_string("string"));

    let busy = k.restore_at(&args(&[b"taken", b"0", &frame]), 0, 1000, Ok(StoredValue::Str(b("v"))));
    assert!(matches!(busy, Err(AikvError::InvalidArgument(m)) if m == "BUSYKEY Target key name already exists"));
    let replaced =
        k.restore_at(&args(&[b"taken", b"9000", &frame, b"replace", b"absttl"]), 0, 1000, Ok(StoredValue::Str(b("w"))));
    assert_eq!(replaced.unwrap(), RespValue::ok());
    assert_eq!(k.ttl_at(&[b("taken")], 0, 1000, true, true).unwrap(), RespValue::integer(9000));

    let short = k.restore_at(&args(&[b"n", b"0", b"short"]), 0, 1000, Ok(StoredValue::Str(b("v"))));
    assert!(matches!(short, Err(AikvError::InvalidArgument(m)) if m == "ERR DUMP payload version or checksum are wrong"));
    let undecodable = k.restore_at(&args(&[b"n", b"0", &frame]), 0, 1000, Err("bad tag".to_string()));
    assert!(matches!(undecodable, Err(AikvError::InvalidArgument(m))
        if m == "ERR DUMP payload version or checksum are wrong: bad tag"));
    let negative = k.restore_at(&args(&[b"n", b"-1", &frame]), 0, 1000, Ok(StoredValue::Str(b("v"))));
    assert!(matches!(negative, Err(AikvError::InvalidArgument(m)) if m == "ERR invalid TTL value, must be >= 0"));
    let bad_ttl = k.restore_at(&args(&[b"n", b"soon", &frame]), 0, 1000, Ok(StoredValue::Str(b("v"))));
    assert!(matches!(bad_ttl, Err(AikvError::InvalidArgument(m)) if m == "ERR invalid TTL value"));
    let idle = k.restore_at(&args(&[b"n", b"0", &frame, b"IDLETIME"]), 0, 1000, Ok(StoredValue::Str(b("v"))));
    assert!(matches!(idle, Err(AikvError::InvalidArgument(m)) if m == "ERR syntax error"));
    let unknown = k.restore_at(&args(&[b"n", b"0", &frame, b"fast"]), 0, 1000, Ok(StoredValue::Str(b("v"))));
    assert!(matches!(unknown, Err(AikvError::InvalidArgument(m)) if m == "ERR syntax error, unknown option: FAST"));
    assert!(matches!(k.restore_at(&args(&[b"n", b"0"]), 0, 1000, Ok(StoredValue::Str(b("v")))),
        Err(AikvError::WrongArgCount(n)) if n == "RESTORE"));
}
