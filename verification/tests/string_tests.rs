use aikv::command::string::StringCommands;
use aikv::error::AikvError;
use aikv::protocol::RespValue;
use aikv::storage::StorageEngine;

fn setup() -> StringCommands {
    StringCommands::new(StorageEngine::new_memory(16))
}

fn b(s: &str) -> Vec<u8> {
    s.as_bytes().to_vec()
}

fn bulk(s: &str) -> RespValue {
    RespValue::bulk_string(b(s))
}

#[test]
fn test_get_set() {
    let mut cmd = setup();

    let result = cmd.set(&[b("key1"), b("value1")], 0).unwrap();
    assert_eq!(result, RespValue::ok());

    let result = cmd.get(&[b("key1")], 0).unwrap();
    assert_eq!(result, bulk("value1"));
}

#[test]
fn test_del() {
    let mut cmd = setup();

    cmd.set(&[b("key1"), b("value1")], 0).unwrap();
    cmd.set(&[b("key2"), b("value2")], 0).unwrap();

    let result = cmd.del(&[b("key1"), b("key2"), b("key3")], 0).unwrap();
    assert_eq!(result, RespValue::integer(2));
}

#[test]
fn test_exists() {
    let mut cmd = setup();

    cmd.set(&[b("key1"), b("value1")], 0).unwrap();

    let result = cmd.exists_keys(&[b("key1"), b("key2")], 0).unwrap();
    assert_eq!(result, RespValue::integer(1));
}

#[test]
fn test_mget_mset() {
    let mut cmd = setup();

    cmd.mset(&[b("key1"), b("value1"), b("key2"), b("value2")], 0).unwrap();

    let result = cmd.mget(&[b("key1"), b("key2"), b("key3")], 0).unwrap();

    if let RespValue::Array(Some(arr)) = result {
        assert_eq!(arr.len(), 3);
        assert_eq!(arr[0], bulk("value1"));
        assert_eq!(arr[1], bulk("value2"));
        assert_eq!(arr[2], RespValue::null_bulk_string());
    } else {
        panic!("Expected array response");
    }
}

#[test]
fn test_strlen() {
    let mut cmd = setup();

    cmd.set(&[b("key1"), b("hello")], 0).unwrap();

    let result = cmd.strlen(&[b("key1")], 0).unwrap();
    assert_eq!(result, RespValue::integer(5));
}

#[test]
fn test_append() {
    let mut cmd = setup();

    let result = cmd.append(&[b("key1"), b("Hello")], 0).unwrap();
    assert_eq!(result, RespValue::integer(5));

    let result = cmd.append(&[b("key1"), b(" World")], 0).unwrap();
    assert_eq!(result, RespValue::integer(11));

    let result = cmd.get(&[b("key1")], 0).unwrap();
    assert_eq!(result, bulk("Hello World"));
}

#[test]
fn arity_errors_name_the_command() {
    let mut cmd = setup();
    assert_eq!(cmd.get(&[], 0), Err(AikvError::WrongArgCount("GET".to_string())));
    assert_eq!(cmd.set(&[b("k")], 0), Err(AikvError::WrongArgCount("SET".to_string())));
    assert_eq!(cmd.mset(&[b("k")], 0), Err(AikvError::WrongArgCount("MSET".to_string())));
    assert_eq!(cmd.del(&[], 0), Err(AikvError::WrongArgCount("DEL".to_string())));
}

#[test]
fn database_out_of_range() {
    let cmd = setup();
    assert_eq!(
        cmd.get(&[b("k")], 16),
        Err(AikvError::Storage("ERR DB index is out of range".to_string()))
    );
}

#[test]
fn databases_are_separate() {
    let mut cmd = setup();
    cmd.set(&[b("k"), b("zero")], 0).unwrap();
    cmd.set(&[b("k"), b("one")], 1).unwrap();
    assert_eq!(cmd.get(&[b("k")], 0).unwrap(), bulk("zero"));
    assert_eq!(cmd.get(&[b("k")], 1).unwrap(), bulk("one"));
}

#[test]
fn set_nx_xx() {
    let mut cmd = setup();
    assert_eq!(cmd.set(&[b("k"), b("v"), b("xx")], 0).unwrap(), RespValue::null_bulk_string());
    assert_eq!(cmd.set(&[b("k"), b("v"), b("NX")], 0).unwrap(), RespValue::ok());
    assert_eq!(cmd.set(&[b("k"), b("w"), b("NX")], 0).unwrap(), RespValue::null_bulk_string());
    assert_eq!(cmd.set(&[b("k"), b("w"), b("XX")], 0).unwrap(), RespValue::ok());
    assert_eq!(cmd.get(&[b("k")], 0).unwrap(), bulk("w"));
}

#[test]
fn set_option_errors() {
    let mut cmd = setup();
    assert_eq!(
        cmd.set(&[b("k"), b("v"), b("EX")], 0),
        Err(AikvError::InvalidArgument("ERR syntax error".to_string()))
    );
    assert_eq!(
        cmd.set(&[b("k"), b("v"), b("PX"), b("soon")], 0),
        Err(AikvError::InvalidArgument("ERR value is not an integer".to_string()))
    );
    assert_eq!(
        cmd.set(&[b("k"), b("v"), b("EX"), b("18446744073709551615")], 0),
        Err(AikvError::InvalidArgument("ERR invalid expire time in 'set' command".to_string()))
    );
}

#[test]
fn expiry_at_fixed_times() {
    let mut cmd = setup();
    cmd.set_at(&[b("k"), b("v"), b("PX"), b("100")], 0, 1000).unwrap();
    assert_eq!(cmd.get_at(&[b("k")], 0, 1099).unwrap(), bulk("v"));
    assert_eq!(cmd.get_at(&[b("k")], 0, 1100).unwrap(), RespValue::null_bulk_string());
    assert_eq!(cmd.exists_at(&[b("k")], 0, 1100).unwrap(), RespValue::integer(0));
    // An expired key counts as absent for SETNX.
    assert_eq!(cmd.setnx_at(&[b("k"), b("new")], 0, 1200).unwrap(), RespValue::integer(1));
    assert_eq!(cmd.get_at(&[b("k")], 0, 5000).unwrap(), bulk("new"));
}

#[test]
fn incr_family() {
    let mut cmd = setup();
    assert_eq!(cmd.incr(&[b("n")], 0).unwrap(), RespValue::integer(1));
    assert_eq!(cmd.incrby(&[b("n"), b("41")], 0).unwrap(), RespValue::integer(42));
    assert_eq!(cmd.decr(&[b("n")], 0).unwrap(), RespValue::integer(41));
    assert_eq!(cmd.decrby(&[b("n"), b("-9")], 0).unwrap(), RespValue::integer(50));
    assert_eq!(cmd.get(&[b("n")], 0).unwrap(), bulk("50"));
    cmd.set(&[b("n"), b("9223372036854775807")], 0).unwrap();
    assert_eq!(
        cmd.incr(&[b("n")], 0),
        Err(AikvError::InvalidArgument("ERR increment or decrement would overflow".to_string()))
    );
    cmd.set(&[b("s"), b("abc")], 0).unwrap();
    assert_eq!(
        cmd.incr(&[b("s")], 0),
        Err(AikvError::InvalidArgument("ERR value is not an integer or out of range".to_string()))
    );
    assert_eq!(
        cmd.incrby(&[b("n"), b("x")], 0),
        Err(AikvError::InvalidArgument("ERR value is not an integer or out of range".to_string()))
    );
}

#[test]
fn getrange_indices() {
    let mut cmd = setup();
    cmd.set(&[b("k"), b("This is a string")], 0).unwrap();
    assert_eq!(cmd.getrange(&[b("k"), b("0"), b("3")], 0).unwrap(), bulk("This"));
    assert_eq!(cmd.getrange(&[b("k"), b("-3"), b("-1")], 0).unwrap(), bulk("ing"));
    assert_eq!(cmd.getrange(&[b("k"), b("0"), b("-1")], 0).unwrap(), bulk("This is a string"));
    assert_eq!(cmd.getrange(&[b("k"), b("10"), b("100")], 0).unwrap(), bulk("string"));
    assert_eq!(cmd.getrange(&[b("k"), b("5"), b("2")], 0).unwrap(), bulk(""));
    assert_eq!(cmd.getrange(&[b("missing"), b("0"), b("1")], 0).unwrap(), bulk(""));
}

#[test]
fn setrange_pads_with_zeros() {
    let mut cmd = setup();
    cmd.set(&[b("k"), b("Hello World")], 0).unwrap();
    assert_eq!(cmd.setrange(&[b("k"), b("6"), b("Redis")], 0).unwrap(), RespValue::integer(11));
    assert_eq!(cmd.get(&[b("k")], 0).unwrap(), bulk("Hello Redis"));
    assert_eq!(cmd.setrange(&[b("z"), b("3"), b("ab")], 0).unwrap(), RespValue::integer(5));
    assert_eq!(cmd.get(&[b("z")], 0).unwrap(), RespValue::bulk_string(vec![0, 0, 0, b'a', b'b']));
    assert_eq!(
        cmd.setrange(&[b("z"), b("-1"), b("ab")], 0),
        Err(AikvError::InvalidArgument("ERR offset is out of range".to_string()))
    );
}

#[test]
fn getex_getdel() {
    let mut cmd = setup();
    cmd.set_at(&[b("k"), b("v")], 0, 0).unwrap();
    assert_eq!(cmd.getex_at(&[b("k"), b("px"), b("10")], 0, 100).unwrap(), bulk("v"));
    assert_eq!(cmd.get_at(&[b("k")], 0, 109).unwrap(), bulk("v"));
    assert_eq!(cmd.get_at(&[b("k")], 0, 110).unwrap(), RespValue::null_bulk_string());
    cmd.set_at(&[b("k"), b("v"), b("EX"), b("1")], 0, 0).unwrap();
    assert_eq!(cmd.getex_at(&[b("k"), b("PERSIST")], 0, 10).unwrap(), bulk("v"));
    assert_eq!(cmd.get_at(&[b("k")], 0, 1_000_000).unwrap(), bulk("v"));
    assert_eq!(
        cmd.getex_at(&[b("k"), b("BOGUS")], 0, 10),
        Err(AikvError::InvalidArgument("ERR syntax error".to_string()))
    );
    assert_eq!(cmd.getdel(&[b("k")], 0).unwrap(), bulk("v"));
    assert_eq!(cmd.getdel(&[b("k")], 0).unwrap(), RespValue::null_bulk_string());
}

#[test]
fn setex_psetex() {
    let mut cmd = setup();
    assert_eq!(cmd.setex_at(&[b("a"), b("2"), b("x")], 0, 1000, false).unwrap(), RespValue::ok());
    assert_eq!(cmd.get_at(&[b("a")], 0, 2999).unwrap(), bulk("x"));
    assert_eq!(cmd.get_at(&[b("a")], 0, 3000).unwrap(), RespValue::null_bulk_string());
    assert_eq!(cmd.setex_at(&[b("b"), b("5"), b("y")], 0, 1000, true).unwrap(), RespValue::ok());
    assert_eq!(cmd.get_at(&[b("b")], 0, 1004).unwrap(), bulk("y"));
    assert_eq!(cmd.get_at(&[b("b")], 0, 1005).unwrap(), RespValue::null_bulk_string());
    assert_eq!(
        cmd.setex(&[b("c"), b("x"), b("y")], 0),
        Err(AikvError::InvalidArgument("ERR value is not an integer or out of range".to_string()))
    );
    assert_eq!(cmd.psetex(&[b("c")], 0), Err(AikvError::WrongArgCount("PSETEX".to_string())));
}

#[test]
fn setnx_only_once() {
    let mut cmd = setup();
    assert_eq!(cmd.setnx(&[b("k"), b("1")], 0).unwrap(), RespValue::integer(1));
    assert_eq!(cmd.setnx(&[b("k"), b("2")], 0).unwrap(), RespValue::integer(0));
    assert_eq!(cmd.get(&[b("k")], 0).unwrap(), bulk("1"));
}

#[test]
fn del_counts_each_key_once() {
    let mut cmd = setup();
    cmd.set(&[b("k"), b("v")], 0).unwrap();
    assert_eq!(cmd.del(&[b("k"), b("k")], 0).unwrap(), RespValue::integer(1));
    cmd.set(&[b("k"), b("v")], 0).unwrap();
    assert_eq!(cmd.exists_keys(&[b("k"), b("k")], 0).unwrap(), RespValue::integer(2));
}
