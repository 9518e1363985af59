use aikv::command::script::{eval_request, KeyLockManager, ScriptCommands};
use aikv::command::script_txn::{script_call, ScriptArg, ScriptTransaction};
use aikv::error::AikvError;
use aikv::protocol::RespValue;
use aikv::storage::{StorageEngine, StoredValue};
use std::time::Duration;

const NOW: u64 = 1_000;

fn setup() -> ScriptCommands {
    let storage = StorageEngine::new_memory(16);
    ScriptCommands::new(storage)
}

fn b(s: &str) -> Vec<u8> {
    s.as_bytes().to_vec()
}

fn bulk(s: &str) -> RespValue {
    RespValue::BulkString(Some(b(s)))
}

fn words(items: &[&str]) -> Vec<ScriptArg> {
    items.iter().map(|s| ScriptArg::Bytes(b(s))).collect()
}

/// `redis.call(...)` with string arguments: the reply, or nil.
fn call(tx: &mut ScriptTransaction, storage: &StorageEngine, items: &[&str]) -> Option<RespValue> {
    script_call(tx, storage, &words(items), true, NOW).unwrap()
}

fn stored(storage: &StorageEngine, key: &str) -> Option<Vec<u8>> {
    storage.get_from_db(0, key, NOW).unwrap()
}

fn put(storage: &mut StorageEngine, key: &str, value: &str) {
    storage.set_value(0, key.to_string(), StoredValue::Str(b(value)), None);
}

#[test]
fn test_calculate_sha1() {
    let script = "return 1";
    let sha1 = ScriptCommands::calculate_sha1(script);
    assert_eq!(sha1, "e0e1f9fabfc9d4800c877a703b823ac0578ff8db");
}

#[test]
fn test_script_load() {
    let mut script_commands = setup();
    let script = "return 'hello'";
    let args = vec![b(script)];

    let result = script_commands.script_load(&args);
    assert!(result.is_ok());

    if let Ok(RespValue::BulkString(Some(sha1))) = result {
        assert_eq!(String::from_utf8_lossy(&sha1), "1b936e3fe509bcbc9cd0664897bbe8fd0cac101b");
    } else {
        panic!("Expected BulkString");
    }
}

#[test]
fn test_script_exists() {
    let mut script_commands = setup();
    let script = "return 'hello'";
    let sha1 = ScriptCommands::calculate_sha1(script);

    let args = vec![b(script)];
    script_commands.script_load(&args).unwrap();

    let exists_args = vec![b(&sha1)];
    let result = script_commands.script_exists(&exists_args).unwrap();

    if let RespValue::Array(Some(arr)) = result {
        assert_eq!(arr.len(), 1);
        assert_eq!(arr[0], RespValue::Integer(1));
    } else {
        panic!("Expected Array");
    }
}

#[test]
fn test_script_flush() {
    let mut script_commands = setup();
    let script = "return 'hello'";

    let args = vec![b(script)];
    script_commands.script_load(&args).unwrap();

    let result = script_commands.script_flush(&[]);
    assert!(result.is_ok());
    assert_eq!(result.unwrap(), RespValue::SimpleString("OK".to_string()));

    let sha1 = ScriptCommands::calculate_sha1(script);
    let exists_args = vec![b(&sha1)];
    let result = script_commands.script_exists(&exists_args).unwrap();

    if let RespValue::Array(Some(arr)) = result {
        assert_eq!(arr[0], RespValue::Integer(0));
    }
}

#[test]
fn script_load_needs_one_argument() {
    let mut script_commands = setup();
    assert_eq!(
        script_commands.script_load(&[]),
        Err(AikvError::WrongArgCount("SCRIPT LOAD".to_string()))
    );
    assert_eq!(script_commands.cached_script("e0e1f9fabfc9d4800c877a703b823ac0578ff8db"), None);
}

#[test]
fn script_exists_answers_each_digest() {
    let mut script_commands = setup();
    script_commands.script_load(&[b("return 1")]).unwrap();
    let result = script_commands
        .script_exists(&[b("e0e1f9fabfc9d4800c877a703b823ac0578ff8db"), b("nope")])
        .unwrap();
    assert_eq!(
        result,
        RespValue::Array(Some(vec![RespValue::Integer(1), RespValue::Integer(0)]))
    );
    assert_eq!(
        script_commands.cached_script("e0e1f9fabfc9d4800c877a703b823ac0578ff8db"),
        Some("return 1".to_string())
    );
}

#[test]
fn script_kill_finds_nothing_running() {
    let script_commands = setup();
    assert_eq!(
        script_commands.script_kill(&[]),
        Err(AikvError::InvalidArgument("NOTBUSY No scripts in execution right now.".to_string()))
    );
}

#[test]
fn eval_request_splits_keys_and_arguments() {
    let req = eval_request(&[b("return 1"), b("2"), b("k1"), b("k2"), b("a1")]).unwrap();
    assert_eq!(req.script, "return 1");
    assert_eq!(req.keys, vec!["k1".to_string(), "k2".to_string()]);
    assert_eq!(req.argv, vec!["a1".to_string()]);
    assert_eq!(
        eval_request(&[b("return 1"), b("x")]).err(),
        Some(AikvError::InvalidArgument("numkeys must be a number".to_string()))
    );
    assert_eq!(
        eval_request(&[b("return 1"), b("3"), b("k1")]).err(),
        Some(AikvError::InvalidArgument("Number of keys doesn't match numkeys parameter".to_string()))
    );
    assert_eq!(
        eval_request(&[b("return 1")]).err(),
        Some(AikvError::WrongArgCount("EVAL".to_string()))
    );
}

#[test]
fn evalsha_request_finds_cached_script() {
    let mut script_commands = setup();
    script_commands.script_load(&[b("return KEYS[1]")]).unwrap();
    let sha = ScriptCommands::calculate_sha1("return KEYS[1]");
    let req = script_commands.evalsha_request(&[b(&sha), b("1"), b("mykey")]).unwrap();
    assert_eq!(req.script, "return KEYS[1]");
    assert_eq!(req.keys, vec!["mykey".to_string()]);
}

#[test]
fn test_evalsha_not_found() {
    let script_commands = setup();
    let args = vec![b("nonexistent_sha1"), b("0")];
    let result = script_commands.evalsha_request(&args);
    assert!(result.is_err());
}

#[test]
fn key_lock_manager_default_waits_thirty_seconds() {
    let manager = KeyLockManager::default();
    assert_eq!(manager.timeout(), Duration::from_secs(30));
}

#[test]
fn test_transaction_commit_on_success() {
    let mut storage = StorageEngine::new_memory(16);
    let mut tx = ScriptTransaction::new(0);
    call(&mut tx, &storage, &["SET", "tx_key1", "value1"]);
    call(&mut tx, &storage, &["SET", "tx_key2", "value2"]);
    assert_eq!(stored(&storage, "tx_key1"), None);
    tx.commit(&mut storage, NOW);

    assert_eq!(stored(&storage, "tx_key1"), Some(b("value1")));
    assert_eq!(stored(&storage, "tx_key2"), Some(b("value2")));
}

#[test]
fn test_transaction_rollback_on_error() {
    let storage = StorageEngine::new_memory(16);
    let mut tx = ScriptTransaction::new(0);
    call(&mut tx, &storage, &["SET", "rollback_key1", "value1"]);
    call(&mut tx, &storage, &["SET", "rollback_key2", "value2"]);
    // The script fails: its buffer is dropped, not committed.
    drop(tx);

    assert_eq!(stored(&storage, "rollback_key1"), None);
    assert_eq!(stored(&storage, "rollback_key2"), None);
}

#[test]
fn test_transaction_read_your_own_writes() {
    let storage = StorageEngine::new_memory(16);
    let mut tx = ScriptTransaction::new(0);
    call(&mut tx, &storage, &["SET", "ryw_key", "first"]);
    let val1 = call(&mut tx, &storage, &["GET", "ryw_key"]);
    call(&mut tx, &storage, &["SET", "ryw_key", "second"]);
    let val2 = call(&mut tx, &storage, &["GET", "ryw_key"]);
    assert_eq!(val1, Some(bulk("first")));
    assert_eq!(val2, Some(bulk("second")));
}

#[test]
fn test_transaction_del_then_set() {
    let mut storage = StorageEngine::new_memory(16);
    put(&mut storage, "del_set_key", "initial");

    let mut tx = ScriptTransaction::new(0);
    call(&mut tx, &storage, &["DEL", "del_set_key"]);
    let exists1 = call(&mut tx, &storage, &["EXISTS", "del_set_key"]);
    call(&mut tx, &storage, &["SET", "del_set_key", "new_value"]);
    let exists2 = call(&mut tx, &storage, &["EXISTS", "del_set_key"]);
    let val = call(&mut tx, &storage, &["GET", "del_set_key"]);
    assert_eq!(exists1, Some(RespValue::Integer(0)));
    assert_eq!(exists2, Some(RespValue::Integer(1)));
    assert_eq!(val, Some(bulk("new_value")));

    tx.commit(&mut storage, NOW);
    assert_eq!(stored(&storage, "del_set_key"), Some(b("new_value")));
}

#[test]
fn test_transaction_multiple_dels() {
    let mut storage = StorageEngine::new_memory(16);
    put(&mut storage, "multi_del1", "v1");
    put(&mut storage, "multi_del2", "v2");
    put(&mut storage, "multi_del3", "v3");

    let mut tx = ScriptTransaction::new(0);
    let count = call(&mut tx, &storage, &["DEL", "multi_del1", "multi_del2", "multi_del3"]);
    assert_eq!(count, Some(RespValue::Integer(3)));
    tx.commit(&mut storage, NOW);

    assert_eq!(stored(&storage, "multi_del1"), None);
    assert_eq!(stored(&storage, "multi_del2"), None);
    assert_eq!(stored(&storage, "multi_del3"), None);
}

#[test]
fn test_transaction_exists_with_buffer() {
    let storage = StorageEngine::new_memory(16);
    let mut tx = ScriptTransaction::new(0);
    let e1 = call(&mut tx, &storage, &["EXISTS", "exists_test"]);
    call(&mut tx, &storage, &["SET", "exists_test", "value"]);
    let e2 = call(&mut tx, &storage, &["EXISTS", "exists_test"]);
    call(&mut tx, &storage, &["DEL", "exists_test"]);
    let e3 = call(&mut tx, &storage, &["EXISTS", "exists_test"]);
    assert_eq!(e1, Some(RespValue::Integer(0)));
    assert_eq!(e2, Some(RespValue::Integer(1)));
    assert_eq!(e3, Some(RespValue::Integer(0)));
}

#[test]
fn test_transaction_overwrite_in_buffer() {
    let mut storage = StorageEngine::new_memory(16);
    let mut tx = ScriptTransaction::new(0);
    call(&mut tx, &storage, &["SET", "overwrite", "v1"]);
    call(&mut tx, &storage, &["SET", "overwrite", "v2"]);
    call(&mut tx, &storage, &["SET", "overwrite", "v3"]);
    let val = call(&mut tx, &storage, &["GET", "overwrite"]);
    assert_eq!(val, Some(bulk("v3")));

    tx.commit(&mut storage, NOW);
    assert_eq!(stored(&storage, "overwrite"), Some(b("v3")));
}

#[test]
fn test_script_incr_decr() {
    let storage = StorageEngine::new_memory(16);
    let mut tx = ScriptTransaction::new(0);
    call(&mut tx, &storage, &["SET", "counter", "10"]);
    let v1 = call(&mut tx, &storage, &["INCR", "counter"]);
    let v2 = call(&mut tx, &storage, &["INCR", "counter"]);
    let v3 = call(&mut tx, &storage, &["DECR", "counter"]);
    assert_eq!(v1, Some(RespValue::Integer(11)));
    assert_eq!(v2, Some(RespValue::Integer(12)));
    assert_eq!(v3, Some(RespValue::Integer(11)));
}

#[test]
fn test_script_incrby_decrby() {
    let storage = StorageEngine::new_memory(16);
    let mut tx = ScriptTransaction::new(0);
    call(&mut tx, &storage, &["SET", "counter", "10"]);
    let v1 = script_call(
        &mut tx,
        &storage,
        &[ScriptArg::Bytes(b("INCRBY")), ScriptArg::Bytes(b("counter")), ScriptArg::Integer(5)],
        true,
        NOW,
    )
    .unwrap();
    let v2 = script_call(
        &mut tx,
        &storage,
        &[ScriptArg::Bytes(b("DECRBY")), ScriptArg::Bytes(b("counter")), ScriptArg::Integer(3)],
        true,
        NOW,
    )
    .unwrap();
    assert_eq!(v1, Some(RespValue::Integer(15)));
    assert_eq!(v2, Some(RespValue::Integer(12)));
}

#[test]
fn test_script_append_strlen() {
    let storage = StorageEngine::new_memory(16);
    let mut tx = ScriptTransaction::new(0);
    call(&mut tx, &storage, &["SET", "mystr", "Hello"]);
    let len1 = call(&mut tx, &storage, &["STRLEN", "mystr"]);
    let len2 = call(&mut tx, &storage, &["APPEND", "mystr", " World"]);
    let len3 = call(&mut tx, &storage, &["STRLEN", "mystr"]);
    assert_eq!(len1, Some(RespValue::Integer(5)));
    assert_eq!(len2, Some(RespValue::Integer(11)));
    assert_eq!(len3, Some(RespValue::Integer(11)));
}

#[test]
fn script_call_reads_through_to_the_keyspace() {
    let mut storage = StorageEngine::new_memory(16);
    put(&mut storage, "base", "stored");
    let mut tx = ScriptTransaction::new(0);
    assert_eq!(call(&mut tx, &storage, &["get", "base"]), Some(bulk("stored")));
    assert_eq!(call(&mut tx, &storage, &["GET", "missing"]), Some(RespValue::Null));
    assert_eq!(call(&mut tx, &storage, &["SET", "k", "v"]), Some(RespValue::SimpleString("OK".to_string())));
}

#[test]
fn script_call_converts_numbers_and_booleans() {
    let storage = StorageEngine::new_memory(16);
    let mut tx = ScriptTransaction::new(0);
    let set = |tx: &mut ScriptTransaction, v: ScriptArg| {
        script_call(tx, &storage, &[ScriptArg::Bytes(b("SET")), ScriptArg::Bytes(b("k")), v], true, NOW).unwrap()
    };
    set(&mut tx, ScriptArg::Integer(-42));
    assert_eq!(call(&mut tx, &storage, &["GET", "k"]), Some(bulk("-42")));
    set(&mut tx, ScriptArg::Boolean(true));
    assert_eq!(call(&mut tx, &storage, &["GET", "k"]), Some(bulk("1")));
    set(&mut tx, ScriptArg::Boolean(false));
    assert_eq!(call(&mut tx, &storage, &["GET", "k"]), Some(bulk("0")));
    set(&mut tx, ScriptArg::Number("2.5".to_string()));
    assert_eq!(call(&mut tx, &storage, &["GET", "k"]), Some(bulk("2.5")));
}

#[test]
fn script_call_raises_or_answers_nil() {
    let storage = StorageEngine::new_memory(16);
    let mut tx = ScriptTransaction::new(0);
    assert_eq!(
        script_call(&mut tx, &storage, &[ScriptArg::Bytes(b("GET")), ScriptArg::Other], true, NOW),
        Err("Invalid argument type".to_string())
    );
    assert_eq!(
        script_call(&mut tx, &storage, &[ScriptArg::Bytes(b("GET")), ScriptArg::Other], false, NOW),
        Ok(None)
    );
    assert_eq!(script_call(&mut tx, &storage, &[], true, NOW), Err("No command specified".to_string()));
    assert_eq!(
        script_call(&mut tx, &storage, &words(&["flushall"]), true, NOW),
        Err("Command not supported in scripts: FLUSHALL".to_string())
    );
    assert_eq!(script_call(&mut tx, &storage, &words(&["flushall"]), false, NOW), Ok(None));
    assert_eq!(
        script_call(&mut tx, &storage, &words(&["GET"]), true, NOW),
        Err("Command execution error: Wrong number of arguments for 'GET' command".to_string())
    );
    call(&mut tx, &storage, &["SET", "s", "abc"]);
    assert_eq!(
        script_call(&mut tx, &storage, &words(&["INCR", "s"]), true, NOW),
        Err("Command execution error: Invalid argument: value is not an integer".to_string())
    );
    assert_eq!(
        script_call(&mut tx, &storage, &words(&["INCRBY", "s", "x"]), true, NOW),
        Err("Command execution error: Invalid argument: increment is not an integer".to_string())
    );
    assert_eq!(
        script_call(&mut tx, &storage, &words(&["DECRBY", "s", "x"]), false, NOW),
        Ok(None)
    );
}

#[test]
fn script_call_reports_wrong_kind_and_overflow() {
    let mut storage = StorageEngine::new_memory(16);
    storage.set_value(0, "h".to_string(), StoredValue::Hash(vec![(b("f"), b("v"))]), None);
    let mut tx = ScriptTransaction::new(0);
    assert_eq!(
        script_call(&mut tx, &storage, &words(&["GET", "h"]), true, NOW),
        Err(
            "Command execution error: Wrong type: WRONGTYPE Operation against a key holding the wrong kind of value"
                .to_string()
        )
    );
    call(&mut tx, &storage, &["SET", "n", "9223372036854775807"]);
    assert_eq!(
        script_call(&mut tx, &storage, &words(&["INCR", "n"]), true, NOW),
        Err("Command execution error: Invalid argument: ERR increment or decrement would overflow".to_string())
    );
    assert_eq!(call(&mut tx, &storage, &["GET", "n"]), Some(bulk("9223372036854775807")));
}

#[test]
fn commit_leaves_other_keys_and_drops_expiry_of_written_keys() {
    let mut storage = StorageEngine::new_memory(16);
    put(&mut storage, "keep", "k");
    storage.set_value(0, "ttl".to_string(), StoredValue::Str(b("old")), Some(NOW + 10));
    let mut tx = ScriptTransaction::new(0);
    call(&mut tx, &storage, &["SET", "ttl", "new"]);
    tx.commit(&mut storage, NOW);
    assert_eq!(stored(&storage, "keep"), Some(b("k")));
    assert_eq!(storage.get_expire(0, "ttl", NOW), Some(None));
    assert_eq!(storage.get_from_db(0, "ttl", NOW + 100).unwrap(), Some(b("new")));
}

#[test]
fn engine_call_and_commit() {
    let mut engine = setup();
    let mut tx = ScriptTransaction::new(0);
    assert_eq!(
        engine.call(&mut tx, &words(&["SET", "e", "1"]), true, NOW),
        Ok(Some(RespValue::SimpleString("OK".to_string())))
    );
    assert_eq!(engine.call(&mut tx, &words(&["INCR", "e"]), true, NOW), Ok(Some(RespValue::Integer(2))));
    engine.commit(tx, NOW);
    let mut tx2 = ScriptTransaction::new(0);
    assert_eq!(engine.call(&mut tx2, &words(&["GET", "e"]), true, NOW), Ok(Some(bulk("2"))));
}

#[test]
fn error_messages_read_as_displayed() {
    assert_eq!(AikvError::Moved(12182, "127.0.0.1:7001".to_string()).message(), "MOVED 12182 127.0.0.1:7001");
    assert_eq!(AikvError::Ask(7, "h:1".to_string()).message(), "ASK 7 h:1");
    assert_eq!(AikvError::KeyNotFound.message(), "Key not found");
    assert_eq!(
        AikvError::WrongArgCount("GET".to_string()).message(),
        "Wrong number of arguments for 'GET' command"
    );
    assert_eq!(
        AikvError::CrossSlot.message(),
        "CROSSSLOT Keys in request don't hash to the same slot"
    );
    assert_eq!(AikvError::Storage("x".to_string()).message(), "Storage error: x");
}

fn int_arg(n: i64) -> ScriptArg {
    ScriptArg::Integer(n)
}

#[test]
fn test_script_hash_basic() {
    let storage = StorageEngine::new_memory(16);
    let mut tx = ScriptTransaction::new(0);
    call(&mut tx, &storage, &["HSET", "myhash", "field1", "value1", "field2", "value2"]);
    let v1 = call(&mut tx, &storage, &["HGET", "myhash", "field1"]);
    let v2 = call(&mut tx, &storage, &["HGET", "myhash", "field2"]);
    let exists1 = call(&mut tx, &storage, &["HEXISTS", "myhash", "field1"]);
    let exists2 = call(&mut tx, &storage, &["HEXISTS", "myhash", "field3"]);
    let len = call(&mut tx, &storage, &["HLEN", "myhash"]);
    assert_eq!(v1, Some(bulk("value1")));
    assert_eq!(v2, Some(bulk("value2")));
    assert_eq!(exists1, Some(RespValue::Integer(1)));
    assert_eq!(exists2, Some(RespValue::Integer(0)));
    assert_eq!(len, Some(RespValue::Integer(2)));
}

#[test]
fn test_script_hash_hincrby() {
    let storage = StorageEngine::new_memory(16);
    let mut tx = ScriptTransaction::new(0);
    call(&mut tx, &storage, &["HSET", "myhash", "counter", "10"]);
    let v = script_call(
        &mut tx,
        &storage,
        &[
            ScriptArg::Bytes(b("HINCRBY")),
            ScriptArg::Bytes(b("myhash")),
            ScriptArg::Bytes(b("counter")),
            int_arg(5),
        ],
        true,
        NOW,
    )
    .unwrap();
    assert_eq!(v, Some(RespValue::Integer(15)));
}

#[test]
fn test_script_hash_hdel() {
    let storage = StorageEngine::new_memory(16);
    let mut tx = ScriptTransaction::new(0);
    call(&mut tx, &storage, &["HSET", "myhash", "f1", "v1", "f2", "v2", "f3", "v3"]);
    let deleted = call(&mut tx, &storage, &["HDEL", "myhash", "f1", "f2"]);
    let len = call(&mut tx, &storage, &["HLEN", "myhash"]);
    assert_eq!(deleted, Some(RespValue::Integer(2)));
    assert_eq!(len, Some(RespValue::Integer(1)));
}

#[test]
fn test_script_list_basic() {
    let storage = StorageEngine::new_memory(16);
    let mut tx = ScriptTransaction::new(0);
    call(&mut tx, &storage, &["RPUSH", "mylist", "a", "b", "c"]);
    call(&mut tx, &storage, &["LPUSH", "mylist", "z"]);
    let len = call(&mut tx, &storage, &["LLEN", "mylist"]);
    let first = script_call(
        &mut tx,
        &storage,
        &[ScriptArg::Bytes(b("LINDEX")), ScriptArg::Bytes(b("mylist")), int_arg(0)],
        true,
        NOW,
    )
    .unwrap();
    let last = script_call(
        &mut tx,
        &storage,
        &[ScriptArg::Bytes(b("LINDEX")), ScriptArg::Bytes(b("mylist")), int_arg(-1)],
        true,
        NOW,
    )
    .unwrap();
    assert_eq!(len, Some(RespValue::Integer(4)));
    assert_eq!(first, Some(bulk("z")));
    assert_eq!(last, Some(bulk("c")));
}

#[test]
fn test_script_list_pop() {
    let storage = StorageEngine::new_memory(16);
    let mut tx = ScriptTransaction::new(0);
    call(&mut tx, &storage, &["RPUSH", "mylist", "a", "b", "c"]);
    let left = call(&mut tx, &storage, &["LPOP", "mylist"]);
    let right = call(&mut tx, &storage, &["RPOP", "mylist"]);
    let len = call(&mut tx, &storage, &["LLEN", "mylist"]);
    assert_eq!(left, Some(bulk("a")));
    assert_eq!(right, Some(bulk("c")));
    assert_eq!(len, Some(RespValue::Integer(1)));
}

#[test]
fn test_script_list_lrange() {
    let storage = StorageEngine::new_memory(16);
    let mut tx = ScriptTransaction::new(0);
    call(&mut tx, &storage, &["RPUSH", "mylist", "a", "b", "c", "d", "e"]);
    let range = script_call(
        &mut tx,
        &storage,
        &[ScriptArg::Bytes(b("LRANGE")), ScriptArg::Bytes(b("mylist")), int_arg(1), int_arg(3)],
        true,
        NOW,
    )
    .unwrap();
    assert_eq!(range, Some(RespValue::Array(Some(vec![bulk("b"), bulk("c"), bulk("d")]))));
}

#[test]
fn test_script_set_basic() {
    let storage = StorageEngine::new_memory(16);
    let mut tx = ScriptTransaction::new(0);
    let added = call(&mut tx, &storage, &["SADD", "myset", "a", "b", "c"]);
    let card = call(&mut tx, &storage, &["SCARD", "myset"]);
    let is_a = call(&mut tx, &storage, &["SISMEMBER", "myset", "a"]);
    let is_z = call(&mut tx, &storage, &["SISMEMBER", "myset", "z"]);
    assert_eq!(added, Some(RespValue::Integer(3)));
    assert_eq!(card, Some(RespValue::Integer(3)));
    assert_eq!(is_a, Some(RespValue::Integer(1)));
    assert_eq!(is_z, Some(RespValue::Integer(0)));
}

#[test]
fn test_script_set_srem() {
    let storage = StorageEngine::new_memory(16);
    let mut tx = ScriptTransaction::new(0);
    call(&mut tx, &storage, &["SADD", "myset", "a", "b", "c"]);
    let removed = call(&mut tx, &storage, &["SREM", "myset", "a", "b"]);
    let card = call(&mut tx, &storage, &["SCARD", "myset"]);
    assert_eq!(removed, Some(RespValue::Integer(2)));
    assert_eq!(card, Some(RespValue::Integer(1)));
}

#[test]
fn test_script_complex_types_rollback() {
    let storage = StorageEngine::new_memory(16);
    let mut tx = ScriptTransaction::new(0);
    call(&mut tx, &storage, &["HSET", "test_hash", "field1", "value1"]);
    call(&mut tx, &storage, &["LPUSH", "test_list", "item1"]);
    call(&mut tx, &storage, &["SADD", "test_set", "member1"]);
    // The script fails: its buffer is dropped, not committed.
    drop(tx);
    assert!(storage.get_value(0, "test_hash", NOW).is_none());
    assert!(storage.get_value(0, "test_list", NOW).is_none());
    assert!(storage.get_value(0, "test_set", NOW).is_none());
}

#[test]
fn test_script_complex_types_commit() {
    let mut storage = StorageEngine::new_memory(16);
    let mut tx = ScriptTransaction::new(0);
    call(&mut tx, &storage, &["HSET", "commit_hash", "field1", "value1"]);
    call(&mut tx, &storage, &["LPUSH", "commit_list", "item1"]);
    call(&mut tx, &storage, &["SADD", "commit_set", "member1"]);
    tx.commit(&mut storage, NOW);
    assert!(storage.get_value(0, "commit_hash", NOW).is_some());
    assert!(storage.get_value(0, "commit_list", NOW).is_some());
    assert!(storage.get_value(0, "commit_set", NOW).is_some());
}

#[test]
fn script_list_commands_follow_their_own_order_and_bounds() {
    let storage = StorageEngine::new_memory(16);
    let mut tx = ScriptTransaction::new(0);
    // Scripts push LPUSH's elements in the order given, before the head.
    assert_eq!(call(&mut tx, &storage, &["LPUSH", "l", "x", "y"]), Some(RespValue::Integer(2)));
    assert_eq!(call(&mut tx, &storage, &["LRANGE", "l", "0", "-1"]), Some(RespValue::Array(Some(vec![bulk("x"), bulk("y")]))));
    assert_eq!(call(&mut tx, &storage, &["LRANGE", "l", "0", "-4"]), Some(RespValue::Array(Some(vec![]))));
    assert_eq!(call(&mut tx, &storage, &["LINDEX", "l", "5"]), Some(RespValue::Null));
    assert_eq!(
        script_call(&mut tx, &storage, &words(&["LINDEX", "l", "a"]), true, NOW),
        Err("Command execution error: Invalid argument: index is not an integer".to_string())
    );
    assert_eq!(call(&mut tx, &storage, &["RPOP", "l", "5"]), Some(RespValue::Array(Some(vec![bulk("y"), bulk("x")]))));
    assert_eq!(call(&mut tx, &storage, &["LLEN", "l"]), Some(RespValue::Integer(0)));
    assert_eq!(call(&mut tx, &storage, &["LPOP", "l"]), Some(RespValue::Null));
    assert_eq!(call(&mut tx, &storage, &["HGETALL", "nohash"]), Some(RespValue::Array(Some(vec![]))));
    call(&mut tx, &storage, &["HMSET", "h", "a", "1", "b", "2"]);
    assert_eq!(
        call(&mut tx, &storage, &["HMGET", "h", "b", "zz"]),
        Some(RespValue::Array(Some(vec![bulk("2"), RespValue::Null])))
    );
    assert_eq!(
        call(&mut tx, &storage, &["HGETALL", "h"]),
        Some(RespValue::Array(Some(vec![bulk("a"), bulk("1"), bulk("b"), bulk("2")])))
    );
    assert_eq!(
        script_call(&mut tx, &storage, &words(&["ZADD", "z", "1", "m"]), true, NOW),
        Err("Command not supported in scripts: ZADD".to_string())
    );
}

#[test]
fn test_eval_redis_call_set_get() {
    let engine = setup();
    let script = r#"
            redis.call('SET', KEYS[1], ARGV[1])
            return redis.call('GET', KEYS[1])
        "#;
    let args = vec![b(script), b("1"), b("mykey"), b("myvalue")];
    let req = eval_request(&args).unwrap();
    let mut tx = ScriptTransaction::new(0);
    let set = vec![
        ScriptArg::Bytes(b("SET")),
        ScriptArg::Bytes(b(&req.keys[0])),
        ScriptArg::Bytes(b(&req.argv[0])),
    ];
    engine.call(&mut tx, &set, true, NOW).unwrap();
    let get = vec![ScriptArg::Bytes(b("GET")), ScriptArg::Bytes(b(&req.keys[0]))];
    let value = engine.call(&mut tx, &get, true, NOW).unwrap();
    assert_eq!(value, Some(bulk("myvalue")));
}
