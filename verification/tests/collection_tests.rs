use aikv::command::hash::HashCommands;
use aikv::command::list::ListCommands;
use aikv::command::set::SetCommands;
use aikv::command::string::StringCommands;
use aikv::error::AikvError;
use aikv::protocol::RespValue;
use aikv::storage::StorageEngine;

fn b(s: &str) -> Vec<u8> {
    s.as_bytes().to_vec()
}

fn bulk(s: &str) -> RespValue {
    RespValue::bulk_string(b(s))
}

fn bulks(items: &[&str]) -> RespValue {
    RespValue::array(items.iter().map(|s| bulk(s)).collect())
}

fn args(items: &[&str]) -> Vec<Vec<u8>> {
    items.iter().map(|s| b(s)).collect()
}

fn wrong_type(r: Result<RespValue, AikvError>) -> bool {
    matches!(r, Err(AikvError::WrongType(_)))
}

#[test]
fn hash_set_get_and_count_new_fields() {
    let mut h = HashCommands::new(StorageEngine::new_memory(16));
    assert_eq!(h.hset(&args(&["user", "name", "John", "age", "30"]), 0).unwrap(), RespValue::integer(2));
    assert_eq!(h.hset(&args(&["user", "name", "Jane", "city", "Oslo"]), 0).unwrap(), RespValue::integer(1));
    assert_eq!(h.hget(&args(&["user", "name"]), 0).unwrap(), bulk("Jane"));
    assert_eq!(h.hget(&args(&["user", "missing"]), 0).unwrap(), RespValue::Null);
    assert_eq!(h.hget(&args(&["nokey", "name"]), 0).unwrap(), RespValue::Null);
    assert_eq!(h.hlen(&args(&["user"]), 0).unwrap(), RespValue::integer(3));
    assert_eq!(h.hkeys(&args(&["user"]), 0).unwrap(), bulks(&["name", "age", "city"]));
    assert_eq!(h.hvals(&args(&["user"]), 0).unwrap(), bulks(&["Jane", "30", "Oslo"]));
    assert_eq!(
        h.hgetall(&args(&["user"]), 0).unwrap(),
        bulks(&["name", "Jane", "age", "30", "city", "Oslo"])
    );
}

#[test]
fn hash_arity_errors() {
    let mut h = HashCommands::new(StorageEngine::new_memory(16));
    assert!(matches!(h.hset(&args(&["k", "f"]), 0), Err(AikvError::WrongArgCount(n)) if n == "HSET"));
    assert!(matches!(h.hset(&args(&["k", "f", "v", "g"]), 0), Err(AikvError::WrongArgCount(_))));
    assert!(matches!(h.hmset(&args(&["k", "f"]), 0), Err(AikvError::WrongArgCount(n)) if n == "HMSET"));
    assert!(matches!(h.hget(&args(&["k"]), 0), Err(AikvError::WrongArgCount(n)) if n == "HGET"));
}

#[test]
fn hash_setnx_and_exists() {
    let mut h = HashCommands::new(StorageEngine::new_memory(16));
    assert_eq!(h.hsetnx(&args(&["k", "f", "1"]), 0).unwrap(), RespValue::integer(1));
    assert_eq!(h.hsetnx(&args(&["k", "f", "2"]), 0).unwrap(), RespValue::integer(0));
    assert_eq!(h.hget(&args(&["k", "f"]), 0).unwrap(), bulk("1"));
    assert_eq!(h.hexists(&args(&["k", "f"]), 0).unwrap(), RespValue::integer(1));
    assert_eq!(h.hexists(&args(&["k", "g"]), 0).unwrap(), RespValue::integer(0));
}

#[test]
fn hash_mget_and_mset() {
    let mut h = HashCommands::new(StorageEngine::new_memory(16));
    assert_eq!(h.hmset(&args(&["k", "a", "1", "b", "2"]), 0).unwrap(), RespValue::ok());
    assert_eq!(
        h.hmget(&args(&["k", "a", "x", "b"]), 0).unwrap(),
        RespValue::array(vec![bulk("1"), RespValue::Null, bulk("2")])
    );
    assert_eq!(
        h.hmget(&args(&["none", "a"]), 0).unwrap(),
        RespValue::array(vec![RespValue::Null])
    );
}

#[test]
fn hash_del_removes_fields_and_empty_hash() {
    let mut h = HashCommands::new(StorageEngine::new_memory(16));
    h.hset(&args(&["k", "a", "1", "b", "2"]), 0).unwrap();
    assert_eq!(h.hdel(&args(&["k", "a", "zz"]), 0).unwrap(), RespValue::integer(1));
    assert_eq!(h.hexists(&args(&["k", "a"]), 0).unwrap(), RespValue::integer(0));
    assert_eq!(h.hdel(&args(&["k", "b"]), 0).unwrap(), RespValue::integer(1));
    assert_eq!(h.hlen(&args(&["k"]), 0).unwrap(), RespValue::integer(0));
    assert_eq!(h.hdel(&args(&["k", "b"]), 0).unwrap(), RespValue::integer(0));
}

#[test]
fn hash_incrby() {
    let mut h = HashCommands::new(StorageEngine::new_memory(16));
    assert_eq!(h.hincrby(&args(&["k", "n", "5"]), 0).unwrap(), RespValue::integer(5));
    assert_eq!(h.hincrby(&args(&["k", "n", "10"]), 0).unwrap(), RespValue::integer(15));
    assert_eq!(h.hincrby(&args(&["k", "n", "-20"]), 0).unwrap(), RespValue::integer(-5));
    assert_eq!(h.hget(&args(&["k", "n"]), 0).unwrap(), bulk("-5"));
    assert!(matches!(h.hincrby(&args(&["k", "n", "x"]), 0), Err(AikvError::InvalidArgument(m)) if m == "invalid increment"));
    h.hset(&args(&["k", "s", "abc"]), 0).unwrap();
    assert!(matches!(h.hincrby(&args(&["k", "s", "1"]), 0), Err(AikvError::InvalidArgument(m)) if m == "hash value is not an integer"));
    h.hset(&args(&["k", "big", "9223372036854775807"]), 0).unwrap();
    assert!(matches!(h.hincrby(&args(&["k", "big", "1"]), 0), Err(AikvError::InvalidArgument(_))));
}

#[test]
fn hash_wrong_type() {
    let mut s = StringCommands::new(StorageEngine::new_memory(16));
    s.set(&args(&["str", "v"]), 0).unwrap();
    let mut h = HashCommands::new(s.into_storage());
    assert!(wrong_type(h.hget(&args(&["str", "f"]), 0)));
    assert!(wrong_type(h.hset(&args(&["str", "f", "v"]), 0)));
}

#[test]
fn list_push_pop_range() {
    let mut l = ListCommands::new(StorageEngine::new_memory(16));
    assert_eq!(l.rpush(&args(&["q", "a", "b"]), 0).unwrap(), RespValue::integer(2));
    assert_eq!(l.lpush(&args(&["q", "x", "y"]), 0).unwrap(), RespValue::integer(4));
    assert_eq!(l.lrange(&args(&["q", "0", "-1"]), 0).unwrap(), bulks(&["y", "x", "a", "b"]));
    assert_eq!(l.lrange(&args(&["q", "1", "2"]), 0).unwrap(), bulks(&["x", "a"]));
    assert_eq!(l.lrange(&args(&["q", "5", "10"]), 0).unwrap(), bulks(&[]));
    assert_eq!(l.lrange(&args(&["q", "-100", "100"]), 0).unwrap(), bulks(&["y", "x", "a", "b"]));
    assert_eq!(l.llen(&args(&["q"]), 0).unwrap(), RespValue::integer(4));
    assert_eq!(l.lpop(&args(&["q"]), 0).unwrap(), bulk("y"));
    assert_eq!(l.rpop(&args(&["q"]), 0).unwrap(), bulk("b"));
    assert_eq!(l.lpop(&args(&["q", "5"]), 0).unwrap(), bulks(&["x", "a"]));
    assert_eq!(l.llen(&args(&["q"]), 0).unwrap(), RespValue::integer(0));
    assert_eq!(l.lpop(&args(&["q"]), 0).unwrap(), RespValue::Null);
}

#[test]
fn list_rpop_count_order() {
    let mut l = ListCommands::new(StorageEngine::new_memory(16));
    l.rpush(&args(&["q", "1", "2", "3"]), 0).unwrap();
    assert_eq!(l.rpop(&args(&["q", "2"]), 0).unwrap(), bulks(&["3", "2"]));
    assert!(matches!(l.rpop(&args(&["q", "x"]), 0), Err(AikvError::InvalidArgument(m)) if m == "invalid count"));
}

#[test]
fn list_index_set() {
    let mut l = ListCommands::new(StorageEngine::new_memory(16));
    l.rpush(&args(&["q", "a", "b", "c"]), 0).unwrap();
    assert_eq!(l.lindex(&args(&["q", "0"]), 0).unwrap(), bulk("a"));
    assert_eq!(l.lindex(&args(&["q", "-1"]), 0).unwrap(), bulk("c"));
    assert_eq!(l.lindex(&args(&["q", "3"]), 0).unwrap(), RespValue::Null);
    assert_eq!(l.lset(&args(&["q", "-2", "B"]), 0).unwrap(), RespValue::ok());
    assert_eq!(l.lrange(&args(&["q", "0", "-1"]), 0).unwrap(), bulks(&["a", "B", "c"]));
    assert!(matches!(l.lset(&args(&["q", "9", "z"]), 0), Err(AikvError::InvalidArgument(m)) if m == "index out of range"));
    assert!(matches!(l.lset(&args(&["none", "0", "z"]), 0), Err(AikvError::InvalidArgument(m)) if m == "no such key"));
}

#[test]
fn list_rem_from_both_ends() {
    let mut l = ListCommands::new(StorageEngine::new_memory(16));
    l.rpush(&args(&["q", "a", "x", "b", "x", "c", "x"]), 0).unwrap();
    assert_eq!(l.lrem(&args(&["q", "1", "x"]), 0).unwrap(), RespValue::integer(1));
    assert_eq!(l.lrange(&args(&["q", "0", "-1"]), 0).unwrap(), bulks(&["a", "b", "x", "c", "x"]));
    assert_eq!(l.lrem(&args(&["q", "-1", "x"]), 0).unwrap(), RespValue::integer(1));
    assert_eq!(l.lrange(&args(&["q", "0", "-1"]), 0).unwrap(), bulks(&["a", "b", "x", "c"]));
    assert_eq!(l.lrem(&args(&["q", "0", "x"]), 0).unwrap(), RespValue::integer(1));
    assert_eq!(l.lrange(&args(&["q", "0", "-1"]), 0).unwrap(), bulks(&["a", "b", "c"]));
}

#[test]
fn list_trim_insert_move() {
    let mut l = ListCommands::new(StorageEngine::new_memory(16));
    l.rpush(&args(&["q", "a", "b", "c", "d"]), 0).unwrap();
    assert_eq!(l.ltrim(&args(&["q", "1", "-2"]), 0).unwrap(), RespValue::ok());
    assert_eq!(l.lrange(&args(&["q", "0", "-1"]), 0).unwrap(), bulks(&["b", "c"]));
    assert_eq!(l.linsert(&args(&["q", "before", "c", "X"]), 0).unwrap(), RespValue::integer(3));
    assert_eq!(l.linsert(&args(&["q", "AFTER", "c", "Y"]), 0).unwrap(), RespValue::integer(4));
    assert_eq!(l.linsert(&args(&["q", "AFTER", "zz", "Y"]), 0).unwrap(), RespValue::integer(-1));
    assert_eq!(l.linsert(&args(&["none", "AFTER", "c", "Y"]), 0).unwrap(), RespValue::integer(0));
    assert!(matches!(l.linsert(&args(&["q", "MIDDLE", "c", "Y"]), 0), Err(AikvError::InvalidArgument(_))));
    assert_eq!(l.lrange(&args(&["q", "0", "-1"]), 0).unwrap(), bulks(&["b", "X", "c", "Y"]));
    assert_eq!(l.lmove(&args(&["q", "dst", "LEFT", "RIGHT"]), 0).unwrap(), bulk("b"));
    assert_eq!(l.lmove(&args(&["q", "dst", "right", "left"]), 0).unwrap(), bulk("Y"));
    assert_eq!(l.lrange(&args(&["dst", "0", "-1"]), 0).unwrap(), bulks(&["Y", "b"]));
    assert_eq!(l.lmove(&args(&["q", "q", "LEFT", "RIGHT"]), 0).unwrap(), bulk("X"));
    assert_eq!(l.lrange(&args(&["q", "0", "-1"]), 0).unwrap(), bulks(&["c", "X"]));
    assert_eq!(l.lmove(&args(&["none", "q", "LEFT", "RIGHT"]), 0).unwrap(), RespValue::Null);
    assert_eq!(l.ltrim(&args(&["q", "5", "9"]), 0).unwrap(), RespValue::ok());
    assert_eq!(l.llen(&args(&["q"]), 0).unwrap(), RespValue::integer(0));
}

#[test]
fn set_add_remove_members() {
    let mut s = SetCommands::new(StorageEngine::new_memory(16));
    assert_eq!(s.sadd(&args(&["s", "a", "b", "a"]), 0).unwrap(), RespValue::integer(2));
    assert_eq!(s.sadd(&args(&["s", "b", "c"]), 0).unwrap(), RespValue::integer(1));
    assert_eq!(s.scard(&args(&["s"]), 0).unwrap(), RespValue::integer(3));
    assert_eq!(s.smembers(&args(&["s"]), 0).unwrap(), bulks(&["a", "b", "c"]));
    assert_eq!(s.sismember(&args(&["s", "b"]), 0).unwrap(), RespValue::integer(1));
    assert_eq!(s.sismember(&args(&["s", "z"]), 0).unwrap(), RespValue::integer(0));
    assert_eq!(s.srem(&args(&["s", "b", "z"]), 0).unwrap(), RespValue::integer(1));
    assert_eq!(s.smembers(&args(&["s"]), 0).unwrap(), bulks(&["a", "c"]));
    assert_eq!(s.srem(&args(&["s", "a", "c"]), 0).unwrap(), RespValue::integer(2));
    assert_eq!(s.scard(&args(&["s"]), 0).unwrap(), RespValue::integer(0));
}

#[test]
fn set_pop_and_randmember() {
    let mut s = SetCommands::new(StorageEngine::new_memory(16));
    s.sadd(&args(&["s", "a", "b", "c"]), 0).unwrap();
    assert_eq!(s.srandmember(&args(&["s"]), 0).unwrap(), bulk("a"));
    assert_eq!(s.srandmember(&args(&["s", "-2"]), 0).unwrap(), bulks(&["a", "b"]));
    assert_eq!(s.srandmember(&args(&["none"]), 0).unwrap(), RespValue::Null);
    assert_eq!(s.srandmember(&args(&["none", "3"]), 0).unwrap(), bulks(&[]));
    assert_eq!(s.spop(&args(&["s"]), 0).unwrap(), bulk("a"));
    assert_eq!(s.spop(&args(&["s", "5"]), 0).unwrap(), bulks(&["b", "c"]));
    assert_eq!(s.spop(&args(&["s"]), 0).unwrap(), RespValue::Null);
}

#[test]
fn set_combinations() {
    let mut s = SetCommands::new(StorageEngine::new_memory(16));
    s.sadd(&args(&["s1", "a", "b", "c"]), 0).unwrap();
    s.sadd(&args(&["s2", "c", "d", "a"]), 0).unwrap();
    assert_eq!(s.sunion(&args(&["s1", "s2", "none"]), 0).unwrap(), bulks(&["a", "b", "c", "d"]));
    assert_eq!(s.sinter(&args(&["s1", "s2"]), 0).unwrap(), bulks(&["a", "c"]));
    assert_eq!(s.sinter(&args(&["s1", "none", "s2"]), 0).unwrap(), bulks(&[]));
    assert_eq!(s.sdiff(&args(&["s1", "s2"]), 0).unwrap(), bulks(&["b"]));
    assert_eq!(s.sunionstore(&args(&["u", "s1", "s2"]), 0).unwrap(), RespValue::integer(4));
    assert_eq!(s.sinterstore(&args(&["i", "s1", "s2"]), 0).unwrap(), RespValue::integer(2));
    assert_eq!(s.sdiffstore(&args(&["d", "s2", "s1"]), 0).unwrap(), RespValue::integer(1));
    assert_eq!(s.smembers(&args(&["d"]), 0).unwrap(), bulks(&["d"]));
    assert!(matches!(s.sunion(&args(&[]), 0), Err(AikvError::WrongArgCount(n)) if n == "SUNION"));
    assert!(matches!(s.sunionstore(&args(&["dest"]), 0), Err(AikvError::WrongArgCount(n)) if n == "SUNIONSTORE"));
}

#[test]
fn set_move() {
    let mut s = SetCommands::new(StorageEngine::new_memory(16));
    s.sadd(&args(&["src", "a", "b"]), 0).unwrap();
    assert_eq!(s.smove(&args(&["src", "dst", "a"]), 0).unwrap(), RespValue::integer(1));
    assert_eq!(s.smove(&args(&["src", "dst", "zz"]), 0).unwrap(), RespValue::integer(0));
    assert_eq!(s.smembers(&args(&["src"]), 0).unwrap(), bulks(&["b"]));
    assert_eq!(s.smembers(&args(&["dst"]), 0).unwrap(), bulks(&["a"]));
    assert_eq!(s.smove(&args(&["src", "dst", "b"]), 0).unwrap(), RespValue::integer(1));
    assert_eq!(s.scard(&args(&["src"]), 0).unwrap(), RespValue::integer(0));
}

#[test]
fn set_wrong_type() {
    let mut l = ListCommands::new(StorageEngine::new_memory(16));
    l.rpush(&args(&["lst", "a"]), 0).unwrap();
    let mut s = SetCommands::new(l.into_storage());
    assert!(wrong_type(s.sadd(&args(&["lst", "a"]), 0)));
    assert!(wrong_type(s.sunion(&args(&["lst"]), 0)));
}

#[test]
fn set_scan_pages_through_members() {
    let mut s = SetCommands::new(StorageEngine::new_memory(16));
    s.sadd(&args(&["s", "a1", "b1", "a2", "a3"]), 0).unwrap();
    assert_eq!(
        s.sscan(&args(&["s", "0", "COUNT", "3"]), 0).unwrap(),
        RespValue::array(vec![bulk("3"), bulks(&["a1", "b1", "a2"])])
    );
    assert_eq!(
        s.sscan(&args(&["s", "3", "COUNT", "3"]), 0).unwrap(),
        RespValue::array(vec![bulk("0"), bulks(&["a3"])])
    );
    assert_eq!(
        s.sscan(&args(&["s", "0", "MATCH", "a*"]), 0).unwrap(),
        RespValue::array(vec![bulk("0"), bulks(&["a1", "a2", "a3"])])
    );
    assert_eq!(
        s.sscan(&args(&["s", "9"]), 0).unwrap(),
        RespValue::array(vec![bulk("0"), bulks(&[])])
    );
    assert!(matches!(s.sscan(&args(&["s", "x"]), 0), Err(AikvError::InvalidArgument(m)) if m == "ERR invalid cursor"));
    assert!(matches!(s.sscan(&args(&["s", "0", "BOGUS"]), 0), Err(AikvError::InvalidArgument(m)) if m == "ERR syntax error"));
    assert!(matches!(s.sscan(&args(&["s"]), 0), Err(AikvError::WrongArgCount(n)) if n == "SSCAN"));
}

#[test]
fn hash_scan_walks_fields_in_order() {
    let mut h = HashCommands::new(StorageEngine::new_memory(16));
    h.hset(&args(&["h", "zeta", "1", "alpha", "2", "beta", "3", "al", "4"]), 0).unwrap();
    assert_eq!(
        h.hscan(&args(&["h", "0", "COUNT", "2"]), 0).unwrap(),
        RespValue::array(vec![bulk("2"), bulks(&["al", "4", "alpha", "2"])])
    );
    assert_eq!(
        h.hscan(&args(&["h", "2", "COUNT", "2"]), 0).unwrap(),
        RespValue::array(vec![bulk("0"), bulks(&["beta", "3", "zeta", "1"])])
    );
    assert_eq!(
        h.hscan(&args(&["h", "0", "MATCH", "al*"]), 0).unwrap(),
        RespValue::array(vec![bulk("0"), bulks(&["al", "4", "alpha", "2"])])
    );
    assert_eq!(
        h.hscan(&args(&["h", "0", "COUNT", "0"]), 0).unwrap(),
        RespValue::array(vec![bulk("1"), bulks(&["al", "4"])])
    );
    assert_eq!(
        h.hscan(&args(&["missing", "0"]), 0).unwrap(),
        RespValue::array(vec![bulk("0"), bulks(&[])])
    );
}

#[test]
fn hash_scan_errors() {
    let h = HashCommands::new(StorageEngine::new_memory(16));
    assert!(matches!(h.hscan(&args(&["h"]), 0), Err(AikvError::WrongArgCount(n)) if n == "HSCAN"));
    assert!(matches!(h.hscan(&args(&["h", "-1"]), 0), Err(AikvError::InvalidArgument(m)) if m == "ERR invalid cursor"));
    assert!(matches!(h.hscan(&args(&["h", "0", "COUNT", "x"]), 0), Err(AikvError::InvalidArgument(m)) if m == "ERR value is not an integer"));
    assert!(matches!(h.hscan(&args(&["h", "0", "MATCH"]), 0), Err(AikvError::InvalidArgument(m)) if m == "ERR syntax error"));
    assert!(matches!(h.hscan(&args(&["h", "0", "fast"]), 0), Err(AikvError::InvalidArgument(m)) if m == "ERR unknown option 'FAST'"));
}
