//! Server commands: INFO, CONFIG, SLOWLOG, TIME, CLIENT, COMMAND,
//! LASTSAVE, SHUTDOWN.
use crate::command::reply::{
    arg_option, arg_text, arg_usize, arg_views, arity_error, invalid_error, key_of, ok_reply, option_of, text_bytes,
    Failure, Reply,
};
use crate::error::AikvError;
use crate::protocol::RespValue;
use crate::observability::logging::{Level, SlowQueryLog};
use crate::observability::tracing_setup::random_u64;
use crate::storage::StorageEngine;
use std::time::Duration;
use crate::text::{spec_to_lowercase, str_eq, string_of, to_lowercase, views};
use vstd::prelude::*;
use vstd::utf8::encode_utf8;

verus! {

/// What COMMAND reports of a command.
#[derive(Debug, Clone, Copy)]
pub struct CommandInfo {
    /// Command name, upper case.
    pub name: &'static str,
    /// Number of arguments, the name included (negative: at least that many).
    pub arity: i64,
    /// Command flags.
    pub flags: &'static [&'static str],
    /// Position of the first key (0: none).
    pub first_key: i64,
    /// Position of the last key (-1: the last argument).
    pub last_key: i64,
    /// Distance between keys.
    pub step: i64,
}

/// The commands this server supports, with their metadata.
pub open spec fn command_table() -> Seq<CommandInfo> {
    seq![
        // String commands
        CommandInfo { name: "GET", arity: 2, flags: &["readonly", "fast"], first_key: 1, last_key: 1, step: 1 },
        CommandInfo { name: "SET", arity: -3i64, flags: &["write", "denyoom"], first_key: 1, last_key: 1, step: 1 },
        CommandInfo { name: "DEL", arity: -2i64, flags: &["write"], first_key: 1, last_key: -1i64, step: 1 },
        CommandInfo { name: "EXISTS", arity: -2i64, flags: &["readonly", "fast"], first_key: 1, last_key: -1i64, step: 1 },
        CommandInfo { name: "MGET", arity: -2i64, flags: &["readonly", "fast"], first_key: 1, last_key: -1i64, step: 1 },
        CommandInfo { name: "MSET", arity: -3i64, flags: &["write", "denyoom"], first_key: 1, last_key: -1i64, step: 2 },
        CommandInfo { name: "STRLEN", arity: 2, flags: &["readonly", "fast"], first_key: 1, last_key: 1, step: 1 },
        CommandInfo { name: "APPEND", arity: 3, flags: &["write", "denyoom", "fast"], first_key: 1, last_key: 1, step: 1 },
        // JSON commands
        CommandInfo { name: "JSON.GET", arity: -2i64, flags: &["readonly"], first_key: 1, last_key: 1, step: 1 },
        CommandInfo { name: "JSON.SET", arity: -4i64, flags: &["write", "denyoom"], first_key: 1, last_key: 1, step: 1 },
        CommandInfo { name: "JSON.DEL", arity: -2i64, flags: &["write"], first_key: 1, last_key: 1, step: 1 },
        CommandInfo { name: "JSON.TYPE", arity: -2i64, flags: &["readonly"], first_key: 1, last_key: 1, step: 1 },
        CommandInfo { name: "JSON.STRLEN", arity: -2i64, flags: &["readonly"], first_key: 1, last_key: 1, step: 1 },
        CommandInfo { name: "JSON.ARRLEN", arity: -2i64, flags: &["readonly"], first_key: 1, last_key: 1, step: 1 },
        CommandInfo { name: "JSON.OBJLEN", arity: -2i64, flags: &["readonly"], first_key: 1, last_key: 1, step: 1 },
        // List commands
        CommandInfo { name: "LPUSH", arity: -3i64, flags: &["write", "denyoom", "fast"], first_key: 1, last_key: 1, step: 1 },
        CommandInfo { name: "RPUSH", arity: -3i64, flags: &["write", "denyoom", "fast"], first_key: 1, last_key: 1, step: 1 },
        CommandInfo { name: "LPOP", arity: -2i64, flags: &["write", "fast"], first_key: 1, last_key: 1, step: 1 },
        CommandInfo { name: "RPOP", arity: -2i64, flags: &["write", "fast"], first_key: 1, last_key: 1, step: 1 },
        CommandInfo { name: "LLEN", arity: 2, flags: &["readonly", "fast"], first_key: 1, last_key: 1, step: 1 },
        CommandInfo { name: "LRANGE", arity: 4, flags: &["readonly"], first_key: 1, last_key: 1, step: 1 },
        CommandInfo { name: "LINDEX", arity: 3, flags: &["readonly"], first_key: 1, last_key: 1, step: 1 },
        CommandInfo { name: "LSET", arity: 4, flags: &["write", "denyoom"], first_key: 1, last_key: 1, step: 1 },
        CommandInfo { name: "LREM", arity: 4, flags: &["write"], first_key: 1, last_key: 1, step: 1 },
        CommandInfo { name: "LTRIM", arity: 4, flags: &["write"], first_key: 1, last_key: 1, step: 1 },
        CommandInfo { name: "LINSERT", arity: 5, flags: &["write", "denyoom"], first_key: 1, last_key: 1, step: 1 },
        CommandInfo { name: "LMOVE", arity: 5, flags: &["write", "denyoom"], first_key: 1, last_key: 2, step: 1 },
        // Hash commands
        CommandInfo { name: "HSET", arity: -4i64, flags: &["write", "denyoom", "fast"], first_key: 1, last_key: 1, step: 1 },
        CommandInfo { name: "HSETNX", arity: 4, flags: &["write", "denyoom", "fast"], first_key: 1, last_key: 1, step: 1 },
        CommandInfo { name: "HGET", arity: 3, flags: &["readonly", "fast"], first_key: 1, last_key: 1, step: 1 },
        CommandInfo { name: "HMGET", arity: -3i64, flags: &["readonly", "fast"], first_key: 1, last_key: 1, step: 1 },
        CommandInfo { name: "HMSET", arity: -4i64, flags: &["write", "denyoom", "fast"], first_key: 1, last_key: 1, step: 1 },
        CommandInfo { name: "HDEL", arity: -3i64, flags: &["write", "fast"], first_key: 1, last_key: 1, step: 1 },
        CommandInfo { name: "HEXISTS", arity: 3, flags: &["readonly", "fast"], first_key: 1, last_key: 1, step: 1 },
        CommandInfo { name: "HLEN", arity: 2, flags: &["readonly", "fast"], first_key: 1, last_key: 1, step: 1 },
        CommandInfo { name: "HKEYS", arity: 2, flags: &["readonly"], first_key: 1, last_key: 1, step: 1 },
        CommandInfo { name: "HVALS", arity: 2, flags: &["readonly"], first_key: 1, last_key: 1, step: 1 },
        CommandInfo { name: "HGETALL", arity: 2, flags: &["readonly"], first_key: 1, last_key: 1, step: 1 },
        CommandInfo { name: "HINCRBY", arity: 4, flags: &["write", "denyoom", "fast"], first_key: 1, last_key: 1, step: 1 },
        CommandInfo { name: "HINCRBYFLOAT", arity: 4, flags: &["write", "denyoom", "fast"], first_key: 1, last_key: 1, step: 1 },
        CommandInfo { name: "HSCAN", arity: -3i64, flags: &["readonly"], first_key: 1, last_key: 1, step: 1 },
        // Set commands
        CommandInfo { name: "SADD", arity: -3i64, flags: &["write", "denyoom", "fast"], first_key: 1, last_key: 1, step: 1 },
        CommandInfo { name: "SREM", arity: -3i64, flags: &["write", "fast"], first_key: 1, last_key: 1, step: 1 },
        CommandInfo { name: "SISMEMBER", arity: 3, flags: &["readonly", "fast"], first_key: 1, last_key: 1, step: 1 },
        CommandInfo { name: "SMEMBERS", arity: 2, flags: &["readonly"], first_key: 1, last_key: 1, step: 1 },
        CommandInfo { name: "SCARD", arity: 2, flags: &["readonly", "fast"], first_key: 1, last_key: 1, step: 1 },
        CommandInfo { name: "SPOP", arity: -2i64, flags: &["write", "fast"], first_key: 1, last_key: 1, step: 1 },
        CommandInfo { name: "SRANDMEMBER", arity: -2i64, flags: &["readonly"], first_key: 1, last_key: 1, step: 1 },
        CommandInfo { name: "SUNION", arity: -2i64, flags: &["readonly"], first_key: 1, last_key: -1i64, step: 1 },
        CommandInfo { name: "SINTER", arity: -2i64, flags: &["readonly"], first_key: 1, last_key: -1i64, step: 1 },
        CommandInfo { name: "SDIFF", arity: -2i64, flags: &["readonly"], first_key: 1, last_key: -1i64, step: 1 },
        CommandInfo { name: "SUNIONSTORE", arity: -3i64, flags: &["write", "denyoom"], first_key: 1, last_key: -1i64, step: 1 },
        CommandInfo { name: "SINTERSTORE", arity: -3i64, flags: &["write", "denyoom"], first_key: 1, last_key: -1i64, step: 1 },
        CommandInfo { name: "SDIFFSTORE", arity: -3i64, flags: &["write", "denyoom"], first_key: 1, last_key: -1i64, step: 1 },
        // Sorted Set commands
        CommandInfo { name: "ZADD", arity: -4i64, flags: &["write", "denyoom", "fast"], first_key: 1, last_key: 1, step: 1 },
        CommandInfo { name: "ZREM", arity: -3i64, flags: &["write", "fast"], first_key: 1, last_key: 1, step: 1 },
        CommandInfo { name: "ZSCORE", arity: 3, flags: &["readonly", "fast"], first_key: 1, last_key: 1, step: 1 },
        CommandInfo { name: "ZRANK", arity: 3, flags: &["readonly", "fast"], first_key: 1, last_key: 1, step: 1 },
        CommandInfo { name: "ZREVRANK", arity: 3, flags: &["readonly", "fast"], first_key: 1, last_key: 1, step: 1 },
        CommandInfo { name: "ZRANGE", arity: -4i64, flags: &["readonly"], first_key: 1, last_key: 1, step: 1 },
        CommandInfo { name: "ZREVRANGE", arity: -4i64, flags: &["readonly"], first_key: 1, last_key: 1, step: 1 },
        CommandInfo { name: "ZRANGEBYSCORE", arity: -4i64, flags: &["readonly"], first_key: 1, last_key: 1, step: 1 },
        CommandInfo { name: "ZREVRANGEBYSCORE", arity: -4i64, flags: &["readonly"], first_key: 1, last_key: 1, step: 1 },
        CommandInfo { name: "ZCARD", arity: 2, flags: &["readonly", "fast"], first_key: 1, last_key: 1, step: 1 },
        CommandInfo { name: "ZCOUNT", arity: 4, flags: &["readonly", "fast"], first_key: 1, last_key: 1, step: 1 },
        CommandInfo { name: "ZINCRBY", arity: 4, flags: &["write", "denyoom", "fast"], first_key: 1, last_key: 1, step: 1 },
        // Database commands
        CommandInfo { name: "SELECT", arity: 2, flags: &["fast"], first_key: 0, last_key: 0, step: 0 },
        CommandInfo { name: "DBSIZE", arity: 1, flags: &["readonly", "fast"], first_key: 0, last_key: 0, step: 0 },
        CommandInfo { name: "FLUSHDB", arity: -1i64, flags: &["write"], first_key: 0, last_key: 0, step: 0 },
        CommandInfo { name: "FLUSHALL", arity: -1i64, flags: &["write"], first_key: 0, last_key: 0, step: 0 },
        CommandInfo { name: "SWAPDB", arity: 3, flags: &["write", "fast"], first_key: 0, last_key: 0, step: 0 },
        CommandInfo { name: "MOVE", arity: 3, flags: &["write", "fast"], first_key: 1, last_key: 1, step: 1 },
        // Key commands
        CommandInfo { name: "KEYS", arity: 2, flags: &["readonly"], first_key: 0, last_key: 0, step: 0 },
        CommandInfo { name: "SCAN", arity: -2i64, flags: &["readonly"], first_key: 0, last_key: 0, step: 0 },
        CommandInfo { name: "RANDOMKEY", arity: 1, flags: &["readonly"], first_key: 0, last_key: 0, step: 0 },
        CommandInfo { name: "RENAME", arity: 3, flags: &["write"], first_key: 1, last_key: 2, step: 1 },
        CommandInfo { name: "RENAMENX", arity: 3, flags: &["write", "fast"], first_key: 1, last_key: 2, step: 1 },
        CommandInfo { name: "TYPE", arity: 2, flags: &["readonly", "fast"], first_key: 1, last_key: 1, step: 1 },
        CommandInfo { name: "COPY", arity: -3i64, flags: &["write", "denyoom"], first_key: 1, last_key: 2, step: 1 },
        CommandInfo { name: "DUMP", arity: 2, flags: &["readonly"], first_key: 1, last_key: 1, step: 1 },
        CommandInfo { name: "RESTORE", arity: -4i64, flags: &["write", "denyoom"], first_key: 1, last_key: 1, step: 1 },
        CommandInfo { name: "MIGRATE", arity: -6i64, flags: &["write"], first_key: 3, last_key: 3, step: 1 },
        CommandInfo { name: "EXPIRE", arity: -3i64, flags: &["write", "fast"], first_key: 1, last_key: 1, step: 1 },
        CommandInfo { name: "EXPIREAT", arity: -3i64, flags: &["write", "fast"], first_key: 1, last_key: 1, step: 1 },
        CommandInfo { name: "PEXPIRE", arity: -3i64, flags: &["write", "fast"], first_key: 1, last_key: 1, step: 1 },
        CommandInfo { name: "PEXPIREAT", arity: -3i64, flags: &["write", "fast"], first_key: 1, last_key: 1, step: 1 },
        CommandInfo { name: "TTL", arity: 2, flags: &["readonly", "fast"], first_key: 1, last_key: 1, step: 1 },
        CommandInfo { name: "PTTL", arity: 2, flags: &["readonly", "fast"], first_key: 1, last_key: 1, step: 1 },
        CommandInfo { name: "PERSIST", arity: 2, flags: &["write", "fast"], first_key: 1, last_key: 1, step: 1 },
        CommandInfo { name: "EXPIRETIME", arity: 2, flags: &["readonly", "fast"], first_key: 1, last_key: 1, step: 1 },
        CommandInfo { name: "PEXPIRETIME", arity: 2, flags: &["readonly", "fast"], first_key: 1, last_key: 1, step: 1 },
        // Server commands
        CommandInfo { name: "PING", arity: -1i64, flags: &["fast", "stale"], first_key: 0, last_key: 0, step: 0 },
        CommandInfo { name: "ECHO", arity: 2, flags: &["fast"], first_key: 0, last_key: 0, step: 0 },
        CommandInfo { name: "INFO", arity: -1i64, flags: &["stale", "fast"], first_key: 0, last_key: 0, step: 0 },
        CommandInfo { name: "CONFIG", arity: -2i64, flags: &["admin", "stale"], first_key: 0, last_key: 0, step: 0 },
        CommandInfo { name: "SLOWLOG", arity: -2i64, flags: &["admin", "stale"], first_key: 0, last_key: 0, step: 0 },
        CommandInfo { name: "TIME", arity: 1, flags: &["fast", "stale"], first_key: 0, last_key: 0, step: 0 },
        CommandInfo { name: "CLIENT", arity: -2i64, flags: &["admin", "stale"], first_key: 0, last_key: 0, step: 0 },
        CommandInfo { name: "COMMAND", arity: -1i64, flags: &["stale"], first_key: 0, last_key: 0, step: 0 },
        CommandInfo { name: "SAVE", arity: 1, flags: &["admin"], first_key: 0, last_key: 0, step: 0 },
        CommandInfo { name: "BGSAVE", arity: -1i64, flags: &["admin"], first_key: 0, last_key: 0, step: 0 },
        CommandInfo { name: "LASTSAVE", arity: 1, flags: &["fast", "stale"], first_key: 0, last_key: 0, step: 0 },
        CommandInfo { name: "SHUTDOWN", arity: -1i64, flags: &["admin"], first_key: 0, last_key: 0, step: 0 },
        CommandInfo { name: "MONITOR", arity: 1, flags: &["admin"], first_key: 0, last_key: 0, step: 0 },
        // Script commands
        CommandInfo { name: "EVAL", arity: -3i64, flags: &["write", "denyoom"], first_key: 0, last_key: 0, step: 0 },
        CommandInfo { name: "EVALSHA", arity: -3i64, flags: &["write", "denyoom"], first_key: 0, last_key: 0, step: 0 },
        CommandInfo { name: "SCRIPT", arity: -2i64, flags: &["admin"], first_key: 0, last_key: 0, step: 0 },
        // Connection commands
        CommandInfo { name: "HELLO", arity: -1i64, flags: &["fast", "stale"], first_key: 0, last_key: 0, step: 0 },
    ]
}

/// All supported commands with their metadata.
fn get_command_table() -> (r: Vec<CommandInfo>)
    ensures
        r@ == command_table(),
{
    let r = vec![
        // String commands
        CommandInfo { name: "GET", arity: 2, flags: &["readonly", "fast"], first_key: 1, last_key: 1, step: 1 },
        CommandInfo { name: "SET", arity: -3, flags: &["write", "denyoom"], first_key: 1, last_key: 1, step: 1 },
        CommandInfo { name: "DEL", arity: -2, flags: &["write"], first_key: 1, last_key: -1, step: 1 },
        CommandInfo { name: "EXISTS", arity: -2, flags: &["readonly", "fast"], first_key: 1, last_key: -1, step: 1 },
        CommandInfo { name: "MGET", arity: -2, flags: &["readonly", "fast"], first_key: 1, last_key: -1, step: 1 },
        CommandInfo { name: "MSET", arity: -3, flags: &["write", "denyoom"], first_key: 1, last_key: -1, step: 2 },
        CommandInfo { name: "STRLEN", arity: 2, flags: &["readonly", "fast"], first_key: 1, last_key: 1, step: 1 },
        CommandInfo { name: "APPEND", arity: 3, flags: &["write", "denyoom", "fast"], first_key: 1, last_key: 1, step: 1 },
        // JSON commands
        CommandInfo { name: "JSON.GET", arity: -2, flags: &["readonly"], first_key: 1, last_key: 1, step: 1 },
        CommandInfo { name: "JSON.SET", arity: -4, flags: &["write", "denyoom"], first_key: 1, last_key: 1, step: 1 },
        CommandInfo { name: "JSON.DEL", arity: -2, flags: &["write"], first_key: 1, last_key: 1, step: 1 },
        CommandInfo { name: "JSON.TYPE", arity: -2, flags: &["readonly"], first_key: 1, last_key: 1, step: 1 },
        CommandInfo { name: "JSON.STRLEN", arity: -2, flags: &["readonly"], first_key: 1, last_key: 1, step: 1 },
        CommandInfo { name: "JSON.ARRLEN", arity: -2, flags: &["readonly"], first_key: 1, last_key: 1, step: 1 },
        CommandInfo { name: "JSON.OBJLEN", arity: -2, flags: &["readonly"], first_key: 1, last_key: 1, step: 1 },
        // List commands
        CommandInfo { name: "LPUSH", arity: -3, flags: &["write", "denyoom", "fast"], first_key: 1, last_key: 1, step: 1 },
        CommandInfo { name: "RPUSH", arity: -3, flags: &["write", "denyoom", "fast"], first_key: 1, last_key: 1, step: 1 },
        CommandInfo { name: "LPOP", arity: -2, flags: &["write", "fast"], first_key: 1, last_key: 1, step: 1 },
        CommandInfo { name: "RPOP", arity: -2, flags: &["write", "fast"], first_key: 1, last_key: 1, step: 1 },
        CommandInfo { name: "LLEN", arity: 2, flags: &["readonly", "fast"], first_key: 1, last_key: 1, step: 1 },
        CommandInfo { name: "LRANGE", arity: 4, flags: &["readonly"], first_key: 1, last_key: 1, step: 1 },
        CommandInfo { name: "LINDEX", arity: 3, flags: &["readonly"], first_key: 1, last_key: 1, step: 1 },
        CommandInfo { name: "LSET", arity: 4, flags: &["write", "denyoom"], first_key: 1, last_key: 1, step: 1 },
        CommandInfo { name: "LREM", arity: 4, flags: &["write"], first_key: 1, last_key: 1, step: 1 },
        CommandInfo { name: "LTRIM", arity: 4, flags: &["write"], first_key: 1, last_key: 1, step: 1 },
        CommandInfo { name: "LINSERT", arity: 5, flags: &["write", "denyoom"], first_key: 1, last_key: 1, step: 1 },
        CommandInfo { name: "LMOVE", arity: 5, flags: &["write", "denyoom"], first_key: 1, last_key: 2, step: 1 },
        // Hash commands
        CommandInfo { name: "HSET", arity: -4, flags: &["write", "denyoom", "fast"], first_key: 1, last_key: 1, step: 1 },
        CommandInfo { name: "HSETNX", arity: 4, flags: &["write", "denyoom", "fast"], first_key: 1, last_key: 1, step: 1 },
        CommandInfo { name: "HGET", arity: 3, flags: &["readonly", "fast"], first_key: 1, last_key: 1, step: 1 },
        CommandInfo { name: "HMGET", arity: -3, flags: &["readonly", "fast"], first_key: 1, last_key: 1, step: 1 },
        CommandInfo { name: "HMSET", arity: -4, flags: &["write", "denyoom", "fast"], first_key: 1, last_key: 1, step: 1 },
        CommandInfo { name: "HDEL", arity: -3, flags: &["write", "fast"], first_key: 1, last_key: 1, step: 1 },
        CommandInfo { name: "HEXISTS", arity: 3, flags: &["readonly", "fast"], first_key: 1, last_key: 1, step: 1 },
        CommandInfo { name: "HLEN", arity: 2, flags: &["readonly", "fast"], first_key: 1, last_key: 1, step: 1 },
        CommandInfo { name: "HKEYS", arity: 2, flags: &["readonly"], first_key: 1, last_key: 1, step: 1 },
        CommandInfo { name: "HVALS", arity: 2, flags: &["readonly"], first_key: 1, last_key: 1, step: 1 },
        CommandInfo { name: "HGETALL", arity: 2, flags: &["readonly"], first_key: 1, last_key: 1, step: 1 },
        CommandInfo { name: "HINCRBY", arity: 4, flags: &["write", "denyoom", "fast"], first_key: 1, last_key: 1, step: 1 },
        CommandInfo { name: "HINCRBYFLOAT", arity: 4, flags: &["write", "denyoom", "fast"], first_key: 1, last_key: 1, step: 1 },
        CommandInfo { name: "HSCAN", arity: -3, flags: &["readonly"], first_key: 1, last_key: 1, step: 1 },
        // Set commands
        CommandInfo { name: "SADD", arity: -3, flags: &["write", "denyoom", "fast"], first_key: 1, last_key: 1, step: 1 },
        CommandInfo { name: "SREM", arity: -3, flags: &["write", "fast"], first_key: 1, last_key: 1, step: 1 },
        CommandInfo { name: "SISMEMBER", arity: 3, flags: &["readonly", "fast"], first_key: 1, last_key: 1, step: 1 },
        CommandInfo { name: "SMEMBERS", arity: 2, flags: &["readonly"], first_key: 1, last_key: 1, step: 1 },
        CommandInfo { name: "SCARD", arity: 2, flags: &["readonly", "fast"], first_key: 1, last_key: 1, step: 1 },
        CommandInfo { name: "SPOP", arity: -2, flags: &["write", "fast"], first_key: 1, last_key: 1, step: 1 },
        CommandInfo { name: "SRANDMEMBER", arity: -2, flags: &["readonly"], first_key: 1, last_key: 1, step: 1 },
        CommandInfo { name: "SUNION", arity: -2, flags: &["readonly"], first_key: 1, last_key: -1, step: 1 },
        CommandInfo { name: "SINTER", arity: -2, flags: &["readonly"], first_key: 1, last_key: -1, step: 1 },
        CommandInfo { name: "SDIFF", arity: -2, flags: &["readonly"], first_key: 1, last_key: -1, step: 1 },
        CommandInfo { name: "SUNIONSTORE", arity: -3, flags: &["write", "denyoom"], first_key: 1, last_key: -1, step: 1 },
        CommandInfo { name: "SINTERSTORE", arity: -3, flags: &["write", "denyoom"], first_key: 1, last_key: -1, step: 1 },
        CommandInfo { name: "SDIFFSTORE", arity: -3, flags: &["write", "denyoom"], first_key: 1, last_key: -1, step: 1 },
        // Sorted Set commands
        CommandInfo { name: "ZADD", arity: -4, flags: &["write", "denyoom", "fast"], first_key: 1, last_key: 1, step: 1 },
        CommandInfo { name: "ZREM", arity: -3, flags: &["write", "fast"], first_key: 1, last_key: 1, step: 1 },
        CommandInfo { name: "ZSCORE", arity: 3, flags: &["readonly", "fast"], first_key: 1, last_key: 1, step: 1 },
        CommandInfo { name: "ZRANK", arity: 3, flags: &["readonly", "fast"], first_key: 1, last_key: 1, step: 1 },
        CommandInfo { name: "ZREVRANK", arity: 3, flags: &["readonly", "fast"], first_key: 1, last_key: 1, step: 1 },
        CommandInfo { name: "ZRANGE", arity: -4, flags: &["readonly"], first_key: 1, last_key: 1, step: 1 },
        CommandInfo { name: "ZREVRANGE", arity: -4, flags: &["readonly"], first_key: 1, last_key: 1, step: 1 },
        CommandInfo { name: "ZRANGEBYSCORE", arity: -4, flags: &["readonly"], first_key: 1, last_key: 1, step: 1 },
        CommandInfo { name: "ZREVRANGEBYSCORE", arity: -4, flags: &["readonly"], first_key: 1, last_key: 1, step: 1 },
        CommandInfo { name: "ZCARD", arity: 2, flags: &["readonly", "fast"], first_key: 1, last_key: 1, step: 1 },
        CommandInfo { name: "ZCOUNT", arity: 4, flags: &["readonly", "fast"], first_key: 1, last_key: 1, step: 1 },
        CommandInfo { name: "ZINCRBY", arity: 4, flags: &["write", "denyoom", "fast"], first_key: 1, last_key: 1, step: 1 },
        // Database commands
        CommandInfo { name: "SELECT", arity: 2, flags: &["fast"], first_key: 0, last_key: 0, step: 0 },
        CommandInfo { name: "DBSIZE", arity: 1, flags: &["readonly", "fast"], first_key: 0, last_key: 0, step: 0 },
        CommandInfo { name: "FLUSHDB", arity: -1, flags: &["write"], first_key: 0, last_key: 0, step: 0 },
        CommandInfo { name: "FLUSHALL", arity: -1, flags: &["write"], first_key: 0, last_key: 0, step: 0 },
        CommandInfo { name: "SWAPDB", arity: 3, flags: &["write", "fast"], first_key: 0, last_key: 0, step: 0 },
        CommandInfo { name: "MOVE", arity: 3, flags: &["write", "fast"], first_key: 1, last_key: 1, step: 1 },
        // Key commands
        CommandInfo { name: "KEYS", arity: 2, flags: &["readonly"], first_key: 0, last_key: 0, step: 0 },
        CommandInfo { name: "SCAN", arity: -2, flags: &["readonly"], first_key: 0, last_key: 0, step: 0 },
        CommandInfo { name: "RANDOMKEY", arity: 1, flags: &["readonly"], first_key: 0, last_key: 0, step: 0 },
        CommandInfo { name: "RENAME", arity: 3, flags: &["write"], first_key: 1, last_key: 2, step: 1 },
        CommandInfo { name: "RENAMENX", arity: 3, flags: &["write", "fast"], first_key: 1, last_key: 2, step: 1 },
        CommandInfo { name: "TYPE", arity: 2, flags: &["readonly", "fast"], first_key: 1, last_key: 1, step: 1 },
        CommandInfo { name: "COPY", arity: -3, flags: &["write", "denyoom"], first_key: 1, last_key: 2, step: 1 },
        CommandInfo { name: "DUMP", arity: 2, flags: &["readonly"], first_key: 1, last_key: 1, step: 1 },
        CommandInfo { name: "RESTORE", arity: -4, flags: &["write", "denyoom"], first_key: 1, last_key: 1, step: 1 },
        CommandInfo { name: "MIGRATE", arity: -6, flags: &["write"], first_key: 3, last_key: 3, step: 1 },
        CommandInfo { name: "EXPIRE", arity: -3, flags: &["write", "fast"], first_key: 1, last_key: 1, step: 1 },
        CommandInfo { name: "EXPIREAT", arity: -3, flags: &["write", "fast"], first_key: 1, last_key: 1, step: 1 },
        CommandInfo { name: "PEXPIRE", arity: -3, flags: &["write", "fast"], first_key: 1, last_key: 1, step: 1 },
        CommandInfo { name: "PEXPIREAT", arity: -3, flags: &["write", "fast"], first_key: 1, last_key: 1, step: 1 },
        CommandInfo { name: "TTL", arity: 2, flags: &["readonly", "fast"], first_key: 1, last_key: 1, step: 1 },
        CommandInfo { name: "PTTL", arity: 2, flags: &["readonly", "fast"], first_key: 1, last_key: 1, step: 1 },
        CommandInfo { name: "PERSIST", arity: 2, flags: &["write", "fast"], first_key: 1, last_key: 1, step: 1 },
        CommandInfo { name: "EXPIRETIME", arity: 2, flags: &["readonly", "fast"], first_key: 1, last_key: 1, step: 1 },
        CommandInfo { name: "PEXPIRETIME", arity: 2, flags: &["readonly", "fast"], first_key: 1, last_key: 1, step: 1 },
        // Server commands
        CommandInfo { name: "PING", arity: -1, flags: &["fast", "stale"], first_key: 0, last_key: 0, step: 0 },
        CommandInfo { name: "ECHO", arity: 2, flags: &["fast"], first_key: 0, last_key: 0, step: 0 },
        CommandInfo { name: "INFO", arity: -1, flags: &["stale", "fast"], first_key: 0, last_key: 0, step: 0 },
        CommandInfo { name: "CONFIG", arity: -2, flags: &["admin", "stale"], first_key: 0, last_key: 0, step: 0 },
        CommandInfo { name: "SLOWLOG", arity: -2, flags: &["admin", "stale"], first_key: 0, last_key: 0, step: 0 },
        CommandInfo { name: "TIME", arity: 1, flags: &["fast", "stale"], first_key: 0, last_key: 0, step: 0 },
        CommandInfo { name: "CLIENT", arity: -2, flags: &["admin", "stale"], first_key: 0, last_key: 0, step: 0 },
        CommandInfo { name: "COMMAND", arity: -1, flags: &["stale"], first_key: 0, last_key: 0, step: 0 },
        CommandInfo { name: "SAVE", arity: 1, flags: &["admin"], first_key: 0, last_key: 0, step: 0 },
        CommandInfo { name: "BGSAVE", arity: -1, flags: &["admin"], first_key: 0, last_key: 0, step: 0 },
        CommandInfo { name: "LASTSAVE", arity: 1, flags: &["fast", "stale"], first_key: 0, last_key: 0, step: 0 },
        CommandInfo { name: "SHUTDOWN", arity: -1, flags: &["admin"], first_key: 0, last_key: 0, step: 0 },
        CommandInfo { name: "MONITOR", arity: 1, flags: &["admin"], first_key: 0, last_key: 0, step: 0 },
        // Script commands
        CommandInfo { name: "EVAL", arity: -3, flags: &["write", "denyoom"], first_key: 0, last_key: 0, step: 0 },
        CommandInfo { name: "EVALSHA", arity: -3, flags: &["write", "denyoom"], first_key: 0, last_key: 0, step: 0 },
        CommandInfo { name: "SCRIPT", arity: -2, flags: &["admin"], first_key: 0, last_key: 0, step: 0 },
        // Connection commands
        CommandInfo { name: "HELLO", arity: -1, flags: &["fast", "stale"], first_key: 0, last_key: 0, step: 0 },
    ];
    proof {
        assert(r@ =~= command_table());
    }
    r
}

} // verus!

verus! {

/// The index of the first command named `name`, if any.
pub open spec fn find_command(t: Seq<CommandInfo>, name: Seq<char>) -> Option<int>
    decreases t.len(),
{
    if t.len() == 0 {
        None
    } else {
        match find_command(t.drop_last(), name) {
            Some(i) => Some(i),
            None => if t.last().name@ == name {
                Some(t.len() - 1)
            } else {
                None
            },
        }
    }
}

/// A bulk string of the UTF-8 bytes of a text.
pub open spec fn bulk_text(s: Seq<char>) -> Reply {
    Reply::Bulk(encode_utf8(s))
}

/// What COMMAND answers for one command: name (lower case), arity, flags,
/// first key, last key, step.
pub open spec fn info_reply(c: CommandInfo) -> Reply {
    Reply::Array(
        seq![
            bulk_text(spec_to_lowercase(c.name@)),
            Reply::Int(c.arity as int),
            Reply::Array(c.flags@.map_values(|f: &str| Reply::Simple(f@))),
            Reply::Int(c.first_key as int),
            Reply::Int(c.last_key as int),
            Reply::Int(c.step as int),
        ],
    )
}

/// What COMMAND DOCS answers for one command.
pub open spec fn doc_pair(c: CommandInfo) -> (Reply, Reply) {
    (
        bulk_text(spec_to_lowercase(c.name@)),
        Reply::Dict(
            seq![
                (bulk_text("summary"@), bulk_text(c.name@ + " command"@)),
                (bulk_text("since"@), bulk_text("1.0.0"@)),
                (bulk_text("group"@), bulk_text("generic"@)),
            ],
        ),
    )
}

/// COMMAND INFO's answer for each name.
pub open spec fn info_items(names: Seq<Seq<u8>>) -> Seq<Reply> {
    names.map_values(
        |a: Seq<u8>|
            match find_command(command_table(), option_of(a)) {
                Some(i) => info_reply(command_table()[i]),
                None => Reply::NullBulk,
            },
    )
}

/// COMMAND DOCS's pairs for the names that name a command, in order.
pub open spec fn doc_items(names: Seq<Seq<u8>>) -> Seq<(Reply, Reply)>
    decreases names.len(),
{
    if names.len() == 0 {
        Seq::empty()
    } else {
        let p = doc_items(names.drop_last());
        match find_command(command_table(), option_of(names.last())) {
            Some(i) => p.push(doc_pair(command_table()[i])),
            None => p,
        }
    }
}

/// Whether COMMAND GETKEYS takes position `i` (among `n` arguments after
/// the command name) as a key of a command with the given key positions.
pub open spec fn key_position(first: int, last: int, step: int, n: int, i: int) -> bool {
    let start = first - 1;
    if first == 0 {
        false
    } else if last == -1 {
        start <= i < n && (step == 1 || (step != 0 && (i - start) % step == 0))
    } else if last >= first {
        let end = last - 1;
        let hi = if end < n - 1 {
            end
        } else if n >= 1 {
            n - 1
        } else {
            0
        };
        let s = if step >= 1 {
            step
        } else {
            1
        };
        start <= i <= hi && i < n && (i - start) % s == 0
    } else {
        false
    }
}

/// The arguments at key positions, in order, among the first `k`.
pub open spec fn picked_keys(args: Seq<Seq<u8>>, c: CommandInfo, k: int) -> Seq<Seq<u8>>
    decreases k,
{
    if k <= 0 {
        Seq::empty()
    } else {
        let p = picked_keys(args, c, k - 1);
        if key_position(c.first_key as int, c.last_key as int, c.step as int, args.len() as int, k - 1) {
            p.push(args[k - 1])
        } else {
            p
        }
    }
}

/// The lines of COMMAND HELP.
pub open spec fn command_help_lines() -> Seq<Seq<char>> {
    seq![
        "COMMAND - Return information about all commands"@,
        "COMMAND COUNT - Return the total number of commands"@,
        "COMMAND INFO <command-name> [<command-name> ...] - Return details about command(s)"@,
        "COMMAND DOCS [<command-name> ...] - Return documentation for command(s)"@,
        "COMMAND GETKEYS <command> [<arg> ...] - Extract keys from a full command"@,
        "COMMAND HELP - Show this help"@,
    ]
}

/// COMMAND [COUNT | INFO name ... | DOCS [name ...] | GETKEYS command arg ...
/// | HELP]
pub open spec fn command_spec(args: Seq<Seq<u8>>) -> Reply {
    let t = command_table();
    if args.len() == 0 {
        Reply::Array(t.map_values(|c: CommandInfo| info_reply(c)))
    } else {
        let sub = option_of(args[0]);
        let rest = args.drop_first();
        if sub == "COUNT"@ {
            Reply::Int(t.len() as int)
        } else if sub == "INFO"@ {
            if rest.len() == 0 {
                Reply::Fail(Failure::Arity("COMMAND INFO"@))
            } else {
                Reply::Array(info_items(rest))
            }
        } else if sub == "DOCS"@ {
            if rest.len() == 0 {
                Reply::Dict(t.map_values(|c: CommandInfo| doc_pair(c)))
            } else {
                Reply::Dict(doc_items(rest))
            }
        } else if sub == "GETKEYS"@ {
            if rest.len() == 0 {
                Reply::Fail(Failure::Arity("COMMAND GETKEYS"@))
            } else {
                let name = option_of(rest[0]);
                match find_command(t, name) {
                    None => Reply::Fail(Failure::Command("Invalid command specified: "@ + name)),
                    Some(i) => {
                        let cargs = rest.drop_first();
                        Reply::Array(
                            picked_keys(cargs, t[i], cargs.len() as int).map_values(|a: Seq<u8>| Reply::Bulk(a)),
                        )
                    },
                }
            }
        } else if sub == "HELP"@ {
            Reply::Array(command_help_lines().map_values(|l: Seq<char>| bulk_text(l)))
        } else {
            Reply::Fail(Failure::Command("Unknown COMMAND subcommand: "@ + sub))
        }
    }
}

/// The index of the first command of `t` named `name`.
fn find_command_index(t: &Vec<CommandInfo>, name: &str) -> (r: Option<usize>)
    ensures
        match r {
            Some(i) => find_command(t@, name@) == Some(i as int) && i < t@.len() && t@[i as int].name@ == name@,
            None => find_command(t@, name@) is None,
        },
{
    proof {
        lemma_find_command_range(t@, name@);
    }
    let mut i: usize = 0;
    while i < t.len()
        invariant
            i <= t.len(),
            find_command(t@.take(i as int), name@) is None,
        decreases t.len() - i,
    {
        proof {
            assert(t@.take(i + 1).drop_last() =~= t@.take(i as int));
        }
        if str_eq(t[i].name, name) {
            proof {
                lemma_find_command_prefix(t@, name@, i as int);
            }
            return Some(i);
        }
        i = i + 1;
    }
    proof {
        assert(t@.take(t.len() as int) =~= t@);
    }
    None
}

proof fn lemma_find_command_range(t: Seq<CommandInfo>, name: Seq<char>)
    ensures
        find_command(t, name) matches Some(i) ==> 0 <= i < t.len() && t[i].name@ == name,
    decreases t.len(),
{
    if t.len() > 0 {
        lemma_find_command_range(t.drop_last(), name);
    }
}

proof fn lemma_find_command_prefix(t: Seq<CommandInfo>, name: Seq<char>, i: int)
    requires
        0 <= i < t.len(),
        find_command(t.take(i), name) is None,
        t[i].name@ == name,
    ensures
        find_command(t, name) == Some(i),
    decreases t.len() - i,
{
    assert(t.take(i + 1).drop_last() =~= t.take(i));
    if i + 1 < t.len() {
        lemma_find_command_extends(t, name, i + 1);
    } else {
        assert(t.take(i + 1) =~= t);
    }
}

proof fn lemma_find_command_extends(t: Seq<CommandInfo>, name: Seq<char>, j: int)
    requires
        0 < j <= t.len(),
        find_command(t.take(j), name) is Some,
    ensures
        find_command(t, name) == find_command(t.take(j), name),
    decreases t.len() - j,
{
    if j < t.len() {
        assert(t.take(j + 1).drop_last() =~= t.take(j));
        lemma_find_command_extends(t, name, j + 1);
    } else {
        assert(t.take(j) =~= t);
    }
}

/// The bulk string of a text.
fn bulk_of(s: &str) -> (r: RespValue)
    ensures
        crate::command::reply::value_models(r, bulk_text(s@)),
{
    RespValue::bulk_string(text_bytes(s))
}

/// What COMMAND answers for one command.
fn format_command_info(cmd: &CommandInfo) -> (r: RespValue)
    ensures
        crate::command::reply::value_models(r, info_reply(*cmd)),
{
    let mut flags: Vec<RespValue> = Vec::new();
    let mut i: usize = 0;
    while i < cmd.flags.len()
        invariant
            i <= cmd.flags@.len(),
            flags@.len() == i,
            forall|j: int| 0 <= j < i ==> crate::command::reply::value_models(#[trigger] flags@[j], Reply::Simple(cmd.flags@[j]@)),
        decreases cmd.flags@.len() - i,
    {
        flags.push(RespValue::simple_string(cmd.flags[i]));
        i = i + 1;
    }
    let lower = to_lowercase(cmd.name);
    let flag_array = RespValue::array(flags);
    proof {
        let fl = cmd.flags@.map_values(|f: &str| Reply::Simple(f@));
        assert(crate::command::reply::value_models(flag_array, Reply::Array(fl)));
    }
    let name_item = bulk_of(lower.as_str());
    let ghost want = info_reply(*cmd)->Array_0;
    proof {
        assert(crate::command::reply::value_models(name_item, want[0]));
        assert(crate::command::reply::value_models(flag_array, want[2]));
    }
    let items = vec![
        name_item,
        RespValue::integer(cmd.arity),
        flag_array,
        RespValue::integer(cmd.first_key),
        RespValue::integer(cmd.last_key),
        RespValue::integer(cmd.step),
    ];
    proof {
        assert forall|k: int| 0 <= k < 6 implies crate::command::reply::value_models(#[trigger] items@[k], want[k]) by {
            if k == 1 || k == 3 || k == 4 || k == 5 {
                assert(items@[k] is Integer);
            }
        }
    }
    let r = RespValue::array(items);
    proof {
        assert(crate::command::reply::value_models(r, info_reply(*cmd)));
    }
    r
}

} // verus!

verus! {

/// The characters `s[..n]` read as a number in base 128.
spec fn text_code(s: Seq<char>, n: nat) -> int
    decreases n,
{
    if n == 0 {
        0
    } else {
        text_code(s, (n - 1) as nat) * 128 + (s[n - 1] as int)
    }
}

/// The code of a command name: its characters read in base 128.
spec fn name_code(s: Seq<char>) -> int {
    text_code(s, s.len())
}

/// The position in the command table of the name whose code is `c` (-1
/// for a code that names no entry).
spec fn code_position(c: int) -> int {
    if c == 1172180 {
        0
    } else if c == 1368788 {
        1
    } else if c == 1123020 {
        2
    } else if c == 2394598730323 {
        3
    } else if c == 162652884 {
        4
    } else if c == 162849492 {
        5
    } else if c == 2874580083406 {
        6
    } else if c == 2255026743108 {
        7
    } else if c == 42026069868536532 {
        8
    } else if c == 42026069868733140 {
        9
    } else if c == 42026069868487372 {
        10
    } else if c == 5379336943200266309 {
        11
    } else if c == 88135056477357465608910 {
        12
    } else if c == 88135056476738453447374 {
        13
    } else if c == 88135056477215178040014 {
        14
    } else if c == 20570270152 {
        15
    } else if c == 22180882888 {
        16
    } else if c == 160704464 {
        17
    } else if c == 173287376 {
        18
    } else if c == 160637646 {
        19
    } else if c == 2633489425349 {
        20
    } else if c == 2631100605144 {
        21
    } else if c == 160752340 {
        22
    } else if c == 160735949 {
        23
    } else if c == 20578608333 {
        24
    } else if c == 336780908915028 {
        25
    } else if c == 20563880773 {
        26
    } else if c == 152363732 {
        27
    } else if c == 2496327395160 {
        28
    } else if c == 152167124 {
        29
    } else if c == 19490005716 {
        30
    } else if c == 19490202324 {
        31
    } else if c == 152117964 {
        32
    } else if c == 319053947529811 {
        33
    } else if c == 152249038 {
        34
    } else if c == 19485781203 {
        35
    } else if c == 19508782675 {
        36
    } else if c == 319117589505612 {
        37
    } else if c == 319188689527129 {
        38
    } else if c == 10967239862176953029353684 {
        39
    } else if c == 19502522574 {
        40
    } else if c == 175137348 {
        41
    } else if c == 175416013 {
        42
    } else if c == 6022243353992667858 {
        43
    } else if c == 47065887346354515 {
        44
    } else if c == 22421727556 {
        45
    } else if c == 175384528 {
        46
    } else if c == 98750148982007609205458 {
        47
    } else if c == 2874840082382 {
        48
    } else if c == 2871619035858 {
        49
    } else if c == 22423954246 {
        50
    } else if c == 98778753080507543841093 {
        51
    } else if c == 98668078764671748008261 {
        52
    } else if c == 770481201091020319045 {
        53
    } else if c == 189817412 {
        54
    } else if c == 190096077 {
        55
    } else if c == 3114798410053 {
        56
    } else if c == 24332232523 {
        57
    } else if c == 51028529702266699 {
        58
    } else if c == 3114525762501 {
        59
    } else if c == 6531651801890137029 {
        60
    } else if c == 1753322132929707542012225861 {
        61
    } else if c == 3676993077638281235890398557366597 {
        62
    } else if c == 24300775748 {
        63
    } else if c == 3110528706388 {
        64
    } else if c == 398353526727001 {
        65
    } else if c == 2870540853716 {
        66
    } else if c == 2354354220357 {
        67
    } else if c == 310497588159042 {
        68
    } else if c == 39743691284309580 {
        69
    } else if c == 2875349803586 {
        70
    } else if c == 162786117 {
        71
    } else if c == 158428371 {
        72
    } else if c == 175169742 {
        73
    } else if c == 5945659863541670617 {
        74
    } else if c == 2836185245381 {
        75
    } else if c == 46468059060332376 {
        76
    } else if c == 177629253 {
        77
    } else if c == 141813849 {
        78
    } else if c == 144008912 {
        79
    } else if c == 363033093466437 {
        80
    } else if c == 341177074215493 {
        81
    } else if c == 2394613246277 {
        82
    } else if c == 39233343427010772 {
        83
    } else if c == 354238334134597 {
        84
    } else if c == 5803840866461245652 {
        85
    } else if c == 1387084 {
        86
    } else if c == 169159244 {
        87
    } else if c == 354236729813460 {
        88
    } else if c == 642799098708184164037 {
        89
    } else if c == 95090128756101088437957 {
        90
    } else if c == 168978247 {
        91
    } else if c == 145810511 {
        92
    } else if c == 154379087 {
        93
    } else if c == 2323473605831 {
        94
    } else if c == 367670590646215 {
        95
    } else if c == 177366725 {
        96
    } else if c == 2322657797972 {
        97
    } else if c == 297404367660868 {
        98
    } else if c == 175139653 {
        99
    } else if c == 2286976789317 {
        100
    } else if c == 43072944065243973 {
        101
    } else if c == 47044448753019854 {
        102
    } else if c == 341385093130194 {
        103
    } else if c == 146120908 {
        104
    } else if c == 306437755823169 {
        105
    } else if c == 2870016632916 {
        106
    } else if c == 19473311311 {
        107
    } else {
        -1
    }
}

/// The entries at positions `lo` to `lo + n - 1` of the command table sit
/// at the positions their names' codes give.
spec fn coded_from(lo: int, n: nat) -> bool
    decreases n,
{
    n == 0 || (coded_from(lo, (n - 1) as nat) && code_position(name_code(command_table()[lo + n - 1].name@)) == lo
        + n - 1)
}

proof fn lemma_coded_from(lo: int, n: nat, i: int)
    requires
        coded_from(lo, n),
        lo <= i < lo + n,
    ensures
        code_position(name_code(command_table()[i].name@)) == i,
    decreases n,
{
    if i < lo + n - 1 {
        lemma_coded_from(lo, (n - 1) as nat, i);
    }
}

/// Entries 0 to 26 of the command table sit at the positions their names'
/// codes give.
#[verifier::rlimit(100)]
#[verifier::spinoff_prover]
proof fn lemma_names_coded_0()
    ensures
        coded_from(0, 27),
{
    reveal_strlit("GET");
    reveal_strlit("SET");
    reveal_strlit("DEL");
    reveal_strlit("EXISTS");
    reveal_strlit("MGET");
    reveal_strlit("MSET");
    reveal_strlit("STRLEN");
    reveal_strlit("APPEND");
    reveal_strlit("JSON.GET");
    reveal_strlit("JSON.SET");
    reveal_strlit("JSON.DEL");
    reveal_strlit("JSON.TYPE");
    reveal_strlit("JSON.STRLEN");
    reveal_strlit("JSON.ARRLEN");
    reveal_strlit("JSON.OBJLEN");
    reveal_strlit("LPUSH");
    reveal_strlit("RPUSH");
    reveal_strlit("LPOP");
    reveal_strlit("RPOP");
    reveal_strlit("LLEN");
    reveal_strlit("LRANGE");
    reveal_strlit("LINDEX");
    reveal_strlit("LSET");
    reveal_strlit("LREM");
    reveal_strlit("LTRIM");
    reveal_strlit("LINSERT");
    reveal_strlit("LMOVE");
    reveal_with_fuel(text_code, 17);
    reveal_with_fuel(coded_from, 28);
}

/// Entries 27 to 53 of the command table sit at the positions their names'
/// codes give.
#[verifier::rlimit(100)]
#[verifier::spinoff_prover]
proof fn lemma_names_coded_1()
    ensures
        coded_from(27, 27),
{
    reveal_strlit("HSET");
    reveal_strlit("HSETNX");
    reveal_strlit("HGET");
    reveal_strlit("HMGET");
    reveal_strlit("HMSET");
    reveal_strlit("HDEL");
    reveal_strlit("HEXISTS");
    reveal_strlit("HLEN");
    reveal_strlit("HKEYS");
    reveal_strlit("HVALS");
    reveal_strlit("HGETALL");
    reveal_strlit("HINCRBY");
    reveal_strlit("HINCRBYFLOAT");
    reveal_strlit("HSCAN");
    reveal_strlit("SADD");
    reveal_strlit("SREM");
    reveal_strlit("SISMEMBER");
    reveal_strlit("SMEMBERS");
    reveal_strlit("SCARD");
    reveal_strlit("SPOP");
    reveal_strlit("SRANDMEMBER");
    reveal_strlit("SUNION");
    reveal_strlit("SINTER");
    reveal_strlit("SDIFF");
    reveal_strlit("SUNIONSTORE");
    reveal_strlit("SINTERSTORE");
    reveal_strlit("SDIFFSTORE");
    reveal_with_fuel(text_code, 17);
    reveal_with_fuel(coded_from, 28);
}

/// Entries 54 to 80 of the command table sit at the positions their names'
/// codes give.
#[verifier::rlimit(100)]
#[verifier::spinoff_prover]
proof fn lemma_names_coded_2()
    ensures
        coded_from(54, 27),
{
    reveal_strlit("ZADD");
    reveal_strlit("ZREM");
    reveal_strlit("ZSCORE");
    reveal_strlit("ZRANK");
    reveal_strlit("ZREVRANK");
    reveal_strlit("ZRANGE");
    reveal_strlit("ZREVRANGE");
    reveal_strlit("ZRANGEBYSCORE");
    reveal_strlit("ZREVRANGEBYSCORE");
    reveal_strlit("ZCARD");
    reveal_strlit("ZCOUNT");
    reveal_strlit("ZINCRBY");
    reveal_strlit("SELECT");
    reveal_strlit("DBSIZE");
    reveal_strlit("FLUSHDB");
    reveal_strlit("FLUSHALL");
    reveal_strlit("SWAPDB");
    reveal_strlit("MOVE");
    reveal_strlit("KEYS");
    reveal_strlit("SCAN");
    reveal_strlit("RANDOMKEY");
    reveal_strlit("RENAME");
    reveal_strlit("RENAMENX");
    reveal_strlit("TYPE");
    reveal_strlit("COPY");
    reveal_strlit("DUMP");
    reveal_strlit("RESTORE");
    reveal_with_fuel(text_code, 17);
    reveal_with_fuel(coded_from, 28);
}

/// Entries 81 to 107 of the command table sit at the positions their names'
/// codes give.
#[verifier::rlimit(100)]
#[verifier::spinoff_prover]
proof fn lemma_names_coded_3()
    ensures
        coded_from(81, 27),
{
    reveal_strlit("MIGRATE");
    reveal_strlit("EXPIRE");
    reveal_strlit("EXPIREAT");
    reveal_strlit("PEXPIRE");
    reveal_strlit("PEXPIREAT");
    reveal_strlit("TTL");
    reveal_strlit("PTTL");
    reveal_strlit("PERSIST");
    reveal_strlit("EXPIRETIME");
    reveal_strlit("PEXPIRETIME");
    reveal_strlit("PING");
    reveal_strlit("ECHO");
    reveal_strlit("INFO");
    reveal_strlit("CONFIG");
    reveal_strlit("SLOWLOG");
    reveal_strlit("TIME");
    reveal_strlit("CLIENT");
    reveal_strlit("COMMAND");
    reveal_strlit("SAVE");
    reveal_strlit("BGSAVE");
    reveal_strlit("LASTSAVE");
    reveal_strlit("SHUTDOWN");
    reveal_strlit("MONITOR");
    reveal_strlit("EVAL");
    reveal_strlit("EVALSHA");
    reveal_strlit("SCRIPT");
    reveal_strlit("HELLO");
    reveal_with_fuel(text_code, 17);
    reveal_with_fuel(coded_from, 28);
}

/// No two entries of the command table share a name.
pub proof fn law_command_names_distinct()
    ensures
        forall|i: int, j: int|
            0 <= i < j < command_table().len() ==> #[trigger] command_table()[i].name@ != #[trigger] command_table()[j].name@,
{
    lemma_names_coded_0();
    lemma_names_coded_1();
    lemma_names_coded_2();
    lemma_names_coded_3();
    assert(command_table().len() == 108);
    assert forall|i: int, j: int| 0 <= i < j < command_table().len() implies #[trigger] command_table()[i].name@
        != #[trigger] command_table()[j].name@ by {
        if i < 27 {
            lemma_coded_from(0, 27, i);
        } else if i < 54 {
            lemma_coded_from(27, 27, i);
        } else if i < 81 {
            lemma_coded_from(54, 27, i);
        } else {
            lemma_coded_from(81, 27, i);
        }
        if j < 27 {
            lemma_coded_from(0, 27, j);
        } else if j < 54 {
            lemma_coded_from(27, 27, j);
        } else if j < 81 {
            lemma_coded_from(54, 27, j);
        } else {
            lemma_coded_from(81, 27, j);
        }
    }
}

/// Every entry of the command table is well formed: its name has no lower
/// case letter and belongs to no other entry; its arity is not zero and its first key lies within it; a
/// command without keys has no key positions, and one with keys steps
/// forward through them from its first key, up to its last key or to the
/// end.
#[verifier::rlimit(100)]
#[verifier::spinoff_prover]
pub proof fn law_command_table_well_formed()
    ensures
        forall|i: int, j: int|
            0 <= i < j < command_table().len() ==> #[trigger] command_table()[i].name@ != #[trigger] command_table()[j].name@,
        forall|i: int, k: int|
            0 <= i < command_table().len() && 0 <= k < command_table()[i].name@.len() ==> !(
            'a' <= #[trigger] command_table()[i].name@[k] <= 'z'),
        forall|i: int|
            0 <= i < command_table().len() ==> {
                let c = #[trigger] command_table()[i];
                &&& c.arity != 0
                &&& c.first_key < (if c.arity < 0 { -c.arity } else { c.arity as int })
                &&& c.first_key == 0 ==> c.last_key == 0 && c.step == 0
                &&& c.first_key >= 1 ==> c.step >= 1 && (c.last_key == -1 || c.last_key >= c.first_key)
            },
{
    law_command_names_distinct();
    reveal_strlit("GET");
    reveal_strlit("SET");
    reveal_strlit("DEL");
    reveal_strlit("EXISTS");
    reveal_strlit("MGET");
    reveal_strlit("MSET");
    reveal_strlit("STRLEN");
    reveal_strlit("APPEND");
    reveal_strlit("JSON.GET");
    reveal_strlit("JSON.SET");
    reveal_strlit("JSON.DEL");
    reveal_strlit("JSON.TYPE");
    reveal_strlit("JSON.STRLEN");
    reveal_strlit("JSON.ARRLEN");
    reveal_strlit("JSON.OBJLEN");
    reveal_strlit("LPUSH");
    reveal_strlit("RPUSH");
    reveal_strlit("LPOP");
    reveal_strlit("RPOP");
    reveal_strlit("LLEN");
    reveal_strlit("LRANGE");
    reveal_strlit("LINDEX");
    reveal_strlit("LSET");
    reveal_strlit("LREM");
    reveal_strlit("LTRIM");
    reveal_strlit("LINSERT");
    reveal_strlit("LMOVE");
    reveal_strlit("HSET");
    reveal_strlit("HSETNX");
    reveal_strlit("HGET");
    reveal_strlit("HMGET");
    reveal_strlit("HMSET");
    reveal_strlit("HDEL");
    reveal_strlit("HEXISTS");
    reveal_strlit("HLEN");
    reveal_strlit("HKEYS");
    reveal_strlit("HVALS");
    reveal_strlit("HGETALL");
    reveal_strlit("HINCRBY");
    reveal_strlit("HINCRBYFLOAT");
    reveal_strlit("HSCAN");
    reveal_strlit("SADD");
    reveal_strlit("SREM");
    reveal_strlit("SISMEMBER");
    reveal_strlit("SMEMBERS");
    reveal_strlit("SCARD");
    reveal_strlit("SPOP");
    reveal_strlit("SRANDMEMBER");
    reveal_strlit("SUNION");
    reveal_strlit("SINTER");
    reveal_strlit("SDIFF");
    reveal_strlit("SUNIONSTORE");
    reveal_strlit("SINTERSTORE");
    reveal_strlit("SDIFFSTORE");
    reveal_strlit("ZADD");
    reveal_strlit("ZREM");
    reveal_strlit("ZSCORE");
    reveal_strlit("ZRANK");
    reveal_strlit("ZREVRANK");
    reveal_strlit("ZRANGE");
    reveal_strlit("ZREVRANGE");
    reveal_strlit("ZRANGEBYSCORE");
    reveal_strlit("ZREVRANGEBYSCORE");
    reveal_strlit("ZCARD");
    reveal_strlit("ZCOUNT");
    reveal_strlit("ZINCRBY");
    reveal_strlit("SELECT");
    reveal_strlit("DBSIZE");
    reveal_strlit("FLUSHDB");
    reveal_strlit("FLUSHALL");
    reveal_strlit("SWAPDB");
    reveal_strlit("MOVE");
    reveal_strlit("KEYS");
    reveal_strlit("SCAN");
    reveal_strlit("RANDOMKEY");
    reveal_strlit("RENAME");
    reveal_strlit("RENAMENX");
    reveal_strlit("TYPE");
    reveal_strlit("COPY");
    reveal_strlit("DUMP");
    reveal_strlit("RESTORE");
    reveal_strlit("MIGRATE");
    reveal_strlit("EXPIRE");
    reveal_strlit("EXPIREAT");
    reveal_strlit("PEXPIRE");
    reveal_strlit("PEXPIREAT");
    reveal_strlit("TTL");
    reveal_strlit("PTTL");
    reveal_strlit("PERSIST");
    reveal_strlit("EXPIRETIME");
    reveal_strlit("PEXPIRETIME");
    reveal_strlit("PING");
    reveal_strlit("ECHO");
    reveal_strlit("INFO");
    reveal_strlit("CONFIG");
    reveal_strlit("SLOWLOG");
    reveal_strlit("TIME");
    reveal_strlit("CLIENT");
    reveal_strlit("COMMAND");
    reveal_strlit("SAVE");
    reveal_strlit("BGSAVE");
    reveal_strlit("LASTSAVE");
    reveal_strlit("SHUTDOWN");
    reveal_strlit("MONITOR");
    reveal_strlit("EVAL");
    reveal_strlit("EVALSHA");
    reveal_strlit("SCRIPT");
    reveal_strlit("HELLO");
}


/// Every command of the table has well-formed key positions.
pub proof fn lemma_command_table_positions()
    ensures
        command_table().len() == 108,
        forall|i: int|
            0 <= i < command_table().len() ==> {
                let c = #[trigger] command_table()[i];
                &&& 0 <= c.first_key <= 3
                &&& -1 <= c.last_key <= 3
                &&& 0 <= c.step <= 2
                &&& c.last_key == -1 ==> c.step >= 1
            },
{
}

} // verus!

verus! {

/// Version of this server.
pub const AIKV_VERSION: &'static str = "1.0.0";

/// Redis version reported to clients.
pub const REDIS_COMPAT_VERSION: &'static str = "7.2.4";

/// A connected client.
#[derive(Debug, Clone)]
pub struct ClientInfo {
    /// Connection id.
    pub id: usize,
    /// Name set with CLIENT SETNAME.
    pub name: Option<String>,
    /// Peer address.
    pub addr: String,
}

/// A client's name and address, as texts.
pub ghost struct ClientView {
    pub name: Option<Seq<char>>,
    pub addr: Seq<char>,
}

/// The view of a client.
pub open spec fn client_view(c: ClientInfo) -> ClientView {
    ClientView {
        name: match c.name {
            Some(n) => Some(n@),
            None => None,
        },
        addr: c.addr@,
    }
}

/// The first index of the pair whose key is `k`.
pub open spec fn find_key(cs: Seq<(Seq<char>, Seq<char>)>, k: Seq<char>) -> Option<int>
    decreases cs.len(),
{
    if cs.len() == 0 {
        None
    } else {
        match find_key(cs.drop_last(), k) {
            Some(i) => Some(i),
            None => if cs.last().0 == k {
                Some(cs.len() - 1)
            } else {
                None
            },
        }
    }
}

/// The settings after setting `k` to `v`: replaced in place, or added last.
pub open spec fn config_insert(cs: Seq<(Seq<char>, Seq<char>)>, k: Seq<char>, v: Seq<char>) -> Seq<
    (Seq<char>, Seq<char>),
> {
    match find_key(cs, k) {
        Some(i) => cs.update(i, (k, v)),
        None => cs.push((k, v)),
    }
}

/// The settings a server starts with, for its port.
pub open spec fn default_config(port: u16) -> Seq<(Seq<char>, Seq<char>)> {
    seq![
        ("server"@, "aikv"@),
        ("version"@, AIKV_VERSION@),
        ("port"@, crate::text::decimal_spec(port as nat)),
        ("databases"@, "16"@),
        ("loglevel"@, "info"@),
        ("slowlog-log-slower-than"@, "10000"@),
        ("slowlog-max-len"@, "128"@),
    ]
}

/// The first index of the client with id `id`.
pub open spec fn find_client(cs: Seq<ClientInfo>, id: usize) -> Option<int>
    decreases cs.len(),
{
    if cs.len() == 0 {
        None
    } else {
        match find_client(cs.drop_last(), id) {
            Some(i) => Some(i),
            None => if cs.last().id == id {
                Some(cs.len() - 1)
            } else {
                None
            },
        }
    }
}

proof fn lemma_find_key_range(cs: Seq<(Seq<char>, Seq<char>)>, k: Seq<char>)
    ensures
        find_key(cs, k) matches Some(i) ==> 0 <= i < cs.len() && cs[i].0 == k,
    decreases cs.len(),
{
    if cs.len() > 0 {
        lemma_find_key_range(cs.drop_last(), k);
    }
}

proof fn lemma_find_key_prefix(cs: Seq<(Seq<char>, Seq<char>)>, k: Seq<char>, i: int)
    requires
        0 <= i < cs.len(),
        find_key(cs.take(i), k) is None,
        cs[i].0 == k,
    ensures
        find_key(cs, k) == Some(i),
    decreases cs.len() - i,
{
    assert(cs.take(i + 1).drop_last() =~= cs.take(i));
    lemma_find_key_extends(cs, k, i + 1);
}

proof fn lemma_find_key_extends(cs: Seq<(Seq<char>, Seq<char>)>, k: Seq<char>, j: int)
    requires
        0 < j <= cs.len(),
        find_key(cs.take(j), k) is Some,
    ensures
        find_key(cs, k) == find_key(cs.take(j), k),
    decreases cs.len() - j,
{
    if j < cs.len() {
        assert(cs.take(j + 1).drop_last() =~= cs.take(j));
        lemma_find_key_extends(cs, k, j + 1);
    } else {
        assert(cs.take(j) =~= cs);
    }
}

proof fn lemma_find_client_prefix(cs: Seq<ClientInfo>, id: usize, i: int)
    requires
        0 <= i < cs.len(),
        find_client(cs.take(i), id) is None,
        cs[i].id == id,
    ensures
        find_client(cs, id) == Some(i),
    decreases cs.len() - i,
{
    assert(cs.take(i + 1).drop_last() =~= cs.take(i));
    lemma_find_client_extends(cs, id, i + 1);
}

proof fn lemma_find_client_extends(cs: Seq<ClientInfo>, id: usize, j: int)
    requires
        0 < j <= cs.len(),
        find_client(cs.take(j), id) is Some,
    ensures
        find_client(cs, id) == find_client(cs.take(j), id),
    decreases cs.len() - j,
{
    if j < cs.len() {
        assert(cs.take(j + 1).drop_last() =~= cs.take(j));
        lemma_find_client_extends(cs, id, j + 1);
    } else {
        assert(cs.take(j) =~= cs);
    }
}

/// The views of the setting pairs.
pub open spec fn pair_texts(v: Seq<(String, String)>) -> Seq<(Seq<char>, Seq<char>)> {
    v.map_values(|p: (String, String)| (p.0@, p.1@))
}

/// Index of the setting named `k`.
fn find_setting(v: &Vec<(String, String)>, k: &str) -> (r: Option<usize>)
    ensures
        match find_key(pair_texts(v@), k@) {
            Some(i) => r == Some(i as usize),
            None => r is None,
        },
        r matches Some(i) ==> i < v@.len(),
{
    let ghost cs = pair_texts(v@);
    let mut i: usize = 0;
    while i < v.len()
        invariant
            i <= v.len(),
            cs == pair_texts(v@),
            cs.len() == v@.len(),
            find_key(cs.take(i as int), k@) is None,
        decreases v.len() - i,
    {
        proof {
            assert(cs.take(i + 1).drop_last() =~= cs.take(i as int));
            assert(cs[i as int].0 == v@[i as int].0@);
        }
        if str_eq(v[i].0.as_str(), k) {
            proof {
                lemma_find_key_prefix(cs, k@, i as int);
            }
            return Some(i);
        }
        i = i + 1;
    }
    proof {
        assert(cs.take(v.len() as int) =~= cs);
    }
    None
}

/// Index of the client with id `id`.
fn find_client_index(v: &Vec<ClientInfo>, id: usize) -> (r: Option<usize>)
    ensures
        match r {
            Some(i) => find_client(v@, id) == Some(i as int) && i < v@.len() && v@[i as int].id == id,
            None => find_client(v@, id) is None,
        },
{
    proof {
        lemma_find_client_range(v@, id);
    }
    let mut i: usize = 0;
    while i < v.len()
        invariant
            i <= v.len(),
            find_client(v@.take(i as int), id) is None,
        decreases v.len() - i,
    {
        proof {
            assert(v@.take(i + 1).drop_last() =~= v@.take(i as int));
        }
        if v[i].id == id {
            proof {
                lemma_find_client_prefix(v@, id, i as int);
            }
            return Some(i);
        }
        i = i + 1;
    }
    proof {
        assert(v@.take(v.len() as int) =~= v@);
    }
    None
}

} // verus!

verus! {

/// Whether a CONFIG GET pattern matches a setting name: a trailing `*`
/// matches any rest, otherwise the names must be equal.
pub open spec fn config_matches(pattern: Seq<char>, key: Seq<char>) -> bool {
    if pattern.len() > 0 && pattern.last() == '*' {
        key.len() >= pattern.len() - 1 && key.subrange(0, pattern.len() - 1) == pattern.drop_last()
    } else {
        pattern == key
    }
}

/// Names and values of the settings that match, flattened.
pub open spec fn matching_settings(pairs: Seq<(Seq<char>, Seq<char>)>, pattern: Seq<char>) -> Seq<Reply>
    decreases pairs.len(),
{
    if pairs.len() == 0 {
        Seq::empty()
    } else {
        let p = matching_settings(pairs.drop_last(), pattern);
        if config_matches(pattern, pairs.last().0) {
            p.push(bulk_text(pairs.last().0)).push(bulk_text(pairs.last().1))
        } else {
            p
        }
    }
}

/// The read-only cluster settings CONFIG GET reports first.
pub open spec fn builtin_settings(port: u16, cluster_enabled: bool) -> Seq<(Seq<char>, Seq<char>)> {
    seq![
        (
            "cluster-enabled"@,
            if cluster_enabled {
                "yes"@
            } else {
                "no"@
            },
        ),
        ("cluster-node-timeout"@, "15000"@),
        ("cluster-announce-port"@, crate::text::decimal_spec(port as nat)),
        ("cluster-announce-bus-port"@, crate::text::decimal_spec(((port + 10000) % 65536) as nat)),
    ]
}

/// A text ending in `*` matches the names it begins; otherwise only itself.
fn config_pattern_matches(pattern: &str, key: &str) -> (r: bool)
    ensures
        r == config_matches(pattern@, key@),
{
    let n = pattern.unicode_len();
    if n > 0 && pattern.get_char(n - 1) == '*' {
        let m = key.unicode_len();
        if m < n - 1 {
            return false;
        }
        let prefix = pattern.substring_char(0, n - 1);
        let head = key.substring_char(0, n - 1);
        proof {
            assert(prefix@ =~= pattern@.drop_last());
        }
        str_eq(prefix, head)
    } else {
        str_eq(pattern, key)
    }
}

/// Appends the names and values of the matching settings.
fn push_matching_settings(out: &mut Vec<RespValue>, pairs: &Vec<(String, String)>, pattern: &str, Ghost(model): Ghost<
    Seq<Reply>,
>)
    requires
        old(out)@.len() == model.len(),
        forall|j: int| 0 <= j < model.len() ==> crate::command::reply::value_models(#[trigger] old(out)@[j], model[j]),
    ensures
        final(out)@.len() == (model + matching_settings(pair_texts(pairs@), pattern@)).len(),
        forall|j: int|
            0 <= j < final(out)@.len() ==> crate::command::reply::value_models(
                #[trigger] final(out)@[j],
                (model + matching_settings(pair_texts(pairs@), pattern@))[j],
            ),
{
    let ghost ps = pair_texts(pairs@);
    let mut i: usize = 0;
    while i < pairs.len()
        invariant
            i <= pairs.len(),
            ps == pair_texts(pairs@),
            ps.len() == pairs@.len(),
            out@.len() == (model + matching_settings(ps.take(i as int), pattern@)).len(),
            forall|j: int|
                0 <= j < out@.len() ==> crate::command::reply::value_models(
                    #[trigger] out@[j],
                    (model + matching_settings(ps.take(i as int), pattern@))[j],
                ),
        decreases pairs.len() - i,
    {
        proof {
            assert(ps.take(i + 1).drop_last() =~= ps.take(i as int));
            assert(ps.take(i + 1).last() == (pairs@[i as int].0@, pairs@[i as int].1@));
        }
        if config_pattern_matches(pattern, pairs[i].0.as_str()) {
            let ghost before = model + matching_settings(ps.take(i as int), pattern@);
            out.push(bulk_of(pairs[i].0.as_str()));
            out.push(bulk_of(pairs[i].1.as_str()));
            proof {
                let after = model + matching_settings(ps.take(i + 1), pattern@);
                assert(after =~= before.push(bulk_text(pairs@[i as int].0@)).push(bulk_text(pairs@[i as int].1@)));
            }
        }
        i = i + 1;
    }
    proof {
        assert(ps.take(pairs.len() as int) =~= ps);
    }
}

/// The current Unix time as whole seconds and the microseconds past them
/// (std's `SystemTime::now` since `UNIX_EPOCH`), or the text of std's error
/// when the clock reads before the epoch; the value depends on the clock.
fn unix_time_secs_micros() -> (r: Result<(u64, u32), String>)
    ensures
        r matches Ok((_, us)) ==> us < 1_000_000,
{
    let now = crate::clock::system_now();
    match crate::clock::since_epoch(&now) {
        Ok(d) => Ok((crate::clock::duration_as_secs(&d), crate::clock::duration_subsec_micros(&d))),
        Err(e) => Err(crate::clock::clock_error_text(&e)),
    }
}

/// The whole seconds of a duration, from its whole milliseconds.
pub open spec fn whole_seconds(d: Duration) -> u64 {
    (crate::cluster::config::spec_duration_as_millis(d) / 1000) as u64
}

/// What CONFIG GET answers and leaves (the handler states it).
pub open spec fn config_get_holds(s: ServerCommands, args: Seq<Vec<u8>>, r: Result<RespValue, AikvError>) -> bool {
    &&& crate::command::reply::models(
        r,
        if args.len() != 1 {
            Reply::Fail(Failure::Arity("CONFIG GET"@))
        } else {
            let pattern = spec_to_lowercase(key_of(args[0]@));
            Reply::Array(
                matching_settings(builtin_settings(s.spec_port(), s.spec_cluster_enabled()), pattern)
                    + matching_settings(s.spec_config(), pattern),
            )
        }
    )
}

/// What CONFIG SET answers and leaves (the handler states it).
pub open spec fn config_set_holds(before: ServerCommands, after: ServerCommands, args: Seq<Vec<u8>>, r: Result<RespValue, AikvError>) -> bool {
    &&& ({
        let param = key_of(args[0]@);
        let value = key_of(args[1]@);
        let lower = spec_to_lowercase(param);
        if args.len() != 2 {
            crate::command::reply::models(r, Reply::Fail(Failure::Arity("CONFIG SET"@))) && after == before
        } else if lower == "server"@ || lower == "version"@ || lower == "port"@ {
            crate::command::reply::models(r, Reply::Fail(Failure::Invalid("ERR configuration parameter is read-only"@)))
                && after == before
        } else if lower == "loglevel"@ && crate::observability::logging::level_of(spec_to_lowercase(value)) is None {
            crate::command::reply::models(r, Reply::Fail(Failure::Invalid("ERR invalid log level: "@ + value)))
                && after == before
        } else if lower == "slowlog-log-slower-than"@ && crate::text::parse_unsigned_spec(value, u64::MAX as nat) is None {
            crate::command::reply::models(r, Reply::Fail(Failure::Invalid("ERR invalid slowlog threshold value"@)))
                && after == before
        } else if lower == "slowlog-max-len"@ && crate::text::parse_unsigned_spec(value, usize::MAX as nat) is None {
            crate::command::reply::models(r, Reply::Fail(Failure::Invalid("ERR invalid slowlog max length value"@)))
                && after == before
        } else {
            &&& crate::command::reply::models(r, ok_reply())
            &&& after.spec_config() == config_insert(before.spec_config(), param, value)
            &&& after.spec_log_level() == (if lower == "loglevel"@ {
                crate::observability::logging::level_of(spec_to_lowercase(value))->Some_0
            } else {
                before.spec_log_level()
            })
            &&& after.spec_slowlog().spec_threshold_us() == (if lower == "slowlog-log-slower-than"@ {
                crate::text::parse_unsigned_spec(value, u64::MAX as nat)->Some_0 as u64
            } else {
                before.spec_slowlog().spec_threshold_us()
            })
            &&& after.spec_slowlog().spec_max_len() == (if lower == "slowlog-max-len"@ {
                crate::text::parse_unsigned_spec(value, usize::MAX as nat)->Some_0 as usize
            } else {
                before.spec_slowlog().spec_max_len()
            })
            &&& after.spec_clients() == before.spec_clients()
            &&& after.spec_port() == before.spec_port()
            &&& after.spec_cluster_enabled() == before.spec_cluster_enabled()
            &&& after.spec_shutdown() == before.spec_shutdown()
        }
    })
}

/// What CLIENT LIST answers and leaves (the handler states it).
pub open spec fn client_list_holds(s: ServerCommands, r: Result<RespValue, AikvError>) -> bool {
    &&& crate::command::reply::models(
        r,
        bulk_text(crate::text::join_spec(s.spec_clients().map_values(|c: ClientInfo| client_line(c)), "\n"@))
    )
}

/// What CLIENT SETNAME answers and leaves (the handler states it).
pub open spec fn client_setname_holds(before: ServerCommands, after: ServerCommands, args: Seq<Vec<u8>>, client_id: usize, r: Result<RespValue, AikvError>) -> bool {
    &&& args.len() != 1 ==> crate::command::reply::models(r, Reply::Fail(Failure::Arity("CLIENT SETNAME"@)))
        && after == before
    &&& args.len() == 1 ==> {
        &&& crate::command::reply::models(r, ok_reply())
        &&& after.spec_clients().len() == before.spec_clients().len()
        &&& match find_client(before.spec_clients(), client_id) {
            Some(i) => {
                &&& after.spec_clients()[i].id == client_id
                &&& after.spec_clients()[i].addr@ == before.spec_clients()[i].addr@
                &&& after.spec_clients()[i].name matches Some(n) && n@ == key_of(args[0]@)
                &&& forall|j: int| 0 <= j < after.spec_clients().len() && j != i ==> #[trigger] after.spec_clients()[j] == before.spec_clients()[j]
            },
            None => after.spec_clients() == before.spec_clients(),
        }
        &&& after.spec_config() == before.spec_config()
    }
}

/// What CLIENT GETNAME answers and leaves (the handler states it).
pub open spec fn client_getname_holds(s: ServerCommands, client_id: usize, r: Result<RespValue, AikvError>) -> bool {
    &&& crate::command::reply::models(
        r,
        match find_client(s.spec_clients(), client_id) {
            Some(i) => match s.spec_clients()[i].name {
                Some(n) => bulk_text(n@),
                None => Reply::NullBulk,
            },
            None => Reply::NullBulk,
        }
    )
}

/// What SHUTDOWN answers and leaves (the handler states it).
pub open spec fn shutdown_holds(before: ServerCommands, after: ServerCommands, args: Seq<Vec<u8>>, r: Result<RespValue, AikvError>) -> bool {
    &&& ({
        let opts = arg_views(args).map_values(|a: Seq<u8>| option_of(a));
        let known = |o: Seq<char>| o == "NOSAVE"@ || o == "SAVE"@ || o == "NOW"@ || o == "FORCE"@ || o == "ABORT"@;
        match first_unknown(opts) {
            Some(i) => crate::command::reply::models(r, Reply::Fail(Failure::Invalid("Unknown SHUTDOWN option: "@ + opts[i])))
                && after == before,
            None => if opts.contains("ABORT"@) {
                crate::command::reply::models(r, ok_reply()) && !after.spec_shutdown()
            } else {
                crate::command::reply::models(r, Reply::Fail(Failure::Storage("Server is shutting down"@)))
                    && after.spec_shutdown()
            },
        }
    })
    &&& after.spec_config() == before.spec_config()
    &&& after.spec_clients() == before.spec_clients()
}

/// What SLOWLOG answers and leaves (the handler states it).
pub open spec fn slowlog_holds(before: ServerCommands, after: ServerCommands, args: Seq<Vec<u8>>, r: Result<RespValue, AikvError>) -> bool {
    &&& ({
        let sub = option_of(args[0]@);
        let log = before.spec_slowlog();
        if args.len() == 0 {
            crate::command::reply::models(r, Reply::Fail(Failure::Arity("SLOWLOG"@))) && after == before
        } else if sub == "GET"@ {
            let count: nat = if args.len() > 1 {
                match crate::command::reply::usize_arg(args[1]@) {
                    Some(c) => c,
                    None => 10,
                }
            } else {
                10
            };
            let n = if count < log@.len() {
                count
            } else {
                log@.len()
            };
            &&& after == before
            &&& r matches Ok(RespValue::Array(Some(items)))
            &&& items@.len() == n
            &&& forall|i: int| 0 <= i < n ==> crate::command::reply::value_models(#[trigger] items@[i], slowlog_entry_reply(log@[i]))
        } else if sub == "LEN"@ {
            crate::command::reply::models(r, Reply::Int(log@.len() as i64 as int)) && after == before
        } else if sub == "RESET"@ {
            &&& crate::command::reply::models(r, ok_reply())
            &&& after.spec_slowlog()@.len() == 0
            &&& after.spec_slowlog().spec_max_len() == log.spec_max_len()
            &&& after.spec_slowlog().spec_threshold_us() == log.spec_threshold_us()
            &&& after.spec_config() == before.spec_config()
        } else if sub == "HELP"@ {
            crate::command::reply::models(r, Reply::Array(slowlog_help_lines().map_values(|l: Seq<char>| bulk_text(l))))
                && after == before
        } else {
            crate::command::reply::models(r, Reply::Fail(Failure::Command("Unknown SLOWLOG subcommand: "@ + sub)))
                && after == before
        }
    })
}

/// What TIME answers and leaves (the handler states it).
pub open spec fn time_holds(r: Result<RespValue, AikvError>) -> bool {
    &&& r is Err ==> (r matches Err(AikvError::Storage(m)) && exists|t: Seq<char>| m@ == "Time error: "@ + t)
    &&& r is Ok ==> exists|secs: u64, micros: u32|
        micros < 1_000_000 && crate::command::reply::models(
            r,
            Reply::Array(
                seq![
                    bulk_text(crate::text::decimal_spec(secs as nat)),
                    bulk_text(crate::text::decimal_spec(micros as nat)),
                ],
            ),
        )
}

/// What INFO answers and leaves (the handler states it).
pub open spec fn info_holds(s: ServerCommands, host: HostInfo, args: Seq<Vec<u8>>, r: Result<RespValue, AikvError>) -> bool {
    exists|uptime: u64|
        crate::command::reply::models(
            r,
            bulk_text(
                crate::text::join_spec(
                    info_lines(
                        spec_to_lowercase(info_section_name(arg_views(args))),
                        server_section(s.spec_port(), s.spec_cluster_enabled(), s.spec_run_id(), host, uptime),
                        clients_section(s.spec_clients().len()),
                    ),
                    "\r\n"@,
                ),
            ),
        )
}

/// The answer for one slow-log entry (see `slowlog_entry_reply`).
fn slowlog_entry(e: &crate::observability::logging::SlowQueryEntry) -> (r: RespValue)
    ensures
        crate::command::reply::value_models(r, slowlog_entry_reply(*e)),
{
    let mut cmd: Vec<RespValue> = Vec::new();
    cmd.push(bulk_of(e.command.as_str()));
    let mut i: usize = 0;
    while i < e.args.len()
        invariant
            i <= e.args@.len(),
            cmd@.len() == i + 1,
            crate::command::reply::value_models(cmd@[0], bulk_text(e.command@)),
            forall|j: int| 1 <= j < i + 1 ==> crate::command::reply::value_models(#[trigger] cmd@[j], bulk_text(e.args@[j - 1]@)),
        decreases e.args@.len() - i,
    {
        cmd.push(bulk_of(e.args[i].as_str()));
        i = i + 1;
    }
    let ghost want = slowlog_entry_reply(*e)->Array_0;
    let cmd_array = RespValue::array(cmd);
    proof {
        let items = seq![bulk_text(e.command@)] + e.args@.map_values(|a: String| bulk_text(a@));
        assert forall|j: int| 0 <= j < items.len() implies crate::command::reply::value_models(#[trigger] cmd@[j], items[j]) by {
            if j > 0 {
                assert(items[j] == bulk_text(e.args@[j - 1]@));
            }
        }
        assert(crate::command::reply::value_models(cmd_array, want[3]));
    }
    let addr = match &e.client_addr {
        Some(a) => bulk_of(a.as_str()),
        None => bulk_of(""),
    };
    let empty = bulk_of("");
    proof {
        reveal_strlit("");
        assert(""@ =~= Seq::<char>::empty());
        assert(crate::command::reply::value_models(addr, want[4]));
        assert(crate::command::reply::value_models(empty, want[5]));
    }
    let items = vec![
        RespValue::integer(e.id as i64),
        RespValue::integer(e.timestamp as i64),
        RespValue::integer(e.duration_us as i64),
        cmd_array,
        addr,
        empty,
    ];
    proof {
        assert forall|k: int| 0 <= k < 6 implies crate::command::reply::value_models(#[trigger] items@[k], want[k]) by {
            if k < 3 {
                assert(items@[k] is Integer);
            }
        }
    }
    RespValue::array(items)
}

proof fn lemma_slowlog_reply_same(a: crate::observability::logging::SlowQueryEntry, b: crate::observability::logging::SlowQueryEntry)
    requires
        crate::observability::logging::same_entry(a, b),
    ensures
        slowlog_entry_reply(a) == slowlog_entry_reply(b),
{
    let fa = a.args@.map_values(|x: String| bulk_text(x@));
    let fb = b.args@.map_values(|x: String| bulk_text(x@));
    assert(views(a.args@) == views(b.args@));
    assert(fa.len() == views(a.args@).len());
    assert forall|i: int| 0 <= i < fa.len() implies fa[i] == fb[i] by {
        assert(views(a.args@)[i] == a.args@[i]@);
        assert(views(b.args@)[i] == b.args@[i]@);
    }
    assert(fa =~= fb);
}

/// The first option that SHUTDOWN does not know, if any.
pub open spec fn first_unknown(opts: Seq<Seq<char>>) -> Option<int>
    decreases opts.len(),
{
    if opts.len() == 0 {
        None
    } else {
        match first_unknown(opts.drop_last()) {
            Some(i) => Some(i),
            None => {
                let o = opts.last();
                if o == "NOSAVE"@ || o == "SAVE"@ || o == "NOW"@ || o == "FORCE"@ || o == "ABORT"@ {
                    None
                } else {
                    Some(opts.len() - 1)
                }
            },
        }
    }
}

proof fn lemma_first_unknown_at(opts: Seq<Seq<char>>, i: int)
    requires
        0 <= i < opts.len(),
        first_unknown(opts.take(i)) is None,
        !(opts[i] == "NOSAVE"@ || opts[i] == "SAVE"@ || opts[i] == "NOW"@ || opts[i] == "FORCE"@ || opts[i] == "ABORT"@),
    ensures
        first_unknown(opts) == Some(i),
    decreases opts.len() - i,
{
    assert(opts.take(i + 1).drop_last() =~= opts.take(i));
    lemma_first_unknown_extends(opts, i + 1);
}

proof fn lemma_first_unknown_extends(opts: Seq<Seq<char>>, j: int)
    requires
        0 < j <= opts.len(),
        first_unknown(opts.take(j)) is Some,
    ensures
        first_unknown(opts) == first_unknown(opts.take(j)),
    decreases opts.len() - j,
{
    if j < opts.len() {
        assert(opts.take(j + 1).drop_last() =~= opts.take(j));
        lemma_first_unknown_extends(opts, j + 1);
    } else {
        assert(opts.take(j) =~= opts);
    }
}

proof fn lemma_find_client_range(cs: Seq<ClientInfo>, id: usize)
    ensures
        find_client(cs, id) matches Some(i) ==> 0 <= i < cs.len() && cs[i].id == id,
        find_client(cs, id) is None ==> forall|j: int| 0 <= j < cs.len() ==> #[trigger] cs[j].id != id,
    decreases cs.len(),
{
    if cs.len() > 0 {
        lemma_find_client_range(cs.drop_last(), id);
        if find_client(cs, id) is None {
            assert forall|j: int| 0 <= j < cs.len() implies #[trigger] cs[j].id != id by {
                if j < cs.len() - 1 {
                    assert(cs.drop_last()[j] == cs[j]);
                }
            }
        }
    }
}

/// Whether COMMAND GETKEYS takes position `i` as a key (see
/// `key_position`).
fn is_key_position(first: i64, last: i64, step: i64, n: usize, i: usize) -> (r: bool)
    requires
        0 <= first <= 3,
        -1 <= last <= 3,
        0 <= step <= 2,
    ensures
        r == key_position(first as int, last as int, step as int, n as int, i as int),
{
    let start: i128 = first as i128 - 1;
    let ii: i128 = i as i128;
    let nn: i128 = n as i128;
    if first == 0 {
        false
    } else if last == -1 {
        start <= ii && ii < nn && (step == 1 || (step != 0 && (ii - start) % (step as i128) == 0))
    } else if last >= first {
        let end: i128 = last as i128 - 1;
        let hi: i128 = if end < nn - 1 {
            end
        } else if nn >= 1 {
            nn - 1
        } else {
            0
        };
        let st: i128 = if step >= 1 {
            step as i128
        } else {
            1
        };
        start <= ii && ii <= hi && ii < nn && (ii - start) % st == 0
    } else {
        false
    }
}

/// The pair COMMAND DOCS answers for one command.
fn format_command_doc(cmd: &CommandInfo) -> (r: (RespValue, RespValue))
    ensures
        crate::command::reply::value_models(r.0, doc_pair(*cmd).0),
        crate::command::reply::value_models(r.1, doc_pair(*cmd).1),
{
    let lower = to_lowercase(cmd.name);
    let mut summary = string_of(cmd.name);
    crate::text::push_str(&mut summary, " command");
    let mut pairs: Vec<(RespValue, RespValue)> = Vec::new();
    pairs.push((bulk_of("summary"), bulk_of(summary.as_str())));
    pairs.push((bulk_of("since"), bulk_of("1.0.0")));
    pairs.push((bulk_of("group"), bulk_of("generic")));
    let d = RespValue::map(pairs);
    proof {
        assert(crate::command::reply::value_models(d, doc_pair(*cmd).1));
    }
    (bulk_of(lower.as_str()), d)
}

/// Handles the server commands.
#[derive(Debug)]
pub struct ServerCommands {
    storage: StorageEngine,
    clients: Vec<ClientInfo>,
    config: Vec<(String, String)>,
    start_time: std::time::Instant,
    run_id: String,
    tcp_port: u16,
    current_log_level: Level,
    slow_query_log: SlowQueryLog,
    last_save_time: u64,
    shutdown_requested: bool,
    cluster_enabled: bool,
}

/// Forty hexadecimal digits drawn from the clock and fresh hash keys.
fn generate_run_id() -> (r: String)
    ensures
        r@.len() == 40,
        crate::observability::tracing_setup::is_hex_text(r@),
{
    let a = random_u64(0);
    let b = random_u64(1);
    let c = random_u64(2) / 4294967296;
    let mut s = String::new();
    crate::text::push_hex_fixed(&mut s, a, 16);
    crate::text::push_hex_fixed(&mut s, b, 16);
    crate::text::push_hex_fixed(&mut s, c, 8);
    proof {
        let ha = crate::text::hex_fixed_spec(a as nat, 16);
        let hb = crate::text::hex_fixed_spec(b as nat, 16);
        let hc = crate::text::hex_fixed_spec(c as nat, 8);
        crate::observability::tracing_setup::lemma_hex_fixed(a as nat, 16);
        crate::observability::tracing_setup::lemma_hex_fixed(b as nat, 16);
        crate::observability::tracing_setup::lemma_hex_fixed(c as nat, 8);
        assert(s@ =~= ha + hb + hc);
        assert forall|i: int| 0 <= i < s@.len() implies ('0' <= #[trigger] s@[i] <= '9' || 'a' <= s@[i] <= 'f') by {
            if i < 16 {
                assert(s@[i] == ha[i]);
            } else if i < 32 {
                assert(s@[i] == hb[i - 16]);
            } else {
                assert(s@[i] == hc[i - 32]);
            }
        }
    }
    s
}

} // verus!

verus! {

/// The answer for one slow-log entry: id, timestamp, duration, the command
/// with its arguments, the client address (empty when unknown), and an
/// empty client name.
pub open spec fn slowlog_entry_reply(e: crate::observability::logging::SlowQueryEntry) -> Reply {
    Reply::Array(
        seq![
            Reply::Int(e.id as i64 as int),
            Reply::Int(e.timestamp as i64 as int),
            Reply::Int(e.duration_us as i64 as int),
            Reply::Array(
                seq![bulk_text(e.command@)] + e.args@.map_values(|a: String| bulk_text(a@)),
            ),
            bulk_text(
                match e.client_addr {
                    Some(a) => a@,
                    None => Seq::empty(),
                },
            ),
            bulk_text(Seq::empty()),
        ],
    )
}

/// The lines of SLOWLOG HELP.
pub open spec fn slowlog_help_lines() -> Seq<Seq<char>> {
    seq![
        "SLOWLOG GET [count] - Get the slow log entries"@,
        "SLOWLOG LEN - Get the slow log length"@,
        "SLOWLOG RESET - Reset the slow log"@,
        "SLOWLOG HELP - Show this help"@,
    ]
}

/// The line CLIENT LIST writes for a client.
pub open spec fn client_line(c: ClientInfo) -> Seq<char> {
    "id="@ + crate::text::decimal_spec(c.id as nat) + " addr="@ + c.addr@ + match c.name {
        Some(n) => " name="@ + n@,
        None => Seq::empty(),
    }
}

impl ServerCommands {
    /// The settings, in order.
    pub closed spec fn spec_config(&self) -> Seq<(Seq<char>, Seq<char>)> {
        pair_texts(self.config@)
    }

    /// The registered clients, in order.
    pub closed spec fn spec_clients(&self) -> Seq<ClientInfo> {
        self.clients@
    }

    /// The port the server listens on.
    pub closed spec fn spec_port(&self) -> u16 {
        self.tcp_port
    }

    /// Whether cluster mode is on.
    pub closed spec fn spec_cluster_enabled(&self) -> bool {
        self.cluster_enabled
    }

    /// The current log level.
    pub closed spec fn spec_log_level(&self) -> Level {
        self.current_log_level
    }

    /// Whether a shutdown was requested.
    pub closed spec fn spec_shutdown(&self) -> bool {
        self.shutdown_requested
    }

    /// Unix time of the last save, in seconds.
    pub closed spec fn spec_last_save(&self) -> u64 {
        self.last_save_time
    }

    /// The slow query log.
    pub closed spec fn spec_slowlog(&self) -> SlowQueryLog {
        self.slow_query_log
    }

    /// The server's run id.
    pub closed spec fn spec_run_id(&self) -> Seq<char> {
        self.run_id@
    }

    /// A handler for port 6379 without cluster mode.
    pub fn new() -> (r: Self)
        ensures
            r.spec_port() == 6379,
            !r.spec_cluster_enabled(),
            r.spec_config() == default_config(6379),
            r.spec_clients().len() == 0,
            r.spec_log_level() == Level::INFO,
            !r.spec_shutdown(),
    {
        Self::with_port_and_cluster(6379, false)
    }

    /// A handler for `port` without cluster mode.
    pub fn with_port(port: u16) -> (r: Self)
        ensures
            r.spec_port() == port,
            !r.spec_cluster_enabled(),
            r.spec_config() == default_config(port),
            r.spec_clients().len() == 0,
            r.spec_log_level() == Level::INFO,
            !r.spec_shutdown(),
    {
        Self::with_port_and_cluster(port, false)
    }

    /// A handler for `port`, in cluster mode when `cluster_enabled`, with an
    /// empty keyspace of 16 databases.
    pub fn with_port_and_cluster(port: u16, cluster_enabled: bool) -> (r: Self)
        ensures
            r.spec_port() == port,
            r.spec_cluster_enabled() == cluster_enabled,
            r.spec_config() == default_config(port),
            r.spec_clients().len() == 0,
            r.spec_log_level() == Level::INFO,
            !r.spec_shutdown(),
    {
        Self::with_storage_port_and_cluster(StorageEngine::new_memory(16), port, cluster_enabled)
    }

    /// A handler over `storage` for `port`, in cluster mode when
    /// `cluster_enabled`: default settings, no clients, log level INFO, an
    /// empty slow log with default limits, a fresh 40-digit run id, and the
    /// current time as the last save.
    pub fn with_storage_port_and_cluster(storage: StorageEngine, port: u16, cluster_enabled: bool) -> (r: Self)
        ensures
            r.spec_port() == port,
            r.spec_cluster_enabled() == cluster_enabled,
            r.spec_config() == default_config(port),
            r.spec_clients().len() == 0,
            r.spec_log_level() == Level::INFO,
            !r.spec_shutdown(),
            r.spec_slowlog()@.len() == 0,
            r.spec_slowlog().spec_threshold_us() == crate::observability::logging::DEFAULT_SLOWLOG_THRESHOLD_US,
            r.spec_slowlog().spec_max_len() == crate::observability::logging::DEFAULT_SLOWLOG_MAX_LEN,
            r.spec_slowlog().spec_next_id() == 0,
            r.spec_run_id().len() == 40,
    {
        let mut config: Vec<(String, String)> = Vec::new();
        config.push((string_of("server"), string_of("aikv")));
        config.push((string_of("version"), string_of(AIKV_VERSION)));
        config.push((string_of("port"), crate::text::u64_to_decimal(port as u64)));
        config.push((string_of("databases"), string_of("16")));
        config.push((string_of("loglevel"), string_of("info")));
        config.push((string_of("slowlog-log-slower-than"), string_of("10000")));
        config.push((string_of("slowlog-max-len"), string_of("128")));
        let r = ServerCommands {
            storage,
            clients: Vec::new(),
            config,
            start_time: crate::observability::tracing_setup::instant_now(),
            run_id: generate_run_id(),
            tcp_port: port,
            current_log_level: Level::INFO,
            slow_query_log: SlowQueryLog::new(),
            last_save_time: crate::observability::logging::unix_time_secs(),
            shutdown_requested: false,
            cluster_enabled,
        };
        proof {
            assert(r.spec_config() =~= default_config(port));
        }
        r
    }

    /// The slow query log.
    pub fn slow_query_log(&self) -> (r: &SlowQueryLog)
        ensures
            *r == self.spec_slowlog(),
    {
        &self.slow_query_log
    }

    /// The current log level.
    pub fn log_level(&self) -> (r: Level)
        ensures
            r == self.spec_log_level(),
    {
        self.current_log_level
    }

    /// CONFIG GET pattern: the matching settings as name, value, name,
    /// value...; the read-only cluster settings come first.
    pub fn config_get(&self, args: &[Vec<u8>]) -> (r: Result<RespValue, AikvError>)
        ensures
            config_get_holds(*self, args@, r),
            args@.len() == 1 && crate::text::all_ascii(key_of(args@[0]@)) ==> spec_to_lowercase(key_of(args@[0]@))
                == key_of(args@[0]@).map_values(|c: char| crate::text::ascii_lower(c)),
    {
        if args.len() != 1 {
            return Err(arity_error("CONFIG GET"));
        }
        let text = arg_text(&args[0]);
        let parameter = to_lowercase(text.as_str());
        let mut builtins: Vec<(String, String)> = Vec::new();
        builtins.push((
            string_of("cluster-enabled"),
            string_of(
                if self.cluster_enabled {
                    "yes"
                } else {
                    "no"
                },
            ),
        ));
        builtins.push((string_of("cluster-node-timeout"), string_of("15000")));
        builtins.push((string_of("cluster-announce-port"), crate::text::u64_to_decimal(self.tcp_port as u64)));
        builtins.push((
            string_of("cluster-announce-bus-port"),
            crate::text::u64_to_decimal(self.tcp_port.wrapping_add(10000) as u64),
        ));
        proof {
            assert(pair_texts(builtins@) =~= builtin_settings(self.tcp_port, self.cluster_enabled));
        }
        let mut results: Vec<RespValue> = Vec::new();
        push_matching_settings(&mut results, &builtins, parameter.as_str(), Ghost(Seq::empty()));
        let ghost first = Seq::<Reply>::empty() + matching_settings(pair_texts(builtins@), parameter@);
        push_matching_settings(&mut results, &self.config, parameter.as_str(), Ghost(first));
        let r = RespValue::array(results);
        proof {
            assert(Seq::<Reply>::empty() + matching_settings(pair_texts(builtins@), parameter@) =~= matching_settings(
                pair_texts(builtins@),
                parameter@,
            ));
        }
        Ok(r)
    }

    /// CONFIG SET parameter value: refuses read-only settings, applies
    /// `loglevel`, `slowlog-log-slower-than` and `slowlog-max-len`, and
    /// records the setting under the name as given.
    pub fn config_set(&mut self, args: &[Vec<u8>]) -> (r: Result<RespValue, AikvError>)
        ensures
            config_set_holds(*old(self), *final(self), args@, r),
            args@.len() == 2 && crate::text::all_ascii(key_of(args@[0]@)) ==> spec_to_lowercase(key_of(args@[0]@))
                == key_of(args@[0]@).map_values(|c: char| crate::text::ascii_lower(c)),
            args@.len() == 2 && spec_to_lowercase(key_of(args@[0]@)) == "loglevel"@ && crate::text::all_ascii(
                key_of(args@[1]@),
            ) ==> crate::observability::logging::level_of(spec_to_lowercase(key_of(args@[1]@)))
                == crate::observability::logging::level_of(
                key_of(args@[1]@).map_values(|c: char| crate::text::ascii_lower(c)),
            ),
    {
        if args.len() != 2 {
            return Err(arity_error("CONFIG SET"));
        }
        proof {
            reveal_strlit("server");
            reveal_strlit("version");
            reveal_strlit("port");
            reveal_strlit("loglevel");
            assert("loglevel"@.len() != "server"@.len());
            assert("loglevel"@.len() != "version"@.len());
            assert("loglevel"@.len() != "port"@.len());
            reveal_strlit("slowlog-log-slower-than");
            reveal_strlit("slowlog-max-len");
            assert("loglevel"@.len() != "slowlog-log-slower-than"@.len());
            assert("loglevel"@.len() != "slowlog-max-len"@.len());
            assert("slowlog-max-len"@.len() != "slowlog-log-slower-than"@.len());
        }
        let parameter = arg_text(&args[0]);
        let value = arg_text(&args[1]);
        let param_lower = to_lowercase(parameter.as_str());
        let pl = param_lower.as_str();
        if str_eq(pl, "server") || str_eq(pl, "version") || str_eq(pl, "port") {
            return Err(invalid_error("ERR configuration parameter is read-only"));
        } else if str_eq(pl, "loglevel") {
            match crate::observability::logging::LogConfig::parse_level(value.as_str()) {
                Some(level) => {
                    self.current_log_level = level;
                },
                None => {
                    let mut msg = string_of("ERR invalid log level: ");
                    crate::text::push_str(&mut msg, value.as_str());
                    return Err(AikvError::InvalidArgument(msg));
                },
            }
        } else if str_eq(pl, "slowlog-log-slower-than") {
            match crate::text::parse_u64(value.as_str()) {
                Some(threshold) => {
                    self.slow_query_log.set_threshold_us(threshold);
                },
                None => {
                    return Err(invalid_error("ERR invalid slowlog threshold value"));
                },
            }
        } else if str_eq(pl, "slowlog-max-len") {
            match crate::text::parse_unsigned(value.as_str(), usize::MAX as u64) {
                Some(max_len) => {
                    self.slow_query_log.set_max_len(max_len as usize);
                },
                None => {
                    return Err(invalid_error("ERR invalid slowlog max length value"));
                },
            }
        }
        let ghost before = self.spec_config();
        let ghost pv = (parameter@, value@);
        proof {
            assert(pv == (key_of(args@[0]@), key_of(args@[1]@)));
            assert(before == pair_texts(self.config@));
            lemma_find_key_range(before, pv.0);
        }
        let found = find_setting(&self.config, parameter.as_str());
        proof {
            match find_key(before, pv.0) {
                Some(j) => assert(found == Some(j as usize)),
                None => assert(found is None),
            }
        }
        match found {
            Some(i) => {
                proof {
                    assert(self.config@.len() == self.config.len());
                }
                self.config.set(i, (parameter, value));
                proof {
                    assert(self.spec_config() =~= before.update(i as int, pv));
                    assert(config_insert(before, pv.0, pv.1) == before.update(i as int, pv));
                }
            },
            None => {
                proof {
                    assert(find_key(before, pv.0) is None);
                }
                self.config.push((parameter, value));
                proof {
                    assert(self.spec_config() =~= before.push(pv));
                    assert(config_insert(before, pv.0, pv.1) == before.push(pv));
                }
            },
        }
        proof {
            assert(self.spec_config() == config_insert(before, pv.0, pv.1));
        }
        Ok(RespValue::ok())
    }

    /// TIME: the current Unix time as seconds and microseconds.
    pub fn time(&self, _args: &[Vec<u8>]) -> (r: Result<RespValue, AikvError>)
        ensures
            time_holds(r),
    {
        match unix_time_secs_micros() {
            Ok((secs, micros)) => {
                let a = crate::text::u64_to_decimal(secs);
                let b = crate::text::u64_to_decimal(micros as u64);
                let items = vec![bulk_of(a.as_str()), bulk_of(b.as_str())];
                let r = RespValue::array(items);
                proof {
                    let want = seq![
                        bulk_text(crate::text::decimal_spec(secs as nat)),
                        bulk_text(crate::text::decimal_spec(micros as nat)),
                    ];
                    assert(crate::command::reply::value_models(r, Reply::Array(want)));
                }
                Ok(r)
            },
            Err(text) => {
                let mut msg = string_of("Time error: ");
                crate::text::push_str(&mut msg, text.as_str());
                proof {
                    assert(msg@ == "Time error: "@ + text@);
                }
                Err(AikvError::Storage(msg))
            },
        }
    }

    /// CLIENT LIST: one line per client, joined by newlines.
    pub fn client_list(&self, _args: &[Vec<u8>]) -> (r: Result<RespValue, AikvError>)
        ensures
            client_list_holds(*self, r),
    {
        let mut lines: Vec<String> = Vec::new();
        let mut i: usize = 0;
        while i < self.clients.len()
            invariant
                i <= self.clients@.len(),
                lines@.len() == i,
                forall|j: int| 0 <= j < i ==> #[trigger] lines@[j]@ == client_line(self.clients@[j]),
            decreases self.clients@.len() - i,
        {
            let c = &self.clients[i];
            let mut line = string_of("id=");
            crate::text::push_str(&mut line, crate::text::u64_to_decimal(c.id as u64).as_str());
            crate::text::push_str(&mut line, " addr=");
            crate::text::push_str(&mut line, c.addr.as_str());
            match &c.name {
                Some(n) => {
                    crate::text::push_str(&mut line, " name=");
                    crate::text::push_str(&mut line, n.as_str());
                },
                None => {},
            }
            proof {
                reveal_strlit("");
            }
            lines.push(line);
            i = i + 1;
        }
        let text = crate::text::join_strings(&lines, "\n");
        proof {
            assert(views(lines@) =~= self.spec_clients().map_values(|c: ClientInfo| client_line(c)));
        }
        Ok(bulk_of(text.as_str()))
    }

    /// CLIENT SETNAME name: names the client, if it is registered.
    pub fn client_setname(&mut self, args: &[Vec<u8>], client_id: usize) -> (r: Result<RespValue, AikvError>)
        ensures
            client_setname_holds(*old(self), *final(self), args@, client_id, r),
    {
        if args.len() != 1 {
            return Err(arity_error("CLIENT SETNAME"));
        }
        let name = arg_text(&args[0]);
        match find_client_index(&self.clients, client_id) {
            Some(i) => {
                let addr = self.clients[i].addr.clone();
                self.clients.set(i, ClientInfo { id: client_id, name: Some(name), addr });
            },
            None => {},
        }
        Ok(RespValue::ok())
    }

    /// CLIENT GETNAME: the client's name, or the null bulk string.
    pub fn client_getname(&self, _args: &[Vec<u8>], client_id: usize) -> (r: Result<RespValue, AikvError>)
        ensures
            client_getname_holds(*self, client_id, r),
    {
        match find_client_index(&self.clients, client_id) {
            Some(i) => {
                match &self.clients[i].name {
                    Some(n) => Ok(bulk_of(n.as_str())),
                    None => Ok(RespValue::null_bulk_string()),
                }
            },
            None => Ok(RespValue::null_bulk_string()),
        }
    }

    /// Registers a client (replacing one with the same id).
    pub fn register_client(&mut self, id: usize, addr: String) -> (r: Result<(), AikvError>)
        ensures
            r is Ok,
            final(self).spec_clients() == (match find_client(old(self).spec_clients(), id) {
                Some(i) => old(self).spec_clients().update(i, ClientInfo { id, name: None, addr }),
                None => old(self).spec_clients().push(ClientInfo { id, name: None, addr }),
            }),
            final(self).spec_config() == old(self).spec_config(),
    {
        let info = ClientInfo { id, name: None, addr };
        match find_client_index(&self.clients, id) {
            Some(i) => {
                self.clients.set(i, info);
            },
            None => {
                self.clients.push(info);
            },
        }
        Ok(())
    }

    /// Removes the client with the given id.
    pub fn unregister_client(&mut self, id: usize) -> (r: Result<(), AikvError>)
        ensures
            r is Ok,
            final(self).spec_clients() == (match find_client(old(self).spec_clients(), id) {
                Some(i) => old(self).spec_clients().remove(i),
                None => old(self).spec_clients(),
            }),
            final(self).spec_config() == old(self).spec_config(),
    {
        match find_client_index(&self.clients, id) {
            Some(i) => {
                self.clients.remove(i);
            },
            None => {},
        }
        Ok(())
    }

    /// CONFIG REWRITE: settings are not written to a file; answers OK.
    pub fn config_rewrite(&self, _args: &[Vec<u8>]) -> (r: Result<RespValue, AikvError>)
        ensures
            crate::command::reply::models(r, ok_reply()),
    {
        Ok(RespValue::ok())
    }

    /// LASTSAVE: Unix time of the last save, in seconds.
    pub fn lastsave(&self, _args: &[Vec<u8>]) -> (r: Result<RespValue, AikvError>)
        ensures
            crate::command::reply::models(r, Reply::Int(self.spec_last_save() as i64 as int)),
    {
        Ok(RespValue::integer(self.last_save_time as i64))
    }

    /// Records `secs` (Unix seconds) as the time of the last save.
    pub fn set_last_save_time(&mut self, secs: u64)
        ensures
            final(self).spec_last_save() == secs,
            final(self).spec_config() == old(self).spec_config(),
            final(self).spec_clients() == old(self).spec_clients(),
    {
        self.last_save_time = secs;
    }

    /// SHUTDOWN [NOSAVE|SAVE] [NOW] [FORCE] [ABORT]: ABORT clears a pending
    /// shutdown and answers OK; otherwise the shutdown flag is set and the
    /// answer is the error that closes the connection.
    pub fn shutdown(&mut self, args: &[Vec<u8>]) -> (r: Result<RespValue, AikvError>)
        ensures
            shutdown_holds(*old(self), *final(self), args@, r),
    {
        let ghost opts = arg_views(args@).map_values(|a: Seq<u8>| option_of(a));
        let mut abort = false;
        let mut i: usize = 0;
        while i < args.len()
            invariant
                i <= args.len(),
                opts == arg_views(args@).map_values(|a: Seq<u8>| option_of(a)),
                opts.len() == args@.len(),
                first_unknown(opts.take(i as int)) is None,
                abort == opts.take(i as int).contains("ABORT"@),
            decreases args.len() - i,
        {
            let option = arg_option(&args[i]);
            let o = option.as_str();
            proof {
                assert(opts[i as int] == option@);
                assert(opts.take(i + 1).drop_last() =~= opts.take(i as int));
                assert(opts.take(i + 1).last() == option@);
            }
            if str_eq(o, "ABORT") {
                abort = true;
            } else if !(str_eq(o, "NOSAVE") || str_eq(o, "SAVE") || str_eq(o, "NOW") || str_eq(o, "FORCE")) {
                proof {
                    lemma_first_unknown_at(opts, i as int);
                }
                let mut msg = string_of("Unknown SHUTDOWN option: ");
                crate::text::push_str(&mut msg, o);
                return Err(AikvError::InvalidArgument(msg));
            }
            i = i + 1;
            proof {
                assert(opts.take(i as int).contains("ABORT"@) == (opts.take(i - 1).contains("ABORT"@) || opts[i - 1] == "ABORT"@)) by {
                    let p = opts.take(i - 1);
                    assert(opts.take(i as int) =~= p.push(opts[i - 1]));
                    if opts[i - 1] == "ABORT"@ {
                        assert(opts.take(i as int)[i - 1] == "ABORT"@);
                    }
                    if p.contains("ABORT"@) {
                        let k = choose|k: int| 0 <= k < p.len() && p[k] == "ABORT"@;
                        assert(opts.take(i as int)[k] == "ABORT"@);
                    }
                }
            }
        }
        proof {
            assert(opts.take(args.len() as int) =~= opts);
        }
        if abort {
            self.shutdown_requested = false;
            return Ok(RespValue::ok());
        }
        self.shutdown_requested = true;
        proof {
            reveal_strlit("Server is shutting down");
        }
        Err(AikvError::Storage(string_of("Server is shutting down")))
    }

    /// Whether a shutdown was requested.
    pub fn is_shutdown_requested(&self) -> (r: bool)
        ensures
            r == self.spec_shutdown(),
    {
        self.shutdown_requested
    }

    /// COMMAND [COUNT | INFO name ... | DOCS [name ...] | GETKEYS command
    /// arg ... | HELP] (see `command_spec`).
    #[verifier::rlimit(60)]
    #[verifier::spinoff_prover]
    pub fn command(&self, args: &[Vec<u8>]) -> (r: Result<RespValue, AikvError>)
        ensures
            crate::command::reply::models(r, command_spec(arg_views(args@))),
    {
        let table = get_command_table();
        proof {
            lemma_command_table_positions();
        }
        if args.len() == 0 {
            let mut result: Vec<RespValue> = Vec::new();
            let mut i: usize = 0;
            while i < table.len()
                invariant
                    i <= table@.len(),
                    table@ == command_table(),
                    result@.len() == i,
                    forall|j: int| 0 <= j < i ==> crate::command::reply::value_models(#[trigger] result@[j], info_reply(table@[j])),
                decreases table@.len() - i,
            {
                result.push(format_command_info(&table[i]));
                i = i + 1;
            }
            let r = RespValue::array(result);
            proof {
                assert(crate::command::reply::value_models(r, Reply::Array(command_table().map_values(|c: CommandInfo| info_reply(c)))));
            }
            return Ok(r);
        }
        let ghost av = arg_views(args@);
        proof {
            assert(av[0] == args@[0]@);
        }
        let subcommand = arg_option(&args[0]);
        let sub = subcommand.as_str();
        let rest = vstd::slice::slice_subrange(args, 1, args.len());
        proof {
            assert(arg_views(rest@) =~= av.drop_first());
        }
        if str_eq(sub, "COUNT") {
            Ok(RespValue::integer(table.len() as i64))
        } else if str_eq(sub, "INFO") {
            if rest.len() == 0 {
                return Err(arity_error("COMMAND INFO"));
            }
            let mut result: Vec<RespValue> = Vec::new();
            let mut i: usize = 0;
            while i < rest.len()
                invariant
                    i <= rest@.len(),
                    table@ == command_table(),
                    result@.len() == i,
                    forall|j: int| 0 <= j < i ==> crate::command::reply::value_models(#[trigger] result@[j], info_items(arg_views(rest@))[j]),
                decreases rest@.len() - i,
            {
                let name = arg_option(&rest[i]);
                proof {
                    assert(arg_views(rest@)[i as int] == rest@[i as int]@);
                }
                match find_command_index(&table, name.as_str()) {
                    Some(k) => {
                        result.push(format_command_info(&table[k]));
                    },
                    None => {
                        result.push(RespValue::null_bulk_string());
                    },
                }
                i = i + 1;
            }
            let r = RespValue::array(result);
            proof {
                assert(crate::command::reply::value_models(r, Reply::Array(info_items(arg_views(rest@)))));
            }
            Ok(r)
        } else if str_eq(sub, "DOCS") {
            let mut pairs: Vec<(RespValue, RespValue)> = Vec::new();
            let ghost want: Seq<(Reply, Reply)>;
            if rest.len() == 0 {
                let mut i: usize = 0;
                while i < table.len()
                    invariant
                        i <= table@.len(),
                        table@ == command_table(),
                        pairs@.len() == i,
                        forall|j: int| 0 <= j < i ==> crate::command::reply::value_models(#[trigger] pairs@[j].0, doc_pair(table@[j]).0)
                            && crate::command::reply::value_models(pairs@[j].1, doc_pair(table@[j]).1),
                    decreases table@.len() - i,
                {
                    pairs.push(format_command_doc(&table[i]));
                    i = i + 1;
                }
                proof {
                    want = command_table().map_values(|c: CommandInfo| doc_pair(c));
                    assert(pairs@.len() == want.len());
                    assert forall|j: int| 0 <= j < want.len() implies crate::command::reply::value_models(
                        #[trigger] pairs@[j].0,
                        want[j].0,
                    ) && crate::command::reply::value_models(pairs@[j].1, want[j].1) by {
                        assert(want[j] == doc_pair(table@[j]));
                    }
                }
            } else {
                let ghost rv = arg_views(rest@);
                let mut i: usize = 0;
                proof {
                    assert(rv.take(0) =~= Seq::<Seq<u8>>::empty());
                }
                while i < rest.len()
                    invariant
                        i <= rest@.len(),
                        rv == arg_views(rest@),
                        rv.len() == rest@.len(),
                        table@ == command_table(),
                        pairs@.len() == doc_items(rv.take(i as int)).len(),
                        forall|j: int| 0 <= j < pairs@.len() ==> crate::command::reply::value_models(#[trigger] pairs@[j].0, doc_items(rv.take(i as int))[j].0)
                            && crate::command::reply::value_models(pairs@[j].1, doc_items(rv.take(i as int))[j].1),
                    decreases rest@.len() - i,
                {
                    proof {
                        assert(rv.take(i + 1).drop_last() =~= rv.take(i as int));
                        assert(rv.take(i + 1).last() == rest@[i as int]@);
                    }
                    let name = arg_option(&rest[i]);
                    let ghost before = doc_items(rv.take(i as int));
                    match find_command_index(&table, name.as_str()) {
                        Some(k) => {
                            pairs.push(format_command_doc(&table[k]));
                            proof {
                                assert(doc_items(rv.take(i + 1)) == before.push(doc_pair(table@[k as int])));
                            }
                        },
                        None => {
                            proof {
                                assert(doc_items(rv.take(i + 1)) == before);
                            }
                        },
                    }
                    i = i + 1;
                }
                proof {
                    assert(rv.take(rest@.len() as int) =~= rv);
                    want = doc_items(rv);
                    assert(pairs@.len() == want.len());
                    assert forall|j: int| 0 <= j < want.len() implies crate::command::reply::value_models(
                        #[trigger] pairs@[j].0,
                        want[j].0,
                    ) && crate::command::reply::value_models(pairs@[j].1, want[j].1) by {}
                }
            }
            let r = RespValue::map(pairs);
            proof {
                assert(crate::command::reply::value_models(r, Reply::Dict(want)));
            }
            Ok(r)
        } else if str_eq(sub, "GETKEYS") {
            if rest.len() == 0 {
                return Err(arity_error("COMMAND GETKEYS"));
            }
            let cmd_name = arg_option(&rest[0]);
            proof {
                assert(arg_views(rest@)[0] == rest@[0]@);
            }
            match find_command_index(&table, cmd_name.as_str()) {
                None => {
                    let mut msg = string_of("Invalid command specified: ");
                    crate::text::push_str(&mut msg, cmd_name.as_str());
                    Err(AikvError::InvalidCommand(msg))
                },
                Some(k) => {
                    let info = table[k];
                    proof {
                        assert(command_table()[k as int] == info);
                    }
                    let cargs = vstd::slice::slice_subrange(rest, 1, rest.len());
                    let ghost ca = arg_views(cargs@);
                    proof {
                        assert(ca =~= arg_views(rest@).drop_first());
                    }
                    let mut keys: Vec<RespValue> = Vec::new();
                    let mut i: usize = 0;
                    while i < cargs.len()
                        invariant
                            i <= cargs@.len(),
                            ca == arg_views(cargs@),
                            ca.len() == cargs@.len(),
                            0 <= info.first_key <= 3,
                            -1 <= info.last_key <= 3,
                            0 <= info.step <= 2,
                            keys@.len() == picked_keys(ca, info, i as int).len(),
                            forall|j: int| 0 <= j < keys@.len() ==> crate::command::reply::value_models(#[trigger] keys@[j], Reply::Bulk(picked_keys(ca, info, i as int)[j])),
                        decreases cargs@.len() - i,
                    {
                        proof {
                            assert(ca[i as int] == cargs@[i as int]@);
                        }
                        if is_key_position(info.first_key, info.last_key, info.step, cargs.len(), i) {
                            keys.push(RespValue::bulk_string(crate::storage::copy_bytes(&cargs[i])));
                        }
                        i = i + 1;
                    }
                    let r = RespValue::array(keys);
                    proof {
                        let ks = picked_keys(ca, info, ca.len() as int);
                        assert(crate::command::reply::value_models(r, Reply::Array(ks.map_values(|a: Seq<u8>| Reply::Bulk(a)))));
                    }
                    Ok(r)
                },
            }
        } else if str_eq(sub, "HELP") {
            let mut lines: Vec<RespValue> = Vec::new();
            lines.push(bulk_of("COMMAND - Return information about all commands"));
            lines.push(bulk_of("COMMAND COUNT - Return the total number of commands"));
            lines.push(bulk_of("COMMAND INFO <command-name> [<command-name> ...] - Return details about command(s)"));
            lines.push(bulk_of("COMMAND DOCS [<command-name> ...] - Return documentation for command(s)"));
            lines.push(bulk_of("COMMAND GETKEYS <command> [<arg> ...] - Extract keys from a full command"));
            lines.push(bulk_of("COMMAND HELP - Show this help"));
            let r = RespValue::array(lines);
            proof {
                assert(crate::command::reply::value_models(r, Reply::Array(command_help_lines().map_values(|l: Seq<char>| bulk_text(l)))));
            }
            Ok(r)
        } else {
            let mut msg = string_of("Unknown COMMAND subcommand: ");
            crate::text::push_str(&mut msg, sub);
            Err(AikvError::InvalidCommand(msg))
        }
    }

    /// SLOWLOG GET [count] | LEN | RESET | HELP
    pub fn slowlog(&mut self, args: &[Vec<u8>]) -> (r: Result<RespValue, AikvError>)
        ensures
            slowlog_holds(*old(self), *final(self), args@, r),
    {
        if args.len() == 0 {
            return Err(arity_error("SLOWLOG"));
        }
        let subcommand = arg_option(&args[0]);
        let sub = subcommand.as_str();
        if str_eq(sub, "GET") {
            let count: usize = if args.len() > 1 {
                match arg_usize(&args[1]) {
                    Some(c) => c,
                    None => 10,
                }
            } else {
                10
            };
            let entries = self.slow_query_log.get(count);
            let mut result: Vec<RespValue> = Vec::new();
            let mut i: usize = 0;
            while i < entries.len()
                invariant
                    i <= entries@.len(),
                    result@.len() == i,
                    entries@.len() <= self.slow_query_log@.len(),
                    forall|j: int| 0 <= j < entries@.len() ==> crate::observability::logging::same_entry(#[trigger] entries@[j], self.slow_query_log@[j]),
                    forall|j: int| 0 <= j < i ==> crate::command::reply::value_models(#[trigger] result@[j], slowlog_entry_reply(self.slow_query_log@[j])),
                decreases entries@.len() - i,
            {
                result.push(slowlog_entry(&entries[i]));
                proof {
                    assert(crate::observability::logging::same_entry(entries@[i as int], self.slow_query_log@[i as int]));
                    lemma_slowlog_reply_same(entries@[i as int], self.slow_query_log@[i as int]);
                }
                i = i + 1;
            }
            Ok(RespValue::array(result))
        } else if str_eq(sub, "LEN") {
            Ok(RespValue::integer(self.slow_query_log.len() as i64))
        } else if str_eq(sub, "RESET") {
            self.slow_query_log.reset();
            Ok(RespValue::ok())
        } else if str_eq(sub, "HELP") {
            let mut lines: Vec<RespValue> = Vec::new();
            lines.push(bulk_of("SLOWLOG GET [count] - Get the slow log entries"));
            lines.push(bulk_of("SLOWLOG LEN - Get the slow log length"));
            lines.push(bulk_of("SLOWLOG RESET - Reset the slow log"));
            lines.push(bulk_of("SLOWLOG HELP - Show this help"));
            let r = RespValue::array(lines);
            proof {
                assert(crate::command::reply::value_models(r, Reply::Array(slowlog_help_lines().map_values(|l: Seq<char>| bulk_text(l)))));
            }
            Ok(r)
        } else {
            let mut msg = string_of("Unknown SLOWLOG subcommand: ");
            crate::text::push_str(&mut msg, sub);
            Err(AikvError::InvalidCommand(msg))
        }
    }
}

} // verus!

verus! {

/// What INFO reports of the machine and the process.
#[derive(Debug, Clone)]
pub struct HostInfo {
    /// Operating system name.
    pub os: String,
    /// Operating system family.
    pub family: String,
    /// CPU architecture.
    pub arch: String,
    /// Width of a pointer in bits.
    pub pointer_width: u32,
    /// Id of this process.
    pub process_id: u32,
}

/// `s` without its `.` characters.
pub open spec fn without_dots(s: Seq<char>) -> Seq<char>
    decreases s.len(),
{
    if s.len() == 0 {
        Seq::empty()
    } else {
        let p = without_dots(s.drop_last());
        if s.last() == '.' {
            p
        } else {
            p.push(s.last())
        }
    }
}

/// `s` without its `.` characters.
fn remove_dots(s: &str) -> (r: String)
    ensures
        r@ == without_dots(s@),
{
    let mut r = String::new();
    let n = s.unicode_len();
    let mut i: usize = 0;
    while i < n
        invariant
            i <= n,
            n == s@.len(),
            r@ == without_dots(s@.take(i as int)),
        decreases n - i,
    {
        let c = s.get_char(i);
        proof {
            assert(s@.take(i + 1).drop_last() =~= s@.take(i as int));
        }
        if c != '.' {
            crate::text::push_char(&mut r, c);
        }
        i = i + 1;
    }
    proof {
        assert(s@.take(n as int) =~= s@);
    }
    r
}

/// The Server section of INFO.
pub open spec fn server_section(
    port: u16,
    cluster_enabled: bool,
    run_id: Seq<char>,
    host: HostInfo,
    uptime: u64,
) -> Seq<Seq<char>> {
    seq![
        "# Server"@,
        "redis_version:"@ + REDIS_COMPAT_VERSION@,
        "redis_git_sha1:00000000"@,
        "redis_git_dirty:0"@,
        "redis_build_id:aikv"@ + without_dots(AIKV_VERSION@),
        "redis_mode:"@ + if cluster_enabled {
            "cluster"@
        } else {
            "standalone"@
        },
        "os:"@ + host.os@ + " "@ + host.family@ + " "@ + host.arch@,
        "arch_bits:"@ + crate::text::decimal_spec(host.pointer_width as nat),
        "multiplexing_api:tokio"@,
        "process_id:"@ + crate::text::decimal_spec(host.process_id as nat),
        "run_id:"@ + run_id,
        "tcp_port:"@ + crate::text::decimal_spec(port as nat),
        "uptime_in_seconds:"@ + crate::text::decimal_spec(uptime as nat),
        "uptime_in_days:"@ + crate::text::decimal_spec((uptime / 86400) as nat),
        "hz:10"@,
        "configured_hz:10"@,
        "lru_clock:0"@,
        "executable:aikv"@,
        "config_file:"@,
        "io_threads_active:0"@,
        "aikv_version:"@ + AIKV_VERSION@,
    ]
}

/// The Clients section of INFO.
pub open spec fn clients_section(connected: nat) -> Seq<Seq<char>> {
    seq![
        "# Clients"@,
        "connected_clients:"@ + crate::text::decimal_spec(connected),
        "cluster_connections:0"@,
        "maxclients:10000"@,
        "client_recent_max_input_buffer:0"@,
        "client_recent_max_output_buffer:0"@,
        "blocked_clients:0"@,
        "tracking_clients:0"@,
        "clients_in_timeout_table:0"@,
    ]
}

/// The Modules section of INFO.
pub open spec fn modules_section() -> Seq<Seq<char>> {
    seq!["# Modules"@]
}

/// The Errorstats section of INFO.
pub open spec fn errorstats_section() -> Seq<Seq<char>> {
    seq!["# Errorstats"@]
}

/// The Cluster section of INFO: cluster support is built in.
pub open spec fn cluster_section() -> Seq<Seq<char>> {
    seq!["# Cluster"@, "cluster_enabled:1"@]
}

/// The Keyspace section of INFO.
pub open spec fn keyspace_section() -> Seq<Seq<char>> {
    seq!["# Keyspace"@]
}

/// The Memory section of INFO.
pub open spec fn memory_section() -> Seq<Seq<char>> {
    seq![
        "# Memory"@,
        "used_memory:1024000"@,
        "used_memory_human:1000.00K"@,
        "used_memory_rss:2048000"@,
        "used_memory_rss_human:2.00M"@,
        "used_memory_peak:1024000"@,
        "used_memory_peak_human:1000.00K"@,
        "used_memory_peak_perc:100.00%"@,
        "used_memory_overhead:1000000"@,
        "used_memory_startup:1000000"@,
        "used_memory_dataset:24000"@,
        "used_memory_dataset_perc:0.00%"@,
        "allocator_allocated:1024000"@,
        "allocator_active:2048000"@,
        "allocator_resident:2048000"@,
        "total_system_memory:8589934592"@,
        "total_system_memory_human:8.00G"@,
        "used_memory_lua:31744"@,
        "used_memory_lua_human:31.00K"@,
        "used_memory_scripts:0"@,
        "used_memory_scripts_human:0B"@,
        "maxmemory:0"@,
        "maxmemory_human:0B"@,
        "maxmemory_policy:noeviction"@,
        "allocator_frag_ratio:1.00"@,
        "allocator_frag_bytes:0"@,
        "allocator_rss_ratio:1.00"@,
        "allocator_rss_bytes:0"@,
        "rss_overhead_ratio:1.00"@,
        "rss_overhead_bytes:0"@,
        "mem_fragmentation_ratio:2.00"@,
        "mem_fragmentation_bytes:1024000"@,
        "mem_not_counted_for_evict:0"@,
        "mem_replication_backlog:0"@,
        "mem_clients_slaves:0"@,
        "mem_clients_normal:0"@,
        "mem_aof_buffer:0"@,
        "mem_allocator:jemalloc-5.3.0"@,
        "active_defrag_running:0"@,
        "lazyfree_pending_objects:0"@,
        "lazyfreed_objects:0"@,
    ]
}

/// The Stats section of INFO.
pub open spec fn stats_section() -> Seq<Seq<char>> {
    seq![
        "# Stats"@,
        "total_connections_received:1"@,
        "total_commands_processed:1"@,
        "instantaneous_ops_per_sec:0"@,
        "total_net_input_bytes:0"@,
        "total_net_output_bytes:0"@,
        "instantaneous_input_kbps:0.00"@,
        "instantaneous_output_kbps:0.00"@,
        "rejected_connections:0"@,
        "sync_full:0"@,
        "sync_partial_ok:0"@,
        "sync_partial_err:0"@,
        "expired_keys:0"@,
        "expired_stale_perc:0.00"@,
        "expired_time_cap_reached_count:0"@,
        "expire_cycle_cpu_milliseconds:0"@,
        "evicted_keys:0"@,
        "keyspace_hits:0"@,
        "keyspace_misses:0"@,
        "pubsub_channels:0"@,
        "pubsub_patterns:0"@,
        "latest_fork_usec:0"@,
        "total_forks:0"@,
        "migrate_cached_sockets:0"@,
        "slave_expires_tracked_keys:0"@,
        "active_defrag_hits:0"@,
        "active_defrag_misses:0"@,
        "active_defrag_key_hits:0"@,
        "active_defrag_key_misses:0"@,
        "tracking_total_keys:0"@,
        "tracking_total_items:0"@,
        "tracking_total_prefixes:0"@,
        "unexpected_error_replies:0"@,
        "total_error_replies:0"@,
        "dump_payload_sanitizations:0"@,
        "total_reads_processed:1"@,
        "total_writes_processed:1"@,
        "io_threaded_reads_processed:0"@,
        "io_threaded_writes_processed:0"@,
    ]
}

/// The Replication section of INFO.
pub open spec fn replication_section() -> Seq<Seq<char>> {
    seq![
        "# Replication"@,
        "role:master"@,
        "connected_slaves:0"@,
        "master_failover_state:no-failover"@,
        "master_replid:0000000000000000000000000000000000000000"@,
        "master_replid2:0000000000000000000000000000000000000000"@,
        "master_repl_offset:0"@,
        "second_repl_offset:-1"@,
        "repl_backlog_active:0"@,
        "repl_backlog_size:1048576"@,
        "repl_backlog_first_byte_offset:0"@,
        "repl_backlog_histlen:0"@,
    ]
}

/// The Cpu section of INFO.
pub open spec fn cpu_section() -> Seq<Seq<char>> {
    seq![
        "# CPU"@,
        "used_cpu_sys:0.000000"@,
        "used_cpu_user:0.000000"@,
        "used_cpu_sys_children:0.000000"@,
        "used_cpu_user_children:0.000000"@,
        "used_cpu_sys_main_thread:0.000000"@,
        "used_cpu_user_main_thread:0.000000"@,
    ]
}

/// The Persistence section of INFO.
pub open spec fn persistence_section() -> Seq<Seq<char>> {
    seq![
        "# Persistence"@,
        "loading:0"@,
        "current_cow_size:0"@,
        "current_cow_size_age:0"@,
        "current_fork_perc:0.00"@,
        "current_save_keys_processed:0"@,
        "current_save_keys_total:0"@,
        "rdb_changes_since_last_save:0"@,
        "rdb_bgsave_in_progress:0"@,
        "rdb_last_save_time:0"@,
        "rdb_last_bgsave_status:ok"@,
        "rdb_last_bgsave_time_sec:-1"@,
        "rdb_current_bgsave_time_sec:-1"@,
        "rdb_last_cow_size:0"@,
        "aof_enabled:0"@,
        "aof_rewrite_in_progress:0"@,
        "aof_rewrite_scheduled:0"@,
        "aof_last_rewrite_time_sec:-1"@,
        "aof_current_rewrite_time_sec:-1"@,
        "aof_last_bgrewrite_status:ok"@,
        "aof_last_write_status:ok"@,
        "aof_last_cow_size:0"@,
        "module_fork_in_progress:0"@,
        "module_fork_last_cow_size:0"@,
    ]
}

/// The Memory section of INFO.
fn build_memory_info() -> (r: Vec<String>)
    ensures
        views(r@) == memory_section(),
{
    let mut r: Vec<String> = Vec::new();
    r.push(string_of("# Memory"));
    r.push(string_of("used_memory:1024000"));
    r.push(string_of("used_memory_human:1000.00K"));
    r.push(string_of("used_memory_rss:2048000"));
    r.push(string_of("used_memory_rss_human:2.00M"));
    r.push(string_of("used_memory_peak:1024000"));
    r.push(string_of("used_memory_peak_human:1000.00K"));
    r.push(string_of("used_memory_peak_perc:100.00%"));
    r.push(string_of("used_memory_overhead:1000000"));
    r.push(string_of("used_memory_startup:1000000"));
    r.push(string_of("used_memory_dataset:24000"));
    r.push(string_of("used_memory_dataset_perc:0.00%"));
    r.push(string_of("allocator_allocated:1024000"));
    r.push(string_of("allocator_active:2048000"));
    r.push(string_of("allocator_resident:2048000"));
    r.push(string_of("total_system_memory:8589934592"));
    r.push(string_of("total_system_memory_human:8.00G"));
    r.push(string_of("used_memory_lua:31744"));
    r.push(string_of("used_memory_lua_human:31.00K"));
    r.push(string_of("used_memory_scripts:0"));
    r.push(string_of("used_memory_scripts_human:0B"));
    r.push(string_of("maxmemory:0"));
    r.push(string_of("maxmemory_human:0B"));
    r.push(string_of("maxmemory_policy:noeviction"));
    r.push(string_of("allocator_frag_ratio:1.00"));
    r.push(string_of("allocator_frag_bytes:0"));
    r.push(string_of("allocator_rss_ratio:1.00"));
    r.push(string_of("allocator_rss_bytes:0"));
    r.push(string_of("rss_overhead_ratio:1.00"));
    r.push(string_of("rss_overhead_bytes:0"));
    r.push(string_of("mem_fragmentation_ratio:2.00"));
    r.push(string_of("mem_fragmentation_bytes:1024000"));
    r.push(string_of("mem_not_counted_for_evict:0"));
    r.push(string_of("mem_replication_backlog:0"));
    r.push(string_of("mem_clients_slaves:0"));
    r.push(string_of("mem_clients_normal:0"));
    r.push(string_of("mem_aof_buffer:0"));
    r.push(string_of("mem_allocator:jemalloc-5.3.0"));
    r.push(string_of("active_defrag_running:0"));
    r.push(string_of("lazyfree_pending_objects:0"));
    r.push(string_of("lazyfreed_objects:0"));
    proof {
        assert(views(r@) =~= memory_section());
    }
    r
}

/// The Stats section of INFO.
fn build_stats_info() -> (r: Vec<String>)
    ensures
        views(r@) == stats_section(),
{
    let mut r: Vec<String> = Vec::new();
    r.push(string_of("# Stats"));
    r.push(string_of("total_connections_received:1"));
    r.push(string_of("total_commands_processed:1"));
    r.push(string_of("instantaneous_ops_per_sec:0"));
    r.push(string_of("total_net_input_bytes:0"));
    r.push(string_of("total_net_output_bytes:0"));
    r.push(string_of("instantaneous_input_kbps:0.00"));
    r.push(string_of("instantaneous_output_kbps:0.00"));
    r.push(string_of("rejected_connections:0"));
    r.push(string_of("sync_full:0"));
    r.push(string_of("sync_partial_ok:0"));
    r.push(string_of("sync_partial_err:0"));
    r.push(string_of("expired_keys:0"));
    r.push(string_of("expired_stale_perc:0.00"));
    r.push(string_of("expired_time_cap_reached_count:0"));
    r.push(string_of("expire_cycle_cpu_milliseconds:0"));
    r.push(string_of("evicted_keys:0"));
    r.push(string_of("keyspace_hits:0"));
    r.push(string_of("keyspace_misses:0"));
    r.push(string_of("pubsub_channels:0"));
    r.push(string_of("pubsub_patterns:0"));
    r.push(string_of("latest_fork_usec:0"));
    r.push(string_of("total_forks:0"));
    r.push(string_of("migrate_cached_sockets:0"));
    r.push(string_of("slave_expires_tracked_keys:0"));
    r.push(string_of("active_defrag_hits:0"));
    r.push(string_of("active_defrag_misses:0"));
    r.push(string_of("active_defrag_key_hits:0"));
    r.push(string_of("active_defrag_key_misses:0"));
    r.push(string_of("tracking_total_keys:0"));
    r.push(string_of("tracking_total_items:0"));
    r.push(string_of("tracking_total_prefixes:0"));
    r.push(string_of("unexpected_error_replies:0"));
    r.push(string_of("total_error_replies:0"));
    r.push(string_of("dump_payload_sanitizations:0"));
    r.push(string_of("total_reads_processed:1"));
    r.push(string_of("total_writes_processed:1"));
    r.push(string_of("io_threaded_reads_processed:0"));
    r.push(string_of("io_threaded_writes_processed:0"));
    proof {
        assert(views(r@) =~= stats_section());
    }
    r
}

/// The Replication section of INFO.
fn build_replication_info() -> (r: Vec<String>)
    ensures
        views(r@) == replication_section(),
{
    let mut r: Vec<String> = Vec::new();
    r.push(string_of("# Replication"));
    r.push(string_of("role:master"));
    r.push(string_of("connected_slaves:0"));
    r.push(string_of("master_failover_state:no-failover"));
    r.push(string_of("master_replid:0000000000000000000000000000000000000000"));
    r.push(string_of("master_replid2:0000000000000000000000000000000000000000"));
    r.push(string_of("master_repl_offset:0"));
    r.push(string_of("second_repl_offset:-1"));
    r.push(string_of("repl_backlog_active:0"));
    r.push(string_of("repl_backlog_size:1048576"));
    r.push(string_of("repl_backlog_first_byte_offset:0"));
    r.push(string_of("repl_backlog_histlen:0"));
    proof {
        assert(views(r@) =~= replication_section());
    }
    r
}

/// The Cpu section of INFO.
fn build_cpu_info() -> (r: Vec<String>)
    ensures
        views(r@) == cpu_section(),
{
    let mut r: Vec<String> = Vec::new();
    r.push(string_of("# CPU"));
    r.push(string_of("used_cpu_sys:0.000000"));
    r.push(string_of("used_cpu_user:0.000000"));
    r.push(string_of("used_cpu_sys_children:0.000000"));
    r.push(string_of("used_cpu_user_children:0.000000"));
    r.push(string_of("used_cpu_sys_main_thread:0.000000"));
    r.push(string_of("used_cpu_user_main_thread:0.000000"));
    proof {
        assert(views(r@) =~= cpu_section());
    }
    r
}

/// The Persistence section of INFO.
fn build_persistence_info() -> (r: Vec<String>)
    ensures
        views(r@) == persistence_section(),
{
    let mut r: Vec<String> = Vec::new();
    r.push(string_of("# Persistence"));
    r.push(string_of("loading:0"));
    r.push(string_of("current_cow_size:0"));
    r.push(string_of("current_cow_size_age:0"));
    r.push(string_of("current_fork_perc:0.00"));
    r.push(string_of("current_save_keys_processed:0"));
    r.push(string_of("current_save_keys_total:0"));
    r.push(string_of("rdb_changes_since_last_save:0"));
    r.push(string_of("rdb_bgsave_in_progress:0"));
    r.push(string_of("rdb_last_save_time:0"));
    r.push(string_of("rdb_last_bgsave_status:ok"));
    r.push(string_of("rdb_last_bgsave_time_sec:-1"));
    r.push(string_of("rdb_current_bgsave_time_sec:-1"));
    r.push(string_of("rdb_last_cow_size:0"));
    r.push(string_of("aof_enabled:0"));
    r.push(string_of("aof_rewrite_in_progress:0"));
    r.push(string_of("aof_rewrite_scheduled:0"));
    r.push(string_of("aof_last_rewrite_time_sec:-1"));
    r.push(string_of("aof_current_rewrite_time_sec:-1"));
    r.push(string_of("aof_last_bgrewrite_status:ok"));
    r.push(string_of("aof_last_write_status:ok"));
    r.push(string_of("aof_last_cow_size:0"));
    r.push(string_of("module_fork_in_progress:0"));
    r.push(string_of("module_fork_last_cow_size:0"));
    proof {
        assert(views(r@) =~= persistence_section());
    }
    r
}

/// A line made of a label and a value.
fn labelled(label: &str, value: &str) -> (r: String)
    ensures
        r@ == label@ + value@,
{
    let mut s = string_of(label);
    crate::text::push_str(&mut s, value);
    s
}

/// The Modules section of INFO.
fn build_modules_info() -> (r: Vec<String>)
    ensures
        views(r@) == modules_section(),
{
    let r = vec![string_of("# Modules")];
    proof {
        assert(views(r@) =~= modules_section());
    }
    r
}

/// The Errorstats section of INFO.
fn build_errorstats_info() -> (r: Vec<String>)
    ensures
        views(r@) == errorstats_section(),
{
    let r = vec![string_of("# Errorstats")];
    proof {
        assert(views(r@) =~= errorstats_section());
    }
    r
}

/// The Cluster section of INFO.
fn build_cluster_info() -> (r: Vec<String>)
    ensures
        views(r@) == cluster_section(),
{
    let r = vec![string_of("# Cluster"), string_of("cluster_enabled:1")];
    proof {
        assert(views(r@) =~= cluster_section());
    }
    r
}

/// The Keyspace section of INFO.
fn build_keyspace_info() -> (r: Vec<String>)
    ensures
        views(r@) == keyspace_section(),
{
    let r = vec![string_of("# Keyspace")];
    proof {
        assert(views(r@) =~= keyspace_section());
    }
    r
}

/// The Clients section of INFO.
fn build_clients_info(connected: usize) -> (r: Vec<String>)
    ensures
        views(r@) == clients_section(connected as nat),
{
    let mut r: Vec<String> = Vec::new();
    r.push(string_of("# Clients"));
    r.push(labelled("connected_clients:", crate::text::u64_to_decimal(connected as u64).as_str()));
    r.push(string_of("cluster_connections:0"));
    r.push(string_of("maxclients:10000"));
    r.push(string_of("client_recent_max_input_buffer:0"));
    r.push(string_of("client_recent_max_output_buffer:0"));
    r.push(string_of("blocked_clients:0"));
    r.push(string_of("tracking_clients:0"));
    r.push(string_of("clients_in_timeout_table:0"));
    proof {
        assert(views(r@) =~= clients_section(connected as nat));
    }
    r
}

/// Appends the lines of `b` to `a`, with an empty line first when `gap`.
fn append_lines(a: &mut Vec<String>, b: Vec<String>, gap: bool)
    ensures
        views(final(a)@) == views(old(a)@) + (if gap {
            seq![""@]
        } else {
            Seq::empty()
        }) + views(b@),
{
    if gap {
        a.push(string_of(""));
    }
    let ghost mid = views(a@);
    let mut i: usize = 0;
    while i < b.len()
        invariant
            i <= b@.len(),
            views(a@) == mid + views(b@).take(i as int),
        decreases b@.len() - i,
    {
        let ghost before = views(a@);
        let line = b[i].clone();
        proof {
            assert(line@ == b@[i as int]@);
        }
        a.push(line);
        proof {
            assert(views(a@) =~= before.push(b@[i as int]@));
            assert(views(b@).take(i + 1) =~= views(b@).take(i as int).push(b@[i as int]@));
        }
        i = i + 1;
    }
    proof {
        assert(views(b@).take(b@.len() as int) =~= views(b@));
        assert(views(a@) =~= views(old(a)@) + (if gap {
            seq![""@]
        } else {
            Seq::<Seq<char>>::empty()
        }) + views(b@));
    }
}

/// The sections that INFO reports for `section` (already lower-cased), in
/// order, an empty line between two; nothing for an unknown section.
pub open spec fn info_lines(section: Seq<char>, server: Seq<Seq<char>>, clients: Seq<Seq<char>>) -> Seq<Seq<char>> {
    let gap = seq![""@];
    if section == "default"@ {
        server + gap + clients + gap + memory_section() + gap + persistence_section() + gap + stats_section() + gap
            + replication_section() + gap + cpu_section() + gap + cluster_section() + gap + keyspace_section()
    } else if section == "server"@ {
        server
    } else if section == "clients"@ {
        clients
    } else if section == "memory"@ {
        memory_section()
    } else if section == "stats"@ {
        stats_section()
    } else if section == "replication"@ {
        replication_section()
    } else if section == "cpu"@ {
        cpu_section()
    } else if section == "modules"@ {
        modules_section()
    } else if section == "errorstats"@ {
        errorstats_section()
    } else if section == "cluster"@ {
        cluster_section()
    } else if section == "keyspace"@ {
        keyspace_section()
    } else if section == "persistence"@ {
        persistence_section()
    } else if section == "all"@ || section == "everything"@ {
        server + gap + clients + gap + memory_section() + gap + persistence_section() + gap + stats_section() + gap
            + replication_section() + gap + cpu_section() + gap + modules_section() + gap + errorstats_section() + gap
            + cluster_section() + gap + keyspace_section()
    } else {
        Seq::empty()
    }
}

} // verus!

verus! {

/// The section that INFO's arguments name ("default" when none).
pub open spec fn info_section_name(args: Seq<Seq<u8>>) -> Seq<char> {
    if args.len() == 0 {
        "default"@
    } else {
        key_of(args[0])
    }
}

impl ServerCommands {
    /// The Server section of INFO.
    fn build_server_info(&self, host: &HostInfo, uptime: u64) -> (r: Vec<String>)
        ensures
            views(r@) == server_section(self.spec_port(), self.spec_cluster_enabled(), self.spec_run_id(), *host, uptime),
    {
        let mut r: Vec<String> = Vec::new();
        r.push(string_of("# Server"));
        r.push(labelled("redis_version:", REDIS_COMPAT_VERSION));
        r.push(string_of("redis_git_sha1:00000000"));
        r.push(string_of("redis_git_dirty:0"));
        r.push(labelled("redis_build_id:aikv", remove_dots(AIKV_VERSION).as_str()));
        r.push(labelled(
            "redis_mode:",
            if self.cluster_enabled {
                "cluster"
            } else {
                "standalone"
            },
        ));
        let mut os = string_of("os:");
        crate::text::push_str(&mut os, host.os.as_str());
        crate::text::push_str(&mut os, " ");
        crate::text::push_str(&mut os, host.family.as_str());
        crate::text::push_str(&mut os, " ");
        crate::text::push_str(&mut os, host.arch.as_str());
        r.push(os);
        r.push(labelled("arch_bits:", crate::text::u64_to_decimal(host.pointer_width as u64).as_str()));
        r.push(string_of("multiplexing_api:tokio"));
        r.push(labelled("process_id:", crate::text::u64_to_decimal(host.process_id as u64).as_str()));
        r.push(labelled("run_id:", self.run_id.as_str()));
        r.push(labelled("tcp_port:", crate::text::u64_to_decimal(self.tcp_port as u64).as_str()));
        r.push(labelled("uptime_in_seconds:", crate::text::u64_to_decimal(uptime).as_str()));
        r.push(labelled("uptime_in_days:", crate::text::u64_to_decimal(uptime / 86400).as_str()));
        r.push(string_of("hz:10"));
        r.push(string_of("configured_hz:10"));
        r.push(string_of("lru_clock:0"));
        r.push(string_of("executable:aikv"));
        r.push(string_of("config_file:"));
        r.push(string_of("io_threads_active:0"));
        r.push(labelled("aikv_version:", AIKV_VERSION));
        proof {
            assert(views(r@) =~= server_section(self.tcp_port, self.cluster_enabled, self.run_id@, *host, uptime));
        }
        r
    }

    /// Every section INFO reports by default, plus Modules and Errorstats
    /// when `everything`, an empty line between two.
    fn all_sections(&self, host: &HostInfo, uptime: u64, everything: bool) -> (r: Vec<String>)
        ensures
            views(r@) == ({
                let gap = seq![""@];
                let server = server_section(self.spec_port(), self.spec_cluster_enabled(), self.spec_run_id(), *host, uptime);
                let clients = clients_section(self.spec_clients().len());
                if everything {
                    server + gap + clients + gap + memory_section() + gap + persistence_section() + gap + stats_section()
                        + gap + replication_section() + gap + cpu_section() + gap + modules_section() + gap
                        + errorstats_section() + gap + cluster_section() + gap + keyspace_section()
                } else {
                    server + gap + clients + gap + memory_section() + gap + persistence_section() + gap + stats_section()
                        + gap + replication_section() + gap + cpu_section() + gap + cluster_section() + gap
                        + keyspace_section()
                }
            }),
    {
        let mut lines: Vec<String> = Vec::new();
        append_lines(&mut lines, self.build_server_info(host, uptime), false);
        append_lines(&mut lines, build_clients_info(self.clients.len()), true);
        append_lines(&mut lines, build_memory_info(), true);
        append_lines(&mut lines, build_persistence_info(), true);
        append_lines(&mut lines, build_stats_info(), true);
        append_lines(&mut lines, build_replication_info(), true);
        append_lines(&mut lines, build_cpu_info(), true);
        if everything {
            append_lines(&mut lines, build_modules_info(), true);
            append_lines(&mut lines, build_errorstats_info(), true);
        }
        append_lines(&mut lines, build_cluster_info(), true);
        append_lines(&mut lines, build_keyspace_info(), true);
        proof {
            assert(Seq::<Seq<char>>::empty() + Seq::<Seq<char>>::empty() =~= Seq::<Seq<char>>::empty());
        }
        lines
    }

    /// Seconds since the handler was made (std's `Instant::elapsed`): the
    /// whole seconds of the elapsed time, which depends on the clock.
    fn uptime_seconds(&self) -> (r: u64)
        ensures
            exists|d: Duration| r == #[trigger] whole_seconds(d),
    {
        let d = crate::observability::logging::instant_elapsed(&self.start_time);
        let ms = crate::cluster::config::duration_as_millis(&d);
        let r = (ms / 1000) as u64;
        proof {
            assert(r == whole_seconds(d));
        }
        r
    }

    /// INFO with the given uptime (see `info_lines`): the lines joined by
    /// CRLF in a bulk string.
    pub fn info_at(&self, args: &[Vec<u8>], host: &HostInfo, uptime: u64) -> (r: Result<RespValue, AikvError>)
        ensures
            crate::command::reply::models(
                r,
                bulk_text(
                    crate::text::join_spec(
                        info_lines(
                            spec_to_lowercase(info_section_name(arg_views(args@))),
                            server_section(self.spec_port(), self.spec_cluster_enabled(), self.spec_run_id(), *host, uptime),
                            clients_section(self.spec_clients().len()),
                        ),
                        "\r\n"@,
                    ),
                ),
            ),
    {
        let section = if args.len() == 0 {
            string_of("default")
        } else {
            arg_text(&args[0])
        };
        proof {
            if args@.len() > 0 {
                assert(arg_views(args@)[0] == args@[0]@);
            }
        }
        let lower = to_lowercase(section.as_str());
        let l = lower.as_str();
        let mut lines: Vec<String> = Vec::new();
        let ghost server = server_section(self.tcp_port, self.cluster_enabled, self.run_id@, *host, uptime);
        let ghost clients = clients_section(self.clients@.len());
        if str_eq(l, "default") {
            lines = self.all_sections(host, uptime, false);
        } else if str_eq(l, "server") {
            lines = self.build_server_info(host, uptime);
        } else if str_eq(l, "clients") {
            lines = build_clients_info(self.clients.len());
        } else if str_eq(l, "memory") {
            lines = build_memory_info();
        } else if str_eq(l, "stats") {
            lines = build_stats_info();
        } else if str_eq(l, "replication") {
            lines = build_replication_info();
        } else if str_eq(l, "cpu") {
            lines = build_cpu_info();
        } else if str_eq(l, "modules") {
            lines = build_modules_info();
        } else if str_eq(l, "errorstats") {
            lines = build_errorstats_info();
        } else if str_eq(l, "cluster") {
            lines = build_cluster_info();
        } else if str_eq(l, "keyspace") {
            lines = build_keyspace_info();
        } else if str_eq(l, "persistence") {
            lines = build_persistence_info();
        } else if str_eq(l, "all") || str_eq(l, "everything") {
            lines = self.all_sections(host, uptime, true);
        }
        proof {
            assert(views(lines@) =~= info_lines(lower@, server, clients));
        }
        let text = crate::text::join_strings(&lines, "\r\n");
        Ok(bulk_of(text.as_str()))
    }

    /// INFO [section]: the named section of server information (the
    /// default sections when none is named), at the current uptime.
    pub fn info(&self, args: &[Vec<u8>], host: &HostInfo) -> (r: Result<RespValue, AikvError>)
        ensures
            info_holds(*self, *host, args@, r),
    {
        let uptime = self.uptime_seconds();
        self.info_at(args, host, uptime)
    }
}

impl Default for ServerCommands {
    fn default() -> (r: Self)
        ensures
            r.spec_port() == 6379,
            !r.spec_cluster_enabled(),
    {
        Self::new()
    }
}

} // verus!
