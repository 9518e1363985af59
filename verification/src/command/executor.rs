//! The command executor: routes a command by name to the handler that
//! serves it, against one keyspace shared by all handlers.
use crate::command::database::{
    dbsize_spec, flushall_spec, flushdb_spec, move_spec, select_spec, swapdb_spec, DatabaseCommands,
};
use crate::command::key::{
    copy_spec, expire_spec, keys_spec, migrate_spec, persist_spec, randomkey_holds, rename_spec, scan_spec, ttl_spec,
    type_spec, ExpireKind, KeyCommands,
};
use crate::command::reply::{
    arg_option, arg_views, arity_error, int_arg, invalid_error, lemma_arg_views, models, option_of, outcome_holds,
    text_bytes, usize_arg, Failure, Reply,
};
use crate::command::hash::{
    hdel_spec, hexists_spec, hget_spec, hgetall_spec, hincrby_spec, hkeys_spec, hlen_spec, hmget_spec, hset_spec,
    hscan_spec, hsetnx_spec, hvals_spec, HashCommands,
};
use crate::command::list::{
    copy_range_of, linsert_spec, lindex_spec, llen_spec, lmove_spec, lrange_spec, lrem_spec, lset_spec, ltrim_spec,
    pop_spec, push_spec, ListCommands,
};
use crate::command::script::{script_step, ScriptCache};
use crate::command::server::{
    client_getname_holds, client_list_holds, client_setname_holds, command_spec, config_get_holds, config_set_holds,
    info_holds, shutdown_holds, slowlog_holds, time_holds, HostInfo, ServerCommands,
};
use crate::command::set::{
    combine_spec, sadd_spec, scard_spec, sismember_spec, smembers_spec, smove_spec, spop_spec, srandmember_spec,
    srem_spec, sscan_spec, SetCommands,
};
use crate::command::string::{
    append_spec, decr_cmd_spec, del_spec, exists_spec, get_spec, getdel_spec, getex_spec, getrange_spec,
    incr_cmd_spec, incrby_cmd_spec, mget_spec, mset_spec, set_spec, setex_spec, setnx_spec, setrange_spec,
    strlen_spec, StringCommands,
};
use crate::error::AikvError;
use crate::protocol::RespValue;
use crate::storage::{copy_bytes, unix_time_millis, DbView, StorageEngine};
use crate::cluster::commands::{cluster_reply, ClusterCommands};
use crate::cluster::meta::{ownership_result_matches, ownership_spec, ClusterMeta, SlotOwnership};
use crate::cluster::slot::{key_slot_spec, key_to_slot};
use crate::text::{push_str, spec_to_uppercase, str_eq, string_of, to_uppercase};
use vstd::utf8::encode_utf8;
use vstd::prelude::*;

verus! {

/// The names the string handler serves.
pub open spec fn is_string_name(n: Seq<char>) -> bool {
    n == "GET"@ || n == "SET"@ || n == "DEL"@ || n == "EXISTS"@ || n == "MGET"@ || n == "MSET"@ || n == "STRLEN"@
        || n == "APPEND"@ || n == "INCR"@ || n == "DECR"@ || n == "INCRBY"@ || n == "DECRBY"@ || n == "GETRANGE"@
        || n == "SETRANGE"@ || n == "GETEX"@ || n == "GETDEL"@ || n == "SETNX"@ || n == "SETEX"@ || n == "PSETEX"@
}

/// The names the key handler serves.
pub open spec fn is_key_name(n: Seq<char>) -> bool {
    n == "KEYS"@ || n == "SCAN"@ || n == "RANDOMKEY"@ || n == "RENAME"@ || n == "RENAMENX"@ || n == "TYPE"@
        || n == "COPY"@ || n == "EXPIRE"@ || n == "EXPIREAT"@ || n == "PEXPIRE"@ || n == "PEXPIREAT"@ || n == "TTL"@
        || n == "PTTL"@ || n == "PERSIST"@ || n == "EXPIRETIME"@ || n == "PEXPIRETIME"@ || n == "MIGRATE"@
}

/// The names the database handler serves.
pub open spec fn is_db_name(n: Seq<char>) -> bool {
    n == "SELECT"@ || n == "DBSIZE"@ || n == "FLUSHDB"@ || n == "FLUSHALL"@ || n == "SWAPDB"@ || n == "MOVE"@
}

/// The names the server handler serves.
pub open spec fn is_server_name(n: Seq<char>) -> bool {
    n == "INFO"@ || n == "CONFIG"@ || n == "SLOWLOG"@ || n == "TIME"@ || n == "COMMAND"@ || n == "LASTSAVE"@
        || n == "SHUTDOWN"@ || n == "CLIENT"@
}

/// The names the hash handler serves.
pub open spec fn is_hash_name(n: Seq<char>) -> bool {
    n == "HSET"@ || n == "HSETNX"@ || n == "HGET"@ || n == "HMGET"@ || n == "HMSET"@ || n == "HDEL"@ || n == "HEXISTS"@
        || n == "HLEN"@ || n == "HKEYS"@ || n == "HVALS"@ || n == "HGETALL"@ || n == "HINCRBY"@ || n == "HSCAN"@
}

/// The names the list handler serves.
pub open spec fn is_list_name(n: Seq<char>) -> bool {
    n == "LPUSH"@ || n == "RPUSH"@ || n == "LPOP"@ || n == "RPOP"@ || n == "LLEN"@ || n == "LRANGE"@ || n == "LINDEX"@
        || n == "LSET"@ || n == "LREM"@ || n == "LTRIM"@ || n == "LINSERT"@ || n == "LMOVE"@
}

/// The names the set handler serves.
pub open spec fn is_set_name(n: Seq<char>) -> bool {
    n == "SADD"@ || n == "SREM"@ || n == "SISMEMBER"@ || n == "SMEMBERS"@ || n == "SCARD"@ || n == "SPOP"@
        || n == "SRANDMEMBER"@ || n == "SUNION"@ || n == "SINTER"@ || n == "SDIFF"@ || n == "SUNIONSTORE"@
        || n == "SINTERSTORE"@ || n == "SDIFFSTORE"@ || n == "SMOVE"@ || n == "SSCAN"@
}

/// What a hash command answers and leaves (`name` one of `is_hash_name`).
pub open spec fn hash_outcome(m: Seq<DbView>, name: Seq<char>, a: Seq<Seq<u8>>, db: int, now: u64) -> (
    Reply,
    Seq<DbView>,
) {
    if name == "HSET"@ {
        hset_spec(m, db, a, now, false)
    } else if name == "HSETNX"@ {
        hsetnx_spec(m, db, a, now)
    } else if name == "HGET"@ {
        hget_spec(m, db, a, now)
    } else if name == "HMGET"@ {
        hmget_spec(m, db, a, now)
    } else if name == "HMSET"@ {
        hset_spec(m, db, a, now, true)
    } else if name == "HDEL"@ {
        hdel_spec(m, db, a, now)
    } else if name == "HEXISTS"@ {
        hexists_spec(m, db, a, now)
    } else if name == "HLEN"@ {
        hlen_spec(m, db, a, now)
    } else if name == "HKEYS"@ {
        hkeys_spec(m, db, a, now)
    } else if name == "HVALS"@ {
        hvals_spec(m, db, a, now)
    } else if name == "HGETALL"@ {
        hgetall_spec(m, db, a, now)
    } else if name == "HSCAN"@ {
        hscan_spec(m, db, a, now)
    } else {
        hincrby_spec(m, db, a, now)
    }
}

/// What a list command answers and leaves (`name` one of `is_list_name`).
pub open spec fn list_outcome(m: Seq<DbView>, name: Seq<char>, a: Seq<Seq<u8>>, db: int, now: u64) -> (
    Reply,
    Seq<DbView>,
) {
    if name == "LPUSH"@ {
        push_spec(m, db, a, now, true)
    } else if name == "RPUSH"@ {
        push_spec(m, db, a, now, false)
    } else if name == "LPOP"@ {
        pop_spec(m, db, a, now, true)
    } else if name == "RPOP"@ {
        pop_spec(m, db, a, now, false)
    } else if name == "LLEN"@ {
        llen_spec(m, db, a, now)
    } else if name == "LRANGE"@ {
        lrange_spec(m, db, a, now)
    } else if name == "LINDEX"@ {
        lindex_spec(m, db, a, now)
    } else if name == "LSET"@ {
        lset_spec(m, db, a, now)
    } else if name == "LREM"@ {
        lrem_spec(m, db, a, now)
    } else if name == "LTRIM"@ {
        ltrim_spec(m, db, a, now)
    } else if name == "LINSERT"@ {
        linsert_spec(m, db, a, now)
    } else {
        lmove_spec(m, db, a, now)
    }
}

/// What a set command answers and leaves (`name` one of `is_set_name`).
pub open spec fn set_outcome(m: Seq<DbView>, name: Seq<char>, a: Seq<Seq<u8>>, db: int, now: u64) -> (
    Reply,
    Seq<DbView>,
) {
    if name == "SADD"@ {
        sadd_spec(m, db, a, now)
    } else if name == "SREM"@ {
        srem_spec(m, db, a, now)
    } else if name == "SISMEMBER"@ {
        sismember_spec(m, db, a, now)
    } else if name == "SMEMBERS"@ {
        smembers_spec(m, db, a, now)
    } else if name == "SCARD"@ {
        scard_spec(m, db, a, now)
    } else if name == "SPOP"@ {
        spop_spec(m, db, a, now)
    } else if name == "SRANDMEMBER"@ {
        srandmember_spec(m, db, a, now)
    } else if name == "SUNION"@ {
        combine_spec(m, db, a, now, 0, false)
    } else if name == "SINTER"@ {
        combine_spec(m, db, a, now, 1, false)
    } else if name == "SDIFF"@ {
        combine_spec(m, db, a, now, 2, false)
    } else if name == "SUNIONSTORE"@ {
        combine_spec(m, db, a, now, 0, true)
    } else if name == "SINTERSTORE"@ {
        combine_spec(m, db, a, now, 1, true)
    } else if name == "SDIFFSTORE"@ {
        combine_spec(m, db, a, now, 2, true)
    } else if name == "SMOVE"@ {
        smove_spec(m, db, a, now)
    } else {
        sscan_spec(m, db, a, now)
    }
}

/// Which keys a command is routed by in cluster mode: 0 none, 1 its
/// first argument, 2 all arguments, 3 its first two arguments, 4 every
/// other argument from the first.
pub open spec fn route_kind(n: Seq<char>) -> int {
    if n == "DEL"@ || n == "EXISTS"@ || n == "MGET"@ || n == "SUNION"@ || n == "SINTER"@ || n == "SDIFF"@
        || n == "SUNIONSTORE"@ || n == "SINTERSTORE"@ || n == "SDIFFSTORE"@ {
        2
    } else if n == "RENAME"@ || n == "RENAMENX"@ || n == "COPY"@ || n == "LMOVE"@ || n == "SMOVE"@ {
        3
    } else if n == "MSET"@ {
        4
    } else if (is_string_name(n) || is_key_name(n) || is_hash_name(n) || is_list_name(n) || is_set_name(n)) && n
        != "KEYS"@ && n != "SCAN"@ && n != "RANDOMKEY"@ && n != "MIGRATE"@ {
        1
    } else {
        0
    }
}

/// The keys a command is routed by.
pub open spec fn routed_keys(kind: int, a: Seq<Seq<u8>>) -> Seq<Seq<u8>> {
    if kind == 1 && a.len() > 0 {
        seq![a[0]]
    } else if kind == 2 {
        a
    } else if kind == 3 && a.len() >= 2 {
        seq![a[0], a[1]]
    } else if kind == 4 && a.len() >= 2 {
        Seq::new(((a.len() + 1) / 2) as nat, |i: int| a[2 * i])
    } else {
        Seq::empty()
    }
}

/// The keys share one slot.
pub open spec fn same_slot(keys: Seq<Seq<u8>>) -> bool {
    forall|i: int| 0 <= i < keys.len() ==> #[trigger] key_slot_spec(keys[i]) == key_slot_spec(keys[0])
}

/// Node `me` serves all `keys` (none at all is served).
pub open spec fn route_ok(meta: ClusterMeta, me: u64, keys: Seq<Seq<u8>>) -> bool {
    keys.len() == 0 || (same_slot(keys) && ownership_spec(meta, me, key_slot_spec(keys[0])) is Owned)
}

/// The refusal for keys node `me` does not serve: CROSSSLOT when they
/// span slots, else the redirect or error for their slot.
pub open spec fn route_failure(meta: ClusterMeta, me: u64, keys: Seq<Seq<u8>>, e: AikvError) -> bool {
    if !same_slot(keys) {
        e == AikvError::CrossSlot
    } else {
        let slot = key_slot_spec(keys[0]);
        ownership_result_matches(Err(e), ownership_spec(meta, me, slot), slot)
    }
}

/// DECRBY by `i64::MIN`, whose negation does not fit.
pub open spec fn decrby_overflows(a: Seq<Seq<u8>>) -> bool {
    a.len() == 2 && int_arg(a[1]) == Some(i64::MIN as int)
}

/// SETRANGE whose end offset does not fit in memory.
pub open spec fn setrange_overflows(a: Seq<Seq<u8>>) -> bool {
    a.len() == 3 && (usize_arg(a[1]) matches Some(off) && off + a[2].len() > usize::MAX)
}

/// What a string command answers and leaves (`name` one of `is_string_name`).
pub open spec fn string_outcome(m: Seq<DbView>, name: Seq<char>, a: Seq<Seq<u8>>, db: int, now: u64) -> (
    Reply,
    Seq<DbView>,
) {
    if name == "GET"@ {
        get_spec(m, db, a, now)
    } else if name == "SET"@ {
        set_spec(m, db, a, now)
    } else if name == "DEL"@ {
        del_spec(m, db, a, now)
    } else if name == "EXISTS"@ {
        exists_spec(m, db, a, now)
    } else if name == "MGET"@ {
        mget_spec(m, db, a, now)
    } else if name == "MSET"@ {
        mset_spec(m, db, a)
    } else if name == "STRLEN"@ {
        strlen_spec(m, db, a, now)
    } else if name == "APPEND"@ {
        append_spec(m, db, a, now)
    } else if name == "INCR"@ {
        incr_cmd_spec(m, db, a, now)
    } else if name == "DECR"@ {
        decr_cmd_spec(m, db, a, now)
    } else if name == "INCRBY"@ {
        incrby_cmd_spec(m, db, a, now, false)
    } else if name == "DECRBY"@ {
        if decrby_overflows(a) {
            (Reply::Fail(Failure::Invalid("ERR decrement would overflow"@)), m)
        } else {
            incrby_cmd_spec(m, db, a, now, true)
        }
    } else if name == "GETRANGE"@ {
        getrange_spec(m, db, a, now)
    } else if name == "SETRANGE"@ {
        if setrange_overflows(a) {
            (Reply::Fail(Failure::Invalid("ERR string exceeds maximum allowed size"@)), m)
        } else {
            setrange_spec(m, db, a, now)
        }
    } else if name == "GETEX"@ {
        getex_spec(m, db, a, now)
    } else if name == "GETDEL"@ {
        getdel_spec(m, db, a, now)
    } else if name == "SETNX"@ {
        setnx_spec(m, db, a, now)
    } else if name == "SETEX"@ {
        setex_spec(m, db, a, now, false)
    } else {
        setex_spec(m, db, a, now, true)
    }
}

/// What a key command answers and leaves (`name` one of `is_key_name`);
/// `ks` are the live keys of database `db` in storage order.
pub open spec fn key_holds(
    m: Seq<DbView>,
    ks: Seq<Seq<char>>,
    name: Seq<char>,
    a: Seq<Seq<u8>>,
    db: int,
    now: u64,
    r: Result<RespValue, AikvError>,
    m2: Seq<DbView>,
) -> bool {
    if name == "KEYS"@ {
        outcome_holds(keys_spec(m, ks, db, a), r, m2)
    } else if name == "SCAN"@ {
        outcome_holds(scan_spec(m, ks, db, a), r, m2)
    } else if name == "RANDOMKEY"@ {
        m2 == m && exists|rep: Reply| randomkey_holds(m, ks, db, rep) && models(r, rep)
    } else if name == "RENAME"@ {
        outcome_holds(rename_spec(m, db, a, now, false), r, m2)
    } else if name == "RENAMENX"@ {
        outcome_holds(rename_spec(m, db, a, now, true), r, m2)
    } else if name == "TYPE"@ {
        outcome_holds(type_spec(m, db, a, now), r, m2)
    } else if name == "COPY"@ {
        outcome_holds(copy_spec(m, db, a, now), r, m2)
    } else if name == "EXPIRE"@ {
        outcome_holds(expire_spec(m, db, a, now, ExpireKind::Seconds), r, m2)
    } else if name == "EXPIREAT"@ {
        outcome_holds(expire_spec(m, db, a, now, ExpireKind::AtSeconds), r, m2)
    } else if name == "PEXPIRE"@ {
        outcome_holds(expire_spec(m, db, a, now, ExpireKind::Millis), r, m2)
    } else if name == "PEXPIREAT"@ {
        outcome_holds(expire_spec(m, db, a, now, ExpireKind::AtMillis), r, m2)
    } else if name == "TTL"@ {
        outcome_holds(ttl_spec(m, db, a, now, false, false), r, m2)
    } else if name == "PTTL"@ {
        outcome_holds(ttl_spec(m, db, a, now, false, true), r, m2)
    } else if name == "PERSIST"@ {
        outcome_holds(persist_spec(m, db, a, now), r, m2)
    } else if name == "EXPIRETIME"@ {
        outcome_holds(ttl_spec(m, db, a, now, true, false), r, m2)
    } else if name == "PEXPIRETIME"@ {
        outcome_holds(ttl_spec(m, db, a, now, true, true), r, m2)
    } else {
        outcome_holds(migrate_spec(m, db, a, now), r, m2)
    }
}

/// What a database command answers and leaves, with the current database
/// after it (`name` one of `is_db_name`).
pub open spec fn db_holds(
    m: Seq<DbView>,
    name: Seq<char>,
    a: Seq<Seq<u8>>,
    db: int,
    now: u64,
    r: Result<RespValue, AikvError>,
    m2: Seq<DbView>,
    db2: int,
) -> bool {
    if name == "SELECT"@ {
        models(r, select_spec(a, db).0) && db2 == select_spec(a, db).1 && m2 == m
    } else {
        db2 == db && if name == "DBSIZE"@ {
            outcome_holds(dbsize_spec(m, db, now), r, m2)
        } else if name == "FLUSHDB"@ {
            outcome_holds(flushdb_spec(m, db), r, m2)
        } else if name == "FLUSHALL"@ {
            outcome_holds(flushall_spec(m), r, m2)
        } else if name == "SWAPDB"@ {
            outcome_holds(swapdb_spec(m, a), r, m2)
        } else {
            outcome_holds(move_spec(m, db, a, now), r, m2)
        }
    }
}

/// What a server command (`name` one of `is_server_name`, with raw
/// arguments `args`, for client `client_id`) answers and leaves of the
/// server handler: what the handler method it dispatches to states of
/// itself; the handler is unchanged by the commands that only read it.
pub open spec fn server_step(
    before: ServerCommands,
    after: ServerCommands,
    host: HostInfo,
    name: Seq<char>,
    args: Seq<Vec<u8>>,
    client_id: usize,
    r: Result<RespValue, AikvError>,
) -> bool {
    let a = arg_views(args);
    let rest = args.subrange(1, args.len() as int);
    if name == "INFO"@ {
        after == before && info_holds(before, host, args, r)
    } else if name == "CONFIG"@ {
        if args.len() == 0 {
            after == before && models(r, Reply::Fail(Failure::Arity("CONFIG"@)))
        } else {
            let sub = option_of(a[0]);
            if sub == "GET"@ {
                after == before && config_get_holds(before, rest, r)
            } else if sub == "SET"@ {
                config_set_holds(before, after, rest, r)
            } else if sub == "REWRITE"@ {
                after == before && models(r, crate::command::reply::ok_reply())
            } else {
                after == before && models(r, Reply::Fail(Failure::Command("Unknown CONFIG subcommand: "@ + sub)))
            }
        }
    } else if name == "SLOWLOG"@ {
        slowlog_holds(before, after, args, r)
    } else if name == "TIME"@ {
        after == before && time_holds(r)
    } else if name == "COMMAND"@ {
        after == before && models(r, command_spec(a))
    } else if name == "LASTSAVE"@ {
        after == before && models(r, Reply::Int(before.spec_last_save() as i64 as int))
    } else if name == "SHUTDOWN"@ {
        shutdown_holds(before, after, args, r)
    } else {
        if args.len() == 0 {
            after == before && models(r, Reply::Fail(Failure::Arity("CLIENT"@)))
        } else {
            let sub = option_of(a[0]);
            if sub == "LIST"@ {
                after == before && client_list_holds(before, r)
            } else if sub == "SETNAME"@ {
                client_setname_holds(before, after, rest, client_id, r)
            } else if sub == "GETNAME"@ {
                after == before && client_getname_holds(before, client_id, r)
            } else {
                after == before && models(r, Reply::Fail(Failure::Command("Unknown CLIENT subcommand: "@ + sub)))
            }
        }
    }
}

/// The text of CLUSTER INFO before the cluster is set up.
pub open spec fn cluster_info_fallback() -> Seq<char> {
    "cluster_state:fail\r\ncluster_slots_assigned:0\r\ncluster_slots_ok:0\r\ncluster_slots_pfail:0\r\ncluster_slots_fail:0\r\ncluster_known_nodes:1\r\ncluster_size:0\r\ncluster_current_epoch:0\r\ncluster_my_epoch:0\r\ncluster_stats_messages_sent:0\r\ncluster_stats_messages_received:0"@
}

/// The placeholder node and shard id: forty zeros.
pub open spec fn zero_id() -> Seq<char> {
    "0000000000000000000000000000000000000000"@
}

/// What CLUSTER answers before the cluster is set up: read-only
/// subcommands answer an empty cluster, KEYSLOT computes the slot, and
/// the others report that the cluster is not ready.
pub open spec fn cluster_fallback_reply(a: Seq<Seq<u8>>) -> Reply {
    if a.len() == 0 {
        Reply::Fail(Failure::Arity("CLUSTER"@))
    } else {
        let sub = option_of(a[0]);
        if sub == "INFO"@ {
            Reply::Bulk(encode_utf8(cluster_info_fallback()))
        } else if sub == "NODES"@ {
            Reply::Bulk(Seq::empty())
        } else if sub == "SLOTS"@ || sub == "SHARDS"@ {
            Reply::Array(Seq::empty())
        } else if sub == "MYID"@ || sub == "MYSHARDID"@ {
            Reply::Bulk(encode_utf8(zero_id()))
        } else if sub == "KEYSLOT"@ {
            if a.len() != 2 {
                Reply::Fail(Failure::Arity("CLUSTER KEYSLOT"@))
            } else {
                Reply::Int(key_slot_spec(a[1]) as int)
            }
        } else if sub == "SAVECONFIG"@ || sub == "SET-CONFIG-EPOCH"@ {
            Reply::Simple("OK"@)
        } else if sub == "BUMPEPOCH"@ {
            Reply::Bulk(encode_utf8("BUMPED 0"@))
        } else if sub == "COUNT-FAILURE-REPORTS"@ || sub == "COUNTKEYSINSLOT"@ {
            Reply::Int(0)
        } else if sub == "GETKEYSINSLOT"@ {
            Reply::Array(Seq::empty())
        } else {
            Reply::Fail(Failure::Internal("Cluster not initialized. Please initialize cluster node first."@))
        }
    }
}

/// What CLUSTER, READONLY, READWRITE, ASKING, PING, ECHO and an unknown
/// command answer.
pub open spec fn utility_reply(command: Seq<char>, name: Seq<char>, a: Seq<Seq<u8>>) -> Reply {
    if name == "CLUSTER"@ {
        cluster_fallback_reply(a)
    } else if name == "READONLY"@ || name == "READWRITE"@ || name == "ASKING"@ {
        Reply::Simple("OK"@)
    } else if name == "PING"@ {
        if a.len() == 0 {
            Reply::Simple("PONG"@)
        } else if a.len() == 1 {
            Reply::Bulk(a[0])
        } else {
            Reply::Fail(Failure::Arity("PING"@))
        }
    } else if name == "ECHO"@ {
        if a.len() != 1 {
            Reply::Fail(Failure::Arity("ECHO"@))
        } else {
            Reply::Bulk(a[0])
        }
    } else {
        Reply::Fail(Failure::Command("Unknown command: "@ + command))
    }
}

fn string_name(n: &str) -> (b: bool)
    ensures
        b == is_string_name(n@),
{
    str_eq(n, "GET") || str_eq(n, "SET") || str_eq(n, "DEL") || str_eq(n, "EXISTS") || str_eq(n, "MGET") || str_eq(
        n,
        "MSET",
    ) || str_eq(n, "STRLEN") || str_eq(n, "APPEND") || str_eq(n, "INCR") || str_eq(n, "DECR") || str_eq(n, "INCRBY")
        || str_eq(n, "DECRBY") || str_eq(n, "GETRANGE") || str_eq(n, "SETRANGE") || str_eq(n, "GETEX") || str_eq(
        n,
        "GETDEL",
    ) || str_eq(n, "SETNX") || str_eq(n, "SETEX") || str_eq(n, "PSETEX")
}

fn key_name(n: &str) -> (b: bool)
    ensures
        b == is_key_name(n@),
{
    str_eq(n, "KEYS") || str_eq(n, "SCAN") || str_eq(n, "RANDOMKEY") || str_eq(n, "RENAME") || str_eq(n, "RENAMENX")
        || str_eq(n, "TYPE") || str_eq(n, "COPY") || str_eq(n, "EXPIRE") || str_eq(n, "EXPIREAT") || str_eq(
        n,
        "PEXPIRE",
    ) || str_eq(n, "PEXPIREAT") || str_eq(n, "TTL") || str_eq(n, "PTTL") || str_eq(n, "PERSIST") || str_eq(
        n,
        "EXPIRETIME",
    ) || str_eq(n, "PEXPIRETIME") || str_eq(n, "MIGRATE")
}

fn hash_name(n: &str) -> (b: bool)
    ensures
        b == is_hash_name(n@),
{
    str_eq(n, "HSET") || str_eq(n, "HSETNX") || str_eq(n, "HGET") || str_eq(n, "HMGET") || str_eq(n, "HMSET") || str_eq(
        n,
        "HDEL",
    ) || str_eq(n, "HEXISTS") || str_eq(n, "HLEN") || str_eq(n, "HKEYS") || str_eq(n, "HVALS") || str_eq(n, "HGETALL")
        || str_eq(n, "HINCRBY") || str_eq(n, "HSCAN")
}

fn list_name(n: &str) -> (b: bool)
    ensures
        b == is_list_name(n@),
{
    str_eq(n, "LPUSH") || str_eq(n, "RPUSH") || str_eq(n, "LPOP") || str_eq(n, "RPOP") || str_eq(n, "LLEN") || str_eq(
        n,
        "LRANGE",
    ) || str_eq(n, "LINDEX") || str_eq(n, "LSET") || str_eq(n, "LREM") || str_eq(n, "LTRIM") || str_eq(n, "LINSERT")
        || str_eq(n, "LMOVE")
}

fn set_name(n: &str) -> (b: bool)
    ensures
        b == is_set_name(n@),
{
    str_eq(n, "SADD") || str_eq(n, "SREM") || str_eq(n, "SISMEMBER") || str_eq(n, "SMEMBERS") || str_eq(n, "SCARD")
        || str_eq(n, "SPOP") || str_eq(n, "SRANDMEMBER") || str_eq(n, "SUNION") || str_eq(n, "SINTER") || str_eq(
        n,
        "SDIFF",
    ) || str_eq(n, "SUNIONSTORE") || str_eq(n, "SINTERSTORE") || str_eq(n, "SDIFFSTORE") || str_eq(n, "SMOVE")
        || str_eq(n, "SSCAN")
}

fn route_kind_of(n: &str) -> (k: u8)
    ensures
        k as int == route_kind(n@),
        k <= 4,
{
    if str_eq(n, "DEL") || str_eq(n, "EXISTS") || str_eq(n, "MGET") || str_eq(n, "SUNION") || str_eq(n, "SINTER")
        || str_eq(n, "SDIFF") || str_eq(n, "SUNIONSTORE") || str_eq(n, "SINTERSTORE") || str_eq(n, "SDIFFSTORE") {
        2
    } else if str_eq(n, "RENAME") || str_eq(n, "RENAMENX") || str_eq(n, "COPY") || str_eq(n, "LMOVE") || str_eq(
        n,
        "SMOVE",
    ) {
        3
    } else if str_eq(n, "MSET") {
        4
    } else if (string_name(n) || key_name(n) || hash_name(n) || list_name(n) || set_name(n)) && !str_eq(n, "KEYS")
        && !str_eq(n, "SCAN") && !str_eq(n, "RANDOMKEY") && !str_eq(n, "MIGRATE") {
        1
    } else {
        0
    }
}

fn db_name(n: &str) -> (b: bool)
    ensures
        b == is_db_name(n@),
{
    str_eq(n, "SELECT") || str_eq(n, "DBSIZE") || str_eq(n, "FLUSHDB") || str_eq(n, "FLUSHALL") || str_eq(n, "SWAPDB")
        || str_eq(n, "MOVE")
}

fn server_name(n: &str) -> (b: bool)
    ensures
        b == is_server_name(n@),
{
    str_eq(n, "INFO") || str_eq(n, "CONFIG") || str_eq(n, "SLOWLOG") || str_eq(n, "TIME") || str_eq(n, "COMMAND")
        || str_eq(n, "LASTSAVE") || str_eq(n, "SHUTDOWN") || str_eq(n, "CLIENT")
}

/// Routes commands to their handlers over one keyspace.
#[derive(Debug)]
pub struct CommandExecutor {
    storage: StorageEngine,
    server_commands: ServerCommands,
    host: HostInfo,
    cluster_commands: Option<ClusterCommands>,
    scripts: ScriptCache,
}

impl CommandExecutor {
    /// The keyspace and the script cache are well formed.
    pub closed spec fn wf(&self) -> bool {
        self.storage.wf() && self.scripts.wf()
    }

    /// The cached scripts, by digest text.
    pub closed spec fn spec_scripts(&self) -> Map<Seq<char>, Seq<char>> {
        self.scripts.cache()
    }

    /// The keyspace.
    pub closed spec fn keyspace(&self) -> Seq<DbView> {
        self.storage@
    }

    /// The live keys of database `db` at time `now`, in storage order.
    pub closed spec fn key_seq(&self, db: int, now: u64) -> Seq<Seq<char>> {
        self.storage.live_key_seq(db, now)
    }

    /// What the server reports of its host.
    pub closed spec fn spec_host(&self) -> HostInfo {
        self.host
    }

    /// The server handler.
    pub closed spec fn spec_server(&self) -> ServerCommands {
        self.server_commands
    }

    /// The cluster handler, once the cluster node is set up.
    pub closed spec fn spec_cluster(&self) -> Option<ClusterCommands> {
        self.cluster_commands
    }

    /// An executor over `storage` for port 6379.
    pub fn new(storage: StorageEngine) -> (r: Self)
        requires
            storage.wf(),
        ensures
            r.wf(),
            r.keyspace() == storage@,
            r.spec_server().spec_port() == 6379,
            r.spec_server().spec_cluster_enabled(),
            r.spec_cluster() is None,
    {
        Self::with_port(storage, 6379)
    }

    /// An executor over `storage` for `port`; its server handler keeps
    /// its own empty keyspace and reports cluster mode, whose node is not
    /// set up: CLUSTER answers as `cluster_fallback_reply` says and keys are
    /// served locally.
    pub fn with_port(storage: StorageEngine, port: u16) -> (r: Self)
        requires
            storage.wf(),
        ensures
            r.wf(),
            r.keyspace() == storage@,
            r.spec_server().spec_port() == port,
            r.spec_server().spec_cluster_enabled(),
            r.spec_cluster() is None,
    {
        CommandExecutor {
            storage,
            server_commands: ServerCommands::with_port_and_cluster(port, true),
            host: HostInfo {
                os: String::new(),
                family: String::new(),
                arch: String::new(),
                pointer_width: 0,
                process_id: 0,
            },
            cluster_commands: None,
            scripts: ScriptCache::new(),
        }
    }

    /// Sets what INFO reports of the host and process.
    pub fn set_host_info(&mut self, host: HostInfo)
        requires
            old(self).wf(),
        ensures
            final(self).wf(),
            final(self).keyspace() == old(self).keyspace(),
            final(self).spec_server() == old(self).spec_server(),
    {
        self.host = host;
    }

    /// Takes the cluster handler once the cluster node is set up: from then
    /// on keys are routed and CLUSTER is answered from its metadata.
    pub fn set_cluster_commands(&mut self, cluster_commands: ClusterCommands)
        requires
            old(self).wf(),
        ensures
            final(self).wf(),
            final(self).keyspace() == old(self).keyspace(),
            final(self).spec_server() == old(self).spec_server(),
            final(self).spec_cluster() == Some(cluster_commands),
    {
        self.cluster_commands = Some(cluster_commands);
    }

    /// The cluster handler, once set.
    pub fn cluster_commands(&self) -> (r: Option<&ClusterCommands>)
        ensures
            match (r, self.spec_cluster()) {
                (Some(c), Some(d)) => *c == d,
                (None, None) => true,
                _ => false,
            },
    {
        match &self.cluster_commands {
            Some(c) => Some(c),
            None => None,
        }
    }

    /// Newer cluster metadata for the cluster handler, when it is set.
    pub fn update_cluster_meta(&mut self, meta: ClusterMeta)
        requires
            old(self).wf(),
        ensures
            final(self).wf(),
            final(self).keyspace() == old(self).keyspace(),
            final(self).spec_server() == old(self).spec_server(),
            match (old(self).spec_cluster(), final(self).spec_cluster()) {
                (Some(c), Some(d)) => d.spec_meta() == meta && d.spec_node_id() == c.spec_node_id(),
                (None, None) => true,
                _ => false,
            },
    {
        match &mut self.cluster_commands {
            Some(c) => c.set_meta(meta),
            None => {},
        }
    }

    /// The server handler.
    pub fn server_commands(&self) -> (r: &ServerCommands)
        ensures
            *r == self.spec_server(),
    {
        &self.server_commands
    }

    /// The server handler, to register and drop clients.
    pub fn server_commands_mut(&mut self) -> (r: &mut ServerCommands)
        ensures
            *r == old(self).spec_server(),
            final(self).spec_server() == *final(r),
            final(self).keyspace() == old(self).keyspace(),
            final(self).wf() == old(self).wf(),
    {
        &mut self.server_commands
    }

    /// Moves the keyspace out, leaving an empty one behind.
    fn take_storage(&mut self) -> (s: StorageEngine)
        requires
            old(self).wf(),
        ensures
            s.wf(),
            s@ == old(self).storage@,
            forall|db: int, now: u64| #[trigger] s.live_key_seq(db, now) == old(self).storage.live_key_seq(db, now),
            final(self).wf(),
            final(self).server_commands == old(self).server_commands,
            final(self).host == old(self).host,
            final(self).cluster_commands == old(self).cluster_commands,
            final(self).scripts == old(self).scripts,
            final(self).host == old(self).host,
            final(self).cluster_commands == old(self).cluster_commands,
            final(self).scripts == old(self).scripts,
    {
        let mut s = StorageEngine::new_memory(0);
        std::mem::swap(&mut s, &mut self.storage);
        s
    }

    fn execute_string(&mut self, name: &str, args: &[Vec<u8>], db: usize, now: u64) -> (r: Result<RespValue, AikvError>)
        requires
            old(self).wf(),
            is_string_name(name@),
        ensures
            final(self).wf(),
            final(self).server_commands == old(self).server_commands,
            final(self).host == old(self).host,
            final(self).cluster_commands == old(self).cluster_commands,
            final(self).scripts == old(self).scripts,
            outcome_holds(string_outcome(old(self).keyspace(), name@, arg_views(args@), db as int, now), r, final(self).keyspace()),
    {
        proof {
            lemma_arg_views(args@);
        }
        let s = self.take_storage();
        let mut h = StringCommands::new(s);
        let r = if str_eq(name, "GET") {
            h.get_at(args, db, now)
        } else if str_eq(name, "SET") {
            h.set_at(args, db, now)
        } else if str_eq(name, "DEL") {
            h.del_at(args, db, now)
        } else if str_eq(name, "EXISTS") {
            h.exists_at(args, db, now)
        } else if str_eq(name, "MGET") {
            h.mget_at(args, db, now)
        } else if str_eq(name, "MSET") {
            h.mset(args, db)
        } else if str_eq(name, "STRLEN") {
            h.strlen_at(args, db, now)
        } else if str_eq(name, "APPEND") {
            h.append_at(args, db, now)
        } else if str_eq(name, "INCR") {
            h.incr_at(args, db, now)
        } else if str_eq(name, "DECR") {
            h.decr_at(args, db, now)
        } else if str_eq(name, "INCRBY") {
            h.incrby_at(args, db, now)
        } else if str_eq(name, "DECRBY") {
            if args.len() == 2 && crate::command::reply::arg_i64(&args[1]) == Some(i64::MIN) {
                Err(invalid_error("ERR decrement would overflow"))
            } else {
                h.decrby_at(args, db, now)
            }
        } else if str_eq(name, "GETRANGE") {
            h.getrange_at(args, db, now)
        } else if str_eq(name, "SETRANGE") {
            let too_long = args.len() == 3 && match crate::command::reply::arg_usize(&args[1]) {
                Some(off) => off > usize::MAX - args[2].len(),
                None => false,
            };
            if too_long {
                Err(invalid_error("ERR string exceeds maximum allowed size"))
            } else {
                h.setrange_at(args, db, now)
            }
        } else if str_eq(name, "GETEX") {
            h.getex_at(args, db, now)
        } else if str_eq(name, "GETDEL") {
            h.getdel_at(args, db, now)
        } else if str_eq(name, "SETNX") {
            h.setnx_at(args, db, now)
        } else if str_eq(name, "SETEX") {
            h.setex_at(args, db, now, false)
        } else {
            h.setex_at(args, db, now, true)
        };
        self.storage = h.into_storage();
        r
    }

    fn execute_key(&mut self, name: &str, args: &[Vec<u8>], db: usize, now: u64) -> (r: Result<RespValue, AikvError>)
        requires
            old(self).wf(),
            is_key_name(name@),
        ensures
            final(self).wf(),
            final(self).server_commands == old(self).server_commands,
            final(self).host == old(self).host,
            final(self).cluster_commands == old(self).cluster_commands,
            final(self).scripts == old(self).scripts,
            key_holds(
                old(self).keyspace(),
                old(self).key_seq(db as int, now),
                name@,
                arg_views(args@),
                db as int,
                now,
                r,
                final(self).keyspace(),
            ),
    {
        let ghost ks = old(self).key_seq(db as int, now);
        let s = self.take_storage();
        let mut h = KeyCommands::new(s);
        let r = if str_eq(name, "KEYS") {
            h.keys_at(args, db, now)
        } else if str_eq(name, "SCAN") {
            h.scan_at(args, db, now)
        } else if str_eq(name, "RANDOMKEY") {
            h.randomkey_at(args, db, now)
        } else if str_eq(name, "RENAME") {
            h.rename_at(args, db, now, false)
        } else if str_eq(name, "RENAMENX") {
            h.rename_at(args, db, now, true)
        } else if str_eq(name, "TYPE") {
            h.get_type_at(args, db, now)
        } else if str_eq(name, "COPY") {
            h.copy_at(args, db, now)
        } else if str_eq(name, "EXPIRE") {
            h.expire_at(args, db, now, ExpireKind::Seconds)
        } else if str_eq(name, "EXPIREAT") {
            h.expire_at(args, db, now, ExpireKind::AtSeconds)
        } else if str_eq(name, "PEXPIRE") {
            h.expire_at(args, db, now, ExpireKind::Millis)
        } else if str_eq(name, "PEXPIREAT") {
            h.expire_at(args, db, now, ExpireKind::AtMillis)
        } else if str_eq(name, "TTL") {
            h.ttl_at(args, db, now, false, false)
        } else if str_eq(name, "PTTL") {
            h.ttl_at(args, db, now, false, true)
        } else if str_eq(name, "PERSIST") {
            h.persist_at(args, db, now)
        } else if str_eq(name, "EXPIRETIME") {
            h.ttl_at(args, db, now, true, false)
        } else if str_eq(name, "PEXPIRETIME") {
            h.ttl_at(args, db, now, true, true)
        } else {
            h.migrate_at(args, db, now)
        };
        self.storage = h.into_storage();
        r
    }

    fn execute_hash(&mut self, name: &str, args: &[Vec<u8>], db: usize, now: u64) -> (r: Result<RespValue, AikvError>)
        requires
            old(self).wf(),
            is_hash_name(name@),
        ensures
            final(self).wf(),
            final(self).server_commands == old(self).server_commands,
            final(self).host == old(self).host,
            final(self).cluster_commands == old(self).cluster_commands,
            final(self).scripts == old(self).scripts,
            outcome_holds(hash_outcome(old(self).keyspace(), name@, arg_views(args@), db as int, now), r, final(self).keyspace()),
    {
        let s = self.take_storage();
        let mut h = HashCommands::new(s);
        let r = if str_eq(name, "HSET") {
            h.hset_at(args, db, now, false)
        } else if str_eq(name, "HSETNX") {
            h.hsetnx_at(args, db, now)
        } else if str_eq(name, "HGET") {
            h.hget_at(args, db, now)
        } else if str_eq(name, "HMGET") {
            h.hmget_at(args, db, now)
        } else if str_eq(name, "HMSET") {
            h.hset_at(args, db, now, true)
        } else if str_eq(name, "HDEL") {
            h.hdel_at(args, db, now)
        } else if str_eq(name, "HEXISTS") {
            h.hexists_at(args, db, now)
        } else if str_eq(name, "HLEN") {
            h.hlen_at(args, db, now)
        } else if str_eq(name, "HKEYS") {
            h.hkeys_at(args, db, now)
        } else if str_eq(name, "HVALS") {
            h.hvals_at(args, db, now)
        } else if str_eq(name, "HGETALL") {
            h.hgetall_at(args, db, now)
        } else if str_eq(name, "HSCAN") {
            h.hscan_at(args, db, now)
        } else {
            h.hincrby_at(args, db, now)
        };
        self.storage = h.into_storage();
        r
    }

    fn execute_list(&mut self, name: &str, args: &[Vec<u8>], db: usize, now: u64) -> (r: Result<RespValue, AikvError>)
        requires
            old(self).wf(),
            is_list_name(name@),
        ensures
            final(self).wf(),
            final(self).server_commands == old(self).server_commands,
            final(self).host == old(self).host,
            final(self).cluster_commands == old(self).cluster_commands,
            final(self).scripts == old(self).scripts,
            outcome_holds(list_outcome(old(self).keyspace(), name@, arg_views(args@), db as int, now), r, final(self).keyspace()),
    {
        let s = self.take_storage();
        let mut h = ListCommands::new(s);
        let r = if str_eq(name, "LPUSH") {
            h.push_at(args, db, now, true)
        } else if str_eq(name, "RPUSH") {
            h.push_at(args, db, now, false)
        } else if str_eq(name, "LPOP") {
            h.pop_at(args, db, now, true)
        } else if str_eq(name, "RPOP") {
            h.pop_at(args, db, now, false)
        } else if str_eq(name, "LLEN") {
            h.llen_at(args, db, now)
        } else if str_eq(name, "LRANGE") {
            h.lrange_at(args, db, now)
        } else if str_eq(name, "LINDEX") {
            h.lindex_at(args, db, now)
        } else if str_eq(name, "LSET") {
            h.lset_at(args, db, now)
        } else if str_eq(name, "LREM") {
            h.lrem_at(args, db, now)
        } else if str_eq(name, "LTRIM") {
            h.ltrim_at(args, db, now)
        } else if str_eq(name, "LINSERT") {
            h.linsert_at(args, db, now)
        } else {
            h.lmove_at(args, db, now)
        };
        self.storage = h.into_storage();
        r
    }

    fn execute_set(&mut self, name: &str, args: &[Vec<u8>], db: usize, now: u64) -> (r: Result<RespValue, AikvError>)
        requires
            old(self).wf(),
            is_set_name(name@),
        ensures
            final(self).wf(),
            final(self).server_commands == old(self).server_commands,
            final(self).host == old(self).host,
            final(self).cluster_commands == old(self).cluster_commands,
            final(self).scripts == old(self).scripts,
            outcome_holds(set_outcome(old(self).keyspace(), name@, arg_views(args@), db as int, now), r, final(self).keyspace()),
    {
        let s = self.take_storage();
        let mut h = SetCommands::new(s);
        let r = if str_eq(name, "SADD") {
            h.sadd_at(args, db, now)
        } else if str_eq(name, "SREM") {
            h.srem_at(args, db, now)
        } else if str_eq(name, "SISMEMBER") {
            h.sismember_at(args, db, now)
        } else if str_eq(name, "SMEMBERS") {
            h.smembers_at(args, db, now)
        } else if str_eq(name, "SCARD") {
            h.scard_at(args, db, now)
        } else if str_eq(name, "SPOP") {
            h.spop_at(args, db, now)
        } else if str_eq(name, "SRANDMEMBER") {
            h.srandmember_at(args, db, now)
        } else if str_eq(name, "SUNION") {
            h.combine_at(args, db, now, 0, false)
        } else if str_eq(name, "SINTER") {
            h.combine_at(args, db, now, 1, false)
        } else if str_eq(name, "SDIFF") {
            h.combine_at(args, db, now, 2, false)
        } else if str_eq(name, "SUNIONSTORE") {
            h.combine_at(args, db, now, 0, true)
        } else if str_eq(name, "SINTERSTORE") {
            h.combine_at(args, db, now, 1, true)
        } else if str_eq(name, "SDIFFSTORE") {
            h.combine_at(args, db, now, 2, true)
        } else if str_eq(name, "SMOVE") {
            h.smove_at(args, db, now)
        } else {
            h.sscan_at(args, db, now)
        };
        self.storage = h.into_storage();
        r
    }

    fn execute_db(&mut self, name: &str, args: &[Vec<u8>], current_db: &mut usize, now: u64) -> (r: Result<
        RespValue,
        AikvError,
    >)
        requires
            old(self).wf(),
            is_db_name(name@),
        ensures
            final(self).wf(),
            final(self).server_commands == old(self).server_commands,
            final(self).host == old(self).host,
            final(self).cluster_commands == old(self).cluster_commands,
            final(self).scripts == old(self).scripts,
            db_holds(
                old(self).keyspace(),
                name@,
                arg_views(args@),
                *old(current_db) as int,
                now,
                r,
                final(self).keyspace(),
                *final(current_db) as int,
            ),
    {
        let db = *current_db;
        let s = self.take_storage();
        let mut h = DatabaseCommands::new(s);
        let r = if str_eq(name, "SELECT") {
            h.select(args, current_db)
        } else if str_eq(name, "DBSIZE") {
            h.dbsize_at(db, now)
        } else if str_eq(name, "FLUSHDB") {
            h.flushdb(args, db)
        } else if str_eq(name, "FLUSHALL") {
            h.flushall(args)
        } else if str_eq(name, "SWAPDB") {
            h.swapdb(args)
        } else {
            h.move_key_at(args, db, now)
        };
        self.storage = h.into_storage();
        r
    }

    fn execute_server(&mut self, name: &str, args: &[Vec<u8>], client_id: usize) -> (r: Result<RespValue, AikvError>)
        requires
            is_server_name(name@),
        ensures
            final(self).storage == old(self).storage,
            final(self).cluster_commands == old(self).cluster_commands,
            final(self).scripts == old(self).scripts,
            final(self).host == old(self).host,
            server_step(old(self).server_commands, final(self).server_commands, old(self).host, name@, args@, client_id, r),
    {
        proof {
            lemma_arg_views(args@);
        }
        if str_eq(name, "INFO") {
            self.server_commands.info(args, &self.host)
        } else if str_eq(name, "CONFIG") {
            if args.len() == 0 {
                return Err(arity_error("CONFIG"));
            }
            let sub = arg_option(&args[0]);
            let rest = vstd::slice::slice_subrange(args, 1, args.len());
            if str_eq(sub.as_str(), "GET") {
                self.server_commands.config_get(rest)
            } else if str_eq(sub.as_str(), "SET") {
                self.server_commands.config_set(rest)
            } else if str_eq(sub.as_str(), "REWRITE") {
                self.server_commands.config_rewrite(rest)
            } else {
                let mut msg = string_of("Unknown CONFIG subcommand: ");
                push_str(&mut msg, sub.as_str());
                Err(AikvError::InvalidCommand(msg))
            }
        } else if str_eq(name, "SLOWLOG") {
            self.server_commands.slowlog(args)
        } else if str_eq(name, "TIME") {
            self.server_commands.time(args)
        } else if str_eq(name, "COMMAND") {
            self.server_commands.command(args)
        } else if str_eq(name, "LASTSAVE") {
            self.server_commands.lastsave(args)
        } else if str_eq(name, "SHUTDOWN") {
            self.server_commands.shutdown(args)
        } else {
            if args.len() == 0 {
                return Err(arity_error("CLIENT"));
            }
            let sub = arg_option(&args[0]);
            let rest = vstd::slice::slice_subrange(args, 1, args.len());
            if str_eq(sub.as_str(), "LIST") {
                self.server_commands.client_list(rest)
            } else if str_eq(sub.as_str(), "SETNAME") {
                self.server_commands.client_setname(rest, client_id)
            } else if str_eq(sub.as_str(), "GETNAME") {
                self.server_commands.client_getname(rest, client_id)
            } else {
                let mut msg = string_of("Unknown CLIENT subcommand: ");
                push_str(&mut msg, sub.as_str());
                Err(AikvError::InvalidCommand(msg))
            }
        }
    }

    /// CLUSTER before the cluster is set up (see `cluster_fallback_reply`).
    fn handle_cluster_fallback(args: &[Vec<u8>]) -> (r: Result<RespValue, AikvError>)
        ensures
            models(r, cluster_fallback_reply(arg_views(args@))),
    {
        proof {
            lemma_arg_views(args@);
        }
        if args.len() == 0 {
            return Err(arity_error("CLUSTER"));
        }
        let sub = arg_option(&args[0]);
        let s = sub.as_str();
        if str_eq(s, "INFO") {
            Ok(RespValue::bulk_string(text_bytes(
                "cluster_state:fail\r\ncluster_slots_assigned:0\r\ncluster_slots_ok:0\r\ncluster_slots_pfail:0\r\ncluster_slots_fail:0\r\ncluster_known_nodes:1\r\ncluster_size:0\r\ncluster_current_epoch:0\r\ncluster_my_epoch:0\r\ncluster_stats_messages_sent:0\r\ncluster_stats_messages_received:0",
            )))
        } else if str_eq(s, "NODES") {
            Ok(RespValue::bulk_string(Vec::new()))
        } else if str_eq(s, "SLOTS") || str_eq(s, "SHARDS") {
            Ok(RespValue::array(Vec::new()))
        } else if str_eq(s, "MYID") || str_eq(s, "MYSHARDID") {
            Ok(RespValue::bulk_string(text_bytes("0000000000000000000000000000000000000000")))
        } else if str_eq(s, "KEYSLOT") {
            if args.len() != 2 {
                return Err(arity_error("CLUSTER KEYSLOT"));
            }
            let slot = key_to_slot(args[1].as_slice());
            Ok(RespValue::integer(slot as i64))
        } else if str_eq(s, "SAVECONFIG") || str_eq(s, "SET-CONFIG-EPOCH") {
            Ok(RespValue::ok())
        } else if str_eq(s, "BUMPEPOCH") {
            Ok(RespValue::bulk_string(text_bytes("BUMPED 0")))
        } else if str_eq(s, "COUNT-FAILURE-REPORTS") || str_eq(s, "COUNTKEYSINSLOT") {
            Ok(RespValue::integer(0))
        } else if str_eq(s, "GETKEYSINSLOT") {
            Ok(RespValue::array(Vec::new()))
        } else {
            Err(AikvError::Internal(string_of("Cluster not initialized. Please initialize cluster node first.")))
        }
    }

    /// Checks, in cluster mode, that this node serves the keys a command
    /// is routed by (see `route_ok`).
    fn route(&self, kind: u8, args: &[Vec<u8>]) -> (r: Result<(), AikvError>)
        requires
            kind <= 4,
        ensures
            match self.spec_cluster() {
                None => r is Ok,
                Some(c) => {
                    let keys = routed_keys(kind as int, arg_views(args@));
                    (r is Ok <==> route_ok(c.spec_meta(), c.spec_node_id(), keys)) && (r matches Err(e) ==> route_failure(
                        c.spec_meta(),
                        c.spec_node_id(),
                        keys,
                        e,
                    ))
                },
            },
    {
        proof {
            lemma_arg_views(args@);
        }
        let c = match &self.cluster_commands {
            Some(c) => c,
            None => {
                return Ok(());
            },
        };
        let ghost a = arg_views(args@);
        let ghost want = routed_keys(kind as int, a);
        let mut keys: Vec<&[u8]> = Vec::new();
        if kind == 1 {
            if args.len() > 0 {
                keys.push(args[0].as_slice());
            }
        } else if kind == 2 {
            let mut i: usize = 0;
            while i < args.len()
                invariant
                    i <= args@.len(),
                    args@.len() == args.len(),
                    a == arg_views(args@),
                    a.len() == args@.len(),
                    forall|j: int| 0 <= j < args@.len() ==> #[trigger] a[j] == args@[j]@,
                    keys@.len() == i,
                    forall|j: int| 0 <= j < i ==> #[trigger] keys@[j]@ == a[j],
                decreases args.len() - i,
            {
                keys.push(args[i].as_slice());
                i = i + 1;
            }
        } else if kind == 3 {
            if args.len() >= 2 {
                keys.push(args[0].as_slice());
                keys.push(args[1].as_slice());
            }
        } else if kind == 4 {
            if args.len() >= 2 {
                let mut i: usize = 0;
                while i < args.len()
                    invariant
                        i <= args@.len(),
                        args@.len() == args.len(),
                        a == arg_views(args@),
                        a.len() == args@.len(),
                        forall|j: int| 0 <= j < args@.len() ==> #[trigger] a[j] == args@[j]@,
                        keys@.len() == (i + 1) / 2,
                        forall|j: int| 0 <= j < keys@.len() ==> #[trigger] keys@[j]@ == a[2 * j],
                    decreases args.len() - i,
                {
                    if i % 2 == 0 {
                        keys.push(args[i].as_slice());
                    }
                    i = i + 1;
                }
                proof {
                    assert(keys@.len() == (a.len() + 1) / 2);
                }
            }
        }
        proof {
            assert(keys@.map_values(|k: &[u8]| k@) =~= want);
            assert forall|j: int| 0 <= j < keys@.len() implies #[trigger] keys@[j]@ == want[j] by {
                assert(keys@.map_values(|k: &[u8]| k@)[j] == keys@[j]@);
            }
        }
        c.check_keys_slot(keys.as_slice())
    }

    /// SCRIPT LOAD | EXISTS | FLUSH | KILL against the script cache.
    fn execute_script(&mut self, args: &[Vec<u8>]) -> (r: Result<RespValue, AikvError>)
        requires
            old(self).wf(),
        ensures
            final(self).wf(),
            final(self).storage == old(self).storage,
            final(self).server_commands == old(self).server_commands,
            final(self).host == old(self).host,
            final(self).cluster_commands == old(self).cluster_commands,
            script_step(old(self).scripts.cache(), final(self).scripts.cache(), arg_views(args@), r),
    {
        proof {
            lemma_arg_views(args@);
        }
        if args.len() == 0 {
            return Err(arity_error("SCRIPT"));
        }
        let sub = arg_option(&args[0]);
        let rest = copy_range_of(args, 1, args.len());
        proof {
            assert(arg_views(rest@) =~= arg_views(args@).subrange(1, args@.len() as int));
        }
        if str_eq(sub.as_str(), "LOAD") {
            self.scripts.script_load(rest.as_slice())
        } else if str_eq(sub.as_str(), "EXISTS") {
            self.scripts.script_exists(rest.as_slice())
        } else if str_eq(sub.as_str(), "FLUSH") {
            self.scripts.script_flush()
        } else if str_eq(sub.as_str(), "KILL") {
            Err(invalid_error("NOTBUSY No scripts in execution right now."))
        } else {
            let mut msg = string_of("Unknown SCRIPT subcommand: ");
            push_str(&mut msg, sub.as_str());
            Err(AikvError::InvalidCommand(msg))
        }
    }

    /// Executes `command` (its name in any case) with `args` against the
    /// current database `current_db` for client `client_id`.
    ///
    /// The string, key, hash, list, set and database commands answer and
    /// change the keyspace as their handlers state, all at one time `now`;
    /// SELECT changes the current database. The server commands leave the
    /// keyspace alone. PING and ECHO answer their argument; any other name
    /// is an unknown command. Once a cluster handler is set, a command whose
    /// keys this node does not serve is refused first (see `route_ok`), and
    /// CLUSTER is answered from the cluster metadata.
    pub fn execute(&mut self, command: &str, args: &[Vec<u8>], current_db: &mut usize, client_id: usize) -> (r: Result<
        RespValue,
        AikvError,
    >)
        requires
            old(self).wf(),
        ensures
            final(self).wf(),
            final(self).spec_cluster() == old(self).spec_cluster(),
            final(self).spec_host() == old(self).spec_host(),
            !is_server_name(spec_to_uppercase(command@)) ==> final(self).spec_server() == old(self).spec_server(),
            spec_to_uppercase(command@) != "SCRIPT"@ ==> final(self).spec_scripts() == old(self).spec_scripts(),
            ({
                let name = spec_to_uppercase(command@);
                let a = arg_views(args@);
                let m = old(self).keyspace();
                let m2 = final(self).keyspace();
                let db = *old(current_db) as int;
                let db2 = *final(current_db) as int;
                let keys = routed_keys(route_kind(name), a);
                let c = old(self).spec_cluster();
                if c is Some && !route_ok(c.unwrap().spec_meta(), c.unwrap().spec_node_id(), keys) {
                    m2 == m && db2 == db && (r matches Err(e) && route_failure(
                        c.unwrap().spec_meta(),
                        c.unwrap().spec_node_id(),
                        keys,
                        e,
                    ))
                } else if is_string_name(name) {
                    db2 == db && exists|now: u64| outcome_holds(string_outcome(m, name, a, db, now), r, m2)
                } else if is_key_name(name) {
                    db2 == db && exists|now: u64| key_holds(m, old(self).key_seq(db, now), name, a, db, now, r, m2)
                } else if is_hash_name(name) {
                    db2 == db && exists|now: u64| outcome_holds(hash_outcome(m, name, a, db, now), r, m2)
                } else if is_list_name(name) {
                    db2 == db && exists|now: u64| outcome_holds(list_outcome(m, name, a, db, now), r, m2)
                } else if is_set_name(name) {
                    db2 == db && exists|now: u64| outcome_holds(set_outcome(m, name, a, db, now), r, m2)
                } else if is_db_name(name) {
                    exists|now: u64| db_holds(m, name, a, db, now, r, m2, db2)
                } else if is_server_name(name) {
                    m2 == m && db2 == db && server_step(
                        old(self).spec_server(),
                        final(self).spec_server(),
                        old(self).spec_host(),
                        name,
                        args@,
                        client_id,
                        r,
                    )
                } else if name == "SCRIPT"@ {
                    m2 == m && db2 == db && final(self).spec_server() == old(self).spec_server() && script_step(
                        old(self).spec_scripts(),
                        final(self).spec_scripts(),
                        a,
                        r,
                    )
                } else {
                    m2 == m && db2 == db && final(self).spec_server() == old(self).spec_server() && models(
                        r,
                        if name == "CLUSTER"@ && c is Some {
                            cluster_reply(c.unwrap().spec_meta(), c.unwrap().spec_node_id(), a)
                        } else {
                            utility_reply(command@, name, a)
                        },
                    )
                }
            }),
    {
        proof {
            lemma_arg_views(args@);
        }
        let upper = to_uppercase(command);
        let name = upper.as_str();
        let kind = route_kind_of(name);
        match self.route(kind, args) {
            Err(e) => {
                return Err(e);
            },
            Ok(()) => {},
        }
        if string_name(name) {
            let now = unix_time_millis();
            let db = *current_db;
            self.execute_string(name, args, db, now)
        } else if key_name(name) {
            let now = unix_time_millis();
            let db = *current_db;
            self.execute_key(name, args, db, now)
        } else if hash_name(name) {
            let now = unix_time_millis();
            let db = *current_db;
            self.execute_hash(name, args, db, now)
        } else if list_name(name) {
            let now = unix_time_millis();
            let db = *current_db;
            self.execute_list(name, args, db, now)
        } else if set_name(name) {
            let now = unix_time_millis();
            let db = *current_db;
            self.execute_set(name, args, db, now)
        } else if db_name(name) {
            let now = unix_time_millis();
            self.execute_db(name, args, current_db, now)
        } else if server_name(name) {
            self.execute_server(name, args, client_id)
        } else if str_eq(name, "SCRIPT") {
            self.execute_script(args)
        } else if str_eq(name, "CLUSTER") {
            match &self.cluster_commands {
                Some(c) => c.execute(args),
                None => Self::handle_cluster_fallback(args),
            }
        } else if str_eq(name, "READONLY") || str_eq(name, "READWRITE") || str_eq(name, "ASKING") {
            Ok(RespValue::ok())
        } else if str_eq(name, "PING") {
            if args.len() == 0 {
                Ok(RespValue::simple_string("PONG"))
            } else if args.len() == 1 {
                Ok(RespValue::bulk_string(copy_bytes(&args[0])))
            } else {
                Err(arity_error("PING"))
            }
        } else if str_eq(name, "ECHO") {
            if args.len() != 1 {
                return Err(arity_error("ECHO"));
            }
            Ok(RespValue::bulk_string(copy_bytes(&args[0])))
        } else {
            let mut msg = string_of("Unknown command: ");
            push_str(&mut msg, command);
            Err(AikvError::InvalidCommand(msg))
        }
    }
}

} // verus!
