//! Key commands: KEYS, SCAN, RANDOMKEY, RENAME, RENAMENX, TYPE, COPY, the
//! EXPIRE family, TTL, PTTL, PERSIST, EXPIRETIME, PEXPIRETIME, MIGRATE,
//! RESTORE.
use crate::command::pattern::{glob_spec, match_pattern};
use crate::command::reply::{
    arg_i64, arg_option, arg_text, arg_usize, arg_views, arity_error, db_range_error, int_arg, invalid_error,
    key_of, lemma_arg_views, no_such_key_error, ok_reply, option_of, outcome_holds, text_bytes, usize_arg, Failure, Reply,
};
use crate::error::AikvError;
use crate::protocol::RespValue;
use crate::command::dump::{frame_ok, verify_checksum};
use crate::storage::{
    kind_name_spec, lookup, random_below, unix_time_millis, DbView, EntryView, StorageEngine, StoredValue, ValueView,
};
use crate::text::{str_eq, views};
use vstd::prelude::*;
use vstd::utf8::encode_utf8;

verus! {

/// Databases that MIGRATE accepts as a destination.
pub const DEFAULT_DB_COUNT: usize = 16;

/// `db` names a database of `m`.
pub open spec fn db_ok(m: Seq<DbView>, db: int) -> bool {
    0 <= db < m.len()
}

/// The keys of `ks` that match `pat`, in order.
pub open spec fn matching_keys(ks: Seq<Seq<char>>, pat: Seq<char>) -> Seq<Seq<char>>
    decreases ks.len(),
{
    if ks.len() == 0 {
        Seq::empty()
    } else {
        let p = matching_keys(ks.drop_last(), pat);
        if glob_spec(pat, ks.last()) {
            p.push(ks.last())
        } else {
            p
        }
    }
}

/// Each key as a bulk string of its UTF-8 bytes.
pub open spec fn bulk_keys(ks: Seq<Seq<char>>) -> Seq<Reply> {
    ks.map_values(|k: Seq<char>| Reply::Bulk(encode_utf8(k)))
}

/// KEYS pattern, over the live keys `ks` of the database in storage order.
pub open spec fn keys_spec(m: Seq<DbView>, ks: Seq<Seq<char>>, db: int, args: Seq<Seq<u8>>) -> (Reply, Seq<DbView>) {
    if args.len() != 1 {
        (Reply::Fail(Failure::Arity("KEYS"@)), m)
    } else if !db_ok(m, db) {
        (Reply::Fail(Failure::DbRange), m)
    } else {
        (Reply::Array(bulk_keys(matching_keys(ks, key_of(args[0])))), m)
    }
}

/// SCAN's options from position `i` on: MATCH pattern and COUNT n (0 read
/// as 1).
pub open spec fn scan_options(args: Seq<Seq<u8>>, i: int, pat: Seq<char>, count: nat) -> Result<
    (Seq<char>, nat),
    Seq<char>,
>
    decreases args.len() - i,
{
    if i < 0 || i >= args.len() {
        Ok((pat, count))
    } else {
        let opt = option_of(args[i]);
        if opt == "MATCH"@ {
            if i + 1 >= args.len() {
                Err("ERR syntax error"@)
            } else {
                scan_options(args, i + 2, key_of(args[i + 1]), count)
            }
        } else if opt == "COUNT"@ {
            if i + 1 >= args.len() {
                Err("ERR syntax error"@)
            } else {
                match usize_arg(args[i + 1]) {
                    None => Err("ERR value is not an integer"@),
                    Some(c) => scan_options(
                        args,
                        i + 2,
                        pat,
                        if c == 0 {
                            1
                        } else {
                            c
                        },
                    ),
                }
            }
        } else {
            Err("ERR unknown option '"@ + opt + "'"@)
        }
    }
}

/// The page of `matched` that a SCAN from `cursor` returns with `count`,
/// and the next cursor (0 when the iteration is over). A cursor past the
/// end reads as the end.
pub open spec fn scan_page(matched: Seq<Seq<char>>, cursor: nat, count: nat) -> (nat, Seq<Seq<char>>) {
    let total = matched.len();
    let start = if cursor <= total {
        cursor
    } else {
        total
    };
    let end = if start + count < total {
        start + count
    } else {
        total
    };
    (
        if end >= total {
            0
        } else {
            end
        },
        matched.subrange(start as int, end as int),
    )
}

/// SCAN cursor [MATCH pattern] [COUNT count], over the live keys `ks` of
/// the database in storage order.
pub open spec fn scan_spec(m: Seq<DbView>, ks: Seq<Seq<char>>, db: int, args: Seq<Seq<u8>>) -> (Reply, Seq<DbView>) {
    if args.len() == 0 {
        (Reply::Fail(Failure::Arity("SCAN"@)), m)
    } else {
        match usize_arg(args[0]) {
            None => (Reply::Fail(Failure::Invalid("ERR invalid cursor"@)), m),
            Some(cursor) => match scan_options(args, 1, "*"@, 10) {
                Err(msg) => (Reply::Fail(Failure::Invalid(msg)), m),
                Ok((pat, count)) => if !db_ok(m, db) {
                    (Reply::Fail(Failure::DbRange), m)
                } else {
                    let (next, page) = scan_page(matching_keys(ks, pat), cursor, count);
                    (
                        Reply::Array(
                            seq![
                                Reply::Bulk(encode_utf8(crate::text::decimal_spec(next))),
                                Reply::Array(bulk_keys(page)),
                            ],
                        ),
                        m,
                    )
                }
            },
        }
    }
}

/// RENAME key newkey (RENAMENX when `nx`).
pub open spec fn rename_spec(m: Seq<DbView>, db: int, args: Seq<Seq<u8>>, now: u64, nx: bool) -> (Reply, Seq<DbView>) {
    if args.len() != 2 {
        (
            Reply::Fail(
                Failure::Arity(
                    if nx {
                        "RENAMENX"@
                    } else {
                        "RENAME"@
                    },
                ),
            ),
            m,
        )
    } else if !db_ok(m, db) {
        (Reply::Fail(Failure::DbRange), m)
    } else {
        let from = key_of(args[0]);
        let to = key_of(args[1]);
        match lookup(m[db], from, now) {
            None => (Reply::Fail(Failure::NoSuchKey), m),
            Some(e) => if nx && lookup(m[db], to, now) is Some {
                (Reply::Int(0), m)
            } else {
                (
                    if nx {
                        Reply::Int(1)
                    } else {
                        ok_reply()
                    },
                    m.update(db, m[db].remove(from).insert(to, e)),
                )
            },
        }
    }
}

/// TYPE key
pub open spec fn type_spec(m: Seq<DbView>, db: int, args: Seq<Seq<u8>>, now: u64) -> (Reply, Seq<DbView>) {
    if args.len() != 1 {
        (Reply::Fail(Failure::Arity("TYPE"@)), m)
    } else if !db_ok(m, db) {
        (Reply::Fail(Failure::DbRange), m)
    } else {
        (
            match lookup(m[db], key_of(args[0]), now) {
                None => Reply::Simple("none"@),
                Some(e) => Reply::Simple(kind_name_spec(e.value)),
            },
            m,
        )
    }
}

/// COPY's options from position `i` on: DB n and REPLACE.
pub open spec fn copy_options(args: Seq<Seq<u8>>, i: int, dest: int, replace: bool) -> Result<(int, bool), Seq<char>>
    decreases args.len() - i,
{
    if i < 0 || i >= args.len() {
        Ok((dest, replace))
    } else {
        let opt = option_of(args[i]);
        if opt == "DB"@ {
            if i + 1 >= args.len() {
                Err("ERR syntax error"@)
            } else {
                match usize_arg(args[i + 1]) {
                    None => Err("ERR invalid DB index"@),
                    Some(d) => copy_options(args, i + 2, d as int, replace),
                }
            }
        } else if opt == "REPLACE"@ {
            copy_options(args, i + 1, dest, true)
        } else {
            Err("ERR syntax error"@)
        }
    }
}

/// COPY source destination [DB destination-db] [REPLACE]
pub open spec fn copy_spec(m: Seq<DbView>, db: int, args: Seq<Seq<u8>>, now: u64) -> (Reply, Seq<DbView>) {
    if args.len() < 2 {
        (Reply::Fail(Failure::Arity("COPY"@)), m)
    } else {
        match copy_options(args, 2, db, false) {
            Err(msg) => (Reply::Fail(Failure::Invalid(msg)), m),
            Ok((dest, replace)) => if !db_ok(m, db) || !db_ok(m, dest) {
                (Reply::Fail(Failure::DbRange), m)
            } else {
                let src = key_of(args[0]);
                let dst = key_of(args[1]);
                match lookup(m[db], src, now) {
                    None => (Reply::Int(0), m),
                    Some(e) => if lookup(m[dest], dst, now) is Some && !replace {
                        (Reply::Int(0), m)
                    } else {
                        (Reply::Int(1), m.update(dest, m[dest].insert(dst, e)))
                    },
                }
            },
        }
    }
}

/// How an EXPIRE-family command reads its number.
pub enum ExpireKind {
    /// EXPIRE: seconds from now.
    Seconds,
    /// PEXPIRE: milliseconds from now.
    Millis,
    /// EXPIREAT: Unix time in seconds.
    AtSeconds,
    /// PEXPIREAT: Unix time in milliseconds.
    AtMillis,
}

/// The command name of an EXPIRE-family kind.
pub open spec fn expire_name(kind: ExpireKind) -> Seq<char> {
    match kind {
        ExpireKind::Seconds => "EXPIRE"@,
        ExpireKind::Millis => "PEXPIRE"@,
        ExpireKind::AtSeconds => "EXPIREAT"@,
        ExpireKind::AtMillis => "PEXPIREAT"@,
    }
}

/// The expiry time (Unix milliseconds) that a positive number `n` stands
/// for at time `now`.
pub open spec fn expire_target(kind: ExpireKind, n: int, now: u64) -> int {
    match kind {
        ExpireKind::Seconds => now + n * 1000,
        ExpireKind::Millis => now + n,
        ExpireKind::AtSeconds => n * 1000,
        ExpireKind::AtMillis => n,
    }
}

/// EXPIRE key seconds, PEXPIRE key ms, EXPIREAT key s, PEXPIREAT key ms: a
/// number not above 0 deletes the key.
pub open spec fn expire_spec(m: Seq<DbView>, db: int, args: Seq<Seq<u8>>, now: u64, kind: ExpireKind) -> (
    Reply,
    Seq<DbView>,
) {
    if args.len() != 2 {
        (Reply::Fail(Failure::Arity(expire_name(kind))), m)
    } else {
        match int_arg(args[1]) {
            None => (Reply::Fail(Failure::Invalid("ERR value is not an integer"@)), m),
            Some(n) => if !db_ok(m, db) {
                (Reply::Fail(Failure::DbRange), m)
            } else {
                let key = key_of(args[0]);
                let live = lookup(m[db], key, now) is Some;
                if n <= 0 {
                    (
                        Reply::Int(
                            if live {
                                1
                            } else {
                                0
                            },
                        ),
                        m.update(db, m[db].remove(key)),
                    )
                } else {
                    let t = expire_target(kind, n, now);
                    if t > u64::MAX {
                        (Reply::Fail(Failure::Invalid("ERR invalid expire time"@)), m)
                    } else if live {
                        (Reply::Int(1), m.update(db, m[db].insert(key, EntryView { expire_at: Some(t as u64), ..m[db][key] })))
                    } else {
                        (Reply::Int(0), m)
                    }
                }
            },
        }
    }
}

/// Remaining time to live in milliseconds (as an `i64`): -2 when the key
/// holds nothing, -1 when it never expires.
pub open spec fn ttl_ms(d: DbView, key: Seq<char>, now: u64) -> int {
    match lookup(d, key, now) {
        None => -2,
        Some(e) => match e.expire_at {
            None => -1,
            Some(t) => ((t - now) as i64) as int,
        },
    }
}

/// Expiry time in Unix milliseconds (as an `i64`): -2 when the key holds
/// nothing, -1 when it never expires.
pub open spec fn expire_time_ms(d: DbView, key: Seq<char>, now: u64) -> int {
    match lookup(d, key, now) {
        None => -2,
        Some(e) => match e.expire_at {
            None => -1,
            Some(t) => (t as i64) as int,
        },
    }
}

/// A positive millisecond count in whole seconds; other values unchanged.
pub open spec fn to_seconds(ms: int) -> int {
    if ms > 0 {
        ms / 1000
    } else {
        ms
    }
}

/// TTL, PTTL, EXPIRETIME, PEXPIRETIME: `absolute` picks the expiry time
/// over the time to live, `millis` milliseconds over seconds.
pub open spec fn ttl_spec(m: Seq<DbView>, db: int, args: Seq<Seq<u8>>, now: u64, absolute: bool, millis: bool) -> (
    Reply,
    Seq<DbView>,
) {
    let name = if absolute {
        if millis {
            "PEXPIRETIME"@
        } else {
            "EXPIRETIME"@
        }
    } else if millis {
        "PTTL"@
    } else {
        "TTL"@
    };
    if args.len() != 1 {
        (Reply::Fail(Failure::Arity(name)), m)
    } else if !db_ok(m, db) {
        (Reply::Fail(Failure::DbRange), m)
    } else {
        let key = key_of(args[0]);
        let v = if absolute {
            expire_time_ms(m[db], key, now)
        } else {
            ttl_ms(m[db], key, now)
        };
        (
            Reply::Int(
                if millis {
                    v
                } else {
                    to_seconds(v)
                },
            ),
            m,
        )
    }
}

/// PERSIST key
pub open spec fn persist_spec(m: Seq<DbView>, db: int, args: Seq<Seq<u8>>, now: u64) -> (Reply, Seq<DbView>) {
    if args.len() != 1 {
        (Reply::Fail(Failure::Arity("PERSIST"@)), m)
    } else if !db_ok(m, db) {
        (Reply::Fail(Failure::DbRange), m)
    } else {
        let key = key_of(args[0]);
        match lookup(m[db], key, now) {
            Some(e) => if e.expire_at is Some {
                (Reply::Int(1), m.update(db, m[db].insert(key, EntryView { expire_at: None, ..e })))
            } else {
                (Reply::Int(0), m)
            },
            None => (Reply::Int(0), m),
        }
    }
}

/// MIGRATE's options.
pub ghost struct MigrateOptions {
    pub copy: bool,
    pub replace: bool,
    pub keys: Seq<Seq<char>>,
}

/// The keys that the arguments from position `j` on name.
pub open spec fn keys_from(args: Seq<Seq<u8>>, j: int) -> Seq<Seq<char>> {
    args.subrange(j, args.len() as int).map_values(|a: Seq<u8>| key_of(a))
}

/// MIGRATE's options from position `i` on: COPY, REPLACE, AUTH password,
/// AUTH2 username password, and KEYS taking every remaining argument.
pub open spec fn migrate_options(args: Seq<Seq<u8>>, i: int, acc: MigrateOptions) -> Result<MigrateOptions, Seq<char>>
    decreases args.len() - i,
{
    if i < 0 || i >= args.len() {
        Ok(acc)
    } else {
        let opt = option_of(args[i]);
        if opt == "COPY"@ {
            migrate_options(args, i + 1, MigrateOptions { copy: true, ..acc })
        } else if opt == "REPLACE"@ {
            migrate_options(args, i + 1, MigrateOptions { replace: true, ..acc })
        } else if opt == "AUTH"@ {
            if i + 1 >= args.len() {
                Err("ERR syntax error"@)
            } else {
                migrate_options(args, i + 2, acc)
            }
        } else if opt == "AUTH2"@ {
            if i + 2 >= args.len() {
                Err("ERR syntax error"@)
            } else {
                migrate_options(args, i + 3, acc)
            }
        } else if opt == "KEYS"@ {
            Ok(MigrateOptions { keys: acc.keys + keys_from(args, i + 1), ..acc })
        } else {
            Err("ERR syntax error, unknown option: "@ + opt)
        }
    }
}

/// Moves (or copies) the keys in order from database `src` to `dst`;
/// counts the keys moved, or stops at the first refusal.
pub open spec fn migrate_keys(
    m: Seq<DbView>,
    src: int,
    dst: int,
    keys: Seq<Seq<char>>,
    copy: bool,
    replace: bool,
    now: u64,
) -> (Result<int, Failure>, Seq<DbView>)
    decreases keys.len(),
{
    if keys.len() == 0 {
        (Ok(0), m)
    } else {
        let (r, m1) = migrate_keys(m, src, dst, keys.drop_last(), copy, replace, now);
        match r {
            Err(f) => (Err(f), m1),
            Ok(c) => {
                let k = keys.last();
                match lookup(m1[src], k, now) {
                    None => (Ok(c), m1),
                    Some(e) => if !db_ok(m1, dst) {
                        (Err(Failure::DbRange), m1)
                    } else if lookup(m1[dst], k, now) is Some && !replace {
                        (Err(Failure::Invalid("BUSYKEY Target key name already exists"@)), m1)
                    } else {
                        let m2 = m1.update(dst, m1[dst].insert(k, e));
                        let m3 = if copy {
                            m2
                        } else {
                            m2.update(src, m2[src].remove(k))
                        };
                        (Ok(c + 1), m3)
                    },
                }
            },
        }
    }
}

/// MIGRATE host port key|"" destination-db timeout [COPY] [REPLACE] [AUTH
/// password] [AUTH2 username password] [KEYS key ...], between the
/// databases of this server.
pub open spec fn migrate_spec(m: Seq<DbView>, db: int, args: Seq<Seq<u8>>, now: u64) -> (Reply, Seq<DbView>) {
    if args.len() < 5 {
        (Reply::Fail(Failure::Arity("MIGRATE"@)), m)
    } else {
        match (usize_arg(args[3]), int_arg(args[4])) {
            (None, _) => (Reply::Fail(Failure::Invalid("ERR invalid DB index"@)), m),
            (Some(_), None) => (Reply::Fail(Failure::Invalid("ERR timeout is not an integer"@)), m),
            (Some(dest), Some(_)) => match migrate_options(
                args,
                5,
                MigrateOptions { copy: false, replace: false, keys: Seq::empty() },
            ) {
                Err(msg) => (Reply::Fail(Failure::Invalid(msg)), m),
                Ok(o) => {
                    let single = key_of(args[2]);
                    if o.keys.len() == 0 && single.len() == 0 {
                        (Reply::Fail(Failure::Invalid("ERR empty key specified"@)), m)
                    } else if dest >= DEFAULT_DB_COUNT {
                        (Reply::Fail(Failure::Invalid("ERR invalid DB index"@)), m)
                    } else if !db_ok(m, db) {
                        (Reply::Fail(Failure::DbRange), m)
                    } else {
                        let keys = if o.keys.len() == 0 {
                            seq![single]
                        } else {
                            o.keys
                        };
                        let (r, m1) = migrate_keys(m, db, dest as int, keys, o.copy, o.replace, now);
                        match r {
                            Err(f) => (Reply::Fail(f), m1),
                            Ok(c) => (
                                if c == 0 {
                                    Reply::Simple("NOKEY"@)
                                } else {
                                    ok_reply()
                                },
                                m1,
                            ),
                        }
                    }
                },
            },
        }
    }
}

/// RESTORE's options from position `i` on: REPLACE, ABSTTL, and IDLETIME
/// and FREQ, whose values are read past and not used.
pub open spec fn restore_options(a: Seq<Seq<u8>>, i: int, replace: bool, absttl: bool) -> Result<
    (bool, bool),
    Seq<char>,
>
    decreases a.len() - i,
{
    if i < 0 || i >= a.len() {
        Ok((replace, absttl))
    } else {
        let opt = option_of(a[i]);
        if opt == "REPLACE"@ {
            restore_options(a, i + 1, true, absttl)
        } else if opt == "ABSTTL"@ {
            restore_options(a, i + 1, replace, true)
        } else if opt == "IDLETIME"@ || opt == "FREQ"@ {
            if i + 1 >= a.len() {
                Err("ERR syntax error"@)
            } else {
                restore_options(a, i + 2, replace, absttl)
            }
        } else {
            Err("ERR syntax error, unknown option: "@ + opt)
        }
    }
}

/// What the value codec made of a payload, as values.
pub open spec fn decoded_view(d: Result<StoredValue, String>) -> Result<ValueView, Seq<char>> {
    match d {
        Ok(v) => Ok(v@),
        Err(e) => Err(e@),
    }
}

/// The message for a payload that RESTORE cannot use.
pub open spec fn bad_payload_msg() -> Seq<char> {
    "ERR DUMP payload version or checksum are wrong"@
}

/// RESTORE key ttl serialized-value [REPLACE] [ABSTTL] [IDLETIME s] [FREQ f]:
/// stores the value inside a DUMP frame under the key. `decoded` is what
/// the value codec makes of `frame_payload` of the third argument: the
/// value, or the codec's message.
pub open spec fn restore_spec(
    m: Seq<DbView>,
    db: int,
    a: Seq<Seq<u8>>,
    now: u64,
    decoded: Result<ValueView, Seq<char>>,
) -> (Reply, Seq<DbView>) {
    if a.len() < 3 {
        (Reply::Fail(Failure::Arity("RESTORE"@)), m)
    } else {
        match int_arg(a[1]) {
            None => (Reply::Fail(Failure::Invalid("ERR invalid TTL value"@)), m),
            Some(ttl) => match restore_options(a, 3, false, false) {
                Err(msg) => (Reply::Fail(Failure::Invalid(msg)), m),
                Ok(o) => {
                    let key = key_of(a[0]);
                    if !o.0 && !db_ok(m, db) {
                        (Reply::Fail(Failure::DbRange), m)
                    } else if !o.0 && lookup(m[db], key, now) is Some {
                        (Reply::Fail(Failure::Invalid("BUSYKEY Target key name already exists"@)), m)
                    } else if !frame_ok(a[2]) {
                        (Reply::Fail(Failure::Invalid(bad_payload_msg())), m)
                    } else {
                        match decoded {
                            Err(e) => (Reply::Fail(Failure::Invalid(bad_payload_msg() + ": "@ + e)), m),
                            Ok(v) => {
                                let at: int = if o.1 {
                                    ttl
                                } else {
                                    now + ttl
                                };
                                if ttl < 0 {
                                    (Reply::Fail(Failure::Invalid("ERR invalid TTL value, must be >= 0"@)), m)
                                } else if ttl > 0 && at > u64::MAX {
                                    (Reply::Fail(Failure::Invalid("ERR invalid TTL value"@)), m)
                                } else if !db_ok(m, db) {
                                    (Reply::Fail(Failure::DbRange), m)
                                } else {
                                    let expire_at = if ttl > 0 {
                                        Some(at as u64)
                                    } else {
                                        None
                                    };
                                    (ok_reply(), m.update(db, m[db].insert(key, EntryView { value: v, expire_at })))
                                }
                            },
                        }
                    }
                },
            },
        }
    }
}

/// RANDOMKEY over the live keys `ks`: one of them, or the null bulk string
/// when there is none.
pub open spec fn randomkey_holds(m: Seq<DbView>, ks: Seq<Seq<char>>, db: int, rep: Reply) -> bool {
    if !db_ok(m, db) {
        rep == Reply::Fail(Failure::DbRange)
    } else if ks.len() == 0 {
        rep == Reply::NullBulk
    } else {
        exists|i: int| 0 <= i < ks.len() && rep == Reply::Bulk(encode_utf8(#[trigger] ks[i]))
    }
}

/// RANDOMKEY's answer when the draw is `pick`: the key at position `pick`
/// (counted round the keys) of the live keys of the database.
pub open spec fn randomkey_pick_reply(m: Seq<DbView>, ks: Seq<Seq<char>>, db: int, pick: nat) -> Reply {
    if !db_ok(m, db) {
        Reply::Fail(Failure::DbRange)
    } else if ks.len() == 0 {
        Reply::NullBulk
    } else {
        Reply::Bulk(encode_utf8(ks[(pick % ks.len()) as int]))
    }
}


/// The EXPIRE family agree on what a number stands for: EXPIREAT with `n`
/// seconds does what PEXPIREAT with `n * 1000` milliseconds does, EXPIRE
/// with `n` seconds what PEXPIRE with `n * 1000` milliseconds does, and
/// PEXPIRE with `n > 0` milliseconds what PEXPIREAT with `now + n` does.
pub proof fn law_expire_units(
    m: Seq<DbView>,
    db: int,
    key: Seq<u8>,
    a: Seq<u8>,
    b: Seq<u8>,
    now: u64,
    n: int,
)
    requires
        int_arg(a) == Some(n),
    ensures
        int_arg(b) == Some(n * 1000) ==> expire_spec(m, db, seq![key, a], now, ExpireKind::AtSeconds) == expire_spec(
            m,
            db,
            seq![key, b],
            now,
            ExpireKind::AtMillis,
        ),
        int_arg(b) == Some(n * 1000) ==> expire_spec(m, db, seq![key, a], now, ExpireKind::Seconds) == expire_spec(
            m,
            db,
            seq![key, b],
            now,
            ExpireKind::Millis,
        ),
        n > 0 && int_arg(b) == Some(now + n) ==> expire_spec(m, db, seq![key, a], now, ExpireKind::Millis)
            == expire_spec(m, db, seq![key, b], now, ExpireKind::AtMillis),
{
}

/// PEXPIREAT with a positive Unix time `t` in milliseconds on a key that
/// holds a value answers 1, keeps the value, makes the key expire at `t`
/// and changes nothing else; until then the key's remaining life is
/// `t - now` milliseconds.
pub proof fn law_pexpireat_sets_expiry(m: Seq<DbView>, db: int, key: Seq<u8>, a: Seq<u8>, now: u64, t: int)
    requires
        int_arg(a) == Some(t),
        t > 0,
        db_ok(m, db),
        lookup(m[db], key_of(key), now) is Some,
    ensures
        ({
            let k = key_of(key);
            let r = expire_spec(m, db, seq![key, a], now, ExpireKind::AtMillis);
            &&& r.0 == Reply::Int(1)
            &&& r.1 == m.update(db, m[db].insert(k, EntryView { value: m[db][k].value, expire_at: Some(t as u64) }))
            &&& t > now ==> ttl_ms(r.1[db], k, now) == t - now
        }),
{
}

} // verus!

verus! {

/// Handles the key commands against a keyspace.
#[derive(Debug)]
pub struct KeyCommands {
    storage: StorageEngine,
}

impl View for KeyCommands {
    type V = Seq<DbView>;

    closed spec fn view(&self) -> Seq<DbView> {
        self.storage@
    }
}

/// Reads SCAN's options (see `scan_options`).
fn parse_scan_options(args: &[Vec<u8>]) -> (r: Result<(String, usize), AikvError>)
    requires
        args.len() >= 1,
    ensures
        match scan_options(arg_views(args@), 1, "*"@, 10) {
            Ok((p, c)) => r matches Ok((pat, count)) && pat@ == p && count == c,
            Err(msg) => r matches Err(e) && crate::command::reply::error_models(e, Failure::Invalid(msg)),
        },
{
    proof {
        lemma_arg_views(args@);
    }
    let ghost av = arg_views(args@);
    let mut pattern = crate::text::string_of("*");
    let mut count: usize = 10;
    let mut i: usize = 1;
    while i < args.len()
        invariant
            1 <= i <= args.len(),
            av == arg_views(args@),
            av.len() == args@.len(),
            forall|j: int| 0 <= j < args@.len() ==> #[trigger] av[j] == args@[j]@,
            scan_options(av, 1, "*"@, 10) == scan_options(av, i as int, pattern@, count as nat),
        decreases args.len() - i,
    {
        let option = arg_option(&args[i]);
        if str_eq(option.as_str(), "MATCH") {
            if i + 1 >= args.len() {
                return Err(invalid_error("ERR syntax error"));
            }
            pattern = arg_text(&args[i + 1]);
            i = i + 2;
        } else if str_eq(option.as_str(), "COUNT") {
            if i + 1 >= args.len() {
                return Err(invalid_error("ERR syntax error"));
            }
            match arg_usize(&args[i + 1]) {
                None => {
                    return Err(invalid_error("ERR value is not an integer"));
                },
                Some(c) => {
                    count = if c == 0 {
                        1
                    } else {
                        c
                    };
                },
            }
            i = i + 2;
        } else {
            let mut msg = crate::text::string_of("ERR unknown option '");
            crate::text::push_str(&mut msg, option.as_str());
            crate::text::push_str(&mut msg, "'");
            proof {
                assert(msg@ == "ERR unknown option '"@ + option@ + "'"@);
            }
            return Err(AikvError::InvalidArgument(msg));
        }
    }
    Ok((pattern, count))
}

/// Reads COPY's options (see `copy_options`).
fn parse_copy_options(args: &[Vec<u8>], current_db: usize) -> (r: Result<(usize, bool), AikvError>)
    requires
        args.len() >= 2,
    ensures
        match copy_options(arg_views(args@), 2, current_db as int, false) {
            Ok((d, rep)) => r matches Ok((dest, replace)) && dest == d && replace == rep,
            Err(msg) => r matches Err(e) && crate::command::reply::error_models(e, Failure::Invalid(msg)),
        },
{
    proof {
        lemma_arg_views(args@);
    }
    let ghost av = arg_views(args@);
    let mut dest = current_db;
    let mut replace = false;
    let mut i: usize = 2;
    while i < args.len()
        invariant
            2 <= i <= args.len(),
            av == arg_views(args@),
            av.len() == args@.len(),
            forall|j: int| 0 <= j < args@.len() ==> #[trigger] av[j] == args@[j]@,
            copy_options(av, 2, current_db as int, false) == copy_options(av, i as int, dest as int, replace),
        decreases args.len() - i,
    {
        let option = arg_option(&args[i]);
        if str_eq(option.as_str(), "DB") {
            if i + 1 >= args.len() {
                return Err(invalid_error("ERR syntax error"));
            }
            match arg_usize(&args[i + 1]) {
                None => {
                    return Err(invalid_error("ERR invalid DB index"));
                },
                Some(d) => {
                    dest = d;
                },
            }
            i = i + 2;
        } else if str_eq(option.as_str(), "REPLACE") {
            replace = true;
            i = i + 1;
        } else {
            return Err(invalid_error("ERR syntax error"));
        }
    }
    Ok((dest, replace))
}

/// The keys of `keys` that match `pattern`, in order.
fn filter_keys(keys: &Vec<String>, pattern: &str) -> (r: Vec<String>)
    ensures
        views(r@) == matching_keys(views(keys@), pattern@),
{
    let ghost ks = views(keys@);
    let mut r: Vec<String> = Vec::new();
    let mut i: usize = 0;
    while i < keys.len()
        invariant
            i <= keys.len(),
            ks == views(keys@),
            ks.len() == keys@.len(),
            views(r@) == matching_keys(ks.take(i as int), pattern@),
        decreases keys.len() - i,
    {
        proof {
            assert(ks.take(i + 1).drop_last() =~= ks.take(i as int));
            assert(ks.take(i + 1).last() == keys@[i as int]@);
        }
        if match_pattern(keys[i].as_str(), pattern) {
            r.push(keys[i].clone());
        }
        i = i + 1;
        proof {
            assert(views(r@) =~= matching_keys(ks.take(i as int), pattern@));
        }
    }
    proof {
        assert(ks.take(keys.len() as int) =~= ks);
    }
    r
}

/// The keys `keys[from..to]` as bulk strings.
fn bulk_of_keys(keys: &Vec<String>, from: usize, to: usize) -> (r: Vec<RespValue>)
    requires
        from <= to <= keys.len(),
    ensures
        r@.len() == to - from,
        forall|i: int| 0 <= i < r@.len() ==> crate::command::reply::value_models(#[trigger] r@[i], bulk_keys(views(keys@).subrange(from as int, to as int))[i]),
{
    let ghost ks = views(keys@).subrange(from as int, to as int);
    let mut r: Vec<RespValue> = Vec::new();
    let mut i: usize = from;
    while i < to
        invariant
            from <= i <= to,
            to <= keys.len(),
            ks == views(keys@).subrange(from as int, to as int),
            r@.len() == i - from,
            forall|j: int| 0 <= j < r@.len() ==> crate::command::reply::value_models(#[trigger] r@[j], bulk_keys(ks)[j]),
        decreases to - i,
    {
        proof {
            assert(ks[i - from] == keys@[i as int]@);
        }
        r.push(RespValue::bulk_string(text_bytes(keys[i].as_str())));
        i = i + 1;
    }
    r
}

proof fn lemma_migrate_err_extends(
    m: Seq<DbView>,
    src: int,
    dst: int,
    keys: Seq<Seq<char>>,
    j: int,
    copy: bool,
    replace: bool,
    now: u64,
)
    requires
        0 <= j <= keys.len(),
        migrate_keys(m, src, dst, keys.take(j), copy, replace, now).0 is Err,
    ensures
        migrate_keys(m, src, dst, keys, copy, replace, now) == migrate_keys(m, src, dst, keys.take(j), copy, replace, now),
    decreases keys.len() - j,
{
    if j < keys.len() {
        assert(keys.take(j + 1).drop_last() =~= keys.take(j));
        lemma_migrate_err_extends(m, src, dst, keys, j + 1, copy, replace, now);
    } else {
        assert(keys.take(j) =~= keys);
    }
}

/// Reads MIGRATE's options (see `migrate_options`).
fn parse_migrate_options(args: &[Vec<u8>]) -> (r: Result<(bool, bool, Vec<String>), AikvError>)
    requires
        args.len() >= 5,
    ensures
        match migrate_options(arg_views(args@), 5, MigrateOptions { copy: false, replace: false, keys: Seq::empty() }) {
            Ok(o) => r matches Ok((copy, replace, keys)) && copy == o.copy && replace == o.replace && views(keys@) == o.keys,
            Err(msg) => r matches Err(e) && crate::command::reply::error_models(e, Failure::Invalid(msg)),
        },
{
    proof {
        lemma_arg_views(args@);
    }
    let ghost av = arg_views(args@);
    let mut copy = false;
    let mut replace = false;
    let mut keys: Vec<String> = Vec::new();
    let mut i: usize = 5;
    while i < args.len()
        invariant
            5 <= i <= args.len(),
            av == arg_views(args@),
            av.len() == args@.len(),
            forall|j: int| 0 <= j < args@.len() ==> #[trigger] av[j] == args@[j]@,
            keys@.len() == 0,
            migrate_options(av, 5, MigrateOptions { copy: false, replace: false, keys: Seq::empty() }) == migrate_options(
                av,
                i as int,
                MigrateOptions { copy, replace, keys: Seq::empty() },
            ),
        decreases args.len() - i,
    {
        let option = arg_option(&args[i]);
        if str_eq(option.as_str(), "COPY") {
            copy = true;
            i = i + 1;
        } else if str_eq(option.as_str(), "REPLACE") {
            replace = true;
            i = i + 1;
        } else if str_eq(option.as_str(), "AUTH") {
            if i + 1 >= args.len() {
                return Err(invalid_error("ERR syntax error"));
            }
            i = i + 2;
        } else if str_eq(option.as_str(), "AUTH2") {
            if args.len() - i <= 2 {
                return Err(invalid_error("ERR syntax error"));
            }
            i = i + 3;
        } else if str_eq(option.as_str(), "KEYS") {
            let ghost start = i + 1;
            let mut j: usize = i + 1;
            while j < args.len()
                invariant
                    start <= j <= args.len(),
                    av == arg_views(args@),
                    av.len() == args@.len(),
                    forall|k: int| 0 <= k < args@.len() ==> #[trigger] av[k] == args@[k]@,
                    keys@.len() == j - start,
                    forall|k: int| 0 <= k < keys@.len() ==> #[trigger] keys@[k]@ == key_of(av[start + k]),
                decreases args.len() - j,
            {
                keys.push(arg_text(&args[j]));
                j = j + 1;
            }
            proof {
                assert(views(keys@) =~= Seq::<Seq<char>>::empty() + keys_from(av, start as int));
            }
            return Ok((copy, replace, keys));
        } else {
            let mut msg = crate::text::string_of("ERR syntax error, unknown option: ");
            crate::text::push_str(&mut msg, option.as_str());
            return Err(AikvError::InvalidArgument(msg));
        }
    }
    proof {
        assert(views(keys@) =~= Seq::<Seq<char>>::empty());
    }
    Ok((copy, replace, keys))
}

impl KeyCommands {
    /// The handler's keyspace is well formed.
    pub closed spec fn wf(&self) -> bool {
        self.storage.wf()
    }

    /// The live keys of database `db` at time `now`, in storage order.
    pub closed spec fn key_seq(&self, db: int, now: u64) -> Seq<Seq<char>> {
        self.storage.live_key_seq(db, now)
    }

    /// A handler over `storage`.
    pub fn new(storage: StorageEngine) -> (r: Self)
        requires
            storage.wf(),
        ensures
            r.wf(),
            r@ == storage@,
            forall|db: int, now: u64| #[trigger] r.key_seq(db, now) == storage.live_key_seq(db, now),
    {
        KeyCommands { storage }
    }

    /// Gives the keyspace back.
    pub fn into_storage(self) -> (r: StorageEngine)
        requires
            self.wf(),
        ensures
            r.wf(),
            r@ == self@,
    {
        self.storage
    }

    /// KEYS at time `now`.
    pub fn keys_at(&self, args: &[Vec<u8>], current_db: usize, now: u64) -> (r: Result<RespValue, AikvError>)
        requires
            self.wf(),
        ensures
            outcome_holds(keys_spec(self@, self.key_seq(current_db as int, now), current_db as int, arg_views(args@)), r, self@),
    {
        proof {
            lemma_arg_views(args@);
        }
        if args.len() != 1 {
            return Err(arity_error("KEYS"));
        }
        if current_db >= self.storage.num_dbs() {
            return Err(db_range_error());
        }
        let pattern = arg_text(&args[0]);
        let all_keys = self.storage.get_all_keys_in_db(current_db, now);
        let matched = filter_keys(&all_keys, pattern.as_str());
        let items = bulk_of_keys(&matched, 0, matched.len());
        let r = RespValue::array(items);
        proof {
            assert(views(matched@).subrange(0, matched@.len() as int) =~= views(matched@));
        }
        proof {
            assert(crate::command::reply::value_models(
                r,
                Reply::Array(bulk_keys(matching_keys(self.key_seq(current_db as int, now), pattern@))),
            ));
        }
        Ok(r)
    }

    /// KEYS pattern: the keys that match the pattern.
    pub fn keys(&self, args: &[Vec<u8>], current_db: usize) -> (r: Result<RespValue, AikvError>)
        requires
            self.wf(),
        ensures
            exists|now: u64| outcome_holds(keys_spec(self@, self.key_seq(current_db as int, now), current_db as int, arg_views(args@)), r, self@),
    {
        let now = unix_time_millis();
        let r = self.keys_at(args, current_db, now);
        proof {
            assert(outcome_holds(keys_spec(self@, self.key_seq(current_db as int, now), current_db as int, arg_views(args@)), r, self@));
        }
        r
    }

    /// SCAN at time `now`.
    pub fn scan_at(&self, args: &[Vec<u8>], current_db: usize, now: u64) -> (r: Result<RespValue, AikvError>)
        requires
            self.wf(),
        ensures
            outcome_holds(scan_spec(self@, self.key_seq(current_db as int, now), current_db as int, arg_views(args@)), r, self@),
    {
        proof {
            lemma_arg_views(args@);
        }
        if args.len() == 0 {
            return Err(arity_error("SCAN"));
        }
        let cursor = match arg_usize(&args[0]) {
            Some(c) => c,
            None => {
                return Err(invalid_error("ERR invalid cursor"));
            },
        };
        let (pattern, count) = match parse_scan_options(args) {
            Ok(o) => o,
            Err(e) => {
                return Err(e);
            },
        };
        if current_db >= self.storage.num_dbs() {
            return Err(db_range_error());
        }
        let all_keys = self.storage.get_all_keys_in_db(current_db, now);
        let matched = filter_keys(&all_keys, pattern.as_str());
        let ghost mk = views(matched@);
        let total = matched.len();
        let start = if cursor <= total {
            cursor
        } else {
            total
        };
        let end = if count < total - start {
            start + count
        } else {
            total
        };
        let next_cursor = if end >= total {
            0
        } else {
            end
        };
        let page = bulk_of_keys(&matched, start, end);
        let cursor_text = crate::text::u64_to_decimal(next_cursor as u64);
        let head = RespValue::bulk_string(text_bytes(cursor_text.as_str()));
        let inner = RespValue::array(page);
        let ghost (nx, pg) = scan_page(mk, cursor as nat, count as nat);
        proof {
            assert(nx == next_cursor);
            assert(pg == mk.subrange(start as int, end as int));
            assert(crate::command::reply::value_models(inner, Reply::Array(bulk_keys(pg))));
            assert(crate::command::reply::value_models(head, Reply::Bulk(encode_utf8(crate::text::decimal_spec(nx)))));
        }
        let mut items: Vec<RespValue> = Vec::new();
        items.push(head);
        items.push(inner);
        let r = RespValue::array(items);
        proof {
            let want = seq![Reply::Bulk(encode_utf8(crate::text::decimal_spec(nx))), Reply::Array(bulk_keys(pg))];
            assert(crate::command::reply::value_models(r, Reply::Array(want)));
        }
        Ok(r)
    }

    /// SCAN cursor [MATCH pattern] [COUNT count]: the next page of matching
    /// keys and the cursor that follows it.
    pub fn scan(&self, args: &[Vec<u8>], current_db: usize) -> (r: Result<RespValue, AikvError>)
        requires
            self.wf(),
        ensures
            exists|now: u64| outcome_holds(scan_spec(self@, self.key_seq(current_db as int, now), current_db as int, arg_views(args@)), r, self@),
    {
        let now = unix_time_millis();
        let r = self.scan_at(args, current_db, now);
        proof {
            assert(outcome_holds(scan_spec(self@, self.key_seq(current_db as int, now), current_db as int, arg_views(args@)), r, self@));
        }
        r
    }

    /// RENAME (RENAMENX when `nx`) at time `now`.
    pub fn rename_at(&mut self, args: &[Vec<u8>], current_db: usize, now: u64, nx: bool) -> (r: Result<
        RespValue,
        AikvError,
    >)
        requires
            old(self).wf(),
        ensures
            final(self).wf(),
            outcome_holds(rename_spec(old(self)@, current_db as int, arg_views(args@), now, nx), r, final(self)@),
    {
        proof {
            lemma_arg_views(args@);
        }
        if args.len() != 2 {
            return Err(arity_error(
                if nx {
                    "RENAMENX"
                } else {
                    "RENAME"
                },
            ));
        }
        if current_db >= self.storage.num_dbs() {
            return Err(db_range_error());
        }
        let old_key = arg_text(&args[0]);
        let new_key = arg_text(&args[1]);
        let (value, expire_at) = match self.storage.get_entry(current_db, old_key.as_str(), now) {
            Some(e) => e,
            None => {
                return Err(no_such_key_error());
            },
        };
        if nx && self.storage.exists_in_db(current_db, new_key.as_str(), now) {
            return Ok(RespValue::integer(0));
        }
        let ghost e = EntryView { value: value@, expire_at };
        let ghost m0 = self@;
        proof {
            assert(lookup(m0[current_db as int], old_key@, now) == Some(e));
        }
        self.storage.delete_from_db(current_db, old_key.as_str(), now);
        self.storage.set_value(current_db, new_key, value, expire_at);
        proof {
            assert(self@ =~= m0.update(current_db as int, m0[current_db as int].remove(old_key@).insert(new_key@, e)));
        }
        if nx {
            Ok(RespValue::integer(1))
        } else {
            Ok(RespValue::ok())
        }
    }

    /// RENAME key newkey: moves the key's value and expiry to the new name.
    pub fn rename(&mut self, args: &[Vec<u8>], current_db: usize) -> (r: Result<RespValue, AikvError>)
        requires
            old(self).wf(),
        ensures
            final(self).wf(),
            exists|now: u64| outcome_holds(rename_spec(old(self)@, current_db as int, arg_views(args@), now, false), r, final(self)@),
    {
        let now = unix_time_millis();
        let r = self.rename_at(args, current_db, now, false);
        proof {
            assert(outcome_holds(rename_spec(old(self)@, current_db as int, arg_views(args@), now, false), r, self@));
        }
        r
    }

    /// RENAMENX key newkey: renames only when the new name holds nothing;
    /// answers 1 when it did.
    pub fn renamenx(&mut self, args: &[Vec<u8>], current_db: usize) -> (r: Result<RespValue, AikvError>)
        requires
            old(self).wf(),
        ensures
            final(self).wf(),
            exists|now: u64| outcome_holds(rename_spec(old(self)@, current_db as int, arg_views(args@), now, true), r, final(self)@),
    {
        let now = unix_time_millis();
        let r = self.rename_at(args, current_db, now, true);
        proof {
            assert(outcome_holds(rename_spec(old(self)@, current_db as int, arg_views(args@), now, true), r, self@));
        }
        r
    }

    /// TYPE at time `now`.
    pub fn get_type_at(&self, args: &[Vec<u8>], current_db: usize, now: u64) -> (r: Result<RespValue, AikvError>)
        requires
            self.wf(),
        ensures
            outcome_holds(type_spec(self@, current_db as int, arg_views(args@), now), r, self@),
    {
        proof {
            lemma_arg_views(args@);
        }
        if args.len() != 1 {
            return Err(arity_error("TYPE"));
        }
        if current_db >= self.storage.num_dbs() {
            return Err(db_range_error());
        }
        let key = arg_text(&args[0]);
        match self.storage.get_value(current_db, key.as_str(), now) {
            Some(v) => Ok(RespValue::simple_string(v.kind_name())),
            None => Ok(RespValue::simple_string("none")),
        }
    }

    /// TYPE key: the kind of value the key holds, or "none".
    pub fn get_type(&self, args: &[Vec<u8>], current_db: usize) -> (r: Result<RespValue, AikvError>)
        requires
            self.wf(),
        ensures
            exists|now: u64| outcome_holds(type_spec(self@, current_db as int, arg_views(args@), now), r, self@),
    {
        let now = unix_time_millis();
        let r = self.get_type_at(args, current_db, now);
        proof {
            assert(outcome_holds(type_spec(self@, current_db as int, arg_views(args@), now), r, self@));
        }
        r
    }

    /// COPY at time `now`.
    pub fn copy_at(&mut self, args: &[Vec<u8>], current_db: usize, now: u64) -> (r: Result<RespValue, AikvError>)
        requires
            old(self).wf(),
        ensures
            final(self).wf(),
            outcome_holds(copy_spec(old(self)@, current_db as int, arg_views(args@), now), r, final(self)@),
    {
        proof {
            lemma_arg_views(args@);
        }
        if args.len() < 2 {
            return Err(arity_error("COPY"));
        }
        let (dest_db, replace) = match parse_copy_options(args, current_db) {
            Ok(o) => o,
            Err(e) => {
                return Err(e);
            },
        };
        if current_db >= self.storage.num_dbs() || dest_db >= self.storage.num_dbs() {
            return Err(db_range_error());
        }
        let src_key = arg_text(&args[0]);
        let dst_key = arg_text(&args[1]);
        let (value, expire_at) = match self.storage.get_entry(current_db, src_key.as_str(), now) {
            Some(e) => e,
            None => {
                return Ok(RespValue::integer(0));
            },
        };
        if self.storage.exists_in_db(dest_db, dst_key.as_str(), now) && !replace {
            return Ok(RespValue::integer(0));
        }
        self.storage.set_value(dest_db, dst_key, value, expire_at);
        Ok(RespValue::integer(1))
    }

    /// COPY source destination [DB destination-db] [REPLACE]: copies the
    /// value and expiry; answers 1 when it did.
    pub fn copy(&mut self, args: &[Vec<u8>], current_db: usize) -> (r: Result<RespValue, AikvError>)
        requires
            old(self).wf(),
        ensures
            final(self).wf(),
            exists|now: u64| outcome_holds(copy_spec(old(self)@, current_db as int, arg_views(args@), now), r, final(self)@),
    {
        let now = unix_time_millis();
        let r = self.copy_at(args, current_db, now);
        proof {
            assert(outcome_holds(copy_spec(old(self)@, current_db as int, arg_views(args@), now), r, self@));
        }
        r
    }

    /// An EXPIRE-family command of the given kind at time `now`.
    pub fn expire_at(&mut self, args: &[Vec<u8>], current_db: usize, now: u64, kind: ExpireKind) -> (r: Result<
        RespValue,
        AikvError,
    >)
        requires
            old(self).wf(),
        ensures
            final(self).wf(),
            outcome_holds(expire_spec(old(self)@, current_db as int, arg_views(args@), now, kind), r, final(self)@),
    {
        proof {
            lemma_arg_views(args@);
        }
        if args.len() != 2 {
            return Err(arity_error(
                match kind {
                    ExpireKind::Seconds => "EXPIRE",
                    ExpireKind::Millis => "PEXPIRE",
                    ExpireKind::AtSeconds => "EXPIREAT",
                    ExpireKind::AtMillis => "PEXPIREAT",
                },
            ));
        }
        let n = match arg_i64(&args[1]) {
            Some(v) => v,
            None => {
                return Err(invalid_error("ERR value is not an integer"));
            },
        };
        if current_db >= self.storage.num_dbs() {
            return Err(db_range_error());
        }
        let key = arg_text(&args[0]);
        if n <= 0 {
            let deleted = self.storage.delete_from_db(current_db, key.as_str(), now);
            return Ok(RespValue::integer(
                if deleted {
                    1
                } else {
                    0
                },
            ));
        }
        let v = n as u64;
        let target: Option<u64> = match kind {
            ExpireKind::Seconds => if v <= u64::MAX / 1000 && now <= u64::MAX - v * 1000 {
                Some(now + v * 1000)
            } else {
                None
            },
            ExpireKind::Millis => if now <= u64::MAX - v {
                Some(now + v)
            } else {
                None
            },
            ExpireKind::AtSeconds => if v <= u64::MAX / 1000 {
                Some(v * 1000)
            } else {
                None
            },
            ExpireKind::AtMillis => Some(v),
        };
        let t = match target {
            Some(t) => t,
            None => {
                return Err(invalid_error("ERR invalid expire time"));
            },
        };
        let set = self.storage.set_expire(current_db, key.as_str(), Some(t), now);
        Ok(RespValue::integer(
            if set {
                1
            } else {
                0
            },
        ))
    }

    /// EXPIRE key seconds: the key expires the seconds from now (a number
    /// not above 0 deletes it); answers 1 when the key held a value.
    pub fn expire(&mut self, args: &[Vec<u8>], current_db: usize) -> (r: Result<RespValue, AikvError>)
        requires
            old(self).wf(),
        ensures
            final(self).wf(),
            exists|now: u64| outcome_holds(expire_spec(old(self)@, current_db as int, arg_views(args@), now, ExpireKind::Seconds), r, final(self)@),
    {
        let now = unix_time_millis();
        let r = self.expire_at(args, current_db, now, ExpireKind::Seconds);
        proof {
            assert(outcome_holds(expire_spec(old(self)@, current_db as int, arg_views(args@), now, ExpireKind::Seconds), r, self@));
        }
        r
    }

    /// EXPIREAT key unix-seconds.
    pub fn expireat(&mut self, args: &[Vec<u8>], current_db: usize) -> (r: Result<RespValue, AikvError>)
        requires
            old(self).wf(),
        ensures
            final(self).wf(),
            exists|now: u64| outcome_holds(expire_spec(old(self)@, current_db as int, arg_views(args@), now, ExpireKind::AtSeconds), r, final(self)@),
    {
        let now = unix_time_millis();
        let r = self.expire_at(args, current_db, now, ExpireKind::AtSeconds);
        proof {
            assert(outcome_holds(expire_spec(old(self)@, current_db as int, arg_views(args@), now, ExpireKind::AtSeconds), r, self@));
        }
        r
    }

    /// PEXPIRE key milliseconds.
    pub fn pexpire(&mut self, args: &[Vec<u8>], current_db: usize) -> (r: Result<RespValue, AikvError>)
        requires
            old(self).wf(),
        ensures
            final(self).wf(),
            exists|now: u64| outcome_holds(expire_spec(old(self)@, current_db as int, arg_views(args@), now, ExpireKind::Millis), r, final(self)@),
    {
        let now = unix_time_millis();
        let r = self.expire_at(args, current_db, now, ExpireKind::Millis);
        proof {
            assert(outcome_holds(expire_spec(old(self)@, current_db as int, arg_views(args@), now, ExpireKind::Millis), r, self@));
        }
        r
    }

    /// PEXPIREAT key unix-milliseconds.
    pub fn pexpireat(&mut self, args: &[Vec<u8>], current_db: usize) -> (r: Result<RespValue, AikvError>)
        requires
            old(self).wf(),
        ensures
            final(self).wf(),
            exists|now: u64| outcome_holds(expire_spec(old(self)@, current_db as int, arg_views(args@), now, ExpireKind::AtMillis), r, final(self)@),
    {
        let now = unix_time_millis();
        let r = self.expire_at(args, current_db, now, ExpireKind::AtMillis);
        proof {
            assert(outcome_holds(expire_spec(old(self)@, current_db as int, arg_views(args@), now, ExpireKind::AtMillis), r, self@));
        }
        r
    }

    /// TTL, PTTL, EXPIRETIME or PEXPIRETIME at time `now` (see `ttl_spec`).
    pub fn ttl_at(&self, args: &[Vec<u8>], current_db: usize, now: u64, absolute: bool, millis: bool) -> (r: Result<
        RespValue,
        AikvError,
    >)
        requires
            self.wf(),
        ensures
            outcome_holds(ttl_spec(self@, current_db as int, arg_views(args@), now, absolute, millis), r, self@),
    {
        proof {
            lemma_arg_views(args@);
        }
        if args.len() != 1 {
            return Err(arity_error(
                if absolute {
                    if millis {
                        "PEXPIRETIME"
                    } else {
                        "EXPIRETIME"
                    }
                } else if millis {
                    "PTTL"
                } else {
                    "TTL"
                },
            ));
        }
        if current_db >= self.storage.num_dbs() {
            return Err(db_range_error());
        }
        let key = arg_text(&args[0]);
        let v: i64 = match self.storage.get_expire(current_db, key.as_str(), now) {
            None => -2,
            Some(None) => -1,
            Some(Some(t)) => if absolute {
                t as i64
            } else {
                (t - now) as i64
            },
        };
        let ghost spec_v: int = if absolute {
            expire_time_ms(self@[current_db as int], key@, now)
        } else {
            ttl_ms(self@[current_db as int], key@, now)
        };
        let out = if millis {
            v
        } else if v > 0 {
            v / 1000
        } else {
            v
        };
        proof {
            assert(v == spec_v);
        }
        Ok(RespValue::integer(out))
    }

    /// TTL key: seconds left to live, -1 when the key never expires, -2
    /// when it holds nothing.
    pub fn ttl(&self, args: &[Vec<u8>], current_db: usize) -> (r: Result<RespValue, AikvError>)
        requires
            self.wf(),
        ensures
            exists|now: u64| outcome_holds(ttl_spec(self@, current_db as int, arg_views(args@), now, false, false), r, self@),
    {
        let now = unix_time_millis();
        let r = self.ttl_at(args, current_db, now, false, false);
        proof {
            assert(outcome_holds(ttl_spec(self@, current_db as int, arg_views(args@), now, false, false), r, self@));
        }
        r
    }

    /// PTTL key: milliseconds left to live, -1 or -2 as for TTL.
    pub fn pttl(&self, args: &[Vec<u8>], current_db: usize) -> (r: Result<RespValue, AikvError>)
        requires
            self.wf(),
        ensures
            exists|now: u64| outcome_holds(ttl_spec(self@, current_db as int, arg_views(args@), now, false, true), r, self@),
    {
        let now = unix_time_millis();
        let r = self.ttl_at(args, current_db, now, false, true);
        proof {
            assert(outcome_holds(ttl_spec(self@, current_db as int, arg_views(args@), now, false, true), r, self@));
        }
        r
    }

    /// EXPIRETIME key: the expiry as Unix seconds, -1 or -2 as for TTL.
    pub fn expiretime(&self, args: &[Vec<u8>], current_db: usize) -> (r: Result<RespValue, AikvError>)
        requires
            self.wf(),
        ensures
            exists|now: u64| outcome_holds(ttl_spec(self@, current_db as int, arg_views(args@), now, true, false), r, self@),
    {
        let now = unix_time_millis();
        let r = self.ttl_at(args, current_db, now, true, false);
        proof {
            assert(outcome_holds(ttl_spec(self@, current_db as int, arg_views(args@), now, true, false), r, self@));
        }
        r
    }

    /// PEXPIRETIME key: the expiry as Unix milliseconds, -1 or -2 as for
    /// TTL.
    pub fn pexpiretime(&self, args: &[Vec<u8>], current_db: usize) -> (r: Result<RespValue, AikvError>)
        requires
            self.wf(),
        ensures
            exists|now: u64| outcome_holds(ttl_spec(self@, current_db as int, arg_views(args@), now, true, true), r, self@),
    {
        let now = unix_time_millis();
        let r = self.ttl_at(args, current_db, now, true, true);
        proof {
            assert(outcome_holds(ttl_spec(self@, current_db as int, arg_views(args@), now, true, true), r, self@));
        }
        r
    }

    /// PERSIST at time `now`.
    pub fn persist_at(&mut self, args: &[Vec<u8>], current_db: usize, now: u64) -> (r: Result<RespValue, AikvError>)
        requires
            old(self).wf(),
        ensures
            final(self).wf(),
            outcome_holds(persist_spec(old(self)@, current_db as int, arg_views(args@), now), r, final(self)@),
    {
        proof {
            lemma_arg_views(args@);
        }
        if args.len() != 1 {
            return Err(arity_error("PERSIST"));
        }
        if current_db >= self.storage.num_dbs() {
            return Err(db_range_error());
        }
        let key = arg_text(&args[0]);
        match self.storage.get_expire(current_db, key.as_str(), now) {
            Some(Some(_)) => {
                self.storage.set_expire(current_db, key.as_str(), None, now);
                Ok(RespValue::integer(1))
            },
            _ => Ok(RespValue::integer(0)),
        }
    }

    /// PERSIST key: removes the key's expiry; answers 1 when it had one.
    pub fn persist(&mut self, args: &[Vec<u8>], current_db: usize) -> (r: Result<RespValue, AikvError>)
        requires
            old(self).wf(),
        ensures
            final(self).wf(),
            exists|now: u64| outcome_holds(persist_spec(old(self)@, current_db as int, arg_views(args@), now), r, final(self)@),
    {
        let now = unix_time_millis();
        let r = self.persist_at(args, current_db, now);
        proof {
            assert(outcome_holds(persist_spec(old(self)@, current_db as int, arg_views(args@), now), r, self@));
        }
        r
    }

    /// Moves (or copies) the keys in order (see `migrate_keys`).
    fn migrate_keys_loop(
        &mut self,
        keys: &Vec<String>,
        current_db: usize,
        dest_db: usize,
        copy: bool,
        replace: bool,
        now: u64,
    ) -> (r: Result<usize, AikvError>)
        requires
            old(self).wf(),
            current_db < old(self)@.len(),
        ensures
            final(self).wf(),
            final(self)@ == migrate_keys(old(self)@, current_db as int, dest_db as int, views(keys@), copy, replace, now).1,
            match migrate_keys(old(self)@, current_db as int, dest_db as int, views(keys@), copy, replace, now).0 {
                Ok(c) => r matches Ok(n) && n as int == c,
                Err(f) => r matches Err(e) && crate::command::reply::error_models(e, f),
            },
    {
        let ghost ks = views(keys@);
        let ghost m0 = self@;
        let mut migrated: usize = 0;
        let mut i: usize = 0;
        proof {
            assert(ks.take(0) =~= Seq::<Seq<char>>::empty());
        }
        while i < keys.len()
            invariant
                i <= keys.len(),
                ks == views(keys@),
                ks.len() == keys@.len(),
                self.wf(),
                current_db < self@.len(),
                self@.len() == m0.len(),
                m0 == old(self)@,
                migrate_keys(m0, current_db as int, dest_db as int, ks.take(i as int), copy, replace, now) == (
                    Ok::<int, Failure>(migrated as int),
                    self@,
                ),
                migrated <= i,
            decreases keys.len() - i,
        {
            proof {
                assert(ks.take(i + 1).drop_last() =~= ks.take(i as int));
                assert(ks.take(i + 1).last() == keys@[i as int]@);
            }
            let key = keys[i].as_str();
            match self.storage.get_entry(current_db, key, now) {
                None => {},
                Some((value, expire_at)) => {
                    if dest_db >= self.storage.num_dbs() {
                        proof {
                            lemma_migrate_err_extends(m0, current_db as int, dest_db as int, ks, i + 1, copy, replace, now);
                        }
                        return Err(db_range_error());
                    }
                    if self.storage.exists_in_db(dest_db, key, now) && !replace {
                        proof {
                            lemma_migrate_err_extends(m0, current_db as int, dest_db as int, ks, i + 1, copy, replace, now);
                        }
                        return Err(invalid_error("BUSYKEY Target key name already exists"));
                    }
                    let ghost e = EntryView { value: value@, expire_at };
                    let ghost m1 = self@;
                    self.storage.set_value(dest_db, keys[i].clone(), value, expire_at);
                    if !copy {
                        self.storage.delete_from_db(current_db, key, now);
                    }
                    proof {
                        let m2 = m1.update(dest_db as int, m1[dest_db as int].insert(ks[i as int], e));
                        assert(lookup(m1[current_db as int], ks[i as int], now) == Some(e));
                        if copy {
                            assert(self@ =~= m2);
                        } else {
                            assert(self@ =~= m2.update(current_db as int, m2[current_db as int].remove(ks[i as int])));
                        }
                    }
                    migrated = migrated + 1;
                },
            }
            i = i + 1;
        }
        proof {
            assert(ks.take(keys.len() as int) =~= ks);
        }
        Ok(migrated)
    }

    /// MIGRATE at time `now`.
    pub fn migrate_at(&mut self, args: &[Vec<u8>], current_db: usize, now: u64) -> (r: Result<RespValue, AikvError>)
        requires
            old(self).wf(),
        ensures
            final(self).wf(),
            outcome_holds(migrate_spec(old(self)@, current_db as int, arg_views(args@), now), r, final(self)@),
    {
        proof {
            lemma_arg_views(args@);
        }
        if args.len() < 5 {
            return Err(arity_error("MIGRATE"));
        }
        let key_arg = arg_text(&args[2]);
        let dest_db = match arg_usize(&args[3]) {
            Some(d) => d,
            None => {
                return Err(invalid_error("ERR invalid DB index"));
            },
        };
        match arg_i64(&args[4]) {
            Some(_) => {},
            None => {
                return Err(invalid_error("ERR timeout is not an integer"));
            },
        }
        let ghost spec_keys = match migrate_options(
            arg_views(args@),
            5,
            MigrateOptions { copy: false, replace: false, keys: Seq::empty() },
        ) {
            Ok(o) => if o.keys.len() == 0 {
                seq![key_of(args@[2]@)]
            } else {
                o.keys
            },
            Err(_) => Seq::empty(),
        };
        let (copy, replace, mut keys) = match parse_migrate_options(args) {
            Ok(o) => o,
            Err(e) => {
                return Err(e);
            },
        };
        if keys.len() == 0 {
            if key_arg.unicode_len() == 0 {
                return Err(invalid_error("ERR empty key specified"));
            }
            let ghost single = key_arg@;
            keys.push(key_arg);
            proof {
                assert(views(keys@) =~= seq![single]);
            }
        }
        proof {
            assert(views(keys@) == spec_keys);
        }
        if dest_db >= DEFAULT_DB_COUNT {
            return Err(invalid_error("ERR invalid DB index"));
        }
        if current_db >= self.storage.num_dbs() {
            return Err(db_range_error());
        }
        match self.migrate_keys_loop(&keys, current_db, dest_db, copy, replace, now) {
            Ok(migrated) => {
                if migrated == 0 {
                    Ok(RespValue::simple_string("NOKEY"))
                } else {
                    Ok(RespValue::ok())
                }
            },
            Err(e) => Err(e),
        }
    }

    /// MIGRATE host port key|"" destination-db timeout [COPY] [REPLACE]
    /// [AUTH password] [AUTH2 username password] [KEYS key ...]: moves (or
    /// copies) the keys to another database of this server.
    pub fn migrate(&mut self, args: &[Vec<u8>], current_db: usize) -> (r: Result<RespValue, AikvError>)
        requires
            old(self).wf(),
        ensures
            final(self).wf(),
            exists|now: u64| outcome_holds(migrate_spec(old(self)@, current_db as int, arg_views(args@), now), r, final(self)@),
    {
        let now = unix_time_millis();
        let r = self.migrate_at(args, current_db, now);
        proof {
            assert(outcome_holds(migrate_spec(old(self)@, current_db as int, arg_views(args@), now), r, self@));
        }
        r
    }

    /// RESTORE at time `now`, with `decoded` what the value codec makes of
    /// the frame's payload (see `restore_spec`).
    pub fn restore_at(
        &mut self,
        args: &[Vec<u8>],
        current_db: usize,
        now: u64,
        decoded: Result<StoredValue, String>,
    ) -> (r: Result<RespValue, AikvError>)
        requires
            old(self).wf(),
        ensures
            final(self).wf(),
            outcome_holds(
                restore_spec(
                    old(self)@,
                    current_db as int,
                    arg_views(args@),
                    now,
                    decoded_view(decoded),
                ),
                r,
                final(self)@,
            ),
    {
        proof {
            lemma_arg_views(args@);
        }
        if args.len() < 3 {
            return Err(arity_error("RESTORE"));
        }
        let ttl = match arg_i64(&args[1]) {
            Some(t) => t,
            None => {
                return Err(invalid_error("ERR invalid TTL value"));
            },
        };
        let ghost a = arg_views(args@);
        let mut replace = false;
        let mut absttl = false;
        let mut i: usize = 3;
        while i < args.len()
            invariant
                3 <= i,
                args@.len() == args.len(),
                a == arg_views(args@),
                a.len() == args@.len(),
                forall|j: int| 0 <= j < args@.len() ==> #[trigger] a[j] == args@[j]@,
                restore_options(a, 3, false, false) == restore_options(a, i as int, replace, absttl),
                self.wf(),
                self@ == old(self)@,
                args@.len() >= 3,
                int_arg(a[1]) == Some(ttl as int),
            decreases args.len() - i,
        {
            let opt = arg_option(&args[i]);
            if str_eq(opt.as_str(), "REPLACE") {
                replace = true;
                i = i + 1;
            } else if str_eq(opt.as_str(), "ABSTTL") {
                absttl = true;
                i = i + 1;
            } else if str_eq(opt.as_str(), "IDLETIME") || str_eq(opt.as_str(), "FREQ") {
                if i + 1 >= args.len() {
                    return Err(invalid_error("ERR syntax error"));
                }
                i = i + 2;
            } else {
                let mut msg = crate::text::string_of("ERR syntax error, unknown option: ");
                crate::text::push_str(&mut msg, opt.as_str());
                return Err(AikvError::InvalidArgument(msg));
            }
        }
        let key = arg_text(&args[0]);
        if !replace {
            if current_db >= self.storage.num_dbs() {
                return Err(db_range_error());
            }
            if self.storage.exists_in_db(current_db, key.as_str(), now) {
                return Err(invalid_error("BUSYKEY Target key name already exists"));
            }
        }
        if !verify_checksum(args[2].as_slice()) {
            return Err(invalid_error("ERR DUMP payload version or checksum are wrong"));
        }
        let value = match decoded {
            Ok(v) => v,
            Err(e) => {
                let mut msg = crate::text::string_of("ERR DUMP payload version or checksum are wrong");
                crate::text::push_str(&mut msg, ": ");
                crate::text::push_str(&mut msg, e.as_str());
                return Err(AikvError::InvalidArgument(msg));
            },
        };
        if ttl < 0 {
            return Err(invalid_error("ERR invalid TTL value, must be >= 0"));
        }
        let expire_at = if ttl == 0 {
            None
        } else if absttl {
            Some(ttl as u64)
        } else {
            if now > u64::MAX - (ttl as u64) {
                return Err(invalid_error("ERR invalid TTL value"));
            }
            Some(now + ttl as u64)
        };
        if current_db >= self.storage.num_dbs() {
            return Err(db_range_error());
        }
        self.storage.set_value(current_db, key, value, expire_at);
        Ok(RespValue::ok())
    }

    /// RESTORE key ttl serialized-value [REPLACE] [ABSTTL] [IDLETIME s]
    /// [FREQ f], with `decoded` what the value codec makes of the frame's
    /// payload: the value under the key, with its expiry.
    pub fn restore(&mut self, args: &[Vec<u8>], current_db: usize, decoded: Result<StoredValue, String>) -> (r: Result<
        RespValue,
        AikvError,
    >)
        requires
            old(self).wf(),
        ensures
            final(self).wf(),
            exists|now: u64|
                outcome_holds(
                    #[trigger] restore_spec(
                        old(self)@,
                        current_db as int,
                        arg_views(args@),
                        now,
                        decoded_view(decoded),
                    ),
                    r,
                    final(self)@,
                ),
    {
        let now = unix_time_millis();
        let ghost dv = decoded_view(decoded);
        let r = self.restore_at(args, current_db, now, decoded);
        proof {
            assert(outcome_holds(restore_spec(old(self)@, current_db as int, arg_views(args@), now, dv), r, self@));
        }
        r
    }

    /// RANDOMKEY at time `now` for the draw `pick` (see
    /// `randomkey_pick_reply`).
    pub fn randomkey_pick(&self, current_db: usize, now: u64, pick: usize) -> (r: Result<RespValue, AikvError>)
        requires
            self.wf(),
        ensures
            crate::command::reply::models(
                r,
                randomkey_pick_reply(self@, self.key_seq(current_db as int, now), current_db as int, pick as nat),
            ),
    {
        if current_db >= self.storage.num_dbs() {
            return Err(db_range_error());
        }
        let all_keys = self.storage.get_all_keys_in_db(current_db, now);
        let ghost ks = self.key_seq(current_db as int, now);
        if all_keys.len() == 0 {
            return Ok(RespValue::null_bulk_string());
        }
        let i = pick % all_keys.len();
        proof {
            assert(ks[i as int] == all_keys@[i as int]@);
        }
        Ok(RespValue::bulk_string(text_bytes(all_keys[i].as_str())))
    }

    /// RANDOMKEY at time `now`: the key at a position drawn at random.
    pub fn randomkey_at(&self, _args: &[Vec<u8>], current_db: usize, now: u64) -> (r: Result<RespValue, AikvError>)
        requires
            self.wf(),
        ensures
            exists|rep: Reply| #[trigger] randomkey_holds(self@, self.key_seq(current_db as int, now), current_db as int, rep)
                && crate::command::reply::models(r, rep),
    {
        let ghost ks = self.key_seq(current_db as int, now);
        let n = if current_db < self.storage.num_dbs() {
            self.storage.get_all_keys_in_db(current_db, now).len()
        } else {
            0
        };
        let pick = if n > 0 {
            random_below(n)
        } else {
            0
        };
        let r = self.randomkey_pick(current_db, now, pick);
        proof {
            let rep = randomkey_pick_reply(self@, ks, current_db as int, pick as nat);
            if db_ok(self@, current_db as int) && ks.len() > 0 {
                let j = (pick as nat % ks.len()) as int;
                assert(0 <= j < ks.len());
                assert(rep == Reply::Bulk(encode_utf8(ks[j])));
            }
            assert(randomkey_holds(self@, ks, current_db as int, rep));
        }
        r
    }

    /// RANDOMKEY: one of the keys, chosen at random, or the null bulk
    /// string when the database holds none.
    pub fn randomkey(&self, args: &[Vec<u8>], current_db: usize) -> (r: Result<RespValue, AikvError>)
        requires
            self.wf(),
        ensures
            exists|now: u64, rep: Reply| randomkey_holds(self@, self.key_seq(current_db as int, now), current_db as int, rep)
                && crate::command::reply::models(r, rep),
    {
        let now = unix_time_millis();
        self.randomkey_at(args, current_db, now)
    }
}

} // verus!
