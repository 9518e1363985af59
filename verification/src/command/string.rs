//! String commands: GET, SET, DEL, EXISTS, MGET, MSET, STRLEN, APPEND, the
//! INCR family, GETRANGE, SETRANGE, GETEX, GETDEL, SETNX, SETEX, PSETEX.
use crate::command::reply::{
    arg_i64, arg_option, arg_text, arg_u64, arg_usize, arg_views, arity_error, db_range_error,
    int_arg, int_bytes, int_to_bytes, invalid_error, key_of, lemma_arg_views, lemma_int_bytes_round_trip, ok_reply, option_of, outcome_holds,
    u64_arg, usize_arg, wrong_type_error, Failure, Reply,
};
use crate::error::AikvError;
use crate::protocol::RespValue;
use crate::storage::{
    copy_bytes, copy_range, lookup, str_lookup, unix_time_millis, DbView, EntryView, StorageEngine, StoredValue,
    StrLookup, ValueView,
};
use crate::text::str_eq;
use vstd::prelude::*;

verus! {

// ---------------------------------------------------------------------------
// What each command does
// ---------------------------------------------------------------------------

/// The keyspace after `key` of database `db` is set to the string `v`.
pub open spec fn put_str(m: Seq<DbView>, db: int, key: Seq<char>, v: Seq<u8>, expire_at: Option<u64>) -> Seq<
    DbView,
> {
    m.update(db, m[db].insert(key, EntryView { value: ValueView::Str(v), expire_at }))
}

/// `db` names a database of `m`.
pub open spec fn db_ok(m: Seq<DbView>, db: int) -> bool {
    0 <= db < m.len()
}

/// GET key
pub open spec fn get_spec(m: Seq<DbView>, db: int, args: Seq<Seq<u8>>, now: u64) -> (Reply, Seq<DbView>) {
    if args.len() != 1 {
        (Reply::Fail(Failure::Arity("GET"@)), m)
    } else if !db_ok(m, db) {
        (Reply::Fail(Failure::DbRange), m)
    } else {
        (
            match str_lookup(m[db], key_of(args[0]), now) {
                StrLookup::Absent => Reply::NullBulk,
                StrLookup::Found(b) => Reply::Bulk(b),
                StrLookup::WrongType => Reply::Fail(Failure::WrongType),
            },
            m,
        )
    }
}

/// Options of SET.
pub ghost struct SetOptions {
    pub nx: bool,
    pub xx: bool,
    pub expire_ms: Option<u64>,
}

/// SET's options from position `i` on, on top of `acc`: NX, XX, EX seconds,
/// PX milliseconds (case-insensitive, the last expiry winning); other words
/// are ignored.
pub open spec fn set_options(args: Seq<Seq<u8>>, i: int, acc: SetOptions) -> Result<SetOptions, Seq<char>>
    decreases args.len() - i,
{
    if i < 0 || i >= args.len() {
        Ok(acc)
    } else {
        let opt = option_of(args[i]);
        if opt == "NX"@ {
            set_options(args, i + 1, SetOptions { nx: true, ..acc })
        } else if opt == "XX"@ {
            set_options(args, i + 1, SetOptions { xx: true, ..acc })
        } else if opt == "EX"@ || opt == "PX"@ {
            if i + 1 >= args.len() {
                Err("ERR syntax error"@)
            } else {
                match u64_arg(args[i + 1]) {
                    None => Err("ERR value is not an integer"@),
                    Some(n) => {
                        let ms: int = if opt == "EX"@ {
                            (n * 1000) as int
                        } else {
                            n as int
                        };
                        if ms > u64::MAX {
                            Err("ERR invalid expire time in 'set' command"@)
                        } else {
                            set_options(args, i + 2, SetOptions { expire_ms: Some(ms as u64), ..acc })
                        }
                    },
                }
            }
        } else {
            set_options(args, i + 1, acc)
        }
    }
}

/// SET key value [EX seconds] [PX milliseconds] [NX|XX]
pub open spec fn set_spec(m: Seq<DbView>, db: int, args: Seq<Seq<u8>>, now: u64) -> (Reply, Seq<DbView>) {
    if args.len() < 2 {
        (Reply::Fail(Failure::Arity("SET"@)), m)
    } else {
        match set_options(args, 2, SetOptions { nx: false, xx: false, expire_ms: None }) {
            Err(msg) => (Reply::Fail(Failure::Invalid(msg)), m),
            Ok(o) => if !db_ok(m, db) {
                (Reply::Fail(Failure::DbRange), m)
            } else {
                let key = key_of(args[0]);
                let present = lookup(m[db], key, now) is Some;
                if (o.nx && present) || (o.xx && !present) {
                    (Reply::NullBulk, m)
                } else {
                    match o.expire_ms {
                        None => (ok_reply(), put_str(m, db, key, args[1], None)),
                        Some(ms) => if now + ms > u64::MAX {
                            (Reply::Fail(Failure::Invalid("ERR invalid expire time in 'set' command"@)), m)
                        } else {
                            (ok_reply(), put_str(m, db, key, args[1], Some((now + ms) as u64)))
                        },
                    }
                }
            },
        }
    }
}

/// Deletes the keys in order; counts those that held a value.
pub open spec fn del_keys(d: DbView, keys: Seq<Seq<u8>>, now: u64) -> (int, DbView)
    decreases keys.len(),
{
    if keys.len() == 0 {
        (0, d)
    } else {
        let (c, d1) = del_keys(d, keys.drop_last(), now);
        let k = key_of(keys.last());
        (
            c + if lookup(d1, k, now) is Some {
                1int
            } else {
                0int
            },
            d1.remove(k),
        )
    }
}

/// DEL key [key ...]
pub open spec fn del_spec(m: Seq<DbView>, db: int, args: Seq<Seq<u8>>, now: u64) -> (Reply, Seq<DbView>) {
    if args.len() == 0 {
        (Reply::Fail(Failure::Arity("DEL"@)), m)
    } else if !db_ok(m, db) {
        (Reply::Fail(Failure::DbRange), m)
    } else {
        let (c, d) = del_keys(m[db], args, now);
        (Reply::Int(c), m.update(db, d))
    }
}

/// How many of the keys hold a value (a key named twice counts twice).
pub open spec fn count_present(d: DbView, keys: Seq<Seq<u8>>, now: u64) -> int
    decreases keys.len(),
{
    if keys.len() == 0 {
        0
    } else {
        count_present(d, keys.drop_last(), now) + if lookup(d, key_of(keys.last()), now) is Some {
            1int
        } else {
            0int
        }
    }
}

/// EXISTS key [key ...]
pub open spec fn exists_spec(m: Seq<DbView>, db: int, args: Seq<Seq<u8>>, now: u64) -> (Reply, Seq<DbView>) {
    if args.len() == 0 {
        (Reply::Fail(Failure::Arity("EXISTS"@)), m)
    } else if !db_ok(m, db) {
        (Reply::Fail(Failure::DbRange), m)
    } else {
        (Reply::Int(count_present(m[db], args, now)), m)
    }
}

/// The strings the keys hold, `None` when one holds another kind of value.
pub open spec fn mget_items(d: DbView, keys: Seq<Seq<u8>>, now: u64) -> Option<Seq<Reply>>
    decreases keys.len(),
{
    if keys.len() == 0 {
        Some(Seq::empty())
    } else {
        match mget_items(d, keys.drop_last(), now) {
            None => None,
            Some(items) => match str_lookup(d, key_of(keys.last()), now) {
                StrLookup::Absent => Some(items.push(Reply::NullBulk)),
                StrLookup::Found(b) => Some(items.push(Reply::Bulk(b))),
                StrLookup::WrongType => None,
            },
        }
    }
}

/// MGET key [key ...]
pub open spec fn mget_spec(m: Seq<DbView>, db: int, args: Seq<Seq<u8>>, now: u64) -> (Reply, Seq<DbView>) {
    if args.len() == 0 {
        (Reply::Fail(Failure::Arity("MGET"@)), m)
    } else if !db_ok(m, db) {
        (Reply::Fail(Failure::DbRange), m)
    } else {
        match mget_items(m[db], args, now) {
            None => (Reply::Fail(Failure::WrongType), m),
            Some(items) => (Reply::Array(items), m),
        }
    }
}

/// Sets the key/value pairs in order.
pub open spec fn mset_pairs(d: DbView, args: Seq<Seq<u8>>) -> DbView
    decreases args.len(),
{
    if args.len() < 2 {
        d
    } else {
        mset_pairs(
            d.insert(key_of(args[0]), EntryView { value: ValueView::Str(args[1]), expire_at: None }),
            args.subrange(2, args.len() as int),
        )
    }
}

/// MSET key value [key value ...]
pub open spec fn mset_spec(m: Seq<DbView>, db: int, args: Seq<Seq<u8>>) -> (Reply, Seq<DbView>) {
    if args.len() == 0 || args.len() % 2 != 0 {
        (Reply::Fail(Failure::Arity("MSET"@)), m)
    } else if !db_ok(m, db) {
        (Reply::Fail(Failure::DbRange), m)
    } else {
        (ok_reply(), m.update(db, mset_pairs(m[db], args)))
    }
}

/// STRLEN key
pub open spec fn strlen_spec(m: Seq<DbView>, db: int, args: Seq<Seq<u8>>, now: u64) -> (Reply, Seq<DbView>) {
    if args.len() != 1 {
        (Reply::Fail(Failure::Arity("STRLEN"@)), m)
    } else if !db_ok(m, db) {
        (Reply::Fail(Failure::DbRange), m)
    } else {
        (
            match str_lookup(m[db], key_of(args[0]), now) {
                StrLookup::Absent => Reply::Int(0),
                StrLookup::Found(b) => Reply::Int(b.len() as int),
                StrLookup::WrongType => Reply::Fail(Failure::WrongType),
            },
            m,
        )
    }
}

/// APPEND key value
pub open spec fn append_spec(m: Seq<DbView>, db: int, args: Seq<Seq<u8>>, now: u64) -> (Reply, Seq<DbView>) {
    if args.len() != 2 {
        (Reply::Fail(Failure::Arity("APPEND"@)), m)
    } else if !db_ok(m, db) {
        (Reply::Fail(Failure::DbRange), m)
    } else {
        let key = key_of(args[0]);
        match str_lookup(m[db], key, now) {
            StrLookup::WrongType => (Reply::Fail(Failure::WrongType), m),
            StrLookup::Absent => (Reply::Int(args[1].len() as int), put_str(m, db, key, args[1], None)),
            StrLookup::Found(b) => (
                Reply::Int((b + args[1]).len() as int),
                put_str(m, db, key, b + args[1], None),
            ),
        }
    }
}

/// Adds `inc` to the number `key` holds (0 when it holds nothing).
pub open spec fn incr_spec(m: Seq<DbView>, db: int, key: Seq<char>, inc: int, now: u64) -> (Reply, Seq<DbView>) {
    if !db_ok(m, db) {
        (Reply::Fail(Failure::DbRange), m)
    } else {
        let cur = match str_lookup(m[db], key, now) {
            StrLookup::Absent => Some(Some(0int)),
            StrLookup::Found(b) => Some(int_arg(b)),
            StrLookup::WrongType => None,
        };
        match cur {
            None => (Reply::Fail(Failure::WrongType), m),
            Some(None) => (Reply::Fail(Failure::Invalid("ERR value is not an integer or out of range"@)), m),
            Some(Some(c)) => {
                let n = c + inc;
                if n < i64::MIN || n > i64::MAX {
                    (Reply::Fail(Failure::Invalid("ERR increment or decrement would overflow"@)), m)
                } else {
                    (Reply::Int(n), put_str(m, db, key, int_bytes(n), None))
                }
            },
        }
    }
}

/// INCR key
pub open spec fn incr_cmd_spec(m: Seq<DbView>, db: int, args: Seq<Seq<u8>>, now: u64) -> (Reply, Seq<DbView>) {
    if args.len() != 1 {
        (Reply::Fail(Failure::Arity("INCR"@)), m)
    } else {
        incr_spec(m, db, key_of(args[0]), 1, now)
    }
}

/// DECR key
pub open spec fn decr_cmd_spec(m: Seq<DbView>, db: int, args: Seq<Seq<u8>>, now: u64) -> (Reply, Seq<DbView>) {
    if args.len() != 1 {
        (Reply::Fail(Failure::Arity("DECR"@)), m)
    } else {
        incr_spec(m, db, key_of(args[0]), -1, now)
    }
}

/// INCRBY key increment (DECRBY when `negate`).
pub open spec fn incrby_cmd_spec(m: Seq<DbView>, db: int, args: Seq<Seq<u8>>, now: u64, negate: bool) -> (
    Reply,
    Seq<DbView>,
) {
    if args.len() != 2 {
        (
            Reply::Fail(
                Failure::Arity(
                    if negate {
                        "DECRBY"@
                    } else {
                        "INCRBY"@
                    },
                ),
            ),
            m,
        )
    } else {
        match int_arg(args[1]) {
            None => (Reply::Fail(Failure::Invalid("ERR value is not an integer or out of range"@)), m),
            Some(x) => incr_spec(
                m,
                db,
                key_of(args[0]),
                if negate {
                    -x
                } else {
                    x
                },
                now,
            ),
        }
    }
}

/// The bytes of `b` that GETRANGE selects for `start` and `end` (inclusive,
/// negative values counting from the end).
pub open spec fn range_of(b: Seq<u8>, start: int, end: int) -> Seq<u8> {
    let len = b.len() as int;
    if len == 0 || len > i64::MAX {
        Seq::empty()
    } else {
        let s = if start < 0 {
            if len + start > 0 {
                len + start
            } else {
                0
            }
        } else if start < len {
            start
        } else {
            len
        };
        let e = if end < 0 {
            if len + end > 0 {
                len + end
            } else {
                0
            }
        } else if end < len - 1 {
            end
        } else {
            len - 1
        };
        if s > e || s >= len {
            Seq::empty()
        } else {
            b.subrange(s, e + 1)
        }
    }
}

/// GETRANGE key start end
pub open spec fn getrange_spec(m: Seq<DbView>, db: int, args: Seq<Seq<u8>>, now: u64) -> (Reply, Seq<DbView>) {
    if args.len() != 3 {
        (Reply::Fail(Failure::Arity("GETRANGE"@)), m)
    } else {
        match (int_arg(args[1]), int_arg(args[2])) {
            (Some(start), Some(end)) => if !db_ok(m, db) {
                (Reply::Fail(Failure::DbRange), m)
            } else {
                (
                    match str_lookup(m[db], key_of(args[0]), now) {
                        StrLookup::Absent => Reply::Bulk(Seq::empty()),
                        StrLookup::Found(b) => Reply::Bulk(range_of(b, start, end)),
                        StrLookup::WrongType => Reply::Fail(Failure::WrongType),
                    },
                    m,
                )
            },
            _ => (Reply::Fail(Failure::Invalid("ERR value is not an integer or out of range"@)), m),
        }
    }
}

/// `cur` with `v` written at `off`, zero bytes filling any gap.
pub open spec fn overwrite_at(cur: Seq<u8>, off: int, v: Seq<u8>) -> Seq<u8> {
    let n = if off + v.len() > cur.len() {
        off + v.len()
    } else {
        cur.len() as int
    };
    Seq::new(
        n as nat,
        |i: int|
            if off <= i < off + v.len() {
                v[i - off]
            } else if i < cur.len() {
                cur[i]
            } else {
                0u8
            },
    )
}

/// SETRANGE key offset value
pub open spec fn setrange_spec(m: Seq<DbView>, db: int, args: Seq<Seq<u8>>, now: u64) -> (Reply, Seq<DbView>) {
    if args.len() != 3 {
        (Reply::Fail(Failure::Arity("SETRANGE"@)), m)
    } else {
        match usize_arg(args[1]) {
            None => (Reply::Fail(Failure::Invalid("ERR offset is out of range"@)), m),
            Some(off) => if !db_ok(m, db) {
                (Reply::Fail(Failure::DbRange), m)
            } else {
                let key = key_of(args[0]);
                let cur = match str_lookup(m[db], key, now) {
                    StrLookup::Absent => Some(Seq::<u8>::empty()),
                    StrLookup::Found(b) => Some(b),
                    StrLookup::WrongType => None,
                };
                match cur {
                    None => (Reply::Fail(Failure::WrongType), m),
                    Some(c) => {
                        let new = overwrite_at(c, off as int, args[2]);
                        (Reply::Int(new.len() as int), put_str(m, db, key, new, None))
                    },
                }
            },
        }
    }
}

/// GETEX key [EX seconds | PX milliseconds | EXAT unix-time | PXAT
/// unix-time-milliseconds | PERSIST]
pub open spec fn getex_spec(m: Seq<DbView>, db: int, args: Seq<Seq<u8>>, now: u64) -> (Reply, Seq<DbView>) {
    if args.len() == 0 {
        (Reply::Fail(Failure::Arity("GETEX"@)), m)
    } else if !db_ok(m, db) {
        (Reply::Fail(Failure::DbRange), m)
    } else {
        let key = key_of(args[0]);
        match str_lookup(m[db], key, now) {
            StrLookup::Absent => (Reply::NullBulk, m),
            StrLookup::WrongType => (Reply::Fail(Failure::WrongType), m),
            StrLookup::Found(b) => if args.len() == 1 {
                (Reply::Bulk(b), m)
            } else {
                let opt = option_of(args[1]);
                if opt == "PERSIST"@ {
                    (Reply::Bulk(b), put_str(m, db, key, b, None))
                } else if opt == "EX"@ || opt == "PX"@ || opt == "EXAT"@ || opt == "PXAT"@ {
                    if args.len() < 3 {
                        (Reply::Fail(Failure::Invalid("ERR syntax error"@)), m)
                    } else {
                        match u64_arg(args[2]) {
                            None => (
                                Reply::Fail(Failure::Invalid("ERR value is not an integer or out of range"@)),
                                m,
                            ),
                            Some(n) => {
                                let t: int = if opt == "EX"@ {
                                    now + n * 1000
                                } else if opt == "PX"@ {
                                    now + n
                                } else if opt == "EXAT"@ {
                                    (n * 1000) as int
                                } else {
                                    n as int
                                };
                                if t > u64::MAX {
                                    (Reply::Fail(Failure::Invalid("ERR invalid expire time in 'getex' command"@)), m)
                                } else {
                                    (Reply::Bulk(b), put_str(m, db, key, b, Some(t as u64)))
                                }
                            },
                        }
                    }
                } else {
                    (Reply::Fail(Failure::Invalid("ERR syntax error"@)), m)
                }
            },
        }
    }
}

/// GETDEL key
pub open spec fn getdel_spec(m: Seq<DbView>, db: int, args: Seq<Seq<u8>>, now: u64) -> (Reply, Seq<DbView>) {
    if args.len() != 1 {
        (Reply::Fail(Failure::Arity("GETDEL"@)), m)
    } else if !db_ok(m, db) {
        (Reply::Fail(Failure::DbRange), m)
    } else {
        let key = key_of(args[0]);
        match str_lookup(m[db], key, now) {
            StrLookup::Absent => (Reply::NullBulk, m),
            StrLookup::WrongType => (Reply::Fail(Failure::WrongType), m),
            StrLookup::Found(b) => (Reply::Bulk(b), m.update(db, m[db].remove(key))),
        }
    }
}

/// SETNX key value
pub open spec fn setnx_spec(m: Seq<DbView>, db: int, args: Seq<Seq<u8>>, now: u64) -> (Reply, Seq<DbView>) {
    if args.len() != 2 {
        (Reply::Fail(Failure::Arity("SETNX"@)), m)
    } else if !db_ok(m, db) {
        (Reply::Fail(Failure::DbRange), m)
    } else {
        let key = key_of(args[0]);
        if lookup(m[db], key, now) is Some {
            (Reply::Int(0), m)
        } else {
            (Reply::Int(1), put_str(m, db, key, args[1], None))
        }
    }
}

/// SETEX key seconds value (PSETEX key milliseconds value when `millis`).
pub open spec fn setex_spec(m: Seq<DbView>, db: int, args: Seq<Seq<u8>>, now: u64, millis: bool) -> (
    Reply,
    Seq<DbView>,
) {
    let name = if millis {
        "PSETEX"@
    } else {
        "SETEX"@
    };
    if args.len() != 3 {
        (Reply::Fail(Failure::Arity(name)), m)
    } else {
        match u64_arg(args[1]) {
            None => (Reply::Fail(Failure::Invalid("ERR value is not an integer or out of range"@)), m),
            Some(n) => {
                let t: int = if millis {
                    now + n
                } else {
                    now + n * 1000
                };
                if t > u64::MAX {
                    (
                        Reply::Fail(
                            Failure::Invalid(
                                if millis {
                                    "ERR invalid expire time in 'psetex' command"@
                                } else {
                                    "ERR invalid expire time in 'setex' command"@
                                },
                            ),
                        ),
                        m,
                    )
                } else if !db_ok(m, db) {
                    (Reply::Fail(Failure::DbRange), m)
                } else {
                    (ok_reply(), put_str(m, db, key_of(args[0]), args[2], Some(t as u64)))
                }
            },
        }
    }
}


/// GETRANGE selects, from a string of `n` bytes, the positions from `start`
/// to `end` inclusive, negative ones counting from the end (see
/// `range_picks`): the answer is the run of bytes at exactly those
/// positions, in order, starting from the position `start` names (held at
/// the first byte).
pub proof fn law_getrange_selects(b: Seq<u8>, start: int, end: int)
    requires
        b.len() <= i64::MAX,
    ensures
        ({
            let r = range_of(b, start, end);
            let first = if start < 0 {
                if b.len() + start > 0 {
                    b.len() + start
                } else {
                    0
                }
            } else {
                start
            };
            &&& forall|i: int|
                (first <= i < first + r.len()) <==> #[trigger] crate::command::list::range_picks(
                    b.len() as int,
                    start,
                    end,
                    i,
                )
            &&& forall|j: int| 0 <= j < r.len() ==> #[trigger] r[j] == b[first + j]
        }),
{
    let n = b.len() as int;
    let r = range_of(b, start, end);
    if n == 0 {
        assert(r.len() == 0);
    } else {
        let s = if start < 0 {
            if n + start > 0 {
                n + start
            } else {
                0
            }
        } else if start < n {
            start
        } else {
            n
        };
        let e = if end < 0 {
            if n + end > 0 {
                n + end
            } else {
                0
            }
        } else if end < n - 1 {
            end
        } else {
            n - 1
        };
        if s > e || s >= n {
            assert(r.len() == 0);
        } else {
            assert(r == b.subrange(s, e + 1));
            assert(r.len() == e + 1 - s);
        }
    }
}

} // verus!

verus! {

// ---------------------------------------------------------------------------
// The handler
// ---------------------------------------------------------------------------

/// Handles the string commands against a keyspace.
#[derive(Debug)]
pub struct StringCommands {
    storage: StorageEngine,
}

impl View for StringCommands {
    type V = Seq<DbView>;

    closed spec fn view(&self) -> Seq<DbView> {
        self.storage@
    }
}

proof fn lemma_take_step<T>(s: Seq<T>, i: int)
    requires
        0 <= i < s.len(),
    ensures
        s.take(i + 1).drop_last() == s.take(i),
        s.take(i + 1).last() == s[i],
        s.take(i + 1).len() == i + 1,
{
    assert(s.take(i + 1).drop_last() =~= s.take(i));
}

/// Reads SET's options (see `set_options`).
fn parse_set_options(args: &[Vec<u8>]) -> (r: Result<(bool, bool, Option<u64>), AikvError>)
    requires
        args.len() >= 2,
    ensures
        match set_options(arg_views(args@), 2, SetOptions { nx: false, xx: false, expire_ms: None }) {
            Ok(o) => r matches Ok((nx, xx, e)) && nx == o.nx && xx == o.xx && e == o.expire_ms,
            Err(msg) => r matches Err(e) && crate::command::reply::error_models(e, Failure::Invalid(msg)),
        },
{
    proof {
        lemma_arg_views(args@);
    }
    let ghost av = arg_views(args@);
    let mut i: usize = 2;
    let mut nx = false;
    let mut xx = false;
    let mut expire_ms: Option<u64> = None;
    while i < args.len()
        invariant
            2 <= i <= args.len(),
            av == arg_views(args@),
            av.len() == args@.len(),
            forall|j: int| 0 <= j < args@.len() ==> #[trigger] av[j] == args@[j]@,
            set_options(av, 2, SetOptions { nx: false, xx: false, expire_ms: None }) == set_options(
                av,
                i as int,
                SetOptions { nx, xx, expire_ms },
            ),
        decreases args.len() - i,
    {
        let opt = arg_option(&args[i]);
        if str_eq(opt.as_str(), "NX") {
            nx = true;
        } else if str_eq(opt.as_str(), "XX") {
            xx = true;
        } else if str_eq(opt.as_str(), "EX") || str_eq(opt.as_str(), "PX") {
            if i + 1 >= args.len() {
                return Err(invalid_error("ERR syntax error"));
            }
            match arg_u64(&args[i + 1]) {
                None => {
                    return Err(invalid_error("ERR value is not an integer"));
                },
                Some(n) => {
                    if str_eq(opt.as_str(), "EX") {
                        if n > u64::MAX / 1000 {
                            return Err(invalid_error("ERR invalid expire time in 'set' command"));
                        }
                        expire_ms = Some(n * 1000);
                    } else {
                        expire_ms = Some(n);
                    }
                },
            }
            i = i + 1;
        }
        i = i + 1;
    }
    Ok((nx, xx, expire_ms))
}

/// `cur` with `v` written at `off` (see `overwrite_at`).
fn overwrite(cur: Vec<u8>, off: usize, v: &Vec<u8>) -> (r: Vec<u8>)
    requires
        off + v.len() <= usize::MAX,
    ensures
        r@ == overwrite_at(cur@, off as int, v@),
{
    let ghost c = cur@;
    let mut r = cur;
    let need = off + v.len();
    while r.len() < need
        invariant
            r@.len() >= c.len(),
            r@.len() <= need || r@.len() == c.len(),
            forall|i: int| 0 <= i < c.len() ==> #[trigger] r@[i] == c[i],
            forall|i: int| c.len() <= i < r@.len() ==> #[trigger] r@[i] == 0u8,
        decreases need - r.len(),
    {
        r.push(0u8);
    }
    let ghost filled = r@;
    let mut j: usize = 0;
    while j < v.len()
        invariant
            j <= v.len(),
            off + v.len() <= usize::MAX,
            r@.len() == filled.len(),
            filled.len() >= off + v.len(),
            forall|i: int| 0 <= i < r@.len() && !(off <= i < off + j) ==> #[trigger] r@[i] == filled[i],
            forall|i: int| off <= i < off + j ==> #[trigger] r@[i] == v@[i - off],
        decreases v.len() - j,
    {
        r.set(off + j, v[j]);
        j = j + 1;
    }
    proof {
        assert(r@ =~= overwrite_at(c, off as int, v@));
    }
    r
}

proof fn lemma_mget_none_extends(d: DbView, keys: Seq<Seq<u8>>, j: int, now: u64)
    requires
        0 <= j <= keys.len(),
        mget_items(d, keys.take(j), now) is None,
    ensures
        mget_items(d, keys, now) is None,
    decreases keys.len() - j,
{
    if j < keys.len() {
        lemma_take_step(keys, j);
        lemma_mget_none_extends(d, keys, j + 1, now);
    } else {
        assert(keys.take(j) =~= keys);
    }
}

impl StringCommands {
    /// The handler's keyspace is well formed.
    pub closed spec fn wf(&self) -> bool {
        self.storage.wf()
    }

    /// A handler over `storage`.
    pub fn new(storage: StorageEngine) -> (r: Self)
        requires
            storage.wf(),
        ensures
            r.wf(),
            r@ == storage@,
    {
        StringCommands { storage }
    }

    /// Gives the keyspace back.
    pub fn into_storage(self) -> (r: StorageEngine)
        requires
            self.wf(),
        ensures
            r.wf(),
            r@ == self@,
    {
        self.storage
    }

    /// GET at time `now`.
    pub fn get_at(&self, args: &[Vec<u8>], current_db: usize, now: u64) -> (r: Result<RespValue, AikvError>)
        requires
            self.wf(),
        ensures
            outcome_holds(get_spec(self@, current_db as int, arg_views(args@), now), r, self@),
    {
        proof {
            lemma_arg_views(args@);
        }
        if args.len() != 1 {
            return Err(arity_error("GET"));
        }
        if current_db >= self.storage.num_dbs() {
            return Err(db_range_error());
        }
        let key = arg_text(&args[0]);
        match self.storage.get_from_db(current_db, key.as_str(), now) {
            Ok(Some(v)) => Ok(RespValue::bulk_string(v)),
            Ok(None) => Ok(RespValue::null_bulk_string()),
            Err(e) => Err(e),
        }
    }

    /// GET key: the string the key holds, or the null bulk string.
    pub fn get(&self, args: &[Vec<u8>], current_db: usize) -> (r: Result<RespValue, AikvError>)
        requires
            self.wf(),
        ensures
            exists|now: u64| outcome_holds(get_spec(self@, current_db as int, arg_views(args@), now), r, self@),
    {
        let now = unix_time_millis();
        let r = self.get_at(args, current_db, now);
        proof {
            assert(outcome_holds(get_spec(self@, current_db as int, arg_views(args@), now), r, self@));
        }
        r
    }

    /// SET at time `now`.
    pub fn set_at(&mut self, args: &[Vec<u8>], current_db: usize, now: u64) -> (r: Result<RespValue, AikvError>)
        requires
            old(self).wf(),
        ensures
            final(self).wf(),
            outcome_holds(set_spec(old(self)@, current_db as int, arg_views(args@), now), r, final(self)@),
    {
        proof {
            lemma_arg_views(args@);
        }
        if args.len() < 2 {
            return Err(arity_error("SET"));
        }
        let (nx, xx, expire_ms) = match parse_set_options(args) {
            Ok(o) => o,
            Err(e) => {
                return Err(e);
            },
        };
        if current_db >= self.storage.num_dbs() {
            return Err(db_range_error());
        }
        let key = arg_text(&args[0]);
        let present = self.storage.exists_in_db(current_db, key.as_str(), now);
        if (nx && present) || (xx && !present) {
            return Ok(RespValue::null_bulk_string());
        }
        match expire_ms {
            None => {
                self.storage.set_value(current_db, key, StoredValue::Str(copy_bytes(&args[1])), None);
            },
            Some(ms) => {
                if now > u64::MAX - ms {
                    return Err(invalid_error("ERR invalid expire time in 'set' command"));
                }
                self.storage.set_value(current_db, key, StoredValue::Str(copy_bytes(&args[1])), Some(now + ms));
            },
        }
        Ok(RespValue::ok())
    }

    /// SET key value [EX seconds] [PX milliseconds] [NX|XX].
    pub fn set(&mut self, args: &[Vec<u8>], current_db: usize) -> (r: Result<RespValue, AikvError>)
        requires
            old(self).wf(),
        ensures
            final(self).wf(),
            exists|now: u64| outcome_holds(set_spec(old(self)@, current_db as int, arg_views(args@), now), r, final(self)@),
    {
        let now = unix_time_millis();
        let r = self.set_at(args, current_db, now);
        proof {
            assert(outcome_holds(set_spec(old(self)@, current_db as int, arg_views(args@), now), r, self@));
        }
        r
    }

    /// DEL at time `now`.
    pub fn del_at(&mut self, args: &[Vec<u8>], current_db: usize, now: u64) -> (r: Result<RespValue, AikvError>)
        requires
            old(self).wf(),
        ensures
            final(self).wf(),
            outcome_holds(del_spec(old(self)@, current_db as int, arg_views(args@), now), r, final(self)@),
    {
        proof {
            lemma_arg_views(args@);
        }
        if args.len() == 0 {
            return Err(arity_error("DEL"));
        }
        if current_db >= self.storage.num_dbs() {
            return Err(db_range_error());
        }
        let ghost av = arg_views(args@);
        let ghost d0 = self@[current_db as int];
        proof {
            assert(av.take(0) =~= Seq::<Seq<u8>>::empty());
            assert(old(self)@.update(current_db as int, d0) =~= old(self)@);
        }
        let mut count: usize = 0;
        let mut i: usize = 0;
        while i < args.len()
            invariant
                i <= args.len(),
                av == arg_views(args@),
                av.len() == args@.len(),
                forall|j: int| 0 <= j < args@.len() ==> #[trigger] av[j] == args@[j]@,
                self.wf(),
                current_db < old(self)@.len(),
                d0 == old(self)@[current_db as int],
                self@ == old(self)@.update(current_db as int, del_keys(d0, av.take(i as int), now).1),
                count as int == del_keys(d0, av.take(i as int), now).0,
                count <= i,
            decreases args.len() - i,
        {
            let key = arg_text(&args[i]);
            proof {
                lemma_take_step(av, i as int);
            }
            if self.storage.delete_from_db(current_db, key.as_str(), now) {
                count = count + 1;
            }
            i = i + 1;
            proof {
                assert(self@ =~= old(self)@.update(current_db as int, del_keys(d0, av.take(i as int), now).1));
            }
        }
        proof {
            assert(av.take(args.len() as int) =~= av);
        }
        Ok(RespValue::integer(count as i64))
    }

    /// DEL key [key ...]: removes the keys; answers how many held a value.
    pub fn del(&mut self, args: &[Vec<u8>], current_db: usize) -> (r: Result<RespValue, AikvError>)
        requires
            old(self).wf(),
        ensures
            final(self).wf(),
            exists|now: u64| outcome_holds(del_spec(old(self)@, current_db as int, arg_views(args@), now), r, final(self)@),
    {
        let now = unix_time_millis();
        let r = self.del_at(args, current_db, now);
        proof {
            assert(outcome_holds(del_spec(old(self)@, current_db as int, arg_views(args@), now), r, self@));
        }
        r
    }

    /// EXISTS at time `now`.
    pub fn exists_at(&self, args: &[Vec<u8>], current_db: usize, now: u64) -> (r: Result<RespValue, AikvError>)
        requires
            self.wf(),
        ensures
            outcome_holds(exists_spec(self@, current_db as int, arg_views(args@), now), r, self@),
    {
        proof {
            lemma_arg_views(args@);
        }
        if args.len() == 0 {
            return Err(arity_error("EXISTS"));
        }
        if current_db >= self.storage.num_dbs() {
            return Err(db_range_error());
        }
        let ghost av = arg_views(args@);
        proof {
            assert(av.take(0) =~= Seq::<Seq<u8>>::empty());
        }
        let mut count: usize = 0;
        let mut i: usize = 0;
        while i < args.len()
            invariant
                i <= args.len(),
                av == arg_views(args@),
                av.len() == args@.len(),
                forall|j: int| 0 <= j < args@.len() ==> #[trigger] av[j] == args@[j]@,
                self.wf(),
                current_db < self@.len(),
                count as int == count_present(self@[current_db as int], av.take(i as int), now),
                count <= i,
            decreases args.len() - i,
        {
            let key = arg_text(&args[i]);
            proof {
                lemma_take_step(av, i as int);
            }
            if self.storage.exists_in_db(current_db, key.as_str(), now) {
                count = count + 1;
            }
            i = i + 1;
        }
        proof {
            assert(av.take(args.len() as int) =~= av);
        }
        Ok(RespValue::integer(count as i64))
    }

    /// EXISTS key [key ...]: how many of the keys hold a value.
    pub fn exists_keys(&self, args: &[Vec<u8>], current_db: usize) -> (r: Result<RespValue, AikvError>)
        requires
            self.wf(),
        ensures
            exists|now: u64| outcome_holds(exists_spec(self@, current_db as int, arg_views(args@), now), r, self@),
    {
        let now = unix_time_millis();
        let r = self.exists_at(args, current_db, now);
        proof {
            assert(outcome_holds(exists_spec(self@, current_db as int, arg_views(args@), now), r, self@));
        }
        r
    }

    /// MGET at time `now`.
    pub fn mget_at(&self, args: &[Vec<u8>], current_db: usize, now: u64) -> (r: Result<RespValue, AikvError>)
        requires
            self.wf(),
        ensures
            outcome_holds(mget_spec(self@, current_db as int, arg_views(args@), now), r, self@),
    {
        proof {
            lemma_arg_views(args@);
        }
        if args.len() == 0 {
            return Err(arity_error("MGET"));
        }
        if current_db >= self.storage.num_dbs() {
            return Err(db_range_error());
        }
        let ghost av = arg_views(args@);
        let ghost d = self@[current_db as int];
        let ghost mut items: Seq<Reply> = Seq::empty();
        proof {
            assert(av.take(0) =~= Seq::<Seq<u8>>::empty());
        }
        let mut result: Vec<RespValue> = Vec::new();
        let mut i: usize = 0;
        while i < args.len()
            invariant
                i <= args.len(),
                av == arg_views(args@),
                av.len() == args@.len(),
                forall|j: int| 0 <= j < args@.len() ==> #[trigger] av[j] == args@[j]@,
                self.wf(),
                current_db < self@.len(),
                d == self@[current_db as int],
                mget_items(d, av.take(i as int), now) == Some(items),
                result@.len() == items.len(),
                forall|j: int| 0 <= j < items.len() ==> crate::command::reply::value_models(#[trigger] result@[j], items[j]),
            decreases args.len() - i,
        {
            let key = arg_text(&args[i]);
            proof {
                lemma_take_step(av, i as int);
            }
            match self.storage.get_from_db(current_db, key.as_str(), now) {
                Ok(Some(v)) => {
                    proof {
                        items = items.push(Reply::Bulk(v@));
                    }
                    result.push(RespValue::bulk_string(v));
                },
                Ok(None) => {
                    proof {
                        items = items.push(Reply::NullBulk);
                    }
                    result.push(RespValue::null_bulk_string());
                },
                Err(e) => {
                    proof {
                        lemma_mget_none_extends(d, av, i + 1, now);
                    }
                    return Err(e);
                },
            }
            i = i + 1;
        }
        proof {
            assert(av.take(args.len() as int) =~= av);
        }
        let r = RespValue::array(result);
        proof {
            assert(crate::command::reply::value_models(r, Reply::Array(items)));
        }
        Ok(r)
    }

    /// MGET key [key ...]: the string each key holds, null where none.
    pub fn mget(&self, args: &[Vec<u8>], current_db: usize) -> (r: Result<RespValue, AikvError>)
        requires
            self.wf(),
        ensures
            exists|now: u64| outcome_holds(mget_spec(self@, current_db as int, arg_views(args@), now), r, self@),
    {
        let now = unix_time_millis();
        let r = self.mget_at(args, current_db, now);
        proof {
            assert(outcome_holds(mget_spec(self@, current_db as int, arg_views(args@), now), r, self@));
        }
        r
    }

    /// MSET key value [key value ...]: sets each pair in order.
    pub fn mset(&mut self, args: &[Vec<u8>], current_db: usize) -> (r: Result<RespValue, AikvError>)
        requires
            old(self).wf(),
        ensures
            final(self).wf(),
            outcome_holds(mset_spec(old(self)@, current_db as int, arg_views(args@)), r, final(self)@),
    {
        proof {
            lemma_arg_views(args@);
        }
        if args.len() == 0 || args.len() % 2 != 0 {
            return Err(arity_error("MSET"));
        }
        if current_db >= self.storage.num_dbs() {
            return Err(db_range_error());
        }
        let ghost av = arg_views(args@);
        let ghost d0 = self@[current_db as int];
        proof {
            assert(av.subrange(0, av.len() as int) =~= av);
        }
        let mut i: usize = 0;
        while i < args.len()
            invariant
                i <= args.len(),
                i % 2 == 0,
                args.len() % 2 == 0,
                av == arg_views(args@),
                av.len() == args@.len(),
                forall|j: int| 0 <= j < args@.len() ==> #[trigger] av[j] == args@[j]@,
                self.wf(),
                current_db < self@.len(),
                self@.len() == old(self)@.len(),
                forall|j: int| 0 <= j < self@.len() && j != current_db ==> #[trigger] self@[j] == old(self)@[j],
                mset_pairs(d0, av) == mset_pairs(self@[current_db as int], av.subrange(i as int, av.len() as int)),
                d0 == old(self)@[current_db as int],
            decreases args.len() - i,
        {
            let key = arg_text(&args[i]);
            let ghost before = self@[current_db as int];
            proof {
                let rest = av.subrange(i as int, av.len() as int);
                assert(rest[0] == av[i as int]);
                assert(rest[1] == av[i + 1]);
                assert(rest.subrange(2, rest.len() as int) =~= av.subrange(i + 2, av.len() as int));
            }
            self.storage.set_value(current_db, key, StoredValue::Str(copy_bytes(&args[i + 1])), None);
            i = i + 2;
        }
        proof {
            assert(av.subrange(av.len() as int, av.len() as int) =~= Seq::<Seq<u8>>::empty());
            assert(self@ =~= old(self)@.update(current_db as int, mset_pairs(d0, av)));
        }
        Ok(RespValue::ok())
    }

    /// STRLEN at time `now`.
    pub fn strlen_at(&self, args: &[Vec<u8>], current_db: usize, now: u64) -> (r: Result<RespValue, AikvError>)
        requires
            self.wf(),
        ensures
            outcome_holds(strlen_spec(self@, current_db as int, arg_views(args@), now), r, self@),
    {
        proof {
            lemma_arg_views(args@);
        }
        if args.len() != 1 {
            return Err(arity_error("STRLEN"));
        }
        if current_db >= self.storage.num_dbs() {
            return Err(db_range_error());
        }
        let key = arg_text(&args[0]);
        match self.storage.get_from_db(current_db, key.as_str(), now) {
            Ok(Some(v)) => Ok(RespValue::integer(v.len() as i64)),
            Ok(None) => Ok(RespValue::integer(0)),
            Err(e) => Err(e),
        }
    }

    /// STRLEN key: length of the string the key holds (0 when none).
    pub fn strlen(&self, args: &[Vec<u8>], current_db: usize) -> (r: Result<RespValue, AikvError>)
        requires
            self.wf(),
        ensures
            exists|now: u64| outcome_holds(strlen_spec(self@, current_db as int, arg_views(args@), now), r, self@),
    {
        let now = unix_time_millis();
        let r = self.strlen_at(args, current_db, now);
        proof {
            assert(outcome_holds(strlen_spec(self@, current_db as int, arg_views(args@), now), r, self@));
        }
        r
    }

    /// APPEND at time `now`.
    pub fn append_at(&mut self, args: &[Vec<u8>], current_db: usize, now: u64) -> (r: Result<RespValue, AikvError>)
        requires
            old(self).wf(),
        ensures
            final(self).wf(),
            outcome_holds(append_spec(old(self)@, current_db as int, arg_views(args@), now), r, final(self)@),
    {
        proof {
            lemma_arg_views(args@);
        }
        if args.len() != 2 {
            return Err(arity_error("APPEND"));
        }
        if current_db >= self.storage.num_dbs() {
            return Err(db_range_error());
        }
        let key = arg_text(&args[0]);
        let new_value = match self.storage.get_from_db(current_db, key.as_str(), now) {
            Ok(Some(existing)) => {
                let mut combined = existing;
                let mut extra = copy_bytes(&args[1]);
                combined.append(&mut extra);
                combined
            },
            Ok(None) => copy_bytes(&args[1]),
            Err(e) => {
                return Err(e);
            },
        };
        let len = new_value.len();
        self.storage.set_value(current_db, key, StoredValue::Str(new_value), None);
        Ok(RespValue::integer(len as i64))
    }

    /// APPEND key value: appends to the string the key holds; answers the
    /// new length.
    pub fn append(&mut self, args: &[Vec<u8>], current_db: usize) -> (r: Result<RespValue, AikvError>)
        requires
            old(self).wf(),
        ensures
            final(self).wf(),
            exists|now: u64| outcome_holds(append_spec(old(self)@, current_db as int, arg_views(args@), now), r, final(self)@),
    {
        let now = unix_time_millis();
        let r = self.append_at(args, current_db, now);
        proof {
            assert(outcome_holds(append_spec(old(self)@, current_db as int, arg_views(args@), now), r, self@));
        }
        r
    }

    /// Adds `increment` to the number `key` holds (see `incr_spec`).
    fn incr_by_internal(&mut self, key: String, increment: i64, current_db: usize, now: u64) -> (r: Result<
        RespValue,
        AikvError,
    >)
        requires
            old(self).wf(),
        ensures
            final(self).wf(),
            outcome_holds(incr_spec(old(self)@, current_db as int, key@, increment as int, now), r, final(self)@),
    {
        if current_db >= self.storage.num_dbs() {
            return Err(db_range_error());
        }
        let current: i64 = match self.storage.get_from_db(current_db, key.as_str(), now) {
            Ok(Some(value)) => match arg_i64(&value) {
                Some(v) => v,
                None => {
                    return Err(invalid_error("ERR value is not an integer or out of range"));
                },
            },
            Ok(None) => 0,
            Err(e) => {
                return Err(e);
            },
        };
        let new_value = match current.checked_add(increment) {
            Some(v) => v,
            None => {
                return Err(invalid_error("ERR increment or decrement would overflow"));
            },
        };
        self.storage.set_value(current_db, key, StoredValue::Str(int_to_bytes(new_value)), None);
        Ok(RespValue::integer(new_value))
    }

    /// INCR at time `now`.
    pub fn incr_at(&mut self, args: &[Vec<u8>], current_db: usize, now: u64) -> (r: Result<RespValue, AikvError>)
        requires
            old(self).wf(),
        ensures
            final(self).wf(),
            outcome_holds(incr_cmd_spec(old(self)@, current_db as int, arg_views(args@), now), r, final(self)@),
    {
        proof {
            lemma_arg_views(args@);
        }
        if args.len() != 1 {
            return Err(arity_error("INCR"));
        }
        let key = arg_text(&args[0]);
        self.incr_by_internal(key, 1, current_db, now)
    }

    /// INCR key: adds one to the number the key holds.
    pub fn incr(&mut self, args: &[Vec<u8>], current_db: usize) -> (r: Result<RespValue, AikvError>)
        requires
            old(self).wf(),
        ensures
            final(self).wf(),
            exists|now: u64| outcome_holds(incr_cmd_spec(old(self)@, current_db as int, arg_views(args@), now), r, final(self)@),
    {
        let now = unix_time_millis();
        let r = self.incr_at(args, current_db, now);
        proof {
            assert(outcome_holds(incr_cmd_spec(old(self)@, current_db as int, arg_views(args@), now), r, self@));
        }
        r
    }

    /// DECR at time `now`.
    pub fn decr_at(&mut self, args: &[Vec<u8>], current_db: usize, now: u64) -> (r: Result<RespValue, AikvError>)
        requires
            old(self).wf(),
        ensures
            final(self).wf(),
            outcome_holds(decr_cmd_spec(old(self)@, current_db as int, arg_views(args@), now), r, final(self)@),
    {
        proof {
            lemma_arg_views(args@);
        }
        if args.len() != 1 {
            return Err(arity_error("DECR"));
        }
        let key = arg_text(&args[0]);
        self.incr_by_internal(key, -1, current_db, now)
    }

    /// DECR key: subtracts one from the number the key holds.
    pub fn decr(&mut self, args: &[Vec<u8>], current_db: usize) -> (r: Result<RespValue, AikvError>)
        requires
            old(self).wf(),
        ensures
            final(self).wf(),
            exists|now: u64| outcome_holds(decr_cmd_spec(old(self)@, current_db as int, arg_views(args@), now), r, final(self)@),
    {
        let now = unix_time_millis();
        let r = self.decr_at(args, current_db, now);
        proof {
            assert(outcome_holds(decr_cmd_spec(old(self)@, current_db as int, arg_views(args@), now), r, self@));
        }
        r
    }

    /// INCRBY at time `now`.
    pub fn incrby_at(&mut self, args: &[Vec<u8>], current_db: usize, now: u64) -> (r: Result<RespValue, AikvError>)
        requires
            old(self).wf(),
        ensures
            final(self).wf(),
            outcome_holds(incrby_cmd_spec(old(self)@, current_db as int, arg_views(args@), now, false), r, final(self)@),
    {
        proof {
            lemma_arg_views(args@);
        }
        if args.len() != 2 {
            return Err(arity_error("INCRBY"));
        }
        let key = arg_text(&args[0]);
        let increment = match arg_i64(&args[1]) {
            Some(v) => v,
            None => {
                return Err(invalid_error("ERR value is not an integer or out of range"));
            },
        };
        self.incr_by_internal(key, increment, current_db, now)
    }

    /// INCRBY key increment.
    pub fn incrby(&mut self, args: &[Vec<u8>], current_db: usize) -> (r: Result<RespValue, AikvError>)
        requires
            old(self).wf(),
        ensures
            final(self).wf(),
            exists|now: u64| outcome_holds(incrby_cmd_spec(old(self)@, current_db as int, arg_views(args@), now, false), r, final(self)@),
    {
        let now = unix_time_millis();
        let r = self.incrby_at(args, current_db, now);
        proof {
            assert(outcome_holds(incrby_cmd_spec(old(self)@, current_db as int, arg_views(args@), now, false), r, self@));
        }
        r
    }

    /// DECRBY at time `now`; the decrement cannot be `i64::MIN`, whose
    /// negation overflows.
    pub fn decrby_at(&mut self, args: &[Vec<u8>], current_db: usize, now: u64) -> (r: Result<RespValue, AikvError>)
        requires
            old(self).wf(),
            args@.len() == 2 ==> int_arg(args@[1]@) != Some(i64::MIN as int),
        ensures
            final(self).wf(),
            outcome_holds(incrby_cmd_spec(old(self)@, current_db as int, arg_views(args@), now, true), r, final(self)@),
    {
        proof {
            lemma_arg_views(args@);
        }
        if args.len() != 2 {
            return Err(arity_error("DECRBY"));
        }
        let key = arg_text(&args[0]);
        let decrement = match arg_i64(&args[1]) {
            Some(v) => v,
            None => {
                return Err(invalid_error("ERR value is not an integer or out of range"));
            },
        };
        self.incr_by_internal(key, -decrement, current_db, now)
    }

    /// DECRBY key decrement.
    pub fn decrby(&mut self, args: &[Vec<u8>], current_db: usize) -> (r: Result<RespValue, AikvError>)
        requires
            old(self).wf(),
            args@.len() == 2 ==> int_arg(args@[1]@) != Some(i64::MIN as int),
        ensures
            final(self).wf(),
            exists|now: u64| outcome_holds(incrby_cmd_spec(old(self)@, current_db as int, arg_views(args@), now, true), r, final(self)@),
    {
        let now = unix_time_millis();
        let r = self.decrby_at(args, current_db, now);
        proof {
            assert(outcome_holds(incrby_cmd_spec(old(self)@, current_db as int, arg_views(args@), now, true), r, self@));
        }
        r
    }

    /// GETRANGE at time `now`.
    pub fn getrange_at(&self, args: &[Vec<u8>], current_db: usize, now: u64) -> (r: Result<RespValue, AikvError>)
        requires
            self.wf(),
        ensures
            outcome_holds(getrange_spec(self@, current_db as int, arg_views(args@), now), r, self@),
    {
        proof {
            lemma_arg_views(args@);
        }
        if args.len() != 3 {
            return Err(arity_error("GETRANGE"));
        }
        let start = match arg_i64(&args[1]) {
            Some(v) => v,
            None => {
                return Err(invalid_error("ERR value is not an integer or out of range"));
            },
        };
        let end = match arg_i64(&args[2]) {
            Some(v) => v,
            None => {
                return Err(invalid_error("ERR value is not an integer or out of range"));
            },
        };
        if current_db >= self.storage.num_dbs() {
            return Err(db_range_error());
        }
        let key = arg_text(&args[0]);
        match self.storage.get_from_db(current_db, key.as_str(), now) {
            Ok(Some(value)) => {
                if value.len() == 0 || value.len() as u64 > i64::MAX as u64 {
                    return Ok(RespValue::bulk_string(Vec::new()));
                }
                let len = value.len() as i64;
                let s: i64 = if start < 0 {
                    if len + start > 0 {
                        len + start
                    } else {
                        0
                    }
                } else if start < len {
                    start
                } else {
                    len
                };
                let e: i64 = if end < 0 {
                    if len + end > 0 {
                        len + end
                    } else {
                        0
                    }
                } else if end < len - 1 {
                    end
                } else {
                    len - 1
                };
                if s > e || s >= len {
                    Ok(RespValue::bulk_string(Vec::new()))
                } else {
                    Ok(RespValue::bulk_string(copy_range(&value, s as usize, (e + 1) as usize)))
                }
            },
            Ok(None) => Ok(RespValue::bulk_string(Vec::new())),
            Err(e) => Err(e),
        }
    }

    /// GETRANGE key start end: the bytes between the two offsets
    /// (inclusive; negative offsets count from the end).
    pub fn getrange(&self, args: &[Vec<u8>], current_db: usize) -> (r: Result<RespValue, AikvError>)
        requires
            self.wf(),
        ensures
            exists|now: u64| outcome_holds(getrange_spec(self@, current_db as int, arg_views(args@), now), r, self@),
    {
        let now = unix_time_millis();
        let r = self.getrange_at(args, current_db, now);
        proof {
            assert(outcome_holds(getrange_spec(self@, current_db as int, arg_views(args@), now), r, self@));
        }
        r
    }

    /// SETRANGE at time `now`; offset plus value length must fit in `usize`.
    pub fn setrange_at(&mut self, args: &[Vec<u8>], current_db: usize, now: u64) -> (r: Result<RespValue, AikvError>)
        requires
            old(self).wf(),
            args@.len() == 3 ==> (usize_arg(args@[1]@) matches Some(off) ==> off + args@[2]@.len() <= usize::MAX),
        ensures
            final(self).wf(),
            outcome_holds(setrange_spec(old(self)@, current_db as int, arg_views(args@), now), r, final(self)@),
    {
        proof {
            lemma_arg_views(args@);
        }
        if args.len() != 3 {
            return Err(arity_error("SETRANGE"));
        }
        let offset = match arg_usize(&args[1]) {
            Some(v) => v,
            None => {
                return Err(invalid_error("ERR offset is out of range"));
            },
        };
        if current_db >= self.storage.num_dbs() {
            return Err(db_range_error());
        }
        let key = arg_text(&args[0]);
        let current: Vec<u8> = match self.storage.get_from_db(current_db, key.as_str(), now) {
            Ok(Some(v)) => v,
            Ok(None) => Vec::new(),
            Err(e) => {
                return Err(e);
            },
        };
        let new_value = overwrite(current, offset, &args[2]);
        let len = new_value.len();
        self.storage.set_value(current_db, key, StoredValue::Str(new_value), None);
        Ok(RespValue::integer(len as i64))
    }

    /// SETRANGE key offset value: overwrites part of the string the key
    /// holds; answers the new length.
    pub fn setrange(&mut self, args: &[Vec<u8>], current_db: usize) -> (r: Result<RespValue, AikvError>)
        requires
            old(self).wf(),
            args@.len() == 3 ==> (usize_arg(args@[1]@) matches Some(off) ==> off + args@[2]@.len() <= usize::MAX),
        ensures
            final(self).wf(),
            exists|now: u64| outcome_holds(setrange_spec(old(self)@, current_db as int, arg_views(args@), now), r, final(self)@),
    {
        let now = unix_time_millis();
        let r = self.setrange_at(args, current_db, now);
        proof {
            assert(outcome_holds(setrange_spec(old(self)@, current_db as int, arg_views(args@), now), r, self@));
        }
        r
    }

    /// GETEX at time `now`.
    pub fn getex_at(&mut self, args: &[Vec<u8>], current_db: usize, now: u64) -> (r: Result<RespValue, AikvError>)
        requires
            old(self).wf(),
        ensures
            final(self).wf(),
            outcome_holds(getex_spec(old(self)@, current_db as int, arg_views(args@), now), r, final(self)@),
    {
        proof {
            lemma_arg_views(args@);
        }
        if args.len() == 0 {
            return Err(arity_error("GETEX"));
        }
        if current_db >= self.storage.num_dbs() {
            return Err(db_range_error());
        }
        let key = arg_text(&args[0]);
        let value = match self.storage.get_from_db(current_db, key.as_str(), now) {
            Ok(Some(v)) => v,
            Ok(None) => {
                return Ok(RespValue::null_bulk_string());
            },
            Err(e) => {
                return Err(e);
            },
        };
        if args.len() > 1 {
            let option = arg_option(&args[1]);
            let opt = option.as_str();
            if str_eq(opt, "PERSIST") {
                self.storage.set_value(current_db, key, StoredValue::Str(copy_bytes(&value)), None);
            } else if str_eq(opt, "EX") || str_eq(opt, "PX") || str_eq(opt, "EXAT") || str_eq(opt, "PXAT") {
                if args.len() < 3 {
                    return Err(invalid_error("ERR syntax error"));
                }
                let n = match arg_u64(&args[2]) {
                    Some(v) => v,
                    None => {
                        return Err(invalid_error("ERR value is not an integer or out of range"));
                    },
                };
                let expire_at: Option<u64> = if str_eq(opt, "EX") {
                    if n <= u64::MAX / 1000 && now <= u64::MAX - n * 1000 {
                        Some(now + n * 1000)
                    } else {
                        None
                    }
                } else if str_eq(opt, "PX") {
                    if now <= u64::MAX - n {
                        Some(now + n)
                    } else {
                        None
                    }
                } else if str_eq(opt, "EXAT") {
                    if n <= u64::MAX / 1000 {
                        Some(n * 1000)
                    } else {
                        None
                    }
                } else {
                    Some(n)
                };
                match expire_at {
                    Some(t) => {
                        self.storage.set_value(current_db, key, StoredValue::Str(copy_bytes(&value)), Some(t));
                    },
                    None => {
                        return Err(invalid_error("ERR invalid expire time in 'getex' command"));
                    },
                }
            } else {
                return Err(invalid_error("ERR syntax error"));
            }
        }
        Ok(RespValue::bulk_string(value))
    }

    /// GETEX key [EX seconds | PX milliseconds | EXAT unix-time | PXAT
    /// unix-time-milliseconds | PERSIST]: the string the key holds, setting
    /// or removing its expiry.
    pub fn getex(&mut self, args: &[Vec<u8>], current_db: usize) -> (r: Result<RespValue, AikvError>)
        requires
            old(self).wf(),
        ensures
            final(self).wf(),
            exists|now: u64| outcome_holds(getex_spec(old(self)@, current_db as int, arg_views(args@), now), r, final(self)@),
    {
        let now = unix_time_millis();
        let r = self.getex_at(args, current_db, now);
        proof {
            assert(outcome_holds(getex_spec(old(self)@, current_db as int, arg_views(args@), now), r, self@));
        }
        r
    }

    /// GETDEL at time `now`.
    pub fn getdel_at(&mut self, args: &[Vec<u8>], current_db: usize, now: u64) -> (r: Result<RespValue, AikvError>)
        requires
            old(self).wf(),
        ensures
            final(self).wf(),
            outcome_holds(getdel_spec(old(self)@, current_db as int, arg_views(args@), now), r, final(self)@),
    {
        proof {
            lemma_arg_views(args@);
        }
        if args.len() != 1 {
            return Err(arity_error("GETDEL"));
        }
        if current_db >= self.storage.num_dbs() {
            return Err(db_range_error());
        }
        let key = arg_text(&args[0]);
        match self.storage.get_from_db(current_db, key.as_str(), now) {
            Ok(Some(value)) => {
                self.storage.delete_from_db(current_db, key.as_str(), now);
                Ok(RespValue::bulk_string(value))
            },
            Ok(None) => Ok(RespValue::null_bulk_string()),
            Err(e) => Err(e),
        }
    }

    /// GETDEL key: the string the key holds, removing the key.
    pub fn getdel(&mut self, args: &[Vec<u8>], current_db: usize) -> (r: Result<RespValue, AikvError>)
        requires
            old(self).wf(),
        ensures
            final(self).wf(),
            exists|now: u64| outcome_holds(getdel_spec(old(self)@, current_db as int, arg_views(args@), now), r, final(self)@),
    {
        let now = unix_time_millis();
        let r = self.getdel_at(args, current_db, now);
        proof {
            assert(outcome_holds(getdel_spec(old(self)@, current_db as int, arg_views(args@), now), r, self@));
        }
        r
    }

    /// SETNX at time `now`.
    pub fn setnx_at(&mut self, args: &[Vec<u8>], current_db: usize, now: u64) -> (r: Result<RespValue, AikvError>)
        requires
            old(self).wf(),
        ensures
            final(self).wf(),
            outcome_holds(setnx_spec(old(self)@, current_db as int, arg_views(args@), now), r, final(self)@),
    {
        proof {
            lemma_arg_views(args@);
        }
        if args.len() != 2 {
            return Err(arity_error("SETNX"));
        }
        if current_db >= self.storage.num_dbs() {
            return Err(db_range_error());
        }
        let key = arg_text(&args[0]);
        if self.storage.exists_in_db(current_db, key.as_str(), now) {
            Ok(RespValue::integer(0))
        } else {
            self.storage.set_value(current_db, key, StoredValue::Str(copy_bytes(&args[1])), None);
            Ok(RespValue::integer(1))
        }
    }

    /// SETNX key value: sets the key only when it holds nothing; answers 1
    /// when it did.
    pub fn setnx(&mut self, args: &[Vec<u8>], current_db: usize) -> (r: Result<RespValue, AikvError>)
        requires
            old(self).wf(),
        ensures
            final(self).wf(),
            exists|now: u64| outcome_holds(setnx_spec(old(self)@, current_db as int, arg_views(args@), now), r, final(self)@),
    {
        let now = unix_time_millis();
        let r = self.setnx_at(args, current_db, now);
        proof {
            assert(outcome_holds(setnx_spec(old(self)@, current_db as int, arg_views(args@), now), r, self@));
        }
        r
    }

    /// SETEX (PSETEX when `millis`) at time `now`.
    pub fn setex_at(&mut self, args: &[Vec<u8>], current_db: usize, now: u64, millis: bool) -> (r: Result<
        RespValue,
        AikvError,
    >)
        requires
            old(self).wf(),
        ensures
            final(self).wf(),
            outcome_holds(setex_spec(old(self)@, current_db as int, arg_views(args@), now, millis), r, final(self)@),
    {
        proof {
            lemma_arg_views(args@);
        }
        if args.len() != 3 {
            return Err(arity_error(
                if millis {
                    "PSETEX"
                } else {
                    "SETEX"
                },
            ));
        }
        let n = match arg_u64(&args[1]) {
            Some(v) => v,
            None => {
                return Err(invalid_error("ERR value is not an integer or out of range"));
            },
        };
        let expire_at: Option<u64> = if millis {
            if now <= u64::MAX - n {
                Some(now + n)
            } else {
                None
            }
        } else if n <= u64::MAX / 1000 && now <= u64::MAX - n * 1000 {
            Some(now + n * 1000)
        } else {
            None
        };
        let t = match expire_at {
            Some(t) => t,
            None => {
                return Err(invalid_error(
                    if millis {
                        "ERR invalid expire time in 'psetex' command"
                    } else {
                        "ERR invalid expire time in 'setex' command"
                    },
                ));
            },
        };
        if current_db >= self.storage.num_dbs() {
            return Err(db_range_error());
        }
        let key = arg_text(&args[0]);
        self.storage.set_value(current_db, key, StoredValue::Str(copy_bytes(&args[2])), Some(t));
        Ok(RespValue::ok())
    }

    /// SETEX key seconds value: sets the key to expire after the seconds.
    pub fn setex(&mut self, args: &[Vec<u8>], current_db: usize) -> (r: Result<RespValue, AikvError>)
        requires
            old(self).wf(),
        ensures
            final(self).wf(),
            exists|now: u64| outcome_holds(setex_spec(old(self)@, current_db as int, arg_views(args@), now, false), r, final(self)@),
    {
        let now = unix_time_millis();
        let r = self.setex_at(args, current_db, now, false);
        proof {
            assert(outcome_holds(setex_spec(old(self)@, current_db as int, arg_views(args@), now, false), r, self@));
        }
        r
    }

    /// PSETEX key milliseconds value: sets the key to expire after the
    /// milliseconds.
    pub fn psetex(&mut self, args: &[Vec<u8>], current_db: usize) -> (r: Result<RespValue, AikvError>)
        requires
            old(self).wf(),
        ensures
            final(self).wf(),
            exists|now: u64| outcome_holds(setex_spec(old(self)@, current_db as int, arg_views(args@), now, true), r, final(self)@),
    {
        let now = unix_time_millis();
        let r = self.setex_at(args, current_db, now, true);
        proof {
            assert(outcome_holds(setex_spec(old(self)@, current_db as int, arg_views(args@), now, true), r, self@));
        }
        r
    }
}

} // verus!

verus! {

// ---------------------------------------------------------------------------
// Laws
// ---------------------------------------------------------------------------

/// After a plain `SET key value` succeeds, `GET key` answers the value at
/// any later time.
pub proof fn law_set_then_get(m: Seq<DbView>, db: int, key: Seq<u8>, value: Seq<u8>, t1: u64, t2: u64)
    requires
        db_ok(m, db),
    ensures
        set_spec(m, db, seq![key, value], t1).0 == ok_reply(),
        get_spec(set_spec(m, db, seq![key, value], t1).1, db, seq![key], t2).0 == Reply::Bulk(value),
{
    let args = seq![key, value];
    assert(set_options(args, 2, SetOptions { nx: false, xx: false, expire_ms: None }) == Ok::<
        SetOptions,
        Seq<char>,
    >(SetOptions { nx: false, xx: false, expire_ms: None }));
}

/// A value set with `PX ms` at time `t1` is read back before `t1 + ms` and
/// reads as absent from then on.
pub proof fn law_set_px_expires(
    m: Seq<DbView>,
    db: int,
    key: Seq<u8>,
    value: Seq<u8>,
    px: Seq<u8>,
    ms_arg: Seq<u8>,
    ms: u64,
    t1: u64,
    t2: u64,
)
    requires
        db_ok(m, db),
        option_of(px) == "PX"@,
        u64_arg(ms_arg) == Some(ms as nat),
        t1 + ms <= u64::MAX,
    ensures
        set_spec(m, db, seq![key, value, px, ms_arg], t1).0 == ok_reply(),
        get_spec(set_spec(m, db, seq![key, value, px, ms_arg], t1).1, db, seq![key], t2).0 == (if t2 < t1 + ms {
            Reply::Bulk(value)
        } else {
            Reply::NullBulk
        }),
{
    reveal_strlit("PX");
    reveal_strlit("NX");
    reveal_strlit("XX");
    reveal_strlit("EX");
    let args = seq![key, value, px, ms_arg];
    let init = SetOptions { nx: false, xx: false, expire_ms: None };
    let fin = SetOptions { nx: false, xx: false, expire_ms: Some(ms) };
    assert("PX"@[0] != "NX"@[0]);
    assert("PX"@[0] != "XX"@[0]);
    assert(set_options(args, 4, fin) == Ok::<SetOptions, Seq<char>>(fin));
    assert(set_options(args, 2, init) == set_options(args, 4, fin));
}

/// After `DEL key`, `GET key` answers the null bulk string.
pub proof fn law_del_then_get(m: Seq<DbView>, db: int, key: Seq<u8>, t1: u64, t2: u64)
    requires
        db_ok(m, db),
    ensures
        get_spec(del_spec(m, db, seq![key], t1).1, db, seq![key], t2).0 == Reply::NullBulk,
{
    let keys = seq![key];
    assert(keys.drop_last() =~= Seq::<Seq<u8>>::empty());
}

/// After `INCR key` answers `n`, `GET key` answers the decimal text of `n`
/// and a second `INCR key` answers `n + 1` (unless that overflows).
pub proof fn law_incr_then_get(m: Seq<DbView>, db: int, key: Seq<u8>, n: int, t1: u64, t2: u64)
    requires
        incr_cmd_spec(m, db, seq![key], t1).0 == Reply::Int(n),
    ensures
        get_spec(incr_cmd_spec(m, db, seq![key], t1).1, db, seq![key], t2).0 == Reply::Bulk(int_bytes(n)),
        n < i64::MAX ==> incr_cmd_spec(incr_cmd_spec(m, db, seq![key], t1).1, db, seq![key], t2).0 == Reply::Int(n + 1),
{
    lemma_int_bytes_round_trip(n);
}

/// `SETNX` sets a key only once: a second `SETNX` of the same key at any
/// later time answers 0 and changes nothing.
pub proof fn law_setnx_once(m: Seq<DbView>, db: int, key: Seq<u8>, v1: Seq<u8>, v2: Seq<u8>, t1: u64, t2: u64)
    requires
        db_ok(m, db),
        setnx_spec(m, db, seq![key, v1], t1).0 == Reply::Int(1),
    ensures
        setnx_spec(setnx_spec(m, db, seq![key, v1], t1).1, db, seq![key, v2], t2) == (
            Reply::Int(0),
            setnx_spec(m, db, seq![key, v1], t1).1,
        ),
{
}

/// `GETRANGE key 0 -1` answers the whole string.
pub proof fn law_getrange_whole(b: Seq<u8>)
    requires
        b.len() <= i64::MAX,
    ensures
        range_of(b, 0, -1) == b,
{
    if b.len() > 0 {
        assert(b.subrange(0, b.len() as int) =~= b);
    }
}

/// `APPEND` answers the length of the old string plus that of the appended
/// bytes, and `GET` then answers their concatenation.
pub proof fn law_append_then_get(m: Seq<DbView>, db: int, key: Seq<u8>, v: Seq<u8>, old_value: Seq<u8>, t1: u64, t2: u64)
    requires
        db_ok(m, db),
        str_lookup(m[db], key_of(key), t1) == StrLookup::Found(old_value),
    ensures
        append_spec(m, db, seq![key, v], t1).0 == Reply::Int((old_value.len() + v.len()) as int),
        get_spec(append_spec(m, db, seq![key, v], t1).1, db, seq![key], t2).0 == Reply::Bulk(old_value + v),
{
}

} // verus!
